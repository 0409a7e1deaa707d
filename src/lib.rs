//! Ingestion and metrics pipeline for line-oriented combat logs.
pub mod bridge;
pub mod bulk;
pub mod bytes;
pub mod columnar;
pub mod directory;
pub mod event_models;
pub mod interner;
pub mod materialize;
pub mod meter;
pub mod metrics;
pub mod overlay_window;
pub mod parser;
pub mod service;
pub mod session;
pub mod tail;
