use baras::bridge::{create_all_entries, create_entries_for_type, top_entries, Color, MeterEntry, MetricType, OverlayCommand, OverlayData};
use baras::meter::MeterOverlay;
use baras::directory::{build_index, is_combat_log, log_date, process_event, DirectoryEvent, FsEventKind, LogDate};
use baras::interner::IStr;
use baras::metrics::PlayerMetrics;
use baras::overlay_window::{OverlayConfig, OverlayWindow, PlatformError, PlatformEvent};
use baras::tail::{FileObservation, TailAction, TailReader, TailState};

fn row(index: u32, dps: i128) -> PlayerMetrics {
    PlayerMetrics {
        entity_id: index as i64,
        name: IStr { index },
        dps,
        edps: dps / 2,
        hps: 0,
        ehps: 0,
        dtps: 0,
        edtps: 0,
        tps: 0,
        abs: 0,
        total_damage: dps,
        total_effective_damage: dps / 2,
        total_healing: 0,
        total_effective_healing: 0,
    }
}

#[test]
fn entries_sorted_highest_first() {
    let rows = vec![row(0, 50), row(1, 300), row(2, 120), row(3, 300)];
    let entries = create_entries_for_type(MetricType::Dps, &rows);
    let values: Vec<i128> = entries.iter().map(|e| e.value).collect();
    assert_eq!(values, vec![300, 300, 120, 50]);
    let names: Vec<u32> = entries.iter().map(|e| e.name.index).collect();
    assert_eq!(names, vec![1, 3, 2, 0]);
    assert!(entries.iter().all(|e| e.max_value == 300));
    assert!(entries.iter().all(|e| e.color == MetricType::Dps.bar_color()));
    assert_eq!(MetricType::Dps.bar_color(), Color { r: 200, g: 50, b: 50, a: 255 });
}

#[test]
fn top_entries_keep_the_highest() {
    let rows = vec![row(0, 50), row(1, 300), row(2, 120), row(3, 7)];
    let top = top_entries(MetricType::Dps, &rows, 2);
    let names: Vec<u32> = top.iter().map(|e| e.name.index).collect();
    assert_eq!(names, vec![1, 2]);
    assert_eq!(top_entries(MetricType::Dps, &rows, 8).len(), 4);
    assert!(top_entries(MetricType::Dps, &rows, 0).is_empty());
}

#[test]
fn scale_is_at_least_one() {
    let rows = vec![row(0, 0), row(1, -5)];
    let entries = create_entries_for_type(MetricType::Hps, &rows);
    assert!(entries.iter().all(|e| e.max_value == 1));
    assert!(create_entries_for_type(MetricType::Dps, &[]).is_empty());
}

#[test]
fn all_kinds_in_display_order() {
    let rows = vec![row(0, 10), row(1, 40)];
    let all = create_all_entries(&rows);
    let kinds: Vec<MetricType> = all.iter().map(|(k, _)| *k).collect();
    assert_eq!(kinds, MetricType::all());
    let (_, edps) = &all[1];
    let values: Vec<i128> = edps.iter().map(|e| e.value).collect();
    assert_eq!(values, vec![20, 5]);
}

#[test]
fn tail_follows_appends_and_frames_lines() {
    let mut t = TailReader::new(0);
    assert_eq!(t.observe(FileObservation::Present { size: 10, inode: 1 }), TailAction::Read { from: 0, to: 10 });
    let lines = t.feed(b"one\ntwo\nth");
    assert_eq!(lines, vec![b"one".to_vec(), b"two".to_vec()]);
    assert_eq!(t.partial, b"th".to_vec());
    assert_eq!(t.offset, 10);
    let lines = t.feed(b"ree\n");
    assert_eq!(lines, vec![b"three".to_vec()]);
    assert!(t.partial.is_empty());
    assert_eq!(t.observe(FileObservation::Present { size: 14, inode: 1 }), TailAction::Wait);
}

#[test]
fn tail_rewinds_on_truncation() {
    let mut t = TailReader::new(0);
    t.observe(FileObservation::Present { size: 20, inode: 1 });
    t.feed(b"[10:00:00.000] [@A#1");
    assert_eq!(t.observe(FileObservation::Present { size: 0, inode: 1 }), TailAction::Reset);
    assert_eq!(t.state, TailState::Rewound);
    assert_eq!(t.offset, 0);
    assert!(t.partial.is_empty());
    t.reset_done();
    assert_eq!(t.state, TailState::Following);
    assert_eq!(t.observe(FileObservation::Present { size: 5, inode: 1 }), TailAction::Read { from: 0, to: 5 });
}

#[test]
fn tail_survives_rename_and_removal() {
    let mut t = TailReader::new(0);
    t.observe(FileObservation::Present { size: 4, inode: 1 });
    t.feed(b"abcd");
    assert_eq!(t.observe(FileObservation::Present { size: 40, inode: 2 }), TailAction::Reset);
    t.reset_done();
    assert_eq!(t.observe(FileObservation::Missing), TailAction::ReportMissing);
    assert_eq!(t.observe(FileObservation::Missing), TailAction::Wait);
    assert_eq!(t.state, TailState::Gone);
    assert_eq!(t.observe(FileObservation::Present { size: 3, inode: 3 }), TailAction::Reset);
    assert_eq!(t.offset, 0);
}

fn config() -> OverlayConfig {
    OverlayConfig { x: 10, y: 20, width: 200, height: 100, click_through: false }
}

#[test]
fn overlay_creation_checks_size() {
    assert!(matches!(
        OverlayWindow::new(OverlayConfig { width: u32::MAX, height: u32::MAX, ..config() }),
        Err(PlatformError::InvalidSize)
    ));
    let empty = OverlayWindow::new(OverlayConfig { width: 0, ..config() }).expect("an empty buffer is addressable");
    assert_eq!(empty.pixel_buffer().len(), 0);
    let w = OverlayWindow::new(config()).expect("valid size");
    assert_eq!((w.width(), w.height()), (200, 100));
    assert_eq!(w.pixel_buffer().len(), 200 * 100 * 4);
}

#[test]
fn overlay_resize_gesture() {
    let mut w = OverlayWindow::new(config()).expect("valid size");
    w.push_event(PlatformEvent::PointerMotion { x: 195, y: 95 });
    assert!(w.poll_events());
    assert!(w.in_resize_corner());
    w.push_event(PlatformEvent::ButtonPress);
    w.push_event(PlatformEvent::PointerMotion { x: 299, y: 149 });
    w.poll_events();
    assert!(w.is_resizing());
    assert_eq!(w.pending_size(), Some((300, 150)));
    w.push_event(PlatformEvent::ButtonRelease);
    w.poll_events();
    assert!(!w.is_resizing());
    assert_eq!((w.width(), w.height()), (300, 150));
    assert_eq!(w.pixel_buffer().len(), 300 * 150 * 4);
}

#[test]
fn overlay_click_through_ignores_gesture_and_closes() {
    let mut w = OverlayWindow::new(config()).expect("valid size");
    w.set_click_through(true);
    w.set_position(5, 6);
    w.push_event(PlatformEvent::PointerMotion { x: 199, y: 99 });
    w.push_event(PlatformEvent::ButtonPress);
    w.poll_events();
    assert!(!w.is_resizing());
    w.set_size(0, 10);
    assert_eq!((w.width(), w.height()), (0, 10));
    assert!(w.pixel_buffer().is_empty());
    w.set_size(50, 10);
    assert_eq!((w.width(), w.height()), (50, 10));
    w.commit();
    w.commit();
    assert_eq!(w.frames(), 2);
    w.push_event(PlatformEvent::Closed);
    assert!(!w.poll_events());
}

#[test]
fn overlay_run_renders_until_closed() {
    let mut w = OverlayWindow::new(OverlayConfig { width: 2, height: 1, ..config() }).expect("valid size");
    let batches = vec![
        vec![PlatformEvent::PointerMotion { x: 1, y: 0 }],
        vec![],
        vec![PlatformEvent::Closed],
        vec![PlatformEvent::PointerLeave],
    ];
    let handled = w.run(batches, |st| vec![7u8; (st.width * st.height * 4) as usize]);
    assert_eq!(handled, 3);
    assert_eq!(w.frames(), 2);
    assert_eq!(w.pixel_buffer(), &[7u8; 8][..]);
    assert!(!w.poll_events());
}

#[test]
fn combat_log_names() {
    assert!(is_combat_log(b"combat_2024-01-15_20_30_00_123456.txt"));
    assert!(!is_combat_log(b"combat_2024.log"));
    assert!(!is_combat_log(b"chat_2024.txt"));
    assert!(!is_combat_log(b"combat_.tx"));
}

#[test]
fn index_keeps_logs_and_finds_newest() {
    let files = vec![
        (b"combat_2024-01-15_20_30_00_1.txt".to_vec(), 100),
        (b"notes.txt".to_vec(), 5),
        (b"combat_2024-02-01_10_00_00_1.txt".to_vec(), 0),
        (b"combat_2023-12-31_23_59_59_1.txt".to_vec(), 7),
    ];
    let (mut index, newest) = build_index(files);
    assert_eq!(index.len(), 3);
    assert_eq!(newest, Some(1));
    assert!(index.entries[1].is_empty);
    assert_eq!(index.entries[1].path, b"combat_2024-02-01_10_00_00_1.txt".to_vec());
    assert_eq!(index.entries[1].date, Some(LogDate { year: 2024, month: 2, day: 1 }));
    assert!(index.entries[0].character_name.is_none());
    index.set_character(0, b"[20:30:00.000] [@Galen Ayder#690129185314118|(1,2,3,4)|(1/2)] [] [] [AreaEntered {1}: Dxun {2}]");
    assert_eq!(index.entries[0].character_name, Some(b"Galen Ayder".to_vec()));
    index.set_character(1, b"[20:30:00.000] [Boss {1}:2]");
    assert!(index.entries[1].character_name.is_none());
    assert_eq!(log_date(b"combat_20x4-01-01.txt"), None);
    let (empty, none) = build_index(Vec::new());
    assert_eq!(empty.len(), 0);
    assert_eq!(none, None);
}

#[test]
fn watcher_events_pick_first_log() {
    let paths = vec![b"x.txt".to_vec(), b"combat_a.txt".to_vec(), b"combat_b.txt".to_vec()];
    match process_event(FsEventKind::Create, paths.clone()) {
        Some(DirectoryEvent::NewFile(p)) => assert_eq!(p, b"combat_a.txt".to_vec()),
        _ => panic!("expected a new file"),
    }
    assert!(matches!(process_event(FsEventKind::Remove, paths.clone()), Some(DirectoryEvent::FileRemoved(_))));
    assert!(process_event(FsEventKind::Other, paths).is_none());
    assert!(process_event(FsEventKind::Modify, vec![b"x.txt".to_vec()]).is_none());
}

#[test]
fn meter_layout_scales_bars() {
    let mut meter = MeterOverlay::new(OverlayConfig { x: 0, y: 0, width: 216, height: 90, click_through: true }, "DPS")
        .expect("valid size");
    assert_eq!(meter.title(), "DPS");
    meter.set_title("Damage");
    assert_eq!(meter.title(), "Damage");
    let entry = |index: u32, value: i128| MeterEntry { name: IStr { index }, value, max_value: 400, color: Color { r: 0, g: 0, b: 0, a: 255 } };
    meter.set_entries(vec![entry(0, 400), entry(1, 100), entry(2, -3), entry(3, 50)]);
    let bars = meter.layout();
    assert_eq!(bars.len(), 3);
    assert_eq!(bars.iter().map(|b| b.y).collect::<Vec<u32>>(), vec![36, 60, 84]);
    assert_eq!(bars.iter().map(|b| b.fill_width).collect::<Vec<u32>>(), vec![200, 50, 0]);
    assert!(meter.apply_command(OverlayCommand::SetMoveMode(true)));
    assert!(!meter.window().pixel_buffer().is_empty());
    assert!(meter.apply_command(OverlayCommand::CombatEnded));
    assert_eq!(meter.layout().len(), 3);
    assert!(meter.apply_command(OverlayCommand::CombatStarted));
    assert!(meter.layout().is_empty());
    assert!(meter.apply_command(OverlayCommand::UpdateData(OverlayData::Metrics(vec![entry(5, 200)]))));
    assert_eq!(meter.layout()[0].fill_width, 100);
    assert!(!meter.apply_command(OverlayCommand::Shutdown));
    assert!(MeterOverlay::new(OverlayConfig { x: 0, y: 0, width: u32::MAX, height: u32::MAX, click_through: true }, "x").is_err());
}
