use baras::bridge::{lifecycle_command, Offer, overlay_update_for, MeterEntry, Color, OverlayCommand, OverlayData, OverlayUpdate, Outbox};
use baras::directory::build_index;
use baras::interner::{IStr, Interner};
use baras::columnar::encode_encounter;
use baras::materialize::{after_write, column_file_name, materialize, PersistState};
use baras::parser::parse_line;
use baras::service::{CombatService, ServiceAction, ServiceCommand};
use baras::session::{EndReason, GameSignal, ParsingSession};

fn metrics_command(value: i128) -> OverlayCommand {
    OverlayCommand::UpdateData(OverlayData::Metrics(vec![MeterEntry {
        name: IStr { index: 0 },
        value,
        max_value: value,
        color: Color { r: 1, g: 2, b: 3, a: 4 },
    }]))
}

fn value_of(cmd: OverlayCommand) -> i128 {
    match cmd {
        OverlayCommand::UpdateData(OverlayData::Metrics(entries)) => entries[0].value,
        _ => panic!("expected metrics"),
    }
}

#[test]
fn full_metric_channel_keeps_latest_tick() {
    let mut metric = Outbox::new(1);
    let mut personal = Outbox::new(8);
    assert_eq!(metric.offer(metrics_command(1)), Offer::Queued);
    assert_eq!(metric.offer(metrics_command(2)), Offer::ReplacedOldest);
    assert_eq!(personal.offer(OverlayCommand::SetMoveMode(true)), Offer::Queued);
    assert_eq!(personal.offer(OverlayCommand::SetMoveMode(false)), Offer::Queued);
    assert_eq!(metric.len(), 1);
    assert_eq!(value_of(metric.take().expect("latest tick")), 2);
    assert!(metric.take().is_none());
    assert_eq!(personal.len(), 2);
    assert!(matches!(personal.take(), Some(OverlayCommand::SetMoveMode(true))));
    assert!(matches!(personal.take(), Some(OverlayCommand::SetMoveMode(false))));
}

#[test]
fn lifecycle_commands_are_never_evicted() {
    let mut outbox = Outbox::new(2);
    assert_eq!(outbox.offer(OverlayCommand::CombatEnded), Offer::Queued);
    assert_eq!(outbox.offer(metrics_command(1)), Offer::Queued);
    assert_eq!(outbox.offer(metrics_command(2)), Offer::ReplacedOldest);
    assert_eq!(outbox.offer(OverlayCommand::CombatStarted), Offer::ReplacedOldest);
    assert_eq!(outbox.offer(metrics_command(3)), Offer::Refused);
    assert!(matches!(outbox.take(), Some(OverlayCommand::CombatEnded)));
    assert!(matches!(outbox.take(), Some(OverlayCommand::CombatStarted)));
}

#[test]
fn lifecycle_signals_become_overlay_updates() {
    assert!(matches!(overlay_update_for(&GameSignal::CombatStarted { encounter: 0, line_number: 1 }), Some(OverlayUpdate::CombatStarted)));
    assert!(matches!(overlay_update_for(&GameSignal::CombatEnded { encounter: 0, reason: EndReason::Truncated }), Some(OverlayUpdate::CombatEnded)));
    assert!(overlay_update_for(&GameSignal::PhaseStart { encounter: 0, line_number: 3 }).is_none());
    assert!(matches!(lifecycle_command(&OverlayUpdate::CombatStarted), Some(OverlayCommand::CombatStarted)));
    assert!(matches!(lifecycle_command(&OverlayUpdate::CombatEnded), Some(OverlayCommand::CombatEnded)));
    assert!(lifecycle_command(&OverlayUpdate::MetricsUpdated(Vec::new())).is_none());
}

#[test]
fn materialized_rows_read_back_as_events() {
    let mut interner = Interner::new();
    let mut session = ParsingSession::new();
    let lines = [
        "[20:00:00.000] [@Alice#100] [] [] [Event {1}: EnterCombat {2}]",
        "[20:00:00.250] [@Alice#100] [Boss {9}:1] [Strike {2}] [ApplyEffect {3}: Damage {4}] (40)",
        "[20:00:01.500] [@Alice#100] [@Alice#100] [Mend {5}] [ApplyEffect {3}: Heal {6}] (30* ~20)",
        "[20:00:02.000] [@Alice#100] [] [] [Event {1}: ExitCombat {7}]",
    ];
    for (n, line) in lines.iter().enumerate() {
        let e = parse_line(n + 1, line.as_bytes(), &mut interner).expect("valid line");
        session.process_event(e);
    }
    let enc = &session.encounters()[0];
    let cols = materialize(enc);
    assert_eq!(cols.encounter_index, 0);
    assert_eq!(cols.len(), 4);
    assert_eq!(cols.elapsed_ms, vec![0, 250, 1500, 2000]);
    assert_eq!(cols.damage, vec![None, Some(40), None, None]);
    assert_eq!(cols.heal, vec![None, None, Some(30), None]);
    assert_eq!(cols.read_back(), enc.events);
    let file = encode_encounter(enc, &interner);
    assert_eq!(&file[0..8], &4u64.to_le_bytes());
    assert_eq!(&file[8..16], &39u64.to_le_bytes());
    // column 0: line numbers 1..=4, each a tag and sixteen bytes
    assert_eq!(file[16], 1);
    assert_eq!(&file[17..33], &1u128.to_le_bytes());
    assert_eq!(file[33], 1);
    assert_eq!(&file[34..50], &2u128.to_le_bytes());
    let dict_len: usize = 8 + (0..interner.len() as u32)
        .map(|k| 8 + interner.resolve(baras::interner::IStr { index: k }).len())
        .sum::<usize>();
    let columns_end = file.len() - dict_len;
    assert_eq!(&file[columns_end..columns_end + 8], &(interner.len() as u64).to_le_bytes());
    let first_name = interner.resolve(baras::interner::IStr { index: 0 });
    let len = first_name.len();
    assert_eq!(&file[columns_end + 8..columns_end + 16], &(len as u64).to_le_bytes());
    assert_eq!(&file[columns_end + 16..columns_end + 16 + len], first_name.as_bytes());
    let alice = interner.intern(b"Alice");
    let stats = enc.personal_stats(alice, 1).expect("Alice took part");
    assert_eq!(stats.total_damage, 40);
    assert_eq!(stats.dps, 20);
    assert_eq!(stats.total_healing, 30);
    assert_eq!(stats.heal_crit_pct, 100);
    assert_eq!(stats.damage_crit_pct, 0);
    assert_eq!(stats.effective_heal_pct, 66);
    assert_eq!(stats.encounter_time_secs, 2);
    assert!(enc.personal_stats(IStr { index: 999 }, 1).is_none());
}

#[test]
fn service_commands_stop_before_start() {
    let mut service = CombatService::new();
    let a = service.handle_command(ServiceCommand::StartTailing("a.txt".to_string()));
    assert!(matches!(a.as_slice(), [ServiceAction::StartTail(p)] if p == "a.txt"));
    let b = service.handle_command(ServiceCommand::StartTailing("b.txt".to_string()));
    assert!(matches!(b.as_slice(), [ServiceAction::StopTail(EndReason::Cancelled), ServiceAction::StartTail(p)] if p == "b.txt"));
    assert!(service.is_tailing());
    let c = service.handle_command(ServiceCommand::RefreshIndex);
    assert!(matches!(c.as_slice(), [ServiceAction::RebuildIndex]));
    let d = service.handle_command(ServiceCommand::Shutdown);
    assert!(matches!(d.as_slice(), [ServiceAction::StopTail(EndReason::Truncated), ServiceAction::Exit]));
    assert!(!service.is_tailing());
    assert!(service.handle_command(ServiceCommand::StopTailing).is_empty());
}

#[test]
fn index_follows_watcher_changes() {
    let (mut index, _) = build_index(vec![(b"combat_1.txt".to_vec(), 3)]);
    assert!(index.add_file(b"combat_2.txt".to_vec(), 0));
    assert!(!index.add_file(b"combat_2.txt".to_vec(), 0));
    assert!(!index.add_file(b"readme.md".to_vec(), 1));
    assert_eq!(index.len(), 2);
    assert!(index.remove_file(b"combat_1.txt"));
    assert!(!index.remove_file(b"combat_1.txt"));
    assert_eq!(index.len(), 1);
    assert_eq!(index.entries[0].path, b"combat_2.txt".to_vec());
}

#[test]
fn column_files_are_named_by_padded_index() {
    assert_eq!(column_file_name(0), b"encounter_0000.col".to_vec());
    assert_eq!(column_file_name(42), b"encounter_0042.col".to_vec());
    assert_eq!(column_file_name(12345), b"encounter_12345.col".to_vec());
}

#[test]
fn failed_write_is_retried_once() {
    assert_eq!(after_write(PersistState::Pending, true), PersistState::Persisted);
    assert_eq!(after_write(PersistState::Pending, false), PersistState::Retry);
    assert_eq!(after_write(PersistState::Retry, true), PersistState::Persisted);
    assert_eq!(after_write(PersistState::Retry, false), PersistState::NotPersisted);
    assert_eq!(after_write(PersistState::NotPersisted, true), PersistState::NotPersisted);
}
