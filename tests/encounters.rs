use baras::event_models::CombatEvent;
use baras::interner::Interner;
use baras::metrics::{per_second, MetricSet};
use baras::parser::parse_line;
use baras::session::{elapsed_ms, EndReason, GameSignal, ParsingSession};
use baras::event_models::Timestamp;
use baras::tail::{FileObservation, TailAction, TailReader};

fn parse(interner: &mut Interner, n: usize, line: &str) -> CombatEvent {
    parse_line(n, line.as_bytes(), interner).expect("valid line")
}

const ENTER: &str = "[20:00:00.000] [@Alice#100] [] [] [Event {836045448945472}: EnterCombat {836045448945489}]";
const HIT: &str = "[20:00:00.500] [@Alice#100] [Boss {9}:1] [Strike {2}] [ApplyEffect {836045448945477}: Damage {836045448945501}] (100* ~80 energy {7} -shield {8} (20 absorbed {9})) <100.0>";
const EXIT: &str = "[20:00:01.000] [@Alice#100] [] [] [Event {836045448945472}: ExitCombat {836045448945490}]";

#[test]
fn one_encounter_with_metrics() {
    let mut interner = Interner::new();
    let mut session = ParsingSession::new();
    let mut signals = Vec::new();
    for (n, line) in [ENTER, HIT, EXIT].iter().enumerate() {
        let e = parse(&mut interner, n + 1, line);
        signals.extend(session.process_event(e));
    }
    assert_eq!(
        signals,
        vec![
            GameSignal::CombatStarted { encounter: 0, line_number: 1 },
            GameSignal::CombatEnded { encounter: 0, reason: EndReason::ExitCombat },
        ]
    );
    assert!(!session.in_combat());
    let encounters = session.encounters();
    assert_eq!(encounters.len(), 1);
    let enc = &encounters[0];
    assert_eq!(enc.events.len(), 3);
    assert_eq!(enc.duration_ms(), 1000);
    assert_eq!(enc.end_reason, Some(EndReason::ExitCombat));
    let alice = interner.intern(b"Alice");
    let boss = interner.intern(b"Boss");
    let m = enc.metrics_for(alice).expect("Alice has a record");
    assert_eq!(m.total_damage, 100);
    assert_eq!(m.total_effective_damage, 80);
    assert_eq!(m.hit_count, 1);
    assert_eq!(m.crit_count, 1);
    assert_eq!(m.total_threat, 100);
    let b = enc.metrics_for(boss).expect("Boss has a record");
    assert_eq!(b.total_damage_taken, 100);
    assert_eq!(b.total_effective_damage_taken, 80);
    assert_eq!(b.total_absorbed, 20);
    let hit = &enc.events[1];
    assert_eq!(hit.damage_reduced, Some(20));
    assert_eq!(hit.reduction_class_id, Some(8));
    assert_eq!(hit.reduction_type_id, Some(9));
    assert_eq!(hit.damage_type_id, Some(7));
    let rows = enc.player_metrics();
    assert_eq!(rows.iter().filter(|r| r.name == alice).count(), 1);
    match session.personal_update(alice) {
        Some(baras::bridge::OverlayUpdate::PersonalStatsUpdated(st)) => {
            assert_eq!(st.total_damage, 100);
            assert_eq!(st.encounter_count, 1);
            assert_eq!(st.damage_crit_pct, 100);
        }
        _ => panic!("expected personal figures"),
    }
    let row = rows.iter().find(|r| r.name == alice).expect("Alice row");
    assert_eq!(row.dps, 100);
    assert_eq!(row.edps, 80);
    assert_eq!(row.total_damage, 100);
}

#[test]
fn second_start_ends_the_first() {
    let mut interner = Interner::new();
    let mut session = ParsingSession::new();
    session.process_event(parse(&mut interner, 1, ENTER));
    let again = ENTER.replace("20:00:00.000", "20:00:02.000");
    let out = session.process_event(parse(&mut interner, 2, &again));
    assert_eq!(
        out,
        vec![
            GameSignal::CombatEnded { encounter: 0, reason: EndReason::Restarted },
            GameSignal::CombatStarted { encounter: 1, line_number: 2 },
        ]
    );
    assert_eq!(session.encounters().len(), 1);
    assert_eq!(session.active().expect("open").index, 1);
}

#[test]
fn out_of_order_events_are_dropped() {
    let mut interner = Interner::new();
    let mut session = ParsingSession::new();
    session.process_event(parse(&mut interner, 5, ENTER));
    let out = session.process_event(parse(&mut interner, 5, HIT));
    assert!(out.is_empty());
    assert_eq!(session.dropped(), 1);
    session.process_event(parse(&mut interner, 6, HIT));
    let lines: Vec<usize> = session.active().expect("open").events.iter().map(|e| e.line_number).collect();
    assert_eq!(lines, vec![5, 6]);
}

#[test]
fn shutdown_truncates_the_open_encounter() {
    let mut interner = Interner::new();
    let mut session = ParsingSession::new();
    session.process_event(parse(&mut interner, 1, ENTER));
    session.process_event(parse(&mut interner, 2, HIT));
    let out = session.finish(EndReason::Truncated);
    assert_eq!(out, vec![GameSignal::CombatEnded { encounter: 0, reason: EndReason::Truncated }]);
    assert!(session.finish(EndReason::Truncated).is_empty());
    assert_eq!(session.encounters()[0].events.len(), 2);
    session.process_event(parse(&mut interner, 3, &ENTER.replace("20:00:00.000", "20:05:00.000")));
    assert_eq!(session.active().expect("new encounter").index, 1);
}

#[test]
fn idle_events_are_not_forwarded() {
    let mut interner = Interner::new();
    let mut session = ParsingSession::new();
    let out = session.process_event(parse(&mut interner, 1, HIT));
    assert!(out.is_empty());
    assert!(session.encounters().is_empty());
    let out = session.process_event(parse(&mut interner, 2, EXIT));
    assert!(out.is_empty());
    let area = "[20:00:03.000] [@Alice#100] [] [] [AreaEntered {836045448953664}: Dxun {833571547775792}]";
    let out = session.process_event(parse(&mut interner, 3, area));
    let dxun = interner.intern(b"Dxun");
    assert_eq!(out, vec![GameSignal::AreaEntered { area: Some(dxun), line_number: 3 }]);
    assert_eq!(session.area(), Some(dxun));
    session.process_event(parse(&mut interner, 4, &ENTER.replace("20:00:00.000", "20:00:04.000")));
    assert_eq!(session.active().expect("open").area, Some(dxun));
}

#[test]
fn rates_round_toward_zero() {
    assert_eq!(per_second(100, 1000), 100);
    assert_eq!(per_second(100, 0), 100000);
    assert_eq!(per_second(1000, 3000), 333);
    assert_eq!(per_second(-1000, 3000), -333);
    let total: i128 = 123457;
    let d: u32 = 61234;
    let r = per_second(total, d);
    assert!(r * d as i128 <= total * 1000 && total * 1000 < (r + 1) * d as i128);
}

#[test]
fn elapsed_crosses_midnight() {
    let late = Timestamp { hour: 23, minute: 59, second: 59, millis: 500 };
    let early = Timestamp { hour: 0, minute: 0, second: 0, millis: 250 };
    assert_eq!(elapsed_ms(&late, &early), 750);
    assert_eq!(elapsed_ms(&early, &late), 86_399_250);
}

#[test]
fn empty_metric_set() {
    let set = MetricSet::new();
    assert!(set.records.is_empty());
}

#[test]
fn window_metrics_count_only_events_inside() {
    let mut interner = Interner::new();
    let mut session = ParsingSession::new();
    let later_hit = HIT.replace("20:00:00.500", "20:00:00.900").replace("(100* ~80 energy {7} -shield {8} (20 absorbed {9}))", "(60)");
    for (n, line) in [ENTER, HIT, later_hit.as_str(), EXIT].iter().enumerate() {
        session.process_event(parse(&mut interner, n + 1, line));
    }
    let enc = &session.encounters()[0];
    let alice = interner.intern(b"Alice");
    let first_half = enc.window_metrics(alice, 0, 500);
    assert_eq!(first_half.total_damage, 100);
    assert_eq!(first_half.dps, 200);
    assert_eq!(first_half.entity_id, 100);
    let whole = enc.window_metrics(alice, 0, 1000);
    assert_eq!(whole.total_damage, 160);
    assert_eq!(whole.dps, 160);
    let instant = enc.window_metrics(alice, 900, 900);
    assert_eq!(instant.total_damage, 60);
    assert_eq!(instant.dps, 60000);
}

#[test]
fn truncated_file_seals_and_restarts() {
    let mut interner = Interner::new();
    let mut session = ParsingSession::new();
    let mut reader = TailReader::new(0);
    let text = format!("{}\n{}\n", ENTER, HIT);
    assert_eq!(
        reader.observe(FileObservation::Present { size: text.len() as u64, inode: 7 }),
        TailAction::Read { from: 0, to: text.len() as u64 }
    );
    for (n, line) in reader.feed(text.as_bytes()).iter().enumerate() {
        let e = parse_line(n + 1, line, &mut interner).expect("valid line");
        session.process_event(e);
    }
    assert!(session.in_combat());
    assert_eq!(reader.observe(FileObservation::Present { size: 0, inode: 7 }), TailAction::Reset);
    let out = session.finish(EndReason::Truncated);
    assert_eq!(out, vec![GameSignal::CombatEnded { encounter: 0, reason: EndReason::Truncated }]);
    reader.reset_done();
    let again = ENTER.replace("20:00:00.000", "20:10:00.000");
    let e = parse_line(3, again.as_bytes(), &mut interner).expect("valid line");
    let out = session.process_event(e);
    assert_eq!(out, vec![GameSignal::CombatStarted { encounter: 1, line_number: 3 }]);
}
