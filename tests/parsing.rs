use baras::bulk::{intern_lines, line_ranges, parse_lines};
use baras::parser::parse_line_parts;
use baras::event_models::{EffectKind, EntityType, Health};
use baras::interner::Interner;
use baras::parser::{parse_entity_name_id, parse_line, parse_payload, parse_timestamp};
use baras::bytes::parse_i64;

fn name_of(interner: &Interner, key: Option<baras::interner::IStr>) -> String {
    interner.resolve(key.expect("a name")).to_string()
}

#[test]
fn timestamp_alone_is_malformed() {
    let mut interner = Interner::new();
    assert!(parse_line(1, b"[19:02:15.300]", &mut interner).is_none());
    assert_eq!(interner.len(), 0);
}

#[test]
fn player_source_only() {
    let mut interner = Interner::new();
    let e = parse_line(7, b"[19:02:15.300] [@Alice#100]", &mut interner).expect("valid line");
    assert_eq!(e.line_number, 7);
    assert_eq!((e.timestamp.hour, e.timestamp.minute, e.timestamp.second, e.timestamp.millis), (19, 2, 15, 300));
    assert_eq!(name_of(&interner, e.source_entity.name), "Alice");
    assert_eq!(e.source_entity.log_id, 100);
    assert_eq!(e.source_entity.class_id, 0);
    assert_eq!(e.source_entity.entity_type, EntityType::Player);
    assert!(e.target_entity.is_none());
    assert!(e.action_name.is_none());
    assert!(e.effect_type_name.is_none());
    assert!(e.damage.is_none());
    assert!(e.threat.is_none());
    assert_eq!(e.effect_kind, EffectKind::Other);
}

#[test]
fn companion_source() {
    let mut interner = Interner::new();
    let e = parse_line(1, b"[19:02:15.300] [@Alice#100/Pet {5}:7]", &mut interner).expect("valid line");
    assert_eq!(name_of(&interner, e.source_entity.name), "Pet");
    assert_eq!(e.source_entity.class_id, 5);
    assert_eq!(e.source_entity.log_id, 7);
    assert_eq!(e.source_entity.entity_type, EntityType::Companion);
}

#[test]
fn full_damage_line() {
    let mut interner = Interner::new();
    let line = b"[22:24:08.137] [@Galen Ayder#690129185314118|(-4700.43,-4750.48,710.03,-0.71)|(1/414851)] [Dread Master Bestia {3273941900591104}:5320000112163|(137.28,-120.98,-8.85,81.28)|(0/19129210)] [Force Lightning {808252402745344}] [ApplyEffect {836045448945477}: Damage {836045448945501}] (2583* ~2000 energy {836045448940874}) <2583.5>";
    let e = parse_line(3, line, &mut interner).expect("valid line");
    assert_eq!(name_of(&interner, e.source_entity.name), "Galen Ayder");
    assert_eq!(e.source_entity.log_id, 690129185314118);
    assert_eq!(name_of(&interner, e.source_entity.coordinates), "(-4700.43,-4750.48,710.03,-0.71)");
    assert_eq!(e.source_entity.health, Some(Health { current: 1, max: 414851 }));
    let t = e.target_entity.expect("a target");
    assert_eq!(name_of(&interner, t.name), "Dread Master Bestia");
    assert_eq!(t.entity_type, EntityType::Npc);
    assert_eq!(t.class_id, 3273941900591104);
    assert_eq!(t.log_id, 5320000112163);
    assert_eq!(t.health, Some(Health { current: 0, max: 19129210 }));
    assert_eq!(name_of(&interner, e.action_name), "Force Lightning");
    assert_eq!(e.action_id, Some(808252402745344));
    assert_eq!(name_of(&interner, e.effect_type_name), "ApplyEffect");
    assert_eq!(e.effect_type_id, Some(836045448945477));
    assert_eq!(name_of(&interner, e.effect_name), "Damage");
    assert_eq!(e.effect_id, Some(836045448945501));
    assert_eq!(e.effect_kind, EffectKind::Damage);
    assert_eq!(e.damage, Some(2583));
    assert_eq!(e.effective_damage, Some(2000));
    assert_eq!(e.is_critical, Some(true));
    assert_eq!(e.heal, None);
    assert_eq!(e.charges, None);
    assert_eq!(e.threat, Some(2583));
    assert_eq!(e.is_reflected, Some(false));
    assert_eq!(e.damage_type_id, Some(836045448940874));
}

#[test]
fn reflected_damage() {
    let mut interner = Interner::new();
    let line = b"[10:00:00.000] [Droid {1}:2] [@Alice#100] [Shot {3}] [ApplyEffect {4}: Damage {5}] (75 kinetic {99} (reflected {77}))";
    let e = parse_line(1, line, &mut interner).expect("valid line");
    assert_eq!(e.damage, Some(75));
    assert_eq!(e.effective_damage, Some(75));
    assert_eq!(e.is_reflected, Some(true));
    assert_eq!(e.damage_type_id, Some(99));
    assert_eq!(e.source_entity.entity_type, EntityType::Npc);
}

#[test]
fn same_line_twice_gives_equal_events() {
    let mut interner = Interner::new();
    let line = b"[10:00:00.000] [@Alice#100] [Boss {1}:2] [Strike {3}] [ApplyEffect {4}: Damage {5}] (50)";
    let first = parse_line(1, line, &mut interner).expect("valid line");
    let size = interner.len();
    let second = parse_line(1, line, &mut interner).expect("valid line");
    assert_eq!(first, second);
    assert_eq!(interner.len(), size);
}

#[test]
fn interner_keys_are_stable_and_dense() {
    let mut interner = Interner::new();
    let a = interner.intern(b"Alice");
    let b = interner.intern(b"Bob");
    let a2 = interner.intern(b"Alice");
    assert_eq!(a, a2);
    assert_ne!(a, b);
    assert_eq!(a.index, 0);
    assert_eq!(b.index, 1);
    assert_eq!(interner.resolve(b), "Bob");
    assert_eq!(interner.len(), 2);
}

#[test]
fn bad_numbers_default_to_zero() {
    assert_eq!(parse_i64(b"123"), 123);
    assert_eq!(parse_i64(b"-45"), -45);
    assert_eq!(parse_i64(b"+7"), 7);
    assert_eq!(parse_i64(b"12a"), 0);
    assert_eq!(parse_i64(b""), 0);
    assert_eq!(parse_i64(b"-"), 0);
    assert_eq!(parse_i64(b"9223372036854775807"), i64::MAX);
    assert_eq!(parse_i64(b"-9223372036854775808"), i64::MIN);
    assert_eq!(parse_i64(b"9223372036854775808"), 0);
    let mut interner = Interner::new();
    let e = parse_line(1, b"[10:00:00.000] [@Alice#100] [Boss {x}:2] [] [ApplyEffect {4}: Heal {5}] (abc*)", &mut interner)
        .expect("numeric faults keep the line");
    assert_eq!(e.target_entity.expect("a target").class_id, 0);
    assert_eq!(e.heal, Some(0));
    assert_eq!(e.effective_heal, Some(0));
    assert_eq!(e.is_critical, Some(true));
    assert_eq!(e.effect_kind, EffectKind::Heal);
}

#[test]
fn timestamp_rejects_out_of_range_fields() {
    assert!(parse_timestamp(b"[24:00:00.000]").is_none());
    assert!(parse_timestamp(b"[23:60:00.000]").is_none());
    assert!(parse_timestamp(b"[2a:00:00.000]").is_none());
    assert!(parse_timestamp(b"[23:59:59.999").is_none());
    let (rest, ts) = parse_timestamp(b"[23:59:59.999] x").expect("valid");
    assert_eq!(rest, b" x");
    assert_eq!((ts.hour, ts.minute, ts.second, ts.millis), (23, 59, 59, 999));
}

#[test]
fn entity_identities() {
    let (name, class_id, log_id, kind) = parse_entity_name_id(b"Dread Master Bestia {3273941900591104}:5320000112163").expect("npc");
    assert_eq!(name, b"Dread Master Bestia");
    assert_eq!((class_id, log_id, kind), (3273941900591104, 5320000112163, EntityType::Npc));
    assert!(parse_entity_name_id(b"@Nobody").is_none());
    let (name, class_id, log_id, kind) = parse_entity_name_id(b"@Alice#abc").expect("a bad id reads as 0");
    assert_eq!((name, class_id, log_id, kind), (&b"Alice"[..], 0, 0, EntityType::Player));
    assert!(parse_entity_name_id(b"@#12").is_none());
    let mut interner = Interner::new();
    let e = parse_line(1, b"[10:00:00.000] [@Bob#x1]", &mut interner).expect("the event is kept");
    assert_eq!(e.source_entity.log_id, 0);
    assert!(parse_entity_name_id(b"Plain name").is_none());
    assert!(parse_entity_name_id(b"@a#1/{2}:3").is_none());
    assert!(parse_entity_name_id(b"@a#1/   {2}:3").is_none());
    assert!(parse_entity_name_id(b"Boss{42}").is_none());
    assert!(parse_entity_name_id(b"#5").is_none());
    assert!(parse_entity_name_id(b"{42}").is_none());
    let mut interner = Interner::new();
    let e = parse_line(1, b"[10:00:00.000] [] [=]", &mut interner).expect("valid");
    assert_eq!(e.source_entity.entity_type, EntityType::Empty);
    assert!(e.source_entity.name.is_none());
    assert!(e.target_entity.is_none());
}

#[test]
fn effective_never_exceeds_amount() {
    let p = parse_payload(b"100 ~150");
    assert_eq!(p.amount, 100);
    assert_eq!(p.effective, Some(100));
    assert!(!p.critical);
    let q = parse_payload(b"7");
    assert_eq!(q.effective, None);
    assert!(!q.reflected);
    assert_eq!(q.type_id, None);
}

#[test]
fn bulk_lines_keep_numbers_and_count_malformed() {
    let text = b"[10:00:00.000] [@A#1]\n\ngarbage\n[10:00:01.000] [@B#2]\n[10:00:02.000] [@C#3";
    let ranges = line_ranges(text);
    assert_eq!(ranges, vec![(0, 21), (22, 22), (23, 30), (31, 52), (53, 73)]);
    let mut interner = Interner::new();
    let parsed = parse_lines(text, &ranges, &mut interner);
    assert_eq!(parsed.lines_read, 5);
    assert_eq!(parsed.dropped, 2);
    let numbers: Vec<usize> = parsed.events.iter().map(|e| e.line_number).collect();
    assert_eq!(numbers, vec![1, 4]);
    assert_eq!(line_ranges(b"a\n"), vec![(0, 1)]);
    assert_eq!(line_ranges(b""), Vec::<(usize, usize)>::new());
}

#[test]
fn interning_read_parts_matches_sequential_decoding() {
    let text = b"[10:00:00.000] [@A#1]\n\ngarbage\n[10:00:01.000] [@B#2] [@A#1]\n[10:00:02.000] [@C#3";
    let ranges = line_ranges(text);
    let parts: Vec<_> = ranges.iter().map(|&(s, e)| parse_line_parts(&text[s..e])).collect();
    let mut a = Interner::new();
    let merged = intern_lines(text, &ranges, &parts, &mut a);
    let mut b = Interner::new();
    let sequential = parse_lines(text, &ranges, &mut b);
    assert_eq!(merged.events, sequential.events);
    assert_eq!(merged.dropped, sequential.dropped);
    assert_eq!(merged.lines_read, sequential.lines_read);
    assert_eq!(a.len(), b.len());
}
