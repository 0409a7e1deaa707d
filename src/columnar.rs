//! The on-disk layout of a materialized encounter: a header, then one column
//! after another, each holding one cell per event, then the file's name
//! dictionary in UTF-8.
//!
//! A cell is an optional integer: tag `0` for absent, `1` for a value that
//! is not negative, `2` for a negative one, followed in the last two cases
//! by the magnitude in eight little-endian bytes. Names are stored as their
//! key; the dictionary lists every key's name, in key order, each as its
//! byte length (eight little-endian bytes) and its UTF-8 bytes.
use vstd::prelude::*;
use vstd::utf8::encode_utf8;
use crate::event_models::{CombatEvent, EffectKind, Entity, EntityType, Health, Timestamp};
use crate::interner::{IStr, Interner};
use crate::session::{elapsed_ms, elapsed_spec, Encounter};

verus! {

/// `x` in eight little-endian bytes.
pub open spec fn le8(x: nat) -> Seq<u8> {
    seq![
        (x % 0x100) as u8,
        ((x / 0x100) % 0x100) as u8,
        ((x / 0x1_0000) % 0x100) as u8,
        ((x / 0x100_0000) % 0x100) as u8,
        ((x / 0x1_0000_0000) % 0x100) as u8,
        ((x / 0x100_0000_0000) % 0x100) as u8,
        ((x / 0x1_0000_0000_0000) % 0x100) as u8,
        ((x / 0x100_0000_0000_0000) % 0x100) as u8,
    ]
}

/// `x` in sixteen little-endian bytes.
pub open spec fn le16(x: nat) -> Seq<u8> {
    le8(x % 0x1_0000_0000_0000_0000) + le8(x / 0x1_0000_0000_0000_0000)
}

/// The bytes of one cell.
pub open spec fn cell_bytes(c: Option<i128>) -> Seq<u8> {
    match c {
        None => seq![0u8],
        Some(v) => if v >= 0 { seq![1u8] + le16(v as nat) } else { seq![2u8] + le16((-v) as nat) },
    }
}

fn push_le8(out: &mut Vec<u8>, x: u64)
    ensures
        final(out)@ == old(out)@ + le8(x as nat),
{
    out.push((x % 0x100) as u8);
    out.push(((x / 0x100) % 0x100) as u8);
    out.push(((x / 0x1_0000) % 0x100) as u8);
    out.push(((x / 0x100_0000) % 0x100) as u8);
    out.push(((x / 0x1_0000_0000) % 0x100) as u8);
    out.push(((x / 0x100_0000_0000) % 0x100) as u8);
    out.push(((x / 0x1_0000_0000_0000) % 0x100) as u8);
    out.push(((x / 0x100_0000_0000_0000) % 0x100) as u8);
    assert(final(out)@ =~= old(out)@ + le8(x as nat));
}

fn push_le16(out: &mut Vec<u8>, x: u128)
    ensures
        final(out)@ == old(out)@ + le16(x as nat),
{
    let lo = (x % 0x1_0000_0000_0000_0000) as u64;
    let hi = (x / 0x1_0000_0000_0000_0000) as u64;
    push_le8(out, lo);
    push_le8(out, hi);
    assert(final(out)@ =~= old(out)@ + le16(x as nat));
}

fn push_cell(out: &mut Vec<u8>, c: Option<i128>)
    ensures
        final(out)@ == old(out)@ + cell_bytes(c),
{
    match c {
        None => {
            out.push(0);
            assert(final(out)@ =~= old(out)@ + cell_bytes(c));
        },
        Some(v) => {
            let ghost before = out@;
            if v >= 0 {
                out.push(1);
                push_le16(out, v as u128);
                assert(final(out)@ =~= before + cell_bytes(c));
            } else {
                out.push(2);
                let m: u128 = if v == i128::MIN { 0x8000_0000_0000_0000_0000_0000_0000_0000 } else { (-v) as u128 };
                push_le16(out, m);
                assert(final(out)@ =~= before + cell_bytes(c));
            }
        },
    }
}


/// Number of columns: line number, elapsed milliseconds, hour, minute,
/// second, millisecond; the source's name, class id, log id, type,
/// coordinates, health and maximum health; the same seven for the target;
/// action name and id; effect-type name and id; effect name and id; effect
/// kind; charges, damage, effective damage, heal, effective heal; critical
/// and reflected flags; damage type id, reduction class id, damage reduced,
/// reduction type id; threat.
pub const COLUMN_COUNT: usize = 39;

pub open spec fn key_cell(o: Option<IStr>) -> Option<i128> {
    match o {
        Some(k) => Some(k.index as i128),
        None => None,
    }
}

pub open spec fn num_cell(o: Option<i64>) -> Option<i128> {
    match o {
        Some(v) => Some(v as i128),
        None => None,
    }
}

pub open spec fn flag_cell(o: Option<bool>) -> Option<i128> {
    match o {
        Some(b) => Some(if b { 1i128 } else { 0i128 }),
        None => None,
    }
}

/// Player 0, non-player 1, companion 2, empty 3.
pub open spec fn type_code(t: EntityType) -> i128 {
    match t {
        EntityType::Player => 0,
        EntityType::Npc => 1,
        EntityType::Companion => 2,
        EntityType::Empty => 3,
    }
}

/// Enter combat 0, exit combat 1, area entered 2, phase start 3, damage 4,
/// heal 5, other 6.
pub open spec fn kind_code(k: EffectKind) -> i128 {
    match k {
        EffectKind::EnterCombat => 0,
        EffectKind::ExitCombat => 1,
        EffectKind::AreaEntered => 2,
        EffectKind::PhaseStart => 3,
        EffectKind::Damage => 4,
        EffectKind::Heal => 5,
        EffectKind::Other => 6,
    }
}

pub open spec fn entity_cells(e: Option<Entity>) -> Seq<Option<i128>> {
    match e {
        Some(x) => seq![
            key_cell(x.name),
            Some(x.class_id as i128),
            Some(x.log_id as i128),
            Some(type_code(x.entity_type)),
            key_cell(x.coordinates),
            match x.health { Some(h) => Some(h.current as i128), None => None },
            match x.health { Some(h) => Some(h.max as i128), None => None },
        ],
        None => seq![None, None, None, None, None, None, None],
    }
}

pub open spec fn head_cells(e: CombatEvent, elapsed: u32) -> Seq<Option<i128>> {
    seq![
        Some(e.line_number as i128),
        Some(elapsed as i128),
        Some(e.timestamp.hour as i128),
        Some(e.timestamp.minute as i128),
        Some(e.timestamp.second as i128),
        Some(e.timestamp.millis as i128),
    ]
}

/// The cells of one event, in column order.
pub open spec fn row_spec(e: CombatEvent, elapsed: u32) -> Seq<Option<i128>> {
    head_cells(e, elapsed) + entity_cells(Some(e.source_entity)) + entity_cells(e.target_entity) + tail_cells(e)
}

pub open spec fn tail_cells(e: CombatEvent) -> Seq<Option<i128>> {
    seq![
        key_cell(e.action_name),
        num_cell(e.action_id),
        key_cell(e.effect_type_name),
        num_cell(e.effect_type_id),
        key_cell(e.effect_name),
        num_cell(e.effect_id),
        Some(kind_code(e.effect_kind)),
        num_cell(e.charges),
        num_cell(e.damage),
        num_cell(e.effective_damage),
        num_cell(e.heal),
        num_cell(e.effective_heal),
        flag_cell(e.is_critical),
        flag_cell(e.is_reflected),
        num_cell(e.damage_type_id),
        num_cell(e.reduction_class_id),
        num_cell(e.damage_reduced),
        num_cell(e.reduction_type_id),
        num_cell(e.threat),
    ]
}


fn key(o: Option<IStr>) -> (r: Option<i128>)
    ensures
        r == key_cell(o),
{
    match o {
        Some(k) => Some(k.index as i128),
        None => None,
    }
}

fn num(o: Option<i64>) -> (r: Option<i128>)
    ensures
        r == num_cell(o),
{
    match o {
        Some(v) => Some(v as i128),
        None => None,
    }
}

fn flag(o: Option<bool>) -> (r: Option<i128>)
    ensures
        r == flag_cell(o),
{
    match o {
        Some(b) => Some(if b { 1 } else { 0 }),
        None => None,
    }
}

fn type_cell(t: EntityType) -> (r: i128)
    ensures
        r == type_code(t),
{
    match t {
        EntityType::Player => 0,
        EntityType::Npc => 1,
        EntityType::Companion => 2,
        EntityType::Empty => 3,
    }
}

fn kind_cell(k: EffectKind) -> (r: i128)
    ensures
        r == kind_code(k),
{
    match k {
        EffectKind::EnterCombat => 0,
        EffectKind::ExitCombat => 1,
        EffectKind::AreaEntered => 2,
        EffectKind::PhaseStart => 3,
        EffectKind::Damage => 4,
        EffectKind::Heal => 5,
        EffectKind::Other => 6,
    }
}

fn push_entity(out: &mut Vec<Option<i128>>, e: Option<Entity>)
    ensures
        final(out)@ == old(out)@ + entity_cells(e),
{
    let ghost before = out@;
    match e {
        Some(x) => {
            out.push(key(x.name));
            out.push(Some(x.class_id as i128));
            out.push(Some(x.log_id as i128));
            out.push(Some(type_cell(x.entity_type)));
            out.push(key(x.coordinates));
            out.push(match x.health { Some(h) => Some(h.current as i128), None => None });
            out.push(match x.health { Some(h) => Some(h.max as i128), None => None });
        },
        None => {
            out.push(None);
            out.push(None);
            out.push(None);
            out.push(None);
            out.push(None);
            out.push(None);
            out.push(None);
        },
    }
    assert(out@ =~= before + entity_cells(e));
}

fn push_tail(out: &mut Vec<Option<i128>>, e: &CombatEvent)
    ensures
        final(out)@ == old(out)@ + tail_cells(*e),
{
    let mut ids = vec![
        key(e.action_name),
        num(e.action_id),
        key(e.effect_type_name),
        num(e.effect_type_id),
        key(e.effect_name),
        num(e.effect_id),
        Some(kind_cell(e.effect_kind)),
        num(e.charges),
        num(e.damage),
        num(e.effective_damage),
    ];
    let mut rest = vec![
        num(e.heal),
        num(e.effective_heal),
        flag(e.is_critical),
        flag(e.is_reflected),
        num(e.damage_type_id),
        num(e.reduction_class_id),
        num(e.damage_reduced),
        num(e.reduction_type_id),
        num(e.threat),
    ];
    let ghost a = ids@;
    let ghost b = rest@;
    out.append(&mut ids);
    out.append(&mut rest);
    assert(a + b =~= tail_cells(*e));
    assert(out@ =~= old(out)@ + tail_cells(*e));
}

/// The cells of one event, in column order.
pub fn row_cells(e: &CombatEvent, elapsed: u32) -> (r: Vec<Option<i128>>)
    ensures
        r@ == row_spec(*e, elapsed),
        r@.len() == COLUMN_COUNT,
{
    let mut out: Vec<Option<i128>> = Vec::new();
    out.push(Some(e.line_number as i128));
    out.push(Some(elapsed as i128));
    out.push(Some(e.timestamp.hour as i128));
    out.push(Some(e.timestamp.minute as i128));
    out.push(Some(e.timestamp.second as i128));
    out.push(Some(e.timestamp.millis as i128));
    assert(out@ =~= head_cells(*e, elapsed));
    push_entity(&mut out, Some(e.source_entity));
    push_entity(&mut out, e.target_entity);
    push_tail(&mut out, e);
    assert(out@ =~= row_spec(*e, elapsed));
    out
}

/// Cells `0..r` of column `c`.
pub open spec fn column_bytes(rows: Seq<Seq<Option<i128>>>, c: int, r: int) -> Seq<u8>
    decreases r,
{
    if r <= 0 {
        Seq::empty()
    } else {
        column_bytes(rows, c, r - 1) + cell_bytes(rows[r - 1][c])
    }
}

/// Columns `0..c`, one after another.
pub open spec fn columns_bytes(rows: Seq<Seq<Option<i128>>>, c: int) -> Seq<u8>
    decreases c,
{
    if c <= 0 {
        Seq::empty()
    } else {
        columns_bytes(rows, c - 1) + column_bytes(rows, c - 1, rows.len() as int)
    }
}

/// One dictionary entry: the UTF-8 length, then the UTF-8 bytes.
pub open spec fn name_bytes(n: Seq<char>) -> Seq<u8> {
    le8(encode_utf8(n).len()) + encode_utf8(n)
}

/// Dictionary entries `0..k`.
pub open spec fn dict_bytes(names: Seq<Seq<char>>, k: int) -> Seq<u8>
    decreases k,
{
    if k <= 0 {
        Seq::empty()
    } else {
        dict_bytes(names, k - 1) + name_bytes(names[k - 1])
    }
}

/// The rows of an encounter's events, with their time since its start.
pub open spec fn rows_of(events: Seq<CombatEvent>, start: Timestamp) -> Seq<Seq<Option<i128>>> {
    Seq::new(events.len(), |i: int| row_spec(events[i], elapsed_spec(start, events[i].timestamp) as u32))
}

/// A whole file: row count, column count, the columns, name count, the
/// dictionary.
pub open spec fn file_bytes(rows: Seq<Seq<Option<i128>>>, names: Seq<Seq<char>>) -> Seq<u8> {
    le8(rows.len()) + le8(COLUMN_COUNT as nat) + columns_bytes(rows, COLUMN_COUNT as int)
        + le8(names.len()) + dict_bytes(names, names.len() as int)
}

/// The columnar file of an encounter, with the names of `interner`.
pub fn encode_encounter(enc: &Encounter, interner: &Interner) -> (r: Vec<u8>)
    requires
        enc.wf(),
        interner.wf(),
    ensures
        r@ == file_bytes(rows_of(enc.events@, enc.start), interner@),
{
    let ghost rs = rows_of(enc.events@, enc.start);
    let mut rows: Vec<Vec<Option<i128>>> = Vec::new();
    let mut i: usize = 0;
    while i < enc.events.len()
        invariant
            i <= enc.events@.len(),
            enc.wf(),
            rs == rows_of(enc.events@, enc.start),
            rows@.len() == i,
            forall|j: int| 0 <= j < i ==> (#[trigger] rows@[j])@ == rs[j],
        decreases enc.events@.len() - i,
    {
        let e = &enc.events[i];
        assert(enc.events@[i as int].timestamp.wf());
        let t = elapsed_ms(&enc.start, &e.timestamp);
        rows.push(row_cells(e, t));
        i = i + 1;
    }
    let n = rows.len();
    let mut out: Vec<u8> = Vec::new();
    push_le8(&mut out, n as u64);
    push_le8(&mut out, COLUMN_COUNT as u64);
    let ghost head = out@;
    assert(head =~= le8(rs.len()) + le8(COLUMN_COUNT as nat));
    let mut c: usize = 0;
    while c < COLUMN_COUNT
        invariant
            c <= COLUMN_COUNT,
            n == rows@.len(),
            rs.len() == n,
            forall|j: int| 0 <= j < n ==> (#[trigger] rows@[j])@ == rs[j],
            forall|j: int| 0 <= j < n ==> (#[trigger] rs[j]).len() == COLUMN_COUNT,
            out@ == head + columns_bytes(rs, c as int),
        decreases COLUMN_COUNT - c,
    {
        let ghost before = out@;
        let mut r: usize = 0;
        while r < n
            invariant
                r <= n,
                c < COLUMN_COUNT,
                n == rows@.len(),
                rs.len() == n,
                forall|j: int| 0 <= j < n ==> (#[trigger] rows@[j])@ == rs[j],
                forall|j: int| 0 <= j < n ==> (#[trigger] rs[j]).len() == COLUMN_COUNT,
                out@ == before + column_bytes(rs, c as int, r as int),
            decreases n - r,
        {
            assert(rows@[r as int]@ == rs[r as int]);
            let cell = rows[r][c];
            push_cell(&mut out, cell);
            assert(out@ =~= before + column_bytes(rs, c as int, r + 1));
            r = r + 1;
        }
        assert(out@ =~= head + columns_bytes(rs, c + 1));
        c = c + 1;
    }
    let k = interner.len();
    let ghost names = interner@;
    push_le8(&mut out, k as u64);
    let ghost mid = out@;
    let mut j: usize = 0;
    while j < k
        invariant
            j <= k,
            k == names.len(),
            names == interner@,
            interner.wf(),
            out@ == mid + dict_bytes(names, j as int),
        decreases k - j,
    {
        let name = interner.resolve(IStr { index: j as u32 });
        let bytes = name.as_bytes();
        let ghost prev = out@;
        push_le8(&mut out, bytes.len() as u64);
        let ghost after_len = out@;
        let mut b: usize = 0;
        while b < bytes.len()
            invariant
                b <= bytes@.len(),
                out@ == after_len + bytes@.subrange(0, b as int),
            decreases bytes@.len() - b,
        {
            out.push(bytes[b]);
            assert(out@ =~= after_len + bytes@.subrange(0, b + 1));
            b = b + 1;
        }
        assert(bytes@.subrange(0, bytes@.len() as int) =~= bytes@);
        assert(out@ =~= mid + dict_bytes(names, j + 1));
        j = j + 1;
    }
    assert(out@ =~= file_bytes(rs, names));
    out
}

} // verus!
