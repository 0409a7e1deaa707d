//! Columnar form of a sealed encounter, as the historical query layer reads
//! it: one column per field of an event, absent values as `None`, plus the
//! time elapsed since the encounter's start.
use vstd::prelude::*;
use crate::event_models::{CombatEvent, EffectKind, Entity, EntityType, Health, Timestamp};
use crate::interner::IStr;
use crate::session::{elapsed_ms, elapsed_spec, Encounter};

verus! {

/// The columns of an encounter's events; row `i` of every column belongs to
/// event `i`.
pub struct EncounterColumns {
    pub encounter_index: usize,
    pub line_number: Vec<usize>,
    pub elapsed_ms: Vec<u32>,
    pub timestamp: Vec<Timestamp>,
    pub source_name: Vec<Option<IStr>>,
    pub source_class_id: Vec<i64>,
    pub source_log_id: Vec<i64>,
    pub source_type: Vec<EntityType>,
    pub source_coordinates: Vec<Option<IStr>>,
    pub source_health: Vec<Option<Health>>,
    pub target: Vec<Option<Entity>>,
    pub action_name: Vec<Option<IStr>>,
    pub action_id: Vec<Option<i64>>,
    pub effect_type_name: Vec<Option<IStr>>,
    pub effect_type_id: Vec<Option<i64>>,
    pub effect_name: Vec<Option<IStr>>,
    pub effect_id: Vec<Option<i64>>,
    pub effect_kind: Vec<EffectKind>,
    pub charges: Vec<Option<i64>>,
    pub damage: Vec<Option<i64>>,
    pub effective_damage: Vec<Option<i64>>,
    pub heal: Vec<Option<i64>>,
    pub effective_heal: Vec<Option<i64>>,
    pub is_critical: Vec<Option<bool>>,
    pub is_reflected: Vec<Option<bool>>,
    pub damage_type_id: Vec<Option<i64>>,
    pub reduction_class_id: Vec<Option<i64>>,
    pub damage_reduced: Vec<Option<i64>>,
    pub reduction_type_id: Vec<Option<i64>>,
    pub threat: Vec<Option<i64>>,
}

impl EncounterColumns {
    /// Every column has `n` rows.
    pub open spec fn rows(&self, n: int) -> bool {
        &&& self.line_number@.len() == n
        &&& self.elapsed_ms@.len() == n
        &&& self.timestamp@.len() == n
        &&& self.source_name@.len() == n
        &&& self.source_class_id@.len() == n
        &&& self.source_log_id@.len() == n
        &&& self.source_type@.len() == n
        &&& self.source_coordinates@.len() == n
        &&& self.source_health@.len() == n
        &&& self.target@.len() == n
        &&& self.action_name@.len() == n
        &&& self.action_id@.len() == n
        &&& self.effect_type_name@.len() == n
        &&& self.effect_type_id@.len() == n
        &&& self.effect_name@.len() == n
        &&& self.effect_id@.len() == n
        &&& self.effect_kind@.len() == n
        &&& self.charges@.len() == n
        &&& self.damage@.len() == n
        &&& self.effective_damage@.len() == n
        &&& self.heal@.len() == n
        &&& self.effective_heal@.len() == n
        &&& self.is_critical@.len() == n
        &&& self.is_reflected@.len() == n
        &&& self.damage_type_id@.len() == n
        &&& self.reduction_class_id@.len() == n
        &&& self.damage_reduced@.len() == n
        &&& self.reduction_type_id@.len() == n
        &&& self.threat@.len() == n
    }

    /// The event that row `i` holds.
    pub open spec fn row_spec(&self, i: int) -> CombatEvent {
        CombatEvent {
            line_number: self.line_number@[i],
            timestamp: self.timestamp@[i],
            source_entity: Entity {
                name: self.source_name@[i],
                class_id: self.source_class_id@[i],
                log_id: self.source_log_id@[i],
                entity_type: self.source_type@[i],
                coordinates: self.source_coordinates@[i],
                health: self.source_health@[i],
            },
            target_entity: self.target@[i],
            action_name: self.action_name@[i],
            action_id: self.action_id@[i],
            effect_type_name: self.effect_type_name@[i],
            effect_type_id: self.effect_type_id@[i],
            effect_name: self.effect_name@[i],
            effect_id: self.effect_id@[i],
            effect_kind: self.effect_kind@[i],
            charges: self.charges@[i],
            damage: self.damage@[i],
            effective_damage: self.effective_damage@[i],
            heal: self.heal@[i],
            effective_heal: self.effective_heal@[i],
            is_critical: self.is_critical@[i],
            is_reflected: self.is_reflected@[i],
            damage_type_id: self.damage_type_id@[i],
            reduction_class_id: self.reduction_class_id@[i],
            damage_reduced: self.damage_reduced@[i],
            reduction_type_id: self.reduction_type_id@[i],
            threat: self.threat@[i],
        }
    }

    /// Number of rows.
    pub fn len(&self) -> (r: usize)
        ensures
            r == self.line_number@.len(),
    {
        self.line_number.len()
    }

    /// Reads row `i` back as an event.
    pub fn row(&self, i: usize) -> (r: CombatEvent)
        requires
            self.rows(self.line_number@.len() as int),
            i < self.line_number@.len(),
        ensures
            r == self.row_spec(i as int),
    {
        CombatEvent {
            line_number: self.line_number[i],
            timestamp: self.timestamp[i],
            source_entity: Entity {
                name: self.source_name[i],
                class_id: self.source_class_id[i],
                log_id: self.source_log_id[i],
                entity_type: self.source_type[i],
                coordinates: self.source_coordinates[i],
                health: self.source_health[i],
            },
            target_entity: self.target[i],
            action_name: self.action_name[i],
            action_id: self.action_id[i],
            effect_type_name: self.effect_type_name[i],
            effect_type_id: self.effect_type_id[i],
            effect_name: self.effect_name[i],
            effect_id: self.effect_id[i],
            effect_kind: self.effect_kind[i],
            charges: self.charges[i],
            damage: self.damage[i],
            effective_damage: self.effective_damage[i],
            heal: self.heal[i],
            effective_heal: self.effective_heal[i],
            is_critical: self.is_critical[i],
            is_reflected: self.is_reflected[i],
            damage_type_id: self.damage_type_id[i],
            reduction_class_id: self.reduction_class_id[i],
            damage_reduced: self.damage_reduced[i],
            reduction_type_id: self.reduction_type_id[i],
            threat: self.threat[i],
        }
    }

    /// Reads every row back, in order.
    pub fn read_back(&self) -> (r: Vec<CombatEvent>)
        requires
            self.rows(self.line_number@.len() as int),
        ensures
            r@.len() == self.line_number@.len(),
            forall|i: int| 0 <= i < r@.len() ==> r@[i] == self.row_spec(i),
    {
        let mut out: Vec<CombatEvent> = Vec::new();
        let mut i: usize = 0;
        while i < self.len()
            invariant
                i <= self.line_number@.len(),
                self.rows(self.line_number@.len() as int),
                out@.len() == i,
                forall|k: int| 0 <= k < i ==> out@[k] == self.row_spec(k),
            decreases self.line_number@.len() - i,
        {
            out.push(self.row(i));
            i = i + 1;
        }
        out
    }

    fn empty(encounter_index: usize) -> (r: EncounterColumns)
        ensures
            r.rows(0),
            r.encounter_index == encounter_index,
    {
        EncounterColumns {
            encounter_index,
            line_number: Vec::new(),
            elapsed_ms: Vec::new(),
            timestamp: Vec::new(),
            source_name: Vec::new(),
            source_class_id: Vec::new(),
            source_log_id: Vec::new(),
            source_type: Vec::new(),
            source_coordinates: Vec::new(),
            source_health: Vec::new(),
            target: Vec::new(),
            action_name: Vec::new(),
            action_id: Vec::new(),
            effect_type_name: Vec::new(),
            effect_type_id: Vec::new(),
            effect_name: Vec::new(),
            effect_id: Vec::new(),
            effect_kind: Vec::new(),
            charges: Vec::new(),
            damage: Vec::new(),
            effective_damage: Vec::new(),
            heal: Vec::new(),
            effective_heal: Vec::new(),
            is_critical: Vec::new(),
            is_reflected: Vec::new(),
            damage_type_id: Vec::new(),
            reduction_class_id: Vec::new(),
            damage_reduced: Vec::new(),
            reduction_type_id: Vec::new(),
            threat: Vec::new(),
        }
    }

    fn push_row(&mut self, e: &CombatEvent, elapsed: u32)
        requires
            old(self).rows(old(self).line_number@.len() as int),
        ensures
            final(self).rows(old(self).line_number@.len() + 1int),
            final(self).encounter_index == old(self).encounter_index,
            final(self).row_spec(old(self).line_number@.len() as int) == *e,
            final(self).elapsed_ms@ == old(self).elapsed_ms@.push(elapsed),
            forall|i: int| 0 <= i < old(self).line_number@.len() ==> final(self).row_spec(i) == old(self).row_spec(i),
    {
        self.line_number.push(e.line_number);
        self.elapsed_ms.push(elapsed);
        self.timestamp.push(e.timestamp);
        self.source_name.push(e.source_entity.name);
        self.source_class_id.push(e.source_entity.class_id);
        self.source_log_id.push(e.source_entity.log_id);
        self.source_type.push(e.source_entity.entity_type);
        self.source_coordinates.push(e.source_entity.coordinates);
        self.source_health.push(e.source_entity.health);
        self.target.push(e.target_entity);
        self.action_name.push(e.action_name);
        self.action_id.push(e.action_id);
        self.effect_type_name.push(e.effect_type_name);
        self.effect_type_id.push(e.effect_type_id);
        self.effect_name.push(e.effect_name);
        self.effect_id.push(e.effect_id);
        self.effect_kind.push(e.effect_kind);
        self.charges.push(e.charges);
        self.damage.push(e.damage);
        self.effective_damage.push(e.effective_damage);
        self.heal.push(e.heal);
        self.effective_heal.push(e.effective_heal);
        self.is_critical.push(e.is_critical);
        self.is_reflected.push(e.is_reflected);
        self.damage_type_id.push(e.damage_type_id);
        self.reduction_class_id.push(e.reduction_class_id);
        self.damage_reduced.push(e.damage_reduced);
        self.reduction_type_id.push(e.reduction_type_id);
        self.threat.push(e.threat);
    }
}

/// Flattens an encounter's events into columns, one row per event in order,
/// with each event's time since the encounter's start.
pub fn materialize(enc: &Encounter) -> (r: EncounterColumns)
    requires
        enc.wf(),
    ensures
        r.encounter_index == enc.index,
        r.rows(enc.events@.len() as int),
        forall|i: int| 0 <= i < enc.events@.len() ==> r.row_spec(i) == enc.events@[i],
        forall|i: int| 0 <= i < enc.events@.len()
            ==> r.elapsed_ms@[i] as int == elapsed_spec(enc.start, #[trigger] enc.events@[i].timestamp),
{
    let mut cols = EncounterColumns::empty(enc.index);
    let mut i: usize = 0;
    while i < enc.events.len()
        invariant
            i <= enc.events@.len(),
            enc.wf(),
            cols.encounter_index == enc.index,
            cols.rows(i as int),
            forall|k: int| 0 <= k < i ==> cols.row_spec(k) == enc.events@[k],
            forall|k: int| 0 <= k < i
                ==> cols.elapsed_ms@[k] as int == elapsed_spec(enc.start, #[trigger] enc.events@[k].timestamp),
        decreases enc.events@.len() - i,
    {
        let e = &enc.events[i];
        assert(enc.events@[i as int].timestamp.wf());
        let t = elapsed_ms(&enc.start, &e.timestamp);
        cols.push_row(e, t);
        i = i + 1;
    }
    cols
}

/// Round trip: reading back every row of a materialized encounter gives
/// exactly its events: as many rows as events, each equal to its event.
pub proof fn lemma_round_trip(enc: &Encounter, cols: EncounterColumns, rows: Seq<CombatEvent>)
    requires
        enc.wf(),
        cols.rows(enc.events@.len() as int),
        forall|i: int| 0 <= i < enc.events@.len() ==> cols.row_spec(i) == enc.events@[i],
        rows.len() == cols.line_number@.len(),
        forall|i: int| 0 <= i < rows.len() ==> rows[i] == cols.row_spec(i),
    ensures
        rows == enc.events@,
{
    assert(rows =~= enc.events@);
}

/// The decimal digits of `n`, most significant first.
pub open spec fn decimal_digits(n: nat) -> Seq<u8>
    decreases n,
{
    if n < 10 {
        seq![(48 + n) as u8]
    } else {
        decimal_digits(n / 10).push((48 + n % 10) as u8)
    }
}

/// `encounter_`
pub open spec fn file_stem() -> Seq<u8> {
    seq![101u8, 110, 99, 111, 117, 110, 116, 101, 114, 95]
}

/// `.col`
pub open spec fn file_extension() -> Seq<u8> {
    seq![46u8, 99, 111, 108]
}

/// Digits of the index, zero-padded to at least four.
pub open spec fn padded_index(index: nat) -> Seq<u8> {
    let d = decimal_digits(index);
    if d.len() < 4 {
        Seq::new((4 - d.len()) as nat, |i: int| 48u8) + d
    } else {
        d
    }
}

/// Name of the columnar file of encounter `index`: `encounter_NNNN.col`,
/// the index zero-padded to at least four digits.
pub open spec fn column_file_name_spec(index: nat) -> Seq<u8> {
    file_stem() + padded_index(index) + file_extension()
}

proof fn lemma_digits_nonempty(n: nat)
    ensures
        decimal_digits(n).len() >= 1,
    decreases n,
{
    if n >= 10 {
        lemma_digits_nonempty(n / 10);
    }
}

/// The name of the columnar file of encounter `index`.
pub fn column_file_name(index: usize) -> (r: Vec<u8>)
    ensures
        r@ == column_file_name_spec(index as nat),
{
    let mut digits: Vec<u8> = Vec::new();
    let mut n: usize = index;
    while n >= 10
        invariant
            decimal_digits(index as nat) == decimal_digits(n as nat) + digits@,
        decreases n,
    {
        let d = (48 + n % 10) as u8;
        let ghost before = digits@;
        digits.insert(0, d);
        proof {
            assert(decimal_digits(n as nat) == decimal_digits((n / 10) as nat).push(d));
            assert(decimal_digits(n as nat) + before =~= decimal_digits((n / 10) as nat) + digits@);
        }
        n = n / 10;
    }
    let ghost before = digits@;
    digits.insert(0, (48 + n) as u8);
    assert(digits@ =~= decimal_digits(index as nat)) by {
        assert(decimal_digits(n as nat) == seq![(48 + n) as u8]);
        assert(decimal_digits(n as nat) + before =~= digits@);
    }
    let mut name: Vec<u8> = vec![101, 110, 99, 111, 117, 110, 116, 101, 114, 95];
    assert(name@ =~= file_stem());
    let mut k: usize = digits.len();
    while k < 4
        invariant
            digits.len() <= k <= 4 || (k == digits.len() && k > 4),
            digits@ == decimal_digits(index as nat),
            name@ == file_stem() + Seq::new((k - digits@.len()) as nat, |i: int| 48u8),
        decreases 4 - k,
    {
        name.push(48);
        assert(name@ =~= file_stem() + Seq::new((k + 1 - digits@.len()) as nat, |i: int| 48u8));
        k = k + 1;
    }
    let ghost head = name@;
    let mut j: usize = 0;
    while j < digits.len()
        invariant
            j <= digits@.len(),
            name@ == head + digits@.subrange(0, j as int),
        decreases digits@.len() - j,
    {
        name.push(digits[j]);
        assert(name@ =~= head + digits@.subrange(0, j + 1));
        j = j + 1;
    }
    name.push(46);
    name.push(99);
    name.push(111);
    name.push(108);
    proof {
        lemma_digits_nonempty(index as nat);
        assert(digits@.subrange(0, digits@.len() as int) =~= digits@);
        let d = decimal_digits(index as nat);
        if d.len() < 4 {
            assert(head =~= file_stem() + Seq::new((4 - d.len()) as nat, |i: int| 48u8));
        } else {
            assert(head =~= file_stem() + Seq::new(0, |i: int| 48u8));
        }
        assert(name@ =~= column_file_name_spec(index as nat));
    }
    name
}

/// Where writing an encounter's columns stands.
#[derive(Clone, Copy, Debug, PartialEq, Eq, Structural)]
pub enum PersistState {
    /// Not written yet.
    Pending,
    /// Written and synced; visible to queries.
    Persisted,
    /// The first write failed; write once more.
    Retry,
    /// Both writes failed; the encounter stays in memory only.
    NotPersisted,
}

/// The state after a write attempt that succeeded or not.
pub fn after_write(state: PersistState, ok: bool) -> (r: PersistState)
    ensures
        (state == PersistState::Pending || state == PersistState::Retry) && ok ==> r == PersistState::Persisted,
        state == PersistState::Pending && !ok ==> r == PersistState::Retry,
        state == PersistState::Retry && !ok ==> r == PersistState::NotPersisted,
        (state == PersistState::Persisted || state == PersistState::NotPersisted) ==> r == state,
{
    match state {
        PersistState::Pending => if ok { PersistState::Persisted } else { PersistState::Retry },
        PersistState::Retry => if ok { PersistState::Persisted } else { PersistState::NotPersisted },
        _ => state,
    }
}

} // verus!
