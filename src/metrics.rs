//! Per-entity running totals of an encounter.
use vstd::prelude::*;
use crate::event_models::{CombatEvent, EntityType};
use crate::interner::IStr;

verus! {

/// Cumulative sums for one entity, as mathematical integers.
pub struct Totals {
    pub damage: int,
    pub effective_damage: int,
    pub healing: int,
    pub effective_healing: int,
    pub damage_taken: int,
    pub effective_damage_taken: int,
    pub absorbed: int,
    pub threat: int,
    pub hits: int,
    pub crits: int,
    pub heals: int,
    pub heal_crits: int,
}

pub open spec fn zero_totals() -> Totals {
    Totals {
        damage: 0,
        effective_damage: 0,
        healing: 0,
        effective_healing: 0,
        damage_taken: 0,
        effective_damage_taken: 0,
        absorbed: 0,
        threat: 0,
        hits: 0,
        crits: 0,
        heals: 0,
        heal_crits: 0,
    }
}

pub open spec fn add_totals(a: Totals, b: Totals) -> Totals {
    Totals {
        damage: a.damage + b.damage,
        effective_damage: a.effective_damage + b.effective_damage,
        healing: a.healing + b.healing,
        effective_healing: a.effective_healing + b.effective_healing,
        damage_taken: a.damage_taken + b.damage_taken,
        effective_damage_taken: a.effective_damage_taken + b.effective_damage_taken,
        absorbed: a.absorbed + b.absorbed,
        threat: a.threat + b.threat,
        hits: a.hits + b.hits,
        crits: a.crits + b.crits,
        heals: a.heals + b.heals,
        heal_crits: a.heal_crits + b.heal_crits,
    }
}

pub open spec fn opt_amount(o: Option<i64>) -> int {
    match o {
        Some(v) => v as int,
        None => 0,
    }
}

/// `x` is the named source of `e`.
pub open spec fn is_source(e: CombatEvent, x: IStr) -> bool {
    e.source_entity.name == Some(x)
}

/// `x` is the named target of `e`.
pub open spec fn is_target(e: CombatEvent, x: IStr) -> bool {
    match e.target_entity {
        Some(t) => t.name == Some(x),
        None => false,
    }
}

/// What one event adds to the totals of `x`: damage, healing and threat go
/// to the source; damage taken and the amount its mitigation absorbed go to
/// the target.
pub open spec fn contribution(e: CombatEvent, x: IStr) -> Totals {
    let src = is_source(e, x);
    let tgt = is_target(e, x);
    let crit = e.is_critical == Some(true);
    Totals {
        damage: if src { opt_amount(e.damage) } else { 0 },
        effective_damage: if src { opt_amount(e.effective_damage) } else { 0 },
        healing: if src { opt_amount(e.heal) } else { 0 },
        effective_healing: if src { opt_amount(e.effective_heal) } else { 0 },
        damage_taken: if tgt { opt_amount(e.damage) } else { 0 },
        effective_damage_taken: if tgt { opt_amount(e.effective_damage) } else { 0 },
        absorbed: if tgt { opt_amount(e.damage_reduced) } else { 0 },
        threat: if src { opt_amount(e.threat) } else { 0 },
        hits: if src && e.damage.is_some() { 1 } else { 0 },
        crits: if src && e.damage.is_some() && crit { 1 } else { 0 },
        heals: if src && e.heal.is_some() { 1 } else { 0 },
        heal_crits: if src && e.heal.is_some() && crit { 1 } else { 0 },
    }
}

/// The totals of `x` over a sequence of events.
pub open spec fn totals_over(events: Seq<CombatEvent>, x: IStr) -> Totals
    decreases events.len(),
{
    if events.len() == 0 {
        zero_totals()
    } else {
        add_totals(totals_over(events.drop_last(), x), contribution(events.last(), x))
    }
}

/// An effective amount is present exactly with its amount and never exceeds it.
pub open spec fn event_wf(e: CombatEvent) -> bool {
    &&& e.damage.is_some() == e.effective_damage.is_some()
    &&& e.heal.is_some() == e.effective_heal.is_some()
    &&& opt_amount(e.effective_damage) <= opt_amount(e.damage)
    &&& opt_amount(e.effective_heal) <= opt_amount(e.heal)
}

/// Whether the amounts of `e` are consistent (see `event_wf`).
pub fn event_is_wf(e: &CombatEvent) -> (r: bool)
    ensures
        r == event_wf(*e),
{
    e.damage.is_some() == e.effective_damage.is_some()
        && e.heal.is_some() == e.effective_heal.is_some()
        && amount(e.effective_damage) <= amount(e.damage)
        && amount(e.effective_heal) <= amount(e.heal)
}

/// `x` is named as source or target by some event.
pub open spec fn mentioned(events: Seq<CombatEvent>, x: IStr) -> bool {
    exists|i: int| 0 <= i < events.len() && (is_source(events[i], x) || is_target(events[i], x))
}

pub open spec fn within(v: int, bound: int) -> bool {
    -bound <= v <= bound
}

pub open spec fn totals_bounded(t: Totals, n: int) -> bool {
    let b = n * 0x1_0000_0000_0000_0000;
    &&& within(t.damage, b) && within(t.effective_damage, b)
    &&& within(t.healing, b) && within(t.effective_healing, b)
    &&& within(t.damage_taken, b) && within(t.effective_damage_taken, b)
    &&& within(t.absorbed, b) && within(t.threat, b)
    &&& 0 <= t.hits <= n && 0 <= t.crits <= t.hits
    &&& 0 <= t.heals <= n && 0 <= t.heal_crits <= t.heals
}

pub proof fn lemma_totals_bounded(events: Seq<CombatEvent>, x: IStr)
    ensures
        totals_bounded(totals_over(events, x), events.len() as int),
    decreases events.len(),
{
    if events.len() > 0 {
        lemma_totals_bounded(events.drop_last(), x);
        let n = events.len() as int;
        assert((n - 1) * 0x1_0000_0000_0000_0000 + 0x1_0000_0000_0000_0000 == n * 0x1_0000_0000_0000_0000) by (nonlinear_arith);
    }
}

/// Effective sums never exceed the sums they are part of.
pub proof fn lemma_effective_le(events: Seq<CombatEvent>, x: IStr)
    requires
        forall|i: int| 0 <= i < events.len() ==> event_wf(#[trigger] events[i]),
    ensures
        totals_over(events, x).effective_damage <= totals_over(events, x).damage,
        totals_over(events, x).effective_healing <= totals_over(events, x).healing,
        totals_over(events, x).effective_damage_taken <= totals_over(events, x).damage_taken,
    decreases events.len(),
{
    if events.len() > 0 {
        assert(event_wf(events[events.len() - 1]));
        lemma_effective_le(events.drop_last(), x);
    }
}

/// The running totals of one entity, with its identity.
#[derive(Clone, Copy, Debug, PartialEq, Eq, Structural)]
pub struct EntityMetrics {
    pub name: IStr,
    pub class_id: i64,
    pub log_id: i64,
    pub entity_type: EntityType,
    pub total_damage: i128,
    pub total_effective_damage: i128,
    pub total_healing: i128,
    pub total_effective_healing: i128,
    pub total_damage_taken: i128,
    pub total_effective_damage_taken: i128,
    pub total_absorbed: i128,
    pub total_threat: i128,
    pub hit_count: u64,
    pub crit_count: u64,
    pub heal_count: u64,
    pub heal_crit_count: u64,
}

impl EntityMetrics {
    pub open spec fn totals(&self) -> Totals {
        Totals {
            damage: self.total_damage as int,
            effective_damage: self.total_effective_damage as int,
            healing: self.total_healing as int,
            effective_healing: self.total_effective_healing as int,
            damage_taken: self.total_damage_taken as int,
            effective_damage_taken: self.total_effective_damage_taken as int,
            absorbed: self.total_absorbed as int,
            threat: self.total_threat as int,
            hits: self.hit_count as int,
            crits: self.crit_count as int,
            heals: self.heal_count as int,
            heal_crits: self.heal_crit_count as int,
        }
    }
}

/// Largest number of events one encounter takes in; it keeps every sum in range.
pub const MAX_ENCOUNTER_EVENTS: usize = 4294967295;

fn amount(o: Option<i64>) -> (r: i128)
    ensures
        r as int == opt_amount(o),
{
    match o {
        Some(v) => v as i128,
        None => 0,
    }
}

/// Totals of a new entity.
pub(crate) fn fresh_metrics(name: IStr, class_id: i64, log_id: i64, entity_type: EntityType) -> (m: EntityMetrics)
    ensures
        m.name == name,
        m.totals() == zero_totals(),
        m.class_id == class_id,
        m.log_id == log_id,
        m.entity_type == entity_type,
{
    EntityMetrics {
        name,
        class_id,
        log_id,
        entity_type,
        total_damage: 0,
        total_effective_damage: 0,
        total_healing: 0,
        total_effective_healing: 0,
        total_damage_taken: 0,
        total_effective_damage_taken: 0,
        total_absorbed: 0,
        total_threat: 0,
        hit_count: 0,
        crit_count: 0,
        heal_count: 0,
        heal_crit_count: 0,
    }
}

/// Adds the contribution of `e` to the totals of `m`.
pub(crate) fn add_event(m: &mut EntityMetrics, e: &CombatEvent, Ghost(events): Ghost<Seq<CombatEvent>>)
    requires
        old(m).totals() == totals_over(events, old(m).name),
        events.len() < MAX_ENCOUNTER_EVENTS,
    ensures
        final(m).totals() == totals_over(events.push(*e), old(m).name),
        final(m).name == old(m).name,
        final(m).class_id == old(m).class_id,
        final(m).log_id == old(m).log_id,
        final(m).entity_type == old(m).entity_type,
{
    let ghost all = events.push(*e);
    proof {
        assert(all.drop_last() =~= events);
        lemma_totals_bounded(all, m.name);
        assert(all.len() * 0x1_0000_0000_0000_0000 <= 0x1_0000_0000_0000_0000_0000_0000int) by (nonlinear_arith)
            requires
                all.len() <= MAX_ENCOUNTER_EVENTS,
        ;
    }
    let x = m.name;
    let src = match e.source_entity.name {
        Some(n) => n == x,
        None => false,
    };
    let tgt = match e.target_entity {
        Some(t) => match t.name {
            Some(n) => n == x,
            None => false,
        },
        None => false,
    };
    let crit = match e.is_critical {
        Some(c) => c,
        None => false,
    };
    let dmg = amount(e.damage);
    let edmg = amount(e.effective_damage);
    if src {
        m.total_damage = m.total_damage + dmg;
        m.total_effective_damage = m.total_effective_damage + edmg;
        m.total_healing = m.total_healing + amount(e.heal);
        m.total_effective_healing = m.total_effective_healing + amount(e.effective_heal);
        m.total_threat = m.total_threat + amount(e.threat);
        if e.damage.is_some() {
            m.hit_count = m.hit_count + 1;
            if crit {
                m.crit_count = m.crit_count + 1;
            }
        }
        if e.heal.is_some() {
            m.heal_count = m.heal_count + 1;
            if crit {
                m.heal_crit_count = m.heal_crit_count + 1;
            }
        }
    }
    if tgt {
        m.total_damage_taken = m.total_damage_taken + dmg;
        m.total_effective_damage_taken = m.total_effective_damage_taken + edmg;
        m.total_absorbed = m.total_absorbed + amount(e.damage_reduced);
    }
}

pub proof fn lemma_unmentioned_zero(events: Seq<CombatEvent>, x: IStr)
    requires
        !mentioned(events, x),
    ensures
        totals_over(events, x) == zero_totals(),
    decreases events.len(),
{
    if events.len() > 0 {
        let last = events.len() - 1;
        assert(!(is_source(events[last], x) || is_target(events[last], x)));
        assert forall|i: int| 0 <= i < events.drop_last().len() implies
            !(is_source(events.drop_last()[i], x) || is_target(events.drop_last()[i], x)) by {
            assert(events.drop_last()[i] == events[i]);
        }
        lemma_unmentioned_zero(events.drop_last(), x);
    }
}

/// The per-entity totals of one encounter, one record per named entity.
pub struct MetricSet {
    pub records: Vec<EntityMetrics>,
}

impl MetricSet {
    /// The records are exactly the totals of the entities that `events` names.
    pub open spec fn consistent(&self, events: Seq<CombatEvent>) -> bool {
        &&& forall|i: int, j: int|
            0 <= i < j < self.records@.len() ==> self.records@[i].name != self.records@[j].name
        &&& forall|i: int|
            0 <= i < self.records@.len() ==> (#[trigger] self.records@[i]).totals() == totals_over(events, self.records@[i].name)
        &&& forall|x: IStr| mentioned(events, x) ==> exists|i: int| 0 <= i < self.records@.len() && (#[trigger] self.records@[i]).name == x
        &&& forall|i: int| 0 <= i < self.records@.len() ==> mentioned(events, (#[trigger] self.records@[i]).name)
    }

    pub fn new() -> (r: MetricSet)
        ensures
            r.consistent(Seq::empty()),
            r.records@.len() == 0,
    {
        MetricSet { records: Vec::new() }
    }

    /// The index of the record of `x`.
    pub fn position(&self, x: IStr) -> (r: Option<usize>)
        ensures
            match r {
                Some(i) => i < self.records@.len() && self.records@[i as int].name == x,
                None => forall|i: int| 0 <= i < self.records@.len() ==> self.records@[i].name != x,
            },
    {
        let mut i: usize = 0;
        while i < self.records.len()
            invariant
                i <= self.records@.len(),
                forall|j: int| 0 <= j < i ==> self.records@[j].name != x,
            decreases self.records@.len() - i,
        {
            if self.records[i].name == x {
                return Some(i);
            }
            i = i + 1;
        }
        None
    }

    /// Makes sure `x` has a record, before an event naming it is counted.
    fn ensure_record(&mut self, x: IStr, class_id: i64, log_id: i64, entity_type: EntityType, Ghost(events): Ghost<Seq<CombatEvent>>, Ghost(e): Ghost<CombatEvent>)
        requires
            forall|i: int, j: int|
                0 <= i < j < old(self).records@.len() ==> old(self).records@[i].name != old(self).records@[j].name,
            forall|i: int|
                0 <= i < old(self).records@.len() ==> (#[trigger] old(self).records@[i]).totals() == totals_over(events, old(self).records@[i].name),
            forall|y: IStr| mentioned(events, y) ==> exists|i: int| 0 <= i < old(self).records@.len() && (#[trigger] old(self).records@[i]).name == y,
            forall|i: int| 0 <= i < old(self).records@.len() ==> mentioned(events.push(e), (#[trigger] old(self).records@[i]).name),
            mentioned(events.push(e), x),
        ensures
            exists|i: int| 0 <= i < final(self).records@.len() && (#[trigger] final(self).records@[i]).name == x,
            forall|i: int| 0 <= i < old(self).records@.len() ==> final(self).records@[i] == old(self).records@[i],
            old(self).records@.len() <= final(self).records@.len() <= old(self).records@.len() + 1,
            forall|i: int|
                0 <= i < final(self).records@.len() ==> (#[trigger] final(self).records@[i]).totals() == totals_over(events, final(self).records@[i].name),
            forall|i: int, j: int|
                0 <= i < j < final(self).records@.len() ==> final(self).records@[i].name != final(self).records@[j].name,
            forall|y: IStr| mentioned(events, y) ==> exists|i: int| 0 <= i < final(self).records@.len() && (#[trigger] final(self).records@[i]).name == y,
            forall|i: int| 0 <= i < final(self).records@.len() ==> mentioned(events.push(e), (#[trigger] final(self).records@[i]).name),
    {
        match self.position(x) {
            Some(i) => {
                assert(self.records@[i as int].name == x);
            },
            None => {
                proof {
                    if mentioned(events, x) {
                        let i = choose|i: int| 0 <= i < self.records@.len() && (#[trigger] self.records@[i]).name == x;
                        assert(self.records@[i].name != x);
                    }
                    lemma_unmentioned_zero(events, x);
                }
                let ghost before = self.records@;
                self.records.push(fresh_metrics(x, class_id, log_id, entity_type));
                proof {
                    assert(self.records@[before.len() as int].name == x);
                    assert forall|y: IStr| mentioned(events, y) implies exists|i: int| 0 <= i < self.records@.len() && (#[trigger] self.records@[i]).name == y by {
                        let i = choose|i: int| 0 <= i < before.len() && (#[trigger] before[i]).name == y;
                        assert(self.records@[i] == before[i]);
                    }
                }
            },
        }
    }

    /// Counts one more event.
    pub fn record(&mut self, e: &CombatEvent, Ghost(events): Ghost<Seq<CombatEvent>>)
        requires
            old(self).consistent(events),
            events.len() < MAX_ENCOUNTER_EVENTS,
        ensures
            final(self).consistent(events.push(*e)),
    {
        let ghost all = events.push(*e);
        proof {
            assert forall|i: int| 0 <= i < self.records@.len() implies mentioned(all, (#[trigger] self.records@[i]).name) by {
                let x = self.records@[i].name;
                let k = choose|k: int| 0 <= k < events.len() && (is_source(events[k], x) || is_target(events[k], x));
                assert(all[k] == events[k]);
            }
        }
        if let Some(x) = e.source_entity.name {
            proof {
                assert(is_source(all[events.len() as int], x));
            }
            self.ensure_record(x, e.source_entity.class_id, e.source_entity.log_id, e.source_entity.entity_type, Ghost(events), Ghost(*e));
        }
        let ghost after_source = self.records@;
        assert(forall|x: IStr| is_source(*e, x) ==> exists|j: int| 0 <= j < after_source.len() && (#[trigger] after_source[j]).name == x);
        if let Some(t) = e.target_entity {
            if let Some(x) = t.name {
                proof {
                    assert(is_target(all[events.len() as int], x));
                }
                self.ensure_record(x, t.class_id, t.log_id, t.entity_type, Ghost(events), Ghost(*e));
            }
        }
        let ghost mid = self.records@;
        proof {
            assert forall|x: IStr| (is_source(*e, x) || is_target(*e, x)) implies exists|j: int| 0 <= j < mid.len() && (#[trigger] mid[j]).name == x by {
                if is_source(*e, x) {
                    let i = choose|i: int| 0 <= i < after_source.len() && (#[trigger] after_source[i]).name == x;
                    assert(mid[i] == after_source[i]);
                }
            }
        }
        let mut i: usize = 0;
        while i < self.records.len()
            invariant
                i <= self.records@.len(),
                self.records@.len() == mid.len(),
                events.len() < MAX_ENCOUNTER_EVENTS,
                all == events.push(*e),
                forall|x: IStr| (is_source(*e, x) || is_target(*e, x)) ==> exists|j: int| 0 <= j < mid.len() && (#[trigger] mid[j]).name == x,
                forall|x: IStr| mentioned(events, x) ==> exists|j: int| 0 <= j < mid.len() && (#[trigger] mid[j]).name == x,
                forall|j: int| 0 <= j < mid.len() ==> mentioned(all, (#[trigger] mid[j]).name),
                forall|j: int, k: int| 0 <= j < k < mid.len() ==> mid[j].name != mid[k].name,
                forall|j: int| 0 <= j < mid.len() ==> (#[trigger] self.records@[j]).name == mid[j].name,
                forall|j: int| 0 <= j < i ==> (#[trigger] self.records@[j]).totals() == totals_over(all, self.records@[j].name),
                forall|j: int| i <= j < mid.len() ==> (#[trigger] self.records@[j]) == mid[j],
                forall|j: int| 0 <= j < mid.len() ==> (#[trigger] mid[j]).totals() == totals_over(events, mid[j].name),
            decreases mid.len() - i,
        {
            let mut m = self.records[i];
            add_event(&mut m, e, Ghost(events));
            self.records.set(i, m);
            assert(self.records@[i as int].totals() == totals_over(all, self.records@[i as int].name));
            i = i + 1;
        }
        proof {
            assert forall|x: IStr| mentioned(all, x) implies exists|i: int| 0 <= i < self.records@.len() && (#[trigger] self.records@[i]).name == x by {
                let k = choose|k: int| 0 <= k < all.len() && (is_source(all[k], x) || is_target(all[k], x));
                if k < events.len() {
                    assert(all[k] == events[k]);
                    assert(mentioned(events, x));
                    let j = choose|j: int| 0 <= j < mid.len() && (#[trigger] mid[j]).name == x;
                    assert(self.records@[j].name == x);
                } else {
                    assert(all[k] == *e);
                    let j = choose|j: int| 0 <= j < mid.len() && (#[trigger] mid[j]).name == x;
                    assert(self.records@[j].name == x);
                }
            }
        }
    }
}

/// A total spread over a duration, in units per second, rounded toward zero;
/// durations under one millisecond count as one.
pub open spec fn rate_spec(total: int, duration_ms: int) -> int {
    let d = if duration_ms < 1 { 1 } else { duration_ms };
    if total >= 0 {
        total * 1000 / d
    } else {
        -((-total) * 1000 / d)
    }
}

/// Largest magnitude of a total that `per_second` takes.
pub const MAX_RATE_TOTAL: i128 = 1267650600228229401496703205376;

/// `total` per second over `duration_ms` (see `rate_spec`).
pub fn per_second(total: i128, duration_ms: u32) -> (r: i128)
    requires
        -MAX_RATE_TOTAL <= total <= MAX_RATE_TOTAL,
    ensures
        r as int == rate_spec(total as int, duration_ms as int),
{
    let d: i128 = if duration_ms < 1 { 1 } else { duration_ms as i128 };
    if total >= 0 {
        assert((total as int) * 1000 / (d as int) <= (total as int) * 1000) by (nonlinear_arith)
            requires
                d >= 1,
                total >= 0,
        ;
        total * 1000 / d
    } else {
        let m = -total;
        assert((m as int) * 1000 / (d as int) <= (m as int) * 1000) by (nonlinear_arith)
            requires
                d >= 1,
                m >= 0,
        ;
        -(m * 1000 / d)
    }
}

/// Rate derivation: a rate times the duration in seconds gives back the
/// total, short of less than one rate unit per second of duration (the
/// rounding of the division).
pub proof fn lemma_rate_derivation(total: int, duration_ms: int)
    requires
        total >= 0,
        duration_ms >= 1,
    ensures
        rate_spec(total, duration_ms) * duration_ms <= total * 1000,
        total * 1000 < (rate_spec(total, duration_ms) + 1) * duration_ms,
{
    let r = rate_spec(total, duration_ms);
    assert(r == total * 1000 / duration_ms);
    assert(r * duration_ms <= total * 1000 < (r + 1) * duration_ms) by (nonlinear_arith)
        requires
            r == total * 1000 / duration_ms,
            duration_ms >= 1,
    ;
}

/// Per-entity figures for the overlays: rates over the encounter's span.
#[derive(Clone, Copy, Debug, PartialEq, Eq, Structural)]
pub struct PlayerMetrics {
    pub entity_id: i64,
    pub name: IStr,
    pub dps: i128,
    pub edps: i128,
    pub hps: i128,
    pub ehps: i128,
    pub dtps: i128,
    pub edtps: i128,
    pub tps: i128,
    pub abs: i128,
    pub total_damage: i128,
    pub total_effective_damage: i128,
    pub total_healing: i128,
    pub total_effective_healing: i128,
}

pub open spec fn player_metrics_of(m: EntityMetrics, duration_ms: int) -> PlayerMetrics {
    PlayerMetrics {
        entity_id: m.log_id,
        name: m.name,
        dps: rate_spec(m.total_damage as int, duration_ms) as i128,
        edps: rate_spec(m.total_effective_damage as int, duration_ms) as i128,
        hps: rate_spec(m.total_healing as int, duration_ms) as i128,
        ehps: rate_spec(m.total_effective_healing as int, duration_ms) as i128,
        dtps: rate_spec(m.total_damage_taken as int, duration_ms) as i128,
        edtps: rate_spec(m.total_effective_damage_taken as int, duration_ms) as i128,
        tps: rate_spec(m.total_threat as int, duration_ms) as i128,
        abs: rate_spec(m.total_absorbed as int, duration_ms) as i128,
        total_damage: m.total_damage,
        total_effective_damage: m.total_effective_damage,
        total_healing: m.total_healing,
        total_effective_healing: m.total_effective_healing,
    }
}

pub open spec fn small_totals(m: EntityMetrics) -> bool {
    &&& -MAX_RATE_TOTAL <= m.total_damage <= MAX_RATE_TOTAL
    &&& -MAX_RATE_TOTAL <= m.total_effective_damage <= MAX_RATE_TOTAL
    &&& -MAX_RATE_TOTAL <= m.total_healing <= MAX_RATE_TOTAL
    &&& -MAX_RATE_TOTAL <= m.total_effective_healing <= MAX_RATE_TOTAL
    &&& -MAX_RATE_TOTAL <= m.total_damage_taken <= MAX_RATE_TOTAL
    &&& -MAX_RATE_TOTAL <= m.total_effective_damage_taken <= MAX_RATE_TOTAL
    &&& -MAX_RATE_TOTAL <= m.total_threat <= MAX_RATE_TOTAL
    &&& -MAX_RATE_TOTAL <= m.total_absorbed <= MAX_RATE_TOTAL
}

/// The overlay figures of one record over a span of `duration_ms`.
pub fn player_metrics(m: &EntityMetrics, duration_ms: u32) -> (r: PlayerMetrics)
    requires
        small_totals(*m),
    ensures
        r == player_metrics_of(*m, duration_ms as int),
{
    PlayerMetrics {
        entity_id: m.log_id,
        name: m.name,
        dps: per_second(m.total_damage, duration_ms),
        edps: per_second(m.total_effective_damage, duration_ms),
        hps: per_second(m.total_healing, duration_ms),
        ehps: per_second(m.total_effective_healing, duration_ms),
        dtps: per_second(m.total_damage_taken, duration_ms),
        edtps: per_second(m.total_effective_damage_taken, duration_ms),
        tps: per_second(m.total_threat, duration_ms),
        abs: per_second(m.total_absorbed, duration_ms),
        total_damage: m.total_damage,
        total_effective_damage: m.total_effective_damage,
        total_healing: m.total_healing,
        total_effective_healing: m.total_effective_healing,
    }
}

impl MetricSet {
    /// Every record's sums are within the range that rates take.
    pub proof fn lemma_small(&self, events: Seq<CombatEvent>)
        requires
            self.consistent(events),
            events.len() <= MAX_ENCOUNTER_EVENTS,
        ensures
            forall|i: int| 0 <= i < self.records@.len() ==> small_totals(#[trigger] self.records@[i]),
    {
        assert forall|i: int| 0 <= i < self.records@.len() implies small_totals(#[trigger] self.records@[i]) by {
            let x = self.records@[i].name;
            lemma_totals_bounded(events, x);
            assert(events.len() * 0x1_0000_0000_0000_0000 <= 0x1_0000_0000_0000_0000_0000_0000int) by (nonlinear_arith)
                requires
                    events.len() <= MAX_ENCOUNTER_EVENTS,
            ;
        }
    }
}

} // verus!
