//! The encounter state machine: it segments an ordered event stream into
//! encounters and reports their lifecycle.
use vstd::prelude::*;
use crate::event_models::{CombatEvent, EffectKind, Timestamp};
use crate::interner::IStr;
use crate::bridge::{personal_stats, personal_stats_of, OverlayUpdate, PersonalStats};
use crate::metrics::{
    event_is_wf, event_wf, lemma_effective_le, lemma_totals_bounded, lemma_unmentioned_zero, mentioned, totals_over, zero_totals,
    EntityMetrics, MetricSet, MAX_ENCOUNTER_EVENTS, add_event, fresh_metrics, player_metrics, player_metrics_of, PlayerMetrics,
};

verus! {

/// Why an encounter was sealed.
#[derive(Clone, Copy, Debug, PartialEq, Eq, Structural)]
pub enum EndReason {
    /// An exit-combat event.
    ExitCombat,
    /// A second enter-combat event while the encounter was open.
    Restarted,
    /// The log ended, shrank or was replaced while the encounter was open.
    Truncated,
    /// Tailing was stopped while the encounter was open.
    Cancelled,
}

/// A lifecycle signal of the state machine.
#[derive(Clone, Copy, Debug, PartialEq, Eq, Structural)]
pub enum GameSignal {
    CombatStarted { encounter: usize, line_number: usize },
    CombatEnded { encounter: usize, reason: EndReason },
    AreaEntered { area: Option<IStr>, line_number: usize },
    PhaseStart { encounter: usize, line_number: usize },
}

/// Milliseconds in a day.
pub const DAY_MS: u32 = 86400000;

/// Milliseconds from `from` to `to`; a time of day that went back means the
/// date rolled over.
pub open spec fn elapsed_spec(from: Timestamp, to: Timestamp) -> int {
    if to.spec_ms() >= from.spec_ms() {
        to.spec_ms() - from.spec_ms()
    } else {
        to.spec_ms() + DAY_MS - from.spec_ms()
    }
}

/// Milliseconds from `from` to `to`, across midnight when the clock went back.
pub fn elapsed_ms(from: &Timestamp, to: &Timestamp) -> (r: u32)
    requires
        from.wf(),
        to.wf(),
    ensures
        r as int == elapsed_spec(*from, *to),
        r < DAY_MS,
{
    let a = from.ms_of_day();
    let b = to.ms_of_day();
    if b >= a {
        b - a
    } else {
        b + DAY_MS - a
    }
}

/// The events of `events` whose time since `start` lies in `[t0, t1]`, in order.
pub open spec fn in_window(events: Seq<CombatEvent>, start: Timestamp, t0: int, t1: int) -> Seq<CombatEvent>
    decreases events.len(),
{
    if events.len() == 0 {
        Seq::empty()
    } else {
        let before = in_window(events.drop_last(), start, t0, t1);
        let t = elapsed_spec(start, events.last().timestamp);
        if t0 <= t <= t1 {
            before.push(events.last())
        } else {
            before
        }
    }
}

/// A window that covers the time of every event keeps them all: the rates
/// of the window `[0, duration]` are those of the whole encounter when no
/// event lies past its end.
pub proof fn lemma_full_window(events: Seq<CombatEvent>, start: Timestamp, duration: int)
    requires
        forall|i: int| 0 <= i < events.len() ==> 0 <= elapsed_spec(start, (#[trigger] events[i]).timestamp) <= duration,
    ensures
        in_window(events, start, 0, duration) == events,
    decreases events.len(),
{
    if events.len() == 0 {
        assert(events =~= Seq::<CombatEvent>::empty());
    } else {
        let last = events.len() - 1;
        assert(0 <= elapsed_spec(start, events[last].timestamp) <= duration);
        assert forall|i: int| 0 <= i < events.drop_last().len() implies
            0 <= elapsed_spec(start, (#[trigger] events.drop_last()[i]).timestamp) <= duration by {
            assert(events.drop_last()[i] == events[i]);
        }
        lemma_full_window(events.drop_last(), start, duration);
        assert(events.drop_last().push(events.last()) =~= events);
    }
}

/// Line numbers increase strictly along `events`.
pub open spec fn increasing_lines(events: Seq<CombatEvent>) -> bool {
    forall|i: int, j: int| 0 <= i < j < events.len() ==> events[i].line_number < events[j].line_number
}

/// A combat segment: its events and the totals they give.
pub struct Encounter {
    pub index: usize,
    pub area: Option<IStr>,
    pub start: Timestamp,
    pub end: Option<Timestamp>,
    pub end_reason: Option<EndReason>,
    pub phases: Vec<usize>,
    pub events: Vec<CombatEvent>,
    pub metrics: MetricSet,
}

impl Encounter {
    pub open spec fn wf(&self) -> bool {
        &&& self.metrics.consistent(self.events@)
        &&& self.events@.len() <= MAX_ENCOUNTER_EVENTS
        &&& forall|i: int| 0 <= i < self.events@.len() ==> event_wf(#[trigger] self.events@[i])
        &&& forall|i: int| 0 <= i < self.events@.len() ==> (#[trigger] self.events@[i]).timestamp.wf()
        &&& increasing_lines(self.events@)
        &&& self.start.wf()
        &&& self.end.is_some() ==> self.end.unwrap().wf()
        &&& self.end.is_some() == self.end_reason.is_some()
    }

    fn open(index: usize, area: Option<IStr>, start: Timestamp) -> (r: Encounter)
        requires
            start.wf(),
        ensures
            r.wf(),
            r.index == index,
            r.area == area,
            r.start == start,
            r.end.is_none(),
            r.events@.len() == 0,
    {
        Encounter {
            index,
            area,
            start,
            end: None,
            end_reason: None,
            phases: Vec::new(),
            events: Vec::new(),
            metrics: MetricSet::new(),
        }
    }

    /// Line number of the last event, if any.
    pub fn last_line(&self) -> (r: Option<usize>)
        ensures
            r.is_some() == (self.events@.len() > 0),
            r.is_some() ==> r.unwrap() == self.events@.last().line_number,
    {
        if self.events.len() == 0 {
            None
        } else {
            Some(self.events[self.events.len() - 1].line_number)
        }
    }

    /// Where the encounter's span ends: its end once sealed, else its last
    /// event, else its start.
    pub open spec fn span_end(&self) -> Timestamp {
        match self.end {
            Some(t) => t,
            None => if self.events@.len() > 0 {
                self.events@.last().timestamp
            } else {
                self.start
            },
        }
    }

    /// Length of the encounter's span in milliseconds.
    pub fn duration_ms(&self) -> (r: u32)
        requires
            self.wf(),
        ensures
            r as int == elapsed_spec(self.start, self.span_end()),
    {
        let end = match self.end {
            Some(t) => t,
            None => if self.events.len() > 0 {
                assert(self.events@[self.events@.len() - 1].timestamp.wf());
                self.events[self.events.len() - 1].timestamp
            } else {
                self.start
            },
        };
        elapsed_ms(&self.start, &end)
    }

    /// The overlay figures of `x` restricted to the events whose time since
    /// the start lies in `[t0, t1]`, with rates over `max(1, t1 - t0)`
    /// milliseconds.
    pub fn window_metrics(&self, x: IStr, t0: u32, t1: u32) -> (r: PlayerMetrics)
        requires
            self.wf(),
            t0 <= t1,
        ensures
            exists|m: EntityMetrics| m.name == x
                && m.totals() == totals_over(in_window(self.events@, self.start, t0 as int, t1 as int), x)
                && r == player_metrics_of(m, t1 - t0),
            forall|k: int| 0 <= k < self.metrics.records@.len() && self.metrics.records@[k].name == x
                ==> r.entity_id == self.metrics.records@[k].log_id,
            (forall|k: int| 0 <= k < self.metrics.records@.len() ==> self.metrics.records@[k].name != x)
                ==> r.entity_id == 0,
    {
        let mut m = match self.metrics.position(x) {
            Some(k) => {
                let rec = &self.metrics.records[k];
                fresh_metrics(x, rec.class_id, rec.log_id, rec.entity_type)
            },
            None => fresh_metrics(x, 0, 0, crate::event_models::EntityType::Empty),
        };
        let ghost mut taken: Seq<CombatEvent> = Seq::empty();
        let mut i: usize = 0;
        while i < self.events.len()
            invariant
                i <= self.events@.len(),
                self.wf(),
                taken == in_window(self.events@.subrange(0, i as int), self.start, t0 as int, t1 as int),
                taken.len() <= i,
                m.name == x,
                m.totals() == totals_over(taken, x),
                forall|k: int| 0 <= k < self.metrics.records@.len() && self.metrics.records@[k].name == x
                    ==> m.log_id == self.metrics.records@[k].log_id,
                (forall|k: int| 0 <= k < self.metrics.records@.len() ==> self.metrics.records@[k].name != x)
                    ==> m.log_id == 0,
            decreases self.events@.len() - i,
        {
            let e = &self.events[i];
            assert(self.events@[i as int].timestamp.wf());
            let t = elapsed_ms(&self.start, &e.timestamp);
            proof {
                assert(self.events@.subrange(0, i + 1).drop_last() =~= self.events@.subrange(0, i as int));
            }
            if t0 <= t && t <= t1 {
                add_event(&mut m, e, Ghost(taken));
                proof {
                    taken = taken.push(*e);
                }
            }
            i = i + 1;
        }
        proof {
            assert(self.events@.subrange(0, self.events@.len() as int) =~= self.events@);
            lemma_totals_bounded(taken, x);
            assert(taken.len() * 0x1_0000_0000_0000_0000 <= 0x1_0000_0000_0000_0000_0000_0000int) by (nonlinear_arith)
                requires
                    taken.len() <= MAX_ENCOUNTER_EVENTS,
            ;
        }
        player_metrics(&m, t1 - t0)
    }

    /// The overlay figures of every entity of the encounter, in record
    /// order, with rates over the encounter's span.
    pub fn player_metrics(&self) -> (r: Vec<PlayerMetrics>)
        requires
            self.wf(),
        ensures
            r@.len() == self.metrics.records@.len(),
            forall|i: int| 0 <= i < r@.len() ==> r@[i] == player_metrics_of(
                self.metrics.records@[i],
                elapsed_spec(self.start, self.span_end()),
            ),
            forall|i: int| 0 <= i < r@.len() ==> {
                &&& (#[trigger] r@[i]).total_damage == totals_over(self.events@, r@[i].name).damage
                &&& r@[i].total_effective_damage == totals_over(self.events@, r@[i].name).effective_damage
                &&& r@[i].total_healing == totals_over(self.events@, r@[i].name).healing
                &&& r@[i].total_effective_damage <= r@[i].total_damage
                &&& r@[i].total_effective_healing <= r@[i].total_healing
                &&& mentioned(self.events@, r@[i].name)
            },
            forall|i: int, j: int| 0 <= i < j < r@.len() ==> r@[i].name != r@[j].name,
            forall|x: IStr| mentioned(self.events@, x) ==> exists|i: int| 0 <= i < r@.len() && (#[trigger] r@[i]).name == x,
    {
        let d = self.duration_ms();
        proof {
            self.metrics.lemma_small(self.events@);
        }
        let mut out: Vec<PlayerMetrics> = Vec::new();
        let mut i: usize = 0;
        while i < self.metrics.records.len()
            invariant
                i <= self.metrics.records@.len(),
                out@.len() == i,
                d as int == elapsed_spec(self.start, self.span_end()),
                forall|k: int| 0 <= k < self.metrics.records@.len() ==> crate::metrics::small_totals(#[trigger] self.metrics.records@[k]),
                forall|k: int| 0 <= k < i ==> out@[k] == player_metrics_of(self.metrics.records@[k], d as int),
            decreases self.metrics.records@.len() - i,
        {
            out.push(player_metrics(&self.metrics.records[i], d));
            i = i + 1;
        }
        proof {
            assert forall|i: int| 0 <= i < out@.len() implies {
                &&& (#[trigger] out@[i]).total_damage == totals_over(self.events@, out@[i].name).damage
                &&& out@[i].total_effective_damage == totals_over(self.events@, out@[i].name).effective_damage
                &&& out@[i].total_healing == totals_over(self.events@, out@[i].name).healing
                &&& out@[i].total_effective_damage <= out@[i].total_damage
                &&& out@[i].total_effective_healing <= out@[i].total_healing
                &&& mentioned(self.events@, out@[i].name)
            } by {
                let rec = self.metrics.records@[i];
                assert(rec.totals() == totals_over(self.events@, rec.name));
                lemma_effective_le(self.events@, rec.name);
            }
            assert forall|x: IStr| mentioned(self.events@, x) implies exists|i: int| 0 <= i < out@.len() && (#[trigger] out@[i]).name == x by {
                let i = choose|i: int| 0 <= i < self.metrics.records@.len() && (#[trigger] self.metrics.records@[i]).name == x;
                assert(out@[i].name == x);
            }
        }
        out
    }

    /// The personal-overlay figures of `player` over the encounter's span,
    /// or `None` when no event names the player.
    pub fn personal_stats(&self, player: IStr, encounter_count: usize) -> (r: Option<PersonalStats>)
        requires
            self.wf(),
        ensures
            r.is_some() == mentioned(self.events@, player),
            r.is_some() ==> exists|m: EntityMetrics| m.name == player && m.totals() == totals_over(self.events@, player)
                && r.unwrap() == personal_stats_of(m, elapsed_spec(self.start, self.span_end()), encounter_count),
    {
        let d = self.duration_ms();
        match self.metrics_for(player) {
            Some(m) => {
                proof {
                    lemma_totals_bounded(self.events@, player);
                    assert(self.events@.len() * 0x1_0000_0000_0000_0000 <= 0x1_0000_0000_0000_0000_0000_0000int) by (nonlinear_arith)
                        requires
                            self.events@.len() <= MAX_ENCOUNTER_EVENTS,
                    ;
                }
                Some(personal_stats(&m, d, encounter_count))
            },
            None => {
                None
            },
        }
    }

    /// The totals of `x`: those of its record, which sum what every event of
    /// the encounter gave it; `None` when no event names it, so that all its
    /// sums are zero.
    pub fn metrics_for(&self, x: IStr) -> (r: Option<EntityMetrics>)
        requires
            self.wf(),
        ensures
            r.is_some() ==> r.unwrap().name == x && r.unwrap().totals() == totals_over(self.events@, x),
            r.is_none() ==> totals_over(self.events@, x) == zero_totals(),
            r.is_some() == mentioned(self.events@, x),
    {
        match self.metrics.position(x) {
            Some(i) => {
                assert(mentioned(self.events@, self.metrics.records@[i as int].name));
                Some(self.metrics.records[i])
            },
            None => {
                proof {
                    if mentioned(self.events@, x) {
                        let i = choose|i: int| 0 <= i < self.metrics.records@.len() && (#[trigger] self.metrics.records@[i]).name == x;
                        assert(self.metrics.records@[i].name != x);
                    }
                    lemma_unmentioned_zero(self.events@, x);
                }
                None
            },
        }
    }

    fn push_event(&mut self, e: CombatEvent)
        requires
            old(self).wf(),
            old(self).events@.len() < MAX_ENCOUNTER_EVENTS,
            event_wf(e),
            e.timestamp.wf(),
            old(self).events@.len() > 0 ==> old(self).events@.last().line_number < e.line_number,
        ensures
            final(self).wf(),
            final(self).events@ == old(self).events@.push(e),
            final(self).index == old(self).index,
            final(self).area == old(self).area,
            final(self).start == old(self).start,
            final(self).end == old(self).end,
            final(self).end_reason == old(self).end_reason,
    {
        self.metrics.record(&e, Ghost(self.events@));
        let ghost before = self.events@;
        self.events.push(e);
        proof {
            assert forall|i: int, j: int| 0 <= i < j < self.events@.len() implies
                self.events@[i].line_number < self.events@[j].line_number by {
                if j == before.len() && i < before.len() - 1 {
                    assert(before[i].line_number < before[before.len() - 1].line_number);
                }
            }
            assert forall|i: int| 0 <= i < self.events@.len() implies event_wf(#[trigger] self.events@[i]) by {
                if i < before.len() {
                    assert(self.events@[i] == before[i]);
                }
            }
            assert forall|i: int| 0 <= i < self.events@.len() implies (#[trigger] self.events@[i]).timestamp.wf() by {
                if i < before.len() {
                    assert(self.events@[i] == before[i]);
                }
            }
        }
    }
}

/// What the lifecycle signals so far leave open: `Some(None)` when no
/// encounter is open, `Some(Some(i))` when encounter `i` is, and `None` when
/// the history breaks the alternation of starts and ends.
pub open spec fn open_after(h: Seq<GameSignal>) -> Option<Option<usize>>
    decreases h.len(),
{
    if h.len() == 0 {
        Some(None)
    } else {
        match open_after(h.drop_last()) {
            Some(st) => match h.last() {
                GameSignal::CombatStarted { encounter, .. } => if st.is_none() {
                    Some(Some(encounter))
                } else {
                    None
                },
                GameSignal::CombatEnded { encounter, .. } => if st == Some(encounter) {
                    Some(None)
                } else {
                    None
                },
                _ => Some(st),
            },
            None => None,
        }
    }
}

/// The signals that event `e` fires when `open` is the open encounter, if
/// any, and `sealed` encounters are closed.
pub open spec fn transition_signals(open: Option<usize>, sealed: usize, e: CombatEvent) -> Seq<GameSignal> {
    match e.effect_kind {
        EffectKind::EnterCombat => match open {
            Some(i) => seq![
                GameSignal::CombatEnded { encounter: i, reason: EndReason::Restarted },
                GameSignal::CombatStarted { encounter: (i + 1) as usize, line_number: e.line_number },
            ],
            None => seq![GameSignal::CombatStarted { encounter: sealed, line_number: e.line_number }],
        },
        EffectKind::ExitCombat => match open {
            Some(i) => seq![GameSignal::CombatEnded { encounter: i, reason: EndReason::ExitCombat }],
            None => Seq::empty(),
        },
        EffectKind::AreaEntered => seq![GameSignal::AreaEntered { area: e.effect_name, line_number: e.line_number }],
        EffectKind::PhaseStart => match open {
            Some(i) => seq![GameSignal::PhaseStart { encounter: i, line_number: e.line_number }],
            None => Seq::empty(),
        },
        _ => Seq::empty(),
    }
}

/// The encounter open after event `e`.
pub open spec fn transition_open(open: Option<usize>, sealed: usize, e: CombatEvent) -> Option<usize> {
    match e.effect_kind {
        EffectKind::EnterCombat => match open {
            Some(i) => Some((i + 1) as usize),
            None => Some(sealed),
        },
        EffectKind::ExitCombat => None,
        _ => open,
    }
}

/// Event `e` goes into an encounter's buffer: it opens one, or one is open.
pub open spec fn transition_forwards(open: Option<usize>, e: CombatEvent) -> bool {
    e.effect_kind == EffectKind::EnterCombat || open.is_some()
}

/// `after` is `before` with one more sealed encounter, holding `events` and
/// ended for `reason`.
pub open spec fn sealed_one_more(before: Seq<Encounter>, after: Seq<Encounter>, events: Seq<CombatEvent>, reason: EndReason) -> bool {
    &&& after.len() == before.len() + 1
    &&& after.subrange(0, before.len() as int) == before
    &&& after.last().events@ == events
    &&& after.last().end_reason == Some(reason)
}

/// Owns the encounters of one log and the state machine that builds them.
pub struct ParsingSession {
    encounters: Vec<Encounter>,
    active: Option<Encounter>,
    area: Option<IStr>,
    last_line: Option<usize>,
    dropped: usize,
    history: Ghost<Seq<GameSignal>>,
    forwarded: Ghost<Seq<CombatEvent>>,
}

impl ParsingSession {
    pub closed spec fn wf(&self) -> bool {
        &&& forall|i: int| 0 <= i < self.encounters@.len() ==> (#[trigger] self.encounters@[i]).wf()
        &&& forall|i: int| 0 <= i < self.encounters@.len() ==> (#[trigger] self.encounters@[i]).index == i
        &&& forall|i: int| 0 <= i < self.encounters@.len() ==> (#[trigger] self.encounters@[i]).end.is_some()
        &&& self.active.is_some() ==> {
            &&& self.active.unwrap().wf()
            &&& self.active.unwrap().index == self.encounters@.len()
            &&& self.active.unwrap().end.is_none()
            &&& self.active.unwrap().events@.len() > 0 ==> self.last_line.is_some()
                && self.active.unwrap().events@.last().line_number <= self.last_line.unwrap()
        }
        &&& open_after(self.history@) == Some(self.open_index())
        &&& increasing_lines(self.forwarded@)
        &&& self.forwarded@.len() > 0 ==> self.last_line.is_some()
            && self.forwarded@.last().line_number <= self.last_line.unwrap()
    }

    /// Every lifecycle signal fired so far, in order.
    pub closed spec fn signals(&self) -> Seq<GameSignal> {
        self.history@
    }

    /// Every event handed to an encounter so far, in order.
    pub closed spec fn forwarded_events(&self) -> Seq<CombatEvent> {
        self.forwarded@
    }

    /// The index of the open encounter, if any.
    pub closed spec fn open_index(&self) -> Option<usize> {
        match self.active {
            Some(a) => Some(a.index),
            None => None,
        }
    }

    pub closed spec fn sealed(&self) -> Seq<Encounter> {
        self.encounters@
    }

    pub closed spec fn spec_active(&self) -> Option<Encounter> {
        self.active
    }

    pub closed spec fn spec_area(&self) -> Option<IStr> {
        self.area
    }

    pub closed spec fn spec_dropped(&self) -> usize {
        self.dropped
    }

    pub closed spec fn spec_last_line(&self) -> Option<usize> {
        self.last_line
    }

    /// Event `e` is taken in: it comes after every line seen, its amounts are
    /// consistent, its time is valid, and the open encounter has room.
    pub open spec fn accepts(&self, e: CombatEvent) -> bool {
        &&& (self.spec_last_line().is_none() || self.spec_last_line().unwrap() < e.line_number)
        &&& event_wf(e)
        &&& e.timestamp.wf()
        &&& (self.spec_active().is_none() || self.spec_active().unwrap().events@.len() < MAX_ENCOUNTER_EVENTS)
    }

    pub fn new() -> (r: ParsingSession)
        ensures
            r.wf(),
            r.signals() == Seq::<GameSignal>::empty(),
            r.forwarded_events() == Seq::<CombatEvent>::empty(),
            r.sealed().len() == 0,
            r.spec_active().is_none(),
            r.spec_area().is_none(),
            r.spec_dropped() == 0,
    {
        ParsingSession {
            encounters: Vec::new(),
            active: None,
            area: None,
            last_line: None,
            dropped: 0,
            history: Ghost(Seq::empty()),
            forwarded: Ghost(Seq::empty()),
        }
    }

    /// The sealed encounters, by index.
    pub fn encounters(&self) -> (r: &Vec<Encounter>)
        ensures
            r@ == self.sealed(),
    {
        &self.encounters
    }

    /// The open encounter, if any.
    pub fn active(&self) -> (r: Option<&Encounter>)
        ensures
            r.is_some() == self.spec_active().is_some(),
            r.is_some() ==> *r.unwrap() == self.spec_active().unwrap(),
    {
        match &self.active {
            Some(a) => Some(a),
            None => None,
        }
    }

    /// Whether an encounter is open.
    pub fn in_combat(&self) -> (r: bool)
        ensures
            r == self.spec_active().is_some(),
    {
        self.active.is_some()
    }

    /// The current area, as last announced.
    pub fn area(&self) -> (r: Option<IStr>)
        ensures
            r == self.spec_area(),
    {
        self.area
    }

    /// How many events were refused (out of order, inconsistent, or over capacity).
    pub fn dropped(&self) -> (r: usize)
        ensures
            r == self.spec_dropped(),
    {
        self.dropped
    }

    /// The overlay figures of the open encounter, if any.
    pub fn current_metrics(&self) -> (r: Option<Vec<PlayerMetrics>>)
        requires
            self.wf(),
        ensures
            r.is_some() == self.spec_active().is_some(),
            r.is_some() ==> r.unwrap()@.len() == self.spec_active().unwrap().metrics.records@.len(),
            r.is_some() ==> forall|i: int| 0 <= i < r.unwrap()@.len() ==> r.unwrap()@[i] == player_metrics_of(
                self.spec_active().unwrap().metrics.records@[i],
                elapsed_spec(self.spec_active().unwrap().start, self.spec_active().unwrap().span_end()),
            ),
            r.is_some() ==> self.spec_active().unwrap().wf(),
            r.is_some() ==> forall|i: int| 0 <= i < r.unwrap()@.len() ==> {
                let ev = self.spec_active().unwrap().events@;
                &&& (#[trigger] r.unwrap()@[i]).total_damage == totals_over(ev, r.unwrap()@[i].name).damage
                &&& r.unwrap()@[i].total_effective_damage == totals_over(ev, r.unwrap()@[i].name).effective_damage
                &&& r.unwrap()@[i].total_effective_damage <= r.unwrap()@[i].total_damage
                &&& r.unwrap()@[i].total_effective_healing <= r.unwrap()@[i].total_healing
            },
            r.is_some() ==> forall|i: int, j: int| 0 <= i < j < r.unwrap()@.len() ==> r.unwrap()@[i].name != r.unwrap()@[j].name,
    {
        match &self.active {
            Some(a) => Some(a.player_metrics()),
            None => None,
        }
    }

    /// The personal-overlay update for the configured local `player`: its
    /// figures in the open encounter, or else in the last sealed one, with the
    /// count of encounters so far (saturating); `None` when that encounter does not name
    /// the player or there is none.
    pub fn personal_update(&self, player: IStr) -> (r: Option<OverlayUpdate>)
        requires
            self.wf(),
        ensures
            ({
                let enc = if self.spec_active().is_some() {
                    Some(self.spec_active().unwrap())
                } else if self.sealed().len() > 0 {
                    Some(self.sealed().last())
                } else {
                    None
                };
                let count = if self.spec_active().is_some() && self.sealed().len() < usize::MAX {
                    self.sealed().len() + 1int
                } else {
                    self.sealed().len() as int
                };
                &&& r.is_some() == (enc.is_some() && mentioned(enc.unwrap().events@, player))
                &&& r.is_some() ==> exists|m: EntityMetrics| {
                    &&& m.name == player
                    &&& m.totals() == totals_over(enc.unwrap().events@, player)
                    &&& r.unwrap() matches OverlayUpdate::PersonalStatsUpdated(st) && st == personal_stats_of(
                        m,
                        elapsed_spec(enc.unwrap().start, enc.unwrap().span_end()),
                        count as usize,
                    )
                }
            }),
    {
        let n = self.encounters.len();
        let stats = match &self.active {
            Some(a) => {
                let count = if n < usize::MAX { n + 1 } else { n };
                a.personal_stats(player, count)
            },
            None => {
                if n == 0 {
                    return None;
                }
                assert(self.encounters@[n - 1].wf());
                self.encounters[n - 1].personal_stats(player, n)
            },
        };
        match stats {
            Some(st) => Some(OverlayUpdate::PersonalStatsUpdated(st)),
            None => None,
        }
    }

    fn note_signal(&mut self, out: &mut Vec<GameSignal>, s: GameSignal)
        ensures
            final(self).history@ == old(self).history@.push(s),
            final(out)@ == old(out)@.push(s),
            final(self).encounters == old(self).encounters,
            final(self).active == old(self).active,
            final(self).area == old(self).area,
            final(self).last_line == old(self).last_line,
            final(self).dropped == old(self).dropped,
            final(self).forwarded == old(self).forwarded,
    {
        self.history = Ghost(self.history@.push(s));
        out.push(s);
    }

    /// Seals the open encounter, if any, with `reason`; it ends at its last
    /// event.
    fn seal(&mut self, reason: EndReason, out: &mut Vec<GameSignal>)
        requires
            old(self).wf(),
        ensures
            final(self).wf(),
            old(self).active.is_some() ==> {
                &&& final(self).encounters@ == old(self).encounters@.push(final(self).encounters@.last())
                &&& final(self).encounters@.last().events == old(self).active.unwrap().events
                &&& final(self).encounters@.last().end_reason == Some(reason)
                &&& final(self).history@ == old(self).history@.push(
                    GameSignal::CombatEnded { encounter: old(self).active.unwrap().index, reason })
                &&& final(out)@ == old(out)@.push(
                    GameSignal::CombatEnded { encounter: old(self).active.unwrap().index, reason })
            },
            old(self).active.is_none() ==> {
                &&& final(self).encounters == old(self).encounters
                &&& final(self).history == old(self).history
                &&& final(out)@ == old(out)@
            },
            final(self).active.is_none(),
            final(self).area == old(self).area,
            final(self).last_line == old(self).last_line,
            final(self).dropped == old(self).dropped,
            final(self).forwarded == old(self).forwarded,
    {
        match self.active.take() {
            Some(mut a) => {
                let end = if a.events.len() > 0 {
                    assert(a.events@[a.events@.len() - 1].timestamp.wf());
                    a.events[a.events.len() - 1].timestamp
                } else {
                    a.start
                };
                let ghost h = self.history@;
                a.end = Some(end);
                a.end_reason = Some(reason);
                let index = a.index;
                let ghost before = self.encounters@;
                self.encounters.push(a);
                self.note_signal(out, GameSignal::CombatEnded { encounter: index, reason });
                proof {
                    assert(self.history@.drop_last() =~= h);
                    assert(self.encounters@ =~= before.push(self.encounters@.last()));
                    assert forall|i: int| 0 <= i < self.encounters@.len() implies (#[trigger] self.encounters@[i]).wf() by {
                        if i < before.len() {
                            assert(self.encounters@[i] == before[i]);
                        }
                    }
                    assert forall|i: int| 0 <= i < self.encounters@.len() implies (#[trigger] self.encounters@[i]).index == i by {
                        if i < before.len() {
                            assert(self.encounters@[i] == before[i]);
                        }
                    }
                    assert forall|i: int| 0 <= i < self.encounters@.len() implies (#[trigger] self.encounters@[i]).end.is_some() by {
                        if i < before.len() {
                            assert(self.encounters@[i] == before[i]);
                        }
                    }
                }
            },
            None => {},
        }
    }

    /// Appends an accepted event to the open encounter.
    fn forward(&mut self, e: CombatEvent)
        requires
            old(self).wf(),
            old(self).active.is_some(),
            old(self).active.unwrap().events@.len() < MAX_ENCOUNTER_EVENTS,
            event_wf(e),
            e.timestamp.wf(),
            old(self).last_line == Some(e.line_number),
            old(self).forwarded@.len() > 0 ==> old(self).forwarded@.last().line_number < e.line_number,
            old(self).active.unwrap().events@.len() > 0 ==> old(self).active.unwrap().events@.last().line_number < e.line_number,
        ensures
            final(self).wf(),
            final(self).forwarded@ == old(self).forwarded@.push(e),
            final(self).active.is_some(),
            final(self).active.unwrap().index == old(self).active.unwrap().index,
            final(self).active.unwrap().start == old(self).active.unwrap().start,
            final(self).active.unwrap().area == old(self).active.unwrap().area,
            final(self).active.unwrap().events@ == old(self).active.unwrap().events@.push(e),
            final(self).encounters == old(self).encounters,
            final(self).area == old(self).area,
            final(self).last_line == old(self).last_line,
            final(self).dropped == old(self).dropped,
            final(self).history == old(self).history,
    {
        let mut a = self.active.take().unwrap();
        a.push_event(e);
        self.active = Some(a);
        let ghost before = self.forwarded@;
        self.forwarded = Ghost(self.forwarded@.push(e));
        proof {
            assert forall|i: int, j: int| 0 <= i < j < self.forwarded@.len() implies
                self.forwarded@[i].line_number < self.forwarded@[j].line_number by {
                if j == before.len() && i < before.len() - 1 {
                    assert(before[i].line_number < before[before.len() - 1].line_number);
                }
            }
        }
    }

    /// Feeds the next event of the log to the state machine and returns the
    /// signals it fires, in order. An event that is not accepted (see
    /// `accepts`) changes nothing but the count of dropped events.
    pub fn process_event(&mut self, e: CombatEvent) -> (out: Vec<GameSignal>)
        requires
            old(self).wf(),
        ensures
            final(self).wf(),
            final(self).signals() == old(self).signals() + out@,
            !old(self).accepts(e) ==> {
                &&& out@.len() == 0
                &&& final(self).sealed() == old(self).sealed()
                &&& final(self).spec_active() == old(self).spec_active()
                &&& final(self).forwarded_events() == old(self).forwarded_events()
                &&& final(self).spec_area() == old(self).spec_area()
                &&& final(self).spec_last_line() == old(self).spec_last_line()
                &&& final(self).spec_dropped() == if old(self).spec_dropped() < usize::MAX {
                    (old(self).spec_dropped() + 1) as usize
                } else {
                    old(self).spec_dropped()
                }
            },
            old(self).accepts(e) ==> {
                &&& out@ == transition_signals(old(self).open_index(), old(self).sealed().len() as usize, e)
                &&& final(self).open_index() == transition_open(old(self).open_index(), old(self).sealed().len() as usize, e)
                &&& final(self).forwarded_events() == if transition_forwards(old(self).open_index(), e) {
                    old(self).forwarded_events().push(e)
                } else {
                    old(self).forwarded_events()
                }
                &&& final(self).spec_area() == if e.effect_kind == EffectKind::AreaEntered {
                    e.effect_name
                } else {
                    old(self).spec_area()
                }
                &&& final(self).spec_last_line() == Some(e.line_number)
                &&& final(self).spec_dropped() == old(self).spec_dropped()
                &&& match e.effect_kind {
                    EffectKind::EnterCombat => {
                        &&& final(self).spec_active().is_some()
                        &&& final(self).spec_active().unwrap().events@ == seq![e]
                        &&& final(self).spec_active().unwrap().start == e.timestamp
                        &&& final(self).spec_active().unwrap().area == old(self).spec_area()
                        &&& old(self).spec_active().is_some() ==> sealed_one_more(
                            old(self).sealed(),
                            final(self).sealed(),
                            old(self).spec_active().unwrap().events@,
                            EndReason::Restarted,
                        )
                        &&& old(self).spec_active().is_none() ==> final(self).sealed() == old(self).sealed()
                    },
                    EffectKind::ExitCombat => {
                        &&& final(self).spec_active().is_none()
                        &&& old(self).spec_active().is_some() ==> sealed_one_more(
                            old(self).sealed(),
                            final(self).sealed(),
                            old(self).spec_active().unwrap().events@.push(e),
                            EndReason::ExitCombat,
                        )
                        &&& old(self).spec_active().is_none() ==> final(self).sealed() == old(self).sealed()
                    },
                    _ => {
                        &&& final(self).sealed() == old(self).sealed()
                        &&& final(self).spec_active().is_some() == old(self).spec_active().is_some()
                        &&& old(self).spec_active().is_some() ==> final(self).spec_active().unwrap().events@
                            == old(self).spec_active().unwrap().events@.push(e)
                    },
                }
            },
    {
        let in_order = match self.last_line {
            Some(l) => l < e.line_number,
            None => true,
        };
        let room = match &self.active {
            Some(a) => a.events.len() < MAX_ENCOUNTER_EVENTS,
            None => true,
        };
        if !(in_order && event_is_wf(&e) && e.timestamp.is_valid() && room) {
            if self.dropped < usize::MAX {
                self.dropped = self.dropped + 1;
            }
            proof {
                assert(self.history@ =~= self.history@ + Seq::<GameSignal>::empty());
            }
            return Vec::new();
        }
        self.last_line = Some(e.line_number);
        let ghost h0 = self.history@;
        let mut out: Vec<GameSignal> = Vec::new();
        match e.effect_kind {
            EffectKind::EnterCombat => {
                let ghost before = self.encounters@;
                self.seal(EndReason::Restarted, &mut out);
                proof {
                    assert(self.encounters@.subrange(0, before.len() as int) =~= before);
                }
                let index = self.encounters.len();
                let a = Encounter::open(index, self.area, e.timestamp);
                let ghost h1 = self.history@;
                self.note_signal(&mut out, GameSignal::CombatStarted { encounter: index, line_number: e.line_number });
                self.active = Some(a);
                proof {
                    assert(self.history@.drop_last() =~= h1);
                }
                self.forward(e);
                assert(self.active.unwrap().events@ =~= seq![e]);
            },
            EffectKind::ExitCombat => {
                if self.active.is_some() {
                    let ghost before = self.encounters@;
                    self.forward(e);
                    self.seal(EndReason::ExitCombat, &mut out);
                    proof {
                        assert(self.encounters@.subrange(0, before.len() as int) =~= before);
                    }
                }
            },
            EffectKind::AreaEntered => {
                self.area = e.effect_name;
                let ghost h1 = self.history@;
                self.note_signal(&mut out, GameSignal::AreaEntered { area: e.effect_name, line_number: e.line_number });
                proof {
                    assert(self.history@.drop_last() =~= h1);
                }
                if self.active.is_some() {
                    self.forward(e);
                }
            },
            EffectKind::PhaseStart => {
                if self.active.is_some() {
                    let mut a = self.active.take().unwrap();
                    a.phases.push(e.line_number);
                    let index = a.index;
                    self.active = Some(a);
                    let ghost h1 = self.history@;
                    self.note_signal(&mut out, GameSignal::PhaseStart { encounter: index, line_number: e.line_number });
                    proof {
                        assert(self.history@.drop_last() =~= h1);
                    }
                    self.forward(e);
                }
            },
            _ => {
                if self.active.is_some() {
                    self.forward(e);
                }
            },
        }
        proof {
            assert(self.history@ =~= h0 + out@);
        }
        out
    }

    /// Ends the session: an open encounter is sealed with `reason` (the log
    /// ended, shrank or was replaced, or tailing was cancelled), and the one
    /// `CombatEnded` that matches its start is returned.
    pub fn finish(&mut self, reason: EndReason) -> (out: Vec<GameSignal>)
        requires
            old(self).wf(),
        ensures
            final(self).wf(),
            final(self).signals() == old(self).signals() + out@,
            final(self).spec_active().is_none(),
            final(self).forwarded_events() == old(self).forwarded_events(),
            old(self).open_index().is_some() ==> {
                &&& out@ == seq![GameSignal::CombatEnded { encounter: old(self).open_index().unwrap(), reason }]
                &&& final(self).sealed().len() == old(self).sealed().len() + 1
                &&& final(self).sealed().last().end_reason == Some(reason)
                &&& final(self).sealed().last().events == old(self).spec_active().unwrap().events
            },
            old(self).open_index().is_none() ==> out@.len() == 0 && final(self).sealed() == old(self).sealed(),
    {
        let mut out: Vec<GameSignal> = Vec::new();
        let ghost h0 = self.history@;
        self.seal(reason, &mut out);
        proof {
            assert(self.history@ =~= h0 + out@);
            if old(self).active.is_some() {
                assert(out@ =~= seq![GameSignal::CombatEnded { encounter: old(self).active.unwrap().index, reason }]);
            }
        }
        out
    }
}

/// Every encounter of a session is well formed: its records are the sums
/// over its events, its events are consistent and in line order. Sealed
/// encounter `i` has index `i` and an end; the open one has none.
pub proof fn lemma_encounters_wf(s: &ParsingSession)
    requires
        s.wf(),
    ensures
        s.spec_active().is_some() ==> s.spec_active().unwrap().wf() && s.spec_active().unwrap().end.is_none()
            && s.spec_active().unwrap().index == s.sealed().len(),
        forall|i: int| 0 <= i < s.sealed().len() ==> (#[trigger] s.sealed()[i]).wf()
            && s.sealed()[i].index == i && s.sealed()[i].end.is_some(),
{
}

/// Accounting for one encounter: each entity's record holds the sums over
/// the encounter's events of what they gave it (its damage as source, among
/// the rest), effective sums never exceed the sums, and an entity with no
/// record has only zero sums.
pub proof fn lemma_encounter_accounting(e: &Encounter, x: IStr)
    requires
        e.wf(),
    ensures
        forall|j: int| 0 <= j < e.metrics.records@.len()
            ==> (#[trigger] e.metrics.records@[j]).totals() == totals_over(e.events@, e.metrics.records@[j].name),
        (forall|j: int| 0 <= j < e.metrics.records@.len() ==> e.metrics.records@[j].name != x)
            ==> totals_over(e.events@, x) == zero_totals(),
        totals_over(e.events@, x).effective_damage <= totals_over(e.events@, x).damage,
        totals_over(e.events@, x).effective_healing <= totals_over(e.events@, x).healing,
{
    lemma_effective_le(e.events@, x);
    if forall|j: int| 0 <= j < e.metrics.records@.len() ==> e.metrics.records@[j].name != x {
        if mentioned(e.events@, x) {
            let j = choose|j: int| 0 <= j < e.metrics.records@.len() && (#[trigger] e.metrics.records@[j]).name == x;
        }
        lemma_unmentioned_zero(e.events@, x);
    }
}

/// Events reach the encounters in strictly increasing line order: the line
/// numbers of every event that the state machine has handed on increase.
pub proof fn lemma_order_preserved(s: &ParsingSession)
    requires
        s.wf(),
    ensures
        increasing_lines(s.forwarded_events()),
{
}

/// Lifecycle signals alternate: each `CombatEnded` closes the one
/// `CombatStarted` before it, with no other start in between, and at any
/// time at most the open encounter is unmatched.
pub proof fn lemma_lifecycle_well_formed(s: &ParsingSession)
    requires
        s.wf(),
    ensures
        open_after(s.signals()) == Some(s.open_index()),
{
}

pub open spec fn is_start(s: GameSignal) -> bool {
    s matches GameSignal::CombatStarted { .. }
}

pub open spec fn is_end(s: GameSignal) -> bool {
    s matches GameSignal::CombatEnded { .. }
}

/// Every `CombatEnded` of `h` has an earlier `CombatStarted` with no other
/// start or end in between.
pub open spec fn ends_follow_starts(h: Seq<GameSignal>) -> bool {
    forall|i: int| 0 <= i < h.len() && is_end(#[trigger] h[i]) ==> exists|j: int| {
        &&& 0 <= j < i
        &&& is_start(h[j])
        &&& forall|k: int| j < k < i ==> !is_start(#[trigger] h[k]) && !is_end(h[k])
    }
}

/// While an encounter is open, the last lifecycle signal is its start.
pub open spec fn open_start_last(h: Seq<GameSignal>) -> bool {
    exists|j: int| {
        &&& 0 <= j < h.len()
        &&& is_start(h[j])
        &&& forall|k: int| j < k < h.len() ==> !is_start(#[trigger] h[k]) && !is_end(h[k])
    }
}

/// The alternation that `open_after` checks, in precedence form: every end
/// follows a start with no lifecycle signal in between, and an open
/// encounter's start is the last lifecycle signal.
pub proof fn lemma_ends_follow_starts(h: Seq<GameSignal>)
    requires
        open_after(h).is_some(),
    ensures
        ends_follow_starts(h),
        open_after(h).unwrap().is_some() ==> open_start_last(h),
    decreases h.len(),
{
    if h.len() > 0 {
        let p = h.drop_last();
        lemma_ends_follow_starts(p);
        let n = h.len() - 1;
        assert forall|i: int| 0 <= i < h.len() && is_end(#[trigger] h[i]) implies exists|j: int| {
            &&& 0 <= j < i
            &&& is_start(h[j])
            &&& forall|k: int| j < k < i ==> !is_start(#[trigger] h[k]) && !is_end(h[k])
        } by {
            if i < n {
                assert(p[i] == h[i]);
                let j = choose|j: int| {
                    &&& 0 <= j < i
                    &&& is_start(p[j])
                    &&& forall|k: int| j < k < i ==> !is_start(#[trigger] p[k]) && !is_end(p[k])
                };
                assert(h[j] == p[j]);
                assert forall|k: int| j < k < i implies !is_start(#[trigger] h[k]) && !is_end(h[k]) by {
                    assert(h[k] == p[k]);
                }
            } else {
                assert(open_after(p).unwrap().is_some());
                let j = choose|j: int| {
                    &&& 0 <= j < p.len()
                    &&& is_start(p[j])
                    &&& forall|k: int| j < k < p.len() ==> !is_start(#[trigger] p[k]) && !is_end(p[k])
                };
                assert(h[j] == p[j]);
                assert forall|k: int| j < k < i implies !is_start(#[trigger] h[k]) && !is_end(h[k]) by {
                    assert(h[k] == p[k]);
                }
            }
        }
        if open_after(h).unwrap().is_some() {
            if is_start(h[n]) {
                assert(open_start_last(h));
            } else {
                assert(!is_end(h[n]));
                let j = choose|j: int| {
                    &&& 0 <= j < p.len()
                    &&& is_start(p[j])
                    &&& forall|k: int| j < k < p.len() ==> !is_start(#[trigger] p[k]) && !is_end(p[k])
                };
                assert(h[j] == p[j]);
                assert forall|k: int| j < k < h.len() implies !is_start(#[trigger] h[k]) && !is_end(h[k]) by {
                    if k < n {
                        assert(h[k] == p[k]);
                    }
                }
                assert(open_start_last(h));
            }
        }
    }
}

/// The signals a session has fired keep the lifecycle order: every
/// `CombatEnded` is preceded by a `CombatStarted` with no other start or
/// end in between.
pub proof fn lemma_session_ends_follow_starts(s: &ParsingSession)
    requires
        s.wf(),
    ensures
        ends_follow_starts(s.signals()),
{
    lemma_ends_follow_starts(s.signals());
}

/// Accounting: in every sealed encounter, each entity's record holds the sums
/// over the encounter's events of what they gave it (its damage as source,
/// among the rest), effective sums never exceed the sums, and an entity with
/// no record has only zero sums.
pub proof fn lemma_accounting(s: &ParsingSession, i: int, x: IStr)
    requires
        s.wf(),
        0 <= i < s.sealed().len(),
    ensures
        forall|j: int| 0 <= j < s.sealed()[i].metrics.records@.len()
            ==> (#[trigger] s.sealed()[i].metrics.records@[j]).totals()
                == totals_over(s.sealed()[i].events@, s.sealed()[i].metrics.records@[j].name),
        (forall|j: int| 0 <= j < s.sealed()[i].metrics.records@.len() ==> s.sealed()[i].metrics.records@[j].name != x)
            ==> totals_over(s.sealed()[i].events@, x) == zero_totals(),
        totals_over(s.sealed()[i].events@, x).effective_damage <= totals_over(s.sealed()[i].events@, x).damage,
        totals_over(s.sealed()[i].events@, x).effective_healing <= totals_over(s.sealed()[i].events@, x).healing,
{
    reveal(ParsingSession::wf);
    let e = s.sealed()[i];
    assert(e.wf());
    lemma_effective_le(e.events@, x);
    if forall|j: int| 0 <= j < e.metrics.records@.len() ==> e.metrics.records@[j].name != x {
        if mentioned(e.events@, x) {
            let j = choose|j: int| 0 <= j < e.metrics.records@.len() && (#[trigger] e.metrics.records@[j]).name == x;
        }
        lemma_unmentioned_zero(e.events@, x);
    }
}

} // verus!
