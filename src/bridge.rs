//! Turns metric snapshots into the entry lists that each overlay draws, and
//! decides what each overlay channel receives.
use vstd::prelude::*;
use crate::interner::IStr;
use crate::metrics::{EntityMetrics, PlayerMetrics, per_second, rate_spec, MAX_RATE_TOTAL};
use crate::session::GameSignal;

verus! {

broadcast use vstd::seq_lib::group_to_multiset_ensures;

/// The metric that a meter overlay shows.
#[derive(Clone, Copy, Debug, PartialEq, Eq, Hash, Structural)]
pub enum MetricType {
    Dps,
    EDps,
    Hps,
    EHps,
    Tps,
    Dtps,
    EDtps,
    Abs,
}

/// An RGBA color.
#[derive(Clone, Copy, Debug, PartialEq, Eq, Structural)]
pub struct Color {
    pub r: u8,
    pub g: u8,
    pub b: u8,
    pub a: u8,
}

pub open spec fn bar_color_spec(kind: MetricType) -> Color {
    match kind {
        MetricType::Dps => Color { r: 200, g: 50, b: 50, a: 255 },
        MetricType::EDps => Color { r: 230, g: 110, b: 40, a: 255 },
        MetricType::Hps => Color { r: 50, g: 180, b: 80, a: 255 },
        MetricType::EHps => Color { r: 90, g: 210, b: 140, a: 255 },
        MetricType::Tps => Color { r: 60, g: 110, b: 200, a: 255 },
        MetricType::Dtps => Color { r: 150, g: 60, b: 170, a: 255 },
        MetricType::EDtps => Color { r: 190, g: 100, b: 210, a: 255 },
        MetricType::Abs => Color { r: 200, g: 180, b: 60, a: 255 },
    }
}

impl MetricType {
    /// Every metric, in display order.
    pub open spec fn spec_all() -> Seq<MetricType> {
        seq![
            MetricType::Dps, MetricType::EDps, MetricType::Hps, MetricType::EHps,
            MetricType::Tps, MetricType::Dtps, MetricType::EDtps, MetricType::Abs,
        ]
    }

    /// Every metric, in display order.
    pub fn all() -> (r: Vec<MetricType>)
        ensures
            r@ == MetricType::spec_all(),
    {
        let r = vec![
            MetricType::Dps, MetricType::EDps, MetricType::Hps, MetricType::EHps,
            MetricType::Tps, MetricType::Dtps, MetricType::EDtps, MetricType::Abs,
        ];
        assert(r@ =~= MetricType::spec_all());
        r
    }

    /// The color of this metric's bars.
    pub fn bar_color(&self) -> (r: Color)
        ensures
            r == bar_color_spec(*self),
    {
        match self {
            MetricType::Dps => Color { r: 200, g: 50, b: 50, a: 255 },
            MetricType::EDps => Color { r: 230, g: 110, b: 40, a: 255 },
            MetricType::Hps => Color { r: 50, g: 180, b: 80, a: 255 },
            MetricType::EHps => Color { r: 90, g: 210, b: 140, a: 255 },
            MetricType::Tps => Color { r: 60, g: 110, b: 200, a: 255 },
            MetricType::Dtps => Color { r: 150, g: 60, b: 170, a: 255 },
            MetricType::EDtps => Color { r: 190, g: 100, b: 210, a: 255 },
            MetricType::Abs => Color { r: 200, g: 180, b: 60, a: 255 },
        }
    }
}

/// The figure of `m` that overlay `kind` shows.
pub open spec fn value_of(kind: MetricType, m: PlayerMetrics) -> i128 {
    match kind {
        MetricType::Dps => m.dps,
        MetricType::EDps => m.edps,
        MetricType::Hps => m.hps,
        MetricType::EHps => m.ehps,
        MetricType::Tps => m.tps,
        MetricType::Dtps => m.dtps,
        MetricType::EDtps => m.edtps,
        MetricType::Abs => m.abs,
    }
}

fn metric_value(kind: MetricType, m: &PlayerMetrics) -> (r: i128)
    ensures
        r == value_of(kind, *m),
{
    match kind {
        MetricType::Dps => m.dps,
        MetricType::EDps => m.edps,
        MetricType::Hps => m.hps,
        MetricType::EHps => m.ehps,
        MetricType::Tps => m.tps,
        MetricType::Dtps => m.dtps,
        MetricType::EDtps => m.edtps,
        MetricType::Abs => m.abs,
    }
}

/// One bar of a meter overlay.
#[derive(Clone, Copy, Debug, PartialEq, Eq, Structural)]
pub struct MeterEntry {
    pub name: IStr,
    pub value: i128,
    pub max_value: i128,
    pub color: Color,
}

/// The (name, value) pairs that overlay `kind` shows for `metrics`.
pub open spec fn pairs_of(kind: MetricType, metrics: Seq<PlayerMetrics>) -> Seq<(IStr, i128)> {
    metrics.map_values(|m: PlayerMetrics| (m.name, value_of(kind, m)))
}

pub open spec fn entry_pairs(entries: Seq<MeterEntry>) -> Seq<(IStr, i128)> {
    entries.map_values(|e: MeterEntry| (e.name, e.value))
}

/// The scale of a meter: the largest value, and at least one.
pub open spec fn scale_of(kind: MetricType, metrics: Seq<PlayerMetrics>) -> i128
    decreases metrics.len(),
{
    if metrics.len() == 0 {
        1
    } else {
        let rest = scale_of(kind, metrics.drop_last());
        let v = value_of(kind, metrics.last());
        if v > rest { v } else { rest }
    }
}

pub open spec fn sorted_desc(entries: Seq<MeterEntry>) -> bool {
    forall|i: int, j: int| 0 <= i < j < entries.len() ==> entries[i].value >= entries[j].value
}

/// The entries of overlay `kind` for a metrics snapshot: one per entity,
/// highest value first, each scaled by the largest value (at least one) and
/// drawn in the kind's bar color.
pub fn create_entries_for_type(kind: MetricType, metrics: &[PlayerMetrics]) -> (r: Vec<MeterEntry>)
    ensures
        entry_pairs(r@).to_multiset() == pairs_of(kind, metrics@).to_multiset(),
        sorted_desc(r@),
        forall|i: int| 0 <= i < r@.len() ==> (#[trigger] r@[i]).max_value == scale_of(kind, metrics@)
            && r@[i].color == bar_color_spec(kind),
{
    let color = kind.bar_color();
    let mut scale: i128 = 1;
    let mut k: usize = 0;
    while k < metrics.len()
        invariant
            k <= metrics@.len(),
            scale == scale_of(kind, metrics@.subrange(0, k as int)),
        decreases metrics@.len() - k,
    {
        let v = metric_value(kind, &metrics[k]);
        proof {
            assert(metrics@.subrange(0, k + 1).drop_last() =~= metrics@.subrange(0, k as int));
        }
        if v > scale {
            scale = v;
        }
        k = k + 1;
    }
    assert(metrics@.subrange(0, metrics@.len() as int) =~= metrics@);
    let mut out: Vec<MeterEntry> = Vec::new();
    let mut i: usize = 0;
    while i < metrics.len()
        invariant
            i <= metrics@.len(),
            scale == scale_of(kind, metrics@),
            color == bar_color_spec(kind),
            entry_pairs(out@).to_multiset() == pairs_of(kind, metrics@.subrange(0, i as int)).to_multiset(),
            sorted_desc(out@),
            forall|j: int| 0 <= j < out@.len() ==> (#[trigger] out@[j]).max_value == scale && out@[j].color == color,
        decreases metrics@.len() - i,
    {
        let m = &metrics[i];
        let v = metric_value(kind, m);
        let e = MeterEntry { name: m.name, value: v, max_value: scale, color };
        let mut p: usize = 0;
        while p < out.len() && out[p].value >= v
            invariant
                p <= out@.len(),
                forall|j: int| 0 <= j < p ==> out@[j].value >= v,
            decreases out@.len() - p,
        {
            p = p + 1;
        }
        let ghost before = out@;
        out.insert(p, e);
        proof {
            assert(entry_pairs(out@) =~= entry_pairs(before).insert(p as int, (e.name, e.value)));
            assert(pairs_of(kind, metrics@.subrange(0, i + 1)) =~= pairs_of(kind, metrics@.subrange(0, i as int)).push((e.name, e.value)));
            assert forall|a: int, b: int| 0 <= a < b < out@.len() implies out@[a].value >= out@[b].value by {
                if b < p {
                } else if a < p && b == p {
                } else if a < p && b > p {
                    assert(out@[b] == before[b - 1]);
                    if p < before.len() {
                        assert(before[p as int].value < v);
                        assert(before[p as int].value >= before[b - 1].value || b - 1 == p);
                    }
                } else if a == p {
                    assert(out@[b] == before[b - 1]);
                    if p < before.len() {
                        assert(before[p as int].value < v);
                    }
                } else {
                    assert(out@[a] == before[a - 1]);
                    assert(out@[b] == before[b - 1]);
                }
            }
            assert forall|j: int| 0 <= j < out@.len() implies (#[trigger] out@[j]).max_value == scale && out@[j].color == color by {
                if j < p {
                    assert(out@[j] == before[j]);
                } else if j > p {
                    assert(out@[j] == before[j - 1]);
                }
            }
        }
        i = i + 1;
    }
    assert(metrics@.subrange(0, metrics@.len() as int) =~= metrics@);
    out
}

/// The first `n` entries of overlay `kind` (see `create_entries_for_type`):
/// the `n` highest values, highest first.
pub fn top_entries(kind: MetricType, metrics: &[PlayerMetrics], n: usize) -> (r: Vec<MeterEntry>)
    ensures
        exists|all: Seq<MeterEntry>| {
            &&& entry_pairs(all).to_multiset() == pairs_of(kind, metrics@).to_multiset()
            &&& sorted_desc(all)
            &&& (forall|i: int| 0 <= i < all.len() ==> (#[trigger] all[i]).max_value == scale_of(kind, metrics@)
                && all[i].color == bar_color_spec(kind))
            &&& r@ == all.take(if n < all.len() { n as int } else { all.len() as int })
        },
{
    let mut all = create_entries_for_type(kind, metrics);
    let ghost full = all@;
    if n < all.len() {
        all.truncate(n);
    }
    assert(all@ =~= full.take(if n < full.len() { n as int } else { full.len() as int }));
    all
}

/// The entries of every overlay kind, in display order.
pub fn create_all_entries(metrics: &[PlayerMetrics]) -> (r: Vec<(MetricType, Vec<MeterEntry>)>)
    ensures
        r@.len() == MetricType::spec_all().len(),
        forall|i: int| 0 <= i < r@.len() ==> {
            let (kind, entries) = #[trigger] r@[i];
            &&& kind == MetricType::spec_all()[i]
            &&& entry_pairs(entries@).to_multiset() == pairs_of(kind, metrics@).to_multiset()
            &&& sorted_desc(entries@)
            &&& forall|j: int| 0 <= j < entries@.len() ==> (#[trigger] entries@[j]).max_value == scale_of(kind, metrics@)
                && entries@[j].color == bar_color_spec(kind)
        },
{
    let kinds = MetricType::all();
    let mut out: Vec<(MetricType, Vec<MeterEntry>)> = Vec::new();
    let mut i: usize = 0;
    while i < kinds.len()
        invariant
            i <= kinds@.len(),
            kinds@ == MetricType::spec_all(),
            out@.len() == i,
            forall|k: int| 0 <= k < i ==> {
                let (kind, entries) = #[trigger] out@[k];
                &&& kind == MetricType::spec_all()[k]
                &&& entry_pairs(entries@).to_multiset() == pairs_of(kind, metrics@).to_multiset()
                &&& sorted_desc(entries@)
                &&& forall|j: int| 0 <= j < entries@.len() ==> (#[trigger] entries@[j]).max_value == scale_of(kind, metrics@)
                    && entries@[j].color == bar_color_spec(kind)
            },
        decreases kinds@.len() - i,
    {
        let kind = kinds[i];
        let entries = create_entries_for_type(kind, metrics);
        out.push((kind, entries));
        i = i + 1;
    }
    out
}

/// The local player's figures for the personal overlay.
#[derive(Clone, Copy, Debug, PartialEq, Eq, Structural)]
pub struct PersonalStats {
    pub encounter_time_secs: u32,
    pub encounter_count: usize,
    pub dps: i128,
    pub edps: i128,
    pub total_damage: i128,
    pub hps: i128,
    pub ehps: i128,
    pub total_healing: i128,
    pub dtps: i128,
    pub edtps: i128,
    pub tps: i128,
    pub total_threat: i128,
    /// Critical hits per hundred hits.
    pub damage_crit_pct: u64,
    /// Critical heals per hundred heals.
    pub heal_crit_pct: u64,
    /// Effective healing per hundred of healing (zero without healing).
    pub effective_heal_pct: i128,
}

/// `part` per hundred of `whole`, rounded down; zero when `whole` is zero.
pub open spec fn pct_spec(part: int, whole: int) -> int {
    if whole <= 0 { 0 } else { part * 100 / whole }
}

fn count_pct(part: u64, whole: u64) -> (r: u64)
    requires
        part <= whole,
    ensures
        r as int == pct_spec(part as int, whole as int),
        r <= 100,
{
    if whole == 0 {
        0
    } else {
        assert((part as int) * 100 / (whole as int) <= 100) by (nonlinear_arith)
            requires
                part <= whole,
                whole > 0,
        ;
        ((part as u128 * 100) / whole as u128) as u64
    }
}

fn share_pct(part: i128, whole: i128) -> (r: i128)
    requires
        0 <= part <= whole,
        whole <= MAX_RATE_TOTAL,
    ensures
        r as int == pct_spec(part as int, whole as int),
{
    if whole <= 0 {
        0
    } else {
        assert((part as int) * 100 / (whole as int) <= 100) by (nonlinear_arith)
            requires
                part <= whole,
                whole > 0,
        ;
        part * 100 / whole
    }
}

/// The personal figures of a record over an encounter span of
/// `duration_ms`, the `encounter_count`-th of the session.
pub open spec fn personal_stats_of(m: EntityMetrics, duration_ms: int, encounter_count: usize) -> PersonalStats {
    PersonalStats {
        encounter_time_secs: (duration_ms / 1000) as u32,
        encounter_count,
        dps: rate_spec(m.total_damage as int, duration_ms) as i128,
        edps: rate_spec(m.total_effective_damage as int, duration_ms) as i128,
        total_damage: m.total_damage,
        hps: rate_spec(m.total_healing as int, duration_ms) as i128,
        ehps: rate_spec(m.total_effective_healing as int, duration_ms) as i128,
        total_healing: m.total_healing,
        dtps: rate_spec(m.total_damage_taken as int, duration_ms) as i128,
        edtps: rate_spec(m.total_effective_damage_taken as int, duration_ms) as i128,
        tps: rate_spec(m.total_threat as int, duration_ms) as i128,
        total_threat: m.total_threat,
        damage_crit_pct: pct_spec(m.crit_count as int, m.hit_count as int) as u64,
        heal_crit_pct: pct_spec(m.heal_crit_count as int, m.heal_count as int) as u64,
        effective_heal_pct: if 0 <= m.total_effective_healing <= m.total_healing {
            pct_spec(m.total_effective_healing as int, m.total_healing as int) as i128
        } else {
            0
        },
    }
}

/// The personal figures of one record (see `personal_stats_of`).
pub fn personal_stats(m: &EntityMetrics, duration_ms: u32, encounter_count: usize) -> (r: PersonalStats)
    requires
        crate::metrics::small_totals(*m),
        m.crit_count <= m.hit_count,
        m.heal_crit_count <= m.heal_count,
    ensures
        r == personal_stats_of(*m, duration_ms as int, encounter_count),
{
    let effective_heal_pct = if 0 <= m.total_effective_healing && m.total_effective_healing <= m.total_healing {
        share_pct(m.total_effective_healing, m.total_healing)
    } else {
        0
    };
    PersonalStats {
        encounter_time_secs: duration_ms / 1000,
        encounter_count,
        dps: per_second(m.total_damage, duration_ms),
        edps: per_second(m.total_effective_damage, duration_ms),
        total_damage: m.total_damage,
        hps: per_second(m.total_healing, duration_ms),
        ehps: per_second(m.total_effective_healing, duration_ms),
        total_healing: m.total_healing,
        dtps: per_second(m.total_damage_taken, duration_ms),
        edtps: per_second(m.total_effective_damage_taken, duration_ms),
        tps: per_second(m.total_threat, duration_ms),
        total_threat: m.total_threat,
        damage_crit_pct: count_pct(m.crit_count, m.hit_count),
        heal_crit_pct: count_pct(m.heal_crit_count, m.heal_count),
        effective_heal_pct,
    }
}

/// Updates sent from the combat service to the overlays.
pub enum OverlayUpdate {
    CombatStarted,
    CombatEnded,
    MetricsUpdated(Vec<PlayerMetrics>),
    PersonalStatsUpdated(PersonalStats),
}

/// The overlay update that a lifecycle signal becomes: starts and ends are
/// forwarded, other signals are not.
pub fn overlay_update_for(signal: &GameSignal) -> (r: Option<OverlayUpdate>)
    ensures
        (signal matches GameSignal::CombatStarted { .. }) ==> (r matches Some(OverlayUpdate::CombatStarted)),
        (signal matches GameSignal::CombatEnded { .. }) ==> (r matches Some(OverlayUpdate::CombatEnded)),
        (signal matches GameSignal::AreaEntered { .. }) || (signal matches GameSignal::PhaseStart { .. }) ==> r.is_none(),
{
    match signal {
        GameSignal::CombatStarted { .. } => Some(OverlayUpdate::CombatStarted),
        GameSignal::CombatEnded { .. } => Some(OverlayUpdate::CombatEnded),
        _ => None,
    }
}

/// What an overlay draws.
pub enum OverlayData {
    Metrics(Vec<MeterEntry>),
    Personal(PersonalStats),
}

/// A command on an overlay's channel.
pub enum OverlayCommand {
    UpdateData(OverlayData),
    SetMoveMode(bool),
    /// Combat began; lifecycle updates reach overlays unchanged.
    CombatStarted,
    /// Combat ended.
    CombatEnded,
    Shutdown,
}

/// The command that a lifecycle update becomes on every overlay channel;
/// data updates are routed per overlay kind instead.
pub fn lifecycle_command(update: &OverlayUpdate) -> (r: Option<OverlayCommand>)
    ensures
        (update matches OverlayUpdate::CombatStarted) <==> (r matches Some(OverlayCommand::CombatStarted)),
        (update matches OverlayUpdate::CombatEnded) <==> (r matches Some(OverlayCommand::CombatEnded)),
        r.is_some() == ((update matches OverlayUpdate::CombatStarted) || (update matches OverlayUpdate::CombatEnded)),
{
    match update {
        OverlayUpdate::CombatStarted => Some(OverlayCommand::CombatStarted),
        OverlayUpdate::CombatEnded => Some(OverlayCommand::CombatEnded),
        _ => None,
    }
}

/// A data update, which a newer one may replace.
pub open spec fn is_data(c: OverlayCommand) -> bool {
    c matches OverlayCommand::UpdateData(_)
}

/// Position of the oldest data update in `q`, if any.
pub open spec fn first_data(q: Seq<OverlayCommand>) -> Option<int> {
    if exists|i: int| 0 <= i < q.len() && is_data(q[i]) && forall|j: int| 0 <= j < i ==> !is_data(#[trigger] q[j]) {
        Some(choose|i: int| 0 <= i < q.len() && is_data(q[i]) && forall|j: int| 0 <= j < i ==> !is_data(#[trigger] q[j]))
    } else {
        None
    }
}

proof fn lemma_first_data(q: Seq<OverlayCommand>, i: int)
    requires
        0 <= i < q.len(),
        is_data(q[i]),
        forall|j: int| 0 <= j < i ==> !is_data(#[trigger] q[j]),
    ensures
        first_data(q) == Some(i),
{
    let k = choose|k: int| 0 <= k < q.len() && is_data(q[k]) && forall|j: int| 0 <= j < k ==> !is_data(#[trigger] q[j]);
    if k < i {
        assert(!is_data(q[k]));
    } else if i < k {
        assert(!is_data(q[i]));
    }
}

/// What became of an offered command.
#[derive(Clone, Copy, Debug, PartialEq, Eq, Structural)]
pub enum Offer {
    Queued,
    /// Queued in place of the oldest waiting data update.
    ReplacedOldest,
    /// Not queued: the outbox is full of commands that are never evicted.
    Refused,
}

/// The bounded outbox of one overlay channel. When it is full, the oldest
/// waiting data update gives way to the newest command, so an overlay
/// receives the latest snapshot and every lifecycle command.
pub struct Outbox {
    capacity: usize,
    queue: Vec<OverlayCommand>,
}

impl Outbox {
    pub closed spec fn wf(&self) -> bool {
        1 <= self.capacity && self.queue@.len() <= self.capacity
    }

    pub closed spec fn waiting(&self) -> Seq<OverlayCommand> {
        self.queue@
    }

    pub closed spec fn spec_capacity(&self) -> usize {
        self.capacity
    }

    /// An empty outbox holding at most `capacity` commands (at least one).
    pub fn new(capacity: usize) -> (r: Outbox)
        ensures
            r.wf(),
            r.waiting().len() == 0,
            r.spec_capacity() == if capacity == 0 { 1 } else { capacity },
    {
        Outbox { capacity: if capacity == 0 { 1 } else { capacity }, queue: Vec::new() }
    }

    /// Queues `cmd`. When the outbox is full, the oldest waiting data update
    /// gives way to it; lifecycle and control commands are never evicted, so
    /// with none of those to evict, `cmd` itself is refused.
    pub fn offer(&mut self, cmd: OverlayCommand) -> (r: Offer)
        requires
            old(self).wf(),
        ensures
            final(self).wf(),
            final(self).spec_capacity() == old(self).spec_capacity(),
            old(self).waiting().len() < old(self).spec_capacity() ==> {
                &&& r == Offer::Queued
                &&& final(self).waiting() == old(self).waiting().push(cmd)
            },
            old(self).waiting().len() == old(self).spec_capacity() ==> match first_data(old(self).waiting()) {
                Some(i) => {
                    &&& r == Offer::ReplacedOldest
                    &&& final(self).waiting() == old(self).waiting().remove(i).push(cmd)
                },
                None => {
                    &&& r == Offer::Refused
                    &&& final(self).waiting() == old(self).waiting()
                },
            },
    {
        if self.queue.len() < self.capacity {
            self.queue.push(cmd);
            return Offer::Queued;
        }
        let mut i: usize = 0;
        while i < self.queue.len()
            invariant
                i <= self.queue@.len(),
                self.queue@ == old(self).queue@,
                self.capacity == old(self).capacity,
                self.queue@.len() == self.capacity,
                self.capacity >= 1,
                forall|j: int| 0 <= j < i ==> !is_data(#[trigger] self.queue@[j]),
            decreases self.queue@.len() - i,
        {
            if matches!(self.queue[i], OverlayCommand::UpdateData(_)) {
                proof {
                    lemma_first_data(self.queue@, i as int);
                }
                let _ = self.queue.remove(i);
                self.queue.push(cmd);
                return Offer::ReplacedOldest;
            }
            i = i + 1;
        }
        assert(!exists|k: int| 0 <= k < self.queue@.len() && is_data(self.queue@[k])
            && forall|j: int| 0 <= j < k ==> !is_data(#[trigger] self.queue@[j]));
        Offer::Refused
    }

    /// Takes the oldest waiting command.
    pub fn take(&mut self) -> (r: Option<OverlayCommand>)
        requires
            old(self).wf(),
        ensures
            final(self).wf(),
            final(self).spec_capacity() == old(self).spec_capacity(),
            old(self).waiting().len() == 0 ==> r.is_none() && final(self).waiting() == old(self).waiting(),
            old(self).waiting().len() > 0 ==> r == Some(old(self).waiting()[0])
                && final(self).waiting() == old(self).waiting().drop_first(),
    {
        if self.queue.len() == 0 {
            None
        } else {
            let c = self.queue.remove(0);
            assert(self.queue@ =~= old(self).queue@.drop_first());
            Some(c)
        }
    }

    /// Number of waiting commands.
    pub fn len(&self) -> (r: usize)
        ensures
            r == self.waiting().len(),
    {
        self.queue.len()
    }
}

} // verus!
