//! Whole-file decoding: line framing of a log held in memory and the
//! sequential decoding of its lines.
use vstd::prelude::*;
use crate::bytes::{find_byte, slice};
use crate::event_models::CombatEvent;
use crate::interner::{extends, lemma_extends_trans, Interner};
use crate::parser::{intern_line, LineParts, RawEvent, event_known, lemma_event_known_grows, lemma_short_line_malformed, lemma_parse_idempotent, line_spec, parse_line, raw_line_spec};
use crate::session::increasing_lines;
use crate::tail::{joined, no_newline, NEWLINE};

verus! {

/// The lines that `ranges` cut out of `b`.
pub open spec fn range_lines(b: Seq<u8>, ranges: Seq<(usize, usize)>) -> Seq<Seq<u8>> {
    ranges.map_values(|r: (usize, usize)| b.subrange(r.0 as int, r.1 as int))
}

/// `ranges` are the lines of `b`: every one but the last is followed by a
/// terminator; the last is too unless it is an unfinished tail.
pub open spec fn frames(b: Seq<u8>, ranges: Seq<(usize, usize)>) -> bool {
    let lines = range_lines(b, ranges);
    &&& forall|i: int| 0 <= i < ranges.len() ==> (#[trigger] ranges[i]).0 <= ranges[i].1 <= b.len()
    &&& forall|i: int| 0 <= i < lines.len() ==> no_newline(#[trigger] lines[i])
    &&& (joined(lines) == b || (lines.len() > 0 && lines.last().len() > 0
        && joined(lines.drop_last()) + lines.last() == b))
}

/// Cuts `b` into lines: the start and end of each, terminators excluded,
/// including empty lines and an unfinished last line.
pub fn line_ranges(b: &[u8]) -> (r: Vec<(usize, usize)>)
    ensures
        frames(b@, r@),
{
    let mut r: Vec<(usize, usize)> = Vec::new();
    let mut pos: usize = 0;
    let n = b.len();
    proof {
        assert(joined(range_lines(b@, r@)) =~= b@.subrange(0, 0));
    }
    while pos < n
        invariant
            pos <= n,
            n == b@.len(),
            joined(range_lines(b@, r@)) == b@.subrange(0, pos as int),
            forall|i: int| 0 <= i < r@.len() ==> (#[trigger] r@[i]).0 <= r@[i].1 <= b@.len(),
            forall|i: int| 0 <= i < r@.len() ==> no_newline(#[trigger] range_lines(b@, r@)[i]),
        decreases n - pos,
    {
        let rest = slice(b, pos, n);
        let ghost old_r = r@;
        match find_byte(NEWLINE, rest) {
            Some(j) => {
                r.push((pos, pos + j));
                proof {
                    assert(range_lines(b@, r@).drop_last() =~= range_lines(b@, old_r));
                    assert(range_lines(b@, r@).last() =~= rest@.subrange(0, j as int));
                    assert(b@.subrange(0, pos + j + 1) =~= b@.subrange(0, pos as int) + rest@.subrange(0, j as int) + seq![NEWLINE]);
                    assert forall|i: int| 0 <= i < r@.len() implies no_newline(#[trigger] range_lines(b@, r@)[i]) by {
                        if i < old_r.len() {
                            assert(range_lines(b@, r@)[i] == range_lines(b@, old_r)[i]);
                        }
                    }
                }
                pos = pos + j + 1;
            },
            None => {
                r.push((pos, n));
                proof {
                    assert(range_lines(b@, r@).drop_last() =~= range_lines(b@, old_r));
                    assert(range_lines(b@, r@).last() =~= rest@);
                    assert(b@ =~= b@.subrange(0, pos as int) + rest@);
                    assert forall|i: int| 0 <= i < r@.len() implies no_newline(#[trigger] range_lines(b@, r@)[i]) by {
                        if i < old_r.len() {
                            assert(range_lines(b@, r@)[i] == range_lines(b@, old_r)[i]);
                        }
                    }
                }
                return r;
            },
        }
    }
    assert(b@.subrange(0, n as int) =~= b@);
    r
}

/// The events that the first `k` lines give with names keyed by `names`;
/// line `i` has number `i + 1`, and empty or malformed lines give none.
pub open spec fn events_of(lines: Seq<Seq<u8>>, k: int, names: Seq<Seq<char>>) -> Seq<CombatEvent>
    decreases k,
{
    if k <= 0 {
        Seq::empty()
    } else {
        let before = events_of(lines, k - 1, names);
        let line = lines[k - 1];
        if line.len() > 0 && raw_line_spec(line).is_some() {
            before.push(line_spec(line, k as usize, names).unwrap())
        } else {
            before
        }
    }
}

/// How many of the first `k` lines are not empty and yet malformed.
pub open spec fn malformed_count(lines: Seq<Seq<u8>>, k: int) -> int
    decreases k,
{
    if k <= 0 {
        0
    } else {
        malformed_count(lines, k - 1) + if lines[k - 1].len() > 0 && raw_line_spec(lines[k - 1]).is_none() { 1int } else { 0 }
    }
}

/// Every name of the well-formed lines among the first `k` is in `names`.
pub open spec fn lines_known(lines: Seq<Seq<u8>>, k: int, names: Seq<Seq<char>>) -> bool {
    forall|i: int| 0 <= i < k && raw_line_spec(#[trigger] lines[i]).is_some() ==> event_known(raw_line_spec(lines[i]).unwrap(), names)
}

proof fn lemma_events_stable(lines: Seq<Seq<u8>>, k: int, a: Seq<Seq<char>>, b: Seq<Seq<char>>)
    requires
        0 <= k <= lines.len(),
        lines_known(lines, k, a),
        extends(b, a),
        b.no_duplicates(),
    ensures
        events_of(lines, k, a) == events_of(lines, k, b),
    decreases k,
{
    if k > 0 {
        lemma_events_stable(lines, k - 1, a, b);
        let line = lines[k - 1];
        if raw_line_spec(line).is_some() {
            lemma_parse_idempotent(line, k as usize, a, b);
        }
    }
}

/// The events of a log come in strictly increasing line order, each with a
/// number no greater than the lines read.
pub proof fn lemma_events_in_order(lines: Seq<Seq<u8>>, k: int, names: Seq<Seq<char>>)
    requires
        0 <= k <= lines.len(),
        k <= usize::MAX,
    ensures
        increasing_lines(events_of(lines, k, names)),
        forall|i: int| 0 <= i < events_of(lines, k, names).len() ==> 1 <= (#[trigger] events_of(lines, k, names)[i]).line_number <= k,
    decreases k,
{
    if k > 0 {
        lemma_events_in_order(lines, k - 1, names);
        let before = events_of(lines, k - 1, names);
        let all = events_of(lines, k, names);
        if all.len() > before.len() {
            assert(all == before.push(line_spec(lines[k - 1], k as usize, names).unwrap()));
            assert(all.last().line_number == k);
            assert forall|i: int| 0 <= i < all.len() implies 1 <= (#[trigger] all[i]).line_number <= k by {
                if i < before.len() {
                    assert(all[i] == before[i]);
                }
            }
            assert forall|i: int, j: int| 0 <= i < j < all.len() implies all[i].line_number < all[j].line_number by {
                assert(all[i] == before[i]);
                if j < before.len() {
                    assert(all[j] == before[j]);
                }
            }
        }
    }
}

/// The outcome of decoding a whole log.
pub struct ParsedLog {
    pub events: Vec<CombatEvent>,
    /// Lines that were not empty and yet malformed.
    pub dropped: usize,
    /// Lines read; fewer than all only when the dictionary ran out of keys.
    pub lines_read: usize,
}

proof fn lemma_known_step(lines: Seq<Seq<u8>>, k: int, m1: Seq<Seq<char>>, m2: Seq<Seq<char>>)
    requires
        0 <= k < lines.len(),
        lines_known(lines, k, m1),
        extends(m2, m1),
        m2.no_duplicates(),
        raw_line_spec(lines[k]).is_some() ==> event_known(raw_line_spec(lines[k]).unwrap(), m2),
    ensures
        lines_known(lines, k + 1, m2),
        events_of(lines, k, m1) == events_of(lines, k, m2),
{
    lemma_events_stable(lines, k, m1, m2);
    assert forall|i: int| 0 <= i < k + 1 && raw_line_spec(#[trigger] lines[i]).is_some()
        implies event_known(raw_line_spec(lines[i]).unwrap(), m2) by {
        if i < k {
            lemma_event_known_grows(raw_line_spec(lines[i]).unwrap(), m1, m2);
        }
    }
}

/// Decodes line `k` (number `k + 1`) and accounts for it.
fn parse_one(
    lines: Ghost<Seq<Seq<u8>>>,
    k: usize,
    line: &[u8],
    interner: &mut Interner,
    events: &mut Vec<CombatEvent>,
    dropped: &mut usize,
)
    requires
        k < lines@.len(),
        k < usize::MAX,
        line@ == lines@[k as int],
        old(interner).wf(),
        old(interner)@.len() + 8 <= u32::MAX,
        old(events)@ == events_of(lines@, k as int, old(interner)@),
        lines_known(lines@, k as int, old(interner)@),
        *old(dropped) == malformed_count(lines@, k as int),
        *old(dropped) <= k,
    ensures
        final(interner).wf(),
        extends(final(interner)@, old(interner)@),
        final(events)@ == events_of(lines@, k + 1, final(interner)@),
        lines_known(lines@, k + 1, final(interner)@),
        *final(dropped) == malformed_count(lines@, k + 1),
        *final(dropped) <= k + 1,
{
    let ghost m1 = interner@;
    if line.len() > 0 {
        let parsed = parse_line(k + 1, line, interner);
        proof {
            lemma_known_step(lines@, k as int, m1, interner@);
        }
        match parsed {
            Some(e) => {
                events.push(e);
            },
            None => {
                *dropped = *dropped + 1;
            },
        }
    } else {
        proof {
            assert(interner@.subrange(0, interner@.len() as int) =~= interner@);
            lemma_short_line_malformed(lines@[k as int]);
            lemma_known_step(lines@, k as int, m1, interner@);
        }
    }
}

pub open spec fn opt_line_view(p: Option<LineParts>) -> Option<RawEvent> {
    match p {
        Some(x) => Some(x@),
        None => None,
    }
}

/// Accounts for line `k` whose structure `parts` was read beforehand.
fn merge_one(
    lines: Ghost<Seq<Seq<u8>>>,
    k: usize,
    empty: bool,
    parts: &Option<LineParts>,
    interner: &mut Interner,
    events: &mut Vec<CombatEvent>,
    dropped: &mut usize,
)
    requires
        k < lines@.len(),
        k < usize::MAX,
        empty == (lines@[k as int].len() == 0),
        opt_line_view(*parts) == raw_line_spec(lines@[k as int]),
        old(interner).wf(),
        old(interner)@.len() + 8 <= u32::MAX,
        old(events)@ == events_of(lines@, k as int, old(interner)@),
        lines_known(lines@, k as int, old(interner)@),
        *old(dropped) == malformed_count(lines@, k as int),
        *old(dropped) <= k,
    ensures
        final(interner).wf(),
        extends(final(interner)@, old(interner)@),
        final(events)@ == events_of(lines@, k + 1, final(interner)@),
        lines_known(lines@, k + 1, final(interner)@),
        *final(dropped) == malformed_count(lines@, k + 1),
        *final(dropped) <= k + 1,
{
    let ghost m1 = interner@;
    proof {
        assert(interner@.subrange(0, interner@.len() as int) =~= interner@);
    }
    if !empty {
        match parts {
            Some(p) => {
                let e = intern_line(k + 1, p, interner);
                proof {
                    lemma_known_step(lines@, k as int, m1, interner@);
                }
                events.push(e);
            },
            None => {
                proof {
                    lemma_known_step(lines@, k as int, m1, interner@);
                }
                *dropped = *dropped + 1;
            },
        }
    } else {
        proof {
            lemma_short_line_malformed(lines@[k as int]);
            lemma_known_step(lines@, k as int, m1, interner@);
        }
    }
}

/// Interns, in line order, lines whose structure was read beforehand (for
/// instance in parallel, by `parse_line_parts`): `parts[i]` is the reading
/// of the line that `ranges[i]` cuts out of `b`. The outcome is the one
/// `parse_lines` gives.
pub fn intern_lines(b: &[u8], ranges: &[(usize, usize)], parts: &Vec<Option<LineParts>>, interner: &mut Interner) -> (r: ParsedLog)
    requires
        old(interner).wf(),
        forall|i: int| 0 <= i < ranges@.len() ==> (#[trigger] ranges@[i]).0 <= ranges@[i].1 <= b@.len(),
        parts@.len() == ranges@.len(),
        forall|i: int| 0 <= i < parts@.len() ==> opt_line_view(#[trigger] parts@[i]) == raw_line_spec(range_lines(b@, ranges@)[i]),
    ensures
        final(interner).wf(),
        extends(final(interner)@, old(interner)@),
        r.lines_read <= ranges@.len(),
        r.lines_read < ranges@.len() ==> final(interner)@.len() + 8 > u32::MAX,
        r.events@ == events_of(range_lines(b@, ranges@), r.lines_read as int, final(interner)@),
        r.dropped == malformed_count(range_lines(b@, ranges@), r.lines_read as int),
        increasing_lines(r.events@),
{
    let ghost lines = range_lines(b@, ranges@);
    let ghost m0 = interner@;
    let mut events: Vec<CombatEvent> = Vec::new();
    let mut dropped: usize = 0;
    let mut k: usize = 0;
    let mut full = false;
    proof {
        assert(interner@.subrange(0, interner@.len() as int) =~= interner@);
    }
    while k < ranges.len() && !full
        invariant
            k <= ranges@.len(),
            parts@.len() == ranges@.len(),
            full ==> interner@.len() + 8 > u32::MAX,
            lines == range_lines(b@, ranges@),
            forall|i: int| 0 <= i < ranges@.len() ==> (#[trigger] ranges@[i]).0 <= ranges@[i].1 <= b@.len(),
            forall|i: int| 0 <= i < parts@.len() ==> opt_line_view(#[trigger] parts@[i]) == raw_line_spec(lines[i]),
            interner.wf(),
            extends(interner@, m0),
            events@ == events_of(lines, k as int, interner@),
            lines_known(lines, k as int, interner@),
            dropped == malformed_count(lines, k as int),
            dropped <= k,
        decreases ranges@.len() - k, if full { 0int } else { 1int },
    {
        if interner.len() > 4294967287 {
            full = true;
        } else {
            let (start, end) = ranges[k];
            let ghost m1 = interner@;
            assert(lines[k as int] == b@.subrange(start as int, end as int));
            merge_one(Ghost(lines), k, start == end, &parts[k], interner, &mut events, &mut dropped);
            proof {
                lemma_extends_trans(m0, m1, interner@);
            }
            k = k + 1;
        }
    }
    proof {
        lemma_events_in_order(lines, k as int, interner@);
    }
    ParsedLog { events, dropped, lines_read: k }
}

/// Decodes the lines that `ranges` cut out of `b`, in order, interning names
/// as it goes; line `i` has number `i + 1`. Empty lines are skipped,
/// malformed ones counted. Decoding stops early only when the dictionary has
/// too few keys left for another line.
pub fn parse_lines(b: &[u8], ranges: &[(usize, usize)], interner: &mut Interner) -> (r: ParsedLog)
    requires
        old(interner).wf(),
        forall|i: int| 0 <= i < ranges@.len() ==> (#[trigger] ranges@[i]).0 <= ranges@[i].1 <= b@.len(),
    ensures
        final(interner).wf(),
        extends(final(interner)@, old(interner)@),
        r.lines_read <= ranges@.len(),
        r.lines_read < ranges@.len() ==> final(interner)@.len() + 8 > u32::MAX,
        r.events@ == events_of(range_lines(b@, ranges@), r.lines_read as int, final(interner)@),
        r.dropped == malformed_count(range_lines(b@, ranges@), r.lines_read as int),
        increasing_lines(r.events@),
{
    let ghost lines = range_lines(b@, ranges@);
    let ghost m0 = interner@;
    let mut events: Vec<CombatEvent> = Vec::new();
    let mut dropped: usize = 0;
    let mut k: usize = 0;
    let mut full = false;
    proof {
        assert(interner@.subrange(0, interner@.len() as int) =~= interner@);
    }
    while k < ranges.len() && !full
        invariant
            k <= ranges@.len(),
            full ==> interner@.len() + 8 > u32::MAX,
            lines == range_lines(b@, ranges@),
            forall|i: int| 0 <= i < ranges@.len() ==> (#[trigger] ranges@[i]).0 <= ranges@[i].1 <= b@.len(),
            interner.wf(),
            extends(interner@, m0),
            events@ == events_of(lines, k as int, interner@),
            lines_known(lines, k as int, interner@),
            dropped == malformed_count(lines, k as int),
            dropped <= k,
        decreases ranges@.len() - k, if full { 0int } else { 1int },
    {
        if interner.len() > 4294967287 {
            full = true;
        } else {
            let (start, end) = ranges[k];
            let line = slice(b, start, end);
            let ghost m1 = interner@;
            parse_one(Ghost(lines), k, line, interner, &mut events, &mut dropped);
            proof {
                lemma_extends_trans(m0, m1, interner@);
            }
            k = k + 1;
        }
    }
    proof {
        lemma_events_in_order(lines, k as int, interner@);
    }
    ParsedLog { events, dropped, lines_read: k }
}

} // verus!
