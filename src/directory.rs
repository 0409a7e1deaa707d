//! Catalog of the combat logs of a directory.
use vstd::prelude::*;
use crate::bytes::bytes_eq;
use crate::event_models::EntityType;
use crate::parser::{parse_line_parts, raw_line_spec};

verus! {

/// `combat_`
pub open spec fn log_prefix() -> Seq<u8> {
    seq![99u8, 111, 109, 98, 97, 116, 95]
}

/// `.txt`
pub open spec fn log_suffix() -> Seq<u8> {
    seq![46u8, 116, 120, 116]
}

/// A file name of the form `combat_*.txt`.
pub open spec fn combat_log_name(n: Seq<u8>) -> bool {
    &&& n.len() >= log_prefix().len() + log_suffix().len()
    &&& n.subrange(0, log_prefix().len() as int) == log_prefix()
    &&& n.subrange(n.len() - log_suffix().len(), n.len() as int) == log_suffix()
}

/// Whether the file name is that of a combat log (`combat_*.txt`).
pub fn is_combat_log(name: &[u8]) -> (r: bool)
    ensures
        r == combat_log_name(name@),
{
    let prefix: [u8; 7] = [99, 111, 109, 98, 97, 116, 95];
    let suffix: [u8; 4] = [46, 116, 120, 116];
    assert(prefix@ =~= log_prefix());
    assert(suffix@ =~= log_suffix());
    let n = name.len();
    if n < 11 {
        return false;
    }
    let mut i: usize = 0;
    while i < 7
        invariant
            i <= 7,
            n == name@.len(),
            n >= 11,
            prefix@ == log_prefix(),
            forall|j: int| 0 <= j < i ==> name@[j] == log_prefix()[j],
        decreases 7 - i,
    {
        if name[i] != prefix[i] {
            assert(name@.subrange(0, 7)[i as int] != log_prefix()[i as int]);
            return false;
        }
        i = i + 1;
    }
    assert(name@.subrange(0, 7) =~= log_prefix());
    let mut k: usize = 0;
    while k < 4
        invariant
            k <= 4,
            n == name@.len(),
            n >= 11,
            suffix@ == log_suffix(),
            name@.subrange(0, 7) == log_prefix(),
            forall|j: int| 0 <= j < k ==> name@[n - 4 + j] == log_suffix()[j],
        decreases 4 - k,
    {
        if name[n - 4 + k] != suffix[k] {
            assert(name@.subrange(n - 4, n as int)[k as int] != log_suffix()[k as int]);
            return false;
        }
        k = k + 1;
    }
    assert(name@.subrange(n - 4, n as int) =~= log_suffix());
    true
}

/// `a` sorts strictly before `b`, byte by byte.
pub open spec fn lex_lt(a: Seq<u8>, b: Seq<u8>) -> bool
    decreases a.len(),
{
    if a.len() == 0 {
        b.len() > 0
    } else if b.len() == 0 {
        false
    } else if a[0] != b[0] {
        a[0] < b[0]
    } else {
        lex_lt(a.drop_first(), b.drop_first())
    }
}

proof fn lemma_lex_lt_skip(a: Seq<u8>, b: Seq<u8>, i: int)
    requires
        0 <= i <= a.len(),
        i <= b.len(),
        forall|j: int| 0 <= j < i ==> a[j] == b[j],
    ensures
        lex_lt(a, b) == lex_lt(a.subrange(i, a.len() as int), b.subrange(i, b.len() as int)),
    decreases i,
{
    if i > 0 {
        lemma_lex_lt_skip(a.drop_first(), b.drop_first(), i - 1);
        assert(a.drop_first().subrange(i - 1, a.len() - 1) =~= a.subrange(i, a.len() as int));
        assert(b.drop_first().subrange(i - 1, b.len() - 1) =~= b.subrange(i, b.len() as int));
    } else {
        assert(a.subrange(0, a.len() as int) =~= a);
        assert(b.subrange(0, b.len() as int) =~= b);
    }
}

/// Whether `a` sorts strictly before `b`, byte by byte.
pub fn bytes_lt(a: &[u8], b: &[u8]) -> (r: bool)
    ensures
        r == lex_lt(a@, b@),
{
    let mut i: usize = 0;
    while i < a.len() && i < b.len()
        invariant
            i <= a@.len(),
            i <= b@.len(),
            forall|j: int| 0 <= j < i ==> a@[j] == b@[j],
        decreases a@.len() - i,
    {
        if a[i] != b[i] {
            proof {
                lemma_lex_lt_skip(a@, b@, i as int);
                assert(a@.subrange(i as int, a@.len() as int)[0] == a@[i as int]);
                assert(b@.subrange(i as int, b@.len() as int)[0] == b@[i as int]);
            }
            return a[i] < b[i];
        }
        i = i + 1;
    }
    proof {
        lemma_lex_lt_skip(a@, b@, i as int);
    }
    i < b.len()
}

/// One combat log of the directory.
pub struct LogFileInfo {
    pub path: Vec<u8>,
    pub size: u64,
    pub is_empty: bool,
    /// The date in the name (`combat_YYYY-MM-DD...`), when it has one.
    pub date: Option<LogDate>,
    /// The player whose log it is, once its first line has been read.
    pub character_name: Option<Vec<u8>>,
}

/// A calendar date as written in a log's name.
#[derive(Clone, Copy, Debug, PartialEq, Eq, Structural)]
pub struct LogDate {
    pub year: u16,
    pub month: u8,
    pub day: u8,
}

pub open spec fn digit_of(n: Seq<u8>, i: int) -> int {
    n[i] - 48
}

pub open spec fn is_digit_at(n: Seq<u8>, i: int) -> bool {
    48 <= n[i] <= 57
}

/// The date of a log from its name: `YYYY-MM-DD` right after `combat_`.
pub open spec fn date_spec(n: Seq<u8>) -> Option<LogDate> {
    if n.len() >= 17 && is_digit_at(n, 7) && is_digit_at(n, 8) && is_digit_at(n, 9) && is_digit_at(n, 10)
        && n[11] == 45 && is_digit_at(n, 12) && is_digit_at(n, 13) && n[14] == 45 && is_digit_at(n, 15)
        && is_digit_at(n, 16) {
        Some(LogDate {
            year: (digit_of(n, 7) * 1000 + digit_of(n, 8) * 100 + digit_of(n, 9) * 10 + digit_of(n, 10)) as u16,
            month: (digit_of(n, 12) * 10 + digit_of(n, 13)) as u8,
            day: (digit_of(n, 15) * 10 + digit_of(n, 16)) as u8,
        })
    } else {
        None
    }
}

fn digit(b: u8) -> (r: bool)
    ensures
        r == (48 <= b <= 57),
{
    48 <= b && b <= 57
}

/// Reads the date in a log's name (see `date_spec`).
pub fn log_date(n: &[u8]) -> (r: Option<LogDate>)
    ensures
        r == date_spec(n@),
{
    if n.len() >= 17 && digit(n[7]) && digit(n[8]) && digit(n[9]) && digit(n[10]) && n[11] == 45 && digit(n[12])
        && digit(n[13]) && n[14] == 45 && digit(n[15]) && digit(n[16]) {
        Some(LogDate {
            year: (n[7] - 48) as u16 * 1000 + (n[8] - 48) as u16 * 100 + (n[9] - 48) as u16 * 10 + (n[10] - 48) as u16,
            month: (n[12] - 48) * 10 + (n[13] - 48),
            day: (n[15] - 48) * 10 + (n[16] - 48),
        })
    } else {
        None
    }
}

/// The player a log belongs to, from one of its lines: the source entity's
/// name when that line is well formed and its source is a player.
pub open spec fn character_spec(line: Seq<u8>) -> Option<Seq<u8>> {
    match raw_line_spec(line) {
        Some(raw) => if raw.source.kind == EntityType::Player { raw.source.name } else { None },
        None => None,
    }
}

/// Reads the player a log belongs to from one of its lines (see `character_spec`).
pub fn character_of_line(line: &[u8]) -> (r: Option<Vec<u8>>)
    ensures
        r.is_some() == character_spec(line@).is_some(),
        r.is_some() ==> r.unwrap()@ == character_spec(line@).unwrap(),
{
    match parse_line_parts(line) {
        Some(parts) => {
            if parts.source.kind == EntityType::Player {
                match parts.source.name {
                    Some(n) => Some(vstd::slice::slice_to_vec(n)),
                    None => None,
                }
            } else {
                None
            }
        },
        None => None,
    }
}

/// Every entry is a combat log, its emptiness matches its size and its
/// date is the one in its name.
pub open spec fn entries_wf(entries: Seq<LogFileInfo>) -> bool {
    forall|i: int| 0 <= i < entries.len() ==> {
        &&& combat_log_name((#[trigger] entries[i]).path@)
        &&& entries[i].is_empty == (entries[i].size == 0)
        &&& entries[i].date == date_spec(entries[i].path@)
    }
}

/// The combat logs of a directory.
pub struct DirectoryIndex {
    pub entries: Vec<LogFileInfo>,
}

impl DirectoryIndex {
    pub open spec fn wf(&self) -> bool {
        entries_wf(self.entries@)
    }

    /// Position of the first entry for `path`.
    pub fn position(&self, path: &[u8]) -> (r: Option<usize>)
        ensures
            match r {
                Some(i) => i < self.entries@.len() && self.entries@[i as int].path@ == path@
                    && forall|j: int| 0 <= j < i ==> self.entries@[j].path@ != path@,
                None => forall|j: int| 0 <= j < self.entries@.len() ==> self.entries@[j].path@ != path@,
            },
    {
        let mut i: usize = 0;
        while i < self.entries.len()
            invariant
                i <= self.entries@.len(),
                forall|j: int| 0 <= j < i ==> self.entries@[j].path@ != path@,
            decreases self.entries@.len() - i,
        {
            if bytes_eq(self.entries[i].path.as_slice(), path) {
                return Some(i);
            }
            i = i + 1;
        }
        None
    }

    /// Adds a new combat log; other names and logs already listed leave the
    /// index as it is. Returns whether it was added.
    pub fn add_file(&mut self, path: Vec<u8>, size: u64) -> (added: bool)
        requires
            old(self).wf(),
        ensures
            final(self).wf(),
            added == (combat_log_name(path@)
                && forall|j: int| 0 <= j < old(self).entries@.len() ==> old(self).entries@[j].path@ != path@),
            added ==> entries_view(final(self).entries@) == entries_view(old(self).entries@).push((path@, size)),
            !added ==> final(self).entries@ == old(self).entries@,
    {
        if !is_combat_log(path.as_slice()) {
            return false;
        }
        if self.position(path.as_slice()).is_some() {
            return false;
        }
        let ghost before = self.entries@;
        let date = log_date(path.as_slice());
        self.entries.push(LogFileInfo { path, size, is_empty: size == 0, date, character_name: None });
        proof {
            assert(entries_view(self.entries@) =~= entries_view(before).push((self.entries@.last().path@, size)));
            assert forall|i: int| 0 <= i < self.entries@.len() implies {
                &&& combat_log_name((#[trigger] self.entries@[i]).path@)
                &&& self.entries@[i].is_empty == (self.entries@[i].size == 0)
                &&& self.entries@[i].date == date_spec(self.entries@[i].path@)
            } by {
                if i < before.len() {
                    assert(self.entries@[i] == before[i]);
                }
            }
        }
        true
    }

    /// Removes the first entry for `path`. Returns whether there was one.
    pub fn remove_file(&mut self, path: &[u8]) -> (removed: bool)
        requires
            old(self).wf(),
        ensures
            final(self).wf(),
            removed == exists|j: int| 0 <= j < old(self).entries@.len() && old(self).entries@[j].path@ == path@,
            removed ==> exists|j: int| 0 <= j < old(self).entries@.len() && old(self).entries@[j].path@ == path@
                && final(self).entries@ == old(self).entries@.remove(j),
            !removed ==> final(self).entries@ == old(self).entries@,
    {
        match self.position(path) {
            Some(i) => {
                let ghost before = self.entries@;
                let _ = self.entries.remove(i);
                proof {
                    assert forall|k: int| 0 <= k < self.entries@.len() implies {
                        &&& combat_log_name((#[trigger] self.entries@[k]).path@)
                        &&& self.entries@[k].is_empty == (self.entries@[k].size == 0)
                        &&& self.entries@[k].date == date_spec(self.entries@[k].path@)
                    } by {
                        if k < i {
                            assert(self.entries@[k] == before[k]);
                        } else {
                            assert(self.entries@[k] == before[k + 1]);
                        }
                    }
                }
                true
            },
            None => false,
        }
    }

    /// Records the player of entry `i`, read from one of its lines; a line
    /// that names no player leaves the entry as it is.
    pub fn set_character(&mut self, i: usize, line: &[u8])
        requires
            old(self).wf(),
            i < old(self).entries@.len(),
        ensures
            final(self).wf(),
            final(self).entries@.len() == old(self).entries@.len(),
            forall|j: int| 0 <= j < final(self).entries@.len() && j != i ==> final(self).entries@[j] == old(self).entries@[j],
            final(self).entries@[i as int].path == old(self).entries@[i as int].path,
            character_spec(line@).is_some() ==> final(self).entries@[i as int].character_name.is_some()
                && final(self).entries@[i as int].character_name.unwrap()@ == character_spec(line@).unwrap(),
            character_spec(line@).is_none() ==> final(self).entries@[i as int] == old(self).entries@[i as int],
    {
        if let Some(name) = character_of_line(line) {
            let ghost before = self.entries@;
            let mut e = self.entries.remove(i);
            e.character_name = Some(name);
            self.entries.insert(i, e);
            proof {
                assert forall|j: int| 0 <= j < self.entries@.len() && j != i implies self.entries@[j] == before[j] by {
                    if j < i {
                        assert(self.entries@[j] == before[j]);
                    } else {
                        assert(self.entries@[j] == before[j]);
                    }
                }
                assert forall|k: int| 0 <= k < self.entries@.len() implies {
                    &&& combat_log_name((#[trigger] self.entries@[k]).path@)
                    &&& self.entries@[k].is_empty == (self.entries@[k].size == 0)
                    &&& self.entries@[k].date == date_spec(self.entries@[k].path@)
                } by {
                    if k != i {
                        assert(self.entries@[k] == before[k]);
                    }
                }
            }
        }
    }

    /// The number of logs.
    pub fn len(&self) -> (r: usize)
        ensures
            r == self.entries@.len(),
    {
        self.entries.len()
    }
}

proof fn lemma_lex_trans(a: Seq<u8>, b: Seq<u8>, c: Seq<u8>)
    requires
        lex_lt(a, b),
        lex_lt(b, c),
    ensures
        lex_lt(a, c),
    decreases a.len(),
{
    if a.len() > 0 && b.len() > 0 && c.len() > 0 && a[0] == b[0] && b[0] == c[0] {
        lemma_lex_trans(a.drop_first(), b.drop_first(), c.drop_first());
    }
}

/// `i` holds the greatest name among `entries`: logs are named by their
/// start time, so it is the newest.
pub open spec fn is_newest(entries: Seq<LogFileInfo>, i: int) -> bool {
    &&& 0 <= i < entries.len()
    &&& forall|j: int| 0 <= j < entries.len() ==> !lex_lt(entries[i].path@, #[trigger] entries[j].path@)
}

/// The (name, size) pairs of `files` that name combat logs, in order.
pub open spec fn combat_logs_of(files: Seq<(Seq<u8>, u64)>) -> Seq<(Seq<u8>, u64)>
    decreases files.len(),
{
    if files.len() == 0 {
        Seq::empty()
    } else if combat_log_name(files[0].0) {
        seq![files[0]] + combat_logs_of(files.drop_first())
    } else {
        combat_logs_of(files.drop_first())
    }
}

pub open spec fn files_view(files: Seq<(Vec<u8>, u64)>) -> Seq<(Seq<u8>, u64)> {
    files.map_values(|f: (Vec<u8>, u64)| (f.0@, f.1))
}

pub open spec fn entries_view(entries: Seq<LogFileInfo>) -> Seq<(Seq<u8>, u64)> {
    entries.map_values(|e: LogFileInfo| (e.path@, e.size))
}

/// Builds the index from the files of a directory, given as (name, size),
/// keeping the combat logs in the order given, and finds the newest one.
pub fn build_index(files: Vec<(Vec<u8>, u64)>) -> (r: (DirectoryIndex, Option<usize>))
    ensures
        r.0.wf(),
        entries_view(r.0.entries@) == combat_logs_of(files_view(files@)),
        r.1.is_none() == (r.0.entries@.len() == 0),
        r.1.is_some() ==> is_newest(r.0.entries@, r.1.unwrap() as int),
{
    let mut entries: Vec<LogFileInfo> = Vec::new();
    let mut newest: Option<usize> = None;
    let mut rest = files;
    let ghost all = files_view(rest@);
    proof {
        assert(entries_view(entries@) + combat_logs_of(files_view(rest@)) =~= combat_logs_of(all));
    }
    while rest.len() > 0
        invariant
            entries_view(entries@) + combat_logs_of(files_view(rest@)) == combat_logs_of(all),
            entries_wf(entries@),
            newest.is_none() == (entries@.len() == 0),
            newest.is_some() ==> is_newest(entries@, newest.unwrap() as int),
        decreases rest@.len(),
    {
        let ghost before = rest@;
        let (path, size) = rest.remove(0);
        proof {
            assert(files_view(rest@) =~= files_view(before).drop_first());
            assert(files_view(before)[0] == (path@, size));
        }
        if is_combat_log(path.as_slice()) {
            let ghost old_entries = entries@;
            let idx = entries.len();
            let replace = match newest {
                Some(k) => bytes_lt(entries[k].path.as_slice(), path.as_slice()),
                None => true,
            };
            let date = log_date(path.as_slice());
            entries.push(LogFileInfo { path, size, is_empty: size == 0, date, character_name: None });
            proof {
                assert(entries_view(entries@) =~= entries_view(old_entries).push((path@, size)));
                assert(entries_view(entries@) + combat_logs_of(files_view(rest@))
                    =~= entries_view(old_entries) + combat_logs_of(files_view(before)));
                assert forall|i: int| 0 <= i < entries@.len() implies {
                    &&& combat_log_name((#[trigger] entries@[i]).path@)
                    &&& entries@[i].is_empty == (entries@[i].size == 0)
                    &&& entries@[i].date == date_spec(entries@[i].path@)
                } by {
                    if i < old_entries.len() {
                        assert(entries@[i] == old_entries[i]);
                    }
                }
            }
            if replace {
                proof {
                    if let Some(k) = newest {
                        assert forall|j: int| 0 <= j < entries@.len() implies !lex_lt(entries@[idx as int].path@, #[trigger] entries@[j].path@) by {
                            if j < idx {
                                assert(entries@[j] == old_entries[j]);
                                assert(entries@[k as int] == old_entries[k as int]);
                                if lex_lt(entries@[idx as int].path@, entries@[j].path@) {
                                    lemma_lex_trans(old_entries[k as int].path@, path@, entries@[j].path@);
                                }
                            } else {
                                lemma_lex_irreflexive(path@);
                            }
                        }
                    } else {
                        lemma_lex_irreflexive(path@);
                    }
                }
                newest = Some(idx);
            } else {
                proof {
                    let k = newest.unwrap() as int;
                    assert forall|j: int| 0 <= j < entries@.len() implies !lex_lt(entries@[k].path@, #[trigger] entries@[j].path@) by {
                        if j < idx {
                            assert(entries@[j] == old_entries[j]);
                        }
                        assert(entries@[k] == old_entries[k]);
                    }
                }
            }
        } else {
            proof {
                assert(combat_logs_of(files_view(before)) == combat_logs_of(files_view(rest@)));
            }
        }
    }
    proof {
        assert(entries_view(entries@) =~= entries_view(entries@) + combat_logs_of(files_view(rest@)));
    }
    (DirectoryIndex { entries }, newest)
}

proof fn lemma_lex_irreflexive(a: Seq<u8>)
    ensures
        !lex_lt(a, a),
    decreases a.len(),
{
    if a.len() > 0 {
        lemma_lex_irreflexive(a.drop_first());
    }
}

/// What the directory watcher reports.
pub enum DirectoryEvent {
    NewFile(Vec<u8>),
    /// A log grew; its character may now be known.
    FileModified(Vec<u8>),
    FileRemoved(Vec<u8>),
    DirectoryIndexed { file_count: usize, newest: Option<usize> },
    Message(String),
    Error(String),
}

/// The kind of a file-system notification.
#[derive(Clone, Copy, Debug, PartialEq, Eq, Structural)]
pub enum FsEventKind {
    Create,
    Modify,
    Remove,
    Other,
}

/// Position of the first combat log among `paths`.
pub open spec fn first_log(paths: Seq<Vec<u8>>) -> Option<int> {
    if exists|i: int| 0 <= i < paths.len() && combat_log_name(paths[i]@) {
        Some(choose|i: int| 0 <= i < paths.len() && combat_log_name(paths[i]@)
            && forall|j: int| 0 <= j < i ==> !combat_log_name(#[trigger] paths[j]@))
    } else {
        None
    }
}

/// Turns a file-system notification into a directory event: the first
/// combat log among its paths, tagged by the kind of change; `None` when the
/// kind is of no interest or no path is a combat log.
pub fn process_event(kind: FsEventKind, paths: Vec<Vec<u8>>) -> (r: Option<DirectoryEvent>)
    ensures
        (kind == FsEventKind::Other || first_log(paths@).is_none()) ==> r.is_none(),
        kind != FsEventKind::Other && first_log(paths@).is_some() ==> {
            let p = paths@[first_log(paths@).unwrap()];
            &&& r.is_some()
            &&& kind == FsEventKind::Create ==> (r.unwrap() matches DirectoryEvent::NewFile(q) && q@ == p@)
            &&& kind == FsEventKind::Modify ==> (r.unwrap() matches DirectoryEvent::FileModified(q) && q@ == p@)
            &&& kind == FsEventKind::Remove ==> (r.unwrap() matches DirectoryEvent::FileRemoved(q) && q@ == p@)
        },
{
    if kind == FsEventKind::Other {
        return None;
    }
    let ghost all = paths@;
    let mut rest = paths;
    let ghost mut skipped: int = 0;
    while rest.len() > 0
        invariant
            0 <= skipped <= all.len(),
            all == paths@,
            kind != FsEventKind::Other,
            rest@ == all.subrange(skipped, all.len() as int),
            forall|j: int| 0 <= j < skipped ==> !combat_log_name(#[trigger] all[j]@),
        decreases rest@.len(),
    {
        let path = rest.remove(0);
        proof {
            assert(all[skipped] == path);
        }
        if is_combat_log(path.as_slice()) {
            proof {
                let i = skipped;
                assert(0 <= i < all.len() && combat_log_name(all[i]@) && forall|j: int| 0 <= j < i ==> !combat_log_name(#[trigger] all[j]@));
                let c = choose|c: int| 0 <= c < all.len() && combat_log_name(all[c]@)
                    && forall|j: int| 0 <= j < c ==> !combat_log_name(#[trigger] all[j]@);
                if c < i {
                    assert(!combat_log_name(all[c]@));
                } else if c > i {
                    assert(!combat_log_name(all[i]@));
                }
            }
            return match kind {
                FsEventKind::Create => Some(DirectoryEvent::NewFile(path)),
                FsEventKind::Modify => Some(DirectoryEvent::FileModified(path)),
                _ => Some(DirectoryEvent::FileRemoved(path)),
            };
        }
        proof {
            skipped = skipped + 1;
            assert(rest@ =~= all.subrange(skipped, all.len() as int));
        }
    }
    proof {
        assert forall|i: int| 0 <= i < all.len() implies !combat_log_name(#[trigger] all[i]@) by {}
    }
    None
}

} // verus!
