//! Following an append-only log: the decisions of the tail reader, from
//! what the file looks like to what to do, and the framing of appended
//! bytes into complete lines.
use vstd::prelude::*;
use crate::bytes::{find_byte, slice};

verus! {

/// The line terminator.
pub const NEWLINE: u8 = 10;

/// Where the tail reader stands.
#[derive(Clone, Copy, Debug, PartialEq, Eq, Structural)]
pub enum TailState {
    Following,
    /// The file shrank or was replaced; the reader starts over from its start.
    Rewound,
    /// The file is missing.
    Gone,
}

/// What a look at the followed path shows.
#[derive(Clone, Copy, Debug, PartialEq, Eq, Structural)]
pub enum FileObservation {
    Missing,
    Present { size: u64, inode: u64 },
}

/// What the reader asks its runner to do next.
#[derive(Clone, Copy, Debug, PartialEq, Eq, Structural)]
pub enum TailAction {
    /// Nothing new.
    Wait,
    /// Read the bytes `from..to` and hand them to `feed`.
    Read { from: u64, to: u64 },
    /// The file restarted: report the reset (the open encounter is sealed as
    /// truncated), then call `reset_done`.
    Reset,
    /// The path disappeared: report it once.
    ReportMissing,
}

/// No byte of `s` ends a line.
pub open spec fn no_newline(s: Seq<u8>) -> bool {
    forall|i: int| 0 <= i < s.len() ==> s[i] != NEWLINE
}

/// Lines put back together, each followed by its terminator.
pub open spec fn joined(lines: Seq<Seq<u8>>) -> Seq<u8>
    decreases lines.len(),
{
    if lines.len() == 0 {
        Seq::empty()
    } else {
        joined(lines.drop_last()) + lines.last() + seq![NEWLINE]
    }
}

pub open spec fn lines_view(lines: Seq<Vec<u8>>) -> Seq<Seq<u8>> {
    lines.map_values(|l: Vec<u8>| l@)
}

/// The state of a tail reader: its stage, the offset read up to, the file's
/// identity and the bytes of an unfinished last line.
pub struct TailReader {
    pub state: TailState,
    pub offset: u64,
    pub inode: Option<u64>,
    pub partial: Vec<u8>,
}

impl TailReader {
    /// A reader that starts at `offset` (zero, or the end of the file).
    pub fn new(offset: u64) -> (r: TailReader)
        ensures
            r.state == TailState::Following,
            r.offset == offset,
            r.inode.is_none(),
            r.partial@.len() == 0,
    {
        TailReader { state: TailState::Following, offset, inode: None, partial: Vec::new() }
    }

    /// Decides what to do from a fresh look at the file.
    pub fn observe(&mut self, obs: FileObservation) -> (action: TailAction)
        ensures
            match obs {
                FileObservation::Missing => {
                    &&& final(self).state == TailState::Gone
                    &&& action == if old(self).state == TailState::Gone { TailAction::Wait } else { TailAction::ReportMissing }
                    &&& final(self).offset == old(self).offset
                    &&& final(self).partial == old(self).partial
                    &&& final(self).inode == old(self).inode
                },
                FileObservation::Present { size, inode } => {
                    let restarted = old(self).state == TailState::Gone
                        || old(self).state == TailState::Rewound
                        || size < old(self).offset
                        || (old(self).inode.is_some() && old(self).inode.unwrap() != inode);
                    &&& final(self).inode == Some(inode)
                    &&& restarted ==> {
                        &&& final(self).state == TailState::Rewound
                        &&& final(self).offset == 0
                        &&& final(self).partial@.len() == 0
                        &&& action == TailAction::Reset
                    }
                    &&& !restarted ==> {
                        &&& final(self).state == TailState::Following
                        &&& final(self).offset == old(self).offset
                        &&& final(self).partial == old(self).partial
                        &&& action == if size > old(self).offset {
                            TailAction::Read { from: old(self).offset, to: size }
                        } else {
                            TailAction::Wait
                        }
                    }
                },
            },
    {
        match obs {
            FileObservation::Missing => {
                let was_gone = self.state == TailState::Gone;
                self.state = TailState::Gone;
                if was_gone {
                    TailAction::Wait
                } else {
                    TailAction::ReportMissing
                }
            },
            FileObservation::Present { size, inode } => {
                let replaced = match self.inode {
                    Some(i) => i != inode,
                    None => false,
                };
                self.inode = Some(inode);
                if self.state == TailState::Gone || self.state == TailState::Rewound || size < self.offset || replaced {
                    self.state = TailState::Rewound;
                    self.offset = 0;
                    self.partial = Vec::new();
                    TailAction::Reset
                } else if size > self.offset {
                    TailAction::Read { from: self.offset, to: size }
                } else {
                    TailAction::Wait
                }
            },
        }
    }

    /// The reset was reported: follow the file again from its start.
    pub fn reset_done(&mut self)
        ensures
            final(self).state == TailState::Following,
            final(self).offset == old(self).offset,
            final(self).inode == old(self).inode,
            final(self).partial == old(self).partial,
    {
        self.state = TailState::Following;
    }

    /// Takes bytes read past the offset and returns the lines they complete,
    /// in order and without terminators; an unfinished last line is kept for
    /// the next read.
    pub fn feed(&mut self, chunk: &[u8]) -> (lines: Vec<Vec<u8>>)
        requires
            old(self).offset as int + chunk@.len() <= u64::MAX,
        ensures
            joined(lines_view(lines@)) + final(self).partial@ == old(self).partial@ + chunk@,
            forall|i: int| 0 <= i < lines@.len() ==> no_newline(#[trigger] lines@[i]@),
            no_newline(final(self).partial@),
            final(self).offset == old(self).offset + chunk@.len(),
            final(self).state == old(self).state,
            final(self).inode == old(self).inode,
    {
        let mut buf: Vec<u8> = Vec::new();
        std::mem::swap(&mut buf, &mut self.partial);
        let ghost start = buf@;
        let mut k: usize = 0;
        while k < chunk.len()
            invariant
                k <= chunk@.len(),
                buf@ == start + chunk@.subrange(0, k as int),
                start == old(self).partial@,
                self.state == old(self).state,
                self.inode == old(self).inode,
                self.offset == old(self).offset,
            decreases chunk@.len() - k,
        {
            buf.push(chunk[k]);
            proof {
                assert(chunk@.subrange(0, k + 1) =~= chunk@.subrange(0, k as int).push(chunk@[k as int]));
            }
            k = k + 1;
        }
        assert(chunk@.subrange(0, chunk@.len() as int) =~= chunk@);
        self.offset = self.offset + chunk.len() as u64;
        let mut lines: Vec<Vec<u8>> = Vec::new();
        let mut pos: usize = 0;
        let n = buf.len();
        proof {
            assert(joined(lines_view(lines@)) =~= buf@.subrange(0, 0));
        }
        loop
            invariant
                pos <= n,
                n == buf@.len(),
                buf@ == old(self).partial@ + chunk@,
                self.offset == old(self).offset + chunk@.len(),
                self.state == old(self).state,
                self.inode == old(self).inode,
                joined(lines_view(lines@)) == buf@.subrange(0, pos as int),
                forall|i: int| 0 <= i < lines@.len() ==> no_newline(#[trigger] lines@[i]@),
            decreases n - pos,
        {
            let rest = slice(buf.as_slice(), pos, n);
            match find_byte(NEWLINE, rest) {
                Some(j) => {
                    let line = vstd::slice::slice_to_vec(slice(rest, 0, j));
                    let ghost old_lines = lines@;
                    lines.push(line);
                    proof {
                        assert(lines_view(lines@).drop_last() =~= lines_view(old_lines));
                        assert(buf@.subrange(0, pos + j + 1) =~= buf@.subrange(0, pos as int) + line@ + seq![NEWLINE]);
                        assert forall|i: int| 0 <= i < lines@.len() implies no_newline(#[trigger] lines@[i]@) by {
                            if i < old_lines.len() {
                                assert(lines@[i] == old_lines[i]);
                            } else {
                                assert forall|t: int| 0 <= t < line@.len() implies line@[t] != NEWLINE by {
                                    assert(rest@[t] != NEWLINE);
                                }
                            }
                        }
                    }
                    pos = pos + j + 1;
                },
                None => {
                    self.partial = vstd::slice::slice_to_vec(rest);
                    proof {
                        assert(buf@ =~= buf@.subrange(0, pos as int) + rest@);
                    }
                    return lines;
                },
            }
        }
    }
}

} // verus!
