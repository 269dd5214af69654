//! The status summary and the parser that builds it from the status text: a
//! sequence of records separated by `'\0'`, each a sequence of fields
//! separated by `' '`.
use vstd::prelude::*;

use crate::delta::{magnitude, parse_magnitude};
use crate::text::{chars_of, piece_end, range_is, split};

verus! {

/// The kind of record in which a field was missing.
#[derive(Clone, Copy, Debug, PartialEq, Eq, Structural)]
pub enum RecordKind {
    /// A `#` record.
    Header,
    /// A `# branch.head` record.
    BranchHead,
    /// A `# branch.ab` record.
    BranchAb,
    /// A `1` or `2` file entry.
    Entry,
}

/// Why the status text could not be read.
#[derive(Clone, Copy, Debug, PartialEq, Eq, Structural)]
pub enum ParseError {
    /// A record of `kind` ends before field `field` (counted from 0).
    MissingField { kind: RecordKind, field: usize },
    /// Field `field` of a `# branch.ab` record is not an integer that fits in `i64`.
    BadInteger { field: usize },
    /// The status code of a file entry has fewer than two characters.
    ShortStatusCode,
}

/// The two-character status code of a file entry.
#[derive(Clone, Copy, Debug, PartialEq, Eq, Structural)]
pub struct StatusCode {
    pub index: char,
    pub worktree: char,
}

impl StatusCode {
    /// The code for the staged (index) side.
    pub fn index(&self) -> (r: char)
        ensures
            r == self.index,
    {
        self.index
    }

    /// The code for the worktree side.
    pub fn worktree(&self) -> (r: char)
        ensures
            r == self.worktree,
    {
        self.worktree
    }
}

/// The mathematical content of a status summary.
pub ghost struct Summary {
    pub branch: Option<Seq<char>>,
    pub ahead: nat,
    pub behind: nat,
    pub staged: nat,
    pub modified: nat,
    pub deleted: nat,
    pub unmerged: nat,
    pub untracked: nat,
}

/// The summary before any record is read.
pub open spec fn empty_summary() -> Summary {
    Summary {
        branch: None,
        ahead: 0,
        behind: 0,
        staged: 0,
        modified: 0,
        deleted: 0,
        unmerged: 0,
        untracked: 0,
    }
}

/// A summary of a working tree's status. `branch` is `None` when the head is detached.
#[derive(Debug)]
pub struct GitStatus {
    pub branch: Option<String>,
    pub ahead: u64,
    pub behind: u64,
    pub staged: u64,
    pub modified: u64,
    pub deleted: u64,
    pub unmerged: u64,
    pub untracked: u64,
}

impl View for GitStatus {
    type V = Summary;

    open spec fn view(&self) -> Summary {
        Summary {
            branch: match self.branch {
                Some(b) => Some(b@),
                None => None,
            },
            ahead: self.ahead as nat,
            behind: self.behind as nat,
            staged: self.staged as nat,
            modified: self.modified as nat,
            deleted: self.deleted as nat,
            unmerged: self.unmerged as nat,
            untracked: self.untracked as nat,
        }
    }
}

impl GitStatus {
    /// None of the five counters is at its largest value.
    pub open spec fn has_room(&self) -> bool {
        &&& self.staged < u64::MAX
        &&& self.modified < u64::MAX
        &&& self.deleted < u64::MAX
        &&& self.unmerged < u64::MAX
        &&& self.untracked < u64::MAX
    }

    /// Every counter is at most `n`.
    pub open spec fn counters_at_most(&self, n: int) -> bool {
        &&& self.staged <= n
        &&& self.modified <= n
        &&& self.deleted <= n
        &&& self.unmerged <= n
        &&& self.untracked <= n
    }
}

/// What a file entry with status code `code` adds: one staged entry unless
/// the index side is `.`, and one modified or deleted entry for a worktree
/// side of `M` or `D`.
pub open spec fn count_code(st: Summary, code: StatusCode) -> Summary {
    let staged = if code.index != '.' { st.staged + 1 } else { st.staged };
    Summary {
        staged: staged,
        modified: if code.worktree == 'M' { st.modified + 1 } else { st.modified },
        deleted: if code.worktree == 'D' { st.deleted + 1 } else { st.deleted },
        ..st
    }
}

/// The summary after reading one record, or why the record is malformed.
pub open spec fn apply_record(st: Summary, rec: Seq<char>) -> Result<Summary, ParseError> {
    let f = split(rec, ' ');
    if f[0] == "#"@ {
        if f.len() < 2 {
            Err(ParseError::MissingField { kind: RecordKind::Header, field: 1 })
        } else if f[1] == "branch.head"@ {
            if f.len() < 3 {
                Err(ParseError::MissingField { kind: RecordKind::BranchHead, field: 2 })
            } else if f[2] == "(detached)"@ {
                Ok(Summary { branch: None, ..st })
            } else {
                Ok(Summary { branch: Some(f[2]), ..st })
            }
        } else if f[1] == "branch.ab"@ {
            if f.len() < 3 {
                Err(ParseError::MissingField { kind: RecordKind::BranchAb, field: 2 })
            } else if f.len() < 4 {
                Err(ParseError::MissingField { kind: RecordKind::BranchAb, field: 3 })
            } else if magnitude(f[2]) is None {
                Err(ParseError::BadInteger { field: 2 })
            } else if magnitude(f[3]) is None {
                Err(ParseError::BadInteger { field: 3 })
            } else {
                Ok(Summary { ahead: magnitude(f[2])->0, behind: magnitude(f[3])->0, ..st })
            }
        } else {
            Ok(st)
        }
    } else if f[0] == "1"@ || f[0] == "2"@ {
        if f.len() < 2 {
            Err(ParseError::MissingField { kind: RecordKind::Entry, field: 1 })
        } else if f[1].len() < 2 {
            Err(ParseError::ShortStatusCode)
        } else {
            Ok(count_code(st, StatusCode { index: f[1][0], worktree: f[1][1] }))
        }
    } else if f[0] == "u"@ {
        Ok(Summary { unmerged: st.unmerged + 1, ..st })
    } else if f[0] == "?"@ {
        Ok(Summary { untracked: st.untracked + 1, ..st })
    } else {
        Ok(st)
    }
}

/// The summary after reading `recs` in order, or the error of the first
/// malformed record.
pub open spec fn apply_records(st: Summary, recs: Seq<Seq<char>>) -> Result<Summary, ParseError>
    decreases recs.len(),
{
    if recs.len() == 0 {
        Ok(st)
    } else {
        match apply_record(st, recs[0]) {
            Ok(next) => apply_records(next, recs.drop_first()),
            Err(e) => Err(e),
        }
    }
}

/// The records of a status text.
pub open spec fn records(s: Seq<char>) -> Seq<Seq<char>> {
    split(s, '\0')
}

/// The summary of a status text, or why it is malformed.
pub open spec fn parse_text(s: Seq<char>) -> Result<Summary, ParseError> {
    apply_records(empty_summary(), records(s))
}

/// An empty record changes nothing.
proof fn lemma_empty_record(st: Summary)
    ensures
        apply_record(st, Seq::<char>::empty()) == Ok::<Summary, ParseError>(st),
{
    reveal_strlit("#");
    reveal_strlit("1");
    reveal_strlit("2");
    reveal_strlit("u");
    reveal_strlit("?");
    crate::text::lemma_split_none(Seq::<char>::empty(), ' ');
    assert(split(Seq::<char>::empty(), ' ')[0].len() == 0);
    assert("#"@.len() == 1);
    assert("1"@.len() == 1);
    assert("2"@.len() == 1);
    assert("u"@.len() == 1);
    assert("?"@.len() == 1);
}

impl GitStatus {
    /// A summary with no branch and every count zero.
    pub fn new() -> (r: GitStatus)
        ensures
            r@ == empty_summary(),
    {
        GitStatus {
            branch: None,
            ahead: 0,
            behind: 0,
            staged: 0,
            modified: 0,
            deleted: 0,
            unmerged: 0,
            untracked: 0,
        }
    }

    /// Counts one file entry with status code `code`.
    pub fn count_code(&mut self, code: StatusCode)
        requires
            old(self).has_room(),
        ensures
            final(self)@ == count_code(old(self)@, code),
    {
        if code.index() != '.' {
            self.staged = self.staged + 1;
        }
        match code.worktree() {
            'M' => self.modified = self.modified + 1,
            'D' => self.deleted = self.deleted + 1,
            _ => {},
        }
    }

    /// Reads the record `t[from..to]`, where `t` holds the characters of `text`.
    pub fn read_record(&mut self, t: &Vec<char>, text: &str, from: usize, to: usize) -> (r: Result<
        (),
        ParseError,
    >)
        requires
            from <= to <= t@.len(),
            t@ == text@,
            old(self).has_room(),
        ensures
            match r {
                Ok(()) => apply_record(old(self)@, t@.subrange(from as int, to as int)) == Ok::<
                    Summary,
                    ParseError,
                >(final(self)@),
                Err(e) => apply_record(old(self)@, t@.subrange(from as int, to as int)) == Err::<
                    Summary,
                    ParseError,
                >(e),
            },
    {
        let ghost f = split(t@.subrange(from as int, to as int), ' ');
        let e0 = piece_end(t, ' ', from, to);
        if range_is(t, from, e0, "#") {
            if e0 == to {
                return Err(ParseError::MissingField { kind: RecordKind::Header, field: 1 });
            }
            let e1 = piece_end(t, ' ', e0 + 1, to);
            if range_is(t, e0 + 1, e1, "branch.head") {
                if e1 == to {
                    return Err(ParseError::MissingField { kind: RecordKind::BranchHead, field: 2 });
                }
                let e2 = piece_end(t, ' ', e1 + 1, to);
                assert(f[2] == t@.subrange(e1 + 1, e2 as int));
                if range_is(t, e1 + 1, e2, "(detached)") {
                    self.branch = None;
                } else {
                    self.branch = Some(String::from_str(text.substring_char(e1 + 1, e2)));
                }
                Ok(())
            } else if range_is(t, e0 + 1, e1, "branch.ab") {
                if e1 == to {
                    return Err(ParseError::MissingField { kind: RecordKind::BranchAb, field: 2 });
                }
                let e2 = piece_end(t, ' ', e1 + 1, to);
                if e2 == to {
                    return Err(ParseError::MissingField { kind: RecordKind::BranchAb, field: 3 });
                }
                let e3 = piece_end(t, ' ', e2 + 1, to);
                assert(f[2] == t@.subrange(e1 + 1, e2 as int));
                assert(f[3] == t@.subrange(e2 + 1, e3 as int));
                let ahead = parse_magnitude(t, e1 + 1, e2);
                let behind = parse_magnitude(t, e2 + 1, e3);
                match (ahead, behind) {
                    (Some(a), Some(b)) => {
                        self.ahead = a;
                        self.behind = b;
                        Ok(())
                    },
                    (None, _) => Err(ParseError::BadInteger { field: 2 }),
                    (_, None) => Err(ParseError::BadInteger { field: 3 }),
                }
            } else {
                Ok(())
            }
        } else if range_is(t, from, e0, "1") || range_is(t, from, e0, "2") {
            if e0 == to {
                return Err(ParseError::MissingField { kind: RecordKind::Entry, field: 1 });
            }
            let e1 = piece_end(t, ' ', e0 + 1, to);
            if e1 - (e0 + 1) < 2 {
                return Err(ParseError::ShortStatusCode);
            }
            let code = StatusCode { index: t[e0 + 1], worktree: t[e0 + 2] };
            self.count_code(code);
            Ok(())
        } else if range_is(t, from, e0, "u") {
            self.unmerged = self.unmerged + 1;
            Ok(())
        } else if range_is(t, from, e0, "?") {
            self.untracked = self.untracked + 1;
            Ok(())
        } else {
            Ok(())
        }
    }
}

/// No record moves a counter up by more than one.
proof fn lemma_record_step_bound(st: Summary, rec: Seq<char>)
    ensures
        apply_record(st, rec) matches Ok(n) ==> {
            &&& n.staged <= st.staged + 1
            &&& n.modified <= st.modified + 1
            &&& n.deleted <= st.deleted + 1
            &&& n.unmerged <= st.unmerged + 1
            &&& n.untracked <= st.untracked + 1
        },
{
}

/// Reads the status text `data` into a summary, or returns the error of its
/// first malformed record.
pub fn parse_porcelain2(data: String) -> (r: Result<GitStatus, ParseError>)
    ensures
        match r {
            Ok(s) => parse_text(data@) == Ok::<Summary, ParseError>(s@),
            Err(e) => parse_text(data@) == Err::<Summary, ParseError>(e),
        },
{
    let text = data.as_str();
    let t = chars_of(text);
    let n = t.len();
    let mut st = GitStatus::new();
    let mut i: usize = 0;
    assert(t@.subrange(0, n as int) =~= data@);
    loop
        invariant
            i <= n == t@.len(),
            t@ == text@,
            text@ == data@,
            st.counters_at_most(i as int),
            apply_records(st@, records(t@.subrange(i as int, n as int))) == parse_text(data@),
        decreases n - i,
    {
        let j = piece_end(&t, '\0', i, n);
        let ghost rest = records(t@.subrange(i as int, n as int));
        let ghost before = st@;
        let ghost rec = t@.subrange(i as int, j as int);
        assert(rest[0] == rec);
        if i < j {
            proof {
                lemma_record_step_bound(st@, rec);
            }
            match st.read_record(&t, text, i, j) {
                Ok(()) => {},
                Err(e) => {
                    return Err(e);
                },
            }
        } else {
            proof {
                lemma_empty_record(st@);
                assert(rec =~= Seq::<char>::empty());
            }
        }
        assert(apply_record(before, rec) == Ok::<Summary, ParseError>(st@));
        if j == n {
            assert(rest.drop_first().len() == 0);
            assert(apply_records(st@, rest.drop_first()) == Ok::<Summary, ParseError>(st@));
            return Ok(st);
        }
        assert(rest.drop_first() =~= records(t@.subrange(j + 1, n as int)));
        i = j + 1;
    }
}

} // verus!
