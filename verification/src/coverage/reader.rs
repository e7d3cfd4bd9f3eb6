//! The line-by-line half of the LCOV reader: every line of a report moves it from one state to
//! the next, exactly as [`super::model::step_line`] says.
use vstd::prelude::*;
use vstd::utf8::{decode_utf8, encode_utf8_decode_utf8, encode_utf8_valid_utf8, valid_utf8};
use std::collections::BTreeMap;
use vstd::string::StringSliceAdditionalSpecFns;
use crate::text::{after_prefix, chars_eq, chars_of, find_char, first_index, parse_unsigned_chars, pieces, starts_with, utf8_text, has_prefix, after};
use super::LineHit;
use super::line_map::{entries_ascending, lemma_line_keys_are_ordered};
use super::model::{
    ascending, brda_ok, bump, close_record, da_fields, fn_ok, fnda_ok, initial_state, line_number, step_da, step_line, step_text, summary_value, trim_cr, u64_value,
    LcovState,
};
use super::form::{
    AT_DUPLICATE_LINE, AT_HIT_COUNT_UNPARSED, AT_INVALID_UTF8_LINE, AT_LINE_NUMBER_UNPARSED,
    AT_LINES_EXCEEDED, AT_MALFORMED_RECORD, AT_RECORD_WITHOUT_SOURCE_FILE, AT_RECORDS_EXCEEDED,
    AT_REPEATED_SOURCE_FILE_IN_RECORD, AT_SOURCE_FILE_PATH_EMPTY, AT_TEST_NAME_PRESENT,
    AT_UNKNOWN_RECORD, TAG_COUNT,
};
use super::{MAX_LINES_PER_RECORD, MAX_RECORDS, MAX_REPORT_BYTES};

verus! {

broadcast use vstd::std_specs::btree::group_btree_axioms;

/// `v` lists the entries of `m`, ascending by line.
pub open spec fn lists_map(v: Seq<LineHit>, m: Map<u64, u64>) -> bool {
    &&& ascending(v)
    &&& forall|k: int| 0 <= k < v.len() ==> #[trigger] m.contains_key(v[k].line) && m[v[k].line] == v[k].hits
    &&& forall|l: u64| #[trigger] m.contains_key(l) ==> exists|k: int| 0 <= k < v.len() && v[k].line == l
}

/// The reader's working state.
pub struct Reader {
    pub counts: Vec<usize>,
    pub path: Option<Vec<char>>,
    pub lines: BTreeMap<u64, u64>,
    pub dirty: bool,
    pub records: Vec<(Vec<char>, Vec<LineHit>)>,
}

/// The text of an optional path.
pub open spec fn path_view(path: Option<Vec<char>>) -> Option<Seq<char>> {
    match path {
        Some(p) => Some(p@),
        None => None,
    }
}

/// Every count is small enough that one more fits.
pub open spec fn counts_bounded(st: LcovState, bound: nat) -> bool {
    &&& st.counts.len() == 15
    &&& forall|k: int| 0 <= k < 15 ==> #[trigger] st.counts[k] <= bound
}

impl Reader {
    /// The reader holds exactly the state `st`.
    pub open spec fn holds(&self, st: LcovState) -> bool {
        &&& self.counts@.len() == 15
        &&& st.counts.len() == 15
        &&& forall|k: int| 0 <= k < 15 ==> #[trigger] st.counts[k] == self.counts@[k] as nat
        &&& path_view(self.path) == st.path
        &&& self.lines@ == st.lines
        &&& self.dirty == st.dirty
        &&& self.records@.len() == st.records.len()
        &&& forall|i: int|
            0 <= i < st.records.len() ==> #[trigger] self.records@[i].0@ == st.records[i].0
                && lists_map(self.records@[i].1@, st.records[i].1)
    }

    /// A reader before its first line.
    pub fn new() -> (reader: Reader)
        ensures
            reader.holds(initial_state()),
    {
        let counts = vec![0usize; TAG_COUNT];
        let reader = Reader {
            counts,
            path: None,
            lines: BTreeMap::new(),
            dirty: false,
            records: Vec::new(),
        };
        reader
    }

    fn bump(&mut self, k: usize, Ghost(st): Ghost<LcovState>)
        requires
            old(self).holds(st),
            k < 15,
            counts_bounded(st, MAX_REPORT_BYTES as nat),
        ensures
            final(self).holds(bump(st, k as int)),
    {
        let n = self.counts[k];
        self.counts.set(k, n + 1);
    }

    fn read_da(&mut self, v: &[char], Ghost(st): Ghost<LcovState>)
        requires
            old(self).holds(st),
            counts_bounded(st, MAX_REPORT_BYTES as nat),
        ensures
            final(self).holds(step_da(st, v@)),
    {
        let comma = find_char(v, ',');
        match comma {
            None => {
                self.bump(AT_MALFORMED_RECORD, Ghost(st));
            },
            Some(k) => {
                let n = v.len();
                assert(crate::text::is_first_at(v@, ',', k as int));
                let raw_line = &v[0..k];
                let rest = &v[k + 1..n];
                assert(raw_line@ =~= v@.take(k as int));
                assert(rest@ =~= v@.skip(k + 1));
                let raw_hits = match find_char(rest, ',') {
                    Some(k2) => &rest[0..k2],
                    None => rest,
                };
                assert(da_fields(v@) == Some((raw_line@, raw_hits@))) by {
                    match first_index(rest@, ',') {
                        Some(k2) => {
                            assert(raw_hits@ =~= rest@.take(k2));
                        },
                        None => {},
                    }
                }
                match parse_unsigned_chars(raw_line, u64::MAX) {
                    None => {
                        self.bump(AT_LINE_NUMBER_UNPARSED, Ghost(st));
                    },
                    Some(n) => {
                        if n == 0 {
                            self.bump(AT_LINE_NUMBER_UNPARSED, Ghost(st));
                        } else {
                            match parse_unsigned_chars(raw_hits, u64::MAX) {
                                None => {
                                    self.bump(AT_HIT_COUNT_UNPARSED, Ghost(st));
                                },
                                Some(h) => {
                                    proof {
                                        lemma_line_keys_are_ordered();
                                    }
                                    let known = self.lines.get(&n);
                                    match known {
                                        Some(previous) => {
                                            let kept = if *previous >= h {
                                                *previous
                                            } else {
                                                h
                                            };
                                            self.lines.insert(n, kept);
                                            let ghost merged = LcovState {
                                                lines: st.lines.insert(n, kept),
                                                ..st
                                            };
                                            self.bump(AT_DUPLICATE_LINE, Ghost(merged));
                                        },
                                        None => {
                                            if self.lines.len() >= MAX_LINES_PER_RECORD {
                                                self.bump(AT_LINES_EXCEEDED, Ghost(st));
                                            } else {
                                                self.lines.insert(n, h);
                                            }
                                        },
                                    }
                                },
                            }
                        }
                    },
                }
            },
        }
    }
}

/// Read a 1-based line number.
fn read_line_number(t: &[char]) -> (n: Option<u64>)
    ensures
        match n {
            Some(v) => line_number(t@) == Some(v as nat),
            None => line_number(t@) is None,
        },
{
    match parse_unsigned_chars(t, u64::MAX) {
        Some(v) => if v >= 1 {
            Some(v)
        } else {
            None
        },
        None => None,
    }
}

/// Whether `t` is a decimal `u64`.
fn is_count(t: &[char]) -> (b: bool)
    ensures
        b == (u64_value(t@) is Some),
{
    parse_unsigned_chars(t, u64::MAX).is_some()
}

fn check_fnda(v: &[char]) -> (ok: bool)
    ensures
        ok == fnda_ok(v@),
{
    match find_char(v, ',') {
        Some(k) => {
            let head = &v[0..k];
            assert(head@ =~= v@.take(k as int));
            is_count(head) && v.len() > k + 1
        },
        None => false,
    }
}

fn check_fn(v: &[char]) -> (ok: bool)
    ensures
        ok == fn_ok(v@),
{
    match find_char(v, ',') {
        Some(k) => {
            let head = &v[0..k];
            assert(head@ =~= v@.take(k as int));
            read_line_number(head).is_some() && v.len() > k + 1
        },
        None => false,
    }
}

fn check_brda(v: &[char]) -> (ok: bool)
    ensures
        ok == brda_ok(v@),
{
    let fields = crate::text::split_chars(v, ',');
    if fields.len() != 4 {
        return false;
    }
    assert(fields@[0]@ == pieces(v@, ',')[0]);
    assert(fields@[1]@ == pieces(v@, ',')[1]);
    assert(fields@[2]@ == pieces(v@, ',')[2]);
    assert(fields@[3]@ == pieces(v@, ',')[3]);
    let dash = chars_of("-");
    read_line_number(fields[0].as_slice()).is_some() && is_count(fields[1].as_slice()) && is_count(
        fields[2].as_slice(),
    ) && (chars_eq(fields[3].as_slice(), dash.as_slice()) || is_count(fields[3].as_slice()))
}

impl Reader {
    /// Close the open record.
    fn close(&mut self, Ghost(st): Ghost<LcovState>)
        requires
            old(self).holds(st),
            counts_bounded(st, MAX_REPORT_BYTES as nat),
            st.records.len() <= MAX_RECORDS,
        ensures
            final(self).holds(close_record(st)),
    {
        let entries = entries_ascending(&self.lines);
        let mut hits: Vec<LineHit> = Vec::new();
        let mut i: usize = 0;
        while i < entries.len()
            invariant
                i <= entries.len(),
                hits.len() == i,
                forall|k: int| 0 <= k < i ==> #[trigger] hits@[k] == (LineHit { line: entries@[k].0, hits: entries@[k].1 }),
            decreases entries.len() - i,
        {
            hits.push(LineHit { line: entries[i].0, hits: entries[i].1 });
            i = i + 1;
        }
        proof {
            assert(lists_map(hits@, st.lines)) by {
                assert forall|l: u64| #[trigger] st.lines.contains_key(l) implies exists|k: int| 0 <= k < hits@.len() && hits@[k].line == l by {
                    let k = choose|k: int| 0 <= k < entries@.len() && entries@[k].0 == l;
                    assert(hits@[k].line == l);
                }
            }
        }
        self.lines = BTreeMap::new();
        self.dirty = false;
        let path = self.path.take();
        let ghost cleared = LcovState { path: None, lines: Map::empty(), dirty: false, ..st };
        match path {
            None => {
                self.bump(AT_RECORD_WITHOUT_SOURCE_FILE, Ghost(cleared));
            },
            Some(p) => {
                if self.records.len() >= MAX_RECORDS {
                    self.bump(AT_RECORDS_EXCEEDED, Ghost(cleared));
                } else {
                    self.records.push((p, hits));
                    proof {
                        let next = close_record(st);
                        assert forall|i: int| 0 <= i < next.records.len() implies #[trigger] self.records@[i].0@ == next.records[i].0
                            && lists_map(self.records@[i].1@, next.records[i].1) by {
                            if i < st.records.len() {
                                assert(self.records@[i] == old(self).records@[i]);
                            }
                        }
                    }
                }
            },
        }
    }

    /// Open the record's path.
    fn set_path(&mut self, v: &[char], Ghost(st): Ghost<LcovState>)
        requires
            old(self).holds(st),
            st.path is None,
        ensures
            final(self).holds(LcovState { path: Some(v@), ..st }),
    {
        let mut path: Vec<char> = Vec::new();
        crate::text::extend_chars(&mut path, v);
        assert(path@ =~= v@);
        self.path = Some(path);
    }

    /// Read one decoded, non-blank line.
    #[verifier::spinoff_prover]
    #[verifier::rlimit(40)]
    fn take_text(&mut self, t: &[char], Ghost(st): Ghost<LcovState>)
        requires
            old(self).holds(st),
            counts_bounded(st, MAX_REPORT_BYTES as nat),
            st.records.len() <= MAX_RECORDS,
        ensures
            final(self).holds(step_text(st, t@)),
    {
        let end = chars_of("end_of_record");
        if chars_eq(t, end.as_slice()) {
            self.close(Ghost(st));
        } else if starts_with(t, "TN:") {
            let v = after_prefix(t, "TN:");
            if v.len() > 0 {
                self.bump(AT_TEST_NAME_PRESENT, Ghost(st));
            }
        } else if starts_with(t, "SF:") {
            let v = after_prefix(t, "SF:");
            if v.len() == 0 {
                self.bump(AT_SOURCE_FILE_PATH_EMPTY, Ghost(st));
                } else if self.path.is_some() {
                self.bump(AT_REPEATED_SOURCE_FILE_IN_RECORD, Ghost(st));
                } else {
                self.set_path(v, Ghost(st));
            }
        } else if starts_with(t, "DA:") {
            let v = after_prefix(t, "DA:");
            self.read_da(v, Ghost(st));
        } else if starts_with(t, "FNDA:") {
            let v = after_prefix(t, "FNDA:");
            if !check_fnda(v) {
                self.bump(AT_MALFORMED_RECORD, Ghost(st));
            }
        } else if starts_with(t, "FN:") {
            let v = after_prefix(t, "FN:");
            if !check_fn(v) {
                self.bump(AT_MALFORMED_RECORD, Ghost(st));
            }
        } else if starts_with(t, "BRDA:") {
            let v = after_prefix(t, "BRDA:");
            if !check_brda(v) {
                self.bump(AT_MALFORMED_RECORD, Ghost(st));
            }
        } else {
            let value: Option<&[char]> = if starts_with(t, "FNF:") {
                Some(after_prefix(t, "FNF:"))
            } else if starts_with(t, "FNH:") {
                Some(after_prefix(t, "FNH:"))
            } else if starts_with(t, "BRF:") {
                Some(after_prefix(t, "BRF:"))
            } else if starts_with(t, "BRH:") {
                Some(after_prefix(t, "BRH:"))
            } else if starts_with(t, "LH:") {
                Some(after_prefix(t, "LH:"))
            } else if starts_with(t, "LF:") {
                Some(after_prefix(t, "LF:"))
            } else {
                None
            };
            match value {
                Some(v) => {
                    assert(summary_value(t@) == Some(v@));
                    if !is_count(v) {
                        self.bump(AT_MALFORMED_RECORD, Ghost(st));
                    }
                },
                None => {
                    assert(summary_value(t@) is None);
                    self.bump(AT_UNKNOWN_RECORD, Ghost(st));
                },
            }
        }
    }

    /// Read one line of the report, its carriage return already dropped.
    pub fn take_line(&mut self, raw: &[u8], Ghost(st): Ghost<LcovState>)
        requires
            old(self).holds(st),
            counts_bounded(st, MAX_REPORT_BYTES as nat),
            st.records.len() <= MAX_RECORDS,
        ensures
            final(self).holds(step_line(st, raw@)),
    {
        if raw.len() == 0 {
            return;
        }
        match utf8_text(raw) {
            None => {
                self.bump(AT_INVALID_UTF8_LINE, Ghost(st));
                self.dirty = true;
            },
            Some(text) => {
                proof {
                    encode_utf8_decode_utf8(text@);
                    encode_utf8_valid_utf8(text@);
                }
                self.dirty = true;
                let chars = chars_of(text);
                assert(self.holds(LcovState { dirty: true, ..st }));
                self.take_text(chars.as_slice(), Ghost(LcovState { dirty: true, ..st }));
            },
        }
    }
}

} // verus!
