//! The `coverage` extractor's LCOV reader: bytes in, a structured result out.
//!
//! This module parses and does nothing else: [`parse_lcov`] takes bytes and returns a
//! [`CoverageReport`]. An LCOV report is aggregate: its `TN:` field is emitted empty, so the
//! source endpoint of a coverage edge is a coverage run, never a test, and a line hit reaches a
//! symbol only through an inference step.
//!
//! `DA:<line>,0` is evidence: a hit count of zero says the line was instrumented and not executed.
//! Paths are carried exactly as written. Every bound refuses and counts; nothing is silently
//! truncated, and no input produces a panic.
use vstd::prelude::*;
use vstd::utf8::{decode_utf8, encode_utf8_decode_utf8, encode_utf8_valid_utf8, valid_utf8};
use std::collections::BTreeMap;
use crate::order::{key_views, lemma_key_views_push, stable_order, stably_sorted, text_lt, index_lt};
use crate::text::{chars_eq, chars_of, lemma_pieces_len, parse_unsigned, parse_unsigned_chars, pieces, str_eq, string_of};
use crate::vocab::{Directness, EvidenceSourceType};

pub mod form;
pub mod model;
mod line_map;
pub mod reader;
pub mod merge;

use form::{
    all_tags, AT_DUPLICATE_LINE, AT_DUPLICATE_SOURCE_FILE, AT_HIT_COUNT_UNPARSED,
    AT_INVALID_UTF8_LINE, AT_LINE_NUMBER_UNPARSED, AT_LINES_EXCEEDED, AT_MALFORMED_RECORD,
    AT_RECORD_WITHOUT_SOURCE_FILE, AT_RECORDS_EXCEEDED, AT_REPEATED_SOURCE_FILE_IN_RECORD,
    AT_REPORT_TOO_LARGE, AT_SOURCE_FILE_PATH_EMPTY, AT_TEST_NAME_PRESENT,
    AT_UNKNOWN_RECORD, AT_UNTERMINATED_RECORD, TAG_COUNT,
};

verus! {

/// Extractor identity, recorded on every observation and on its `extractor_run` row.
pub const EXTRACTOR_ID: &'static str = "coverage";

/// Extractor version. A change here re-states every coverage claim, by design.
pub const EXTRACTOR_VERSION: &'static str = "1.0.0";

/// The only evidence source type this extractor may emit. Coverage records that code ran,
/// never who invoked it.
pub const DECLARED_SOURCE_TYPES: [EvidenceSourceType; 1] = [EvidenceSourceType::TestCoverage];

/// How directly a coverage report states that a symbol is covered: inferred, because the
/// report states that a line executed and a mapping step concludes the symbol.
pub const DIRECTNESS: Directness = Directness::Inferred;

/// Bytes of an LCOV report this parser is willing to read. A report over the bound is refused
/// whole.
pub const MAX_REPORT_BYTES: usize = 33554432;

/// Records (source files) a single report may contribute.
pub const MAX_RECORDS: usize = 100000;

/// Distinct instrumented lines a single record may contribute.
pub const MAX_LINES_PER_RECORD: usize = 1000000;

/// What the parse refused, and how often.
#[derive(Debug, Clone, PartialEq, Eq)]
pub struct CoverageCounters {
    /// Refusals by form tag, one count per tag of [`form::ALL`], in that order.
    pub refused: Vec<usize>,
}

impl Default for CoverageCounters {
    fn default() -> (counters: Self)
        ensures
            counters.refused@ == Seq::new(15, |i: int| 0usize),
    {
        let refused = vec![0usize; TAG_COUNT];
        assert(refused@ =~= Seq::new(15, |i: int| 0usize));
        CoverageCounters { refused }
    }
}

/// The first position of `tag` among the form tags, if it is one.
pub open spec fn tag_position(tag: Seq<char>) -> Option<int> {
    if exists|i: int| 0 <= i < 15 && all_tags()[i] == tag {
        Some(choose|i: int| 0 <= i < 15 && all_tags()[i] == tag)
    } else {
        None
    }
}

/// The sum of a list of counts.
pub open spec fn sum_counts(counts: Seq<usize>) -> int
    decreases counts.len(),
{
    if counts.len() == 0 {
        0
    } else {
        sum_counts(counts.drop_last()) + counts.last()
    }
}

impl CoverageCounters {
    /// One count per form tag.
    pub open spec fn well_formed(self) -> bool {
        self.refused@.len() == 15
    }

    /// How many times `tag` was counted.
    pub fn get(&self, tag: &str) -> (n: usize)
        requires
            self.well_formed(),
        ensures
            n == match tag_position(tag@) {
                Some(i) => self.refused@[i],
                None => 0,
            },
    {
        proof {
            form::lemma_tags_distinct();
        }
        let mut i: usize = 0;
        while i < TAG_COUNT
            invariant
                i <= 15,
                self.refused@.len() == 15,
                forall|k: int| 0 <= k < i ==> all_tags()[k] != tag@,
            decreases 15 - i,
        {
            let name = form::ALL[i];
            assert(name@ == all_tags()[i as int]);
            if str_eq(name, tag) {
                proof {
                    form::lemma_tags_distinct();
                    let c = choose|k: int| 0 <= k < 15 && all_tags()[k] == tag@;
                    assert(0 <= i < 15 && all_tags()[i as int] == tag@);
                    assert(all_tags()[c] == tag@);
                    if c < i {
                        assert(all_tags()[c] != all_tags()[i as int]);
                    } else if c > i {
                        assert(all_tags()[i as int] != all_tags()[c]);
                    }
                }
                return self.refused[i];
            }
            i = i + 1;
        }
        0
    }

    /// Total refusals across every form.
    pub fn total(&self) -> (n: usize)
        requires
            self.well_formed(),
            sum_counts(self.refused@) <= usize::MAX,
        ensures
            n == sum_counts(self.refused@),
    {
        let mut n: usize = 0;
        let mut i: usize = 0;
        while i < self.refused.len()
            invariant
                i <= self.refused@.len(),
                n == sum_counts(self.refused@.take(i as int)),
                sum_counts(self.refused@) <= usize::MAX,
            decreases self.refused@.len() - i,
        {
            proof {
                lemma_sum_prefix_bounded(self.refused@, i + 1);
                assert(self.refused@.take(i + 1).drop_last() =~= self.refused@.take(i as int));
            }
            n = n + self.refused[i];
            i = i + 1;
        }
        assert(self.refused@.take(self.refused@.len() as int) =~= self.refused@);
        n
    }
}

/// A prefix of a list of counts sums to no more than the whole.
pub proof fn lemma_sum_prefix_bounded(counts: Seq<usize>, n: int)
    requires
        0 <= n <= counts.len(),
    ensures
        sum_counts(counts.take(n)) <= sum_counts(counts),
    decreases counts.len() - n,
{
    if n < counts.len() {
        lemma_sum_prefix_bounded(counts, n + 1);
        assert(counts.take(n + 1).drop_last() =~= counts.take(n));
    } else {
        assert(counts.take(n) =~= counts);
    }
}

/// One instrumented line and the number of times the run executed it.
#[derive(Debug, Clone, Copy, PartialEq, Eq, PartialOrd, Ord)]
pub struct LineHit {
    /// 1-based line number, exactly as the report stated it.
    pub line: u64,
    /// Executions the run recorded. Zero is a value, not an absence.
    pub hits: u64,
}

impl LineHit {
    /// Whether the run executed this line at least once.
    pub fn is_covered(self) -> (covered: bool)
        ensures
            covered == (self.hits > 0),
    {
        self.hits > 0
    }
}

/// How many entries of `lines` have a nonzero hit count.
pub open spec fn covered_in(lines: Seq<LineHit>) -> nat
    decreases lines.len(),
{
    if lines.len() == 0 {
        0
    } else {
        covered_in(lines.drop_last()) + if lines.last().hits > 0 {
            1nat
        } else {
            0nat
        }
    }
}

/// Everything one report said about one source file.
#[derive(Debug, Clone, PartialEq, Eq)]
pub struct FileCoverage {
    /// The `SF:` value exactly as written. Not normalised, not resolved, not canonicalised.
    pub raw_path: String,
    /// Instrumented lines, ascending by line number, one entry per distinct line.
    pub lines: Vec<LineHit>,
}

impl FileCoverage {
    /// How many of this file's instrumented lines the run executed at least once.
    pub fn covered_count(&self) -> (n: usize)
        ensures
            n == covered_in(self.lines@),
    {
        let mut n: usize = 0;
        let mut i: usize = 0;
        while i < self.lines.len()
            invariant
                i <= self.lines@.len(),
                n == covered_in(self.lines@.take(i as int)),
                n <= i,
            decreases self.lines@.len() - i,
        {
            assert(self.lines@.take(i + 1).drop_last() =~= self.lines@.take(i as int));
            if self.lines[i].is_covered() {
                n = n + 1;
            }
            i = i + 1;
        }
        assert(self.lines@.take(self.lines@.len() as int) =~= self.lines@);
        n
    }
}

/// The result of parsing one LCOV report.
#[derive(Debug, Clone, PartialEq, Eq)]
pub struct CoverageReport {
    /// One entry per distinct `SF:` value, ascending by that value.
    pub files: Vec<FileCoverage>,
    /// What the parse refused.
    pub counters: CoverageCounters,
}

impl Default for CoverageReport {
    fn default() -> (report: Self)
        ensures
            report.files@.len() == 0,
            report.counters.refused@ == Seq::new(15, |i: int| 0usize),
    {
        CoverageReport { files: Vec::new(), counters: CoverageCounters::default() }
    }
}

/// The counts of a set of counters, as numbers.
pub open spec fn counts_of(counters: CoverageCounters) -> Seq<nat> {
    counters.refused@.map_values(|n: usize| n as nat)
}

/// `report` is what the LCOV report `bytes` says.
///
/// A report over [`MAX_REPORT_BYTES`] is refused whole: no files, and one
/// [`form::REPORT_TOO_LARGE`]. Otherwise the report is read line by line as
/// [`model::step_line`] says, and the files are the merge of the accepted records.
pub open spec fn describes(bytes: Seq<u8>, report: CoverageReport) -> bool {
    &&& report.counters.well_formed()
    &&& if bytes.len() > MAX_REPORT_BYTES {
        &&& report.files@.len() == 0
        &&& counts_of(report.counters) == model::too_large_counts()
    } else {
        let st = model::lcov_state(bytes);
        &&& model::merges_records(report.files@, st.records)
        &&& counts_of(report.counters) == model::final_counts(st, report.files@.len())
    }
}

/// A reader that holds a state holds its records: the same paths, with the same hits.
proof fn lemma_reader_agrees(reader: &reader::Reader, st: model::LcovState)
    requires
        reader.holds(st),
    ensures
        merge::records_agree(reader.records@, st.records),
{
}

/// CRLF and LF reports parse the same, mixed ones too: putting a carriage return before any of
/// a report's line feeds, where the report holds none, leaves what it describes unchanged,
/// within the size bound.
pub proof fn lemma_crlf_reads_as_lf(lf: Seq<u8>, marks: Seq<bool>, report: CoverageReport)
    requires
        !lf.contains(13u8),
        model::with_carriage_returns(lf, marks).len() <= MAX_REPORT_BYTES,
    ensures
        describes(model::with_carriage_returns(lf, marks), report) <==> describes(lf, report),
{
    model::lemma_crlf_state(lf, marks);
}

/// A report as values: each file's path and lines, in order, and the refusal counts.
pub open spec fn report_view(report: CoverageReport) -> (Seq<(Seq<char>, Seq<LineHit>)>, Seq<usize>) {
    (report.files@.map_values(|f: FileCoverage| (f.raw_path@, f.lines@)), report.counters.refused@)
}

/// A description fixes one report: two reports the same bytes describe hold the same files,
/// lines, hits and counts.
pub proof fn lemma_description_fixes_report(bytes: Seq<u8>, r1: CoverageReport, r2: CoverageReport)
    requires
        describes(bytes, r1),
        describes(bytes, r2),
    ensures
        report_view(r1) == report_view(r2),
{
    if bytes.len() <= MAX_REPORT_BYTES {
        let st = model::lcov_state(bytes);
        model::lemma_merge_is_unique(r1.files@, r2.files@, st.records);
        assert(model::file_paths(r1.files@).len() == r1.files@.len());
        assert(model::file_paths(r2.files@).len() == r2.files@.len());
        assert forall|i: int| 0 <= i < r1.files@.len() implies r1.files@[i].raw_path@ == r2.files@[i].raw_path@ by {
            assert(model::file_paths(r1.files@)[i] == model::file_paths(r2.files@)[i]);
        }
    }
    assert(counts_of(r1.counters) == counts_of(r2.counters));
    assert forall|i: int| 0 <= i < r1.counters.refused@.len() implies r1.counters.refused@[i] == r2.counters.refused@[i] by {
        assert(counts_of(r1.counters)[i] == counts_of(r2.counters)[i]);
    }
    assert(r1.counters.refused@ =~= r2.counters.refused@);
    assert(report_view(r1).0 =~= report_view(r2).0);
}

/// CRLF and LF reports parse to the same report, mixed ones too: what [`parse_lcov`] gives for
/// a report that holds no carriage return is what it gives once a carriage return is put before
/// any of its line feeds, within the size bound.
pub proof fn lemma_crlf_parses_as_lf(lf: Seq<u8>, marks: Seq<bool>, from_crlf: CoverageReport, from_lf: CoverageReport)
    requires
        !lf.contains(13u8),
        model::with_carriage_returns(lf, marks).len() <= MAX_REPORT_BYTES,
        describes(model::with_carriage_returns(lf, marks), from_crlf),
        describes(lf, from_lf),
    ensures
        report_view(from_crlf) == report_view(from_lf),
{
    lemma_crlf_reads_as_lf(lf, marks, from_crlf);
    lemma_description_fixes_report(lf, from_crlf, from_lf);
}

/// Parse an LCOV report.
///
/// Total: every input produces a [`CoverageReport`]. A report this parser cannot believe comes
/// back with fewer files and more counters, and a report it cannot read at all comes back empty
/// with the reason counted. Pure: the only input is `bytes` and the only output is the returned
/// value.
pub fn parse_lcov(bytes: &[u8]) -> (report: CoverageReport)
    ensures
        describes(bytes@, report),
{
    if bytes.len() > MAX_REPORT_BYTES {
        let mut counters = CoverageCounters::default();
        counters.refused.set(AT_REPORT_TOO_LARGE, 1);
        let report = CoverageReport { files: Vec::new(), counters };
        assert(counts_of(report.counters) =~= model::too_large_counts());
        return report;
    }
    let mut reader = reader::Reader::new();
    let mut start: usize = 0;
    let mut i: usize = 0;
    while i < bytes.len()
        invariant
            start <= i <= bytes.len(),
            bytes.len() <= MAX_REPORT_BYTES,
            pieces(bytes@.take(i as int), 10u8).last() == bytes@.subrange(start as int, i as int),
            reader.holds(model::run_lines(pieces(bytes@.take(i as int), 10u8).drop_last())),
        decreases bytes.len() - i,
    {
        let ghost done = pieces(bytes@.take(i as int), 10u8);
        proof {
            lemma_pieces_len(bytes@.take(i as int), 10u8);
            model::lemma_run_bounds(done.drop_last());
            assert(bytes@.take(i + 1).drop_last() =~= bytes@.take(i as int));
        }
        if bytes[i] == 10u8 {
            let end: usize = if i > start && bytes[i - 1] == 13u8 {
                i - 1
            } else {
                i
            };
            let raw = &bytes[start..end];
            proof {
                assert(raw@ =~= model::trim_cr(bytes@.subrange(start as int, i as int)));
                assert(done.drop_last().len() <= i);
            }
            reader.take_line(raw, Ghost(model::run_lines(done.drop_last())));
            proof {
                assert(pieces(bytes@.take(i + 1), 10u8).drop_last() =~= done);
                assert(bytes@.subrange(i + 1, i + 1) =~= Seq::<u8>::empty());
            }
            start = i + 1;
        } else {
            proof {
                assert(pieces(bytes@.take(i + 1), 10u8).drop_last() =~= done.drop_last());
                assert(bytes@.subrange(start as int, i + 1) =~= done.last().push(bytes@[i as int]));
            }
        }
        i = i + 1;
    }
    let ghost all = pieces(bytes@, 10u8);
    proof {
        assert(bytes@.take(bytes.len() as int) =~= bytes@);
        lemma_pieces_len(bytes@, 10u8);
        model::lemma_run_bounds(all.drop_last());
    }
    let n = bytes.len();
    let end: usize = if n > start && bytes[n - 1] == 13u8 {
        n - 1
    } else {
        n
    };
    let raw = &bytes[start..end];
    proof {
        assert(raw@ =~= model::trim_cr(bytes@.subrange(start as int, n as int)));
    }
    reader.take_line(raw, Ghost(model::run_lines(all.drop_last())));
    let ghost st = model::lcov_state(bytes@);
    proof {
        model::lemma_run_bounds(all);
        assert(st == model::step_line(model::run_lines(all.drop_last()), raw@));
        lemma_reader_agrees(&reader, st);
    }
    let files = merge::merge_records(&reader.records, Ghost(st.records));
    let duplicates = reader.records.len() - files.len();
    let dirty = reader.dirty;
    let mut refused = reader.counts;
    refused.set(AT_DUPLICATE_SOURCE_FILE, duplicates);
    refused.set(AT_UNTERMINATED_RECORD, if dirty {
        1
    } else {
        0
    });
    let report = CoverageReport { files, counters: CoverageCounters { refused } };
    assert(counts_of(report.counters) =~= model::final_counts(st, report.files@.len()));
    report
}

} // verus!
