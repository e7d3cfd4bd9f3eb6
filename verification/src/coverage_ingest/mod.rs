//! Turning one LCOV report into coverage of symbols: the decisions ingestion makes over values.
//!
//! Ingestion reads one file, the one the user named, resolves every path in it through the
//! repository path guard, maps every covered line onto the innermost symbol covering it (the same
//! mapping `#L<n>` document anchors use), and records how much of each symbol ran. The reading,
//! resolving and writing touch the world; what is decided in between is here. A symbol with no
//! covered line gets no edge, and a symbol with an unexecuted instrumented line is `partial`, a
//! value that is never rounded.
use vstd::prelude::*;
use crate::text::str_eq;
use crate::coverage::{FileCoverage, LineHit};
use crate::docref::SymbolExtent;
use crate::coverage::model::{ascending, hit_at, merges_records};

pub mod form;
pub mod batch;
pub mod laws;

pub use crate::discover::parent_directory;
pub use crate::docs::last_segment;

verus! {

/// Whether the report said a symbol ran in full or only in part.
///
/// `Partial` is a recorded value and is never rounded: a covered line inside a symbol proves the
/// symbol was entered, not that it ran to completion. The comparison is against the lines LCOV
/// instrumented inside the symbol, not against its extent's line count.
#[derive(Debug, Clone, Copy, PartialEq, Eq, Structural)]
pub enum CoverageDegree {
    /// Every instrumented line inside the symbol executed.
    Covered,
    /// At least one instrumented line inside the symbol did not execute.
    Partial,
}

impl CoverageDegree {
    /// The canonical name of a degree.
    pub open spec fn name_of(self) -> Seq<char> {
        match self {
            CoverageDegree::Covered => "covered"@,
            CoverageDegree::Partial => "partial"@,
        }
    }

    /// Canonical name, as it appears in details and in structured output.
    pub fn as_str(self) -> (text: &'static str)
        ensures
            text@ == self.name_of(),
    {
        match self {
            CoverageDegree::Covered => "covered",
            CoverageDegree::Partial => "partial",
        }
    }
}

/// One symbol's tally while the report is being read.
#[derive(Debug, Clone, PartialEq, Eq)]
pub struct SymbolTally {
    /// The covered file's repository-relative path.
    pub file_path: String,
    /// The covered file's content hash at ingestion.
    pub content_hash: String,
    /// The symbol's first line.
    pub start_line: usize,
    /// The symbol's last line.
    pub end_line: usize,
    /// Instrumented lines mapped onto the symbol.
    pub instrumented: usize,
    /// Of those, lines that executed at least once.
    pub covered: usize,
    /// The first covered line, or 0 before one is seen.
    pub first_covered_line: usize,
    /// The last covered line, or 0 before one is seen.
    pub last_covered_line: usize,
}

impl SymbolTally {
    /// `covered` when every instrumented line executed, `partial` otherwise.
    pub open spec fn degree_of(self) -> CoverageDegree {
        if self.covered == self.instrumented {
            CoverageDegree::Covered
        } else {
            CoverageDegree::Partial
        }
    }

    /// `covered` when every instrumented line executed, `partial` otherwise.
    pub fn degree(&self) -> (degree: CoverageDegree)
        ensures
            degree == self.degree_of(),
    {
        if self.covered == self.instrumented {
            CoverageDegree::Covered
        } else {
            CoverageDegree::Partial
        }
    }
}

/// How many bytes of `bytes` are a newline.
pub open spec fn newlines(bytes: Seq<u8>) -> nat
    decreases bytes.len(),
{
    if bytes.len() == 0 {
        0
    } else {
        newlines(bytes.drop_last()) + if bytes.last() == 10u8 { 1nat } else { 0nat }
    }
}

/// The lines a byte buffer spans: its newlines, one more for an unterminated last line, and
/// never fewer than one, so an occurrence of it has a real end.
pub open spec fn lines_spanned(bytes: Seq<u8>) -> nat {
    let n = newlines(bytes) + if bytes.len() > 0 && bytes.last() != 10u8 { 1nat } else { 0nat };
    if n == 0 { 1 } else { n }
}

/// Lines a byte buffer spans, 1-based and never zero.
pub fn line_count(bytes: &[u8]) -> (n: usize)
    ensures
        n == lines_spanned(bytes@),
{
    let mut count: usize = 0;
    let mut i: usize = 0;
    assert(bytes@.take(0) =~= Seq::<u8>::empty());
    while i < bytes.len()
        invariant
            i <= bytes.len(),
            count <= i,
            count == newlines(bytes@.take(i as int)),
        decreases bytes.len() - i,
    {
        assert(bytes@.take(i + 1).drop_last() =~= bytes@.take(i as int));
        if bytes[i] == 10u8 {
            count = count + 1;
        }
        i = i + 1;
    }
    assert(bytes@.take(bytes.len() as int) =~= bytes@);
    let unterminated = bytes.len() > 0 && bytes[bytes.len() - 1] != 10u8;
    let n = if unterminated {
        assert(count < bytes.len()) by {
            lemma_newlines_below(bytes@);
        }
        count + 1
    } else {
        count
    };
    if n == 0 { 1 } else { n }
}

/// A buffer whose last byte is not a newline has fewer newlines than bytes.
proof fn lemma_newlines_below(bytes: Seq<u8>)
    requires
        bytes.len() > 0,
        bytes.last() != 10u8,
    ensures
        newlines(bytes) < bytes.len(),
{
    lemma_newlines_at_most(bytes.drop_last());
}

/// A buffer has no more newlines than bytes.
proof fn lemma_newlines_at_most(bytes: Seq<u8>)
    ensures
        newlines(bytes) <= bytes.len(),
    decreases bytes.len(),
{
    if bytes.len() > 0 {
        lemma_newlines_at_most(bytes.drop_last());
    }
}

} // verus!

verus! {

/// How an ingestion ended.
#[derive(Debug, Clone, Copy, PartialEq, Eq, Structural)]
pub enum RunStatus {
    /// Everything in the report was read and nothing was refused.
    Complete,
    /// Something was refused, by the parser or by the repository.
    Partial,
}

/// The number of form tags, the reader's and ingestion's together.
pub const TAG_COUNT: usize = 22;

/// The position of a tag among every tag, the reader's first, if it is one.
pub open spec fn tag_slot(tag: Seq<char>) -> Option<int> {
    if exists|i: int| 0 <= i < 22 && form::combined_tags()[i] == tag {
        Some(choose|i: int| 0 <= i < 22 && form::combined_tags()[i] == tag)
    } else {
        None
    }
}

/// The tag at a position among every tag.
fn tag_at(i: usize) -> (tag: &'static str)
    requires
        i < 22,
    ensures
        tag@ == form::combined_tags()[i as int],
{
    if i < 15 {
        let t = crate::coverage::form::ALL[i];
        assert(t@ == crate::coverage::form::all_tags()[i as int]);
        t
    } else {
        let t = form::ALL[i - 15];
        assert(t@ == form::all_tags()[i - 15]);
        t
    }
}

/// The position of a tag among every tag, if it is one.
pub fn slot_of(tag: &str) -> (slot: Option<usize>)
    ensures
        match slot {
            Some(i) => tag_slot(tag@) == Some(i as int),
            None => tag_slot(tag@) is None,
        },
{
    proof {
        form::lemma_vocabularies_disjoint();
    }
    let mut i: usize = 0;
    while i < TAG_COUNT
        invariant
            i <= 22,
            forall|k: int| 0 <= k < i ==> form::combined_tags()[k] != tag@,
        decreases 22 - i,
    {
        if str_eq(tag_at(i), tag) {
            proof {
                form::lemma_vocabularies_disjoint();
                let c = choose|k: int| 0 <= k < 22 && form::combined_tags()[k] == tag@;
                assert(form::combined_tags()[i as int] == tag@);
                if c < i {
                    assert(form::combined_tags()[c] != form::combined_tags()[i as int]);
                } else if c > i {
                    assert(form::combined_tags()[i as int] != form::combined_tags()[c]);
                }
            }
            return Some(i);
        }
        i = i + 1;
    }
    None
}

/// Count one more refusal of `tag`.
pub fn count(counters: &mut Vec<usize>, tag: &str)
    requires
        old(counters)@.len() == 22,
        tag_slot(tag@) is Some,
        old(counters)@[tag_slot(tag@).unwrap()] < usize::MAX,
    ensures
        final(counters)@ == old(counters)@.update(
            tag_slot(tag@).unwrap(),
            (old(counters)@[tag_slot(tag@).unwrap()] + 1) as usize,
        ),
{
    let i = match slot_of(tag) {
        Some(i) => i,
        None => return,
    };
    let n = counters[i];
    counters.set(i, n + 1);
}

/// What one ingestion read, wrote and refused.
#[derive(Debug, Clone, PartialEq, Eq)]
pub struct CoverageOutcome {
    /// Canonical repository root.
    pub root: String,
    /// Repository-relative path of the report that was read.
    pub report_path: String,
    /// BLAKE3 of the report's bytes, or `None` when the report was refused unread.
    pub report_content_hash: Option<String>,
    /// Entity id of the coverage run, or `None` when nothing was ingested.
    pub coverage_run_entity_id: Option<String>,
    /// Repository state the ingestion was recorded against.
    pub state_id: String,
    /// Source files the report described, after parsing.
    pub files_in_report: usize,
    /// Source files whose coverage was ingested.
    pub files_ingested: usize,
    /// Source files refused at the repository layer.
    pub files_refused: usize,
    /// Coverage edges written.
    pub symbols_covered: usize,
    /// Of those, symbols every instrumented line of which executed.
    pub symbols_fully_covered: usize,
    /// Of those, symbols with at least one instrumented and unexecuted line.
    pub symbols_partially_covered: usize,
    /// Instrumented lines attributed to a symbol that executed at least once.
    pub covered_lines: usize,
    /// Instrumented lines attributed to a symbol that did not execute.
    pub uncovered_lines: usize,
    /// Refusals, one count per tag of [`form::combined_tags`]: the reader's tags, then
    /// ingestion's.
    pub refused: Vec<usize>,
    /// Rows this ingestion inserted, updated or deleted.
    pub rows_written: usize,
    /// Observations withdrawn from a previous ingestion of the same report path.
    pub observations_removed: usize,
    /// Occurrences withdrawn likewise.
    pub occurrences_removed: usize,
    /// Assertions pruned for want of any supporting observation.
    pub assertions_removed: usize,
    /// Entities pruned for want of any occurrence or incident assertion.
    pub entities_removed: usize,
    /// Wall-clock duration.
    pub duration_ms: u128,
    /// Terminal status.
    pub status: RunStatus,
}

impl CoverageOutcome {
    /// Total refusals across every form.
    pub fn refused_total(&self) -> (n: usize)
        requires
            crate::coverage::sum_counts(self.refused@) <= usize::MAX,
        ensures
            n == crate::coverage::sum_counts(self.refused@),
    {
        let mut n: usize = 0;
        let mut i: usize = 0;
        while i < self.refused.len()
            invariant
                i <= self.refused@.len(),
                n == crate::coverage::sum_counts(self.refused@.take(i as int)),
                crate::coverage::sum_counts(self.refused@) <= usize::MAX,
            decreases self.refused@.len() - i,
        {
            proof {
                crate::coverage::lemma_sum_prefix_bounded(self.refused@, i + 1);
                assert(self.refused@.take(i + 1).drop_last() =~= self.refused@.take(i as int));
            }
            n = n + self.refused[i];
            i = i + 1;
        }
        assert(self.refused@.take(self.refused@.len() as int) =~= self.refused@);
        n
    }

    /// How many times `tag` was counted: zero for a tag that was never counted, or that is not
    /// a tag at all.
    pub fn refused_count(&self, tag: &str) -> (n: usize)
        ensures
            n == match tag_slot(tag@) {
                Some(i) => if i < self.refused@.len() { self.refused@[i] } else { 0 },
                None => 0,
            },
    {
        match slot_of(tag) {
            Some(i) => {
                if i < self.refused.len() {
                    self.refused[i]
                } else {
                    0
                }
            },
            None => 0,
        }
    }
}

} // verus!

verus! {

// ---- deciding a file -----------------------------------------------------------------------------

/// Why a resolved file is refused, in the order the checks are made: it was never indexed, or
/// the index recorded no hash for it; its current bytes cannot be read; they differ from the
/// indexed ones; or no symbol was ever recorded in it. `None` when its lines can be mapped.
pub open spec fn refusal_of(
    indexed: bool,
    indexed_hash: Option<Seq<char>>,
    current_hash: Option<Seq<char>>,
    symbol_count: nat,
) -> Option<Seq<char>> {
    if !indexed || indexed_hash is None {
        Some(form::FILE_NOT_INDEXED@)
    } else if current_hash is None {
        Some(form::FILE_UNREADABLE@)
    } else if current_hash != indexed_hash {
        Some(form::FILE_CHANGED_SINCE_INDEX@)
    } else if symbol_count == 0 {
        Some(form::FILE_WITHOUT_SYMBOLS@)
    } else {
        None
    }
}

/// The characters of an optional text.
pub open spec fn opt_view(s: Option<&str>) -> Option<Seq<char>> {
    match s {
        Some(t) => Some(t@),
        None => None,
    }
}

/// Whether a resolved file's lines may be mapped onto its symbols, and if not, the tag of the
/// refusal. A file whose bytes moved since it was indexed is refused rather than mapped through
/// stale extents.
pub fn file_refusal(
    indexed: bool,
    indexed_hash: Option<&str>,
    current_hash: Option<&str>,
    symbol_count: usize,
) -> (tag: Option<&'static str>)
    ensures
        opt_view(tag) == refusal_of(indexed, opt_view(indexed_hash), opt_view(current_hash), symbol_count as nat),
{
    let recorded = match indexed_hash {
        Some(h) => h,
        None => return Some(form::FILE_NOT_INDEXED),
    };
    if !indexed {
        return Some(form::FILE_NOT_INDEXED);
    }
    let current = match current_hash {
        Some(h) => h,
        None => return Some(form::FILE_UNREADABLE),
    };
    if !str_eq(current, recorded) {
        return Some(form::FILE_CHANGED_SINCE_INDEX);
    }
    if symbol_count == 0 {
        return Some(form::FILE_WITHOUT_SYMBOLS);
    }
    None
}

/// The files refused at the repository layer: the counts of the five file-level tags.
pub open spec fn files_refused_of(refused: Seq<usize>) -> int {
    refused[15] + refused[16] + refused[17] + refused[18] + refused[19]
}

/// How many files were refused at the repository layer.
pub fn files_refused(refused: &Vec<usize>) -> (n: usize)
    requires
        refused@.len() == 22,
        files_refused_of(refused@) <= usize::MAX,
    ensures
        n == files_refused_of(refused@),
{
    refused[15] + refused[16] + refused[17] + refused[18] + refused[19]
}

/// How an ingestion ends: partial when any file was refused or the parser refused anything,
/// complete otherwise.
pub fn run_status(files_refused: usize, parser_refusals: usize) -> (status: RunStatus)
    ensures
        status == (if files_refused > 0 || parser_refusals > 0 {
            RunStatus::Partial
        } else {
            RunStatus::Complete
        }),
{
    if files_refused > 0 || parser_refusals > 0 {
        RunStatus::Partial
    } else {
        RunStatus::Complete
    }
}

} // verus!

verus! {

// ---- merging what resolved to one path ----------------------------------------------------------

/// The map an ascending list of lines states.
pub open spec fn map_of(lines: Seq<LineHit>) -> Map<u64, u64> {
    Map::new(|l: u64| hit_at(lines, l) is Some, |l: u64| hit_at(lines, l).unwrap())
}

/// The records that resolved, in order: each one's repository path and the lines it states.
pub open spec fn resolved_records(files: Seq<FileCoverage>, resolved: Seq<Option<String>>, n: int) -> Seq<(Seq<char>, Map<u64, u64>)>
    decreases n,
{
    if n <= 0 {
        Seq::empty()
    } else {
        let before = resolved_records(files, resolved, n - 1);
        match resolved[n - 1] {
            Some(p) => before.push((p@, map_of(files[n - 1].lines@))),
            None => before,
        }
    }
}

/// How many of the first `n` records the path guard refused.
pub open spec fn refused_paths(resolved: Seq<Option<String>>, n: int) -> nat
    decreases n,
{
    if n <= 0 {
        0
    } else {
        refused_paths(resolved, n - 1) + if resolved[n - 1] is None { 1nat } else { 0nat }
    }
}

/// Whether an earlier record resolved to the same path and stated at least one line.
pub open spec fn repeats_path(files: Seq<FileCoverage>, resolved: Seq<Option<String>>, i: int) -> bool {
    resolved[i] is Some && exists|j: int| 0 <= j < i && (#[trigger] resolved[j]) is Some
        && resolved[j].unwrap()@ == resolved[i].unwrap()@ && files[j].lines@.len() > 0
}

/// How many of the first `n` records repeat an earlier record's resolved path.
pub open spec fn repeated_paths(files: Seq<FileCoverage>, resolved: Seq<Option<String>>, n: int) -> nat
    decreases n,
{
    if n <= 0 {
        0
    } else {
        repeated_paths(files, resolved, n - 1) + if repeats_path(files, resolved, n - 1) {
            1nat
        } else {
            0nat
        }
    }
}

/// An ascending list states exactly the map built from it.
proof fn lemma_lists_own_map(lines: Seq<LineHit>)
    requires
        ascending(lines),
    ensures
        crate::coverage::reader::lists_map(lines, map_of(lines)),
{
    let m = map_of(lines);
    assert forall|k: int| 0 <= k < lines.len() implies #[trigger] m.contains_key(lines[k].line)
        && m[lines[k].line] == lines[k].hits by {
        crate::coverage::merge::lemma_hit_at_listed(lines, k);
    }
    assert forall|l: u64| #[trigger] m.contains_key(l) implies exists|k: int| 0 <= k < lines.len() && lines[k].line == l by {}
}

/// A fresh copy of a list of characters.
fn chars_copy(s: &str) -> (out: Vec<char>)
    ensures
        out@ == s@,
{
    crate::text::chars_of(s)
}

/// The files the report described, once each record's path has been resolved: records the
/// path guard refused are counted and dropped, and records that resolved to one repository path
/// are merged by the largest count stated for each line, never the sum, so one file is described
/// once however many times it was written down. Returns the merged files ascending by path, how
/// many records were refused, and how many repeated a path an earlier record had already given
/// lines for.
pub fn merge_resolved(files: &Vec<FileCoverage>, resolved: &Vec<Option<String>>) -> (out: (Vec<FileCoverage>, usize, usize))
    requires
        files@.len() == resolved@.len(),
        forall|i: int| 0 <= i < files@.len() ==> ascending(#[trigger] files@[i].lines@),
    ensures
        merges_records(out.0@, resolved_records(files@, resolved@, files@.len() as int)),
        out.1 == refused_paths(resolved@, files@.len() as int),
        out.2 == repeated_paths(files@, resolved@, files@.len() as int),
{
    let mut records: Vec<(Vec<char>, Vec<LineHit>)> = Vec::new();
    let mut refused: usize = 0;
    let mut repeated: usize = 0;
    let mut i: usize = 0;
    while i < files.len()
        invariant
            i <= files@.len(),
            files@.len() == resolved@.len(),
            forall|k: int| 0 <= k < files@.len() ==> ascending(#[trigger] files@[k].lines@),
            refused <= i,
            repeated <= i,
            refused == refused_paths(resolved@, i as int),
            repeated == repeated_paths(files@, resolved@, i as int),
            crate::coverage::merge::records_agree(records@, resolved_records(files@, resolved@, i as int)),
        decreases files@.len() - i,
    {
        match &resolved[i] {
            None => {
                refused = refused + 1;
                assert(resolved_records(files@, resolved@, i + 1) == resolved_records(files@, resolved@, i as int));
                assert(crate::coverage::merge::records_agree(records@, resolved_records(files@, resolved@, i + 1)));
            },
            Some(p) => {
                let mut earlier = false;
                let mut j: usize = 0;
                while j < i
                    invariant
                        j <= i < files@.len(),
                        files@.len() == resolved@.len(),
                        resolved@[i as int] == Some(*p),
                        earlier <==> exists|k: int| 0 <= k < j && (#[trigger] resolved@[k]) is Some
                            && resolved@[k].unwrap()@ == p@ && files@[k].lines@.len() > 0,
                    decreases i - j,
                {
                    match &resolved[j] {
                        Some(q) => {
                            if files[j].lines.len() > 0 && str_eq(q.as_str(), p.as_str()) {
                                earlier = true;
                            }
                        },
                        None => {},
                    }
                    j = j + 1;
                }
                if earlier {
                    repeated = repeated + 1;
                }
                let lines = vstd::slice::slice_to_vec(files[i].lines.as_slice());
                proof {
                    lemma_lists_own_map(files@[i as int].lines@);
                }
                let ghost before = records@;
                let key = chars_copy(p.as_str());
                assert(lines@ == files@[i as int].lines@);
                records.push((key, lines));
                proof {
                    let model = resolved_records(files@, resolved@, i + 1);
                    assert(records@[before.len() as int].1@ == files@[i as int].lines@);
                    assert(records@[before.len() as int].0@ == p@);
                    assert(model == resolved_records(files@, resolved@, i as int).push((p@, map_of(files@[i as int].lines@))));
                    assert forall|k: int| 0 <= k < model.len() implies #[trigger] records@[k].0@ == model[k].0
                        && crate::coverage::reader::lists_map(records@[k].1@, model[k].1) by {
                        if k < before.len() {
                            assert(records@[k] == before[k]);
                        }
                    }
                    assert(crate::coverage::merge::records_agree(records@, model));
                }
            },
        }
        i = i + 1;
    }
    let merged = crate::coverage::merge::merge_records(&records, Ghost(resolved_records(files@, resolved@, files@.len() as int)));
    (merged, refused, repeated)
}

} // verus!

verus! {

// ---- mapping lines onto symbols -----------------------------------------------------------------

/// A symbol's tally, as values.
pub struct TallyView {
    pub file_path: Seq<char>,
    pub content_hash: Seq<char>,
    pub start_line: nat,
    pub end_line: nat,
    pub instrumented: nat,
    pub covered: nat,
    pub first_covered_line: nat,
    pub last_covered_line: nat,
}

impl View for SymbolTally {
    type V = TallyView;

    open spec fn view(&self) -> TallyView {
        TallyView {
            file_path: self.file_path@,
            content_hash: self.content_hash@,
            start_line: self.start_line as nat,
            end_line: self.end_line as nat,
            instrumented: self.instrumented as nat,
            covered: self.covered as nat,
            first_covered_line: self.first_covered_line as nat,
            last_covered_line: self.last_covered_line as nat,
        }
    }
}

/// Every symbol's tally so far, in the order the symbols were first met, with the line counts.
#[derive(Debug, Clone, PartialEq, Eq)]
pub struct Tallies {
    /// Each symbol's entity id and tally.
    pub entries: Vec<(String, SymbolTally)>,
    /// Instrumented lines attributed to a symbol that executed at least once.
    pub covered_lines: usize,
    /// Instrumented lines attributed to a symbol that did not execute.
    pub uncovered_lines: usize,
    /// Instrumented lines no single innermost symbol covers.
    pub outside: usize,
}

/// The tallies so far, as values.
pub struct TallyState {
    pub entries: Seq<(Seq<char>, TallyView)>,
    pub covered_lines: nat,
    pub uncovered_lines: nat,
    pub outside: nat,
}

impl View for Tallies {
    type V = TallyState;

    open spec fn view(&self) -> TallyState {
        TallyState {
            entries: self.entries@.map_values(|e: (String, SymbolTally)| (e.0@, e.1@)),
            covered_lines: self.covered_lines as nat,
            uncovered_lines: self.uncovered_lines as nat,
            outside: self.outside as nat,
        }
    }
}

/// The extent a reported line lands in: the innermost symbol covering it, when exactly one is
/// innermost and the line number fits the platform's integers.
pub open spec fn line_target(extents: Seq<SymbolExtent>, line: u64) -> Option<int> {
    if line <= usize::MAX {
        crate::docref::innermost(extents, line as usize)
    } else {
        None
    }
}

/// The position of the first entry for `id`, if any.
pub open spec fn entry_index(entries: Seq<(Seq<char>, TallyView)>, id: Seq<char>) -> Option<int>
    decreases entries.len(),
{
    if entries.len() == 0 {
        None
    } else if entries[0].0 == id {
        Some(0)
    } else {
        match entry_index(entries.drop_first(), id) {
            Some(i) => Some(i + 1),
            None => None,
        }
    }
}

/// Where the first entry for `id` sits, it holds `id`, and no entry holds it when there is none.
proof fn lemma_entry_index(entries: Seq<(Seq<char>, TallyView)>, id: Seq<char>)
    ensures
        match entry_index(entries, id) {
            Some(i) => 0 <= i < entries.len() && entries[i].0 == id,
            None => forall|j: int| 0 <= j < entries.len() ==> entries[j].0 != id,
        },
    decreases entries.len(),
{
    if entries.len() > 0 {
        lemma_entry_index(entries.drop_first(), id);
        if entries[0].0 != id {
            assert forall|j: int| 1 <= j < entries.len() implies entries[j] == entries.drop_first()[j - 1] by {}
        }
    }
}

/// A tally after one more instrumented line, with `hits` executions, was attributed to it.
pub open spec fn counted(t: TallyView, line: nat, hits: u64) -> TallyView {
    if hits > 0 {
        TallyView {
            instrumented: t.instrumented + 1,
            covered: t.covered + 1,
            first_covered_line: if t.first_covered_line == 0 { line } else { t.first_covered_line },
            last_covered_line: if t.last_covered_line >= line { t.last_covered_line } else { line },
            ..t
        }
    } else {
        TallyView { instrumented: t.instrumented + 1, ..t }
    }
}

/// The tallies after one more reported line of a file: a line that lands in a symbol counts
/// towards that symbol (opening its tally with the file's path and hash and the symbol's extent
/// the first time it is met) and towards the covered or uncovered lines; any other line counts
/// as outside every symbol.
pub open spec fn add_line(st: TallyState, path: Seq<char>, hash: Seq<char>, extents: Seq<SymbolExtent>, hit: LineHit) -> TallyState {
    match line_target(extents, hit.line) {
        None => TallyState { outside: st.outside + 1, ..st },
        Some(x) => {
            let e = extents[x];
            let id = e.entity_id@;
            let fresh = TallyView {
                file_path: path,
                content_hash: hash,
                start_line: e.start_line as nat,
                end_line: e.end_line as nat,
                instrumented: 0,
                covered: 0,
                first_covered_line: 0,
                last_covered_line: 0,
            };
            let entries = match entry_index(st.entries, id) {
                Some(k) => st.entries.update(k, (id, counted(st.entries[k].1, hit.line as nat, hit.hits))),
                None => st.entries.push((id, counted(fresh, hit.line as nat, hit.hits))),
            };
            if hit.hits > 0 {
                TallyState { entries, covered_lines: st.covered_lines + 1, ..st }
            } else {
                TallyState { entries, uncovered_lines: st.uncovered_lines + 1, ..st }
            }
        },
    }
}

/// The tallies after the first `n` reported lines of a file.
pub open spec fn add_lines(st: TallyState, path: Seq<char>, hash: Seq<char>, extents: Seq<SymbolExtent>, lines: Seq<LineHit>, n: int) -> TallyState
    decreases n,
{
    if n <= 0 {
        st
    } else {
        add_line(add_lines(st, path, hash, extents, lines, n - 1), path, hash, extents, lines[n - 1])
    }
}

/// Every tally's counts stay within the lines counted so far.
pub open spec fn tallies_bounded(st: TallyState) -> bool {
    forall|k: int| 0 <= k < st.entries.len() ==> (#[trigger] st.entries[k]).1.covered <= st.entries[k].1.instrumented
        && st.entries[k].1.instrumented <= st.covered_lines + st.uncovered_lines
        && st.entries[k].1.last_covered_line <= usize::MAX
        && st.entries[k].1.first_covered_line <= usize::MAX
}

} // verus!

verus! {

impl Tallies {
    /// No tallies yet.
    pub fn new() -> (t: Tallies)
        ensures
            t@.entries.len() == 0,
            t@.covered_lines == 0,
            t@.uncovered_lines == 0,
            t@.outside == 0,
    {
        let t = Tallies { entries: Vec::new(), covered_lines: 0, uncovered_lines: 0, outside: 0 };
        assert(t@.entries =~= Seq::<(Seq<char>, TallyView)>::empty());
        t
    }

    /// Where the entry for `id` sits, if there is one.
    fn find(&self, id: &str) -> (at: Option<usize>)
        ensures
            match at {
                Some(k) => entry_index(self@.entries, id@) == Some(k as int) && k < self.entries@.len(),
                None => entry_index(self@.entries, id@) is None,
            },
    {
        let ghost es = self@.entries;
        let mut k: usize = 0;
        assert(es.skip(0) =~= es);
        while k < self.entries.len()
            invariant
                k <= self.entries@.len(),
                es == self@.entries,
                entry_index(es, id@) == match entry_index(es.skip(k as int), id@) {
                    Some(j) => Some(j + k),
                    None => None::<int>,
                },
            decreases self.entries.len() - k,
        {
            assert(es[k as int].0 == self.entries@[k as int].0@);
            assert(es.skip(k as int)[0] == es[k as int]);
            if str_eq(self.entries[k].0.as_str(), id) {
                return Some(k);
            }
            assert(es.skip(k as int).drop_first() =~= es.skip(k + 1));
            k = k + 1;
        }
        None
    }

    /// The tally a symbol's entry opens with.
    pub open spec fn fresh_tally(path: Seq<char>, hash: Seq<char>, e: SymbolExtent) -> TallyView {
        TallyView {
            file_path: path,
            content_hash: hash,
            start_line: e.start_line as nat,
            end_line: e.end_line as nat,
            instrumented: 0,
            covered: 0,
            first_covered_line: 0,
            last_covered_line: 0,
        }
    }

    /// The position of the entry for `e`'s symbol, opening one if there is none yet.
    fn open_entry(&mut self, rel_path: &str, content_hash: &str, e: &SymbolExtent) -> (at: usize)
        requires
            tallies_bounded(old(self)@),
        ensures
            at < final(self)@.entries.len(),
            final(self)@.covered_lines == old(self)@.covered_lines,
            final(self)@.uncovered_lines == old(self)@.uncovered_lines,
            final(self)@.outside == old(self)@.outside,
            match entry_index(old(self)@.entries, e.entity_id@) {
                Some(k) => at == k && final(self)@.entries == old(self)@.entries,
                None => at == old(self)@.entries.len() && final(self)@.entries == old(self)@.entries.push(
                    (e.entity_id@, Tallies::fresh_tally(rel_path@, content_hash@, *e)),
                ),
            },
            tallies_bounded(final(self)@),
    {
        match self.find(e.entity_id.as_str()) {
            Some(k) => k,
            None => {
                let fresh = SymbolTally {
                    file_path: crate::text::string_of_str(rel_path),
                    content_hash: crate::text::string_of_str(content_hash),
                    start_line: e.start_line,
                    end_line: e.end_line,
                    instrumented: 0,
                    covered: 0,
                    first_covered_line: 0,
                    last_covered_line: 0,
                };
                let ghost before = self@.entries;
                self.entries.push((crate::text::string_of_str(e.entity_id.as_str()), fresh));
                assert(self@.entries =~= before.push((e.entity_id@, Tallies::fresh_tally(rel_path@, content_hash@, *e))));
                self.entries.len() - 1
            },
        }
    }

    /// Count one more line, with `hits` executions, towards the entry at `at`.
    fn bump(&mut self, at: usize, line: usize, hits: u64)
        requires
            at < old(self)@.entries.len(),
            tallies_bounded(old(self)@),
            old(self).covered_lines + old(self).uncovered_lines < usize::MAX,
        ensures
            final(self)@.entries == old(self)@.entries.update(
                at as int,
                (old(self)@.entries[at as int].0, counted(old(self)@.entries[at as int].1, line as nat, hits)),
            ),
            final(self)@.covered_lines == old(self)@.covered_lines + if hits > 0 { 1nat } else { 0nat },
            final(self)@.uncovered_lines == old(self)@.uncovered_lines + if hits > 0 { 0nat } else { 1nat },
            final(self)@.outside == old(self)@.outside,
            tallies_bounded(final(self)@),
    {
        let ghost before = self@;
        let old_t = &self.entries[at].1;
        assert(old_t@ == before.entries[at as int].1);
        let covered_now = hits > 0;
        let updated = SymbolTally {
            file_path: crate::text::string_of_str(old_t.file_path.as_str()),
            content_hash: crate::text::string_of_str(old_t.content_hash.as_str()),
            start_line: old_t.start_line,
            end_line: old_t.end_line,
            instrumented: old_t.instrumented + 1,
            covered: if covered_now { old_t.covered + 1 } else { old_t.covered },
            first_covered_line: if covered_now && old_t.first_covered_line == 0 {
                line
            } else {
                old_t.first_covered_line
            },
            last_covered_line: if covered_now && old_t.last_covered_line < line {
                line
            } else {
                old_t.last_covered_line
            },
        };
        assert(updated@ == counted(before.entries[at as int].1, line as nat, hits));
        let id_copy = crate::text::string_of_str(self.entries[at].0.as_str());
        self.entries.set(at, (id_copy, updated));
        if covered_now {
            self.covered_lines = self.covered_lines + 1;
        } else {
            self.uncovered_lines = self.uncovered_lines + 1;
        }
        assert(self@.entries =~= before.entries.update(
            at as int,
            (before.entries[at as int].0, counted(before.entries[at as int].1, line as nat, hits)),
        ));
    }

    /// Attribute one reported line of a file.
    fn add_hit(&mut self, rel_path: &str, content_hash: &str, extents: &[SymbolExtent], hit: LineHit)
        requires
            tallies_bounded(old(self)@),
            old(self).covered_lines + old(self).uncovered_lines + old(self).outside < usize::MAX,
        ensures
            final(self)@ == add_line(old(self)@, rel_path@, content_hash@, extents@, hit),
            tallies_bounded(final(self)@),
    {
        let ghost before = self@;
        let target = if hit.line <= usize::MAX as u64 {
            crate::docref::innermost_covering(extents, hit.line as usize)
        } else {
            None
        };
        match target {
            None => {
                proof {
                    if hit.line <= usize::MAX {
                        if let Some(x) = crate::docref::innermost(extents@, hit.line as usize) {
                            assert(crate::docref::is_innermost(extents@, hit.line as usize, x));
                        }
                    }
                }
                self.outside = self.outside + 1;
                assert(self@ =~= add_line(before, rel_path@, content_hash@, extents@, hit));
            },
            Some(e) => {
                proof {
                    let x = choose|x: int| crate::docref::is_innermost(extents@, hit.line as usize, x) && *e == extents@[x];
                    crate::docref::lemma_innermost_is(extents@, hit.line as usize, x);
                    assert(line_target(extents@, hit.line) == Some(x));
                }
                assert(hit.line <= usize::MAX);
                let line = hit.line as usize;
                assert(line as nat == hit.line as nat);
                let at = self.open_entry(rel_path, content_hash, e);
                let ghost opened = self@;
                self.bump(at, line, hit.hits);
                proof {
                    let x = line_target(extents@, hit.line).unwrap();
                    assert(extents@[x] == *e);
                    lemma_entry_index(before.entries, e.entity_id@);
                    let id = e.entity_id@;
                    let expected = add_line(before, rel_path@, content_hash@, extents@, hit);
                    match entry_index(before.entries, id) {
                        Some(k) => {
                            assert(opened.entries[k].0 == id);
                            assert(self@.entries =~= expected.entries);
                        },
                        None => {
                            assert(opened.entries[at as int] == (id, Tallies::fresh_tally(rel_path@, content_hash@, *e)));
                            assert(self@.entries =~= expected.entries);
                        },
                    }
                }
                assert(self@ =~= add_line(before, rel_path@, content_hash@, extents@, hit));
            },
        }
    }

    /// Map one file's reported lines onto its symbols: each line is attributed to the innermost
    /// symbol covering it, the one a `#L<n>` anchor to that line would land in, and a line that
    /// lands in no single innermost symbol is counted as outside every symbol.
    pub fn tally_file(&mut self, rel_path: &str, content_hash: &str, extents: &[SymbolExtent], lines: &[LineHit])
        requires
            tallies_bounded(old(self)@),
            old(self).covered_lines + old(self).uncovered_lines + old(self).outside + lines@.len() <= usize::MAX,
        ensures
            final(self)@ == add_lines(old(self)@, rel_path@, content_hash@, extents@, lines@, lines@.len() as int),
            tallies_bounded(final(self)@),
    {
        let ghost start = self@;
        let mut i: usize = 0;
        while i < lines.len()
            invariant
                i <= lines@.len(),
                self@ == add_lines(start, rel_path@, content_hash@, extents@, lines@, i as int),
                tallies_bounded(self@),
                self.covered_lines + self.uncovered_lines + self.outside + (lines@.len() - i) <= usize::MAX,
            decreases lines@.len() - i,
        {
            self.add_hit(rel_path, content_hash, extents, lines[i]);
            i = i + 1;
        }
    }
}

} // verus!

verus! {

/// How many tallies have a covered line (`which` 0), and of those, how many are fully covered
/// (`which` 1) and partially covered (`which` 2).
pub open spec fn symbols_with(entries: Seq<(Seq<char>, TallyView)>, which: int) -> nat
    decreases entries.len(),
{
    if entries.len() == 0 {
        0
    } else {
        let t = entries.last().1;
        let counts = t.covered > 0 && (which == 0 || (which == 1 && t.covered == t.instrumented) || (
        which == 2 && t.covered != t.instrumented));
        symbols_with(entries.drop_last(), which) + if counts { 1nat } else { 0nat }
    }
}

/// How many symbols get a coverage edge, and of those how many ran in full and how many in
/// part. A symbol with no covered line gets no edge: absence is the answer to the gap question.
pub fn symbol_counts(tallies: &Tallies) -> (counts: (usize, usize, usize))
    ensures
        counts.0 == symbols_with(tallies@.entries, 0),
        counts.1 == symbols_with(tallies@.entries, 1),
        counts.2 == symbols_with(tallies@.entries, 2),
        counts.0 == counts.1 + counts.2,
{
    let ghost es = tallies@.entries;
    let mut covered: usize = 0;
    let mut full: usize = 0;
    let mut partial: usize = 0;
    let mut k: usize = 0;
    assert(es.take(0) =~= Seq::<(Seq<char>, TallyView)>::empty());
    while k < tallies.entries.len()
        invariant
            k <= tallies.entries@.len(),
            es == tallies@.entries,
            covered <= k,
            covered == symbols_with(es.take(k as int), 0),
            full == symbols_with(es.take(k as int), 1),
            partial == symbols_with(es.take(k as int), 2),
            covered == full + partial,
        decreases tallies.entries.len() - k,
    {
        assert(es.take(k + 1).drop_last() =~= es.take(k as int));
        let t = &tallies.entries[k].1;
        assert(es.take(k + 1).last().1 == t@);
        if t.covered > 0 {
            covered = covered + 1;
            match t.degree() {
                CoverageDegree::Covered => full = full + 1,
                CoverageDegree::Partial => partial = partial + 1,
            }
        }
        k = k + 1;
    }
    assert(es.take(tallies.entries.len() as int) =~= es);
    (covered, full, partial)
}

} // verus!
