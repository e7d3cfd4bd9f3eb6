//! The graph a coverage run adds: the run itself, where its report is, and one `COVERS` claim
//! from the run to each symbol a covered line landed in, with `TEST_COVERAGE` evidence spanning
//! its first to last covered line. Coverage is a run's claim about symbols, never a test's.
use vstd::prelude::*;
use crate::coverage::{DIRECTNESS, EXTRACTOR_ID, EXTRACTOR_VERSION};
use crate::discover::{parent_directory, parent_of};
use crate::docs::{last_segment, last_segment_of};
use crate::ids::{assertion_id, coverage_run_id, digest_of, entity_id_of, occurrence_id};
use crate::model::{
    json_object_text, object_text, AssertionRecord, EntityRecord, GraphBatch, JsonScalar,
    ObservationRecord, OccurrenceRecord, ScalarView, Span,
};
use crate::text::{decimal, string_of_str};
use crate::vocab::{EntityKind, EvidenceSourceType, Relation};
use super::{line_count, lines_spanned, symbols_with, CoverageDegree, SymbolTally, Tallies, TallyView};

verus! {

/// How each covered line reached its symbol, as the evidence states it.
pub const COVERAGE_RULE: &'static str = "LCOV DA: lines mapped onto the innermost symbol covering each line";

/// The tallies that get a coverage edge, in order: those with a covered line.
pub open spec fn covered_entries(entries: Seq<(Seq<char>, TallyView)>) -> Seq<(Seq<char>, TallyView)>
    decreases entries.len(),
{
    if entries.len() == 0 {
        Seq::empty()
    } else {
        let rest = covered_entries(entries.drop_last());
        if entries.last().1.covered > 0 {
            rest.push(entries.last())
        } else {
            rest
        }
    }
}

/// There is one edge per symbol with a covered line.
pub proof fn lemma_one_edge_per_covered_symbol(entries: Seq<(Seq<char>, TallyView)>)
    ensures
        covered_entries(entries).len() == symbols_with(entries, 0),
        forall|k: int| 0 <= k < covered_entries(entries).len() ==> (#[trigger] covered_entries(entries)[k]).1.covered > 0,
    decreases entries.len(),
{
    if entries.len() > 0 {
        lemma_one_edge_per_covered_symbol(entries.drop_last());
    }
}

/// The id of the run a report at `report_path` with hash `report_hash` is.
pub open spec fn run_id_of(project_id: Seq<char>, report_path: Seq<char>, report_hash: Seq<char>) -> Seq<char> {
    entity_id_of(EntityKind::CoverageRun, seq![EntityKind::CoverageRun.name_of(), project_id, report_path, report_hash])
}

/// The run's metadata: the format, where the report is and what it held, how many source files
/// it named, and that LCOV attributes nothing to a single test.
pub open spec fn run_meta(report_path: Seq<char>, report_hash: Seq<char>, files: nat) -> Seq<(Seq<char>, ScalarView)> {
    seq![
        ("format"@, ScalarView::Text("lcov"@)),
        ("report_path"@, ScalarView::Text(report_path)),
        ("report_content_hash"@, ScalarView::Text(report_hash)),
        ("source_files_in_report"@, ScalarView::Count(files)),
        ("per_test_attribution"@, ScalarView::Flag(false)),
    ]
}

/// The lines a symbol's extent spans, counting both ends; 1 for an extent that ends before it
/// starts.
pub open spec fn extent_lines(t: TallyView) -> nat {
    if t.end_line >= t.start_line {
        (t.end_line - t.start_line + 1) as nat
    } else {
        1
    }
}

/// The degree a tally records.
pub open spec fn degree_view(t: TallyView) -> CoverageDegree {
    if t.covered == t.instrumented {
        CoverageDegree::Covered
    } else {
        CoverageDegree::Partial
    }
}

/// The evidence steps of one covered symbol.
pub open spec fn symbol_details(t: TallyView, report_path: Seq<char>, report_hash: Seq<char>) -> Seq<(Seq<char>, ScalarView)> {
    seq![
        ("rule"@, ScalarView::Text(COVERAGE_RULE@)),
        ("coverage"@, ScalarView::Text(degree_view(t).name_of())),
        ("covered_lines"@, ScalarView::Count(t.covered)),
        ("instrumented_lines"@, ScalarView::Count(t.instrumented)),
        ("symbol_start_line"@, ScalarView::Count(t.start_line)),
        ("symbol_end_line"@, ScalarView::Count(t.end_line)),
        ("symbol_extent_lines"@, ScalarView::Count(extent_lines(t))),
        ("report_path"@, ScalarView::Text(report_path)),
        ("report_content_hash"@, ScalarView::Text(report_hash)),
        ("covered_file_content_hash"@, ScalarView::Text(t.content_hash)),
    ]
}

/// The `k`th claim of a batch is the run's `COVERS` claim on the symbol `target`.
pub open spec fn covers_claim(a: AssertionRecord, run: Seq<char>, target: Seq<char>) -> bool {
    &&& a.assertion_id@ == digest_of(seq![run, Relation::Covers.name_of(), target])
    &&& a.source_entity_id@ == run
    &&& a.relation == Relation::Covers
    &&& a.target_entity_id@ == target
}

/// `o` is the coverage evidence for claim `claim` on the symbol tallied as `t`.
pub open spec fn coverage_evidence(
    o: ObservationRecord,
    claim: Seq<char>,
    t: TallyView,
    report_path: Seq<char>,
    report_hash: Seq<char>,
) -> bool {
    &&& o.assertion_id@ == claim
    &&& o.evidence_source_type == EvidenceSourceType::TestCoverage
    &&& o.directness == DIRECTNESS
    &&& o.extractor_id@ == EXTRACTOR_ID@
    &&& o.extractor_version@ == EXTRACTOR_VERSION@
    &&& o.file_path@ == t.file_path
    &&& o.start_line == t.first_covered_line
    &&& o.end_line == t.last_covered_line
    &&& o.content_hash@ == t.content_hash
    &&& o.environment is None
    &&& o.details matches Some(d) && d@ == json_object_text(symbol_details(t, report_path, report_hash))
}

/// Every covered symbol's extent can be counted in the platform's integers.
pub open spec fn extents_countable(entries: Seq<(Seq<char>, TallyView)>) -> bool {
    forall|k: int| 0 <= k < entries.len() ==> (#[trigger] entries[k]).1.end_line < entries[k].1.start_line + usize::MAX
}

/// The claims and evidence of one covered symbol.
fn symbol_claim(run: &str, report_path: &str, report_hash: &str, id: &str, t: &SymbolTally) -> (out: (AssertionRecord, ObservationRecord))
    requires
        t.end_line < t.start_line + usize::MAX,
    ensures
        covers_claim(out.0, run@, id@),
        coverage_evidence(out.1, out.0.assertion_id@, t@, report_path@, report_hash@),
{
    let claim = assertion_id(run, Relation::Covers, id);
    let extent: usize = if t.end_line >= t.start_line { t.end_line - t.start_line + 1 } else { 1 };
    let degree = t.degree();
    let fields = [
        ("rule", JsonScalar::Text(string_of_str(COVERAGE_RULE))),
        ("coverage", JsonScalar::Text(string_of_str(degree.as_str()))),
        ("covered_lines", JsonScalar::Count(t.covered)),
        ("instrumented_lines", JsonScalar::Count(t.instrumented)),
        ("symbol_start_line", JsonScalar::Count(t.start_line)),
        ("symbol_end_line", JsonScalar::Count(t.end_line)),
        ("symbol_extent_lines", JsonScalar::Count(extent)),
        ("report_path", JsonScalar::Text(string_of_str(report_path))),
        ("report_content_hash", JsonScalar::Text(string_of_str(report_hash))),
        ("covered_file_content_hash", JsonScalar::Text(string_of_str(t.content_hash.as_str()))),
    ];
    proof {
        assert(crate::model::field_views(fields@) =~= symbol_details(t@, report_path@, report_hash@));
    }
    let details = object_text(&fields);
    let observation = ObservationRecord {
        assertion_id: string_of_str(claim.as_str()),
        evidence_source_type: EvidenceSourceType::TestCoverage,
        directness: DIRECTNESS,
        extractor_id: string_of_str(EXTRACTOR_ID),
        extractor_version: string_of_str(EXTRACTOR_VERSION),
        file_path: string_of_str(t.file_path.as_str()),
        start_line: t.first_covered_line,
        end_line: t.last_covered_line,
        content_hash: string_of_str(t.content_hash.as_str()),
        environment: None,
        details: Some(details),
    };
    let assertion = AssertionRecord {
        assertion_id: claim,
        source_entity_id: string_of_str(run),
        relation: Relation::Covers,
        target_entity_id: string_of_str(id),
    };
    (assertion, observation)
}

/// The graph one coverage run adds.
///
/// The run is an entity named by its report's path and hash, with one occurrence spanning the
/// whole report. Each symbol with a covered line gets exactly one `COVERS` claim from the run,
/// in tally order, and one piece of `TEST_COVERAGE` evidence at the covered file, from its first
/// to its last covered line. A symbol with no covered line gets nothing.
pub fn coverage_batch(
    project_id: &str,
    report_path: &str,
    report_hash: &str,
    report: &[u8],
    files_in_report: usize,
    tallies: &Tallies,
) -> (batch: GraphBatch)
    requires
        extents_countable(covered_entries(tallies@.entries)),
    ensures
        ({
            let run = run_id_of(project_id@, report_path@, report_hash@);
            let cs = covered_entries(tallies@.entries);
            &&& batch.entities@.len() == 1
            &&& batch.entities@[0].entity_id@ == run
            &&& batch.entities@[0].kind == EntityKind::CoverageRun
            &&& batch.entities@[0].name@ == last_segment_of(report_path@)
            &&& batch.entities@[0].scope_path@ == match parent_of(report_path@) {
                Some(p) => p,
                None => Seq::<char>::empty(),
            }
            &&& batch.entities@[0].language is None
            &&& batch.entities@[0].meta matches Some(m)
                && m@ == json_object_text(run_meta(report_path@, report_hash@, files_in_report as nat))
            &&& batch.occurrences@.len() == 1
            &&& batch.occurrences@[0].occurrence_id@ == digest_of(
                seq![run, report_path@, decimal(0), decimal(report@.len())],
            )
            &&& batch.occurrences@[0].entity_id@ == run
            &&& batch.occurrences@[0].file_path@ == report_path@
            &&& batch.occurrences@[0].span == (Span {
                start_byte: 0,
                end_byte: report@.len() as usize,
                start_line: 1,
                start_col: 0,
                end_line: lines_spanned(report@) as usize,
                end_col: 0,
            })
            &&& batch.occurrences@[0].content_hash@ == report_hash@
            &&& cs.len() == symbols_with(tallies@.entries, 0)
            &&& batch.assertions@.len() == cs.len()
            &&& batch.observations@.len() == cs.len()
            &&& forall|k: int| 0 <= k < cs.len() ==> covers_claim(#[trigger] batch.assertions@[k], run, cs[k].0)
            &&& forall|k: int| 0 <= k < cs.len() ==> coverage_evidence(
                #[trigger] batch.observations@[k],
                batch.assertions@[k].assertion_id@,
                cs[k].1,
                report_path@,
                report_hash@,
            )
        }),
{
    let run = coverage_run_id(project_id, report_path, report_hash);
    let ghost es = tallies@.entries;
    let scope = match parent_directory(report_path) {
        Some(p) => p,
        None => String::new(),
    };
    let meta_fields = [
        ("format", JsonScalar::Text(string_of_str("lcov"))),
        ("report_path", JsonScalar::Text(string_of_str(report_path))),
        ("report_content_hash", JsonScalar::Text(string_of_str(report_hash))),
        ("source_files_in_report", JsonScalar::Count(files_in_report)),
        ("per_test_attribution", JsonScalar::Flag(false)),
    ];
    proof {
        assert(crate::model::field_views(meta_fields@) =~= run_meta(report_path@, report_hash@, files_in_report as nat));
    }
    let meta = object_text(&meta_fields);
    let entity = EntityRecord {
        entity_id: string_of_str(run.as_str()),
        kind: EntityKind::CoverageRun,
        name: last_segment(report_path),
        scope_path: scope,
        language: None,
        meta: Some(meta),
    };
    let occurrence = OccurrenceRecord {
        occurrence_id: occurrence_id(run.as_str(), report_path, 0, report.len()),
        entity_id: string_of_str(run.as_str()),
        file_path: string_of_str(report_path),
        span: Span {
            start_byte: 0,
            end_byte: report.len(),
            start_line: 1,
            start_col: 0,
            end_line: line_count(report),
            end_col: 0,
        },
        content_hash: string_of_str(report_hash),
    };
    let mut entities: Vec<EntityRecord> = Vec::new();
    entities.push(entity);
    let mut occurrences: Vec<OccurrenceRecord> = Vec::new();
    occurrences.push(occurrence);
    let mut assertions: Vec<AssertionRecord> = Vec::new();
    let mut observations: Vec<ObservationRecord> = Vec::new();
    let mut k: usize = 0;
    assert(es.take(0) =~= Seq::<(Seq<char>, TallyView)>::empty());
    while k < tallies.entries.len()
        invariant
            k <= tallies.entries@.len(),
            es == tallies@.entries,
            run@ == run_id_of(project_id@, report_path@, report_hash@),
            extents_countable(covered_entries(es)),
            assertions@.len() == covered_entries(es.take(k as int)).len(),
            observations@.len() == assertions@.len(),
            forall|j: int| 0 <= j < assertions@.len() ==> covers_claim(#[trigger] assertions@[j], run@, covered_entries(es.take(k as int))[j].0),
            forall|j: int| 0 <= j < observations@.len() ==> coverage_evidence(
                #[trigger] observations@[j],
                assertions@[j].assertion_id@,
                covered_entries(es.take(k as int))[j].1,
                report_path@,
                report_hash@,
            ),
        decreases tallies.entries@.len() - k,
    {
        let ghost before = covered_entries(es.take(k as int));
        proof {
            assert(es.take(k + 1).drop_last() =~= es.take(k as int));
            assert(es.take(k + 1).last() == es[k as int]);
            lemma_covered_prefix(es, k as int + 1);
        }
        let id = &tallies.entries[k].0;
        let t = &tallies.entries[k].1;
        if t.covered > 0 {
            proof {
                assert(covered_entries(es.take(k + 1)) == before.push(es[k as int]));
                let last = covered_entries(es.take(k + 1)).len() - 1;
                assert(covered_entries(es.take(k + 1))[last] == es[k as int]);
                assert(extents_countable(covered_entries(es)));
                assert(covered_entries(es)[last] == covered_entries(es.take(k + 1))[last]);
                assert(covered_entries(es)[last].1.end_line < covered_entries(es)[last].1.start_line + usize::MAX);
            }
            let (assertion, observation) = symbol_claim(run.as_str(), report_path, report_hash, id.as_str(), t);
            assertions.push(assertion);
            observations.push(observation);
        }
        k = k + 1;
    }
    proof {
        assert(es.take(es.len() as int) =~= es);
        lemma_one_edge_per_covered_symbol(es);
    }
    GraphBatch { entities, occurrences, assertions, observations }
}

/// The covered entries of a prefix are a prefix of the covered entries of the whole.
proof fn lemma_covered_prefix(es: Seq<(Seq<char>, TallyView)>, n: int)
    requires
        0 <= n <= es.len(),
    ensures
        covered_entries(es.take(n)).len() <= covered_entries(es).len(),
        forall|j: int| 0 <= j < covered_entries(es.take(n)).len() ==> #[trigger] covered_entries(es.take(n))[j] == covered_entries(es)[j],
    decreases es.len() - n,
{
    if n < es.len() {
        lemma_covered_prefix(es, n + 1);
        assert(es.take(n + 1).drop_last() =~= es.take(n));
        let a = covered_entries(es.take(n));
        let b = covered_entries(es.take(n + 1));
        assert(b == a || b == a.push(es.take(n + 1).last()));
        assert forall|j: int| 0 <= j < a.len() implies #[trigger] a[j] == covered_entries(es)[j] by {
            assert(b[j] == a[j]);
        }
    } else {
        assert(es.take(n) =~= es);
    }
}

} // verus!
