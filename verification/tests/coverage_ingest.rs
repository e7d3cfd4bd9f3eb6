#![allow(unused_imports)]
use nerve::coverage::{parse_lcov, FileCoverage, LineHit};
use nerve::coverage_ingest::{
    file_refusal, files_refused, form, last_segment, line_count, merge_resolved, parent_directory,
    run_status, symbol_counts, CoverageDegree, CoverageOutcome, RunStatus, SymbolTally, Tallies,
};
use nerve::docref::SymbolExtent;
use nerve::coverage_ingest::batch::coverage_batch;

/// One counter, two vocabularies, and no tag that could mean either thing.
#[test]
fn the_two_form_vocabularies_are_disjoint_and_distinct() {
    let mut all: Vec<&str> = nerve::coverage::form::ALL.to_vec();
    all.extend(form::ALL);
    let mut sorted = all.clone();
    sorted.sort_unstable();
    sorted.dedup();
    assert_eq!(sorted.len(), all.len(), "a parser and an ingest tag collide");
    assert!(form::ALL.iter().all(|tag| !tag.is_empty()));
}

#[test]
fn a_degree_is_a_recorded_value_with_a_stable_name() {
    assert_eq!(CoverageDegree::Covered.as_str(), "covered");
    assert_eq!(CoverageDegree::Partial.as_str(), "partial");
}

/// `partial` is never rounded: one unexecuted instrumented line is enough, however many ran.
#[test]
fn one_unexecuted_instrumented_line_makes_a_symbol_partial() {
    let tally = |instrumented, covered| SymbolTally {
        file_path: "src/a.ts".to_string(),
        content_hash: "h".to_string(),
        start_line: 1,
        end_line: 20,
        instrumented,
        covered,
        first_covered_line: 1,
        last_covered_line: 2,
    };
    assert_eq!(tally(1, 1).degree(), CoverageDegree::Covered);
    assert_eq!(tally(100, 100).degree(), CoverageDegree::Covered);
    assert_eq!(tally(100, 99).degree(), CoverageDegree::Partial);
    assert_eq!(tally(2, 1).degree(), CoverageDegree::Partial);
}

#[test]
fn a_reports_line_count_is_never_zero_and_counts_an_unterminated_last_line() {
    assert_eq!(line_count(b""), 1);
    assert_eq!(line_count(b"a\n"), 1);
    assert_eq!(line_count(b"a\nb\n"), 2);
    assert_eq!(line_count(b"a\nb"), 2);
}

#[test]
fn path_helpers_agree_with_the_pipelines() {
    assert_eq!(parent_directory("coverage/lcov.info"), Some("coverage".to_string()));
    assert_eq!(parent_directory("lcov.info"), None);
    assert_eq!(last_segment("coverage/lcov.info"), "lcov.info");
    assert_eq!(last_segment("lcov.info"), "lcov.info");
}

fn hits(pairs: &[(u64, u64)]) -> Vec<LineHit> {
    pairs.iter().map(|(line, hits)| LineHit { line: *line, hits: *hits }).collect()
}

#[test]
fn two_spellings_of_one_file_merge_by_the_maximum_and_a_refused_path_is_counted() {
    let files = vec![
        FileCoverage { raw_path: "src/a.ts".to_string(), lines: hits(&[(1, 2), (3, 0)]) },
        FileCoverage { raw_path: "../outside.ts".to_string(), lines: hits(&[(1, 1)]) },
        FileCoverage { raw_path: "./src/a.ts".to_string(), lines: hits(&[(1, 5), (4, 1)]) },
        FileCoverage { raw_path: "src/b.ts".to_string(), lines: hits(&[]) },
        FileCoverage { raw_path: "./src/b.ts".to_string(), lines: hits(&[(2, 1)]) },
    ];
    let resolved = vec![
        Some("src/a.ts".to_string()),
        None,
        Some("src/a.ts".to_string()),
        Some("src/b.ts".to_string()),
        Some("src/b.ts".to_string()),
    ];
    let (merged, refused, repeated) = merge_resolved(&files, &resolved);
    assert_eq!(refused, 1);
    // The second `src/b.ts` record follows one that stated no lines, so it repeats nothing.
    assert_eq!(repeated, 1);
    assert_eq!(merged.len(), 2);
    assert_eq!(merged[0].raw_path, "src/a.ts");
    assert_eq!(merged[0].lines, hits(&[(1, 5), (3, 0), (4, 1)]));
    assert_eq!(merged[1].raw_path, "src/b.ts");
    assert_eq!(merged[1].lines, hits(&[(2, 1)]));
}

#[test]
fn a_file_is_refused_for_the_first_reason_that_applies() {
    assert_eq!(file_refusal(false, Some("h"), Some("h"), 3), Some(form::FILE_NOT_INDEXED));
    assert_eq!(file_refusal(true, None, Some("h"), 3), Some(form::FILE_NOT_INDEXED));
    assert_eq!(file_refusal(true, Some("h"), None, 3), Some(form::FILE_UNREADABLE));
    assert_eq!(file_refusal(true, Some("h"), Some("g"), 3), Some(form::FILE_CHANGED_SINCE_INDEX));
    assert_eq!(file_refusal(true, Some("h"), Some("h"), 0), Some(form::FILE_WITHOUT_SYMBOLS));
    assert_eq!(file_refusal(true, Some("h"), Some("h"), 1), None);
}

fn extent(id: &str, bytes: (usize, usize), lines: (usize, usize)) -> SymbolExtent {
    SymbolExtent {
        entity_id: id.to_string(),
        start_byte: bytes.0,
        end_byte: bytes.1,
        start_line: lines.0,
        end_line: lines.1,
    }
}

#[test]
fn each_line_counts_towards_the_innermost_symbol_covering_it() {
    let extents = vec![
        extent("outer", (0, 100), (1, 10)),
        extent("inner", (20, 40), (3, 5)),
    ];
    let mut tallies = Tallies::new();
    tallies.tally_file("src/a.ts", "h", &extents, &hits(&[(1, 1), (4, 2), (5, 0), (7, 0), (20, 9)]));
    assert_eq!(tallies.outside, 1);
    assert_eq!(tallies.covered_lines, 2);
    assert_eq!(tallies.uncovered_lines, 2);
    let outer = &tallies.entries[0];
    assert_eq!(outer.0, "outer");
    assert_eq!((outer.1.instrumented, outer.1.covered), (2, 1));
    assert_eq!((outer.1.first_covered_line, outer.1.last_covered_line), (1, 1));
    let inner = &tallies.entries[1];
    assert_eq!(inner.0, "inner");
    assert_eq!((inner.1.instrumented, inner.1.covered), (2, 1));
    assert_eq!((inner.1.start_line, inner.1.end_line), (3, 5));
    assert_eq!(inner.1.degree(), CoverageDegree::Partial);
    assert_eq!(symbol_counts(&tallies), (2, 0, 2));

    let mut fully = Tallies::new();
    fully.tally_file("src/b.ts", "h", &extents, &hits(&[(3, 1), (4, 1)]));
    assert_eq!(symbol_counts(&fully), (1, 1, 0));
}

#[test]
fn an_ingestion_is_partial_when_anything_was_refused() {
    let mut refused = vec![0usize; 22];
    assert_eq!(files_refused(&refused), 0);
    assert_eq!(run_status(0, 0), RunStatus::Complete);
    refused[16] = 2;
    refused[21] = 5;
    assert_eq!(files_refused(&refused), 2);
    assert_eq!(run_status(2, 0), RunStatus::Partial);
    assert_eq!(run_status(0, 1), RunStatus::Partial);
}

#[test]
fn an_outcome_reads_its_counts_by_tag() {
    let mut refused = vec![0usize; 22];
    refused[0] = 1;
    refused[21] = 3;
    let outcome = CoverageOutcome {
        root: "/repo".to_string(),
        report_path: "coverage/lcov.info".to_string(),
        report_content_hash: None,
        coverage_run_entity_id: None,
        state_id: "s".to_string(),
        files_in_report: 0,
        files_ingested: 0,
        files_refused: 0,
        symbols_covered: 0,
        symbols_fully_covered: 0,
        symbols_partially_covered: 0,
        covered_lines: 0,
        uncovered_lines: 0,
        refused,
        rows_written: 0,
        observations_removed: 0,
        occurrences_removed: 0,
        assertions_removed: 0,
        entities_removed: 0,
        duration_ms: 0,
        status: RunStatus::Partial,
    };
    assert_eq!(outcome.refused_total(), 4);
    assert_eq!(outcome.refused_count(nerve::coverage::form::REPORT_TOO_LARGE), 1);
    assert_eq!(outcome.refused_count(form::LINE_OUTSIDE_ANY_SYMBOL), 3);
    assert_eq!(outcome.refused_count(form::PATH_REFUSED), 0);
    assert_eq!(outcome.refused_count("no-such-tag"), 0);
}

#[test]
fn a_coverage_run_covers_exactly_the_symbols_a_covered_line_landed_in() {
    let extents = vec![
        extent("outer", (0, 100), (1, 10)),
        extent("inner", (20, 40), (3, 5)),
        extent("idle", (200, 300), (20, 30)),
    ];
    let mut tallies = Tallies::new();
    tallies.tally_file("src/a.ts", "hash-a", &extents, &hits(&[(1, 1), (4, 2), (5, 0), (7, 0), (25, 0)]));
    let report = b"SF:src/a.ts\nDA:1,1\nend_of_record\n";
    let batch = coverage_batch("proj", "reports/lcov.info", "hash-r", report, 1, &tallies);

    let run = nerve::ids::coverage_run_id("proj", "reports/lcov.info", "hash-r");
    assert_eq!(batch.entities.len(), 1);
    assert_eq!(batch.entities[0].entity_id, run);
    assert_eq!(batch.entities[0].kind, nerve::vocab::EntityKind::CoverageRun);
    assert_eq!(batch.entities[0].name, "lcov.info");
    assert_eq!(batch.entities[0].scope_path, "reports");
    let meta: serde_json::Value = serde_json::from_str(batch.entities[0].meta.as_deref().unwrap()).unwrap();
    assert_eq!(meta["format"], "lcov");
    assert_eq!(meta["per_test_attribution"], false);
    assert_eq!(meta["source_files_in_report"], 1);

    assert_eq!(batch.occurrences.len(), 1);
    let occurrence = &batch.occurrences[0];
    assert_eq!(occurrence.occurrence_id, nerve::ids::occurrence_id(&run, "reports/lcov.info", 0, report.len()));
    assert_eq!((occurrence.span.start_byte, occurrence.span.end_byte), (0, report.len()));
    assert_eq!((occurrence.span.start_line, occurrence.span.end_line), (1, 3));
    assert_eq!(occurrence.content_hash, "hash-r");

    let targets: Vec<&str> = batch.assertions.iter().map(|a| a.target_entity_id.as_str()).collect();
    assert_eq!(targets, vec!["outer", "inner"]);
    for (assertion, observation) in batch.assertions.iter().zip(&batch.observations) {
        assert_eq!(assertion.relation, nerve::vocab::Relation::Covers);
        assert_eq!(assertion.source_entity_id, run);
        assert_eq!(
            assertion.assertion_id,
            nerve::ids::assertion_id(&run, nerve::vocab::Relation::Covers, &assertion.target_entity_id)
        );
        assert_eq!(observation.assertion_id, assertion.assertion_id);
        assert_eq!(observation.evidence_source_type, nerve::vocab::EvidenceSourceType::TestCoverage);
        assert_eq!(observation.file_path, "src/a.ts");
        assert_eq!(observation.content_hash, "hash-a");
        assert!(observation.environment.is_none());
    }
    assert_eq!((batch.observations[1].start_line, batch.observations[1].end_line), (4, 4));
    let details: serde_json::Value = serde_json::from_str(batch.observations[1].details.as_deref().unwrap()).unwrap();
    assert_eq!(details["coverage"], "partial");
    assert_eq!(details["symbol_extent_lines"], 3);
    assert_eq!(details["covered_lines"], 1);
    assert_eq!(details["instrumented_lines"], 2);
    assert!(batch.verify_declared_source_types("coverage", &nerve::coverage::DECLARED_SOURCE_TYPES).is_ok());
}
