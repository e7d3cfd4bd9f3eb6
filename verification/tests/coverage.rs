#![allow(unused_imports)]
use nerve::coverage::{
    form, parse_lcov, CoverageReport, DECLARED_SOURCE_TYPES, DIRECTNESS, EXTRACTOR_ID,
    EXTRACTOR_VERSION, MAX_LINES_PER_RECORD, MAX_RECORDS, MAX_REPORT_BYTES,
};
use nerve::vocab::{Directness, EvidenceSourceType};

/// The `(line, hits)` pairs recorded for `raw_path`, for readable assertions.
fn get_lines(report: &CoverageReport, raw_path: &str) -> Vec<(u64, u64)> {
    report
        .files
        .iter()
        .find(|file| file.raw_path == raw_path)
        .map(|file| file.lines.iter().map(|hit| (hit.line, hit.hits)).collect())
        .unwrap_or_default()
}

/// The parse of a well-formed report, as a `(path, [(line, hits)])` list.
fn files_of(report: &CoverageReport) -> Vec<(String, Vec<(u64, u64)>)> {
    report
        .files
        .iter()
        .map(|file| {
            (
                file.raw_path.clone(),
                file.lines
                    .iter()
                    .map(|hit| (hit.line, hit.hits))
                    .collect::<Vec<_>>(),
            )
        })
        .collect()
}

// ---- extractor identity ------------------------------------------------------------------

#[test]
fn declares_only_the_test_coverage_source_type_and_infers_nothing_more() {
    assert_eq!(EXTRACTOR_ID, "coverage");
    assert_eq!(EXTRACTOR_VERSION, "1.0.0");
    assert_eq!(DECLARED_SOURCE_TYPES.len(), 1);
    assert_eq!(DECLARED_SOURCE_TYPES[0], EvidenceSourceType::TestCoverage);
    assert_eq!(DECLARED_SOURCE_TYPES[0].as_str(), "TEST_COVERAGE");
    // A line hit is not a statement that a symbol is covered; a mapping step concludes it.
    assert_eq!(DIRECTNESS, Directness::Inferred);
    assert_eq!(DIRECTNESS.as_str(), "INFERRED");
}

#[test]
fn every_form_tag_is_distinct() {
    let mut sorted = form::ALL.to_vec();
    sorted.sort_unstable();
    sorted.dedup();
    assert_eq!(sorted.len(), form::ALL.len(), "two form tags collide");
    assert!(form::ALL.iter().all(|tag| !tag.is_empty()));
}

#[test]
fn parsing_the_same_bytes_twice_gives_the_same_answer() {
    let report = b"TN:\nSF:src/a.js\nDA:1,1\nDA:2,0\nend_of_record\n";
    assert_eq!(parse_lcov(report), parse_lcov(report));
}

// ---- one test per record type ------------------------------------------------------------

#[test]
fn tn_is_read_and_an_empty_test_name_is_not_a_refusal() {
    let report = parse_lcov(b"TN:\nSF:src/a.js\nDA:1,1\nend_of_record\n");
    assert_eq!(report.counters.total(), 0);
    assert_eq!(get_lines(&report, "src/a.js"), vec![(1, 1)]);
}

/// A populated `TN:` is counted, so the finding this slice rests on can be contradicted by a
/// measurement rather than defended from memory.
#[test]
fn tn_with_a_value_is_counted_because_it_would_contradict_adr_0008() {
    let report = parse_lcov(b"TN:alpha test\nSF:src/a.js\nDA:1,1\nend_of_record\n");
    assert_eq!(report.counters.get(form::TEST_NAME_PRESENT), 1);
    // Counted, never used: the record is still attributed to the run, not to `alpha test`.
    assert_eq!(get_lines(&report, "src/a.js"), vec![(1, 1)]);
}

#[test]
fn sf_carries_the_path_exactly_as_written() {
    for written in [
        "src/a.js",
        "./src/a.js",
        "/abs/olute/src/a.js",
        "../../../../etc/passwd",
        "src\\windows\\a.js",
        "src/a b.js",
        "src/../src/a.js",
    ] {
        let report = parse_lcov(format!("SF:{written}\nDA:1,1\nend_of_record\n").as_bytes());
        assert_eq!(
            report.files.len(),
            1,
            "{written} did not produce exactly one record"
        );
        assert_eq!(
            report.files[0].raw_path, written,
            "{written} was rewritten by the parser"
        );
        assert_eq!(report.counters.total(), 0, "{written} was refused");
    }
}

#[test]
fn fn_is_recognised_and_a_malformed_one_is_counted() {
    let good = parse_lcov(b"SF:src/a.js\nFN:12,alphaCovered\nDA:12,1\nend_of_record\n");
    assert_eq!(good.counters.total(), 0);
    assert_eq!(get_lines(&good, "src/a.js"), vec![(12, 1)]);

    // A name containing a comma is a name, not a third field.
    let comma = parse_lcov(b"SF:src/a.js\nFN:12,f<a,b>\nend_of_record\n");
    assert_eq!(comma.counters.total(), 0);

    for malformed in ["FN:alphaCovered", "FN:,name", "FN:12,", "FN:-1,name"] {
        let report =
            parse_lcov(format!("SF:src/a.js\n{malformed}\nend_of_record\n").as_bytes());
        assert_eq!(
            report.counters.get(form::MALFORMED_RECORD),
            1,
            "{malformed} was not counted"
        );
    }
}

#[test]
fn fnda_is_recognised_and_a_malformed_one_is_counted() {
    let good = parse_lcov(b"SF:src/a.js\nFNDA:3,alphaCovered\nDA:1,1\nend_of_record\n");
    assert_eq!(good.counters.total(), 0);
    // A function executed three times says nothing about which lines ran; only `DA:` does.
    assert_eq!(get_lines(&good, "src/a.js"), vec![(1, 1)]);

    // Zero executions is a legitimate value: the function was instrumented and never called.
    let zero = parse_lcov(b"SF:src/a.js\nFNDA:0,neverCalled\nend_of_record\n");
    assert_eq!(zero.counters.total(), 0);

    for malformed in [
        "FNDA:alphaCovered",
        "FNDA:-1,name",
        "FNDA:3,",
        "FNDA:x,name",
    ] {
        let report =
            parse_lcov(format!("SF:src/a.js\n{malformed}\nend_of_record\n").as_bytes());
        assert_eq!(
            report.counters.get(form::MALFORMED_RECORD),
            1,
            "{malformed} was not counted"
        );
    }
}

#[test]
fn fnf_is_recognised_and_a_malformed_one_is_counted() {
    let good = parse_lcov(b"SF:src/a.js\nFNF:2\nDA:1,1\nend_of_record\n");
    assert_eq!(good.counters.total(), 0);
    assert_eq!(get_lines(&good, "src/a.js"), vec![(1, 1)]);

    let bad = parse_lcov(b"SF:src/a.js\nFNF:two\nend_of_record\n");
    assert_eq!(bad.counters.get(form::MALFORMED_RECORD), 1);
}

#[test]
fn fnh_is_recognised_and_a_malformed_one_is_counted() {
    let good = parse_lcov(b"SF:src/a.js\nFNF:2\nFNH:1\nDA:1,1\nend_of_record\n");
    assert_eq!(good.counters.total(), 0);

    let bad = parse_lcov(b"SF:src/a.js\nFNH:-1\nend_of_record\n");
    assert_eq!(bad.counters.get(form::MALFORMED_RECORD), 1);
}

#[test]
fn brda_is_recognised_and_never_modelled() {
    let good = parse_lcov(b"SF:src/a.js\nBRDA:5,0,0,3\nBRDA:5,0,1,-\nDA:5,3\nend_of_record\n");
    assert_eq!(good.counters.total(), 0);
    // Branch data contributes no lines: `DA:` is the only source of a line hit.
    assert_eq!(get_lines(&good, "src/a.js"), vec![(5, 3)]);

    for malformed in [
        "BRDA:5,0,0",
        "BRDA:5,0,0,3,9",
        "BRDA:x,0,0,3",
        "BRDA:5,0,0,x",
    ] {
        let report =
            parse_lcov(format!("SF:src/a.js\n{malformed}\nend_of_record\n").as_bytes());
        assert_eq!(
            report.counters.get(form::MALFORMED_RECORD),
            1,
            "{malformed} was not counted"
        );
    }
}

#[test]
fn brf_is_recognised_and_a_malformed_one_is_counted() {
    let good = parse_lcov(b"SF:src/a.js\nBRF:4\nDA:1,1\nend_of_record\n");
    assert_eq!(good.counters.total(), 0);

    let bad = parse_lcov(b"SF:src/a.js\nBRF:\nend_of_record\n");
    assert_eq!(bad.counters.get(form::MALFORMED_RECORD), 1);
}

#[test]
fn brh_is_recognised_and_a_malformed_one_is_counted() {
    let good = parse_lcov(b"SF:src/a.js\nBRF:4\nBRH:2\nDA:1,1\nend_of_record\n");
    assert_eq!(good.counters.total(), 0);

    let bad = parse_lcov(b"SF:src/a.js\nBRH:two\nend_of_record\n");
    assert_eq!(bad.counters.get(form::MALFORMED_RECORD), 1);
}

/// The record the whole slice is about — and the zero that must survive it.
#[test]
fn da_records_both_hit_and_explicitly_unhit_lines() {
    let report =
        parse_lcov(b"TN:\nSF:src/alpha.js\nDA:1,1\nDA:2,4\nDA:6,0\nDA:7,0\nend_of_record\n");
    assert_eq!(report.counters.total(), 0);
    assert_eq!(
        get_lines(&report, "src/alpha.js"),
        vec![(1, 1), (2, 4), (6, 0), (7, 0)],
        "DA:<line>,0 is evidence of an uncovered line and must survive the parse"
    );

    let file = &report.files[0];
    assert_eq!(file.covered_count(), 2);
    assert!(file.lines[0].is_covered());
    assert!(!file.lines[2].is_covered());
    assert_eq!(file.lines[2].hits, 0);
}

/// The optional third field is the line checksum. Recognised, ignored, never a refusal.
#[test]
fn da_accepts_the_optional_checksum_field() {
    let report = parse_lcov(b"SF:src/a.js\nDA:1,1,cfd7fcd5b3e1c0d9\nend_of_record\n");
    assert_eq!(report.counters.total(), 0);
    assert_eq!(get_lines(&report, "src/a.js"), vec![(1, 1)]);
}

#[test]
fn lh_is_recognised_and_a_malformed_one_is_counted() {
    let good = parse_lcov(b"SF:src/a.js\nDA:1,1\nDA:2,0\nLH:1\nLF:2\nend_of_record\n");
    assert_eq!(good.counters.total(), 0);
    assert_eq!(get_lines(&good, "src/a.js"), vec![(1, 1), (2, 0)]);

    // A summary that disagrees with the data is not resolved either way; only its shape is
    // checked, and a well-formed disagreement is not a refusal.
    let disagrees = parse_lcov(b"SF:src/a.js\nDA:1,1\nLH:99\nend_of_record\n");
    assert_eq!(disagrees.counters.total(), 0);
    assert_eq!(get_lines(&disagrees, "src/a.js"), vec![(1, 1)]);

    let bad = parse_lcov(b"SF:src/a.js\nLH:one\nend_of_record\n");
    assert_eq!(bad.counters.get(form::MALFORMED_RECORD), 1);
}

#[test]
fn lf_is_recognised_and_a_malformed_one_is_counted() {
    let good = parse_lcov(b"SF:src/a.js\nDA:1,1\nLF:1\nend_of_record\n");
    assert_eq!(good.counters.total(), 0);

    let bad = parse_lcov(b"SF:src/a.js\nLF:-2\nend_of_record\n");
    assert_eq!(bad.counters.get(form::MALFORMED_RECORD), 1);
}

/// `end_of_record` is the format's statement that a record is complete, and the only thing
/// that commits one. Two records in one report are two source files.
#[test]
fn end_of_record_closes_a_record_and_starts_the_next() {
    let report = parse_lcov(
        b"TN:\nSF:src/alpha.js\nDA:1,1\nend_of_record\n\
          TN:\nSF:src/beta.js\nDA:1,0\nend_of_record\n",
    );
    assert_eq!(report.counters.total(), 0);
    assert_eq!(
        files_of(&report),
        vec![
            ("src/alpha.js".to_string(), vec![(1, 1)]),
            ("src/beta.js".to_string(), vec![(1, 0)]),
        ]
    );
}

/// A bare `end_of_record` closes a record that named no source file.
#[test]
fn a_lone_end_of_record_is_a_record_without_a_source_file() {
    let report = parse_lcov(b"end_of_record\n");
    assert!(report.files.is_empty());
    assert_eq!(report.counters.get(form::RECORD_WITHOUT_SOURCE_FILE), 1);
}

/// An unknown record type is counted, never guessed at.
#[test]
fn an_unknown_record_type_is_counted() {
    let report = parse_lcov(b"SF:src/a.js\nVER:9\nDA:1,1\nend_of_record\n");
    assert_eq!(report.counters.get(form::UNKNOWN_RECORD), 1);
    assert_eq!(get_lines(&report, "src/a.js"), vec![(1, 1)]);
}

// ---- malformed input never panics --------------------------------------------------------

/// Cut off mid-`DA:`. The partial line is refused and the record it was in is dropped.
#[test]
fn a_report_truncated_mid_record_is_refused_rather_than_half_believed() {
    let report = parse_lcov(b"TN:\nSF:src/a.js\nDA:1,1\nDA:2");
    assert!(
        report.files.is_empty(),
        "a truncated record must not contribute coverage"
    );
    assert_eq!(report.counters.get(form::MALFORMED_RECORD), 1);
    assert_eq!(report.counters.get(form::UNTERMINATED_RECORD), 1);
}

/// Every line well-formed, but the report stops before `end_of_record`.
///
/// Dropped, not kept: without the terminator there is no way to tell a finished record from a
/// truncated one, and a truncated `DA:` list reads as "those lines never executed".
#[test]
fn a_record_with_no_end_of_record_at_eof_is_dropped_and_counted() {
    let report = parse_lcov(b"TN:\nSF:src/a.js\nDA:1,1\nDA:2,0\n");
    assert!(report.files.is_empty());
    assert_eq!(report.counters.get(form::UNTERMINATED_RECORD), 1);

    // The complete record before it survives; only the unterminated tail is lost.
    let partial = parse_lcov(b"SF:src/a.js\nDA:1,1\nend_of_record\nSF:src/b.js\nDA:1,1\n");
    assert_eq!(
        files_of(&partial),
        vec![("src/a.js".to_string(), vec![(1, 1)])]
    );
    assert_eq!(partial.counters.get(form::UNTERMINATED_RECORD), 1);
}

#[test]
fn a_record_with_no_source_file_is_refused_and_counted() {
    let report = parse_lcov(b"TN:\nDA:1,1\nDA:2,0\nLH:1\nLF:2\nend_of_record\n");
    assert!(report.files.is_empty());
    assert_eq!(report.counters.get(form::RECORD_WITHOUT_SOURCE_FILE), 1);
}

#[test]
fn a_second_source_file_inside_one_record_is_refused_and_the_first_kept() {
    let report = parse_lcov(b"SF:src/a.js\nSF:src/b.js\nDA:1,1\nend_of_record\n");
    assert_eq!(report.counters.get(form::REPEATED_SOURCE_FILE_IN_RECORD), 1);
    assert_eq!(
        files_of(&report),
        vec![("src/a.js".to_string(), vec![(1, 1)])]
    );
}

/// A line number past `u64`, and every other thing that is not a 1-based line number.
#[test]
fn absurd_line_numbers_are_refused_and_counted() {
    let report = parse_lcov(
        b"SF:src/a.js\n\
          DA:999999999999999999999,1\n\
          DA:18446744073709551616,1\n\
          DA:-1,1\n\
          DA:0,1\n\
          DA:1.5,1\n\
          DA:1,1\n\
          end_of_record\n",
    );
    assert_eq!(
        report.counters.get(form::LINE_NUMBER_UNPARSED),
        5,
        "each absurd line number must be counted, not clamped"
    );
    assert_eq!(
        get_lines(&report, "src/a.js"),
        vec![(1, 1)],
        "only the one real line survives"
    );

    let biggest = parse_lcov(b"SF:src/a.js\nDA:18446744073709551615,1\nend_of_record\n");
    assert_eq!(biggest.counters.total(), 0);
    assert_eq!(
        get_lines(&biggest, "src/a.js"),
        vec![(18_446_744_073_709_551_615, 1)]
    );
}

#[test]
fn negative_and_non_numeric_hit_counts_are_refused_and_counted() {
    let report = parse_lcov(
        b"SF:src/a.js\n\
          DA:1,-1\n\
          DA:2,many\n\
          DA:3,\n\
          DA:4,1e3\n\
          DA:5,18446744073709551616\n\
          DA:6,0\n\
          end_of_record\n",
    );
    assert_eq!(report.counters.get(form::HIT_COUNT_UNPARSED), 5);
    assert_eq!(
        get_lines(&report, "src/a.js"),
        vec![(6, 0)],
        "a refused count must not be coerced to zero — that would invent an uncovered line"
    );
}

#[test]
fn duplicate_source_file_records_merge_and_are_counted() {
    let report = parse_lcov(
        b"TN:\nSF:src/a.js\nDA:1,1\nDA:2,0\nend_of_record\n\
          TN:\nSF:src/a.js\nDA:2,3\nDA:9,0\nend_of_record\n",
    );
    assert_eq!(report.counters.get(form::DUPLICATE_SOURCE_FILE), 1);
    assert_eq!(
        files_of(&report),
        vec![(
            "src/a.js".to_string(),
            // The maximum, never the sum: with `TN:` empty there is no way to tell two runs
            // from one run recorded twice, and the maximum invents no executions.
            vec![(1, 1), (2, 3), (9, 0)]
        )]
    );
}

#[test]
fn duplicate_da_lines_for_one_line_merge_and_are_counted() {
    let report = parse_lcov(b"SF:src/a.js\nDA:1,0\nDA:1,7\nDA:1,2\nend_of_record\n");
    assert_eq!(report.counters.get(form::DUPLICATE_LINE), 2);
    assert_eq!(
        get_lines(&report, "src/a.js"),
        vec![(1, 7)],
        "a later zero must not erase an execution an earlier record stated"
    );
}

#[test]
fn crlf_and_lf_line_endings_parse_identically_even_when_mixed() {
    let lf = parse_lcov(b"TN:\nSF:src/a.js\nDA:1,1\nDA:2,0\nend_of_record\n");
    let crlf = parse_lcov(b"TN:\r\nSF:src/a.js\r\nDA:1,1\r\nDA:2,0\r\nend_of_record\r\n");
    let mixed = parse_lcov(b"TN:\r\nSF:src/a.js\nDA:1,1\r\nDA:2,0\nend_of_record\r\n");
    assert_eq!(lf, crlf);
    assert_eq!(lf, mixed);
    assert_eq!(lf.counters.total(), 0);
    assert_eq!(get_lines(&lf, "src/a.js"), vec![(1, 1), (2, 0)]);
}

#[test]
fn invalid_utf8_refuses_the_line_it_is_on_and_nothing_else() {
    let mut report = Vec::new();
    report.extend_from_slice(b"SF:src/a.js\nDA:1,1\nSF:");
    report.extend_from_slice(&[0xff, 0xfe, 0x80]);
    report.extend_from_slice(b"\nDA:2,0\nend_of_record\n");

    let parsed = parse_lcov(&report);
    assert_eq!(parsed.counters.get(form::INVALID_UTF8_LINE), 1);
    assert_eq!(
        get_lines(&parsed, "src/a.js"),
        vec![(1, 1), (2, 0)],
        "one unreadable line must not cost the rest of the record"
    );

    // A record whose only `SF:` is unreadable names no source file at all.
    let mut orphan = Vec::new();
    orphan.extend_from_slice(b"SF:");
    orphan.extend_from_slice(&[0xff]);
    orphan.extend_from_slice(b"\nDA:1,1\nend_of_record\n");
    let parsed = parse_lcov(&orphan);
    assert!(parsed.files.is_empty());
    assert_eq!(parsed.counters.get(form::INVALID_UTF8_LINE), 1);
    assert_eq!(parsed.counters.get(form::RECORD_WITHOUT_SOURCE_FILE), 1);
}

#[test]
fn an_empty_report_is_empty_rather_than_an_error() {
    let report = parse_lcov(b"");
    assert!(report.files.is_empty());
    assert_eq!(report.counters.total(), 0);
    assert_eq!(report, CoverageReport::default());
}

#[test]
fn a_report_of_only_newlines_is_empty_rather_than_an_error() {
    for bytes in [
        &b"\n"[..],
        &b"\n\n\n\n"[..],
        &b"\r\n\r\n"[..],
        &b"\n\r\n\n"[..],
    ] {
        let report = parse_lcov(bytes);
        assert!(report.files.is_empty());
        assert_eq!(
            report.counters.total(),
            0,
            "a blank line carries no claim and is not a refusal"
        );
    }
}

#[test]
fn an_empty_source_file_path_is_refused_and_counted() {
    let report = parse_lcov(b"TN:\nSF:\nDA:1,1\nend_of_record\n");
    assert!(report.files.is_empty());
    assert_eq!(report.counters.get(form::SOURCE_FILE_PATH_EMPTY), 1);
    // Having refused the only `SF:`, the record names no source file either. Both are true
    // and both are stated.
    assert_eq!(report.counters.get(form::RECORD_WITHOUT_SOURCE_FILE), 1);
}

// ---- resource bounds, each refusing and counting ------------------------------------------

#[test]
fn a_report_over_the_size_bound_is_refused_whole_and_counted() {
    let mut oversized = b"SF:src/a.js\nDA:1,1\nend_of_record\n".to_vec();
    oversized.resize(MAX_REPORT_BYTES + 1, b'\n');
    let report = parse_lcov(&oversized);
    assert!(
        report.files.is_empty(),
        "an oversized report must not be parsed as far as the bound and then stopped"
    );
    assert_eq!(report.counters.get(form::REPORT_TOO_LARGE), 1);
    assert_eq!(report.counters.total(), 1);

    // Exactly at the bound is inside it.
    let mut at_bound = b"SF:src/a.js\nDA:1,1\nend_of_record\n".to_vec();
    at_bound.resize(MAX_REPORT_BYTES, b'\n');
    let report = parse_lcov(&at_bound);
    assert_eq!(get_lines(&report, "src/a.js"), vec![(1, 1)]);
    assert_eq!(report.counters.total(), 0);
}

#[test]
fn records_past_the_record_bound_are_refused_and_counted() {
    let mut source = String::new();
    for index in 0..MAX_RECORDS + 3 {
        source.push_str(&format!("SF:src/f{index}.js\nDA:1,1\nend_of_record\n"));
    }
    let report = parse_lcov(source.as_bytes());
    assert_eq!(report.files.len(), MAX_RECORDS);
    assert_eq!(report.counters.get(form::RECORDS_EXCEEDED), 3);
    assert_eq!(report.counters.total(), 3);
}

#[test]
fn lines_past_the_per_record_bound_are_refused_and_counted() {
    let mut source = String::from("SF:src/a.js\n");
    for line in 1..=MAX_LINES_PER_RECORD as u64 + 2 {
        source.push_str(&format!("DA:{line},1\n"));
    }
    source.push_str("end_of_record\n");

    let report = parse_lcov(source.as_bytes());
    assert_eq!(report.files.len(), 1);
    assert_eq!(report.files[0].lines.len(), MAX_LINES_PER_RECORD);
    assert_eq!(report.counters.get(form::LINES_EXCEEDED), 2);
    assert_eq!(report.counters.total(), 2);
    // Refused, not truncated silently: the last line kept is the bound-th one stated.
    assert_eq!(
        report.files[0].lines[MAX_LINES_PER_RECORD - 1].line,
        MAX_LINES_PER_RECORD as u64
    );
}

// ---- a whole report, end to end ----------------------------------------------------------

#[test]
fn the_reference_report_from_adr_0008_parses_to_what_it_says() {
    let report = parse_lcov(
        b"TN:\n\
          SF:src/alpha.js\n\
          FN:1,alphaCovered\n\
          FNDA:1,alphaCovered\n\
          FNF:2\n\
          FNH:1\n\
          BRDA:3,0,0,1\n\
          BRF:1\n\
          BRH:1\n\
          DA:1,1\n\
          DA:2,1\n\
          DA:3,1\n\
          DA:6,0\n\
          DA:7,0\n\
          LH:3\n\
          LF:5\n\
          end_of_record\n\
          TN:\n\
          SF:src/beta.js\n\
          DA:1,0\n\
          LH:0\n\
          LF:1\n\
          end_of_record\n",
    );
    assert_eq!(report.counters.total(), 0);
    assert_eq!(
        files_of(&report),
        vec![
            (
                "src/alpha.js".to_string(),
                vec![(1, 1), (2, 1), (3, 1), (6, 0), (7, 0)]
            ),
            ("src/beta.js".to_string(), vec![(1, 0)]),
        ]
    );
    assert_eq!(report.files[0].covered_count(), 3);
    assert_eq!(report.files[1].covered_count(), 0);
    // Nothing in the parse names a test, because nothing in the report does.
    assert_eq!(report.counters.get(form::TEST_NAME_PRESENT), 0);
}
