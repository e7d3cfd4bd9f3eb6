#![allow(unused_imports)]
use nerve::docs::{
    extract_document, status_from_header_line, AdrStatus, DocumentExtraction, DocumentScan, HeadingStyle, ScannedHeading,
    SectionDef, DECLARED_SOURCE_TYPES, MAX_RAW_STATUS_BYTES, STATUS_UNPARSED,
};
use nerve::model::Span;
use nerve::vocab::EvidenceSourceType;

const PID: &str = "00000000000000000000000000000001";

/// The headings of a document written with `#` headings only, as a Markdown scan reports them:
/// each heading's line, and its section running to the next heading at the same or a shallower
/// level.
fn scan_of(source: &str) -> DocumentScan {
    let mut starts = Vec::new();
    let mut offset = 0usize;
    for line in source.split_inclusive('\n') {
        starts.push((offset, line));
        offset += line.len();
    }
    let mut found: Vec<(usize, String, usize, usize, usize)> = Vec::new();
    for (number, (start, raw)) in starts.iter().enumerate() {
        let line = raw.strip_suffix('\n').unwrap_or(raw);
        let level = line.chars().take_while(|c| *c == '#').count();
        if (1..=6).contains(&level) && line[level..].starts_with(' ') {
            found.push((level, line[level..].trim().to_string(), *start, start + line.len(), number + 1));
        }
    }
    let mut headings = Vec::new();
    for (index, (level, text, start, end, line)) in found.iter().enumerate() {
        let closing = found[index + 1..]
            .iter()
            .find(|(next_level, ..)| next_level <= level)
            .map(|(_, _, next_start, _, next_line)| (*next_start, next_line - 1))
            .unwrap_or((source.len(), starts.len()));
        headings.push(ScannedHeading {
            level: *level,
            text: text.clone(),
            heading_span: Span {
                start_byte: *start,
                end_byte: *end,
                start_line: *line,
                start_col: 0,
                end_line: *line,
                end_col: end - start,
            },
            section_span: Span {
                start_byte: *start,
                end_byte: closing.0,
                start_line: *line,
                start_col: 0,
                end_line: closing.1.max(*line),
                end_col: 0,
            },
            style: HeadingStyle::Atx,
        });
    }
    DocumentScan {
        headings,
        line_count: source.lines().count(),
        front_matter: None,
        unsupported: Vec::new(),
    }
}

fn extract(rel_path: &str, source: &str) -> DocumentExtraction {
    extract_document(PID, rel_path, source, &scan_of(source))
}

#[test]
fn sections_nest_by_heading_level() {
    let source = "# Top\n\n## A\n\n### A1\n\n## B\n\n# Second\n";
    let extraction = extract("docs/a.md", source);
    let names: Vec<(&str, usize)> = extraction
        .sections
        .iter()
        .map(|s| (s.name.as_str(), s.level))
        .collect();
    assert_eq!(
        names,
        vec![("Top", 1), ("A", 2), ("A1", 3), ("B", 2), ("Second", 1)]
    );

    let by_name = |name: &str| {
        extraction
            .sections
            .iter()
            .find(|s| s.name == name)
            .expect(name)
    };
    assert!(by_name("Top").parent.is_none());
    assert_eq!(
        by_name("A").parent.as_deref(),
        Some(by_name("Top").entity_id.as_str())
    );
    assert_eq!(
        by_name("A1").parent.as_deref(),
        Some(by_name("A").entity_id.as_str())
    );
    assert_eq!(
        by_name("B").parent.as_deref(),
        Some(by_name("Top").entity_id.as_str())
    );
    assert!(by_name("Second").parent.is_none());
    assert_eq!(by_name("A1").heading_path, "Top>A>A1");
}

#[test]
fn a_document_whose_first_heading_is_level_three_hangs_it_off_the_document() {
    let extraction = extract("docs/a.md", "### Deep\n\n#### Deeper\n");
    assert!(extraction.sections[0].parent.is_none());
    assert_eq!(extraction.sections[0].level, 3);
    assert_eq!(
        extraction.sections[1].parent.as_deref(),
        Some(extraction.sections[0].entity_id.as_str())
    );
}

/// Two siblings with identical heading text are two sections, not one.
#[test]
fn repeated_sibling_headings_get_distinct_ordinals_and_ids() {
    let extraction = extract("docs/a.md", "# Top\n\n## Notes\n\n## Notes\n");
    let notes: Vec<&SectionDef> = extraction
        .sections
        .iter()
        .filter(|s| s.name == "Notes")
        .collect();
    assert_eq!(notes.len(), 2);
    assert_eq!(notes[0].sibling_ordinal, 0);
    assert_eq!(notes[1].sibling_ordinal, 1);
    assert_ne!(notes[0].entity_id, notes[1].entity_id);
}

/// The ordinal is scoped to the parent, so an insertion elsewhere does not churn ids.
#[test]
fn ordinals_are_scoped_to_the_parent() {
    let before = extract("docs/a.md", "# A\n\n## Notes\n\n# B\n\n## Notes\n");
    let after = extract(
        "docs/a.md",
        "# A\n\n## Notes\n\n## Extra\n\n# B\n\n## Notes\n",
    );
    let last_before = before.sections.last().unwrap();
    let last_after = after.sections.last().unwrap();
    assert_eq!(last_before.name, "Notes");
    assert_eq!(last_after.name, "Notes");
    assert_eq!(
        last_before.entity_id, last_after.entity_id,
        "inserting a section under another parent must not renumber this one"
    );
}

/// A `0x1f` in one heading must not let it claim another's identity.
#[test]
fn a_control_character_in_a_heading_cannot_collide_two_sections() {
    let extraction = extract(
        "docs/a.md",
        "# Parent\n\n## Child\n\n# Parent\u{1f}Child\n\n# Plain\n",
    );
    let ids: Vec<&str> = extraction
        .sections
        .iter()
        .map(|s| s.entity_id.as_str())
        .collect();
    let mut unique = ids.clone();
    unique.sort_unstable();
    unique.dedup();
    assert_eq!(unique.len(), ids.len(), "two sections collided: {ids:?}");
}

#[test]
fn an_angle_bracket_in_a_heading_cannot_collide_two_sections() {
    let extraction = extract("docs/a.md", "# A>B\n\n## C\n\n# A\n\n## B\n\n### C\n");
    let ids: Vec<&str> = extraction
        .sections
        .iter()
        .map(|s| s.entity_id.as_str())
        .collect();
    let mut unique = ids.clone();
    unique.sort_unstable();
    unique.dedup();
    assert_eq!(unique.len(), ids.len(), "two sections collided: {ids:?}");
}

#[test]
fn adr_recognition_by_file_name_is_case_insensitive() {
    for name in [
        "docs/decisions/ADR-0006-state.md",
        "docs/adr-0006-state.md",
        "notes/Adr-12.md",
    ] {
        let extraction = extract(name, "# Title\n");
        assert!(extraction.adr.is_adr, "{name} should be an ADR");
        assert!(extraction.adr.id.is_some());
    }
    assert_eq!(
        extract("docs/adr-0006-state.md", "# T\n").adr.id.as_deref(),
        Some("ADR-0006")
    );
    assert!(!extract("docs/README.md", "# T\n").adr.is_adr);
    assert!(
        !extract("docs/adrenaline.md", "# T\n").adr.is_adr,
        "a word starting with `adr` is not an ADR id"
    );
}

#[test]
fn a_document_in_a_decisions_directory_is_an_adr_without_an_id() {
    for path in [
        "docs/decisions/note.md",
        "docs/adr/note.md",
        "docs/ADRS/note.md",
    ] {
        let extraction = extract(path, "# Title\n");
        assert!(extraction.adr.is_adr, "{path}");
        assert!(extraction.adr.id.is_none());
    }
    assert!(!extract("docs/decisions/deeper/note.md", "# T\n").adr.is_adr);
}

/// The exact shape Nerve's own ADRs use.
#[test]
fn the_header_status_line_is_read_the_way_this_repository_writes_it() {
    let source = "# ADR-0006 — Occurrence identity\n\n\
                  **Status:** Accepted · **Date:** 2026-07-31 · **Slice:** 3b\n\
                  **Amends:** ADR-0002\n\n## Context\n\ntext\n";
    let facts = extract("docs/decisions/ADR-0006-x.md", source).adr;
    assert_eq!(facts.status, Some(AdrStatus::Accepted));
    assert_eq!(facts.status_value(), Some("Accepted"));
    assert_eq!(facts.status_line, Some(3));
    assert_eq!(facts.status_form, Some("header-line"));
}

#[test]
fn a_status_section_supplies_the_status_when_no_header_line_does() {
    let source = "# ADR-0009 — Something\n\n## Status\n\nProposed\n\n## Context\n\ntext\n";
    let facts = extract("docs/decisions/ADR-0009-x.md", source).adr;
    assert_eq!(facts.status, Some(AdrStatus::Proposed));
    assert_eq!(facts.status_form, Some("status-section"));
    assert_eq!(facts.status_line, Some(5));
}

#[test]
fn every_status_in_the_vocabulary_parses_and_nothing_else_does() {
    for status in AdrStatus::ALL {
        assert_eq!(AdrStatus::parse(status.as_str()), Some(status));
        assert_eq!(
            AdrStatus::parse(&status.as_str().to_lowercase()),
            Some(status)
        );
    }
    assert_eq!(AdrStatus::parse("Accepted-ish"), None);
    assert_eq!(AdrStatus::parse(""), None);
}

#[test]
fn an_unrecognised_status_is_recorded_unparsed_with_its_raw_text() {
    let source = "# ADR-0010\n\n**Status:** Mostly fine, probably\n\n## Context\n";
    let facts = extract("docs/decisions/ADR-0010-x.md", source).adr;
    assert_eq!(facts.status, None);
    assert_eq!(facts.status_raw.as_deref(), Some("Mostly fine, probably"));
    assert_eq!(facts.status_value(), Some(STATUS_UNPARSED));
}

#[test]
fn an_absurdly_long_status_is_refused_rather_than_stored() {
    let long = "x".repeat(MAX_RAW_STATUS_BYTES + 1);
    let source = format!("# ADR-0011\n\n**Status:** {long}\n\n## Context\n");
    let facts = extract("docs/decisions/ADR-0011-x.md", &source).adr;
    assert!(facts.status_refused_as_too_long);
    assert_eq!(facts.status_raw, None);
    assert_eq!(facts.status_value(), Some(STATUS_UNPARSED));
}

#[test]
fn an_adr_with_no_status_records_no_status_rather_than_guessing_one() {
    let facts = extract("docs/decisions/ADR-0012-x.md", "# ADR-0012\n\ntext\n").adr;
    assert_eq!(facts.status_value(), None);
    assert!(!facts.status_refused_as_too_long);
}

#[test]
fn a_document_that_is_not_an_adr_has_no_status_even_if_it_says_status() {
    let facts = extract("docs/README.md", "# R\n\n**Status:** Accepted\n").adr;
    assert!(!facts.is_adr);
    assert_eq!(facts.status_value(), None);
}

#[test]
fn an_empty_document_extracts_cleanly() {
    let extraction = extract("docs/empty.md", "");
    assert!(extraction.sections.is_empty());
    assert!(extraction.unsupported.is_empty());
    assert_eq!(extraction.file_span.start_byte, 0);
    assert_eq!(extraction.file_span.end_byte, 0);
}

#[test]
fn declared_source_types_are_document_stated_and_nothing_else() {
    assert_eq!(DECLARED_SOURCE_TYPES, [EvidenceSourceType::DocumentStated]);
}

#[test]
fn a_status_line_ends_at_its_first_middle_dot_and_sheds_its_stars() {
    assert_eq!(status_from_header_line("  **Status:** Accepted**"), Some("Accepted".to_string()));
    assert_eq!(status_from_header_line("**Status:** Proposed · later"), Some("Proposed".to_string()));
    assert_eq!(status_from_header_line("**Status:**   "), None);
    assert_eq!(status_from_header_line("Status: Accepted"), None);
}

#[test]
fn the_extraction_keeps_the_scan_counters_and_spans_the_whole_file() {
    let source = "# A\nbody\n";
    let mut scan = scan_of(source);
    scan.unsupported = vec![("html_block".to_string(), 2)];
    let extraction = extract_document(PID, "docs/a.md", source, &scan);
    assert_eq!(extraction.unsupported, vec![("html_block".to_string(), 2)]);
    assert_eq!(extraction.file_span.end_byte, source.len());
    assert_eq!(extraction.file_span.end_line, 2);
    assert_eq!(extraction.entity_id, nerve::ids::document_id(PID, "docs/a.md"));
}

#[test]
fn a_status_word_is_read_whatever_its_case_and_surrounding_white_space() {
    assert_eq!(AdrStatus::parse(" accepted "), Some(AdrStatus::Accepted));
    assert_eq!(AdrStatus::parse("\tSUPERSEDED\n"), Some(AdrStatus::Superseded));
    assert_eq!(AdrStatus::parse("pRoPoSeD"), Some(AdrStatus::Proposed));
    assert_eq!(AdrStatus::parse("accepted ok"), None);
}
