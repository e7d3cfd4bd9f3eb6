#![allow(unused_imports)]
use nerve::docref::{
    anchor_of, cached_destinations, external_scheme, innermost_covering, normalize,
    parse_line_anchor, reason, outcome, resolve_path, split_fragment, LineAnchor, LinkForm,
    LinkOutcome, RawLink, SymbolExtent,
};
use nerve::model::Span;

fn indexed(paths: &[&str]) -> Vec<String> {
    paths.iter().map(|path| (*path).to_string()).collect()
}

fn extent(
    entity_id: &str,
    start_byte: usize,
    end_byte: usize,
    lines: (usize, usize),
) -> SymbolExtent {
    SymbolExtent {
        entity_id: entity_id.to_string(),
        start_byte,
        end_byte,
        start_line: lines.0,
        end_line: lines.1,
    }
}

#[test]
fn relative_destinations_resolve_against_the_documents_own_directory() {
    let set = indexed(&["docs/guide.md", "src/app.ts", "README.md"]);
    assert_eq!(
        resolve_path("docs/index.md", "./guide.md", &set),
        Some("docs/guide.md".to_string())
    );
    assert_eq!(
        resolve_path("docs/index.md", "guide.md", &set),
        Some("docs/guide.md".to_string())
    );
    assert_eq!(
        resolve_path("docs/index.md", "../src/app.ts", &set),
        Some("src/app.ts".to_string())
    );
    assert_eq!(
        resolve_path("README.md", "docs/guide.md", &set),
        Some("docs/guide.md".to_string())
    );
}

#[test]
fn a_leading_slash_resolves_against_the_repository_root() {
    let set = indexed(&["src/app.ts"]);
    assert_eq!(
        resolve_path("docs/deep/notes.md", "/src/app.ts", &set),
        Some("src/app.ts".to_string())
    );
}

#[test]
fn climbing_above_the_root_is_refused_rather_than_clamped() {
    assert_eq!(normalize("docs/hostile.md", "../../../etc/passwd"), None);
    assert_eq!(normalize("README.md", "../secret"), None);
    // One level up from `docs/` is the root, which is still inside the repository.
    assert_eq!(
        normalize("docs/a.md", "../README.md"),
        Some("README.md".to_string())
    );
}

#[test]
fn percent_encoding_is_not_decoded() {
    let set = indexed(&["docs/my file.md"]);
    assert_eq!(resolve_path("README.md", "./docs/my%20file.md", &set), None);
    assert_eq!(
        resolve_path("README.md", "./docs/my file.md", &set),
        Some("docs/my file.md".to_string())
    );
}

#[test]
fn external_destinations_are_recognised_and_never_resolved() {
    for destination in [
        "https://example.invalid/x",
        "http://example.invalid",
        "mailto:nobody@example.invalid",
        "javascript:alert(1)",
        "//example.invalid/x",
        "ftp://example.invalid",
    ] {
        assert!(
            external_scheme(destination).is_some(),
            "{destination} was not recognised as external"
        );
        assert_eq!(resolve_path("README.md", destination, &indexed(&[])), None);
    }
    for destination in ["./a.md", "../a.md", "a.md", "/a.md", "#L1"] {
        assert_eq!(external_scheme(destination), None, "{destination}");
    }
}

#[test]
fn line_anchors_parse_only_in_the_two_supported_forms() {
    assert_eq!(
        parse_line_anchor("L12"),
        Some(LineAnchor { start: 12, end: 12 })
    );
    assert_eq!(
        parse_line_anchor("L12-L20"),
        Some(LineAnchor { start: 12, end: 20 })
    );
    for fragment in ["heading", "l12", "L", "L0", "L12-L3", "L1-2", "L1.5", ""] {
        assert_eq!(parse_line_anchor(fragment), None, "{fragment}");
    }
}

#[test]
fn the_fragment_is_split_off_before_the_path_is_read() {
    let set = indexed(&["src/app.ts"]);
    assert_eq!(
        resolve_path("README.md", "./src/app.ts#L9", &set),
        Some("src/app.ts".to_string())
    );
    assert_eq!(
        anchor_of("./src/app.ts#L9-L11"),
        Some(LineAnchor { start: 9, end: 11 })
    );
    assert_eq!(anchor_of("./src/app.ts#usage"), None);
    assert_eq!(anchor_of("https://example.invalid/#L9"), None);
}

#[test]
fn a_fragment_with_no_path_resolves_to_nothing() {
    assert_eq!(resolve_path("README.md", "#heading", &indexed(&[])), None);
    assert_eq!(split_fragment("#heading"), ("".to_string(), Some("heading".to_string())));
}

/// The nesting rule: a method inside a class covers the same line, and the method wins.
#[test]
fn the_innermost_symbol_wins_when_spans_nest() {
    let extents = vec![
        extent("class", 0, 200, (5, 12)),
        extent("method", 40, 120, (8, 11)),
        extent("other", 300, 400, (20, 25)),
    ];
    assert_eq!(
        innermost_covering(&extents, 9).map(|e| e.entity_id.as_str()),
        Some("method")
    );
    assert_eq!(
        innermost_covering(&extents, 6).map(|e| e.entity_id.as_str()),
        Some("class")
    );
    assert!(innermost_covering(&extents, 15).is_none());
    assert!(innermost_covering(&[], 1).is_none());
}

#[test]
fn two_symbols_with_identical_spans_are_ambiguous_and_resolve_to_neither() {
    let extents = vec![extent("a", 10, 50, (2, 4)), extent("b", 10, 50, (2, 4))];
    assert!(
        innermost_covering(&extents, 3).is_none(),
        "an ambiguous anchor must not be resolved by declaration order"
    );
}

#[test]
fn cached_destinations_are_deduplicated_and_sorted() {
    let link = |destination: &str| RawLink {
        destination: destination.to_string(),
        form: LinkForm::Inline,
        span: Span::none(),
    };
    assert_eq!(
        cached_destinations(&[link("./b.md"), link("./a.md"), link("./b.md")]),
        vec!["./a.md".to_string(), "./b.md".to_string()]
    );
}

#[test]
fn outcome_counter_keys_and_reasons_agree() {
    assert_eq!(
        LinkOutcome::Refused.unresolved_reason(),
        Some(reason::REFUSED)
    );
    assert_eq!(
        LinkOutcome::NotIndexed {
            path: "x".to_string()
        }
        .unresolved_reason(),
        Some(reason::TARGET_NOT_INDEXED)
    );
    let resolved = LinkOutcome::File {
        path: "src/a.ts".to_string(),
        anchor: None,
    };
    assert_eq!(resolved.unresolved_reason(), None);
    assert_eq!(resolved.counter_keys(), vec![outcome::RESOLVED_FILE]);
    assert_eq!(
        LinkOutcome::External {
            scheme: "https".to_string()
        }
        .unresolved_reason(),
        None
    );
}
