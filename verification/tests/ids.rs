#![allow(unused_imports)]
use nerve::ids::{
    assertion_id, canonical_digest, content_hash, content_merkle, coverage_run_id, directory_id,
    document_id, endpoint_id, file_id, module_id, occurrence_id, repository_id, section_id,
    strip_control, symbol_id, unresolved_id, ENTITY_ID_HEX_LEN,
};
use nerve::vocab::EndpointKind::HttpRoute;
use nerve::vocab::{EndpointKind, EntityKind, Relation, UnresolvedCategory};

const PID: &str = "00000000000000000000000000000001";

#[test]
fn entity_ids_have_kind_prefix_and_fixed_length() {
    let cases = [
        (repository_id(PID), "repo"),
        (directory_id(PID, "src"), "dir"),
        (file_id(PID, "src/math.ts"), "file"),
        (module_id(PID, "src/math.ts"), "mod"),
        (
            unresolved_id(PID, "src/a.ts", UnresolvedCategory::Module, "./missing"),
            "unres",
        ),
        (document_id(PID, "docs/README.md"), "doc"),
        (section_id(PID, "docs/README.md", &["Title"], 0), "sect"),
        (coverage_run_id(PID, "coverage/lcov.info", "abc"), "cov"),
        (
            endpoint_id(
                PID,
                "api/routes.py",
                EndpointKind::HttpRoute,
                "GET",
                "/users",
            ),
            "endp",
        ),
    ];
    for (id, prefix) in cases {
        assert!(id.starts_with(&format!("{prefix}_")), "{id} lacks {prefix}");
        let hex = &id[prefix.len() + 1..];
        assert_eq!(hex.len(), ENTITY_ID_HEX_LEN);
        assert!(hex.chars().all(|c| c.is_ascii_hexdigit()));
    }
}

#[test]
fn symbol_id_rejects_non_symbol_kinds() {
    assert!(symbol_id(EntityKind::File, PID, "a.ts", "", "x", 0).is_err());
    assert!(symbol_id(EntityKind::Function, PID, "a.ts", "", "x", 0).is_ok());
}

#[test]
fn symbol_id_varies_with_every_tuple_field() {
    let base = symbol_id(EntityKind::Function, PID, "a.ts", "outer", "inner", 0).unwrap();
    let others = [
        symbol_id(EntityKind::Method, PID, "a.ts", "outer", "inner", 0).unwrap(),
        symbol_id(EntityKind::Function, "other", "a.ts", "outer", "inner", 0).unwrap(),
        symbol_id(EntityKind::Function, PID, "b.ts", "outer", "inner", 0).unwrap(),
        symbol_id(EntityKind::Function, PID, "a.ts", "elsewhere", "inner", 0).unwrap(),
        symbol_id(EntityKind::Function, PID, "a.ts", "outer", "other", 0).unwrap(),
        symbol_id(EntityKind::Function, PID, "a.ts", "outer", "inner", 1).unwrap(),
    ];
    for other in others {
        assert_ne!(base, other);
    }
}

#[test]
fn unresolved_modules_and_values_with_the_same_name_are_distinct() {
    // A file that both imports from `parse` and calls `parse()` must not merge the two.
    let module = unresolved_id(PID, "src/a.ts", UnresolvedCategory::Module, "parse");
    let value = unresolved_id(PID, "src/a.ts", UnresolvedCategory::Value, "parse");
    assert_ne!(module, value);
    // The discriminator must not be forgeable by moving text between fields either.
    assert_ne!(
        unresolved_id(PID, "src/a.ts", UnresolvedCategory::Value, "parse"),
        unresolved_id(PID, "src/a.tsvalue", UnresolvedCategory::Value, "parse")
    );
}

#[test]
fn a_heading_cannot_forge_another_sections_identity() {
    // 1. A literal unit separator inside a heading must not merge two tuple fields.
    let honest = section_id(PID, "docs/a.md", &["Parent", "Child"], 0);
    let forged = section_id(PID, "docs/a.md", &["Parent\u{1f}Child"], 0);
    assert_ne!(
        honest, forged,
        "a 0x1f in a heading forged a nested section"
    );

    // The strip must not be reversible either: two different forgeries that only differ in
    // control characters land on the same id as the plain text they decorate, which is the
    // point — the control characters are simply not part of identity.
    assert_eq!(
        section_id(PID, "docs/a.md", &["Plain"], 0),
        section_id(PID, "docs/a.md", &["Pl\u{1f}ain"], 0)
    );
    assert_eq!(strip_control("a\u{0}b\u{1f}c\n"), "abc");

    // 2. A `>` inside a heading must not forge a differently nested section. `#A>B / ##C`
    //    and `#A / ##B / ###C` are different structures in the same document.
    assert_ne!(
        section_id(PID, "docs/a.md", &["A>B", "C"], 0),
        section_id(PID, "docs/a.md", &["A", "B", "C"], 0),
        "a `>` in a heading forged a section at another nesting level"
    );

    // 3. The ordinal is a field of its own and cannot be absorbed into the heading either.
    assert_ne!(
        section_id(PID, "docs/a.md", &["Repeat"], 1),
        section_id(PID, "docs/a.md", &["Repeat", "1"], 0)
    );
}

#[test]
fn section_id_varies_with_every_tuple_field() {
    let base = section_id(PID, "docs/a.md", &["Top", "Inner"], 0);
    for other in [
        section_id("other", "docs/a.md", &["Top", "Inner"], 0),
        section_id(PID, "docs/b.md", &["Top", "Inner"], 0),
        section_id(PID, "docs/a.md", &["Top", "Other"], 0),
        section_id(PID, "docs/a.md", &["Other", "Inner"], 0),
        section_id(PID, "docs/a.md", &["Inner"], 0),
        section_id(PID, "docs/a.md", &["Top", "Inner"], 1),
    ] {
        assert_ne!(base, other);
    }
}

/// A document is identified by its path, exactly as a module is, and the two must not
/// collide even though their tuples carry the same path.
#[test]
fn document_and_module_identities_are_domain_separated() {
    assert_ne!(
        document_id(PID, "docs/README.md")[4..],
        module_id(PID, "docs/README.md")[4..]
    );
    assert_ne!(document_id(PID, "docs/a.md"), document_id(PID, "docs/b.md"));
}

/// Two runs of the same suite land at the same path. They are different measurements, and
/// the new one must not inherit the old one's edges.
#[test]
fn a_coverage_run_is_identified_by_its_path_and_its_bytes() {
    let base = coverage_run_id(PID, "coverage/lcov.info", "h1");
    for other in [
        coverage_run_id("other", "coverage/lcov.info", "h1"),
        coverage_run_id(PID, "coverage/other.info", "h1"),
        coverage_run_id(PID, "coverage/lcov.info", "h2"),
    ] {
        assert_ne!(base, other);
    }
    assert_eq!(base, coverage_run_id(PID, "coverage/lcov.info", "h1"));
    // Four fields, so the tuple cannot be forged by moving text across a separator.
    assert_ne!(
        coverage_run_id(PID, "coverage/lcov.info", "h1"),
        coverage_run_id(PID, "coverage/lcov.infoh1", "")
    );
}

/// A route path is repository text an attacker writes, so the endpoint tuple gets the same
/// treatment a heading does: every field separate, control characters stripped.
#[test]
fn an_endpoint_address_cannot_forge_another_endpoints_identity() {
    let base = endpoint_id(PID, "api/routes.py", HttpRoute, "GET", "/users");
    for other in [
        endpoint_id("other", "api/routes.py", HttpRoute, "GET", "/users"),
        endpoint_id(PID, "api/other.py", HttpRoute, "GET", "/users"),
        endpoint_id(PID, "api/routes.py", HttpRoute, "POST", "/users"),
        endpoint_id(PID, "api/routes.py", HttpRoute, "GET", "/items"),
    ] {
        assert_ne!(base, other);
    }
    assert_eq!(
        base,
        endpoint_id(PID, "api/routes.py", HttpRoute, "GET", "/users"),
        "the same declared address in the same module is the same endpoint"
    );

    // A space is ordinary in neither field, but it is the character the canonical name joins
    // them with, so a joined tuple would collide these two.
    assert_ne!(
        endpoint_id(PID, "api/routes.py", HttpRoute, "GET", "/a /b"),
        endpoint_id(PID, "api/routes.py", HttpRoute, "GET /a", "/b")
    );
    // And the unit separator cannot be smuggled through either field.
    assert_ne!(
        endpoint_id(PID, "api/routes.py", HttpRoute, "GET", "/users"),
        endpoint_id(
            PID,
            "api/routes.py\u{1f}http_route",
            HttpRoute,
            "GET",
            "/users"
        )
    );
    assert_eq!(
        endpoint_id(PID, "api/routes.py", HttpRoute, "GET", "/us\u{1f}ers"),
        endpoint_id(PID, "api/routes.py", HttpRoute, "GET", "/users")
    );

    // An endpoint and a module at the same path are domain-separated.
    assert_ne!(
        endpoint_id(PID, "api/routes.py", HttpRoute, "GET", "/users")[5..],
        module_id(PID, "api/routes.py")[4..]
    );
}

#[test]
fn unresolved_id_varies_with_importer_and_name() {
    let base = unresolved_id(PID, "src/a.ts", UnresolvedCategory::Value, "parse");
    assert_ne!(
        base,
        unresolved_id(PID, "src/b.ts", UnresolvedCategory::Value, "parse")
    );
    assert_ne!(
        base,
        unresolved_id(PID, "src/a.ts", UnresolvedCategory::Value, "other")
    );
}

#[test]
fn unit_separator_prevents_field_concatenation_collisions() {
    // ("a", "bc") must not equal ("ab", "c").
    assert_ne!(
        canonical_digest(&["a", "bc"]),
        canonical_digest(&["ab", "c"])
    );
}

#[test]
fn project_id_domain_separates_kinds_with_identical_paths() {
    assert_ne!(
        file_id(PID, "src/math.ts")[5..],
        module_id(PID, "src/math.ts")[4..]
    );
}

#[test]
fn ids_are_deterministic() {
    assert_eq!(
        symbol_id(EntityKind::Class, PID, "a.ts", "", "C", 3).unwrap(),
        symbol_id(EntityKind::Class, PID, "a.ts", "", "C", 3).unwrap()
    );
    assert_eq!(
        occurrence_id("e", "a.ts", 1, 2),
        occurrence_id("e", "a.ts", 1, 2)
    );
    assert_eq!(
        assertion_id("a", Relation::Defines, "b"),
        assertion_id("a", Relation::Defines, "b")
    );
}

#[test]
fn occurrence_id_is_state_independent_and_varies_with_every_field() {
    let base = occurrence_id("e", "a.ts", 1, 2);
    for other in [
        occurrence_id("other", "a.ts", 1, 2),
        occurrence_id("e", "b.ts", 1, 2),
        occurrence_id("e", "a.ts", 0, 2),
        occurrence_id("e", "a.ts", 1, 3),
    ] {
        assert_ne!(base, other);
    }
    // The tuple is four fields, so it cannot be forged by moving text across a separator.
    assert_ne!(occurrence_id("e", "a.ts", 1, 2), canonical_digest(&["e"]));
}

#[test]
fn assertion_id_is_relation_sensitive_and_directed() {
    assert_ne!(
        assertion_id("a", Relation::Defines, "b"),
        assertion_id("a", Relation::Contains, "b")
    );
    assert_ne!(
        assertion_id("a", Relation::Defines, "b"),
        assertion_id("b", Relation::Defines, "a")
    );
}

#[test]
fn content_merkle_is_order_independent_and_content_sensitive() {
    let mut forward = vec![
        ("a.ts".to_string(), "h1".to_string()),
        ("b.ts".to_string(), "h2".to_string()),
    ];
    let mut reverse = vec![
        ("b.ts".to_string(), "h2".to_string()),
        ("a.ts".to_string(), "h1".to_string()),
    ];
    assert_eq!(content_merkle(&mut forward), content_merkle(&mut reverse));

    let mut changed = vec![
        ("a.ts".to_string(), "h1".to_string()),
        ("b.ts".to_string(), "h3".to_string()),
    ];
    assert_ne!(content_merkle(&mut forward), content_merkle(&mut changed));
}
