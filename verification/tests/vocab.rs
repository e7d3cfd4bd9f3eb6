#![allow(unused_imports)]
use nerve::vocab::{
    EntityKind,
    EndpointKind,
    PathRole,
    Relation,
    UnresolvedCategory,
    EvidenceSourceType,
    Directness,
    AssertionStatus,
    ChangeKind,
    ParentCompleteness,
    ChangesEnumerated,
    WalkTermination,
    RenameEvidence,
    RenameAmbiguity,
    RenameAnalysisCompleteness,
    SummaryTruncation,
    SimilarityUnmeasured,
    FirstObservedKind,
    HistoryFreshness,
    RegistryEntryStatus,
    ContractResolutionMethod,
    ContractLinkStatus,
    ContractFreshness,
    MemoryStatus,
    MemoryView,
    MemorySubjectResolution,
};

#[test]
fn entity_kind_round_trips() {
    for kind in EntityKind::ALL {
        assert_eq!(kind.as_str().parse::<EntityKind>().unwrap(), kind);
    }
    assert!("nonsense".parse::<EntityKind>().is_err());
}

#[test]
fn entity_kind_prefixes_are_unique_and_stable() {
    let prefixes: Vec<&str> = EntityKind::ALL.iter().map(|k| k.prefix()).collect();
    let mut sorted = prefixes.clone();
    sorted.sort_unstable();
    sorted.dedup();
    assert_eq!(sorted.len(), prefixes.len(), "prefixes must be unique");
    assert_eq!(
        prefixes,
        vec![
            "repo", "dir", "file", "mod", "fn", "meth", "class", "iface", "doc", "sect",
            "unres", "cov", "endp"
        ]
    );
}

#[test]
fn the_framework_vocabulary_states_only_what_a_registration_carries() {
    assert_eq!(Relation::ServedBy.as_str(), "SERVED_BY");
    assert_eq!("SERVED_BY".parse::<Relation>().unwrap(), Relation::ServedBy);
    // The names that would assert a runtime invocation from a static registration.
    for over_claim in ["DISPATCHES_TO", "INVOKES", "ROUTES_TO", "HANDLES"] {
        assert!(over_claim.parse::<Relation>().is_err());
    }
    assert_ne!(Relation::ServedBy, Relation::Calls);

    assert_eq!(EntityKind::Endpoint.as_str(), "endpoint");
    assert_eq!(
        "endpoint".parse::<EntityKind>().unwrap(),
        EntityKind::Endpoint
    );
    assert!(!EntityKind::Endpoint.is_symbol());
    assert_eq!(EntityKind::Endpoint.path_role(), PathRole::NotAddressable);
    // `route` would be the narrow name this kind deliberately does not have.
    assert!("route".parse::<EntityKind>().is_err());
}

#[test]
fn the_endpoint_kind_vocabulary_is_closed_and_has_one_member() {
    assert_eq!(EndpointKind::ALL.len(), 1);
    assert_eq!(EndpointKind::HttpRoute.as_str(), "http_route");
    for kind in EndpointKind::ALL {
        assert_eq!(kind.as_str().parse::<EndpointKind>().unwrap(), kind);
        assert_eq!(kind.as_str().to_string(), kind.as_str());
    }
    for invented in [
        "cli_command",
        "queue_consumer",
        "scheduled_task",
        "route",
        "",
    ] {
        assert!(
            invented.parse::<EndpointKind>().is_err(),
            "{invented:?} parsed as an EndpointKind without a rule that emits it"
        );
    }
}

#[test]
fn the_coverage_vocabulary_states_only_what_the_evidence_carries() {
    assert_eq!(Relation::Covers.as_str(), "COVERS");
    assert_eq!("COVERS".parse::<Relation>().unwrap(), Relation::Covers);
    assert!("TEST_COVERS_SYMBOL".parse::<Relation>().is_err());

    assert_eq!(EntityKind::CoverageRun.as_str(), "coverage_run");
    assert_eq!(
        "coverage_run".parse::<EntityKind>().unwrap(),
        EntityKind::CoverageRun
    );
    assert!(!EntityKind::CoverageRun.is_symbol());

    assert_ne!(Relation::Covers, Relation::Calls);
}

#[test]
fn the_trace_vocabulary_states_only_what_one_execution_carries() {
    assert_eq!(Relation::TestObservedCall.as_str(), "TEST_OBSERVED_CALL");
    assert_eq!(
        "TEST_OBSERVED_CALL".parse::<Relation>().unwrap(),
        Relation::TestObservedCall
    );
    for over_claim in [
        "TRACED_CALL",
        "RUNTIME_CALL",
        "OBSERVED_CALL",
        "TEST_CALLS",
        "RUNTIME_OBSERVED_CALL",
        "FRAMEWORK_INFERRED_CALL",
    ] {
        assert!(
            over_claim.parse::<Relation>().is_err(),
            "{over_claim:?} parsed as a Relation without a rule that emits it"
        );
    }
    // Three separate members of one closed vocabulary. What the source says, what a run
    // executed, and what a run observed calling what are three different claims.
    assert_ne!(Relation::TestObservedCall, Relation::Calls);
    assert_ne!(Relation::TestObservedCall, Relation::Covers);

    // Appended, and the appending is the point: `ALL` is mirrored by index in
    // `apps/nerve-web/src/api/types.ts`.
    assert_eq!(Relation::ALL.len(), 12);
    assert_eq!(Relation::ALL[11], Relation::TestObservedCall);

    assert_eq!(EvidenceSourceType::TestCallTrace.ordinal(), 6);
    assert_eq!(EvidenceSourceType::ALL.len(), 12);
}

/// A document and a section are named by their own tuples, not by the symbol tuple. If
/// either ever became a symbol kind, `select.rs` would fold a heading into a dotted
/// qualified name that appears nowhere in the repository.
#[test]
fn documents_and_sections_are_not_symbols() {
    assert!(!EntityKind::Document.is_symbol());
    assert!(!EntityKind::Section.is_symbol());
}

/// Every kind's classification, pinned one by one.
///
/// [`EntityKind::is_symbol`] is a `matches!` over four variants, so a kind added to the
/// vocabulary is silently classified as *not* a symbol — a default, not a decision. That
/// default is load-bearing well beyond the symbol tuple it was written for: it now decides
/// which kinds `symbol_kinds_sql` puts in an `IN (…)` clause, and therefore what
/// `StatusReport::symbols_total` counts and what the interface prints beside the word
/// *symbols*. Listing all thirteen, and checking the list is exhaustive over
/// [`EntityKind::ALL`], makes a new kind fail here until someone states which it is.
#[test]
fn every_entity_kind_is_classified_as_a_symbol_or_not() {
    let pinned: [(EntityKind, bool); 13] = [
        // Named by a path, a tuple of its own, or a content hash — never by the symbol tuple.
        (EntityKind::Repository, false),
        (EntityKind::Directory, false),
        (EntityKind::File, false),
        (EntityKind::Module, false),
        (EntityKind::Document, false),
        (EntityKind::Section, false),
        (EntityKind::Unresolved, false),
        (EntityKind::CoverageRun, false),
        // An endpoint is a declaration *about* code, not code. Counting it as a symbol would
        // make `symbols_total` grow by one per route and the interface print a number of
        // "symbols" the repository does not contain.
        (EntityKind::Endpoint, false),
        // The symbol tuple's four kinds, and the whole of what "symbol" means here.
        (EntityKind::Function, true),
        (EntityKind::Method, true),
        (EntityKind::Class, true),
        (EntityKind::Interface, true),
    ];

    for (kind, expected) in pinned {
        assert_eq!(
            kind.is_symbol(),
            expected,
            "{kind:?} is classified against this list"
        );
    }

    let mut listed: Vec<EntityKind> = pinned.iter().map(|(kind, _)| *kind).collect();
    listed.sort_unstable();
    let mut all = EntityKind::ALL.to_vec();
    all.sort_unstable();
    assert_eq!(
        listed, all,
        "a kind was added to the vocabulary without a classification above"
    );

    assert_eq!(
        EntityKind::ALL.iter().filter(|k| k.is_symbol()).count(),
        4,
        "the symbol tuple names exactly four kinds"
    );
}

/// Every kind's path role, pinned one by one, for the same reason `is_symbol` is.
///
/// [`EntityKind::path_role`] decides which entities a `<rel_path>` selector may return and
/// which SQL shape finds them, so a kind added to the vocabulary without a role would be
/// silently unaddressable — a default rather than a decision. Listing all thirteen, and
/// checking the list is exhaustive over [`EntityKind::ALL`], makes a new kind fail here until
/// someone states where it lives.
#[test]
fn every_entity_kind_states_how_a_path_names_it() {
    let pinned: [(EntityKind, PathRole); 13] = [
        // `scope_path` is the path itself.
        (EntityKind::Module, PathRole::Content),
        (EntityKind::Document, PathRole::Content),
        // The path is `scope_path` joined to `name`.
        (EntityKind::File, PathRole::Container),
        (EntityKind::Directory, PathRole::Container),
        // Named by something other than a position in the tree.
        (EntityKind::Repository, PathRole::NotAddressable),
        (EntityKind::Function, PathRole::NotAddressable),
        (EntityKind::Method, PathRole::NotAddressable),
        (EntityKind::Class, PathRole::NotAddressable),
        (EntityKind::Interface, PathRole::NotAddressable),
        (EntityKind::Section, PathRole::NotAddressable),
        (EntityKind::Unresolved, PathRole::NotAddressable),
        (EntityKind::CoverageRun, PathRole::NotAddressable),
        // An endpoint's `scope_path` is the module that declares it, exactly as a section's
        // is the document that holds it. `api/routes.py` names that module, never the routes
        // declared inside it.
        (EntityKind::Endpoint, PathRole::NotAddressable),
    ];

    for (kind, expected) in pinned {
        assert_eq!(
            kind.path_role(),
            expected,
            "{kind:?} is pinned against this list"
        );
    }

    let mut listed: Vec<EntityKind> = pinned.iter().map(|(kind, _)| *kind).collect();
    listed.sort_unstable();
    let mut all = EntityKind::ALL.to_vec();
    all.sort_unstable();
    assert_eq!(
        listed, all,
        "a kind was added to the vocabulary without a path role above"
    );

    // A symbol is never addressed by a bare path: `src/app.ts` names the module or the file
    // there, never a function inside it. That is what keeps stage 2 from competing with the
    // `<rel_path>#<qualified_name>` stage.
    for kind in EntityKind::ALL {
        assert!(
            !(kind.is_symbol() && kind.path_role() != PathRole::NotAddressable),
            "{kind:?} is both a symbol and path-addressable"
        );
    }
}

#[test]
fn unresolved_category_round_trips() {
    for category in UnresolvedCategory::ALL {
        assert_eq!(
            category.as_str().parse::<UnresolvedCategory>().unwrap(),
            category
        );
    }
    assert!("nonsense".parse::<UnresolvedCategory>().is_err());
}

#[test]
fn relation_round_trips() {
    for relation in Relation::ALL {
        assert_eq!(relation.as_str().parse::<Relation>().unwrap(), relation);
    }
}

/// Every ordinal and every mask bit, pinned one by one.
///
/// `assertion_state.source_type_mask` is a **stored** integer whose bit layout is
/// `1 << ordinal`, and `ordinal` is a position in [`EvidenceSourceType::ALL`]. A variant
/// inserted anywhere but the end therefore reinterprets every mask in every database already
/// on disk, silently and unrecoverably. Spot-checking the first and last variant would not
/// catch an insertion in the middle, so each one is listed: this test is the thing that makes
/// such an insertion fail loudly at the point it is written.
#[test]
fn evidence_source_type_ordinals_and_masks_are_stable() {
    let pinned: [(EvidenceSourceType, u32, i64, &str); 12] = [
        (EvidenceSourceType::AstDirect, 0, 1, "AST_DIRECT"),
        (EvidenceSourceType::AstResolved, 1, 2, "AST_RESOLVED"),
        (EvidenceSourceType::AstHeuristic, 2, 4, "AST_HEURISTIC"),
        (EvidenceSourceType::TypeResolved, 3, 8, "TYPE_RESOLVED"),
        (EvidenceSourceType::FrameworkRule, 4, 16, "FRAMEWORK_RULE"),
        (EvidenceSourceType::TestCoverage, 5, 32, "TEST_COVERAGE"),
        (EvidenceSourceType::TestCallTrace, 6, 64, "TEST_CALL_TRACE"),
        (
            EvidenceSourceType::RuntimeCallTrace,
            7,
            128,
            "RUNTIME_CALL_TRACE",
        ),
        (
            EvidenceSourceType::DocumentStated,
            8,
            256,
            "DOCUMENT_STATED",
        ),
        (
            EvidenceSourceType::HumanConfirmed,
            9,
            512,
            "HUMAN_CONFIRMED",
        ),
        (EvidenceSourceType::LlmDerived, 10, 1024, "LLM_DERIVED"),
        (
            EvidenceSourceType::FilesystemObserved,
            11,
            2048,
            "FILESYSTEM_OBSERVED",
        ),
    ];

    assert_eq!(
        pinned.len(),
        EvidenceSourceType::ALL.len(),
        "a source type was added without pinning its ordinal and mask bit"
    );
    for (index, (source, ordinal, mask, name)) in pinned.into_iter().enumerate() {
        assert_eq!(
            EvidenceSourceType::ALL[index],
            source,
            "{name} moved position in ALL"
        );
        assert_eq!(source.ordinal(), ordinal, "{name} ordinal moved");
        assert_eq!(source.mask_bit(), mask, "{name} mask bit moved");
        assert_eq!(source.as_str(), name, "{name} canonical name changed");
        assert_eq!(name.parse::<EvidenceSourceType>().unwrap(), source);
    }
}

#[test]
fn directness_and_status_round_trip() {
    for d in Directness::ALL {
        assert_eq!(d.as_str().parse::<Directness>().unwrap(), d);
    }
    for s in AssertionStatus::ALL {
        assert_eq!(s.as_str().parse::<AssertionStatus>().unwrap(), s);
    }
}


/// Every change kind's canonical name, pinned one by one, and the one name that must not exist.
///
/// `git_change.change_kind` is `TEXT`, so the vocabulary is closed in Rust and nowhere else: a
/// variant added without a name here would be stored as whatever `as_str` happened to return.
/// `renamed` is refused deliberately — Git records no rename, so a change kind saying otherwise
/// would state as fact the one thing about history that is inferred.
#[test]
fn every_change_kind_states_its_canonical_name() {
    let pinned: [(ChangeKind, &str); 4] = [
        (ChangeKind::Added, "added"),
        (ChangeKind::Modified, "modified"),
        (ChangeKind::Deleted, "deleted"),
        // A tracked file whose bytes are identical and whose mode moved. Its own value, so
        // that neither `modified` over-claims nor an omission under-reports the commit.
        (ChangeKind::ModeChanged, "mode_changed"),
    ];

    for (kind, name) in pinned {
        assert_eq!(kind.as_str(), name, "{kind:?} is pinned against this list");
        assert_eq!(name.parse::<ChangeKind>().unwrap(), kind);
        assert_eq!(kind.as_str().to_string(), name);
    }

    let mut listed: Vec<ChangeKind> = pinned.iter().map(|(kind, _)| *kind).collect();
    listed.sort_unstable();
    let mut all = ChangeKind::ALL.to_vec();
    all.sort_unstable();
    assert_eq!(
        listed, all,
        "a change kind was added to the vocabulary without a canonical name above"
    );

    for invented in ["renamed", "copied", "unmerged", "type_changed", ""] {
        assert!(
            invented.parse::<ChangeKind>().is_err(),
            "{invented:?} parsed as a ChangeKind without a diff rule that produces it"
        );
    }
}

/// Every parent-completeness value, and the one consequence each is allowed to have.
///
/// The second column is the claim this whole vocabulary exists to control. Exactly one value
/// permits *"the project's history begins here"*, and a value added to
/// [`ParentCompleteness::ALL`] without an answer here fails this test rather than inheriting
/// one — the same reason `EntityKind::path_role` is pinned kind by kind.
#[test]
fn every_parent_completeness_states_whether_history_may_begin_there() {
    let pinned: [(ParentCompleteness, &str, bool); 5] = [
        // The beginning, and the only value that is.
        (ParentCompleteness::Root, "root", true),
        // Declared and expected: "earliest commit visible in this checkout".
        (
            ParentCompleteness::ShallowBoundary,
            "shallow_boundary",
            false,
        ),
        // Its history is demonstrably in front of it.
        (
            ParentCompleteness::ParentsAvailable,
            "parents_available",
            false,
        ),
        // A fault, not a boundary. Never to be reported as shallow.
        (ParentCompleteness::ParentsMissing, "parents_missing", false),
        // Undecidable. Neither shallow nor corrupt may be asserted.
        (
            ParentCompleteness::ParentsUnverifiable,
            "parents_unverifiable",
            false,
        ),
    ];

    for (value, name, may_claim) in pinned {
        assert_eq!(
            value.as_str(),
            name,
            "{value:?} is pinned against this list"
        );
        assert_eq!(name.parse::<ParentCompleteness>().unwrap(), value);
        assert_eq!(value.as_str().to_string(), name);
        assert_eq!(
            value.may_claim_history_begins_here(),
            may_claim,
            "{name} changed what a consumer may claim about the start of history"
        );
    }

    let mut listed: Vec<ParentCompleteness> =
        pinned.iter().map(|(value, _, _)| *value).collect();
    listed.sort_unstable();
    let mut all = ParentCompleteness::ALL.to_vec();
    all.sort_unstable();
    assert_eq!(
        listed, all,
        "a parent-completeness value was added without stating what it permits"
    );

    assert_eq!(
        ParentCompleteness::ALL
            .iter()
            .filter(|c| c.may_claim_history_begins_here())
            .count(),
        1,
        "exactly one value means the history genuinely begins here"
    );

    // The three ways this vocabulary would be wrong if it were collapsed. A shallow boundary
    // is not a root, a fault is not a boundary, and an undecidable case is neither.
    assert_ne!(
        ParentCompleteness::Root,
        ParentCompleteness::ShallowBoundary
    );
    assert_ne!(
        ParentCompleteness::ShallowBoundary,
        ParentCompleteness::ParentsMissing
    );
    assert_ne!(
        ParentCompleteness::ParentsUnverifiable,
        ParentCompleteness::ParentsMissing
    );

    for invented in ["shallow", "corrupt", "orphan", "unknown", ""] {
        assert!(
            invented.parse::<ParentCompleteness>().is_err(),
            "{invented:?} parsed as a ParentCompleteness"
        );
    }
}

/// Every reason a commit can have zero change rows, pinned one by one.
///
/// The vocabulary is what stops "no rows" being read as "nothing changed", so the names that
/// would reintroduce that ambiguity — `empty`, `none`, `no_changes` — must not parse.
#[test]
fn every_changes_enumerated_value_states_which_silence_it_is() {
    let pinned: [(ChangesEnumerated, &str); 4] = [
        // Zero rows here, and only here, means the commit changed nothing.
        (ChangesEnumerated::Enumerated, "enumerated"),
        (
            ChangesEnumerated::MergeNotEnumerated,
            "merge_not_enumerated",
        ),
        (ChangesEnumerated::ParentUnavailable, "parent_unavailable"),
        (ChangesEnumerated::Refused, "refused"),
    ];

    for (value, name) in pinned {
        assert_eq!(
            value.as_str(),
            name,
            "{value:?} is pinned against this list"
        );
        assert_eq!(name.parse::<ChangesEnumerated>().unwrap(), value);
        assert_eq!(value.as_str().to_string(), name);
    }

    let mut listed: Vec<ChangesEnumerated> = pinned.iter().map(|(value, _)| *value).collect();
    listed.sort_unstable();
    let mut all = ChangesEnumerated::ALL.to_vec();
    all.sort_unstable();
    assert_eq!(
        listed, all,
        "a changes-enumerated value was added to the vocabulary without a name above"
    );

    // A merge with no rows and an empty commit with no rows are different facts.
    assert_ne!(
        ChangesEnumerated::MergeNotEnumerated,
        ChangesEnumerated::Enumerated
    );
    // An unreadable parent and a completed diff are different facts.
    assert_ne!(
        ChangesEnumerated::ParentUnavailable,
        ChangesEnumerated::Enumerated
    );

    for invented in ["empty", "none", "no_changes", "unknown", ""] {
        assert!(
            invented.parse::<ChangesEnumerated>().is_err(),
            "{invented:?} parsed as a ChangesEnumerated and would restore the ambiguity"
        );
    }
}

/// Every walk-termination reason, pinned one by one.
///
/// `commit_budget` is the member that makes this vocabulary worth having: it is Nerve's own
/// decision to stop reading, and it must never be confused with the repository being unable to
/// go further. `complete` is refused because it would read as a claim about the history rather
/// than about the walk.
#[test]
fn every_walk_termination_reason_states_who_stopped_the_walk() {
    let pinned: [(WalkTermination, &str); 5] = [
        (WalkTermination::Exhausted, "exhausted"),
        // Nerve stopped. The history did not.
        (WalkTermination::CommitBudget, "commit_budget"),
        (WalkTermination::ShallowBoundary, "shallow_boundary"),
        (WalkTermination::MissingObject, "missing_object"),
        (WalkTermination::Refused, "refused"),
    ];

    for (value, name) in pinned {
        assert_eq!(
            value.as_str(),
            name,
            "{value:?} is pinned against this list"
        );
        assert_eq!(name.parse::<WalkTermination>().unwrap(), value);
        assert_eq!(value.as_str().to_string(), name);
    }

    let mut listed: Vec<WalkTermination> = pinned.iter().map(|(value, _)| *value).collect();
    listed.sort_unstable();
    let mut all = WalkTermination::ALL.to_vec();
    all.sort_unstable();
    assert_eq!(
        listed, all,
        "a walk-termination reason was added to the vocabulary without a name above"
    );

    // A bounded ingest of a complete repository is not a shallow one.
    assert_ne!(
        WalkTermination::CommitBudget,
        WalkTermination::ShallowBoundary
    );
    assert_ne!(WalkTermination::CommitBudget, WalkTermination::Exhausted);

    for invented in ["complete", "budget", "error", "truncated", ""] {
        assert!(
            invented.parse::<WalkTermination>().is_err(),
            "{invented:?} parsed as a WalkTermination"
        );
    }
}

#[test]
fn the_rename_vocabulary_keeps_evidence_and_ambiguity_apart() {
    assert_eq!(RenameEvidence::ALL.len(), 2);
    assert_eq!(RenameEvidence::ExactContent.as_str(), "exact_content");
    assert_eq!(RenameEvidence::SimilarContent.as_str(), "similar_content");
    for evidence in RenameEvidence::ALL {
        assert_eq!(
            evidence.as_str().parse::<RenameEvidence>().unwrap(),
            evidence
        );
        assert_eq!(evidence.as_str().to_string(), evidence.as_str());
    }
    for not_yet in ["similarity", "content_similarity", "exact", ""] {
        assert!(
            not_yet.parse::<RenameEvidence>().is_err(),
            "{not_yet:?} parsed as a RenameEvidence without a rule that emits it"
        );
    }

    // The two evidence kinds are never blended, and the notes are where a reader is told so:
    // each says the row is a hypothesis, and the similarity one says its measurement is
    // meaningless without the method and threshold that produced it.
    for evidence in RenameEvidence::ALL {
        assert!(
            evidence.note().contains("hypothesis"),
            "{evidence:?} does not say it is a hypothesis"
        );
    }
    let similar = RenameEvidence::SimilarContent.note();
    assert!(similar.contains("method"), "{similar}");
    assert!(similar.contains("threshold"), "{similar}");

    let pinned: [(RenameAmbiguity, &str); 4] = [
        // The only unambiguous shape.
        (RenameAmbiguity::Unique, "unique"),
        (RenameAmbiguity::ManyFrom, "many_from"),
        (RenameAmbiguity::ManyTo, "many_to"),
        (RenameAmbiguity::ManyBoth, "many_both"),
    ];
    for (value, name) in pinned {
        assert_eq!(
            value.as_str(),
            name,
            "{value:?} is pinned against this list"
        );
        assert_eq!(name.parse::<RenameAmbiguity>().unwrap(), value);
        assert_eq!(value.as_str().to_string(), name);
    }
    let mut listed: Vec<RenameAmbiguity> = pinned.iter().map(|(value, _)| *value).collect();
    listed.sort_unstable();
    let mut all = RenameAmbiguity::ALL.to_vec();
    all.sort_unstable();
    assert_eq!(
        listed, all,
        "a rename-ambiguity value was added to the vocabulary without a name above"
    );

    // Three of the four values mean "do not promote this pairing".
    assert_eq!(
        RenameAmbiguity::ALL
            .iter()
            .filter(|a| **a != RenameAmbiguity::Unique)
            .count(),
        3
    );

    // A score is exactly what this design does not have. No name suggesting one may parse as
    // either half of it.
    for scored in ["confidence", "score", "probable", "likely"] {
        assert!(scored.parse::<RenameEvidence>().is_err());
        assert!(scored.parse::<RenameAmbiguity>().is_err());
    }
}


/// The three vocabularies schema v7 stores, each pinned against its written-out names.
///
/// Pinned rather than generated: a stored value is a wire format, so renaming one is a
/// migration and must fail here first. The `note()` assertions are the ones that matter — three
/// of the four completeness values must say the rows present are not the whole answer, and
/// `unknown` must say it cannot be recovered, because those are the sentences that stop an
/// absence being read as a negative.
#[test]
fn the_similarity_storage_vocabularies_are_pinned_and_glossed() {
    let completeness: [(RenameAnalysisCompleteness, &str); 4] = [
        (RenameAnalysisCompleteness::Complete, "complete"),
        (RenameAnalysisCompleteness::Partial, "partial"),
        (RenameAnalysisCompleteness::RefusedBound, "refused_bound"),
        (RenameAnalysisCompleteness::NotAttempted, "not_attempted"),
    ];
    for (value, name) in completeness {
        assert_eq!(
            value.as_str(),
            name,
            "{value:?} is pinned against this list"
        );
        assert_eq!(name.parse::<RenameAnalysisCompleteness>().unwrap(), value);
        assert_eq!(value.as_str().to_string(), name);
        assert!(!value.note().is_empty());
    }
    assert_eq!(
        completeness.len(),
        RenameAnalysisCompleteness::ALL.len(),
        "a completeness value was added without a name above"
    );
    // `refused_bound` is the one that must say no row was written at all: a per-row flag
    // could not have carried it, which is why the analysis table exists.
    assert!(
        RenameAnalysisCompleteness::RefusedBound
            .note()
            .contains("no similarity hypothesis"),
        "{}",
        RenameAnalysisCompleteness::RefusedBound.note()
    );

    let truncation: [(SummaryTruncation, &str); 3] = [
        (SummaryTruncation::Complete, "complete"),
        (SummaryTruncation::Truncated, "truncated"),
        (SummaryTruncation::Unknown, "unknown"),
    ];
    for (value, name) in truncation {
        assert_eq!(
            value.as_str(),
            name,
            "{value:?} is pinned against this list"
        );
        assert_eq!(name.parse::<SummaryTruncation>().unwrap(), value);
        assert_eq!(value.as_str().to_string(), name);
        assert!(!value.note().is_empty());
    }
    assert_eq!(truncation.len(), SummaryTruncation::ALL.len());
    // The value the migration writes, and the sentence that stops it being read as `complete`.
    let unknown = SummaryTruncation::Unknown.note();
    assert!(unknown.contains("before"), "{unknown}");
    assert!(unknown.contains("cannot be recovered"), "{unknown}");

    let unmeasured: [(SimilarityUnmeasured, &str); 5] = [
        (SimilarityUnmeasured::BlobAbsent, "blob-absent"),
        (SimilarityUnmeasured::BlobUnreadable, "blob-unreadable"),
        (SimilarityUnmeasured::BlobTooLarge, "blob-too-large"),
        (SimilarityUnmeasured::BlobBinary, "blob-binary"),
        (SimilarityUnmeasured::BlobTooSmall, "blob-too-small"),
    ];
    for (value, name) in unmeasured {
        assert_eq!(
            value.as_str(),
            name,
            "{value:?} is pinned against this list"
        );
        assert_eq!(name.parse::<SimilarityUnmeasured>().unwrap(), value);
        assert_eq!(value.as_str().to_string(), name);
        assert!(!value.note().is_empty());
    }
    assert_eq!(unmeasured.len(), SimilarityUnmeasured::ALL.len());

    // A near-miss spelling is not a member of any of the three. Storage is where these names
    // live, so a value invented by typing would be a row nothing can read back.
    for invented in ["unknown_reason", "blob_absent", "refused", "truncate", ""] {
        assert!(invented.parse::<RenameAnalysisCompleteness>().is_err());
        assert!(invented.parse::<SimilarityUnmeasured>().is_err());
    }
    for invented in ["cut", "partial", "blob-absent", ""] {
        assert!(invented.parse::<SummaryTruncation>().is_err());
    }
}


/// Every first-observed value, and the one consequence each is allowed to have.
///
/// The third column is the claim this vocabulary exists to control. Exactly one value permits
/// *"the path was created then"*, and a value added to [`FirstObservedKind::ALL`] without an
/// answer here fails this test rather than inheriting one — the same discipline
/// `every_parent_completeness_states_whether_history_may_begin_there` applies one layer down.
#[test]
fn every_first_observed_kind_states_whether_creation_may_be_claimed() {
    let pinned: [(FirstObservedKind, &str, bool); 6] = [
        // The only value that may say "created", and it borrows its licence from
        // `ParentCompleteness::may_claim_history_begins_here`.
        (
            FirstObservedKind::CreatedInVisibleHistory,
            "created_in_visible_history",
            true,
        ),
        // An `added` row above an unavailable parent is an addition to what Nerve can see.
        (
            FirstObservedKind::EarliestVisibleChange,
            "earliest_visible_change",
            false,
        ),
        // The common case on a shallow clone: in the tree now, never touched in visible history.
        (
            FirstObservedKind::PresentBeforeVisibleHistory,
            "present_before_visible_history",
            false,
        ),
        // Not in the current tree, and the current tree was genuinely consulted.
        (
            FirstObservedKind::AbsentFromVisibleHistory,
            "absent_from_visible_history",
            false,
        ),
        // History syncs without an index, so the current tree may be unknowable.
        (
            FirstObservedKind::CurrentTreeUnknown,
            "current_tree_unknown",
            false,
        ),
        // Absence of an ingest is not absence of history.
        (
            FirstObservedKind::NoHistoryIngested,
            "no_history_ingested",
            false,
        ),
    ];

    for (value, name, may_claim) in pinned {
        assert_eq!(
            value.as_str(),
            name,
            "{value:?} is pinned against this list"
        );
        assert_eq!(name.parse::<FirstObservedKind>().unwrap(), value);
        assert_eq!(value.as_str().to_string(), name);
        assert_eq!(
            value.may_claim_created(),
            may_claim,
            "{name} changed what a consumer may claim about the creation of a path"
        );
    }

    // Exhaustiveness. A seventh value cannot be classified by a `_` arm somewhere else, because
    // it fails here first.
    let mut listed: Vec<FirstObservedKind> =
        pinned.iter().map(|(value, _, _)| *value).collect();
    listed.sort_unstable();
    let mut all = FirstObservedKind::ALL.to_vec();
    all.sort_unstable();
    assert_eq!(
        listed, all,
        "a first-observed value was added without stating what it permits"
    );

    assert_eq!(
        FirstObservedKind::ALL
            .iter()
            .filter(|kind| kind.may_claim_created())
            .count(),
        1,
        "exactly one value may be rendered as creation"
    );

    // The three pairs whose collapse is the whole class of defect this vocabulary guards.
    // "Never touched in visible history" is not "absent", and neither is "we could not look".
    assert_ne!(
        FirstObservedKind::PresentBeforeVisibleHistory,
        FirstObservedKind::AbsentFromVisibleHistory
    );
    assert_ne!(
        FirstObservedKind::CurrentTreeUnknown,
        FirstObservedKind::AbsentFromVisibleHistory
    );
    assert_ne!(
        FirstObservedKind::NoHistoryIngested,
        FirstObservedKind::AbsentFromVisibleHistory
    );

    // The names that would restore the ambiguity, and the one that would over-claim.
    for invented in [
        "created",
        "first_commit",
        "not_in_visible_history",
        "unknown",
        "",
    ] {
        assert!(
            invented.parse::<FirstObservedKind>().is_err(),
            "{invented:?} parsed as a FirstObservedKind"
        );
    }
}

#[test]
fn every_history_freshness_verdict_keeps_unknown_apart_from_current() {
    let pinned: [(HistoryFreshness, &str); 4] = [
        (HistoryFreshness::Current, "current"),
        (HistoryFreshness::Stale, "stale"),
        // Not `current`. The comparison could not be made.
        (HistoryFreshness::Unverifiable, "unverifiable"),
        (HistoryFreshness::NoHistoryIngested, "no_history_ingested"),
    ];

    for (value, name) in pinned {
        assert_eq!(
            value.as_str(),
            name,
            "{value:?} is pinned against this list"
        );
        assert_eq!(name.parse::<HistoryFreshness>().unwrap(), value);
        assert_eq!(value.as_str().to_string(), name);
    }

    let mut listed: Vec<HistoryFreshness> = pinned.iter().map(|(value, _)| *value).collect();
    listed.sort_unstable();
    let mut all = HistoryFreshness::ALL.to_vec();
    all.sort_unstable();
    assert_eq!(
        listed, all,
        "a freshness verdict was added to the vocabulary without a name above"
    );

    assert_ne!(HistoryFreshness::Unverifiable, HistoryFreshness::Current);
    assert_ne!(HistoryFreshness::Unverifiable, HistoryFreshness::Stale);
    assert_ne!(
        HistoryFreshness::NoHistoryIngested,
        HistoryFreshness::Unverifiable
    );

    for invented in ["fresh", "unverified", "unknown", "ok", ""] {
        assert!(
            invented.parse::<HistoryFreshness>().is_err(),
            "{invented:?} parsed as a HistoryFreshness"
        );
    }
}

#[test]
fn every_rendered_history_value_has_its_own_note() {
    let mut notes: Vec<&'static str> = Vec::new();
    for value in WalkTermination::ALL {
        notes.push(value.note());
    }
    for value in ParentCompleteness::ALL {
        notes.push(value.note());
    }
    for value in ChangesEnumerated::ALL {
        notes.push(value.note());
    }
    for value in RenameAmbiguity::ALL {
        notes.push(value.note());
    }
    for value in RenameEvidence::ALL {
        notes.push(value.note());
    }
    for value in RenameAnalysisCompleteness::ALL {
        notes.push(value.note());
    }
    for value in SummaryTruncation::ALL {
        notes.push(value.note());
    }
    for value in SimilarityUnmeasured::ALL {
        notes.push(value.note());
    }
    assert_eq!(
        notes.len(),
        WalkTermination::ALL.len()
            + ParentCompleteness::ALL.len()
            + ChangesEnumerated::ALL.len()
            + RenameAmbiguity::ALL.len()
            + RenameEvidence::ALL.len()
            + RenameAnalysisCompleteness::ALL.len()
            + SummaryTruncation::ALL.len()
            + SimilarityUnmeasured::ALL.len()
    );
    for note in &notes {
        assert!(
            note.len() > 20,
            "{note:?} is too short to be an explanation"
        );
    }
    let mut unique = notes.clone();
    unique.sort_unstable();
    unique.dedup();
    assert_eq!(
        unique.len(),
        notes.len(),
        "two values share one sentence, so one of them is described by the other's rule"
    );

    // The one sentence that must exist, and the four that must not be said of a boundary.
    assert!(ParentCompleteness::Root
        .note()
        .contains("the project's history begins here"));
    for value in ParentCompleteness::ALL {
        if value.may_claim_history_begins_here() {
            continue;
        }
        for forbidden in [
            "history begins here",
            "first commit in project",
            "beginning of repository history",
        ] {
            assert!(
                !value.note().contains(forbidden),
                "{value:?} claims {forbidden:?}: {:?}",
                value.note()
            );
        }
    }
    // Nerve's own boundary must never read as the repository's.
    assert!(WalkTermination::CommitBudget
        .note()
        .contains("more history than this ingest read"));
    assert!(!WalkTermination::CommitBudget.note().contains("shallow"));
    // Three of the four silences must say they are not emptiness.
    assert_eq!(
        ChangesEnumerated::ALL
            .iter()
            .filter(|value| value.note().contains("not an empty commit"))
            .count(),
        2,
        "the merge and the unreadable parent each say they are not an empty commit"
    );
    assert!(ChangesEnumerated::Enumerated
        .note()
        .contains("\"nothing changed\""));
}


/// The two tombstone vocabularies, pinned, and the property that makes them tombstones.
///
/// Pinned rather than generated: both are stored, so a stored value is a wire format and
/// renaming one is a migration that must fail here first. The `note()` assertions are the load
/// bearing half — a tombstone whose prose did not say the row survives would be a tombstone in
/// name only, and `registry_entry_removed` is unanswerable the moment the row stops existing.
#[test]
fn the_registry_and_link_statuses_are_tombstones_rather_than_deletions() {
    let registry: [(RegistryEntryStatus, &str); 2] = [
        (RegistryEntryStatus::Active, "active"),
        (RegistryEntryStatus::Tombstoned, "tombstoned"),
    ];
    for (value, name) in registry {
        assert_eq!(
            value.as_str(),
            name,
            "{value:?} is pinned against this list"
        );
        assert_eq!(name.parse::<RegistryEntryStatus>().unwrap(), value);
        assert_eq!(value.as_str().to_string(), name);
    }
    let mut listed: Vec<RegistryEntryStatus> =
        registry.iter().map(|(value, _)| *value).collect();
    listed.sort_unstable();
    let mut all = RegistryEntryStatus::ALL.to_vec();
    all.sort_unstable();
    assert_eq!(
        listed, all,
        "a registry status was added to the vocabulary without a name above"
    );

    let link: [(ContractLinkStatus, &str); 2] = [
        (ContractLinkStatus::Active, "active"),
        (ContractLinkStatus::Withdrawn, "withdrawn"),
    ];
    for (value, name) in link {
        assert_eq!(
            value.as_str(),
            name,
            "{value:?} is pinned against this list"
        );
        assert_eq!(name.parse::<ContractLinkStatus>().unwrap(), value);
        assert_eq!(value.as_str().to_string(), name);
    }
    let mut listed: Vec<ContractLinkStatus> = link.iter().map(|(value, _)| *value).collect();
    listed.sort_unstable();
    let mut all = ContractLinkStatus::ALL.to_vec();
    all.sort_unstable();
    assert_eq!(
        listed, all,
        "a link status was added to the vocabulary without a name above"
    );

    // Neither retired value may read as a deletion: each must say the row is kept, because
    // `registry_entry_removed` and `contract_deleted` are reports made *from* the kept row.
    assert!(RegistryEntryStatus::Tombstoned.note().contains("kept"));
    assert!(ContractLinkStatus::Withdrawn.note().contains("kept"));

    // `deleted` and `removed` are English, not members. A near-miss name that parsed would let
    // a writer retire a row by spelling rather than by writing a timestamp.
    for invented in ["deleted", "removed", "gone", "inactive", ""] {
        assert!(
            invented.parse::<RegistryEntryStatus>().is_err(),
            "{invented:?} parsed as a RegistryEntryStatus"
        );
        assert!(
            invented.parse::<ContractLinkStatus>().is_err(),
            "{invented:?} parsed as a ContractLinkStatus"
        );
    }
}

/// Every resolution method names a declaration in a file, and nothing else may parse.
///
/// The refused names are the row's own refused sources of a link — a similar name, a matching
/// endpoint string, an embedding distance, a sibling directory. None is a declaration, and the
/// vocabulary is the one place a relaxation of that rule would be cheapest to sneak in.
#[test]
fn every_resolution_method_is_a_stated_declaration() {
    let pinned: [(ContractResolutionMethod, &str); 4] = [
        (
            ContractResolutionMethod::ManifestDeclared,
            "manifest_declared",
        ),
        (
            ContractResolutionMethod::WorkspaceDeclared,
            "workspace_declared",
        ),
        (
            ContractResolutionMethod::PathDependencyResolved,
            "path_dependency_resolved",
        ),
        (
            ContractResolutionMethod::ExportMapResolved,
            "export_map_resolved",
        ),
    ];
    for (value, name) in pinned {
        assert_eq!(
            value.as_str(),
            name,
            "{value:?} is pinned against this list"
        );
        assert_eq!(name.parse::<ContractResolutionMethod>().unwrap(), value);
        assert_eq!(value.as_str().to_string(), name);
    }
    let mut listed: Vec<ContractResolutionMethod> =
        pinned.iter().map(|(value, _)| *value).collect();
    listed.sort_unstable();
    let mut all = ContractResolutionMethod::ALL.to_vec();
    all.sort_unstable();
    assert_eq!(
        listed, all,
        "a resolution method was added to the vocabulary without a name above"
    );

    // Every value's name and prose says a file stated it.
    for value in ContractResolutionMethod::ALL {
        assert!(
            value.as_str().ends_with("_declared") || value.as_str().ends_with("_resolved"),
            "{value:?} names neither a declaration nor a resolution of one"
        );
        let note = value.note();
        assert!(
            note.contains("declar") || note.contains("manifest"),
            "{value:?} does not say what stated it: {note:?}"
        );
    }

    for refused in [
        "name_similarity",
        "endpoint_string_match",
        "embedding_similarity",
        "directory_proximity",
        "inferred",
        "",
    ] {
        assert!(
            refused.parse::<ContractResolutionMethod>().is_err(),
            "{refused:?} parsed as a ContractResolutionMethod; a link is drawn from a stated \
             declaration and from nothing else"
        );
    }
}

/// **Twelve freshness situations, and `generated_client_stale` is not one of them.**
///
/// The count is the assertion. Row 13's plan said "twelve situations" and then listed thirteen,
/// and the thirteenth rests on generated-client metadata the same document refuses — a required
/// state that could never be produced from a fixture. Pinning both the count and the name keeps
/// a future draft from re-adding it without also adding the evidence.
///
/// The two pairs that must not collapse are asserted as distinct values *and* as distinct
/// prose, because a gloss that read the same for both would collapse them where a reader is.
#[test]
fn the_twelve_contract_freshness_situations_stay_distinct() {
    assert_eq!(
        ContractFreshness::ALL.len(),
        12,
        "row 13 requires twelve situations; a thirteenth needs its own evidence and gate"
    );

    let pinned: [(ContractFreshness, &str); 12] = [
        (ContractFreshness::SourceChanged, "source_changed"),
        (ContractFreshness::TargetChanged, "target_changed"),
        (ContractFreshness::BothChanged, "both_changed"),
        (
            ContractFreshness::ContractVersionMismatch,
            "contract_version_mismatch",
        ),
        (
            ContractFreshness::TargetRepositoryMissing,
            "target_repository_missing",
        ),
        (
            ContractFreshness::TargetRepositoryMoved,
            "target_repository_moved",
        ),
        (
            ContractFreshness::ContractFileMissing,
            "contract_file_missing",
        ),
        (
            ContractFreshness::DuplicateContractIdentity,
            "duplicate_contract_identity",
        ),
        (
            ContractFreshness::ConflictingDefinitions,
            "conflicting_definitions",
        ),
        (
            ContractFreshness::TargetPartiallyIndexed,
            "target_partially_indexed",
        ),
        (ContractFreshness::ContractDeleted, "contract_deleted"),
        (
            ContractFreshness::RegistryEntryRemoved,
            "registry_entry_removed",
        ),
    ];
    for (value, name) in pinned {
        assert_eq!(
            value.as_str(),
            name,
            "{value:?} is pinned against this list"
        );
        assert_eq!(name.parse::<ContractFreshness>().unwrap(), value);
        assert_eq!(value.as_str().to_string(), name);
    }
    let mut listed: Vec<ContractFreshness> = pinned.iter().map(|(value, _)| *value).collect();
    listed.sort_unstable();
    let mut all = ContractFreshness::ALL.to_vec();
    all.sort_unstable();
    assert_eq!(
        listed, all,
        "a freshness situation was added to the vocabulary without a name above"
    );

    // The refused state, refused by name. §2.1 of the plan refuses the evidence it would rest
    // on, so a value that parsed would be a verdict nothing could ever produce.
    for unreachable in ["generated_client_stale", "current", "fresh", "stale", ""] {
        assert!(
            unreachable.parse::<ContractFreshness>().is_err(),
            "{unreachable:?} parsed as a ContractFreshness"
        );
    }

    // Missing is not moved, and the moved one says why it is the dangerous case.
    assert_ne!(
        ContractFreshness::TargetRepositoryMissing,
        ContractFreshness::TargetRepositoryMoved
    );
    let moved = ContractFreshness::TargetRepositoryMoved.note();
    assert!(moved.contains("different repository"), "{moved}");
    assert!(moved.contains("recorded repository id"), "{moved}");

    // Partially indexed is not changed, and says it is unknown rather than stale.
    assert_ne!(
        ContractFreshness::TargetPartiallyIndexed,
        ContractFreshness::TargetChanged
    );
    let partial = ContractFreshness::TargetPartiallyIndexed.note();
    assert!(partial.contains("never indexed"), "{partial}");
    assert!(partial.contains("unknown rather than stale"), "{partial}");

    // No two situations share a sentence: a duplicate gloss collapses two states where the
    // reader is, which is exactly the failure the twelve exist to prevent.
    let mut notes: Vec<&str> = ContractFreshness::ALL.iter().map(|v| v.note()).collect();
    notes.sort_unstable();
    let before = notes.len();
    notes.dedup();
    assert_eq!(notes.len(), before, "two freshness situations share prose");
}


/// **Four stored statuses, and the two derived vocabularies are not among them.**
///
/// The plan's first draft listed six "statuses" of which two were also declared never stored,
/// so its own acceptance criterion contradicted its design. The split is the correction, and
/// this is where it is enforced: no [`MemoryView`] name may parse as a [`MemoryStatus`], which
/// is what makes "derived, never stored" checkable rather than asserted.
#[test]
fn the_stored_memory_lifecycle_is_four_values_and_holds_no_derived_view() {
    let pinned: [(MemoryStatus, &str); 4] = [
        (MemoryStatus::Proposed, "proposed"),
        (MemoryStatus::Active, "active"),
        (MemoryStatus::Superseded, "superseded"),
        (MemoryStatus::Invalidated, "invalidated"),
    ];
    for (value, name) in pinned {
        assert_eq!(
            value.as_str(),
            name,
            "{value:?} is pinned against this list"
        );
        assert_eq!(name.parse::<MemoryStatus>().unwrap(), value);
        assert_eq!(value.as_str().to_string(), name);
        assert!(!value.note().is_empty());
    }
    let mut listed: Vec<MemoryStatus> = pinned.iter().map(|(value, _)| *value).collect();
    listed.sort_unstable();
    let mut all = MemoryStatus::ALL.to_vec();
    all.sort_unstable();
    assert_eq!(
        listed, all,
        "a memory status was added to the stored vocabulary without a name above"
    );
    assert_eq!(MemoryStatus::ALL.len(), 4);

    // The derived views are not storable statuses. A writer that reached for one gets an
    // error from `FromStr` rather than a column quietly holding a query's opinion.
    for derived in MemoryView::ALL {
        assert!(
            derived.as_str().parse::<MemoryStatus>().is_err(),
            "`{derived:?}` parsed as a stored MemoryStatus"
        );
    }
    for absent in ["stale", "confirmed", "deleted", "removed", ""] {
        assert!(
            absent.parse::<MemoryStatus>().is_err(),
            "{absent:?} parsed as a MemoryStatus"
        );
    }

    // Superseded is not invalidated, and each sentence says what the other would have claimed.
    assert_ne!(MemoryStatus::Superseded, MemoryStatus::Invalidated);
    let superseded = MemoryStatus::Superseded.note();
    assert!(
        superseded.contains("later record replaced it"),
        "{superseded}"
    );
    let invalidated = MemoryStatus::Invalidated.note();
    assert!(invalidated.contains("nothing replaced it"), "{invalidated}");

    // No two statuses share a sentence.
    let mut notes: Vec<&str> = MemoryStatus::ALL.iter().map(|v| v.note()).collect();
    notes.sort_unstable();
    let before = notes.len();
    notes.dedup();
    assert_eq!(notes.len(), before, "two memory statuses share prose");
}

/// **A shared subject is not a contradiction, and the prose has to say so.**
///
/// `conflicted` and `multiple_active` are the two a reader will file under one another, and the
/// difference between them is the whole reason `claim_key` exists: without it the conflict rule
/// fires on any two notes about one file, which is a disagreement the evidence — two English
/// sentences — cannot support.
#[test]
fn the_derived_memory_views_keep_a_shared_subject_apart_from_a_disagreement() {
    let pinned: [(MemoryView, &str); 3] = [
        (MemoryView::PotentiallyStale, "potentially_stale"),
        (MemoryView::Conflicted, "conflicted"),
        (MemoryView::MultipleActive, "multiple_active"),
    ];
    for (value, name) in pinned {
        assert_eq!(
            value.as_str(),
            name,
            "{value:?} is pinned against this list"
        );
        assert_eq!(name.parse::<MemoryView>().unwrap(), value);
        assert_eq!(value.as_str().to_string(), name);
        assert!(!value.note().is_empty());
    }
    let mut listed: Vec<MemoryView> = pinned.iter().map(|(value, _)| *value).collect();
    listed.sort_unstable();
    let mut all = MemoryView::ALL.to_vec();
    all.sort_unstable();
    assert_eq!(
        listed, all,
        "a derived memory view was added without a name above"
    );

    // The stored statuses are not views either: the separation holds in both directions.
    for stored in MemoryStatus::ALL {
        assert!(
            stored.as_str().parse::<MemoryView>().is_err(),
            "`{stored:?}` parsed as a derived MemoryView"
        );
    }

    // `multiple_active` must say it is ordinary; `conflicted` must say Nerve does not resolve
    // it. Between them that is the corrected §3, stated to the reader rather than only to the
    // schema.
    let several = MemoryView::MultipleActive.note();
    assert!(several.contains("ordinary"), "{several}");
    assert!(several.contains("no shared named claim"), "{several}");
    let conflicted = MemoryView::Conflicted.note();
    assert!(conflicted.contains("same named claim"), "{conflicted}");
    assert!(conflicted.contains("does not resolve it"), "{conflicted}");

    // And `potentially_stale` must keep saying *potentially*: a re-index is not a refutation.
    let stale = MemoryView::PotentiallyStale.note();
    assert!(
        stale.contains("not evidence that it stopped being true"),
        "{stale}"
    );

    let mut notes: Vec<&str> = MemoryView::ALL.iter().map(|v| v.note()).collect();
    notes.sort_unstable();
    let before = notes.len();
    notes.dedup();
    assert_eq!(notes.len(), before, "two memory views share prose");
}

/// **Five verdicts, and `missing` is never the answer to "I could not check".**
///
/// The link verdict is the one that earns the snapshot design, and its sentence has to say the
/// attachment came from a recorded link rather than from two names looking alike, and a reader
/// cannot tell which happened from the value alone.
#[test]
fn every_memory_subject_verdict_says_the_record_is_still_readable() {
    let pinned: [(MemorySubjectResolution, &str); 5] = [
        (MemorySubjectResolution::Resolved, "resolved"),
        (
            MemorySubjectResolution::ResolvedThroughIdentityLink,
            "resolved_through_identity_link",
        ),
        (MemorySubjectResolution::Missing, "missing"),
        (MemorySubjectResolution::Ambiguous, "ambiguous"),
        (
            MemorySubjectResolution::RepositoryStateUnavailable,
            "repository_state_unavailable",
        ),
    ];
    for (value, name) in pinned {
        assert_eq!(
            value.as_str(),
            name,
            "{value:?} is pinned against this list"
        );
        assert_eq!(name.parse::<MemorySubjectResolution>().unwrap(), value);
        assert_eq!(value.as_str().to_string(), name);
        assert!(!value.note().is_empty());
    }
    let mut listed: Vec<MemorySubjectResolution> =
        pinned.iter().map(|(value, _)| *value).collect();
    listed.sort_unstable();
    let mut all = MemorySubjectResolution::ALL.to_vec();
    all.sort_unstable();
    assert_eq!(
        listed, all,
        "a subject verdict was added to the vocabulary without a name above"
    );

    // The link path says a link established it, and refuses the alternative by name.
    let linked = MemorySubjectResolution::ResolvedThroughIdentityLink.note();
    assert!(linked.contains("identity link"), "{linked}");
    assert!(
        linked.contains("never because two names looked alike"),
        "{linked}"
    );

    // Unknown is not missing, and the sentence says which one is being claimed.
    assert_ne!(
        MemorySubjectResolution::RepositoryStateUnavailable,
        MemorySubjectResolution::Missing
    );
    let unknown = MemorySubjectResolution::RepositoryStateUnavailable.note();
    assert!(
        unknown.contains("unknown rather than answered"),
        "{unknown}"
    );
    assert!(
        unknown.contains("claiming a deletion nothing observed"),
        "{unknown}"
    );

    // A subject that is gone is still nameable, which is the property the snapshot exists for.
    let missing = MemorySubjectResolution::Missing.note();
    assert!(missing.contains("still readable"), "{missing}");
    assert!(missing.contains("snapshot"), "{missing}");

    for absent in ["renamed", "moved", "guessed", "similar", ""] {
        assert!(
            absent.parse::<MemorySubjectResolution>().is_err(),
            "{absent:?} parsed as a MemorySubjectResolution"
        );
    }

    let mut notes: Vec<&str> = MemorySubjectResolution::ALL
        .iter()
        .map(|v| v.note())
        .collect();
    notes.sort_unstable();
    let before = notes.len();
    notes.dedup();
    assert_eq!(notes.len(), before, "two subject verdicts share prose");
}
