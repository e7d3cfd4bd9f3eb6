use nerve::contracts::declarations::{bounded_manifest, parse_manifest, pyproject_manifest, ParsedManifest};
use nerve::contracts::target::{declared_name, declared_version, entity_span, manifest_name, manifest_version, pyproject_version};
use nerve::contracts::values::{Json, JsonShape, Toml, TomlShape};
use nerve::contracts::neighbours::{is_within, resolve_target, Neighbour, TargetProbe};
use nerve::contracts::declarations::{DeclarationOutcome, DeclaredPath};
use nerve::contracts::routing::{
    budget_step, declaration_span, link_evidence, manifest_link, route_declaration, settle_declaration,
    workspace_glob_rows, BudgetStep, DeclarationStep,
};
use nerve::contracts::MAX_LINKS_PER_REPOSITORY;
use nerve::contracts::{ContractRule, ManifestRefusal, MAX_DECLARATIONS_PER_MANIFEST};

fn json_model(value: &serde_json::Value) -> Json {
    let shape = match value {
        serde_json::Value::Null => JsonShape::Null,
        serde_json::Value::Bool(b) => JsonShape::Bool(*b),
        serde_json::Value::Number(_) => JsonShape::Number,
        serde_json::Value::String(s) => JsonShape::Text(s.clone()),
        serde_json::Value::Array(items) => JsonShape::Array(items.iter().map(json_model).collect()),
        serde_json::Value::Object(map) => JsonShape::Object(
            map.iter().map(|(key, item)| (key.clone(), json_model(item))).collect(),
        ),
    };
    Json { shape, text: value.to_string() }
}

fn toml_model(value: &toml::Value) -> Toml {
    let shape = match value {
        toml::Value::String(s) => TomlShape::Text(s.clone()),
        toml::Value::Array(items) => TomlShape::Array(items.iter().map(toml_model).collect()),
        toml::Value::Table(table) => TomlShape::Table(
            table.iter().map(|(key, item)| (key.clone(), toml_model(item))).collect(),
        ),
        _ => TomlShape::Scalar,
    };
    Toml { shape, text: value.to_string() }
}

fn json(text: &str) -> Json {
    json_model(&serde_json::from_str::<serde_json::Value>(text).unwrap())
}

fn toml_document(text: &str) -> Toml {
    toml_model(&toml::Value::Table(toml::from_str::<toml::Table>(text).unwrap()))
}

#[test]
fn a_neighbour_package_names_itself_and_its_version() {
    let manifest = json(r#"{"name": "@scope/lib", "version": "1.2.3"}"#);
    assert_eq!(declared_name(&manifest), Some("@scope/lib".to_string()));
    assert_eq!(declared_version(&manifest), Some("1.2.3".to_string()));
    let silent = json(r#"{"name": 7}"#);
    assert_eq!(declared_name(&silent), None);
    assert_eq!(declared_version(&silent), None);
}

#[test]
fn a_pyproject_version_prefers_the_project_table() {
    let both = toml_document("[project]\nversion = \"2.0\"\n[tool.poetry]\nversion = \"1.0\"\n");
    assert_eq!(pyproject_version(&both), Some("2.0".to_string()));
    let poetry = toml_document("[tool.poetry]\nversion = \"1.0\"\n");
    assert_eq!(pyproject_version(&poetry), Some("1.0".to_string()));
    let neither = toml_document("[project]\nname = \"x\"\n");
    assert_eq!(pyproject_version(&neither), None);
}

#[test]
fn an_entity_span_quotes_lines_and_defaults_to_one() {
    assert_eq!(entity_span(Some(3), Some(17)), "3:17");
    assert_eq!(entity_span(None, Some(4)), "1:4");
    assert_eq!(entity_span(None, None), "1:1");
}

#[test]
fn a_manifest_over_the_declaration_bound_is_refused_whole() {
    let mut text = String::from("[project]\ndependencies = [\n");
    for index in 0..=MAX_DECLARATIONS_PER_MANIFEST {
        text.push_str(&format!("  \"dep{index} @ file:///abs/dep{index}\",\n"));
    }
    text.push_str("]\n");
    let parsed = pyproject_manifest(&text, &toml_document(&text));
    assert_eq!(parsed.declarations.len(), MAX_DECLARATIONS_PER_MANIFEST + 1);
    assert_eq!(bounded_manifest(parsed), Err(ManifestRefusal::TooManyDeclarations));
    assert_eq!(
        parse_manifest(ContractRule::PythonPathDependency, &text),
        Err(ManifestRefusal::TooManyDeclarations)
    );
    let small = ParsedManifest { declarations: vec![], workspace_paths: vec![], declined_workspace_globs: 0 };
    assert_eq!(bounded_manifest(small.clone()), Ok(small));
}

use nerve::contracts::export_links::{
    import_candidates, link_ambiguity, neighbour_verdict, specifier_refusal, usable_entries,
    SpecifierRefusal,
};
use nerve::contracts::exports::ExportOutcome;
use nerve::contracts::{Ambiguity, SupportedForm, UnresolvedReason, UnsupportedForm};

#[test]
fn only_specifiers_naming_a_declared_package_are_candidates() {
    let specifiers: Vec<String> =
        ["@scope/lib/sub", "./local", "react", "lib", "node:fs", "lib/deep/x"].iter().map(|s| s.to_string()).collect();
    let keys = vec!["lib".to_string(), "@scope/lib".to_string()];
    assert_eq!(
        import_candidates(&specifiers, &keys),
        vec![
            ("@scope/lib/sub".to_string(), "@scope/lib".to_string(), "./sub".to_string()),
            ("lib".to_string(), "lib".to_string(), ".".to_string()),
            ("lib/deep/x".to_string(), "lib".to_string(), "./deep/x".to_string()),
        ]
    );
    assert!(import_candidates(&specifiers, &[]).is_empty());
}

#[test]
fn a_neighbour_must_be_readable_and_name_the_package() {
    let manifest = json(r#"{"name": "lib", "exports": "./src/index.ts"}"#);
    assert_eq!(
        neighbour_verdict(None, "lib", "."),
        ExportOutcome::Unresolved(UnresolvedReason::TargetManifestUnreadable)
    );
    assert_eq!(
        neighbour_verdict(Some(&manifest), "other", "."),
        ExportOutcome::Unresolved(UnresolvedReason::PackageNameNotDeclared)
    );
    match neighbour_verdict(Some(&manifest), "lib", ".") {
        ExportOutcome::Resolved { form, target, .. } => {
            assert_eq!(form, SupportedForm::NpmExportsString);
            assert_eq!(target, "./src/index.ts");
        }
        other => panic!("not resolved: {other:?}"),
    }
}

#[test]
fn ambiguity_is_decided_over_the_links_produced() {
    assert_eq!(link_ambiguity(2, 2), Some(Ambiguity::ConflictingTargets));
    assert_eq!(link_ambiguity(1, 3), Some(Ambiguity::DeclaredMoreThanOnce));
    assert_eq!(link_ambiguity(1, 1), None);
    assert_eq!(link_ambiguity(0, 4), None);
}

#[test]
fn a_declined_form_is_reported_ahead_of_an_unresolved_reason() {
    let declined = [UnsupportedForm::NpmExportBlocked];
    let unresolved = [UnresolvedReason::ExportTargetMissing];
    assert_eq!(
        specifier_refusal(&declined, &unresolved),
        Some(SpecifierRefusal::Declined(UnsupportedForm::NpmExportBlocked))
    );
    assert_eq!(
        specifier_refusal(&[], &unresolved),
        Some(SpecifierRefusal::Unresolved(UnresolvedReason::ExportTargetMissing))
    );
    assert_eq!(specifier_refusal(&[], &[]), None);
}

#[test]
fn usable_entries_are_counted_and_named_once_in_order() {
    let verdicts = vec![
        Ok("reg-b".to_string()),
        Err(UnresolvedReason::TargetNotRegistered),
        Ok("reg-a".to_string()),
        Ok("reg-b".to_string()),
    ];
    assert_eq!(usable_entries(&verdicts), Ok((3, vec!["reg-a".to_string(), "reg-b".to_string()])));
    let none = vec![Err(UnresolvedReason::DeclaredPathMissing), Err(UnresolvedReason::TargetNotRegistered)];
    assert_eq!(usable_entries(&none), Err(UnresolvedReason::DeclaredPathMissing));
}

fn neighbour(registry_id: &str, expected: &str, usable: bool) -> Neighbour {
    Neighbour {
        registry_id: registry_id.to_string(),
        expected_repository_id: expected.to_string(),
        usable,
    }
}

fn repository(root: &str, id: &str) -> TargetProbe {
    TargetProbe::Repository { root: root.to_string(), repository_id: id.to_string() }
}

#[test]
fn a_registered_usable_neighbour_is_linked_by_identity() {
    let neighbours = vec![neighbour("reg-a", "repo-a", true), neighbour("reg-b", "repo-b", true)];
    assert_eq!(resolve_target("/src", &repository("/other", "repo-b"), &neighbours), Ok("reg-b".to_string()));
}

#[test]
fn the_first_entry_expecting_the_identity_decides() {
    let neighbours = vec![neighbour("reg-1", "repo-a", false), neighbour("reg-2", "repo-a", true)];
    assert_eq!(
        resolve_target("/src", &repository("/other", "repo-a"), &neighbours),
        Err(UnresolvedReason::RegistryEntryUnusable)
    );
}

#[test]
fn an_unregistered_repository_is_reported_as_such() {
    let neighbours = vec![neighbour("reg-a", "repo-a", true)];
    assert_eq!(
        resolve_target("/src", &repository("/other", "repo-z"), &neighbours),
        Err(UnresolvedReason::TargetNotRegistered)
    );
}

#[test]
fn the_scanned_repository_itself_is_not_a_neighbour() {
    let neighbours = vec![neighbour("reg-a", "repo-a", true)];
    assert_eq!(
        resolve_target("/src", &repository("/src", "repo-a"), &neighbours),
        Err(UnresolvedReason::DeclaredPathInSameRepository)
    );
}

#[test]
fn missing_and_non_root_paths_are_told_apart() {
    assert_eq!(resolve_target("/src", &TargetProbe::Missing, &[]), Err(UnresolvedReason::DeclaredPathMissing));
    assert_eq!(
        resolve_target("/src", &TargetProbe::NotARoot { canonical: Some("/src/pkg".to_string()) }, &[]),
        Err(UnresolvedReason::DeclaredPathInSameRepository)
    );
    assert_eq!(
        resolve_target("/src", &TargetProbe::NotARoot { canonical: Some("/srcx/pkg".to_string()) }, &[]),
        Err(UnresolvedReason::DeclaredPathNotARepositoryRoot)
    );
    assert_eq!(
        resolve_target("/src", &TargetProbe::NotARoot { canonical: None }, &[]),
        Err(UnresolvedReason::DeclaredPathNotARepositoryRoot)
    );
}

#[test]
fn within_compares_whole_segments() {
    assert!(is_within("/a/b", "/a"));
    assert!(is_within("/a", "/a"));
    assert!(is_within("/a/b", "/"));
    assert!(!is_within("/ab", "/a"));
    assert!(!is_within("/a", "/a/b"));
}

#[test]
fn a_manifest_its_parser_refuses_is_unparsable() {
    assert_eq!(
        parse_manifest(ContractRule::NpmLocalDependency, "{\"dependencies\": "),
        Err(ManifestRefusal::ManifestUnparsable)
    );
    assert_eq!(
        parse_manifest(ContractRule::PythonPathDependency, "[project\n"),
        Err(ManifestRefusal::ManifestUnparsable)
    );
    let parsed = parse_manifest(ContractRule::NpmLocalDependency, "{\"dependencies\": {\"a\": \"file:../a\"}}").unwrap();
    assert_eq!(parsed.declarations.len(), 1);
    assert_eq!(parsed.declarations[0].identity, "a");
}

#[test]
fn a_manifest_text_declares_its_version_and_name() {
    let package = "{\"name\": \"lib\", \"version\": \"2.1.0\"}";
    assert_eq!(manifest_version(ContractRule::NpmLocalDependency, package), Some("2.1.0".to_string()));
    assert_eq!(manifest_version(ContractRule::NpmExportResolution, package), Some("2.1.0".to_string()));
    assert_eq!(manifest_name(package), Some("lib".to_string()));
    assert_eq!(manifest_name("{\"name\": 3}"), None);
    assert_eq!(manifest_name("not json"), None);
    assert_eq!(manifest_version(ContractRule::NpmLocalDependency, "not json"), None);
    let pyproject = "[project]\nname = \"s\"\n\n[tool.poetry]\nversion = \"0.3\"\n";
    assert_eq!(manifest_version(ContractRule::PythonPathDependency, pyproject), Some("0.3".to_string()));
    let both = "[project]\nversion = \"1.0\"\n[tool.poetry]\nversion = \"0.3\"\n";
    assert_eq!(manifest_version(ContractRule::PythonPathDependency, both), Some("1.0".to_string()));
}

fn declaration(identity: &str, outcome: nerve::contracts::declarations::DeclarationOutcome) -> nerve::contracts::declarations::Declaration {
    nerve::contracts::declarations::Declaration {
        section: "dependencies".to_string(),
        identity: identity.to_string(),
        specifier: "x".to_string(),
        line: 3,
        outcome,
    }
}

#[test]
fn a_declaration_is_routed_by_what_it_was_read_as() {
    let declined = declaration("a", DeclarationOutcome::Unsupported(UnsupportedForm::NpmRegistryRange));
    match route_declaration(ContractRule::NpmLocalDependency, "package.json", &declined) {
        DeclarationStep::Declined(row) => {
            assert_eq!(row.identity, "a");
            assert_eq!(row.section, "dependencies");
            assert_eq!(row.manifest, "package.json");
            assert_eq!(row.form, UnsupportedForm::NpmRegistryRange);
        }
        _ => panic!("a declined form is recorded as declined"),
    }
    let stated = declaration("b", DeclarationOutcome::Supported {
        form: SupportedForm::NpmFilePath,
        path: DeclaredPath::Stated("../b".to_string()),
        version: None,
    });
    assert!(matches!(
        route_declaration(ContractRule::NpmLocalDependency, "package.json", &stated),
        DeclarationStep::ProbeStated { form: SupportedForm::NpmFilePath, ref path } if path == "../b"
    ));
    let member = declaration("c", DeclarationOutcome::Supported {
        form: SupportedForm::NpmWorkspaceCaret,
        path: DeclaredPath::WorkspaceMember,
        version: Some("^1".to_string()),
    });
    assert!(matches!(
        route_declaration(ContractRule::NpmLocalDependency, "package.json", &member),
        DeclarationStep::FindMember { form: SupportedForm::NpmWorkspaceCaret }
    ));
}

#[test]
fn workspace_globs_are_declined_by_position() {
    let rows = workspace_glob_rows(ContractRule::NpmLocalDependency, "package.json", 12);
    assert_eq!(rows.len(), 12);
    assert_eq!(rows[0].identity, "workspaces[0]");
    assert_eq!(rows[11].identity, "workspaces[11]");
    assert_eq!(rows[11].section, "workspaces");
    assert_eq!(rows[11].form, UnsupportedForm::NpmWorkspaceGlobPattern);
}

#[test]
fn a_settled_declaration_feeds_c2_only_from_c1() {
    let d = declaration("a", DeclarationOutcome::Unsupported(UnsupportedForm::NpmRegistryRange));
    let ok = settle_declaration(ContractRule::NpmLocalDependency, "package.json", &d, SupportedForm::NpmFilePath, &Ok("reg".to_string()));
    assert_eq!(ok.resolved, Some("reg".to_string()));
    assert!(ok.unresolved.is_none());
    let dep = ok.dependency.unwrap();
    assert_eq!(dep.key, "a");
    assert_eq!(dep.verdict, Ok("reg".to_string()));
    let missing = settle_declaration(
        ContractRule::PythonPathDependency,
        "pyproject.toml",
        &d,
        SupportedForm::PythonPoetryPath,
        &Err(UnresolvedReason::DeclaredPathMissing),
    );
    assert!(missing.resolved.is_none());
    assert!(missing.dependency.is_none());
    let row = missing.unresolved.unwrap();
    assert_eq!(row.reason, UnresolvedReason::DeclaredPathMissing);
    assert_eq!(row.form, SupportedForm::PythonPoetryPath);
    assert_eq!(row.manifest, "pyproject.toml");
}

#[test]
fn the_link_budget_stops_writing_and_is_recorded_once() {
    assert_eq!(budget_step(MAX_LINKS_PER_REPOSITORY - 1, &[]), BudgetStep::Write);
    assert_eq!(budget_step(MAX_LINKS_PER_REPOSITORY, &[]), BudgetStep::Stop { record_refusal: true });
    let already = vec![("package.json".to_string(), ManifestRefusal::LinkBudgetExhausted)];
    assert_eq!(budget_step(MAX_LINKS_PER_REPOSITORY, &already), BudgetStep::Stop { record_refusal: false });
}

#[test]
fn a_manifest_link_quotes_its_declaration() {
    assert_eq!(declaration_span(12), "12:12");
    let d = nerve::contracts::declarations::Declaration {
        section: "dependencies".to_string(),
        identity: "core".to_string(),
        specifier: "file:../core".to_string(),
        line: 7,
        outcome: DeclarationOutcome::Supported {
            form: SupportedForm::NpmFilePath,
            path: DeclaredPath::Stated("../core".to_string()),
            version: None,
        },
    };
    let evidence: serde_json::Value =
        serde_json::from_str(&link_evidence(ContractRule::NpmLocalDependency, &d, SupportedForm::NpmFilePath)).unwrap();
    assert_eq!(evidence["rule"], "npm_local_dependency");
    assert_eq!(evidence["section"], "dependencies");
    assert_eq!(evidence["form"], "npm_file_path");
    assert_eq!(evidence["specifier"], "file:../core");
    let link = manifest_link(
        ContractRule::NpmLocalDependency,
        "package.json",
        &d,
        "reg-1",
        "repo-core",
        Some("2.0.0".to_string()),
        Some(Ambiguity::DeclaredMoreThanOnce),
        true,
    );
    assert_eq!(link.source_span, "7:7");
    assert_eq!(link.form, SupportedForm::NpmFilePath);
    assert_eq!(link.resolution_method, nerve::vocab::ContractResolutionMethod::ManifestDeclared);
    assert_eq!(link.relation_semantics, "DEPENDS_ON");
    assert_eq!(link.expected_contract_version, None);
    assert_eq!(link.observed_contract_version, Some("2.0.0".to_string()));
    assert_eq!(link.registry_id, "reg-1");
    assert_eq!(link.target_repository_id, "repo-core");
    assert!(link.inserted);
}
