#![allow(unused_imports)]
use nerve::contracts::declarations::{
    classify_npm, classify_pep508, classify_python_source, package_manifest, parse_manifest, pep508_name,
    pyproject_manifest, DeclarationOutcome, DeclaredPath, NPM_SECTIONS, POETRY_SECTION, UV_SECTION,
};
use nerve::contracts::exports::{
    lexically_inside, resolve_export, split_specifier, subpath_depth, wildcard_matches,
    ExportOutcome,
};
use nerve::contracts::lines::{json_key_lines, toml_lines};
use nerve::contracts::scan::{
    ambiguity_by_identity, link_freshness, ContractScan, LinkRecord, RecordedLink,
    UnsupportedDeclaration,
};
use nerve::contracts::values::{Json, JsonShape, Toml, TomlShape};
use nerve::contracts::{
    Ambiguity, ContractRule, ManifestRefusal, ScanRefusal, SupportedForm, UnresolvedReason,
    UnsupportedForm, MAX_EXPORT_CONDITION_DEPTH, MAX_EXPORT_ENTRIES, MAX_EXPORT_SUBPATH_DEPTH,
};
use nerve::vocab::{ContractFreshness, ContractLinkStatus, ContractResolutionMethod};

/// A parsed JSON value, held the way the library reads it.
fn json_model(value: &serde_json::Value) -> Json {
    let shape = match value {
        serde_json::Value::Null => JsonShape::Null,
        serde_json::Value::Bool(b) => JsonShape::Bool(*b),
        serde_json::Value::Number(_) => JsonShape::Number,
        serde_json::Value::String(s) => JsonShape::Text(s.clone()),
        serde_json::Value::Array(items) => JsonShape::Array(items.iter().map(json_model).collect()),
        serde_json::Value::Object(map) => JsonShape::Object(
            map.iter().map(|(key, item)| (key.clone(), json_model(item))).collect(),
        ),
    };
    Json { shape, text: value.to_string() }
}

fn json(text: &str) -> Json {
    json_model(&serde_json::from_str::<serde_json::Value>(text).unwrap())
}

/// A parsed TOML value, held the way the library reads it.
fn toml_model(value: &toml::Value) -> Toml {
    let shape = match value {
        toml::Value::String(s) => TomlShape::Text(s.clone()),
        toml::Value::Array(items) => TomlShape::Array(items.iter().map(toml_model).collect()),
        toml::Value::Table(table) => TomlShape::Table(
            table.iter().map(|(key, item)| (key.clone(), toml_model(item))).collect(),
        ),
        _ => TomlShape::Scalar,
    };
    Toml { shape, text: value.to_string() }
}

fn toml_document(text: &str) -> toml::Value {
    toml::Value::Table(toml::from_str::<toml::Table>(text).unwrap())
}

fn supported(specifier: &str) -> SupportedForm {
    match classify_npm(specifier) {
        DeclarationOutcome::Supported { form, .. } => form,
        other => panic!("{specifier} was not supported: {other:?}"),
    }
}

fn declined(specifier: &str) -> UnsupportedForm {
    match classify_npm(specifier) {
        DeclarationOutcome::Unsupported(form) => form,
        other => panic!("{specifier} was supported: {other:?}"),
    }
}

/// Every npm form listed as supported, and each of the four `workspace:` shapes.
#[test]
fn the_npm_supported_syntax_is_exactly_the_five_forms() {
    assert_eq!(supported("file:../lib"), SupportedForm::NpmFilePath);
    assert_eq!(supported("file:/abs/lib"), SupportedForm::NpmFilePath);
    assert_eq!(supported("workspace:*"), SupportedForm::NpmWorkspaceWildcard);
    assert_eq!(supported("workspace:^"), SupportedForm::NpmWorkspaceCaret);
    assert_eq!(supported("workspace:~"), SupportedForm::NpmWorkspaceTilde);
    assert_eq!(supported("workspace:1.2.3"), SupportedForm::NpmWorkspaceVersion);
    assert_eq!(supported("workspace:^1.2.0"), SupportedForm::NpmWorkspaceVersion);
}

/// Everything else is declined with the form named, never silently dropped.
#[test]
fn every_other_npm_specifier_is_declined_with_its_form_named() {
    assert_eq!(declined("^1.2.3"), UnsupportedForm::NpmRegistryRange);
    assert_eq!(declined("~1.0"), UnsupportedForm::NpmRegistryRange);
    assert_eq!(declined("1.x"), UnsupportedForm::NpmRegistryRange);
    assert_eq!(declined("*"), UnsupportedForm::NpmRegistryRange);
    assert_eq!(declined("latest"), UnsupportedForm::NpmRegistryRange);
    assert_eq!(declined("git:whatever"), UnsupportedForm::NpmGitSpecifier);
    assert_eq!(
        declined("git+https://example.invalid/x.git"),
        UnsupportedForm::NpmGitSpecifier
    );
    assert_eq!(declined("github:owner/repo"), UnsupportedForm::NpmGitSpecifier);
    assert_eq!(declined("owner/repo"), UnsupportedForm::NpmGitSpecifier);
    assert_eq!(
        declined("https://example.invalid/x.tgz"),
        UnsupportedForm::NpmUrlSpecifier
    );
    assert_eq!(declined("npm:other@1.0.0"), UnsupportedForm::NpmAliasSpecifier);
    assert_eq!(declined("link:../lib"), UnsupportedForm::NpmUnsupportedProtocol);
    assert_eq!(declined("workspace:"), UnsupportedForm::NpmUnsupportedProtocol);
    assert_eq!(declined("workspace:../lib"), UnsupportedForm::NpmUnsupportedProtocol);
    assert_eq!(declined("file:"), UnsupportedForm::NpmUnsupportedProtocol);
}

#[test]
fn a_pep508_direct_file_url_is_supported_and_nothing_else_is() {
    let (name, outcome) = classify_pep508("pkg-core @ file:///srv/pkg-core");
    assert_eq!(name, "pkg-core");
    assert_eq!(
        outcome,
        DeclarationOutcome::Supported {
            form: SupportedForm::PythonDirectFileUrl,
            path: DeclaredPath::Stated("/srv/pkg-core".into()),
            version: None,
        }
    );

    for requirement in [
        "requests>=2.31",
        "flask",
        "pkg[extra]==1.0",
        "pkg @ https://example.invalid/pkg.tar.gz",
        "pkg @ git+https://example.invalid/pkg.git",
        // A percent-escape would need a decoder in the expression that chooses a directory.
        "pkg @ file:///srv/a%20b",
        // A relative file URL is not an absolute one.
        "pkg @ file://./relative",
    ] {
        let (_, outcome) = classify_pep508(requirement);
        assert!(
            matches!(outcome, DeclarationOutcome::Unsupported(_)),
            "{requirement} was accepted"
        );
    }
    assert_eq!(pep508_name("pkg[extra]==1.0"), "pkg");
}

#[test]
fn a_python_source_table_is_read_by_its_key() {
    let table = toml_document(
        r#"
            path_dep = { path = "../core" }
            git_dep = { git = "https://example.invalid/x.git" }
            url_dep = { url = "https://example.invalid/x.tar.gz" }
            ws_dep = { workspace = true }
            ver_dep = { version = "^1" }
            str_dep = "^2"
            odd_dep = { markers = "sys_platform == 'linux'" }
            "#,
    );
    let read = |key: &str, section: &str| {
        classify_python_source(&toml_model(table.get(key).unwrap()), section)
    };

    assert_eq!(
        read("path_dep", POETRY_SECTION),
        DeclarationOutcome::Supported {
            form: SupportedForm::PythonPoetryPath,
            path: DeclaredPath::Stated("../core".into()),
            version: None,
        }
    );
    assert_eq!(
        read("path_dep", UV_SECTION),
        DeclarationOutcome::Supported {
            form: SupportedForm::PythonUvSourcePath,
            path: DeclaredPath::Stated("../core".into()),
            version: None,
        }
    );
    assert_eq!(
        read("git_dep", POETRY_SECTION),
        DeclarationOutcome::Unsupported(UnsupportedForm::PythonGitSource)
    );
    assert_eq!(
        read("url_dep", POETRY_SECTION),
        DeclarationOutcome::Unsupported(UnsupportedForm::PythonUrlSource)
    );
    assert_eq!(
        read("ws_dep", UV_SECTION),
        DeclarationOutcome::Unsupported(UnsupportedForm::PythonWorkspaceSource)
    );
    assert_eq!(
        read("ver_dep", POETRY_SECTION),
        DeclarationOutcome::Unsupported(UnsupportedForm::PythonVersionSpecifier)
    );
    assert_eq!(
        read("str_dep", POETRY_SECTION),
        DeclarationOutcome::Unsupported(UnsupportedForm::PythonVersionSpecifier)
    );
    assert_eq!(
        read("odd_dep", POETRY_SECTION),
        DeclarationOutcome::Unsupported(UnsupportedForm::PythonUnsupportedSource)
    );
}

/// A link is quoted from a place, and two sections declaring one name are two places.
#[test]
fn a_json_key_is_located_on_its_own_line() {
    let text = "{\n  \"name\": \"app\",\n  \"dependencies\": {\n    \"a\": \"file:../a\"\n  },\n  \"devDependencies\": {\n    \"a\": \"^1\"\n  }\n}\n";
    let lines = json_key_lines(text, &NPM_SECTIONS);
    assert_eq!(lines.get("dependencies", "a"), Some(4));
    assert_eq!(lines.get("devDependencies", "a"), Some(7));
    // A key at the top level is recorded under the empty section.
    assert_eq!(lines.get("", "dependencies"), Some(3));
}

#[test]
fn a_toml_key_is_located_under_its_own_header() {
    let text = "[project]\nname = \"s\"\ndependencies = [\n  \"pkg @ file:///x\",\n]\n\n[tool.poetry.dependencies]\npkg = { path = \"../pkg\" }\n";
    let lines = toml_lines(text);
    assert_eq!(lines.header_line("project"), 1);
    assert_eq!(lines.key_line("tool.poetry.dependencies", "pkg"), 8);
    assert_eq!(lines.text_line("pkg @ file:///x", "project"), 4);
    // An unknown key falls back to its header, which is a real place in the file.
    assert_eq!(lines.key_line("tool.poetry.dependencies", "absent"), 7);
}

#[test]
fn every_vocabulary_name_is_distinct_and_lower_case() {
    let mut names: Vec<&str> = Vec::new();
    names.extend(SupportedForm::ALL.iter().map(|form| form.as_str()));
    names.extend(UnsupportedForm::ALL.iter().map(|form| form.as_str()));
    names.extend(UnresolvedReason::ALL.iter().map(|form| form.as_str()));
    names.extend(ManifestRefusal::ALL.iter().map(|form| form.as_str()));
    names.extend(ScanRefusal::ALL.iter().map(|form| form.as_str()));
    names.extend(Ambiguity::ALL.iter().map(|form| form.as_str()));
    names.extend(ContractRule::ALL.iter().map(|rule| rule.as_str()));
    let total = names.len();
    assert!(total >= 35, "only {total} names");
    for name in &names {
        assert!(
            name.chars()
                .all(|c| c.is_ascii_lowercase() || c.is_ascii_digit() || c == '_'),
            "{name} is not a canonical lower-case name"
        );
    }
    names.sort_unstable();
    names.dedup();
    assert_eq!(names.len(), total, "two vocabulary values share a name");
}

/// The mapping from form to resolution method, asserted rather than described.
#[test]
fn each_supported_form_maps_to_one_resolution_method() {
    assert_eq!(
        SupportedForm::NpmFilePath.resolution_method(),
        ContractResolutionMethod::ManifestDeclared
    );
    assert_eq!(
        SupportedForm::NpmWorkspaceWildcard.resolution_method(),
        ContractResolutionMethod::WorkspaceDeclared
    );
    assert_eq!(
        SupportedForm::NpmWorkspaceVersion.resolution_method(),
        ContractResolutionMethod::WorkspaceDeclared
    );
    assert_eq!(
        SupportedForm::PythonDirectFileUrl.resolution_method(),
        ContractResolutionMethod::ManifestDeclared
    );
    assert_eq!(
        SupportedForm::PythonPoetryPath.resolution_method(),
        ContractResolutionMethod::PathDependencyResolved
    );
    assert_eq!(
        SupportedForm::PythonUvSourcePath.resolution_method(),
        ContractResolutionMethod::PathDependencyResolved
    );
    // `export_map_resolved` belongs to C2 and to nothing else, in both directions.
    for form in SupportedForm::ALL {
        assert_eq!(
            form.resolution_method() == ContractResolutionMethod::ExportMapResolved,
            form.rule() == ContractRule::NpmExportResolution,
            "{form:?} disagrees with its own rule about export_map_resolved"
        );
    }
    assert!(SupportedForm::ALL
        .iter()
        .any(|form| form.resolution_method() == ContractResolutionMethod::ExportMapResolved));
}

fn export_of(manifest: &str, subpath: &str) -> ExportOutcome {
    resolve_export(&json(manifest), subpath)
}

fn resolved(manifest: &str, subpath: &str) -> (SupportedForm, String, Option<String>) {
    match export_of(manifest, subpath) {
        ExportOutcome::Resolved {
            form,
            target,
            condition,
            ..
        } => (form, target, condition),
        ExportOutcome::Declined(form) => panic!("{subpath} was declined: {form:?}"),
        ExportOutcome::Unresolved(reason) => panic!("{subpath} was unresolved: {reason:?}"),
    }
}

fn export_declined(manifest: &str, subpath: &str) -> UnsupportedForm {
    match export_of(manifest, subpath) {
        ExportOutcome::Declined(form) => form,
        ExportOutcome::Resolved { target, .. } => panic!("{subpath} resolved to {target}"),
        ExportOutcome::Unresolved(reason) => panic!("{subpath} was unresolved: {reason:?}"),
    }
}

/// The whole of C2's supported syntax, one assertion per form.
#[test]
fn the_export_syntax_is_exactly_the_six_forms() {
    assert_eq!(
        resolved(r#"{"exports": "./src/index.ts"}"#, "."),
        (SupportedForm::NpmExportsString, "./src/index.ts".to_string(), None)
    );
    assert_eq!(
        resolved(
            r#"{"exports": {".": "./src/index.ts", "./sub": "./src/sub.ts"}}"#,
            "./sub"
        ),
        (SupportedForm::NpmExportsSubpath, "./src/sub.ts".to_string(), None)
    );
    // The documented order: `import`, then `require`, then `default`, at every level.
    assert_eq!(
        resolved(
            r#"{"exports": {".": {"require": "./cjs.js", "import": "./esm.js", "default": "./d.js"}}}"#,
            "."
        ),
        (
            SupportedForm::NpmExportsConditional,
            "./esm.js".to_string(),
            Some("import".to_string())
        )
    );
    assert_eq!(
        resolved(
            r#"{"exports": {".": {"require": "./cjs.js", "default": "./d.js"}}}"#,
            "."
        ),
        (
            SupportedForm::NpmExportsConditional,
            "./cjs.js".to_string(),
            Some("require".to_string())
        )
    );
    assert_eq!(
        resolved(r#"{"exports": {".": {"default": "./d.js"}}}"#, "."),
        (
            SupportedForm::NpmExportsConditional,
            "./d.js".to_string(),
            Some("default".to_string())
        )
    );
    // A bare conditions object states `.` and nothing else.
    assert_eq!(
        resolved(r#"{"exports": {"import": "./esm.js"}}"#, "."),
        (
            SupportedForm::NpmExportsConditional,
            "./esm.js".to_string(),
            Some("import".to_string())
        )
    );
    assert_eq!(
        resolved(
            r#"{"exports": {".": {"import": {"default": "./deep.js"}}}}"#,
            "."
        ),
        (
            SupportedForm::NpmExportsConditional,
            "./deep.js".to_string(),
            Some("default".to_string())
        )
    );
    // Legacy, in the stated order, and only when there is no `exports` at all.
    assert_eq!(
        resolved(
            r#"{"module": "./m.ts", "main": "./x.js", "types": "./t.d.ts"}"#,
            "."
        ),
        (SupportedForm::NpmLegacyModule, "./m.ts".to_string(), None)
    );
    assert_eq!(
        resolved(r#"{"main": "src/index.ts", "types": "./t.d.ts"}"#, "."),
        (SupportedForm::NpmLegacyMain, "src/index.ts".to_string(), None)
    );
    assert_eq!(
        resolved(r#"{"types": "./t.d.ts"}"#, "."),
        (SupportedForm::NpmLegacyTypes, "./t.d.ts".to_string(), None)
    );
}

/// Everything else is declined with the form named, and the names are all different.
#[test]
fn every_other_export_shape_is_declined_with_its_form_named() {
    assert_eq!(
        export_declined(r#"{"exports": {"./*": "./src/*.ts"}}"#, "./deep"),
        UnsupportedForm::NpmExportWildcardSubpath
    );
    // An exact key still wins over a pattern that would also have matched.
    assert_eq!(
        resolved(
            r#"{"exports": {"./*": "./src/*.ts", "./sub": "./src/sub.ts"}}"#,
            "./sub"
        )
        .1,
        "./src/sub.ts"
    );
    assert_eq!(
        export_declined(r#"{"exports": {"./blocked": null}}"#, "./blocked"),
        UnsupportedForm::NpmExportBlocked
    );
    assert_eq!(
        export_declined(r#"{"exports": null}"#, "."),
        UnsupportedForm::NpmExportBlocked
    );
    // A `null` under the first condition in the order is a block, not a fall-through.
    assert_eq!(
        export_declined(
            r#"{"exports": {".": {"import": null, "default": "./d.js"}}}"#,
            "."
        ),
        UnsupportedForm::NpmExportBlocked
    );
    assert_eq!(
        export_declined(r#"{"exports": {".": {"browser": "./b.js"}}}"#, "."),
        UnsupportedForm::NpmExportUnsupportedCondition
    );
    // Nested objects up to the depth bound resolve; one more is declined.
    let nest = |levels: usize| {
        let mut text = "\"./x.js\"".to_string();
        for _ in 0..levels {
            text = format!("{{\"import\": {text}}}");
        }
        format!("{{\"exports\": {{\".\": {text}}}}}")
    };
    assert_eq!(resolved(&nest(MAX_EXPORT_CONDITION_DEPTH), ".").1, "./x.js");
    assert_eq!(
        export_declined(&nest(MAX_EXPORT_CONDITION_DEPTH + 1), "."),
        UnsupportedForm::NpmExportUnsupportedCondition
    );
    assert_eq!(
        export_declined(r#"{"exports": {".": ["./a.js", "./b.js"]}}"#, "."),
        UnsupportedForm::NpmExportNonStringTarget
    );
    assert_eq!(
        export_declined(r#"{"exports": 7}"#, "."),
        UnsupportedForm::NpmExportNonStringTarget
    );
    assert_eq!(
        export_declined(r#"{"exports": {".": "./a.ts", "import": "./b.ts"}}"#, "."),
        UnsupportedForm::NpmExportsMixedKeys
    );
    assert_eq!(
        export_declined(r#"{"exports": {".": "./src/index.ts"}}"#, "./sub"),
        UnsupportedForm::NpmExportSubpathNotDeclared
    );
    assert_eq!(
        export_declined(r#"{"exports": "./src/index.ts"}"#, "./sub"),
        UnsupportedForm::NpmExportSubpathNotDeclared
    );
    assert_eq!(
        export_declined(r#"{"main": "./src/index.ts"}"#, "./sub"),
        UnsupportedForm::NpmLegacySubpathProbe
    );
    // A package that declares nothing at all is unresolved rather than declined.
    assert!(matches!(
        export_of(r#"{"name": "pkg"}"#, "."),
        ExportOutcome::Unresolved(UnresolvedReason::TargetDeclaresNoEntryPoint)
    ));
}

/// Both C2 bounds stop a resolution and name themselves.
#[test]
fn the_export_bounds_are_reachable_and_named() {
    let deep = format!("./{}", ["x"; MAX_EXPORT_SUBPATH_DEPTH + 1].join("/"));
    assert_eq!(
        export_declined(r#"{"exports": {".": "./src/index.ts"}}"#, &deep),
        UnsupportedForm::NpmExportSubpathTooDeep
    );
    let shallow = format!("./{}", ["x"; MAX_EXPORT_SUBPATH_DEPTH].join("/"));
    assert_eq!(
        export_declined(r#"{"exports": {".": "./src/index.ts"}}"#, &shallow),
        UnsupportedForm::NpmExportSubpathNotDeclared,
        "the bound must be off by nothing: exactly MAX_EXPORT_SUBPATH_DEPTH is inside it"
    );

    let entries: Vec<String> = (0..=MAX_EXPORT_ENTRIES)
        .map(|index| format!("\"./s{index}\": \"./src/s{index}.ts\""))
        .collect();
    let oversized = format!("{{\"exports\": {{{}}}}}", entries.join(","));
    assert_eq!(
        export_declined(&oversized, "./s0"),
        UnsupportedForm::NpmExportMapTooLarge
    );
}

/// A specifier is split into the two things npm resolves it by, and nothing else is a package.
#[test]
fn a_bare_specifier_splits_into_a_package_and_a_subpath() {
    let split = |specifier: &str| {
        split_specifier(specifier).map(|(package, subpath)| (package.to_string(), subpath))
    };
    assert_eq!(split("pkg"), Some(("pkg".into(), ".".into())));
    assert_eq!(split("pkg/"), Some(("pkg".into(), ".".into())));
    assert_eq!(split("pkg/sub"), Some(("pkg".into(), "./sub".into())));
    assert_eq!(split("pkg/a/b"), Some(("pkg".into(), "./a/b".into())));
    assert_eq!(split("@scope/pkg"), Some(("@scope/pkg".into(), ".".into())));
    assert_eq!(
        split("@scope/pkg/sub"),
        Some(("@scope/pkg".into(), "./sub".into()))
    );
    // Not packages, and therefore not declarations read and declined.
    for specifier in ["./local", "../up", "/abs", "#internal", "node:fs", "@scope", ""] {
        assert_eq!(split(specifier), None, "{specifier} was read as a package");
    }
}

/// A resolved export path may not leave the neighbour, and the two ways it fails are different
/// facts.
#[test]
fn an_export_path_that_leaves_the_target_is_refused_before_the_filesystem_is_touched() {
    for declared in ["../outside.ts", "../../outside.ts", "/etc/passwd", "a\\b"] {
        assert!(
            !lexically_inside(declared),
            "{declared} was accepted as inside the target"
        );
    }
    for declared in ["./src/index.ts", "src/index.ts", "./a/../b.ts", "./a/b/c.ts"] {
        assert!(
            lexically_inside(declared),
            "{declared} was refused as an escape"
        );
    }
}

/// The pattern matcher exists only to name a refusal, so it must not claim matches it has not.
#[test]
fn a_wildcard_key_matches_only_what_it_covers() {
    assert!(wildcard_matches("./*", "./deep"));
    assert!(wildcard_matches("./features/*", "./features/a"));
    assert!(wildcard_matches("./*.js", "./a.js"));
    assert!(!wildcard_matches("./features/*", "./other/a"));
    assert!(!wildcard_matches("./sub", "./sub"));
    assert!(!wildcard_matches("./*/*", "./a/b"));
}

#[test]
fn a_package_manifest_reads_every_section_and_splits_its_workspaces() {
    let text = "{\n  \"name\": \"app\",\n  \"workspaces\": [\"packages/a\", \"packages/*\", 7],\n  \"dependencies\": {\n    \"a\": \"file:../a\",\n    \"b\": \"^1\"\n  },\n  \"peerDependencies\": {\n    \"c\": {\"x\": 1}\n  }\n}\n";
    let parsed = parse_manifest(ContractRule::NpmLocalDependency, text).unwrap();
    assert_eq!(parsed.workspace_paths, vec!["packages/a".to_string()]);
    assert_eq!(parsed.declined_workspace_globs, 1);
    let rows: Vec<(&str, &str, &str, usize)> = parsed
        .declarations
        .iter()
        .map(|d| (d.section.as_str(), d.identity.as_str(), d.specifier.as_str(), d.line))
        .collect();
    assert_eq!(
        rows,
        vec![
            ("dependencies", "a", "file:../a", 5),
            ("dependencies", "b", "^1", 6),
            ("peerDependencies", "c", "{\"x\":1}", 9),
        ]
    );
    assert_eq!(
        parsed.declarations[0].outcome,
        DeclarationOutcome::Supported {
            form: SupportedForm::NpmFilePath,
            path: DeclaredPath::Stated("../a".into()),
            version: None,
        }
    );
    assert_eq!(
        parsed.declarations[2].outcome,
        DeclarationOutcome::Unsupported(UnsupportedForm::NpmNonStringSpecifier)
    );
}

#[test]
fn a_workspaces_object_is_read_through_its_packages() {
    let text = "{\"workspaces\": {\"packages\": [\"libs/x\", \"libs/{a,b}\"]}}";
    let parsed = parse_manifest(ContractRule::NpmLocalDependency, text).unwrap();
    assert_eq!(parsed.workspace_paths, vec!["libs/x".to_string()]);
    assert_eq!(parsed.declined_workspace_globs, 1);
    assert!(parsed.declarations.is_empty());
}

#[test]
fn a_pyproject_reads_pep621_then_poetry_then_uv() {
    let text = "[project]\nname = \"s\"\ndependencies = [\n  \"pkg @ file:///x\",\n  \"flask\",\n]\n\n[tool.poetry.dependencies]\ncore = { path = \"../core\", version = \"1.0\" }\n\n[tool.uv.sources]\nlib = { git = \"https://example.invalid/lib.git\" }\n";
    let parsed = parse_manifest(ContractRule::PythonPathDependency, text).unwrap();
    let rows: Vec<(&str, &str, usize)> = parsed
        .declarations
        .iter()
        .map(|d| (d.section.as_str(), d.identity.as_str(), d.line))
        .collect();
    assert_eq!(
        rows,
        vec![
            ("project.dependencies", "pkg", 4),
            ("project.dependencies", "flask", 5),
            ("tool.poetry.dependencies", "core", 9),
            ("tool.uv.sources", "lib", 12),
        ]
    );
    assert_eq!(parsed.declarations[0].specifier, "pkg @ file:///x");
    assert_eq!(
        parsed.declarations[2].outcome,
        DeclarationOutcome::Supported {
            form: SupportedForm::PythonPoetryPath,
            path: DeclaredPath::Stated("../core".into()),
            version: Some("1.0".into()),
        }
    );
    assert_eq!(
        parsed.declarations[3].outcome,
        DeclarationOutcome::Unsupported(UnsupportedForm::PythonGitSource)
    );
    assert!(parsed.workspace_paths.is_empty());
}

#[test]
fn a_subpath_counts_its_segments_after_the_package() {
    assert_eq!(subpath_depth("."), 0);
    assert_eq!(subpath_depth("./"), 0);
    assert_eq!(subpath_depth("./a"), 1);
    assert_eq!(subpath_depth("./a/b/c"), 3);
}

#[test]
fn a_minified_manifest_puts_every_key_on_line_one() {
    let text = "{\"dependencies\":{\"a\":\"file:../a\",\"b\":\"^2\"}}";
    let lines = json_key_lines(text, &NPM_SECTIONS);
    assert_eq!(lines.get("dependencies", "a"), Some(1));
    assert_eq!(lines.get("dependencies", "b"), Some(1));
    // A key inside a section that was not asked for is not recorded.
    let other = json_key_lines("{\"scripts\":{\n\"x\":\"y\"}}", &NPM_SECTIONS);
    assert_eq!(other.get("scripts", "x"), None);
    assert_eq!(other.get("", "scripts"), Some(1));
}

fn declaration(identity: &str) -> nerve::contracts::declarations::Declaration {
    nerve::contracts::declarations::Declaration {
        section: "dependencies".to_string(),
        identity: identity.to_string(),
        specifier: "file:../x".to_string(),
        line: 1,
        outcome: DeclarationOutcome::Unsupported(UnsupportedForm::NpmRegistryRange),
    }
}

#[test]
fn an_identity_declared_twice_is_ambiguous_by_whether_its_targets_agree() {
    let resolved = vec![
        (declaration("b"), "reg-1".to_string()),
        (declaration("a"), "reg-1".to_string()),
        (declaration("b"), "reg-1".to_string()),
        (declaration("c"), "reg-1".to_string()),
        (declaration("a"), "reg-2".to_string()),
    ];
    assert_eq!(
        ambiguity_by_identity(&resolved),
        vec![
            ("a".to_string(), Ambiguity::ConflictingTargets),
            ("b".to_string(), Ambiguity::DeclaredMoreThanOnce),
        ]
    );
    assert!(ambiguity_by_identity(&resolved[..1]).is_empty());
}

fn link_record(status: ContractLinkStatus, path: Option<&str>, entity: Option<&str>) -> LinkRecord {
    LinkRecord {
        status,
        source_state_at_resolution: "s1".to_string(),
        target_state_at_resolution: Some("t1".to_string()),
        target_entity_id: entity.map(str::to_string),
        target_path_snapshot: path.map(str::to_string),
    }
}

#[test]
fn freshness_is_decided_in_its_stated_order() {
    let active = link_record(ContractLinkStatus::Active, None, None);
    let withdrawn = link_record(ContractLinkStatus::Withdrawn, None, None);
    // The registry's verdict wins over everything the link says.
    assert_eq!(
        link_freshness(&withdrawn, Some(ContractFreshness::RegistryEntryRemoved), Some("t1"), "s1", true),
        Some(ContractFreshness::RegistryEntryRemoved)
    );
    assert_eq!(
        link_freshness(&withdrawn, None, Some("t1"), "s1", true),
        Some(ContractFreshness::ContractDeleted)
    );
    assert_eq!(
        link_freshness(&active, None, Some("t1"), "s1", false),
        Some(ContractFreshness::ContractFileMissing)
    );
    let partial = link_record(ContractLinkStatus::Active, Some("src/a.ts"), None);
    assert_eq!(
        link_freshness(&partial, None, Some("t2"), "s2", true),
        Some(ContractFreshness::TargetPartiallyIndexed)
    );
    let indexed = link_record(ContractLinkStatus::Active, Some("src/a.ts"), Some("e1"));
    assert_eq!(link_freshness(&indexed, None, Some("t1"), "s1", true), None);
    assert_eq!(
        link_freshness(&active, None, Some("t2"), "s2", true),
        Some(ContractFreshness::BothChanged)
    );
    assert_eq!(
        link_freshness(&active, None, Some("t1"), "s2", true),
        Some(ContractFreshness::SourceChanged)
    );
    assert_eq!(
        link_freshness(&active, None, None, "s1", true),
        Some(ContractFreshness::TargetChanged)
    );
}

fn recorded(rule: ContractRule, inserted: bool) -> RecordedLink {
    RecordedLink {
        rule,
        manifest: "package.json".to_string(),
        section: "dependencies".to_string(),
        identity: "a".to_string(),
        form: SupportedForm::NpmFilePath,
        registry_id: "reg".to_string(),
        target_repository_id: "repo".to_string(),
        resolution_method: ContractResolutionMethod::ManifestDeclared,
        source_span: "1:1".to_string(),
        relation_semantics: "DEPENDS_ON",
        source_entity_id: None,
        target_entity_id: None,
        target_path: None,
        expected_contract_version: None,
        observed_contract_version: None,
        ambiguity: None,
        inserted,
    }
}

fn declined_row(rule: ContractRule, form: UnsupportedForm) -> UnsupportedDeclaration {
    UnsupportedDeclaration {
        rule,
        manifest: "package.json".to_string(),
        section: "dependencies".to_string(),
        identity: "x".to_string(),
        form,
    }
}

#[test]
fn a_scan_counts_and_tallies_what_it_holds() {
    let mut scan = ContractScan::default();
    assert_eq!(scan.inserted(), 0);
    scan.links = vec![
        recorded(ContractRule::NpmLocalDependency, true),
        recorded(ContractRule::PythonPathDependency, false),
        recorded(ContractRule::NpmLocalDependency, false),
    ];
    scan.unsupported = vec![
        declined_row(ContractRule::NpmLocalDependency, UnsupportedForm::NpmGitSpecifier),
        declined_row(ContractRule::PythonPathDependency, UnsupportedForm::PythonGitSource),
        declined_row(ContractRule::NpmLocalDependency, UnsupportedForm::NpmRegistryRange),
        declined_row(ContractRule::NpmLocalDependency, UnsupportedForm::NpmGitSpecifier),
    ];
    assert_eq!(scan.inserted(), 1);
    assert_eq!(scan.unchanged(), 2);
    assert_eq!(
        scan.unsupported_tally(),
        vec![
            (UnsupportedForm::NpmRegistryRange, 1),
            (UnsupportedForm::NpmGitSpecifier, 2),
            (UnsupportedForm::PythonGitSource, 1),
        ]
    );
    assert!(scan.unresolved_tally().is_empty());
    assert_eq!(scan.links_of(ContractRule::NpmLocalDependency).len(), 2);
    assert_eq!(scan.links_of(ContractRule::NpmExportResolution).len(), 0);
    assert_eq!(scan.unsupported_of(ContractRule::PythonPathDependency).len(), 1);
    assert!(scan.unresolved_of(ContractRule::NpmLocalDependency).is_empty());
}
