//! Cross-repository contracts that can be read from a manifest with no new dependency.
//!
//! C1 is an npm local or workspace dependency in `package.json`; C3 is a Python local path
//! dependency in `pyproject.toml`; C2 resolves an npm import specifier through the neighbour's own
//! `exports` map to a file inside it. A link comes from an explicit stated declaration and from
//! nothing else: the supported syntax is enumerated in [`SupportedForm`], and everything outside it
//! is recorded as [`UnsupportedForm`] with the form named. Nothing is fetched, nothing is guessed,
//! nothing is executed.
use vstd::prelude::*;
use crate::text::str_eq;
use crate::vocab::ContractResolutionMethod;

pub mod values;
pub mod exports;
pub mod declarations;
pub mod lines;
pub mod scan;
pub mod target;
pub mod export_links;
pub mod neighbours;
pub mod names;
pub mod routing;

verus! {

/// The largest manifest this module will read, in bytes.
pub const MAX_MANIFEST_BYTES: u64 = 1048576;

/// The largest number of dependency declarations one manifest may state. Exceeding it refuses the
/// whole manifest rather than the surplus.
pub const MAX_DECLARATIONS_PER_MANIFEST: usize = 2000;

/// The largest number of contract links one repository may hold.
pub const MAX_LINKS_PER_REPOSITORY: usize = 1000;

/// The extractor id C1 stamps on every link it records.
pub const NPM_EXTRACTOR_ID: &'static str = "npm-local-dependency";

/// The largest number of entries one neighbour's `exports` map may state.
pub const MAX_EXPORT_ENTRIES: usize = 512;

/// The deepest subpath C2 will carry into an `exports` lookup, counted in `/`-separated segments
/// after the package name.
pub const MAX_EXPORT_SUBPATH_DEPTH: usize = 8;

/// How deeply conditional exports may nest before C2 stops descending.
pub const MAX_EXPORT_CONDITION_DEPTH: usize = 4;

/// The extractor id C3 stamps on every link it records.
pub const PYTHON_EXTRACTOR_ID: &'static str = "python-path-dependency";

/// The extractor id C2 stamps on every link it records.
pub const NPM_EXPORT_EXTRACTOR_ID: &'static str = "npm-export-resolution";

/// The export conditions C2 reads, in the order it reads them.
pub const EXPORT_CONDITION_ORDER: [&'static str; 3] = ["import", "require", "default"];

/// The legacy entry-point fields C2 reads when a package declares no `exports`, in order.
pub const LEGACY_ENTRY_FIELDS: [&'static str; 3] = ["module", "main", "types"];

/// The semantic relation an export resolution states. Not a member of the relation vocabulary
/// and never an assertion.
pub const EXPORT_REFERENCE_SEMANTICS: &'static str = "REFERENCES";

/// The version both contract rules stamp on every link they record.
pub const CONTRACT_EXTRACTOR_VERSION: &'static str = "1";

/// The semantic relation a repository-to-repository dependency states.
pub const REPOSITORY_DEPENDENCY_SEMANTICS: &'static str = "DEPENDS_ON";

/// Which contract rule read a declaration.
#[derive(Debug, Clone, Copy, PartialEq, Eq, Structural, PartialOrd, Ord, Hash)]
pub enum ContractRule {
    /// C1 — an npm local or workspace dependency in `package.json`.
    NpmLocalDependency,
    /// C2 — an npm import specifier resolved through the neighbour's `exports` map.
    NpmExportResolution,
    /// C3 — a Python local path dependency in `pyproject.toml`.
    PythonPathDependency,
}

impl ContractRule {
    /// Every value, in declaration order.
    pub const ALL: [ContractRule; 3] = [
        ContractRule::NpmLocalDependency,
        ContractRule::NpmExportResolution,
        ContractRule::PythonPathDependency,
    ];

    /// The canonical name of a value.
    pub open spec fn name_of(self) -> Seq<char> {
        match self {
            ContractRule::NpmLocalDependency => "npm_local_dependency"@,
            ContractRule::NpmExportResolution => "npm_export_resolution"@,
            ContractRule::PythonPathDependency => "python_path_dependency"@,
        }
    }

    /// Canonical name, as stored and as carried in responses.
    pub fn as_str(self) -> (text: &'static str)
        ensures
            text@ == self.name_of(),
    {
        match self {
            ContractRule::NpmLocalDependency => "npm_local_dependency",
            ContractRule::NpmExportResolution => "npm_export_resolution",
            ContractRule::PythonPathDependency => "python_path_dependency",
        }
    }

    /// Two different values never share a canonical name.
    pub proof fn lemma_names_distinct(a: ContractRule, b: ContractRule)
        ensures
            a.name_of() == b.name_of() ==> a == b,
    {
        reveal_strlit("npm_local_dependency");
        reveal_strlit("npm_export_resolution");
        reveal_strlit("python_path_dependency");
        if a.name_of() == b.name_of() {
            assert(a.name_of().len() == b.name_of().len());
        }
    }

}

/// A declaration shape Nerve reads, as a closed vocabulary.
#[derive(Debug, Clone, Copy, PartialEq, Eq, Structural, PartialOrd, Ord, Hash)]
pub enum SupportedForm {
    /// npm `"pkg": "file:../somewhere"`.
    NpmFilePath,
    /// npm `"pkg": "workspace:*"`.
    NpmWorkspaceWildcard,
    /// npm `"pkg": "workspace:^"`.
    NpmWorkspaceCaret,
    /// npm `"pkg": "workspace:~"`.
    NpmWorkspaceTilde,
    /// npm `"pkg": "workspace:1.2.3"` — any other non-empty remainder, kept as the expected version.
    NpmWorkspaceVersion,
    /// PEP 621 `dependencies = ["pkg @ file:///somewhere"]`.
    PythonDirectFileUrl,
    /// Poetry `[tool.poetry.dependencies] pkg = { path = "../somewhere" }`.
    PythonPoetryPath,
    /// uv / PEP 735 `[tool.uv.sources] pkg = { path = "../somewhere" }`.
    PythonUvSourcePath,
    /// npm `import … from 'pkg-b/sub'` — the specifier itself, read in full.
    NpmImportSpecifier,
    /// npm `"exports": "./src/index.ts"` — the whole map is one string, for the `.` subpath.
    NpmExportsString,
    /// npm `"exports": { "./sub": "./src/sub.ts" }` — a subpath map entry naming a file directly.
    NpmExportsSubpath,
    /// npm `"exports": { ".": { "import": "./src/esm.ts" } }` — resolved by
    NpmExportsConditional,
    /// npm `"module": "./src/index.ts"`, when the package declares no `exports`.
    NpmLegacyModule,
    /// npm `"main": "./src/index.js"`, when the package declares no `exports` and no `module`.
    NpmLegacyMain,
    /// npm `"types": "./src/index.d.ts"`, the last legacy field and the least direct.
    NpmLegacyTypes,
}

impl SupportedForm {
    /// Every value, in declaration order.
    pub const ALL: [SupportedForm; 15] = [
        SupportedForm::NpmFilePath,
        SupportedForm::NpmWorkspaceWildcard,
        SupportedForm::NpmWorkspaceCaret,
        SupportedForm::NpmWorkspaceTilde,
        SupportedForm::NpmWorkspaceVersion,
        SupportedForm::PythonDirectFileUrl,
        SupportedForm::PythonPoetryPath,
        SupportedForm::PythonUvSourcePath,
        SupportedForm::NpmImportSpecifier,
        SupportedForm::NpmExportsString,
        SupportedForm::NpmExportsSubpath,
        SupportedForm::NpmExportsConditional,
        SupportedForm::NpmLegacyModule,
        SupportedForm::NpmLegacyMain,
        SupportedForm::NpmLegacyTypes,
    ];

    /// The canonical name of a value.
    pub open spec fn name_of(self) -> Seq<char> {
        match self {
            SupportedForm::NpmFilePath => "npm_file_path"@,
            SupportedForm::NpmWorkspaceWildcard => "npm_workspace_wildcard"@,
            SupportedForm::NpmWorkspaceCaret => "npm_workspace_caret"@,
            SupportedForm::NpmWorkspaceTilde => "npm_workspace_tilde"@,
            SupportedForm::NpmWorkspaceVersion => "npm_workspace_version"@,
            SupportedForm::PythonDirectFileUrl => "python_direct_file_url"@,
            SupportedForm::PythonPoetryPath => "python_poetry_path"@,
            SupportedForm::PythonUvSourcePath => "python_uv_source_path"@,
            SupportedForm::NpmImportSpecifier => "npm_import_specifier"@,
            SupportedForm::NpmExportsString => "npm_exports_string"@,
            SupportedForm::NpmExportsSubpath => "npm_exports_subpath"@,
            SupportedForm::NpmExportsConditional => "npm_exports_conditional"@,
            SupportedForm::NpmLegacyModule => "npm_legacy_module"@,
            SupportedForm::NpmLegacyMain => "npm_legacy_main"@,
            SupportedForm::NpmLegacyTypes => "npm_legacy_types"@,
        }
    }

    /// Canonical name, as stored and as carried in responses.
    pub fn as_str(self) -> (text: &'static str)
        ensures
            text@ == self.name_of(),
    {
        match self {
            SupportedForm::NpmFilePath => "npm_file_path",
            SupportedForm::NpmWorkspaceWildcard => "npm_workspace_wildcard",
            SupportedForm::NpmWorkspaceCaret => "npm_workspace_caret",
            SupportedForm::NpmWorkspaceTilde => "npm_workspace_tilde",
            SupportedForm::NpmWorkspaceVersion => "npm_workspace_version",
            SupportedForm::PythonDirectFileUrl => "python_direct_file_url",
            SupportedForm::PythonPoetryPath => "python_poetry_path",
            SupportedForm::PythonUvSourcePath => "python_uv_source_path",
            SupportedForm::NpmImportSpecifier => "npm_import_specifier",
            SupportedForm::NpmExportsString => "npm_exports_string",
            SupportedForm::NpmExportsSubpath => "npm_exports_subpath",
            SupportedForm::NpmExportsConditional => "npm_exports_conditional",
            SupportedForm::NpmLegacyModule => "npm_legacy_module",
            SupportedForm::NpmLegacyMain => "npm_legacy_main",
            SupportedForm::NpmLegacyTypes => "npm_legacy_types",
        }
    }

    /// Two different values never share a canonical name.
    pub proof fn lemma_names_distinct(a: SupportedForm, b: SupportedForm)
        ensures
            a.name_of() == b.name_of() ==> a == b,
    {
        reveal_strlit("npm_file_path");
        reveal_strlit("npm_workspace_wildcard");
        reveal_strlit("npm_workspace_caret");
        reveal_strlit("npm_workspace_tilde");
        reveal_strlit("npm_workspace_version");
        reveal_strlit("python_direct_file_url");
        reveal_strlit("python_poetry_path");
        reveal_strlit("python_uv_source_path");
        reveal_strlit("npm_import_specifier");
        reveal_strlit("npm_exports_string");
        reveal_strlit("npm_exports_subpath");
        reveal_strlit("npm_exports_conditional");
        reveal_strlit("npm_legacy_module");
        reveal_strlit("npm_legacy_main");
        reveal_strlit("npm_legacy_types");
        if a.name_of() == b.name_of() {
            assert(a.name_of().len() == b.name_of().len());
            assert(a.name_of()[0] == b.name_of()[0]);
            assert(a.name_of()[4] == b.name_of()[4]);
            assert(a.name_of()[14] == b.name_of()[14]);
        }
    }

}

/// A declaration shape Nerve declines to resolve, named.
#[derive(Debug, Clone, Copy, PartialEq, Eq, Structural, PartialOrd, Ord, Hash)]
pub enum UnsupportedForm {
    /// A version range resolved from a package registry: `^1.2.3`, `~1.0`, `1.x`, `*`, `latest`.
    NpmRegistryRange,
    /// A Git specifier: `git:`, `git+ssh:`, `github:`, `owner/repo`.
    NpmGitSpecifier,
    /// An `http:` or `https:` tarball.
    NpmUrlSpecifier,
    /// An alias: `npm:other-package@1.0.0`.
    NpmAliasSpecifier,
    /// Any other protocol prefix, including `link:` and a bare `workspace:`.
    NpmUnsupportedProtocol,
    /// A `dependencies` value that is not a string at all.
    NpmNonStringSpecifier,
    /// A `workspaces` entry containing a glob, which Nerve does not expand.
    NpmWorkspaceGlobPattern,
    /// A PEP 508 requirement with a version specifier and no direct reference: `requests>=2.31`.
    PythonVersionSpecifier,
    /// A direct reference that is not an absolute, unescaped `file://` URL.
    PythonUnsupportedDirectReference,
    /// A Poetry or uv source table with `git =`.
    PythonGitSource,
    /// A Poetry or uv source table with `url =`.
    PythonUrlSource,
    /// A uv source table with `workspace = true`, which names no path.
    PythonWorkspaceSource,
    /// A source table with none of `path`, `git`, `url` or `workspace`.
    PythonUnsupportedSource,
    /// An `exports` subpath that only a wildcard key such as `"./*"` would match. Nerve does not
    NpmExportWildcardSubpath,
    /// An `exports` entry whose value is `null` — a deliberate block, recorded as one.
    NpmExportBlocked,
    /// A conditions object naming none of [`EXPORT_CONDITION_ORDER`], or nesting deeper than
    NpmExportUnsupportedCondition,
    /// An `exports` value that is neither a string, an object nor `null` — an array fallback, a
    NpmExportNonStringTarget,
    /// A resolved export target that leaves the neighbour's root, lexically or through a symlink.
    NpmExportPathEscapesTarget,
    /// The package declares an `exports` map and that map declares no matching subpath. A closed
    NpmExportSubpathNotDeclared,
    /// An `exports` object mixing `"."`-prefixed subpath keys with condition keys, which is not a
    NpmExportsMixedKeys,
    /// A subpath import against a package that declares no `exports`. Resolving it would mean
    NpmLegacySubpathProbe,
    /// The neighbour's `exports` map states more entries than [`MAX_EXPORT_ENTRIES`].
    NpmExportMapTooLarge,
    /// The specifier's subpath is deeper than [`MAX_EXPORT_SUBPATH_DEPTH`].
    NpmExportSubpathTooDeep,
}

impl UnsupportedForm {
    /// Every value, in declaration order.
    pub const ALL: [UnsupportedForm; 23] = [
        UnsupportedForm::NpmRegistryRange,
        UnsupportedForm::NpmGitSpecifier,
        UnsupportedForm::NpmUrlSpecifier,
        UnsupportedForm::NpmAliasSpecifier,
        UnsupportedForm::NpmUnsupportedProtocol,
        UnsupportedForm::NpmNonStringSpecifier,
        UnsupportedForm::NpmWorkspaceGlobPattern,
        UnsupportedForm::PythonVersionSpecifier,
        UnsupportedForm::PythonUnsupportedDirectReference,
        UnsupportedForm::PythonGitSource,
        UnsupportedForm::PythonUrlSource,
        UnsupportedForm::PythonWorkspaceSource,
        UnsupportedForm::PythonUnsupportedSource,
        UnsupportedForm::NpmExportWildcardSubpath,
        UnsupportedForm::NpmExportBlocked,
        UnsupportedForm::NpmExportUnsupportedCondition,
        UnsupportedForm::NpmExportNonStringTarget,
        UnsupportedForm::NpmExportPathEscapesTarget,
        UnsupportedForm::NpmExportSubpathNotDeclared,
        UnsupportedForm::NpmExportsMixedKeys,
        UnsupportedForm::NpmLegacySubpathProbe,
        UnsupportedForm::NpmExportMapTooLarge,
        UnsupportedForm::NpmExportSubpathTooDeep,
    ];

    /// The canonical name of a value.
    pub open spec fn name_of(self) -> Seq<char> {
        match self {
            UnsupportedForm::NpmRegistryRange => "npm_registry_range"@,
            UnsupportedForm::NpmGitSpecifier => "npm_git_specifier"@,
            UnsupportedForm::NpmUrlSpecifier => "npm_url_specifier"@,
            UnsupportedForm::NpmAliasSpecifier => "npm_alias_specifier"@,
            UnsupportedForm::NpmUnsupportedProtocol => "npm_unsupported_protocol"@,
            UnsupportedForm::NpmNonStringSpecifier => "npm_non_string_specifier"@,
            UnsupportedForm::NpmWorkspaceGlobPattern => "npm_workspace_glob_pattern"@,
            UnsupportedForm::PythonVersionSpecifier => "python_version_specifier"@,
            UnsupportedForm::PythonUnsupportedDirectReference => "python_unsupported_direct_reference"@,
            UnsupportedForm::PythonGitSource => "python_git_source"@,
            UnsupportedForm::PythonUrlSource => "python_url_source"@,
            UnsupportedForm::PythonWorkspaceSource => "python_workspace_source"@,
            UnsupportedForm::PythonUnsupportedSource => "python_unsupported_source"@,
            UnsupportedForm::NpmExportWildcardSubpath => "npm_export_wildcard_subpath"@,
            UnsupportedForm::NpmExportBlocked => "npm_export_blocked"@,
            UnsupportedForm::NpmExportUnsupportedCondition => "npm_export_unsupported_condition"@,
            UnsupportedForm::NpmExportNonStringTarget => "npm_export_non_string_target"@,
            UnsupportedForm::NpmExportPathEscapesTarget => "npm_export_path_escapes_target"@,
            UnsupportedForm::NpmExportSubpathNotDeclared => "npm_export_subpath_not_declared"@,
            UnsupportedForm::NpmExportsMixedKeys => "npm_exports_mixed_keys"@,
            UnsupportedForm::NpmLegacySubpathProbe => "npm_legacy_subpath_probe"@,
            UnsupportedForm::NpmExportMapTooLarge => "npm_export_map_too_large"@,
            UnsupportedForm::NpmExportSubpathTooDeep => "npm_export_subpath_too_deep"@,
        }
    }

    /// Canonical name, as stored and as carried in responses.
    pub fn as_str(self) -> (text: &'static str)
        ensures
            text@ == self.name_of(),
    {
        match self {
            UnsupportedForm::NpmRegistryRange => "npm_registry_range",
            UnsupportedForm::NpmGitSpecifier => "npm_git_specifier",
            UnsupportedForm::NpmUrlSpecifier => "npm_url_specifier",
            UnsupportedForm::NpmAliasSpecifier => "npm_alias_specifier",
            UnsupportedForm::NpmUnsupportedProtocol => "npm_unsupported_protocol",
            UnsupportedForm::NpmNonStringSpecifier => "npm_non_string_specifier",
            UnsupportedForm::NpmWorkspaceGlobPattern => "npm_workspace_glob_pattern",
            UnsupportedForm::PythonVersionSpecifier => "python_version_specifier",
            UnsupportedForm::PythonUnsupportedDirectReference => "python_unsupported_direct_reference",
            UnsupportedForm::PythonGitSource => "python_git_source",
            UnsupportedForm::PythonUrlSource => "python_url_source",
            UnsupportedForm::PythonWorkspaceSource => "python_workspace_source",
            UnsupportedForm::PythonUnsupportedSource => "python_unsupported_source",
            UnsupportedForm::NpmExportWildcardSubpath => "npm_export_wildcard_subpath",
            UnsupportedForm::NpmExportBlocked => "npm_export_blocked",
            UnsupportedForm::NpmExportUnsupportedCondition => "npm_export_unsupported_condition",
            UnsupportedForm::NpmExportNonStringTarget => "npm_export_non_string_target",
            UnsupportedForm::NpmExportPathEscapesTarget => "npm_export_path_escapes_target",
            UnsupportedForm::NpmExportSubpathNotDeclared => "npm_export_subpath_not_declared",
            UnsupportedForm::NpmExportsMixedKeys => "npm_exports_mixed_keys",
            UnsupportedForm::NpmLegacySubpathProbe => "npm_legacy_subpath_probe",
            UnsupportedForm::NpmExportMapTooLarge => "npm_export_map_too_large",
            UnsupportedForm::NpmExportSubpathTooDeep => "npm_export_subpath_too_deep",
        }
    }

    /// Two different values never share a canonical name.
    pub proof fn lemma_names_distinct(a: UnsupportedForm, b: UnsupportedForm)
        ensures
            a.name_of() == b.name_of() ==> a == b,
    {
        reveal_strlit("npm_registry_range");
        reveal_strlit("npm_git_specifier");
        reveal_strlit("npm_url_specifier");
        reveal_strlit("npm_alias_specifier");
        reveal_strlit("npm_unsupported_protocol");
        reveal_strlit("npm_non_string_specifier");
        reveal_strlit("npm_workspace_glob_pattern");
        reveal_strlit("python_version_specifier");
        reveal_strlit("python_unsupported_direct_reference");
        reveal_strlit("python_git_source");
        reveal_strlit("python_url_source");
        reveal_strlit("python_workspace_source");
        reveal_strlit("python_unsupported_source");
        reveal_strlit("npm_export_wildcard_subpath");
        reveal_strlit("npm_export_blocked");
        reveal_strlit("npm_export_unsupported_condition");
        reveal_strlit("npm_export_non_string_target");
        reveal_strlit("npm_export_path_escapes_target");
        reveal_strlit("npm_export_subpath_not_declared");
        reveal_strlit("npm_exports_mixed_keys");
        reveal_strlit("npm_legacy_subpath_probe");
        reveal_strlit("npm_export_map_too_large");
        reveal_strlit("npm_export_subpath_too_deep");
        if a.name_of() == b.name_of() {
            assert(a.name_of().len() == b.name_of().len());
            assert(a.name_of()[0] == b.name_of()[0]);
            assert(a.name_of()[4] == b.name_of()[4]);
            assert(a.name_of()[7] == b.name_of()[7]);
            assert(a.name_of()[11] == b.name_of()[11]);
        }
    }

}

/// A supported declaration that reached no registered neighbour, with the reason named.
#[derive(Debug, Clone, Copy, PartialEq, Eq, Structural, PartialOrd, Ord, Hash)]
pub enum UnresolvedReason {
    /// Nothing exists at the declared path.
    DeclaredPathMissing,
    /// The declared path is inside the repository being scanned, so it is not a *cross*-repository
    DeclaredPathInSameRepository,
    /// Something is at the declared path and it is not the root of a Nerve-initialised repository.
    DeclaredPathNotARepositoryRoot,
    /// A Nerve repository is at the declared path and no registry entry records its `repo_id`.
    TargetNotRegistered,
    /// A registry entry records the repository, and the entry is not usable right now.
    RegistryEntryUnusable,
    /// A `workspace:` dependency whose name no declared workspace member claims.
    WorkspaceMemberNotDeclared,
    /// C2: the neighbour reached through the dependency does not declare the specifier's package
    PackageNameNotDeclared,
    /// C2: the neighbour has no `package.json` this build can read, so there is no `exports` map,
    TargetManifestUnreadable,
    /// C2: the neighbour declares no `exports`, no `module`, no `main` and no `types`. It states no
    TargetDeclaresNoEntryPoint,
    /// C2: the export entry was read and names a path that is not in the neighbour's tree.
    ExportTargetMissing,
}

impl UnresolvedReason {
    /// Every value, in declaration order.
    pub const ALL: [UnresolvedReason; 10] = [
        UnresolvedReason::DeclaredPathMissing,
        UnresolvedReason::DeclaredPathInSameRepository,
        UnresolvedReason::DeclaredPathNotARepositoryRoot,
        UnresolvedReason::TargetNotRegistered,
        UnresolvedReason::RegistryEntryUnusable,
        UnresolvedReason::WorkspaceMemberNotDeclared,
        UnresolvedReason::PackageNameNotDeclared,
        UnresolvedReason::TargetManifestUnreadable,
        UnresolvedReason::TargetDeclaresNoEntryPoint,
        UnresolvedReason::ExportTargetMissing,
    ];

    /// The canonical name of a value.
    pub open spec fn name_of(self) -> Seq<char> {
        match self {
            UnresolvedReason::DeclaredPathMissing => "declared_path_missing"@,
            UnresolvedReason::DeclaredPathInSameRepository => "declared_path_in_same_repository"@,
            UnresolvedReason::DeclaredPathNotARepositoryRoot => "declared_path_not_a_repository_root"@,
            UnresolvedReason::TargetNotRegistered => "target_not_registered"@,
            UnresolvedReason::RegistryEntryUnusable => "registry_entry_unusable"@,
            UnresolvedReason::WorkspaceMemberNotDeclared => "workspace_member_not_declared"@,
            UnresolvedReason::PackageNameNotDeclared => "package_name_not_declared"@,
            UnresolvedReason::TargetManifestUnreadable => "target_manifest_unreadable"@,
            UnresolvedReason::TargetDeclaresNoEntryPoint => "target_declares_no_entry_point"@,
            UnresolvedReason::ExportTargetMissing => "export_target_missing"@,
        }
    }

    /// Canonical name, as stored and as carried in responses.
    pub fn as_str(self) -> (text: &'static str)
        ensures
            text@ == self.name_of(),
    {
        match self {
            UnresolvedReason::DeclaredPathMissing => "declared_path_missing",
            UnresolvedReason::DeclaredPathInSameRepository => "declared_path_in_same_repository",
            UnresolvedReason::DeclaredPathNotARepositoryRoot => "declared_path_not_a_repository_root",
            UnresolvedReason::TargetNotRegistered => "target_not_registered",
            UnresolvedReason::RegistryEntryUnusable => "registry_entry_unusable",
            UnresolvedReason::WorkspaceMemberNotDeclared => "workspace_member_not_declared",
            UnresolvedReason::PackageNameNotDeclared => "package_name_not_declared",
            UnresolvedReason::TargetManifestUnreadable => "target_manifest_unreadable",
            UnresolvedReason::TargetDeclaresNoEntryPoint => "target_declares_no_entry_point",
            UnresolvedReason::ExportTargetMissing => "export_target_missing",
        }
    }

    /// Two different values never share a canonical name.
    pub proof fn lemma_names_distinct(a: UnresolvedReason, b: UnresolvedReason)
        ensures
            a.name_of() == b.name_of() ==> a == b,
    {
        reveal_strlit("declared_path_missing");
        reveal_strlit("declared_path_in_same_repository");
        reveal_strlit("declared_path_not_a_repository_root");
        reveal_strlit("target_not_registered");
        reveal_strlit("registry_entry_unusable");
        reveal_strlit("workspace_member_not_declared");
        reveal_strlit("package_name_not_declared");
        reveal_strlit("target_manifest_unreadable");
        reveal_strlit("target_declares_no_entry_point");
        reveal_strlit("export_target_missing");
        if a.name_of() == b.name_of() {
            assert(a.name_of().len() == b.name_of().len());
            assert(a.name_of()[0] == b.name_of()[0]);
        }
    }

}

/// Why a manifest, a source file, or the rest of a scan, was stopped.
#[derive(Debug, Clone, Copy, PartialEq, Eq, Structural, PartialOrd, Ord, Hash)]
pub enum ManifestRefusal {
    /// The file is larger than [`MAX_MANIFEST_BYTES`].
    ManifestTooLarge,
    /// The file states more than [`MAX_DECLARATIONS_PER_MANIFEST`] declarations.
    TooManyDeclarations,
    /// The file could not be read, or is not UTF-8.
    ManifestUnreadable,
    /// The file is not valid JSON or TOML, or its cached extraction payload is not readable by this
    ManifestUnparsable,
    /// The repository already holds [`MAX_LINKS_PER_REPOSITORY`] links.
    LinkBudgetExhausted,
    /// C2: a module has cached import specifiers and no entity at its path, so a link read from it
    SourceModuleNotIndexed,
}

impl ManifestRefusal {
    /// Every value, in declaration order.
    pub const ALL: [ManifestRefusal; 6] = [
        ManifestRefusal::ManifestTooLarge,
        ManifestRefusal::TooManyDeclarations,
        ManifestRefusal::ManifestUnreadable,
        ManifestRefusal::ManifestUnparsable,
        ManifestRefusal::LinkBudgetExhausted,
        ManifestRefusal::SourceModuleNotIndexed,
    ];

    /// The canonical name of a value.
    pub open spec fn name_of(self) -> Seq<char> {
        match self {
            ManifestRefusal::ManifestTooLarge => "manifest_too_large"@,
            ManifestRefusal::TooManyDeclarations => "too_many_declarations"@,
            ManifestRefusal::ManifestUnreadable => "manifest_unreadable"@,
            ManifestRefusal::ManifestUnparsable => "manifest_unparsable"@,
            ManifestRefusal::LinkBudgetExhausted => "link_budget_exhausted"@,
            ManifestRefusal::SourceModuleNotIndexed => "source_module_not_indexed"@,
        }
    }

    /// Canonical name, as stored and as carried in responses.
    pub fn as_str(self) -> (text: &'static str)
        ensures
            text@ == self.name_of(),
    {
        match self {
            ManifestRefusal::ManifestTooLarge => "manifest_too_large",
            ManifestRefusal::TooManyDeclarations => "too_many_declarations",
            ManifestRefusal::ManifestUnreadable => "manifest_unreadable",
            ManifestRefusal::ManifestUnparsable => "manifest_unparsable",
            ManifestRefusal::LinkBudgetExhausted => "link_budget_exhausted",
            ManifestRefusal::SourceModuleNotIndexed => "source_module_not_indexed",
        }
    }

    /// Two different values never share a canonical name.
    pub proof fn lemma_names_distinct(a: ManifestRefusal, b: ManifestRefusal)
        ensures
            a.name_of() == b.name_of() ==> a == b,
    {
        reveal_strlit("manifest_too_large");
        reveal_strlit("too_many_declarations");
        reveal_strlit("manifest_unreadable");
        reveal_strlit("manifest_unparsable");
        reveal_strlit("link_budget_exhausted");
        reveal_strlit("source_module_not_indexed");
        if a.name_of() == b.name_of() {
            assert(a.name_of().len() == b.name_of().len());
            assert(a.name_of()[0] == b.name_of()[0]);
            assert(a.name_of()[11] == b.name_of()[11]);
        }
    }

}

/// Why a whole scan refused before it read anything.
#[derive(Debug, Clone, Copy, PartialEq, Eq, Structural, PartialOrd, Ord, Hash)]
pub enum ScanRefusal {
    /// The repository has no indexed state, so a link would have nothing to be resolved *at*.
    SourceNotIndexed,
}

impl ScanRefusal {
    /// Every value, in declaration order.
    pub const ALL: [ScanRefusal; 1] = [
        ScanRefusal::SourceNotIndexed,
    ];

    /// The canonical name of a value.
    pub open spec fn name_of(self) -> Seq<char> {
        match self {
            ScanRefusal::SourceNotIndexed => "source_not_indexed"@,
        }
    }

    /// Canonical name, as stored and as carried in responses.
    pub fn as_str(self) -> (text: &'static str)
        ensures
            text@ == self.name_of(),
    {
        match self {
            ScanRefusal::SourceNotIndexed => "source_not_indexed",
        }
    }

    /// Two different values never share a canonical name.
    pub proof fn lemma_names_distinct(a: ScanRefusal, b: ScanRefusal)
        ensures
            a.name_of() == b.name_of() ==> a == b,
    {
        reveal_strlit("source_not_indexed");
        if a.name_of() == b.name_of() {
            assert(a.name_of().len() == b.name_of().len());
        }
    }

    /// What a refusal means, in words.
    pub open spec fn statement_of(self) -> Seq<char> {
        match self {
            ScanRefusal::SourceNotIndexed => "this repository has no indexed state, so a link recorded now could not say which \
                state of this repository declared it — run `nerve index` first"@,
        }
    }

    /// What was refused, and why, in words.
    pub fn statement(self) -> (text: &'static str)
        ensures
            text@ == self.statement_of(),
    {
        match self {
            ScanRefusal::SourceNotIndexed => "this repository has no indexed state, so a link recorded now could not say which \
                state of this repository declared it — run `nerve index` first",
        }
    }

    /// Two different values never share a sentence.
    pub proof fn lemma_statements_distinct(a: ScanRefusal, b: ScanRefusal)
        ensures
            a.statement_of() == b.statement_of() ==> a == b,
    {
        reveal_strlit("this repository has no indexed state, so a link recorded now could not say which \
            state of this repository declared it — run `nerve index` first");
        if a.statement_of() == b.statement_of() {
            assert(a.statement_of().len() == b.statement_of().len());
        }
    }

}

/// How ambiguous a resolution was, when it was.
#[derive(Debug, Clone, Copy, PartialEq, Eq, Structural, PartialOrd, Ord, Hash)]
pub enum Ambiguity {
    /// One identity, more than one supported declaration, all agreeing on the target.
    DeclaredMoreThanOnce,
    /// One identity, more than one supported declaration, naming **different** targets.
    ConflictingTargets,
}

impl Ambiguity {
    /// Every value, in declaration order.
    pub const ALL: [Ambiguity; 2] = [
        Ambiguity::DeclaredMoreThanOnce,
        Ambiguity::ConflictingTargets,
    ];

    /// The canonical name of a value.
    pub open spec fn name_of(self) -> Seq<char> {
        match self {
            Ambiguity::DeclaredMoreThanOnce => "declared_more_than_once"@,
            Ambiguity::ConflictingTargets => "conflicting_targets"@,
        }
    }

    /// Canonical name, as stored and as carried in responses.
    pub fn as_str(self) -> (text: &'static str)
        ensures
            text@ == self.name_of(),
    {
        match self {
            Ambiguity::DeclaredMoreThanOnce => "declared_more_than_once",
            Ambiguity::ConflictingTargets => "conflicting_targets",
        }
    }

    /// Two different values never share a canonical name.
    pub proof fn lemma_names_distinct(a: Ambiguity, b: Ambiguity)
        ensures
            a.name_of() == b.name_of() ==> a == b,
    {
        reveal_strlit("declared_more_than_once");
        reveal_strlit("conflicting_targets");
        if a.name_of() == b.name_of() {
            assert(a.name_of().len() == b.name_of().len());
        }
    }

}


impl ContractRule {
    /// The rules a scan reaches by discovering a manifest. C2 is absent: it is driven by the
    /// imports of an indexed module, not by finding a file.
    pub const MANIFEST_DRIVEN: [ContractRule; 2] = [
        ContractRule::NpmLocalDependency,
        ContractRule::PythonPathDependency,
    ];

    /// The manifest file name a rule reads.
    pub open spec fn manifest_of(self) -> Seq<char> {
        match self {
            ContractRule::NpmLocalDependency | ContractRule::NpmExportResolution => "package.json"@,
            ContractRule::PythonPathDependency => "pyproject.toml"@,
        }
    }

    /// The manifest file name this rule reads.
    pub fn manifest_file_name(self) -> (name: &'static str)
        ensures
            name@ == self.manifest_of(),
    {
        match self {
            ContractRule::NpmLocalDependency | ContractRule::NpmExportResolution => "package.json",
            ContractRule::PythonPathDependency => "pyproject.toml",
        }
    }

    /// The extractor id a rule stamps on a link.
    pub open spec fn extractor_of(self) -> Seq<char> {
        match self {
            ContractRule::NpmLocalDependency => NPM_EXTRACTOR_ID@,
            ContractRule::NpmExportResolution => NPM_EXPORT_EXTRACTOR_ID@,
            ContractRule::PythonPathDependency => PYTHON_EXTRACTOR_ID@,
        }
    }

    /// The extractor id this rule stamps on a link.
    pub fn extractor_id(self) -> (id: &'static str)
        ensures
            id@ == self.extractor_of(),
    {
        match self {
            ContractRule::NpmLocalDependency => NPM_EXTRACTOR_ID,
            ContractRule::NpmExportResolution => NPM_EXPORT_EXTRACTOR_ID,
            ContractRule::PythonPathDependency => PYTHON_EXTRACTOR_ID,
        }
    }

    /// Which manifest-driven rule reads a file with this name, if any.
    pub open spec fn rule_for_file(name: Seq<char>) -> Option<ContractRule> {
        if name == "package.json"@ {
            Some(ContractRule::NpmLocalDependency)
        } else if name == "pyproject.toml"@ {
            Some(ContractRule::PythonPathDependency)
        } else {
            None
        }
    }

    /// Which manifest-driven rule reads a file with this name, if any.
    pub fn for_file_name(name: &str) -> (rule: Option<ContractRule>)
        ensures
            rule == ContractRule::rule_for_file(name@),
    {
        if str_eq(ContractRule::NpmLocalDependency.manifest_file_name(), name) {
            Some(ContractRule::NpmLocalDependency)
        } else if str_eq(ContractRule::PythonPathDependency.manifest_file_name(), name) {
            Some(ContractRule::PythonPathDependency)
        } else {
            None
        }
    }
}

impl SupportedForm {
    /// The rule a form belongs to.
    pub open spec fn rule_of(self) -> ContractRule {
        match self {
            SupportedForm::NpmFilePath
            | SupportedForm::NpmWorkspaceWildcard
            | SupportedForm::NpmWorkspaceCaret
            | SupportedForm::NpmWorkspaceTilde
            | SupportedForm::NpmWorkspaceVersion => ContractRule::NpmLocalDependency,
            SupportedForm::PythonDirectFileUrl
            | SupportedForm::PythonPoetryPath
            | SupportedForm::PythonUvSourcePath => ContractRule::PythonPathDependency,
            SupportedForm::NpmImportSpecifier
            | SupportedForm::NpmExportsString
            | SupportedForm::NpmExportsSubpath
            | SupportedForm::NpmExportsConditional
            | SupportedForm::NpmLegacyModule
            | SupportedForm::NpmLegacyMain
            | SupportedForm::NpmLegacyTypes => ContractRule::NpmExportResolution,
        }
    }

    /// Which rule this form belongs to.
    pub fn rule(self) -> (rule: ContractRule)
        ensures
            rule == self.rule_of(),
    {
        match self {
            SupportedForm::NpmFilePath
            | SupportedForm::NpmWorkspaceWildcard
            | SupportedForm::NpmWorkspaceCaret
            | SupportedForm::NpmWorkspaceTilde
            | SupportedForm::NpmWorkspaceVersion => ContractRule::NpmLocalDependency,
            SupportedForm::PythonDirectFileUrl
            | SupportedForm::PythonPoetryPath
            | SupportedForm::PythonUvSourcePath => ContractRule::PythonPathDependency,
            SupportedForm::NpmImportSpecifier
            | SupportedForm::NpmExportsString
            | SupportedForm::NpmExportsSubpath
            | SupportedForm::NpmExportsConditional
            | SupportedForm::NpmLegacyModule
            | SupportedForm::NpmLegacyMain
            | SupportedForm::NpmLegacyTypes => ContractRule::NpmExportResolution,
        }
    }

    /// The stated declaration a link from a form is drawn from.
    pub open spec fn method_of(self) -> ContractResolutionMethod {
        match self {
            SupportedForm::NpmFilePath | SupportedForm::PythonDirectFileUrl => {
                ContractResolutionMethod::ManifestDeclared
            },
            SupportedForm::NpmWorkspaceWildcard
            | SupportedForm::NpmWorkspaceCaret
            | SupportedForm::NpmWorkspaceTilde
            | SupportedForm::NpmWorkspaceVersion => ContractResolutionMethod::WorkspaceDeclared,
            SupportedForm::PythonPoetryPath | SupportedForm::PythonUvSourcePath => {
                ContractResolutionMethod::PathDependencyResolved
            },
            SupportedForm::NpmImportSpecifier
            | SupportedForm::NpmExportsString
            | SupportedForm::NpmExportsSubpath
            | SupportedForm::NpmExportsConditional
            | SupportedForm::NpmLegacyModule
            | SupportedForm::NpmLegacyMain
            | SupportedForm::NpmLegacyTypes => ContractResolutionMethod::ExportMapResolved,
        }
    }

    /// Which stated declaration a link from this form was drawn from.
    pub fn resolution_method(self) -> (method: ContractResolutionMethod)
        ensures
            method == self.method_of(),
    {
        match self {
            SupportedForm::NpmFilePath | SupportedForm::PythonDirectFileUrl => {
                ContractResolutionMethod::ManifestDeclared
            },
            SupportedForm::NpmWorkspaceWildcard
            | SupportedForm::NpmWorkspaceCaret
            | SupportedForm::NpmWorkspaceTilde
            | SupportedForm::NpmWorkspaceVersion => ContractResolutionMethod::WorkspaceDeclared,
            SupportedForm::PythonPoetryPath | SupportedForm::PythonUvSourcePath => {
                ContractResolutionMethod::PathDependencyResolved
            },
            SupportedForm::NpmImportSpecifier
            | SupportedForm::NpmExportsString
            | SupportedForm::NpmExportsSubpath
            | SupportedForm::NpmExportsConditional
            | SupportedForm::NpmLegacyModule
            | SupportedForm::NpmLegacyMain
            | SupportedForm::NpmLegacyTypes => ContractResolutionMethod::ExportMapResolved,
        }
    }

    /// A link is drawn from an export map exactly when its form belongs to C2: the export-map
    /// resolution method belongs to that rule and to nothing else.
    pub proof fn lemma_export_map_is_c2_alone(form: SupportedForm)
        ensures
            (form.method_of() == ContractResolutionMethod::ExportMapResolved) <==> (form.rule_of()
                == ContractRule::NpmExportResolution),
    {
    }
}

impl UnsupportedForm {
    /// The rule a declined form was found by.
    pub open spec fn rule_of(self) -> ContractRule {
        match self {
            UnsupportedForm::NpmRegistryRange
            | UnsupportedForm::NpmGitSpecifier
            | UnsupportedForm::NpmUrlSpecifier
            | UnsupportedForm::NpmAliasSpecifier
            | UnsupportedForm::NpmUnsupportedProtocol
            | UnsupportedForm::NpmNonStringSpecifier
            | UnsupportedForm::NpmWorkspaceGlobPattern => ContractRule::NpmLocalDependency,
            UnsupportedForm::PythonVersionSpecifier
            | UnsupportedForm::PythonUnsupportedDirectReference
            | UnsupportedForm::PythonGitSource
            | UnsupportedForm::PythonUrlSource
            | UnsupportedForm::PythonWorkspaceSource
            | UnsupportedForm::PythonUnsupportedSource => ContractRule::PythonPathDependency,
            UnsupportedForm::NpmExportWildcardSubpath
            | UnsupportedForm::NpmExportBlocked
            | UnsupportedForm::NpmExportUnsupportedCondition
            | UnsupportedForm::NpmExportNonStringTarget
            | UnsupportedForm::NpmExportPathEscapesTarget
            | UnsupportedForm::NpmExportSubpathNotDeclared
            | UnsupportedForm::NpmExportsMixedKeys
            | UnsupportedForm::NpmLegacySubpathProbe
            | UnsupportedForm::NpmExportMapTooLarge
            | UnsupportedForm::NpmExportSubpathTooDeep => ContractRule::NpmExportResolution,
        }
    }

    /// Which rule read the declaration this form was found in.
    pub fn rule(self) -> (rule: ContractRule)
        ensures
            rule == self.rule_of(),
    {
        match self {
            UnsupportedForm::NpmRegistryRange
            | UnsupportedForm::NpmGitSpecifier
            | UnsupportedForm::NpmUrlSpecifier
            | UnsupportedForm::NpmAliasSpecifier
            | UnsupportedForm::NpmUnsupportedProtocol
            | UnsupportedForm::NpmNonStringSpecifier
            | UnsupportedForm::NpmWorkspaceGlobPattern => ContractRule::NpmLocalDependency,
            UnsupportedForm::PythonVersionSpecifier
            | UnsupportedForm::PythonUnsupportedDirectReference
            | UnsupportedForm::PythonGitSource
            | UnsupportedForm::PythonUrlSource
            | UnsupportedForm::PythonWorkspaceSource
            | UnsupportedForm::PythonUnsupportedSource => ContractRule::PythonPathDependency,
            UnsupportedForm::NpmExportWildcardSubpath
            | UnsupportedForm::NpmExportBlocked
            | UnsupportedForm::NpmExportUnsupportedCondition
            | UnsupportedForm::NpmExportNonStringTarget
            | UnsupportedForm::NpmExportPathEscapesTarget
            | UnsupportedForm::NpmExportSubpathNotDeclared
            | UnsupportedForm::NpmExportsMixedKeys
            | UnsupportedForm::NpmLegacySubpathProbe
            | UnsupportedForm::NpmExportMapTooLarge
            | UnsupportedForm::NpmExportSubpathTooDeep => ContractRule::NpmExportResolution,
        }
    }
}

} // verus!
