//! The contract vocabularies taken together: their canonical names never collide and all read
//! as lower-case snake text.
use vstd::prelude::*;
use super::{Ambiguity, ContractRule, ManifestRefusal, ScanRefusal, SupportedForm, UnresolvedReason, UnsupportedForm};

verus! {

/// A canonical name in the contract vocabularies: ASCII lower-case letters, digits and `_`.
pub open spec fn is_snake_name(t: Seq<char>) -> bool {
    t.len() > 0 && forall|i: int| 0 <= i < t.len() ==> (('a' <= #[trigger] t[i] && t[i] <= 'z') || ('0' <= t[i] && t[i] <= '9') || t[i] == '_')
}

/// Every ContractRule name is lower-case snake text.
proof fn lemma_rule_names_snake(a: ContractRule)
    ensures
        is_snake_name(a.name_of()),
{
    reveal_strlit("npm_local_dependency");
    reveal_strlit("npm_export_resolution");
    reveal_strlit("python_path_dependency");
}

/// Every SupportedForm name is lower-case snake text.
proof fn lemma_supported_names_snake(a: SupportedForm)
    ensures
        is_snake_name(a.name_of()),
{
    reveal_strlit("npm_file_path");
    reveal_strlit("npm_workspace_wildcard");
    reveal_strlit("npm_workspace_caret");
    reveal_strlit("npm_workspace_tilde");
    reveal_strlit("npm_workspace_version");
    reveal_strlit("python_direct_file_url");
    reveal_strlit("python_poetry_path");
    reveal_strlit("python_uv_source_path");
    reveal_strlit("npm_import_specifier");
    reveal_strlit("npm_exports_string");
    reveal_strlit("npm_exports_subpath");
    reveal_strlit("npm_exports_conditional");
    reveal_strlit("npm_legacy_module");
    reveal_strlit("npm_legacy_main");
    reveal_strlit("npm_legacy_types");
}

/// Every UnsupportedForm name is lower-case snake text.
proof fn lemma_unsupported_names_snake(a: UnsupportedForm)
    ensures
        is_snake_name(a.name_of()),
{
    reveal_strlit("npm_registry_range");
    reveal_strlit("npm_git_specifier");
    reveal_strlit("npm_url_specifier");
    reveal_strlit("npm_alias_specifier");
    reveal_strlit("npm_unsupported_protocol");
    reveal_strlit("npm_non_string_specifier");
    reveal_strlit("npm_workspace_glob_pattern");
    reveal_strlit("python_version_specifier");
    reveal_strlit("python_unsupported_direct_reference");
    reveal_strlit("python_git_source");
    reveal_strlit("python_url_source");
    reveal_strlit("python_workspace_source");
    reveal_strlit("python_unsupported_source");
    reveal_strlit("npm_export_wildcard_subpath");
    reveal_strlit("npm_export_blocked");
    reveal_strlit("npm_export_unsupported_condition");
    reveal_strlit("npm_export_non_string_target");
    reveal_strlit("npm_export_path_escapes_target");
    reveal_strlit("npm_export_subpath_not_declared");
    reveal_strlit("npm_exports_mixed_keys");
    reveal_strlit("npm_legacy_subpath_probe");
    reveal_strlit("npm_export_map_too_large");
    reveal_strlit("npm_export_subpath_too_deep");
}

/// Every UnresolvedReason name is lower-case snake text.
proof fn lemma_unresolved_names_snake(a: UnresolvedReason)
    ensures
        is_snake_name(a.name_of()),
{
    reveal_strlit("declared_path_missing");
    reveal_strlit("declared_path_in_same_repository");
    reveal_strlit("declared_path_not_a_repository_root");
    reveal_strlit("target_not_registered");
    reveal_strlit("registry_entry_unusable");
    reveal_strlit("workspace_member_not_declared");
    reveal_strlit("package_name_not_declared");
    reveal_strlit("target_manifest_unreadable");
    reveal_strlit("target_declares_no_entry_point");
    reveal_strlit("export_target_missing");
}

/// Every ManifestRefusal name is lower-case snake text.
proof fn lemma_refusal_names_snake(a: ManifestRefusal)
    ensures
        is_snake_name(a.name_of()),
{
    reveal_strlit("manifest_too_large");
    reveal_strlit("too_many_declarations");
    reveal_strlit("manifest_unreadable");
    reveal_strlit("manifest_unparsable");
    reveal_strlit("link_budget_exhausted");
    reveal_strlit("source_module_not_indexed");
}

/// Every ScanRefusal name is lower-case snake text.
proof fn lemma_scan_names_snake(a: ScanRefusal)
    ensures
        is_snake_name(a.name_of()),
{
    reveal_strlit("source_not_indexed");
}

/// Every Ambiguity name is lower-case snake text.
proof fn lemma_ambiguity_names_snake(a: Ambiguity)
    ensures
        is_snake_name(a.name_of()),
{
    reveal_strlit("declared_more_than_once");
    reveal_strlit("conflicting_targets");
}

/// No ContractRule name is a SupportedForm name.
proof fn lemma_rule_supported_apart(a: ContractRule, b: SupportedForm)
    ensures
        a.name_of() != b.name_of(),
{
    reveal_strlit("npm_local_dependency");
    reveal_strlit("npm_export_resolution");
    reveal_strlit("python_path_dependency");
    reveal_strlit("npm_file_path");
    reveal_strlit("npm_workspace_wildcard");
    reveal_strlit("npm_workspace_caret");
    reveal_strlit("npm_workspace_tilde");
    reveal_strlit("npm_workspace_version");
    reveal_strlit("python_direct_file_url");
    reveal_strlit("python_poetry_path");
    reveal_strlit("python_uv_source_path");
    reveal_strlit("npm_import_specifier");
    reveal_strlit("npm_exports_string");
    reveal_strlit("npm_exports_subpath");
    reveal_strlit("npm_exports_conditional");
    reveal_strlit("npm_legacy_module");
    reveal_strlit("npm_legacy_main");
    reveal_strlit("npm_legacy_types");
    if a.name_of() == b.name_of() {
        assert(a.name_of().len() == b.name_of().len());
        assert(a.name_of()[4] == b.name_of()[4]);
        assert(a.name_of()[7] == b.name_of()[7]);
        assert(a.name_of()[14] == b.name_of()[14]);
    }
}

/// No ContractRule name is a UnsupportedForm name.
proof fn lemma_rule_unsupported_apart(a: ContractRule, b: UnsupportedForm)
    ensures
        a.name_of() != b.name_of(),
{
    reveal_strlit("npm_local_dependency");
    reveal_strlit("npm_export_resolution");
    reveal_strlit("python_path_dependency");
    reveal_strlit("npm_registry_range");
    reveal_strlit("npm_git_specifier");
    reveal_strlit("npm_url_specifier");
    reveal_strlit("npm_alias_specifier");
    reveal_strlit("npm_unsupported_protocol");
    reveal_strlit("npm_non_string_specifier");
    reveal_strlit("npm_workspace_glob_pattern");
    reveal_strlit("python_version_specifier");
    reveal_strlit("python_unsupported_direct_reference");
    reveal_strlit("python_git_source");
    reveal_strlit("python_url_source");
    reveal_strlit("python_workspace_source");
    reveal_strlit("python_unsupported_source");
    reveal_strlit("npm_export_wildcard_subpath");
    reveal_strlit("npm_export_blocked");
    reveal_strlit("npm_export_unsupported_condition");
    reveal_strlit("npm_export_non_string_target");
    reveal_strlit("npm_export_path_escapes_target");
    reveal_strlit("npm_export_subpath_not_declared");
    reveal_strlit("npm_exports_mixed_keys");
    reveal_strlit("npm_legacy_subpath_probe");
    reveal_strlit("npm_export_map_too_large");
    reveal_strlit("npm_export_subpath_too_deep");
    if a.name_of() == b.name_of() {
        assert(a.name_of().len() == b.name_of().len());
        assert(a.name_of()[4] == b.name_of()[4]);
        assert(a.name_of()[7] == b.name_of()[7]);
        assert(a.name_of()[14] == b.name_of()[14]);
    }
}

/// No ContractRule name is a UnresolvedReason name.
proof fn lemma_rule_unresolved_apart(a: ContractRule, b: UnresolvedReason)
    ensures
        a.name_of() != b.name_of(),
{
    reveal_strlit("npm_local_dependency");
    reveal_strlit("npm_export_resolution");
    reveal_strlit("python_path_dependency");
    reveal_strlit("declared_path_missing");
    reveal_strlit("declared_path_in_same_repository");
    reveal_strlit("declared_path_not_a_repository_root");
    reveal_strlit("target_not_registered");
    reveal_strlit("registry_entry_unusable");
    reveal_strlit("workspace_member_not_declared");
    reveal_strlit("package_name_not_declared");
    reveal_strlit("target_manifest_unreadable");
    reveal_strlit("target_declares_no_entry_point");
    reveal_strlit("export_target_missing");
    if a.name_of() == b.name_of() {
        assert(a.name_of().len() == b.name_of().len());
        assert(a.name_of()[4] == b.name_of()[4]);
        assert(a.name_of()[7] == b.name_of()[7]);
        assert(a.name_of()[14] == b.name_of()[14]);
    }
}

/// No ContractRule name is a ManifestRefusal name.
proof fn lemma_rule_refusal_apart(a: ContractRule, b: ManifestRefusal)
    ensures
        a.name_of() != b.name_of(),
{
    reveal_strlit("npm_local_dependency");
    reveal_strlit("npm_export_resolution");
    reveal_strlit("python_path_dependency");
    reveal_strlit("manifest_too_large");
    reveal_strlit("too_many_declarations");
    reveal_strlit("manifest_unreadable");
    reveal_strlit("manifest_unparsable");
    reveal_strlit("link_budget_exhausted");
    reveal_strlit("source_module_not_indexed");
    if a.name_of() == b.name_of() {
        assert(a.name_of().len() == b.name_of().len());
        assert(a.name_of()[4] == b.name_of()[4]);
        assert(a.name_of()[7] == b.name_of()[7]);
        assert(a.name_of()[14] == b.name_of()[14]);
    }
}

/// No ContractRule name is a ScanRefusal name.
proof fn lemma_rule_scan_apart(a: ContractRule, b: ScanRefusal)
    ensures
        a.name_of() != b.name_of(),
{
    reveal_strlit("npm_local_dependency");
    reveal_strlit("npm_export_resolution");
    reveal_strlit("python_path_dependency");
    reveal_strlit("source_not_indexed");
    if a.name_of() == b.name_of() {
        assert(a.name_of().len() == b.name_of().len());
        assert(a.name_of()[4] == b.name_of()[4]);
        assert(a.name_of()[7] == b.name_of()[7]);
        assert(a.name_of()[14] == b.name_of()[14]);
    }
}

/// No ContractRule name is a Ambiguity name.
proof fn lemma_rule_ambiguity_apart(a: ContractRule, b: Ambiguity)
    ensures
        a.name_of() != b.name_of(),
{
    reveal_strlit("npm_local_dependency");
    reveal_strlit("npm_export_resolution");
    reveal_strlit("python_path_dependency");
    reveal_strlit("declared_more_than_once");
    reveal_strlit("conflicting_targets");
    if a.name_of() == b.name_of() {
        assert(a.name_of().len() == b.name_of().len());
        assert(a.name_of()[4] == b.name_of()[4]);
        assert(a.name_of()[7] == b.name_of()[7]);
        assert(a.name_of()[14] == b.name_of()[14]);
    }
}

/// No SupportedForm name is a UnsupportedForm name.
proof fn lemma_supported_unsupported_apart(a: SupportedForm, b: UnsupportedForm)
    ensures
        a.name_of() != b.name_of(),
{
    reveal_strlit("npm_file_path");
    reveal_strlit("npm_workspace_wildcard");
    reveal_strlit("npm_workspace_caret");
    reveal_strlit("npm_workspace_tilde");
    reveal_strlit("npm_workspace_version");
    reveal_strlit("python_direct_file_url");
    reveal_strlit("python_poetry_path");
    reveal_strlit("python_uv_source_path");
    reveal_strlit("npm_import_specifier");
    reveal_strlit("npm_exports_string");
    reveal_strlit("npm_exports_subpath");
    reveal_strlit("npm_exports_conditional");
    reveal_strlit("npm_legacy_module");
    reveal_strlit("npm_legacy_main");
    reveal_strlit("npm_legacy_types");
    reveal_strlit("npm_registry_range");
    reveal_strlit("npm_git_specifier");
    reveal_strlit("npm_url_specifier");
    reveal_strlit("npm_alias_specifier");
    reveal_strlit("npm_unsupported_protocol");
    reveal_strlit("npm_non_string_specifier");
    reveal_strlit("npm_workspace_glob_pattern");
    reveal_strlit("python_version_specifier");
    reveal_strlit("python_unsupported_direct_reference");
    reveal_strlit("python_git_source");
    reveal_strlit("python_url_source");
    reveal_strlit("python_workspace_source");
    reveal_strlit("python_unsupported_source");
    reveal_strlit("npm_export_wildcard_subpath");
    reveal_strlit("npm_export_blocked");
    reveal_strlit("npm_export_unsupported_condition");
    reveal_strlit("npm_export_non_string_target");
    reveal_strlit("npm_export_path_escapes_target");
    reveal_strlit("npm_export_subpath_not_declared");
    reveal_strlit("npm_exports_mixed_keys");
    reveal_strlit("npm_legacy_subpath_probe");
    reveal_strlit("npm_export_map_too_large");
    reveal_strlit("npm_export_subpath_too_deep");
    if a.name_of() == b.name_of() {
        assert(a.name_of().len() == b.name_of().len());
        assert(a.name_of()[4] == b.name_of()[4]);
        assert(a.name_of()[7] == b.name_of()[7]);
        assert(a.name_of()[14] == b.name_of()[14]);
    }
}

/// No SupportedForm name is a UnresolvedReason name.
proof fn lemma_supported_unresolved_apart(a: SupportedForm, b: UnresolvedReason)
    ensures
        a.name_of() != b.name_of(),
{
    reveal_strlit("npm_file_path");
    reveal_strlit("npm_workspace_wildcard");
    reveal_strlit("npm_workspace_caret");
    reveal_strlit("npm_workspace_tilde");
    reveal_strlit("npm_workspace_version");
    reveal_strlit("python_direct_file_url");
    reveal_strlit("python_poetry_path");
    reveal_strlit("python_uv_source_path");
    reveal_strlit("npm_import_specifier");
    reveal_strlit("npm_exports_string");
    reveal_strlit("npm_exports_subpath");
    reveal_strlit("npm_exports_conditional");
    reveal_strlit("npm_legacy_module");
    reveal_strlit("npm_legacy_main");
    reveal_strlit("npm_legacy_types");
    reveal_strlit("declared_path_missing");
    reveal_strlit("declared_path_in_same_repository");
    reveal_strlit("declared_path_not_a_repository_root");
    reveal_strlit("target_not_registered");
    reveal_strlit("registry_entry_unusable");
    reveal_strlit("workspace_member_not_declared");
    reveal_strlit("package_name_not_declared");
    reveal_strlit("target_manifest_unreadable");
    reveal_strlit("target_declares_no_entry_point");
    reveal_strlit("export_target_missing");
    if a.name_of() == b.name_of() {
        assert(a.name_of().len() == b.name_of().len());
        assert(a.name_of()[4] == b.name_of()[4]);
        assert(a.name_of()[7] == b.name_of()[7]);
        assert(a.name_of()[14] == b.name_of()[14]);
    }
}

/// No SupportedForm name is a ManifestRefusal name.
proof fn lemma_supported_refusal_apart(a: SupportedForm, b: ManifestRefusal)
    ensures
        a.name_of() != b.name_of(),
{
    reveal_strlit("npm_file_path");
    reveal_strlit("npm_workspace_wildcard");
    reveal_strlit("npm_workspace_caret");
    reveal_strlit("npm_workspace_tilde");
    reveal_strlit("npm_workspace_version");
    reveal_strlit("python_direct_file_url");
    reveal_strlit("python_poetry_path");
    reveal_strlit("python_uv_source_path");
    reveal_strlit("npm_import_specifier");
    reveal_strlit("npm_exports_string");
    reveal_strlit("npm_exports_subpath");
    reveal_strlit("npm_exports_conditional");
    reveal_strlit("npm_legacy_module");
    reveal_strlit("npm_legacy_main");
    reveal_strlit("npm_legacy_types");
    reveal_strlit("manifest_too_large");
    reveal_strlit("too_many_declarations");
    reveal_strlit("manifest_unreadable");
    reveal_strlit("manifest_unparsable");
    reveal_strlit("link_budget_exhausted");
    reveal_strlit("source_module_not_indexed");
    if a.name_of() == b.name_of() {
        assert(a.name_of().len() == b.name_of().len());
        assert(a.name_of()[4] == b.name_of()[4]);
        assert(a.name_of()[7] == b.name_of()[7]);
        assert(a.name_of()[14] == b.name_of()[14]);
    }
}

/// No SupportedForm name is a ScanRefusal name.
proof fn lemma_supported_scan_apart(a: SupportedForm, b: ScanRefusal)
    ensures
        a.name_of() != b.name_of(),
{
    reveal_strlit("npm_file_path");
    reveal_strlit("npm_workspace_wildcard");
    reveal_strlit("npm_workspace_caret");
    reveal_strlit("npm_workspace_tilde");
    reveal_strlit("npm_workspace_version");
    reveal_strlit("python_direct_file_url");
    reveal_strlit("python_poetry_path");
    reveal_strlit("python_uv_source_path");
    reveal_strlit("npm_import_specifier");
    reveal_strlit("npm_exports_string");
    reveal_strlit("npm_exports_subpath");
    reveal_strlit("npm_exports_conditional");
    reveal_strlit("npm_legacy_module");
    reveal_strlit("npm_legacy_main");
    reveal_strlit("npm_legacy_types");
    reveal_strlit("source_not_indexed");
    if a.name_of() == b.name_of() {
        assert(a.name_of().len() == b.name_of().len());
        assert(a.name_of()[4] == b.name_of()[4]);
        assert(a.name_of()[7] == b.name_of()[7]);
        assert(a.name_of()[14] == b.name_of()[14]);
    }
}

/// No SupportedForm name is a Ambiguity name.
proof fn lemma_supported_ambiguity_apart(a: SupportedForm, b: Ambiguity)
    ensures
        a.name_of() != b.name_of(),
{
    reveal_strlit("npm_file_path");
    reveal_strlit("npm_workspace_wildcard");
    reveal_strlit("npm_workspace_caret");
    reveal_strlit("npm_workspace_tilde");
    reveal_strlit("npm_workspace_version");
    reveal_strlit("python_direct_file_url");
    reveal_strlit("python_poetry_path");
    reveal_strlit("python_uv_source_path");
    reveal_strlit("npm_import_specifier");
    reveal_strlit("npm_exports_string");
    reveal_strlit("npm_exports_subpath");
    reveal_strlit("npm_exports_conditional");
    reveal_strlit("npm_legacy_module");
    reveal_strlit("npm_legacy_main");
    reveal_strlit("npm_legacy_types");
    reveal_strlit("declared_more_than_once");
    reveal_strlit("conflicting_targets");
    if a.name_of() == b.name_of() {
        assert(a.name_of().len() == b.name_of().len());
        assert(a.name_of()[4] == b.name_of()[4]);
        assert(a.name_of()[7] == b.name_of()[7]);
        assert(a.name_of()[14] == b.name_of()[14]);
    }
}

/// No UnsupportedForm name is a UnresolvedReason name.
proof fn lemma_unsupported_unresolved_apart(a: UnsupportedForm, b: UnresolvedReason)
    ensures
        a.name_of() != b.name_of(),
{
    reveal_strlit("npm_registry_range");
    reveal_strlit("npm_git_specifier");
    reveal_strlit("npm_url_specifier");
    reveal_strlit("npm_alias_specifier");
    reveal_strlit("npm_unsupported_protocol");
    reveal_strlit("npm_non_string_specifier");
    reveal_strlit("npm_workspace_glob_pattern");
    reveal_strlit("python_version_specifier");
    reveal_strlit("python_unsupported_direct_reference");
    reveal_strlit("python_git_source");
    reveal_strlit("python_url_source");
    reveal_strlit("python_workspace_source");
    reveal_strlit("python_unsupported_source");
    reveal_strlit("npm_export_wildcard_subpath");
    reveal_strlit("npm_export_blocked");
    reveal_strlit("npm_export_unsupported_condition");
    reveal_strlit("npm_export_non_string_target");
    reveal_strlit("npm_export_path_escapes_target");
    reveal_strlit("npm_export_subpath_not_declared");
    reveal_strlit("npm_exports_mixed_keys");
    reveal_strlit("npm_legacy_subpath_probe");
    reveal_strlit("npm_export_map_too_large");
    reveal_strlit("npm_export_subpath_too_deep");
    reveal_strlit("declared_path_missing");
    reveal_strlit("declared_path_in_same_repository");
    reveal_strlit("declared_path_not_a_repository_root");
    reveal_strlit("target_not_registered");
    reveal_strlit("registry_entry_unusable");
    reveal_strlit("workspace_member_not_declared");
    reveal_strlit("package_name_not_declared");
    reveal_strlit("target_manifest_unreadable");
    reveal_strlit("target_declares_no_entry_point");
    reveal_strlit("export_target_missing");
    if a.name_of() == b.name_of() {
        assert(a.name_of().len() == b.name_of().len());
        assert(a.name_of()[4] == b.name_of()[4]);
        assert(a.name_of()[7] == b.name_of()[7]);
        assert(a.name_of()[14] == b.name_of()[14]);
    }
}

/// No UnsupportedForm name is a ManifestRefusal name.
proof fn lemma_unsupported_refusal_apart(a: UnsupportedForm, b: ManifestRefusal)
    ensures
        a.name_of() != b.name_of(),
{
    reveal_strlit("npm_registry_range");
    reveal_strlit("npm_git_specifier");
    reveal_strlit("npm_url_specifier");
    reveal_strlit("npm_alias_specifier");
    reveal_strlit("npm_unsupported_protocol");
    reveal_strlit("npm_non_string_specifier");
    reveal_strlit("npm_workspace_glob_pattern");
    reveal_strlit("python_version_specifier");
    reveal_strlit("python_unsupported_direct_reference");
    reveal_strlit("python_git_source");
    reveal_strlit("python_url_source");
    reveal_strlit("python_workspace_source");
    reveal_strlit("python_unsupported_source");
    reveal_strlit("npm_export_wildcard_subpath");
    reveal_strlit("npm_export_blocked");
    reveal_strlit("npm_export_unsupported_condition");
    reveal_strlit("npm_export_non_string_target");
    reveal_strlit("npm_export_path_escapes_target");
    reveal_strlit("npm_export_subpath_not_declared");
    reveal_strlit("npm_exports_mixed_keys");
    reveal_strlit("npm_legacy_subpath_probe");
    reveal_strlit("npm_export_map_too_large");
    reveal_strlit("npm_export_subpath_too_deep");
    reveal_strlit("manifest_too_large");
    reveal_strlit("too_many_declarations");
    reveal_strlit("manifest_unreadable");
    reveal_strlit("manifest_unparsable");
    reveal_strlit("link_budget_exhausted");
    reveal_strlit("source_module_not_indexed");
    if a.name_of() == b.name_of() {
        assert(a.name_of().len() == b.name_of().len());
        assert(a.name_of()[4] == b.name_of()[4]);
        assert(a.name_of()[7] == b.name_of()[7]);
        assert(a.name_of()[14] == b.name_of()[14]);
    }
}

/// No UnsupportedForm name is a ScanRefusal name.
proof fn lemma_unsupported_scan_apart(a: UnsupportedForm, b: ScanRefusal)
    ensures
        a.name_of() != b.name_of(),
{
    reveal_strlit("npm_registry_range");
    reveal_strlit("npm_git_specifier");
    reveal_strlit("npm_url_specifier");
    reveal_strlit("npm_alias_specifier");
    reveal_strlit("npm_unsupported_protocol");
    reveal_strlit("npm_non_string_specifier");
    reveal_strlit("npm_workspace_glob_pattern");
    reveal_strlit("python_version_specifier");
    reveal_strlit("python_unsupported_direct_reference");
    reveal_strlit("python_git_source");
    reveal_strlit("python_url_source");
    reveal_strlit("python_workspace_source");
    reveal_strlit("python_unsupported_source");
    reveal_strlit("npm_export_wildcard_subpath");
    reveal_strlit("npm_export_blocked");
    reveal_strlit("npm_export_unsupported_condition");
    reveal_strlit("npm_export_non_string_target");
    reveal_strlit("npm_export_path_escapes_target");
    reveal_strlit("npm_export_subpath_not_declared");
    reveal_strlit("npm_exports_mixed_keys");
    reveal_strlit("npm_legacy_subpath_probe");
    reveal_strlit("npm_export_map_too_large");
    reveal_strlit("npm_export_subpath_too_deep");
    reveal_strlit("source_not_indexed");
    if a.name_of() == b.name_of() {
        assert(a.name_of().len() == b.name_of().len());
        assert(a.name_of()[4] == b.name_of()[4]);
        assert(a.name_of()[7] == b.name_of()[7]);
        assert(a.name_of()[14] == b.name_of()[14]);
    }
}

/// No UnsupportedForm name is a Ambiguity name.
proof fn lemma_unsupported_ambiguity_apart(a: UnsupportedForm, b: Ambiguity)
    ensures
        a.name_of() != b.name_of(),
{
    reveal_strlit("npm_registry_range");
    reveal_strlit("npm_git_specifier");
    reveal_strlit("npm_url_specifier");
    reveal_strlit("npm_alias_specifier");
    reveal_strlit("npm_unsupported_protocol");
    reveal_strlit("npm_non_string_specifier");
    reveal_strlit("npm_workspace_glob_pattern");
    reveal_strlit("python_version_specifier");
    reveal_strlit("python_unsupported_direct_reference");
    reveal_strlit("python_git_source");
    reveal_strlit("python_url_source");
    reveal_strlit("python_workspace_source");
    reveal_strlit("python_unsupported_source");
    reveal_strlit("npm_export_wildcard_subpath");
    reveal_strlit("npm_export_blocked");
    reveal_strlit("npm_export_unsupported_condition");
    reveal_strlit("npm_export_non_string_target");
    reveal_strlit("npm_export_path_escapes_target");
    reveal_strlit("npm_export_subpath_not_declared");
    reveal_strlit("npm_exports_mixed_keys");
    reveal_strlit("npm_legacy_subpath_probe");
    reveal_strlit("npm_export_map_too_large");
    reveal_strlit("npm_export_subpath_too_deep");
    reveal_strlit("declared_more_than_once");
    reveal_strlit("conflicting_targets");
    if a.name_of() == b.name_of() {
        assert(a.name_of().len() == b.name_of().len());
        assert(a.name_of()[4] == b.name_of()[4]);
        assert(a.name_of()[7] == b.name_of()[7]);
        assert(a.name_of()[14] == b.name_of()[14]);
    }
}

/// No UnresolvedReason name is a ManifestRefusal name.
proof fn lemma_unresolved_refusal_apart(a: UnresolvedReason, b: ManifestRefusal)
    ensures
        a.name_of() != b.name_of(),
{
    reveal_strlit("declared_path_missing");
    reveal_strlit("declared_path_in_same_repository");
    reveal_strlit("declared_path_not_a_repository_root");
    reveal_strlit("target_not_registered");
    reveal_strlit("registry_entry_unusable");
    reveal_strlit("workspace_member_not_declared");
    reveal_strlit("package_name_not_declared");
    reveal_strlit("target_manifest_unreadable");
    reveal_strlit("target_declares_no_entry_point");
    reveal_strlit("export_target_missing");
    reveal_strlit("manifest_too_large");
    reveal_strlit("too_many_declarations");
    reveal_strlit("manifest_unreadable");
    reveal_strlit("manifest_unparsable");
    reveal_strlit("link_budget_exhausted");
    reveal_strlit("source_module_not_indexed");
    if a.name_of() == b.name_of() {
        assert(a.name_of().len() == b.name_of().len());
        assert(a.name_of()[4] == b.name_of()[4]);
        assert(a.name_of()[7] == b.name_of()[7]);
        assert(a.name_of()[14] == b.name_of()[14]);
    }
}

/// No UnresolvedReason name is a ScanRefusal name.
proof fn lemma_unresolved_scan_apart(a: UnresolvedReason, b: ScanRefusal)
    ensures
        a.name_of() != b.name_of(),
{
    reveal_strlit("declared_path_missing");
    reveal_strlit("declared_path_in_same_repository");
    reveal_strlit("declared_path_not_a_repository_root");
    reveal_strlit("target_not_registered");
    reveal_strlit("registry_entry_unusable");
    reveal_strlit("workspace_member_not_declared");
    reveal_strlit("package_name_not_declared");
    reveal_strlit("target_manifest_unreadable");
    reveal_strlit("target_declares_no_entry_point");
    reveal_strlit("export_target_missing");
    reveal_strlit("source_not_indexed");
    if a.name_of() == b.name_of() {
        assert(a.name_of().len() == b.name_of().len());
        assert(a.name_of()[4] == b.name_of()[4]);
        assert(a.name_of()[7] == b.name_of()[7]);
        assert(a.name_of()[14] == b.name_of()[14]);
    }
}

/// No UnresolvedReason name is a Ambiguity name.
proof fn lemma_unresolved_ambiguity_apart(a: UnresolvedReason, b: Ambiguity)
    ensures
        a.name_of() != b.name_of(),
{
    reveal_strlit("declared_path_missing");
    reveal_strlit("declared_path_in_same_repository");
    reveal_strlit("declared_path_not_a_repository_root");
    reveal_strlit("target_not_registered");
    reveal_strlit("registry_entry_unusable");
    reveal_strlit("workspace_member_not_declared");
    reveal_strlit("package_name_not_declared");
    reveal_strlit("target_manifest_unreadable");
    reveal_strlit("target_declares_no_entry_point");
    reveal_strlit("export_target_missing");
    reveal_strlit("declared_more_than_once");
    reveal_strlit("conflicting_targets");
    if a.name_of() == b.name_of() {
        assert(a.name_of().len() == b.name_of().len());
        assert(a.name_of()[4] == b.name_of()[4]);
        assert(a.name_of()[7] == b.name_of()[7]);
        assert(a.name_of()[14] == b.name_of()[14]);
    }
}

/// No ManifestRefusal name is a ScanRefusal name.
proof fn lemma_refusal_scan_apart(a: ManifestRefusal, b: ScanRefusal)
    ensures
        a.name_of() != b.name_of(),
{
    reveal_strlit("manifest_too_large");
    reveal_strlit("too_many_declarations");
    reveal_strlit("manifest_unreadable");
    reveal_strlit("manifest_unparsable");
    reveal_strlit("link_budget_exhausted");
    reveal_strlit("source_module_not_indexed");
    reveal_strlit("source_not_indexed");
    if a.name_of() == b.name_of() {
        assert(a.name_of().len() == b.name_of().len());
        assert(a.name_of()[4] == b.name_of()[4]);
        assert(a.name_of()[7] == b.name_of()[7]);
        assert(a.name_of()[14] == b.name_of()[14]);
    }
}

/// No ManifestRefusal name is a Ambiguity name.
proof fn lemma_refusal_ambiguity_apart(a: ManifestRefusal, b: Ambiguity)
    ensures
        a.name_of() != b.name_of(),
{
    reveal_strlit("manifest_too_large");
    reveal_strlit("too_many_declarations");
    reveal_strlit("manifest_unreadable");
    reveal_strlit("manifest_unparsable");
    reveal_strlit("link_budget_exhausted");
    reveal_strlit("source_module_not_indexed");
    reveal_strlit("declared_more_than_once");
    reveal_strlit("conflicting_targets");
    if a.name_of() == b.name_of() {
        assert(a.name_of().len() == b.name_of().len());
        assert(a.name_of()[4] == b.name_of()[4]);
        assert(a.name_of()[7] == b.name_of()[7]);
        assert(a.name_of()[14] == b.name_of()[14]);
    }
}

/// No ScanRefusal name is a Ambiguity name.
proof fn lemma_scan_ambiguity_apart(a: ScanRefusal, b: Ambiguity)
    ensures
        a.name_of() != b.name_of(),
{
    reveal_strlit("source_not_indexed");
    reveal_strlit("declared_more_than_once");
    reveal_strlit("conflicting_targets");
    if a.name_of() == b.name_of() {
        assert(a.name_of().len() == b.name_of().len());
        assert(a.name_of()[4] == b.name_of()[4]);
        assert(a.name_of()[7] == b.name_of()[7]);
        assert(a.name_of()[14] == b.name_of()[14]);
    }
}

/// The names of the seven contract vocabularies (rules, supported forms, unsupported forms,
/// unresolved reasons, manifest refusals, scan refusals, ambiguities) never collide across
/// vocabularies, and every one is lower-case snake text. Within each vocabulary the names are
/// distinct too: see each type's `lemma_names_distinct`.
pub proof fn lemma_contract_names_apart_and_snake(rule: ContractRule, supported: SupportedForm, unsupported: UnsupportedForm, unresolved: UnresolvedReason, refusal: ManifestRefusal, scan: ScanRefusal, ambiguity: Ambiguity)
    ensures
        rule.name_of() != supported.name_of(),
        rule.name_of() != unsupported.name_of(),
        rule.name_of() != unresolved.name_of(),
        rule.name_of() != refusal.name_of(),
        rule.name_of() != scan.name_of(),
        rule.name_of() != ambiguity.name_of(),
        supported.name_of() != unsupported.name_of(),
        supported.name_of() != unresolved.name_of(),
        supported.name_of() != refusal.name_of(),
        supported.name_of() != scan.name_of(),
        supported.name_of() != ambiguity.name_of(),
        unsupported.name_of() != unresolved.name_of(),
        unsupported.name_of() != refusal.name_of(),
        unsupported.name_of() != scan.name_of(),
        unsupported.name_of() != ambiguity.name_of(),
        unresolved.name_of() != refusal.name_of(),
        unresolved.name_of() != scan.name_of(),
        unresolved.name_of() != ambiguity.name_of(),
        refusal.name_of() != scan.name_of(),
        refusal.name_of() != ambiguity.name_of(),
        scan.name_of() != ambiguity.name_of(),
        is_snake_name(rule.name_of()),
        is_snake_name(supported.name_of()),
        is_snake_name(unsupported.name_of()),
        is_snake_name(unresolved.name_of()),
        is_snake_name(refusal.name_of()),
        is_snake_name(scan.name_of()),
        is_snake_name(ambiguity.name_of()),
{
    lemma_rule_supported_apart(rule, supported);
    lemma_rule_unsupported_apart(rule, unsupported);
    lemma_rule_unresolved_apart(rule, unresolved);
    lemma_rule_refusal_apart(rule, refusal);
    lemma_rule_scan_apart(rule, scan);
    lemma_rule_ambiguity_apart(rule, ambiguity);
    lemma_supported_unsupported_apart(supported, unsupported);
    lemma_supported_unresolved_apart(supported, unresolved);
    lemma_supported_refusal_apart(supported, refusal);
    lemma_supported_scan_apart(supported, scan);
    lemma_supported_ambiguity_apart(supported, ambiguity);
    lemma_unsupported_unresolved_apart(unsupported, unresolved);
    lemma_unsupported_refusal_apart(unsupported, refusal);
    lemma_unsupported_scan_apart(unsupported, scan);
    lemma_unsupported_ambiguity_apart(unsupported, ambiguity);
    lemma_unresolved_refusal_apart(unresolved, refusal);
    lemma_unresolved_scan_apart(unresolved, scan);
    lemma_unresolved_ambiguity_apart(unresolved, ambiguity);
    lemma_refusal_scan_apart(refusal, scan);
    lemma_refusal_ambiguity_apart(refusal, ambiguity);
    lemma_scan_ambiguity_apart(scan, ambiguity);
    lemma_rule_names_snake(rule);
    lemma_supported_names_snake(supported);
    lemma_unsupported_names_snake(unsupported);
    lemma_unresolved_names_snake(unresolved);
    lemma_refusal_names_snake(refusal);
    lemma_scan_names_snake(scan);
    lemma_ambiguity_names_snake(ambiguity);
}

} // verus!
