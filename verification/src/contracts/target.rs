//! What a neighbour's own manifest says about itself, and how a link quotes its entity.
use vstd::prelude::*;
use crate::contracts::values::{json_parse, parse_json, parse_toml, toml_parse, Json, Toml};
use crate::contracts::ContractRule;
use crate::text::{decimal, decimal_string, push_str, string_of_str};

verus! {

/// The text a JSON value holds under `key`, when it is a string.
pub open spec fn json_text(manifest: Json, key: Seq<char>) -> Option<Seq<char>> {
    match manifest.field(key) {
        Some(v) => v.string_of(),
        None => None,
    }
}

/// The `name` a neighbour's `package.json` declares for itself.
pub fn declared_name(manifest: &Json) -> (name: Option<String>)
    ensures
        match name {
            Some(n) => json_text(*manifest, "name"@) == Some(n@),
            None => json_text(*manifest, "name"@) is None,
        },
{
    match manifest.get("name") {
        Some(v) => match v.as_str() {
            Some(s) => Some(string_of_str(s)),
            None => None,
        },
        None => None,
    }
}

/// The `version` a neighbour's `package.json` declares. Recorded, never compared.
pub fn declared_version(manifest: &Json) -> (version: Option<String>)
    ensures
        match version {
            Some(v) => json_text(*manifest, "version"@) == Some(v@),
            None => json_text(*manifest, "version"@) is None,
        },
{
    match manifest.get("version") {
        Some(v) => match v.as_str() {
            Some(s) => Some(string_of_str(s)),
            None => None,
        },
        None => None,
    }
}

/// The text at `path` inside a TOML value, when every step is a table entry and the last is a
/// string.
pub open spec fn toml_text(value: Toml, path: Seq<Seq<char>>) -> Option<Seq<char>>
    decreases path.len(),
{
    if path.len() == 0 {
        value.string_of()
    } else {
        match value.field(path[0]) {
            Some(inner) => toml_text(inner, path.drop_first()),
            None => None,
        }
    }
}

/// The version a `pyproject.toml` declares: `project.version`, else `tool.poetry.version`.
pub open spec fn pyproject_version_of(manifest: Toml) -> Option<Seq<char>> {
    match toml_text(manifest, seq!["project"@, "version"@]) {
        Some(v) => Some(v),
        None => toml_text(manifest, seq!["tool"@, "poetry"@, "version"@]),
    }
}

/// The version a neighbour's `pyproject.toml` declares: `project.version`, else
/// `tool.poetry.version`. Recorded, never compared.
pub fn pyproject_version(manifest: &Toml) -> (version: Option<String>)
    ensures
        match version {
            Some(v) => pyproject_version_of(*manifest) == Some(v@),
            None => pyproject_version_of(*manifest) is None,
        },
{
    proof {
        reveal_with_fuel(toml_text, 4);
    }
    if let Some(project) = manifest.get("project") {
        if let Some(version) = project.get("version") {
            if let Some(s) = version.as_str() {
                return Some(string_of_str(s));
            }
        }
    }
    if let Some(tool) = manifest.get("tool") {
        if let Some(poetry) = tool.get("poetry") {
            if let Some(version) = poetry.get("version") {
                if let Some(s) = version.as_str() {
                    return Some(string_of_str(s));
                }
            }
        }
    }
    None
}

/// `start:end` for an entity's lines, each `1` where the entity has none; where a link is quoted
/// from.
pub fn entity_span(start_line: Option<u64>, end_line: Option<u64>) -> (span: String)
    ensures
        span@ == decimal(match start_line { Some(l) => l as nat, None => 1 }) + seq![':']
            + decimal(match end_line { Some(l) => l as nat, None => 1 }),
{
    let start = match start_line {
        Some(l) => l,
        None => 1,
    };
    let end = match end_line {
        Some(l) => l,
        None => 1,
    };
    let mut span = decimal_string(start);
    push_str(&mut span, ":");
    let tail = decimal_string(end);
    push_str(&mut span, tail.as_str());
    proof {
        reveal_strlit(":");
    }
    span
}

/// The version a neighbour's manifest text declares for itself under `rule`, if it parses and
/// states one.
pub open spec fn manifest_version_of(rule: ContractRule, text: Seq<char>) -> Option<Seq<char>> {
    match rule {
        ContractRule::PythonPathDependency => match toml_parse(text) {
            Some(v) => pyproject_version_of(v),
            None => None,
        },
        _ => match json_parse(text) {
            Some(v) => json_text(v, "version"@),
            None => None,
        },
    }
}

/// The version a neighbour's manifest declares: `version` in `package.json` for both npm rules,
/// `project.version`, else `tool.poetry.version`, in `pyproject.toml`. A text that does not parse
/// declares none. Recorded, never compared.
pub fn manifest_version(rule: ContractRule, text: &str) -> (version: Option<String>)
    ensures
        match version {
            Some(v) => manifest_version_of(rule, text@) == Some(v@),
            None => manifest_version_of(rule, text@) is None,
        },
{
    match rule {
        ContractRule::PythonPathDependency => match parse_toml(text) {
            Some(value) => pyproject_version(&value),
            None => None,
        },
        _ => match parse_json(text) {
            Some(value) => declared_version(&value),
            None => None,
        },
    }
}

/// The `name` a `package.json` text declares, if it parses as JSON and states one as a string.
/// A workspace member, or a neighbour reached through an import, is known by this name alone.
pub fn manifest_name(text: &str) -> (name: Option<String>)
    ensures
        match name {
            Some(n) => (json_parse(text@) matches Some(v) && json_text(v, "name"@) == Some(n@)),
            None => match json_parse(text@) {
                Some(v) => json_text(v, "name"@) is None,
                None => true,
            },
        },
{
    match parse_json(text) {
        Some(value) => declared_name(&value),
        None => None,
    }
}

} // verus!
