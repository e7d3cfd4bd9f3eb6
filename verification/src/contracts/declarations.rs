//! Reading one dependency declaration: C1's npm specifiers, C3's PEP 508 requirements and
//! Poetry / uv source tables. The whole of each rule's supported syntax is one function here;
//! everything else is declined with its form named.
use vstd::prelude::*;
use crate::text::{
    after, after_prefix, chars_of, contains_char, find_char, first_index, has_prefix, is_first_at,
    is_white_space, starts_with, str_eq, string_of, trim_chars, trimmed,
};
use super::exports::{has_scheme, scheme_prefixed};
use super::lines::{json_key_lines, json_key_log, toml_lines, toml_places, KeyLines, TomlLines, TomlPlaces};
use vstd::string::StringSliceAdditionalSpecFns;
use super::values::{member, member_of, key_index, find_key, json_parse, parse_json, parse_toml, toml_parse, Json, JsonShape, Toml, TomlShape};
use super::{ContractRule, SupportedForm, UnsupportedForm, ManifestRefusal, MAX_DECLARATIONS_PER_MANIFEST};

verus! {

/// Where a supported declaration says its target is.
#[derive(Debug, Clone, PartialEq, Eq)]
pub enum DeclaredPath {
    /// The declaration states the path itself, relative to the manifest's directory or absolute.
    Stated(String),
    /// The declaration states no path; the source manifest's `workspaces` array does.
    WorkspaceMember,
}

/// What a declaration turned out to be.
#[derive(Debug, Clone, PartialEq, Eq)]
pub enum DeclarationOutcome {
    /// A form Nerve reads, with the path it names and the version it asks for.
    Supported {
        /// The form.
        form: SupportedForm,
        /// Where the target is.
        path: DeclaredPath,
        /// The version asked for, when the form states one.
        version: Option<String>,
    },
    /// A form Nerve declines, named.
    Unsupported(UnsupportedForm),
}

/// [`DeclaredPath`] with its text as characters.
pub enum PathView {
    /// A stated path.
    Stated(Seq<char>),
    /// A workspace member.
    WorkspaceMember,
}

/// [`DeclarationOutcome`] with its text as characters.
pub enum OutcomeView {
    /// A supported form, its path and its version.
    Supported { form: SupportedForm, path: PathView, version: Option<Seq<char>> },
    /// A declined form.
    Unsupported(UnsupportedForm),
}

impl View for DeclaredPath {
    type V = PathView;

    open spec fn view(&self) -> PathView {
        match self {
            DeclaredPath::Stated(p) => PathView::Stated(p@),
            DeclaredPath::WorkspaceMember => PathView::WorkspaceMember,
        }
    }
}

impl View for DeclarationOutcome {
    type V = OutcomeView;

    open spec fn view(&self) -> OutcomeView {
        match self {
            DeclarationOutcome::Supported { form, path, version } => OutcomeView::Supported {
                form: *form,
                path: path@,
                version: match version {
                    Some(v) => Some(v@),
                    None => None,
                },
            },
            DeclarationOutcome::Unsupported(form) => OutcomeView::Unsupported(*form),
        }
    }
}

// ---- C1 ---------------------------------------------------------------------------------------

/// A specifier that names a git resolution by its prefix.
pub open spec fn git_prefixed(t: Seq<char>) -> bool {
    ||| has_prefix(t, "git:"@)
    ||| has_prefix(t, "git+"@)
    ||| has_prefix(t, "github:"@)
    ||| has_prefix(t, "gitlab:"@)
    ||| has_prefix(t, "bitbucket:"@)
    ||| has_prefix(t, "gist:"@)
    ||| has_prefix(t, "ssh://"@)
}

/// The form a `workspace:` remainder states.
pub open spec fn workspace_form(rest: Seq<char>) -> Option<SupportedForm> {
    if rest == seq!['*'] {
        Some(SupportedForm::NpmWorkspaceWildcard)
    } else if rest == seq!['^'] {
        Some(SupportedForm::NpmWorkspaceCaret)
    } else if rest == seq!['~'] {
        Some(SupportedForm::NpmWorkspaceTilde)
    } else if rest.len() == 0 || rest[0] == '.' || rest[0] == '/' {
        None
    } else {
        Some(SupportedForm::NpmWorkspaceVersion)
    }
}

/// What C1 reads an npm specifier as: `file:` with a path, or `workspace:` with one of its four
/// shapes, and nothing else. Everything else is declined with its form named.
pub open spec fn npm_outcome(specifier: Seq<char>) -> OutcomeView {
    let t = trimmed(specifier);
    if has_prefix(t, "file:"@) {
        let path = after(t, "file:"@);
        if path.len() == 0 {
            OutcomeView::Unsupported(UnsupportedForm::NpmUnsupportedProtocol)
        } else {
            OutcomeView::Supported {
                form: SupportedForm::NpmFilePath,
                path: PathView::Stated(path),
                version: None,
            }
        }
    } else if has_prefix(t, "workspace:"@) {
        let rest = after(t, "workspace:"@);
        match workspace_form(rest) {
            Some(form) => OutcomeView::Supported {
                form,
                path: PathView::WorkspaceMember,
                version: Some(rest),
            },
            None => OutcomeView::Unsupported(UnsupportedForm::NpmUnsupportedProtocol),
        }
    } else if has_prefix(t, "npm:"@) {
        OutcomeView::Unsupported(UnsupportedForm::NpmAliasSpecifier)
    } else if git_prefixed(t) {
        OutcomeView::Unsupported(UnsupportedForm::NpmGitSpecifier)
    } else if has_prefix(t, "http://"@) || has_prefix(t, "https://"@) {
        OutcomeView::Unsupported(UnsupportedForm::NpmUrlSpecifier)
    } else if scheme_prefixed(t) {
        OutcomeView::Unsupported(UnsupportedForm::NpmUnsupportedProtocol)
    } else if t.contains('/') && !(t.len() > 0 && (t[0] == '.' || t[0] == '/')) {
        OutcomeView::Unsupported(UnsupportedForm::NpmGitSpecifier)
    } else {
        OutcomeView::Unsupported(UnsupportedForm::NpmRegistryRange)
    }
}

/// The outcome of a `workspace:` specifier with this remainder.
fn workspace_outcome(rest: &[char]) -> (out: DeclarationOutcome)
    ensures
        out@ == match workspace_form(rest@) {
            Some(form) => OutcomeView::Supported {
                form,
                path: PathView::WorkspaceMember,
                version: Some(rest@),
            },
            None => OutcomeView::Unsupported(UnsupportedForm::NpmUnsupportedProtocol),
        },
{
    let one = rest.len() == 1;
    assert(one ==> rest@ =~= seq![rest@[0]]);
    let form = if one && rest[0] == '*' {
        SupportedForm::NpmWorkspaceWildcard
    } else if one && rest[0] == '^' {
        SupportedForm::NpmWorkspaceCaret
    } else if one && rest[0] == '~' {
        SupportedForm::NpmWorkspaceTilde
    } else if rest.len() == 0 || rest[0] == '.' || rest[0] == '/' {
        return DeclarationOutcome::Unsupported(UnsupportedForm::NpmUnsupportedProtocol);
    } else {
        assert(rest@ != seq!['*']) by {
            if rest@ == seq!['*'] {
                assert(rest@[0] == seq!['*'][0]);
            }
        }
        assert(rest@ != seq!['^']) by {
            if rest@ == seq!['^'] {
                assert(rest@[0] == seq!['^'][0]);
            }
        }
        assert(rest@ != seq!['~']) by {
            if rest@ == seq!['~'] {
                assert(rest@[0] == seq!['~'][0]);
            }
        }
        SupportedForm::NpmWorkspaceVersion
    };
    DeclarationOutcome::Supported {
        form,
        path: DeclaredPath::WorkspaceMember,
        version: Some(string_of(rest)),
    }
}

/// Classify one npm specifier. The whole of C1's supported syntax is this function.
pub fn classify_npm(specifier: &str) -> (out: DeclarationOutcome)
    ensures
        out@ == npm_outcome(specifier@),
{
    let raw = chars_of(specifier);
    let t = trim_chars(raw.as_slice());
    let ts = t.as_slice();
    if starts_with(ts, "file:") {
        let path = after_prefix(ts, "file:");
        if path.len() == 0 {
            return DeclarationOutcome::Unsupported(UnsupportedForm::NpmUnsupportedProtocol);
        }
        return DeclarationOutcome::Supported {
            form: SupportedForm::NpmFilePath,
            path: DeclaredPath::Stated(string_of(path)),
            version: None,
        };
    }
    if starts_with(ts, "workspace:") {
        return workspace_outcome(after_prefix(ts, "workspace:"));
    }
    if starts_with(ts, "npm:") {
        return DeclarationOutcome::Unsupported(UnsupportedForm::NpmAliasSpecifier);
    }
    if starts_with(ts, "git:") || starts_with(ts, "git+") || starts_with(ts, "github:")
        || starts_with(ts, "gitlab:") || starts_with(ts, "bitbucket:") || starts_with(ts, "gist:")
        || starts_with(ts, "ssh://") {
        return DeclarationOutcome::Unsupported(UnsupportedForm::NpmGitSpecifier);
    }
    if starts_with(ts, "http://") || starts_with(ts, "https://") {
        return DeclarationOutcome::Unsupported(UnsupportedForm::NpmUrlSpecifier);
    }
    let text = string_of(ts);
    if has_scheme(text.as_str()) {
        return DeclarationOutcome::Unsupported(UnsupportedForm::NpmUnsupportedProtocol);
    }
    let dot = t.len() > 0 && t[0] == '.';
    let slash = t.len() > 0 && t[0] == '/';
    if contains_char(ts, '/') && !dot && !slash {
        return DeclarationOutcome::Unsupported(UnsupportedForm::NpmGitSpecifier);
    }
    DeclarationOutcome::Unsupported(UnsupportedForm::NpmRegistryRange)
}

} // verus!

verus! {

// ---- C3 ---------------------------------------------------------------------------------------

/// The PEP 621 array C3 reads.
pub const PEP621_SECTION: &'static str = "project.dependencies";

/// The Poetry table C3 reads.
pub const POETRY_SECTION: &'static str = "tool.poetry.dependencies";

/// The uv / PEP 735 table C3 reads.
pub const UV_SECTION: &'static str = "tool.uv.sources";

/// A character a distribution name is made of.
pub open spec fn is_name_char(c: char) -> bool {
    ('a' <= c && c <= 'z') || ('A' <= c && c <= 'Z') || ('0' <= c && c <= '9') || c == '-'
        || c == '_' || c == '.'
}

/// How many leading characters of `t` are name characters.
pub open spec fn name_length(t: Seq<char>) -> nat
    decreases t.len(),
{
    if t.len() > 0 && is_name_char(t[0]) {
        1 + name_length(t.drop_first())
    } else {
        0
    }
}

/// The distribution name at the head of a requirement: its leading run of name characters once
/// surrounding white space is removed.
pub open spec fn name_of_requirement(raw: Seq<char>) -> Seq<char> {
    let t = trimmed(raw);
    t.take(name_length(t) as int)
}

/// Whether `c` is a character a distribution name is made of.
fn name_char(c: char) -> (b: bool)
    ensures
        b == is_name_char(c),
{
    ('a' <= c && c <= 'z') || ('A' <= c && c <= 'Z') || ('0' <= c && c <= '9') || c == '-' || c
        == '_' || c == '.'
}

/// The distribution name at the head of a PEP 508 requirement.
pub fn pep508_name(raw: &str) -> (name: String)
    ensures
        name@ == name_of_requirement(raw@),
{
    let r = chars_of(raw);
    let t = trim_chars(r.as_slice());
    let mut i: usize = 0;
    assert(t@.skip(0) =~= t@);
    while i < t.len() && name_char(t[i])
        invariant
            i <= t.len(),
            name_length(t@) == i + name_length(t@.skip(i as int)),
        decreases t.len() - i,
    {
        assert(t@.skip(i as int).drop_first() =~= t@.skip(i + 1));
        i = i + 1;
    }
    assert(name_length(t@.skip(i as int)) == 0);
    assert(t@.subrange(0, i as int) =~= t@.take(i as int));
    string_of(&t.as_slice()[0..i])
}

/// What C3 reads a PEP 508 requirement as, and the name it is declared under. Only a direct
/// reference to an absolute, unescaped `file://` URL is supported.
pub open spec fn pep508_outcome(requirement: Seq<char>) -> (Seq<char>, OutcomeView) {
    match first_index(requirement, '@') {
        None => (
            name_of_requirement(requirement),
            OutcomeView::Unsupported(UnsupportedForm::PythonVersionSpecifier),
        ),
        Some(at) => {
            let identity = name_of_requirement(requirement.take(at));
            let reference = trimmed(requirement.skip(at + 1));
            if !has_prefix(reference, "file://"@) {
                (identity, OutcomeView::Unsupported(UnsupportedForm::PythonUnsupportedDirectReference))
            } else {
                let path = after(reference, "file://"@);
                if !(path.len() > 0 && path[0] == '/') || path.contains('%') {
                    (
                        identity,
                        OutcomeView::Unsupported(UnsupportedForm::PythonUnsupportedDirectReference),
                    )
                } else {
                    (
                        identity,
                        OutcomeView::Supported {
                            form: SupportedForm::PythonDirectFileUrl,
                            path: PathView::Stated(path),
                            version: None,
                        },
                    )
                }
            }
        },
    }
}

/// Classify one PEP 508 requirement string.
pub fn classify_pep508(requirement: &str) -> (out: (String, DeclarationOutcome))
    ensures
        (out.0@, out.1@) == pep508_outcome(requirement@),
{
    let r = chars_of(requirement);
    let at = match find_char(r.as_slice(), '@') {
        None => {
            return (
                pep508_name(requirement),
                DeclarationOutcome::Unsupported(UnsupportedForm::PythonVersionSpecifier),
            );
        },
        Some(at) => at,
    };
    assert(is_first_at(r@, '@', at as int));
    let head = string_of(&r.as_slice()[0..at]);
    assert(r@.subrange(0, at as int) =~= r@.take(at as int));
    let identity = pep508_name(head.as_str());
    let after_at: usize = at + 1;
    let tail = &r.as_slice()[after_at..r.len()];
    assert(tail@ =~= r@.skip(at + 1));
    let reference = trim_chars(tail);
    if !starts_with(reference.as_slice(), "file://") {
        return (
            identity,
            DeclarationOutcome::Unsupported(UnsupportedForm::PythonUnsupportedDirectReference),
        );
    }
    let path = after_prefix(reference.as_slice(), "file://");
    if !(path.len() > 0 && path[0] == '/') || contains_char(path, '%') {
        return (
            identity,
            DeclarationOutcome::Unsupported(UnsupportedForm::PythonUnsupportedDirectReference),
        );
    }
    (
        identity,
        DeclarationOutcome::Supported {
            form: SupportedForm::PythonDirectFileUrl,
            path: DeclaredPath::Stated(string_of(path)),
            version: None,
        },
    )
}

/// What C3 reads a Poetry or uv dependency entry as. A string is a version; a table is read by
/// its keys, `path` first; anything else is a source Nerve does not read.
pub open spec fn python_source_outcome(entry: Toml, section: Seq<char>) -> OutcomeView {
    match entry.shape {
        TomlShape::Text(_) => OutcomeView::Unsupported(UnsupportedForm::PythonVersionSpecifier),
        TomlShape::Table(table) => {
            let t = table@;
            if member(t, "path"@) matches Some(p) && p.string_of() is Some {
                OutcomeView::Supported {
                    form: if section == UV_SECTION@ {
                        SupportedForm::PythonUvSourcePath
                    } else {
                        SupportedForm::PythonPoetryPath
                    },
                    path: PathView::Stated(member(t, "path"@).unwrap().string_of().unwrap()),
                    version: match member(t, "version"@) {
                        Some(v) => v.string_of(),
                        None => None,
                    },
                }
            } else if key_index(t, "git"@) is Some {
                OutcomeView::Unsupported(UnsupportedForm::PythonGitSource)
            } else if key_index(t, "url"@) is Some {
                OutcomeView::Unsupported(UnsupportedForm::PythonUrlSource)
            } else if key_index(t, "workspace"@) is Some {
                OutcomeView::Unsupported(UnsupportedForm::PythonWorkspaceSource)
            } else if key_index(t, "version"@) is Some {
                OutcomeView::Unsupported(UnsupportedForm::PythonVersionSpecifier)
            } else {
                OutcomeView::Unsupported(UnsupportedForm::PythonUnsupportedSource)
            }
        },
        _ => OutcomeView::Unsupported(UnsupportedForm::PythonUnsupportedSource),
    }
}

/// Classify one Poetry or uv dependency table.
pub fn classify_python_source(entry: &Toml, section: &str) -> (out: DeclarationOutcome)
    ensures
        out@ == python_source_outcome(*entry, section@),
{
    let table = match &entry.shape {
        TomlShape::Text(_) => {
            return DeclarationOutcome::Unsupported(UnsupportedForm::PythonVersionSpecifier);
        },
        TomlShape::Table(table) => table,
        _ => {
            return DeclarationOutcome::Unsupported(UnsupportedForm::PythonUnsupportedSource);
        },
    };
    if let Some(path) = entry.get("path") {
        if let Some(p) = path.as_str() {
            let form = if str_eq(section, UV_SECTION) {
                SupportedForm::PythonUvSourcePath
            } else {
                SupportedForm::PythonPoetryPath
            };
            let version = match entry.get("version") {
                Some(v) => match v.as_str() {
                    Some(text) => Some(string_of(chars_of(text).as_slice())),
                    None => None,
                },
                None => None,
            };
            return DeclarationOutcome::Supported {
                form,
                path: DeclaredPath::Stated(string_of(chars_of(p).as_slice())),
                version,
            };
        }
    }
    if find_key(table, "git").is_some() {
        return DeclarationOutcome::Unsupported(UnsupportedForm::PythonGitSource);
    }
    if find_key(table, "url").is_some() {
        return DeclarationOutcome::Unsupported(UnsupportedForm::PythonUrlSource);
    }
    if find_key(table, "workspace").is_some() {
        return DeclarationOutcome::Unsupported(UnsupportedForm::PythonWorkspaceSource);
    }
    if find_key(table, "version").is_some() {
        return DeclarationOutcome::Unsupported(UnsupportedForm::PythonVersionSpecifier);
    }
    DeclarationOutcome::Unsupported(UnsupportedForm::PythonUnsupportedSource)
}

} // verus!

verus! {

// ---- one manifest ------------------------------------------------------------------------------

/// One dependency declaration, as read.
#[derive(Debug, Clone, PartialEq, Eq)]
pub struct Declaration {
    /// The manifest section it sits in.
    pub section: String,
    /// The dependency key. Untrusted repository content.
    pub identity: String,
    /// The declaration as written: the string itself, or the value's text when it is not one.
    pub specifier: String,
    /// The 1-based line it is written on.
    pub line: usize,
    /// What it was read as.
    pub outcome: DeclarationOutcome,
}

/// [`Declaration`] with its text as characters.
pub struct DeclarationView {
    pub section: Seq<char>,
    pub identity: Seq<char>,
    pub specifier: Seq<char>,
    pub line: nat,
    pub outcome: OutcomeView,
}

impl View for Declaration {
    type V = DeclarationView;

    open spec fn view(&self) -> DeclarationView {
        DeclarationView {
            section: self.section@,
            identity: self.identity@,
            specifier: self.specifier@,
            line: self.line as nat,
            outcome: self.outcome@,
        }
    }
}

/// One manifest, read.
#[derive(Debug, Clone, PartialEq, Eq)]
pub struct ParsedManifest {
    /// Every dependency declaration, in the order the sections and their entries are read.
    pub declarations: Vec<Declaration>,
    /// Every literal `workspaces` entry.
    pub workspace_paths: Vec<String>,
    /// How many `workspaces` entries were globs, which are never expanded.
    pub declined_workspace_globs: usize,
}

/// The views of a list of declarations.
pub open spec fn declaration_views(ds: Seq<Declaration>) -> Seq<DeclarationView> {
    ds.map_values(|d: Declaration| d@)
}

/// The characters of a list of strings.
pub open spec fn string_views(ss: Seq<String>) -> Seq<Seq<char>> {
    ss.map_values(|s: String| s@)
}

/// The three `package.json` sections C1 reads.
pub const NPM_SECTIONS: [&'static str; 3] = ["dependencies", "devDependencies", "peerDependencies"];

/// The `workspaces` entries, in either of the two shapes npm and yarn accept: an array, or an
/// object whose `packages` is one.
pub open spec fn workspace_items(value: Json) -> Option<Seq<Json>> {
    match value.field("workspaces"@) {
        Some(w) => match w.shape {
            JsonShape::Array(items) => Some(items@),
            JsonShape::Object(entries) => match member(entries@, "packages"@) {
                Some(p) => match p.shape {
                    JsonShape::Array(items) => Some(items@),
                    _ => None,
                },
                None => None,
            },
            _ => None,
        },
        None => None,
    }
}

/// The strings among some values, in order.
pub open spec fn strings_among(items: Seq<Json>) -> Seq<Seq<char>>
    decreases items.len(),
{
    if items.len() == 0 {
        Seq::empty()
    } else {
        match items.last().string_of() {
            Some(s) => strings_among(items.drop_last()).push(s),
            None => strings_among(items.drop_last()),
        }
    }
}

/// The `workspaces` array, in either of the two shapes npm and yarn accept, keeping its strings.
pub open spec fn workspace_list(value: Json) -> Option<Seq<Seq<char>>> {
    match workspace_items(value) {
        Some(items) => Some(strings_among(items)),
        None => None,
    }
}

/// The `workspaces` array, in either of the two shapes npm and yarn accept.
pub fn workspace_entries(value: &Json) -> (entries: Option<Vec<String>>)
    ensures
        match entries {
            Some(es) => workspace_list(*value) == Some(string_views(es@)),
            None => workspace_list(*value) is None,
        },
{
    let workspaces = match value.get("workspaces") {
        Some(w) => w,
        None => return None,
    };
    let items = match &workspaces.shape {
        JsonShape::Array(items) => items,
        JsonShape::Object(entries) => match member_of(entries, "packages") {
            Some(p) => match &p.shape {
                JsonShape::Array(items) => items,
                _ => return None,
            },
            None => return None,
        },
        _ => return None,
    };
    let mut out: Vec<String> = Vec::new();
    let mut i: usize = 0;
    assert(items@.take(0) =~= Seq::<Json>::empty());
    while i < items.len()
        invariant
            i <= items.len(),
            string_views(out@) == strings_among(items@.take(i as int)),
        decreases items.len() - i,
    {
        assert(items@.take(i + 1).drop_last() =~= items@.take(i as int));
        assert(items@.take(i + 1).last() == items@[i as int]);
        let ghost before = string_views(out@);
        if let Some(s) = items[i].as_str() {
            out.push(string_of(chars_of(s).as_slice()));
            assert(string_views(out@) =~= before.push(s@));
        }
        i = i + 1;
    }
    assert(items@.take(items.len() as int) =~= items@);
    Some(out)
}

/// A `workspaces` entry holding a glob character, which Nerve never expands.
pub open spec fn is_glob(entry: Seq<char>) -> bool {
    entry.contains('*') || entry.contains('?') || entry.contains('[') || entry.contains('{')
}

/// The entries that are literal paths, in order.
pub open spec fn literal_paths(entries: Seq<Seq<char>>) -> Seq<Seq<char>>
    decreases entries.len(),
{
    if entries.len() == 0 {
        Seq::empty()
    } else if is_glob(entries.last()) {
        literal_paths(entries.drop_last())
    } else {
        literal_paths(entries.drop_last()).push(entries.last())
    }
}

/// How many entries are globs.
pub open spec fn glob_count(entries: Seq<Seq<char>>) -> nat
    decreases entries.len(),
{
    if entries.len() == 0 {
        0
    } else {
        glob_count(entries.drop_last()) + if is_glob(entries.last()) { 1nat } else { 0nat }
    }
}

/// The line a dependency is quoted from: its own line, else its section's, else line 1.
pub open spec fn quoted_line(log: Seq<(Seq<char>, Seq<char>, nat)>, section: Seq<char>, key: Seq<char>) -> nat {
    match crate::contracts::lines::last_record(log, section, key) {
        Some(n) => n,
        None => match crate::contracts::lines::last_record(log, Seq::empty(), section) {
            Some(n) => n,
            None => 1,
        },
    }
}

/// What one `package.json` dependency entry is read as.
pub open spec fn npm_declaration(log: Seq<(Seq<char>, Seq<char>, nat)>, section: Seq<char>, entry: (String, Json)) -> DeclarationView {
    DeclarationView {
        section,
        identity: entry.0@,
        specifier: match entry.1.string_of() {
            Some(t) => t,
            None => entry.1.text@,
        },
        line: quoted_line(log, section, entry.0@),
        outcome: match entry.1.string_of() {
            Some(t) => npm_outcome(t),
            None => OutcomeView::Unsupported(UnsupportedForm::NpmNonStringSpecifier),
        },
    }
}

/// The declarations one section of a `package.json` states, when it is an object.
pub open spec fn npm_section(value: Json, log: Seq<(Seq<char>, Seq<char>, nat)>, section: Seq<char>) -> Seq<DeclarationView> {
    match value.field(section) {
        Some(table) => match table.shape {
            JsonShape::Object(entries) => entries@.map_values(
                |e: (String, Json)| npm_declaration(log, section, e),
            ),
            _ => Seq::empty(),
        },
        None => Seq::empty(),
    }
}

/// Every declaration a `package.json` states, section by section in [`NPM_SECTIONS`] order.
pub open spec fn npm_declarations(value: Json, log: Seq<(Seq<char>, Seq<char>, nat)>) -> Seq<DeclarationView> {
    npm_section(value, log, NPM_SECTIONS[0]@) + npm_section(value, log, NPM_SECTIONS[1]@)
        + npm_section(value, log, NPM_SECTIONS[2]@)
}

} // verus!

verus! {

/// Read one `package.json` dependency entry.
fn npm_entry(lines: &KeyLines, section: &str, entry: &(String, Json)) -> (d: Declaration)
    ensures
        d@ == npm_declaration(lines.log(), section@, *entry),
{
    let line = match lines.get(section, entry.0.as_str()) {
        Some(n) => n,
        None => match lines.get("", section) {
            Some(n) => n,
            None => 1,
        },
    };
    proof {
        reveal_strlit("");
        assert(""@ =~= Seq::<char>::empty());
    }
    let (specifier, outcome) = match entry.1.as_str() {
        Some(t) => (string_of(chars_of(t).as_slice()), classify_npm(t)),
        None => (
            string_of(chars_of(entry.1.text.as_str()).as_slice()),
            DeclarationOutcome::Unsupported(UnsupportedForm::NpmNonStringSpecifier),
        ),
    };
    Declaration {
        section: string_of(chars_of(section).as_slice()),
        identity: string_of(chars_of(entry.0.as_str()).as_slice()),
        specifier,
        line,
        outcome,
    }
}

/// Whether a `workspaces` entry holds a glob character.
fn glob_entry(entry: &str) -> (b: bool)
    ensures
        b == is_glob(entry@),
{
    let c = chars_of(entry);
    contains_char(c.as_slice(), '*') || contains_char(c.as_slice(), '?') || contains_char(
        c.as_slice(),
        '[',
    ) || contains_char(c.as_slice(), '{')
}

/// Everything C1 reads from one `package.json`, given its text and the value `serde_json` parsed
/// it to: each dependency of the three sections classified and placed on its line, and the
/// `workspaces` entries split into literal paths and declined globs.
pub fn package_manifest(text: &str, value: &Json) -> (parsed: ParsedManifest)
    requires
        text.spec_bytes().len() <= isize::MAX,
    ensures
        declaration_views(parsed.declarations@)
            == npm_declarations(*value, json_key_log(text.spec_bytes(), NPM_SECTIONS@)),
        match workspace_list(*value) {
            Some(es) => string_views(parsed.workspace_paths@) == literal_paths(es)
                && parsed.declined_workspace_globs == glob_count(es),
            None => parsed.workspace_paths@.len() == 0 && parsed.declined_workspace_globs == 0,
        },
{
    broadcast use vstd::array::group_array_axioms;
    let lines = json_key_lines(text, NPM_SECTIONS.as_slice());
    let ghost log = lines.log();
    assert(log == json_key_log(text.spec_bytes(), NPM_SECTIONS@));

    let mut workspace_paths: Vec<String> = Vec::new();
    let mut declined_workspace_globs: usize = 0;
    if let Some(entries) = workspace_entries(value) {
        let ghost es = string_views(entries@);
        let mut i: usize = 0;
        assert(es.take(0) =~= Seq::<Seq<char>>::empty());
        while i < entries.len()
            invariant
                es == string_views(entries@),
                i <= entries.len(),
                declined_workspace_globs <= i,
                string_views(workspace_paths@) == literal_paths(es.take(i as int)),
                declined_workspace_globs == glob_count(es.take(i as int)),
            decreases entries.len() - i,
        {
            assert(es.take(i + 1).drop_last() =~= es.take(i as int));
            assert(es.take(i + 1).last() == entries@[i as int]@);
            let ghost before = string_views(workspace_paths@);
            if glob_entry(entries[i].as_str()) {
                declined_workspace_globs = declined_workspace_globs + 1;
            } else {
                workspace_paths.push(string_of(chars_of(entries[i].as_str()).as_slice()));
                assert(string_views(workspace_paths@) =~= before.push(entries@[i as int]@));
            }
            i = i + 1;
        }
        assert(es.take(entries.len() as int) =~= es);
    }

    let mut declarations: Vec<Declaration> = Vec::new();
    let mut s: usize = 0;
    assert(declaration_views(declarations@) =~= Seq::<DeclarationView>::empty());
    while s < 3
        invariant
            s <= 3,
            log == lines.log(),
            declaration_views(declarations@) == (if s == 0 {
                Seq::empty()
            } else if s == 1 {
                npm_section(*value, log, NPM_SECTIONS[0]@)
            } else if s == 2 {
                npm_section(*value, log, NPM_SECTIONS[0]@) + npm_section(*value, log, NPM_SECTIONS[1]@)
            } else {
                npm_declarations(*value, log)
            }),
        decreases 3 - s,
    {
        let section = NPM_SECTIONS[s];
        let ghost done = declaration_views(declarations@);
        let ghost here = npm_section(*value, log, section@);
        match value.get(section) {
            Some(table) => match &table.shape {
                JsonShape::Object(entries) => {
                    let mut j: usize = 0;
                    while j < entries.len()
                        invariant
                            j <= entries.len(),
                            log == lines.log(),
                            here == entries@.map_values(|e: (String, Json)| npm_declaration(log, section@, e)),
                            declaration_views(declarations@) == done + here.take(j as int),
                        decreases entries.len() - j,
                    {
                        let d = npm_entry(&lines, section, &entries[j]);
                        let ghost prior = declaration_views(declarations@);
                        declarations.push(d);
                        assert(declaration_views(declarations@) =~= prior.push(d@));
                        assert(here.take(j + 1) =~= here.take(j as int).push(here[j as int]));
                        j = j + 1;
                    }
                    assert(here.take(entries.len() as int) =~= here);
                },
                _ => {
                    assert(here =~= Seq::<DeclarationView>::empty());
                    assert(done + here =~= done);
                },
            },
            None => {
                assert(here =~= Seq::<DeclarationView>::empty());
                assert(done + here =~= done);
            },
        }
        s = s + 1;
    }
    ParsedManifest { declarations, workspace_paths, declined_workspace_globs }
}

} // verus!

verus! {

/// The entries of the PEP 621 `project.dependencies` array, when it is one.
pub open spec fn pep621_items(value: Toml) -> Seq<Toml> {
    match value.field("project"@) {
        Some(project) => match project.field("dependencies"@) {
            Some(deps) => match deps.shape {
                TomlShape::Array(items) => items@,
                _ => Seq::empty(),
            },
            None => Seq::empty(),
        },
        None => Seq::empty(),
    }
}

/// What one PEP 621 dependency entry is read as.
pub open spec fn pep621_declaration(lines: TomlPlaces, entry: Toml) -> DeclarationView {
    match entry.string_of() {
        Some(requirement) => DeclarationView {
            section: PEP621_SECTION@,
            identity: pep508_outcome(requirement).0,
            specifier: requirement,
            line: lines.text_line_of(requirement, "project"@),
            outcome: pep508_outcome(requirement).1,
        },
        None => DeclarationView {
            section: PEP621_SECTION@,
            identity: entry.text@,
            specifier: entry.text@,
            line: lines.header_line_of("project"@),
            outcome: OutcomeView::Unsupported(UnsupportedForm::PythonUnsupportedSource),
        },
    }
}

/// The table at `tool.<tool>.<name>`, when there is one.
pub open spec fn tool_table(value: Toml, tool: Seq<char>, name: Seq<char>) -> Seq<(String, Toml)> {
    match value.field("tool"@) {
        Some(t) => match t.field(tool) {
            Some(u) => match u.field(name) {
                Some(table) => match table.shape {
                    TomlShape::Table(entries) => entries@,
                    _ => Seq::empty(),
                },
                None => Seq::empty(),
            },
            None => Seq::empty(),
        },
        None => Seq::empty(),
    }
}

/// What one Poetry or uv entry is read as.
pub open spec fn source_declaration(lines: TomlPlaces, section: Seq<char>, entry: (String, Toml)) -> DeclarationView {
    DeclarationView {
        section,
        identity: entry.0@,
        specifier: entry.1.text@,
        line: lines.key_line_of(section, entry.0@),
        outcome: python_source_outcome(entry.1, section),
    }
}

/// Every declaration a `pyproject.toml` states: the PEP 621 array, then the Poetry table, then
/// the uv sources.
pub open spec fn python_declarations(value: Toml, lines: TomlPlaces) -> Seq<DeclarationView> {
    pep621_items(value).map_values(|e: Toml| pep621_declaration(lines, e))
        + tool_table(value, "poetry"@, "dependencies"@).map_values(
        |e: (String, Toml)| source_declaration(lines, POETRY_SECTION@, e),
    ) + tool_table(value, "uv"@, "sources"@).map_values(
        |e: (String, Toml)| source_declaration(lines, UV_SECTION@, e),
    )
}

/// A fresh copy of a string.
fn copy_str(s: &str) -> (out: String)
    ensures
        out@ == s@,
{
    string_of(chars_of(s).as_slice())
}

/// The entries of a `tool.<tool>.<name>` table, when there is one.
fn tool_entries<'a>(value: &'a Toml, tool: &str, name: &str) -> (out: Option<&'a Vec<(String, Toml)>>)
    ensures
        match out {
            Some(es) => es@ == tool_table(*value, tool@, name@),
            None => tool_table(*value, tool@, name@) == Seq::<(String, Toml)>::empty(),
        },
{
    let t = match value.get("tool") {
        Some(t) => t,
        None => return None,
    };
    let u = match t.get(tool) {
        Some(u) => u,
        None => return None,
    };
    let table = match u.get(name) {
        Some(table) => table,
        None => return None,
    };
    match &table.shape {
        TomlShape::Table(entries) => Some(entries),
        _ => None,
    }
}

/// Append the declarations of one Poetry or uv table.
fn push_sources(
    declarations: &mut Vec<Declaration>,
    lines: &TomlLines,
    section: &str,
    entries: &Vec<(String, Toml)>,
)
    ensures
        declaration_views(final(declarations)@) == declaration_views(old(declarations)@)
            + entries@.map_values(|e: (String, Toml)| source_declaration(lines@, section@, e)),
{
    let ghost start = declaration_views(declarations@);
    let ghost all = entries@.map_values(|e: (String, Toml)| source_declaration(lines@, section@, e));
    let mut j: usize = 0;
    assert(start + all.take(0) =~= start);
    while j < entries.len()
        invariant
            j <= entries.len(),
            all == entries@.map_values(|e: (String, Toml)| source_declaration(lines@, section@, e)),
            declaration_views(declarations@) == start + all.take(j as int),
        decreases entries.len() - j,
    {
        let entry = &entries[j];
        let d = Declaration {
            section: copy_str(section),
            identity: copy_str(entry.0.as_str()),
            specifier: copy_str(entry.1.text.as_str()),
            line: lines.key_line(section, entry.0.as_str()),
            outcome: classify_python_source(&entry.1, section),
        };
        let ghost prior = declaration_views(declarations@);
        declarations.push(d);
        assert(declaration_views(declarations@) =~= prior.push(d@));
        assert(all.take(j + 1) =~= all.take(j as int).push(all[j as int]));
        j = j + 1;
    }
    assert(all.take(entries.len() as int) =~= all);
}

/// Everything C3 reads from one `pyproject.toml`, given its text and the value `toml` parsed it
/// to: the PEP 621 requirements, the Poetry dependency table and the uv sources, each classified
/// and placed on its line.
pub fn pyproject_manifest(text: &str, value: &Toml) -> (parsed: ParsedManifest)
    ensures
        declaration_views(parsed.declarations@) == python_declarations(*value, toml_places(text@)),
        parsed.workspace_paths@.len() == 0,
        parsed.declined_workspace_globs == 0,
{
    let lines = toml_lines(text);
    let mut declarations: Vec<Declaration> = Vec::new();
    let ghost pep = pep621_items(*value).map_values(|e: Toml| pep621_declaration(lines@, e));
    let items: Option<&Vec<Toml>> = match value.get("project") {
        Some(project) => match project.get("dependencies") {
            Some(deps) => match &deps.shape {
                TomlShape::Array(items) => Some(items),
                _ => None,
            },
            None => None,
        },
        None => None,
    };
    if let Some(items) = items {
        let mut i: usize = 0;
        assert(declaration_views(declarations@) =~= pep.take(0));
        while i < items.len()
            invariant
                i <= items.len(),
                items@ == pep621_items(*value),
                pep == pep621_items(*value).map_values(|e: Toml| pep621_declaration(lines@, e)),
                declaration_views(declarations@) == pep.take(i as int),
            decreases items.len() - i,
        {
            let entry = &items[i];
            let d = match entry.as_str() {
                None => Declaration {
                    section: copy_str(PEP621_SECTION),
                    identity: copy_str(entry.text.as_str()),
                    specifier: copy_str(entry.text.as_str()),
                    line: lines.header_line("project"),
                    outcome: DeclarationOutcome::Unsupported(UnsupportedForm::PythonUnsupportedSource),
                },
                Some(requirement) => {
                    let (identity, outcome) = classify_pep508(requirement);
                    Declaration {
                        section: copy_str(PEP621_SECTION),
                        identity,
                        specifier: copy_str(requirement),
                        line: lines.text_line(requirement, "project"),
                        outcome,
                    }
                },
            };
            let ghost prior = declaration_views(declarations@);
            declarations.push(d);
            assert(declaration_views(declarations@) =~= prior.push(d@));
            assert(pep.take(i + 1) =~= pep.take(i as int).push(pep[i as int]));
            i = i + 1;
        }
        assert(pep.take(items.len() as int) =~= pep);
    } else {
        assert(pep =~= Seq::<DeclarationView>::empty());
        assert(declaration_views(declarations@) =~= pep);
    }
    match tool_entries(value, "poetry", "dependencies") {
        Some(entries) => push_sources(&mut declarations, &lines, POETRY_SECTION, entries),
        None => {},
    }
    match tool_entries(value, "uv", "sources") {
        Some(entries) => push_sources(&mut declarations, &lines, UV_SECTION, entries),
        None => {},
    }
    ParsedManifest { declarations, workspace_paths: Vec::new(), declined_workspace_globs: 0 }
}

/// A parsed manifest within the declaration bound, or the refusal that names the excess: a
/// manifest stating more than [`MAX_DECLARATIONS_PER_MANIFEST`] declarations is refused whole,
/// not cut down.
pub fn bounded_manifest(parsed: ParsedManifest) -> (checked: Result<ParsedManifest, ManifestRefusal>)
    ensures
        parsed.declarations@.len() <= MAX_DECLARATIONS_PER_MANIFEST ==> checked == Ok::<ParsedManifest, ManifestRefusal>(parsed),
        parsed.declarations@.len() > MAX_DECLARATIONS_PER_MANIFEST ==> checked == Err::<ParsedManifest, ManifestRefusal>(ManifestRefusal::TooManyDeclarations),
{
    if parsed.declarations.len() > MAX_DECLARATIONS_PER_MANIFEST {
        Err(ManifestRefusal::TooManyDeclarations)
    } else {
        Ok(parsed)
    }
}

/// `p` is what [`package_manifest`] reads from a `package.json` parsed as `value`, whose text's
/// bytes are `bytes`.
pub open spec fn npm_manifest_read(p: ParsedManifest, value: Json, bytes: Seq<u8>) -> bool {
    &&& declaration_views(p.declarations@) == npm_declarations(value, json_key_log(bytes, NPM_SECTIONS@))
    &&& match workspace_list(value) {
        Some(es) => string_views(p.workspace_paths@) == literal_paths(es)
            && p.declined_workspace_globs == glob_count(es),
        None => p.workspace_paths@.len() == 0 && p.declined_workspace_globs == 0,
    }
}

/// `p` is what [`pyproject_manifest`] reads from a `pyproject.toml` parsed as `value`, whose text
/// is `text`.
pub open spec fn python_manifest_read(p: ParsedManifest, value: Toml, text: Seq<char>) -> bool {
    &&& declaration_views(p.declarations@) == python_declarations(value, toml_places(text))
    &&& p.workspace_paths@.len() == 0
    &&& p.declined_workspace_globs == 0
}

/// Parse a manifest's text under the rule its file name selected, within the declaration bound.
///
/// A text its parser refuses is unparsable; a manifest stating more than
/// [`MAX_DECLARATIONS_PER_MANIFEST`] declarations is refused whole. The export rule is never
/// manifest-driven: it is reached from the imports of an indexed module.
pub fn parse_manifest(rule: ContractRule, text: &str) -> (r: Result<ParsedManifest, ManifestRefusal>)
    requires
        rule != ContractRule::NpmExportResolution,
        text.spec_bytes().len() <= isize::MAX,
    ensures
        rule == ContractRule::NpmLocalDependency ==> match json_parse(text@) {
            None => r == Err::<ParsedManifest, ManifestRefusal>(ManifestRefusal::ManifestUnparsable),
            Some(v) => if npm_declarations(v, json_key_log(text.spec_bytes(), NPM_SECTIONS@)).len()
                > MAX_DECLARATIONS_PER_MANIFEST {
                r == Err::<ParsedManifest, ManifestRefusal>(ManifestRefusal::TooManyDeclarations)
            } else {
                (r matches Ok(p) && npm_manifest_read(p, v, text.spec_bytes()))
            },
        },
        rule == ContractRule::PythonPathDependency ==> match toml_parse(text@) {
            None => r == Err::<ParsedManifest, ManifestRefusal>(ManifestRefusal::ManifestUnparsable),
            Some(v) => if python_declarations(v, toml_places(text@)).len() > MAX_DECLARATIONS_PER_MANIFEST {
                r == Err::<ParsedManifest, ManifestRefusal>(ManifestRefusal::TooManyDeclarations)
            } else {
                (r matches Ok(p) && python_manifest_read(p, v, text@))
            },
        },
{
    let parsed = match rule {
        ContractRule::PythonPathDependency => match parse_toml(text) {
            Some(value) => pyproject_manifest(text, &value),
            None => return Err(ManifestRefusal::ManifestUnparsable),
        },
        _ => match parse_json(text) {
            Some(value) => package_manifest(text, &value),
            None => return Err(ManifestRefusal::ManifestUnparsable),
        },
    };
    bounded_manifest(parsed)
}

} // verus!
