//! C2's reading of a neighbour's `package.json`: the import specifier split into a package and a
//! subpath, and the subpath resolved through the neighbour's own `exports` map, or through
//! `module` / `main` / `types` when it declares none. Every shape outside the six supported forms
//! is declined with the form named; nothing is guessed, expanded or probed.
use vstd::prelude::*;
use crate::docref::is_scheme_char;
use crate::text::{
    chars_of, contains_char, ends_with, find_char, first_index, has_prefix, has_suffix, is_first_at,
    pieces, split_chars, starts_with, str_eq, string_of, trim_chars, trimmed,
};
use super::values::{find_key, key_index, member, member_of, Json, JsonShape};
use super::{
    SupportedForm, UnresolvedReason, UnsupportedForm, MAX_EXPORT_CONDITION_DEPTH,
    MAX_EXPORT_ENTRIES, MAX_EXPORT_SUBPATH_DEPTH,
};

verus! {

// ---- the text of a specifier ------------------------------------------------------------------

/// Does this text begin with `scheme:`: a non-empty run of ASCII letters, digits, `+`, `-` or
/// `.` before its first colon?
pub open spec fn scheme_prefixed(s: Seq<char>) -> bool {
    match first_index(s, ':') {
        Some(k) => k > 0 && forall|i: int| 0 <= i < k ==> is_scheme_char(#[trigger] s[i]),
        None => false,
    }
}

/// Does this specifier begin with `scheme:`?
pub fn has_scheme(specifier: &str) -> (b: bool)
    ensures
        b == scheme_prefixed(specifier@),
{
    let s = chars_of(specifier);
    let k = match find_char(s.as_slice(), ':') {
        Some(k) => k,
        None => return false,
    };
    if k == 0 {
        return false;
    }
    let mut i: usize = 0;
    while i < k
        invariant
            k <= s.len(),
            s@ == specifier@,
            first_index(s@, ':') == Some(k as int),
            i <= k,
            forall|j: int| 0 <= j < i ==> is_scheme_char(#[trigger] s@[j]),
        decreases k - i,
    {
        let c = s[i];
        if !(('a' <= c && c <= 'z') || ('A' <= c && c <= 'Z') || ('0' <= c && c <= '9') || c == '+'
            || c == '.' || c == '-') {
            assert(!is_scheme_char(s@[i as int]));
            return false;
        }
        i = i + 1;
    }
    true
}

/// How far a path climbs: one up for every named segment, one down for every `..`, nothing for
/// an empty segment or `.`.
pub open spec fn climb(segments: Seq<Seq<char>>) -> int
    decreases segments.len(),
{
    if segments.len() == 0 {
        0
    } else {
        let s = segments.last();
        climb(segments.drop_last()) + if s.len() == 0 || s == seq!['.'] {
            0int
        } else if s == seq!['.', '.'] {
            -1int
        } else {
            1int
        }
    }
}

/// Whether a relative path stays inside its root reading the text alone: it is not empty, not
/// absolute, holds no backslash, and no `..` ever climbs above where it started.
pub open spec fn stays_inside(declared: Seq<char>) -> bool {
    let segments = pieces(declared, '/');
    &&& declared.len() > 0
    &&& declared[0] != '/'
    &&& !declared.contains('\\')
    &&& forall|k: int| 0 <= k <= segments.len() ==> climb(#[trigger] segments.take(k)) >= 0
}

/// Does this relative path stay inside its root, reading the text alone?
pub fn lexically_inside(declared: &str) -> (inside: bool)
    ensures
        inside == stays_inside(declared@),
{
    let d = chars_of(declared);
    if d.len() == 0 || d[0] == '/' || contains_char(d.as_slice(), '\\') {
        return false;
    }
    let segments = split_chars(d.as_slice(), '/');
    let ghost segs = pieces(d@, '/');
    let mut depth: usize = 0;
    let mut i: usize = 0;
    assert(segs.take(0) =~= Seq::<Seq<char>>::empty());
    while i < segments.len()
        invariant
            d@ == declared@,
            segs == pieces(d@, '/'),
            crate::order::key_views(segments@) == segs,
            i <= segments.len(),
            depth <= i,
            depth == climb(segs.take(i as int)),
            forall|k: int| 0 <= k <= i ==> climb(#[trigger] segs.take(k)) >= 0,
        decreases segments.len() - i,
    {
        let seg = &segments[i];
        assert(seg@ == segs[i as int]);
        assert(segs.take(i + 1).drop_last() =~= segs.take(i as int));
        assert(segs.take(i + 1).last() == segs[i as int]);
        if seg.len() == 0 || (seg.len() == 1 && seg[0] == '.') {
            assert(seg.len() == 1 ==> seg@ =~= seq!['.']);
        } else if seg.len() == 2 && seg[0] == '.' && seg[1] == '.' {
            assert(seg@ =~= seq!['.', '.']);
            if depth == 0 {
                assert(climb(segs.take(i + 1)) < 0);
                return false;
            }
            depth = depth - 1;
        } else {
            assert(seg@ != seq!['.'] && seg@ != seq!['.', '.']) by {
                if seg@ == seq!['.'] {
                    assert(seg@.len() == 1);
                }
                if seg@ == seq!['.', '.'] {
                    assert(seg@.len() == 2);
                }
            }
            depth = depth + 1;
        }
        i = i + 1;
    }
    assert(segs.take(segs.len() as int) =~= segs);
    true
}

/// The length of the package part of a bare specifier: the first segment, or `@scope/name` for a
/// scoped one. `None` when a scoped specifier has an empty scope or an empty name, or no name
/// segment at all.
pub open spec fn package_length(s: Seq<char>) -> Option<nat> {
    match first_index(s, '/') {
        None => if s.len() > 0 && s[0] == '@' {
            None
        } else {
            Some(s.len())
        },
        Some(k) => if s[0] == '@' {
            if k == 1 {
                None
            } else {
                let rest = s.skip(k + 1);
                let m = match first_index(rest, '/') {
                    Some(j) => j,
                    None => rest.len() as int,
                };
                if m == 0 {
                    None
                } else {
                    Some((k + 1 + m) as nat)
                }
            }
        } else {
            Some(k as nat)
        },
    }
}

/// The package part and the subpath of a bare npm specifier, or `None` when the text is not one:
/// empty, relative, absolute, `#internal`, or prefixed by a scheme. The subpath is `.` for the
/// package itself and `./rest` for anything after the package part.
pub open spec fn specifier_parts(specifier: Seq<char>) -> Option<(Seq<char>, Seq<char>)> {
    let s = trimmed(specifier);
    if s.len() == 0 || s[0] == '.' || s[0] == '/' || s[0] == '#' || scheme_prefixed(s) {
        None
    } else {
        match package_length(s) {
            None => None,
            Some(n) => if n == 0 {
                None
            } else {
                let rest = s.skip(n as int);
                let subpath = if rest.len() <= 1 {
                    seq!['.']
                } else {
                    seq!['.', '/'] + rest.skip(1)
                };
                Some((s.take(n as int), subpath))
            },
        }
    }
}

/// The position of the first `c` in `t`, or `t`'s length when there is none.
fn find_or_end(t: &[char], c: char) -> (at: usize)
    ensures
        match first_index(t@, c) {
            Some(k) => at == k,
            None => at == t.len(),
        },
{
    match find_char(t, c) {
        Some(k) => k,
        None => t.len(),
    }
}

/// Split a bare npm specifier into its package part and its subpath.
///
/// `None` means the text is not a bare package specifier and therefore not a C2 declaration at
/// all: a relative or absolute path names a file in this repository, `#internal` is npm's own
/// subpath import, and `node:fs` names a scheme.
pub fn split_specifier(specifier: &str) -> (parts: Option<(String, String)>)
    ensures
        match parts {
            Some((package, subpath)) => specifier_parts(specifier@) == Some((package@, subpath@)),
            None => specifier_parts(specifier@) is None,
        },
{
    let raw = chars_of(specifier);
    let s = trim_chars(raw.as_slice());
    if s.len() == 0 || s[0] == '.' || s[0] == '/' || s[0] == '#' {
        return None;
    }
    let text = string_of(s.as_slice());
    if has_scheme(text.as_str()) {
        return None;
    }
    let n: usize = match find_char(s.as_slice(), '/') {
        None => {
            if s[0] == '@' {
                return None;
            }
            s.len()
        },
        Some(k) => {
            if s[0] == '@' {
                if k == 1 {
                    return None;
                }
                let rest = &s.as_slice()[k + 1..s.len()];
                assert(rest@ =~= s@.skip(k + 1));
                let m = find_or_end(rest, '/');
                if m == 0 {
                    return None;
                }
                k + 1 + m
            } else {
                k
            }
        },
    };
    assert(package_length(s@) == Some(n as nat));
    if n == 0 {
        return None;
    }
    let package = string_of(&s.as_slice()[0..n]);
    assert(s@.subrange(0, n as int) =~= s@.take(n as int));
    let rest = &s.as_slice()[n..s.len()];
    assert(rest@ =~= s@.skip(n as int));
    let mut subpath: Vec<char> = Vec::new();
    subpath.push('.');
    if rest.len() > 1 {
        subpath.push('/');
        let mut i: usize = 1;
        while i < rest.len()
            invariant
                1 <= i <= rest.len(),
                subpath@ == seq!['.', '/'] + rest@.subrange(1, i as int),
            decreases rest.len() - i,
        {
            subpath.push(rest[i]);
            assert(rest@.subrange(1, i as int).push(rest@[i as int])
                =~= rest@.subrange(1, i + 1));
            i = i + 1;
        }
        assert(rest@.subrange(1, rest.len() as int) =~= rest@.skip(1));
    } else {
        assert(subpath@ =~= seq!['.']);
    }
    Some((package, string_of(subpath.as_slice())))
}

/// How many `/`-separated segments a subpath has after the package name; `.` is zero.
pub open spec fn depth_of(subpath: Seq<char>) -> nat {
    if has_prefix(subpath, seq!['.', '/']) && subpath.len() > 2 {
        pieces(subpath.skip(2), '/').len()
    } else {
        0
    }
}

/// How many `/`-separated segments a subpath has after the package name. `.` is zero.
pub fn subpath_depth(subpath: &str) -> (depth: usize)
    ensures
        depth == depth_of(subpath@),
{
    let s = chars_of(subpath);
    if s.len() > 2 && s[0] == '.' && s[1] == '/' {
        assert(s@.take(2) =~= seq!['.', '/']);
        let tail = &s.as_slice()[2..s.len()];
        assert(tail@ =~= s@.skip(2));
        let segments = split_chars(tail, '/');
        segments.len()
    } else {
        assert(s@.len() >= 2 ==> (s@.take(2) == seq!['.', '/'] ==> s@[0] == '.' && s@[1] == '/'))
            by {
            if s@.len() >= 2 && s@.take(2) == seq!['.', '/'] {
                assert(s@.take(2)[0] == s@[0]);
                assert(s@.take(2)[1] == s@[1]);
            }
        }
        0
    }
}

/// Would this `exports` key match this subpath as a pattern: one `*`, with the subpath starting
/// with what precedes it and ending with what follows it, the two not overlapping?
pub open spec fn pattern_covers(key: Seq<char>, subpath: Seq<char>) -> bool {
    match first_index(key, '*') {
        None => false,
        Some(k) => {
            let prefix = key.take(k);
            let suffix = key.skip(k + 1);
            &&& !suffix.contains('*')
            &&& subpath.len() >= prefix.len() + suffix.len()
            &&& has_prefix(subpath, prefix)
            &&& has_suffix(subpath, suffix)
        },
    }
}

/// Would this `exports` key match this subpath as a pattern?
///
/// Used only to name the refusal: the pattern is never expanded.
pub fn wildcard_matches(key: &str, subpath: &str) -> (covers: bool)
    ensures
        covers == pattern_covers(key@, subpath@),
{
    let k = chars_of(key);
    let s = chars_of(subpath);
    let star = match find_char(k.as_slice(), '*') {
        Some(star) => star,
        None => return false,
    };
    assert(is_first_at(k@, '*', star as int));
    assert(star < k.len());
    let after_star: usize = star + 1;
    let prefix = &k.as_slice()[0..star];
    let suffix = &k.as_slice()[after_star..k.len()];
    assert(prefix@ =~= k@.take(star as int));
    assert(suffix@ =~= k@.skip(star + 1));
    if contains_char(suffix, '*') {
        return false;
    }
    if s.len() < prefix.len() + suffix.len() {
        return false;
    }
    let p = string_of(prefix);
    starts_with(s.as_slice(), p.as_str()) && ends_with(s.as_slice(), suffix)
}

} // verus!
verus! {

// ---- resolving a subpath ----------------------------------------------------------------------

/// What resolving one specifier through one neighbour's `exports` produced.
#[derive(Debug, Clone, PartialEq, Eq)]
pub enum ExportOutcome {
    /// A neighbour-relative path, and which declaration named it.
    Resolved {
        /// The supported form that named the path.
        form: SupportedForm,
        /// The path, as the manifest wrote it.
        target: String,
        /// The key or field that matched.
        matched: String,
        /// The condition taken, when a conditions object decided.
        condition: Option<String>,
    },
    /// A form Nerve declines to read, named.
    Declined(UnsupportedForm),
    /// A form Nerve read in full that reached nothing, named.
    Unresolved(UnresolvedReason),
}

/// [`ExportOutcome`] with its text as characters.
pub enum ExportView {
    /// A path, the form and key that named it, and the condition taken.
    Resolved {
        form: SupportedForm,
        target: Seq<char>,
        matched: Seq<char>,
        condition: Option<Seq<char>>,
    },
    /// A declined form.
    Declined(UnsupportedForm),
    /// An unresolved reason.
    Unresolved(UnresolvedReason),
}

impl View for ExportOutcome {
    type V = ExportView;

    open spec fn view(&self) -> ExportView {
        match self {
            ExportOutcome::Resolved { form, target, matched, condition } => ExportView::Resolved {
                form: *form,
                target: target@,
                matched: matched@,
                condition: match condition {
                    Some(c) => Some(c@),
                    None => None,
                },
            },
            ExportOutcome::Declined(form) => ExportView::Declined(*form),
            ExportOutcome::Unresolved(reason) => ExportView::Unresolved(*reason),
        }
    }
}

/// What descending a conditions object produced.
#[derive(Debug, Clone, PartialEq, Eq)]
pub enum ConditionOutcome {
    /// The path the first applicable condition names, and that condition.
    Resolved {
        /// The path, as the manifest wrote it.
        target: String,
        /// The condition taken.
        condition: String,
    },
    /// A form Nerve declines to read, named.
    Declined(UnsupportedForm),
}

/// [`ConditionOutcome`] with its text as characters.
pub enum ConditionView {
    /// A path and the condition taken.
    Resolved { target: Seq<char>, condition: Seq<char> },
    /// A declined form.
    Declined(UnsupportedForm),
}

impl View for ConditionOutcome {
    type V = ConditionView;

    open spec fn view(&self) -> ConditionView {
        match self {
            ConditionOutcome::Resolved { target, condition } => ConditionView::Resolved {
                target: target@,
                condition: condition@,
            },
            ConditionOutcome::Declined(form) => ConditionView::Declined(*form),
        }
    }
}

/// The `i`th export condition in the documented order.
pub open spec fn condition_name(i: int) -> Seq<char> {
    super::EXPORT_CONDITION_ORDER[i]@
}

/// The position, in the documented order and from `from` on, of the first condition an object
/// names.
pub open spec fn first_condition(entries: Seq<(String, Json)>, from: int) -> Option<int>
    decreases 3 - from,
{
    if from < 0 || from >= 3 {
        None
    } else if key_index(entries, condition_name(from)) is Some {
        Some(from)
    } else {
        first_condition(entries, from + 1)
    }
}

/// What a conditions object at nesting `depth` resolves to: the first condition in the
/// documented order that it names decides, including when what it names is `null` or a shape
/// Nerve declines, and a nested object is descended until the depth bound.
pub open spec fn conditions_of(entries: Seq<(String, Json)>, depth: nat) -> ConditionView
    decreases MAX_EXPORT_CONDITION_DEPTH + 1 - depth,
{
    if depth > MAX_EXPORT_CONDITION_DEPTH {
        ConditionView::Declined(UnsupportedForm::NpmExportUnsupportedCondition)
    } else if entries.len() > MAX_EXPORT_ENTRIES {
        ConditionView::Declined(UnsupportedForm::NpmExportMapTooLarge)
    } else {
        match first_condition(entries, 0) {
            None => ConditionView::Declined(UnsupportedForm::NpmExportUnsupportedCondition),
            Some(c) => {
                let name = condition_name(c);
                match member(entries, name) {
                    Some(value) => match value.shape {
                        JsonShape::Null => ConditionView::Declined(UnsupportedForm::NpmExportBlocked),
                        JsonShape::Text(target) => ConditionView::Resolved {
                            target: target@,
                            condition: name,
                        },
                        JsonShape::Object(nested) => conditions_of(nested@, depth + 1),
                        _ => ConditionView::Declined(UnsupportedForm::NpmExportNonStringTarget),
                    },
                    None => ConditionView::Declined(UnsupportedForm::NpmExportUnsupportedCondition),
                }
            },
        }
    }
}

/// Descend a conditions object in [`super::EXPORT_CONDITION_ORDER`].
///
/// The first condition in that order that the object names decides the answer, including when
/// what it names is `null` or a shape Nerve declines: falling through a `null` to a later
/// condition would step over a block the package wrote deliberately.
pub fn resolve_conditions(map: &Vec<(String, Json)>, depth: usize) -> (out: ConditionOutcome)
    ensures
        out@ == conditions_of(map@, depth as nat),
    decreases MAX_EXPORT_CONDITION_DEPTH + 1 - depth,
{
    if depth > MAX_EXPORT_CONDITION_DEPTH {
        return ConditionOutcome::Declined(UnsupportedForm::NpmExportUnsupportedCondition);
    }
    if map.len() > MAX_EXPORT_ENTRIES {
        return ConditionOutcome::Declined(UnsupportedForm::NpmExportMapTooLarge);
    }
    let mut i: usize = 0;
    while i < 3
        invariant
            i <= 3,
            depth <= MAX_EXPORT_CONDITION_DEPTH,
            map.len() <= MAX_EXPORT_ENTRIES,
            first_condition(map@, 0) == first_condition(map@, i as int),
        decreases 3 - i,
    {
        let condition = super::EXPORT_CONDITION_ORDER[i];
        assert(condition@ == condition_name(i as int));
        match find_key(map, condition) {
            None => {
                i = i + 1;
            },
            Some(at) => {
                assert(first_condition(map@, i as int) == Some(i as int));
                let value = &map[at].1;
                assert(member(map@, condition@) == Some(*value));
                return match &value.shape {
                    JsonShape::Null => ConditionOutcome::Declined(UnsupportedForm::NpmExportBlocked),
                    JsonShape::Text(target) => ConditionOutcome::Resolved {
                        target: string_of(chars_of(target.as_str()).as_slice()),
                        condition: string_of(chars_of(condition).as_slice()),
                    },
                    JsonShape::Object(nested) => resolve_conditions(nested, depth + 1),
                    _ => ConditionOutcome::Declined(UnsupportedForm::NpmExportNonStringTarget),
                };
            },
        }
    }
    ConditionOutcome::Declined(UnsupportedForm::NpmExportUnsupportedCondition)
}

} // verus!

verus! {

/// The `i`th legacy entry-point field in the documented order.
pub open spec fn legacy_name(i: int) -> Seq<char> {
    super::LEGACY_ENTRY_FIELDS[i]@
}

/// The form a legacy field names.
pub open spec fn legacy_form(i: int) -> SupportedForm {
    if i == 0 {
        SupportedForm::NpmLegacyModule
    } else if i == 1 {
        SupportedForm::NpmLegacyMain
    } else {
        SupportedForm::NpmLegacyTypes
    }
}

/// The position, from `from` on, of the first legacy field the manifest sets to a string.
pub open spec fn first_legacy(manifest: Json, from: int) -> Option<int>
    decreases 3 - from,
{
    if from < 0 || from >= 3 {
        None
    } else if manifest.field(legacy_name(from)) matches Some(v) && v.string_of() is Some {
        Some(from)
    } else {
        first_legacy(manifest, from + 1)
    }
}

/// What the legacy fields resolve a subpath to, when the package declares no `exports`: only
/// `.` is answered, by `module`, then `main`, then `types`.
pub open spec fn legacy_of(manifest: Json, subpath: Seq<char>) -> ExportView {
    if subpath != seq!['.'] {
        ExportView::Declined(UnsupportedForm::NpmLegacySubpathProbe)
    } else {
        match first_legacy(manifest, 0) {
            Some(i) => ExportView::Resolved {
                form: legacy_form(i),
                target: manifest.field(legacy_name(i)).unwrap().string_of().unwrap(),
                matched: legacy_name(i),
                condition: None,
            },
            None => ExportView::Unresolved(UnresolvedReason::TargetDeclaresNoEntryPoint),
        }
    }
}

/// The view of a conditions outcome reached through the key `matched`.
pub open spec fn conditional(outcome: ConditionView, matched: Seq<char>) -> ExportView {
    match outcome {
        ConditionView::Resolved { target, condition } => ExportView::Resolved {
            form: SupportedForm::NpmExportsConditional,
            target,
            matched,
            condition: Some(condition),
        },
        ConditionView::Declined(form) => ExportView::Declined(form),
    }
}

/// What one subpath-map entry resolves to.
pub open spec fn entry_of(value: Json, matched: Seq<char>) -> ExportView {
    match value.shape {
        JsonShape::Null => ExportView::Declined(UnsupportedForm::NpmExportBlocked),
        JsonShape::Text(target) => ExportView::Resolved {
            form: SupportedForm::NpmExportsSubpath,
            target: target@,
            matched,
            condition: None,
        },
        JsonShape::Object(map) => conditional(conditions_of(map@, 1), matched),
        _ => ExportView::Declined(UnsupportedForm::NpmExportNonStringTarget),
    }
}

/// A key of a subpath map: one that begins with `.`.
pub open spec fn is_subpath_key(key: Seq<char>) -> bool {
    key.len() > 0 && key[0] == '.'
}

/// What an `exports` object resolves a subpath to: either a subpath map, or a bare conditions
/// object standing for `.`. An exact key is preferred over a pattern, and a pattern that would
/// have matched only names the refusal.
pub open spec fn object_of(map: Seq<(String, Json)>, subpath: Seq<char>) -> ExportView {
    if map.len() > MAX_EXPORT_ENTRIES {
        ExportView::Declined(UnsupportedForm::NpmExportMapTooLarge)
    } else if forall|i: int| 0 <= i < map.len() ==> !is_subpath_key(#[trigger] map[i].0@) {
        if subpath != seq!['.'] {
            ExportView::Declined(UnsupportedForm::NpmExportSubpathNotDeclared)
        } else {
            conditional(conditions_of(map, 1), seq!['.'])
        }
    } else if exists|i: int| 0 <= i < map.len() && !is_subpath_key(#[trigger] map[i].0@) {
        ExportView::Declined(UnsupportedForm::NpmExportsMixedKeys)
    } else {
        match member(map, subpath) {
            Some(value) => entry_of(value, subpath),
            None => if exists|i: int| 0 <= i < map.len() && pattern_covers(#[trigger] map[i].0@, subpath) {
                ExportView::Declined(UnsupportedForm::NpmExportWildcardSubpath)
            } else {
                ExportView::Declined(UnsupportedForm::NpmExportSubpathNotDeclared)
            },
        }
    }
}

/// What one neighbour's manifest resolves one subpath to.
pub open spec fn export_of(manifest: Json, subpath: Seq<char>) -> ExportView {
    if depth_of(subpath) > MAX_EXPORT_SUBPATH_DEPTH {
        ExportView::Declined(UnsupportedForm::NpmExportSubpathTooDeep)
    } else {
        match manifest.field("exports"@) {
            None => legacy_of(manifest, subpath),
            Some(exports) => match exports.shape {
                JsonShape::Null => ExportView::Declined(UnsupportedForm::NpmExportBlocked),
                JsonShape::Text(target) => if subpath == seq!['.'] {
                    ExportView::Resolved {
                        form: SupportedForm::NpmExportsString,
                        target: target@,
                        matched: "exports"@,
                        condition: None,
                    }
                } else {
                    ExportView::Declined(UnsupportedForm::NpmExportSubpathNotDeclared)
                },
                JsonShape::Object(map) => object_of(map@, subpath),
                _ => ExportView::Declined(UnsupportedForm::NpmExportNonStringTarget),
            },
        }
    }
}

/// A fresh copy of a string.
fn copy_of(s: &str) -> (out: String)
    ensures
        out@ == s@,
{
    string_of(chars_of(s).as_slice())
}

/// Whether the text is exactly `.`.
fn is_dot(s: &str) -> (b: bool)
    ensures
        b == (s@ == seq!['.']),
{
    let c = chars_of(s);
    let b = c.len() == 1 && c[0] == '.';
    assert(b ==> c@ =~= seq!['.']);
    b
}

/// The conditions outcome reached through the key `matched`, as an export outcome.
fn conditional_outcome(outcome: ConditionOutcome, matched: &str) -> (out: ExportOutcome)
    ensures
        out@ == conditional(outcome@, matched@),
{
    match outcome {
        ConditionOutcome::Resolved { target, condition } => ExportOutcome::Resolved {
            form: SupportedForm::NpmExportsConditional,
            target,
            matched: copy_of(matched),
            condition: Some(condition),
        },
        ConditionOutcome::Declined(form) => ExportOutcome::Declined(form),
    }
}

/// `module`, then `main`, then `types`, read only when the package declares no `exports`.
pub fn legacy_entry(manifest: &Json, subpath: &str) -> (out: ExportOutcome)
    ensures
        out@ == legacy_of(*manifest, subpath@),
{
    if !is_dot(subpath) {
        return ExportOutcome::Declined(UnsupportedForm::NpmLegacySubpathProbe);
    }
    let mut i: usize = 0;
    while i < 3
        invariant
            i <= 3,
            subpath@ == seq!['.'],
            first_legacy(*manifest, 0) == first_legacy(*manifest, i as int),
        decreases 3 - i,
    {
        let field = super::LEGACY_ENTRY_FIELDS[i];
        assert(field@ == legacy_name(i as int));
        if let Some(value) = manifest.get(field) {
            if let Some(target) = value.as_str() {
                assert(first_legacy(*manifest, i as int) == Some(i as int));
                let form = if i == 0 {
                    SupportedForm::NpmLegacyModule
                } else if i == 1 {
                    SupportedForm::NpmLegacyMain
                } else {
                    SupportedForm::NpmLegacyTypes
                };
                return ExportOutcome::Resolved {
                    form,
                    target: copy_of(target),
                    matched: copy_of(field),
                    condition: None,
                };
            }
        }
        i = i + 1;
    }
    ExportOutcome::Unresolved(UnresolvedReason::TargetDeclaresNoEntryPoint)
}

/// One subpath map entry: a string, a conditions object, a deliberate `null`, or nothing Nerve
/// reads.
pub fn resolve_export_entry(value: &Json, matched: &str) -> (out: ExportOutcome)
    ensures
        out@ == entry_of(*value, matched@),
{
    match &value.shape {
        JsonShape::Null => ExportOutcome::Declined(UnsupportedForm::NpmExportBlocked),
        JsonShape::Text(target) => ExportOutcome::Resolved {
            form: SupportedForm::NpmExportsSubpath,
            target: copy_of(target.as_str()),
            matched: copy_of(matched),
            condition: None,
        },
        JsonShape::Object(map) => conditional_outcome(resolve_conditions(map, 1), matched),
        _ => ExportOutcome::Declined(UnsupportedForm::NpmExportNonStringTarget),
    }
}

/// An `exports` object: either a subpath map, or a bare conditions object for `.`.
pub fn resolve_export_object(map: &Vec<(String, Json)>, subpath: &str) -> (out: ExportOutcome)
    ensures
        out@ == object_of(map@, subpath@),
{
    if map.len() > MAX_EXPORT_ENTRIES {
        return ExportOutcome::Declined(UnsupportedForm::NpmExportMapTooLarge);
    }
    let mut subpath_keys: usize = 0;
    let mut i: usize = 0;
    while i < map.len()
        invariant
            i <= map.len(),
            subpath_keys <= i,
            subpath_keys == 0 <==> forall|j: int| 0 <= j < i ==> !is_subpath_key(#[trigger] map@[j].0@),
            subpath_keys == i <==> forall|j: int| 0 <= j < i ==> is_subpath_key(#[trigger] map@[j].0@),
        decreases map.len() - i,
    {
        let key = chars_of(map[i].0.as_str());
        if key.len() > 0 && key[0] == '.' {
            assert(is_subpath_key(map@[i as int].0@));
            subpath_keys = subpath_keys + 1;
        } else {
            assert(!is_subpath_key(map@[i as int].0@));
        }
        i = i + 1;
    }
    if subpath_keys == 0 {
        if !is_dot(subpath) {
            return ExportOutcome::Declined(UnsupportedForm::NpmExportSubpathNotDeclared);
        }
        proof {
            reveal_strlit(".");
            assert("."@ =~= seq!['.']);
        }
        return conditional_outcome(resolve_conditions(map, 1), ".");
    }
    if subpath_keys != map.len() {
        return ExportOutcome::Declined(UnsupportedForm::NpmExportsMixedKeys);
    }
    if let Some(value) = member_of(map, subpath) {
        return resolve_export_entry(value, subpath);
    }
    assert(is_subpath_key(map@[0].0@));
    let mut k: usize = 0;
    while k < map.len()
        invariant
            k <= map.len(),
            map.len() <= MAX_EXPORT_ENTRIES,
            member(map@, subpath@) is None,
            exists|j: int| 0 <= j < map.len() && is_subpath_key(#[trigger] map@[j].0@),
            forall|j: int| 0 <= j < map.len() ==> is_subpath_key(#[trigger] map@[j].0@),
            forall|j: int| 0 <= j < k ==> !pattern_covers(#[trigger] map@[j].0@, subpath@),
        decreases map.len() - k,
    {
        if wildcard_matches(map[k].0.as_str(), subpath) {
            return ExportOutcome::Declined(UnsupportedForm::NpmExportWildcardSubpath);
        }
        k = k + 1;
    }
    ExportOutcome::Declined(UnsupportedForm::NpmExportSubpathNotDeclared)
}

/// Resolve one subpath against one neighbour's manifest. The whole of C2's supported syntax is
/// this function and the ones it calls.
pub fn resolve_export(manifest: &Json, subpath: &str) -> (out: ExportOutcome)
    ensures
        out@ == export_of(*manifest, subpath@),
{
    if subpath_depth(subpath) > MAX_EXPORT_SUBPATH_DEPTH {
        return ExportOutcome::Declined(UnsupportedForm::NpmExportSubpathTooDeep);
    }
    match manifest.get("exports") {
        None => legacy_entry(manifest, subpath),
        Some(exports) => match &exports.shape {
            JsonShape::Null => ExportOutcome::Declined(UnsupportedForm::NpmExportBlocked),
            JsonShape::Text(target) => {
                if is_dot(subpath) {
                    ExportOutcome::Resolved {
                        form: SupportedForm::NpmExportsString,
                        target: copy_of(target.as_str()),
                        matched: copy_of("exports"),
                        condition: None,
                    }
                } else {
                    ExportOutcome::Declined(UnsupportedForm::NpmExportSubpathNotDeclared)
                }
            },
            JsonShape::Object(map) => resolve_export_object(map, subpath),
            _ => ExportOutcome::Declined(UnsupportedForm::NpmExportNonStringTarget),
        },
    }
}

} // verus!
