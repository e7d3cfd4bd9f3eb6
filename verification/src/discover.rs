//! Path safety: the rules every repository path passes before it becomes part of an identity.
//!
//! Repository content is untrusted input. A path is a field of every canonical identity tuple,
//! so a path carrying a C0 control character could forge the identity of an entity in a
//! different file; such a path is refused. Nothing here reads file contents or touches the
//! filesystem.
use vstd::prelude::*;
use vstd::string::StringSliceAdditionalSpecFns;
use vstd::utf8::{decode_utf8, encode_utf8_decode_utf8, valid_utf8};
use crate::ids::is_control;
use crate::order::key_views;
use crate::text::{
    chars_of, find_last_char, join_chars, join_with, last_index, pieces, split_chars, string_of,
    utf8_text, extend_chars, is_last_at,
};

verus! {

/// No character of `text` is below `0x20`.
pub open spec fn is_control_free(text: Seq<char>) -> bool {
    forall|i: int| 0 <= i < text.len() ==> !is_control(#[trigger] text[i])
}

/// Whether `text` holds a character below `0x20`.
pub fn has_control_character(text: &str) -> (found: bool)
    ensures
        found == !is_control_free(text@),
{
    let chars = chars_of(text);
    let mut i: usize = 0;
    while i < chars.len()
        invariant
            i <= chars.len(),
            chars@ == text@,
            forall|k: int| 0 <= k < i ==> !is_control(#[trigger] chars@[k]),
        decreases chars.len() - i,
    {
        if (chars[i] as u32) < 0x20 {
            return true;
        }
        i = i + 1;
    }
    false
}

/// Why a path was refused.
#[derive(Debug, Clone, Copy, PartialEq, Eq, Structural)]
pub enum PathRefusal {
    /// The path escaped the repository root.
    EscapesRoot,
    /// The path could not be represented as UTF-8.
    NonUtf8,
    /// The path contained a C0 control character.
    ControlCharacter,
}

/// The text rule of the path guard: a candidate holding a C0 control character is refused
/// before anything reaches the filesystem.
///
/// The canonical tuples are injective only because no field can contain the unit separator, and
/// a repository-relative path is a tuple field in every identity constructor.
pub fn guard_refusal(candidate: &str) -> (refusal: Option<PathRefusal>)
    ensures
        refusal is Some <==> !is_control_free(candidate@),
        refusal matches Some(r) ==> r == PathRefusal::ControlCharacter,
{
    if has_control_character(candidate) {
        Some(PathRefusal::ControlCharacter)
    } else {
        None
    }
}

/// Segments a path assembled from tree entry names may have.
pub const MAX_TREE_PATH_DEPTH: usize = 64;

/// Why [`safe_tree_name`] refused a Git tree entry name. A closed vocabulary, so every refusal
/// can be counted by form rather than collapsed into a boolean.
#[derive(Debug, Clone, Copy, PartialEq, Eq, Structural, PartialOrd, Ord, Hash)]
pub enum TreeNameRefusal {
    /// The name is not valid UTF-8.
    NotUtf8,
    /// The name carries a byte in the C0 range `0x00`–`0x1f`.
    ControlCharacter,
    /// The name carries a backslash.
    Backslash,
    /// The name begins with `/`, which would make the assembled path absolute.
    LeadingSlash,
    /// The path this name would extend is already at [`MAX_TREE_PATH_DEPTH`] segments.
    TooDeep,
}

impl TreeNameRefusal {
    /// Every refusal, in declaration order.
    pub const ALL: [TreeNameRefusal; 5] = [
        TreeNameRefusal::NotUtf8,
        TreeNameRefusal::ControlCharacter,
        TreeNameRefusal::Backslash,
        TreeNameRefusal::LeadingSlash,
        TreeNameRefusal::TooDeep,
    ];

    /// The tag a refusal is counted under.
    pub open spec fn form_of(self) -> Seq<char> {
        match self {
            TreeNameRefusal::NotUtf8 => "history-path-not-utf8"@,
            TreeNameRefusal::ControlCharacter => "history-path-control-character"@,
            TreeNameRefusal::Backslash => "history-path-backslash"@,
            TreeNameRefusal::LeadingSlash => "history-path-leading-slash"@,
            TreeNameRefusal::TooDeep => "history-tree-too-deep"@,
        }
    }

    /// The closed-vocabulary tag this refusal is counted under.
    pub fn form(self) -> (tag: &'static str)
        ensures
            tag@ == self.form_of(),
    {
        match self {
            TreeNameRefusal::NotUtf8 => "history-path-not-utf8",
            TreeNameRefusal::ControlCharacter => "history-path-control-character",
            TreeNameRefusal::Backslash => "history-path-backslash",
            TreeNameRefusal::LeadingSlash => "history-path-leading-slash",
            TreeNameRefusal::TooDeep => "history-tree-too-deep",
        }
    }

    /// Two different refusals never share a tag, and no tag is empty.
    pub proof fn lemma_forms_distinct(a: TreeNameRefusal, b: TreeNameRefusal)
        ensures
            a.form_of() == b.form_of() ==> a == b,
            a.form_of().len() > 0,
    {
        reveal_strlit("history-path-not-utf8");
        reveal_strlit("history-path-control-character");
        reveal_strlit("history-path-backslash");
        reveal_strlit("history-path-leading-slash");
        reveal_strlit("history-tree-too-deep");
        if a.form_of() == b.form_of() && a != b {
            assert(a.form_of().len() == b.form_of().len());
            assert(a.form_of()[8] == b.form_of()[8]);
            assert(a.form_of()[13] == b.form_of()[13]);
        }
    }
}

/// What [`safe_tree_name`] decides for a name at a depth: the refusal, or acceptance.
pub open spec fn tree_name_refusal(name: Seq<u8>, depth: usize) -> Option<TreeNameRefusal> {
    if depth == 0 || depth > MAX_TREE_PATH_DEPTH {
        Some(TreeNameRefusal::TooDeep)
    } else if !valid_utf8(name) {
        Some(TreeNameRefusal::NotUtf8)
    } else {
        let text = decode_utf8(name);
        if !is_control_free(text) {
            Some(TreeNameRefusal::ControlCharacter)
        } else if text.contains('\\') {
            Some(TreeNameRefusal::Backslash)
        } else if text.len() > 0 && text[0] == '/' {
            Some(TreeNameRefusal::LeadingSlash)
        } else {
            None
        }
    }
}

/// Guard one Git tree entry name, without touching the filesystem.
///
/// `depth` is the number of segments the assembled path will have, so the first level of a tree
/// is `1`. On success the name is returned as text, decoded once.
pub fn safe_tree_name(name: &[u8], depth: usize) -> (checked: Result<&str, TreeNameRefusal>)
    ensures
        match checked {
            Ok(text) => tree_name_refusal(name@, depth) is None && text@ == decode_utf8(name@),
            Err(r) => tree_name_refusal(name@, depth) == Some(r),
        },
{
    if depth == 0 || depth > MAX_TREE_PATH_DEPTH {
        return Err(TreeNameRefusal::TooDeep);
    }
    let text = match utf8_text(name) {
        Some(t) => t,
        None => return Err(TreeNameRefusal::NotUtf8),
    };
    proof {
        encode_utf8_decode_utf8(text@);
        vstd::utf8::encode_utf8_valid_utf8(text@);
    }
    if has_control_character(text) {
        return Err(TreeNameRefusal::ControlCharacter);
    }
    let chars = chars_of(text);
    assert(decode_utf8(name@) == text@);
    let mut i: usize = 0;
    while i < chars.len()
        invariant
            i <= chars.len(),
            chars@ == text@,
            decode_utf8(name@) == text@,
            valid_utf8(name@),
            is_control_free(text@),
            1 <= depth <= MAX_TREE_PATH_DEPTH,
            forall|k: int| 0 <= k < i ==> chars@[k] != '\\',
        decreases chars.len() - i,
    {
        if chars[i] == '\\' {
            assert(text@.contains('\\')) by {
                assert(text@[i as int] == '\\');
            }
            return Err(TreeNameRefusal::Backslash);
        }
        i = i + 1;
    }
    if chars.len() > 0 && chars[0] == '/' {
        return Err(TreeNameRefusal::LeadingSlash);
    }
    Ok(text)
}

/// The meaningful components of a `/`-separated path: empty and `.` components dropped.
pub open spec fn components(path: Seq<char>) -> Seq<Seq<char>> {
    pieces(path, '/').filter(|c: Seq<char>| c.len() > 0 && c != "."@)
}

/// The components of `path`, with empty and `.` components dropped.
fn path_components(path: &str) -> (parts: Vec<Vec<char>>)
    ensures
        key_views(parts@) == components(path@),
{
    let chars = chars_of(path);
    let all = split_chars(chars.as_slice(), '/');
    let dot = chars_of(".");
    let mut parts: Vec<Vec<char>> = Vec::new();
    let mut i: usize = 0;
    while i < all.len()
        invariant
            i <= all.len(),
            key_views(all@) == pieces(path@, '/'),
            dot@ == "."@,
            key_views(parts@) == key_views(all@).take(i as int).filter(
                |c: Seq<char>| c.len() > 0 && c != "."@,
            ),
        decreases all.len() - i,
    {
        let ghost before = key_views(all@).take(i as int);
        assert(key_views(all@).take(i + 1).drop_last() =~= before);
        proof {
            reveal(Seq::filter);
        }
        assert(key_views(all@)[i as int] == all@[i as int]@);
        let keep = all[i].len() > 0 && !crate::text::chars_eq(all[i].as_slice(), dot.as_slice());
        if keep {
            let mut part: Vec<char> = Vec::new();
            extend_chars(&mut part, all[i].as_slice());
            assert(part@ =~= all@[i as int]@);
            proof {
                crate::order::lemma_key_views_push(parts@, part);
            }
            parts.push(part);
        }
        i = i + 1;
    }
    assert(key_views(all@).take(all.len() as int) =~= key_views(all@));
    parts
}

/// The repository-relative form of `canonical` under `root`, if the root's components begin
/// its components and no remaining component is `..`: the remaining components joined with `/`.
pub open spec fn relative_under(root: Seq<char>, canonical: Seq<char>) -> Option<Seq<char>> {
    let r = components(root);
    let c = components(canonical);
    if r.len() <= c.len() && c.take(r.len() as int) == r && forall|i: int|
        r.len() <= i < c.len() ==> #[trigger] c[i] != ".."@ {
        Some(join_with(c.skip(r.len() as int), '/'))
    } else {
        None
    }
}

/// Repository-relative, `/`-separated form of a canonical path under `root`.
pub fn relative_path(root: &str, canonical: &str) -> (rel: Result<String, PathRefusal>)
    ensures
        match rel {
            Ok(text) => relative_under(root@, canonical@) == Some(text@),
            Err(r) => relative_under(root@, canonical@) is None && r == PathRefusal::EscapesRoot,
        },
{
    let r = path_components(root);
    let c = path_components(canonical);
    if r.len() > c.len() {
        return Err(PathRefusal::EscapesRoot);
    }
    let mut i: usize = 0;
    while i < r.len()
        invariant
            i <= r.len() <= c.len(),
            key_views(r@) == components(root@),
            key_views(c@) == components(canonical@),
            forall|k: int| 0 <= k < i ==> key_views(c@)[k] == key_views(r@)[k],
        decreases r.len() - i,
    {
        if !crate::text::chars_eq(r[i].as_slice(), c[i].as_slice()) {
            proof {
                assert(key_views(c@).take(r.len() as int)[i as int] != key_views(r@)[i as int]);
            }
            return Err(PathRefusal::EscapesRoot);
        }
        i = i + 1;
    }
    assert(key_views(c@).take(r.len() as int) =~= key_views(r@));
    let parent = chars_of("..");
    let mut rest: Vec<Vec<char>> = Vec::new();
    let mut j: usize = r.len();
    while j < c.len()
        invariant
            r.len() <= j <= c.len(),
            key_views(r@) == components(root@),
            key_views(c@) == components(canonical@),
            parent@ == ".."@,
            key_views(rest@) == key_views(c@).subrange(r.len() as int, j as int),
            forall|k: int| r.len() <= k < j ==> #[trigger] key_views(c@)[k] != ".."@,
        decreases c.len() - j,
    {
        assert(key_views(c@)[j as int] == c@[j as int]@);
        if crate::text::chars_eq(c[j].as_slice(), parent.as_slice()) {
            return Err(PathRefusal::EscapesRoot);
        }
        let mut part: Vec<char> = Vec::new();
        extend_chars(&mut part, c[j].as_slice());
        assert(part@ =~= c@[j as int]@);
        proof {
            crate::order::lemma_key_views_push(rest@, part);
            assert(key_views(c@).subrange(r.len() as int, j + 1) =~= key_views(c@).subrange(
                r.len() as int,
                j as int,
            ).push(part@));
        }
        rest.push(part);
        j = j + 1;
    }
    assert(key_views(c@).subrange(r.len() as int, c.len() as int) =~= key_views(c@).skip(
        r.len() as int,
    ));
    let joined = join_chars(&rest, '/');
    Ok(string_of(joined.as_slice()))
}

/// The directory holding `rel_path`: everything before its last `/`, if it has one.
pub open spec fn parent_of(rel_path: Seq<char>) -> Option<Seq<char>> {
    match last_index(rel_path, '/') {
        Some(i) => Some(rel_path.take(i)),
        None => None,
    }
}

/// The directory holding a repository-relative path, if it is not at the root.
pub fn parent_directory(rel_path: &str) -> (parent: Option<String>)
    ensures
        match parent {
            Some(p) => parent_of(rel_path@) == Some(p@),
            None => parent_of(rel_path@) is None,
        },
{
    let chars = chars_of(rel_path);
    match find_last_char(chars.as_slice(), '/') {
        Some(i) => {
            let head = &chars.as_slice()[0..i];
            assert(head@ =~= rel_path@.take(i as int));
            Some(string_of(head))
        },
        None => None,
    }
}

/// `d` is reached from `p` by taking the parent directory between one and `f` times.
pub open spec fn above(p: Seq<char>, d: Seq<char>, f: nat) -> bool
    decreases f,
{
    f > 0 && match parent_of(p) {
        Some(q) => q == d || above(q, d, (f - 1) as nat),
        None => false,
    }
}

/// `d` is a directory holding `p`, directly or further up.
pub open spec fn is_ancestor(p: Seq<char>, d: Seq<char>) -> bool {
    exists|f: nat| above(p, d, f)
}

/// A parent is shorter than its child.
proof fn lemma_parent_shorter(p: Seq<char>)
    ensures
        parent_of(p) matches Some(q) ==> q.len() < p.len(),
{
    if let Some(i) = last_index(p, '/') {
        assert(exists|i: int| is_last_at(p, '/', i));
        assert(is_last_at(p, '/', i));
    }
}

/// An ancestor of `p` is its parent or an ancestor of its parent.
proof fn lemma_ancestor_step(p: Seq<char>, d: Seq<char>)
    ensures
        is_ancestor(p, d) <==> (parent_of(p) matches Some(q) && (q == d || is_ancestor(q, d))),
{
    if is_ancestor(p, d) {
        let f = choose|f: nat| above(p, d, f);
        if let Some(q) = parent_of(p) {
            if q != d {
                assert(above(q, d, (f - 1) as nat));
            }
        }
    }
    if let Some(q) = parent_of(p) {
        if q == d {
            assert(above(p, d, 1));
        } else if is_ancestor(q, d) {
            let f = choose|f: nat| above(q, d, f);
            assert(above(p, d, f + 1));
        }
    }
}

/// `d` is a directory holding at least one of `rel_paths`.
pub open spec fn holds_one_of(rel_paths: Seq<String>, d: Seq<char>) -> bool {
    exists|i: int| 0 <= i < rel_paths.len() && is_ancestor(#[trigger] rel_paths[i]@, d)
}

/// The texts of a list of strings.
pub open spec fn texts(v: Seq<String>) -> Seq<Seq<char>> {
    v.map_values(|x: String| x@)
}

/// The directories holding at least one of `rel_paths`, sorted, each once.
pub fn directories_of(rel_paths: &[String]) -> (directories: Vec<String>)
    ensures
        crate::order::strictly_ascending(texts(directories@)),
        forall|d: Seq<char>| #[trigger] texts(directories@).contains(d) <==> holds_one_of(rel_paths@, d),
{
    let mut keys: Vec<Vec<char>> = Vec::new();
    let mut i: usize = 0;
    while i < rel_paths.len()
        invariant
            i <= rel_paths@.len(),
            forall|d: Seq<char>| #[trigger] key_views(keys@).contains(d) ==> holds_one_of(rel_paths@, d),
            forall|j: int, d: Seq<char>| 0 <= j < i && #[trigger] is_ancestor(rel_paths@[j]@, d)
                ==> key_views(keys@).contains(d),
        decreases rel_paths@.len() - i,
    {
        let ghost p = rel_paths@[i as int]@;
        let ghost start = key_views(keys@);
        let mut current = parent_directory(rel_paths[i].as_str());
        proof {
            assert forall|d: Seq<char>| is_ancestor(p, d) implies (match current {
                Some(c) => d == c@ || is_ancestor(c@, d),
                None => false,
            }) by {
                lemma_ancestor_step(p, d);
            }
            if let Some(c) = &current {
                lemma_ancestor_step(p, c@);
            }
        }
        loop
            invariant
                i < rel_paths@.len(),
                p == rel_paths@[i as int]@,
                forall|d: Seq<char>| start.contains(d) ==> key_views(keys@).contains(d),
                forall|d: Seq<char>| #[trigger] key_views(keys@).contains(d) ==> holds_one_of(rel_paths@, d),
                forall|j: int, d: Seq<char>| 0 <= j < i && #[trigger] is_ancestor(rel_paths@[j]@, d)
                    ==> start.contains(d),
                match current {
                    Some(c) => is_ancestor(p, c@) && forall|d: Seq<char>|
                        is_ancestor(p, d) ==> key_views(keys@).contains(d) || d == c@ || is_ancestor(c@, d),
                    None => forall|d: Seq<char>| is_ancestor(p, d) ==> key_views(keys@).contains(d),
                },
            ensures
                forall|d: Seq<char>| start.contains(d) ==> key_views(keys@).contains(d),
                forall|d: Seq<char>| #[trigger] key_views(keys@).contains(d) ==> holds_one_of(rel_paths@, d),
                forall|d: Seq<char>| is_ancestor(p, d) ==> key_views(keys@).contains(d),
            decreases match current { Some(c) => c@.len() + 1, None => 0 },
        {
            match current {
                Some(directory) => {
                    let ghost c = directory@;
                    let ghost before = key_views(keys@);
                    let key = chars_of(directory.as_str());
                    proof {
                        crate::order::lemma_key_views_push(keys@, key);
                    }
                    keys.push(key);
                    let next = parent_directory(directory.as_str());
                    proof {
                        let now = key_views(keys@);
                        assert(now =~= before.push(c));
                        assert(now[now.len() - 1] == c);
                        assert forall|d: Seq<char>| before.contains(d) implies now.contains(d) by {
                            let y = choose|y: int| 0 <= y < before.len() && before[y] == d;
                            assert(now[y] == before[y]);
                        }
                        assert forall|d: Seq<char>| now.contains(d) implies holds_one_of(rel_paths@, d) by {
                            if d != c {
                                let y = choose|y: int| 0 <= y < now.len() && now[y] == d;
                                assert(before[y] == d);
                                assert(before.contains(d));
                            } else {
                                assert(is_ancestor(rel_paths@[i as int]@, d));
                            }
                        }
                        lemma_parent_shorter(c);
                        assert forall|d: Seq<char>| is_ancestor(c, d) implies
                            (match next { Some(n) => d == n@ || is_ancestor(n@, d), None => false }) by {
                            lemma_ancestor_step(c, d);
                        }
                        if let Some(n) = &next {
                            lemma_ancestor_step(c, n@);
                            assert(is_ancestor(p, n@)) by {
                                let f = choose|f: nat| above(p, c, f);
                                lemma_above_extend(p, c, n@, f);
                            }
                        }
                    }
                    current = next;
                },
                None => {
                    break;
                },
            }
        }
        proof {
            assert forall|j: int, d: Seq<char>| 0 <= j < i + 1 && #[trigger] is_ancestor(rel_paths@[j]@, d)
                implies key_views(keys@).contains(d) by {
                if j < i {
                    assert(start.contains(d));
                }
            }
        }
        i = i + 1;
    }
    let distinct = crate::order::sorted_unique(&keys);
    let mut out: Vec<String> = Vec::new();
    let mut k: usize = 0;
    while k < distinct.len()
        invariant
            k <= distinct@.len(),
            texts(out@) == key_views(distinct@).take(k as int),
        decreases distinct@.len() - k,
    {
        let ghost before = texts(out@);
        out.push(string_of(distinct[k].as_slice()));
        proof {
            assert(texts(out@) =~= before.push(distinct@[k as int]@));
            assert(key_views(distinct@).take(k + 1) =~= key_views(distinct@).take(k as int).push(
                key_views(distinct@)[k as int],
            ));
        }
        k = k + 1;
    }
    proof {
        assert(key_views(distinct@).take(k as int) =~= key_views(distinct@));
        assert forall|d: Seq<char>| holds_one_of(rel_paths@, d) implies #[trigger] texts(out@).contains(d) by {
            let j = choose|j: int| 0 <= j < rel_paths@.len() && is_ancestor(#[trigger] rel_paths@[j]@, d);
            assert(key_views(keys@).contains(d));
        }
    }
    out
}

/// One more parent step after a chain of them is a chain.
proof fn lemma_above_extend(p: Seq<char>, c: Seq<char>, n: Seq<char>, f: nat)
    requires
        above(p, c, f),
        parent_of(c) == Some(n),
    ensures
        above(p, n, f + 1),
    decreases f,
{
    if let Some(q) = parent_of(p) {
        if q == c {
            assert(above(q, n, f));
        } else {
            lemma_above_extend(q, c, n, (f - 1) as nat);
        }
    }
}

/// A file selected for indexing.
#[derive(Debug, Clone, PartialEq, Eq)]
pub struct DiscoveredFile {
    /// Repository-relative path, `/`-separated.
    pub rel_path: String,
    /// Canonical absolute path.
    pub abs_path: String,
    /// The file's extension, lower-cased; the language table decides what it means.
    pub extension: String,
}

/// What discovery found and what it refused.
#[derive(Debug, Clone, PartialEq, Eq)]
pub struct DiscoveryReport {
    /// Files to index, sorted by `rel_path`.
    pub files: Vec<DiscoveredFile>,
    /// Directories containing at least one indexed file, sorted, `/`-separated.
    pub directories: Vec<String>,
    /// Paths refused by the secret deny-list, sorted.
    pub denied_secrets: Vec<String>,
    /// Paths skipped because their extension has no grammar.
    pub skipped_unsupported: usize,
    /// Entries skipped because they were symlinks.
    pub skipped_symlinks: usize,
    /// Entries refused by the path guard: traversal, control characters, non-UTF-8.
    pub refused_paths: usize,
}

/// A discovered file as text.
pub open spec fn file_view(f: DiscoveredFile) -> (Seq<char>, Seq<char>, Seq<char>) {
    (f.rel_path@, f.abs_path@, f.extension@)
}

/// Every discovered file as text.
pub open spec fn file_views(files: Seq<DiscoveredFile>) -> Seq<(Seq<char>, Seq<char>, Seq<char>)> {
    files.map_values(|f: DiscoveredFile| file_view(f))
}

/// The paths of the discovered files, as text.
pub open spec fn file_paths(files: Seq<DiscoveredFile>) -> Seq<Seq<char>> {
    files.map_values(|f: DiscoveredFile| f.rel_path@)
}

/// The paths of the discovered files.
pub open spec fn file_rel_paths(files: Seq<DiscoveredFile>) -> Seq<String> {
    files.map_values(|f: DiscoveredFile| f.rel_path)
}

/// `out` lists the entries of `input` in the order `order` picks them, each position of `input`
/// picked exactly once.
pub open spec fn picks<T>(out: Seq<T>, input: Seq<T>, order: Seq<usize>) -> bool {
    &&& order.len() == input.len()
    &&& out.len() == input.len()
    &&& forall|p: int| 0 <= p < order.len() ==> #[trigger] order[p] < input.len()
    &&& forall|x: usize| x < input.len() ==> order.contains(x)
    &&& forall|p: int| 0 <= p < out.len() ==> #[trigger] out[p] == input[order[p] as int]
}

/// `keys` never decreases.
pub open spec fn ascending(keys: Seq<Seq<char>>) -> bool {
    forall|i: int, j: int| 0 <= i < j < keys.len() ==> !crate::order::text_lt(keys[j], keys[i])
}

/// What sorting after the walk does: the files by path and the denied paths, each a
/// rearrangement of what the walk found, and the directories every file sits in.
pub open spec fn finished(report: DiscoveryReport, files: Seq<DiscoveredFile>, denied: Seq<String>) -> bool {
    &&& exists|order: Seq<usize>| #[trigger] picks(file_views(report.files@), file_views(files), order)
    &&& ascending(file_paths(report.files@))
    &&& exists|order: Seq<usize>| #[trigger] picks(texts(report.denied_secrets@), texts(denied), order)
    &&& ascending(texts(report.denied_secrets@))
    &&& crate::order::strictly_ascending(texts(report.directories@))
    &&& forall|d: Seq<char>| #[trigger] texts(report.directories@).contains(d)
        <==> holds_one_of(file_rel_paths(files), d)
}

/// A stably sorted order of keys never puts a larger key first.
proof fn lemma_stable_ascending(keys: Seq<Seq<char>>, order: Seq<usize>)
    requires
        crate::order::stably_sorted(keys, order),
        forall|p: int| 0 <= p < order.len() ==> #[trigger] order[p] < keys.len(),
    ensures
        ascending(order.map_values(|p: usize| keys[p as int])),
{
    let picked = order.map_values(|p: usize| keys[p as int]);
    assert forall|i: int, j: int| 0 <= i < j < picked.len() implies !crate::order::text_lt(picked[j], picked[i]) by {
        assert(crate::order::index_lt(keys, order[i] as int, order[j] as int));
        crate::order::lemma_text_trichotomy(keys[order[i] as int], keys[order[j] as int]);
    }
}

/// The denied paths, sorted.
fn sort_texts(items: &Vec<String>) -> (out: Vec<String>)
    ensures
        exists|order: Seq<usize>| #[trigger] picks(texts(out@), texts(items@), order),
        ascending(texts(out@)),
{
    let mut keys: Vec<Vec<char>> = Vec::new();
    let mut i: usize = 0;
    while i < items.len()
        invariant
            i <= items@.len(),
            key_views(keys@) == texts(items@).take(i as int),
        decreases items@.len() - i,
    {
        let key = chars_of(items[i].as_str());
        proof {
            crate::order::lemma_key_views_push(keys@, key);
            assert(texts(items@).take(i + 1) =~= texts(items@).take(i as int).push(items@[i as int]@));
        }
        keys.push(key);
        i = i + 1;
    }
    assert(texts(items@).take(i as int) =~= texts(items@));
    let order = crate::order::stable_order(&keys);
    let mut out: Vec<String> = Vec::new();
    let mut p: usize = 0;
    while p < order.len()
        invariant
            p <= order@.len(),
            order@.len() == items@.len(),
            forall|q: int| 0 <= q < order@.len() ==> #[trigger] order@[q] < items@.len(),
            out@.len() == p,
            forall|q: int| 0 <= q < p ==> #[trigger] texts(out@)[q] == texts(items@)[order@[q] as int],
        decreases order@.len() - p,
    {
        let ghost before = out@;
        out.push(items[order[p]].clone());
        proof {
            assert forall|q: int| 0 <= q < p + 1 implies #[trigger] texts(out@)[q] == texts(items@)[order@[q] as int] by {
                if q < p {
                    assert(out@[q] == before[q]);
                    assert(texts(before)[q] == texts(items@)[order@[q] as int]);
                } else {
                    assert(out@[q]@ == items@[order@[q] as int]@);
                }
            }
        }
        p = p + 1;
    }
    proof {
        lemma_stable_ascending(key_views(keys@), order@);
        assert(texts(out@) =~= order@.map_values(|q: usize| key_views(keys@)[q as int]));
        assert(picks(texts(out@), texts(items@), order@));
    }
    out
}

/// The files, sorted by path.
fn sort_files(files: &Vec<DiscoveredFile>) -> (out: Vec<DiscoveredFile>)
    ensures
        exists|order: Seq<usize>| #[trigger] picks(file_views(out@), file_views(files@), order),
        ascending(file_paths(out@)),
{
    let ghost paths = file_paths(files@);
    let ghost views = file_views(files@);
    let mut keys: Vec<Vec<char>> = Vec::new();
    let mut i: usize = 0;
    while i < files.len()
        invariant
            i <= files@.len(),
            paths == file_paths(files@),
            key_views(keys@) == paths.take(i as int),
        decreases files@.len() - i,
    {
        let key = chars_of(files[i].rel_path.as_str());
        proof {
            crate::order::lemma_key_views_push(keys@, key);
            assert(paths.take(i + 1) =~= paths.take(i as int).push(files@[i as int].rel_path@));
        }
        keys.push(key);
        i = i + 1;
    }
    assert(paths.take(i as int) =~= paths);
    let order = crate::order::stable_order(&keys);
    let mut out: Vec<DiscoveredFile> = Vec::new();
    let mut p: usize = 0;
    while p < order.len()
        invariant
            p <= order@.len(),
            order@.len() == files@.len(),
            views == file_views(files@),
            forall|q: int| 0 <= q < order@.len() ==> #[trigger] order@[q] < files@.len(),
            out@.len() == p,
            forall|q: int| 0 <= q < p ==> #[trigger] file_view(out@[q]) == views[order@[q] as int],
        decreases order@.len() - p,
    {
        let f = &files[order[p]];
        let copy = DiscoveredFile {
            rel_path: f.rel_path.clone(),
            abs_path: f.abs_path.clone(),
            extension: f.extension.clone(),
        };
        let ghost before = out@;
        out.push(copy);
        proof {
            assert forall|q: int| 0 <= q < p + 1 implies #[trigger] file_view(out@[q]) == views[order@[q] as int] by {
                if q < p {
                    assert(out@[q] == before[q]);
                }
            }
        }
        p = p + 1;
    }
    proof {
        lemma_stable_ascending(key_views(keys@), order@);
        let out_paths = file_paths(out@);
        assert forall|q: int| 0 <= q < out_paths.len() implies out_paths[q] == key_views(keys@)[order@[q] as int] by {
            assert(file_view(out@[q]) == views[order@[q] as int]);
        }
        assert(out_paths =~= order@.map_values(|q: usize| key_views(keys@)[q as int]));
        let out_views = file_views(out@);
        assert forall|q: int| 0 <= q < out_views.len() implies #[trigger] out_views[q] == views[order@[q] as int] by {
            assert(file_view(out@[q]) == views[order@[q] as int]);
        }
        assert(picks(out_views, views, order@));
    }
    out
}

impl DiscoveryReport {
    /// The report of a walk: the files it selected sorted by path, the denied paths sorted, every
    /// directory holding a selected file, and the counts as the walk kept them.
    pub fn finish(
        files: Vec<DiscoveredFile>,
        denied_secrets: Vec<String>,
        skipped_unsupported: usize,
        skipped_symlinks: usize,
        refused_paths: usize,
    ) -> (report: DiscoveryReport)
        ensures
            finished(report, files@, denied_secrets@),
            report.skipped_unsupported == skipped_unsupported,
            report.skipped_symlinks == skipped_symlinks,
            report.refused_paths == refused_paths,
    {
        let sorted = sort_files(&files);
        let denied = sort_texts(&denied_secrets);
        let mut rel_paths: Vec<String> = Vec::new();
        let mut i: usize = 0;
        while i < files.len()
            invariant
                i <= files@.len(),
                texts(rel_paths@) == file_paths(files@).take(i as int),
            decreases files@.len() - i,
        {
            let ghost before = rel_paths@;
            rel_paths.push(files[i].rel_path.clone());
            proof {
                assert(texts(rel_paths@) =~= texts(before).push(files@[i as int].rel_path@));
                assert(file_paths(files@).take(i + 1) =~= file_paths(files@).take(i as int).push(files@[i as int].rel_path@));
            }
            i = i + 1;
        }
        let directories = directories_of(&rel_paths);
        proof {
            let fp = file_paths(files@);
            assert(fp.take(i as int) =~= fp);
            assert forall|d: Seq<char>| holds_one_of(rel_paths@, d) <==> holds_one_of(file_rel_paths(files@), d) by {
                if holds_one_of(rel_paths@, d) {
                    let j = choose|j: int| 0 <= j < rel_paths@.len() && is_ancestor(#[trigger] rel_paths@[j]@, d);
                    assert(texts(rel_paths@)[j] == rel_paths@[j]@);
                    assert(file_rel_paths(files@)[j]@ == rel_paths@[j]@);
                }
                if holds_one_of(file_rel_paths(files@), d) {
                    let j = choose|j: int| 0 <= j < files@.len() && is_ancestor(#[trigger] file_rel_paths(files@)[j]@, d);
                    assert(texts(rel_paths@)[j] == rel_paths@[j]@);
                    assert(file_rel_paths(files@)[j]@ == rel_paths@[j]@);
                }
            }
        }
        DiscoveryReport {
            files: sorted,
            directories,
            denied_secrets: denied,
            skipped_unsupported,
            skipped_symlinks,
            refused_paths,
        }
    }
}

} // verus!
