//! `.nerve/` layout, the configuration record and the secret deny-list.
use vstd::prelude::*;
use crate::text::{chars_of, extend_str, string_of, string_of_str};

verus! {

/// Directory holding the index, inside the repository.
pub const NERVE_DIR: &'static str = ".nerve";

/// Config file name.
pub const CONFIG_FILE: &'static str = "config.toml";

/// Database file name.
pub const DB_FILE: &'static str = "nerve.db";

/// Default per-file byte ceiling: 2 MiB.
pub const DEFAULT_MAX_FILE_BYTES: u64 = 2097152;

/// Built-in secret deny-list.
///
/// Applied to the file name of every discovered path before its contents are read, so a denied
/// file is never loaded into memory. Patterns support `*` as a wildcard.
pub const SECRET_DENY_PATTERNS: [&'static str; 15] = [
    ".env",
    ".env.*",
    "*.pem",
    "*.key",
    "*.p12",
    "*.pfx",
    "*.keystore",
    "*.jks",
    "id_rsa*",
    "id_ed25519*",
    ".npmrc",
    ".netrc",
    ".pgpass",
    "credentials",
    "secrets.*",
];

/// Directories never descended into, regardless of ignore files.
pub const PRUNED_DIRECTORIES: [&'static str; 3] = [".git", ".nerve", "node_modules"];

/// Indexing knobs.
#[derive(Debug, Clone, PartialEq, Eq)]
pub struct IndexSettings {
    /// Files larger than this are skipped and counted as failures.
    pub max_file_bytes: u64,
}

impl Default for IndexSettings {
    fn default() -> (settings: Self)
        ensures
            settings.max_file_bytes == DEFAULT_MAX_FILE_BYTES,
    {
        IndexSettings { max_file_bytes: DEFAULT_MAX_FILE_BYTES }
    }
}

/// Security knobs.
#[derive(Debug, Clone, PartialEq, Eq)]
pub struct SecuritySettings {
    /// Additional deny-list patterns, appended to [`SECRET_DENY_PATTERNS`].
    pub extra_deny_patterns: Vec<String>,
}

impl Default for SecuritySettings {
    fn default() -> (settings: Self)
        ensures
            settings.extra_deny_patterns@.len() == 0,
    {
        SecuritySettings { extra_deny_patterns: Vec::new() }
    }
}

/// Contents of `.nerve/config.toml`.
#[derive(Debug, Clone, PartialEq, Eq)]
pub struct Config {
    /// Schema version this config was written for.
    pub schema_version: i64,
    /// Stable project identifier. Not derived from any path, so the index survives moves.
    pub project_id: String,
    /// When `nerve init` created this config.
    pub created_at: String,
    /// Indexing knobs.
    pub index: IndexSettings,
    /// Security knobs.
    pub security: SecuritySettings,
}

/// The built-in deny-list, as text.
pub open spec fn builtin_deny_patterns() -> Seq<Seq<char>> {
    seq![
        ".env"@,
        ".env.*"@,
        "*.pem"@,
        "*.key"@,
        "*.p12"@,
        "*.pfx"@,
        "*.keystore"@,
        "*.jks"@,
        "id_rsa*"@,
        "id_ed25519*"@,
        ".npmrc"@,
        ".netrc"@,
        ".pgpass"@,
        "credentials"@,
        "secrets.*"@,
    ]
}

/// The views of a list of strings.
pub open spec fn string_views(items: Seq<String>) -> Seq<Seq<char>> {
    items.map_values(|s: String| s@)
}

impl Config {
    /// Every deny-list pattern in effect: built-in first, then the user-supplied ones.
    pub fn deny_patterns(&self) -> (patterns: Vec<String>)
        ensures
            string_views(patterns@) == builtin_deny_patterns() + string_views(
                self.security.extra_deny_patterns@,
            ),
    {
        let mut patterns: Vec<String> = Vec::new();
        let mut i: usize = 0;
        while i < 15
            invariant
                i <= 15,
                string_views(patterns@) == builtin_deny_patterns().take(i as int),
            decreases 15 - i,
        {
            let pattern = SECRET_DENY_PATTERNS[i];
            proof {
                assert(pattern@ == builtin_deny_patterns()[i as int]);
            }
            let ghost before = patterns@;
            patterns.push(string_of_str(pattern));
            assert(string_views(patterns@) =~= string_views(before).push(pattern@));
            assert(builtin_deny_patterns().take(i + 1) =~= builtin_deny_patterns().take(i as int).push(
                pattern@,
            ));
            i = i + 1;
        }
        assert(builtin_deny_patterns().take(15) =~= builtin_deny_patterns());
        let extra = &self.security.extra_deny_patterns;
        let mut j: usize = 0;
        while j < extra.len()
            invariant
                j <= extra.len(),
                string_views(patterns@) == builtin_deny_patterns() + string_views(extra@).take(
                    j as int,
                ),
            decreases extra.len() - j,
        {
            let ghost before = patterns@;
            patterns.push(string_of_str(extra[j].as_str()));
            assert(string_views(patterns@) =~= string_views(before).push(extra@[j as int]@));
            assert(string_views(extra@).take(j + 1) =~= string_views(extra@).take(j as int).push(
                extra@[j as int]@,
            ));
            j = j + 1;
        }
        assert(string_views(extra@).take(extra.len() as int) =~= string_views(extra@));
        patterns
    }
}

/// `child` appended to `root` as a path component: with a `/` between them unless `root` is
/// empty or already ends in one.
pub open spec fn path_join(root: Seq<char>, child: Seq<char>) -> Seq<char> {
    if root.len() == 0 || root.last() == '/' {
        root + child
    } else {
        root + seq!['/'] + child
    }
}

/// Join a relative component onto a path.
fn join_component(root: &str, child: &str) -> (path: String)
    ensures
        path@ == path_join(root@, child@),
{
    let mut out = chars_of(root);
    if out.len() > 0 && out[out.len() - 1] != '/' {
        out.push('/');
    }
    extend_str(&mut out, child);
    string_of(out.as_slice())
}

/// `<root>/.nerve`
pub fn nerve_dir(root: &str) -> (path: String)
    ensures
        path@ == path_join(root@, NERVE_DIR@),
{
    join_component(root, NERVE_DIR)
}

/// `<root>/.nerve/config.toml`
pub fn config_path(root: &str) -> (path: String)
    ensures
        path@ == path_join(path_join(root@, NERVE_DIR@), CONFIG_FILE@),
{
    let dir = nerve_dir(root);
    join_component(dir.as_str(), CONFIG_FILE)
}

/// `<root>/.nerve/nerve.db`
pub fn db_path(root: &str) -> (path: String)
    ensures
        path@ == path_join(path_join(root@, NERVE_DIR@), DB_FILE@),
{
    let dir = nerve_dir(root);
    join_component(dir.as_str(), DB_FILE)
}

/// Whether the pattern from position `i` on matches the name from position `j` on, where `*`
/// matches any run of characters (including none) and every other character matches itself.
pub open spec fn glob_from(pattern: Seq<char>, name: Seq<char>, i: int, j: int) -> bool
    decreases pattern.len() - i, name.len() - j,
{
    if i >= pattern.len() || i < 0 {
        j >= name.len()
    } else if pattern[i] == '*' {
        glob_from(pattern, name, i + 1, j) || (0 <= j < name.len() && glob_from(
            pattern,
            name,
            i,
            j + 1,
        ))
    } else {
        0 <= j < name.len() && pattern[i] == name[j] && glob_from(pattern, name, i + 1, j + 1)
    }
}

/// Whether `pattern` matches the whole of `name`.
pub open spec fn glob_matches(pattern: Seq<char>, name: Seq<char>) -> bool {
    glob_from(pattern, name, 0, 0)
}

/// Match a file name against a deny-list pattern.
///
/// Supports `*` (any run of characters, including empty) anywhere in the pattern. Matching is
/// case-sensitive and applies to the file name only, never to a whole path, so a pattern can
/// never be escaped by nesting.
pub fn pattern_matches(pattern: &str, name: &str) -> (matched: bool)
    ensures
        matched == glob_matches(pattern@, name@),
{
    let pat = chars_of(pattern);
    let nm = chars_of(name);
    let plen = pat.len();
    let nlen = nm.len();
    // `next[j]` holds whether the pattern from `i + 1` matches the name from `j`.
    let mut next: Vec<bool> = Vec::new();
    let mut j: usize = 0;
    while j < nlen
        invariant
            j <= nlen,
            nlen == name@.len(),
            plen == pattern@.len(),
            next.len() == j,
            forall|k: int| 0 <= k < j ==> #[trigger] next@[k] == glob_from(pattern@, name@, plen as int, k),
        decreases nlen - j,
    {
        next.push(false);
        j = j + 1;
    }
    next.push(true);
    let mut i: usize = plen;
    while i > 0
        invariant
            i <= plen,
            pat@ == pattern@,
            nm@ == name@,
            plen == pattern@.len(),
            nlen == name@.len(),
            next.len() == nlen + 1,
            forall|k: int| 0 <= k <= nlen ==> #[trigger] next@[k] == glob_from(pattern@, name@, i as int, k),
        decreases i,
    {
        let row = i - 1;
        let is_star = pat[row] == '*';
        let mut cur: Vec<bool> = vec![false; nlen + 1];
        let mut left: usize = nlen + 1;
        while left > 0
            invariant
                left <= nlen + 1,
                row + 1 == i,
                i <= plen,
                pat@ == pattern@,
                nm@ == name@,
                plen == pattern@.len(),
                nlen == name@.len(),
                is_star == (pattern@[row as int] == '*'),
                next.len() == nlen + 1,
                cur.len() == nlen + 1,
                forall|k: int| 0 <= k <= nlen ==> #[trigger] next@[k] == glob_from(pattern@, name@, i as int, k),
                forall|k: int| left <= k <= nlen ==> #[trigger] cur@[k] == glob_from(pattern@, name@, row as int, k),
            decreases left,
        {
            let k = left - 1;
            let value = if is_star {
                next[k] || (k < nlen && cur[k + 1])
            } else {
                k < nlen && pat[row] == nm[k] && next[k + 1]
            };
            cur.set(k, value);
            left = k;
        }
        next = cur;
        i = row;
    }
    next[0]
}

/// True when a file name is denied by any of the supplied patterns.
pub fn is_denied(name: &str, patterns: &[String]) -> (denied: bool)
    ensures
        denied == exists|i: int| 0 <= i < patterns@.len() && glob_matches(#[trigger] patterns@[i]@, name@),
{
    let mut i: usize = 0;
    while i < patterns.len()
        invariant
            i <= patterns.len(),
            forall|k: int| 0 <= k < i ==> !glob_matches(#[trigger] patterns@[k]@, name@),
        decreases patterns.len() - i,
    {
        if pattern_matches(patterns[i].as_str(), name) {
            return true;
        }
        i = i + 1;
    }
    false
}

/// A pattern without `*` matches exactly the name that spells it.
pub proof fn lemma_literal_pattern_matches_itself_only(pattern: Seq<char>, name: Seq<char>)
    requires
        forall|k: int| 0 <= k < pattern.len() ==> #[trigger] pattern[k] != '*',
    ensures
        glob_matches(pattern, name) <==> pattern == name,
{
    lemma_literal_suffix(pattern, name, 0, 0);
    if glob_matches(pattern, name) {
        assert(pattern.subrange(0, pattern.len() as int) =~= pattern);
        assert(name.subrange(0, name.len() as int) =~= name);
    }
    if pattern == name {
        assert(pattern.subrange(0, pattern.len() as int) == name.subrange(0, name.len() as int));
    }
}

proof fn lemma_literal_suffix(pattern: Seq<char>, name: Seq<char>, i: int, j: int)
    requires
        forall|k: int| 0 <= k < pattern.len() ==> #[trigger] pattern[k] != '*',
        0 <= i <= pattern.len(),
        0 <= j <= name.len(),
    ensures
        glob_from(pattern, name, i, j) <==> pattern.subrange(i, pattern.len() as int)
            == name.subrange(j, name.len() as int),
    decreases pattern.len() - i,
{
    let ps = pattern.subrange(i, pattern.len() as int);
    let ns = name.subrange(j, name.len() as int);
    if i < pattern.len() {
        if j < name.len() {
            lemma_literal_suffix(pattern, name, i + 1, j + 1);
            assert(ps[0] == pattern[i]);
            assert(ns[0] == name[j]);
            assert(ps.drop_first() =~= pattern.subrange(i + 1, pattern.len() as int));
            assert(ns.drop_first() =~= name.subrange(j + 1, name.len() as int));
            if ps == ns {
                assert(ps.drop_first() == ns.drop_first());
            }
            if pattern[i] == name[j] && ps.drop_first() == ns.drop_first() {
                assert(ps =~= seq![ps[0]] + ps.drop_first());
                assert(ns =~= seq![ns[0]] + ns.drop_first());
            }
        } else {
            assert(ns.len() == 0);
            assert(ps.len() > 0);
        }
    } else {
        assert(ps.len() == 0);
        if j < name.len() {
            assert(ns.len() > 0);
        } else {
            assert(ns =~= ps);
        }
    }
}

/// A pattern of a single `*` matches every name.
pub proof fn lemma_star_matches_everything(name: Seq<char>)
    ensures
        glob_matches(seq!['*'], name),
{
    lemma_star_from(name, 0);
}

proof fn lemma_star_from(name: Seq<char>, j: int)
    requires
        0 <= j <= name.len(),
    ensures
        glob_from(seq!['*'], name, 0, j),
    decreases name.len() - j,
{
    if j < name.len() {
        lemma_star_from(name, j + 1);
    }
    assert(glob_from(seq!['*'], name, 1, name.len() as int));
}

} // verus!
