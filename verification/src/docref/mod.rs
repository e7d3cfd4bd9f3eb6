//! Document link resolution: turning a destination a document wrote into an indexed entity.
//!
//! Every destination goes through the path guard's text rule: a destination whose normalized
//! path holds a control character is refused and never opened. Resolution is decided by
//! membership of the indexed path set, not by the filesystem, so it is a pure function of its
//! inputs. Percent-encoding is not decoded: `./my%20file.md` names nothing here, even when
//! `my file.md` is indexed, because decoding `%1f` would smuggle a separator past the guard.
//!
//! A destination naming an indexed file resolves to that file; a `#L<n>` or `#L<n>-L<m>` fragment
//! additionally resolves to the innermost symbol covering line `n`, and two symbols with identical
//! spans are ambiguous and resolve to neither. An external destination is counted and never
//! fetched; a bare `#fragment` is counted.
use vstd::prelude::*;
use crate::discover::{has_control_character, is_control_free};
use crate::model::Span;
use crate::order::{key_views, lemma_key_views_push, stable_order, stably_sorted, text_lt};
use crate::text::{
    chars_eq, chars_of, extend_chars, find_char, find_last_char, first_index, is_first_at,
    join_chars, join_with, last_index, parse_unsigned, parse_unsigned_chars, pieces, split_chars,
    string_of, all_digits, digits_value, is_digit,
};

pub mod reason;
pub mod outcome;

verus! {

/// Which syntax carried a link's destination.
#[derive(Debug, Clone, Copy, PartialEq, Eq, Structural)]
pub enum LinkForm {
    /// `[text](destination)`.
    Inline,
    /// `[text][label]` with `[label]: destination` elsewhere.
    Reference,
    /// `<destination>`.
    Autolink,
}

/// A link as a document wrote it: the destination is repository content and inert.
#[derive(Debug, Clone, PartialEq, Eq)]
pub struct RawLink {
    /// The destination exactly as written.
    pub destination: String,
    /// Which syntax carried it.
    pub form: LinkForm,
    /// Where the link construct sits in the document.
    pub span: Span,
}

/// A `#L<n>` or `#L<n>-L<m>` line anchor.
#[derive(Debug, Clone, Copy, PartialEq, Eq, Structural)]
pub struct LineAnchor {
    /// First line named, 1-based. This is the line resolution uses.
    pub start: usize,
    /// Last line named, 1-based. Equal to `start` for a single-line anchor.
    pub end: usize,
}

/// One symbol's extent in a target file, reduced to what anchor resolution reads.
///
/// Carries bytes as well as lines because "innermost" is defined on the byte span.
#[derive(Debug, Clone, PartialEq, Eq)]
pub struct SymbolExtent {
    /// Entity id of the symbol.
    pub entity_id: String,
    /// Inclusive start byte.
    pub start_byte: usize,
    /// Exclusive end byte.
    pub end_byte: usize,
    /// 1-based first line.
    pub start_line: usize,
    /// 1-based last line.
    pub end_line: usize,
}

/// The extent covers `line`.
pub open spec fn covers(e: SymbolExtent, line: usize) -> bool {
    e.start_line <= line && line <= e.end_line
}

/// The extent's byte length, or zero when its end precedes its start.
pub open spec fn byte_len(e: SymbolExtent) -> int {
    if e.end_byte >= e.start_byte {
        e.end_byte - e.start_byte
    } else {
        0
    }
}

/// Extent `i` covers `line` and is strictly shorter than every other extent covering it.
pub open spec fn is_innermost(extents: Seq<SymbolExtent>, line: usize, i: int) -> bool {
    &&& 0 <= i < extents.len()
    &&& covers(extents[i], line)
    &&& forall|j: int|
        0 <= j < extents.len() && j != i && covers(#[trigger] extents[j], line) ==> byte_len(extents[j])
            > byte_len(extents[i])
}

/// The position of the innermost extent covering `line`, if exactly one is innermost.
pub open spec fn innermost(extents: Seq<SymbolExtent>, line: usize) -> Option<int> {
    if exists|i: int| is_innermost(extents, line, i) {
        Some(choose|i: int| is_innermost(extents, line, i))
    } else {
        None
    }
}

/// At most one extent is innermost for a line, so the innermost one is the one that is.
pub proof fn lemma_innermost_is(extents: Seq<SymbolExtent>, line: usize, i: int)
    requires
        is_innermost(extents, line, i),
    ensures
        innermost(extents, line) == Some(i),
{
    let c = choose|c: int| is_innermost(extents, line, c);
    if c != i {
        assert(byte_len(extents[c]) > byte_len(extents[i]));
        assert(byte_len(extents[i]) > byte_len(extents[c]));
    }
}

impl SymbolExtent {
    fn covers(&self, line: usize) -> (b: bool)
        ensures
            b == covers(*self, line),
    {
        self.start_line <= line && line <= self.end_line
    }

    fn byte_len(&self) -> (n: usize)
        ensures
            n == byte_len(*self),
    {
        self.end_byte.saturating_sub(self.start_byte)
    }
}

/// The whole-repository view resolution reads.
#[derive(Debug, Clone, Copy)]
pub struct Corpus<'a> {
    /// Every indexed repository-relative path, code and documents alike.
    pub indexed: &'a [String],
    /// Symbol extents by repository-relative path.
    pub symbols: &'a [(String, Vec<SymbolExtent>)],
    /// Content hash by repository-relative path, as this run observed it.
    pub content_hashes: &'a [(String, String)],
}

/// `path` is among `indexed`.
pub open spec fn indexed_contains(indexed: Seq<String>, path: Seq<char>) -> bool {
    exists|i: int| 0 <= i < indexed.len() && #[trigger] indexed[i]@ == path
}

/// The first entry of `table` keyed by `path`.
pub open spec fn first_keyed<T>(table: Seq<(String, T)>, path: Seq<char>) -> Option<int> {
    if exists|i: int| 0 <= i < table.len() && #[trigger] table[i].0@ == path {
        Some(
            choose|i: int|
                0 <= i < table.len() && #[trigger] table[i].0@ == path && forall|j: int|
                    0 <= j < i ==> table[j].0@ != path,
        )
    } else {
        None
    }
}

/// What a `#L<n>` anchor resolved to.
#[derive(Debug, Clone, PartialEq, Eq)]
pub enum AnchorOutcome {
    /// Exactly one innermost symbol covers the line.
    Symbol {
        /// The symbol's entity id.
        entity_id: String,
        /// The anchor as written.
        anchor: LineAnchor,
        /// The target file's content hash at resolution time.
        target_content_hash: String,
    },
    /// No symbol covers the line, or two with identical spans do.
    NoSymbol {
        /// The anchor as written.
        anchor: LineAnchor,
    },
}

/// What one destination resolved to.
#[derive(Debug, Clone, PartialEq, Eq)]
pub enum LinkOutcome {
    /// An absolute or protocol-relative reference to something outside the repository.
    External {
        /// The scheme as written, or `//` for a protocol-relative destination.
        scheme: String,
    },
    /// A destination that is only a `#fragment`.
    FragmentOnly,
    /// The path guard refused it. The file was never read.
    Refused,
    /// A repository-shaped path naming no indexed file.
    NotIndexed {
        /// The normalized repository-relative path that named nothing.
        path: String,
    },
    /// An indexed file, and what the fragment did.
    File {
        /// Repository-relative path of the indexed file.
        path: String,
        /// Present only when the fragment was a line anchor.
        anchor: Option<AnchorOutcome>,
    },
}

/// What an anchor resolved to, as text.
pub enum AnchorView {
    /// The one innermost symbol, the anchor, and the target's content hash.
    Symbol(Seq<char>, LineAnchor, Seq<char>),
    /// No symbol.
    NoSymbol(LineAnchor),
}

/// What a destination resolved to, as text.
pub enum LinkView {
    /// External, with its scheme.
    External(Seq<char>),
    /// Only a fragment.
    FragmentOnly,
    /// Refused by the guard.
    Refused,
    /// A path naming no indexed file.
    NotIndexed(Seq<char>),
    /// An indexed file, and what the anchor resolved to.
    File(Seq<char>, Option<AnchorView>),
}

impl AnchorOutcome {
    /// The outcome as text.
    pub open spec fn view_of(self) -> AnchorView {
        match self {
            AnchorOutcome::Symbol { entity_id, anchor, target_content_hash } => AnchorView::Symbol(
                entity_id@,
                anchor,
                target_content_hash@,
            ),
            AnchorOutcome::NoSymbol { anchor } => AnchorView::NoSymbol(anchor),
        }
    }
}

impl LinkOutcome {
    /// The outcome as text.
    pub open spec fn view_of(self) -> LinkView {
        match self {
            LinkOutcome::External { scheme } => LinkView::External(scheme@),
            LinkOutcome::FragmentOnly => LinkView::FragmentOnly,
            LinkOutcome::Refused => LinkView::Refused,
            LinkOutcome::NotIndexed { path } => LinkView::NotIndexed(path@),
            LinkOutcome::File { path, anchor } => LinkView::File(
                path@,
                match anchor {
                    Some(a) => Some(a.view_of()),
                    None => None,
                },
            ),
        }
    }
}

/// The counter keys an outcome contributes: its own, plus the anchor's when it has one.
pub open spec fn keys_of(view: LinkView) -> Seq<Seq<char>> {
    match view {
        LinkView::External(_) => seq![outcome::EXTERNAL@],
        LinkView::FragmentOnly => seq![outcome::FRAGMENT_ONLY@],
        LinkView::Refused => seq![reason::REFUSED@],
        LinkView::NotIndexed(_) => seq![reason::TARGET_NOT_INDEXED@],
        LinkView::File(_, anchor) => match anchor {
            None => seq![outcome::RESOLVED_FILE@],
            Some(AnchorView::Symbol(_, _, _)) => seq![outcome::RESOLVED_FILE@, outcome::RESOLVED_SYMBOL@],
            Some(AnchorView::NoSymbol(_)) => seq![outcome::RESOLVED_FILE@, reason::ANCHOR_NO_SYMBOL@],
        },
    }
}

/// The reason recorded on an `Unresolved` entity, when an outcome produces one.
pub open spec fn reason_of(view: LinkView) -> Option<Seq<char>> {
    match view {
        LinkView::Refused => Some(reason::REFUSED@),
        LinkView::NotIndexed(_) => Some(reason::TARGET_NOT_INDEXED@),
        LinkView::File(_, Some(AnchorView::NoSymbol(_))) => Some(reason::ANCHOR_NO_SYMBOL@),
        _ => None,
    }
}

/// The views of a list of static strings.
pub open spec fn static_views(items: Seq<&'static str>) -> Seq<Seq<char>> {
    items.map_values(|s: &'static str| s@)
}

impl LinkOutcome {
    /// The counter key this outcome contributes, plus the anchor's own key when it has one.
    pub fn counter_keys(&self) -> (keys: Vec<&'static str>)
        ensures
            static_views(keys@) == keys_of(self.view_of()),
    {
        let keys = match self {
            LinkOutcome::External { .. } => vec![outcome::EXTERNAL],
            LinkOutcome::FragmentOnly => vec![outcome::FRAGMENT_ONLY],
            LinkOutcome::Refused => vec![reason::REFUSED],
            LinkOutcome::NotIndexed { .. } => vec![reason::TARGET_NOT_INDEXED],
            LinkOutcome::File { anchor, .. } => match anchor {
                None => vec![outcome::RESOLVED_FILE],
                Some(AnchorOutcome::Symbol { .. }) => vec![outcome::RESOLVED_FILE, outcome::RESOLVED_SYMBOL],
                Some(AnchorOutcome::NoSymbol { .. }) => vec![outcome::RESOLVED_FILE, reason::ANCHOR_NO_SYMBOL],
            },
        };
        assert(static_views(keys@) =~= keys_of(self.view_of()));
        keys
    }

    /// The reason recorded on an `Unresolved` entity, when this outcome produces one.
    pub fn unresolved_reason(&self) -> (why: Option<&'static str>)
        ensures
            match why {
                Some(r) => reason_of(self.view_of()) == Some(r@),
                None => reason_of(self.view_of()) is None,
            },
    {
        match self {
            LinkOutcome::Refused => Some(reason::REFUSED),
            LinkOutcome::NotIndexed { .. } => Some(reason::TARGET_NOT_INDEXED),
            LinkOutcome::File { anchor: Some(AnchorOutcome::NoSymbol { .. }), .. } => Some(
                reason::ANCHOR_NO_SYMBOL,
            ),
            _ => None,
        }
    }
}

/// One resolved link site, ready for the graph builder.
#[derive(Debug, Clone, PartialEq, Eq)]
pub struct LinkSite {
    /// The link construct, so the citation points at the link and not at the line.
    pub span: Span,
    /// Which syntax carried the destination.
    pub form: LinkForm,
    /// The destination exactly as the document wrote it. Repository content; inert.
    pub raw_destination: String,
    /// What resolution concluded.
    pub outcome: LinkOutcome,
}

/// A letter of the ASCII alphabet.
pub open spec fn is_ascii_alpha(c: char) -> bool {
    ('a' <= c && c <= 'z') || ('A' <= c && c <= 'Z')
}

/// A character a URI scheme may hold after its first letter.
pub open spec fn is_scheme_char(c: char) -> bool {
    is_ascii_alpha(c) || ('0' <= c && c <= '9') || c == '+' || c == '.' || c == '-'
}

/// The URI scheme a destination opens with, per CommonMark's autolink rule: a letter, then
/// letters, digits, `+`, `.` or `-`, then a colon.
pub open spec fn scheme_of(text: Seq<char>) -> Option<Seq<char>> {
    match first_index(text, ':') {
        None => None,
        Some(colon) => {
            let scheme = text.take(colon);
            if scheme.len() > 0 && is_ascii_alpha(scheme[0]) && forall|i: int|
                1 <= i < scheme.len() ==> is_scheme_char(#[trigger] scheme[i]) {
                Some(scheme)
            } else {
                None
            }
        },
    }
}

/// The scheme of an external destination: `//` for a protocol-relative one, else its URI scheme.
pub open spec fn external_scheme_of(destination: Seq<char>) -> Option<Seq<char>> {
    if destination.len() >= 2 && destination[0] == '/' && destination[1] == '/' {
        Some("//"@)
    } else {
        scheme_of(destination)
    }
}

fn scheme_chars(text: &[char]) -> (scheme: Option<Vec<char>>)
    ensures
        match scheme {
            Some(s) => scheme_of(text@) == Some(s@),
            None => scheme_of(text@) is None,
        },
{
    let colon = match find_char(text, ':') {
        Some(c) => c,
        None => return None,
    };
    if colon == 0 {
        return None;
    }
    let first = text[0];
    if !(('a' <= first && first <= 'z') || ('A' <= first && first <= 'Z')) {
        return None;
    }
    let mut i: usize = 1;
    while i < colon
        invariant
            1 <= i <= colon,
            colon < text@.len(),
            first_index(text@, ':') == Some(colon as int),
            forall|k: int| 1 <= k < i ==> is_scheme_char(#[trigger] text@[k]),
        decreases colon - i,
    {
        let c = text[i];
        if !(('a' <= c && c <= 'z') || ('A' <= c && c <= 'Z') || ('0' <= c && c <= '9') || c == '+'
            || c == '.' || c == '-') {
            proof {
                assert(text@.take(colon as int)[i as int] == c);
            }
            return None;
        }
        i = i + 1;
    }
    let mut out: Vec<char> = Vec::new();
    extend_chars(&mut out, &text[0..colon]);
    proof {
        assert(out@ =~= text@.take(colon as int));
        let s = text@.take(colon as int);
        assert forall|k: int| 1 <= k < s.len() implies is_scheme_char(#[trigger] s[k]) by {
            assert(s[k] == text@[k]);
        }
    }
    Some(out)
}

/// The scheme of an external destination, or `None` when it is repository-shaped.
///
/// `//host/path` is protocol-relative and is external too: it names a host, not a path in this
/// repository.
pub fn external_scheme(destination: &str) -> (scheme: Option<String>)
    ensures
        match scheme {
            Some(s) => external_scheme_of(destination@) == Some(s@),
            None => external_scheme_of(destination@) is None,
        },
{
    let text = chars_of(destination);
    if text.len() >= 2 && text[0] == '/' && text[1] == '/' {
        let mut out: Vec<char> = Vec::new();
        out.push('/');
        out.push('/');
        proof {
            reveal_strlit("//");
            assert(out@ =~= "//"@);
        }
        return Some(string_of(out.as_slice()));
    }
    match scheme_chars(text.as_slice()) {
        Some(s) => Some(string_of(s.as_slice())),
        None => None,
    }
}

/// A destination's path part and its fragment, split at the first `#`.
pub open spec fn fragment_split(destination: Seq<char>) -> (Seq<char>, Option<Seq<char>>) {
    match first_index(destination, '#') {
        Some(k) => (destination.take(k), Some(destination.skip(k + 1))),
        None => (destination, None),
    }
}

fn split_fragment_chars(text: &[char]) -> (parts: (Vec<char>, Option<Vec<char>>))
    ensures
        parts.0@ == fragment_split(text@).0,
        match parts.1 {
            Some(f) => fragment_split(text@).1 == Some(f@),
            None => fragment_split(text@).1 is None,
        },
{
    match find_char(text, '#') {
        Some(k) => {
            let n = text.len();
            let mut head: Vec<char> = Vec::new();
            extend_chars(&mut head, &text[0..k]);
            let mut tail: Vec<char> = Vec::new();
            extend_chars(&mut tail, &text[k + 1..n]);
            assert(head@ =~= text@.take(k as int));
            assert(tail@ =~= text@.skip(k + 1));
            (head, Some(tail))
        },
        None => {
            let mut whole: Vec<char> = Vec::new();
            extend_chars(&mut whole, text);
            assert(whole@ =~= text@);
            (whole, None)
        },
    }
}

/// Split a destination into its path part and its fragment, at the first `#`.
pub fn split_fragment(destination: &str) -> (parts: (String, Option<String>))
    ensures
        parts.0@ == fragment_split(destination@).0,
        match parts.1 {
            Some(f) => fragment_split(destination@).1 == Some(f@),
            None => fragment_split(destination@).1 is None,
        },
{
    let text = chars_of(destination);
    let (head, tail) = split_fragment_chars(text.as_slice());
    let fragment = match tail {
        Some(f) => Some(string_of(f.as_slice())),
        None => None,
    };
    (string_of(head.as_slice()), fragment)
}

/// The line a `L<n>` names: `L`, then one or more ASCII digits denoting a 1-based line that
/// fits a `usize`.
pub open spec fn anchor_line(text: Seq<char>) -> Option<nat> {
    if text.len() >= 2 && text[0] == 'L' && all_digits(text.drop_first()) && digits_value(
        text.drop_first(),
    ) <= usize::MAX && digits_value(text.drop_first()) >= 1 {
        Some(digits_value(text.drop_first()))
    } else {
        None
    }
}

/// The anchor a fragment names: `L<n>`, or `L<n>-L<m>` with `m` not before `n`.
pub open spec fn line_anchor_of(fragment: Seq<char>) -> Option<LineAnchor> {
    match first_index(fragment, '-') {
        None => match anchor_line(fragment) {
            Some(n) => Some(LineAnchor { start: n as usize, end: n as usize }),
            None => None,
        },
        Some(k) => match (anchor_line(fragment.take(k)), anchor_line(fragment.skip(k + 1))) {
            (Some(a), Some(b)) => if b >= a {
                Some(LineAnchor { start: a as usize, end: b as usize })
            } else {
                None
            },
            _ => None,
        },
    }
}

fn read_anchor_line(text: &[char]) -> (line: Option<usize>)
    ensures
        match line {
            Some(n) => anchor_line(text@) == Some(n as nat),
            None => anchor_line(text@) is None,
        },
{
    if text.len() < 2 || text[0] != 'L' {
        return None;
    }
    let n = text.len();
    let digits = &text[1..n];
    assert(digits@ =~= text@.drop_first());
    let mut i: usize = 0;
    while i < digits.len()
        invariant
            i <= digits@.len(),
            digits@ == text@.drop_first(),
            forall|k: int| 0 <= k < i ==> is_digit(#[trigger] digits@[k]),
        decreases digits@.len() - i,
    {
        let c = digits[i];
        if !('0' <= c && c <= '9') {
            return None;
        }
        i = i + 1;
    }
    proof {
        assert(crate::text::unsigned_body(digits@) == digits@);
    }
    match parse_unsigned_chars(digits, usize::MAX as u64) {
        Some(v) => if v >= 1 {
            Some(v as usize)
        } else {
            None
        },
        None => None,
    }
}

fn line_anchor_chars(fragment: &[char]) -> (anchor: Option<LineAnchor>)
    ensures
        anchor == line_anchor_of(fragment@),
{
    match find_char(fragment, '-') {
        None => match read_anchor_line(fragment) {
            Some(n) => Some(LineAnchor { start: n, end: n }),
            None => None,
        },
        Some(k) => {
            let n = fragment.len();
            let first = &fragment[0..k];
            let second = &fragment[k + 1..n];
            assert(first@ =~= fragment@.take(k as int));
            assert(second@ =~= fragment@.skip(k + 1));
            let start = match read_anchor_line(first) {
                Some(v) => v,
                None => return None,
            };
            let end = match read_anchor_line(second) {
                Some(v) => v,
                None => return None,
            };
            if end < start {
                return None;
            }
            Some(LineAnchor { start, end })
        },
    }
}

/// Parse `L<n>` or `L<n>-L<m>` out of a fragment.
///
/// Anything else, including `L0`, a number too large for a `usize` and every ordinary heading
/// anchor, is not a line anchor.
pub fn parse_line_anchor(fragment: &str) -> (anchor: Option<LineAnchor>)
    ensures
        anchor == line_anchor_of(fragment@),
{
    let text = chars_of(fragment);
    line_anchor_chars(text.as_slice())
}

/// The directory segments a path part starts from: none for a root-relative part, else the
/// segments of the document's own directory.
pub open spec fn base_segments(document: Seq<char>, part: Seq<char>) -> Seq<Seq<char>> {
    if part.len() > 0 && part[0] == '/' {
        Seq::empty()
    } else {
        match last_index(document, '/') {
            Some(i) => {
                let s = pieces(document.take(i), '/');
                if s == seq![Seq::<char>::empty()] {
                    Seq::empty()
                } else {
                    s
                }
            },
            None => Seq::empty(),
        }
    }
}

/// Walk `parts` from `start`: empty and `.` parts stay, `..` climbs one segment (and fails at
/// the root), anything else descends.
pub open spec fn walk_segments(start: Seq<Seq<char>>, parts: Seq<Seq<char>>) -> Option<
    Seq<Seq<char>>,
>
    decreases parts.len(),
{
    if parts.len() == 0 {
        Some(start)
    } else {
        match walk_segments(start, parts.drop_last()) {
            None => None,
            Some(s) => {
                let p = parts.last();
                if p.len() == 0 || p == "."@ {
                    Some(s)
                } else if p == ".."@ {
                    if s.len() == 0 {
                        None
                    } else {
                        Some(s.drop_last())
                    }
                } else {
                    Some(s.push(p))
                }
            },
        }
    }
}

/// The repository-relative path `<document's directory> + <path part>` names, or `None` when it
/// climbs above the root or names the root itself.
pub open spec fn normalized(document: Seq<char>, part: Seq<char>) -> Option<Seq<char>> {
    match walk_segments(base_segments(document, part), pieces(part, '/')) {
        None => None,
        Some(s) => if s.len() == 0 {
            None
        } else {
            Some(join_with(s, '/'))
        },
    }
}

/// Once a walk climbs above the root, walking further cannot bring it back.
proof fn lemma_walk_stays_refused(start: Seq<Seq<char>>, parts: Seq<Seq<char>>, n: int)
    requires
        0 <= n <= parts.len(),
        walk_segments(start, parts.take(n)) is None,
    ensures
        walk_segments(start, parts) is None,
    decreases parts.len() - n,
{
    if n < parts.len() {
        assert(parts.take(n + 1).drop_last() =~= parts.take(n));
        lemma_walk_stays_refused(start, parts, n + 1);
    } else {
        assert(parts.take(n) =~= parts);
    }
}

fn normalize_chars(document: &[char], part: &[char]) -> (path: Option<Vec<char>>)
    ensures
        match path {
            Some(p) => normalized(document@, part@) == Some(p@),
            None => normalized(document@, part@) is None,
        },
{
    let mut segments: Vec<Vec<char>> = if part.len() > 0 && part[0] == '/' {
        Vec::new()
    } else {
        match find_last_char(document, '/') {
            Some(i) => {
                let head = &document[0..i];
                assert(head@ =~= document@.take(i as int));
                let s = split_chars(head, '/');
                if s.len() == 1 && s[0].len() == 0 {
                    assert(s@.len() == 1);
                    assert(key_views(s@).len() == 1);
                    assert(key_views(s@)[0] == s@[0]@);
                    assert(s@[0]@ =~= Seq::<char>::empty());
                    assert(key_views(s@) =~= seq![Seq::<char>::empty()]);
                    Vec::new()
                } else {
                    proof {
                        if key_views(s@) == seq![Seq::<char>::empty()] {
                            assert(key_views(s@)[0] == s@[0]@);
                        }
                    }
                    s
                }
            },
            None => Vec::new(),
        }
    };
    assert(key_views(segments@) =~= base_segments(document@, part@));
    let parts = split_chars(part, '/');
    let dot = chars_of(".");
    let up = chars_of("..");
    let mut k: usize = 0;
    while k < parts.len()
        invariant
            k <= parts.len(),
            key_views(parts@) == pieces(part@, '/'),
            dot@ == "."@,
            up@ == ".."@,
            walk_segments(base_segments(document@, part@), key_views(parts@).take(k as int)) == Some(
                key_views(segments@),
            ),
        decreases parts.len() - k,
    {
        let ghost before = key_views(segments@);
        assert(key_views(parts@).take(k + 1).drop_last() =~= key_views(parts@).take(k as int));
        assert(key_views(parts@)[k as int] == parts@[k as int]@);
        let p = &parts[k];
        if p.len() == 0 || chars_eq(p.as_slice(), dot.as_slice()) {
        } else if chars_eq(p.as_slice(), up.as_slice()) {
            if segments.len() == 0 {
                proof {
                    lemma_walk_stays_refused(base_segments(document@, part@), key_views(parts@), k + 1);
                    assert(key_views(parts@).take(parts.len() as int) =~= key_views(parts@));
                }
                return None;
            }
            let _ = segments.pop();
            assert(key_views(segments@) =~= before.drop_last());
        } else {
            let mut seg: Vec<char> = Vec::new();
            extend_chars(&mut seg, p.as_slice());
            assert(seg@ =~= p@);
            proof {
                lemma_key_views_push(segments@, seg);
            }
            segments.push(seg);
        }
        k = k + 1;
    }
    assert(key_views(parts@).take(parts.len() as int) =~= key_views(parts@));
    if segments.len() == 0 {
        return None;
    }
    Some(join_chars(&segments, '/'))
}

/// Normalize `<document's directory> + <path part>` into a repository-relative path.
///
/// A leading `/` is root-relative; everything else is relative to the document's own directory.
/// Returns `None` when the path climbs above the repository root, which is a refusal.
pub fn normalize(document_rel_path: &str, path_part: &str) -> (path: Option<String>)
    ensures
        match path {
            Some(p) => normalized(document_rel_path@, path_part@) == Some(p@),
            None => normalized(document_rel_path@, path_part@) is None,
        },
{
    let document = chars_of(document_rel_path);
    let part = chars_of(path_part);
    match normalize_chars(document.as_slice(), part.as_slice()) {
        Some(p) => Some(string_of(p.as_slice())),
        None => None,
    }
}

/// The indexed path a destination names, ignoring any fragment.
pub open spec fn path_named(
    document: Seq<char>,
    destination: Seq<char>,
    indexed: Seq<String>,
) -> Option<Seq<char>> {
    if external_scheme_of(destination) is Some {
        None
    } else {
        let part = fragment_split(destination).0;
        if part.len() == 0 {
            None
        } else {
            match normalized(document, part) {
                Some(n) => if indexed_contains(indexed, n) {
                    Some(n)
                } else {
                    None
                },
                None => None,
            }
        }
    }
}

/// Whether `path` is among `indexed`.
fn is_indexed(indexed: &[String], path: &[char]) -> (found: bool)
    ensures
        found == indexed_contains(indexed@, path@),
{
    let mut i: usize = 0;
    while i < indexed.len()
        invariant
            i <= indexed.len(),
            forall|k: int| 0 <= k < i ==> #[trigger] indexed@[k]@ != path@,
        decreases indexed.len() - i,
    {
        let candidate = chars_of(indexed[i].as_str());
        if chars_eq(candidate.as_slice(), path) {
            return true;
        }
        i = i + 1;
    }
    false
}

/// The indexed file a destination names, ignoring any fragment, or `None`.
///
/// Pure: no filesystem access. It agrees with [`resolve_destination`] on which file is named.
pub fn resolve_path(document_rel_path: &str, destination: &str, indexed: &[String]) -> (path:
    Option<String>)
    ensures
        match path {
            Some(p) => path_named(document_rel_path@, destination@, indexed@) == Some(p@),
            None => path_named(document_rel_path@, destination@, indexed@) is None,
        },
{
    if external_scheme(destination).is_some() {
        return None;
    }
    let text = chars_of(destination);
    let (part, _) = split_fragment_chars(text.as_slice());
    if part.len() == 0 {
        return None;
    }
    let document = chars_of(document_rel_path);
    let n = match normalize_chars(document.as_slice(), part.as_slice()) {
        Some(n) => n,
        None => return None,
    };
    if is_indexed(indexed, n.as_slice()) {
        Some(string_of(n.as_slice()))
    } else {
        None
    }
}

/// The line anchor a destination carries, if it is repository-shaped.
pub open spec fn destination_anchor(destination: Seq<char>) -> Option<LineAnchor> {
    if external_scheme_of(destination) is Some {
        None
    } else {
        match fragment_split(destination).1 {
            Some(f) => line_anchor_of(f),
            None => None,
        }
    }
}

/// The line anchor a destination carries, if any. Used by change detection.
pub fn anchor_of(destination: &str) -> (anchor: Option<LineAnchor>)
    ensures
        anchor == destination_anchor(destination@),
{
    if external_scheme(destination).is_some() {
        return None;
    }
    let text = chars_of(destination);
    let (_, fragment) = split_fragment_chars(text.as_slice());
    match fragment {
        Some(f) => line_anchor_chars(f.as_slice()),
        None => None,
    }
}

/// The innermost symbol covering `line`, or `None` when nothing covers it or the answer is tied.
///
/// Two candidates sharing the smallest byte span are ambiguous, and ambiguity is refused rather
/// than broken by declaration order.
pub fn innermost_covering(extents: &[SymbolExtent], line: usize) -> (found: Option<&SymbolExtent>)
    ensures
        match found {
            Some(e) => exists|i: int| is_innermost(extents@, line, i) && *e == extents@[i],
            None => forall|i: int| !is_innermost(extents@, line, i),
        },
{
    let mut best: Option<usize> = None;
    let mut tied = false;
    let mut k: usize = 0;
    while k < extents.len()
        invariant
            k <= extents.len(),
            best is None <==> forall|j: int| 0 <= j < k ==> !covers(#[trigger] extents@[j], line),
            best is None ==> !tied,
            best matches Some(b) ==> {
                &&& b < k
                &&& covers(extents@[b as int], line)
                &&& forall|j: int|
                    0 <= j < k && covers(#[trigger] extents@[j], line) ==> byte_len(extents@[j]) >= byte_len(
                        extents@[b as int],
                    )
                &&& tied == exists|j: int|
                    0 <= j < k && j != b && covers(#[trigger] extents@[j], line) && byte_len(extents@[j])
                        == byte_len(extents@[b as int])
            },
        decreases extents.len() - k,
    {
        let e = &extents[k];
        if e.covers(line) {
            match best {
                None => {
                    best = Some(k);
                },
                Some(b) => {
                    let current = &extents[b];
                    if e.byte_len() < current.byte_len() {
                        best = Some(k);
                        tied = false;
                    } else if e.byte_len() == current.byte_len() {
                        tied = true;
                    }
                },
            }
        }
        k = k + 1;
    }
    if tied {
        proof {
            let b = best->0 as int;
            let j = choose|j: int|
                0 <= j < extents.len() && j != b && covers(#[trigger] extents@[j], line) && byte_len(extents@[j])
                    == byte_len(extents@[b]);
            assert forall|i: int| !is_innermost(extents@, line, i) by {
                if is_innermost(extents@, line, i) {
                    if i != b {
                        assert(byte_len(extents@[b]) > byte_len(extents@[i]));
                    } else {
                        assert(byte_len(extents@[j]) > byte_len(extents@[i]));
                    }
                }
            }
        }
        return None;
    }
    match best {
        None => {
            assert forall|i: int| !is_innermost(extents@, line, i) by {
                if 0 <= i < extents@.len() {
                    assert(!covers(extents@[i], line));
                }
            }
            None
        },
        Some(b) => {
            assert(is_innermost(extents@, line, b as int)) by {
                assert forall|j: int|
                    0 <= j < extents@.len() && j != b && covers(#[trigger] extents@[j], line) implies byte_len(
                    extents@[j],
                ) > byte_len(extents@[b as int]) by {
                    assert(byte_len(extents@[j]) >= byte_len(extents@[b as int]));
                }
            }
            Some(&extents[b])
        },
    }
}

/// Every candidate that is innermost is the same one.
proof fn lemma_innermost_unique(extents: Seq<SymbolExtent>, line: usize, i: int, j: int)
    requires
        is_innermost(extents, line, i),
        is_innermost(extents, line, j),
    ensures
        i == j,
{
    if i != j {
        assert(byte_len(extents[j]) > byte_len(extents[i]));
        assert(byte_len(extents[i]) > byte_len(extents[j]));
    }
}

/// The extents recorded for `path`, or none.
pub open spec fn symbols_for(symbols: Seq<(String, Vec<SymbolExtent>)>, path: Seq<char>) -> Seq<
    SymbolExtent,
> {
    match first_keyed(symbols, path) {
        Some(i) => symbols[i].1@,
        None => Seq::empty(),
    }
}

/// The content hash recorded for `path`, or the empty text.
pub open spec fn hash_for(hashes: Seq<(String, String)>, path: Seq<char>) -> Seq<char> {
    match first_keyed(hashes, path) {
        Some(i) => hashes[i].1@,
        None => Seq::empty(),
    }
}

/// What an anchor into the indexed file `path` resolves to.
pub open spec fn anchor_resolution(corpus: Corpus, path: Seq<char>, anchor: LineAnchor) -> AnchorView {
    let extents = symbols_for(corpus.symbols@, path);
    match innermost(extents, anchor.start) {
        Some(i) => AnchorView::Symbol(
            extents[i].entity_id@,
            anchor,
            hash_for(corpus.content_hashes@, path),
        ),
        None => AnchorView::NoSymbol(anchor),
    }
}

/// What a destination written in the document at `document` resolves to.
pub open spec fn resolution_of(document: Seq<char>, destination: Seq<char>, corpus: Corpus) -> LinkView {
    match external_scheme_of(destination) {
        Some(scheme) => LinkView::External(scheme),
        None => {
            let part = fragment_split(destination).0;
            let fragment = fragment_split(destination).1;
            if part.len() == 0 {
                LinkView::FragmentOnly
            } else {
                match normalized(document, part) {
                    None => LinkView::Refused,
                    Some(n) => if !is_control_free(n) {
                        LinkView::Refused
                    } else if !indexed_contains(corpus.indexed@, n) {
                        LinkView::NotIndexed(n)
                    } else {
                        LinkView::File(
                            n,
                            match fragment {
                                None => None,
                                Some(f) => match line_anchor_of(f) {
                                    None => None,
                                    Some(a) => Some(anchor_resolution(corpus, n, a)),
                                },
                            },
                        )
                    },
                }
            }
        },
    }
}

/// The position of the first entry of `table` keyed by `path`.
fn find_keyed<T>(table: &[(String, T)], path: &[char]) -> (found: Option<usize>)
    ensures
        match found {
            Some(i) => first_keyed(table@, path@) == Some(i as int) && i < table@.len(),
            None => first_keyed(table@, path@) is None,
        },
{
    let mut i: usize = 0;
    while i < table.len()
        invariant
            i <= table.len(),
            forall|k: int| 0 <= k < i ==> #[trigger] table@[k].0@ != path@,
        decreases table.len() - i,
    {
        let key = chars_of(table[i].0.as_str());
        if chars_eq(key.as_slice(), path) {
            proof {
                let c = choose|c: int|
                    0 <= c < table@.len() && #[trigger] table@[c].0@ == path@ && forall|j: int|
                        0 <= j < c ==> table@[j].0@ != path@;
                assert(0 <= i < table@.len() && table@[i as int].0@ == path@ && forall|j: int|
                    0 <= j < i ==> table@[j].0@ != path@);
                if c < i {
                    assert(table@[c].0@ != path@);
                } else if c > i {
                    assert(table@[i as int].0@ != path@);
                }
            }
            return Some(i);
        }
        i = i + 1;
    }
    None
}

fn resolve_anchor(corpus: &Corpus, path: &[char], anchor: LineAnchor) -> (resolved: AnchorOutcome)
    ensures
        resolved.view_of() == anchor_resolution(*corpus, path@, anchor),
{
    let extents: &[SymbolExtent] = match find_keyed(corpus.symbols, path) {
        Some(i) => corpus.symbols[i].1.as_slice(),
        None => &[],
    };
    assert(extents@ == symbols_for(corpus.symbols@, path@));
    match innermost_covering(extents, anchor.start) {
        Some(e) => {
            proof {
                let i = choose|i: int| is_innermost(extents@, anchor.start, i) && *e == extents@[i];
                let c = choose|c: int| is_innermost(extents@, anchor.start, c);
                lemma_innermost_unique(extents@, anchor.start, i, c);
            }
            let hash = match find_keyed(corpus.content_hashes, path) {
                Some(i) => corpus.content_hashes[i].1.clone(),
                None => String::new(),
            };
            AnchorOutcome::Symbol { entity_id: e.entity_id.clone(), anchor, target_content_hash: hash }
        },
        None => AnchorOutcome::NoSymbol { anchor },
    }
}

/// Resolve one destination, with the path guard's text rule in the loop.
///
/// Nothing here opens the destination; resolution is decided by membership of the indexed set.
pub fn resolve_destination(document_rel_path: &str, destination: &str, corpus: &Corpus) -> (resolved:
    LinkOutcome)
    ensures
        resolved.view_of() == resolution_of(document_rel_path@, destination@, *corpus),
{
    match external_scheme(destination) {
        Some(scheme) => {
            return LinkOutcome::External { scheme };
        },
        None => {},
    }
    let text = chars_of(destination);
    let (part, fragment) = split_fragment_chars(text.as_slice());
    if part.len() == 0 {
        return LinkOutcome::FragmentOnly;
    }
    let document = chars_of(document_rel_path);
    let n = match normalize_chars(document.as_slice(), part.as_slice()) {
        Some(n) => n,
        None => {
            return LinkOutcome::Refused;
        },
    };
    let path = string_of(n.as_slice());
    if crate::discover::guard_refusal(path.as_str()).is_some() {
        return LinkOutcome::Refused;
    }
    if !is_indexed(corpus.indexed, n.as_slice()) {
        return LinkOutcome::NotIndexed { path };
    }
    let anchor = match fragment {
        None => None,
        Some(f) => match line_anchor_chars(f.as_slice()) {
            None => None,
            Some(a) => Some(resolve_anchor(corpus, n.as_slice(), a)),
        },
    };
    LinkOutcome::File { path, anchor }
}

/// The outcome keys, in the order [`DocumentLinks::outcomes`] counts them.
pub const OUTCOME_KEYS: [&'static str; 7] = [
    "document_link_resolved_file",
    "document_link_resolved_symbol",
    "document_link_external",
    "document_link_fragment_only",
    "document_link_target_not_indexed",
    "document_link_refused",
    "document_anchor_no_symbol",
];

/// The outcome keys, as text.
pub open spec fn outcome_keys() -> Seq<Seq<char>> {
    seq![
        outcome::RESOLVED_FILE@,
        outcome::RESOLVED_SYMBOL@,
        outcome::EXTERNAL@,
        outcome::FRAGMENT_ONLY@,
        reason::TARGET_NOT_INDEXED@,
        reason::REFUSED@,
        reason::ANCHOR_NO_SYMBOL@,
    ]
}

/// The outcome keys are all different.
pub proof fn lemma_outcome_keys_distinct()
    ensures
        forall|i: int, j: int| 0 <= i < j < 7 ==> outcome_keys()[i] != outcome_keys()[j],
{
    reveal_strlit("document_link_resolved_file");
    reveal_strlit("document_link_resolved_symbol");
    reveal_strlit("document_link_external");
    reveal_strlit("document_link_fragment_only");
    reveal_strlit("document_link_target_not_indexed");
    reveal_strlit("document_link_refused");
    reveal_strlit("document_anchor_no_symbol");
    let k = outcome_keys();
    assert forall|i: int, j: int| 0 <= i < j < 7 implies k[i] != k[j] by {
        if k[i] == k[j] {
            assert(k[i].len() == k[j].len());
            assert(k[i][9] == k[j][9]);
            assert(k[i][15] == k[j][15]);
            assert(k[i][14] == k[j][14]);
        }
    }
}

/// How many of `views` contribute `key`.
pub open spec fn key_tally(views: Seq<LinkView>, key: Seq<char>) -> nat
    decreases views.len(),
{
    if views.len() == 0 {
        0
    } else {
        key_tally(views.drop_last(), key) + if keys_of(views.last()).contains(key) {
            1nat
        } else {
            0nat
        }
    }
}

/// Everything resolution concluded about one document's links.
#[derive(Debug, Clone, PartialEq, Eq)]
pub struct DocumentLinks {
    /// Resolved sites, in source order.
    pub sites: Vec<LinkSite>,
    /// Outcome tallies, one per key of [`OUTCOME_KEYS`], in that order.
    pub outcomes: Vec<usize>,
}

impl Default for DocumentLinks {
    fn default() -> (links: Self)
        ensures
            links.sites@.len() == 0,
            links.outcomes@ == Seq::new(7, |i: int| 0usize),
    {
        let outcomes = vec![0usize; 7];
        assert(outcomes@ =~= Seq::new(7, |i: int| 0usize));
        DocumentLinks { sites: Vec::new(), outcomes }
    }
}

/// The outcome views of a list of sites.
pub open spec fn site_views(sites: Seq<LinkSite>) -> Seq<LinkView> {
    sites.map_values(|s: LinkSite| s.outcome.view_of())
}

impl DocumentLinks {
    /// How many links contributed `key`.
    pub fn count(&self, key: &str) -> (n: usize)
        requires
            self.outcomes@.len() == 7,
        ensures
            n == if exists|i: int| 0 <= i < 7 && outcome_keys()[i] == key@ {
                self.outcomes@[choose|i: int| 0 <= i < 7 && outcome_keys()[i] == key@] as int
            } else {
                0
            },
    {
        proof {
            lemma_outcome_keys_distinct();
        }
        let mut i: usize = 0;
        while i < 7
            invariant
                i <= 7,
                self.outcomes@.len() == 7,
                forall|k: int| 0 <= k < i ==> outcome_keys()[k] != key@,
            decreases 7 - i,
        {
            let name = OUTCOME_KEYS[i];
            assert(name@ == outcome_keys()[i as int]);
            if crate::text::str_eq(name, key) {
                proof {
                    lemma_outcome_keys_distinct();
                    let c = choose|c: int| 0 <= c < 7 && outcome_keys()[c] == key@;
                    assert(0 <= i < 7 && outcome_keys()[i as int] == key@);
                    if c < i {
                        assert(outcome_keys()[c] != key@);
                    } else if c > i {
                        assert(outcome_keys()[i as int] != outcome_keys()[c]);
                    }
                }
                return self.outcomes[i];
            }
            i = i + 1;
        }
        0
    }
}

/// Raise the tallies for the keys one outcome contributes.
fn tally_outcome(outcomes: &mut Vec<usize>, resolved: &LinkOutcome, Ghost(views): Ghost<Seq<LinkView>>)
    requires
        old(outcomes)@.len() == 7,
        forall|k: int| 0 <= k < 7 ==> #[trigger] old(outcomes)@[k] == key_tally(views, outcome_keys()[k]),
        views.len() < usize::MAX,
        forall|k: int| 0 <= k < 7 ==> #[trigger] key_tally(views, outcome_keys()[k]) <= views.len(),
    ensures
        final(outcomes)@.len() == 7,
        forall|k: int| 0 <= k < 7 ==> #[trigger] final(outcomes)@[k] == key_tally(
            views.push(resolved.view_of()),
            outcome_keys()[k],
        ),
{
    proof {
        lemma_outcome_keys_distinct();
        reveal_strlit("document_link_resolved_file");
        let all = views.push(resolved.view_of());
        assert(all.drop_last() =~= views);
    }
    let at: [usize; 2] = match resolved {
        LinkOutcome::External { .. } => [2, 7],
        LinkOutcome::FragmentOnly => [3, 7],
        LinkOutcome::Refused => [5, 7],
        LinkOutcome::NotIndexed { .. } => [4, 7],
        LinkOutcome::File { anchor, .. } => match anchor {
            None => [0, 7],
            Some(AnchorOutcome::Symbol { .. }) => [0, 1],
            Some(AnchorOutcome::NoSymbol { .. }) => [0, 6],
        },
    };
    let first = at[0];
    let n = outcomes[first];
    outcomes.set(first, n + 1);
    let second = at[1];
    if second < 7 {
        let m = outcomes[second];
        outcomes.set(second, m + 1);
    }
    proof {
        let v = resolved.view_of();
        let keys = keys_of(v);
        assert forall|k: int| 0 <= k < 7 implies #[trigger] outcomes@[k] == key_tally(
            views.push(v),
            outcome_keys()[k],
        ) by {
            let all = views.push(v);
            assert(all.drop_last() =~= views);
            assert(all.last() == v);
            if k == first as int || k == second as int {
                assert(keys.contains(outcome_keys()[k])) by {
                    if k == first as int {
                        assert(keys[0] == outcome_keys()[k]);
                    } else {
                        assert(keys[1] == outcome_keys()[k]);
                    }
                }
            } else {
                assert(!keys.contains(outcome_keys()[k])) by {
                    if keys.contains(outcome_keys()[k]) {
                        let x = choose|x: int| 0 <= x < keys.len() && keys[x] == outcome_keys()[k];
                        if x == 0 {
                            assert(keys[0] == outcome_keys()[first as int]);
                        } else {
                            assert(keys[1] == outcome_keys()[second as int]);
                        }
                    }
                }
            }
        }
    }
}

/// Resolve every link in one document.
pub fn resolve_document_links(document_rel_path: &str, links: &[RawLink], corpus: &Corpus) -> (resolved:
    DocumentLinks)
    ensures
        resolved.sites@.len() == links@.len(),
        forall|i: int|
            0 <= i < links@.len() ==> {
                let site = #[trigger] resolved.sites@[i];
                &&& site.span == links@[i].span
                &&& site.form == links@[i].form
                &&& site.raw_destination@ == links@[i].destination@
                &&& site.outcome.view_of() == resolution_of(
                    document_rel_path@,
                    links@[i].destination@,
                    *corpus,
                )
            },
        resolved.outcomes@.len() == 7,
        forall|k: int|
            0 <= k < 7 ==> #[trigger] resolved.outcomes@[k] == key_tally(
                site_views(resolved.sites@),
                outcome_keys()[k],
            ),
{
    let mut resolved = DocumentLinks::default();
    let mut i: usize = 0;
    while i < links.len()
        invariant
            i <= links.len(),
            resolved.sites@.len() == i,
            forall|j: int|
                0 <= j < i ==> {
                    let site = #[trigger] resolved.sites@[j];
                    &&& site.span == links@[j].span
                    &&& site.form == links@[j].form
                    &&& site.raw_destination@ == links@[j].destination@
                    &&& site.outcome.view_of() == resolution_of(
                        document_rel_path@,
                        links@[j].destination@,
                        *corpus,
                    )
                },
            resolved.outcomes@.len() == 7,
            forall|k: int|
                0 <= k < 7 ==> #[trigger] resolved.outcomes@[k] == key_tally(
                    site_views(resolved.sites@),
                    outcome_keys()[k],
                ),
            forall|k: int|
                0 <= k < 7 ==> #[trigger] key_tally(site_views(resolved.sites@), outcome_keys()[k]) <= i,
        decreases links.len() - i,
    {
        let link = &links[i];
        let outcome = resolve_destination(document_rel_path, link.destination.as_str(), corpus);
        let ghost views = site_views(resolved.sites@);
        assert(forall|k: int| 0 <= k < 7 ==> #[trigger] key_tally(views, outcome_keys()[k]) <= i);
        tally_outcome(&mut resolved.outcomes, &outcome, Ghost(views));
        let site = LinkSite {
            span: link.span,
            form: link.form,
            raw_destination: link.destination.clone(),
            outcome,
        };
        let ghost before = resolved.sites@;
        resolved.sites.push(site);
        proof {
            assert(site_views(resolved.sites@) =~= views.push(resolved.sites@[i as int].outcome.view_of()));
            assert forall|k: int| 0 <= k < 7 implies #[trigger] key_tally(site_views(resolved.sites@), outcome_keys()[k])
                <= i + 1 by {
                let all = site_views(resolved.sites@);
                assert(all.drop_last() =~= views);
                assert(views == site_views(before));
                assert(key_tally(views, outcome_keys()[k]) <= i);
            }
            assert forall|j: int| 0 <= j < i + 1 implies {
                let site = #[trigger] resolved.sites@[j];
                &&& site.span == links@[j].span
                &&& site.form == links@[j].form
                &&& site.raw_destination@ == links@[j].destination@
                &&& site.outcome.view_of() == resolution_of(
                    document_rel_path@,
                    links@[j].destination@,
                    *corpus,
                )
            } by {
                if j < i {
                    assert(resolved.sites@[j] == before[j]);
                }
            }
        }
        i = i + 1;
    }
    resolved
}

/// The views of a list of strings.
pub open spec fn text_views(items: Seq<String>) -> Seq<Seq<char>> {
    items.map_values(|s: String| s@)
}

/// The destinations of a list of links.
pub open spec fn destinations(links: Seq<RawLink>) -> Seq<Seq<char>> {
    links.map_values(|l: RawLink| l.destination@)
}

/// Every destination a document wrote, deduplicated and sorted.
///
/// The whole destination is kept, fragment included, because the fragment is what says whether
/// the document depends on the target file's contents as well as its existence.
pub fn cached_destinations(links: &[RawLink]) -> (unique: Vec<String>)
    ensures
        crate::order::strictly_ascending(text_views(unique@)),
        forall|i: int| 0 <= i < unique@.len() ==> destinations(links@).contains(#[trigger] text_views(unique@)[i]),
        forall|j: int| 0 <= j < links@.len() ==> text_views(unique@).contains(#[trigger] destinations(links@)[j]),
{
    let mut keys: Vec<Vec<char>> = Vec::new();
    let mut i: usize = 0;
    while i < links.len()
        invariant
            i <= links.len(),
            key_views(keys@) == destinations(links@).take(i as int),
        decreases links.len() - i,
    {
        let row = chars_of(links[i].destination.as_str());
        proof {
            lemma_key_views_push(keys@, row);
            assert(destinations(links@).take(i + 1) =~= destinations(links@).take(i as int).push(row@));
        }
        keys.push(row);
        i = i + 1;
    }
    assert(destinations(links@).take(links.len() as int) =~= destinations(links@));
    let sorted = crate::order::sorted_unique(&keys);
    let mut unique: Vec<String> = Vec::new();
    let mut k: usize = 0;
    while k < sorted.len()
        invariant
            k <= sorted.len(),
            text_views(unique@) == key_views(sorted@).take(k as int),
        decreases sorted.len() - k,
    {
        let text = string_of(sorted[k].as_slice());
        assert(key_views(sorted@)[k as int] == sorted@[k as int]@);
        let ghost before = unique@;
        unique.push(text);
        assert(text_views(unique@) =~= text_views(before).push(text@));
        assert(key_views(sorted@).take(k + 1) =~= key_views(sorted@).take(k as int).push(text@));
        k = k + 1;
    }
    assert(key_views(sorted@).take(sorted.len() as int) =~= key_views(sorted@));
    unique
}

/// [`resolve_path`] and [`resolve_destination`] agree on which file a destination names,
/// whenever no indexed path holds a control character (discovery refuses every such path before
/// it is indexed).
pub proof fn lemma_resolve_path_agrees(document: Seq<char>, destination: Seq<char>, corpus: Corpus)
    requires
        forall|i: int| 0 <= i < corpus.indexed@.len() ==> is_control_free(#[trigger] corpus.indexed@[i]@),
    ensures
        match path_named(document, destination, corpus.indexed@) {
            Some(n) => resolution_of(document, destination, corpus) matches LinkView::File(p, _) && p == n,
            None => !(resolution_of(document, destination, corpus) is File),
        },
{
    if let Some(n) = path_named(document, destination, corpus.indexed@) {
        let i = choose|i: int| 0 <= i < corpus.indexed@.len() && #[trigger] corpus.indexed@[i]@ == n;
        assert(is_control_free(corpus.indexed@[i]@));
    }
}

/// Extent `i` of `extents` covers `line`, and every other extent covering it is strictly longer
/// in bytes.
pub open spec fn smallest_covering(extents: Seq<SymbolExtent>, line: usize, i: int) -> bool {
    &&& 0 <= i < extents.len()
    &&& extents[i].start_line <= line && line <= extents[i].end_line
    &&& forall|j: int| 0 <= j < extents.len() && j != i && #[trigger] extents[j].start_line <= line
        && line <= extents[j].end_line ==> byte_len(extents[j]) > byte_len(extents[i])
}

/// A line anchor names the symbol at its start line. When a destination resolves to a file and
/// its fragment `#L<n>` or `#L<n>-L<m>` to a symbol, that anchor is the one the fragment writes,
/// and the symbol is an extent recorded for the file that covers the anchor's first line and is
/// strictly smaller, in bytes, than every other extent covering that line; the anchor resolves
/// to no symbol exactly when no recorded extent is that. The anchor's last line plays no part.
pub proof fn lemma_anchor_names_the_symbol_at_its_start(document: Seq<char>, destination: Seq<char>, corpus: Corpus)
    ensures
        match resolution_of(document, destination, corpus) {
            LinkView::File(n, Some(AnchorView::Symbol(id, a, _))) => {
                &&& fragment_split(destination).1 matches Some(f) && line_anchor_of(f) == Some(a)
                &&& exists|i: int| #[trigger] smallest_covering(symbols_for(corpus.symbols@, n), a.start, i)
                    && symbols_for(corpus.symbols@, n)[i].entity_id@ == id
            },
            LinkView::File(n, Some(AnchorView::NoSymbol(a))) => {
                &&& fragment_split(destination).1 matches Some(f) && line_anchor_of(f) == Some(a)
                &&& !exists|i: int| #[trigger] smallest_covering(symbols_for(corpus.symbols@, n), a.start, i)
            },
            _ => true,
        },
{
    if external_scheme_of(destination) is None {
        let part = fragment_split(destination).0;
        let fragment = fragment_split(destination).1;
        if part.len() != 0 {
            if let Some(n) = normalized(document, part) {
                if is_control_free(n) && indexed_contains(corpus.indexed@, n) {
                    if let Some(f) = fragment {
                        if let Some(a) = line_anchor_of(f) {
                            let extents = symbols_for(corpus.symbols@, n);
                            assert(fragment_split(destination).1 == Some(f));
                            assert(resolution_of(document, destination, corpus) == LinkView::File(
                                n,
                                Some(anchor_resolution(corpus, n, a)),
                            ));
                            assert forall|i: int| #[trigger] smallest_covering(extents, a.start, i)
                                <==> is_innermost(extents, a.start, i) by {}
                            match innermost(extents, a.start) {
                                Some(i) => {
                                    assert(is_innermost(extents, a.start, i));
                                    assert(smallest_covering(extents, a.start, i));
                                    assert(smallest_covering(symbols_for(corpus.symbols@, n), a.start, i)
                                        && symbols_for(corpus.symbols@, n)[i].entity_id@ == extents[i].entity_id@);
                                    assert(exists|k: int| #[trigger] smallest_covering(symbols_for(corpus.symbols@, n), a.start, k)
                                        && symbols_for(corpus.symbols@, n)[k].entity_id@ == extents[i].entity_id@);
                                    assert(anchor_resolution(corpus, n, a) == AnchorView::Symbol(
                                        extents[i].entity_id@,
                                        a,
                                        hash_for(corpus.content_hashes@, n),
                                    ));
                                    assert(fragment_split(destination).1 matches Some(g) && line_anchor_of(g) == Some(a));
                                    let r = resolution_of(document, destination, corpus);
                                    assert(r == LinkView::File(n, Some(AnchorView::Symbol(extents[i].entity_id@, a, hash_for(corpus.content_hashes@, n)))));
                                    assert(r matches LinkView::File(n2, Some(AnchorView::Symbol(id2, a2, _))) && n2 == n && a2 == a && id2 == extents[i].entity_id@);
                                },
                                None => {
                                    assert(!exists|i: int| is_innermost(extents, a.start, i));
                                    assert(!exists|i: int| #[trigger] smallest_covering(extents, a.start, i));
                                    assert(anchor_resolution(corpus, n, a) == AnchorView::NoSymbol(a));
                                    assert(fragment_split(destination).1 matches Some(g) && line_anchor_of(g) == Some(a));
                                    let r = resolution_of(document, destination, corpus);
                                    assert(r == LinkView::File(n, Some(AnchorView::NoSymbol(a))));
                                },
                            }
                            assert(fragment_split(destination).1 matches Some(g) && line_anchor_of(g) == Some(a));
                            return;
                        }
                    }
                }
            }
        }
    }
}

} // verus!
