//! The `md-structural` extractor: documents, sections, and ADR recognition.
//!
//! A document is a witness, never an authority. Everything this extractor produces carries
//! [`EvidenceSourceType::DocumentStated`] and nothing else, which makes the separation of
//! document-stated evidence a total function of the source file rather than a per-claim
//! judgement.
//!
//! Nothing here interprets document text as an instruction. Prose reaches this module as the
//! headings a Markdown scan found in it, becomes an entity name and a byte span, and stops.
use vstd::prelude::*;
use vstd::string::StringSliceAdditionalSpecFns;
use vstd::utf8::{decode_utf8, encode_utf8, encode_utf8_decode_utf8, is_char_boundary, valid_utf8};
use crate::discover::{parent_directory, parent_of};
use crate::model::Span;
use crate::text::{
    chars_of, find_char, is_white_space, trim_end, trim_start, find_last_char, first_index, has_prefix, last_index, pieces,
    split_chars, str_eq, string_of, strip_trailing, strip_trailing_chars, trim_chars, trimmed,
    up_to, up_to_char,
};
use crate::vocab::{Directness, EvidenceSourceType};

verus! {

/// Extractor identity, recorded on every observation and on its run.
pub const EXTRACTOR_ID: &'static str = "md-structural";

/// Extractor version. A change here re-extracts every document, by design.
pub const EXTRACTOR_VERSION: &'static str = "1.0.0";

/// The only evidence source type this extractor may emit.
pub const DECLARED_SOURCE_TYPES: [EvidenceSourceType; 1] = [EvidenceSourceType::DocumentStated];

/// How directly a document states the structure this extractor reads out of it: the file
/// literally contains the heading whose span the observation cites.
pub const DIRECTNESS: Directness = Directness::Direct;

/// Directory names that make every Markdown file directly inside them an ADR.
pub const ADR_DIRECTORIES: [&'static str; 3] = ["decisions", "adr", "adrs"];

/// The value recorded for a status outside the vocabulary.
///
/// Recorded as a value rather than dropped: "the document says something we do not model" is
/// information, and coercing it to `Proposed` would invent a decision nobody made.
pub const STATUS_UNPARSED: &'static str = "unparsed";

/// The longest status text, in bytes, that is still read as a status word rather than refused.
pub const MAX_RAW_STATUS_BYTES: usize = 64;

/// An ASCII letter folded to lower case; every other character as it is.
pub open spec fn ascii_lower(c: char) -> char {
    if 'A' <= c && c <= 'Z' {
        ((c as u32) + 32) as char
    } else {
        c
    }
}

/// Two texts equal once ASCII letters are folded, as `eq_ignore_ascii_case` compares them.
pub open spec fn same_ignoring_case(a: Seq<char>, b: Seq<char>) -> bool {
    a.len() == b.len() && forall|i: int| 0 <= i < a.len() ==> ascii_lower(#[trigger] a[i]) == ascii_lower(b[i])
}

/// An ASCII letter folded to lower case.
fn lower_char(c: char) -> (l: char)
    ensures
        l == ascii_lower(c),
{
    if 'A' <= c && c <= 'Z' {
        let code: u32 = (c as u32) + 32;
        assert(code <= 0x7a);
        char_of_ascii(code)
    } else {
        c
    }
}

/// The character with an ASCII code.
fn char_of_ascii(code: u32) -> (c: char)
    requires
        code < 0x80,
    ensures
        c == code as char,
{
    let b: u8 = code as u8;
    b as char
}

/// Whether two texts are equal once ASCII letters are folded.
pub fn eq_ignore_case(a: &[char], b: &[char]) -> (same: bool)
    ensures
        same == same_ignoring_case(a@, b@),
{
    if a.len() != b.len() {
        return false;
    }
    let mut i: usize = 0;
    while i < a.len()
        invariant
            a.len() == b.len(),
            i <= a.len(),
            forall|j: int| 0 <= j < i ==> ascii_lower(#[trigger] a@[j]) == ascii_lower(b@[j]),
        decreases a.len() - i,
    {
        if lower_char(a[i]) != lower_char(b[i]) {
            return false;
        }
        i = i + 1;
    }
    true
}

/// The closed ADR status vocabulary. An unrecognised value is never coerced into one of these.
#[derive(Debug, Clone, Copy, PartialEq, Eq, Structural)]
pub enum AdrStatus {
    /// Proposed, not yet decided.
    Proposed,
    /// In force.
    Accepted,
    /// Considered and refused.
    Rejected,
    /// No longer recommended.
    Deprecated,
    /// Replaced by a later decision.
    Superseded,
}

impl AdrStatus {
    /// Every status, in declaration order.
    pub const ALL: [AdrStatus; 5] = [
        AdrStatus::Proposed,
        AdrStatus::Accepted,
        AdrStatus::Rejected,
        AdrStatus::Deprecated,
        AdrStatus::Superseded,
    ];

    /// The canonical spelling of a status.
    pub open spec fn name_of(self) -> Seq<char> {
        match self {
            AdrStatus::Proposed => "Proposed"@,
            AdrStatus::Accepted => "Accepted"@,
            AdrStatus::Rejected => "Rejected"@,
            AdrStatus::Deprecated => "Deprecated"@,
            AdrStatus::Superseded => "Superseded"@,
        }
    }

    /// Canonical spelling recorded in entity metadata.
    pub fn as_str(self) -> (text: &'static str)
        ensures
            text@ == self.name_of(),
    {
        match self {
            AdrStatus::Proposed => "Proposed",
            AdrStatus::Accepted => "Accepted",
            AdrStatus::Rejected => "Rejected",
            AdrStatus::Deprecated => "Deprecated",
            AdrStatus::Superseded => "Superseded",
        }
    }

    /// The first status, in declaration order from `from` on, whose spelling the text matches
    /// once ASCII case is folded.
    pub open spec fn matching_from(text: Seq<char>, from: int) -> Option<AdrStatus>
        decreases 5 - from,
    {
        if from < 0 || from >= 5 {
            None
        } else if same_ignoring_case(AdrStatus::ALL[from].name_of(), text) {
            Some(AdrStatus::ALL[from])
        } else {
            AdrStatus::matching_from(text, from + 1)
        }
    }

    /// The status a text names: its spelling once trimmed, case-insensitively.
    pub open spec fn parsed(text: Seq<char>) -> Option<AdrStatus> {
        AdrStatus::matching_from(trimmed(text), 0)
    }

    /// Parse a status word. Case-insensitive; anything else is not a status.
    pub fn parse(text: &str) -> (status: Option<AdrStatus>)
        ensures
            status == AdrStatus::parsed(text@),
    {
        let raw = chars_of(text);
        let needle = trim_chars(raw.as_slice());
        let mut k: usize = 0;
        while k < 5
            invariant
                k <= 5,
                needle@ == trimmed(text@),
                AdrStatus::matching_from(needle@, 0) == AdrStatus::matching_from(needle@, k as int),
            decreases 5 - k,
        {
            let status = AdrStatus::ALL[k];
            let name = chars_of(status.as_str());
            if eq_ignore_case(name.as_slice(), needle.as_slice()) {
                return Some(status);
            }
            k = k + 1;
        }
        None
    }

    /// The first match from `from` on is a status that matches, and every status from `from` on
    /// that matches is the one found.
    proof fn lemma_matching_from(text: Seq<char>, from: int, s: AdrStatus)
        requires
            0 <= from <= 5,
        ensures
            AdrStatus::matching_from(text, from) matches Some(x) ==> same_ignoring_case(x.name_of(), text),
            same_ignoring_case(s.name_of(), text) && (exists|k: int| from <= k < 5 && AdrStatus::ALL[k] == s)
                ==> AdrStatus::matching_from(text, from) is Some,
        decreases 5 - from,
    {
        if from < 5 {
            AdrStatus::lemma_matching_from(text, from + 1, s);
        }
    }

    /// Folding case relates two spellings exactly when it relates each to a third.
    proof fn lemma_same_ignoring_case_chain(a: Seq<char>, b: Seq<char>, t: Seq<char>)
        requires
            same_ignoring_case(a, t),
            same_ignoring_case(b, t),
        ensures
            same_ignoring_case(a, b),
    {
        assert forall|i: int| 0 <= i < a.len() implies ascii_lower(#[trigger] a[i]) == ascii_lower(b[i]) by {
            assert(ascii_lower(a[i]) == ascii_lower(t[i]));
            assert(ascii_lower(b[i]) == ascii_lower(t[i]));
        }
    }

    /// A status word parses to the status it spells, whatever its ASCII case and whatever white
    /// space surrounds it, and nothing else parses at all: a text names status `s` exactly when,
    /// trimmed, it is `s`'s spelling with case folded.
    pub proof fn lemma_parse_names_exactly(text: Seq<char>, s: AdrStatus)
        ensures
            AdrStatus::parsed(text) == Some(s) <==> same_ignoring_case(s.name_of(), trimmed(text)),
    {
        let t = trimmed(text);
        AdrStatus::lemma_matching_from(t, 0, s);
        assert(exists|k: int| 0 <= k < 5 && AdrStatus::ALL[k] == s) by {
            match s {
                AdrStatus::Proposed => assert(AdrStatus::ALL[0] == s),
                AdrStatus::Accepted => assert(AdrStatus::ALL[1] == s),
                AdrStatus::Rejected => assert(AdrStatus::ALL[2] == s),
                AdrStatus::Deprecated => assert(AdrStatus::ALL[3] == s),
                AdrStatus::Superseded => assert(AdrStatus::ALL[4] == s),
            }
        }
        if let Some(x) = AdrStatus::matching_from(t, 0) {
            if same_ignoring_case(s.name_of(), t) {
                AdrStatus::lemma_same_ignoring_case_chain(x.name_of(), s.name_of(), t);
                AdrStatus::lemma_spellings_distinct(x, s);
            }
        }
    }

    /// Every status's own spelling parses back to it.
    pub proof fn lemma_spelling_round_trips(s: AdrStatus)
        ensures
            AdrStatus::parsed(s.name_of()) == Some(s),
    {
        reveal_strlit("Proposed");
        reveal_strlit("Accepted");
        reveal_strlit("Rejected");
        reveal_strlit("Deprecated");
        reveal_strlit("Superseded");
        let n = s.name_of();
        assert(!is_white_space(n[0]));
        assert(trim_start(n) == n);
        assert(!is_white_space(n.last()));
        assert(trim_end(n) == n);
        AdrStatus::lemma_parse_names_exactly(n, s);
    }

    /// Two different statuses never share a spelling, even with case folded.
    pub proof fn lemma_spellings_distinct(a: AdrStatus, b: AdrStatus)
        ensures
            same_ignoring_case(a.name_of(), b.name_of()) ==> a == b,
    {
        reveal_strlit("Proposed");
        reveal_strlit("Accepted");
        reveal_strlit("Rejected");
        reveal_strlit("Deprecated");
        reveal_strlit("Superseded");
        if same_ignoring_case(a.name_of(), b.name_of()) && a != b {
            assert(ascii_lower(a.name_of()[0]) == ascii_lower(b.name_of()[0]));
            assert(ascii_lower(a.name_of()[2]) == ascii_lower(b.name_of()[2]));
        }
    }
}

/// What a document says about being an ADR.
#[derive(Debug, Clone, PartialEq, Eq)]
pub struct AdrFacts {
    /// Whether the document is an ADR at all.
    pub is_adr: bool,
    /// `ADR-<digits>` read from the file name, when the file name carries one.
    pub id: Option<String>,
    /// The parsed status, when it is in the closed vocabulary.
    pub status: Option<AdrStatus>,
    /// The raw status text, kept only when it could not be parsed and is short enough to cite.
    pub status_raw: Option<String>,
    /// 1-based line the status was read from.
    pub status_line: Option<usize>,
    /// Which of the two recognised forms carried the status.
    pub status_form: Option<&'static str>,
    /// True when a status was found but was too long to be a status word.
    pub status_refused_as_too_long: bool,
}

impl Default for AdrFacts {
    fn default() -> (facts: AdrFacts)
        ensures
            !facts.is_adr,
            facts.id is None,
            facts.status is None,
            facts.status_raw is None,
            facts.status_line is None,
            facts.status_form is None,
            !facts.status_refused_as_too_long,
    {
        AdrFacts {
            is_adr: false,
            id: None,
            status: None,
            status_raw: None,
            status_line: None,
            status_form: None,
            status_refused_as_too_long: false,
        }
    }
}

impl AdrFacts {
    /// The value recorded in the document entity's metadata: nothing for a document that is not
    /// an ADR, `unparsed` for an ADR whose status text is outside the vocabulary or too long, the
    /// canonical spelling otherwise, and nothing for an ADR with no status at all.
    pub open spec fn status_text(self) -> Option<Seq<char>> {
        if !self.is_adr {
            None
        } else {
            match self.status {
                Some(status) => Some(status.name_of()),
                None => if self.status_raw is Some || self.status_refused_as_too_long {
                    Some(STATUS_UNPARSED@)
                } else {
                    None
                },
            }
        }
    }

    /// The value recorded in the document entity's metadata.
    ///
    /// Absent is not the same as unreadable: a recognised ADR with no status line records
    /// nothing, while one whose status could not be read records `unparsed`.
    pub fn status_value(&self) -> (value: Option<&str>)
        ensures
            match value {
                Some(v) => self.status_text() == Some(v@),
                None => self.status_text() is None,
            },
    {
        if !self.is_adr {
            return None;
        }
        match self.status {
            Some(status) => Some(status.as_str()),
            None => {
                if self.status_raw.is_some() || self.status_refused_as_too_long {
                    Some(STATUS_UNPARSED)
                } else {
                    None
                }
            },
        }
    }
}

} // verus!

verus! {

// ---- recognising an ADR ------------------------------------------------------------------------

/// The last `/`-separated segment of a path.
pub open spec fn last_segment_of(path: Seq<char>) -> Seq<char> {
    match last_index(path, '/') {
        Some(i) => path.skip(i + 1),
        None => path,
    }
}

/// A file name without its extension: everything before its last `.`, unless that `.` opens the
/// name.
pub open spec fn stem_of(name: Seq<char>) -> Seq<char> {
    match last_index(name, '.') {
        Some(i) => if i > 0 {
            name.take(i)
        } else {
            name
        },
        None => name,
    }
}

/// How many leading characters of `t` are ASCII digits.
pub open spec fn digit_run(t: Seq<char>) -> nat
    decreases t.len(),
{
    if t.len() > 0 && '0' <= t[0] && t[0] <= '9' {
        1 + digit_run(t.drop_first())
    } else {
        0
    }
}

/// `ADR-<digits>` read from the start of a file name's stem, case-insensitively, in canonical
/// upper case with the digits exactly as written.
pub open spec fn adr_id_of(name: Seq<char>) -> Option<Seq<char>> {
    let stem = stem_of(name);
    if stem.len() >= 4 && same_ignoring_case(stem.take(4), "adr-"@) {
        let rest = stem.skip(4);
        let n = digit_run(rest);
        if n == 0 {
            None
        } else {
            Some("ADR-"@ + rest.take(n as int))
        }
    } else {
        None
    }
}

/// Whether a path sits directly in a `decisions`, `adr` or `adrs` directory, in any case.
pub open spec fn in_adr_directory(rel_path: Seq<char>) -> bool {
    match parent_of(rel_path) {
        Some(parent) => exists|k: int| 0 <= k < 3 && same_ignoring_case(
            last_segment_of(parent),
            (#[trigger] ADR_DIRECTORIES[k])@,
        ),
        None => false,
    }
}

/// The last `/`-separated segment of a path.
pub fn last_segment(rel_path: &str) -> (segment: String)
    ensures
        segment@ == last_segment_of(rel_path@),
{
    let chars = chars_of(rel_path);
    match find_last_char(chars.as_slice(), '/') {
        Some(i) => {
            assert(crate::text::is_last_at(chars@, '/', i as int));
            assert(i < chars.len());
            let after: usize = i + 1;
            let tail = &chars.as_slice()[after..chars.len()];
            assert(tail@ =~= rel_path@.skip(i + 1));
            string_of(tail)
        },
        None => string_of(chars.as_slice()),
    }
}

/// A file name without its extension.
pub fn file_stem(name: &str) -> (stem: String)
    ensures
        stem@ == stem_of(name@),
{
    let chars = chars_of(name);
    match find_last_char(chars.as_slice(), '.') {
        Some(i) => {
            if i > 0 {
                let head = &chars.as_slice()[0..i];
                assert(head@ =~= name@.take(i as int));
                string_of(head)
            } else {
                string_of(chars.as_slice())
            }
        },
        None => string_of(chars.as_slice()),
    }
}

/// `ADR-<digits>` read from the start of a file name, case-insensitively.
///
/// Returned in canonical upper case with the digits exactly as written, so `adr-0006-x.md` and
/// `ADR-0006-x.md` produce the same id and `ADR-6` and `ADR-0006` do not.
pub fn adr_id_from_name(name: &str) -> (id: Option<String>)
    ensures
        match id {
            Some(t) => adr_id_of(name@) == Some(t@),
            None => adr_id_of(name@) is None,
        },
{
    let stem_text = file_stem(name);
    let stem = chars_of(stem_text.as_str());
    if stem.len() < 4 {
        return None;
    }
    let prefix = chars_of("adr-");
    let head = &stem.as_slice()[0..4];
    assert(head@ =~= stem@.take(4));
    if !eq_ignore_case(head, prefix.as_slice()) {
        return None;
    }
    let rest = &stem.as_slice()[4..stem.len()];
    assert(rest@ =~= stem@.skip(4));
    let mut n: usize = 0;
    assert(rest@.skip(0) =~= rest@);
    while n < rest.len() && '0' <= rest[n] && rest[n] <= '9'
        invariant
            n <= rest.len(),
            digit_run(rest@) == n + digit_run(rest@.skip(n as int)),
        decreases rest.len() - n,
    {
        assert(rest@.skip(n as int).drop_first() =~= rest@.skip(n + 1));
        n = n + 1;
    }
    assert(digit_run(rest@.skip(n as int)) == 0);
    if n == 0 {
        return None;
    }
    let mut out = chars_of("ADR-");
    let mut k: usize = 0;
    let ghost start = out@;
    while k < n
        invariant
            k <= n <= rest.len(),
            out@ == start + rest@.take(k as int),
        decreases n - k,
    {
        out.push(rest[k]);
        assert(rest@.take(k + 1) =~= rest@.take(k as int).push(rest@[k as int]));
        k = k + 1;
    }
    Some(string_of(out.as_slice()))
}

/// Whether a path sits directly in a `decisions`, `adr` or `adrs` directory.
pub fn is_in_adr_directory(rel_path: &str) -> (inside: bool)
    ensures
        inside == in_adr_directory(rel_path@),
{
    let parent = match parent_directory(rel_path) {
        Some(p) => p,
        None => return false,
    };
    let directory_text = last_segment(parent.as_str());
    let directory = chars_of(directory_text.as_str());
    let mut k: usize = 0;
    while k < 3
        invariant
            k <= 3,
            parent_of(rel_path@) == Some(parent@),
            directory@ == last_segment_of(parent@),
            forall|j: int| 0 <= j < k ==> !same_ignoring_case(directory@, (#[trigger] ADR_DIRECTORIES[j])@),
        decreases 3 - k,
    {
        let candidate = chars_of(ADR_DIRECTORIES[k]);
        if eq_ignore_case(directory.as_slice(), candidate.as_slice()) {
            assert(candidate@ == ADR_DIRECTORIES[k as int]@);
            assert(same_ignoring_case(last_segment_of(parent@), ADR_DIRECTORIES[k as int]@));
            return true;
        }
        k = k + 1;
    }
    false
}

} // verus!

verus! {

// ---- reading a status --------------------------------------------------------------------------

/// The status value a `**Status:** <word>` line carries: what follows the marker, up to the first
/// `·`, trimmed and without trailing `*`s. Nerve's own ADRs write
/// `**Status:** Accepted · **Date:** 2026-07-31`, so the value ends at the first `·` as well as
/// at the end of the line.
pub open spec fn header_status(line: Seq<char>) -> Option<Seq<char>> {
    let t = crate::text::trim_start(line);
    if !has_prefix(t, "**Status:**"@) {
        None
    } else {
        let value = trimmed(strip_trailing(trimmed(up_to(crate::text::after(t, "**Status:**"@), '·')), '*'));
        if value.len() == 0 {
            None
        } else {
            Some(value)
        }
    }
}

/// The status value carried by a `**Status:** <word>` line.
pub fn status_from_header_line(text: &str) -> (value: Option<String>)
    ensures
        match value {
            Some(v) => header_status(text@) == Some(v@),
            None => header_status(text@) is None,
        },
{
    let raw = chars_of(text);
    let t = crate::text::trim_start_chars(raw.as_slice());
    if !crate::text::starts_with(t.as_slice(), "**Status:**") {
        return None;
    }
    let rest = crate::text::after_prefix(t.as_slice(), "**Status:**");
    let head = up_to_char(rest, '·');
    let first = trim_chars(head.as_slice());
    let unstarred = strip_trailing_chars(first.as_slice(), '*');
    let value = trim_chars(unstarred.as_slice());
    if value.len() == 0 {
        None
    } else {
        Some(string_of(value.as_slice()))
    }
}

/// What an ADR's facts become once a status value has been read at a line, in a form.
pub open spec fn with_status(facts: AdrFacts, raw: Seq<char>, line: nat, form: Seq<char>, final_facts: AdrFacts) -> bool {
    &&& final_facts.is_adr == facts.is_adr
    &&& final_facts.id == facts.id
    &&& final_facts.status_line == Some(line as usize)
    &&& final_facts.status_form matches Some(f) && f@ == form
    &&& if encode_utf8(raw).len() > MAX_RAW_STATUS_BYTES {
        &&& final_facts.status_refused_as_too_long
        &&& final_facts.status == facts.status
        &&& final_facts.status_raw == facts.status_raw
    } else {
        &&& final_facts.status_refused_as_too_long == facts.status_refused_as_too_long
        &&& match AdrStatus::parsed(raw) {
            Some(status) => final_facts.status == Some(status) && final_facts.status_raw == facts.status_raw,
            None => final_facts.status == facts.status && (final_facts.status_raw matches Some(r) && r@ == raw),
        }
    }
}

} // verus!

verus! {

/// Record a status value, refusing one too long to be a status word.
pub fn record_status(facts: &mut AdrFacts, raw: &str, line: usize, form: &'static str)
    ensures
        with_status(*old(facts), raw@, line as nat, form@, *final(facts)),
{
    facts.status_line = Some(line);
    facts.status_form = Some(form);
    let byte_len = raw.as_bytes().len();
    if byte_len > MAX_RAW_STATUS_BYTES {
        facts.status_refused_as_too_long = true;
        return;
    }
    match AdrStatus::parse(raw) {
        Some(status) => facts.status = Some(status),
        None => facts.status_raw = Some(string_of(chars_of(raw).as_slice())),
    }
}

} // verus!

verus! {

// ---- what a Markdown scan found ----------------------------------------------------------------

/// How a heading was written.
#[derive(Debug, Clone, Copy, PartialEq, Eq, Structural)]
pub enum HeadingStyle {
    /// `#`-prefixed.
    Atx,
    /// Underlined with `=` or `-`.
    Setext,
}

/// One heading a Markdown scan found.
#[derive(Debug, Clone, PartialEq, Eq)]
pub struct ScannedHeading {
    /// Heading level, 1 to 6.
    pub level: usize,
    /// Heading text exactly as written.
    pub text: String,
    /// The heading line.
    pub heading_span: Span,
    /// The whole section the heading opens.
    pub section_span: Span,
    /// How the heading was written.
    pub style: HeadingStyle,
}

/// What a Markdown scan of one document found.
#[derive(Debug, Clone, PartialEq, Eq)]
pub struct DocumentScan {
    /// Headings in source order.
    pub headings: Vec<ScannedHeading>,
    /// How many lines the document has.
    pub line_count: usize,
    /// The front matter, when the document opens with one.
    pub front_matter: Option<Span>,
    /// Constructs the scanner refused, by form tag, with how often.
    pub unsupported: Vec<(String, usize)>,
}

/// The smaller of two numbers.
pub open spec fn min_of(a: nat, b: nat) -> nat {
    if a <= b { a } else { b }
}

impl DocumentScan {
    /// Whether this scan could have been made of `source`: every offset a heading carries lies
    /// on a character boundary of the text (or past its end, where an end is clipped to it), the
    /// line a heading ends on is one of the text's, and the counts fit their integers.
    pub open spec fn fits(self, source: Seq<char>) -> bool {
        let bytes = encode_utf8(source);
        let n = bytes.len();
        &&& n <= isize::MAX
        &&& self.headings.len() <= u32::MAX
        &&& forall|i: int| 0 <= i < self.headings.len() ==> {
            let h = #[trigger] self.headings@[i];
            &&& h.heading_span.start_byte <= n
            &&& is_char_boundary(bytes, h.heading_span.start_byte as int)
            &&& is_char_boundary(bytes, min_of(h.heading_span.end_byte as nat, n) as int)
            &&& is_char_boundary(bytes, min_of(h.section_span.end_byte as nat, n) as int)
            &&& h.heading_span.end_line <= n + 1
        }
    }
}

/// The text between two byte offsets of `source`.
pub open spec fn text_between(source: Seq<char>, a: int, b: int) -> Seq<char> {
    decode_utf8(encode_utf8(source).subrange(a, b))
}

/// The lines of a text, split at each `\n` and without the `\r` that ended any of them.
pub open spec fn lines_of(t: Seq<char>) -> Seq<Seq<char>> {
    pieces(t, '\n').map_values(|p: Seq<char>| crate::contracts::lines::without_cr(p))
}

/// The position of the first heading from `from` on whose level is at least 2.
pub open spec fn first_deep_heading(hs: Seq<ScannedHeading>, from: int) -> Option<int>
    decreases hs.len() - from,
{
    if from < 0 || from >= hs.len() {
        None
    } else if hs[from].level >= 2 {
        Some(from)
    } else {
        first_deep_heading(hs, from + 1)
    }
}

/// The position of the first heading from `from` on whose trimmed text is `Status`, in any case.
pub open spec fn status_heading(hs: Seq<ScannedHeading>, from: int) -> Option<int>
    decreases hs.len() - from,
{
    if from < 0 || from >= hs.len() {
        None
    } else if same_ignoring_case(trimmed(hs[from].text@), "Status"@) {
        Some(from)
    } else {
        status_heading(hs, from + 1)
    }
}

/// The position of the first line from `from` on that carries a header status.
pub open spec fn first_header_status(lines: Seq<Seq<char>>, from: int) -> Option<int>
    decreases lines.len() - from,
{
    if from < 0 || from >= lines.len() {
        None
    } else if header_status(lines[from]) is Some {
        Some(from)
    } else {
        first_header_status(lines, from + 1)
    }
}

/// The position of the first line from `from` on that is not blank.
pub open spec fn first_nonblank(lines: Seq<Seq<char>>, from: int) -> Option<int>
    decreases lines.len() - from,
{
    if from < 0 || from >= lines.len() {
        None
    } else if trimmed(lines[from]).len() > 0 {
        Some(from)
    } else {
        first_nonblank(lines, from + 1)
    }
}

/// The status an ADR states, as the raw value, its 1-based line and the form that carried it:
/// first a `**Status:**` line in the header block (before the first heading of level 2 or more),
/// then the first non-blank line of a `Status` section.
pub open spec fn status_reading(source: Seq<char>, scan: DocumentScan) -> Option<(Seq<char>, nat, Seq<char>)> {
    let hs = scan.headings@;
    let n = encode_utf8(source).len();
    let end = match first_deep_heading(hs, 0) {
        Some(i) => hs[i].heading_span.start_byte as nat,
        None => n,
    };
    let head = lines_of(text_between(source, 0, end as int));
    match first_header_status(head, 0) {
        Some(k) => Some((header_status(head[k]).unwrap(), (k + 1) as nat, "header-line"@)),
        None => match status_heading(hs, 0) {
            None => None,
            Some(i) => {
                let h = hs[i];
                let a = min_of(h.heading_span.end_byte as nat, n);
                let b = min_of(h.section_span.end_byte as nat, n);
                if a >= b {
                    None
                } else {
                    let body = lines_of(text_between(source, a as int, b as int));
                    match first_nonblank(body, 0) {
                        Some(k) => Some((trimmed(body[k]), (h.heading_span.end_line + k) as nat, "status-section"@)),
                        None => None,
                    }
                }
            },
        },
    }
}

/// The text of `source` between two byte offsets that lie on character boundaries.
fn slice_text(source: &str, a: usize, b: usize) -> (out: &str)
    requires
        a <= b <= source.spec_bytes().len(),
        is_char_boundary(source.spec_bytes(), a as int),
        is_char_boundary(source.spec_bytes(), b as int),
    ensures
        out@ == text_between(source@, a as int, b as int),
        out.spec_bytes() == source.spec_bytes().subrange(a as int, b as int),
{
    broadcast use vstd::utf8::group_utf8_lib;
    let (head, _) = source.split_at(b);
    assert(head.spec_bytes() =~= source.spec_bytes().subrange(0, b as int));
    assert(is_char_boundary(head.spec_bytes(), a as int)) by {
        vstd::utf8::encode_utf8_valid_utf8(head@);
        vstd::utf8::encode_utf8_valid_utf8(source@);
        if a == b {
            vstd::utf8::is_char_boundary_start_end_of_seq(head.spec_bytes());
        } else if 0 < a {
            assert(head.spec_bytes()[a as int] == source.spec_bytes()[a as int]);
            vstd::utf8::is_char_boundary_iff_not_is_continuation_byte(source.spec_bytes(), a as int);
            vstd::utf8::is_char_boundary_iff_not_is_continuation_byte(head.spec_bytes(), a as int);
        }
    }
    let (_, mid) = head.split_at(a);
    assert(mid.spec_bytes() =~= source.spec_bytes().subrange(a as int, b as int));
    proof {
        encode_utf8_decode_utf8(mid@);
    }
    mid
}

/// The lines of a text, without the `\r` that ended any of them.
fn text_lines(t: &str) -> (lines: Vec<Vec<char>>)
    ensures
        crate::order::key_views(lines@) == lines_of(t@),
{
    let chars = chars_of(t);
    let parts = split_chars(chars.as_slice(), '\n');
    let ghost ps = pieces(t@, '\n');
    let mut lines: Vec<Vec<char>> = Vec::new();
    let mut i: usize = 0;
    while i < parts.len()
        invariant
            crate::order::key_views(parts@) == ps,
            ps == pieces(t@, '\n'),
            i <= parts.len(),
            crate::order::key_views(lines@) == ps.take(i as int).map_values(
                |p: Seq<char>| crate::contracts::lines::without_cr(p),
            ),
        decreases parts.len() - i,
    {
        let p = &parts[i];
        assert(p@ == ps[i as int]);
        let line = if p.len() > 0 && p[p.len() - 1] == '\r' {
            let head = &p.as_slice()[0..p.len() - 1];
            assert(head@ =~= p@.drop_last());
            vstd::slice::slice_to_vec(head)
        } else {
            vstd::slice::slice_to_vec(p.as_slice())
        };
        proof {
            crate::order::lemma_key_views_push(lines@, line);
        }
        lines.push(line);
        assert(ps.take(i + 1).map_values(|p: Seq<char>| crate::contracts::lines::without_cr(p))
            =~= ps.take(i as int).map_values(|p: Seq<char>| crate::contracts::lines::without_cr(p)).push(
            crate::contracts::lines::without_cr(ps[i as int]),
        ));
        i = i + 1;
    }
    assert(ps.take(parts.len() as int) =~= ps);
    lines
}

} // verus!

verus! {

/// A text takes at least one byte per character.
pub proof fn lemma_encoding_is_no_shorter(s: Seq<char>)
    ensures
        encode_utf8(s).len() >= s.len(),
    decreases s.len(),
{
    if s.len() > 0 {
        lemma_encoding_is_no_shorter(s.drop_first());
        assert(vstd::utf8::encode_scalar(s[0] as u32).len() >= 1);
    }
}

} // verus!

verus! {

/// The facts with only recognition filled in.
pub open spec fn recognised(facts: AdrFacts) -> AdrFacts {
    AdrFacts {
        is_adr: facts.is_adr,
        id: facts.id,
        status: None,
        status_raw: None,
        status_line: None,
        status_form: None,
        status_refused_as_too_long: false,
    }
}

/// The characters of an optional string.
pub open spec fn opt_chars(s: Option<String>) -> Option<Seq<char>> {
    match s {
        Some(t) => Some(t@),
        None => None,
    }
}

/// What ADR recognition reads from a document: whether it is an ADR and under which id, and,
/// for an ADR, the status its text states, if any.
pub open spec fn adr_read(rel_path: Seq<char>, source: Seq<char>, scan: DocumentScan, facts: AdrFacts) -> bool {
    &&& facts.is_adr == (adr_id_of(last_segment_of(rel_path)) is Some || in_adr_directory(rel_path))
    &&& opt_chars(facts.id) == adr_id_of(last_segment_of(rel_path))
    &&& match status_reading(source, scan) {
        Some((raw, line, form)) => if facts.is_adr {
            with_status(recognised(facts), raw, line, form, facts)
        } else {
            facts == recognised(facts)
        },
        None => facts == recognised(facts),
    }
}

/// Whether a heading's trimmed text is `Status`, in any case.
fn is_status_heading(h: &ScannedHeading) -> (b: bool)
    ensures
        b == same_ignoring_case(trimmed(h.text@), "Status"@),
{
    let text = chars_of(h.text.as_str());
    let t = trim_chars(text.as_slice());
    let word = chars_of("Status");
    eq_ignore_case(t.as_slice(), word.as_slice())
}

/// Recognise an ADR and read its status.
///
/// Recognition is deterministic and closed: the file name carries `ADR-<digits>`, or the file
/// sits directly in a `decisions` / `adr` / `adrs` directory. Status comes from the first of the
/// two forms that matches.
pub fn read_adr(rel_path: &str, source: &str, scan: &DocumentScan) -> (facts: AdrFacts)
    requires
        scan.fits(source@),
    ensures
        adr_read(rel_path@, source@, *scan, facts),
{
    let name = last_segment(rel_path);
    let id = adr_id_from_name(name.as_str());
    let is_adr = id.is_some() || is_in_adr_directory(rel_path);
    let mut facts = AdrFacts {
        is_adr,
        id,
        status: None,
        status_raw: None,
        status_line: None,
        status_form: None,
        status_refused_as_too_long: false,
    };
    if !is_adr {
        return facts;
    }
    let ghost base = facts;
    proof {
        vstd::utf8::encode_utf8_valid_utf8(source@);
        vstd::utf8::is_char_boundary_start_end_of_seq(source.spec_bytes());
    }
    let n = source.as_bytes().len();
    let hs = &scan.headings;
    // Form 1: a `**Status:**` line in the header block, before the first deeper heading.
    let mut i: usize = 0;
    assert(hs@.skip(0) =~= hs@);
    while i < hs.len() && hs[i].level < 2
        invariant
            i <= hs.len(),
            first_deep_heading(hs@, 0) == first_deep_heading(hs@, i as int),
        decreases hs.len() - i,
    {
        i = i + 1;
    }
    let end: usize = if i < hs.len() {
        assert(first_deep_heading(hs@, i as int) == Some(i as int));
        assert(hs@[i as int].heading_span.start_byte <= n);
        hs[i].heading_span.start_byte
    } else {
        n
    };
    let head = slice_text(source, 0, end);
    let lines = text_lines(head);
    let mut k: usize = 0;
    while k < lines.len()
        invariant
            k <= lines.len(),
            crate::order::key_views(lines@) == lines_of(head@),
            first_header_status(lines_of(head@), 0) == first_header_status(lines_of(head@), k as int),
            head@ == text_between(source@, 0, end as int),
            n == encode_utf8(source@).len(),
            hs == scan.headings,
            end as nat == match first_deep_heading(hs@, 0) {
                Some(j) => hs@[j].heading_span.start_byte as nat,
                None => n as nat,
            },
            facts == base,
            base == recognised(base),
            base.is_adr,
            base.is_adr == (adr_id_of(last_segment_of(rel_path@)) is Some || in_adr_directory(rel_path@)),
            opt_chars(base.id) == adr_id_of(last_segment_of(rel_path@)),
        decreases lines.len() - k,
    {
        let line = string_of(lines[k].as_slice());
        assert(line@ == lines_of(head@)[k as int]);
        if let Some(value) = status_from_header_line(line.as_str()) {
            assert(first_header_status(lines_of(head@), k as int) == Some(k as int));
            assert(head@ == text_between(source@, 0, end as int));
            assert(status_reading(source@, *scan) == Some((value@, (k + 1) as nat, "header-line"@)));
            record_status(&mut facts, value.as_str(), k + 1, "header-line");
            assert(recognised(facts) == base);
            return facts;
        }
        k = k + 1;
    }
    // Form 2: the first non-blank line of a `Status` section.
    let mut s: usize = 0;
    while s < hs.len() && !is_status_heading(&hs[s])
        invariant
            s <= hs.len(),
            status_heading(hs@, 0) == status_heading(hs@, s as int),
        decreases hs.len() - s,
    {
        s = s + 1;
    }
    if s >= hs.len() {
        return facts;
    }
    assert(status_heading(hs@, s as int) == Some(s as int));
    let h = &hs[s];
    let a = if h.heading_span.end_byte < n { h.heading_span.end_byte } else { n };
    let b = if h.section_span.end_byte < n { h.section_span.end_byte } else { n };
    if a >= b {
        return facts;
    }
    let body_text = slice_text(source, a, b);
    let body = text_lines(body_text);
    proof {
        lemma_encoding_is_no_shorter(body_text@);
        crate::text::lemma_pieces_len(body_text@, '\n');
        assert(body_text.spec_bytes() == encode_utf8(body_text@));
        assert(hs@[s as int].heading_span.end_line <= n + 1);
    }
    let mut k: usize = 0;
    while k < body.len()
        invariant
            k <= body.len(),
            body.len() <= (b - a) + 1,
            h.heading_span.end_line <= n + 1,
            n <= isize::MAX,
            crate::order::key_views(body@) == lines_of(body_text@),
            first_nonblank(lines_of(body_text@), 0) == first_nonblank(lines_of(body_text@), k as int),
            a <= b <= n,
            body_text@ == text_between(source@, a as int, b as int),
            n == encode_utf8(source@).len(),
            hs == scan.headings,
            s < hs.len(),
            status_heading(hs@, 0) == Some(s as int),
            *h == hs@[s as int],
            a as nat == min_of(h.heading_span.end_byte as nat, n as nat),
            b as nat == min_of(h.section_span.end_byte as nat, n as nat),
            first_header_status(lines_of(head@), 0) is None,
            head@ == text_between(source@, 0, end as int),
            end as nat == match first_deep_heading(hs@, 0) {
                Some(j) => hs@[j].heading_span.start_byte as nat,
                None => n as nat,
            },
            facts == base,
            base == recognised(base),
            base.is_adr,
            base.is_adr == (adr_id_of(last_segment_of(rel_path@)) is Some || in_adr_directory(rel_path@)),
            opt_chars(base.id) == adr_id_of(last_segment_of(rel_path@)),
        decreases body.len() - k,
    {
        let t = trim_chars(body[k].as_slice());
        assert(body@[k as int]@ == lines_of(body_text@)[k as int]);
        if t.len() > 0 {
            assert(first_nonblank(lines_of(body_text@), k as int) == Some(k as int));
            let value = string_of(t.as_slice());
            assert(status_reading(source@, *scan) == Some((value@, (h.heading_span.end_line + k) as nat, "status-section"@)));
            record_status(&mut facts, value.as_str(), h.heading_span.end_line + k, "status-section");
            assert(recognised(facts) == base);
            return facts;
        }
        k = k + 1;
    }
    facts
}

} // verus!

verus! {

// ---- sections ----------------------------------------------------------------------------------

/// One section of a document, with the identity it will carry into the graph.
#[derive(Debug, Clone, PartialEq, Eq)]
pub struct SectionDef {
    /// Content-derived entity id.
    pub entity_id: String,
    /// Heading text exactly as written. Repository content; inert.
    pub name: String,
    /// Heading chain from the outermost enclosing heading down to this one, `>`-joined.
    ///
    /// Display only: identity spreads the chain across tuple fields, because `>` is legal heading
    /// text and a joined field is forgeable.
    pub heading_path: String,
    /// Heading level, 1 to 6.
    pub level: usize,
    /// Position among the siblings sharing this section's parent and heading text.
    pub sibling_ordinal: u32,
    /// The heading line, which is the evidence for the containment edge.
    pub heading_span: Span,
    /// The whole section, which is where the entity is.
    pub section_span: Span,
    /// Entity id of the enclosing section, or `None` when the document itself encloses it.
    pub parent: Option<String>,
    /// How the heading was written.
    pub style: HeadingStyle,
}

/// Where a heading stands in the section tree.
pub struct SectionModel {
    /// The heading texts from the outermost enclosing heading down to this one.
    pub chain: Seq<Seq<char>>,
    /// The section's entity id.
    pub id: Seq<char>,
    /// Its position among earlier siblings with the same parent and text.
    pub ordinal: nat,
    /// The enclosing section's entity id, if a section encloses it.
    pub parent: Option<Seq<char>>,
}

/// The position of the last heading before `j` whose level is strictly lower than that of
/// heading `i`.
pub open spec fn nearest_lower(hs: Seq<ScannedHeading>, i: int, j: int) -> Option<int>
    decreases j,
{
    if j <= 0 {
        None
    } else if hs[j - 1].level < hs[i].level {
        Some(j - 1)
    } else {
        nearest_lower(hs, i, j - 1)
    }
}

/// The heading whose section encloses heading `i`: the nearest preceding heading with a strictly
/// lower level. A document whose first heading is level 3 therefore hangs it off the document.
pub open spec fn parent_index(hs: Seq<ScannedHeading>, i: int) -> Option<int> {
    nearest_lower(hs, i, i)
}

/// How many of the first `m` sections have this parent and this heading text.
pub open spec fn same_siblings(models: Seq<SectionModel>, hs: Seq<ScannedHeading>, parent: Option<Seq<char>>, text: Seq<char>, m: int) -> nat
    decreases m,
{
    if m <= 0 {
        0
    } else {
        same_siblings(models, hs, parent, text, m - 1) + if models[m - 1].parent == parent
            && hs[m - 1].text@ == text {
            1nat
        } else {
            0nat
        }
    }
}

/// Where each of the first `n` headings stands in the section tree.
pub open spec fn section_models(project_id: Seq<char>, rel_path: Seq<char>, hs: Seq<ScannedHeading>, n: int) -> Seq<SectionModel>
    decreases n,
{
    if n <= 0 {
        Seq::empty()
    } else {
        let prev = section_models(project_id, rel_path, hs, n - 1);
        let i = n - 1;
        let text = hs[i].text@;
        let (chain, parent) = match parent_index(hs, i) {
            Some(p) => (prev[p].chain.push(text), Some(prev[p].id)),
            None => (seq![text], None),
        };
        let ordinal = same_siblings(prev, hs, parent, text, i);
        let id = crate::ids::entity_id_of(
            crate::vocab::EntityKind::Section,
            crate::ids::section_fields(project_id, rel_path, chain, ordinal),
        );
        prev.push(SectionModel { chain, id, ordinal, parent })
    }
}

/// The section heading `i` becomes.
pub open spec fn section_of(project_id: Seq<char>, rel_path: Seq<char>, hs: Seq<ScannedHeading>, i: int, s: SectionDef) -> bool {
    let m = section_models(project_id, rel_path, hs, hs.len() as int)[i];
    &&& s.entity_id@ == m.id
    &&& s.name@ == hs[i].text@
    &&& s.heading_path@ == crate::text::join_with(m.chain, '>')
    &&& s.level == hs[i].level
    &&& s.sibling_ordinal == m.ordinal
    &&& s.heading_span == hs[i].heading_span
    &&& s.section_span == hs[i].section_span
    &&& opt_chars(s.parent) == m.parent
    &&& s.style == hs[i].style
}

} // verus!

verus! {

/// No heading strictly between `j` and `i` is as shallow as `j`: `j`'s section is still open
/// when heading `i` is reached.
pub open spec fn open_at(hs: Seq<ScannedHeading>, j: int, i: int) -> bool {
    forall|m: int| j < m < i ==> #[trigger] hs[m].level > hs[j].level
}

/// What the search for the nearest lower heading finds.
pub proof fn lemma_nearest_lower(hs: Seq<ScannedHeading>, i: int, j: int)
    requires
        0 <= j <= i < hs.len(),
    ensures
        match nearest_lower(hs, i, j) {
            Some(q) => 0 <= q < j && hs[q].level < hs[i].level && forall|m: int|
                q < m < j ==> #[trigger] hs[m].level >= hs[i].level,
            None => forall|m: int| 0 <= m < j ==> #[trigger] hs[m].level >= hs[i].level,
        },
    decreases j,
{
    if j > 0 {
        lemma_nearest_lower(hs, i, j - 1);
    }
}

/// The models of the first `n` headings are `n` long, and each step appends one.
pub proof fn lemma_models_step(project_id: Seq<char>, rel_path: Seq<char>, hs: Seq<ScannedHeading>, n: int)
    requires
        0 <= n,
    ensures
        section_models(project_id, rel_path, hs, n).len() == n,
        forall|k: int| 0 <= k < n ==> section_models(project_id, rel_path, hs, n + 1)[k]
            == #[trigger] section_models(project_id, rel_path, hs, n)[k],
    decreases n,
{
    if n > 0 {
        lemma_models_step(project_id, rel_path, hs, n - 1);
    }
}

/// The models of a prefix of the headings agree with those of all of them.
pub proof fn lemma_models_prefix(project_id: Seq<char>, rel_path: Seq<char>, hs: Seq<ScannedHeading>, n: int, m: int)
    requires
        0 <= n <= m,
    ensures
        forall|k: int| 0 <= k < n ==> section_models(project_id, rel_path, hs, m)[k]
            == #[trigger] section_models(project_id, rel_path, hs, n)[k],
    decreases m - n,
{
    if n < m {
        lemma_models_prefix(project_id, rel_path, hs, n + 1, m);
        lemma_models_step(project_id, rel_path, hs, n);
    }
}

} // verus!

verus! {

/// The texts of the open headings, outermost first.
pub open spec fn stack_texts(stack: Seq<(usize, String, String)>) -> Seq<Seq<char>> {
    stack.map_values(|e: (usize, String, String)| e.2@)
}

/// Whether two optional strings hold the same characters.
fn same_parent(a: &Option<String>, b: &Option<String>) -> (same: bool)
    ensures
        same == (opt_chars(*a) == opt_chars(*b)),
{
    match (a, b) {
        (Some(x), Some(y)) => str_eq(x.as_str(), y.as_str()),
        (None, None) => true,
        _ => false,
    }
}

/// How many sections so far share this parent and heading text.
fn sibling_count(sections: &Vec<SectionDef>, parent: &Option<String>, text: &String, Ghost(models): Ghost<Seq<SectionModel>>, Ghost(hs): Ghost<Seq<ScannedHeading>>) -> (n: usize)
    requires
        sections@.len() <= models.len(),
        sections@.len() <= hs.len(),
        forall|k: int| 0 <= k < sections@.len() ==> opt_chars(#[trigger] sections@[k].parent) == models[k].parent
            && sections@[k].name@ == hs[k].text@,
    ensures
        n == same_siblings(models, hs, opt_chars(*parent), text@, sections@.len() as int),
{
    let mut n: usize = 0;
    let mut j: usize = 0;
    while j < sections.len()
        invariant
            j <= sections@.len(),
            n <= j,
            sections@.len() <= models.len(),
            sections@.len() <= hs.len(),
            forall|k: int| 0 <= k < sections@.len() ==> opt_chars(#[trigger] sections@[k].parent) == models[k].parent
                && sections@[k].name@ == hs[k].text@,
            n == same_siblings(models, hs, opt_chars(*parent), text@, j as int),
        decreases sections.len() - j,
    {
        let s = &sections[j];
        assert(opt_chars(sections@[j as int].parent) == models[j as int].parent);
        if same_parent(&s.parent, parent) && str_eq(s.name.as_str(), text.as_str()) {
            n = n + 1;
        }
        j = j + 1;
    }
    n
}

} // verus!

verus! {

/// The section tree of a document: one section per heading, in source order, each entering the
/// section of the nearest preceding heading with a strictly lower level, and identified by its
/// heading chain and its position among same-named siblings of the same parent.
pub fn build_sections(project_id: &str, rel_path: &str, scan: &DocumentScan) -> (sections: Vec<SectionDef>)
    requires
        scan.headings@.len() <= u32::MAX,
    ensures
        sections@.len() == scan.headings@.len(),
        forall|i: int| 0 <= i < sections@.len() ==> section_of(
            project_id@,
            rel_path@,
            scan.headings@,
            i,
            #[trigger] sections@[i],
        ),
{
    let hs = &scan.headings;
    let ghost hv = hs@;
    let ghost pid = project_id@;
    let ghost rel = rel_path@;
    let mut stack: Vec<(usize, String, String)> = Vec::new();
    let ghost mut sidx: Seq<int> = Seq::empty();
    let mut sections: Vec<SectionDef> = Vec::new();
    let mut i: usize = 0;
    proof {
        lemma_models_step(pid, rel, hv, 0);
    }
    while i < hs.len()
        invariant
            hv == hs@,
            pid == project_id@,
            rel == rel_path@,
            hv.len() <= u32::MAX,
            i <= hv.len(),
            section_models(pid, rel, hv, i as int).len() == i,
            sections@.len() == i,
            forall|k: int| 0 <= k < i ==> {
                let m = section_models(pid, rel, hv, i as int)[k];
                let s = #[trigger] sections@[k];
                &&& s.entity_id@ == m.id
                &&& s.name@ == hv[k].text@
                &&& s.heading_path@ == crate::text::join_with(m.chain, '>')
                &&& s.level == hv[k].level
                &&& s.sibling_ordinal == m.ordinal
                &&& s.heading_span == hv[k].heading_span
                &&& s.section_span == hv[k].section_span
                &&& opt_chars(s.parent) == m.parent
                &&& s.style == hv[k].style
            },
            sidx.len() == stack@.len(),
            forall|k: int| 0 <= k < sidx.len() ==> 0 <= #[trigger] sidx[k] < i,
            forall|k: int| 0 <= k < sidx.len() ==> stack@[k].0 == hv[#[trigger] sidx[k]].level
                && stack@[k].1@ == section_models(pid, rel, hv, i as int)[sidx[k]].id
                && stack@[k].2@ == hv[sidx[k]].text@
                && section_models(pid, rel, hv, i as int)[sidx[k]].chain == stack_texts(stack@).take(k + 1),
            forall|k1: int, k2: int| 0 <= k1 < k2 < sidx.len() ==> #[trigger] sidx[k1] < #[trigger] sidx[k2],
            forall|k: int| 0 <= k < sidx.len() ==> open_at(hv, #[trigger] sidx[k], i as int),
            forall|j: int| 0 <= j < i && open_at(hv, j, i as int) ==> exists|k: int| 0 <= k < sidx.len() && #[trigger] sidx[k] == j,
        decreases hv.len() - i,
    {
        let ghost models = section_models(pid, rel, hv, i as int);
        let heading = &hs[i];
        let level = heading.level;
        // Close every open section at least as deep as this heading.
        while stack.len() > 0 && stack[stack.len() - 1].0 >= level
            invariant
                hv == hs@,
                i < hv.len(),
                level == hv[i as int].level,
                models == section_models(pid, rel, hv, i as int),
                sidx.len() == stack@.len(),
                forall|k: int| 0 <= k < sidx.len() ==> 0 <= #[trigger] sidx[k] < i,
                forall|k: int| 0 <= k < sidx.len() ==> stack@[k].0 == hv[#[trigger] sidx[k]].level
                    && stack@[k].1@ == models[sidx[k]].id
                    && stack@[k].2@ == hv[sidx[k]].text@
                    && models[sidx[k]].chain == stack_texts(stack@).take(k + 1),
                forall|k1: int, k2: int| 0 <= k1 < k2 < sidx.len() ==> #[trigger] sidx[k1] < #[trigger] sidx[k2],
                forall|k: int| 0 <= k < sidx.len() ==> open_at(hv, #[trigger] sidx[k], i as int),
                forall|j: int| 0 <= j < i && open_at(hv, j, i as int) && hv[j].level < level
                    ==> exists|k: int| 0 <= k < sidx.len() && #[trigger] sidx[k] == j,
            decreases stack.len(),
        {
            let ghost before = stack@;
            let _ = stack.pop();
            proof {
                assert(stack@ =~= before.drop_last());
                let ns = sidx.drop_last();
                assert forall|j: int| 0 <= j < i && open_at(hv, j, i as int) && hv[j].level < level
                    implies exists|k: int| 0 <= k < ns.len() && #[trigger] ns[k] == j by {
                    let k = choose|k: int| 0 <= k < sidx.len() && #[trigger] sidx[k] == j;
                    assert(k != sidx.len() - 1);
                    assert(ns[k] == j);
                }
                assert forall|k: int| 0 <= k < ns.len() implies #[trigger] stack_texts(stack@).take(k + 1)
                    =~= stack_texts(before).take(k + 1) by {}
                sidx = ns;
            }
        }
        let ghost q = nearest_lower(hv, i as int, i as int);
        proof {
            lemma_nearest_lower(hv, i as int, i as int);
            if stack@.len() > 0 {
                let p = sidx.last();
                assert(hv[p].level < level);
                match q {
                    Some(qq) => {
                        assert(open_at(hv, qq, i as int));
                        let k = choose|k: int| 0 <= k < sidx.len() && #[trigger] sidx[k] == qq;
                        if k < sidx.len() - 1 {
                            assert(sidx[k] < sidx[sidx.len() - 1]);
                            assert(hv[p].level >= level);
                        }
                    },
                    None => {
                        assert(hv[p].level >= level);
                    },
                }
                assert(q == Some(p));
            } else {
                match q {
                    Some(qq) => {
                        assert(open_at(hv, qq, i as int));
                    },
                    None => {},
                }
                assert(q is None);
            }
        }
        // The heading chain: the open sections' texts, then this heading's.
        let mut chain: Vec<&str> = Vec::new();
        let mut parts: Vec<Vec<char>> = Vec::new();
        let mut c: usize = 0;
        while c < stack.len()
            invariant
                c <= stack@.len(),
                crate::ids::str_views(chain@) == stack_texts(stack@).take(c as int),
                crate::order::key_views(parts@) == stack_texts(stack@).take(c as int),
            decreases stack.len() - c,
        {
            let text = stack[c].2.as_str();
            let ghost before_chain = crate::ids::str_views(chain@);
            chain.push(text);
            assert(crate::ids::str_views(chain@) =~= before_chain.push(text@));
            let piece = chars_of(text);
            proof {
                crate::order::lemma_key_views_push(parts@, piece);
            }
            parts.push(piece);
            assert(stack_texts(stack@).take(c + 1) =~= stack_texts(stack@).take(c as int).push(stack@[c as int].2@));
            c = c + 1;
        }
        let ghost open_texts = stack_texts(stack@);
        assert(open_texts.take(stack@.len() as int) =~= open_texts);
        let ghost before_chain = crate::ids::str_views(chain@);
        chain.push(heading.text.as_str());
        assert(crate::ids::str_views(chain@) =~= before_chain.push(heading.text@));
        let piece = chars_of(heading.text.as_str());
        proof {
            crate::order::lemma_key_views_push(parts@, piece);
        }
        parts.push(piece);
        let parent: Option<String> = if stack.len() > 0 {
            Some(string_of(chars_of(stack[stack.len() - 1].1.as_str()).as_slice()))
        } else {
            None
        };
        let ghost spec_chain = match q {
            Some(p) => models[p].chain.push(hv[i as int].text@),
            None => seq![hv[i as int].text@],
        };
        proof {
            if stack@.len() > 0 {
                let last = sidx.len() - 1;
                assert(models[sidx[last]].chain == open_texts.take(last + 1));
                assert(open_texts.take(last + 1) =~= open_texts);
            } else {
                assert(open_texts =~= Seq::<Seq<char>>::empty());
            }
            assert(crate::ids::str_views(chain@) =~= spec_chain);
        }
        let ordinal = sibling_count(&sections, &parent, &heading.text, Ghost(models), Ghost(hv));
        assert(ordinal <= i) by {
            lemma_siblings_bounded(models, hv, opt_chars(parent), heading.text@, i as int);
        }
        let chain_slice = chain.as_slice();
        assert(chain_slice@ == chain@);
        let id = crate::ids::section_id(project_id, rel_path, chain_slice, ordinal as u32);
        let heading_path = string_of(crate::text::join_chars(&parts, '>').as_slice());
        let ghost new_model = SectionModel {
            chain: spec_chain,
            id: id@,
            ordinal: ordinal as nat,
            parent: opt_chars(parent),
        };
        proof {
            lemma_models_step(pid, rel, hv, i as int);
            let pspec: Option<Seq<char>> = match q {
                Some(p) => Some(models[p].id),
                None => None,
            };
            if stack@.len() > 0 {
                assert(q == Some(sidx[sidx.len() - 1]));
                assert(opt_chars(parent) == Some(stack@[stack@.len() - 1].1@));
            }
            assert(opt_chars(parent) == pspec);
            assert(ordinal as nat == same_siblings(models, hv, pspec, hv[i as int].text@, i as int));
            assert((ordinal as u32) as nat == ordinal as nat);
            assert(parent_index(hv, i as int) == q);
            let nx = section_models(pid, rel, hv, i + 1);
            assert(nx.len() == i + 1);
            assert(nx[i as int].chain == spec_chain);
            assert(nx[i as int].parent == pspec);
            assert(nx[i as int].ordinal == ordinal as nat);
            assert(crate::ids::str_views(chain_slice@) == spec_chain);
            assert(nx[i as int].id == id@);
            assert(section_models(pid, rel, hv, i + 1) =~= models.push(new_model));
        }
        let ghost old_sections = sections@;
        sections.push(SectionDef {
            entity_id: string_of(chars_of(id.as_str()).as_slice()),
            name: string_of(chars_of(heading.text.as_str()).as_slice()),
            heading_path,
            level,
            sibling_ordinal: ordinal as u32,
            heading_span: heading.heading_span,
            section_span: heading.section_span,
            parent,
            style: heading.style,
        });
        let ghost kept = stack@;
        stack.push((level, id, string_of(chars_of(heading.text.as_str()).as_slice())));
        proof {
            let next = section_models(pid, rel, hv, i + 1);
            assert forall|k: int| 0 <= k < sidx.len() implies #[trigger] hv[sidx[k]].level < level by {
                let last = sidx.len() - 1;
                if k < last {
                    assert(sidx[k] < sidx[last]);
                    assert(open_at(hv, sidx[k], i as int));
                }
            }
            assert forall|k: int| 0 <= k < sidx.len() implies #[trigger] stack_texts(stack@).take(k + 1)
                =~= stack_texts(kept).take(k + 1) by {}
            assert(stack_texts(stack@).take(sidx.len() as int + 1) =~= stack_texts(stack@));
            assert(stack_texts(stack@) =~= open_texts.push(hv[i as int].text@));
            let old_sidx = sidx;
            sidx = sidx.push(i as int);
            let ni = i + 1;
            assert forall|j: int| 0 <= j < ni && #[trigger] open_at(hv, j, ni) implies exists|k: int|
                0 <= k < sidx.len() && #[trigger] sidx[k] == j by {
                if j == i {
                    assert(sidx[old_sidx.len() as int] == j);
                } else {
                    assert(hv[i as int].level > hv[j].level);
                    assert(open_at(hv, j, i as int));
                    let k = choose|k: int| 0 <= k < old_sidx.len() && #[trigger] old_sidx[k] == j;
                    assert(sidx[k] == j);
                }
            }
            assert forall|k: int| 0 <= k < sidx.len() implies open_at(hv, #[trigger] sidx[k], ni) by {
                if k < old_sidx.len() {
                    assert(open_at(hv, old_sidx[k], i as int));
                    assert(hv[old_sidx[k]].level < level);
                }
            }
        }
        i = i + 1;
    }
    proof {
        lemma_models_prefix(pid, rel, hv, hv.len() as int, hv.len() as int);
    }
    sections
}

/// A count of earlier siblings never exceeds the number of earlier sections.
proof fn lemma_siblings_bounded(models: Seq<SectionModel>, hs: Seq<ScannedHeading>, parent: Option<Seq<char>>, text: Seq<char>, m: int)
    requires
        0 <= m,
    ensures
        same_siblings(models, hs, parent, text, m) <= m,
    decreases m,
{
    if m > 0 {
        lemma_siblings_bounded(models, hs, parent, text, m - 1);
    }
}

} // verus!

verus! {

// ---- one document ------------------------------------------------------------------------------

/// Everything `md-structural` read out of one document.
#[derive(Debug, Clone, PartialEq, Eq)]
pub struct DocumentExtraction {
    /// Repository-relative path.
    pub rel_path: String,
    /// Document entity id.
    pub entity_id: String,
    /// Sections in source order.
    pub sections: Vec<SectionDef>,
    /// ADR recognition and status.
    pub adr: AdrFacts,
    /// Front matter span, when the document opens with one.
    pub front_matter: Option<Span>,
    /// Constructs the scanner refused, by form tag, with how often.
    pub unsupported: Vec<(String, usize)>,
    /// The whole file, which is where the document entity is.
    pub file_span: Span,
}

/// The form tags and counts of a scan's refusals, as characters.
pub open spec fn tally_view(rows: Seq<(String, usize)>) -> Seq<(Seq<char>, usize)> {
    rows.map_values(|r: (String, usize)| (r.0@, r.1))
}

/// Derive everything the graph builder needs from one document, given the Markdown scan of it.
///
/// Infallible by construction: a document that cannot be made sense of yields a document entity
/// with no sections and the scanner's counters saying why, never an error and never a panic.
pub fn extract_document(project_id: &str, rel_path: &str, source: &str, scan: &DocumentScan) -> (extraction: DocumentExtraction)
    requires
        scan.fits(source@),
    ensures
        extraction.rel_path@ == rel_path@,
        extraction.entity_id@ == crate::ids::entity_id_of(
            crate::vocab::EntityKind::Document,
            seq![crate::vocab::EntityKind::Document.name_of(), project_id@, rel_path@],
        ),
        extraction.sections@.len() == scan.headings@.len(),
        forall|i: int| 0 <= i < extraction.sections@.len() ==> section_of(
            project_id@,
            rel_path@,
            scan.headings@,
            i,
            #[trigger] extraction.sections@[i],
        ),
        adr_read(rel_path@, source@, *scan, extraction.adr),
        extraction.front_matter == scan.front_matter,
        tally_view(extraction.unsupported@) == tally_view(scan.unsupported@),
        extraction.file_span == (Span {
            start_byte: 0,
            end_byte: encode_utf8(source@).len() as usize,
            start_line: 1,
            start_col: 0,
            end_line: if scan.line_count > 1 { scan.line_count } else { 1 },
            end_col: 0,
        }),
{
    let line_count = if scan.line_count > 1 { scan.line_count } else { 1 };
    let mut unsupported: Vec<(String, usize)> = Vec::new();
    let mut i: usize = 0;
    while i < scan.unsupported.len()
        invariant
            i <= scan.unsupported@.len(),
            tally_view(unsupported@) == tally_view(scan.unsupported@).take(i as int),
        decreases scan.unsupported.len() - i,
    {
        let row = &scan.unsupported[i];
        let ghost before = tally_view(unsupported@);
        unsupported.push((string_of(chars_of(row.0.as_str()).as_slice()), row.1));
        assert(tally_view(unsupported@) =~= before.push((row.0@, row.1)));
        assert(tally_view(scan.unsupported@).take(i + 1) =~= tally_view(scan.unsupported@).take(i as int).push(
            tally_view(scan.unsupported@)[i as int],
        ));
        i = i + 1;
    }
    assert(tally_view(scan.unsupported@).take(scan.unsupported@.len() as int) =~= tally_view(scan.unsupported@));
    let n = source.as_bytes().len();
    DocumentExtraction {
        rel_path: string_of(chars_of(rel_path).as_slice()),
        entity_id: crate::ids::document_id(project_id, rel_path),
        sections: build_sections(project_id, rel_path, scan),
        adr: read_adr(rel_path, source, scan),
        front_matter: scan.front_matter,
        unsupported,
        file_span: Span {
            start_byte: 0,
            end_byte: n,
            start_line: 1,
            start_col: 0,
            end_line: line_count,
            end_col: 0,
        },
    }
}

} // verus!

verus! {

/// A text whose first and last characters are not white space is its own trimmed form.
proof fn lemma_trimmed_of_clean(t: Seq<char>)
    requires
        t.len() > 0,
        !crate::text::is_white_space(t[0]),
        !crate::text::is_white_space(t.last()),
    ensures
        trimmed(t) == t,
{
    assert(crate::text::trim_start(t) == t);
    assert(crate::text::trim_end(t) == t);
}

/// Every status parses back from its own canonical spelling: reading what `as_str` wrote gives
/// the same status.
pub proof fn lemma_status_round_trip(status: AdrStatus)
    ensures
        AdrStatus::parsed(status.name_of()) == Some(status),
{
    reveal_strlit("Proposed");
    reveal_strlit("Accepted");
    reveal_strlit("Rejected");
    reveal_strlit("Deprecated");
    reveal_strlit("Superseded");
    let name = status.name_of();
    lemma_trimmed_of_clean(name);
    assert forall|k: int| 0 <= k < 5 && AdrStatus::ALL[k] != status implies !same_ignoring_case(
        #[trigger] AdrStatus::ALL[k].name_of(),
        name,
    ) by {
        AdrStatus::lemma_spellings_distinct(AdrStatus::ALL[k], status);
    }
    assert(same_ignoring_case(name, name));
    let ghost idx: int = match status {
        AdrStatus::Proposed => 0,
        AdrStatus::Accepted => 1,
        AdrStatus::Rejected => 2,
        AdrStatus::Deprecated => 3,
        AdrStatus::Superseded => 4,
    };
    assert(AdrStatus::ALL[idx] == status);
    assert(AdrStatus::matching_from(name, 5) is None);
    assert(AdrStatus::matching_from(name, 4) == if idx == 4 { Some(status) } else { None });
    assert(AdrStatus::matching_from(name, 3) == if idx >= 3 { Some(status) } else { None });
    assert(AdrStatus::matching_from(name, 2) == if idx >= 2 { Some(status) } else { None });
    assert(AdrStatus::matching_from(name, 1) == if idx >= 1 { Some(status) } else { None });
    assert(AdrStatus::matching_from(name, 0) == Some(status));
}

} // verus!
