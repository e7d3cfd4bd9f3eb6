//! Locating a declaration in its file.
//!
//! The parsers carry no positions, so the line a declaration is written on is found by a second
//! pass over the raw text. It is not a second parser: it decides nothing about the document's
//! meaning, and everything a link records comes from the parsed values. Its only job is to answer
//! which line a key was written on, so that a link is quoted from a place.
use vstd::prelude::*;
use vstd::string::StringSliceAdditionalSpecFns;
use vstd::slice::slice_to_vec;
use crate::text::{
    chars_eq, chars_of, find_char, first_index, pieces, split_chars, str_eq, string_of, strip_leading,
    strip_leading_chars, strip_trailing, strip_trailing_chars, trim_chars, trimmed, up_to, up_to_char,
    without, without_char,
};

verus! {

// ---- JSON ------------------------------------------------------------------------------------

/// The lines keys of a JSON document were written on: every `(section, key)` pair recorded, in
/// the order the scan met them. A later record of the same pair replaces an earlier one, as an
/// insertion into a map does.
#[derive(Debug, Clone, PartialEq, Eq)]
pub struct KeyLines {
    /// Every record, `(section, key, line)`, in the order it was made.
    pub records: Vec<(String, String, usize)>,
}

/// The line recorded last for `(section, key)`, if any.
pub open spec fn last_record(records: Seq<(Seq<char>, Seq<char>, nat)>, section: Seq<char>, key: Seq<char>) -> Option<nat>
    decreases records.len(),
{
    if records.len() == 0 {
        None
    } else if records.last().0 == section && records.last().1 == key {
        Some(records.last().2)
    } else {
        last_record(records.drop_last(), section, key)
    }
}

impl KeyLines {
    /// The records, with their text as characters.
    pub open spec fn log(self) -> Seq<(Seq<char>, Seq<char>, nat)> {
        self.records@.map_values(|r: (String, String, usize)| (r.0@, r.1@, r.2 as nat))
    }

    /// The line `(section, key)` was written on, if it was met.
    pub fn get(&self, section: &str, key: &str) -> (line: Option<usize>)
        ensures
            match line {
                Some(n) => last_record(self.log(), section@, key@) == Some(n as nat),
                None => last_record(self.log(), section@, key@) is None,
            },
    {
        let mut i: usize = self.records.len();
        assert(self.log().take(i as int) =~= self.log());
        while i > 0
            invariant
                i <= self.records.len(),
                last_record(self.log(), section@, key@) == last_record(self.log().take(i as int), section@, key@),
            decreases i,
        {
            let r = &self.records[i - 1];
            assert(self.log().take(i as int).drop_last() =~= self.log().take(i - 1));
            assert(self.log().take(i as int).last() == self.log()[i - 1]);
            if str_eq(r.0.as_str(), section) && str_eq(r.1.as_str(), key) {
                return Some(r.2);
            }
            i = i - 1;
        }
        None
    }
}

/// Where the scan of a JSON text stands.
pub struct JsonScan {
    /// The next byte to read.
    pub index: int,
    /// The line that byte is on.
    pub line: nat,
    /// How many objects and arrays enclose it.
    pub depth: nat,
    /// The section the scan is inside, when it is one of those asked for.
    pub section: Option<Seq<char>>,
    /// The last string read and the line it began on, until a colon, a comma or a bracket.
    pub pending: Option<(Seq<char>, nat)>,
    /// Every record made so far.
    pub log: Seq<(Seq<char>, Seq<char>, nat)>,
}

/// Reading a string literal's content from `cursor` on: an escape skips the byte after it (and
/// counts the line if that byte is a newline), a newline is kept and counted, and every other byte
/// is kept as the character of the same number. Stops at the closing quote or the end of the text,
/// returning where it stopped, the line there, and the content.
pub open spec fn literal_from(b: Seq<u8>, cursor: int, line: nat, content: Seq<char>) -> (int, nat, Seq<char>)
    decreases b.len() + 2 - cursor,
{
    if cursor < 0 || cursor >= b.len() {
        (cursor, line, content)
    } else if b[cursor] == 92u8 {
        let next_line = if cursor + 1 < b.len() && b[cursor + 1] == 10u8 { line + 1 } else { line };
        literal_from(b, cursor + 2, next_line, content)
    } else if b[cursor] == 34u8 {
        (cursor, line, content)
    } else if b[cursor] == 10u8 {
        literal_from(b, cursor + 1, line + 1, content.push('\n'))
    } else {
        literal_from(b, cursor + 1, line, content.push(b[cursor] as char))
    }
}

/// Whether `key` is one of the sections asked for.
pub open spec fn is_section(sections: Seq<&str>, key: Seq<char>) -> bool {
    exists|i: int| 0 <= i < sections.len() && (#[trigger] sections[i])@ == key
}

/// One step of the scan at a byte.
pub open spec fn json_step(b: Seq<u8>, sections: Seq<&str>, st: JsonScan) -> JsonScan {
    let c = b[st.index];
    if c == 10u8 {
        JsonScan { index: st.index + 1, line: st.line + 1, ..st }
    } else if c == 34u8 {
        let (cursor, line, content) = literal_from(b, st.index + 1, st.line, Seq::empty());
        JsonScan { index: cursor + 1, line, pending: Some((content, st.line)), ..st }
    } else if c == 58u8 {
        match st.pending {
            Some((key, key_line)) => {
                if st.depth == 1 {
                    JsonScan {
                        index: st.index + 1,
                        pending: None,
                        log: st.log.push((Seq::empty(), key, key_line)),
                        section: if is_section(sections, key) { Some(key) } else { None },
                        ..st
                    }
                } else if st.depth == 2 && st.section is Some {
                    JsonScan {
                        index: st.index + 1,
                        pending: None,
                        log: st.log.push((st.section.unwrap(), key, key_line)),
                        ..st
                    }
                } else {
                    JsonScan { index: st.index + 1, pending: None, ..st }
                }
            },
            None => JsonScan { index: st.index + 1, ..st },
        }
    } else if c == 123u8 || c == 91u8 {
        JsonScan { index: st.index + 1, depth: st.depth + 1, pending: None, ..st }
    } else if c == 125u8 || c == 93u8 {
        let depth: nat = if st.depth > 0 { (st.depth - 1) as nat } else { 0 };
        JsonScan {
            index: st.index + 1,
            depth,
            section: if depth <= 1 { None } else { st.section },
            pending: None,
            ..st
        }
    } else if c == 44u8 {
        JsonScan { index: st.index + 1, pending: None, ..st }
    } else {
        JsonScan { index: st.index + 1, ..st }
    }
}

/// Reading a literal never moves the cursor back.
pub proof fn lemma_literal_advances(b: Seq<u8>, cursor: int, line: nat, content: Seq<char>)
    requires
        0 <= cursor <= b.len() + 1,
    ensures
        cursor <= literal_from(b, cursor, line, content).0 <= b.len() + 1,
    decreases b.len() + 2 - cursor,
{
    if cursor < b.len() {
        if b[cursor] == 92u8 {
            let next_line = if cursor + 1 < b.len() && b[cursor + 1] == 10u8 { line + 1 } else { line };
            lemma_literal_advances(b, cursor + 2, next_line, content);
        } else if b[cursor] == 34u8 {
        } else if b[cursor] == 10u8 {
            lemma_literal_advances(b, cursor + 1, line + 1, content.push('\n'));
        } else {
            lemma_literal_advances(b, cursor + 1, line, content.push(b[cursor] as char));
        }
    }
}

/// The scan from `st` to the end of the text.
pub open spec fn json_run(b: Seq<u8>, sections: Seq<&str>, st: JsonScan) -> JsonScan
    decreases b.len() + 3 - st.index,
{
    if st.index < 0 || st.index >= b.len() {
        st
    } else {
        proof {
            lemma_literal_advances(b, st.index + 1, st.line, Seq::empty());
            assert(st.index < json_step(b, sections, st).index <= b.len() + 2);
        }
        json_run(b, sections, json_step(b, sections, st))
    }
}

/// What the scan of a whole text records.
pub open spec fn json_key_log(b: Seq<u8>, sections: Seq<&str>) -> Seq<(Seq<char>, Seq<char>, nat)> {
    json_run(
        b,
        sections,
        JsonScan { index: 0, line: 1, depth: 0, section: None, pending: None, log: Seq::empty() },
    ).log
}

} // verus!

verus! {

/// The characters of an optional string.
pub open spec fn text_of(s: Option<String>) -> Option<Seq<char>> {
    match s {
        Some(t) => Some(t@),
        None => None,
    }
}

/// The characters and line of an optional pending key.
pub open spec fn pending_of(p: Option<(String, usize)>) -> Option<(Seq<char>, nat)> {
    match p {
        Some((t, n)) => Some((t@, n as nat)),
        None => None,
    }
}

/// Whether `key` is one of `sections`.
fn section_named(sections: &[&str], key: &str) -> (found: bool)
    ensures
        found == is_section(sections@, key@),
{
    let mut i: usize = 0;
    while i < sections.len()
        invariant
            i <= sections.len(),
            forall|j: int| 0 <= j < i ==> (#[trigger] sections@[j])@ != key@,
        decreases sections.len() - i,
    {
        if str_eq(sections[i], key) {
            return true;
        }
        i = i + 1;
    }
    false
}

/// A fresh copy of a string.
fn copy_string(s: &String) -> (out: String)
    ensures
        out@ == s@,
{
    string_of(chars_of(s.as_str()).as_slice())
}

/// Read one string literal whose opening quote is just before `start`.
fn read_literal(b: &[u8], start: usize, first_line: usize) -> (out: (usize, usize, Vec<char>))
    requires
        b.len() <= isize::MAX,
        start <= b.len(),
        first_line <= start,
    ensures
        literal_from(b@, start as int, first_line as nat, Seq::empty()) == (out.0 as int, out.1 as nat, out.2@),
        start <= out.0 <= b.len() + 1,
        out.1 <= out.0,
{
    let mut cursor: usize = start;
    let mut line: usize = first_line;
    let mut literal: Vec<char> = Vec::new();
    while cursor < b.len() && b[cursor] != 34u8
        invariant
            b.len() <= isize::MAX,
            start <= cursor <= b.len() + 1,
            line <= cursor,
            literal_from(b@, start as int, first_line as nat, Seq::empty())
                == literal_from(b@, cursor as int, line as nat, literal@),
        decreases b.len() + 2 - cursor,
    {
        let byte = b[cursor];
        if byte == 92u8 {
            if cursor + 1 < b.len() && b[cursor + 1] == 10u8 {
                line = line + 1;
            }
            cursor = cursor + 2;
        } else if byte == 10u8 {
            line = line + 1;
            literal.push('\n');
            cursor = cursor + 1;
        } else {
            literal.push(byte as char);
            cursor = cursor + 1;
        }
    }
    assert(literal_from(b@, cursor as int, line as nat, literal@) == (cursor as int, line as nat, literal@));
    (cursor, line, literal)
}

/// The line each `(section, key)` pair is written on, from the raw JSON text: keys at the top
/// level are recorded under the empty section, and the keys of the objects under each of
/// `sections` under that section.
///
/// A minified manifest puts every key on line 1, which is not a failure: that is genuinely where
/// they are.
pub fn json_key_lines(text: &str, sections: &[&str]) -> (lines: KeyLines)
    requires
        text.spec_bytes().len() <= isize::MAX,
    ensures
        lines.log() == json_key_log(text.spec_bytes(), sections@),
{
    let b = text.as_bytes();
    let ghost bs = b@;
    let mut records: Vec<(String, String, usize)> = Vec::new();
    let mut line: usize = 1;
    let mut depth: usize = 0;
    let mut index: usize = 0;
    let mut section: Option<String> = None;
    let mut pending: Option<(String, usize)> = None;
    let ghost init = JsonScan { index: 0, line: 1, depth: 0, section: None, pending: None, log: Seq::empty() };
    assert(records@.map_values(|r: (String, String, usize)| (r.0@, r.1@, r.2 as nat)) =~= Seq::empty());
    while index < b.len()
        invariant
            b@ == bs,
            bs == text.spec_bytes(),
            b.len() <= isize::MAX,
            index <= b.len() + 2,
            line <= index + 1,
            depth <= index,
            json_run(bs, sections@, init) == json_run(bs, sections@, JsonScan {
                index: index as int,
                line: line as nat,
                depth: depth as nat,
                section: text_of(section),
                pending: pending_of(pending),
                log: records@.map_values(|r: (String, String, usize)| (r.0@, r.1@, r.2 as nat)),
            }),
        decreases b.len() + 3 - index,
    {
        let ghost st = JsonScan {
            index: index as int,
            line: line as nat,
            depth: depth as nat,
            section: text_of(section),
            pending: pending_of(pending),
            log: records@.map_values(|r: (String, String, usize)| (r.0@, r.1@, r.2 as nat)),
        };
        let ghost next = json_step(bs, sections@, st);
        assert(json_run(bs, sections@, st) == json_run(bs, sections@, next));
        let c = b[index];
        if c == 10u8 {
            line = line + 1;
            index = index + 1;
        } else if c == 34u8 {
            let start_line = line;
            let (cursor, after_line, literal) = read_literal(b, index + 1, line);
            index = cursor + 1;
            line = after_line;
            pending = Some((string_of(literal.as_slice()), start_line));
        } else if c == 58u8 {
            match pending {
                Some((key, key_line)) => {
                    if depth == 1 {
                        let named = section_named(sections, key.as_str());
                        records.push((String::new(), copy_string(&key), key_line));
                        section = if named { Some(key) } else { None };
                    } else if depth == 2 && section.is_some() {
                        let current = match &section {
                            Some(s) => copy_string(s),
                            None => String::new(),
                        };
                        records.push((current, key, key_line));
                    }
                    pending = None;
                },
                None => {},
            }
            index = index + 1;
        } else if c == 123u8 || c == 91u8 {
            depth = depth + 1;
            pending = None;
            index = index + 1;
        } else if c == 125u8 || c == 93u8 {
            depth = if depth > 0 { depth - 1 } else { 0 };
            if depth <= 1 {
                section = None;
            }
            pending = None;
            index = index + 1;
        } else if c == 44u8 {
            pending = None;
            index = index + 1;
        } else {
            index = index + 1;
        }
        assert(records@.map_values(|r: (String, String, usize)| (r.0@, r.1@, r.2 as nat)) =~= next.log);
    }
    KeyLines { records }
}

} // verus!

verus! {

// ---- TOML ------------------------------------------------------------------------------------

/// A line without the carriage return that ended it, if one did.
pub open spec fn without_cr(p: Seq<char>) -> Seq<char> {
    if p.len() > 0 && p.last() == '\r' {
        p.drop_last()
    } else {
        p
    }
}

/// The lines of a text as `str::lines` yields them: split at each `\n`, a `\r` before the `\n`
/// dropped, and no empty line after a final line ending.
pub open spec fn text_lines(t: Seq<char>) -> Seq<Seq<char>> {
    let ps = pieces(t, '\n');
    let full = ps.take(ps.len() - 1).map_values(|p: Seq<char>| without_cr(p));
    if ps.last().len() == 0 {
        full
    } else {
        full.push(ps.last())
    }
}

/// Where the scan of a TOML text stands after some lines.
pub struct TomlScan {
    /// The header the scan is under; empty before the first.
    pub current: Seq<char>,
    /// Every header met, with its line, in order.
    pub headers: Seq<(Seq<char>, nat)>,
    /// Every `(header, key)` met, with its line, in order.
    pub keys: Seq<(Seq<char>, Seq<char>, nat)>,
}

/// The name a header line declares: its leading `[`s dropped, up to its first `]`, trimmed, and
/// with its quotes removed.
pub open spec fn header_name(t: Seq<char>) -> Seq<char> {
    without(trimmed(up_to(strip_leading(t, '['), ']')), '"')
}

/// The scan after line number `line`, whose text is `raw`.
pub open spec fn toml_step(st: TomlScan, raw: Seq<char>, line: nat) -> TomlScan {
    let t = trimmed(raw);
    if t.len() > 0 && t[0] == '[' {
        let inner = header_name(t);
        TomlScan { current: inner, headers: st.headers.push((inner, line)), keys: st.keys }
    } else if st.current.len() == 0 || (t.len() > 0 && t[0] == '#') {
        st
    } else {
        match first_index(t, '=') {
            None => st,
            Some(k) => {
                let key = strip_trailing(strip_leading(trimmed(t.take(k)), '"'), '"');
                if key.len() > 0 {
                    TomlScan { keys: st.keys.push((st.current, key, line)), ..st }
                } else {
                    st
                }
            },
        }
    }
}

/// The scan after the first `n` lines.
pub open spec fn toml_run(lines: Seq<Seq<char>>, n: int) -> TomlScan
    decreases n,
{
    if n <= 0 {
        TomlScan { current: Seq::empty(), headers: Seq::empty(), keys: Seq::empty() }
    } else {
        toml_step(toml_run(lines, n - 1), lines[n - 1], n as nat)
    }
}

/// The line recorded first for a header, if any.
pub open spec fn first_header(headers: Seq<(Seq<char>, nat)>, header: Seq<char>) -> Option<nat>
    decreases headers.len(),
{
    if headers.len() == 0 {
        None
    } else if headers[0].0 == header {
        Some(headers[0].1)
    } else {
        first_header(headers.drop_first(), header)
    }
}

/// The line recorded first for a key under a header, if any.
pub open spec fn first_key(keys: Seq<(Seq<char>, Seq<char>, nat)>, header: Seq<char>, key: Seq<char>) -> Option<nat>
    decreases keys.len(),
{
    if keys.len() == 0 {
        None
    } else if keys[0].0 == header && keys[0].1 == key {
        Some(keys[0].2)
    } else {
        first_key(keys.drop_first(), header, key)
    }
}

/// `needle` occurs in `hay` at position `i`.
pub open spec fn occurs_at(hay: Seq<char>, needle: Seq<char>, i: int) -> bool {
    0 <= i && i + needle.len() <= hay.len() && hay.subrange(i, i + needle.len()) == needle
}

/// `needle` occurs somewhere in `hay`.
pub open spec fn contains_text(hay: Seq<char>, needle: Seq<char>) -> bool {
    exists|i: int| occurs_at(hay, needle, i)
}

/// The position of the first line containing `needle`, if any.
pub open spec fn first_line_with(lines: Seq<Seq<char>>, needle: Seq<char>) -> Option<int>
    decreases lines.len(),
{
    if lines.len() == 0 {
        None
    } else if contains_text(lines[0], needle) {
        Some(0)
    } else {
        match first_line_with(lines.drop_first(), needle) {
            Some(i) => Some(i + 1),
            None => None,
        }
    }
}

} // verus!

verus! {

/// The lines TOML headers and keys are written on, and the lines themselves.
#[derive(Debug, Clone, PartialEq, Eq)]
pub struct TomlLines {
    /// Every header met, with its 1-based line, in order.
    pub headers: Vec<(String, usize)>,
    /// Every `(header, key)` met, with its 1-based line, in order.
    pub keys: Vec<(String, String, usize)>,
    /// The text's lines.
    pub lines: Vec<String>,
}

/// Where a TOML text's headers and keys are written, and its lines.
pub struct TomlPlaces {
    /// Every header met, with its line, in order.
    pub headers: Seq<(Seq<char>, nat)>,
    /// Every `(header, key)` met, with its line, in order.
    pub keys: Seq<(Seq<char>, Seq<char>, nat)>,
    /// The text's lines.
    pub lines: Seq<Seq<char>>,
}

impl TomlPlaces {
    /// The line a header is written on, or line 1 when it is not written.
    pub open spec fn header_line_of(self, header: Seq<char>) -> nat {
        match first_header(self.headers, header) {
            Some(n) => n,
            None => 1,
        }
    }

    /// The line a key is written on under a header, or the header's own line.
    pub open spec fn key_line_of(self, header: Seq<char>, key: Seq<char>) -> nat {
        match first_key(self.keys, header, key) {
            Some(n) => n,
            None => self.header_line_of(header),
        }
    }

    /// The first line containing `needle`, or the header's line.
    pub open spec fn text_line_of(self, needle: Seq<char>, header: Seq<char>) -> nat {
        match first_line_with(self.lines, needle) {
            Some(i) => (i + 1) as nat,
            None => self.header_line_of(header),
        }
    }
}

impl View for TomlLines {
    type V = TomlPlaces;

    open spec fn view(&self) -> TomlPlaces {
        TomlPlaces {
            headers: self.headers@.map_values(|r: (String, usize)| (r.0@, r.1 as nat)),
            keys: self.keys@.map_values(|r: (String, String, usize)| (r.0@, r.1@, r.2 as nat)),
            lines: self.lines@.map_values(|l: String| l@),
        }
    }
}

impl TomlLines {
    /// The line a header is written on, or line 1 when it is not written.
    pub fn header_line(&self, header: &str) -> (line: usize)
        ensures
            line == self@.header_line_of(header@),
    {
        let mut i: usize = 0;
        assert(self@.headers.skip(0) =~= self@.headers);
        while i < self.headers.len()
            invariant
                i <= self.headers.len(),
                first_header(self@.headers, header@)
                    == first_header(self@.headers.skip(i as int), header@),
            decreases self.headers.len() - i,
        {
            assert(self@.headers.skip(i as int)[0] == self@.headers[i as int]);
            if str_eq(self.headers[i].0.as_str(), header) {
                return self.headers[i].1;
            }
            assert(self@.headers.skip(i as int).drop_first() =~= self@.headers.skip(i + 1));
            i = i + 1;
        }
        1
    }

    /// The line a key is written on under a header, or the header's own line.
    pub fn key_line(&self, header: &str, key: &str) -> (line: usize)
        ensures
            line == self@.key_line_of(header@, key@),
    {
        let mut i: usize = 0;
        assert(self@.keys.skip(0) =~= self@.keys);
        while i < self.keys.len()
            invariant
                i <= self.keys.len(),
                first_key(self@.keys, header@, key@)
                    == first_key(self@.keys.skip(i as int), header@, key@),
            decreases self.keys.len() - i,
        {
            assert(self@.keys.skip(i as int)[0] == self@.keys[i as int]);
            if str_eq(self.keys[i].0.as_str(), header) && str_eq(self.keys[i].1.as_str(), key) {
                return self.keys[i].2;
            }
            assert(self@.keys.skip(i as int).drop_first() =~= self@.keys.skip(i + 1));
            i = i + 1;
        }
        self.header_line(header)
    }

    /// The first line containing `needle`, or the header's line.
    ///
    /// PEP 621 dependencies are array entries rather than keys, so they are located by their own
    /// text. An entry written twice resolves to the first occurrence.
    pub fn text_line(&self, needle: &str, header: &str) -> (line: usize)
        ensures
            line == self@.text_line_of(needle@, header@),
    {
        let n = chars_of(needle);
        let mut i: usize = 0;
        assert(self@.lines.skip(0) =~= self@.lines);
        while i < self.lines.len()
            invariant
                i <= self.lines.len(),
                n@ == needle@,
                match first_line_with(self@.lines, needle@) {
                    Some(k) => match first_line_with(self@.lines.skip(i as int), needle@) {
                        Some(j) => k == j + i,
                        None => false,
                    },
                    None => first_line_with(self@.lines.skip(i as int), needle@) is None,
                },
            decreases self.lines.len() - i,
        {
            assert(self@.lines.skip(i as int)[0] == self.lines@[i as int]@);
            let hay = chars_of(self.lines[i].as_str());
            if contains_chars(hay.as_slice(), n.as_slice()) {
                return i + 1;
            }
            assert(self@.lines.skip(i as int).drop_first() =~= self@.lines.skip(i + 1));
            i = i + 1;
        }
        self.header_line(header)
    }
}

/// Whether `needle` occurs in `hay`.
pub fn contains_chars(hay: &[char], needle: &[char]) -> (found: bool)
    ensures
        found == contains_text(hay@, needle@),
{
    if needle.len() > hay.len() {
        assert forall|i: int| !occurs_at(hay@, needle@, i) by {}
        return false;
    }
    if needle.len() == 0 {
        assert(hay@.subrange(0, 0) =~= needle@);
        assert(occurs_at(hay@, needle@, 0));
        return true;
    }
    let last = hay.len() - needle.len();
    let mut i: usize = 0;
    while i <= last
        invariant
            last == hay.len() - needle.len(),
            needle.len() > 0,
            i <= last + 1,
            forall|j: int| 0 <= j < i ==> !occurs_at(hay@, needle@, j),
        decreases last + 1 - i,
    {
        let window = &hay[i..i + needle.len()];
        assert(window@ =~= hay@.subrange(i as int, i + needle.len()));
        if chars_eq(window, needle) {
            assert(occurs_at(hay@, needle@, i as int));
            return true;
        }
        i = i + 1;
    }
    assert forall|j: int| !occurs_at(hay@, needle@, j) by {
        if occurs_at(hay@, needle@, j) {
            assert(0 <= j < i);
        }
    }
    false
}

} // verus!

verus! {

/// The lines of a text, as `str::lines` yields them.
pub fn split_lines(text: &str) -> (lines: Vec<Vec<char>>)
    ensures
        crate::order::key_views(lines@) == text_lines(text@),
{
    let t = chars_of(text);
    let ps = split_chars(t.as_slice(), '\n');
    let ghost pv = pieces(t@, '\n');
    proof {
        crate::text::lemma_pieces_len(t@, '\n');
    }
    let mut lines: Vec<Vec<char>> = Vec::new();
    let mut i: usize = 0;
    while i + 1 < ps.len()
        invariant
            crate::order::key_views(ps@) == pv,
            pv == pieces(t@, '\n'),
            pv.len() >= 1,
            i + 1 <= ps.len(),
            crate::order::key_views(lines@)
                =~= pv.take(i as int).map_values(|p: Seq<char>| without_cr(p)),
        decreases ps.len() - i,
    {
        let p = &ps[i];
        assert(p@ == pv[i as int]);
        let line = if p.len() > 0 && p[p.len() - 1] == '\r' {
            let head = &p.as_slice()[0..p.len() - 1];
            assert(head@ =~= p@.drop_last());
            slice_to_vec(head)
        } else {
            slice_to_vec(p.as_slice())
        };
        proof {
            crate::order::lemma_key_views_push(lines@, line);
        }
        lines.push(line);
        assert(pv.take(i + 1).map_values(|p: Seq<char>| without_cr(p))
            =~= pv.take(i as int).map_values(|p: Seq<char>| without_cr(p)).push(without_cr(pv[i as int])));
        i = i + 1;
    }
    let last = &ps[ps.len() - 1];
    assert(last@ == pv.last());
    if last.len() > 0 {
        let copy = slice_to_vec(last.as_slice());
        proof {
            crate::order::lemma_key_views_push(lines@, copy);
        }
        lines.push(copy);
    }
    lines
}

} // verus!

verus! {

/// What the scan of a whole TOML text records.
pub open spec fn toml_scan_of(text: Seq<char>) -> TomlScan {
    toml_run(text_lines(text), text_lines(text).len() as int)
}

/// Where a whole TOML text's headers and keys are written, and its lines.
pub open spec fn toml_places(text: Seq<char>) -> TomlPlaces {
    TomlPlaces {
        headers: toml_scan_of(text).headers,
        keys: toml_scan_of(text).keys,
        lines: text_lines(text),
    }
}

/// The line each TOML header and key is written on: a header is any line that begins with `[`
/// once trimmed, and a key is the text before the first `=` of any other line under a header
/// that is not a comment. Both keep the first line they were met on.
pub fn toml_lines(text: &str) -> (out: TomlLines)
    ensures
        out@ == toml_places(text@),
{
    let raw = split_lines(text);
    let ghost lines = text_lines(text@);
    let mut headers: Vec<(String, usize)> = Vec::new();
    let mut keys: Vec<(String, String, usize)> = Vec::new();
    let mut texts: Vec<String> = Vec::new();
    let mut current: Vec<char> = Vec::new();
    let mut i: usize = 0;
    while i < raw.len()
        invariant
            crate::order::key_views(raw@) == lines,
            i <= raw.len(),
            current@ == toml_run(lines, i as int).current,
            headers@.map_values(|r: (String, usize)| (r.0@, r.1 as nat)) == toml_run(lines, i as int).headers,
            keys@.map_values(|r: (String, String, usize)| (r.0@, r.1@, r.2 as nat)) == toml_run(lines, i as int).keys,
            texts@.map_values(|l: String| l@) == lines.take(i as int),
        decreases raw.len() - i,
    {
        let line = &raw[i];
        assert(line@ == lines[i as int]);
        let number: usize = i + 1;
        let ghost before = toml_run(lines, i as int);
        let ghost after = toml_step(before, lines[i as int], number as nat);
        assert(toml_run(lines, i + 1) == after);
        let t = trim_chars(line.as_slice());
        let ghost old_headers = headers@.map_values(|r: (String, usize)| (r.0@, r.1 as nat));
        let ghost old_keys = keys@.map_values(|r: (String, String, usize)| (r.0@, r.1@, r.2 as nat));
        if t.len() > 0 && t[0] == '[' {
            let stripped = strip_leading_chars(t.as_slice(), '[');
            let head = up_to_char(stripped.as_slice(), ']');
            let inner_trimmed = trim_chars(head.as_slice());
            let inner = without_char(inner_trimmed.as_slice(), '"');
            headers.push((string_of(inner.as_slice()), number));
            assert(headers@.map_values(|r: (String, usize)| (r.0@, r.1 as nat))
                =~= old_headers.push((inner@, number as nat)));
            current = inner;
        } else if current.len() > 0 && !(t.len() > 0 && t[0] == '#') {
            if let Some(k) = find_char(t.as_slice(), '=') {
                let before_eq = &t.as_slice()[0..k];
                assert(before_eq@ =~= t@.take(k as int));
                let key_trimmed = trim_chars(before_eq);
                let key_front = strip_leading_chars(key_trimmed.as_slice(), '"');
                let key = strip_trailing_chars(key_front.as_slice(), '"');
                if key.len() > 0 {
                    keys.push((string_of(current.as_slice()), string_of(key.as_slice()), number));
                    assert(keys@.map_values(|r: (String, String, usize)| (r.0@, r.1@, r.2 as nat))
                        =~= old_keys.push((current@, key@, number as nat)));
                }
            }
        }
        let ghost old_texts = texts@.map_values(|l: String| l@);
        texts.push(string_of(line.as_slice()));
        assert(texts@.map_values(|l: String| l@) =~= old_texts.push(lines[i as int]));
        assert(lines.take(i as int).push(lines[i as int]) =~= lines.take(i + 1));
        i = i + 1;
    }
    assert(lines.take(raw.len() as int) =~= lines);
    TomlLines { headers, keys, lines: texts }
}

} // verus!
