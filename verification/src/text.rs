//! Character-level helpers shared by every reader in this crate.
use vstd::prelude::*;
use vstd::string::StringSliceAdditionalSpecFns;
use vstd::slice::slice_to_vec;

verus! {

/// The characters of `s`, in order.
pub fn chars_of(s: &str) -> (out: Vec<char>)
    ensures
        out@ == s@,
{
    let mut out: Vec<char> = Vec::new();
    for c in it: s.chars()
        invariant
            out@ == it.seq().take(it.index() as int),
            it.seq() == s@,
    {
        out.push(c);
    }
    out
}

/// Calls `String::push`. Its documentation says it appends the character to the end of the
/// string, which is all this claims.
#[verifier::external_body]
pub(crate) fn push_char(s: &mut String, c: char)
    ensures
        final(s)@ == old(s)@.push(c),
{
    s.push(c);
}

/// A string holding exactly the characters of `chars`.
pub fn string_of(chars: &[char]) -> (out: String)
    ensures
        out@ == chars@,
{
    let mut out = String::new();
    let mut i: usize = 0;
    while i < chars.len()
        invariant
            i <= chars.len(),
            out@ == chars@.take(i as int),
        decreases chars.len() - i,
    {
        push_char(&mut out, chars[i]);
        assert(chars@.take(i as int).push(chars@[i as int]) =~= chars@.take(i + 1));
        i = i + 1;
    }
    assert(chars@.take(chars.len() as int) =~= chars@);
    out
}

} // verus!

verus! {

/// Whether two strings hold the same characters.
pub fn str_eq(a: &str, b: &str) -> (same: bool)
    ensures
        same == (a@ == b@),
{
    let x = chars_of(a);
    let y = chars_of(b);
    chars_eq(x.as_slice(), y.as_slice())
}

/// Whether two character slices are equal.
pub fn chars_eq(a: &[char], b: &[char]) -> (same: bool)
    ensures
        same == (a@ == b@),
{
    if a.len() != b.len() {
        return false;
    }
    let mut i: usize = 0;
    while i < a.len()
        invariant
            i <= a.len(),
            a.len() == b.len(),
            forall|j: int| 0 <= j < i ==> a@[j] == b@[j],
        decreases a.len() - i,
    {
        if a[i] != b[i] {
            return false;
        }
        i = i + 1;
    }
    assert(a@ =~= b@);
    true
}

} // verus!

verus! {

/// Append every character of `tail` to `s`.
pub fn push_str(s: &mut String, tail: &str)
    ensures
        final(s)@ == old(s)@ + tail@,
{
    s.append(tail);
}

/// An owned copy of `s`.
pub fn string_of_str(s: &str) -> (out: String)
    ensures
        out@ == s@,
{
    s.to_owned()
}

} // verus!

verus! {

/// The character of a decimal digit.
pub open spec fn digit_char(d: nat) -> char {
    (d + 48) as char
}

/// The decimal rendering of `n`, most significant digit first, with no leading zeros.
pub open spec fn decimal(n: nat) -> Seq<char>
    decreases n,
{
    if n < 10 {
        seq![digit_char(n)]
    } else {
        decimal(n / 10).push(digit_char(n % 10))
    }
}

fn digit(d: u64) -> (c: char)
    requires
        d < 10,
    ensures
        c == digit_char(d as nat),
{
    match d {
        0 => '0',
        1 => '1',
        2 => '2',
        3 => '3',
        4 => '4',
        5 => '5',
        6 => '6',
        7 => '7',
        8 => '8',
        _ => '9',
    }
}

/// Append the decimal rendering of `n` to `out`.
pub fn push_decimal(out: &mut Vec<char>, n: u64)
    ensures
        final(out)@ == old(out)@ + decimal(n as nat),
    decreases n,
{
    if n >= 10 {
        push_decimal(out, n / 10);
    }
    let ghost before = out@;
    out.push(digit(n % 10));
    proof {
        if n < 10 {
            assert(out@ =~= old(out)@ + decimal(n as nat));
        } else {
            assert(out@ =~= old(out)@ + decimal(n as nat));
        }
    }
}

/// The decimal rendering of `n`, as a string.
pub fn decimal_string(n: u64) -> (text: String)
    ensures
        text@ == decimal(n as nat),
{
    let mut chars: Vec<char> = Vec::new();
    push_decimal(&mut chars, n);
    assert(chars@ =~= decimal(n as nat));
    string_of(chars.as_slice())
}

/// An ASCII decimal digit.
pub open spec fn is_digit(c: char) -> bool {
    '0' <= c && c <= '9'
}

/// The value of an ASCII decimal digit.
pub open spec fn digit_value(c: char) -> nat {
    (c as int - 48) as nat
}

/// Every character is an ASCII decimal digit.
pub open spec fn all_digits(s: Seq<char>) -> bool {
    forall|i: int| 0 <= i < s.len() ==> is_digit(#[trigger] s[i])
}

/// The value a run of decimal digits denotes.
pub open spec fn digits_value(s: Seq<char>) -> nat
    decreases s.len(),
{
    if s.len() == 0 {
        0
    } else {
        digits_value(s.drop_last()) * 10 + digit_value(s.last())
    }
}

/// The digits of an unsigned number as written: one leading `+` is permitted.
pub open spec fn unsigned_body(s: Seq<char>) -> Seq<char> {
    if s.len() > 0 && s[0] == '+' {
        s.drop_first()
    } else {
        s
    }
}

/// How an unsigned integer type no larger than `max` reads `s`: an optional `+`, then one or
/// more ASCII digits whose value does not exceed `max`.
pub open spec fn parse_unsigned(s: Seq<char>, max: nat) -> Option<nat> {
    let body = unsigned_body(s);
    if body.len() > 0 && all_digits(body) && digits_value(body) <= max {
        Some(digits_value(body))
    } else {
        None
    }
}

/// Appending digits never makes a number smaller.
pub proof fn lemma_digits_value_grows(s: Seq<char>, n: int)
    requires
        0 <= n <= s.len(),
    ensures
        digits_value(s.take(n)) <= digits_value(s),
    decreases s.len() - n,
{
    if n < s.len() {
        lemma_digits_value_grows(s, n + 1);
        assert(s.take(n + 1).drop_last() =~= s.take(n));
    } else {
        assert(s.take(n) =~= s);
    }
}

/// Read an unsigned number no larger than `max`, the way the standard library's unsigned
/// `from_str` does.
pub fn parse_unsigned_chars(s: &[char], max: u64) -> (value: Option<u64>)
    ensures
        match value {
            Some(v) => parse_unsigned(s@, max as nat) == Some(v as nat),
            None => parse_unsigned(s@, max as nat) is None,
        },
{
    let start: usize = if s.len() > 0 && s[0] == '+' { 1 } else { 0 };
    let ghost body = unsigned_body(s@);
    assert(body =~= s@.skip(start as int));
    if start == s.len() {
        return None;
    }
    let mut v: u64 = 0;
    let mut i: usize = start;
    while i < s.len()
        invariant
            start <= i <= s.len(),
            start < s.len(),
            body == s@.skip(start as int),
            body == unsigned_body(s@),
            v as nat == digits_value(body.take(i - start)),
            v <= max,
            all_digits(body.take(i - start)),
        decreases s.len() - i,
    {
        let c = s[i];
        assert(body[i - start] == c);
        assert(body.take(i - start + 1).drop_last() =~= body.take(i - start));
        if !('0' <= c && c <= '9') {
            assert(!is_digit(body[i - start]));
            return None;
        }
        let d = (c as u64) - 48;
        if v > max / 10 || (v == max / 10 && d > max % 10) {
            proof {
                assert(digits_value(body.take(i - start + 1)) == v * 10 + d);
                assert(v * 10 + d > max) by (nonlinear_arith)
                    requires
                        v > max / 10 || (v == max / 10 && d > max % 10),
                        max == 10 * (max / 10) + max % 10;
                lemma_digits_value_grows(body, i - start + 1);
            }
            return None;
        }
        proof {
            assert(v * 10 + d <= max) by (nonlinear_arith)
                requires
                    v <= max / 10,
                    v < max / 10 || d <= max % 10,
                    max == 10 * (max / 10) + max % 10,
                    d < 10,
                    max % 10 < 10;
        }
        v = v * 10 + d;
        proof {
            assert forall|k: int| 0 <= k < i - start + 1 implies is_digit(#[trigger] body.take(i - start + 1)[k]) by {
                if k < i - start {
                    assert(body.take(i - start + 1)[k] == body.take(i - start)[k]);
                }
            }
        }
        i = i + 1;
    }
    assert(body.take(i - start) =~= body);
    Some(v)
}

} // verus!

verus! {

/// Append every character of `tail` to `out`.
pub fn extend_chars(out: &mut Vec<char>, tail: &[char])
    ensures
        final(out)@ == old(out)@ + tail@,
{
    let mut i: usize = 0;
    while i < tail.len()
        invariant
            i <= tail.len(),
            out@ == old(out)@ + tail@.take(i as int),
        decreases tail.len() - i,
    {
        out.push(tail[i]);
        assert(tail@.take(i as int).push(tail@[i as int]) =~= tail@.take(i + 1));
        i = i + 1;
    }
    assert(tail@.take(tail.len() as int) =~= tail@);
}

/// Append every character of `tail` to `out`.
pub fn extend_str(out: &mut Vec<char>, tail: &str)
    ensures
        final(out)@ == old(out)@ + tail@,
{
    let chars = chars_of(tail);
    extend_chars(out, chars.as_slice());
}

} // verus!

verus! {

/// A decimal rendering holds digits only, and reads back as the number it renders.
pub proof fn lemma_decimal_reads_back(n: nat)
    ensures
        all_digits(decimal(n)),
        decimal(n).len() > 0,
        digits_value(decimal(n)) == n,
    decreases n,
{
    let d = decimal(n);
    if n < 10 {
        assert(d.drop_last() =~= Seq::<char>::empty());
        assert(digits_value(d.drop_last()) == 0);
        assert(digit_value(digit_char(n)) == n);
        assert(digits_value(d) == digits_value(d.drop_last()) * 10 + digit_value(d.last()));
    } else {
        lemma_decimal_reads_back(n / 10);
        assert(d.drop_last() =~= decimal(n / 10));
        assert(d.last() == digit_char(n % 10));
        assert(digit_value(digit_char(n % 10)) == n % 10);
        assert(digits_value(d) == digits_value(d.drop_last()) * 10 + digit_value(d.last()));
        assert(digits_value(d) == (n / 10) * 10 + n % 10);
        assert(n == (n / 10) * 10 + n % 10);
        assert forall|i: int| 0 <= i < d.len() implies is_digit(#[trigger] d[i]) by {
            if i < d.len() - 1 {
                assert(d[i] == decimal(n / 10)[i]);
            }
        }
    }
}

/// Two numbers with the same decimal rendering are equal.
pub proof fn lemma_decimal_injective(a: nat, b: nat)
    ensures
        decimal(a) == decimal(b) ==> a == b,
{
    lemma_decimal_reads_back(a);
    lemma_decimal_reads_back(b);
}

} // verus!

verus! {

/// The pieces of `s` between occurrences of `sep`, in order: one more piece than there are
/// separators, each possibly empty.
pub open spec fn pieces<T>(s: Seq<T>, sep: T) -> Seq<Seq<T>>
    decreases s.len(),
{
    if s.len() == 0 {
        seq![Seq::empty()]
    } else if s.last() == sep {
        pieces(s.drop_last(), sep).push(Seq::empty())
    } else {
        let p = pieces(s.drop_last(), sep);
        p.update(p.len() - 1, p.last().push(s.last()))
    }
}

/// There is always at least one piece, and never more than one per element plus one.
pub proof fn lemma_pieces_len<T>(s: Seq<T>, sep: T)
    ensures
        1 <= pieces(s, sep).len() <= s.len() + 1,
    decreases s.len(),
{
    if s.len() > 0 {
        lemma_pieces_len(s.drop_last(), sep);
    }
}

/// The pieces of `t` between commas, or any other separator character.
pub fn split_chars(t: &[char], sep: char) -> (out: Vec<Vec<char>>)
    ensures
        crate::order::key_views(out@) == pieces(t@, sep),
{
    let mut out: Vec<Vec<char>> = Vec::new();
    let mut cur: Vec<char> = Vec::new();
    let mut i: usize = 0;
    while i < t.len()
        invariant
            i <= t.len(),
            crate::order::key_views(out@).push(cur@) == pieces(t@.take(i as int), sep),
        decreases t.len() - i,
    {
        let c = t[i];
        let ghost before = pieces(t@.take(i as int), sep);
        assert(t@.take(i + 1).drop_last() =~= t@.take(i as int));
        if c == sep {
            proof {
                crate::order::lemma_key_views_push(out@, cur);
            }
            out.push(cur);
            cur = Vec::new();
            assert(crate::order::key_views(out@).push(cur@) =~= before.push(Seq::empty()));
        } else {
            proof {
                lemma_pieces_len(t@.take(i as int), sep);
            }
            cur.push(c);
            assert(crate::order::key_views(out@).push(cur@) =~= before.update(
                before.len() - 1,
                before.last().push(c),
            ));
        }
        i = i + 1;
    }
    assert(t@.take(t.len() as int) =~= t@);
    proof {
        crate::order::lemma_key_views_push(out@, cur);
    }
    out.push(cur);
    out
}

/// `i` is the first position of `c` in `t`.
pub open spec fn is_first_at(t: Seq<char>, c: char, i: int) -> bool {
    &&& 0 <= i < t.len()
    &&& t[i] == c
    &&& forall|j: int| 0 <= j < i ==> t[j] != c
}

/// The first position of `c` in `t`, if it occurs.
pub open spec fn first_index(t: Seq<char>, c: char) -> Option<int> {
    if exists|i: int| is_first_at(t, c, i) {
        Some(choose|i: int| is_first_at(t, c, i))
    } else {
        None
    }
}

/// Find the first position of `c` in `t`.
pub fn find_char(t: &[char], c: char) -> (found: Option<usize>)
    ensures
        match found {
            Some(i) => first_index(t@, c) == Some(i as int) && is_first_at(t@, c, i as int),
            None => first_index(t@, c) is None && forall|j: int| 0 <= j < t@.len() ==> t@[j] != c,
        },
{
    let mut i: usize = 0;
    while i < t.len()
        invariant
            i <= t.len(),
            forall|j: int| 0 <= j < i ==> t@[j] != c,
        decreases t.len() - i,
    {
        if t[i] == c {
            proof {
                assert(is_first_at(t@, c, i as int));
                let k = choose|k: int| is_first_at(t@, c, k);
                if k < i {
                    assert(t@[k] != c);
                } else if k > i {
                    assert(t@[i as int] != c);
                }
            }
            return Some(i);
        }
        i = i + 1;
    }
    None
}

} // verus!

verus! {

/// `i` is the last position of `c` in `t`.
pub open spec fn is_last_at(t: Seq<char>, c: char, i: int) -> bool {
    &&& 0 <= i < t.len()
    &&& t[i] == c
    &&& forall|j: int| i < j < t.len() ==> t[j] != c
}

/// The last position of `c` in `t`, if it occurs.
pub open spec fn last_index(t: Seq<char>, c: char) -> Option<int> {
    if exists|i: int| is_last_at(t, c, i) {
        Some(choose|i: int| is_last_at(t, c, i))
    } else {
        None
    }
}

/// Find the last position of `c` in `t`.
pub fn find_last_char(t: &[char], c: char) -> (found: Option<usize>)
    ensures
        match found {
            Some(i) => last_index(t@, c) == Some(i as int) && is_last_at(t@, c, i as int),
            None => last_index(t@, c) is None && forall|j: int| 0 <= j < t@.len() ==> t@[j] != c,
        },
{
    let mut i: usize = t.len();
    while i > 0
        invariant
            i <= t.len(),
            forall|j: int| i <= j < t@.len() ==> t@[j] != c,
        decreases i,
    {
        if t[i - 1] == c {
            proof {
                assert(is_last_at(t@, c, i - 1));
                let k = choose|k: int| is_last_at(t@, c, k);
                if k < i - 1 {
                    assert(t@[i - 1] != c);
                } else if k > i - 1 {
                    assert(t@[k] != c);
                }
            }
            return Some(i - 1);
        }
        i = i - 1;
    }
    None
}

/// `parts` joined with `sep` between consecutive parts.
pub open spec fn join_with(parts: Seq<Seq<char>>, sep: char) -> Seq<char>
    decreases parts.len(),
{
    if parts.len() == 0 {
        Seq::empty()
    } else if parts.len() == 1 {
        parts[0]
    } else {
        join_with(parts.drop_last(), sep) + seq![sep] + parts.last()
    }
}

/// `parts` joined with `sep` between consecutive parts.
pub fn join_chars(parts: &Vec<Vec<char>>, sep: char) -> (out: Vec<char>)
    ensures
        out@ == join_with(crate::order::key_views(parts@), sep),
{
    let mut out: Vec<char> = Vec::new();
    let mut i: usize = 0;
    while i < parts.len()
        invariant
            i <= parts.len(),
            out@ == join_with(crate::order::key_views(parts@).take(i as int), sep),
        decreases parts.len() - i,
    {
        let ghost before = crate::order::key_views(parts@).take(i as int);
        if i > 0 {
            out.push(sep);
        }
        extend_chars(&mut out, parts[i].as_slice());
        proof {
            let after = crate::order::key_views(parts@).take(i + 1);
            assert(after.drop_last() =~= before);
            assert(after.last() == parts@[i as int]@);
            assert(out@ =~= join_with(after, sep));
        }
        i = i + 1;
    }
    assert(crate::order::key_views(parts@).take(parts.len() as int) =~= crate::order::key_views(parts@));
    out
}

} // verus!

verus! {

/// Calls `std::str::from_utf8`. Its documentation says it returns the same bytes as a string
/// slice when they are UTF-8, and an error when they are not.
#[verifier::external_body]
pub(crate) fn utf8_text(bytes: &[u8]) -> (text: Option<&str>)
    ensures
        match text {
            Some(s) => s.spec_bytes() == bytes@,
            None => !vstd::utf8::valid_utf8(bytes@),
        },
{
    std::str::from_utf8(bytes).ok()
}

} // verus!

verus! {

/// `t` begins with `prefix`.
pub open spec fn has_prefix(t: Seq<char>, prefix: Seq<char>) -> bool {
    prefix.len() <= t.len() && t.take(prefix.len() as int) == prefix
}

/// `t` ends with `suffix`.
pub open spec fn has_suffix(t: Seq<char>, suffix: Seq<char>) -> bool {
    suffix.len() <= t.len() && t.skip(t.len() - suffix.len()) == suffix
}

/// The text after a prefix.
pub open spec fn after(t: Seq<char>, prefix: Seq<char>) -> Seq<char> {
    t.skip(prefix.len() as int)
}

/// Whether `t` begins with `prefix`.
pub fn starts_with(t: &[char], prefix: &str) -> (b: bool)
    ensures
        b == has_prefix(t@, prefix@),
{
    let p = chars_of(prefix);
    if p.len() > t.len() {
        return false;
    }
    let head = &t[0..p.len()];
    assert(head@ =~= t@.take(p@.len() as int));
    chars_eq(head, p.as_slice())
}

/// Whether `t` ends with `suffix`.
pub fn ends_with(t: &[char], suffix: &[char]) -> (b: bool)
    ensures
        b == has_suffix(t@, suffix@),
{
    if suffix.len() > t.len() {
        return false;
    }
    let tail = &t[t.len() - suffix.len()..t.len()];
    assert(tail@ =~= t@.skip(t@.len() - suffix@.len()));
    chars_eq(tail, suffix)
}

/// The text after `prefix`, which `t` begins with.
pub fn after_prefix<'a>(t: &'a [char], prefix: &str) -> (rest: &'a [char])
    requires
        has_prefix(t@, prefix@),
    ensures
        rest@ == after(t@, prefix@),
{
    let p = chars_of(prefix);
    let n = t.len();
    let rest = &t[p.len()..n];
    assert(rest@ =~= t@.skip(p@.len() as int));
    rest
}

/// `c` occurs somewhere in `t`.
pub fn contains_char(t: &[char], c: char) -> (found: bool)
    ensures
        found == t@.contains(c),
{
    let mut i: usize = 0;
    while i < t.len()
        invariant
            i <= t.len(),
            forall|j: int| 0 <= j < i ==> t@[j] != c,
        decreases t.len() - i,
    {
        if t[i] == c {
            assert(t@[i as int] == c);
            return true;
        }
        i = i + 1;
    }
    false
}

/// A character with the Unicode `White_Space` property: the characters `char::is_whitespace`
/// accepts, and so the ones `str::trim` removes.
pub open spec fn is_white_space(c: char) -> bool {
    ||| ('\u{9}' <= c && c <= '\u{d}')
    ||| c == ' '
    ||| c == '\u{85}'
    ||| c == '\u{a0}'
    ||| c == '\u{1680}'
    ||| ('\u{2000}' <= c && c <= '\u{200a}')
    ||| c == '\u{2028}'
    ||| c == '\u{2029}'
    ||| c == '\u{202f}'
    ||| c == '\u{205f}'
    ||| c == '\u{3000}'
}

/// Whether `c` has the Unicode `White_Space` property.
pub fn white_space(c: char) -> (w: bool)
    ensures
        w == is_white_space(c),
{
    ('\u{9}' <= c && c <= '\u{d}') || c == ' ' || c == '\u{85}' || c == '\u{a0}' || c == '\u{1680}'
        || ('\u{2000}' <= c && c <= '\u{200a}') || c == '\u{2028}' || c == '\u{2029}'
        || c == '\u{202f}' || c == '\u{205f}' || c == '\u{3000}'
}

/// `t` with leading white space removed.
pub open spec fn trim_start(t: Seq<char>) -> Seq<char>
    decreases t.len(),
{
    if t.len() > 0 && is_white_space(t[0]) {
        trim_start(t.drop_first())
    } else {
        t
    }
}

/// `t` with trailing white space removed.
pub open spec fn trim_end(t: Seq<char>) -> Seq<char>
    decreases t.len(),
{
    if t.len() > 0 && is_white_space(t.last()) {
        trim_end(t.drop_last())
    } else {
        t
    }
}

/// `t` with white space removed from both ends, as `str::trim` does.
pub open spec fn trimmed(t: Seq<char>) -> Seq<char> {
    trim_end(trim_start(t))
}

/// `t` with white space removed from both ends.
pub fn trim_chars(t: &[char]) -> (out: Vec<char>)
    ensures
        out@ == trimmed(t@),
{
    let mut start: usize = 0;
    assert(t@.skip(0) =~= t@);
    while start < t.len() && white_space(t[start])
        invariant
            start <= t.len(),
            trim_start(t@) == trim_start(t@.skip(start as int)),
        decreases t.len() - start,
    {
        assert(t@.skip(start as int).drop_first() =~= t@.skip(start + 1));
        start = start + 1;
    }
    let mut end: usize = t.len();
    let ghost rest = t@.skip(start as int);
    assert(trim_start(rest) == rest);
    while end > start && white_space(t[end - 1])
        invariant
            start <= end <= t.len(),
            rest == t@.skip(start as int),
            trim_end(rest) == trim_end(t@.subrange(start as int, end as int)),
        decreases end,
    {
        assert(t@.subrange(start as int, end as int).drop_last()
            =~= t@.subrange(start as int, end - 1));
        end = end - 1;
    }
    assert(rest =~= t@.subrange(start as int, t.len() as int));
    let mut out: Vec<char> = Vec::new();
    let mut i: usize = start;
    while i < end
        invariant
            start <= i <= end <= t.len(),
            out@ == t@.subrange(start as int, i as int),
        decreases end - i,
    {
        out.push(t[i]);
        assert(t@.subrange(start as int, i as int).push(t@[i as int])
            =~= t@.subrange(start as int, i + 1));
        i = i + 1;
    }
    out
}

} // verus!

verus! {

/// `t` with every leading `c` removed.
pub open spec fn strip_leading(t: Seq<char>, c: char) -> Seq<char>
    decreases t.len(),
{
    if t.len() > 0 && t[0] == c {
        strip_leading(t.drop_first(), c)
    } else {
        t
    }
}

/// `t` with every trailing `c` removed.
pub open spec fn strip_trailing(t: Seq<char>, c: char) -> Seq<char>
    decreases t.len(),
{
    if t.len() > 0 && t.last() == c {
        strip_trailing(t.drop_last(), c)
    } else {
        t
    }
}

/// `t` up to its first `c`, or all of it.
pub open spec fn up_to(t: Seq<char>, c: char) -> Seq<char> {
    match first_index(t, c) {
        Some(k) => t.take(k),
        None => t,
    }
}

/// `t` with every `c` removed.
pub open spec fn without(t: Seq<char>, c: char) -> Seq<char>
    decreases t.len(),
{
    if t.len() == 0 {
        t
    } else if t.last() == c {
        without(t.drop_last(), c)
    } else {
        without(t.drop_last(), c).push(t.last())
    }
}

/// `t` with every leading `c` removed.
pub fn strip_leading_chars(t: &[char], c: char) -> (out: Vec<char>)
    ensures
        out@ == strip_leading(t@, c),
{
    let mut i: usize = 0;
    assert(t@.skip(0) =~= t@);
    while i < t.len() && t[i] == c
        invariant
            i <= t.len(),
            strip_leading(t@, c) == strip_leading(t@.skip(i as int), c),
        decreases t.len() - i,
    {
        assert(t@.skip(i as int).drop_first() =~= t@.skip(i + 1));
        i = i + 1;
    }
    assert(strip_leading(t@.skip(i as int), c) == t@.skip(i as int));
    let tail = &t[i..t.len()];
    assert(tail@ =~= t@.skip(i as int));
    slice_to_vec(tail)
}

/// `t` with every trailing `c` removed.
pub fn strip_trailing_chars(t: &[char], c: char) -> (out: Vec<char>)
    ensures
        out@ == strip_trailing(t@, c),
{
    let mut end: usize = t.len();
    assert(t@.take(end as int) =~= t@);
    while end > 0 && t[end - 1] == c
        invariant
            end <= t.len(),
            strip_trailing(t@, c) == strip_trailing(t@.take(end as int), c),
        decreases end,
    {
        assert(t@.take(end as int).drop_last() =~= t@.take(end - 1));
        end = end - 1;
    }
    assert(strip_trailing(t@.take(end as int), c) == t@.take(end as int));
    let head = &t[0..end];
    assert(head@ =~= t@.take(end as int));
    slice_to_vec(head)
}

/// `t` up to its first `c`, or all of it.
pub fn up_to_char(t: &[char], c: char) -> (out: Vec<char>)
    ensures
        out@ == up_to(t@, c),
{
    let end = match find_char(t, c) {
        Some(k) => k,
        None => t.len(),
    };
    let head = &t[0..end];
    assert(head@ =~= up_to(t@, c));
    slice_to_vec(head)
}

/// `t` with every `c` removed.
pub fn without_char(t: &[char], c: char) -> (out: Vec<char>)
    ensures
        out@ == without(t@, c),
{
    let mut out: Vec<char> = Vec::new();
    let mut i: usize = 0;
    assert(t@.take(0) =~= Seq::<char>::empty());
    while i < t.len()
        invariant
            i <= t.len(),
            out@ == without(t@.take(i as int), c),
        decreases t.len() - i,
    {
        assert(t@.take(i + 1).drop_last() =~= t@.take(i as int));
        assert(t@.take(i + 1).last() == t@[i as int]);
        if t[i] != c {
            out.push(t[i]);
        }
        i = i + 1;
    }
    assert(t@.take(t.len() as int) =~= t@);
    out
}

} // verus!

verus! {

/// `t` with leading white space removed.
pub fn trim_start_chars(t: &[char]) -> (out: Vec<char>)
    ensures
        out@ == trim_start(t@),
{
    let mut start: usize = 0;
    assert(t@.skip(0) =~= t@);
    while start < t.len() && white_space(t[start])
        invariant
            start <= t.len(),
            trim_start(t@) == trim_start(t@.skip(start as int)),
        decreases t.len() - start,
    {
        assert(t@.skip(start as int).drop_first() =~= t@.skip(start + 1));
        start = start + 1;
    }
    assert(trim_start(t@.skip(start as int)) == t@.skip(start as int));
    let tail = &t[start..t.len()];
    assert(tail@ =~= t@.skip(start as int));
    slice_to_vec(tail)
}

} // verus!
