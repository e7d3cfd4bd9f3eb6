//! What an LCOV report says: the reader as a state machine over the report's lines, and what the
//! finished report must hold.
use vstd::prelude::*;
use vstd::utf8::{decode_utf8, valid_utf8};
use crate::order::text_lt;
use crate::text::{after, first_index, has_prefix, parse_unsigned, pieces};
use super::{FileCoverage, LineHit, MAX_LINES_PER_RECORD, MAX_RECORDS, MAX_REPORT_BYTES};
use super::form::{
    AT_DUPLICATE_LINE, AT_DUPLICATE_SOURCE_FILE, AT_HIT_COUNT_UNPARSED, AT_INVALID_UTF8_LINE,
    AT_LINE_NUMBER_UNPARSED, AT_LINES_EXCEEDED, AT_MALFORMED_RECORD,
    AT_RECORD_WITHOUT_SOURCE_FILE, AT_RECORDS_EXCEEDED, AT_REPEATED_SOURCE_FILE_IN_RECORD,
    AT_REPORT_TOO_LARGE, AT_SOURCE_FILE_PATH_EMPTY, AT_TEST_NAME_PRESENT, AT_UNKNOWN_RECORD,
    AT_UNTERMINATED_RECORD,
};

verus! {

/// The reader's state between two lines of a report.
pub struct LcovState {
    /// Refusals so far, one count per form tag.
    pub counts: Seq<nat>,
    /// The `SF:` of the open record, if it named one.
    pub path: Option<Seq<char>>,
    /// The `DA:` lines of the open record.
    pub lines: Map<u64, u64>,
    /// Whether any non-blank line was seen since the last `end_of_record`.
    pub dirty: bool,
    /// The records accepted so far, in the order they closed.
    pub records: Seq<(Seq<char>, Map<u64, u64>)>,
}

/// The state before the first line.
pub open spec fn initial_state() -> LcovState {
    LcovState {
        counts: Seq::new(15, |i: int| 0nat),
        path: None,
        lines: Map::empty(),
        dirty: false,
        records: Seq::empty(),
    }
}

/// `st` with the count at `k` raised by one.
pub open spec fn bump(st: LcovState, k: int) -> LcovState {
    LcovState { counts: st.counts.update(k, st.counts[k] + 1), ..st }
}

/// A decimal `u64`, as the standard library reads one.
pub open spec fn u64_value(t: Seq<char>) -> Option<nat> {
    parse_unsigned(t, u64::MAX as nat)
}

/// A 1-based line number: a decimal `u64` that is not zero.
pub open spec fn line_number(t: Seq<char>) -> Option<nat> {
    match u64_value(t) {
        Some(v) => if v >= 1 {
            Some(v)
        } else {
            None
        },
        None => None,
    }
}

/// The first two comma-separated fields of a `DA:` value, if it has a comma at all.
pub open spec fn da_fields(v: Seq<char>) -> Option<(Seq<char>, Seq<char>)> {
    match first_index(v, ',') {
        None => None,
        Some(k) => {
            let rest = v.skip(k + 1);
            Some(
                (
                    v.take(k),
                    match first_index(rest, ',') {
                        Some(k2) => rest.take(k2),
                        None => rest,
                    },
                ),
            )
        },
    }
}

/// Read a `DA:<line>,<count>[,<checksum>]` value into the open record.
pub open spec fn step_da(st: LcovState, v: Seq<char>) -> LcovState {
    match da_fields(v) {
        None => bump(st, AT_MALFORMED_RECORD as int),
        Some((raw_line, raw_hits)) => match line_number(raw_line) {
            None => bump(st, AT_LINE_NUMBER_UNPARSED as int),
            Some(n) => match u64_value(raw_hits) {
                None => bump(st, AT_HIT_COUNT_UNPARSED as int),
                Some(h) => {
                    let line = n as u64;
                    let hits = h as u64;
                    if st.lines.contains_key(line) {
                        let kept = if st.lines[line] >= hits {
                            st.lines[line]
                        } else {
                            hits
                        };
                        bump(
                            LcovState { lines: st.lines.insert(line, kept), ..st },
                            AT_DUPLICATE_LINE as int,
                        )
                    } else if st.lines.dom().len() >= MAX_LINES_PER_RECORD {
                        bump(st, AT_LINES_EXCEEDED as int)
                    } else {
                        LcovState { lines: st.lines.insert(line, hits), ..st }
                    }
                },
            },
        },
    }
}

/// `<count>,<name>` with a count and a non-empty name.
pub open spec fn fnda_ok(v: Seq<char>) -> bool {
    match first_index(v, ',') {
        Some(k) => u64_value(v.take(k)) is Some && v.len() > k + 1,
        None => false,
    }
}

/// `<line>,<rest>` with a line number and a non-empty rest.
pub open spec fn fn_ok(v: Seq<char>) -> bool {
    match first_index(v, ',') {
        Some(k) => line_number(v.take(k)) is Some && v.len() > k + 1,
        None => false,
    }
}

/// `<line>,<block>,<branch>,<taken>`, where `taken` may be `-`.
pub open spec fn brda_ok(v: Seq<char>) -> bool {
    let f = pieces(v, ',');
    &&& f.len() == 4
    &&& line_number(f[0]) is Some
    &&& u64_value(f[1]) is Some
    &&& u64_value(f[2]) is Some
    &&& (f[3] == "-"@ || u64_value(f[3]) is Some)
}

/// The value of a summary line (`FNF:`, `FNH:`, `BRF:`, `BRH:`, `LH:`, `LF:`), if it is one.
pub open spec fn summary_value(t: Seq<char>) -> Option<Seq<char>> {
    if has_prefix(t, "FNF:"@) {
        Some(after(t, "FNF:"@))
    } else if has_prefix(t, "FNH:"@) {
        Some(after(t, "FNH:"@))
    } else if has_prefix(t, "BRF:"@) {
        Some(after(t, "BRF:"@))
    } else if has_prefix(t, "BRH:"@) {
        Some(after(t, "BRH:"@))
    } else if has_prefix(t, "LH:"@) {
        Some(after(t, "LH:"@))
    } else if has_prefix(t, "LF:"@) {
        Some(after(t, "LF:"@))
    } else {
        None
    }
}

/// Close the open record at its `end_of_record`.
pub open spec fn close_record(st: LcovState) -> LcovState {
    let cleared = LcovState { path: None, lines: Map::empty(), dirty: false, ..st };
    match st.path {
        None => bump(cleared, AT_RECORD_WITHOUT_SOURCE_FILE as int),
        Some(p) => if st.records.len() >= MAX_RECORDS {
            bump(cleared, AT_RECORDS_EXCEEDED as int)
        } else {
            LcovState { records: st.records.push((p, st.lines)), ..cleared }
        },
    }
}

/// Read one decoded, non-blank line.
pub open spec fn step_text(st: LcovState, t: Seq<char>) -> LcovState {
    if t == "end_of_record"@ {
        close_record(st)
    } else if has_prefix(t, "TN:"@) {
        if after(t, "TN:"@).len() > 0 {
            bump(st, AT_TEST_NAME_PRESENT as int)
        } else {
            st
        }
    } else if has_prefix(t, "SF:"@) {
        let v = after(t, "SF:"@);
        if v.len() == 0 {
            bump(st, AT_SOURCE_FILE_PATH_EMPTY as int)
        } else if st.path is Some {
            bump(st, AT_REPEATED_SOURCE_FILE_IN_RECORD as int)
        } else {
            LcovState { path: Some(v), ..st }
        }
    } else if has_prefix(t, "DA:"@) {
        step_da(st, after(t, "DA:"@))
    } else if has_prefix(t, "FNDA:"@) {
        if fnda_ok(after(t, "FNDA:"@)) {
            st
        } else {
            bump(st, AT_MALFORMED_RECORD as int)
        }
    } else if has_prefix(t, "FN:"@) {
        if fn_ok(after(t, "FN:"@)) {
            st
        } else {
            bump(st, AT_MALFORMED_RECORD as int)
        }
    } else if has_prefix(t, "BRDA:"@) {
        if brda_ok(after(t, "BRDA:"@)) {
            st
        } else {
            bump(st, AT_MALFORMED_RECORD as int)
        }
    } else if summary_value(t) is Some {
        if u64_value(summary_value(t)->0) is Some {
            st
        } else {
            bump(st, AT_MALFORMED_RECORD as int)
        }
    } else {
        bump(st, AT_UNKNOWN_RECORD as int)
    }
}

/// A line with one trailing carriage return dropped.
pub open spec fn trim_cr(line: Seq<u8>) -> Seq<u8> {
    if line.len() > 0 && line.last() == 13u8 {
        line.drop_last()
    } else {
        line
    }
}

/// Read one line of the report, its carriage return already dropped. A blank line carries no
/// claim; a line that is not UTF-8 is refused on its own.
pub open spec fn step_line(st: LcovState, raw: Seq<u8>) -> LcovState {
    if raw.len() == 0 {
        st
    } else if !valid_utf8(raw) {
        LcovState { dirty: true, ..bump(st, AT_INVALID_UTF8_LINE as int) }
    } else {
        step_text(LcovState { dirty: true, ..st }, decode_utf8(raw))
    }
}

/// The reader's state after the lines `lines`.
pub open spec fn run_lines(lines: Seq<Seq<u8>>) -> LcovState
    decreases lines.len(),
{
    if lines.len() == 0 {
        initial_state()
    } else {
        step_line(run_lines(lines.drop_last()), trim_cr(lines.last()))
    }
}

/// The reader's state after a whole report.
pub open spec fn lcov_state(bytes: Seq<u8>) -> LcovState {
    run_lines(pieces(bytes, 10u8))
}

/// The hits `lines` records for `line`, if it records the line.
pub open spec fn hit_at(lines: Seq<LineHit>, line: u64) -> Option<u64> {
    if exists|k: int| 0 <= k < lines.len() && lines[k].line == line {
        Some(lines[choose|k: int| 0 <= k < lines.len() && lines[k].line == line].hits)
    } else {
        None
    }
}

/// Strictly ascending by line number.
pub open spec fn ascending(lines: Seq<LineHit>) -> bool {
    forall|i: int, j: int| 0 <= i < j < lines.len() ==> lines[i].line < lines[j].line
}

/// Record `r` names `path` and states `line`.
pub open spec fn record_states(
    records: Seq<(Seq<char>, Map<u64, u64>)>,
    r: int,
    path: Seq<char>,
    line: u64,
) -> bool {
    0 <= r < records.len() && records[r].0 == path && records[r].1.contains_key(line)
}

/// `hits` is the largest count any record naming `path` states for `line`.
pub open spec fn is_max_hit(
    records: Seq<(Seq<char>, Map<u64, u64>)>,
    path: Seq<char>,
    line: u64,
    hits: u64,
) -> bool {
    &&& exists|r: int| #[trigger] record_states(records, r, path, line) && records[r].1[line] == hits
    &&& forall|r: int| #[trigger] record_states(records, r, path, line) ==> records[r].1[line] <= hits
}

/// Some record names `path`.
pub open spec fn names_path(records: Seq<(Seq<char>, Map<u64, u64>)>, path: Seq<char>) -> bool {
    exists|r: int| 0 <= r < records.len() && records[r].0 == path
}

/// Some file has `path`.
pub open spec fn has_file(files: Seq<FileCoverage>, path: Seq<char>) -> bool {
    exists|i: int| 0 <= i < files.len() && files[i].raw_path@ == path
}

/// Every file's path is the path of some record.
pub open spec fn every_file_recorded(
    files: Seq<FileCoverage>,
    records: Seq<(Seq<char>, Map<u64, u64>)>,
) -> bool {
    forall|i: int| 0 <= i < files.len() ==> names_path(records, #[trigger] files[i].raw_path@)
}

/// Every record's path is the path of some file.
pub open spec fn every_record_filed(
    files: Seq<FileCoverage>,
    records: Seq<(Seq<char>, Map<u64, u64>)>,
) -> bool {
    forall|r: int| 0 <= r < records.len() ==> has_file(files, #[trigger] records[r].0)
}

/// `files` is the merge of `records`: one file per distinct path, ascending by path, each holding
/// every line any record for its path states, with the largest count stated for it.
pub open spec fn merges_records(
    files: Seq<FileCoverage>,
    records: Seq<(Seq<char>, Map<u64, u64>)>,
) -> bool {
    &&& forall|i: int, j: int|
        0 <= i < j < files.len() ==> text_lt(files[i].raw_path@, files[j].raw_path@)
    &&& every_file_recorded(files, records)
    &&& every_record_filed(files, records)
    &&& forall|i: int| 0 <= i < files.len() ==> ascending(#[trigger] files[i].lines@)
    &&& forall|i: int, line: u64|
        0 <= i < files.len() ==> ((exists|r: int|
            #[trigger] record_states(records, r, files[i].raw_path@, line)) <==> hit_at(
            files[i].lines@,
            line,
        ) is Some)
    &&& forall|i: int, line: u64|
        0 <= i < files.len() && #[trigger] hit_at(files[i].lines@, line) is Some ==> is_max_hit(
            records,
            files[i].raw_path@,
            line,
            hit_at(files[i].lines@, line)->0,
        )
}

/// The counters of a finished report: the reader's counts, a duplicate for every accepted
/// record whose path an earlier one already named, and an unterminated record if the report
/// stopped inside one.
pub open spec fn final_counts(st: LcovState, file_count: nat) -> Seq<nat> {
    st.counts.update(AT_DUPLICATE_SOURCE_FILE as int, (st.records.len() - file_count) as nat).update(
        AT_UNTERMINATED_RECORD as int,
        if st.dirty {
            1nat
        } else {
            0nat
        },
    )
}

/// The counts of a report refused for its size.
pub open spec fn too_large_counts() -> Seq<nat> {
    Seq::new(15, |i: int| 0nat).update(AT_REPORT_TOO_LARGE as int, 1)
}

} // verus!

verus! {

/// One line raises at most one count, by one, and never takes the records past their bound.
pub proof fn lemma_step_bounds(st: LcovState, raw: Seq<u8>)
    requires
        st.counts.len() == 15,
        st.records.len() <= MAX_RECORDS,
    ensures
        step_line(st, raw).counts.len() == 15,
        forall|k: int| 0 <= k < 15 ==> #[trigger] step_line(st, raw).counts[k] <= st.counts[k] + 1,
        step_line(st, raw).records.len() <= MAX_RECORDS,
{
}

/// After `lines`, no count exceeds the number of lines, and the records stay within bound.
pub proof fn lemma_run_bounds(lines: Seq<Seq<u8>>)
    ensures
        run_lines(lines).counts.len() == 15,
        forall|k: int| 0 <= k < 15 ==> #[trigger] run_lines(lines).counts[k] <= lines.len(),
        run_lines(lines).records.len() <= MAX_RECORDS,
    decreases lines.len(),
{
    if lines.len() > 0 {
        lemma_run_bounds(lines.drop_last());
        lemma_step_bounds(run_lines(lines.drop_last()), trim_cr(lines.last()));
    }
}

/// `lf` with a carriage return put before each line feed at a position `marks` marks: the same
/// report written with `\r\n`, `\n`, or a mix of the two.
pub open spec fn with_carriage_returns(lf: Seq<u8>, marks: Seq<bool>) -> Seq<u8>
    decreases lf.len(),
{
    if lf.len() == 0 {
        Seq::empty()
    } else {
        let rest = with_carriage_returns(lf.drop_last(), marks);
        if lf.last() == 10u8 && marks[lf.len() - 1] {
            rest + seq![13u8, 10u8]
        } else {
            rest.push(lf.last())
        }
    }
}

/// The last piece of a text ends with the text's last element, unless it is empty.
proof fn lemma_last_piece_end(t: Seq<u8>)
    ensures
        pieces(t, 10u8).last().len() > 0 ==> pieces(t, 10u8).last().last() == t.last(),
{
    crate::text::lemma_pieces_len(t, 10u8);
    if t.len() > 0 && t.last() != 10u8 {
        crate::text::lemma_pieces_len(t.drop_last(), 10u8);
    }
}

/// Putting carriage returns before line feeds of a text without any changes its lines only by
/// a trailing carriage return each, and leaves the last line as it was.
proof fn lemma_crlf_pieces(lf: Seq<u8>, marks: Seq<bool>)
    requires
        !lf.contains(13u8),
    ensures
        with_carriage_returns(lf, marks).len() >= lf.len(),
        pieces(with_carriage_returns(lf, marks), 10u8).len() == pieces(lf, 10u8).len(),
        pieces(with_carriage_returns(lf, marks), 10u8).last() == pieces(lf, 10u8).last(),
        forall|i: int| 0 <= i < pieces(lf, 10u8).len() ==> trim_cr(#[trigger] pieces(with_carriage_returns(lf, marks), 10u8)[i])
            == trim_cr(pieces(lf, 10u8)[i]),
    decreases lf.len(),
{
    crate::text::lemma_pieces_len(lf, 10u8);
    if lf.len() > 0 {
        let l0 = lf.drop_last();
        assert(!l0.contains(13u8)) by {
            assert forall|k: int| 0 <= k < l0.len() implies l0[k] != 13u8 by {
                assert(l0[k] == lf[k]);
            }
        }
        lemma_crlf_pieces(l0, marks);
        crate::text::lemma_pieces_len(l0, 10u8);
        let r = with_carriage_returns(l0, marks);
        let c = with_carriage_returns(lf, marks);
        crate::text::lemma_pieces_len(r, 10u8);
        let pl = pieces(l0, 10u8);
        let pr = pieces(r, 10u8);
        let x = lf.last();
        assert(x != 13u8) by {
            assert(lf[lf.len() - 1] == x);
        }
        if x == 10u8 {
            lemma_last_piece_end(l0);
            if l0.len() > 0 {
                assert(l0.last() != 13u8) by {
                    assert(l0[l0.len() - 1] == l0.last());
                }
            }
            if marks[lf.len() - 1] {
                let r13 = r.push(13u8);
                assert(c =~= r13.push(10u8));
                assert(r13.drop_last() =~= r);
                assert(c.drop_last() =~= r13);
                let p13 = pieces(r13, 10u8);
                assert(p13 == pr.update(pr.len() - 1, pr.last().push(13u8)));
                assert(pieces(c, 10u8) == p13.push(Seq::<u8>::empty()));
                assert(pieces(lf, 10u8) == pl.push(Seq::<u8>::empty()));
                assert(trim_cr(pr.last().push(13u8)) =~= pr.last());
                assert forall|i: int| 0 <= i < pieces(lf, 10u8).len() implies trim_cr(#[trigger] pieces(c, 10u8)[i])
                    == trim_cr(pieces(lf, 10u8)[i]) by {
                    if i < pl.len() - 1 {
                        assert(pieces(c, 10u8)[i] == pr[i]);
                        assert(pieces(lf, 10u8)[i] == pl[i]);
                    } else if i == pl.len() - 1 {
                        assert(pieces(c, 10u8)[i] == pr.last().push(13u8));
                        assert(pieces(lf, 10u8)[i] == pl.last());
                    }
                }
            } else {
                assert(c =~= r.push(10u8));
                assert(c.drop_last() =~= r);
                assert(pieces(c, 10u8) == pr.push(Seq::<u8>::empty()));
                assert(pieces(lf, 10u8) == pl.push(Seq::<u8>::empty()));
                assert forall|i: int| 0 <= i < pieces(lf, 10u8).len() implies trim_cr(#[trigger] pieces(c, 10u8)[i])
                    == trim_cr(pieces(lf, 10u8)[i]) by {
                    if i < pl.len() {
                        assert(pieces(c, 10u8)[i] == pr[i]);
                        assert(pieces(lf, 10u8)[i] == pl[i]);
                    }
                }
            }
        } else {
            assert(c =~= r.push(x));
            assert(c.drop_last() =~= r);
            assert(pieces(c, 10u8) == pr.update(pr.len() - 1, pr.last().push(x)));
            assert(pieces(lf, 10u8) == pl.update(pl.len() - 1, pl.last().push(x)));
            assert forall|i: int| 0 <= i < pieces(lf, 10u8).len() implies trim_cr(#[trigger] pieces(c, 10u8)[i])
                == trim_cr(pieces(lf, 10u8)[i]) by {
                if i < pl.len() - 1 {
                    assert(pieces(c, 10u8)[i] == pr[i]);
                    assert(pieces(lf, 10u8)[i] == pl[i]);
                }
            }
        }
    }
}

/// Two runs over lines that agree once each line's carriage return is dropped reach one state.
proof fn lemma_run_lines_trimmed(a: Seq<Seq<u8>>, b: Seq<Seq<u8>>)
    requires
        a.len() == b.len(),
        forall|i: int| 0 <= i < a.len() ==> trim_cr(#[trigger] a[i]) == trim_cr(b[i]),
    ensures
        run_lines(a) == run_lines(b),
    decreases a.len(),
{
    if a.len() > 0 {
        assert(trim_cr(a[a.len() - 1]) == trim_cr(b[b.len() - 1]));
        lemma_run_lines_trimmed(a.drop_last(), b.drop_last());
    }
}

/// A report reads the same whichever of its line feeds carry a carriage return before them.
pub proof fn lemma_crlf_state(lf: Seq<u8>, marks: Seq<bool>)
    requires
        !lf.contains(13u8),
    ensures
        lcov_state(with_carriage_returns(lf, marks)) == lcov_state(lf),
        with_carriage_returns(lf, marks).len() >= lf.len(),
{
    lemma_crlf_pieces(lf, marks);
    lemma_run_lines_trimmed(pieces(with_carriage_returns(lf, marks), 10u8), pieces(lf, 10u8));
}

/// Two sequences strictly sorted by one asymmetric order and holding the same elements are the
/// same sequence.
proof fn lemma_sorted_unique<T>(a: Seq<T>, b: Seq<T>, lt: spec_fn(T, T) -> bool)
    requires
        forall|x: T, y: T| #[trigger] lt(x, y) ==> !lt(y, x),
        forall|i: int, j: int| 0 <= i < j < a.len() ==> lt(#[trigger] a[i], #[trigger] a[j]),
        forall|i: int, j: int| 0 <= i < j < b.len() ==> lt(#[trigger] b[i], #[trigger] b[j]),
        forall|x: T| a.contains(x) <==> b.contains(x),
    ensures
        a == b,
    decreases a.len(),
{
    if a.len() == 0 {
        if b.len() > 0 {
            assert(b.contains(b[0]));
        }
        assert(a =~= b);
    } else if b.len() == 0 {
        assert(a.contains(a[0]));
    } else {
        assert(a.contains(a[0]));
        assert(b.contains(b[0]));
        let k = choose|k: int| 0 <= k < b.len() && b[k] == a[0];
        let m = choose|m: int| 0 <= m < a.len() && a[m] == b[0];
        if k > 0 && m > 0 {
            assert(lt(b[0], b[k]));
            assert(lt(a[0], a[m]));
        } else if k > 0 {
            assert(lt(b[0], b[k]));
        } else if m > 0 {
            assert(lt(a[0], a[m]));
        }
        assert(a[0] == b[0]);
        let a1 = a.drop_first();
        let b1 = b.drop_first();
        assert forall|x: T| a1.contains(x) <==> b1.contains(x) by {
            if a1.contains(x) {
                let i = choose|i: int| 0 <= i < a1.len() && a1[i] == x;
                assert(a[i + 1] == x);
                assert(lt(a[0], a[i + 1]));
                assert(b.contains(x));
                let j = choose|j: int| 0 <= j < b.len() && b[j] == x;
                if j == 0 {
                    assert(false);
                }
                assert(b1[j - 1] == x);
            }
            if b1.contains(x) {
                let i = choose|i: int| 0 <= i < b1.len() && b1[i] == x;
                assert(b[i + 1] == x);
                assert(lt(b[0], b[i + 1]));
                assert(a.contains(x));
                let j = choose|j: int| 0 <= j < a.len() && a[j] == x;
                if j == 0 {
                    assert(false);
                }
                assert(a1[j - 1] == x);
            }
        }
        assert forall|i: int, j: int| 0 <= i < j < a1.len() implies lt(#[trigger] a1[i], #[trigger] a1[j]) by {
            assert(lt(a[i + 1], a[j + 1]));
        }
        assert forall|i: int, j: int| 0 <= i < j < b1.len() implies lt(#[trigger] b1[i], #[trigger] b1[j]) by {
            assert(lt(b[i + 1], b[j + 1]));
        }
        lemma_sorted_unique(a1, b1, lt);
        assert(a =~= b) by {
            assert forall|i: int| 0 <= i < a.len() implies a[i] == b[i] by {
                if i > 0 {
                    assert(a[i] == a1[i - 1]);
                    assert(b[i] == b1[i - 1]);
                }
            }
        }
    }
}

/// The paths of a list of files, in order.
pub open spec fn file_paths(files: Seq<FileCoverage>) -> Seq<Seq<char>> {
    files.map_values(|f: FileCoverage| f.raw_path@)
}

/// The line numbers of a list of line hits, in order.
pub open spec fn line_numbers(lines: Seq<LineHit>) -> Seq<int> {
    lines.map_values(|h: LineHit| h.line as int)
}

/// In a strictly ascending list, the hits stated for a listed line are that entry's.
proof fn lemma_hit_at_listed(lines: Seq<LineHit>, k: int)
    requires
        ascending(lines),
        0 <= k < lines.len(),
    ensures
        hit_at(lines, lines[k].line) == Some(lines[k].hits),
{
    let l = lines[k].line;
    assert(exists|j: int| 0 <= j < lines.len() && lines[j].line == l);
    let c = choose|j: int| 0 <= j < lines.len() && lines[j].line == l;
    if c < k {
        assert(lines[c].line < lines[k].line);
    } else if c > k {
        assert(lines[k].line < lines[c].line);
    }
}

/// Two merges of the same records are the same files: the same paths in the same order, each
/// with the same lines and hits.
pub proof fn lemma_merge_is_unique(
    f1: Seq<FileCoverage>,
    f2: Seq<FileCoverage>,
    records: Seq<(Seq<char>, Map<u64, u64>)>,
)
    requires
        merges_records(f1, records),
        merges_records(f2, records),
    ensures
        file_paths(f1) == file_paths(f2),
        forall|i: int| 0 <= i < f1.len() ==> (#[trigger] f1[i]).lines@ == f2[i].lines@,
{
    let p1 = file_paths(f1);
    let p2 = file_paths(f2);
    let lt = |x: Seq<char>, y: Seq<char>| text_lt(x, y);
    assert forall|x: Seq<char>, y: Seq<char>| #[trigger] lt(x, y) implies !lt(y, x) by {
        crate::order::lemma_text_trichotomy(x, y);
    }
    assert forall|i: int, j: int| 0 <= i < j < p1.len() implies lt(#[trigger] p1[i], #[trigger] p1[j]) by {
        assert(text_lt(f1[i].raw_path@, f1[j].raw_path@));
    }
    assert forall|i: int, j: int| 0 <= i < j < p2.len() implies lt(#[trigger] p2[i], #[trigger] p2[j]) by {
        assert(text_lt(f2[i].raw_path@, f2[j].raw_path@));
    }
    assert forall|x: Seq<char>| p1.contains(x) <==> p2.contains(x) by {
        if p1.contains(x) {
            let i = choose|i: int| 0 <= i < p1.len() && p1[i] == x;
            assert(names_path(records, f1[i].raw_path@));
            let r = choose|r: int| 0 <= r < records.len() && records[r].0 == x;
            assert(has_file(f2, records[r].0));
            let j = choose|j: int| 0 <= j < f2.len() && f2[j].raw_path@ == x;
            assert(p2[j] == x);
        }
        if p2.contains(x) {
            let i = choose|i: int| 0 <= i < p2.len() && p2[i] == x;
            assert(names_path(records, f2[i].raw_path@));
            let r = choose|r: int| 0 <= r < records.len() && records[r].0 == x;
            assert(has_file(f1, records[r].0));
            let j = choose|j: int| 0 <= j < f1.len() && f1[j].raw_path@ == x;
            assert(p1[j] == x);
        }
    }
    lemma_sorted_unique(p1, p2, lt);
    assert forall|i: int| 0 <= i < f1.len() implies (#[trigger] f1[i]).lines@ == f2[i].lines@ by {
        assert(p1[i] == p2[i]);
        lemma_merged_lines_unique(f1, f2, records, i);
    }
}

/// One file of two merges of the same records, at the same path, holds the same lines.
proof fn lemma_merged_lines_unique(
    f1: Seq<FileCoverage>,
    f2: Seq<FileCoverage>,
    records: Seq<(Seq<char>, Map<u64, u64>)>,
    i: int,
)
    requires
        merges_records(f1, records),
        merges_records(f2, records),
        0 <= i < f1.len(),
        i < f2.len(),
        f1[i].raw_path@ == f2[i].raw_path@,
    ensures
        f1[i].lines@ == f2[i].lines@,
{
    let a = f1[i].lines@;
    let b = f2[i].lines@;
    let p = f1[i].raw_path@;
    assert(ascending(a));
    assert(ascending(b));
    let la = line_numbers(a);
    let lb = line_numbers(b);
    let lt = |x: int, y: int| x < y;
    assert forall|j: int, k: int| 0 <= j < k < la.len() implies lt(#[trigger] la[j], #[trigger] la[k]) by {
        assert(a[j].line < a[k].line);
    }
    assert forall|j: int, k: int| 0 <= j < k < lb.len() implies lt(#[trigger] lb[j], #[trigger] lb[k]) by {
        assert(b[j].line < b[k].line);
    }
    assert forall|x: int| la.contains(x) <==> lb.contains(x) by {
        if la.contains(x) {
            let j = choose|j: int| 0 <= j < la.len() && la[j] == x;
            let l = a[j].line;
            lemma_hit_at_listed(a, j);
            assert(hit_at(f1[i].lines@, l) is Some);
            assert((exists|r: int| #[trigger] record_states(records, r, f1[i].raw_path@, l)) <==> hit_at(f1[i].lines@, l) is Some);
            assert((exists|r: int| #[trigger] record_states(records, r, f2[i].raw_path@, l)) <==> hit_at(f2[i].lines@, l) is Some);
            assert(hit_at(b, l) is Some);
            let k = choose|k: int| 0 <= k < b.len() && b[k].line == l;
            assert(lb[k] == x);
        }
        if lb.contains(x) {
            let j = choose|j: int| 0 <= j < lb.len() && lb[j] == x;
            let l = b[j].line;
            lemma_hit_at_listed(b, j);
            assert(hit_at(f2[i].lines@, l) is Some);
            assert((exists|r: int| #[trigger] record_states(records, r, f1[i].raw_path@, l)) <==> hit_at(f1[i].lines@, l) is Some);
            assert((exists|r: int| #[trigger] record_states(records, r, f2[i].raw_path@, l)) <==> hit_at(f2[i].lines@, l) is Some);
            assert(hit_at(a, l) is Some);
            let k = choose|k: int| 0 <= k < a.len() && a[k].line == l;
            assert(la[k] == x);
        }
    }
    assert forall|x: int, y: int| #[trigger] lt(x, y) implies !lt(y, x) by {}
    lemma_sorted_unique(la, lb, lt);
    assert forall|k: int| 0 <= k < a.len() implies a[k] == b[k] by {
        assert(la[k] == lb[k]);
        let l = a[k].line;
        assert(b[k].line == l);
        lemma_hit_at_listed(a, k);
        lemma_hit_at_listed(b, k);
        assert(hit_at(f1[i].lines@, l) is Some);
        assert(hit_at(f2[i].lines@, l) is Some);
        let h1 = a[k].hits;
        let h2 = b[k].hits;
        assert(is_max_hit(records, p, l, h1));
        assert(is_max_hit(records, p, l, h2));
        let r1 = choose|r: int| #[trigger] record_states(records, r, p, l) && records[r].1[l] == h1;
        let r2 = choose|r: int| #[trigger] record_states(records, r, p, l) && records[r].1[l] == h2;
        assert(records[r1].1[l] <= h2);
        assert(records[r2].1[l] <= h1);
    }
    assert(a =~= b);
}

} // verus!
