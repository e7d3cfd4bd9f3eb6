//! Form tags for the refusals of the LCOV reader. Closed, so a reader can enumerate them.
use vstd::prelude::*;

verus! {

/// The report is larger than the byte bound. Nothing in it was parsed.
pub const REPORT_TOO_LARGE: &'static str = "report-too-large";

/// A record past the record bound. Counted once per refused record.
pub const RECORDS_EXCEEDED: &'static str = "records-exceeded";

/// A `DA:` line past the per-record line bound. Counted once per refused line.
pub const LINES_EXCEEDED: &'static str = "lines-exceeded";

/// A line that is not valid UTF-8. Refused on its own; the rest of the report is still read.
pub const INVALID_UTF8_LINE: &'static str = "invalid-utf8-line";

/// The report ended with a record that no `end_of_record` closed. The record is dropped.
///
/// `end_of_record` is the format's own statement that the record is complete. Without it there is
/// no way to tell a finished record from a truncated one.
pub const UNTERMINATED_RECORD: &'static str = "unterminated-record";

/// A record closed without an `SF:` naming a source file. There is nothing to attribute to.
pub const RECORD_WITHOUT_SOURCE_FILE: &'static str = "record-without-source-file";

/// An `SF:` with an empty value. Refused; the record then has no source file either.
pub const SOURCE_FILE_PATH_EMPTY: &'static str = "source-file-path-empty";

/// A second `SF:` inside one record. The first is kept and the second refused.
pub const REPEATED_SOURCE_FILE_IN_RECORD: &'static str = "repeated-source-file-in-record";

/// A second record naming a path an earlier record already named. The two are merged.
pub const DUPLICATE_SOURCE_FILE: &'static str = "duplicate-source-file";

/// A second `DA:` for a line the same record already stated. The two are merged.
pub const DUPLICATE_LINE: &'static str = "duplicate-line";

/// A line number that is not a 1-based line number: non-numeric, negative, zero, or past `u64`.
pub const LINE_NUMBER_UNPARSED: &'static str = "line-number-unparsed";

/// A hit count that is not a non-negative integer: negative, non-numeric, or past `u64`.
pub const HIT_COUNT_UNPARSED: &'static str = "hit-count-unparsed";

/// A known record type whose fields are not the shape the format defines.
pub const MALFORMED_RECORD: &'static str = "malformed-record";

/// A line whose prefix is not a record type this parser knows.
pub const UNKNOWN_RECORD: &'static str = "unknown-record";

/// A `TN:` with a non-empty value. Counted, never used.
pub const TEST_NAME_PRESENT: &'static str = "test-name-present";

/// Every tag in this module, in declaration order.
pub const ALL: [&'static str; 15] = [
    "report-too-large",
    "records-exceeded",
    "lines-exceeded",
    "invalid-utf8-line",
    "unterminated-record",
    "record-without-source-file",
    "source-file-path-empty",
    "repeated-source-file-in-record",
    "duplicate-source-file",
    "duplicate-line",
    "line-number-unparsed",
    "hit-count-unparsed",
    "malformed-record",
    "unknown-record",
    "test-name-present",
];

/// The tags, as text, in declaration order.
pub open spec fn all_tags() -> Seq<Seq<char>> {
    seq![
        REPORT_TOO_LARGE@,
        RECORDS_EXCEEDED@,
        LINES_EXCEEDED@,
        INVALID_UTF8_LINE@,
        UNTERMINATED_RECORD@,
        RECORD_WITHOUT_SOURCE_FILE@,
        SOURCE_FILE_PATH_EMPTY@,
        REPEATED_SOURCE_FILE_IN_RECORD@,
        DUPLICATE_SOURCE_FILE@,
        DUPLICATE_LINE@,
        LINE_NUMBER_UNPARSED@,
        HIT_COUNT_UNPARSED@,
        MALFORMED_RECORD@,
        UNKNOWN_RECORD@,
        TEST_NAME_PRESENT@,
    ]
}

/// Position of each tag in [`ALL`] and in the counters.
pub const AT_REPORT_TOO_LARGE: usize = 0;
/// Position of [`RECORDS_EXCEEDED`].
pub const AT_RECORDS_EXCEEDED: usize = 1;
/// Position of [`LINES_EXCEEDED`].
pub const AT_LINES_EXCEEDED: usize = 2;
/// Position of [`INVALID_UTF8_LINE`].
pub const AT_INVALID_UTF8_LINE: usize = 3;
/// Position of [`UNTERMINATED_RECORD`].
pub const AT_UNTERMINATED_RECORD: usize = 4;
/// Position of [`RECORD_WITHOUT_SOURCE_FILE`].
pub const AT_RECORD_WITHOUT_SOURCE_FILE: usize = 5;
/// Position of [`SOURCE_FILE_PATH_EMPTY`].
pub const AT_SOURCE_FILE_PATH_EMPTY: usize = 6;
/// Position of [`REPEATED_SOURCE_FILE_IN_RECORD`].
pub const AT_REPEATED_SOURCE_FILE_IN_RECORD: usize = 7;
/// Position of [`DUPLICATE_SOURCE_FILE`].
pub const AT_DUPLICATE_SOURCE_FILE: usize = 8;
/// Position of [`DUPLICATE_LINE`].
pub const AT_DUPLICATE_LINE: usize = 9;
/// Position of [`LINE_NUMBER_UNPARSED`].
pub const AT_LINE_NUMBER_UNPARSED: usize = 10;
/// Position of [`HIT_COUNT_UNPARSED`].
pub const AT_HIT_COUNT_UNPARSED: usize = 11;
/// Position of [`MALFORMED_RECORD`].
pub const AT_MALFORMED_RECORD: usize = 12;
/// Position of [`UNKNOWN_RECORD`].
pub const AT_UNKNOWN_RECORD: usize = 13;
/// Position of [`TEST_NAME_PRESENT`].
pub const AT_TEST_NAME_PRESENT: usize = 14;

/// Number of tags.
pub const TAG_COUNT: usize = 15;

/// Every tag is different from every other one, and none is empty.
pub proof fn lemma_tags_distinct()
    ensures
        forall|i: int, j: int| 0 <= i < j < 15 ==> all_tags()[i] != all_tags()[j],
        forall|i: int| 0 <= i < 15 ==> all_tags()[i].len() > 0,
{
    reveal_strlit("report-too-large");
    reveal_strlit("records-exceeded");
    reveal_strlit("lines-exceeded");
    reveal_strlit("invalid-utf8-line");
    reveal_strlit("unterminated-record");
    reveal_strlit("record-without-source-file");
    reveal_strlit("source-file-path-empty");
    reveal_strlit("repeated-source-file-in-record");
    reveal_strlit("duplicate-source-file");
    reveal_strlit("duplicate-line");
    reveal_strlit("line-number-unparsed");
    reveal_strlit("hit-count-unparsed");
    reveal_strlit("malformed-record");
    reveal_strlit("unknown-record");
    reveal_strlit("test-name-present");
    let t = all_tags();
    assert forall|i: int, j: int| 0 <= i < j < 15 implies t[i] != t[j] by {
        if t[i] == t[j] {
            assert(t[i].len() == t[j].len());
            assert(t[i][0] == t[j][0]);
            assert(t[i][1] == t[j][1]);
            assert(t[i][2] == t[j][2]);
            assert(t[i][3] == t[j][3]);
            assert(t[i][4] == t[j][4]);
            assert(t[i][9] == t[j][9]);
            assert(t[i][10] == t[j][10]);
        }
    }
}

} // verus!
