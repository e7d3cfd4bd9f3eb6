//! Form tags for what ingestion refused, on top of the reader's own.
//!
//! The two vocabularies share one counter, so a single reading shows both what the parser
//! declined to believe and what the repository declined to confirm. The tags are disjoint.
use vstd::prelude::*;

verus! {

/// An `SF:` path the repository path guard refused: traversal, an absolute path elsewhere, a
/// symlink resolving outside the root, a control character, non-UTF-8, or a path that does not
/// exist. The refused text is counted and never echoed.
pub const PATH_REFUSED: &'static str = "path-refused";

/// A path inside the root that was never indexed. No entity is created for it, so a report
/// cannot add a path to the graph.
pub const FILE_NOT_INDEXED: &'static str = "file-not-indexed";

/// An indexed path whose current bytes could not be obtained under the repository's read rules.
pub const FILE_UNREADABLE: &'static str = "file-unreadable";

/// An indexed path whose bytes differ from what the index recorded; its symbol extents describe
/// the old bytes.
pub const FILE_CHANGED_SINCE_INDEX: &'static str = "file-changed-since-index";

/// An indexed, current, readable file in which no symbol was ever recorded.
pub const FILE_WITHOUT_SYMBOLS: &'static str = "file-without-symbols";

/// Two records that resolved to one repository path. Merged by maximum.
pub const DUPLICATE_RESOLVED_PATH: &'static str = "duplicate-resolved-path";

/// An instrumented line no symbol covers, or that two symbols tie for. Counted, and not a failure
/// of the run.
pub const LINE_OUTSIDE_ANY_SYMBOL: &'static str = "line-outside-any-symbol";

/// Every tag in this module, in declaration order.
pub const ALL: [&'static str; 7] = [
    "path-refused",
    "file-not-indexed",
    "file-unreadable",
    "file-changed-since-index",
    "file-without-symbols",
    "duplicate-resolved-path",
    "line-outside-any-symbol",
];

/// The tags, as text, in declaration order.
pub open spec fn all_tags() -> Seq<Seq<char>> {
    seq![
        PATH_REFUSED@,
        FILE_NOT_INDEXED@,
        FILE_UNREADABLE@,
        FILE_CHANGED_SINCE_INDEX@,
        FILE_WITHOUT_SYMBOLS@,
        DUPLICATE_RESOLVED_PATH@,
        LINE_OUTSIDE_ANY_SYMBOL@,
    ]
}

/// Every tag the two vocabularies hold: the reader's, then ingestion's.
pub open spec fn combined_tags() -> Seq<Seq<char>> {
    crate::coverage::form::all_tags() + all_tags()
}

/// The reader's tags and ingestion's are all different from one another, and none is empty, so
/// one counter can hold both without a tag meaning two things.
pub proof fn lemma_vocabularies_disjoint()
    ensures
        combined_tags().len() == 22,
        forall|i: int, j: int| 0 <= i < j < 22 ==> combined_tags()[i] != combined_tags()[j],
        forall|i: int| 0 <= i < 22 ==> combined_tags()[i].len() > 0,
{
    reveal_strlit("report-too-large");
    reveal_strlit("records-exceeded");
    reveal_strlit("lines-exceeded");
    reveal_strlit("invalid-utf8-line");
    reveal_strlit("unterminated-record");
    reveal_strlit("record-without-source-file");
    reveal_strlit("source-file-path-empty");
    reveal_strlit("repeated-source-file-in-record");
    reveal_strlit("duplicate-source-file");
    reveal_strlit("duplicate-line");
    reveal_strlit("line-number-unparsed");
    reveal_strlit("hit-count-unparsed");
    reveal_strlit("malformed-record");
    reveal_strlit("unknown-record");
    reveal_strlit("test-name-present");
    reveal_strlit("path-refused");
    reveal_strlit("file-not-indexed");
    reveal_strlit("file-unreadable");
    reveal_strlit("file-changed-since-index");
    reveal_strlit("file-without-symbols");
    reveal_strlit("duplicate-resolved-path");
    reveal_strlit("line-outside-any-symbol");
    let t = combined_tags();
    assert(t.len() == 22);
    assert forall|i: int, j: int| 0 <= i < j < 22 implies t[i] != t[j] by {
        if t[i] == t[j] {
            assert(t[i].len() == t[j].len());
            assert(t[i][0] == t[j][0]);
            assert(t[i][1] == t[j][1]);
            assert(t[i][2] == t[j][2]);
            assert(t[i][3] == t[j][3]);
            assert(t[i][4] == t[j][4]);
            assert(t[i][5] == t[j][5]);
            assert(t[i][9] == t[j][9]);
            assert(t[i][10] == t[j][10]);
        }
    }
}

} // verus!
