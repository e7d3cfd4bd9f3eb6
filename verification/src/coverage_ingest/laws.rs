//! What coverage attribution promises of its results, stated over the reported lines.
use vstd::prelude::*;
use crate::coverage::LineHit;
use crate::coverage::model::ascending;
use crate::docref::SymbolExtent;
use super::{add_line, add_lines, counted, entry_index, form, files_refused_of, lemma_entry_index, line_target, tag_slot, TallyState, TallyView};

verus! {

/// The reported line `hit` executed and lands in the symbol `id`: the innermost extent covering
/// it is that symbol's.
pub open spec fn lands_covered(extents: Seq<SymbolExtent>, hit: LineHit, id: Seq<char>) -> bool {
    hit.hits > 0 && match line_target(extents, hit.line) {
        Some(x) => extents[x].entity_id@ == id,
        None => false,
    }
}

/// Some of the first `n` reported lines executed and landed in `id`.
pub open spec fn any_covered(extents: Seq<SymbolExtent>, lines: Seq<LineHit>, n: int, id: Seq<char>) -> bool {
    exists|j: int| 0 <= j < n && #[trigger] lands_covered(extents, lines[j], id)
}

/// The tally `t` of symbol `id` spans exactly its covered lines among the first `n`: its first
/// covered line is the smallest of them and its last the largest, both 0 when there is none.
pub open spec fn spans_covered_lines(
    extents: Seq<SymbolExtent>,
    lines: Seq<LineHit>,
    n: int,
    id: Seq<char>,
    t: TallyView,
) -> bool {
    &&& forall|j: int| 0 <= j < n && #[trigger] lands_covered(extents, lines[j], id)
        ==> t.first_covered_line <= lines[j].line && lines[j].line <= t.last_covered_line
    &&& any_covered(extents, lines, n, id) ==> (exists|j: int| 0 <= j < n && #[trigger] lands_covered(extents, lines[j], id)
        && lines[j].line == t.first_covered_line)
    &&& any_covered(extents, lines, n, id) ==> (exists|j: int| 0 <= j < n && #[trigger] lands_covered(extents, lines[j], id)
        && lines[j].line == t.last_covered_line)
    &&& !any_covered(extents, lines, n, id) ==> t.first_covered_line == 0 && t.last_covered_line == 0
}

/// What holds of the tallies after the first `n` lines of a file.
spec fn attribution_holds(s: TallyState, extents: Seq<SymbolExtent>, lines: Seq<LineHit>, n: int) -> bool {
    &&& forall|a: int, b: int| 0 <= a < b < s.entries.len() ==> (#[trigger] s.entries[a]).0 != (#[trigger] s.entries[b]).0
    &&& forall|j: int, id: Seq<char>| 0 <= j < n && #[trigger] lands_covered(extents, lines[j], id)
        ==> entry_index(s.entries, id) is Some
    &&& forall|k: int| 0 <= k < s.entries.len() ==> spans_covered_lines(extents, lines, n, (#[trigger] s.entries[k]).0, s.entries[k].1)
}

/// A line that does not land covered in `id` leaves its span as it was.
proof fn lemma_span_other(extents: Seq<SymbolExtent>, lines: Seq<LineHit>, n: int, id: Seq<char>, t: TallyView)
    requires
        0 <= n < lines.len(),
        spans_covered_lines(extents, lines, n, id, t),
        !lands_covered(extents, lines[n], id),
    ensures
        spans_covered_lines(extents, lines, n + 1, id, t),
{
    if any_covered(extents, lines, n + 1, id) {
        let j = choose|j: int| 0 <= j < n + 1 && #[trigger] lands_covered(extents, lines[j], id);
        assert(j != n);
        assert(any_covered(extents, lines, n, id));
    }
    if any_covered(extents, lines, n, id) {
        let j = choose|j: int| 0 <= j < n && #[trigger] lands_covered(extents, lines[j], id);
        assert(any_covered(extents, lines, n + 1, id));
    }
}

/// Counting the line that lands in `id` towards its tally extends the span to it.
proof fn lemma_span_counted(extents: Seq<SymbolExtent>, lines: Seq<LineHit>, n: int, id: Seq<char>, t: TallyView)
    requires
        0 <= n < lines.len(),
        ascending(lines),
        forall|j: int| 0 <= j < lines.len() ==> (#[trigger] lines[j]).line > 0,
        spans_covered_lines(extents, lines, n, id, t),
        lands_covered(extents, lines[n], id) <==> lines[n].hits > 0,
    ensures
        spans_covered_lines(extents, lines, n + 1, id, counted(t, lines[n].line as nat, lines[n].hits)),
{
    let h = lines[n];
    let new_t = counted(t, h.line as nat, h.hits);
    if h.hits == 0 {
        lemma_span_other(extents, lines, n, id, t);
        assert(new_t.first_covered_line == t.first_covered_line);
        assert(new_t.last_covered_line == t.last_covered_line);
    } else if any_covered(extents, lines, n, id) {
        let w = choose|j: int| 0 <= j < n && #[trigger] lands_covered(extents, lines[j], id)
            && lines[j].line == t.first_covered_line;
        let v = choose|j: int| 0 <= j < n && #[trigger] lands_covered(extents, lines[j], id)
            && lines[j].line == t.last_covered_line;
        assert(lines[w].line > 0);
        assert(lines[v].line < lines[n].line);
        assert(lines[w].line < lines[n].line);
        assert(new_t.first_covered_line == t.first_covered_line);
        assert(new_t.last_covered_line == h.line);
        assert forall|j: int| 0 <= j < n + 1 && #[trigger] lands_covered(extents, lines[j], id)
            implies new_t.first_covered_line <= lines[j].line && lines[j].line <= new_t.last_covered_line by {
            if j < n {
                assert(lines[j].line < lines[n].line);
            }
        }
        assert(lands_covered(extents, lines[n], id) && lines[n].line == new_t.last_covered_line);
        assert(lands_covered(extents, lines[w], id) && lines[w].line == new_t.first_covered_line);
        assert(any_covered(extents, lines, n + 1, id));
    } else {
        assert(new_t.first_covered_line == h.line);
        assert(new_t.last_covered_line == h.line);
        assert forall|j: int| 0 <= j < n + 1 && #[trigger] lands_covered(extents, lines[j], id)
            implies new_t.first_covered_line <= lines[j].line && lines[j].line <= new_t.last_covered_line by {
            if j < n {
                assert(any_covered(extents, lines, n, id));
            }
        }
        assert(lands_covered(extents, lines[n], id) && lines[n].line == new_t.last_covered_line);
        assert(any_covered(extents, lines, n + 1, id));
    }
}

/// One more line keeps what attribution promises.
proof fn lemma_attribution_step(
    st: TallyState,
    path: Seq<char>,
    hash: Seq<char>,
    extents: Seq<SymbolExtent>,
    lines: Seq<LineHit>,
    n: int,
)
    requires
        0 <= n < lines.len(),
        ascending(lines),
        forall|j: int| 0 <= j < lines.len() ==> (#[trigger] lines[j]).line > 0,
        attribution_holds(add_lines(st, path, hash, extents, lines, n), extents, lines, n),
    ensures
        attribution_holds(add_lines(st, path, hash, extents, lines, n + 1), extents, lines, n + 1),
{
    let s = add_lines(st, path, hash, extents, lines, n);
    let h = lines[n];
    let s2 = add_lines(st, path, hash, extents, lines, n + 1);
    assert(s2 == add_line(s, path, hash, extents, h));
    match line_target(extents, h.line) {
        None => {
            assert(s2.entries == s.entries);
            assert forall|k: int| 0 <= k < s2.entries.len() implies spans_covered_lines(extents, lines, n + 1, (#[trigger] s2.entries[k]).0, s2.entries[k].1) by {
                assert(spans_covered_lines(extents, lines, n, s.entries[k].0, s.entries[k].1));
                lemma_span_other(extents, lines, n, s.entries[k].0, s.entries[k].1);
            }
            assert forall|j: int, id: Seq<char>| 0 <= j < n + 1 && #[trigger] lands_covered(extents, lines[j], id)
                implies entry_index(s2.entries, id) is Some by {
                assert(j != n);
            }
        },
        Some(x) => {
            let id0 = extents[x].entity_id@;
            lemma_entry_index(s.entries, id0);
            let fresh = TallyView {
                file_path: path,
                content_hash: hash,
                start_line: extents[x].start_line as nat,
                end_line: extents[x].end_line as nat,
                instrumented: 0,
                covered: 0,
                first_covered_line: 0,
                last_covered_line: 0,
            };
            let (old_t, at) = match entry_index(s.entries, id0) {
                Some(kk) => (s.entries[kk].1, kk),
                None => (fresh, s.entries.len() as int),
            };
            assert(spans_covered_lines(extents, lines, n, id0, old_t)) by {
                if entry_index(s.entries, id0) is None {
                    if any_covered(extents, lines, n, id0) {
                        let j = choose|j: int| 0 <= j < n && #[trigger] lands_covered(extents, lines[j], id0);
                        assert(entry_index(s.entries, id0) is Some);
                    }
                } else {
                    assert(spans_covered_lines(extents, lines, n, s.entries[at].0, s.entries[at].1));
                }
            }
            lemma_span_counted(extents, lines, n, id0, old_t);
            let new_t = counted(old_t, h.line as nat, h.hits);
            assert(s2.entries[at] == (id0, new_t));
            assert forall|k: int| 0 <= k < s2.entries.len() && k != at implies s2.entries[k] == s.entries[k] by {}
            assert forall|k: int| 0 <= k < s2.entries.len() implies spans_covered_lines(extents, lines, n + 1, (#[trigger] s2.entries[k]).0, s2.entries[k].1) by {
                if k != at {
                    let id = s.entries[k].0;
                    assert(spans_covered_lines(extents, lines, n, id, s.entries[k].1));
                    if at < s.entries.len() {
                        assert(s.entries[at].0 == id0);
                    }
                    assert(id != id0);
                    lemma_span_other(extents, lines, n, id, s.entries[k].1);
                }
            }
            assert forall|a: int, b: int| 0 <= a < b < s2.entries.len() implies (#[trigger] s2.entries[a]).0 != (#[trigger] s2.entries[b]).0 by {
                if b == at && at == s.entries.len() {
                    assert(s2.entries[a] == s.entries[a]);
                } else if a == at || b == at {
                    assert(s.entries[at].0 == id0);
                    assert(s.entries[a].0 != s.entries[b].0);
                } else {
                    assert(s.entries[a].0 != s.entries[b].0);
                }
            }
            assert forall|j: int, id: Seq<char>| 0 <= j < n + 1 && #[trigger] lands_covered(extents, lines[j], id)
                implies entry_index(s2.entries, id) is Some by {
                lemma_entry_index(s2.entries, id);
                if id == id0 {
                    assert(s2.entries[at].0 == id0);
                } else {
                    assert(j != n);
                    assert(entry_index(s.entries, id) is Some);
                    lemma_entry_index(s.entries, id);
                    let k = entry_index(s.entries, id).unwrap();
                    assert(k != at);
                    assert(s2.entries[k] == s.entries[k]);
                }
            }
        },
    }
}

/// What attribution promises holds after every prefix of a file's lines.
proof fn lemma_attribution_prefix(
    st: TallyState,
    path: Seq<char>,
    hash: Seq<char>,
    extents: Seq<SymbolExtent>,
    lines: Seq<LineHit>,
    n: int,
)
    requires
        st.entries.len() == 0,
        0 <= n <= lines.len(),
        ascending(lines),
        forall|j: int| 0 <= j < lines.len() ==> (#[trigger] lines[j]).line > 0,
    ensures
        attribution_holds(add_lines(st, path, hash, extents, lines, n), extents, lines, n),
    decreases n,
{
    if n == 0 {
        assert(add_lines(st, path, hash, extents, lines, 0) == st);
    } else {
        lemma_attribution_prefix(st, path, hash, extents, lines, n - 1);
        lemma_attribution_step(st, path, hash, extents, lines, n - 1);
    }
}

/// A symbol's covered span is its covered lines' span: after a file's lines, ascending and
/// 1-based as a report states them, are tallied from no tallies, every symbol's first covered
/// line is the smallest line that executed and landed in it and its last covered line the
/// largest, both 0 when none did, and every symbol a covered line landed in has a tally. These
/// are the `COVERS` evidence's first and last lines.
pub proof fn lemma_covered_span_is_min_and_max(
    st: TallyState,
    path: Seq<char>,
    hash: Seq<char>,
    extents: Seq<SymbolExtent>,
    lines: Seq<LineHit>,
)
    requires
        st.entries.len() == 0,
        ascending(lines),
        forall|j: int| 0 <= j < lines.len() ==> (#[trigger] lines[j]).line > 0,
    ensures
        ({
            let s = add_lines(st, path, hash, extents, lines, lines.len() as int);
            &&& forall|k: int| 0 <= k < s.entries.len() ==> spans_covered_lines(
                extents,
                lines,
                lines.len() as int,
                (#[trigger] s.entries[k]).0,
                s.entries[k].1,
            )
            &&& forall|j: int, id: Seq<char>| 0 <= j < lines.len() && #[trigger] lands_covered(extents, lines[j], id)
                ==> exists|k: int| 0 <= k < s.entries.len() && (#[trigger] s.entries[k]).0 == id
        }),
{
    lemma_attribution_prefix(st, path, hash, extents, lines, lines.len() as int);
    let s = add_lines(st, path, hash, extents, lines, lines.len() as int);
    assert forall|j: int, id: Seq<char>| 0 <= j < lines.len() && #[trigger] lands_covered(extents, lines[j], id)
        implies exists|k: int| 0 <= k < s.entries.len() && (#[trigger] s.entries[k]).0 == id by {
        lemma_entry_index(s.entries, id);
        let k = entry_index(s.entries, id).unwrap();
        assert(s.entries[k].0 == id);
    }
}

/// A run's refused files are every file-level refusal: the counts under the ingestion tags
/// `path-refused`, `file-not-indexed`, `file-unreadable`, `file-changed-since-index` and
/// `file-without-symbols`, each found by its tag among all the tags, added up; so a run that
/// refused a file for any of these reasons counts it.
pub proof fn lemma_files_refused_counts_every_file_tag(refused: Seq<usize>)
    requires
        refused.len() == 22,
    ensures
        tag_slot(form::PATH_REFUSED@) is Some,
        tag_slot(form::FILE_NOT_INDEXED@) is Some,
        tag_slot(form::FILE_UNREADABLE@) is Some,
        tag_slot(form::FILE_CHANGED_SINCE_INDEX@) is Some,
        tag_slot(form::FILE_WITHOUT_SYMBOLS@) is Some,
        files_refused_of(refused) == refused[tag_slot(form::PATH_REFUSED@)->0] + refused[tag_slot(
            form::FILE_NOT_INDEXED@,
        )->0] + refused[tag_slot(form::FILE_UNREADABLE@)->0] + refused[tag_slot(
            form::FILE_CHANGED_SINCE_INDEX@,
        )->0] + refused[tag_slot(form::FILE_WITHOUT_SYMBOLS@)->0],
{
    form::lemma_vocabularies_disjoint();
    let t = form::combined_tags();
    assert(t[15] == form::PATH_REFUSED@);
    assert(t[16] == form::FILE_NOT_INDEXED@);
    assert(t[17] == form::FILE_UNREADABLE@);
    assert(t[18] == form::FILE_CHANGED_SINCE_INDEX@);
    assert(t[19] == form::FILE_WITHOUT_SYMBOLS@);
    assert forall|i: int, k: int| 0 <= i < 22 && 0 <= k < 22 && t[i] == t[k] implies i == k by {
        if i < k {
            assert(t[i] != t[k]);
        } else if k < i {
            assert(t[k] != t[i]);
        }
    }
    assert(tag_slot(form::PATH_REFUSED@) == Some(15int));
    assert(tag_slot(form::FILE_NOT_INDEXED@) == Some(16int));
    assert(tag_slot(form::FILE_UNREADABLE@) == Some(17int));
    assert(tag_slot(form::FILE_CHANGED_SINCE_INDEX@) == Some(18int));
    assert(tag_slot(form::FILE_WITHOUT_SYMBOLS@) == Some(19int));
}

} // verus!
