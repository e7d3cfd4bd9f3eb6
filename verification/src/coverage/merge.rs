//! The second half of the LCOV reader: records for the same path merge into one file, by the
//! largest count stated for each line, and files come out ascending by path.
use vstd::prelude::*;
use crate::order::{
    index_lt, key_views, lemma_key_views_push, lemma_text_transitive, lemma_text_trichotomy,
    stable_order, stably_sorted, text_lt,
};
use crate::text::{chars_eq, extend_chars, string_of};
use super::{FileCoverage, LineHit};
use super::model::{
    ascending, has_file, hit_at, names_path, is_max_hit, merges_records,
    record_states,
};
use super::reader::lists_map;

verus! {

/// The larger of two optional counts.
pub open spec fn max_hit(a: Option<u64>, b: Option<u64>) -> Option<u64> {
    match (a, b) {
        (Some(x), Some(y)) => Some(if x >= y {
            x
        } else {
            y
        }),
        (Some(x), None) => Some(x),
        (None, Some(y)) => Some(y),
        (None, None) => None,
    }
}

/// In an ascending list, the count at a listed line is the one listed with it.
pub proof fn lemma_hit_at_listed(v: Seq<LineHit>, k: int)
    requires
        ascending(v),
        0 <= k < v.len(),
    ensures
        hit_at(v, v[k].line) == Some(v[k].hits),
{
    let c = choose|c: int| 0 <= c < v.len() && v[c].line == v[k].line;
    if c < k {
        assert(v[c].line < v[k].line);
    } else if c > k {
        assert(v[k].line < v[c].line);
    }
}

/// Appending an entry past every line adds that line and nothing else.
proof fn lemma_hit_at_push(v: Seq<LineHit>, x: LineHit, line: u64)
    requires
        ascending(v.push(x)),
    ensures
        hit_at(v.push(x), line) == if line == x.line {
            Some(x.hits)
        } else {
            hit_at(v, line)
        },
{
    let w = v.push(x);
    if line == x.line {
        lemma_hit_at_listed(w, v.len() as int);
    } else {
        if exists|k: int| 0 <= k < v.len() && v[k].line == line {
            let k = choose|k: int| 0 <= k < v.len() && v[k].line == line;
            assert(ascending(v)) by {
                assert forall|i: int, j: int| 0 <= i < j < v.len() implies v[i].line < v[j].line by {
                    assert(w[i] == v[i] && w[j] == v[j]);
                }
            }
            lemma_hit_at_listed(v, k);
            assert(w[k] == v[k]);
            lemma_hit_at_listed(w, k);
        } else {
            assert forall|k: int| 0 <= k < w.len() implies w[k].line != line by {
                if k < v.len() {
                    assert(w[k] == v[k]);
                }
            }
        }
    }
}

/// A list of a map's entries reads back the map.
proof fn lemma_lists_map_hit(v: Seq<LineHit>, m: Map<u64, u64>, line: u64)
    requires
        lists_map(v, m),
    ensures
        hit_at(v, line) == if m.contains_key(line) {
            Some(m[line])
        } else {
            None
        },
{
    if m.contains_key(line) {
        let k = choose|k: int| 0 <= k < v.len() && v[k].line == line;
        lemma_hit_at_listed(v, k);
    } else {
        if exists|k: int| 0 <= k < v.len() && v[k].line == line {
            let k = choose|k: int| 0 <= k < v.len() && v[k].line == line;
            assert(m.contains_key(v[k].line));
        }
    }
}

/// The two ascending lists merged: every line either lists, with the larger count where both
/// list it.
pub fn merge_max(a: &Vec<LineHit>, b: &Vec<LineHit>) -> (out: Vec<LineHit>)
    requires
        ascending(a@),
        ascending(b@),
    ensures
        ascending(out@),
        forall|line: u64| #[trigger] hit_at(out@, line) == max_hit(hit_at(a@, line), hit_at(b@, line)),
{
    let mut out: Vec<LineHit> = Vec::new();
    let mut i: usize = 0;
    let mut j: usize = 0;
    while i < a.len() || j < b.len()
        invariant
            i <= a.len(),
            j <= b.len(),
            ascending(a@),
            ascending(b@),
            ascending(out@),
            i < a.len() ==> forall|k: int| 0 <= k < out.len() ==> #[trigger] out@[k].line < a@[i as int].line,
            j < b.len() ==> forall|k: int| 0 <= k < out.len() ==> #[trigger] out@[k].line < b@[j as int].line,
            forall|line: u64| #[trigger] hit_at(out@, line) == max_hit(
                hit_at(a@.take(i as int), line),
                hit_at(b@.take(j as int), line),
            ),
        decreases a.len() + b.len() - i - j,
    {
        let ghost before = out@;
        let ghost ai = a@.take(i as int);
        let ghost bj = b@.take(j as int);
        let take_a = j == b.len() || (i < a.len() && a[i].line < b[j].line);
        let take_b = !take_a && (i == a.len() || b[j].line < a[i].line);
        if take_a {
            let x = a[i];
            out.push(x);
            proof {
                assert(a@.take(i + 1) =~= ai.push(x));
                assert forall|line: u64| #[trigger] hit_at(out@, line) == max_hit(
                    hit_at(a@.take(i + 1), line),
                    hit_at(bj, line),
                ) by {
                    lemma_hit_at_push(before, x, line);
                    assert(ascending(ai.push(x))) by {
                        assert forall|p: int, q: int| 0 <= p < q < ai.push(x).len() implies ai.push(x)[p].line < ai.push(x)[q].line by {
                            assert(ai.push(x)[p] == a@[p] && ai.push(x)[q] == a@[q]);
                        }
                    }
                    lemma_hit_at_push(ai, x, line);
                    if line == x.line {
                        if hit_at(bj, line) is Some {
                            assert(hit_at(before, line) is Some);
                            let k = choose|k: int| 0 <= k < before.len() && before[k].line == line;
                            assert(before[k].line < x.line);
                        }
                    }
                }
                assert forall|k: int| 0 <= k < out.len() && i + 1 < a.len() implies #[trigger] out@[k].line < a@[i + 1].line by {
                    if k < before.len() {
                        assert(out@[k] == before[k]);
                    }
                }
                assert forall|k: int| 0 <= k < out.len() && j < b.len() implies #[trigger] out@[k].line < b@[j as int].line by {
                    if k < before.len() {
                        assert(out@[k] == before[k]);
                    }
                }
                assert forall|p: int, q: int| 0 <= p < q < out.len() implies out@[p].line < out@[q].line by {
                    if q < before.len() {
                        assert(out@[p] == before[p] && out@[q] == before[q]);
                    } else {
                        assert(out@[p] == before[p]);
                    }
                }
            }
            i = i + 1;
        } else if take_b {
            let y = b[j];
            out.push(y);
            proof {
                assert(b@.take(j + 1) =~= bj.push(y));
                assert forall|line: u64| #[trigger] hit_at(out@, line) == max_hit(
                    hit_at(ai, line),
                    hit_at(b@.take(j + 1), line),
                ) by {
                    lemma_hit_at_push(before, y, line);
                    assert(ascending(bj.push(y))) by {
                        assert forall|p: int, q: int| 0 <= p < q < bj.push(y).len() implies bj.push(y)[p].line < bj.push(y)[q].line by {
                            assert(bj.push(y)[p] == b@[p] && bj.push(y)[q] == b@[q]);
                        }
                    }
                    lemma_hit_at_push(bj, y, line);
                    if line == y.line {
                        if hit_at(ai, line) is Some {
                            assert(hit_at(before, line) is Some);
                            let k = choose|k: int| 0 <= k < before.len() && before[k].line == line;
                            assert(before[k].line < y.line);
                        }
                    }
                }
                assert forall|k: int| 0 <= k < out.len() && i < a.len() implies #[trigger] out@[k].line < a@[i as int].line by {
                    if k < before.len() {
                        assert(out@[k] == before[k]);
                    }
                }
                assert forall|k: int| 0 <= k < out.len() && j + 1 < b.len() implies #[trigger] out@[k].line < b@[j + 1].line by {
                    if k < before.len() {
                        assert(out@[k] == before[k]);
                    }
                }
                assert forall|p: int, q: int| 0 <= p < q < out.len() implies out@[p].line < out@[q].line by {
                    if q < before.len() {
                        assert(out@[p] == before[p] && out@[q] == before[q]);
                    } else {
                        assert(out@[p] == before[p]);
                    }
                }
            }
            j = j + 1;
        } else {
            let x = a[i];
            let y = b[j];
            let z = LineHit {
                line: x.line,
                hits: if x.hits >= y.hits {
                    x.hits
                } else {
                    y.hits
                },
            };
            out.push(z);
            proof {
                assert(x.line == y.line);
                assert(a@.take(i + 1) =~= ai.push(x));
                assert(b@.take(j + 1) =~= bj.push(y));
                assert forall|line: u64| #[trigger] hit_at(out@, line) == max_hit(
                    hit_at(a@.take(i + 1), line),
                    hit_at(b@.take(j + 1), line),
                ) by {
                    lemma_hit_at_push(before, z, line);
                    assert(ascending(ai.push(x))) by {
                        assert forall|p: int, q: int| 0 <= p < q < ai.push(x).len() implies ai.push(x)[p].line < ai.push(x)[q].line by {
                            assert(ai.push(x)[p] == a@[p] && ai.push(x)[q] == a@[q]);
                        }
                    }
                    assert(ascending(bj.push(y))) by {
                        assert forall|p: int, q: int| 0 <= p < q < bj.push(y).len() implies bj.push(y)[p].line < bj.push(y)[q].line by {
                            assert(bj.push(y)[p] == b@[p] && bj.push(y)[q] == b@[q]);
                        }
                    }
                    lemma_hit_at_push(ai, x, line);
                    lemma_hit_at_push(bj, y, line);
                }
                assert forall|k: int| 0 <= k < out.len() && i + 1 < a.len() implies #[trigger] out@[k].line < a@[i + 1].line by {
                    if k < before.len() {
                        assert(out@[k] == before[k]);
                    }
                }
                assert forall|k: int| 0 <= k < out.len() && j + 1 < b.len() implies #[trigger] out@[k].line < b@[j + 1].line by {
                    if k < before.len() {
                        assert(out@[k] == before[k]);
                    }
                }
                assert forall|p: int, q: int| 0 <= p < q < out.len() implies out@[p].line < out@[q].line by {
                    if q < before.len() {
                        assert(out@[p] == before[p] && out@[q] == before[q]);
                    } else {
                        assert(out@[p] == before[p]);
                    }
                }
            }
            i = i + 1;
            j = j + 1;
        }
    }
    assert(a@.take(a.len() as int) =~= a@);
    assert(b@.take(b.len() as int) =~= b@);
    out
}

/// The reader's records agree with the records of the model.
pub open spec fn records_agree(
    records: Seq<(Vec<char>, Vec<LineHit>)>,
    model: Seq<(Seq<char>, Map<u64, u64>)>,
) -> bool {
    &&& records.len() == model.len()
    &&& forall|i: int|
        0 <= i < model.len() ==> #[trigger] records[i].0@ == model[i].0 && lists_map(
            records[i].1@,
            model[i].1,
        )
}

/// Some record at a position in `lo..hi` of `order` states `line`.
pub open spec fn group_has(
    model: Seq<(Seq<char>, Map<u64, u64>)>,
    order: Seq<usize>,
    lo: int,
    hi: int,
    line: u64,
) -> bool {
    exists|q: int| lo <= q < hi && #[trigger] model[order[q] as int].1.contains_key(line)
}

/// `acc` is the merge of the records at positions `lo..hi` of `order`.
pub open spec fn group_merged(
    acc: Seq<LineHit>,
    model: Seq<(Seq<char>, Map<u64, u64>)>,
    order: Seq<usize>,
    lo: int,
    hi: int,
) -> bool {
    &&& ascending(acc)
    &&& forall|line: u64| #[trigger] hit_at(acc, line) is Some <==> group_has(model, order, lo, hi, line)
    &&& forall|line: u64| #[trigger] hit_at(acc, line) is Some ==> {
        &&& exists|q: int|
            lo <= q < hi && #[trigger] model[order[q] as int].1.contains_key(line) && model[order[q] as int].1[line]
                == hit_at(acc, line)->0
        &&& forall|q: int|
            lo <= q < hi && #[trigger] model[order[q] as int].1.contains_key(line) ==> model[order[q] as int].1[line]
                <= hit_at(acc, line)->0
    }
}

proof fn lemma_group_start(
    acc: Seq<LineHit>,
    model: Seq<(Seq<char>, Map<u64, u64>)>,
    order: Seq<usize>,
    q: int,
)
    requires
        0 <= q < order.len(),
        lists_map(acc, model[order[q] as int].1),
    ensures
        group_merged(acc, model, order, q, q + 1),
{
    let m = model[order[q] as int].1;
    assert forall|line: u64| #[trigger] hit_at(acc, line) is Some <==> group_has(model, order, q, q + 1, line) by {
        lemma_lists_map_hit(acc, m, line);
    }
    assert forall|line: u64| #[trigger] hit_at(acc, line) is Some implies {
        &&& exists|x: int|
            q <= x < q + 1 && #[trigger] model[order[x] as int].1.contains_key(line) && model[order[x] as int].1[line]
                == hit_at(acc, line)->0
        &&& forall|x: int|
            q <= x < q + 1 && #[trigger] model[order[x] as int].1.contains_key(line) ==> model[order[x] as int].1[line]
                <= hit_at(acc, line)->0
    } by {
        lemma_lists_map_hit(acc, m, line);
        assert(model[order[q] as int].1.contains_key(line));
    }
}

proof fn lemma_group_extend(
    acc: Seq<LineHit>,
    merged: Seq<LineHit>,
    next: Seq<LineHit>,
    model: Seq<(Seq<char>, Map<u64, u64>)>,
    order: Seq<usize>,
    lo: int,
    hi: int,
)
    requires
        0 <= lo < hi < order.len(),
        group_merged(acc, model, order, lo, hi),
        lists_map(next, model[order[hi] as int].1),
        ascending(merged),
        forall|line: u64| #[trigger] hit_at(merged, line) == max_hit(hit_at(acc, line), hit_at(next, line)),
    ensures
        group_merged(merged, model, order, lo, hi + 1),
{
    let m = model[order[hi] as int].1;
    assert forall|line: u64| #[trigger] hit_at(merged, line) is Some <==> group_has(model, order, lo, hi + 1, line) by {
        lemma_lists_map_hit(next, m, line);
        assert(hit_at(merged, line) == max_hit(hit_at(acc, line), hit_at(next, line)));
        if group_has(model, order, lo, hi + 1, line) {
            let x = choose|x: int| lo <= x < hi + 1 && #[trigger] model[order[x] as int].1.contains_key(line);
            if x < hi {
                assert(group_has(model, order, lo, hi, line));
            }
        }
        if hit_at(acc, line) is Some {
            assert(group_has(model, order, lo, hi, line));
            let x = choose|x: int| lo <= x < hi && #[trigger] model[order[x] as int].1.contains_key(line);
            assert(lo <= x < hi + 1 && model[order[x] as int].1.contains_key(line));
        }
        if hit_at(next, line) is Some {
            assert(lo <= hi < hi + 1 && model[order[hi] as int].1.contains_key(line));
        }
    }
    assert forall|line: u64| #[trigger] hit_at(merged, line) is Some implies {
        &&& exists|x: int|
            lo <= x < hi + 1 && #[trigger] model[order[x] as int].1.contains_key(line) && model[order[x] as int].1[line]
                == hit_at(merged, line)->0
        &&& forall|x: int|
            lo <= x < hi + 1 && #[trigger] model[order[x] as int].1.contains_key(line) ==> model[order[x] as int].1[line]
                <= hit_at(merged, line)->0
    } by {
        lemma_lists_map_hit(next, m, line);
        assert(hit_at(merged, line) == max_hit(hit_at(acc, line), hit_at(next, line)));
        let h = hit_at(merged, line)->0;
        if hit_at(acc, line) is Some {
            let x = choose|x: int|
                lo <= x < hi && #[trigger] model[order[x] as int].1.contains_key(line) && model[order[x] as int].1[line]
                    == hit_at(acc, line)->0;
            if hit_at(next, line) is Some && m[line] > hit_at(acc, line)->0 {
                assert(lo <= hi < hi + 1 && model[order[hi] as int].1.contains_key(line) && model[order[hi] as int].1[line] == h);
            } else {
                assert(lo <= x < hi + 1 && model[order[x] as int].1.contains_key(line) && model[order[x] as int].1[line] == h);
            }
        } else {
            assert(lo <= hi < hi + 1 && model[order[hi] as int].1.contains_key(line) && model[order[hi] as int].1[line] == h);
        }
        assert forall|x: int|
            lo <= x < hi + 1 && #[trigger] model[order[x] as int].1.contains_key(line) implies model[order[x] as int].1[line]
                <= h by {
            if x < hi {
                assert(group_has(model, order, lo, hi, line));
            }
        }
    }
}

/// In a stable sort, the run of positions holding one key, bounded by other keys on both sides,
/// holds every position with that key.
proof fn lemma_run_is_complete(
    paths: Seq<Seq<char>>,
    order: Seq<usize>,
    lo: int,
    hi: int,
    path: Seq<char>,
    q: int,
)
    requires
        stably_sorted(paths, order),
        forall|x: int| 0 <= x < order.len() ==> #[trigger] order[x] < paths.len(),
        0 <= lo < hi <= order.len(),
        forall|x: int| lo <= x < hi ==> #[trigger] paths[order[x] as int] == path,
        lo == 0 || paths[order[lo - 1] as int] != path,
        hi == order.len() || paths[order[hi] as int] != path,
        0 <= q < order.len(),
        paths[order[q] as int] == path,
    ensures
        lo <= q < hi,
{
    if q < lo {
        let before = paths[order[lo - 1] as int];
        assert(paths[order[lo] as int] == path);
        if q < lo - 1 {
            assert(index_lt(paths, order[q] as int, order[lo - 1] as int));
            assert(index_lt(paths, order[lo - 1] as int, order[lo] as int));
            lemma_text_trichotomy(path, before);
        }
    } else if q >= hi {
        let after = paths[order[hi] as int];
        assert(paths[order[hi - 1] as int] == path);
        if q > hi {
            assert(index_lt(paths, order[hi - 1] as int, order[hi] as int));
            assert(index_lt(paths, order[hi] as int, order[q] as int));
            lemma_text_trichotomy(path, after);
        }
    }
}

/// A copy of a list of line hits.
fn copy_hits(v: &Vec<LineHit>) -> (out: Vec<LineHit>)
    ensures
        out@ == v@,
{
    let mut out: Vec<LineHit> = Vec::new();
    let mut i: usize = 0;
    while i < v.len()
        invariant
            i <= v.len(),
            out@ == v@.take(i as int),
        decreases v.len() - i,
    {
        out.push(v[i]);
        assert(v@.take(i + 1) =~= v@.take(i as int).push(v@[i as int]));
        i = i + 1;
    }
    assert(v@.take(v.len() as int) =~= v@);
    out
}

/// A copy of a list of characters.
fn copy_chars(v: &Vec<char>) -> (out: Vec<char>)
    ensures
        out@ == v@,
{
    let mut out: Vec<char> = Vec::new();
    extend_chars(&mut out, v.as_slice());
    assert(out@ =~= v@);
    out
}

/// The files of a report: one per distinct path among `records`, ascending by path, each the
/// merge of every record for its path.
pub fn merge_records(
    records: &Vec<(Vec<char>, Vec<LineHit>)>,
    Ghost(model): Ghost<Seq<(Seq<char>, Map<u64, u64>)>>,
) -> (files: Vec<FileCoverage>)
    requires
        records_agree(records@, model),
    ensures
        merges_records(files@, model),
        files.len() <= records.len(),
{
    let n = records.len();
    let mut keys: Vec<Vec<char>> = Vec::new();
    let ghost paths = Seq::new(n as nat, |i: int| model[i].0);
    let mut i: usize = 0;
    while i < n
        invariant
            i <= n,
            n == records.len(),
            records_agree(records@, model),
            paths == Seq::new(n as nat, |i: int| model[i].0),
            key_views(keys@) == paths.take(i as int),
        decreases n - i,
    {
        let row = copy_chars(&records[i].0);
        proof {
            lemma_key_views_push(keys@, row);
            assert(paths.take(i + 1) =~= paths.take(i as int).push(row@));
        }
        keys.push(row);
        i = i + 1;
    }
    assert(paths.take(n as int) =~= paths);
    let order = stable_order(&keys);
    let mut files: Vec<FileCoverage> = Vec::new();
    if n == 0 {
        return files;
    }
    let first = order[0];
    let mut cur = copy_chars(&keys[first]);
    let mut acc = copy_hits(&records[first].1);
    proof {
        assert(records@[first as int].0@ == model[first as int].0);
        assert(key_views(keys@)[first as int] == keys@[first as int]@);
        lemma_group_start(acc@, model, order@, 0);
    }
    let mut gs: usize = 0;
    let ghost mut bounds: Seq<(int, int)> = Seq::empty();
    let ghost mut owner: Seq<int> = seq![0int];
    let mut p: usize = 1;
    while p < n
        invariant
            1 <= p <= n,
            n == records.len(),
            n == order.len(),
            records_agree(records@, model),
            paths == Seq::new(n as nat, |i: int| model[i].0),
            key_views(keys@) == paths,
            keys.len() == n,
            forall|q: int| 0 <= q < n ==> #[trigger] order@[q] < n,
            forall|x: usize| x < n ==> order@.contains(x),
            stably_sorted(paths, order@),
            gs < p,
            cur@ == paths[order@[gs as int] as int],
            forall|q: int| gs <= q < p ==> #[trigger] paths[order@[q] as int] == cur@,
            gs > 0 ==> paths[order@[gs - 1] as int] != cur@,
            group_merged(acc@, model, order@, gs as int, p as int),
            bounds.len() == files.len(),
            files.len() <= gs,
            owner.len() == p,
            forall|q: int|
                0 <= q < p ==> 0 <= #[trigger] owner[q] && ((owner[q] < files.len() && files@[owner[q]].raw_path@ == paths[order@[q] as int])
                    || (owner[q] == files.len() && gs <= q)),
            forall|f: int|
                0 <= f < files.len() ==> {
                    let lo = #[trigger] bounds[f].0;
                    let hi = bounds[f].1;
                    &&& 0 <= lo < hi <= gs
                    &&& forall|q: int| lo <= q < hi ==> #[trigger] paths[order@[q] as int] == files@[f].raw_path@
                    &&& (lo == 0 || paths[order@[lo - 1] as int] != files@[f].raw_path@)
                    &&& paths[order@[hi] as int] != files@[f].raw_path@
                    &&& files@[f].raw_path@ == paths[order@[lo] as int]
                    &&& group_merged(files@[f].lines@, model, order@, lo, hi)
                },
            forall|f1: int, f2: int|
                0 <= f1 < f2 < files.len() ==> text_lt(files@[f1].raw_path@, files@[f2].raw_path@),
            forall|f: int| 0 <= f < files.len() ==> text_lt(#[trigger] files@[f].raw_path@, cur@),
        decreases n - p,
    {
        let r = order[p];
        let prev = order[p - 1];
        proof {
            assert(key_views(keys@)[r as int] == keys@[r as int]@);
            assert(key_views(keys@)[prev as int] == keys@[prev as int]@);
            assert(records@[r as int].0@ == model[r as int].0);
        }
        if chars_eq(keys[r].as_slice(), keys[prev].as_slice()) {
            let merged = merge_max(&acc, &records[r].1);
            proof {
                lemma_group_extend(acc@, merged@, records@[r as int].1@, model, order@, gs as int, p as int);
                owner = owner.push(files.len() as int);
            }
            acc = merged;
        } else {
            let ghost old_files = files@;
            let ghost old_cur = cur@;
            proof {
                assert(index_lt(paths, prev as int, r as int));
                assert(text_lt(old_cur, paths[r as int]));
            }
            let file = FileCoverage { raw_path: string_of(cur.as_slice()), lines: acc };
            files.push(file);
            proof {
                bounds = bounds.push((gs as int, p as int));
                owner = owner.push(files.len() as int);
                assert forall|f1: int, f2: int|
                    0 <= f1 < f2 < files.len() implies text_lt(files@[f1].raw_path@, files@[f2].raw_path@) by {
                    if f2 < old_files.len() {
                        assert(files@[f1] == old_files[f1] && files@[f2] == old_files[f2]);
                    } else {
                        assert(files@[f1] == old_files[f1]);
                    }
                }
                assert forall|f: int| 0 <= f < files.len() implies text_lt(#[trigger] files@[f].raw_path@, paths[r as int]) by {
                    if f < old_files.len() {
                        assert(files@[f] == old_files[f]);
                        lemma_text_transitive(old_files[f].raw_path@, old_cur, paths[r as int]);
                    }
                }
            }
            cur = copy_chars(&keys[r]);
            acc = copy_hits(&records[r].1);
            proof {
                lemma_group_start(acc@, model, order@, p as int);
            }
            gs = p;
            proof {
                assert forall|q: int|
                    0 <= q < p + 1 implies 0 <= #[trigger] owner[q] && ((owner[q] < files.len() && files@[owner[q]].raw_path@ == paths[order@[q] as int])
                        || (owner[q] == files.len() && gs <= q)) by {
                    if q < p {
                        if owner[q] < old_files.len() {
                            assert(files@[owner[q]] == old_files[owner[q]]);
                        }
                    }
                }
                assert forall|f: int| 0 <= f < files.len() implies {
                    let lo = #[trigger] bounds[f].0;
                    let hi = bounds[f].1;
                    &&& 0 <= lo < hi <= gs
                    &&& forall|q: int| lo <= q < hi ==> #[trigger] paths[order@[q] as int] == files@[f].raw_path@
                    &&& (lo == 0 || paths[order@[lo - 1] as int] != files@[f].raw_path@)
                    &&& paths[order@[hi] as int] != files@[f].raw_path@
                    &&& files@[f].raw_path@ == paths[order@[lo] as int]
                    &&& group_merged(files@[f].lines@, model, order@, lo, hi)
                } by {
                    if f < old_files.len() {
                        assert(files@[f] == old_files[f]);
                    }
                }
            }
        }
        p = p + 1;
    }
    let ghost old_files = files@;
    let file = FileCoverage { raw_path: string_of(cur.as_slice()), lines: acc };
    files.push(file);
    proof {
        bounds = bounds.push((gs as int, n as int));
        assert forall|f1: int, f2: int|
            0 <= f1 < f2 < files.len() implies text_lt(files@[f1].raw_path@, files@[f2].raw_path@) by {
            if f2 < old_files.len() {
                assert(files@[f1] == old_files[f1] && files@[f2] == old_files[f2]);
            } else {
                assert(files@[f1] == old_files[f1]);
            }
        }
        assert forall|q: int| 0 <= q < n implies #[trigger] owner[q] < files.len() && 0 <= owner[q] && files@[owner[q]].raw_path@
            == paths[order@[q] as int] by {
            if owner[q] < old_files.len() {
                assert(files@[owner[q]] == old_files[owner[q]]);
            }
        }
        assert forall|f: int| 0 <= f < files.len() implies {
            let lo = #[trigger] bounds[f].0;
            let hi = bounds[f].1;
            &&& 0 <= lo < hi <= n
            &&& forall|q: int| lo <= q < hi ==> #[trigger] paths[order@[q] as int] == files@[f].raw_path@
            &&& (lo == 0 || paths[order@[lo - 1] as int] != files@[f].raw_path@)
            &&& (hi == n || paths[order@[hi] as int] != files@[f].raw_path@)
            &&& files@[f].raw_path@ == paths[order@[lo] as int]
            &&& group_merged(files@[f].lines@, model, order@, lo, hi)
        } by {
            if f < old_files.len() {
                assert(files@[f] == old_files[f]);
            }
        }
        lemma_files_merge(files@, model, order@, paths, bounds, owner);
    }
    files
}

proof fn lemma_files_merge(
    files: Seq<FileCoverage>,
    model: Seq<(Seq<char>, Map<u64, u64>)>,
    order: Seq<usize>,
    paths: Seq<Seq<char>>,
    bounds: Seq<(int, int)>,
    owner: Seq<int>,
)
    requires
        paths == Seq::new(model.len(), |i: int| model[i].0),
        order.len() == model.len(),
        model.len() <= usize::MAX,
        forall|q: int| 0 <= q < order.len() ==> #[trigger] order[q] < order.len(),
        forall|x: usize| x < order.len() ==> order.contains(x),
        stably_sorted(paths, order),
        bounds.len() == files.len(),
        owner.len() == order.len(),
        forall|q: int| 0 <= q < order.len() ==> #[trigger] owner[q] < files.len() && 0 <= owner[q] && files[owner[q]].raw_path@
            == paths[order[q] as int],
        forall|f: int|
            0 <= f < files.len() ==> {
                let lo = #[trigger] bounds[f].0;
                let hi = bounds[f].1;
                &&& 0 <= lo < hi <= order.len()
                &&& forall|q: int| lo <= q < hi ==> #[trigger] paths[order[q] as int] == files[f].raw_path@
                &&& (lo == 0 || paths[order[lo - 1] as int] != files[f].raw_path@)
                &&& (hi == order.len() || paths[order[hi] as int] != files[f].raw_path@)
                &&& files[f].raw_path@ == paths[order[lo] as int]
                &&& group_merged(files[f].lines@, model, order, lo, hi)
            },
        forall|f1: int, f2: int|
            0 <= f1 < f2 < files.len() ==> text_lt(files[f1].raw_path@, files[f2].raw_path@),
    ensures
        merges_records(files, model),
{
    assert forall|i: int| 0 <= i < files.len() implies names_path(model, #[trigger] files[i].raw_path@) by {
        let lo = bounds[i].0;
        let r = order[lo] as int;
        assert(paths[r] == model[r].0);
        assert(0 <= r < model.len() && model[r].0 == files[i].raw_path@);
    }
    assert forall|r: int| 0 <= r < model.len() implies has_file(files, #[trigger] model[r].0) by {
        assert(order.contains(r as usize));
        let q = choose|q: int| 0 <= q < order.len() && order[q] == r as usize;
        assert(owner[q] < files.len());
        assert(paths[r] == model[r].0);
        assert(files[owner[q]].raw_path@ == model[r].0);
    }
    assert forall|i: int| 0 <= i < files.len() implies ascending(#[trigger] files[i].lines@) by {
        let lo = bounds[i].0;
    }
    assert forall|i: int, line: u64| 0 <= i < files.len() implies ((exists|r: int|
        #[trigger] record_states(model, r, files[i].raw_path@, line)) <==> hit_at(files[i].lines@, line) is Some) by {
        let lo = bounds[i].0;
        let hi = bounds[i].1;
        let path = files[i].raw_path@;
        if exists|r: int| #[trigger] record_states(model, r, path, line) {
            let r = choose|r: int| #[trigger] record_states(model, r, path, line);
            assert(order.contains(r as usize));
            let q = choose|q: int| 0 <= q < order.len() && order[q] == r as usize;
            assert(paths[r] == model[r].0);
            lemma_run_is_complete(paths, order, lo, hi, path, q);
            assert(group_has(model, order, lo, hi, line));
        }
        if hit_at(files[i].lines@, line) is Some {
            assert(group_has(model, order, lo, hi, line));
            let q = choose|q: int| lo <= q < hi && #[trigger] model[order[q] as int].1.contains_key(line);
            assert(paths[order[q] as int] == model[order[q] as int].0);
            assert(record_states(model, order[q] as int, path, line));
        }
    }
    assert forall|i: int, line: u64|
        0 <= i < files.len() && #[trigger] hit_at(files[i].lines@, line) is Some implies is_max_hit(
            model,
            files[i].raw_path@,
            line,
            hit_at(files[i].lines@, line)->0,
        ) by {
        let lo = bounds[i].0;
        let hi = bounds[i].1;
        let path = files[i].raw_path@;
        let h = hit_at(files[i].lines@, line)->0;
        let q = choose|q: int|
            lo <= q < hi && #[trigger] model[order[q] as int].1.contains_key(line) && model[order[q] as int].1[line] == h;
        assert(paths[order[q] as int] == model[order[q] as int].0);
        assert(record_states(model, order[q] as int, path, line));
        assert forall|r: int| #[trigger] record_states(model, r, path, line) implies model[r].1[line] <= h by {
            assert(order.contains(r as usize));
            let x = choose|x: int| 0 <= x < order.len() && order[x] == r as usize;
            assert(paths[r] == model[r].0);
            lemma_run_is_complete(paths, order, lo, hi, path, x);
        }
    }
}

} // verus!
