//! Lexicographic order on text, and a stable sort over it.
//!
//! Text is ordered by code point, character by character, with a proper prefix first. That is
//! the order `String` compares in, because UTF-8 preserves code-point order byte for byte.
use vstd::prelude::*;

verus! {

/// `a` sorts strictly before `b`.
pub open spec fn text_lt(a: Seq<char>, b: Seq<char>) -> bool
    decreases a.len(),
{
    if a.len() == 0 {
        b.len() > 0
    } else if b.len() == 0 {
        false
    } else if a[0] != b[0] {
        a[0] < b[0]
    } else {
        text_lt(a.drop_first(), b.drop_first())
    }
}

/// Exactly one of `a < b`, `a == b`, `b < a` holds.
pub proof fn lemma_text_trichotomy(a: Seq<char>, b: Seq<char>)
    ensures
        text_lt(a, b) || a == b || text_lt(b, a),
        !(text_lt(a, b) && text_lt(b, a)),
        !text_lt(a, a),
    decreases a.len(),
{
    if a.len() > 0 && b.len() > 0 {
        lemma_text_trichotomy(a.drop_first(), b.drop_first());
        if a[0] == b[0] && a.drop_first() == b.drop_first() {
            assert(a =~= seq![a[0]] + a.drop_first());
            assert(b =~= seq![b[0]] + b.drop_first());
        }
    } else if a.len() == 0 && b.len() == 0 {
        assert(a =~= b);
    }
    if a.len() > 0 {
        lemma_text_trichotomy(a.drop_first(), a.drop_first());
    }
}

/// The order is transitive.
pub proof fn lemma_text_transitive(a: Seq<char>, b: Seq<char>, c: Seq<char>)
    requires
        text_lt(a, b),
        text_lt(b, c),
    ensures
        text_lt(a, c),
    decreases a.len(),
{
    if a.len() > 0 && b.len() > 0 && c.len() > 0 {
        if a[0] == b[0] && b[0] == c[0] {
            lemma_text_transitive(a.drop_first(), b.drop_first(), c.drop_first());
        }
    }
}

/// Whether `a` sorts strictly before `b`, by code point.
pub fn text_precedes(a: &[char], b: &[char]) -> (before: bool)
    ensures
        before == text_lt(a@, b@),
{
    let mut i: usize = 0;
    assert(a@.skip(0) =~= a@);
    assert(b@.skip(0) =~= b@);
    while i < a.len() && i < b.len()
        invariant
            i <= a.len(),
            i <= b.len(),
            forall|j: int| 0 <= j < i ==> a@[j] == b@[j],
            text_lt(a@, b@) == text_lt(a@.skip(i as int), b@.skip(i as int)),
        decreases a.len() - i,
    {
        if a[i] != b[i] {
            assert(a@.skip(i as int)[0] == a@[i as int]);
            assert(b@.skip(i as int)[0] == b@[i as int]);
            return a[i] < b[i];
        }
        assert(a@.skip(i as int).drop_first() =~= a@.skip(i + 1));
        assert(b@.skip(i as int).drop_first() =~= b@.skip(i + 1));
        i = i + 1;
    }
    i < b.len()
}

/// Position `i` precedes position `j` in the stable order of `keys`: by key, then by position.
pub open spec fn index_lt(keys: Seq<Seq<char>>, i: int, j: int) -> bool {
    text_lt(keys[i], keys[j]) || (keys[i] == keys[j] && i < j)
}

/// The stable order is transitive.
pub proof fn lemma_index_transitive(keys: Seq<Seq<char>>, i: int, j: int, k: int)
    requires
        index_lt(keys, i, j),
        index_lt(keys, j, k),
    ensures
        index_lt(keys, i, k),
{
    if text_lt(keys[i], keys[j]) && text_lt(keys[j], keys[k]) {
        lemma_text_transitive(keys[i], keys[j], keys[k]);
    }
}

/// The stable order is total on distinct positions.
pub proof fn lemma_index_total(keys: Seq<Seq<char>>, i: int, j: int)
    ensures
        i != j ==> (index_lt(keys, i, j) || index_lt(keys, j, i)),
        !(index_lt(keys, i, j) && index_lt(keys, j, i)),
        !index_lt(keys, i, i),
{
    lemma_text_trichotomy(keys[i], keys[j]);
    lemma_text_trichotomy(keys[i], keys[i]);
}

/// `order` lists positions of `keys` in strictly increasing stable order.
pub open spec fn stably_sorted(keys: Seq<Seq<char>>, order: Seq<usize>) -> bool {
    forall|p: int, q: int|
        0 <= p < q < order.len() ==> index_lt(keys, order[p] as int, order[q] as int)
}

/// The views of a vector of character vectors.
pub open spec fn key_views(keys: Seq<Vec<char>>) -> Seq<Seq<char>> {
    keys.map_values(|k: Vec<char>| k@)
}

/// Pushing a row pushes its view.
pub proof fn lemma_key_views_push(keys: Seq<Vec<char>>, row: Vec<char>)
    ensures
        key_views(keys.push(row)) == key_views(keys).push(row@),
{
    assert(key_views(keys.push(row)) =~= key_views(keys).push(row@));
}

fn merge_orders(keys: &Vec<Vec<char>>, left: Vec<usize>, right: Vec<usize>, lo: usize, hi: usize) -> (out: Vec<usize>)
    requires
        forall|p: int| 0 <= p < left.len() ==> lo <= #[trigger] left@[p] < hi,
        forall|p: int| 0 <= p < right.len() ==> lo <= #[trigger] right@[p] < hi,
        hi <= keys.len(),
        stably_sorted(key_views(keys@), left@),
        stably_sorted(key_views(keys@), right@),
        forall|p: int, q: int| 0 <= p < left.len() && 0 <= q < right.len() ==> left@[p] < right@[q],
    ensures
        out.len() == left.len() + right.len(),
        forall|p: int| 0 <= p < out.len() ==> lo <= #[trigger] out@[p] < hi,
        stably_sorted(key_views(keys@), out@),
        forall|x: usize| left@.contains(x) ==> out@.contains(x),
        forall|x: usize| right@.contains(x) ==> out@.contains(x),
{
    let ghost ks = key_views(keys@);
    let mut out: Vec<usize> = Vec::new();
    let mut i: usize = 0;
    let mut j: usize = 0;
    while i < left.len() || j < right.len()
        invariant
            i <= left.len(),
            j <= right.len(),
            out.len() == i + j,
            ks == key_views(keys@),
            hi <= keys.len(),
            forall|p: int| 0 <= p < left.len() ==> lo <= #[trigger] left@[p] < hi,
            forall|p: int| 0 <= p < right.len() ==> lo <= #[trigger] right@[p] < hi,
            forall|p: int| 0 <= p < out.len() ==> lo <= #[trigger] out@[p] < hi,
            stably_sorted(ks, left@),
            stably_sorted(ks, right@),
            stably_sorted(ks, out@),
            forall|p: int, q: int| 0 <= p < left.len() && 0 <= q < right.len() ==> left@[p] < right@[q],
            forall|p: int| 0 <= p < i ==> out@.contains(#[trigger] left@[p]),
            forall|p: int| 0 <= p < j ==> out@.contains(#[trigger] right@[p]),
            out.len() > 0 && i < left.len() ==> index_lt(ks, out@.last() as int, left@[i as int] as int),
            out.len() > 0 && j < right.len() ==> index_lt(ks, out@.last() as int, right@[j as int] as int),
        decreases left.len() + right.len() - i - j,
    {
        let take_left: bool;
        if i == left.len() {
            take_left = false;
        } else if j == right.len() {
            take_left = true;
        } else {
            let l = left[i];
            let r = right[j];
            proof {
                lemma_index_total(ks, l as int, r as int);
            }
            if text_precedes(keys[r].as_slice(), keys[l].as_slice()) {
                take_left = false;
            } else if text_precedes(keys[l].as_slice(), keys[r].as_slice()) {
                take_left = true;
            } else {
                proof {
                    lemma_text_trichotomy(ks[l as int], ks[r as int]);
                }
                take_left = l < r;
            }
        }
        let ghost old_out = out@;
        let x = if take_left { left[i] } else { right[j] };
        proof {
            if take_left {
                if j < right.len() {
                    assert(index_lt(ks, x as int, right@[j as int] as int));
                }
            } else {
                if i < left.len() {
                    assert(index_lt(ks, x as int, left@[i as int] as int));
                }
            }
        }
        out.push(x);
        proof {
            assert forall|p: int, q: int| 0 <= p < q < out@.len() implies index_lt(ks, out@[p] as int, out@[q] as int) by {
                if q == out@.len() - 1 && p < q {
                    if p < old_out.len() - 1 {
                        lemma_index_transitive(ks, out@[p] as int, old_out.last() as int, x as int);
                    }
                }
            }
            assert forall|p: int| 0 <= p < old_out.len() implies out@[p] == old_out[p] by {}
        }
        if take_left {
            proof {
                assert forall|p: int| 0 <= p < i + 1 implies out@.contains(#[trigger] left@[p]) by {
                    if p < i {
                        let w = choose|w: int| 0 <= w < old_out.len() && old_out[w] == left@[p];
                        assert(out@[w] == left@[p]);
                    } else {
                        assert(out@[out@.len() - 1] == left@[p]);
                    }
                }
                assert forall|p: int| 0 <= p < j implies out@.contains(#[trigger] right@[p]) by {
                    let w = choose|w: int| 0 <= w < old_out.len() && old_out[w] == right@[p];
                    assert(out@[w] == right@[p]);
                }
                if i + 1 < left.len() {
                    assert(index_lt(ks, left@[i as int] as int, left@[i + 1] as int));
                }
            }
            i = i + 1;
        } else {
            proof {
                assert forall|p: int| 0 <= p < j + 1 implies out@.contains(#[trigger] right@[p]) by {
                    if p < j {
                        let w = choose|w: int| 0 <= w < old_out.len() && old_out[w] == right@[p];
                        assert(out@[w] == right@[p]);
                    } else {
                        assert(out@[out@.len() - 1] == right@[p]);
                    }
                }
                assert forall|p: int| 0 <= p < i implies out@.contains(#[trigger] left@[p]) by {
                    let w = choose|w: int| 0 <= w < old_out.len() && old_out[w] == left@[p];
                    assert(out@[w] == left@[p]);
                }
                if j + 1 < right.len() {
                    assert(index_lt(ks, right@[j as int] as int, right@[j + 1] as int));
                }
            }
            j = j + 1;
        }
    }
    proof {
        assert forall|x: usize| left@.contains(x) implies out@.contains(x) by {
            let p = choose|p: int| 0 <= p < left@.len() && left@[p] == x;
            assert(out@.contains(left@[p]));
        }
        assert forall|x: usize| right@.contains(x) implies out@.contains(x) by {
            let p = choose|p: int| 0 <= p < right@.len() && right@[p] == x;
            assert(out@.contains(right@[p]));
        }
    }
    out
}

fn sort_range(keys: &Vec<Vec<char>>, lo: usize, hi: usize) -> (out: Vec<usize>)
    requires
        lo <= hi <= keys.len(),
    ensures
        out.len() == hi - lo,
        forall|p: int| 0 <= p < out.len() ==> lo <= #[trigger] out@[p] < hi,
        stably_sorted(key_views(keys@), out@),
        forall|x: usize| lo <= x < hi ==> out@.contains(x),
    decreases hi - lo,
{
    if hi - lo == 0 {
        return Vec::new();
    }
    if hi - lo == 1 {
        let mut out: Vec<usize> = Vec::new();
        out.push(lo);
        assert(out@[0] == lo);
        return out;
    }
    let mid = lo + (hi - lo) / 2;
    let left = sort_range(keys, lo, mid);
    let right = sort_range(keys, mid, hi);
    assert forall|p: int, q: int| 0 <= p < left.len() && 0 <= q < right.len() implies left@[p] < right@[q] by {
        assert(left@[p] < mid);
        assert(mid <= right@[q]);
    }
    let out = merge_orders(keys, left, right, lo, hi);
    proof {
        assert forall|x: usize| lo <= x < hi implies out@.contains(x) by {
            if x < mid {
                assert(left@.contains(x));
            } else {
                assert(right@.contains(x));
            }
        }
    }
    out
}

/// The positions of `keys`, listed in stable sorted order: by key, and by position among equal
/// keys. Every position appears exactly once.
pub fn stable_order(keys: &Vec<Vec<char>>) -> (order: Vec<usize>)
    ensures
        order.len() == keys.len(),
        forall|p: int| 0 <= p < order.len() ==> #[trigger] order@[p] < keys.len(),
        stably_sorted(key_views(keys@), order@),
        forall|x: usize| x < keys.len() ==> order@.contains(x),
{
    sort_range(keys, 0, keys.len())
}

} // verus!

verus! {

/// `keys` is strictly ascending.
pub open spec fn strictly_ascending(keys: Seq<Seq<char>>) -> bool {
    forall|i: int, j: int| 0 <= i < j < keys.len() ==> text_lt(keys[i], keys[j])
}

/// The distinct keys of `keys`, ascending.
pub fn sorted_unique(keys: &Vec<Vec<char>>) -> (out: Vec<Vec<char>>)
    ensures
        strictly_ascending(key_views(out@)),
        forall|i: int| 0 <= i < out.len() ==> key_views(keys@).contains(#[trigger] key_views(out@)[i]),
        forall|j: int| 0 <= j < keys.len() ==> key_views(out@).contains(#[trigger] key_views(keys@)[j]),
{
    let order = stable_order(keys);
    let ghost ks = key_views(keys@);
    let mut out: Vec<Vec<char>> = Vec::new();
    let mut p: usize = 0;
    while p < order.len()
        invariant
            p <= order.len(),
            order.len() == keys.len(),
            ks == key_views(keys@),
            forall|q: int| 0 <= q < order.len() ==> #[trigger] order@[q] < keys.len(),
            stably_sorted(ks, order@),
            strictly_ascending(key_views(out@)),
            forall|i: int| 0 <= i < out.len() ==> ks.contains(#[trigger] key_views(out@)[i]),
            forall|q: int| 0 <= q < p ==> key_views(out@).contains(#[trigger] ks[order@[q] as int]),
            p > 0 ==> out.len() > 0 && key_views(out@).last() == ks[order@[p - 1] as int],
            p == 0 ==> out.len() == 0,
        decreases order.len() - p,
    {
        let k = order[p];
        assert(ks[k as int] == keys@[k as int]@);
        let fresh = if p == 0 {
            true
        } else {
            let last = out.len() - 1;
            assert(key_views(out@)[last as int] == out@[last as int]@);
            !crate::text::chars_eq(out[last].as_slice(), keys[k].as_slice())
        };
        let ghost before = key_views(out@);
        if fresh {
            let mut row: Vec<char> = Vec::new();
            crate::text::extend_chars(&mut row, keys[k].as_slice());
            assert(row@ =~= keys@[k as int]@);
            proof {
                lemma_key_views_push(out@, row);
                if p > 0 {
                    let prev = order@[p - 1] as int;
                    assert(index_lt(ks, prev, k as int));
                    assert(text_lt(ks[prev], ks[k as int]));
                    assert forall|i: int| 0 <= i < before.len() implies text_lt(before[i], ks[k as int]) by {
                        if i < before.len() - 1 {
                            lemma_text_transitive(before[i], before.last(), ks[k as int]);
                        }
                    }
                }
            }
            out.push(row);
            proof {
                let now = key_views(out@);
                assert(now =~= before.push(ks[k as int]));
                assert forall|q: int| 0 <= q < p + 1 implies now.contains(#[trigger] ks[order@[q] as int]) by {
                    if q < p {
                        let x = choose|x: int| 0 <= x < before.len() && before[x] == ks[order@[q] as int];
                        assert(now[x] == before[x]);
                    } else {
                        assert(now[now.len() - 1] == ks[k as int]);
                    }
                }
                assert(ks.contains(ks[k as int]));
            }
        } else {
            proof {
                assert(before.contains(ks[k as int])) by {
                    assert(before[before.len() - 1] == ks[k as int]);
                }
            }
        }
        p = p + 1;
    }
    proof {
        assert forall|j: int| 0 <= j < keys.len() implies key_views(out@).contains(#[trigger] key_views(keys@)[j]) by {
            let x = j as usize;
            assert(order@.contains(x));
            let q = choose|q: int| 0 <= q < order@.len() && order@[q] == x;
        }
    }
    out
}

} // verus!
