//! A parsed module held as plain values: every node of one parse, children by index.
use vstd::prelude::*;
use vstd::string::StringSliceAdditionalSpecFns;
use vstd::slice::slice_subrange;
use crate::text::{str_eq, utf8_text, string_of_str};

verus! {

/// One node of a parse.
pub struct SyntaxNode {
    /// Grammar kind, as the parser names it.
    pub kind: String,
    /// Name of the field under which the parent holds this node, if any.
    pub field: Option<String>,
    /// Whether the grammar names the node (keywords and punctuation are anonymous).
    pub named: bool,
    /// First byte of the node in the source.
    pub start_byte: usize,
    /// One past the last byte of the node in the source.
    pub end_byte: usize,
    /// Indices of the children in [`SyntaxTree::nodes`], in source order.
    pub children: Vec<usize>,
}

/// A whole parse. Node 0 is the root.
pub struct SyntaxTree {
    /// Every node; a child always comes after its parent.
    pub nodes: Vec<SyntaxNode>,
}

impl SyntaxTree {
    /// Number of nodes.
    pub open spec fn size(&self) -> int {
        self.nodes@.len() as int
    }

    /// Index of the `k`th child of node `i`.
    pub open spec fn child(&self, i: int, k: int) -> int {
        self.nodes@[i].children@[k] as int
    }

    /// Number of children of node `i`.
    pub open spec fn arity(&self, i: int) -> int {
        self.nodes@[i].children@.len() as int
    }

    /// The `k`th child of node `i` comes after it and lies inside it.
    pub open spec fn child_inside(&self, i: int, k: int) -> bool {
        let c = self.child(i, k);
        &&& i < c < self.size()
        &&& self.nodes@[i].start_byte <= self.nodes@[c].start_byte
        &&& self.nodes@[c].end_byte <= self.nodes@[i].end_byte
    }

    /// The `k`th child of node `i` spans a range.
    pub open spec fn child_spans(&self, i: int, k: int) -> bool {
        self.nodes@[self.child(i, k)].start_byte <= self.nodes@[self.child(i, k)].end_byte
    }

    /// The children `k` and `m` of node `i` do not overlap, the earlier one first.
    pub open spec fn children_ordered(&self, i: int, k: int, m: int) -> bool {
        self.nodes@[self.child(i, k)].end_byte <= self.nodes@[self.child(i, m)].start_byte
    }

    /// Node `i` spans a range inside a source of `len` bytes, and its children are in order
    /// inside it.
    pub open spec fn node_ok(&self, i: int, len: int) -> bool {
        &&& self.nodes@[i].start_byte <= self.nodes@[i].end_byte <= len
        &&& forall|k: int| 0 <= k < self.arity(i) ==> #[trigger] self.child_inside(i, k)
        &&& forall|k: int, m: int|
            0 <= k < m < self.arity(i) ==> #[trigger] self.children_ordered(i, k, m)
    }

    /// The shape every parse of a source of `len` bytes has.
    pub open spec fn well_formed(&self, len: int) -> bool {
        &&& self.size() > 0
        &&& forall|i: int| 0 <= i < self.size() ==> #[trigger] self.node_ok(i, len)
    }

    /// Whether node `n` is of grammar kind `kind`.
    pub open spec fn is_kind(&self, n: int, kind: Seq<char>) -> bool {
        self.nodes@[n].kind@ == kind
    }

    /// The first child of node `i` at or after position `k` held under `field`.
    pub open spec fn field_child_from(&self, i: int, field: Seq<char>, k: int) -> Option<int>
        decreases self.arity(i) - k,
    {
        if k < 0 || k >= self.arity(i) {
            None
        } else {
            let c = self.child(i, k);
            if 0 <= c < self.size() && (self.nodes@[c].field matches Some(f) && f@ == field) {
                Some(c)
            } else {
                self.field_child_from(i, field, k + 1)
            }
        }
    }

    /// The first child of node `i` held under `field`.
    pub open spec fn field_child(&self, i: int, field: Seq<char>) -> Option<int> {
        self.field_child_from(i, field, 0)
    }

    /// Whether some child of node `i` is of grammar kind `kind`.
    pub open spec fn has_kind_child(&self, i: int, kind: Seq<char>) -> bool {
        exists|k: int| 0 <= k < self.arity(i) && #[trigger] self.is_kind(self.child(i, k), kind)
    }

    /// The first child of `field_child_from` is a child, after `i`.
    pub proof fn lemma_field_child_from(&self, i: int, field: Seq<char>, k: int, len: int)
        requires
            self.well_formed(len),
            0 <= i < self.size(),
            0 <= k,
        ensures
            self.field_child_from(i, field, k) matches Some(c) ==> i < c < self.size(),
        decreases self.arity(i) - k,
    {
        if k < self.arity(i) {
            assert(self.node_ok(i, len));
            assert(self.child_inside(i, k));
            self.lemma_field_child_from(i, field, k + 1, len);
        }
    }

    /// The child of node `i` held under `field`, if any.
    pub fn field_child_of(&self, i: usize, field: &str) -> (c: Option<usize>)
        requires
            i < self.nodes@.len(),
        ensures
            c matches Some(x) ==> self.field_child(i as int, field@) == Some(x as int),
            c is None ==> self.field_child(i as int, field@) is None,
    {
        let n = self.nodes[i].children.len();
        let mut k: usize = 0;
        while k < n
            invariant
                i < self.nodes@.len(),
                n == self.arity(i as int),
                k <= n,
                self.field_child(i as int, field@) == self.field_child_from(i as int, field@, k as int),
            decreases n - k,
        {
            let c = self.nodes[i].children[k];
            if c < self.nodes.len() {
                if let Some(f) = &self.nodes[c].field {
                    if str_eq(f.as_str(), field) {
                        return Some(c);
                    }
                }
            }
            k = k + 1;
        }
        None
    }

    /// Whether some child of node `i` is of grammar kind `kind`.
    pub fn has_child_kind(&self, i: usize, kind: &str) -> (found: bool)
        requires
            i < self.nodes@.len(),
            forall|k: int| 0 <= k < self.arity(i as int) ==> self.child(i as int, k) < self.size(),
        ensures
            found == self.has_kind_child(i as int, kind@),
    {
        let n = self.nodes[i].children.len();
        let mut k: usize = 0;
        while k < n
            invariant
                i < self.nodes@.len(),
                n == self.arity(i as int),
                k <= n,
                forall|j: int| 0 <= j < self.arity(i as int) ==> self.child(i as int, j) < self.size(),
                forall|j: int| 0 <= j < k ==> !#[trigger] self.is_kind(self.child(i as int, j), kind@),
            decreases n - k,
        {
            let c = self.nodes[i].children[k];
            assert(self.child(i as int, k as int) < self.size());
            if str_eq(self.nodes[c].kind.as_str(), kind) {
                assert(self.is_kind(self.child(i as int, k as int), kind@));
                return true;
            }
            k = k + 1;
        }
        false
    }
}

impl SyntaxTree {
    /// Whether the parse has the shape of a parse of a source of `len` bytes: every node inside
    /// the source, every child after its parent and inside it, siblings in order.
    pub fn is_well_formed(&self, len: usize) -> (ok: bool)
        ensures
            ok == self.well_formed(len as int),
    {
        let n = self.nodes.len();
        if n == 0 {
            return false;
        }
        let mut i: usize = 0;
        while i < n
            invariant
                n == self.nodes@.len(),
                n > 0,
                i <= n,
                forall|j: int| 0 <= j < i ==> #[trigger] self.node_ok(j, len as int),
            decreases n - i,
        {
            let node = &self.nodes[i];
            if !(node.start_byte <= node.end_byte && node.end_byte <= len) {
                assert(!self.node_ok(i as int, len as int));
                return false;
            }
            let count = node.children.len();
            let mut k: usize = 0;
            while k < count
                invariant
                    n == self.nodes@.len(),
                    i < n,
                    node == &self.nodes@[i as int],
                    node.start_byte <= node.end_byte <= len,
                    count == self.arity(i as int),
                    k <= count,
                    forall|m: int| 0 <= m < k ==> #[trigger] self.child_inside(i as int, m),
                    forall|m: int| 0 <= m < k ==> #[trigger] self.child_spans(i as int, m),
                    forall|m1: int, m2: int| 0 <= m1 < m2 < k ==> #[trigger] self.children_ordered(i as int, m1, m2),
                decreases count - k,
            {
                let c = node.children[k];
                if !(i < c && c < n) {
                    proof {
                        assert(!self.child_inside(i as int, k as int));
                        assert(!self.node_ok(i as int, len as int));
                    }
                    return false;
                }
                let child = &self.nodes[c];
                if !(node.start_byte <= child.start_byte && child.end_byte <= node.end_byte) {
                    proof {
                        assert(!self.child_inside(i as int, k as int));
                        assert(!self.node_ok(i as int, len as int));
                    }
                    return false;
                }
                if child.start_byte > child.end_byte {
                    proof {
                        assert(!self.node_ok(c as int, len as int));
                    }
                    return false;
                }
                if k > 0 {
                    assert(self.child_inside(i as int, k - 1));
                    let previous = &self.nodes[node.children[k - 1]];
                    if previous.end_byte > child.start_byte {
                        proof {
                            assert(!self.children_ordered(i as int, k - 1, k as int));
                            assert(!self.node_ok(i as int, len as int));
                        }
                        return false;
                    }
                    proof {
                        assert(self.child_inside(i as int, k - 1));
                        assert(self.child_spans(i as int, k - 1));
                        assert forall|m1: int, m2: int| 0 <= m1 < m2 < k + 1 implies #[trigger] self.children_ordered(i as int, m1, m2) by {
                            if m2 == k && m1 < k - 1 {
                                assert(self.children_ordered(i as int, m1, k - 1));
                            }
                        }
                    }
                }
                proof {
                    assert(self.child(i as int, k as int) == c);
                    assert(self.child_inside(i as int, k as int));
                    assert(self.child_spans(i as int, k as int));
                }
                k = k + 1;
            }
            assert(self.node_ok(i as int, len as int));
            i = i + 1;
        }
        true
    }
}

/// The first named child of node `i`, at or after position `k`, of grammar kind `kind`.
pub open spec fn first_named_from(t: SyntaxTree, i: int, kind: Seq<char>, k: int) -> Option<int>
    decreases t.arity(i) - k,
{
    if k < 0 || k >= t.arity(i) {
        None
    } else {
        let c = t.child(i, k);
        if 0 <= c < t.size() && t.nodes@[c].named && t.nodes@[c].kind@ == kind {
            Some(c)
        } else {
            first_named_from(t, i, kind, k + 1)
        }
    }
}

impl SyntaxTree {
    /// The first named child of node `i` of grammar kind `kind`, if any.
    pub fn first_named_of_kind(&self, i: usize, kind: &str) -> (c: Option<usize>)
        requires
            i < self.nodes@.len(),
        ensures
            match c {
                Some(x) => first_named_from(*self, i as int, kind@, 0) == Some(x as int),
                None => first_named_from(*self, i as int, kind@, 0) is None,
            },
    {
        let n = self.nodes[i].children.len();
        let mut k: usize = 0;
        while k < n
            invariant
                i < self.nodes@.len(),
                n == self.arity(i as int),
                k <= n,
                first_named_from(*self, i as int, kind@, 0) == first_named_from(*self, i as int, kind@, k as int),
            decreases n - k,
        {
            let c = self.nodes[i].children[k];
            if c < self.nodes.len() && self.nodes[c].named && str_eq(self.nodes[c].kind.as_str(), kind) {
                return Some(c);
            }
            k = k + 1;
        }
        None
    }
}

/// A first named child found by kind is a child, after `i`.
pub proof fn lemma_first_named_from(t: SyntaxTree, i: int, kind: Seq<char>, k: int, len: int)
    requires
        t.well_formed(len),
        0 <= i < t.size(),
        0 <= k,
    ensures
        first_named_from(t, i, kind, k) matches Some(c) ==> i < c < t.size(),
    decreases t.arity(i) - k,
{
    if k < t.arity(i) {
        assert(t.node_ok(i, len));
        assert(t.child_inside(i, k));
        lemma_first_named_from(t, i, kind, k + 1, len);
    }
}

/// The text a byte range of `source` holds, or nothing where it is not UTF-8.
pub open spec fn text_at(source: Seq<u8>, start: int, end: int) -> Seq<char> {
    let bytes = source.subrange(start, end);
    if vstd::utf8::valid_utf8(bytes) {
        vstd::utf8::decode_utf8(bytes)
    } else {
        Seq::empty()
    }
}

/// The text a byte range of `source` holds, or the empty string where it is not UTF-8.
pub fn text_of(source: &[u8], start: usize, end: usize) -> (text: String)
    requires
        start <= end <= source@.len(),
    ensures
        text@ == text_at(source@, start as int, end as int),
{
    let bytes = slice_subrange(source, start, end);
    match utf8_text(bytes) {
        Some(s) => {
            proof {
                vstd::utf8::encode_utf8_decode_utf8(s@);
                vstd::utf8::encode_utf8_valid_utf8(s@);
            }
            string_of_str(s)
        },
        None => String::new(),
    }
}

} // verus!
