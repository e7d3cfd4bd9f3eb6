//! Lexical binding table: what a name means at a point in one module.
//!
//! Resolution never asks "is there a symbol called `foo` anywhere?" but "what does `foo` bind
//! to *here*?", and the answer is frequently [`Binding::Opaque`]: a parameter, a plain variable,
//! a destructured field, a catch binding, a loop binding, a type parameter, an enum or a
//! namespace. Those are names known to exist that cannot be named as entities. An `Opaque`
//! binding **shadows** the outer one and blocks resolution.
//!
//! The table is built once per module, before any reference is resolved, so hoisting is free:
//! a call to a function declared later in the same scope resolves without a second pass.
use vstd::prelude::*;
use crate::vocab::EntityKind;
use crate::text::str_eq;

pub mod tree;
pub mod builder;

pub use builder::{is_function_node, DeclaredSymbol, ImportedName, ModuleImport, ModuleOutline};
pub use tree::{SyntaxNode, SyntaxTree};

verus! {

/// What a name in scope refers to.
#[derive(Debug, Clone, PartialEq, Eq)]
pub enum Binding {
    /// A symbol declared in this module, with an entity.
    LocalSymbol {
        /// Entity identifier of the declaration.
        entity_id: String,
        /// Kind of the declared entity.
        kind: EntityKind,
        /// Index into the module's declared symbols.
        symbol_index: usize,
    },
    /// `import { imported as local } from specifier`.
    ImportedNamed {
        /// Module specifier exactly as written.
        specifier: String,
        /// Name in the exporting module.
        imported: String,
    },
    /// `import local from specifier`.
    ImportedDefault {
        /// Module specifier exactly as written.
        specifier: String,
    },
    /// `import * as local from specifier`, or `const local = require(specifier)`.
    ImportedNamespace {
        /// Module specifier exactly as written.
        specifier: String,
    },
    /// A name known to exist that cannot be named: parameters, plain variables, destructuring
    /// targets, catch parameters, loop bindings, type parameters, enums, namespaces.
    Opaque,
}

/// A binding with its texts as character sequences.
pub enum BindingView {
    /// See [`Binding::LocalSymbol`].
    LocalSymbol { entity_id: Seq<char>, kind: EntityKind, symbol_index: nat },
    /// See [`Binding::ImportedNamed`].
    ImportedNamed { specifier: Seq<char>, imported: Seq<char> },
    /// See [`Binding::ImportedDefault`].
    ImportedDefault { specifier: Seq<char> },
    /// See [`Binding::ImportedNamespace`].
    ImportedNamespace { specifier: Seq<char> },
    /// See [`Binding::Opaque`].
    Opaque,
}

impl View for Binding {
    type V = BindingView;

    open spec fn view(&self) -> BindingView {
        match self {
            Binding::LocalSymbol { entity_id, kind, symbol_index } => BindingView::LocalSymbol {
                entity_id: entity_id@,
                kind: *kind,
                symbol_index: *symbol_index as nat,
            },
            Binding::ImportedNamed { specifier, imported } => BindingView::ImportedNamed {
                specifier: specifier@,
                imported: imported@,
            },
            Binding::ImportedDefault { specifier } => BindingView::ImportedDefault {
                specifier: specifier@,
            },
            Binding::ImportedNamespace { specifier } => BindingView::ImportedNamespace {
                specifier: specifier@,
            },
            Binding::Opaque => BindingView::Opaque,
        }
    }
}

impl Binding {
    /// A second binding with the same contents.
    pub fn duplicate(&self) -> (copy: Binding)
        ensures
            copy@ == self@,
    {
        match self {
            Binding::LocalSymbol { entity_id, kind, symbol_index } => Binding::LocalSymbol {
                entity_id: entity_id.clone(),
                kind: *kind,
                symbol_index: *symbol_index,
            },
            Binding::ImportedNamed { specifier, imported } => Binding::ImportedNamed {
                specifier: specifier.clone(),
                imported: imported.clone(),
            },
            Binding::ImportedDefault { specifier } => Binding::ImportedDefault {
                specifier: specifier.clone(),
            },
            Binding::ImportedNamespace { specifier } => Binding::ImportedNamespace {
                specifier: specifier.clone(),
            },
            Binding::Opaque => Binding::Opaque,
        }
    }
}

/// The kind of lexical region a scope covers.
#[derive(Debug, Clone, Copy, PartialEq, Eq, Structural)]
pub enum ScopeKind {
    /// The module's top level.
    Module,
    /// A function, method, constructor or arrow body, including its parameters.
    Function,
    /// A block, loop head, or type-parameter list.
    Block,
    /// A class body.
    Class,
    /// A `catch` clause.
    Catch,
}

/// How `this` is bound by a scope.
pub enum ThisBinding {
    /// The scope does not rebind `this`; look further out.
    Inherit,
    /// A method or constructor of a class declared in this module.
    Method { class_entity_id: String, is_static: bool },
    /// A non-arrow function rebinds `this` to something that cannot be named.
    Rebound,
    /// Module top level.
    Module,
}

/// A `this` binding with its texts as character sequences.
pub enum ThisView {
    /// See [`ThisBinding::Inherit`].
    Inherit,
    /// See [`ThisBinding::Method`].
    Method { class_entity_id: Seq<char>, is_static: bool },
    /// See [`ThisBinding::Rebound`].
    Rebound,
    /// See [`ThisBinding::Module`].
    Module,
}

impl View for ThisBinding {
    type V = ThisView;

    open spec fn view(&self) -> ThisView {
        match self {
            ThisBinding::Inherit => ThisView::Inherit,
            ThisBinding::Method { class_entity_id, is_static } => ThisView::Method {
                class_entity_id: class_entity_id@,
                is_static: *is_static,
            },
            ThisBinding::Rebound => ThisView::Rebound,
            ThisBinding::Module => ThisView::Module,
        }
    }
}

/// What `this` refers to at a point in the module.
#[derive(Debug, Clone, PartialEq, Eq)]
pub enum ThisResolution {
    /// `this` is the instance (or constructor) of a class declared in this module.
    Class {
        /// Entity id of the class.
        entity_id: String,
        /// True inside a `static` method.
        is_static: bool,
    },
    /// A non-arrow `function` boundary inside a class method rebound `this`.
    ReboundByNestedFunction,
    /// `this` is not bound to a class declared in this module at all.
    NotInClassMethod,
}

/// A `this` resolution with its texts as character sequences.
pub enum ThisResolutionView {
    /// See [`ThisResolution::Class`].
    Class { entity_id: Seq<char>, is_static: bool },
    /// See [`ThisResolution::ReboundByNestedFunction`].
    ReboundByNestedFunction,
    /// See [`ThisResolution::NotInClassMethod`].
    NotInClassMethod,
}

impl View for ThisResolution {
    type V = ThisResolutionView;

    open spec fn view(&self) -> ThisResolutionView {
        match self {
            ThisResolution::Class { entity_id, is_static } => ThisResolutionView::Class {
                entity_id: entity_id@,
                is_static: *is_static,
            },
            ThisResolution::ReboundByNestedFunction => ThisResolutionView::ReboundByNestedFunction,
            ThisResolution::NotInClassMethod => ThisResolutionView::NotInClassMethod,
        }
    }
}

/// One lexical scope as the builder records it.
pub struct ScopeNode {
    /// The enclosing scope; `None` only for the module scope.
    pub parent: Option<usize>,
    /// What kind of region this is.
    pub kind: ScopeKind,
    /// First byte covered.
    pub start_byte: usize,
    /// One past the last byte covered.
    pub end_byte: usize,
    /// Names bound here, in the order they were bound; a later entry for a name replaces an
    /// earlier one.
    pub bindings: Vec<(String, Binding)>,
    /// How this scope binds `this`.
    pub this_binding: ThisBinding,
}

/// A scope as a mathematical value.
pub struct ScopeView {
    /// Index of the enclosing scope.
    pub parent: Option<int>,
    /// What kind of region this is.
    pub kind: ScopeKind,
    /// First byte covered.
    pub start: int,
    /// One past the last byte covered.
    pub end: int,
    /// What each name bound here refers to.
    pub bindings: Map<Seq<char>, BindingView>,
    /// How this scope binds `this`.
    pub this: ThisView,
}

/// The names an ordered list of bindings defines: a later entry for a name replaces an earlier
/// one.
pub open spec fn entries_map(entries: Seq<(String, Binding)>) -> Map<Seq<char>, BindingView>
    decreases entries.len(),
{
    if entries.len() == 0 {
        Map::empty()
    } else {
        entries_map(entries.drop_last()).insert(entries.last().0@, entries.last().1@)
    }
}

/// A name is bound by the list exactly when its last entry for the name says so.
pub proof fn lemma_entries_map(entries: Seq<(String, Binding)>, name: Seq<char>, n: int)
    requires
        0 <= n <= entries.len(),
        forall|k: int| n <= k < entries.len() ==> entries[k].0@ != name,
    ensures
        n == 0 ==> !entries_map(entries).contains_key(name),
        n > 0 && entries[n - 1].0@ == name ==> entries_map(entries).contains_key(name)
            && entries_map(entries)[name] == entries[n - 1].1@,
    decreases entries.len(),
{
    if entries.len() > 0 && n < entries.len() {
        lemma_entries_map(entries.drop_last(), name, n);
    } else if entries.len() > 0 && n == entries.len() {
        if n > 1 {
        }
        assert(entries.drop_last().len() == n - 1);
        if n - 1 == 0 {
            assert(entries_map(entries.drop_last()) == Map::<Seq<char>, BindingView>::empty());
        }
    }
}

impl ScopeNode {
    /// The scope as a mathematical value.
    pub open spec fn view(&self) -> ScopeView {
        ScopeView {
            parent: match self.parent {
                Some(p) => Some(p as int),
                None => None,
            },
            kind: self.kind,
            start: self.start_byte as int,
            end: self.end_byte as int,
            bindings: entries_map(self.bindings@),
            this: self.this_binding@,
        }
    }
}

/// Every scope as a mathematical value.
pub open spec fn scopes_view(scopes: Seq<ScopeNode>) -> Seq<ScopeView> {
    scopes.map_values(|s: ScopeNode| s.view())
}

/// Scope `j` is scope `c` or encloses it through the parent chain.
pub open spec fn encloses(st: Seq<ScopeView>, j: int, c: int) -> bool
    decreases c,
{
    if c == j {
        true
    } else if c <= 0 || c >= st.len() {
        false
    } else {
        match st[c].parent {
            Some(p) => if 0 <= p < c { encloses(st, j, p) } else { false },
            None => false,
        }
    }
}

/// Scope `i` covers a range, and every scope but the module scope sits inside an earlier
/// parent.
pub open spec fn scope_ok(st: Seq<ScopeView>, i: int) -> bool {
    &&& st[i].start <= st[i].end
    &&& i > 0 ==> (st[i].parent matches Some(p) && 0 <= p < i && st[p].start <= st[i].start
        && st[i].end <= st[p].end)
}

/// Scope `i` was recorded before scope `j`: it starts no later, and if it covers `j`'s start
/// it encloses `j`.
pub open spec fn recorded_before(st: Seq<ScopeView>, i: int, j: int) -> bool {
    &&& st[i].start <= st[j].start
    &&& st[j].start < st[i].end ==> encloses(st, i, j)
}

/// The shape of a scope chain recorded in pre-order over a parse.
pub open spec fn scopes_wf(st: Seq<ScopeView>) -> bool {
    &&& st.len() > 0
    &&& st[0].parent is None
    &&& st[0].kind == ScopeKind::Module
    &&& st[0].start == 0
    &&& st[0].end == usize::MAX
    &&& forall|i: int| 0 <= i < st.len() ==> #[trigger] scope_ok(st, i)
    &&& forall|i: int, j: int| 0 <= i < j < st.len() ==> #[trigger] recorded_before(st, i, j)
}

/// Scope `i` covers `byte`.
pub open spec fn covers_byte(st: Seq<ScopeView>, i: int, byte: int) -> bool {
    st[i].start <= byte < st[i].end
}

/// The last of the first `n` scopes that covers `byte`, or the module scope.
pub open spec fn innermost_below(st: Seq<ScopeView>, byte: int, n: int) -> int
    decreases n,
{
    if n <= 0 {
        0
    } else if covers_byte(st, n - 1, byte) {
        n - 1
    } else {
        innermost_below(st, byte, n - 1)
    }
}

/// The innermost scope covering `byte`: the last recorded one that covers it.
pub open spec fn innermost(st: Seq<ScopeView>, byte: int) -> int {
    innermost_below(st, byte, st.len() as int)
}

/// What `name` binds to from scope `scope` outwards: the first scope that binds it wins.
pub open spec fn lookup_from(st: Seq<ScopeView>, scope: int, name: Seq<char>) -> Option<BindingView>
    decreases scope,
{
    if scope < 0 || scope >= st.len() {
        None
    } else if st[scope].bindings.contains_key(name) {
        Some(st[scope].bindings[name])
    } else {
        match st[scope].parent {
            Some(p) => if 0 <= p < scope { lookup_from(st, p, name) } else { None },
            None => None,
        }
    }
}

/// What `this` refers to from scope `scope` outwards, `crossed` telling whether a scope that
/// rebinds `this` has been passed.
pub open spec fn this_from(st: Seq<ScopeView>, scope: int, crossed: bool) -> ThisResolutionView
    decreases scope,
{
    if scope < 0 || scope >= st.len() {
        ThisResolutionView::NotInClassMethod
    } else {
        match st[scope].this {
            ThisView::Method { class_entity_id, is_static } => if crossed {
                ThisResolutionView::ReboundByNestedFunction
            } else {
                ThisResolutionView::Class { entity_id: class_entity_id, is_static }
            },
            ThisView::Module => ThisResolutionView::NotInClassMethod,
            _ => {
                let crossed_now = crossed || st[scope].this is Rebound;
                match st[scope].parent {
                    Some(p) => if 0 <= p < scope {
                        this_from(st, p, crossed_now)
                    } else {
                        ThisResolutionView::NotInClassMethod
                    },
                    None => ThisResolutionView::NotInClassMethod,
                }
            },
        }
    }
}

/// The scope chain of one module.
pub struct BindingTable {
    scopes: Vec<ScopeNode>,
}

impl BindingTable {
    /// The scopes, in the order they were recorded.
    pub closed spec fn view(&self) -> Seq<ScopeView> {
        scopes_view(self.scopes@)
    }

    #[verifier::type_invariant]
    spec fn recorded_in_pre_order(&self) -> bool {
        scopes_wf(scopes_view(self.scopes@))
    }

    /// Innermost scope containing `byte`.
    ///
    /// Scopes are recorded in pre-order, so their start offsets are non-decreasing; the deepest
    /// candidate is the last one starting at or before `byte`, and the parent chain from there
    /// reaches the first that actually contains it.
    pub fn scope_at(&self, byte: usize) -> (scope: usize)
        ensures
            scope == innermost(self.view(), byte as int),
            scope < self.view().len(),
    {
        proof {
            use_type_invariant(self);
        }
        let ghost st = self.view();
        let n = self.scopes.len();
        proof {
            assert(st[0] == self.scopes@[0].view());
        }
        // The last scope starting at or before `byte`.
        let mut lo: usize = 0;
        let mut hi: usize = n;
        while hi - lo > 1
            invariant
                st == self.view(),
                scopes_wf(st),
                n == st.len(),
                0 <= lo < hi <= n,
                st[lo as int].start <= byte,
                forall|i: int| hi <= i < n ==> st[i].start > byte,
            decreases hi - lo,
        {
            let mid = lo + (hi - lo) / 2;
            proof {
                assert(st[mid as int] == self.scopes@[mid as int].view());
            }
            if self.scopes[mid].start_byte <= byte {
                lo = mid;
            } else {
                proof {
                    assert forall|i: int| mid <= i < n implies st[i].start > byte by {
                        if i > mid {
                            assert(recorded_before(st, mid as int, i));
                        }
                    }
                }
                hi = mid;
            }
        }
        let ghost m = innermost(st, byte as int);
        proof {
            lemma_innermost_below(st, byte as int, n as int);
            if covers_byte(st, m, byte as int) && m < lo {
                assert(recorded_before(st, m, lo as int));
            }
        }
        let mut candidate = lo;
        loop
            invariant
                st == self.view(),
                scopes_wf(st),
                n == st.len(),
                candidate < n,
                0 <= m < n,
                m == innermost(st, byte as int),
                covers_byte(st, m, byte as int) ==> encloses(st, m, candidate as int),
                covers_byte(st, m, byte as int) ==> forall|i: int| m < i < n ==> !covers_byte(st, i, byte as int),
                !covers_byte(st, m, byte as int) ==> forall|i: int| 0 <= i < n ==> !covers_byte(st, i, byte as int),
                !covers_byte(st, m, byte as int) ==> m == 0,
            decreases candidate,
        {
            proof {
                assert(st[candidate as int] == self.scopes@[candidate as int].view());
                assert(scope_ok(st, candidate as int));
                if covers_byte(st, m, byte as int) {
                    lemma_encloses_order(st, m, candidate as int);
                }
            }
            let scope = &self.scopes[candidate];
            if scope.start_byte <= byte && byte < scope.end_byte {
                assert(covers_byte(st, candidate as int, byte as int));
                return candidate;
            }
            assert(!covers_byte(st, candidate as int, byte as int));
            match scope.parent {
                Some(parent) => {
                    candidate = parent;
                },
                None => {
                    return 0;
                },
            }
        }
    }

    /// Resolve a name from `scope` outwards. The first scope that binds it wins.
    pub fn lookup(&self, scope: usize, name: &str) -> (found: Option<&Binding>)
        requires
            scope < self.view().len(),
        ensures
            match found {
                Some(b) => lookup_from(self.view(), scope as int, name@) == Some(b@),
                None => lookup_from(self.view(), scope as int, name@) is None,
            },
    {
        proof {
            use_type_invariant(self);
        }
        let ghost st = self.view();
        let mut current = scope;
        loop
            invariant
                st == self.view(),
                scopes_wf(st),
                current < st.len(),
                lookup_from(st, scope as int, name@) == lookup_from(st, current as int, name@),
            decreases current,
        {
            proof {
                assert(st[current as int] == self.scopes@[current as int].view());
                assert(scope_ok(st, current as int));
            }
            let entries = &self.scopes[current].bindings;
            let mut k = entries.len();
            while k > 0
                invariant
                    st == self.view(),
                    current < st.len(),
                    entries@ == self.scopes@[current as int].bindings@,
                    st[current as int] == self.scopes@[current as int].view(),
                    lookup_from(st, scope as int, name@) == lookup_from(st, current as int, name@),
                    k <= entries@.len(),
                    forall|j: int| k <= j < entries@.len() ==> entries@[j].0@ != name@,
                decreases k,
            {
                if str_eq(entries[k - 1].0.as_str(), name) {
                    proof {
                        lemma_entries_map(entries@, name@, k as int);
                    }
                    return Some(&entries[k - 1].1);
                }
                k = k - 1;
            }
            proof {
                lemma_entries_map(entries@, name@, 0);
            }
            match self.scopes[current].parent {
                Some(parent) => {
                    current = parent;
                },
                None => {
                    return None;
                },
            }
        }
    }

    /// What `this` refers to at `scope`.
    pub fn this_at(&self, scope: usize) -> (resolution: ThisResolution)
        requires
            scope < self.view().len(),
        ensures
            resolution@ == this_from(self.view(), scope as int, false),
    {
        proof {
            use_type_invariant(self);
        }
        let ghost st = self.view();
        let mut current = scope;
        let mut crossed_function_boundary = false;
        loop
            invariant
                st == self.view(),
                scopes_wf(st),
                current < st.len(),
                this_from(st, scope as int, false) == this_from(st, current as int, crossed_function_boundary),
            decreases current,
        {
            proof {
                assert(st[current as int] == self.scopes@[current as int].view());
                assert(scope_ok(st, current as int));
            }
            match &self.scopes[current].this_binding {
                ThisBinding::Inherit => {},
                ThisBinding::Method { class_entity_id, is_static } => {
                    return if crossed_function_boundary {
                        ThisResolution::ReboundByNestedFunction
                    } else {
                        ThisResolution::Class {
                            entity_id: class_entity_id.clone(),
                            is_static: *is_static,
                        }
                    };
                },
                ThisBinding::Rebound => {
                    crossed_function_boundary = true;
                },
                ThisBinding::Module => {
                    return ThisResolution::NotInClassMethod;
                },
            }
            match self.scopes[current].parent {
                Some(parent) => {
                    current = parent;
                },
                None => {
                    return ThisResolution::NotInClassMethod;
                },
            }
        }
    }

    /// Kind of a scope, for tests and diagnostics.
    pub fn kind_of(&self, scope: usize) -> (kind: ScopeKind)
        requires
            scope < self.view().len(),
        ensures
            kind == self.view()[scope as int].kind,
    {
        self.scopes[scope].kind
    }

    /// Number of scopes, for tests.
    pub fn len(&self) -> (n: usize)
        ensures
            n == self.view().len(),
    {
        self.scopes.len()
    }

    /// Always false: the module scope always exists.
    pub fn is_empty(&self) -> (empty: bool)
        ensures
            empty == (self.view().len() == 0),
            !empty,
    {
        proof {
            use_type_invariant(self);
        }
        self.scopes.len() == 0
    }

    /// First byte covered by a scope, for tests and diagnostics.
    pub fn start_of(&self, scope: usize) -> (start: usize)
        requires
            scope < self.view().len(),
        ensures
            start == self.view()[scope as int].start,
    {
        self.scopes[scope].start_byte
    }

    /// One past the last byte covered by a scope, for tests and diagnostics.
    pub fn end_of(&self, scope: usize) -> (end: usize)
        requires
            scope < self.view().len(),
        ensures
            end == self.view()[scope as int].end,
    {
        self.scopes[scope].end_byte
    }

    /// The enclosing scope of a scope, for tests and diagnostics.
    pub fn parent_of(&self, scope: usize) -> (parent: Option<usize>)
        requires
            scope < self.view().len(),
        ensures
            match parent {
                Some(p) => self.view()[scope as int].parent == Some(p as int),
                None => self.view()[scope as int].parent is None,
            },
    {
        self.scopes[scope].parent
    }
}

/// Facts about the last covering scope below `n`.
pub proof fn lemma_innermost_below(st: Seq<ScopeView>, byte: int, n: int)
    requires
        0 <= n <= st.len(),
        st.len() > 0,
    ensures
        0 <= innermost_below(st, byte, n) < st.len(),
        n > 0 ==> innermost_below(st, byte, n) < n,
        covers_byte(st, innermost_below(st, byte, n), byte) ==> forall|i: int|
            innermost_below(st, byte, n) < i < n ==> !covers_byte(st, i, byte),
        !covers_byte(st, innermost_below(st, byte, n), byte) ==> forall|i: int|
            0 <= i < n ==> !covers_byte(st, i, byte),
        !covers_byte(st, innermost_below(st, byte, n), byte) ==> innermost_below(st, byte, n) == 0,
    decreases n,
{
    if n > 0 && !covers_byte(st, n - 1, byte) {
        lemma_innermost_below(st, byte, n - 1);
    }
}

/// An enclosing scope comes no later than the scope it encloses, and a scope other than the
/// enclosing one has a parent that is still enclosed.
pub proof fn lemma_encloses_order(st: Seq<ScopeView>, j: int, c: int)
    requires
        encloses(st, j, c),
        0 <= c < st.len(),
    ensures
        j <= c,
        j != c ==> (st[c].parent matches Some(p) && 0 <= p < c && encloses(st, j, p)),
    decreases c,
{
    if c != j {
        if let Some(p) = st[c].parent {
            if 0 <= p < c {
                lemma_encloses_order(st, j, p);
            }
        }
    }
}

/// An inner binding shadows every outer one: a name bound in a scope resolves there to that
/// binding, whatever the enclosing scopes bind.
pub proof fn lemma_inner_binding_shadows(st: Seq<ScopeView>, scope: int, name: Seq<char>)
    requires
        0 <= scope < st.len(),
        st[scope].bindings.contains_key(name),
    ensures
        lookup_from(st, scope, name) == Some(st[scope].bindings[name]),
{
}

/// A name unbound in a scope resolves as in its parent.
pub proof fn lemma_unbound_name_looks_outward(st: Seq<ScopeView>, scope: int, name: Seq<char>)
    requires
        scopes_wf(st),
        0 < scope < st.len(),
        !st[scope].bindings.contains_key(name),
    ensures
        st[scope].parent matches Some(p) && lookup_from(st, scope, name) == lookup_from(st, p, name),
{
    assert(scope_ok(st, scope));
}

} // verus!
