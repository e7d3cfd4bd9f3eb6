//! Building the binding table: one pre-order walk of a module's parse.
use vstd::prelude::*;
use crate::vocab::EntityKind;
use crate::text::str_eq;
use super::tree::{SyntaxTree, text_at, text_of, first_named_from, lemma_first_named_from};
use super::{
    Binding, BindingView, ScopeKind, ScopeNode, ScopeView, ThisBinding, ThisView, BindingTable,
    scopes_view, scopes_wf, encloses, scope_ok, recorded_before, entries_map,
};

verus! {

/// A symbol the structural extractor declared in the module.
pub struct DeclaredSymbol {
    /// Entity identifier of the declaration.
    pub entity_id: String,
    /// Kind of the declared entity.
    pub kind: EntityKind,
    /// First byte of the declaration node.
    pub start_byte: usize,
}

/// One name an import statement brings in.
pub struct ImportedName {
    /// `"default"`, `"namespace"` or `"named"`; any other form binds nothing.
    pub kind: String,
    /// The local name, where the statement gives one.
    pub local: Option<String>,
    /// The name in the exporting module, for a named import.
    pub imported: Option<String>,
}

/// One import as the structural extractor read it.
pub struct ModuleImport {
    /// A static `import` statement (dynamic imports and `require` calls bind nothing here).
    pub is_static: bool,
    /// Module specifier exactly as written.
    pub raw_specifier: String,
    /// The names it brings in, in source order.
    pub specifiers: Vec<ImportedName>,
}

/// What the table is built from besides the parse: the module's declarations and imports.
pub struct ModuleOutline {
    /// Declared symbols, in the extractor's order.
    pub symbols: Vec<DeclaredSymbol>,
    /// Imports, in source order.
    pub imports: Vec<ModuleImport>,
}

/// Everything one walk reads.
pub struct BuildEnv<'a> {
    /// The parse.
    pub tree: &'a SyntaxTree,
    /// The module source the parse covers.
    pub source: &'a [u8],
    /// The module's declared symbols.
    pub symbols: &'a Vec<DeclaredSymbol>,
}

/// What a grammar kind means to the walk.
#[derive(Clone, Copy, PartialEq, Eq, Structural)]
pub enum NodeForm {
    /// An import statement: its bindings come from the outline.
    Import,
    /// A function declaration or signature.
    FunctionDeclaration,
    /// A function or arrow expression.
    FunctionValue,
    /// A method.
    Method,
    /// A class.
    Class,
    /// An interface.
    Interface,
    /// An enum or namespace: named, but not an entity.
    OpaqueScope,
    /// A type alias.
    TypeAlias,
    /// A `const`, `let` or `var` declaration.
    Variables,
    /// A `{ ... }` block.
    Block,
    /// A `catch` clause.
    Catch,
    /// A `for` loop.
    Loop,
    /// An object literal.
    Object,
    /// Anything else.
    Other,
}

/// What a grammar kind means to the walk.
pub open spec fn form_of(kind: Seq<char>) -> NodeForm {
    if kind == "import_statement"@ {
        NodeForm::Import
    } else if kind == "function_declaration"@ || kind == "generator_function_declaration"@
        || kind == "function_signature"@ {
        NodeForm::FunctionDeclaration
    } else if kind == "function_expression"@ || kind == "generator_function"@
        || kind == "arrow_function"@ {
        NodeForm::FunctionValue
    } else if kind == "method_definition"@ {
        NodeForm::Method
    } else if kind == "class_declaration"@ || kind == "abstract_class_declaration"@
        || kind == "class"@ {
        NodeForm::Class
    } else if kind == "interface_declaration"@ {
        NodeForm::Interface
    } else if kind == "enum_declaration"@ || kind == "internal_module"@ || kind == "module"@ {
        NodeForm::OpaqueScope
    } else if kind == "type_alias_declaration"@ {
        NodeForm::TypeAlias
    } else if kind == "lexical_declaration"@ || kind == "variable_declaration"@ {
        NodeForm::Variables
    } else if kind == "statement_block"@ {
        NodeForm::Block
    } else if kind == "catch_clause"@ {
        NodeForm::Catch
    } else if kind == "for_statement"@ || kind == "for_in_statement"@ {
        NodeForm::Loop
    } else if kind == "object"@ {
        NodeForm::Object
    } else {
        NodeForm::Other
    }
}

/// What a grammar kind means to the walk.
pub fn node_form(kind: &str) -> (form: NodeForm)
    ensures
        form == form_of(kind@),
{
    if str_eq(kind, "import_statement") {
        NodeForm::Import
    } else if str_eq(kind, "function_declaration") || str_eq(kind, "generator_function_declaration")
        || str_eq(kind, "function_signature") {
        NodeForm::FunctionDeclaration
    } else if str_eq(kind, "function_expression") || str_eq(kind, "generator_function")
        || str_eq(kind, "arrow_function") {
        NodeForm::FunctionValue
    } else if str_eq(kind, "method_definition") {
        NodeForm::Method
    } else if str_eq(kind, "class_declaration") || str_eq(kind, "abstract_class_declaration")
        || str_eq(kind, "class") {
        NodeForm::Class
    } else if str_eq(kind, "interface_declaration") {
        NodeForm::Interface
    } else if str_eq(kind, "enum_declaration") || str_eq(kind, "internal_module") || str_eq(
        kind,
        "module",
    ) {
        NodeForm::OpaqueScope
    } else if str_eq(kind, "type_alias_declaration") {
        NodeForm::TypeAlias
    } else if str_eq(kind, "lexical_declaration") || str_eq(kind, "variable_declaration") {
        NodeForm::Variables
    } else if str_eq(kind, "statement_block") {
        NodeForm::Block
    } else if str_eq(kind, "catch_clause") {
        NodeForm::Catch
    } else if str_eq(kind, "for_statement") || str_eq(kind, "for_in_statement") {
        NodeForm::Loop
    } else if str_eq(kind, "object") {
        NodeForm::Object
    } else {
        NodeForm::Other
    }
}

/// True for the node kinds that introduce a function scope.
pub fn is_function_node(kind: &str) -> (function: bool)
    ensures
        function == (kind@ == "function_declaration"@ || kind@ == "generator_function_declaration"@
            || kind@ == "function_signature"@ || kind@ == "function_expression"@ || kind@
            == "generator_function"@ || kind@ == "arrow_function"@ || kind@
            == "method_definition"@),
{
    str_eq(kind, "function_declaration") || str_eq(kind, "generator_function_declaration")
        || str_eq(kind, "function_signature") || str_eq(kind, "function_expression") || str_eq(
        kind,
        "generator_function",
    ) || str_eq(kind, "arrow_function") || str_eq(kind, "method_definition")
}

/// How a binding pattern binds.
#[derive(Clone, Copy, PartialEq, Eq, Structural)]
pub enum PatternForm {
    /// The node is the bound name.
    Name,
    /// `key: value`: the value binds.
    Value,
    /// `target = default`: the target binds.
    Left,
    /// Object, array and rest patterns: every named child binds.
    Each,
    /// A typed parameter: its pattern binds.
    Wrapped,
    /// Binds nothing.
    Ignored,
}

/// How a binding pattern of grammar kind `kind` binds.
pub open spec fn pattern_form_of(kind: Seq<char>) -> PatternForm {
    if kind == "identifier"@ || kind == "shorthand_property_identifier_pattern"@ {
        PatternForm::Name
    } else if kind == "pair_pattern"@ {
        PatternForm::Value
    } else if kind == "assignment_pattern"@ {
        PatternForm::Left
    } else if kind == "object_pattern"@ || kind == "array_pattern"@ || kind == "rest_pattern"@ {
        PatternForm::Each
    } else if kind == "required_parameter"@ || kind == "optional_parameter"@ {
        PatternForm::Wrapped
    } else {
        PatternForm::Ignored
    }
}

/// How a binding pattern of grammar kind `kind` binds.
pub fn pattern_form(kind: &str) -> (form: PatternForm)
    ensures
        form == pattern_form_of(kind@),
{
    if str_eq(kind, "identifier") || str_eq(kind, "shorthand_property_identifier_pattern") {
        PatternForm::Name
    } else if str_eq(kind, "pair_pattern") {
        PatternForm::Value
    } else if str_eq(kind, "assignment_pattern") {
        PatternForm::Left
    } else if str_eq(kind, "object_pattern") || str_eq(kind, "array_pattern") || str_eq(
        kind,
        "rest_pattern",
    ) {
        PatternForm::Each
    } else if str_eq(kind, "required_parameter") || str_eq(kind, "optional_parameter") {
        PatternForm::Wrapped
    } else {
        PatternForm::Ignored
    }
}

// ---------------------------------------------------------------------------------------------
// What the walk reads.

/// The walk can run: the parse has the shape of a parse of the source.
pub open spec fn env_ok(e: BuildEnv) -> bool {
    e.tree.well_formed(e.source@.len() as int)
}

/// First byte of node `n`.
pub open spec fn lo(e: BuildEnv, n: int) -> int {
    e.tree.nodes@[n].start_byte as int
}

/// One past the last byte of node `n`.
pub open spec fn hi(e: BuildEnv, n: int) -> int {
    e.tree.nodes@[n].end_byte as int
}

/// The text of node `n`.
pub open spec fn node_text(e: BuildEnv, n: int) -> Seq<char> {
    text_at(e.source@, lo(e, n), hi(e, n))
}

/// Grammar kind of node `n`.
pub open spec fn kind(e: BuildEnv, n: int) -> Seq<char> {
    e.tree.nodes@[n].kind@
}

/// Whether `c` is a child that the walk may descend into from `n`.
pub open spec fn below(e: BuildEnv, n: int, c: int) -> bool {
    n < c < e.tree.size()
}

/// The first declared symbol starting at byte `start`, at or after position `k`.
pub open spec fn symbol_from(symbols: Seq<DeclaredSymbol>, start: int, k: int) -> Option<int>
    decreases symbols.len() - k,
{
    if k < 0 || k >= symbols.len() {
        None
    } else if symbols[k].start_byte == start {
        Some(k)
    } else {
        symbol_from(symbols, start, k + 1)
    }
}

/// The binding a declaration starting at `start` introduces, when the extractor named it.
pub open spec fn symbol_binding(e: BuildEnv, start: int) -> Option<BindingView> {
    match symbol_from(e.symbols@, start, 0) {
        Some(k) => Some(
            BindingView::LocalSymbol {
                entity_id: e.symbols@[k].entity_id@,
                kind: e.symbols@[k].kind,
                symbol_index: k as nat,
            },
        ),
        None => None,
    }
}

/// The literal specifier of `require('...')`, when that is exactly what node `n` is.
pub open spec fn require_of(e: BuildEnv, n: int) -> Option<Seq<char>> {
    if kind(e, n) != "call_expression"@ {
        None
    } else {
        match e.tree.field_child(n, "function"@) {
            Some(f) => if kind(e, f) == "identifier"@ && node_text(e, f) == "require"@ {
                match e.tree.field_child(n, "arguments"@) {
                    Some(a) => match first_named_from(*e.tree, a, "string"@, 0) {
                        Some(s) => match first_named_from(*e.tree, s, "string_fragment"@, 0) {
                            Some(frag) => Some(node_text(e, frag)),
                            None => None,
                        },
                        None => None,
                    },
                    None => None,
                }
            } else {
                None
            },
            None => None,
        }
    }
}

/// How a function-like node `n` binds `this`, inside the class `class` if any.
pub open spec fn this_of(e: BuildEnv, n: int, class: Option<Seq<char>>) -> ThisView {
    if kind(e, n) == "arrow_function"@ {
        ThisView::Inherit
    } else if kind(e, n) == "method_definition"@ {
        match class {
            Some(id) => ThisView::Method {
                class_entity_id: id,
                is_static: e.tree.has_kind_child(n, "static"@),
            },
            None => ThisView::Rebound,
        }
    } else {
        ThisView::Rebound
    }
}

// ---------------------------------------------------------------------------------------------
// What the walk does to the scope chain.

/// `name` bound to `b` in scope `scope`; an empty name binds nothing.
pub open spec fn bind_spec(st: Seq<ScopeView>, scope: int, name: Seq<char>, b: BindingView) -> Seq<ScopeView> {
    if name.len() == 0 {
        st
    } else {
        st.update(
            scope,
            ScopeView {
                parent: st[scope].parent,
                kind: st[scope].kind,
                start: st[scope].start,
                end: st[scope].end,
                bindings: st[scope].bindings.insert(name, b),
                this: st[scope].this,
            },
        )
    }
}

/// A new scope of kind `k` for node `n`, inside `parent`.
pub open spec fn push_spec(e: BuildEnv, st: Seq<ScopeView>, k: ScopeKind, n: int, parent: int, this: ThisView) -> Seq<ScopeView> {
    st.push(
        ScopeView {
            parent: Some(parent),
            kind: k,
            start: lo(e, n),
            end: hi(e, n),
            bindings: Map::empty(),
            this,
        },
    )
}

/// Every identifier the binding pattern `n` introduces, bound as opaque in `scope`.
pub open spec fn pattern_spec(e: BuildEnv, st: Seq<ScopeView>, n: int, scope: int) -> Seq<ScopeView>
    decreases e.tree.size() - n, e.tree.arity(n) + 1,
{
    if n < 0 || n >= e.tree.size() {
        st
    } else {
        match pattern_form_of(kind(e, n)) {
            PatternForm::Name => bind_spec(st, scope, node_text(e, n), BindingView::Opaque),
            PatternForm::Value => match e.tree.field_child(n, "value"@) {
                Some(v) => if below(e, n, v) { pattern_spec(e, st, v, scope) } else { st },
                None => st,
            },
            PatternForm::Left => match e.tree.field_child(n, "left"@) {
                Some(v) => if below(e, n, v) { pattern_spec(e, st, v, scope) } else { st },
                None => st,
            },
            PatternForm::Each => patterns_spec(e, st, n, 0, scope),
            PatternForm::Wrapped => match e.tree.field_child(n, "pattern"@) {
                Some(v) => if below(e, n, v) { pattern_spec(e, st, v, scope) } else { st },
                None => st,
            },
            PatternForm::Ignored => st,
        }
    }
}

/// [`pattern_spec`] of every named child of `n` from position `k` on.
pub open spec fn patterns_spec(e: BuildEnv, st: Seq<ScopeView>, n: int, k: int, scope: int) -> Seq<ScopeView>
    decreases e.tree.size() - n, e.tree.arity(n) - k,
{
    if n < 0 || n >= e.tree.size() || k < 0 || k >= e.tree.arity(n) {
        st
    } else {
        let c = e.tree.child(n, k);
        let st1 = if below(e, n, c) && e.tree.nodes@[c].named {
            pattern_spec(e, st, c, scope)
        } else {
            st
        };
        patterns_spec(e, st1, n, k + 1, scope)
    }
}

/// Every type parameter among the named children of `n` from position `k` on, bound as
/// opaque in `scope`.
pub open spec fn type_params_spec(e: BuildEnv, st: Seq<ScopeView>, n: int, k: int, scope: int) -> Seq<ScopeView>
    decreases e.tree.arity(n) - k,
{
    if n < 0 || n >= e.tree.size() || k < 0 || k >= e.tree.arity(n) {
        st
    } else {
        let c = e.tree.child(n, k);
        let st1 = if below(e, n, c) && e.tree.nodes@[c].named && kind(e, c) == "type_parameter"@ {
            match e.tree.field_child(c, "name"@) {
                Some(name) => bind_spec(st, scope, node_text(e, name), BindingView::Opaque),
                None => st,
            }
        } else {
            st
        };
        type_params_spec(e, st1, n, k + 1, scope)
    }
}

/// The parameters and type parameters of node `n`, bound as opaque in `scope`.
pub open spec fn params_spec(e: BuildEnv, st: Seq<ScopeView>, n: int, scope: int) -> Seq<ScopeView> {
    let st1 = match e.tree.field_child(n, "parameters"@) {
        Some(p) => patterns_spec(e, st, p, 0, scope),
        None => st,
    };
    let st2 = match e.tree.field_child(n, "parameter"@) {
        Some(p) => pattern_spec(e, st1, p, scope),
        None => st1,
    };
    match e.tree.field_child(n, "type_parameters"@) {
        Some(p) => type_params_spec(e, st2, p, 0, scope),
        None => st2,
    }
}

/// The name of declaration `n`, bound in `scope` to the symbol the extractor declared there.
pub open spec fn declared_name_spec(e: BuildEnv, st: Seq<ScopeView>, n: int, scope: int) -> Seq<ScopeView> {
    match (e.tree.field_child(n, "name"@), symbol_binding(e, lo(e, n))) {
        (Some(name), Some(b)) => bind_spec(st, scope, node_text(e, name), b),
        _ => st,
    }
}

/// The identifier name of node `n`, bound as opaque in `scope`.
pub open spec fn opaque_name_spec(e: BuildEnv, st: Seq<ScopeView>, n: int, scope: int) -> Seq<ScopeView> {
    match e.tree.field_child(n, "name"@) {
        Some(name) => if kind(e, name) == "identifier"@ {
            bind_spec(st, scope, node_text(e, name), BindingView::Opaque)
        } else {
            st
        },
        None => st,
    }
}

/// The walk from node `n` in scope `scope`, inside the class `class` if any.
pub open spec fn visit_spec(e: BuildEnv, st: Seq<ScopeView>, n: int, scope: int, class: Option<Seq<char>>) -> Seq<ScopeView>
    decreases e.tree.size() - n, 2int, 0int,
{
    if n < 0 || n >= e.tree.size() {
        st
    } else {
        let inner = st.len() as int;
        match form_of(kind(e, n)) {
            NodeForm::Import => st,
            NodeForm::FunctionDeclaration => function_spec(
                e,
                declared_name_spec(e, st, n, scope),
                n,
                scope,
                None,
            ),
            NodeForm::FunctionValue => function_spec(e, st, n, scope, None),
            NodeForm::Method => function_spec(e, st, n, scope, class),
            NodeForm::Class => class_spec(e, st, n, scope),
            NodeForm::Interface => {
                let st1 = declared_name_spec(e, st, n, scope);
                let inner1 = st1.len() as int;
                let st2 = push_spec(e, st1, ScopeKind::Block, n, scope, ThisView::Inherit);
                children_spec(e, params_spec(e, st2, n, inner1), n, 0, inner1, None)
            },
            NodeForm::OpaqueScope => {
                let st1 = opaque_name_spec(e, st, n, scope);
                let inner1 = st1.len() as int;
                children_spec(
                    e,
                    push_spec(e, st1, ScopeKind::Block, n, scope, ThisView::Inherit),
                    n,
                    0,
                    inner1,
                    None,
                )
            },
            NodeForm::TypeAlias => {
                let st1 = opaque_name_spec(e, st, n, scope);
                let inner1 = st1.len() as int;
                let st2 = push_spec(e, st1, ScopeKind::Block, n, scope, ThisView::Inherit);
                children_spec(e, params_spec(e, st2, n, inner1), n, 0, inner1, None)
            },
            NodeForm::Variables => declarators_spec(e, st, n, 0, scope),
            NodeForm::Block => children_spec(
                e,
                push_spec(e, st, ScopeKind::Block, n, scope, ThisView::Inherit),
                n,
                0,
                inner,
                class,
            ),
            NodeForm::Catch => {
                let st1 = push_spec(e, st, ScopeKind::Catch, n, scope, ThisView::Inherit);
                let st2 = match e.tree.field_child(n, "parameter"@) {
                    Some(p) => pattern_spec(e, st1, p, inner),
                    None => st1,
                };
                children_spec(e, st2, n, 0, inner, class)
            },
            NodeForm::Loop => {
                let st1 = push_spec(e, st, ScopeKind::Block, n, scope, ThisView::Inherit);
                let st2 = match e.tree.field_child(n, "left"@) {
                    Some(p) => pattern_spec(e, st1, p, inner),
                    None => st1,
                };
                children_spec(e, st2, n, 0, inner, class)
            },
            NodeForm::Object => children_spec(e, st, n, 0, scope, None),
            NodeForm::Other => children_spec(e, st, n, 0, scope, class),
        }
    }
}

/// A function-like node `n`: a new scope, its parameters bound, then the rest.
pub open spec fn function_spec(e: BuildEnv, st: Seq<ScopeView>, n: int, scope: int, class: Option<Seq<char>>) -> Seq<ScopeView>
    decreases e.tree.size() - n, 1int, 0int,
{
    if n < 0 || n >= e.tree.size() {
        st
    } else {
        let inner = st.len() as int;
        let st1 = push_spec(e, st, ScopeKind::Function, n, scope, this_of(e, n, class));
        let st2 = params_spec(e, st1, n, inner);
        let st3 = if kind(e, n) == "function_expression"@ || kind(e, n) == "generator_function"@ {
            match e.tree.field_child(n, "name"@) {
                Some(name) => bind_spec(st2, inner, node_text(e, name), BindingView::Opaque),
                None => st2,
            }
        } else {
            st2
        };
        children_spec(e, st3, n, 0, inner, None)
    }
}

/// A class node `n`: its name bound outside and inside, a class scope, then the body.
pub open spec fn class_spec(e: BuildEnv, st: Seq<ScopeView>, n: int, scope: int) -> Seq<ScopeView>
    decreases e.tree.size() - n, 1int, 0int,
{
    if n < 0 || n >= e.tree.size() {
        st
    } else {
        let b = symbol_binding(e, lo(e, n));
        let st1 = declared_name_spec(e, st, n, scope);
        let inner = st1.len() as int;
        let st2 = push_spec(e, st1, ScopeKind::Class, n, scope, ThisView::Inherit);
        let st3 = params_spec(e, st2, n, inner);
        let st4 = match e.tree.field_child(n, "name"@) {
            Some(name) => bind_spec(
                st3,
                inner,
                node_text(e, name),
                match b {
                    Some(x) => x,
                    None => BindingView::Opaque,
                },
            ),
            None => st3,
        };
        let context = match b {
            Some(BindingView::LocalSymbol { entity_id, .. }) => Some(entity_id),
            _ => None,
        };
        children_spec(e, st4, n, 0, inner, context)
    }
}

/// The declarators among the named children of `n` from position `k` on, in `scope`.
pub open spec fn declarators_spec(e: BuildEnv, st: Seq<ScopeView>, n: int, k: int, scope: int) -> Seq<ScopeView>
    decreases e.tree.size() - n, 1int, e.tree.arity(n) - k,
{
    if n < 0 || n >= e.tree.size() || k < 0 || k >= e.tree.arity(n) {
        st
    } else {
        let d = e.tree.child(n, k);
        let st1 = if below(e, n, d) && e.tree.nodes@[d].named {
            declarator_spec(e, st, d, scope)
        } else {
            st
        };
        declarators_spec(e, st1, n, k + 1, scope)
    }
}

/// One child `d` of a variable declaration: a declarator binds its name, anything else is
/// walked.
pub open spec fn declarator_spec(e: BuildEnv, st: Seq<ScopeView>, d: int, scope: int) -> Seq<ScopeView>
    decreases e.tree.size() - d, 3int, 0int,
{
    if d < 0 || d >= e.tree.size() {
        st
    } else if kind(e, d) != "variable_declarator"@ {
        visit_spec(e, st, d, scope, None)
    } else {
        let st1 = match e.tree.field_child(d, "name"@) {
            Some(name) => if kind(e, name) == "identifier"@ {
                let b = match symbol_binding(e, lo(e, d)) {
                    Some(b) => b,
                    None => match e.tree.field_child(d, "value"@) {
                        Some(v) => match require_of(e, v) {
                            Some(specifier) => BindingView::ImportedNamespace { specifier },
                            None => BindingView::Opaque,
                        },
                        None => BindingView::Opaque,
                    },
                };
                bind_spec(st, scope, node_text(e, name), b)
            } else {
                pattern_spec(e, st, name, scope)
            },
            None => st,
        };
        children_spec(e, st1, d, 0, scope, None)
    }
}

/// The walk over the named children of `n` from position `k` on, in `scope`.
pub open spec fn children_spec(e: BuildEnv, st: Seq<ScopeView>, n: int, k: int, scope: int, class: Option<Seq<char>>) -> Seq<ScopeView>
    decreases e.tree.size() - n, 0int, e.tree.arity(n) - k,
{
    if n < 0 || n >= e.tree.size() || k < 0 || k >= e.tree.arity(n) {
        st
    } else {
        let c = e.tree.child(n, k);
        let st1 = if below(e, n, c) && e.tree.nodes@[c].named {
            visit_spec(e, st, c, scope, class)
        } else {
            st
        };
        children_spec(e, st1, n, k + 1, scope, class)
    }
}

/// What import specifier `name` of an import from `raw` binds.
pub open spec fn import_binding(raw: Seq<char>, name: ImportedName) -> Option<BindingView> {
    if name.kind@ == "default"@ {
        Some(BindingView::ImportedDefault { specifier: raw })
    } else if name.kind@ == "namespace"@ {
        Some(BindingView::ImportedNamespace { specifier: raw })
    } else if name.kind@ == "named"@ {
        match name.imported {
            Some(imported) => Some(BindingView::ImportedNamed { specifier: raw, imported: imported@ }),
            None => None,
        }
    } else {
        None
    }
}

/// The names import `i` brings in, from position `k` on, bound in the module scope.
pub open spec fn specifiers_spec(st: Seq<ScopeView>, i: ModuleImport, k: int) -> Seq<ScopeView>
    decreases i.specifiers@.len() - k,
{
    if k < 0 || k >= i.specifiers@.len() {
        st
    } else {
        let name = i.specifiers@[k];
        let st1 = match (name.local, import_binding(i.raw_specifier@, name)) {
            (Some(local), Some(b)) => bind_spec(st, 0, local@, b),
            _ => st,
        };
        specifiers_spec(st1, i, k + 1)
    }
}

/// The static imports from position `k` on, bound in the module scope.
pub open spec fn imports_spec(st: Seq<ScopeView>, imports: Seq<ModuleImport>, k: int) -> Seq<ScopeView>
    decreases imports.len() - k,
{
    if k < 0 || k >= imports.len() {
        st
    } else {
        let st1 = if imports[k].is_static {
            specifiers_spec(st, imports[k], 0)
        } else {
            st
        };
        imports_spec(st1, imports, k + 1)
    }
}

/// The module scope alone.
pub open spec fn module_scope() -> Seq<ScopeView> {
    seq![
        ScopeView {
            parent: None,
            kind: ScopeKind::Module,
            start: 0,
            end: usize::MAX as int,
            bindings: Map::empty(),
            this: ThisView::Module,
        },
    ]
}

/// The whole table: imports bound in the module scope, then the walk over the root's named
/// children.
pub open spec fn table_spec(e: BuildEnv, imports: Seq<ModuleImport>) -> Seq<ScopeView> {
    children_spec(e, imports_spec(module_scope(), imports, 0), 0, 0, 0, None)
}

} // verus!

verus! {

// ---------------------------------------------------------------------------------------------
// The shape the walk keeps.

/// Two scopes differ at most in their bindings.
pub open spec fn same_shape(a: ScopeView, b: ScopeView) -> bool {
    &&& a.parent == b.parent
    &&& a.kind == b.kind
    &&& a.start == b.start
    &&& a.end == b.end
    &&& a.this == b.this
}

/// Two chains differ at most in their bindings.
pub open spec fn same_shapes(st: Seq<ScopeView>, st2: Seq<ScopeView>) -> bool {
    &&& st.len() == st2.len()
    &&& forall|j: int| 0 <= j < st.len() ==> #[trigger] same_shape(st[j], st2[j])
}

/// `st2` keeps the shape of every scope of `st` and adds only scopes inside `[lo, hi)`.
pub open spec fn extends(st: Seq<ScopeView>, st2: Seq<ScopeView>, lo: int, hi: int) -> bool {
    &&& st.len() <= st2.len()
    &&& forall|j: int| 0 <= j < st.len() ==> #[trigger] same_shape(st[j], st2[j])
    &&& forall|j: int| st.len() <= j < st2.len() ==> lo <= (#[trigger] st2[j]).start && st2[j].end <= hi
}

/// Scope `j` starts by `lo`, and either ends by `lo` or encloses `s`.
pub open spec fn settled(st: Seq<ScopeView>, j: int, s: int, lo: int) -> bool {
    &&& st[j].start <= lo
    &&& (st[j].end <= lo || encloses(st, j, s))
}

/// The walk stands at `[lo, hi)` inside scope `s`: every scope so far is settled there.
pub open spec fn frontier(st: Seq<ScopeView>, s: int, lo: int, hi: int) -> bool {
    &&& 0 <= s < st.len()
    &&& st[s].start <= lo <= hi <= st[s].end
    &&& forall|j: int| 0 <= j < st.len() ==> #[trigger] settled(st, j, s, lo)
}

/// The walk may visit node `n` in scope `s`.
pub open spec fn ready(e: BuildEnv, st: Seq<ScopeView>, n: int, s: int) -> bool {
    &&& env_ok(e)
    &&& 0 <= n < e.tree.size()
    &&& scopes_wf(st)
    &&& frontier(st, s, lo(e, n), hi(e, n))
}

/// The walk of node `n` took `st` to `st2`.
pub open spec fn walked(e: BuildEnv, st: Seq<ScopeView>, st2: Seq<ScopeView>, n: int) -> bool {
    &&& scopes_wf(st2)
    &&& extends(st, st2, lo(e, n), hi(e, n))
}

/// The class context as character sequences.
pub open spec fn class_view(class: Option<String>) -> Option<Seq<char>> {
    match class {
        Some(c) => Some(c@),
        None => None,
    }
}

/// Enclosure among the kept scopes does not change.
proof fn lemma_encloses_prefix(st: Seq<ScopeView>, st2: Seq<ScopeView>, j: int, c: int)
    requires
        st.len() <= st2.len(),
        forall|i: int| 0 <= i < st.len() ==> #[trigger] same_shape(st[i], st2[i]),
        0 <= c < st.len(),
    ensures
        encloses(st, j, c) == encloses(st2, j, c),
    decreases c,
{
    assert(same_shape(st[c], st2[c]));
    if c != j && c > 0 {
        if let Some(p) = st[c].parent {
            if 0 <= p < c {
                lemma_encloses_prefix(st, st2, j, p);
            }
        }
    }
}

/// Changing bindings only keeps the chain well formed and the walk's position.
proof fn lemma_same_shapes(st: Seq<ScopeView>, st2: Seq<ScopeView>, s: int, lo: int, hi: int)
    requires
        same_shapes(st, st2),
        scopes_wf(st),
    ensures
        scopes_wf(st2),
        extends(st, st2, lo, hi),
        frontier(st, s, lo, hi) ==> frontier(st2, s, lo, hi),
{
    assert(same_shape(st[0], st2[0]));
    assert forall|i: int| 0 <= i < st2.len() implies #[trigger] scope_ok(st2, i) by {
        assert(scope_ok(st, i));
        assert(same_shape(st[i], st2[i]));
        if let Some(p) = st[i].parent {
            if 0 <= p < i {
                assert(same_shape(st[p], st2[p]));
            }
        }
    }
    assert forall|i: int, j: int| 0 <= i < j < st2.len() implies #[trigger] recorded_before(st2, i, j) by {
        assert(recorded_before(st, i, j));
        assert(same_shape(st[i], st2[i]));
        assert(same_shape(st[j], st2[j]));
        lemma_encloses_prefix(st, st2, i, j);
    }
    if frontier(st, s, lo, hi) {
        assert(same_shape(st[s], st2[s]));
        assert forall|j: int| 0 <= j < st2.len() implies #[trigger] settled(st2, j, s, lo) by {
            assert(settled(st, j, s, lo));
            assert(same_shape(st[j], st2[j]));
            lemma_encloses_prefix(st, st2, j, s);
        }
    }
}

/// Binding a name keeps the shape.
proof fn lemma_bind_shapes(st: Seq<ScopeView>, scope: int, name: Seq<char>, b: BindingView)
    requires
        0 <= scope < st.len(),
    ensures
        same_shapes(st, bind_spec(st, scope, name, b)),
{
    let st2 = bind_spec(st, scope, name, b);
    assert forall|j: int| 0 <= j < st.len() implies #[trigger] same_shape(st[j], st2[j]) by {}
}

/// Two changes of bindings only are one.
proof fn lemma_same_shapes_trans(a: Seq<ScopeView>, b: Seq<ScopeView>, c: Seq<ScopeView>)
    requires
        same_shapes(a, b),
        same_shapes(b, c),
    ensures
        same_shapes(a, c),
{
    assert forall|j: int| 0 <= j < a.len() implies #[trigger] same_shape(a[j], c[j]) by {
        assert(same_shape(a[j], b[j]));
        assert(same_shape(b[j], c[j]));
    }
}

/// A chain differs from itself in nothing.
proof fn lemma_same_shapes_refl(st: Seq<ScopeView>)
    ensures
        same_shapes(st, st),
{
    assert forall|j: int| 0 <= j < st.len() implies #[trigger] same_shape(st[j], st[j]) by {}
}

/// Extensions compose.
proof fn lemma_extends_trans(a: Seq<ScopeView>, b: Seq<ScopeView>, c: Seq<ScopeView>, lo: int, hi: int, lo2: int, hi2: int)
    requires
        extends(a, b, lo, hi),
        extends(b, c, lo2, hi2),
        lo <= lo2,
        hi2 <= hi,
    ensures
        extends(a, c, lo, hi),
{
    assert forall|j: int| 0 <= j < a.len() implies #[trigger] same_shape(a[j], c[j]) by {
        assert(same_shape(a[j], b[j]));
        assert(same_shape(b[j], c[j]));
    }
    assert forall|j: int| a.len() <= j < c.len() implies lo <= (#[trigger] c[j]).start && c[j].end <= hi by {
        if j < b.len() {
            assert(b[j].start >= lo && b[j].end <= hi);
            assert(same_shape(b[j], c[j]));
        } else {
            assert(c[j].start >= lo2);
        }
    }
}

/// The walk may stand anywhere inside where it stands.
proof fn lemma_frontier_narrow(st: Seq<ScopeView>, s: int, lo: int, hi: int, lo2: int, hi2: int)
    requires
        frontier(st, s, lo, hi),
        lo <= lo2 <= hi2 <= hi,
    ensures
        frontier(st, s, lo2, hi2),
{
    assert forall|j: int| 0 <= j < st.len() implies #[trigger] settled(st, j, s, lo2) by {
        assert(settled(st, j, s, lo));
    }
}

/// Opening a scope for the node the walk stands at keeps the chain well formed, and the walk
/// then stands inside the new scope.
proof fn lemma_push(e: BuildEnv, st: Seq<ScopeView>, k: ScopeKind, n: int, s: int, this: ThisView)
    requires
        ready(e, st, n, s),
    ensures
        ready(e, push_spec(e, st, k, n, s, this), n, st.len() as int),
        extends(st, push_spec(e, st, k, n, s, this), lo(e, n), hi(e, n)),
{
    let st2 = push_spec(e, st, k, n, s, this);
    let c = st.len() as int;
    assert(e.tree.node_ok(n, e.source@.len() as int));
    assert forall|i: int| 0 <= i < st.len() implies #[trigger] same_shape(st[i], st2[i]) by {}
    assert forall|i: int| 0 <= i < st2.len() implies #[trigger] scope_ok(st2, i) by {
        if i < c {
            assert(scope_ok(st, i));
            if let Some(p) = st[i].parent {
                if 0 <= p < i {
                    assert(same_shape(st[p], st2[p]));
                }
            }
        }
    }
    assert forall|i: int, j: int| 0 <= i < j < st2.len() implies #[trigger] recorded_before(st2, i, j) by {
        if j < c {
            assert(recorded_before(st, i, j));
            lemma_encloses_prefix(st, st2, i, j);
        } else {
            assert(settled(st, i, s, lo(e, n)));
            lemma_encloses_prefix(st, st2, i, s);
        }
    }
    assert forall|j: int| 0 <= j < st2.len() implies #[trigger] settled(st2, j, c, lo(e, n)) by {
        if j < c {
            assert(settled(st, j, s, lo(e, n)));
            lemma_encloses_prefix(st, st2, j, s);
        }
    }
}

/// After the walk of a child ending at `hi1`, the walk stands at any later place inside the
/// same scope.
proof fn lemma_after_child(st: Seq<ScopeView>, st2: Seq<ScopeView>, s: int, lo1: int, hi1: int, lo2: int, hi2: int)
    requires
        frontier(st, s, lo1, hi1),
        extends(st, st2, lo1, hi1),
        scopes_wf(st2),
        hi1 <= lo2 <= hi2 <= st[s].end,
    ensures
        frontier(st2, s, lo2, hi2),
{
    assert(same_shape(st[s], st2[s]));
    assert forall|j: int| 0 <= j < st2.len() implies #[trigger] settled(st2, j, s, lo2) by {
        if j < st.len() {
            assert(settled(st, j, s, lo1));
            assert(same_shape(st[j], st2[j]));
            lemma_encloses_prefix(st, st2, j, s);
        } else {
            assert(scope_ok(st2, j));
            assert(st2[j].end <= hi1);
        }
    }
}

} // verus!

verus! {

// ---------------------------------------------------------------------------------------------
// The walk.

/// The first declared symbol starting at byte `start`.
fn symbol_at(symbols: &Vec<DeclaredSymbol>, start: usize) -> (k: Option<usize>)
    ensures
        match k {
            Some(x) => symbol_from(symbols@, start as int, 0) == Some(x as int) && x < symbols@.len(),
            None => symbol_from(symbols@, start as int, 0) is None,
        },
{
    let mut k: usize = 0;
    while k < symbols.len()
        invariant
            k <= symbols@.len(),
            symbol_from(symbols@, start as int, 0) == symbol_from(symbols@, start as int, k as int),
        decreases symbols@.len() - k,
    {
        if symbols[k].start_byte == start {
            return Some(k);
        }
        k = k + 1;
    }
    None
}

/// The binding a declaration starting at `start` introduces, when the extractor named it.
fn symbol_binding_at(e: &BuildEnv, start: usize) -> (b: Option<Binding>)
    ensures
        match b {
            Some(x) => symbol_binding(*e, start as int) == Some(x@),
            None => symbol_binding(*e, start as int) is None,
        },
{
    match symbol_at(e.symbols, start) {
        Some(k) => Some(
            Binding::LocalSymbol {
                entity_id: e.symbols[k].entity_id.clone(),
                kind: e.symbols[k].kind,
                symbol_index: k,
            },
        ),
        None => None,
    }
}

/// The text of node `n`.
fn text(e: &BuildEnv, n: usize) -> (t: String)
    requires
        env_ok(*e),
        n < e.tree.nodes@.len(),
    ensures
        t@ == node_text(*e, n as int),
{
    proof {
        assert(e.tree.node_ok(n as int, e.source@.len() as int));
    }
    text_of(e.source, e.tree.nodes[n].start_byte, e.tree.nodes[n].end_byte)
}

/// The child of node `n` held under `field`: a node after `n`.
fn field_child(e: &BuildEnv, n: usize, field: &str) -> (c: Option<usize>)
    requires
        env_ok(*e),
        n < e.tree.nodes@.len(),
    ensures
        match c {
            Some(x) => e.tree.field_child(n as int, field@) == Some(x as int) && below(*e, n as int, x as int),
            None => e.tree.field_child(n as int, field@) is None,
        },
{
    proof {
        e.tree.lemma_field_child_from(n as int, field@, 0, e.source@.len() as int);
    }
    e.tree.field_child_of(n, field)
}

/// Whether node `n` is of grammar kind `kind`.
fn is_kind(e: &BuildEnv, n: usize, kind: &str) -> (same: bool)
    requires
        n < e.tree.nodes@.len(),
    ensures
        same == (e.tree.nodes@[n as int].kind@ == kind@),
{
    str_eq(e.tree.nodes[n].kind.as_str(), kind)
}

/// Bind `name` to `binding` in `scope`; an empty name binds nothing.
fn bind(scopes: &mut Vec<ScopeNode>, scope: usize, name: String, binding: Binding)
    requires
        scope < old(scopes)@.len(),
    ensures
        scopes_view(final(scopes)@) == bind_spec(scopes_view(old(scopes)@), scope as int, name@, binding@),
        same_shapes(scopes_view(old(scopes)@), scopes_view(final(scopes)@)),
{
    proof {
        lemma_bind_shapes(scopes_view(scopes@), scope as int, name@, binding@);
    }
    if name.as_str().is_empty() {
        return;
    }
    let ghost before = scopes@[scope as int];
    let ghost entry = (name, binding);
    scopes[scope].bindings.push((name, binding));
    proof {
        let after = scopes@[scope as int];
        assert(after.bindings@.drop_last() =~= before.bindings@);
        assert(scopes_view(scopes@) =~= bind_spec(
            scopes_view(old(scopes)@),
            scope as int,
            entry.0@,
            entry.1@,
        ));
    }
}

/// Open a scope of kind `k` for node `n` inside `scope`.
fn open_scope(e: &BuildEnv, scopes: &mut Vec<ScopeNode>, k: ScopeKind, n: usize, scope: usize, this: ThisBinding) -> (inner: usize)
    requires
        ready(*e, scopes_view(old(scopes)@), n as int, scope as int),
    ensures
        inner == old(scopes)@.len(),
        scopes_view(final(scopes)@) == push_spec(*e, scopes_view(old(scopes)@), k, n as int, scope as int, this@),
        ready(*e, scopes_view(final(scopes)@), n as int, inner as int),
        extends(scopes_view(old(scopes)@), scopes_view(final(scopes)@), lo(*e, n as int), hi(*e, n as int)),
{
    proof {
        lemma_push(*e, scopes_view(scopes@), k, n as int, scope as int, this@);
    }
    let inner = scopes.len();
    let ghost tv = this@;
    scopes.push(
        ScopeNode {
            parent: Some(scope),
            kind: k,
            start_byte: e.tree.nodes[n].start_byte,
            end_byte: e.tree.nodes[n].end_byte,
            bindings: Vec::new(),
            this_binding: this,
        },
    );
    proof {
        assert(entries_map(Seq::<(String, Binding)>::empty()) == Map::<Seq<char>, BindingView>::empty());
        assert(scopes_view(scopes@) =~= push_spec(
            *e,
            scopes_view(old(scopes)@),
            k,
            n as int,
            scope as int,
            tv,
        ));
    }
    inner
}

/// Bind every identifier the binding pattern `n` introduces as opaque in `scope`.
fn bind_pattern(e: &BuildEnv, scopes: &mut Vec<ScopeNode>, n: usize, scope: usize)
    requires
        env_ok(*e),
        n < e.tree.nodes@.len(),
        scope < old(scopes)@.len(),
    ensures
        scopes_view(final(scopes)@) == pattern_spec(*e, scopes_view(old(scopes)@), n as int, scope as int),
        same_shapes(scopes_view(old(scopes)@), scopes_view(final(scopes)@)),
    decreases e.tree.nodes@.len() - n, e.tree.arity(n as int) + 1,
{
    match pattern_form(e.tree.nodes[n].kind.as_str()) {
        PatternForm::Name => {
            let name = text(e, n);
            bind(scopes, scope, name, Binding::Opaque);
        },
        PatternForm::Value => {
            if let Some(v) = field_child(e, n, "value") {
                bind_pattern(e, scopes, v, scope);
            }
        },
        PatternForm::Left => {
            if let Some(v) = field_child(e, n, "left") {
                bind_pattern(e, scopes, v, scope);
            }
        },
        PatternForm::Each => {
            bind_patterns(e, scopes, n, scope);
        },
        PatternForm::Wrapped => {
            if let Some(v) = field_child(e, n, "pattern") {
                bind_pattern(e, scopes, v, scope);
            }
        },
        PatternForm::Ignored => {},
    }
}

/// [`bind_pattern`] on every named child of `n`.
fn bind_patterns(e: &BuildEnv, scopes: &mut Vec<ScopeNode>, n: usize, scope: usize)
    requires
        env_ok(*e),
        n < e.tree.nodes@.len(),
        scope < old(scopes)@.len(),
    ensures
        scopes_view(final(scopes)@) == patterns_spec(*e, scopes_view(old(scopes)@), n as int, 0, scope as int),
        same_shapes(scopes_view(old(scopes)@), scopes_view(final(scopes)@)),
    decreases e.tree.nodes@.len() - n, e.tree.arity(n as int),
{
    let ghost st0 = scopes_view(scopes@);
    let count = e.tree.nodes[n].children.len();
    proof {
        assert(e.tree.node_ok(n as int, e.source@.len() as int));
    }
    let mut k: usize = 0;
    while k < count
        invariant
            env_ok(*e),
            n < e.tree.nodes@.len(),
            e.tree.node_ok(n as int, e.source@.len() as int),
            count == e.tree.arity(n as int),
            k <= count,
            scope < scopes@.len(),
            same_shapes(st0, scopes_view(scopes@)),
            patterns_spec(*e, st0, n as int, 0, scope as int) == patterns_spec(
                *e,
                scopes_view(scopes@),
                n as int,
                k as int,
                scope as int,
            ),
        decreases count - k,
    {
        let c = e.tree.nodes[n].children[k];
        proof {
            assert(e.tree.child_inside(n as int, k as int));
        }
        if e.tree.nodes[c].named {
            let ghost before = scopes_view(scopes@);
            bind_pattern(e, scopes, c, scope);
            proof {
                lemma_same_shapes_trans(st0, before, scopes_view(scopes@));
            }
        }
        k = k + 1;
    }
}

/// Bind every type parameter among the named children of `n` as opaque in `scope`.
fn bind_type_params(e: &BuildEnv, scopes: &mut Vec<ScopeNode>, n: usize, scope: usize)
    requires
        env_ok(*e),
        n < e.tree.nodes@.len(),
        scope < old(scopes)@.len(),
    ensures
        scopes_view(final(scopes)@) == type_params_spec(*e, scopes_view(old(scopes)@), n as int, 0, scope as int),
        same_shapes(scopes_view(old(scopes)@), scopes_view(final(scopes)@)),
{
    let ghost st0 = scopes_view(scopes@);
    let count = e.tree.nodes[n].children.len();
    proof {
        assert(e.tree.node_ok(n as int, e.source@.len() as int));
        lemma_same_shapes_refl(st0);
    }
    let mut k: usize = 0;
    while k < count
        invariant
            env_ok(*e),
            n < e.tree.nodes@.len(),
            e.tree.node_ok(n as int, e.source@.len() as int),
            count == e.tree.arity(n as int),
            k <= count,
            scope < scopes@.len(),
            same_shapes(st0, scopes_view(scopes@)),
            type_params_spec(*e, st0, n as int, 0, scope as int) == type_params_spec(
                *e,
                scopes_view(scopes@),
                n as int,
                k as int,
                scope as int,
            ),
        decreases count - k,
    {
        let c = e.tree.nodes[n].children[k];
        proof {
            assert(e.tree.child_inside(n as int, k as int));
        }
        if e.tree.nodes[c].named && is_kind(e, c, "type_parameter") {
            if let Some(name) = field_child(e, c, "name") {
                let ghost before = scopes_view(scopes@);
                let t = text(e, name);
                bind(scopes, scope, t, Binding::Opaque);
                proof {
                    lemma_same_shapes_trans(st0, before, scopes_view(scopes@));
                }
            }
        }
        k = k + 1;
    }
}

/// Bind the parameters and type parameters of node `n` as opaque in `scope`.
fn bind_parameters(e: &BuildEnv, scopes: &mut Vec<ScopeNode>, n: usize, scope: usize)
    requires
        env_ok(*e),
        n < e.tree.nodes@.len(),
        scope < old(scopes)@.len(),
    ensures
        scopes_view(final(scopes)@) == params_spec(*e, scopes_view(old(scopes)@), n as int, scope as int),
        same_shapes(scopes_view(old(scopes)@), scopes_view(final(scopes)@)),
{
    let ghost st0 = scopes_view(scopes@);
    proof {
        lemma_same_shapes_refl(st0);
    }
    if let Some(p) = field_child(e, n, "parameters") {
        bind_patterns(e, scopes, p, scope);
    }
    let ghost st1 = scopes_view(scopes@);
    if let Some(p) = field_child(e, n, "parameter") {
        bind_pattern(e, scopes, p, scope);
    }
    let ghost st2 = scopes_view(scopes@);
    if let Some(p) = field_child(e, n, "type_parameters") {
        bind_type_params(e, scopes, p, scope);
    }
    proof {
        lemma_same_shapes_trans(st0, st1, st2);
        lemma_same_shapes_trans(st0, st2, scopes_view(scopes@));
    }
}

/// Bind the name of declaration `n` in `scope` to the symbol the extractor declared there.
fn bind_declared_name(e: &BuildEnv, scopes: &mut Vec<ScopeNode>, n: usize, scope: usize)
    requires
        env_ok(*e),
        n < e.tree.nodes@.len(),
        scope < old(scopes)@.len(),
    ensures
        scopes_view(final(scopes)@) == declared_name_spec(*e, scopes_view(old(scopes)@), n as int, scope as int),
        same_shapes(scopes_view(old(scopes)@), scopes_view(final(scopes)@)),
{
    proof {
        let st0 = scopes_view(scopes@);
        lemma_same_shapes_refl(st0);
    }
    if let Some(name) = field_child(e, n, "name") {
        if let Some(binding) = symbol_binding_at(e, e.tree.nodes[n].start_byte) {
            let t = text(e, name);
            bind(scopes, scope, t, binding);
        }
    }
}

/// Bind the identifier name of node `n` as opaque in `scope`.
fn bind_opaque_name(e: &BuildEnv, scopes: &mut Vec<ScopeNode>, n: usize, scope: usize)
    requires
        env_ok(*e),
        n < e.tree.nodes@.len(),
        scope < old(scopes)@.len(),
    ensures
        scopes_view(final(scopes)@) == opaque_name_spec(*e, scopes_view(old(scopes)@), n as int, scope as int),
        same_shapes(scopes_view(old(scopes)@), scopes_view(final(scopes)@)),
{
    proof {
        let st0 = scopes_view(scopes@);
        lemma_same_shapes_refl(st0);
    }
    if let Some(name) = field_child(e, n, "name") {
        if is_kind(e, name, "identifier") {
            let t = text(e, name);
            bind(scopes, scope, t, Binding::Opaque);
        }
    }
}

/// How the function-like node `n` binds `this`, inside the class `class` if any.
fn this_for(e: &BuildEnv, n: usize, class: &Option<String>) -> (this: ThisBinding)
    requires
        env_ok(*e),
        n < e.tree.nodes@.len(),
    ensures
        this@ == this_of(*e, n as int, class_view(*class)),
{
    if is_kind(e, n, "arrow_function") {
        ThisBinding::Inherit
    } else if is_kind(e, n, "method_definition") {
        match class {
            Some(id) => {
                proof {
                    assert(e.tree.node_ok(n as int, e.source@.len() as int));
                    assert forall|k: int| 0 <= k < e.tree.arity(n as int) implies e.tree.child(n as int, k) < e.tree.size() by {
                        assert(e.tree.child_inside(n as int, k));
                    }
                }
                ThisBinding::Method {
                    class_entity_id: id.clone(),
                    is_static: e.tree.has_child_kind(n, "static"),
                }
            },
            None => ThisBinding::Rebound,
        }
    } else {
        ThisBinding::Rebound
    }
}

/// The literal specifier of `require('...')`, when that is exactly what node `n` is.
fn require_specifier(e: &BuildEnv, n: usize) -> (specifier: Option<String>)
    requires
        env_ok(*e),
        n < e.tree.nodes@.len(),
    ensures
        match specifier {
            Some(s) => require_of(*e, n as int) == Some(s@),
            None => require_of(*e, n as int) is None,
        },
{
    if !is_kind(e, n, "call_expression") {
        return None;
    }
    let function = match field_child(e, n, "function") {
        Some(f) => f,
        None => return None,
    };
    if !is_kind(e, function, "identifier") {
        return None;
    }
    let name = text(e, function);
    if !str_eq(name.as_str(), "require") {
        return None;
    }
    let arguments = match field_child(e, n, "arguments") {
        Some(a) => a,
        None => return None,
    };
    let argument = match e.tree.first_named_of_kind(arguments, "string") {
        Some(s) => s,
        None => return None,
    };
    proof {
        lemma_first_named_from(*e.tree, arguments as int, "string"@, 0, e.source@.len() as int);
    }
    match e.tree.first_named_of_kind(argument, "string_fragment") {
        Some(fragment) => {
            proof {
                lemma_first_named_from(*e.tree, argument as int, "string_fragment"@, 0, e.source@.len() as int);
            }
            Some(text(e, fragment))
        },
        None => None,
    }
}

} // verus!

verus! {

/// Walk node `n` in scope `scope`, inside the class `class` if any.
fn visit(e: &BuildEnv, scopes: &mut Vec<ScopeNode>, n: usize, scope: usize, class: &Option<String>)
    requires
        ready(*e, scopes_view(old(scopes)@), n as int, scope as int),
    ensures
        scopes_view(final(scopes)@) == visit_spec(*e, scopes_view(old(scopes)@), n as int, scope as int, class_view(*class)),
        walked(*e, scopes_view(old(scopes)@), scopes_view(final(scopes)@), n as int),
    decreases e.tree.nodes@.len() - n, 2int,
{
    let ghost st0 = scopes_view(scopes@);
    let ghost l = lo(*e, n as int);
    let ghost h = hi(*e, n as int);
    let none: Option<String> = None;
    match node_form(e.tree.nodes[n].kind.as_str()) {
        NodeForm::Import => {
            proof {
                lemma_same_shapes(st0, st0, scope as int, l, h);
            }
        },
        NodeForm::FunctionDeclaration => {
            bind_declared_name(e, scopes, n, scope);
            let ghost st1 = scopes_view(scopes@);
            proof {
                lemma_same_shapes(st0, st1, scope as int, l, h);
            }
            function_scope(e, scopes, n, scope, &none);
            proof {
                lemma_extends_trans(st0, st1, scopes_view(scopes@), l, h, l, h);
            }
        },
        NodeForm::FunctionValue => {
            function_scope(e, scopes, n, scope, &none);
        },
        NodeForm::Method => {
            function_scope(e, scopes, n, scope, class);
        },
        NodeForm::Class => {
            visit_class(e, scopes, n, scope);
        },
        NodeForm::Interface => {
            bind_declared_name(e, scopes, n, scope);
            let ghost st1 = scopes_view(scopes@);
            proof {
                lemma_same_shapes(st0, st1, scope as int, l, h);
            }
            let inner = open_scope(e, scopes, ScopeKind::Block, n, scope, ThisBinding::Inherit);
            let ghost st2 = scopes_view(scopes@);
            bind_parameters(e, scopes, n, inner);
            let ghost st3 = scopes_view(scopes@);
            proof {
                lemma_same_shapes(st2, st3, inner as int, l, h);
            }
            visit_children(e, scopes, n, inner, &none);
            proof {
                lemma_extends_trans(st0, st1, st2, l, h, l, h);
                lemma_extends_trans(st0, st2, st3, l, h, l, h);
                lemma_extends_trans(st0, st3, scopes_view(scopes@), l, h, l, h);
            }
        },
        NodeForm::OpaqueScope => {
            bind_opaque_name(e, scopes, n, scope);
            let ghost st1 = scopes_view(scopes@);
            proof {
                lemma_same_shapes(st0, st1, scope as int, l, h);
            }
            let inner = open_scope(e, scopes, ScopeKind::Block, n, scope, ThisBinding::Inherit);
            let ghost st2 = scopes_view(scopes@);
            visit_children(e, scopes, n, inner, &none);
            proof {
                lemma_extends_trans(st0, st1, st2, l, h, l, h);
                lemma_extends_trans(st0, st2, scopes_view(scopes@), l, h, l, h);
            }
        },
        NodeForm::TypeAlias => {
            bind_opaque_name(e, scopes, n, scope);
            let ghost st1 = scopes_view(scopes@);
            proof {
                lemma_same_shapes(st0, st1, scope as int, l, h);
            }
            let inner = open_scope(e, scopes, ScopeKind::Block, n, scope, ThisBinding::Inherit);
            let ghost st2 = scopes_view(scopes@);
            bind_parameters(e, scopes, n, inner);
            let ghost st3 = scopes_view(scopes@);
            proof {
                lemma_same_shapes(st2, st3, inner as int, l, h);
            }
            visit_children(e, scopes, n, inner, &none);
            proof {
                lemma_extends_trans(st0, st1, st2, l, h, l, h);
                lemma_extends_trans(st0, st2, st3, l, h, l, h);
                lemma_extends_trans(st0, st3, scopes_view(scopes@), l, h, l, h);
            }
        },
        NodeForm::Variables => {
            visit_declarators(e, scopes, n, scope);
        },
        NodeForm::Block => {
            let inner = open_scope(e, scopes, ScopeKind::Block, n, scope, ThisBinding::Inherit);
            let ghost st1 = scopes_view(scopes@);
            visit_children(e, scopes, n, inner, class);
            proof {
                lemma_extends_trans(st0, st1, scopes_view(scopes@), l, h, l, h);
            }
        },
        NodeForm::Catch => {
            let inner = open_scope(e, scopes, ScopeKind::Catch, n, scope, ThisBinding::Inherit);
            let ghost st1 = scopes_view(scopes@);
            proof {
                lemma_same_shapes_refl(st1);
            }
            if let Some(p) = field_child(e, n, "parameter") {
                bind_pattern(e, scopes, p, inner);
            }
            let ghost st2 = scopes_view(scopes@);
            proof {
                lemma_same_shapes(st1, st2, inner as int, l, h);
            }
            visit_children(e, scopes, n, inner, class);
            proof {
                lemma_extends_trans(st0, st1, st2, l, h, l, h);
                lemma_extends_trans(st0, st2, scopes_view(scopes@), l, h, l, h);
            }
        },
        NodeForm::Loop => {
            let inner = open_scope(e, scopes, ScopeKind::Block, n, scope, ThisBinding::Inherit);
            let ghost st1 = scopes_view(scopes@);
            proof {
                lemma_same_shapes_refl(st1);
            }
            if let Some(p) = field_child(e, n, "left") {
                bind_pattern(e, scopes, p, inner);
            }
            let ghost st2 = scopes_view(scopes@);
            proof {
                lemma_same_shapes(st1, st2, inner as int, l, h);
            }
            visit_children(e, scopes, n, inner, class);
            proof {
                lemma_extends_trans(st0, st1, st2, l, h, l, h);
                lemma_extends_trans(st0, st2, scopes_view(scopes@), l, h, l, h);
            }
        },
        NodeForm::Object => {
            visit_children(e, scopes, n, scope, &none);
        },
        NodeForm::Other => {
            visit_children(e, scopes, n, scope, class);
        },
    }
}

/// Walk a function-like node `n`: a new scope, its parameters bound, then the rest.
fn function_scope(e: &BuildEnv, scopes: &mut Vec<ScopeNode>, n: usize, scope: usize, class: &Option<String>)
    requires
        ready(*e, scopes_view(old(scopes)@), n as int, scope as int),
    ensures
        scopes_view(final(scopes)@) == function_spec(*e, scopes_view(old(scopes)@), n as int, scope as int, class_view(*class)),
        walked(*e, scopes_view(old(scopes)@), scopes_view(final(scopes)@), n as int),
    decreases e.tree.nodes@.len() - n, 1int,
{
    let ghost st0 = scopes_view(scopes@);
    let ghost l = lo(*e, n as int);
    let ghost h = hi(*e, n as int);
    let this = this_for(e, n, class);
    let inner = open_scope(e, scopes, ScopeKind::Function, n, scope, this);
    let ghost st1 = scopes_view(scopes@);
    bind_parameters(e, scopes, n, inner);
    let ghost st2 = scopes_view(scopes@);
    proof {
        lemma_same_shapes_refl(st2);
    }
    if is_kind(e, n, "function_expression") || is_kind(e, n, "generator_function") {
        if let Some(name) = field_child(e, n, "name") {
            let t = text(e, name);
            bind(scopes, inner, t, Binding::Opaque);
        }
    }
    let ghost st3 = scopes_view(scopes@);
    proof {
        lemma_same_shapes_trans(st1, st2, st3);
        lemma_same_shapes(st1, st3, inner as int, l, h);
    }
    let none: Option<String> = None;
    visit_children(e, scopes, n, inner, &none);
    proof {
        lemma_extends_trans(st0, st1, st3, l, h, l, h);
        lemma_extends_trans(st0, st3, scopes_view(scopes@), l, h, l, h);
    }
}

/// Walk a class node `n`: its name bound outside and inside, a class scope, then the body.
fn visit_class(e: &BuildEnv, scopes: &mut Vec<ScopeNode>, n: usize, scope: usize)
    requires
        ready(*e, scopes_view(old(scopes)@), n as int, scope as int),
    ensures
        scopes_view(final(scopes)@) == class_spec(*e, scopes_view(old(scopes)@), n as int, scope as int),
        walked(*e, scopes_view(old(scopes)@), scopes_view(final(scopes)@), n as int),
    decreases e.tree.nodes@.len() - n, 1int,
{
    let ghost st0 = scopes_view(scopes@);
    let ghost l = lo(*e, n as int);
    let ghost h = hi(*e, n as int);
    let binding = symbol_binding_at(e, e.tree.nodes[n].start_byte);
    bind_declared_name(e, scopes, n, scope);
    let ghost st1 = scopes_view(scopes@);
    proof {
        lemma_same_shapes(st0, st1, scope as int, l, h);
    }
    let inner = open_scope(e, scopes, ScopeKind::Class, n, scope, ThisBinding::Inherit);
    let ghost st2 = scopes_view(scopes@);
    bind_parameters(e, scopes, n, inner);
    let ghost st3 = scopes_view(scopes@);
    proof {
        lemma_same_shapes_refl(st3);
    }
    if let Some(name) = field_child(e, n, "name") {
        let t = text(e, name);
        let b = match &binding {
            Some(b) => b.duplicate(),
            None => Binding::Opaque,
        };
        bind(scopes, inner, t, b);
    }
    let ghost st4 = scopes_view(scopes@);
    proof {
        lemma_same_shapes_trans(st2, st3, st4);
        lemma_same_shapes(st2, st4, inner as int, l, h);
    }
    let context: Option<String> = match &binding {
        Some(Binding::LocalSymbol { entity_id, .. }) => Some(entity_id.clone()),
        _ => None,
    };
    visit_children(e, scopes, n, inner, &context);
    proof {
        lemma_extends_trans(st0, st1, st2, l, h, l, h);
        lemma_extends_trans(st0, st2, st4, l, h, l, h);
        lemma_extends_trans(st0, st4, scopes_view(scopes@), l, h, l, h);
    }
}

/// Walk the named children of the variable declaration `n` in `scope`.
fn visit_declarators(e: &BuildEnv, scopes: &mut Vec<ScopeNode>, n: usize, scope: usize)
    requires
        ready(*e, scopes_view(old(scopes)@), n as int, scope as int),
    ensures
        scopes_view(final(scopes)@) == declarators_spec(*e, scopes_view(old(scopes)@), n as int, 0, scope as int),
        walked(*e, scopes_view(old(scopes)@), scopes_view(final(scopes)@), n as int),
    decreases e.tree.nodes@.len() - n, 1int,
{
    let ghost st0 = scopes_view(scopes@);
    let ghost l = lo(*e, n as int);
    let ghost h = hi(*e, n as int);
    let count = e.tree.nodes[n].children.len();
    proof {
        assert(e.tree.node_ok(n as int, e.source@.len() as int));
        lemma_same_shapes(st0, st0, scope as int, l, h);
        assert forall|m: int| 0 <= m < count implies l <= lo(*e, #[trigger] e.tree.child(n as int, m)) by {
            assert(e.tree.child_inside(n as int, m));
        }
    }
    let mut k: usize = 0;
    let ghost mut pos: int = l;
    while k < count
        invariant
            env_ok(*e),
            n < e.tree.nodes@.len(),
            e.tree.node_ok(n as int, e.source@.len() as int),
            count == e.tree.arity(n as int),
            k <= count,
            l == lo(*e, n as int),
            h == hi(*e, n as int),
            l <= pos <= h,
            scopes_wf(scopes_view(scopes@)),
            frontier(scopes_view(scopes@), scope as int, pos, h),
            extends(st0, scopes_view(scopes@), l, h),
            forall|m: int| k <= m < count ==> pos <= lo(*e, #[trigger] e.tree.child(n as int, m)),
            declarators_spec(*e, st0, n as int, 0, scope as int) == declarators_spec(
                *e,
                scopes_view(scopes@),
                n as int,
                k as int,
                scope as int,
            ),
        decreases count - k,
    {
        let d = e.tree.nodes[n].children[k];
        proof {
            assert(e.tree.child_inside(n as int, k as int));
        }
        if e.tree.nodes[d].named {
            let ghost before = scopes_view(scopes@);
            proof {
                assert(pos <= lo(*e, e.tree.child(n as int, k as int)));
                assert(e.tree.node_ok(d as int, e.source@.len() as int));
                lemma_frontier_narrow(before, scope as int, pos, h, lo(*e, d as int), hi(*e, d as int));
            }
            visit_declarator(e, scopes, d, scope);
            proof {
                lemma_after_child(before, scopes_view(scopes@), scope as int, lo(*e, d as int), hi(*e, d as int), hi(*e, d as int), h);
                lemma_extends_trans(st0, before, scopes_view(scopes@), l, h, lo(*e, d as int), hi(*e, d as int));
                assert forall|m: int| k + 1 <= m < count implies hi(*e, d as int) <= lo(*e, #[trigger] e.tree.child(n as int, m)) by {
                    assert(e.tree.children_ordered(n as int, k as int, m));
                }
                pos = hi(*e, d as int);
            }
        }
        k = k + 1;
    }
}

/// Walk one child `d` of a variable declaration: a declarator binds its name, anything else is
/// walked.
fn visit_declarator(e: &BuildEnv, scopes: &mut Vec<ScopeNode>, d: usize, scope: usize)
    requires
        ready(*e, scopes_view(old(scopes)@), d as int, scope as int),
    ensures
        scopes_view(final(scopes)@) == declarator_spec(*e, scopes_view(old(scopes)@), d as int, scope as int),
        walked(*e, scopes_view(old(scopes)@), scopes_view(final(scopes)@), d as int),
    decreases e.tree.nodes@.len() - d, 3int,
{
    let none: Option<String> = None;
    if !is_kind(e, d, "variable_declarator") {
        visit(e, scopes, d, scope, &none);
        return;
    }
    let ghost st0 = scopes_view(scopes@);
    let ghost l = lo(*e, d as int);
    let ghost h = hi(*e, d as int);
    proof {
        lemma_same_shapes_refl(st0);
    }
    if let Some(name) = field_child(e, d, "name") {
        if is_kind(e, name, "identifier") {
            let t = text(e, name);
            let b = match symbol_binding_at(e, e.tree.nodes[d].start_byte) {
                Some(b) => b,
                None => match field_child(e, d, "value") {
                    Some(v) => match require_specifier(e, v) {
                        Some(specifier) => Binding::ImportedNamespace { specifier },
                        None => Binding::Opaque,
                    },
                    None => Binding::Opaque,
                },
            };
            bind(scopes, scope, t, b);
        } else {
            bind_pattern(e, scopes, name, scope);
        }
    }
    let ghost st1 = scopes_view(scopes@);
    proof {
        lemma_same_shapes(st0, st1, scope as int, l, h);
    }
    visit_children(e, scopes, d, scope, &none);
    proof {
        lemma_extends_trans(st0, st1, scopes_view(scopes@), l, h, l, h);
    }
}

/// Walk the named children of `n` in `scope`, inside the class `class` if any.
fn visit_children(e: &BuildEnv, scopes: &mut Vec<ScopeNode>, n: usize, scope: usize, class: &Option<String>)
    requires
        ready(*e, scopes_view(old(scopes)@), n as int, scope as int),
    ensures
        scopes_view(final(scopes)@) == children_spec(*e, scopes_view(old(scopes)@), n as int, 0, scope as int, class_view(*class)),
        walked(*e, scopes_view(old(scopes)@), scopes_view(final(scopes)@), n as int),
    decreases e.tree.nodes@.len() - n, 0int,
{
    let ghost st0 = scopes_view(scopes@);
    let ghost l = lo(*e, n as int);
    let ghost h = hi(*e, n as int);
    let count = e.tree.nodes[n].children.len();
    proof {
        assert(e.tree.node_ok(n as int, e.source@.len() as int));
        lemma_same_shapes(st0, st0, scope as int, l, h);
        assert forall|m: int| 0 <= m < count implies l <= lo(*e, #[trigger] e.tree.child(n as int, m)) by {
            assert(e.tree.child_inside(n as int, m));
        }
    }
    let mut k: usize = 0;
    let ghost mut pos: int = l;
    while k < count
        invariant
            env_ok(*e),
            n < e.tree.nodes@.len(),
            e.tree.node_ok(n as int, e.source@.len() as int),
            count == e.tree.arity(n as int),
            k <= count,
            l == lo(*e, n as int),
            h == hi(*e, n as int),
            l <= pos <= h,
            scopes_wf(scopes_view(scopes@)),
            frontier(scopes_view(scopes@), scope as int, pos, h),
            extends(st0, scopes_view(scopes@), l, h),
            forall|m: int| k <= m < count ==> pos <= lo(*e, #[trigger] e.tree.child(n as int, m)),
            children_spec(*e, st0, n as int, 0, scope as int, class_view(*class)) == children_spec(
                *e,
                scopes_view(scopes@),
                n as int,
                k as int,
                scope as int,
                class_view(*class),
            ),
        decreases count - k,
    {
        let c = e.tree.nodes[n].children[k];
        proof {
            assert(e.tree.child_inside(n as int, k as int));
        }
        if e.tree.nodes[c].named {
            let ghost before = scopes_view(scopes@);
            proof {
                assert(pos <= lo(*e, e.tree.child(n as int, k as int)));
                assert(e.tree.node_ok(c as int, e.source@.len() as int));
                lemma_frontier_narrow(before, scope as int, pos, h, lo(*e, c as int), hi(*e, c as int));
            }
            visit(e, scopes, c, scope, class);
            proof {
                lemma_after_child(before, scopes_view(scopes@), scope as int, lo(*e, c as int), hi(*e, c as int), hi(*e, c as int), h);
                lemma_extends_trans(st0, before, scopes_view(scopes@), l, h, lo(*e, c as int), hi(*e, c as int));
                assert forall|m: int| k + 1 <= m < count implies hi(*e, c as int) <= lo(*e, #[trigger] e.tree.child(n as int, m)) by {
                    assert(e.tree.children_ordered(n as int, k as int, m));
                }
                pos = hi(*e, c as int);
            }
        }
        k = k + 1;
    }
}

} // verus!

verus! {

/// Bind the names the static imports bring in, in the module scope.
fn bind_imports(imports: &Vec<ModuleImport>, scopes: &mut Vec<ScopeNode>)
    requires
        old(scopes)@.len() > 0,
    ensures
        scopes_view(final(scopes)@) == imports_spec(scopes_view(old(scopes)@), imports@, 0),
        same_shapes(scopes_view(old(scopes)@), scopes_view(final(scopes)@)),
{
    let ghost st0 = scopes_view(scopes@);
    proof {
        lemma_same_shapes_refl(st0);
    }
    let mut k: usize = 0;
    while k < imports.len()
        invariant
            k <= imports@.len(),
            scopes@.len() == st0.len(),
            st0.len() > 0,
            same_shapes(st0, scopes_view(scopes@)),
            imports_spec(st0, imports@, 0) == imports_spec(scopes_view(scopes@), imports@, k as int),
        decreases imports@.len() - k,
    {
        let import = &imports[k];
        if import.is_static {
            let ghost st1 = scopes_view(scopes@);
            let mut m: usize = 0;
            while m < import.specifiers.len()
                invariant
                    m <= import.specifiers@.len(),
                    scopes@.len() == st0.len(),
                    st0.len() > 0,
                    same_shapes(st0, scopes_view(scopes@)),
                    specifiers_spec(st1, *import, 0) == specifiers_spec(scopes_view(scopes@), *import, m as int),
                decreases import.specifiers@.len() - m,
            {
                let name = &import.specifiers[m];
                if let Some(local) = &name.local {
                    let binding = if str_eq(name.kind.as_str(), "default") {
                        Some(Binding::ImportedDefault { specifier: import.raw_specifier.clone() })
                    } else if str_eq(name.kind.as_str(), "namespace") {
                        Some(Binding::ImportedNamespace { specifier: import.raw_specifier.clone() })
                    } else if str_eq(name.kind.as_str(), "named") {
                        match &name.imported {
                            Some(imported) => Some(
                                Binding::ImportedNamed {
                                    specifier: import.raw_specifier.clone(),
                                    imported: imported.clone(),
                                },
                            ),
                            None => None,
                        }
                    } else {
                        None
                    };
                    if let Some(binding) = binding {
                        let ghost before = scopes_view(scopes@);
                        bind(scopes, 0, local.clone(), binding);
                        proof {
                            lemma_same_shapes_trans(st0, before, scopes_view(scopes@));
                        }
                    }
                }
                m = m + 1;
            }
        }
        k = k + 1;
    }
}

impl BindingTable {
    /// Build the scope chain for one module from its parse and its outline.
    ///
    /// The result is the walk [`table_spec`] describes, and it has the shape of a pre-order
    /// recording ([`scopes_wf`]): starts never decrease, every scope sits inside its parent,
    /// and a scope that covers a later one's start encloses it.
    pub fn build(outline: &ModuleOutline, tree: &SyntaxTree, source: &[u8]) -> (table: BindingTable)
        requires
            tree.well_formed(source@.len() as int),
        ensures
            table.view() == table_spec(
                BuildEnv { tree, source, symbols: &outline.symbols },
                outline.imports@,
            ),
            scopes_wf(table.view()),
    {
        let e = BuildEnv { tree, source, symbols: &outline.symbols };
        let mut scopes: Vec<ScopeNode> = Vec::new();
        scopes.push(
            ScopeNode {
                parent: None,
                kind: ScopeKind::Module,
                start_byte: 0,
                end_byte: usize::MAX,
                bindings: Vec::new(),
                this_binding: ThisBinding::Module,
            },
        );
        let ghost st0 = scopes_view(scopes@);
        proof {
            assert(entries_map(Seq::<(String, Binding)>::empty()) == Map::<Seq<char>, BindingView>::empty());
            assert(st0 =~= module_scope());
            assert(scope_ok(st0, 0));
            assert(scopes_wf(st0));
        }
        bind_imports(&outline.imports, &mut scopes);
        let ghost st1 = scopes_view(scopes@);
        proof {
            assert(tree.node_ok(0, source@.len() as int));
            lemma_same_shapes(st0, st1, 0, lo(e, 0), hi(e, 0));
            assert(settled(st0, 0, 0, lo(e, 0)));
            assert(frontier(st0, 0, lo(e, 0), hi(e, 0)));
        }
        let none: Option<String> = None;
        visit_children(&e, &mut scopes, 0, 0, &none);
        BindingTable { scopes }
    }
}

} // verus!
