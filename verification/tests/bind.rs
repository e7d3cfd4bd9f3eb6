use nerve::bind::{
    is_function_node, Binding, BindingTable, DeclaredSymbol, ImportedName, ModuleImport,
    ModuleOutline, ScopeKind, SyntaxNode, SyntaxTree, ThisResolution,
};
use nerve::vocab::EntityKind;

/// A node of a hand-written parse, before it is laid out in pre-order.
struct Node {
    kind: &'static str,
    field: Option<&'static str>,
    named: bool,
    range: (usize, usize),
    children: Vec<Node>,
}

/// A named node.
fn n(kind: &'static str, range: (usize, usize), children: Vec<Node>) -> Node {
    Node { kind, field: None, named: true, range, children }
}

/// A keyword or punctuation token.
fn kw(kind: &'static str, range: (usize, usize)) -> Node {
    Node { kind, field: None, named: false, range, children: vec![] }
}

/// `node` held under `field` by its parent.
fn f(field: &'static str, mut node: Node) -> Node {
    node.field = Some(field);
    node
}

/// The module source and where its pieces are.
struct Src {
    text: String,
}

impl Src {
    fn new(text: &str) -> Src {
        Src { text: text.to_string() }
    }

    /// The byte range of the `occurrence`th (0-based) `needle`.
    fn at(&self, needle: &str, occurrence: usize) -> (usize, usize) {
        let start = offset_in(&self.text, needle, occurrence);
        (start, start + needle.len())
    }

    /// The range of `needle`'s occurrence, narrowed to `inner`'s first occurrence inside it.
    fn within(&self, needle: &str, occurrence: usize, inner: &str) -> (usize, usize) {
        let (start, end) = self.at(needle, occurrence);
        let found = self.text[start..end].find(inner).unwrap();
        (start + found, start + found + inner.len())
    }

    /// The range of the last word of the `occurrence`th `text`, such as the name in
    /// `function name`.
    fn last_word(&self, text: &str, occurrence: usize) -> (usize, usize) {
        let (start, end) = self.at(text, occurrence);
        let word = text.rfind(' ').map(|space| space + 1).unwrap_or(0);
        (start + word, end)
    }

    /// The parse: a `program` over the whole source holding `children`.
    fn tree(&self, children: Vec<Node>) -> SyntaxTree {
        let mut nodes = Vec::new();
        lay_out(n("program", (0, self.text.len()), children), &mut nodes);
        let tree = SyntaxTree { nodes };
        check_shape(&tree, self.text.len());
        tree
    }
}

/// Byte offset of the `occurrence`th (0-based) occurrence of `needle`.
fn offset_in(source: &str, needle: &str, occurrence: usize) -> usize {
    let mut from = 0;
    for _ in 0..=occurrence {
        let found = source[from..]
            .find(needle)
            .unwrap_or_else(|| panic!("{needle:?} occurrence {occurrence} not found"));
        from += found + 1;
    }
    from - 1
}

/// The hand-written parse has the shape of a real one: children after their parent, inside
/// it, and in order.
fn check_shape(tree: &SyntaxTree, len: usize) {
    for (index, node) in tree.nodes.iter().enumerate() {
        assert!(node.start_byte <= node.end_byte && node.end_byte <= len, "node {index} {}", node.kind);
        for (k, &child) in node.children.iter().enumerate() {
            let inner = &tree.nodes[child];
            assert!(child > index, "child order at {index}");
            assert!(
                node.start_byte <= inner.start_byte && inner.end_byte <= node.end_byte,
                "{} {:?} is not inside {} {:?}",
                inner.kind,
                (inner.start_byte, inner.end_byte),
                node.kind,
                (node.start_byte, node.end_byte)
            );
            if k > 0 {
                let previous = &tree.nodes[node.children[k - 1]];
                assert!(previous.end_byte <= inner.start_byte, "{} overlaps {}", previous.kind, inner.kind);
            }
        }
    }
}

/// Lay `node` and its descendants out in pre-order; answers the node's index.
fn lay_out(node: Node, nodes: &mut Vec<SyntaxNode>) -> usize {
    let index = nodes.len();
    nodes.push(SyntaxNode {
        kind: node.kind.to_string(),
        field: node.field.map(|field| field.to_string()),
        named: node.named,
        start_byte: node.range.0,
        end_byte: node.range.1,
        children: vec![],
    });
    let mut children = Vec::new();
    for child in node.children {
        children.push(lay_out(child, nodes));
    }
    nodes[index].children = children;
    index
}

fn symbol(entity_id: &str, kind: EntityKind, start_byte: usize) -> DeclaredSymbol {
    DeclaredSymbol { entity_id: entity_id.to_string(), kind, start_byte }
}

fn outline(symbols: Vec<DeclaredSymbol>, imports: Vec<ModuleImport>) -> ModuleOutline {
    ModuleOutline { symbols, imports }
}

fn import(specifier: &str, names: &[(&str, &str, Option<&str>)]) -> ModuleImport {
    ModuleImport {
        is_static: true,
        raw_specifier: specifier.to_string(),
        specifiers: names
            .iter()
            .map(|(kind, local, imported)| ImportedName {
                kind: kind.to_string(),
                local: Some(local.to_string()),
                imported: imported.map(|name| name.to_string()),
            })
            .collect(),
    }
}

struct Fixture {
    src: Src,
    table: BindingTable,
}

fn build(src: Src, tree: SyntaxTree, outline: ModuleOutline) -> Fixture {
    let table = BindingTable::build(&outline, &tree, src.text.as_bytes());
    Fixture { src, table }
}

fn lookup_at<'a>(fixture: &'a Fixture, at: usize, name: &str) -> Option<&'a Binding> {
    let scope = fixture.table.scope_at(at);
    fixture.table.lookup(scope, name)
}

fn offset_of(fixture: &Fixture, needle: &str, occurrence: usize) -> usize {
    offset_in(&fixture.src.text, needle, occurrence)
}

/// `function <name>(<params>) <body>` as the grammar lays it out.
fn function(s: &Src, kind: &'static str, whole: (usize, usize), name: Option<(usize, usize)>, params: Node, body: Node) -> Node {
    let mut children = vec![kw("function", (whole.0, whole.0 + 8))];
    if let Some(name) = name {
        children.push(f("name", n("identifier", name, vec![])));
    }
    children.push(f("parameters", params));
    children.push(f("body", body));
    let _ = s;
    n(kind, whole, children)
}

/// A call `callee(args)` as an expression statement.
fn call_statement(s: &Src, text: &str, occurrence: usize, callee: &str) -> Node {
    let whole = s.at(text, occurrence);
    let call_end = whole.1 - 1;
    let callee_range = (whole.0, whole.0 + callee.len());
    n(
        "expression_statement",
        whole,
        vec![n(
            "call_expression",
            (whole.0, call_end),
            vec![
                f("function", n("identifier", callee_range, vec![])),
                f("arguments", n("arguments", (callee_range.1, call_end), vec![])),
            ],
        )],
    )
}

fn params(range: (usize, usize), children: Vec<Node>) -> Node {
    n("formal_parameters", range, children)
}

fn block(range: (usize, usize), children: Vec<Node>) -> Node {
    n("statement_block", range, children)
}

fn required(name: (usize, usize)) -> Node {
    n("required_parameter", name, vec![f("pattern", n("identifier", name, vec![]))])
}

#[test]
fn a_module_function_binds_at_module_scope() {
    let s = Src::new("function add() {}\nadd();\n");
    let tree = s.tree(vec![
        function(&s, "function_declaration", s.at("function add() {}", 0), Some(s.at("add", 0)), params(s.at("()", 0), vec![]), block(s.at("{}", 0), vec![])),
        call_statement(&s, "add();", 0, "add"),
    ]);
    let fixture = build(s, tree, outline(vec![symbol("add", EntityKind::Function, 0)], vec![]));
    let at = offset_of(&fixture, "add();", 0);
    assert!(matches!(
        lookup_at(&fixture, at, "add"),
        Some(Binding::LocalSymbol { kind: EntityKind::Function, .. })
    ));
}

#[test]
fn a_call_resolves_to_a_function_declared_later_in_the_same_scope() {
    let s = Src::new("function a() { b(); }\nfunction b() {}\n");
    let tree = s.tree(vec![
        function(&s, "function_declaration", s.at("function a() { b(); }", 0), Some(s.at("a", 0)), params(s.at("()", 0), vec![]), block(s.at("{ b(); }", 0), vec![call_statement(&s, "b();", 0, "b")])),
        function(&s, "function_declaration", s.at("function b() {}", 0), Some(s.within("function b() {}", 0, "b")), params(s.at("()", 2), vec![]), block(s.at("{}", 0), vec![])),
    ]);
    let b_start = s.at("function b", 0).0;
    let fixture = build(s, tree, outline(vec![symbol("a", EntityKind::Function, 0), symbol("b", EntityKind::Function, b_start)], vec![]));
    let at = offset_of(&fixture, "b();", 0);
    assert!(matches!(lookup_at(&fixture, at, "b"), Some(Binding::LocalSymbol { .. })));
}

#[test]
fn a_parameter_shadows_a_module_function() {
    let s = Src::new("function foo() {}\nfunction bar(foo) { foo(); }\n");
    let tree = s.tree(vec![
        function(&s, "function_declaration", s.at("function foo() {}", 0), Some(s.at("foo", 0)), params(s.at("()", 0), vec![]), block(s.at("{}", 0), vec![])),
        function(&s, "function_declaration", s.at("function bar(foo) { foo(); }", 0), Some(s.at("bar", 0)), params(s.at("(foo)", 0), vec![required(s.at("foo", 1))]), block(s.at("{ foo(); }", 0), vec![call_statement(&s, "foo();", 0, "foo")])),
    ]);
    let bar_start = s.at("function bar", 0).0;
    let fixture = build(s, tree, outline(vec![symbol("foo", EntityKind::Function, 0), symbol("bar", EntityKind::Function, bar_start)], vec![]));
    let at = offset_of(&fixture, "foo();", 0);
    assert_eq!(lookup_at(&fixture, at, "foo"), Some(&Binding::Opaque));
    // Outside `bar`'s parameter list, the module function is still visible. A function
    // scope starts at the `function` keyword, so "outside" means module top level.
    assert!(matches!(lookup_at(&fixture, 0, "foo"), Some(Binding::LocalSymbol { .. })));
}

#[test]
fn a_const_shadows_an_import() {
    let s = Src::new("import { add } from './math';\nfunction f() { const add = 1; add; }\n");
    let tree = s.tree(vec![
        n("import_statement", s.at("import { add } from './math';", 0), vec![]),
        function(&s, "function_declaration", s.at("function f() { const add = 1; add; }", 0), Some(s.last_word("function f", 0)), params(s.at("()", 0), vec![]), block(s.at("{ const add = 1; add; }", 0), vec![
            n("lexical_declaration", s.at("const add = 1;", 0), vec![
                kw("const", s.at("const", 0)),
                n("variable_declarator", s.at("add = 1", 0), vec![
                    f("name", n("identifier", s.at("add", 1), vec![])),
                    f("value", n("number", s.at("1", 0), vec![])),
                ]),
            ]),
            n("expression_statement", s.at("add;", 0), vec![n("identifier", s.within("add;", 0, "add"), vec![])]),
        ])),
    ]);
    let f_start = s.at("function f", 0).0;
    let fixture = build(s, tree, outline(vec![symbol("f", EntityKind::Function, f_start)], vec![import("./math", &[("named", "add", Some("add"))])]));
    let at = offset_of(&fixture, "add;", 0);
    assert_eq!(lookup_at(&fixture, at, "add"), Some(&Binding::Opaque));
    let outside = offset_of(&fixture, "function f", 0);
    assert!(matches!(lookup_at(&fixture, outside, "add"), Some(Binding::ImportedNamed { .. })));
}

#[test]
fn destructuring_catch_and_loop_bindings_are_opaque() {
    let s = Src::new(
        "function f() {}\n\
         function g() { const { f } = o; f(); }\n\
         function h() { try {} catch (f) { f(); } }\n\
         function i() { for (const f of xs) { f(); } }\n\
         function j() { const [f] = xs; f(); }\n",
    );
    let g_body = block(s.at("{ const { f } = o; f(); }", 0), vec![
        n("lexical_declaration", s.at("const { f } = o;", 0), vec![
            kw("const", s.at("const", 0)),
            n("variable_declarator", s.at("{ f } = o", 0), vec![
                f("name", n("object_pattern", s.at("{ f }", 0), vec![n("shorthand_property_identifier_pattern", s.within("{ f }", 0, "f"), vec![])])),
                f("value", n("identifier", s.within("{ f } = o", 0, "o"), vec![])),
            ]),
        ]),
        call_statement(&s, "f();", 0, "f"),
    ]);
    let h_body = block(s.at("{ try {} catch (f) { f(); } }", 0), vec![
        n("try_statement", s.at("try {} catch (f) { f(); }", 0), vec![
            f("body", block(s.within("try {}", 0, "{}"), vec![])),
            f("handler", n("catch_clause", s.at("catch (f) { f(); }", 0), vec![
                f("parameter", n("identifier", s.within("catch (f)", 0, "f"), vec![])),
                f("body", block(s.at("{ f(); }", 0), vec![call_statement(&s, "f();", 1, "f")])),
            ])),
        ]),
    ]);
    let i_body = block(s.at("{ for (const f of xs) { f(); } }", 0), vec![
        n("for_in_statement", s.at("for (const f of xs) { f(); }", 0), vec![
            f("left", n("identifier", s.within("const f of", 0, "f"), vec![])),
            f("right", n("identifier", s.within("of xs)", 0, "xs"), vec![])),
            f("body", block(s.at("{ f(); }", 1), vec![call_statement(&s, "f();", 2, "f")])),
        ]),
    ]);
    let j_body = block(s.at("{ const [f] = xs; f(); }", 0), vec![
        n("lexical_declaration", s.at("const [f] = xs;", 0), vec![
            n("variable_declarator", s.at("[f] = xs", 0), vec![
                f("name", n("array_pattern", s.at("[f]", 0), vec![n("identifier", s.within("[f]", 0, "f"), vec![])])),
                f("value", n("identifier", s.within("[f] = xs", 0, "xs"), vec![])),
            ]),
        ]),
        call_statement(&s, "f();", 3, "f"),
    ]);
    let tree = s.tree(vec![
        function(&s, "function_declaration", s.at("function f() {}", 0), Some(s.last_word("function f", 0)), params(s.at("()", 0), vec![]), block(s.at("{}", 0), vec![])),
        function(&s, "function_declaration", s.at("function g() { const { f } = o; f(); }", 0), Some(s.within("function g()", 0, "g")), params(s.at("()", 1), vec![]), g_body),
        function(&s, "function_declaration", s.at("function h() { try {} catch (f) { f(); } }", 0), Some(s.within("function h()", 0, "h")), params(s.within("function h()", 0, "()"), vec![]), h_body),
        function(&s, "function_declaration", s.at("function i() { for (const f of xs) { f(); } }", 0), Some(s.last_word("function i", 0)), params(s.within("function i()", 0, "()"), vec![]), i_body),
        function(&s, "function_declaration", s.at("function j() { const [f] = xs; f(); }", 0), Some(s.within("function j()", 0, "j")), params(s.within("function j()", 0, "()"), vec![]), j_body),
    ]);
    let symbols = vec![
        symbol("f", EntityKind::Function, 0),
        symbol("g", EntityKind::Function, s.at("function g", 0).0),
        symbol("h", EntityKind::Function, s.at("function h", 0).0),
        symbol("i", EntityKind::Function, s.at("function i", 0).0),
        symbol("j", EntityKind::Function, s.at("function j", 0).0),
    ];
    let fixture = build(s, tree, outline(symbols, vec![]));
    for occurrence in 0..4 {
        let at = offset_of(&fixture, "f();", occurrence);
        assert_eq!(
            lookup_at(&fixture, at, "f"),
            Some(&Binding::Opaque),
            "occurrence {occurrence} did not shadow"
        );
    }
}

#[test]
fn type_parameters_shadow_a_module_type() {
    let s = Src::new("interface T {}\nfunction f<T>(t: T): T { return t; }\n");
    let tree = s.tree(vec![
        n("interface_declaration", s.at("interface T {}", 0), vec![
            f("name", n("type_identifier", s.within("interface T", 0, "T"), vec![])),
            f("body", n("interface_body", s.at("{}", 0), vec![])),
        ]),
        n("function_declaration", s.at("function f<T>(t: T): T { return t; }", 0), vec![
            f("name", n("identifier", s.last_word("function f", 0), vec![])),
            f("type_parameters", n("type_parameters", s.at("<T>", 0), vec![n("type_parameter", s.within("<T>", 0, "T"), vec![f("name", n("type_identifier", s.within("<T>", 0, "T"), vec![]))])])),
            f("parameters", params(s.at("(t: T)", 0), vec![n("required_parameter", s.at("t: T", 0), vec![f("pattern", n("identifier", s.within("(t: T)", 0, "t"), vec![]))])])),
            f("body", block(s.at("{ return t; }", 0), vec![n("return_statement", s.at("return t;", 0), vec![n("identifier", s.within("return t;", 0, "t"), vec![])])])),
        ]),
    ]);
    let f_start = s.at("function f", 0).0;
    let fixture = build(s, tree, outline(vec![symbol("T", EntityKind::Interface, 0), symbol("f", EntityKind::Function, f_start)], vec![]));
    let at = offset_of(&fixture, "return t", 0);
    assert_eq!(lookup_at(&fixture, at, "T"), Some(&Binding::Opaque));
}

/// `class <name> { ... }` with the given body members.
fn class(s: &Src, whole: (usize, usize), name: (usize, usize), extra: Vec<Node>, body: (usize, usize), members: Vec<Node>) -> Node {
    let mut children = vec![f("name", n("type_identifier", name, vec![]))];
    children.extend(extra);
    children.push(f("body", n("class_body", body, members)));
    let _ = s;
    n("class_declaration", whole, children)
}

/// A method `name(params) { body }`.
fn method(whole: (usize, usize), modifiers: Vec<Node>, name: (usize, usize), params: Node, body: Node) -> Node {
    let mut children = modifiers;
    children.push(f("name", n("property_identifier", name, vec![])));
    children.push(f("parameters", params));
    children.push(f("body", body));
    n("method_definition", whole, children)
}

#[test]
fn class_type_parameters_shadow_a_module_type() {
    let s = Src::new("interface Shape {}\nclass Box<Shape> { m(x: Shape) { return x; } }\n");
    let tree = s.tree(vec![
        n("interface_declaration", s.at("interface Shape {}", 0), vec![
            f("name", n("type_identifier", s.at("Shape", 0), vec![])),
            f("body", n("interface_body", s.at("{}", 0), vec![])),
        ]),
        class(&s, s.at("class Box<Shape> { m(x: Shape) { return x; } }", 0), s.at("Box", 0),
            vec![f("type_parameters", n("type_parameters", s.at("<Shape>", 0), vec![n("type_parameter", s.at("Shape", 1), vec![f("name", n("type_identifier", s.at("Shape", 1), vec![]))])]))],
            s.at("{ m(x: Shape) { return x; } }", 0),
            vec![method(s.at("m(x: Shape) { return x; }", 0), vec![], s.at("m(", 0).0.pipe(|x| (x, x + 1)), params(s.at("(x: Shape)", 0), vec![n("required_parameter", s.at("x: Shape", 0), vec![f("pattern", n("identifier", s.within("x: Shape", 0, "x"), vec![]))])]), block(s.at("{ return x; }", 0), vec![n("return_statement", s.at("return x;", 0), vec![])]))]),
    ]);
    let class_start = s.at("class Box", 0).0;
    let fixture = build(s, tree, outline(vec![symbol("Shape", EntityKind::Interface, 0), symbol("Box", EntityKind::Class, class_start)], vec![]));
    let at = offset_of(&fixture, "return x", 0);
    assert_eq!(lookup_at(&fixture, at, "Shape"), Some(&Binding::Opaque));
}

trait Pipe: Sized {
    fn pipe<T>(self, f: impl FnOnce(Self) -> T) -> T {
        f(self)
    }
}

impl Pipe for usize {}
impl Pipe for (usize, usize) {}

/// `const <name> = <value>;` with one declarator.
fn const_declaration(s: &Src, whole: &str, occurrence: usize, name: &str, value: Node) -> Node {
    let range = s.at(whole, occurrence);
    let decl_start = range.0 + "const ".len();
    let name_range = (decl_start, decl_start + name.len());
    n("lexical_declaration", range, vec![
        kw("const", (range.0, range.0 + 5)),
        n("variable_declarator", (decl_start, range.1 - 1), vec![
            f("name", n("identifier", name_range, vec![])),
            f("value", value),
        ]),
    ])
}

#[test]
fn import_forms_bind_distinctly() {
    let s = Src::new(
        "import def, { a as b } from './math';\nimport * as ns from './shapes';\nconst m = require('./legacy');\n",
    );
    let call = s.at("require('./legacy')", 0);
    let tree = s.tree(vec![
        n("import_statement", s.at("import def, { a as b } from './math';", 0), vec![]),
        n("import_statement", s.at("import * as ns from './shapes';", 0), vec![]),
        const_declaration(&s, "const m = require('./legacy');", 0, "m", n("call_expression", call, vec![
            f("function", n("identifier", s.at("require", 0), vec![])),
            f("arguments", n("arguments", s.at("('./legacy')", 0), vec![
                n("string", s.at("'./legacy'", 0), vec![
                    kw("'", s.within("'./legacy'", 0, "'")),
                    n("string_fragment", s.at("./legacy", 0), vec![]),
                ]),
            ])),
        ])),
    ]);
    let imports = vec![
        import("./math", &[("default", "def", None), ("named", "b", Some("a"))]),
        import("./shapes", &[("namespace", "ns", None)]),
        ModuleImport { is_static: false, raw_specifier: "./legacy".to_string(), specifiers: vec![] },
    ];
    let fixture = build(s, tree, outline(vec![], imports));
    let at = fixture.src.text.len() - 1;
    assert_eq!(lookup_at(&fixture, at, "def"), Some(&Binding::ImportedDefault { specifier: "./math".into() }));
    assert_eq!(
        lookup_at(&fixture, at, "b"),
        Some(&Binding::ImportedNamed { specifier: "./math".into(), imported: "a".into() })
    );
    assert_eq!(lookup_at(&fixture, at, "ns"), Some(&Binding::ImportedNamespace { specifier: "./shapes".into() }));
    assert_eq!(lookup_at(&fixture, at, "m"), Some(&Binding::ImportedNamespace { specifier: "./legacy".into() }));
}

#[test]
fn a_plain_const_is_opaque_even_when_it_is_a_call_result() {
    let s = Src::new("const m = makeThing('./x');\nm.go();\n");
    let tree = s.tree(vec![
        const_declaration(&s, "const m = makeThing('./x');", 0, "m", n("call_expression", s.at("makeThing('./x')", 0), vec![
            f("function", n("identifier", s.at("makeThing", 0), vec![])),
            f("arguments", n("arguments", s.at("('./x')", 0), vec![n("string", s.at("'./x'", 0), vec![n("string_fragment", s.at("./x", 0), vec![])])])),
        ])),
        n("expression_statement", s.at("m.go();", 0), vec![]),
    ]);
    let fixture = build(s, tree, outline(vec![], vec![]));
    let at = offset_of(&fixture, "m.go", 0);
    assert_eq!(lookup_at(&fixture, at, "m"), Some(&Binding::Opaque));
}

/// `class C { <members> }` where every method body holds `this.n();` or nothing.
fn class_c(s: &Src, members: Vec<Node>) -> Node {
    let whole = (0, s.text.len() - 1);
    class(s, whole, s.at("C", 0), vec![], s.within(&s.text, 0, "{").pipe(|r| (r.0, whole.1)), members)
}

fn this_call(s: &Src) -> Node {
    let range = s.at("this.n();", 0);
    n("expression_statement", range, vec![n("call_expression", (range.0, range.1 - 1), vec![])])
}

#[test]
fn this_inside_a_method_binds_to_its_class() {
    let s = Src::new("class C { m() { this.n(); } n() {} }\n");
    let members = vec![
        method(s.at("m() { this.n(); }", 0), vec![], s.at("m()", 0).0.pipe(|x| (x, x + 1)), params(s.at("()", 0), vec![]), block(s.at("{ this.n(); }", 0), vec![this_call(&s)])),
        method(s.at("n() {}", 0), vec![], s.at("n() {}", 0).0.pipe(|x| (x, x + 1)), params(s.within("n() {}", 0, "()"), vec![]), block(s.within("n() {}", 0, "{}"), vec![])),
    ];
    let tree = s.tree(vec![class_c(&s, members)]);
    let symbols = vec![symbol("C", EntityKind::Class, 0), symbol("C.m", EntityKind::Method, s.at("m()", 0).0), symbol("C.n", EntityKind::Method, s.at("n() {}", 0).0)];
    let fixture = build(s, tree, outline(symbols, vec![]));
    let at = offset_of(&fixture, "this.n", 0);
    let scope = fixture.table.scope_at(at);
    assert_eq!(
        fixture.table.this_at(scope),
        ThisResolution::Class { entity_id: "C".to_string(), is_static: false }
    );
}

#[test]
fn this_inside_a_nested_function_in_a_method_is_rebound() {
    let s = Src::new("class C { m() { function inner() { this.n(); } } n() {} }\n");
    let inner = function(&s, "function_declaration", s.at("function inner() { this.n(); }", 0), Some(s.at("inner", 0)), params(s.within("inner()", 0, "()"), vec![]), block(s.at("{ this.n(); }", 0), vec![this_call(&s)]));
    let members = vec![
        method(s.at("m() { function inner() { this.n(); } }", 0), vec![], s.at("m()", 0).0.pipe(|x| (x, x + 1)), params(s.at("()", 0), vec![]), block(s.at("{ function inner() { this.n(); } }", 0), vec![inner])),
        method(s.at("n() {}", 0), vec![], s.at("n() {}", 0).0.pipe(|x| (x, x + 1)), params(s.within("n() {}", 0, "()"), vec![]), block(s.within("n() {}", 0, "{}"), vec![])),
    ];
    let tree = s.tree(vec![class_c(&s, members)]);
    let fixture = build(s, tree, outline(vec![symbol("C", EntityKind::Class, 0)], vec![]));
    let at = offset_of(&fixture, "this.n", 0);
    let scope = fixture.table.scope_at(at);
    assert_eq!(fixture.table.this_at(scope), ThisResolution::ReboundByNestedFunction);
}

#[test]
fn this_inside_an_arrow_in_a_method_still_binds_to_the_class() {
    let s = Src::new("class C { m() { const f = () => this.n(); } n() {} }\n");
    let arrow = n("arrow_function", s.at("() => this.n()", 0), vec![
        f("parameters", params(s.within("() => this", 0, "()"), vec![])),
        f("body", n("call_expression", s.at("this.n()", 0), vec![])),
    ]);
    let members = vec![
        method(s.at("m() { const f = () => this.n(); }", 0), vec![], s.at("m()", 0).0.pipe(|x| (x, x + 1)), params(s.at("()", 0), vec![]), block(s.at("{ const f = () => this.n(); }", 0), vec![const_declaration(&s, "const f = () => this.n();", 0, "f", arrow)])),
        method(s.at("n() {}", 0), vec![], s.at("n() {}", 0).0.pipe(|x| (x, x + 1)), params(s.within("n() {}", 0, "()"), vec![]), block(s.within("n() {}", 0, "{}"), vec![])),
    ];
    let tree = s.tree(vec![class_c(&s, members)]);
    let fixture = build(s, tree, outline(vec![symbol("C", EntityKind::Class, 0)], vec![]));
    let at = offset_of(&fixture, "this.n", 0);
    let scope = fixture.table.scope_at(at);
    assert!(matches!(fixture.table.this_at(scope), ThisResolution::Class { is_static: false, .. }));
}

#[test]
fn this_at_module_level_is_not_a_class() {
    let s = Src::new("this.go();\n");
    let tree = s.tree(vec![n("expression_statement", s.at("this.go();", 0), vec![])]);
    let fixture = build(s, tree, outline(vec![], vec![]));
    let scope = fixture.table.scope_at(0);
    assert_eq!(fixture.table.this_at(scope), ThisResolution::NotInClassMethod);
}

#[test]
fn this_inside_a_static_method_records_staticness() {
    let s = Src::new("class C { static m() { this.n(); } static n() {} }\n");
    let members = vec![
        method(s.at("static m() { this.n(); }", 0), vec![kw("static", s.at("static", 0))], s.at("m()", 0).0.pipe(|x| (x, x + 1)), params(s.at("()", 0), vec![]), block(s.at("{ this.n(); }", 0), vec![this_call(&s)])),
        method(s.at("static n() {}", 0), vec![kw("static", s.at("static", 1))], s.at("n() {}", 0).0.pipe(|x| (x, x + 1)), params(s.within("n() {}", 0, "()"), vec![]), block(s.within("n() {}", 0, "{}"), vec![])),
    ];
    let tree = s.tree(vec![class_c(&s, members)]);
    let fixture = build(s, tree, outline(vec![symbol("C", EntityKind::Class, 0)], vec![]));
    let at = offset_of(&fixture, "this.n", 0);
    let scope = fixture.table.scope_at(at);
    assert!(matches!(fixture.table.this_at(scope), ThisResolution::Class { is_static: true, .. }));
}

#[test]
fn javascript_classes_and_parameters_bind_the_same_way() {
    // The JavaScript grammar: parameters are bare identifiers and class names identifiers.
    let s = Src::new("function foo() {}\nclass A extends B { m(foo) { foo(); } }\n");
    let class_range = s.at("class A extends B { m(foo) { foo(); } }", 0);
    let tree = s.tree(vec![
        function(&s, "function_declaration", s.at("function foo() {}", 0), Some(s.at("foo", 0)), params(s.at("()", 0), vec![]), block(s.at("{}", 0), vec![])),
        n("class_declaration", class_range, vec![
            f("name", n("identifier", s.at("A", 0), vec![])),
            n("class_heritage", s.at("extends B", 0), vec![n("identifier", s.within("extends B", 0, "B"), vec![])]),
            f("body", n("class_body", s.at("{ m(foo) { foo(); } }", 0), vec![
                method(s.at("m(foo) { foo(); }", 0), vec![], s.at("m(foo)", 0).0.pipe(|x| (x, x + 1)), params(s.at("(foo)", 0), vec![n("identifier", s.within("(foo)", 0, "foo"), vec![])]), block(s.at("{ foo(); }", 0), vec![call_statement(&s, "foo();", 0, "foo")])),
            ])),
        ]),
    ]);
    let symbols = vec![symbol("foo", EntityKind::Function, 0), symbol("A", EntityKind::Class, class_range.0)];
    let fixture = build(s, tree, outline(symbols, vec![]));
    let at = offset_of(&fixture, "foo();", 0);
    assert_eq!(lookup_at(&fixture, at, "foo"), Some(&Binding::Opaque));
}

#[test]
fn scope_lookup_is_position_sensitive_across_siblings() {
    let s = Src::new(
        "function shared() {}\n\
         function a() { function shared() {} shared(); }\n\
         function b() { shared(); }\n",
    );
    let inner = s.at("function shared() {}", 1);
    let tree = s.tree(vec![
        function(&s, "function_declaration", s.at("function shared() {}", 0), Some(s.at("shared", 0)), params(s.at("()", 0), vec![]), block(s.at("{}", 0), vec![])),
        function(&s, "function_declaration", s.at("function a() { function shared() {} shared(); }", 0), Some(s.within("function a()", 0, "a")), params(s.within("function a()", 0, "()"), vec![]), block(s.at("{ function shared() {} shared(); }", 0), vec![
            function(&s, "function_declaration", inner, Some(s.at("shared", 1)), params(s.within("function shared() {}", 1, "()"), vec![]), block(s.within("function shared() {}", 1, "{}"), vec![])),
            call_statement(&s, "shared();", 0, "shared"),
        ])),
        function(&s, "function_declaration", s.at("function b() { shared(); }", 0), Some(s.within("function b()", 0, "b")), params(s.within("function b()", 0, "()"), vec![]), block(s.at("{ shared(); }", 0), vec![call_statement(&s, "shared();", 1, "shared")])),
    ]);
    let symbols = vec![
        symbol("shared", EntityKind::Function, 0),
        symbol("a", EntityKind::Function, s.at("function a", 0).0),
        symbol("a.shared", EntityKind::Function, inner.0),
        symbol("b", EntityKind::Function, s.at("function b", 0).0),
    ];
    let fixture = build(s, tree, outline(symbols, vec![]));
    let inside_a = offset_of(&fixture, "shared();", 0);
    let inside_b = offset_of(&fixture, "shared();", 1);
    let a_binding = lookup_at(&fixture, inside_a, "shared").cloned();
    let b_binding = lookup_at(&fixture, inside_b, "shared").cloned();
    assert_ne!(a_binding, b_binding, "sibling scopes must not share");
}

#[test]
fn a_class_name_is_visible_inside_its_own_body() {
    let s = Src::new("class C { m() { return new C(); } }\n");
    let members = vec![method(s.at("m() { return new C(); }", 0), vec![], s.at("m()", 0).0.pipe(|x| (x, x + 1)), params(s.at("()", 0), vec![]), block(s.at("{ return new C(); }", 0), vec![n("return_statement", s.at("return new C();", 0), vec![n("new_expression", s.at("new C()", 0), vec![f("constructor", n("identifier", s.within("new C()", 0, "C"), vec![]))])])]))];
    let tree = s.tree(vec![class_c(&s, members)]);
    let fixture = build(s, tree, outline(vec![symbol("C", EntityKind::Class, 0)], vec![]));
    let at = offset_of(&fixture, "new C", 0);
    assert!(matches!(lookup_at(&fixture, at, "C"), Some(Binding::LocalSymbol { kind: EntityKind::Class, .. })));
}

#[test]
fn enums_and_namespaces_shadow_without_becoming_entities() {
    let s = Src::new("function E() {}\nenum E { A }\nE;\n");
    let tree = s.tree(vec![
        function(&s, "function_declaration", s.at("function E() {}", 0), Some(s.at("E", 0)), params(s.at("()", 0), vec![]), block(s.at("{}", 0), vec![])),
        n("enum_declaration", s.at("enum E { A }", 0), vec![
            f("name", n("identifier", s.at("E", 1), vec![])),
            f("body", n("enum_body", s.at("{ A }", 0), vec![n("property_identifier", s.at("A", 0), vec![])])),
        ]),
        n("expression_statement", s.at("E;", 0), vec![n("identifier", s.within("E;", 0, "E"), vec![])]),
    ]);
    let fixture = build(s, tree, outline(vec![symbol("E", EntityKind::Function, 0)], vec![]));
    let at = fixture.src.text.len() - 2;
    assert_eq!(lookup_at(&fixture, at, "E"), Some(&Binding::Opaque));
}

#[test]
fn scopes_are_recorded_in_non_decreasing_start_order() {
    let s = Src::new(
        "import { a } from './m';\n\
         enum E { X }\n\
         type Alias<T> = T;\n\
         interface I<T> { m(): T }\n\
         class C<T> extends B implements I<T> {\n\
           static s() { return 1; }\n\
           m(p = 1) { const q = () => { for (const r of []) { try { r(); } catch (e) { e; } } }; return q; }\n\
         }\n\
         namespace N { export const y = 1; }\n\
         function f(g = function inner() { return 1; }) { { let h = 2; } return g; }\n\
         const k = function* () { yield 1; };\n",
    );
    let type_params = |whole: (usize, usize)| n("type_parameters", whole, vec![n("type_parameter", (whole.0 + 1, whole.0 + 2), vec![f("name", n("type_identifier", (whole.0 + 1, whole.0 + 2), vec![]))])]);
    let arrow_body = block(s.at("{ for (const r of []) { try { r(); } catch (e) { e; } } }", 0), vec![
        n("for_in_statement", s.at("for (const r of []) { try { r(); } catch (e) { e; } }", 0), vec![
            f("left", n("identifier", s.within("const r of", 0, "r"), vec![])),
            f("right", n("array", s.at("[]", 0), vec![])),
            f("body", block(s.at("{ try { r(); } catch (e) { e; } }", 0), vec![
                n("try_statement", s.at("try { r(); } catch (e) { e; }", 0), vec![
                    f("body", block(s.at("{ r(); }", 0), vec![call_statement(&s, "r();", 0, "r")])),
                    f("handler", n("catch_clause", s.at("catch (e) { e; }", 0), vec![
                        f("parameter", n("identifier", s.within("catch (e)", 0, "e"), vec![])),
                        f("body", block(s.at("{ e; }", 0), vec![])),
                    ])),
                ]),
            ])),
        ]),
    ]);
    let arrow = n("arrow_function", s.at("() => { for (const r of []) { try { r(); } catch (e) { e; } } }", 0), vec![
        f("parameters", params(s.within("const q = () =>", 0, "()"), vec![])),
        f("body", arrow_body),
    ]);
    let m_range = s.at("m(p = 1) { const q = () => { for (const r of []) { try { r(); } catch (e) { e; } } }; return q; }", 0);
    let m_body = block(s.within("m(p = 1) {", 0, "{").pipe(|r| (r.0, m_range.1)), vec![
        const_declaration(&s, "const q = () => { for (const r of []) { try { r(); } catch (e) { e; } } };", 0, "q", arrow),
        n("return_statement", s.at("return q;", 0), vec![]),
    ]);
    let class_range = s.at("class C<T>", 0).pipe(|r| (r.0, s.at("}\nnamespace", 0).0 + 1));
    let class_node = n("class_declaration", class_range, vec![
        f("name", n("type_identifier", s.within("class C<T>", 0, "C"), vec![])),
        f("type_parameters", type_params(s.within("class C<T>", 0, "<T>"))),
        n("class_heritage", s.at("extends B implements I<T>", 0), vec![]),
        f("body", n("class_body", s.within("implements I<T> {", 0, "{").pipe(|r| (r.0, class_range.1)), vec![
            method(s.at("static s() { return 1; }", 0), vec![kw("static", s.at("static", 0))], s.within("static s()", 0, "s").pipe(|r| (r.0 + 7, r.0 + 8)), params(s.within("static s()", 0, "()"), vec![]), block(s.within("static s() { return 1; }", 0, "{ return 1; }"), vec![])),
            method(m_range, vec![], (m_range.0, m_range.0 + 1), params(s.at("(p = 1)", 0), vec![n("required_parameter", s.at("p = 1", 0), vec![f("pattern", n("identifier", s.within("(p = 1)", 0, "p"), vec![])), f("value", n("number", s.within("(p = 1)", 0, "1"), vec![]))])]), m_body),
        ])),
    ]);
    let inner_fn = function(&s, "function_expression", s.at("function inner() { return 1; }", 0), Some(s.at("inner", 0)), params(s.within("inner()", 0, "()"), vec![]), block(s.within("function inner() { return 1; }", 0, "{ return 1; }"), vec![]));
    let f_node = function(&s, "function_declaration", s.at("function f(g = function inner() { return 1; }) { { let h = 2; } return g; }", 0), Some(s.last_word("function f", 0)),
        params(s.at("(g = function inner() { return 1; })", 0), vec![n("required_parameter", s.at("g = function inner() { return 1; }", 0), vec![f("pattern", n("identifier", s.within("(g =", 0, "g"), vec![])), f("value", inner_fn)])]),
        block(s.at("{ { let h = 2; } return g; }", 0), vec![
            block(s.at("{ let h = 2; }", 0), vec![n("lexical_declaration", s.at("let h = 2;", 0), vec![n("variable_declarator", s.at("h = 2", 0), vec![f("name", n("identifier", s.within("h = 2", 0, "h"), vec![]))])])]),
            n("return_statement", s.at("return g;", 0), vec![]),
        ]));
    let generator = n("generator_function", s.at("function* () { yield 1; }", 0), vec![
        f("parameters", params(s.within("function* ()", 0, "()"), vec![])),
        f("body", block(s.at("{ yield 1; }", 0), vec![])),
    ]);
    let tree = s.tree(vec![
        n("import_statement", s.at("import { a } from './m';", 0), vec![]),
        n("enum_declaration", s.at("enum E { X }", 0), vec![f("name", n("identifier", s.within("enum E", 0, "E"), vec![])), f("body", n("enum_body", s.at("{ X }", 0), vec![]))]),
        n("type_alias_declaration", s.at("type Alias<T> = T;", 0), vec![f("name", n("type_identifier", s.at("Alias", 0), vec![])), f("type_parameters", type_params(s.within("Alias<T>", 0, "<T>"))), f("value", n("type_identifier", s.within("= T;", 0, "T"), vec![]))]),
        n("interface_declaration", s.at("interface I<T> { m(): T }", 0), vec![f("name", n("type_identifier", s.within("interface I", 0, "I"), vec![])), f("type_parameters", type_params(s.within("interface I<T>", 0, "<T>"))), f("body", n("interface_body", s.at("{ m(): T }", 0), vec![n("method_signature", s.at("m(): T", 0), vec![])]))]),
        class_node,
        n("expression_statement", s.at("namespace N { export const y = 1; }", 0), vec![n("internal_module", s.at("namespace N { export const y = 1; }", 0), vec![f("name", n("identifier", s.within("namespace N", 0, "N"), vec![])), f("body", block(s.at("{ export const y = 1; }", 0), vec![]))])]),
        f_node,
        const_declaration(&s, "const k = function* () { yield 1; };", 0, "k", generator),
    ]);
    let fixture = build(s, tree, outline(vec![], vec![import("./m", &[("named", "a", Some("a"))])]));
    let table = &fixture.table;
    assert!(table.len() > 10, "not enough scopes to be a test");
    for index in 1..table.len() {
        assert!(
            table.start_of(index - 1) <= table.start_of(index),
            "scopes are out of order: {:?} then {:?}",
            table.start_of(index - 1),
            table.start_of(index)
        );
    }
    // Every scope except the module scope is strictly inside its parent.
    for index in 1..table.len() {
        let parent = table.parent_of(index).unwrap();
        assert!(
            table.start_of(parent) <= table.start_of(index) && table.end_of(index) <= table.end_of(parent),
            "scope {index} is not nested inside its parent"
        );
    }
}

#[test]
fn building_the_table_twice_gives_the_same_answers() {
    let source = "import { a } from './m';\nfunction f(b) { return a(b); }\n";
    let make = || {
        let s = Src::new(source);
        let tree = s.tree(vec![
            n("import_statement", s.at("import { a } from './m';", 0), vec![]),
            function(&s, "function_declaration", s.at("function f(b) { return a(b); }", 0), Some(s.last_word("function f", 0)), params(s.at("(b)", 0), vec![required(s.within("(b)", 0, "b"))]), block(s.at("{ return a(b); }", 0), vec![n("return_statement", s.at("return a(b);", 0), vec![])])),
        ]);
        let f_start = s.at("function f", 0).0;
        build(s, tree, outline(vec![symbol("f", EntityKind::Function, f_start)], vec![import("./m", &[("named", "a", Some("a"))])]))
    };
    let first = make();
    let second = make();
    assert_eq!(first.table.len(), second.table.len());
    let at = offset_of(&first, "a(b)", 0);
    assert_eq!(lookup_at(&first, at, "a").cloned(), lookup_at(&second, at, "a").cloned());
}

#[test]
fn function_node_kinds_are_exactly_the_function_scopes() {
    for kind in [
        "function_declaration",
        "generator_function_declaration",
        "function_signature",
        "function_expression",
        "generator_function",
        "arrow_function",
        "method_definition",
    ] {
        assert!(is_function_node(kind), "{kind}");
    }
    for kind in ["class_declaration", "statement_block", "method_signature", ""] {
        assert!(!is_function_node(kind), "{kind}");
    }
}

#[test]
fn scope_kinds_follow_the_constructs() {
    let s = Src::new("function f() { try {} catch (e) {} }\n");
    let tree = s.tree(vec![function(&s, "function_declaration", s.at("function f() { try {} catch (e) {} }", 0), Some(s.last_word("function f", 0)), params(s.at("()", 0), vec![]), block(s.at("{ try {} catch (e) {} }", 0), vec![
        n("try_statement", s.at("try {} catch (e) {}", 0), vec![
            f("body", block(s.within("try {}", 0, "{}"), vec![])),
            f("handler", n("catch_clause", s.at("catch (e) {}", 0), vec![f("parameter", n("identifier", s.within("(e)", 0, "e"), vec![])), f("body", block(s.within("catch (e) {}", 0, "{}"), vec![]))])),
        ]),
    ]))]);
    let fixture = build(s, tree, outline(vec![], vec![]));
    let table = &fixture.table;
    assert!(!table.is_empty());
    let kinds: Vec<ScopeKind> = (0..table.len()).map(|scope| table.kind_of(scope)).collect();
    assert_eq!(
        kinds,
        vec![ScopeKind::Module, ScopeKind::Function, ScopeKind::Block, ScopeKind::Block, ScopeKind::Catch, ScopeKind::Block]
    );
    // A byte past every scope but the module falls back to the module scope.
    assert_eq!(table.scope_at(fixture.src.text.len()), 0);
    assert_eq!(table.lookup(0, "e"), None);
    let catch_scope = table.scope_at(offset_of(&fixture, "catch (e) {}", 0) + 10);
    assert_eq!(table.kind_of(catch_scope), ScopeKind::Block);
    assert_eq!(table.lookup(catch_scope, "e"), Some(&Binding::Opaque));
}

#[test]
fn a_parse_out_of_order_or_outside_its_source_is_not_well_formed() {
    let s = Src::new("a; b;\n");
    let good = s.tree(vec![n("expression_statement", s.at("a;", 0), vec![]), n("expression_statement", s.at("b;", 0), vec![])]);
    assert!(good.is_well_formed(s.text.len()));
    assert!(!good.is_well_formed(2));
    let mut swapped = s.tree(vec![n("expression_statement", s.at("a;", 0), vec![]), n("expression_statement", s.at("b;", 0), vec![])]);
    swapped.nodes[0].children.reverse();
    assert!(!swapped.is_well_formed(s.text.len()));
    assert!(!SyntaxTree { nodes: vec![] }.is_well_formed(0));
}
