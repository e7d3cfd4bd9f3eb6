use nerve::exports::{ExportIndex, ModuleExports, ReExport};

/// The entity id the structural extractor gives `name` declared in `path`.
fn entity(path: &str, name: &str) -> String {
    format!("{path}#{name}")
}

/// A module whose extraction found these local exports, each (exported name, declaring name).
fn module(path: &str, local: &[(&str, &str)], re_exports: Vec<ReExport>) -> ModuleExports {
    ModuleExports {
        rel_path: path.to_string(),
        local_exports: local
            .iter()
            .map(|(exported, declared)| (exported.to_string(), entity(path, declared)))
            .collect(),
        re_exports,
    }
}

/// `export * from '<target>'`, with the specifier already resolved.
fn star(target: Option<&str>) -> ReExport {
    ReExport { target: target.map(|t| t.to_string()), names: None }
}

/// `export { name as alias, ... } from '<target>'`.
fn named(target: Option<&str>, names: &[(&str, Option<&str>)]) -> ReExport {
    ReExport {
        target: target.map(|t| t.to_string()),
        names: Some(
            names
                .iter()
                .map(|(name, alias)| (name.to_string(), alias.map(|a| a.to_string())))
                .collect(),
        ),
    }
}

#[test]
fn a_local_export_resolves_to_its_own_entity() {
    // src/math.ts: "export function add() {}\n"
    let index = ExportIndex::build(&[module("src/math.ts", &[("add", "add")], vec![])]);
    assert_eq!(index.resolve("src/math.ts", "add"), Some(entity("src/math.ts", "add")));
}

#[test]
fn an_aliased_named_re_export_keeps_the_defining_entity() {
    // src/index.ts: "export { add as plus } from './math';\n"
    let index = ExportIndex::build(&[
        module("src/math.ts", &[("add", "add")], vec![]),
        module("src/index.ts", &[], vec![named(Some("src/math.ts"), &[("add", Some("plus"))])]),
    ]);
    assert_eq!(index.resolve("src/index.ts", "plus"), Some(entity("src/math.ts", "add")));
    assert_eq!(index.resolve("src/index.ts", "add"), None);
}

#[test]
fn a_star_re_export_forwards_named_exports() {
    let index = ExportIndex::build(&[
        module("src/shapes.ts", &[("Circle", "Circle")], vec![]),
        module("src/index.ts", &[], vec![star(Some("src/shapes.ts"))]),
    ]);
    assert_eq!(index.resolve("src/index.ts", "Circle"), Some(entity("src/shapes.ts", "Circle")));
}

#[test]
fn a_star_re_export_does_not_forward_default() {
    // src/math.ts: "export function add() {}\nexport default add;\n"
    let index = ExportIndex::build(&[
        module("src/math.ts", &[("add", "add"), ("default", "add")], vec![]),
        module("src/index.ts", &[], vec![star(Some("src/math.ts"))]),
    ]);
    assert!(index.resolve("src/math.ts", "default").is_some());
    assert_eq!(
        index.resolve("src/index.ts", "default"),
        None,
        "`export *` must not re-export default"
    );
    assert!(index.resolve("src/index.ts", "add").is_some());
}

#[test]
fn re_export_chains_are_transitive() {
    let index = ExportIndex::build(&[
        module("src/math.ts", &[("add", "add")], vec![]),
        module("src/mid.ts", &[], vec![star(Some("src/math.ts"))]),
        module("src/index.ts", &[], vec![named(Some("src/mid.ts"), &[("add", Some("plus"))])]),
    ]);
    assert_eq!(index.resolve("src/index.ts", "plus"), Some(entity("src/math.ts", "add")));
}

#[test]
fn a_re_export_cycle_terminates() {
    let index = ExportIndex::build(&[
        module("src/a.ts", &[("fromA", "fromA")], vec![star(Some("src/b.ts"))]),
        module("src/b.ts", &[("fromB", "fromB")], vec![star(Some("src/a.ts"))]),
    ]);
    assert_eq!(index.resolve("src/a.ts", "fromB"), Some(entity("src/b.ts", "fromB")));
    assert_eq!(index.resolve("src/b.ts", "fromA"), Some(entity("src/a.ts", "fromA")));
    assert_eq!(index.resolve("src/a.ts", "nobody"), None);
}

#[test]
fn a_self_referential_barrel_terminates() {
    let index = ExportIndex::build(&[module("src/a.ts", &[], vec![star(Some("src/a.ts"))])]);
    assert_eq!(index.resolve("src/a.ts", "anything"), None);
}

#[test]
fn a_re_export_of_an_unindexed_module_contributes_nothing() {
    // "export * from './missing';": the specifier names no indexed module.
    let index = ExportIndex::build(&[module("src/index.ts", &[], vec![star(None)])]);
    assert_eq!(index.resolve("src/index.ts", "anything"), None);
}

#[test]
fn names_are_transitive_and_exclude_forwarded_defaults() {
    let index = ExportIndex::build(&[
        module("src/math.ts", &[("add", "add"), ("default", "add")], vec![]),
        module("src/index.ts", &[], vec![star(Some("src/math.ts"))]),
    ]);
    assert_eq!(index.names("src/index.ts"), vec!["add".to_string()]);
    let math: Vec<String> = index.names("src/math.ts");
    assert_eq!(math, vec!["add".to_string(), "default".to_string()]);
}

#[test]
fn a_named_re_export_is_preferred_to_a_star_target() {
    let index = ExportIndex::build(&[
        module("src/one.ts", &[("x", "x")], vec![]),
        module("src/two.ts", &[("x", "x")], vec![]),
        module(
            "src/index.ts",
            &[],
            vec![star(Some("src/one.ts")), named(Some("src/two.ts"), &[("x", None)])],
        ),
    ]);
    assert_eq!(index.resolve("src/index.ts", "x"), Some(entity("src/two.ts", "x")));
}

#[test]
fn star_targets_are_searched_in_source_order() {
    let index = ExportIndex::build(&[
        module("src/one.ts", &[("x", "x")], vec![]),
        module("src/two.ts", &[("x", "x")], vec![]),
        module("src/index.ts", &[], vec![star(Some("src/two.ts")), star(Some("src/one.ts"))]),
    ]);
    assert_eq!(index.resolve("src/index.ts", "x"), Some(entity("src/two.ts", "x")));
}

#[test]
fn a_module_built_twice_takes_its_last_exports() {
    let index = ExportIndex::build(&[
        module("src/a.ts", &[("x", "old")], vec![]),
        module("src/a.ts", &[("x", "new")], vec![]),
    ]);
    assert_eq!(index.resolve("src/a.ts", "x"), Some(entity("src/a.ts", "new")));
}

#[test]
fn a_named_default_re_export_is_not_forwarded_by_star() {
    let index = ExportIndex::build(&[
        module("src/math.ts", &[("default", "add")], vec![]),
        module("src/mid.ts", &[], vec![named(Some("src/math.ts"), &[("default", None)])]),
        module("src/index.ts", &[], vec![star(Some("src/mid.ts"))]),
    ]);
    assert_eq!(index.resolve("src/mid.ts", "default"), Some(entity("src/math.ts", "add")));
    assert_eq!(index.resolve("src/index.ts", "default"), None);
    assert_eq!(index.names("src/mid.ts"), vec!["default".to_string()]);
    assert_eq!(index.names("src/index.ts"), Vec::<String>::new());
}

#[test]
fn names_follow_cycles_once_and_come_out_sorted() {
    let index = ExportIndex::build(&[
        module("src/a.ts", &[("zeta", "zeta")], vec![star(Some("src/b.ts"))]),
        module("src/b.ts", &[("alpha", "alpha")], vec![star(Some("src/a.ts"))]),
    ]);
    assert_eq!(index.names("src/a.ts"), vec!["alpha".to_string(), "zeta".to_string()]);
    assert_eq!(index.names("src/missing.ts"), Vec::<String>::new());
}

#[test]
fn every_resolvable_name_is_listed() {
    let index = ExportIndex::build(&[
        module("src/math.ts", &[("add", "add"), ("default", "add")], vec![]),
        module("src/mid.ts", &[], vec![star(Some("src/math.ts"))]),
        module("src/index.ts", &[("own", "own")], vec![named(Some("src/mid.ts"), &[("add", Some("plus"))]), star(Some("src/mid.ts"))]),
    ]);
    let names = index.names("src/index.ts");
    for name in ["add", "default", "own", "plus", "missing"] {
        if index.resolve("src/index.ts", name).is_some() {
            assert!(names.contains(&name.to_string()), "{name} resolves but is not listed");
        }
    }
    assert_eq!(names, vec!["add".to_string(), "own".to_string(), "plus".to_string()]);
}
