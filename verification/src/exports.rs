//! Per-module export map, plus the transitive re-export closure.
//!
//! Barrel files are the normal shape of a TypeScript repository:
//! `export { add as plus } from './math'` and `export * from './shapes'`. Without a closure,
//! `import { plus } from './index'` followed by `plus()` cannot resolve.
//!
//! Two rules are load-bearing:
//!
//! - `export *` does **not** re-export `default`. That is the language rule, and getting it
//!   wrong invents an edge the code does not have.
//! - Barrel cycles are common (`a` re-exports `b`, `b` re-exports `a`) and must terminate. The
//!   closure carries a visited set keyed on `(module, name)`, which both breaks cycles and
//!   keeps the search linear.
use vstd::prelude::*;
use vstd::set_lib::*;
use crate::text::str_eq;
use crate::order::{key_views, sorted_unique, strictly_ascending};

verus! {

/// A re-export as a module wrote it, with its specifier already resolved against the indexed
/// modules.
pub struct ReExport {
    /// The indexed module the specifier names, or `None` when it names no indexed module.
    pub target: Option<String>,
    /// `Some` for `export { name as alias } from ...`: each name in the target and its alias;
    /// `None` for `export * from ...`.
    pub names: Option<Vec<(String, Option<String>)>>,
}

/// One module's exports as its extraction recorded them.
pub struct ModuleExports {
    /// Repository-relative path of the module.
    pub rel_path: String,
    /// Each local export whose entity is known: (exported name, entity id), in source order.
    pub local_exports: Vec<(String, String)>,
    /// Re-exports, in source order.
    pub re_exports: Vec<ReExport>,
}

/// The export maps of one module inside the index.
pub struct ModuleEntry {
    /// Repository-relative path of the module.
    pub path: String,
    /// (exported name, entity id defined in this module); a later entry for a name wins.
    pub local: Vec<(String, String)>,
    /// (exported name, target module, name in the target); a later entry for a name wins.
    pub named: Vec<(String, String, String)>,
    /// `export *` targets, in source order.
    pub stars: Vec<String>,
}

/// Export maps for every indexed module.
pub struct ExportIndex {
    /// One entry per built module; a later entry for a path wins.
    modules: Vec<ModuleEntry>,
}

/// A point of the re-export graph: a name as one module exports it.
pub type ExportPoint = (Seq<char>, Seq<char>);

/// The last module entry among the first `n` with path `m`.
pub open spec fn module_below(ms: Seq<ModuleEntry>, m: Seq<char>, n: int) -> Option<int>
    decreases n,
{
    if n <= 0 {
        None
    } else if ms[n - 1].path@ == m {
        Some(n - 1)
    } else {
        module_below(ms, m, n - 1)
    }
}

/// The entry for module `m`.
pub open spec fn module_of(ms: Seq<ModuleEntry>, m: Seq<char>) -> Option<int> {
    module_below(ms, m, ms.len() as int)
}

/// The entity of the last local entry among the first `n` that exports `x`.
pub open spec fn local_below(es: Seq<(String, String)>, x: Seq<char>, n: int) -> Option<Seq<char>>
    decreases n,
{
    if n <= 0 {
        None
    } else if es[n - 1].0@ == x {
        Some(es[n - 1].1@)
    } else {
        local_below(es, x, n - 1)
    }
}

/// The target of the last named re-export among the first `n` that exports `x`.
pub open spec fn named_below(es: Seq<(String, String, String)>, x: Seq<char>, n: int) -> Option<ExportPoint>
    decreases n,
{
    if n <= 0 {
        None
    } else if es[n - 1].0@ == x {
        Some((es[n - 1].1@, es[n - 1].2@))
    } else {
        named_below(es, x, n - 1)
    }
}

/// The entity module `m` itself defines under the exported name `x`.
pub open spec fn local_of(ms: Seq<ModuleEntry>, m: Seq<char>, x: Seq<char>) -> Option<Seq<char>> {
    match module_of(ms, m) {
        Some(i) => local_below(ms[i].local@, x, ms[i].local@.len() as int),
        None => None,
    }
}

/// Where module `m` re-exports the name `x` from, by a named re-export.
pub open spec fn named_of(ms: Seq<ModuleEntry>, m: Seq<char>, x: Seq<char>) -> Option<ExportPoint> {
    match module_of(ms, m) {
        Some(i) => named_below(ms[i].named@, x, ms[i].named@.len() as int),
        None => None,
    }
}

/// The `export *` targets of module `m`.
pub open spec fn stars_of(ms: Seq<ModuleEntry>, m: Seq<char>) -> Seq<String> {
    match module_of(ms, m) {
        Some(i) => ms[i].stars@,
        None => Seq::empty(),
    }
}

/// The point `u` is defined where it stands.
pub open spec fn defined_at(ms: Seq<ModuleEntry>, u: ExportPoint) -> bool {
    local_of(ms, u.0, u.1) is Some
}

/// One re-export step from `u` to `v`: a named re-export, or an `export *` for any name but
/// `default`. A point defined where it stands is not followed further.
pub open spec fn export_edge(ms: Seq<ModuleEntry>, u: ExportPoint, v: ExportPoint) -> bool {
    &&& !defined_at(ms, u)
    &&& (named_of(ms, u.0, u.1) == Some(v) || (u.1 != "default"@ && v.1 == u.1 && exists|k: int|
        0 <= k < stars_of(ms, u.0).len() && (#[trigger] stars_of(ms, u.0)[k])@ == v.0))
}

/// `v` is reached from `u` in at most `f` re-export steps.
pub open spec fn reaches(ms: Seq<ModuleEntry>, u: ExportPoint, v: ExportPoint, f: nat) -> bool
    decreases f,
{
    u == v || (f > 0 && exists|w: ExportPoint| #[trigger] export_edge(ms, u, w) && reaches(ms, w, v, (f - 1) as nat))
}

/// `v` is reached from `u` through re-exports.
pub open spec fn reachable(ms: Seq<ModuleEntry>, u: ExportPoint, v: ExportPoint) -> bool {
    exists|f: nat| reaches(ms, u, v, f)
}

/// Some point reached from `u` is defined where it stands.
pub open spec fn resolvable(ms: Seq<ModuleEntry>, u: ExportPoint) -> bool {
    exists|w: ExportPoint| reachable(ms, u, w) && #[trigger] defined_at(ms, w)
}

/// The name a named re-export is exported under: its alias, or the name itself.
pub open spec fn exported_as(p: (String, Option<String>)) -> Seq<char> {
    match p.1 {
        Some(alias) => alias@,
        None => p.0@,
    }
}

/// The named re-exports one re-export contributes: (exported name, target, name in target).
pub open spec fn named_of_re_export(r: ReExport) -> Seq<(Seq<char>, Seq<char>, Seq<char>)> {
    match (r.target, r.names) {
        (Some(t), Some(ns)) => ns@.map_values(
            |p: (String, Option<String>)| (exported_as(p), t@, p.0@),
        ),
        _ => Seq::empty(),
    }
}

/// The named re-exports a list of re-exports contributes, in order.
pub open spec fn named_entries(res: Seq<ReExport>) -> Seq<(Seq<char>, Seq<char>, Seq<char>)>
    decreases res.len(),
{
    if res.len() == 0 {
        Seq::empty()
    } else {
        named_entries(res.drop_last()) + named_of_re_export(res.last())
    }
}

/// The `export *` targets a list of re-exports contributes, in order.
pub open spec fn star_entries(res: Seq<ReExport>) -> Seq<Seq<char>>
    decreases res.len(),
{
    if res.len() == 0 {
        Seq::empty()
    } else {
        star_entries(res.drop_last()) + match (res.last().target, res.last().names) {
            (Some(t), None) => seq![t@],
            _ => Seq::empty(),
        }
    }
}

/// The local entries as text pairs.
pub open spec fn pair_views(es: Seq<(String, String)>) -> Seq<(Seq<char>, Seq<char>)> {
    es.map_values(|e: (String, String)| (e.0@, e.1@))
}

/// The named entries as text triples.
pub open spec fn triple_views(es: Seq<(String, String, String)>) -> Seq<(Seq<char>, Seq<char>, Seq<char>)> {
    es.map_values(|e: (String, String, String)| (e.0@, e.1@, e.2@))
}

/// The texts of a list of strings.
pub open spec fn text_views(es: Seq<String>) -> Seq<Seq<char>> {
    es.map_values(|e: String| e@)
}

/// Entry `e` holds exactly the export maps of module `x`.
pub open spec fn entry_of(e: ModuleEntry, x: ModuleExports) -> bool {
    &&& e.path@ == x.rel_path@
    &&& pair_views(e.local@) == pair_views(x.local_exports@)
    &&& triple_views(e.named@) == named_entries(x.re_exports@)
    &&& text_views(e.stars@) == star_entries(x.re_exports@)
}

impl ExportIndex {
    /// The entries, in the order they were built.
    pub closed spec fn view(&self) -> Seq<ModuleEntry> {
        self.modules@
    }

    /// Build the index from every module's exports, one entry per module in the given order.
    ///
    /// A re-export whose specifier names no indexed module contributes nothing rather than a
    /// guess.
    pub fn build(exports: &[ModuleExports]) -> (index: ExportIndex)
        ensures
            index.view().len() == exports@.len(),
            forall|i: int| 0 <= i < exports@.len() ==> #[trigger] entry_of(index.view()[i], exports@[i]),
    {
        let mut modules: Vec<ModuleEntry> = Vec::new();
        let mut i: usize = 0;
        while i < exports.len()
            invariant
                i <= exports@.len(),
                modules@.len() == i,
                forall|j: int| 0 <= j < i ==> #[trigger] entry_of(modules@[j], exports@[j]),
            decreases exports@.len() - i,
        {
            let module = &exports[i];
            let mut local: Vec<(String, String)> = Vec::new();
            let mut k: usize = 0;
            while k < module.local_exports.len()
                invariant
                    k <= module.local_exports@.len(),
                    pair_views(local@) == pair_views(module.local_exports@.take(k as int)),
                decreases module.local_exports@.len() - k,
            {
                let entry = &module.local_exports[k];
                let ghost before = local@;
                local.push((entry.0.clone(), entry.1.clone()));
                proof {
                    assert(module.local_exports@.take(k + 1) =~= module.local_exports@.take(k as int).push(*entry));
                    assert(pair_views(local@) =~= pair_views(before).push((entry.0@, entry.1@)));
                    assert(pair_views(module.local_exports@.take(k + 1)) =~= pair_views(
                        module.local_exports@.take(k as int),
                    ).push((entry.0@, entry.1@)));
                }
                k = k + 1;
            }
            assert(module.local_exports@.take(k as int) =~= module.local_exports@);
            let mut named: Vec<(String, String, String)> = Vec::new();
            let mut stars: Vec<String> = Vec::new();
            let mut r: usize = 0;
            while r < module.re_exports.len()
                invariant
                    r <= module.re_exports@.len(),
                    triple_views(named@) == named_entries(module.re_exports@.take(r as int)),
                    text_views(stars@) == star_entries(module.re_exports@.take(r as int)),
                decreases module.re_exports@.len() - r,
            {
                let re_export = &module.re_exports[r];
                let ghost before = module.re_exports@.take(r as int);
                proof {
                    assert(module.re_exports@.take(r + 1).drop_last() =~= before);
                    assert(module.re_exports@.take(r + 1).last() == *re_export);
                }
                if let Some(target) = &re_export.target {
                    match &re_export.names {
                        Some(names) => {
                            let ghost start = named@;
                            let mut q: usize = 0;
                            while q < names.len()
                                invariant
                                    q <= names@.len(),
                                    named@.len() == start.len() + q,
                                    forall|j: int| 0 <= j < start.len() ==> named@[j] == start[j],
                                    triple_views(named@) == triple_views(start) + named_of_re_export(*re_export).take(q as int),
                                    re_export.target == Some(*target),
                                    re_export.names == Some(*names),
                                decreases names@.len() - q,
                            {
                                let pair = &names[q];
                                let exported = match &pair.1 {
                                    Some(alias) => alias.clone(),
                                    None => pair.0.clone(),
                                };
                                let ghost before_named = named@;
                                named.push((exported, target.clone(), pair.0.clone()));
                                proof {
                                    assert(named_of_re_export(*re_export).take(q + 1) =~= named_of_re_export(*re_export).take(q as int).push(
                                        (exported_as(*pair), target@, pair.0@),
                                    ));
                                    assert(triple_views(named@) =~= triple_views(before_named).push(
                                        (exported_as(*pair), target@, pair.0@),
                                    ));
                                }
                                q = q + 1;
                            }
                            proof {
                                assert(named_of_re_export(*re_export).take(q as int) =~= named_of_re_export(*re_export));
                            }
                        },
                        None => {
                            stars.push(target.clone());
                            proof {
                                assert(text_views(stars@) =~= text_views(stars@.drop_last()).push(target@));
                                assert(stars@.drop_last() =~= stars@.take(stars@.len() - 1));
                            }
                        },
                    }
                }
                proof {
                    assert(star_entries(module.re_exports@.take(r + 1)) =~= star_entries(before) + match (re_export.target, re_export.names) {
                        (Some(t), None) => seq![t@],
                        _ => Seq::<Seq<char>>::empty(),
                    });
                }
                r = r + 1;
            }
            assert(module.re_exports@.take(r as int) =~= module.re_exports@);
            modules.push(ModuleEntry { path: module.rel_path.clone(), local, named, stars });
            i = i + 1;
        }
        ExportIndex { modules }
    }
}

/// Every `export *` target named anywhere in the index.
pub open spec fn star_targets(ms: Seq<ModuleEntry>) -> Seq<Seq<char>>
    decreases ms.len(),
{
    if ms.len() == 0 {
        Seq::empty()
    } else {
        star_targets(ms.drop_last()) + text_views(ms.last().stars@)
    }
}

/// Every named re-export target module named anywhere in the index.
pub open spec fn named_targets(ms: Seq<ModuleEntry>) -> Seq<Seq<char>>
    decreases ms.len(),
{
    if ms.len() == 0 {
        Seq::empty()
    } else {
        named_targets(ms.drop_last()) + triple_views(ms.last().named@).map_values(
            |t: (Seq<char>, Seq<char>, Seq<char>)| t.1,
        )
    }
}

/// Every name a named re-export takes from its target, anywhere in the index.
pub open spec fn named_sources(ms: Seq<ModuleEntry>) -> Seq<Seq<char>>
    decreases ms.len(),
{
    if ms.len() == 0 {
        Seq::empty()
    } else {
        named_sources(ms.drop_last()) + triple_views(ms.last().named@).map_values(
            |t: (Seq<char>, Seq<char>, Seq<char>)| t.2,
        )
    }
}

/// Every point a search from `u` can ever stand at: a module it starts from or a re-export
/// names, with a name it starts from or a named re-export takes.
pub open spec fn universe(ms: Seq<ModuleEntry>, u: ExportPoint) -> Set<ExportPoint> {
    Set::new(
        |p: ExportPoint|
            (seq![u.0] + star_targets(ms) + named_targets(ms)).contains(p.0) && (seq![u.1]
                + named_sources(ms)).contains(p.1),
    )
}

/// Every re-export step from a point of `universe` stays in it.
pub open spec fn closed_under_edges(ms: Seq<ModuleEntry>, universe: Set<ExportPoint>) -> bool {
    forall|p: ExportPoint, v: ExportPoint|
        #![trigger universe.contains(p), export_edge(ms, p, v)]
        universe.contains(p) && export_edge(ms, p, v) ==> universe.contains(v)
}

/// The points a list of visited pairs holds.
pub open spec fn visited_set(v: Seq<(String, String)>) -> Set<ExportPoint> {
    Set::new(|p: ExportPoint| exists|i: int| 0 <= i < v.len() && #[trigger] v[i].0@ == p.0 && v[i].1@ == p.1)
}

/// `w` was visited between `before` and `after`.
pub open spec fn newly_visited(before: Set<ExportPoint>, after: Set<ExportPoint>, w: ExportPoint) -> bool {
    after.contains(w) && !before.contains(w)
}

/// Every point visited between `before` and `after` is not defined where it stands, and every
/// step from it leads to a visited point.
pub open spec fn explored(ms: Seq<ModuleEntry>, before: Set<ExportPoint>, after: Set<ExportPoint>) -> bool {
    &&& forall|w: ExportPoint| #[trigger] newly_visited(before, after, w) ==> !defined_at(ms, w)
    &&& forall|w: ExportPoint, v: ExportPoint|
        #![trigger newly_visited(before, after, w), export_edge(ms, w, v)]
        newly_visited(before, after, w) && export_edge(ms, w, v) ==> after.contains(v)
}

/// The last entry found by `module_below` is an entry with that path.
proof fn lemma_module_below(ms: Seq<ModuleEntry>, m: Seq<char>, n: int)
    requires
        n <= ms.len(),
    ensures
        module_below(ms, m, n) matches Some(i) ==> 0 <= i < n && ms[i].path@ == m,
    decreases n,
{
    if n > 0 && ms[n - 1].path@ != m {
        lemma_module_below(ms, m, n - 1);
    }
}

/// The target found by `named_below` comes from one of the first `n` entries.
proof fn lemma_named_below(es: Seq<(String, String, String)>, x: Seq<char>, n: int) -> (k: int)
    requires
        n <= es.len(),
    ensures
        named_below(es, x, n) matches Some(p) ==> 0 <= k < n && p == (es[k].1@, es[k].2@),
    decreases n,
{
    if n <= 0 {
        0
    } else if es[n - 1].0@ == x {
        n - 1
    } else {
        lemma_named_below(es, x, n - 1)
    }
}

/// An `export *` target is among `star_targets`.
proof fn lemma_star_target(ms: Seq<ModuleEntry>, i: int, k: int) -> (j: int)
    requires
        0 <= i < ms.len(),
        0 <= k < ms[i].stars@.len(),
    ensures
        0 <= j < star_targets(ms).len(),
        star_targets(ms)[j] == ms[i].stars@[k]@,
    decreases ms.len(),
{
    let prefix = star_targets(ms.drop_last());
    if i == ms.len() - 1 {
        prefix.len() + k
    } else {
        assert(ms.drop_last()[i] == ms[i]);
        lemma_star_target(ms.drop_last(), i, k)
    }
}

/// A named re-export's target and source name are among `named_targets` and `named_sources`.
proof fn lemma_named_target(ms: Seq<ModuleEntry>, i: int, k: int) -> (j: int)
    requires
        0 <= i < ms.len(),
        0 <= k < ms[i].named@.len(),
    ensures
        0 <= j < named_targets(ms).len(),
        j < named_sources(ms).len(),
        named_targets(ms)[j] == ms[i].named@[k].1@,
        named_sources(ms)[j] == ms[i].named@[k].2@,
    decreases ms.len(),
{
    lemma_named_lengths(ms.drop_last());
    if i == ms.len() - 1 {
        named_targets(ms.drop_last()).len() + k
    } else {
        assert(ms.drop_last()[i] == ms[i]);
        lemma_named_target(ms.drop_last(), i, k)
    }
}

/// `named_targets` and `named_sources` run in step.
proof fn lemma_named_lengths(ms: Seq<ModuleEntry>)
    ensures
        named_targets(ms).len() == named_sources(ms).len(),
    decreases ms.len(),
{
    if ms.len() > 0 {
        lemma_named_lengths(ms.drop_last());
    }
}

/// The search universe of `u` is finite, holds `u`, and every re-export step stays in it.
proof fn lemma_universe(ms: Seq<ModuleEntry>, u: ExportPoint)
    ensures
        universe(ms, u).finite(),
        universe(ms, u).contains(u),
        closed_under_edges(ms, universe(ms, u)),
{
    let mods = seq![u.0] + star_targets(ms) + named_targets(ms);
    let names = seq![u.1] + named_sources(ms);
    let a = mods.to_set();
    let b = names.to_set();
    let outer = a.map(|x: Seq<char>| b.map(|y: Seq<char>| (x, y)));
    a.lemma_map_finite(|x: Seq<char>| b.map(|y: Seq<char>| (x, y)));
    assert forall|s: Set<ExportPoint>| outer.contains(s) implies #[trigger] s.finite() by {
        let x = choose|x: Seq<char>| a.contains(x) && s == b.map(|y: Seq<char>| (x, y));
        b.lemma_map_finite(|y: Seq<char>| (x, y));
    }
    outer.lemma_flatten_finite();
    assert forall|p: ExportPoint| universe(ms, u).contains(p) implies outer.flatten().contains(p) by {
        let s = b.map(|y: Seq<char>| (p.0, y));
        assert(a.contains(p.0));
        assert(outer.contains(s));
        assert(b.contains(p.1));
        assert(s.contains((p.0, p.1)));
    }
    lemma_set_subset_finite(outer.flatten(), universe(ms, u));
    assert(mods[0] == u.0);
    assert(names[0] == u.1);
    assert forall|p: ExportPoint, v: ExportPoint|
        #![trigger universe(ms, u).contains(p), export_edge(ms, p, v)]
        universe(ms, u).contains(p) && export_edge(ms, p, v) implies universe(ms, u).contains(v) by {
        lemma_module_below(ms, p.0, ms.len() as int);
        if let Some(i) = module_of(ms, p.0) {
            if named_of(ms, p.0, p.1) == Some(v) {
                let k = lemma_named_below(ms[i].named@, p.1, ms[i].named@.len() as int);
                let j = lemma_named_target(ms, i, k);
                assert(mods[1 + star_targets(ms).len() + j] == v.0);
                assert(names[1 + j] == v.1);
            } else {
                let k = choose|k: int| 0 <= k < stars_of(ms, p.0).len() && (#[trigger] stars_of(ms, p.0)[k])@ == v.0;
                let j = lemma_star_target(ms, i, k);
                assert(mods[1 + j] == v.0);
            }
        }
    }
}

/// Adding a pair adds its point.
proof fn lemma_visited_push(v: Seq<(String, String)>, x: (String, String))
    ensures
        visited_set(v.push(x)) == visited_set(v).insert((x.0@, x.1@)),
{
    let w = v.push(x);
    assert forall|p: ExportPoint| visited_set(w).contains(p) == visited_set(v).insert((x.0@, x.1@)).contains(p) by {
        if visited_set(v).contains(p) {
            let i = choose|i: int| 0 <= i < v.len() && #[trigger] v[i].0@ == p.0 && v[i].1@ == p.1;
            assert(w[i] == v[i]);
        }
        if p == (x.0@, x.1@) {
            assert(w[v.len() as int] == x);
        }
        if visited_set(w).contains(p) {
            let i = choose|i: int| 0 <= i < w.len() && #[trigger] w[i].0@ == p.0 && w[i].1@ == p.1;
            if i < v.len() {
                assert(w[i] == v[i]);
            }
        }
    }
    assert(visited_set(w) =~= visited_set(v).insert((x.0@, x.1@)));
}

/// What was explored in two stretches was explored in one.
proof fn lemma_explored_trans(ms: Seq<ModuleEntry>, a: Set<ExportPoint>, b: Set<ExportPoint>, c: Set<ExportPoint>)
    requires
        a.subset_of(b),
        b.subset_of(c),
        explored(ms, a, b),
        explored(ms, b, c),
    ensures
        explored(ms, a, c),
{
    assert forall|w: ExportPoint| #[trigger] newly_visited(a, c, w) implies !defined_at(ms, w) by {
        if b.contains(w) {
            assert(newly_visited(a, b, w));
        } else {
            assert(newly_visited(b, c, w));
        }
    }
    assert forall|w: ExportPoint, v: ExportPoint|
        #![trigger newly_visited(a, c, w), export_edge(ms, w, v)]
        newly_visited(a, c, w) && export_edge(ms, w, v) implies c.contains(v) by {
        if b.contains(w) {
            assert(newly_visited(a, b, w));
        } else {
            assert(newly_visited(b, c, w));
        }
    }
}

/// Nothing visited, nothing explored.
proof fn lemma_explored_refl(ms: Seq<ModuleEntry>, a: Set<ExportPoint>)
    ensures
        explored(ms, a, a),
{
}

/// A step followed by a reach is a reach.
proof fn lemma_reach_step(ms: Seq<ModuleEntry>, u: ExportPoint, v: ExportPoint, w: ExportPoint)
    requires
        export_edge(ms, u, v),
        reachable(ms, v, w),
    ensures
        reachable(ms, u, w),
{
    let f = choose|f: nat| reaches(ms, v, w, f);
    assert(reaches(ms, u, w, f + 1));
}

/// A point is reached from itself.
proof fn lemma_reach_refl(ms: Seq<ModuleEntry>, u: ExportPoint)
    ensures
        reachable(ms, u, u),
{
    assert(reaches(ms, u, u, 0));
}

/// From a visited point whose visited points are all explored, every reached point is visited
/// and none is defined where it stands.
proof fn lemma_closed_search(ms: Seq<ModuleEntry>, visited: Set<ExportPoint>, u: ExportPoint, w: ExportPoint, f: nat)
    requires
        visited.contains(u),
        explored(ms, Set::empty(), visited),
        reaches(ms, u, w, f),
    ensures
        visited.contains(w),
        !defined_at(ms, w),
    decreases f,
{
    assert(newly_visited(Set::empty(), visited, u));
    if u != w {
        let x = choose|x: ExportPoint| #[trigger] export_edge(ms, u, x) && reaches(ms, x, w, (f - 1) as nat);
        assert(visited.contains(x));
        lemma_closed_search(ms, visited, x, w, (f - 1) as nat);
    }
}

/// Whether a visited list holds the point (`module`, `name`).
fn is_visited(visited: &Vec<(String, String)>, module: &str, name: &str) -> (found: bool)
    ensures
        found == visited_set(visited@).contains((module@, name@)),
{
    let mut i: usize = 0;
    while i < visited.len()
        invariant
            i <= visited@.len(),
            forall|j: int| 0 <= j < i ==> !(#[trigger] visited@[j].0@ == module@ && visited@[j].1@ == name@),
        decreases visited@.len() - i,
    {
        if str_eq(visited[i].0.as_str(), module) && str_eq(visited[i].1.as_str(), name) {
            assert(visited@[i as int].0@ == module@ && visited@[i as int].1@ == name@);
            return true;
        }
        i = i + 1;
    }
    false
}

impl ExportIndex {
    /// The entry for module `m`, the last built with that path.
    fn find_module(&self, m: &str) -> (found: Option<usize>)
        ensures
            match found {
                Some(i) => module_of(self.view(), m@) == Some(i as int) && i < self.view().len(),
                None => module_of(self.view(), m@) is None,
            },
    {
        let mut n = self.modules.len();
        while n > 0
            invariant
                n <= self.modules@.len(),
                module_of(self.view(), m@) == module_below(self.view(), m@, n as int),
            decreases n,
        {
            if str_eq(self.modules[n - 1].path.as_str(), m) {
                return Some(n - 1);
            }
            n = n - 1;
        }
        None
    }

    /// The entity module `i` defines under the exported name `x`.
    fn local_in(&self, i: usize, x: &str) -> (found: Option<&String>)
        requires
            i < self.view().len(),
        ensures
            match found {
                Some(e) => local_below(self.view()[i as int].local@, x@, self.view()[i as int].local@.len() as int) == Some(e@),
                None => local_below(self.view()[i as int].local@, x@, self.view()[i as int].local@.len() as int) is None,
            },
    {
        let es = &self.modules[i].local;
        let mut n = es.len();
        while n > 0
            invariant
                n <= es@.len(),
                es@ == self.view()[i as int].local@,
                local_below(es@, x@, es@.len() as int) == local_below(es@, x@, n as int),
            decreases n,
        {
            if str_eq(es[n - 1].0.as_str(), x) {
                return Some(&es[n - 1].1);
            }
            n = n - 1;
        }
        None
    }

    /// Where module `i` re-exports the name `x` from, by a named re-export.
    fn named_in(&self, i: usize, x: &str) -> (found: Option<(&String, &String)>)
        requires
            i < self.view().len(),
        ensures
            match found {
                Some(p) => named_below(self.view()[i as int].named@, x@, self.view()[i as int].named@.len() as int) == Some((p.0@, p.1@)),
                None => named_below(self.view()[i as int].named@, x@, self.view()[i as int].named@.len() as int) is None,
            },
    {
        let es = &self.modules[i].named;
        let mut n = es.len();
        while n > 0
            invariant
                n <= es@.len(),
                es@ == self.view()[i as int].named@,
                named_below(es@, x@, es@.len() as int) == named_below(es@, x@, n as int),
            decreases n,
        {
            if str_eq(es[n - 1].0.as_str(), x) {
                return Some((&es[n - 1].1, &es[n - 1].2));
            }
            n = n - 1;
        }
        None
    }
}

/// The text of an answer.
pub open spec fn answer_view(found: Option<String>) -> Option<Seq<char>> {
    match found {
        Some(x) => Some(x@),
        None => None,
    }
}

/// The search from `u`, with the points `visited` already visited and at most `fuel` nested
/// steps: the definition it answers first and the points visited by then. A point already
/// visited answers nothing; a point defined where it stands answers its definition; otherwise
/// the named re-export of the name is searched, then, for any name but `default`, each
/// `export *` target in source order.
pub open spec fn search(ms: Seq<ModuleEntry>, u: ExportPoint, visited: Set<ExportPoint>, fuel: nat) -> (Option<Seq<char>>, Set<ExportPoint>)
    decreases fuel, 0int,
{
    if fuel == 0 || visited.contains(u) {
        (None, visited)
    } else {
        let visited1 = visited.insert(u);
        match local_of(ms, u.0, u.1) {
            Some(x) => (Some(x), visited1),
            None => {
                let named = match named_of(ms, u.0, u.1) {
                    Some(t) => search(ms, t, visited1, (fuel - 1) as nat),
                    None => (None, visited1),
                };
                if named.0 is Some || u.1 == "default"@ {
                    named
                } else {
                    search_stars(ms, stars_of(ms, u.0), 0, u.1, named.1, (fuel - 1) as nat)
                }
            },
        }
    }
}

/// [`search`] through the `export *` targets `stars` from position `k` on, for the name `x`:
/// the first that answers.
pub open spec fn search_stars(ms: Seq<ModuleEntry>, stars: Seq<String>, k: int, x: Seq<char>, visited: Set<ExportPoint>, fuel: nat) -> (Option<Seq<char>>, Set<ExportPoint>)
    decreases fuel, 1 + stars.len() - k,
{
    if k < 0 || k >= stars.len() {
        (None, visited)
    } else {
        let first = search(ms, (stars[k]@, x), visited, fuel);
        if first.0 is Some {
            first
        } else {
            search_stars(ms, stars, k + 1, x, first.1, fuel)
        }
    }
}

/// The definition the search from `u` answers first, given a step for every point it can stand
/// at.
pub open spec fn first_definition(ms: Seq<ModuleEntry>, u: ExportPoint) -> Option<Seq<char>> {
    search(ms, u, Set::empty(), universe(ms, u).len()).0
}

impl ExportIndex {
    /// Entity a module exports under `name`, following re-export chains.
    ///
    /// A name the module defines itself wins. Otherwise the search follows the named re-export
    /// of the name, then each `export *` target in source order (never for `default`), and
    /// answers the first definition it reaches. It answers `None` exactly when no definition is
    /// reachable, cycles included.
    pub fn resolve(&self, module: &str, name: &str) -> (found: Option<String>)
        ensures
            local_of(self.view(), module@, name@) matches Some(x) ==> found matches Some(y) && y@ == x,
            found matches Some(y) ==> exists|w: ExportPoint|
                reachable(self.view(), (module@, name@), w) && local_of(self.view(), w.0, w.1) == Some(y@),
            found is None <==> !resolvable(self.view(), (module@, name@)),
            answer_view(found) == first_definition(self.view(), (module@, name@)),
    {
        let ghost u = (module@, name@);
        let ghost ms = self.view();
        proof {
            lemma_universe(ms, u);
            assert(visited_set(Seq::<(String, String)>::empty()) =~= Set::<ExportPoint>::empty());
            assert(universe(ms, u).difference(Set::<ExportPoint>::empty()) =~= universe(ms, u));
        }
        let mut visited: Vec<(String, String)> = Vec::new();
        let ghost fuel = universe(ms, u).difference(visited_set(visited@)).len();
        let found = self.resolve_inner(module, name, &mut visited, Ghost(universe(ms, u)), Ghost(fuel));
        proof {
            match &found {
                Some(y) => {
                    let w = choose|w: ExportPoint| reachable(ms, u, w) && local_of(ms, w.0, w.1) == Some(y@);
                    assert(defined_at(ms, w));
                },
                None => {
                    assert forall|w: ExportPoint| reachable(ms, u, w) implies !#[trigger] defined_at(ms, w) by {
                        let f = choose|f: nat| reaches(ms, u, w, f);
                        lemma_closed_search(ms, visited_set(visited@), u, w, f);
                    }
                },
            }
        }
        found
    }

    /// The search from (`module`, `name`), skipping every point already visited.
    fn resolve_inner(
        &self,
        module: &str,
        name: &str,
        visited: &mut Vec<(String, String)>,
        Ghost(universe): Ghost<Set<ExportPoint>>,
        Ghost(fuel): Ghost<nat>,
    ) -> (found: Option<String>)
        requires
            universe.finite(),
            closed_under_edges(self.view(), universe),
            universe.contains((module@, name@)),
            visited_set(old(visited)@).subset_of(universe),
            fuel >= universe.difference(visited_set(old(visited)@)).len(),
        ensures
            (answer_view(found), visited_set(final(visited)@)) == search(self.view(), (module@, name@), visited_set(old(visited)@), fuel),
            visited_set(old(visited)@).subset_of(visited_set(final(visited)@)),
            visited_set(final(visited)@).subset_of(universe),
            found matches Some(y) ==> exists|w: ExportPoint|
                reachable(self.view(), (module@, name@), w) && local_of(self.view(), w.0, w.1) == Some(y@),
            found is None ==> visited_set(final(visited)@).contains((module@, name@)) && explored(
                self.view(),
                visited_set(old(visited)@),
                visited_set(final(visited)@),
            ),
            !visited_set(old(visited)@).contains((module@, name@)) ==> (local_of(self.view(), module@, name@) matches Some(x)
                ==> found matches Some(y) && y@ == x),
        decreases fuel,
    {
        let ghost ms = self.view();
        let ghost u = (module@, name@);
        let ghost v0 = visited_set(visited@);
        if is_visited(visited, module, name) {
            proof {
                lemma_explored_refl(ms, v0);
            }
            return None;
        }
        let pair = (module.to_owned(), name.to_owned());
        let ghost pv = (pair.0@, pair.1@);
        visited.push(pair);
        let ghost va = visited_set(visited@);
        proof {
            lemma_visited_push(old(visited)@, pair);
            assert(va == v0.insert(u));
            universe.lemma_set_insert_diff_decreases(v0, u);
            lemma_reach_refl(ms, u);
        }
        let entry = match self.find_module(module) {
            Some(i) => i,
            None => {
                proof {
                    assert forall|w: ExportPoint| #[trigger] newly_visited(v0, va, w) implies !defined_at(ms, w) by {}
                    assert forall|w: ExportPoint, v: ExportPoint|
                        #![trigger newly_visited(v0, va, w), export_edge(ms, w, v)]
                        newly_visited(v0, va, w) && export_edge(ms, w, v) implies va.contains(v) by {
                        assert(w == u);
                    }
                    assert(search_stars(ms, stars_of(ms, u.0), 0, u.1, va, (fuel - 1) as nat) == (None::<Seq<char>>, va));
                    assert(search(ms, u, v0, fuel) == (None::<Seq<char>>, va));
                }
                return None;
            },
        };
        if let Some(entity) = self.local_in(entry, name) {
            return Some(entity.clone());
        }
        proof {
            assert(!defined_at(ms, u));
        }
        if let Some((target, source_name)) = self.named_in(entry, name) {
            let ghost v = (target@, source_name@);
            proof {
                assert(export_edge(ms, u, v));
                assert(universe.contains(v));
                lemma_set_subset_finite(universe, universe.difference(va));
            }
            let found = self.resolve_inner(target.as_str(), source_name.as_str(), visited, Ghost(universe), Ghost((fuel - 1) as nat));
            if let Some(entity) = found {
                proof {
                    let w = choose|w: ExportPoint| reachable(ms, v, w) && local_of(ms, w.0, w.1) == Some(entity@);
                    lemma_reach_step(ms, u, v, w);
                }
                return Some(entity);
            }
        }
        let ghost vb = visited_set(visited@);
        proof {
            assert(explored(ms, va, vb)) by {
                if named_below(ms[entry as int].named@, name@, ms[entry as int].named@.len() as int) is None {
                    assert(vb == va);
                    lemma_explored_refl(ms, va);
                }
            }
            let named = match named_of(ms, u.0, u.1) {
                Some(t) => search(ms, t, va, (fuel - 1) as nat),
                None => (None, va),
            };
            assert(named == (None::<Seq<char>>, vb));
            if u.1 == "default"@ {
                assert(search(ms, u, v0, fuel) == (None::<Seq<char>>, vb));
            } else {
                assert(search(ms, u, v0, fuel) == search_stars(ms, stars_of(ms, u.0), 0, u.1, vb, (fuel - 1) as nat));
            }
        }
        if !str_eq(name, "default") {
            let stars = &self.modules[entry].stars;
            let mut k: usize = 0;
            while k < stars.len()
                invariant
                    ms == self.view(),
                    u == (module@, name@),
                    stars@ == stars_of(ms, u.0),
                    vb.subset_of(visited_set(visited@)),
                    v0.subset_of(visited_set(visited@)),
                    v0 == visited_set(old(visited)@),
                    k <= stars@.len(),
                    universe.finite(),
                    closed_under_edges(ms, universe),
                    universe.contains(u),
                    u.1 != "default"@,
                    !defined_at(ms, u),
                    va.subset_of(visited_set(visited@)),
                    visited_set(visited@).subset_of(universe),
                    universe.difference(va).len() < fuel,
                    explored(ms, va, visited_set(visited@)),
                    forall|j: int| 0 <= j < k ==> visited_set(visited@).contains((#[trigger] stars@[j]@, u.1)),
                    fuel > 0,
                    search(ms, u, v0, fuel) == search_stars(ms, stars@, k as int, u.1, visited_set(visited@), (fuel - 1) as nat),
                decreases stars@.len() - k,
            {
                let ghost v = (stars@[k as int]@, u.1);
                let ghost before = visited_set(visited@);
                proof {
                    assert(export_edge(ms, u, v));
                    assert(universe.contains(v));
                    lemma_set_subset_finite(universe, universe.difference(va));
                    lemma_len_subset(universe.difference(before), universe.difference(va));
                }
                let found = self.resolve_inner(stars[k].as_str(), name, visited, Ghost(universe), Ghost((fuel - 1) as nat));
                proof {
                    assert forall|x: ExportPoint| v0.contains(x) implies visited_set(visited@).contains(x) by {
                        assert(before.contains(x));
                    }
                }
                if let Some(entity) = found {
                    proof {
                        let w = choose|w: ExportPoint| reachable(ms, v, w) && local_of(ms, w.0, w.1) == Some(entity@);
                        lemma_reach_step(ms, u, v, w);
                    }
                    return Some(entity);
                }
                proof {
                    lemma_explored_trans(ms, va, before, visited_set(visited@));
                }
                k = k + 1;
            }
        }
        proof {
            let vc = visited_set(visited@);
            assert forall|w: ExportPoint| #[trigger] newly_visited(v0, vc, w) implies !defined_at(ms, w) by {
                if w != u {
                    assert(newly_visited(va, vc, w));
                }
            }
            assert forall|w: ExportPoint, v: ExportPoint|
                #![trigger newly_visited(v0, vc, w), export_edge(ms, w, v)]
                newly_visited(v0, vc, w) && export_edge(ms, w, v) implies vc.contains(v) by {
                if w != u {
                    assert(newly_visited(va, vc, w));
                } else {
                    if named_of(ms, u.0, u.1) == Some(v) {
                        assert(vb.contains(v));
                    } else {
                        let j = choose|j: int| 0 <= j < stars_of(ms, u.0).len() && (#[trigger] stars_of(ms, u.0)[j])@ == v.0;
                        assert(vc.contains((stars_of(ms, u.0)[j]@, u.1)));
                    }
                }
            }
        }
        None
    }
}

/// Module `m` is reached from module `r` through `export *` alone, in at most `f` steps.
pub open spec fn star_reaches(ms: Seq<ModuleEntry>, r: Seq<char>, m: Seq<char>, f: nat) -> bool
    decreases f,
{
    r == m || (f > 0 && exists|k: int|
        0 <= k < stars_of(ms, r).len() && star_reaches(ms, (#[trigger] stars_of(ms, r)[k])@, m, (f - 1) as nat))
}

/// Module `m` is reached from module `r` through `export *` alone.
pub open spec fn star_reachable(ms: Seq<ModuleEntry>, r: Seq<char>, m: Seq<char>) -> bool {
    exists|f: nat| star_reaches(ms, r, m, f)
}

/// Module `root` exports the name `x`, following re-export chains: its own local and named
/// exports, and every name but `default` that another module it reaches through `export *`
/// exports locally or re-exports by name. `export *` never forwards `default`.
pub open spec fn exports_name(ms: Seq<ModuleEntry>, root: Seq<char>, x: Seq<char>) -> bool {
    ||| local_of(ms, root, x) is Some
    ||| named_of(ms, root, x) is Some
    ||| exists|m: Seq<char>|
        m != root && #[trigger] star_reachable(ms, root, m) && x != "default"@ && (local_of(ms, m, x) is Some
            || named_of(ms, m, x) is Some)
}

/// A star step after a star path is a star path.
proof fn lemma_star_reach_append(ms: Seq<ModuleEntry>, r: Seq<char>, m: Seq<char>, k: int, f: nat)
    requires
        star_reaches(ms, r, m, f),
        0 <= k < stars_of(ms, m).len(),
    ensures
        star_reaches(ms, r, stars_of(ms, m)[k]@, f + 1),
    decreases f,
{
    let s = stars_of(ms, m)[k]@;
    if r == m {
        assert(star_reaches(ms, s, s, f));
        assert(star_reaches(ms, stars_of(ms, r)[k]@, s, f));
    } else {
        let j = choose|j: int|
            0 <= j < stars_of(ms, r).len() && star_reaches(ms, (#[trigger] stars_of(ms, r)[j])@, m, (f - 1) as nat);
        lemma_star_reach_append(ms, stars_of(ms, r)[j]@, m, k, (f - 1) as nat);
        assert(star_reaches(ms, stars_of(ms, r)[j]@, s, f));
    }
}

/// From a module of a list closed under `export *`, every module reached is in the list.
proof fn lemma_star_closed(ms: Seq<ModuleEntry>, reached: Seq<Seq<char>>, r: Seq<char>, m: Seq<char>, f: nat)
    requires
        reached.contains(r),
        forall|j: int, k: int| 0 <= j < reached.len() && 0 <= k < stars_of(ms, reached[j]).len()
            ==> reached.contains(#[trigger] stars_of(ms, reached[j])[k]@),
        star_reaches(ms, r, m, f),
    ensures
        reached.contains(m),
    decreases f,
{
    if r != m {
        let k = choose|k: int|
            0 <= k < stars_of(ms, r).len() && star_reaches(ms, (#[trigger] stars_of(ms, r)[k])@, m, (f - 1) as nat);
        let j = choose|j: int| 0 <= j < reached.len() && reached[j] == r;
        assert(reached.contains(stars_of(ms, reached[j])[k]@));
        lemma_star_closed(ms, reached, stars_of(ms, r)[k]@, m, (f - 1) as nat);
    }
}

/// A list without repeats inside a finite set is no longer than the set.
proof fn lemma_distinct_within(s: Seq<Seq<char>>, u: Set<Seq<char>>)
    requires
        s.no_duplicates(),
        u.finite(),
        forall|j: int| 0 <= j < s.len() ==> u.contains(#[trigger] s[j]),
    ensures
        s.len() <= u.len(),
{
    s.unique_seq_to_set();
    lemma_len_subset(s.to_set(), u);
}

/// A local export exists for a name exactly when some entry names it.
proof fn lemma_local_below(es: Seq<(String, String)>, x: Seq<char>, n: int)
    requires
        0 <= n <= es.len(),
    ensures
        local_below(es, x, n) is Some <==> exists|k: int| 0 <= k < n && #[trigger] es[k].0@ == x,
    decreases n,
{
    if n > 0 {
        lemma_local_below(es, x, n - 1);
        if es[n - 1].0@ == x {
            assert(es[n - 1].0@ == x);
        }
    }
}

/// A named re-export exists for a name exactly when some entry names it.
proof fn lemma_named_exists(es: Seq<(String, String, String)>, x: Seq<char>, n: int)
    requires
        0 <= n <= es.len(),
    ensures
        named_below(es, x, n) is Some <==> exists|k: int| 0 <= k < n && #[trigger] es[k].0@ == x,
    decreases n,
{
    if n > 0 {
        lemma_named_exists(es, x, n - 1);
        if es[n - 1].0@ == x {
            assert(es[n - 1].0@ == x);
        }
    }
}

/// Whether a list of module paths holds `m`.
fn holds_module(list: &Vec<String>, m: &str) -> (found: bool)
    ensures
        found == text_views(list@).contains(m@),
{
    let mut i: usize = 0;
    while i < list.len()
        invariant
            i <= list@.len(),
            forall|j: int| 0 <= j < i ==> text_views(list@)[j] != m@,
        decreases list@.len() - i,
    {
        if str_eq(list[i].as_str(), m) {
            assert(text_views(list@)[i as int] == m@);
            return true;
        }
        i = i + 1;
    }
    false
}

impl ExportIndex {
    /// The modules reached from `module` through `export *` alone, `module` first, each once.
    fn star_closure(&self, module: &str) -> (reached: Vec<String>)
        ensures
            reached@.len() >= 1,
            text_views(reached@)[0] == module@,
            text_views(reached@).no_duplicates(),
            forall|j: int| 0 <= j < reached@.len() ==> star_reachable(self.view(), module@, #[trigger] text_views(reached@)[j]),
            forall|m: Seq<char>| star_reachable(self.view(), module@, m) ==> text_views(reached@).contains(m),
    {
        let ghost ms = self.view();
        let ghost mu = (seq![module@] + star_targets(ms)).to_set();
        let mut reached: Vec<String> = Vec::new();
        reached.push(module.to_owned());
        proof {
            assert(text_views(reached@)[0] == module@);
            assert((seq![module@] + star_targets(ms))[0] == module@);
            assert(star_reaches(ms, module@, module@, 0));
        }
        let mut i: usize = 0;
        while i < reached.len()
            invariant
                ms == self.view(),
                mu == (seq![module@] + star_targets(ms)).to_set(),
                reached@.len() >= 1,
                text_views(reached@)[0] == module@,
                i <= reached@.len(),
                text_views(reached@).no_duplicates(),
                forall|j: int| 0 <= j < reached@.len() ==> mu.contains(#[trigger] text_views(reached@)[j]),
                forall|j: int| 0 <= j < reached@.len() ==> star_reachable(ms, module@, #[trigger] text_views(reached@)[j]),
                forall|j: int, k: int| 0 <= j < i && 0 <= k < stars_of(ms, text_views(reached@)[j]).len()
                    ==> text_views(reached@).contains(#[trigger] stars_of(ms, text_views(reached@)[j])[k]@),
            decreases mu.len() - i,
        {
            proof {
                lemma_distinct_within(text_views(reached@), mu);
            }
            let current = reached[i].clone();
            let ghost cur = text_views(reached@)[i as int];
            if let Some(entry) = self.find_module(current.as_str()) {
                proof {
                    lemma_module_below(ms, cur, ms.len() as int);
                }
                let stars = &self.modules[entry].stars;
                let mut k: usize = 0;
                while k < stars.len()
                    invariant
                        ms == self.view(),
                        mu == (seq![module@] + star_targets(ms)).to_set(),
                        stars@ == stars_of(ms, cur),
                        module_of(ms, cur) == Some(entry as int),
                        entry < ms.len(),
                        i < reached@.len(),
                        cur == text_views(reached@)[i as int],
                        k <= stars@.len(),
                        reached@.len() >= 1,
                        text_views(reached@)[0] == module@,
                        text_views(reached@).no_duplicates(),
                        forall|j: int| 0 <= j < reached@.len() ==> mu.contains(#[trigger] text_views(reached@)[j]),
                        forall|j: int| 0 <= j < reached@.len() ==> star_reachable(ms, module@, #[trigger] text_views(reached@)[j]),
                        forall|j: int, q: int| 0 <= j < i && 0 <= q < stars_of(ms, text_views(reached@)[j]).len()
                            ==> text_views(reached@).contains(#[trigger] stars_of(ms, text_views(reached@)[j])[q]@),
                        forall|q: int| 0 <= q < k ==> text_views(reached@).contains(#[trigger] stars@[q]@),
                    decreases stars@.len() - k,
                {
                    let ghost before = text_views(reached@);
                    if !holds_module(&reached, stars[k].as_str()) {
                        reached.push(stars[k].clone());
                        proof {
                            let now = text_views(reached@);
                            assert(now =~= before.push(stars@[k as int]@));
                            assert(now[now.len() - 1] == stars@[k as int]@);
                            let t = lemma_star_target(ms, entry as int, k as int);
                            assert((seq![module@] + star_targets(ms))[1 + t] == stars@[k as int]@);
                            let f = choose|f: nat| star_reaches(ms, module@, cur, f);
                            lemma_star_reach_append(ms, module@, cur, k as int, f);
                            assert forall|j: int, q: int| 0 <= j < i && 0 <= q < stars_of(ms, now[j]).len()
                                implies now.contains(#[trigger] stars_of(ms, now[j])[q]@) by {
                                assert(now[j] == before[j]);
                                let x = choose|x: int| 0 <= x < before.len() && before[x] == stars_of(ms, before[j])[q]@;
                                assert(now[x] == before[x]);
                            }
                            assert forall|q: int| 0 <= q <= k implies now.contains(#[trigger] stars@[q]@) by {
                                if q < k {
                                    let x = choose|x: int| 0 <= x < before.len() && before[x] == stars@[q]@;
                                    assert(now[x] == before[x]);
                                }
                            }
                        }
                    }
                    k = k + 1;
                }
                proof {
                    let now = text_views(reached@);
                    assert forall|j: int, q: int| 0 <= j < i + 1 && 0 <= q < stars_of(ms, now[j]).len()
                        implies now.contains(#[trigger] stars_of(ms, now[j])[q]@) by {
                        if j == i {
                            assert(now.contains(stars@[q]@));
                        }
                    }
                }
            }
            i = i + 1;
        }
        proof {
            let rv = text_views(reached@);
            assert forall|m: Seq<char>| star_reachable(ms, module@, m) implies rv.contains(m) by {
                let f = choose|f: nat| star_reaches(ms, module@, m, f);
                assert(rv[0] == module@);
                lemma_star_closed(ms, rv, module@, m, f);
            }
        }
        reached
    }
}

impl ExportIndex {
    /// Every name a module exports, following re-export chains. Sorted, each once, cycle-safe.
    pub fn names(&self, module: &str) -> (out: Vec<String>)
        ensures
            strictly_ascending(text_views(out@)),
            forall|x: Seq<char>| text_views(out@).contains(x) <==> exports_name(self.view(), module@, x),
    {
        let ghost ms = self.view();
        let reached = self.star_closure(module);
        let ghost rv = text_views(reached@);
        let mut keys: Vec<Vec<char>> = Vec::new();
        let mut i: usize = 0;
        while i < reached.len()
            invariant
                ms == self.view(),
                rv == text_views(reached@),
                rv.len() >= 1,
                rv[0] == module@,
                rv.no_duplicates(),
                forall|j: int| 0 <= j < rv.len() ==> star_reachable(ms, module@, #[trigger] rv[j]),
                forall|m: Seq<char>| star_reachable(ms, module@, m) ==> rv.contains(m),
                i <= rv.len(),
                forall|x: Seq<char>| key_views(keys@).contains(x) ==> exports_name(ms, module@, x),
                forall|j: int, x: Seq<char>| 0 <= j < i && #[trigger] contributes_at(ms, rv, j, x)
                    ==> key_views(keys@).contains(x),
            decreases rv.len() - i,
        {
            let current = &reached[i];
            let ghost cur = rv[i as int];
            let include_default = i == 0;
            let ghost keys_before = key_views(keys@);
            proof {
                if i > 0 {
                    assert(rv[i as int] != rv[0]);
                }
            }
            if let Some(entry) = self.find_module(current.as_str()) {
                proof {
                    lemma_module_below(ms, cur, ms.len() as int);
                }
                let local = &self.modules[entry].local;
                let mut k: usize = 0;
                while k < local.len()
                    invariant
                        ms == self.view(),
                        local@ == ms[entry as int].local@,
                        module_of(ms, cur) == Some(entry as int),
                        cur == rv[i as int],
                        include_default == (i == 0),
                        i > 0 ==> cur != module@,
                        i == 0 ==> cur == module@,
                        star_reachable(ms, module@, cur),
                        k <= local@.len(),
                        forall|x: Seq<char>| keys_before.contains(x) ==> key_views(keys@).contains(x),
                        forall|x: Seq<char>| key_views(keys@).contains(x) ==> exports_name(ms, module@, x),
                        forall|q: int| 0 <= q < k && (include_default || local@[q].0@ != "default"@)
                            ==> key_views(keys@).contains(#[trigger] local@[q].0@),
                    decreases local@.len() - k,
                {
                    let name = &local[k].0;
                    if include_default || !str_eq(name.as_str(), "default") {
                        let ghost before = key_views(keys@);
                        proof {
                            lemma_local_below(local@, name@, local@.len() as int);
                            assert(local@[k as int].0@ == name@);
                            if i > 0 {
                                assert(star_reachable(ms, module@, cur));
                            }
                        }
                        let key = crate::text::chars_of(name.as_str());
                        proof {
                            crate::order::lemma_key_views_push(keys@, key);
                        }
                        keys.push(key);
                        proof {
                            let now = key_views(keys@);
                            assert(now =~= before.push(name@));
                            assert(now[now.len() - 1] == name@);
                            assert forall|x: Seq<char>| before.contains(x) implies now.contains(x) by {
                                let y = choose|y: int| 0 <= y < before.len() && before[y] == x;
                                assert(now[y] == before[y]);
                            }
                        }
                    }
                    k = k + 1;
                }
                let named = &self.modules[entry].named;
                let ghost keys_mid = key_views(keys@);
                let mut k: usize = 0;
                while k < named.len()
                    invariant
                        ms == self.view(),
                        named@ == ms[entry as int].named@,
                        module_of(ms, cur) == Some(entry as int),
                        cur == rv[i as int],
                        include_default == (i == 0),
                        i > 0 ==> cur != module@,
                        i == 0 ==> cur == module@,
                        star_reachable(ms, module@, cur),
                        k <= named@.len(),
                        forall|x: Seq<char>| keys_mid.contains(x) ==> key_views(keys@).contains(x),
                        forall|x: Seq<char>| key_views(keys@).contains(x) ==> exports_name(ms, module@, x),
                        forall|q: int| 0 <= q < k && (include_default || named@[q].0@ != "default"@)
                            ==> key_views(keys@).contains(#[trigger] named@[q].0@),
                    decreases named@.len() - k,
                {
                    let name = &named[k].0;
                    if include_default || !str_eq(name.as_str(), "default") {
                        let ghost before = key_views(keys@);
                        proof {
                            lemma_named_exists(named@, name@, named@.len() as int);
                            assert(named@[k as int].0@ == name@);
                        }
                        let key = crate::text::chars_of(name.as_str());
                        proof {
                            crate::order::lemma_key_views_push(keys@, key);
                        }
                        keys.push(key);
                        proof {
                            let now = key_views(keys@);
                            assert(now =~= before.push(name@));
                            assert(now[now.len() - 1] == name@);
                            assert forall|x: Seq<char>| before.contains(x) implies now.contains(x) by {
                                let y = choose|y: int| 0 <= y < before.len() && before[y] == x;
                                assert(now[y] == before[y]);
                            }
                        }
                    }
                    k = k + 1;
                }
                proof {
                    let now = key_views(keys@);
                    assert forall|j: int, x: Seq<char>| 0 <= j < i + 1 && #[trigger] contributes_at(ms, rv, j, x)
                        implies now.contains(x) by {
                        if j == i {
                            if local_of(ms, cur, x) is Some {
                                lemma_local_below(ms[entry as int].local@, x, ms[entry as int].local@.len() as int);
                                let q = choose|q: int| 0 <= q < ms[entry as int].local@.len() && #[trigger] ms[entry as int].local@[q].0@ == x;
                                assert(now.contains(local@[q].0@));
                            } else {
                                lemma_named_exists(ms[entry as int].named@, x, ms[entry as int].named@.len() as int);
                                let q = choose|q: int| 0 <= q < ms[entry as int].named@.len() && #[trigger] ms[entry as int].named@[q].0@ == x;
                                assert(now.contains(named@[q].0@));
                            }
                        }
                    }
                }
            }
            i = i + 1;
        }
        proof {
            assert forall|x: Seq<char>| exports_name(ms, module@, x) implies key_views(keys@).contains(x) by {
                if local_of(ms, module@, x) is Some || named_of(ms, module@, x) is Some {
                    assert(contributes_at(ms, rv, 0, x));
                } else {
                    let m = choose|m: Seq<char>|
                        m != module@ && #[trigger] star_reachable(ms, module@, m) && x != "default"@ && (local_of(ms, m, x) is Some
                            || named_of(ms, m, x) is Some);
                    assert(rv.contains(m));
                    let j = choose|j: int| 0 <= j < rv.len() && rv[j] == m;
                    assert(j != 0);
                    assert(contributes_at(ms, rv, j, x));
                }
            }
        }
        let distinct = sorted_unique(&keys);
        let mut out: Vec<String> = Vec::new();
        let mut d: usize = 0;
        while d < distinct.len()
            invariant
                d <= distinct@.len(),
                text_views(out@) == key_views(distinct@).take(d as int),
            decreases distinct@.len() - d,
        {
            let ghost before = text_views(out@);
            out.push(crate::text::string_of(distinct[d].as_slice()));
            proof {
                assert(text_views(out@) =~= before.push(distinct@[d as int]@));
                assert(key_views(distinct@).take(d + 1) =~= key_views(distinct@).take(d as int).push(
                    key_views(distinct@)[d as int],
                ));
            }
            d = d + 1;
        }
        proof {
            assert(key_views(distinct@).take(d as int) =~= key_views(distinct@));
        }
        out
    }
}

/// What module `m` adds to the names of the module a search started from: its local exports
/// and named re-exports, all of them for the starting module itself and all but `default`
/// otherwise.
pub open spec fn contributes(ms: Seq<ModuleEntry>, m: Seq<char>, starting: bool, x: Seq<char>) -> bool {
    (starting || x != "default"@) && (local_of(ms, m, x) is Some || named_of(ms, m, x) is Some)
}

/// What the `j`th module of a search from `rv[0]` adds to its names.
pub open spec fn contributes_at(ms: Seq<ModuleEntry>, rv: Seq<Seq<char>>, j: int, x: Seq<char>) -> bool {
    contributes(ms, rv[j], j == 0, x)
}

/// `export *` does not re-export `default`: a module that neither defines `default` nor
/// re-exports it by name does not resolve it, whatever its `export *` targets define.
pub proof fn lemma_star_does_not_forward_default(ms: Seq<ModuleEntry>, m: Seq<char>)
    requires
        local_of(ms, m, "default"@) is None,
        named_of(ms, m, "default"@) is None,
    ensures
        !resolvable(ms, (m, "default"@)),
{
    let u = (m, "default"@);
    assert forall|w: ExportPoint| reachable(ms, u, w) implies !#[trigger] defined_at(ms, w) by {
        let f = choose|f: nat| reaches(ms, u, w, f);
        if u != w {
            let x = choose|x: ExportPoint| #[trigger] export_edge(ms, u, x) && reaches(ms, x, w, (f - 1) as nat);
            assert(false);
        }
    }
}

/// A module lists `default` among its names only where it defines `default` or re-exports it
/// by name itself: `export *` never forwards it.
pub proof fn lemma_listed_default_is_its_own(ms: Seq<ModuleEntry>, m: Seq<char>)
    requires
        exports_name(ms, m, "default"@),
    ensures
        local_of(ms, m, "default"@) is Some || named_of(ms, m, "default"@) is Some,
{
}

/// Re-export chains are transitive: a name re-exported from a point that resolves resolves
/// too.
pub proof fn lemma_re_export_chains_are_transitive(ms: Seq<ModuleEntry>, u: ExportPoint, v: ExportPoint)
    requires
        export_edge(ms, u, v),
        resolvable(ms, v),
    ensures
        resolvable(ms, u),
{
    let w = choose|w: ExportPoint| reachable(ms, v, w) && #[trigger] defined_at(ms, w);
    lemma_reach_step(ms, u, v, w);
}

/// Every name a module resolves is among its names: following a re-export chain from
/// `(m, x)` to a definition only ever passes through `export *` targets of `m` and ends at a
/// local or named export of one of them.
pub proof fn lemma_resolvable_names_are_listed(ms: Seq<ModuleEntry>, m: Seq<char>, x: Seq<char>)
    requires
        resolvable(ms, (m, x)),
    ensures
        exports_name(ms, m, x),
{
    let w = choose|w: ExportPoint| reachable(ms, (m, x), w) && #[trigger] defined_at(ms, w);
    let f = choose|f: nat| reaches(ms, (m, x), w, f);
    assert(star_reaches(ms, m, m, 0));
    lemma_listed_along(ms, m, m, x, w, f);
}

/// The walk of [`lemma_resolvable_names_are_listed`] from a module `s` that `m` reaches through
/// `export *` alone.
proof fn lemma_listed_along(ms: Seq<ModuleEntry>, m: Seq<char>, s: Seq<char>, x: Seq<char>, w: ExportPoint, f: nat)
    requires
        star_reachable(ms, m, s),
        s == m || x != "default"@,
        reaches(ms, (s, x), w, f),
        defined_at(ms, w),
    ensures
        exports_name(ms, m, x),
    decreases f,
{
    let u = (s, x);
    if defined_at(ms, u) {
        if s != m {
            assert(star_reachable(ms, m, s) && x != "default"@ && (local_of(ms, s, x) is Some || named_of(ms, s, x) is Some));
        }
    } else if named_of(ms, s, x) is Some {
        if s != m {
            assert(star_reachable(ms, m, s) && x != "default"@ && (local_of(ms, s, x) is Some || named_of(ms, s, x) is Some));
        }
    } else {
        assert(u != w);
        let v = choose|v: ExportPoint| #[trigger] export_edge(ms, u, v) && reaches(ms, v, w, (f - 1) as nat);
        let k = choose|k: int| 0 <= k < stars_of(ms, s).len() && (#[trigger] stars_of(ms, s)[k])@ == v.0;
        let g = choose|g: nat| star_reaches(ms, m, s, g);
        lemma_star_reach_append(ms, m, s, k, g);
        assert(star_reachable(ms, m, v.0));
        lemma_listed_along(ms, m, v.0, x, w, (f - 1) as nat);
    }
}

} // verus!
