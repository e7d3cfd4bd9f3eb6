//! The decisions the export rule makes for each import specifier of an indexed module, between
//! the reads of the neighbours and the writes of the links.
use vstd::prelude::*;
use crate::contracts::exports::{export_of, resolve_export, specifier_parts, split_specifier, ExportOutcome, ExportView};
use crate::contracts::target::{declared_name, json_text};
use crate::contracts::values::Json;
use crate::contracts::{Ambiguity, UnresolvedReason, UnsupportedForm};
use crate::text::{chars_of, str_eq, string_of};
use crate::order::{key_views, sorted_unique, strictly_ascending};

verus! {

/// One import specifier that names a declared dependency: the specifier, its package part and
/// its subpath.
pub type Candidate = (String, String, String);

/// `key` is one of the dependency keys.
pub open spec fn is_key(keys: Seq<String>, key: Seq<char>) -> bool {
    exists|k: int| 0 <= k < keys.len() && (#[trigger] keys[k])@ == key
}

/// The candidates among `specifiers`, in order: each whose package part is a dependency key.
pub open spec fn candidates_of(specifiers: Seq<String>, keys: Seq<String>) -> Seq<(Seq<char>, Seq<char>, Seq<char>)>
    decreases specifiers.len(),
{
    if specifiers.len() == 0 {
        Seq::empty()
    } else {
        let before = candidates_of(specifiers.drop_last(), keys);
        let s = specifiers.last();
        match specifier_parts(s@) {
            Some((package, subpath)) => if is_key(keys, package) {
                before.push((s@, package, subpath))
            } else {
                before
            },
            None => before,
        }
    }
}

/// The texts of a list of candidates.
pub open spec fn candidate_views(cs: Seq<Candidate>) -> Seq<(Seq<char>, Seq<char>, Seq<char>)> {
    cs.map_values(|c: Candidate| (c.0@, c.1@, c.2@))
}

/// The import specifiers that are declarations of the export rule: those whose package part is
/// a key a manifest declared, in order, each with its package part and subpath.
pub fn import_candidates(specifiers: &[String], keys: &[String]) -> (candidates: Vec<Candidate>)
    ensures
        candidate_views(candidates@) == candidates_of(specifiers@, keys@),
{
    let mut out: Vec<Candidate> = Vec::new();
    let mut i: usize = 0;
    while i < specifiers.len()
        invariant
            i <= specifiers@.len(),
            candidate_views(out@) == candidates_of(specifiers@.take(i as int), keys@),
        decreases specifiers@.len() - i,
    {
        let ghost before = out@;
        proof {
            assert(specifiers@.take(i + 1).drop_last() =~= specifiers@.take(i as int));
            assert(specifiers@.take(i + 1).last() == specifiers@[i as int]);
        }
        if let Some((package, subpath)) = split_specifier(specifiers[i].as_str()) {
            let mut declared = false;
            let mut k: usize = 0;
            while k < keys.len()
                invariant
                    k <= keys@.len(),
                    declared == exists|j: int| 0 <= j < k && (#[trigger] keys@[j])@ == package@,
                decreases keys@.len() - k,
            {
                if str_eq(keys[k].as_str(), package.as_str()) {
                    declared = true;
                }
                k = k + 1;
            }
            if declared {
                let ghost entry = (specifiers@[i as int]@, package@, subpath@);
                out.push((specifiers[i].clone(), package, subpath));
                proof {
                    assert(candidate_views(out@) =~= candidate_views(before).push(entry));
                }
            }
        }
        i = i + 1;
    }
    proof {
        assert(specifiers@.take(specifiers@.len() as int) =~= specifiers@);
    }
    out
}

/// What one neighbour answers for a specifier's package and subpath: its manifest must be
/// readable, must declare the package as its own `name`, and its `exports` (or legacy entry
/// fields) must name the subpath.
pub open spec fn verdict_of(manifest: Option<Json>, package: Seq<char>, subpath: Seq<char>) -> ExportView {
    match manifest {
        None => ExportView::Unresolved(UnresolvedReason::TargetManifestUnreadable),
        Some(m) => if json_text(m, "name"@) != Some(package) {
            ExportView::Unresolved(UnresolvedReason::PackageNameNotDeclared)
        } else {
            export_of(m, subpath)
        },
    }
}

/// What one neighbour answers for a specifier's package and subpath.
pub fn neighbour_verdict(manifest: Option<&Json>, package: &str, subpath: &str) -> (verdict: ExportOutcome)
    ensures
        verdict@ == verdict_of(match manifest { Some(m) => Some(*m), None => None }, package@, subpath@),
{
    match manifest {
        None => ExportOutcome::Unresolved(UnresolvedReason::TargetManifestUnreadable),
        Some(m) => {
            let named = match declared_name(m) {
                Some(name) => str_eq(name.as_str(), package),
                None => false,
            };
            if !named {
                ExportOutcome::Unresolved(UnresolvedReason::PackageNameNotDeclared)
            } else {
                resolve_export(m, subpath)
            }
        },
    }
}

/// The ambiguity of one specifier's links, decided over the links actually produced: more than
/// one is a conflict; one, from a specifier more than one declaration named, was declared more
/// than once.
pub fn link_ambiguity(produced: usize, named: usize) -> (ambiguity: Option<Ambiguity>)
    ensures
        produced > 1 ==> ambiguity == Some(Ambiguity::ConflictingTargets),
        produced == 1 && named > 1 ==> ambiguity == Some(Ambiguity::DeclaredMoreThanOnce),
        !(produced > 1) && !(produced == 1 && named > 1) ==> ambiguity is None,
{
    if produced > 1 {
        Some(Ambiguity::ConflictingTargets)
    } else if produced == 1 && named > 1 {
        Some(Ambiguity::DeclaredMoreThanOnce)
    } else {
        None
    }
}

/// Why a specifier that produced no link produced none.
#[derive(Debug, Clone, Copy, PartialEq, Eq, Structural)]
pub enum SpecifierRefusal {
    /// A form that is not read, reported first because it is the more specific fact.
    Declined(UnsupportedForm),
    /// A form read in full that reached nothing.
    Unresolved(UnresolvedReason),
}

/// What a specifier that produced no link reports: the first declined form, else the first
/// unresolved reason, else nothing.
pub fn specifier_refusal(declined: &[UnsupportedForm], unresolved: &[UnresolvedReason]) -> (refusal: Option<SpecifierRefusal>)
    ensures
        declined@.len() > 0 ==> refusal == Some(SpecifierRefusal::Declined(declined@[0])),
        declined@.len() == 0 && unresolved@.len() > 0 ==> refusal == Some(SpecifierRefusal::Unresolved(unresolved@[0])),
        declined@.len() == 0 && unresolved@.len() == 0 ==> refusal is None,
{
    if declined.len() > 0 {
        Some(SpecifierRefusal::Declined(declined[0]))
    } else if unresolved.len() > 0 {
        Some(SpecifierRefusal::Unresolved(unresolved[0]))
    } else {
        None
    }
}

/// How many of the verdicts named a usable registry entry.
pub open spec fn usable_count(verdicts: Seq<Result<String, UnresolvedReason>>) -> nat
    decreases verdicts.len(),
{
    if verdicts.len() == 0 {
        0
    } else {
        usable_count(verdicts.drop_last()) + if verdicts.last() is Ok { 1nat } else { 0nat }
    }
}

/// Verdict `k` named the entry `id`.
pub open spec fn names_at(verdicts: Seq<Result<String, UnresolvedReason>>, k: int, id: Seq<char>) -> bool {
    match verdicts[k] {
        Ok(e) => e@ == id,
        Err(_) => false,
    }
}

/// Some verdict named the entry `id`.
pub open spec fn names_entry(verdicts: Seq<Result<String, UnresolvedReason>>, id: Seq<char>) -> bool {
    exists|k: int| 0 <= k < verdicts.len() && #[trigger] names_at(verdicts, k, id)
}

/// The texts of a list of strings.
pub open spec fn entry_views(ids: Seq<String>) -> Seq<Seq<char>> {
    ids.map_values(|id: String| id@)
}

/// The registry entries the declarations of one package named: how many declarations named a
/// usable entry and which entries, each once and sorted; or, when none did, the reason the first
/// declaration reached nothing.
pub fn usable_entries(verdicts: &[Result<String, UnresolvedReason>]) -> (entries: Result<(usize, Vec<String>), UnresolvedReason>)
    requires
        verdicts@.len() > 0,
    ensures
        match entries {
            Ok((named, distinct)) => {
                &&& named == usable_count(verdicts@)
                &&& named > 0
                &&& strictly_ascending(entry_views(distinct@))
                &&& forall|id: Seq<char>| #[trigger] entry_views(distinct@).contains(id) <==> names_entry(verdicts@, id)
            },
            Err(reason) => usable_count(verdicts@) == 0 && verdicts@[0] == Err::<String, UnresolvedReason>(reason),
        },
{
    let mut keys: Vec<Vec<char>> = Vec::new();
    let mut named: usize = 0;
    let mut i: usize = 0;
    while i < verdicts.len()
        invariant
            i <= verdicts@.len(),
            named == usable_count(verdicts@.take(i as int)),
            named <= i,
            forall|id: Seq<char>| #[trigger] key_views(keys@).contains(id) <==> names_entry(verdicts@.take(i as int), id),
        decreases verdicts@.len() - i,
    {
        proof {
            assert(verdicts@.take(i + 1).drop_last() =~= verdicts@.take(i as int));
        }
        let ghost before = key_views(keys@);
        if let Ok(id) = &verdicts[i] {
            let key = chars_of(id.as_str());
            proof {
                crate::order::lemma_key_views_push(keys@, key);
            }
            keys.push(key);
            named = named + 1;
            proof {
                let now = key_views(keys@);
                assert(now =~= before.push(id@));
                assert forall|x: Seq<char>| #[trigger] now.contains(x) <==> names_entry(verdicts@.take(i + 1), x) by {
                    if now.contains(x) && x != id@ {
                        let y = choose|y: int| 0 <= y < now.len() && now[y] == x;
                        assert(before[y] == x);
                        assert(before.contains(x));
                        let k = choose|k: int| 0 <= k < i && #[trigger] names_at(verdicts@.take(i as int), k, x);
                        assert(verdicts@.take(i + 1)[k] == verdicts@.take(i as int)[k]);
                        assert(names_at(verdicts@.take(i + 1), k, x));
                    }
                    if x == id@ {
                        assert(now[now.len() - 1] == x);
                        assert(verdicts@.take(i + 1)[i as int] == verdicts@[i as int]);
                        assert(names_at(verdicts@.take(i + 1), i as int, x));
                    }
                    if names_entry(verdicts@.take(i + 1), x) && x != id@ {
                        let k = choose|k: int| 0 <= k < i + 1 && #[trigger] names_at(verdicts@.take(i + 1), k, x);
                        assert(k != i);
                        assert(verdicts@.take(i as int)[k] == verdicts@.take(i + 1)[k]);
                        assert(names_at(verdicts@.take(i as int), k, x));
                        assert(names_entry(verdicts@.take(i as int), x));
                        assert(before.contains(x));
                        let y = choose|y: int| 0 <= y < before.len() && before[y] == x;
                        assert(now[y] == x);
                    }
                }
            }
        } else {
            proof {
                assert forall|x: Seq<char>| #[trigger] key_views(keys@).contains(x) <==> names_entry(verdicts@.take(i + 1), x) by {
                    if names_entry(verdicts@.take(i + 1), x) {
                        let k = choose|k: int| 0 <= k < i + 1 && #[trigger] names_at(verdicts@.take(i + 1), k, x);
                        assert(k != i);
                        assert(verdicts@.take(i as int)[k] == verdicts@.take(i + 1)[k]);
                        assert(names_at(verdicts@.take(i as int), k, x));
                    }
                    if names_entry(verdicts@.take(i as int), x) {
                        let k = choose|k: int| 0 <= k < i && #[trigger] names_at(verdicts@.take(i as int), k, x);
                        assert(verdicts@.take(i + 1)[k] == verdicts@.take(i as int)[k]);
                        assert(names_at(verdicts@.take(i + 1), k, x));
                    }
                }
            }
        }
        i = i + 1;
    }
    proof {
        assert(verdicts@.take(verdicts@.len() as int) =~= verdicts@);
    }
    if named == 0 {
        proof {
            lemma_no_usable(verdicts@);
        }
        return match &verdicts[0] {
            Err(reason) => Err(*reason),
            Ok(_) => Err(UnresolvedReason::TargetManifestUnreadable),
        };
    }
    let distinct = sorted_unique(&keys);
    let mut out: Vec<String> = Vec::new();
    let mut d: usize = 0;
    while d < distinct.len()
        invariant
            d <= distinct@.len(),
            entry_views(out@) == key_views(distinct@).take(d as int),
        decreases distinct@.len() - d,
    {
        let ghost before = entry_views(out@);
        out.push(string_of(distinct[d].as_slice()));
        proof {
            assert(entry_views(out@) =~= before.push(distinct@[d as int]@));
            assert(key_views(distinct@).take(d + 1) =~= key_views(distinct@).take(d as int).push(
                key_views(distinct@)[d as int],
            ));
        }
        d = d + 1;
    }
    proof {
        assert(key_views(distinct@).take(d as int) =~= key_views(distinct@));
        assert forall|id: Seq<char>| #[trigger] entry_views(out@).contains(id) <==> names_entry(verdicts@, id) by {
            if names_entry(verdicts@, id) {
                assert(key_views(keys@).contains(id));
            }
        }
    }
    Ok((named, out))
}

/// No verdict is usable when none counts.
proof fn lemma_no_usable(verdicts: Seq<Result<String, UnresolvedReason>>)
    requires
        usable_count(verdicts) == 0,
    ensures
        forall|k: int| 0 <= k < verdicts.len() ==> (#[trigger] verdicts[k]) is Err,
    decreases verdicts.len(),
{
    if verdicts.len() > 0 {
        lemma_no_usable(verdicts.drop_last());
        assert forall|k: int| 0 <= k < verdicts.len() implies (#[trigger] verdicts[k]) is Err by {
            if k < verdicts.len() - 1 {
                assert(verdicts.drop_last()[k] == verdicts[k]);
            }
        }
    }
}

} // verus!
