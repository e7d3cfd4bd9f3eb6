//! What a contract scan produces, and the decisions made over it that need nothing but values:
//! which declared identities are ambiguous, and how fresh a stored link is.
use vstd::prelude::*;
use crate::order::{key_views, sorted_unique, strictly_ascending, text_lt};
use crate::text::{chars_eq, chars_of, str_eq, string_of};
use crate::vocab::{ContractFreshness, ContractLinkStatus, ContractResolutionMethod};
use super::declarations::Declaration;
use super::{
    Ambiguity, ContractRule, ManifestRefusal, ScanRefusal, SupportedForm, UnresolvedReason,
    UnsupportedForm,
};

verus! {

/// One link a scan recorded or re-observed.
///
/// For C1 and C3 `manifest` is the manifest read, `section` the manifest section and `identity`
/// the dependency key; for C2 they are the importing module's path, the package name the
/// specifier names, and the import specifier as written.
#[derive(Debug, Clone, PartialEq, Eq)]
pub struct RecordedLink {
    /// Which rule read it.
    pub rule: ContractRule,
    /// Repository-relative path of the manifest, or of the importing module for C2.
    pub manifest: String,
    /// Which manifest section the declaration sits in, or the package name for C2.
    pub section: String,
    /// The dependency key, or the import specifier for C2. Untrusted repository content.
    pub identity: String,
    /// The declared form.
    pub form: SupportedForm,
    /// The registry entry the link resolved through.
    pub registry_id: String,
    /// The repository id found at the declared path.
    pub target_repository_id: String,
    /// Which stated declaration it was drawn from.
    pub resolution_method: ContractResolutionMethod,
    /// Where in the manifest, as `line:line`. For C2, the importing module's own span.
    pub source_span: String,
    /// The semantic relation the declaration states: `DEPENDS_ON` for C1 and C3, `REFERENCES`
    /// for C2. Never an assertion.
    pub relation_semantics: &'static str,
    /// The local entity the declaration sits in, when the contract has one (C2 only).
    pub source_entity_id: Option<String>,
    /// The target entity's id in the neighbour's database, when it was indexed there.
    pub target_entity_id: Option<String>,
    /// The neighbour-relative path the specifier resolved to, when one was resolved.
    pub target_path: Option<String>,
    /// The version this repository asks for, when the form states one.
    pub expected_contract_version: Option<String>,
    /// The version the target's own manifest declares, when it was readable.
    pub observed_contract_version: Option<String>,
    /// How ambiguous the resolution was, when it was.
    pub ambiguity: Option<Ambiguity>,
    /// `true` when the row was inserted by this scan, `false` when it already existed.
    pub inserted: bool,
}

/// One supported declaration that reached no registered neighbour.
#[derive(Debug, Clone, PartialEq, Eq)]
pub struct UnresolvedDeclaration {
    /// Which rule read it.
    pub rule: ContractRule,
    /// Repository-relative path of the manifest.
    pub manifest: String,
    /// Which manifest section the declaration sits in.
    pub section: String,
    /// The dependency key. Untrusted repository content.
    pub identity: String,
    /// The declared form, which was fully understood.
    pub form: SupportedForm,
    /// Why it reached nothing.
    pub reason: UnresolvedReason,
}

/// One declaration whose form Nerve declined to read.
#[derive(Debug, Clone, PartialEq, Eq)]
pub struct UnsupportedDeclaration {
    /// Which rule read it.
    pub rule: ContractRule,
    /// Repository-relative path of the manifest.
    pub manifest: String,
    /// Which manifest section the declaration sits in.
    pub section: String,
    /// The dependency key, or the `workspaces` entry's position. Untrusted repository content.
    pub identity: String,
    /// The form Nerve declined, named.
    pub form: UnsupportedForm,
}

/// Everything one scan read, recorded and refused.
#[derive(Debug, Clone, PartialEq, Eq)]
pub struct ContractScan {
    /// The local state every link in this scan was resolved at.
    pub source_state: String,
    /// How many manifests were read to the end.
    pub manifests_read: usize,
    /// How many declarations were seen, supported or not.
    pub declarations: usize,
    /// Every link recorded or re-observed, ordered by manifest then section then identity.
    pub links: Vec<RecordedLink>,
    /// Every supported declaration that reached no registered neighbour.
    pub unresolved: Vec<UnresolvedDeclaration>,
    /// Every declaration whose form was declined, with the form named.
    pub unsupported: Vec<UnsupportedDeclaration>,
    /// Every manifest, and every bound, that stopped the scan.
    pub refusals: Vec<(String, ManifestRefusal)>,
}

impl Default for ContractScan {
    fn default() -> (scan: ContractScan)
        ensures
            scan.source_state@.len() == 0,
            scan.manifests_read == 0,
            scan.declarations == 0,
            scan.links@.len() == 0,
            scan.unresolved@.len() == 0,
            scan.unsupported@.len() == 0,
            scan.refusals@.len() == 0,
    {
        ContractScan {
            source_state: String::new(),
            manifests_read: 0,
            declarations: 0,
            links: Vec::new(),
            unresolved: Vec::new(),
            unsupported: Vec::new(),
            refusals: Vec::new(),
        }
    }
}

/// How many links in `links` were inserted (or, with `inserted` false, re-observed).
pub open spec fn count_inserted(links: Seq<RecordedLink>, inserted: bool) -> nat
    decreases links.len(),
{
    if links.len() == 0 {
        0
    } else {
        count_inserted(links.drop_last(), inserted) + if links.last().inserted == inserted {
            1nat
        } else {
            0nat
        }
    }
}

/// How many declined declarations name `form`.
pub open spec fn count_unsupported(rows: Seq<UnsupportedDeclaration>, form: UnsupportedForm) -> nat
    decreases rows.len(),
{
    if rows.len() == 0 {
        0
    } else {
        count_unsupported(rows.drop_last(), form) + if rows.last().form == form { 1nat } else { 0nat }
    }
}

/// How many unresolved declarations give `reason`.
pub open spec fn count_unresolved(rows: Seq<UnresolvedDeclaration>, reason: UnresolvedReason) -> nat
    decreases rows.len(),
{
    if rows.len() == 0 {
        0
    } else {
        count_unresolved(rows.drop_last(), reason) + if rows.last().reason == reason {
            1nat
        } else {
            0nat
        }
    }
}

/// The tally of declined forms over the first `k` forms of [`UnsupportedForm::ALL`]: each form
/// that occurs, in that order, with how often.
pub open spec fn unsupported_rows(rows: Seq<UnsupportedDeclaration>, k: int) -> Seq<(UnsupportedForm, nat)>
    decreases k,
{
    if k <= 0 {
        Seq::empty()
    } else {
        let form = UnsupportedForm::ALL[k - 1];
        let n = count_unsupported(rows, form);
        if n > 0 {
            unsupported_rows(rows, k - 1).push((form, n))
        } else {
            unsupported_rows(rows, k - 1)
        }
    }
}

/// The tally of unresolved reasons over the first `k` reasons of [`UnresolvedReason::ALL`].
pub open spec fn unresolved_rows(rows: Seq<UnresolvedDeclaration>, k: int) -> Seq<(UnresolvedReason, nat)>
    decreases k,
{
    if k <= 0 {
        Seq::empty()
    } else {
        let reason = UnresolvedReason::ALL[k - 1];
        let n = count_unresolved(rows, reason);
        if n > 0 {
            unresolved_rows(rows, k - 1).push((reason, n))
        } else {
            unresolved_rows(rows, k - 1)
        }
    }
}

/// The positions of the entries that satisfy a rule test, in order.
pub open spec fn positions_of_rule(rules: Seq<ContractRule>, rule: ContractRule) -> Seq<int>
    decreases rules.len(),
{
    if rules.len() == 0 {
        Seq::empty()
    } else if rules.last() == rule {
        positions_of_rule(rules.drop_last(), rule).push(rules.len() - 1)
    } else {
        positions_of_rule(rules.drop_last(), rule)
    }
}

} // verus!

verus! {

/// The rules of some links, in order.
pub open spec fn link_rules(links: Seq<RecordedLink>) -> Seq<ContractRule> {
    links.map_values(|l: RecordedLink| l.rule)
}

/// The rules of some unresolved declarations, in order.
pub open spec fn unresolved_rules(rows: Seq<UnresolvedDeclaration>) -> Seq<ContractRule> {
    rows.map_values(|r: UnresolvedDeclaration| r.rule)
}

/// The rules of some declined declarations, in order.
pub open spec fn unsupported_rules(rows: Seq<UnsupportedDeclaration>) -> Seq<ContractRule> {
    rows.map_values(|r: UnsupportedDeclaration| r.rule)
}

impl ContractScan {
    /// How many links this scan inserted.
    pub fn inserted(&self) -> (n: usize)
        ensures
            n == count_inserted(self.links@, true),
    {
        self.count_links(true)
    }

    /// How many links this scan found already stored and re-observed.
    pub fn unchanged(&self) -> (n: usize)
        ensures
            n == count_inserted(self.links@, false),
    {
        self.count_links(false)
    }

    fn count_links(&self, inserted: bool) -> (n: usize)
        ensures
            n == count_inserted(self.links@, inserted),
    {
        let mut n: usize = 0;
        let mut i: usize = 0;
        assert(self.links@.take(0) =~= Seq::<RecordedLink>::empty());
        while i < self.links.len()
            invariant
                i <= self.links.len(),
                n <= i,
                n == count_inserted(self.links@.take(i as int), inserted),
            decreases self.links.len() - i,
        {
            assert(self.links@.take(i + 1).drop_last() =~= self.links@.take(i as int));
            if self.links[i].inserted == inserted {
                n = n + 1;
            }
            i = i + 1;
        }
        assert(self.links@.take(self.links.len() as int) =~= self.links@);
        n
    }

    /// Declined forms and how many of each, in the forms' own order, each form that occurs once.
    pub fn unsupported_tally(&self) -> (tally: Vec<(UnsupportedForm, usize)>)
        ensures
            tally@.map_values(|r: (UnsupportedForm, usize)| (r.0, r.1 as nat))
                == unsupported_rows(self.unsupported@, 23),
    {
        let mut tally: Vec<(UnsupportedForm, usize)> = Vec::new();
        let mut k: usize = 0;
        while k < 23
            invariant
                k <= 23,
                tally@.map_values(|r: (UnsupportedForm, usize)| (r.0, r.1 as nat))
                    == unsupported_rows(self.unsupported@, k as int),
            decreases 23 - k,
        {
            let form = UnsupportedForm::ALL[k];
            let mut n: usize = 0;
            let mut i: usize = 0;
            assert(self.unsupported@.take(0) =~= Seq::<UnsupportedDeclaration>::empty());
            while i < self.unsupported.len()
                invariant
                    i <= self.unsupported.len(),
                    n <= i,
                    n == count_unsupported(self.unsupported@.take(i as int), form),
                decreases self.unsupported.len() - i,
            {
                assert(self.unsupported@.take(i + 1).drop_last() =~= self.unsupported@.take(i as int));
                if self.unsupported[i].form == form {
                    n = n + 1;
                }
                i = i + 1;
            }
            assert(self.unsupported@.take(self.unsupported.len() as int) =~= self.unsupported@);
            let ghost before = tally@.map_values(|r: (UnsupportedForm, usize)| (r.0, r.1 as nat));
            if n > 0 {
                tally.push((form, n));
                assert(tally@.map_values(|r: (UnsupportedForm, usize)| (r.0, r.1 as nat))
                    =~= before.push((form, n as nat)));
            }
            k = k + 1;
        }
        tally
    }

    /// Unresolved reasons and how many of each, in the reasons' own order, each reason that
    /// occurs once.
    pub fn unresolved_tally(&self) -> (tally: Vec<(UnresolvedReason, usize)>)
        ensures
            tally@.map_values(|r: (UnresolvedReason, usize)| (r.0, r.1 as nat))
                == unresolved_rows(self.unresolved@, 10),
    {
        let mut tally: Vec<(UnresolvedReason, usize)> = Vec::new();
        let mut k: usize = 0;
        while k < 10
            invariant
                k <= 10,
                tally@.map_values(|r: (UnresolvedReason, usize)| (r.0, r.1 as nat))
                    == unresolved_rows(self.unresolved@, k as int),
            decreases 10 - k,
        {
            let reason = UnresolvedReason::ALL[k];
            let mut n: usize = 0;
            let mut i: usize = 0;
            assert(self.unresolved@.take(0) =~= Seq::<UnresolvedDeclaration>::empty());
            while i < self.unresolved.len()
                invariant
                    i <= self.unresolved.len(),
                    n <= i,
                    n == count_unresolved(self.unresolved@.take(i as int), reason),
                decreases self.unresolved.len() - i,
            {
                assert(self.unresolved@.take(i + 1).drop_last() =~= self.unresolved@.take(i as int));
                if self.unresolved[i].reason == reason {
                    n = n + 1;
                }
                i = i + 1;
            }
            assert(self.unresolved@.take(self.unresolved.len() as int) =~= self.unresolved@);
            let ghost before = tally@.map_values(|r: (UnresolvedReason, usize)| (r.0, r.1 as nat));
            if n > 0 {
                tally.push((reason, n));
                assert(tally@.map_values(|r: (UnresolvedReason, usize)| (r.0, r.1 as nat))
                    =~= before.push((reason, n as nat)));
            }
            k = k + 1;
        }
        tally
    }

    /// Every link one rule produced, in order. Precision is measured per rule and never summed.
    pub fn links_of(&self, rule: ContractRule) -> (links: Vec<&RecordedLink>)
        ensures
            links@.len() == positions_of_rule(link_rules(self.links@), rule).len(),
            forall|k: int| 0 <= k < links@.len() ==> *links@[k]
                == self.links@[positions_of_rule(link_rules(self.links@), rule)[k]],
    {
        let ghost rules = link_rules(self.links@);
        let mut out: Vec<&RecordedLink> = Vec::new();
        let mut i: usize = 0;
        assert(rules.take(0) =~= Seq::<ContractRule>::empty());
        while i < self.links.len()
            invariant
                i <= self.links.len(),
                rules == link_rules(self.links@),
                out@.len() == positions_of_rule(rules.take(i as int), rule).len(),
                forall|k: int| 0 <= k < out@.len() ==> *out@[k]
                    == self.links@[positions_of_rule(rules.take(i as int), rule)[k]],
                forall|k: int| 0 <= k < out@.len() ==> 0 <= #[trigger] positions_of_rule(rules.take(i as int), rule)[k] < i,
            decreases self.links.len() - i,
        {
            assert(rules.take(i + 1).drop_last() =~= rules.take(i as int));
            assert(rules.take(i + 1).last() == self.links@[i as int].rule);
            if self.links[i].rule == rule {
                out.push(&self.links[i]);
            }
            i = i + 1;
        }
        assert(rules.take(self.links.len() as int) =~= rules);
        out
    }

    /// Every unresolved declaration one rule produced, in order.
    pub fn unresolved_of(&self, rule: ContractRule) -> (rows: Vec<&UnresolvedDeclaration>)
        ensures
            rows@.len() == positions_of_rule(unresolved_rules(self.unresolved@), rule).len(),
            forall|k: int| 0 <= k < rows@.len() ==> *rows@[k]
                == self.unresolved@[positions_of_rule(unresolved_rules(self.unresolved@), rule)[k]],
    {
        let ghost rules = unresolved_rules(self.unresolved@);
        let mut out: Vec<&UnresolvedDeclaration> = Vec::new();
        let mut i: usize = 0;
        assert(rules.take(0) =~= Seq::<ContractRule>::empty());
        while i < self.unresolved.len()
            invariant
                i <= self.unresolved.len(),
                rules == unresolved_rules(self.unresolved@),
                out@.len() == positions_of_rule(rules.take(i as int), rule).len(),
                forall|k: int| 0 <= k < out@.len() ==> *out@[k]
                    == self.unresolved@[positions_of_rule(rules.take(i as int), rule)[k]],
                forall|k: int| 0 <= k < out@.len() ==> 0 <= #[trigger] positions_of_rule(rules.take(i as int), rule)[k] < i,
            decreases self.unresolved.len() - i,
        {
            assert(rules.take(i + 1).drop_last() =~= rules.take(i as int));
            assert(rules.take(i + 1).last() == self.unresolved@[i as int].rule);
            if self.unresolved[i].rule == rule {
                out.push(&self.unresolved[i]);
            }
            i = i + 1;
        }
        assert(rules.take(self.unresolved.len() as int) =~= rules);
        out
    }

    /// Every declined declaration one rule produced, in order.
    pub fn unsupported_of(&self, rule: ContractRule) -> (rows: Vec<&UnsupportedDeclaration>)
        ensures
            rows@.len() == positions_of_rule(unsupported_rules(self.unsupported@), rule).len(),
            forall|k: int| 0 <= k < rows@.len() ==> *rows@[k]
                == self.unsupported@[positions_of_rule(unsupported_rules(self.unsupported@), rule)[k]],
    {
        let ghost rules = unsupported_rules(self.unsupported@);
        let mut out: Vec<&UnsupportedDeclaration> = Vec::new();
        let mut i: usize = 0;
        assert(rules.take(0) =~= Seq::<ContractRule>::empty());
        while i < self.unsupported.len()
            invariant
                i <= self.unsupported.len(),
                rules == unsupported_rules(self.unsupported@),
                out@.len() == positions_of_rule(rules.take(i as int), rule).len(),
                forall|k: int| 0 <= k < out@.len() ==> *out@[k]
                    == self.unsupported@[positions_of_rule(rules.take(i as int), rule)[k]],
                forall|k: int| 0 <= k < out@.len() ==> 0 <= #[trigger] positions_of_rule(rules.take(i as int), rule)[k] < i,
            decreases self.unsupported.len() - i,
        {
            assert(rules.take(i + 1).drop_last() =~= rules.take(i as int));
            assert(rules.take(i + 1).last() == self.unsupported@[i as int].rule);
            if self.unsupported[i].rule == rule {
                out.push(&self.unsupported[i]);
            }
            i = i + 1;
        }
        assert(rules.take(self.unsupported.len() as int) =~= rules);
        out
    }
}

} // verus!

verus! {

/// The outcome of a scan: what it read, or the reason it read nothing.
#[derive(Debug, Clone, PartialEq, Eq)]
pub enum ScanOutcome {
    /// The scan ran, and this is what it found.
    Done(Box<ContractScan>),
    /// The scan refused before reading anything.
    Refused(ScanRefusal),
}

// ---- ambiguity ---------------------------------------------------------------------------------

/// How many resolved declarations have this identity.
pub open spec fn occurrences(resolved: Seq<(Declaration, String)>, identity: Seq<char>) -> nat
    decreases resolved.len(),
{
    if resolved.len() == 0 {
        0
    } else {
        occurrences(resolved.drop_last(), identity) + if resolved.last().0.identity@ == identity {
            1nat
        } else {
            0nat
        }
    }
}

/// Whether every declaration of this identity resolved through the same registry entry.
pub open spec fn targets_agree(resolved: Seq<(Declaration, String)>, identity: Seq<char>) -> bool {
    forall|i: int, j: int|
        0 <= i < resolved.len() && 0 <= j < resolved.len() && resolved[i].0.identity@ == identity
            && resolved[j].0.identity@ == identity ==> (#[trigger] resolved[i]).1@ == (
        #[trigger] resolved[j]).1@
}

/// The ambiguity of an identity declared more than once.
pub open spec fn ambiguity_of(resolved: Seq<(Declaration, String)>, identity: Seq<char>) -> Ambiguity {
    if targets_agree(resolved, identity) {
        Ambiguity::DeclaredMoreThanOnce
    } else {
        Ambiguity::ConflictingTargets
    }
}

/// The identities of the resolved declarations, as character lists.
pub open spec fn identities(resolved: Seq<(Declaration, String)>) -> Seq<Seq<char>> {
    resolved.map_values(|r: (Declaration, String)| r.0.identity@)
}

/// Which identities were declared more than once, and whether the declarations agree: one entry
/// per such identity, ascending by identity, `declared_more_than_once` when every declaration of
/// it resolved through the same registry entry and `conflicting_targets` otherwise.
pub fn ambiguity_by_identity(resolved: &[(Declaration, String)]) -> (out: Vec<(String, Ambiguity)>)
    ensures
        strictly_ascending(out@.map_values(|r: (String, Ambiguity)| r.0@)),
        forall|k: int| 0 <= k < out@.len() ==> occurrences(resolved@, (#[trigger] out@[k]).0@) >= 2
            && out@[k].1 == ambiguity_of(resolved@, out@[k].0@),
        forall|id: Seq<char>| occurrences(resolved@, id) >= 2 ==> exists|k: int|
            0 <= k < out@.len() && (#[trigger] out@[k]).0@ == id,
{
    let mut keys: Vec<Vec<char>> = Vec::new();
    let mut i: usize = 0;
    while i < resolved.len()
        invariant
            i <= resolved.len(),
            key_views(keys@) == identities(resolved@).take(i as int),
        decreases resolved.len() - i,
    {
        let key = chars_of(resolved[i].0.identity.as_str());
        proof {
            crate::order::lemma_key_views_push(keys@, key);
        }
        keys.push(key);
        assert(identities(resolved@).take(i + 1) =~= identities(resolved@).take(i as int).push(
            resolved@[i as int].0.identity@,
        ));
        i = i + 1;
    }
    assert(identities(resolved@).take(resolved.len() as int) =~= identities(resolved@));
    let distinct = sorted_unique(&keys);
    let ghost dv = key_views(distinct@);
    let mut out: Vec<(String, Ambiguity)> = Vec::new();
    let ghost mut picked: Seq<int> = Seq::empty();
    let mut d: usize = 0;
    while d < distinct.len()
        invariant
            d <= distinct.len(),
            dv == key_views(distinct@),
            picked.len() == out@.len(),
            forall|k: int| 0 <= k < picked.len() ==> 0 <= #[trigger] picked[k] < d
                && out@[k].0@ == dv[picked[k]],
            forall|a: int, b: int| 0 <= a < b < picked.len() ==> #[trigger] picked[a] < #[trigger] picked[b],
            forall|k: int| 0 <= k < out@.len() ==> occurrences(resolved@, (#[trigger] out@[k]).0@) >= 2
                && out@[k].1 == ambiguity_of(resolved@, out@[k].0@),
            forall|x: int| 0 <= x < d && occurrences(resolved@, #[trigger] dv[x]) >= 2
                ==> exists|k: int| 0 <= k < picked.len() && picked[k] == x,
        decreases distinct.len() - d,
    {
        let id = &distinct[d];
        assert(dv[d as int] == id@);
        let (count, agree) = tally_identity(resolved, id.as_slice());
        if count >= 2 {
            let verdict = if agree { Ambiguity::DeclaredMoreThanOnce } else { Ambiguity::ConflictingTargets };
            let ghost before = picked;
            out.push((string_of(id.as_slice()), verdict));
            proof {
                picked = picked.push(d as int);
                assert forall|x: int| 0 <= x < d + 1 && occurrences(resolved@, #[trigger] dv[x]) >= 2
                    implies exists|k: int| 0 <= k < picked.len() && picked[k] == x by {
                    if x < d {
                        let k = choose|k: int| 0 <= k < before.len() && before[k] == x;
                        assert(picked[k] == x);
                    } else {
                        assert(picked[before.len() as int] == x);
                    }
                }
            }
        }
        d = d + 1;
    }
    proof {
        let keys_out = out@.map_values(|r: (String, Ambiguity)| r.0@);
        assert forall|a: int, b: int| 0 <= a < b < keys_out.len() implies text_lt(keys_out[a], keys_out[b]) by {
            assert(picked[a] < picked[b]);
        }
        assert forall|id: Seq<char>| occurrences(resolved@, id) >= 2 implies exists|k: int|
            0 <= k < out@.len() && (#[trigger] out@[k]).0@ == id by {
            lemma_occurring_identity(resolved@, id);
            let j = choose|j: int| 0 <= j < resolved@.len() && resolved@[j].0.identity@ == id;
            assert(key_views(keys@)[j] == id);
            assert(dv.contains(id));
            let x = choose|x: int| 0 <= x < dv.len() && dv[x] == id;
            let k = choose|k: int| 0 <= k < picked.len() && picked[k] == x;
            assert(out@[k].0@ == id);
        }
    }
    out
}

/// An identity that occurs is the identity of some resolved declaration.
proof fn lemma_occurring_identity(resolved: Seq<(Declaration, String)>, identity: Seq<char>)
    requires
        occurrences(resolved, identity) > 0,
    ensures
        exists|j: int| 0 <= j < resolved.len() && resolved[j].0.identity@ == identity,
    decreases resolved.len(),
{
    if resolved.last().0.identity@ != identity {
        lemma_occurring_identity(resolved.drop_last(), identity);
        let j = choose|j: int| 0 <= j < resolved.len() - 1 && resolved.drop_last()[j].0.identity@ == identity;
        assert(resolved[j] == resolved.drop_last()[j]);
    }
}

/// How many resolved declarations have this identity, and whether they all resolved through
/// the same registry entry.
fn tally_identity(resolved: &[(Declaration, String)], id: &[char]) -> (out: (usize, bool))
    ensures
        out.0 == occurrences(resolved@, id@),
        out.0 >= 1 ==> (out.1 == targets_agree(resolved@, id@)),
{
    let mut count: usize = 0;
    let mut first: usize = 0;
    let mut i: usize = 0;
    assert(resolved@.take(0) =~= Seq::<(Declaration, String)>::empty());
    while i < resolved.len()
        invariant
            i <= resolved.len(),
            count <= i,
            count == occurrences(resolved@.take(i as int), id@),
            count > 0 ==> first < resolved.len() && resolved@[first as int].0.identity@ == id@,
        decreases resolved.len() - i,
    {
        assert(resolved@.take(i + 1).drop_last() =~= resolved@.take(i as int));
        let here = chars_of(resolved[i].0.identity.as_str());
        if chars_eq(here.as_slice(), id) {
            if count == 0 {
                first = i;
            }
            count = count + 1;
        }
        i = i + 1;
    }
    assert(resolved@.take(resolved.len() as int) =~= resolved@);
    if count == 0 {
        return (0, true);
    }
    let mut agree = true;
    let mut j: usize = 0;
    while j < resolved.len()
        invariant
            j <= resolved.len(),
            first < resolved.len(),
            resolved@[first as int].0.identity@ == id@,
            agree <==> forall|a: int| 0 <= a < j && (#[trigger] resolved@[a]).0.identity@ == id@
                ==> resolved@[a].1@ == resolved@[first as int].1@,
        decreases resolved.len() - j,
    {
        let here = chars_of(resolved[j].0.identity.as_str());
        if chars_eq(here.as_slice(), id) && !str_eq(resolved[j].1.as_str(), resolved[first].1.as_str()) {
            agree = false;
        }
        j = j + 1;
    }
    proof {
        if agree {
            assert forall|a: int, b: int|
                0 <= a < resolved@.len() && 0 <= b < resolved@.len() && resolved@[a].0.identity@ == id@
                    && resolved@[b].0.identity@ == id@ implies (#[trigger] resolved@[a]).1@ == (
                #[trigger] resolved@[b]).1@ by {
                assert(resolved@[a].1@ == resolved@[first as int].1@);
                assert(resolved@[b].1@ == resolved@[first as int].1@);
            }
        } else {
            let a = choose|a: int| 0 <= a < resolved@.len() && (#[trigger] resolved@[a]).0.identity@ == id@
                && resolved@[a].1@ != resolved@[first as int].1@;
            assert(!targets_agree(resolved@, id@)) by {
                assert(resolved@[a].1@ != resolved@[first as int].1@);
            }
        }
    }
    (count, agree)
}

} // verus!

verus! {

// ---- freshness ---------------------------------------------------------------------------------

/// What a stored contract link recorded, as far as its freshness depends on it.
#[derive(Debug, Clone, PartialEq, Eq)]
pub struct LinkRecord {
    /// Whether the link is active or withdrawn.
    pub status: ContractLinkStatus,
    /// The local state the link was resolved at.
    pub source_state_at_resolution: String,
    /// The neighbour's state the link was resolved at, when it had one.
    pub target_state_at_resolution: Option<String>,
    /// The target entity's id in the neighbour's database, when it was indexed there.
    pub target_entity_id: Option<String>,
    /// The neighbour-relative path the link resolved to, when it resolved to one.
    pub target_path_snapshot: Option<String>,
}

/// The characters of an optional string.
pub open spec fn opt_text(s: Option<String>) -> Option<Seq<char>> {
    match s {
        Some(t) => Some(t@),
        None => None,
    }
}

/// What a stored link is right now.
///
/// The registry's availability verdict wins whenever it has one; then a withdrawn link is
/// deleted, a link whose manifest is gone has lost its file, and a link that resolved to a path
/// with no entity behind it is partially indexed; only then are the two recorded states compared
/// with the two current ones.
pub open spec fn freshness_of(
    link: LinkRecord,
    availability: Option<ContractFreshness>,
    target_state: Option<Seq<char>>,
    source_state: Seq<char>,
    source_manifest_present: bool,
) -> Option<ContractFreshness> {
    if availability is Some {
        availability
    } else if link.status == ContractLinkStatus::Withdrawn {
        Some(ContractFreshness::ContractDeleted)
    } else if !source_manifest_present {
        Some(ContractFreshness::ContractFileMissing)
    } else if link.target_path_snapshot is Some && link.target_entity_id is None {
        Some(ContractFreshness::TargetPartiallyIndexed)
    } else {
        let source_changed = link.source_state_at_resolution@ != source_state;
        let target_changed = opt_text(link.target_state_at_resolution) != target_state;
        if source_changed && target_changed {
            Some(ContractFreshness::BothChanged)
        } else if source_changed {
            Some(ContractFreshness::SourceChanged)
        } else if target_changed {
            Some(ContractFreshness::TargetChanged)
        } else {
            None
        }
    }
}

/// What a stored link is right now, given the registry's availability verdict for its entry
/// (`None` when the entry is usable and the verdict has nothing to say), the neighbour's current
/// state, this repository's current state, and whether the manifest it was read from is still
/// there.
///
/// `contract_version_mismatch` is not produced here: deciding whether one version satisfies a
/// range is range resolution, and the two versions are recorded on the link instead.
pub fn link_freshness(
    link: &LinkRecord,
    availability: Option<ContractFreshness>,
    target_state: Option<&str>,
    source_state: &str,
    source_manifest_present: bool,
) -> (freshness: Option<ContractFreshness>)
    ensures
        freshness == freshness_of(
            *link,
            availability,
            match target_state {
                Some(t) => Some(t@),
                None => None,
            },
            source_state@,
            source_manifest_present,
        ),
{
    if availability.is_some() {
        return availability;
    }
    if link.status == ContractLinkStatus::Withdrawn {
        return Some(ContractFreshness::ContractDeleted);
    }
    if !source_manifest_present {
        return Some(ContractFreshness::ContractFileMissing);
    }
    if link.target_path_snapshot.is_some() && link.target_entity_id.is_none() {
        return Some(ContractFreshness::TargetPartiallyIndexed);
    }
    let source_changed = !str_eq(link.source_state_at_resolution.as_str(), source_state);
    let target_changed = match (&link.target_state_at_resolution, target_state) {
        (Some(recorded), Some(current)) => !str_eq(recorded.as_str(), current),
        (None, None) => false,
        _ => true,
    };
    if source_changed && target_changed {
        Some(ContractFreshness::BothChanged)
    } else if source_changed {
        Some(ContractFreshness::SourceChanged)
    } else if target_changed {
        Some(ContractFreshness::TargetChanged)
    } else {
        None
    }
}

} // verus!
