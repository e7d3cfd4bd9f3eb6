//! The decisions a contract scan makes for each manifest it reads, between the reads of the
//! disk and the registry and the writes of the links: which rows a declaration becomes, what C2's
//! gate learns of it, and when the link budget stops the scan.
use vstd::prelude::*;
use crate::text::{decimal, decimal_string, push_str, string_of_str};
use super::declarations::{Declaration, DeclarationOutcome, DeclaredPath, OutcomeView, PathView};
use super::scan::{RecordedLink, UnresolvedDeclaration, UnsupportedDeclaration};
use crate::model::{json_object_text, object_text, JsonScalar, ScalarView};
use super::{Ambiguity, ContractRule, ManifestRefusal, SupportedForm, UnresolvedReason, UnsupportedForm, MAX_LINKS_PER_REPOSITORY, REPOSITORY_DEPENDENCY_SEMANTICS};

verus! {

/// What the scan does next with one declaration of a manifest.
pub enum DeclarationStep {
    /// Record the declaration as declined, with its form named.
    Declined(UnsupportedDeclaration),
    /// Probe the path the declaration states, relative to the manifest's directory.
    ProbeStated { form: SupportedForm, path: String },
    /// Find the workspace member the declaration's key names, then probe its root.
    FindMember { form: SupportedForm },
}

/// `row` records `declaration` of the manifest at `manifest`, read under `rule`, as declined
/// in the form `form`.
pub open spec fn declined_row(
    row: UnsupportedDeclaration,
    rule: ContractRule,
    manifest: Seq<char>,
    declaration: Declaration,
    form: UnsupportedForm,
) -> bool {
    &&& row.rule == rule
    &&& row.manifest@ == manifest
    &&& row.section@ == declaration.section@
    &&& row.identity@ == declaration.identity@
    &&& row.form == form
}

/// The next step for one declaration: a declined form is recorded as such; a supported one is
/// probed at the path it states, or at the root of the workspace member it names.
pub fn route_declaration(rule: ContractRule, manifest: &str, declaration: &Declaration) -> (step: DeclarationStep)
    ensures
        match declaration.outcome@ {
            OutcomeView::Unsupported(form) => (step matches DeclarationStep::Declined(row)
                && declined_row(row, rule, manifest@, *declaration, form)),
            OutcomeView::Supported { form, path, .. } => match path {
                PathView::Stated(p) => (step matches DeclarationStep::ProbeStated { form: f, path: q }
                    && f == form && q@ == p),
                PathView::WorkspaceMember => (step matches DeclarationStep::FindMember { form: f } && f == form),
            },
        },
{
    match &declaration.outcome {
        DeclarationOutcome::Unsupported(form) => DeclarationStep::Declined(UnsupportedDeclaration {
            rule,
            manifest: string_of_str(manifest),
            section: string_of_str(declaration.section.as_str()),
            identity: string_of_str(declaration.identity.as_str()),
            form: *form,
        }),
        DeclarationOutcome::Supported { form, path, .. } => match path {
            DeclaredPath::Stated(p) => DeclarationStep::ProbeStated { form: *form, path: string_of_str(p.as_str()) },
            DeclaredPath::WorkspaceMember => DeclarationStep::FindMember { form: *form },
        },
    }
}

/// The rows for the glob entries of a manifest's `workspaces`, which are never expanded: one
/// declined row each, named by its position among the globs.
pub fn workspace_glob_rows(rule: ContractRule, manifest: &str, count: usize) -> (rows: Vec<UnsupportedDeclaration>)
    ensures
        rows@.len() == count,
        forall|k: int| 0 <= k < count ==> {
            let row = #[trigger] rows@[k];
            &&& row.rule == rule
            &&& row.manifest@ == manifest@
            &&& row.section@ == "workspaces"@
            &&& row.identity@ == "workspaces["@ + decimal(k as nat) + "]"@
            &&& row.form == UnsupportedForm::NpmWorkspaceGlobPattern
        },
{
    let mut rows: Vec<UnsupportedDeclaration> = Vec::new();
    let mut k: usize = 0;
    while k < count
        invariant
            k <= count,
            rows@.len() == k,
            forall|j: int| 0 <= j < k ==> {
                let row = #[trigger] rows@[j];
                &&& row.rule == rule
                &&& row.manifest@ == manifest@
                &&& row.section@ == "workspaces"@
                &&& row.identity@ == "workspaces["@ + decimal(j as nat) + "]"@
                &&& row.form == UnsupportedForm::NpmWorkspaceGlobPattern
            },
        decreases count - k,
    {
        let mut identity = string_of_str("workspaces[");
        let index = decimal_string(k as u64);
        push_str(&mut identity, index.as_str());
        push_str(&mut identity, "]");
        rows.push(UnsupportedDeclaration {
            rule,
            manifest: string_of_str(manifest),
            section: string_of_str("workspaces"),
            identity,
            form: UnsupportedForm::NpmWorkspaceGlobPattern,
        });
        k = k + 1;
    }
    rows
}

/// One C1 dependency as C2's gate sees it: its key, where it was declared, and what resolving
/// its target gave.
pub struct NpmDependency {
    /// The dependency key.
    pub key: String,
    /// Repository-relative path of the manifest.
    pub manifest: String,
    /// The section the key sits in.
    pub section: String,
    /// The registry entry the target resolved to, or why it did not.
    pub verdict: Result<String, UnresolvedReason>,
}

/// A verdict with its text as characters.
pub open spec fn verdict_view(verdict: Result<String, UnresolvedReason>) -> Result<Seq<char>, UnresolvedReason> {
    match verdict {
        Ok(id) => Ok(id@),
        Err(reason) => Err(reason),
    }
}

/// What one supported declaration settled into, once its target was looked for.
pub struct Settlement {
    /// The unresolved row, when the verdict is a reason.
    pub unresolved: Option<UnresolvedDeclaration>,
    /// The registry entry a link is to be written to, when the verdict is one.
    pub resolved: Option<String>,
    /// What C2's gate learns: every C1 dependency, resolved or not; nothing of another rule.
    pub dependency: Option<NpmDependency>,
}

/// Settle one supported declaration of form `form` on the verdict its target received. A
/// workspace member nobody declares comes here as [`UnresolvedReason::WorkspaceMemberNotDeclared`].
pub fn settle_declaration(
    rule: ContractRule,
    manifest: &str,
    declaration: &Declaration,
    form: SupportedForm,
    verdict: &Result<String, UnresolvedReason>,
) -> (settled: Settlement)
    ensures
        match verdict {
            Ok(id) => settled.unresolved is None && (settled.resolved matches Some(r) && r@ == id@),
            Err(reason) => settled.resolved is None && (settled.unresolved matches Some(row)
                && row.rule == rule && row.manifest@ == manifest@ && row.section@ == declaration.section@
                && row.identity@ == declaration.identity@ && row.form == form && row.reason == *reason),
        },
        rule == ContractRule::NpmLocalDependency ==> (settled.dependency matches Some(d)
            && d.key@ == declaration.identity@ && d.manifest@ == manifest@ && d.section@ == declaration.section@
            && verdict_view(d.verdict) == verdict_view(*verdict)),
        rule != ContractRule::NpmLocalDependency ==> settled.dependency is None,
{
    let dependency = if rule == ContractRule::NpmLocalDependency {
        let copied: Result<String, UnresolvedReason> = match verdict {
            Ok(id) => Ok(string_of_str(id.as_str())),
            Err(reason) => Err(*reason),
        };
        Some(NpmDependency {
            key: string_of_str(declaration.identity.as_str()),
            manifest: string_of_str(manifest),
            section: string_of_str(declaration.section.as_str()),
            verdict: copied,
        })
    } else {
        None
    };
    match verdict {
        Ok(id) => Settlement { unresolved: None, resolved: Some(string_of_str(id.as_str())), dependency },
        Err(reason) => Settlement {
            unresolved: Some(UnresolvedDeclaration {
                rule,
                manifest: string_of_str(manifest),
                section: string_of_str(declaration.section.as_str()),
                identity: string_of_str(declaration.identity.as_str()),
                form,
                reason: *reason,
            }),
            resolved: None,
            dependency,
        },
    }
}

/// Whether the next resolved declaration gets its link written.
#[derive(Debug, PartialEq, Eq, Structural)]
pub enum BudgetStep {
    /// Write the link.
    Write,
    /// The repository holds its [`MAX_LINKS_PER_REPOSITORY`] links: stop writing for this
    /// manifest, recording the exhausted budget unless the scan already has.
    Stop { record_refusal: bool },
}

/// The link budget's verdict, given the links the repository holds and the refusals recorded
/// so far. The exhausted budget is recorded once per scan.
pub fn budget_step(budget: usize, refusals: &[(String, ManifestRefusal)]) -> (step: BudgetStep)
    ensures
        budget < MAX_LINKS_PER_REPOSITORY ==> step == BudgetStep::Write,
        budget >= MAX_LINKS_PER_REPOSITORY ==> step == (BudgetStep::Stop {
            record_refusal: !exists|k: int| 0 <= k < refusals@.len()
                && (#[trigger] refusals@[k]).1 == ManifestRefusal::LinkBudgetExhausted,
        }),
{
    if budget < MAX_LINKS_PER_REPOSITORY {
        return BudgetStep::Write;
    }
    let mut k: usize = 0;
    while k < refusals.len()
        invariant
            budget >= MAX_LINKS_PER_REPOSITORY,
            k <= refusals@.len(),
            forall|j: int| 0 <= j < k ==> (#[trigger] refusals@[j]).1 != ManifestRefusal::LinkBudgetExhausted,
        decreases refusals@.len() - k,
    {
        if refusals[k].1 == ManifestRefusal::LinkBudgetExhausted {
            return BudgetStep::Stop { record_refusal: false };
        }
        k = k + 1;
    }
    BudgetStep::Stop { record_refusal: true }
}

/// Where a declaration sits in its manifest, as `line:line`.
pub open spec fn line_span(line: nat) -> Seq<char> {
    decimal(line) + ":"@ + decimal(line)
}

/// The span a link quotes for a declaration on line `line`.
pub fn declaration_span(line: usize) -> (span: String)
    ensures
        span@ == line_span(line as nat),
{
    let mut span = decimal_string(line as u64);
    push_str(&mut span, ":");
    let again = decimal_string(line as u64);
    push_str(&mut span, again.as_str());
    span
}

/// The evidence a manifest link records: the rule, the section, the form and the specifier
/// as written.
pub open spec fn link_evidence_fields(
    rule: ContractRule,
    section: Seq<char>,
    form: SupportedForm,
    specifier: Seq<char>,
) -> Seq<(Seq<char>, ScalarView)> {
    seq![
        ("rule"@, ScalarView::Text(rule.name_of())),
        ("section"@, ScalarView::Text(section)),
        ("form"@, ScalarView::Text(form.name_of())),
        ("specifier"@, ScalarView::Text(specifier)),
    ]
}

/// The evidence text of a manifest link drawn from `declaration` in the form `form`.
pub fn link_evidence(rule: ContractRule, declaration: &Declaration, form: SupportedForm) -> (text: String)
    ensures
        text@ == json_object_text(link_evidence_fields(rule, declaration.section@, form, declaration.specifier@)),
{
    let fields = [
        ("rule", JsonScalar::Text(string_of_str(rule.as_str()))),
        ("section", JsonScalar::Text(string_of_str(declaration.section.as_str()))),
        ("form", JsonScalar::Text(string_of_str(form.as_str()))),
        ("specifier", JsonScalar::Text(string_of_str(declaration.specifier.as_str()))),
    ];
    proof {
        assert(crate::model::field_views(fields@) =~= link_evidence_fields(
            rule,
            declaration.section@,
            form,
            declaration.specifier@,
        ));
    }
    object_text(&fields)
}

/// The link a scan reports for a supported manifest declaration once the store has recorded or
/// re-observed it: a repository-to-repository dependency through `registry_id`, quoting the
/// declaration's line, asking for the version the form states, and naming no entity.
pub fn manifest_link(
    rule: ContractRule,
    manifest: &str,
    declaration: &Declaration,
    registry_id: &str,
    target_repository_id: &str,
    observed_version: Option<String>,
    ambiguity: Option<Ambiguity>,
    inserted: bool,
) -> (link: RecordedLink)
    requires
        declaration.outcome@ is Supported,
    ensures
        declaration.outcome@ matches OutcomeView::Supported { form, version, .. } && {
            &&& link.form == form
            &&& link.resolution_method == form.method_of()
            &&& match link.expected_contract_version {
                Some(v) => version == Some(v@),
                None => version is None,
            }
        },
        link.rule == rule,
        link.manifest@ == manifest@,
        link.section@ == declaration.section@,
        link.identity@ == declaration.identity@,
        link.registry_id@ == registry_id@,
        link.target_repository_id@ == target_repository_id@,
        link.source_span@ == line_span(declaration.line as nat),
        link.relation_semantics == REPOSITORY_DEPENDENCY_SEMANTICS,
        link.source_entity_id is None,
        link.target_entity_id is None,
        link.target_path is None,
        link.observed_contract_version == observed_version,
        link.ambiguity == ambiguity,
        link.inserted == inserted,
{
    let (form, expected) = match &declaration.outcome {
        DeclarationOutcome::Supported { form, version, .. } => {
            let expected = match version {
                Some(v) => Some(string_of_str(v.as_str())),
                None => None,
            };
            (*form, expected)
        },
        DeclarationOutcome::Unsupported(_) => {
            proof {
                assert(false);
            }
            (SupportedForm::NpmFilePath, None)
        },
    };
    RecordedLink {
        rule,
        manifest: string_of_str(manifest),
        section: string_of_str(declaration.section.as_str()),
        identity: string_of_str(declaration.identity.as_str()),
        form,
        registry_id: string_of_str(registry_id),
        target_repository_id: string_of_str(target_repository_id),
        resolution_method: form.resolution_method(),
        source_span: declaration_span(declaration.line),
        relation_semantics: REPOSITORY_DEPENDENCY_SEMANTICS,
        source_entity_id: None,
        target_entity_id: None,
        target_path: None,
        expected_contract_version: expected,
        observed_contract_version: observed_version,
        ambiguity,
        inserted,
    }
}

} // verus!
