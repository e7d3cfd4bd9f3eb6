//! Records handed from the extraction pipeline to the store.
//!
//! Note what is absent: no confidence score anywhere, and no source text. Evidence is a
//! structured profile and source is read from disk when it is presented.
use vstd::prelude::*;
use crate::error::NerveError;
use crate::text::{extend_str, string_of};
use crate::vocab::{Directness, EntityKind, EvidenceSourceType, Relation};

verus! {

/// A source range. Bytes are 0-based; lines are 1-based; columns are 0-based byte offsets
/// within the line, as reported by the parser.
#[derive(Debug, Clone, Copy, Default, PartialEq, Eq, Structural)]
pub struct Span {
    /// Inclusive start byte offset.
    pub start_byte: usize,
    /// Exclusive end byte offset.
    pub end_byte: usize,
    /// 1-based start line.
    pub start_line: usize,
    /// 0-based start column.
    pub start_col: usize,
    /// 1-based end line.
    pub end_line: usize,
    /// 0-based end column.
    pub end_col: usize,
}

impl Span {
    /// A zero-width span used for structural (filesystem) facts that have no source range.
    pub fn none() -> (span: Span)
        ensures
            span == (Span {
                start_byte: 0,
                end_byte: 0,
                start_line: 0,
                start_col: 0,
                end_line: 0,
                end_col: 0,
            }),
    {
        Span { start_byte: 0, end_byte: 0, start_line: 0, start_col: 0, end_line: 0, end_col: 0 }
    }
}

/// A logical entity.
#[derive(Debug, Clone, PartialEq, Eq)]
pub struct EntityRecord {
    /// Stable logical identifier.
    pub entity_id: String,
    /// Entity kind.
    pub kind: EntityKind,
    /// Display name.
    pub name: String,
    /// Lexical or filesystem scope, joined with `.` for symbols and `/` for paths.
    pub scope_path: String,
    /// Language tag, where one applies.
    pub language: Option<String>,
    /// Extractor-specific metadata as canonical JSON.
    pub meta: Option<String>,
}

/// A physical appearance of an entity in a repository state.
#[derive(Debug, Clone, PartialEq, Eq)]
pub struct OccurrenceRecord {
    /// Physical identifier.
    pub occurrence_id: String,
    /// Entity that appears.
    pub entity_id: String,
    /// Repository-relative path.
    pub file_path: String,
    /// Source range.
    pub span: Span,
    /// BLAKE3 of the file's bytes at observation time.
    pub content_hash: String,
}

/// A claim that a relationship holds.
#[derive(Debug, Clone, PartialEq, Eq)]
pub struct AssertionRecord {
    /// Claim identifier.
    pub assertion_id: String,
    /// Source entity.
    pub source_entity_id: String,
    /// Relation.
    pub relation: Relation,
    /// Target entity.
    pub target_entity_id: String,
}

/// A piece of evidence supporting a claim, as the library's extractors emit it.
///
/// None of them matches names against one another, so none states a match quality: that field
/// of the stored evidence is always empty for what this library produces.
#[derive(Debug, Clone, PartialEq, Eq)]
pub struct ObservationRecord {
    /// Claim this evidence supports.
    pub assertion_id: String,
    /// How the evidence was obtained.
    pub evidence_source_type: EvidenceSourceType,
    /// How directly the artifact states it.
    pub directness: Directness,
    /// Producing extractor.
    pub extractor_id: String,
    /// Producing extractor version.
    pub extractor_version: String,
    /// Repository-relative path of the evidence.
    pub file_path: String,
    /// 1-based first line of the evidence, or 0 for structural facts.
    pub start_line: usize,
    /// 1-based last line of the evidence, or 0 for structural facts.
    pub end_line: usize,
    /// BLAKE3 of what the source said at the time.
    pub content_hash: String,
    /// Execution environment, for execution evidence only.
    pub environment: Option<String>,
    /// Extractor-specific, human-readable evidence steps as canonical JSON.
    pub details: Option<String>,
}

/// Everything one extractor run produced, ready to persist in a single transaction.
#[derive(Debug, Clone, PartialEq, Eq)]
pub struct GraphBatch {
    /// Entities discovered.
    pub entities: Vec<EntityRecord>,
    /// Occurrences discovered.
    pub occurrences: Vec<OccurrenceRecord>,
    /// Claims made.
    pub assertions: Vec<AssertionRecord>,
    /// Evidence for those claims.
    pub observations: Vec<ObservationRecord>,
}

/// The source types of a list of observations, in order.
pub open spec fn source_types(observations: Seq<ObservationRecord>) -> Seq<EvidenceSourceType> {
    observations.map_values(|o: ObservationRecord| o.evidence_source_type)
}

impl GraphBatch {
    /// Verify that every observation carries a source type the extractor declared; emitting
    /// outside the declaration is a hard error, reported for the first such observation.
    pub fn verify_declared_source_types(
        &self,
        extractor_id: &'static str,
        declared: &[EvidenceSourceType],
    ) -> (outcome: Result<(), NerveError>)
        ensures
            ({
                let observed = source_types(self.observations@);
                &&& outcome is Ok <==> forall|i: int| 0 <= i < observed.len() ==> declared@.contains(#[trigger] observed[i])
                &&& outcome matches Err(e) ==> exists|i: int|
                    {
                        &&& 0 <= i < observed.len()
                        &&& !declared@.contains(#[trigger] observed[i])
                        &&& forall|j: int| 0 <= j < i ==> declared@.contains(observed[j])
                        &&& e matches NerveError::UndeclaredEvidenceSourceType {
                            extractor_id: x,
                            source_type: s,
                            declared: d,
                        } && x == extractor_id && s@ == observed[i].name_of() && d@ == declared_list(declared@)
                    }
            }),
    {
        let mut observed: Vec<EvidenceSourceType> = Vec::new();
        let mut i: usize = 0;
        while i < self.observations.len()
            invariant
                i <= self.observations@.len(),
                observed@ == source_types(self.observations@.take(i as int)),
            decreases self.observations@.len() - i,
        {
            observed.push(self.observations[i].evidence_source_type);
            proof {
                assert(source_types(self.observations@.take(i + 1)) =~= source_types(self.observations@.take(i as int)).push(
                    self.observations@[i as int].evidence_source_type,
                ));
            }
            i = i + 1;
        }
        proof {
            assert(self.observations@.take(i as int) =~= self.observations@);
        }
        verify_declared_source_types(observed.as_slice(), extractor_id, declared)
    }
}

/// One value of a flat JSON object of extractor metadata.
pub enum JsonScalar {
    /// A string.
    Text(String),
    /// A non-negative count.
    Count(usize),
    /// A flag.
    Flag(bool),
}

/// A [`JsonScalar`] as a value.
pub enum ScalarView {
    Text(Seq<char>),
    Count(nat),
    Flag(bool),
}

impl View for JsonScalar {
    type V = ScalarView;

    open spec fn view(&self) -> ScalarView {
        match self {
            JsonScalar::Text(s) => ScalarView::Text(s@),
            JsonScalar::Count(n) => ScalarView::Count(*n as nat),
            JsonScalar::Flag(b) => ScalarView::Flag(*b),
        }
    }
}

/// The fields of a flat object, as values.
pub open spec fn field_views(fields: Seq<(&'static str, JsonScalar)>) -> Seq<(Seq<char>, ScalarView)> {
    fields.map_values(|f: (&'static str, JsonScalar)| (f.0@, f.1@))
}

/// The compact text `serde_json` prints for the object holding `fields`, in its own key order.
pub uninterp spec fn json_object_text(fields: Seq<(Seq<char>, ScalarView)>) -> Seq<char>;

/// The object holding `fields`, inserted in order into a `serde_json::Map`, printed by
/// `serde_json::Value`'s `to_string`. Trusted: the text is a function of the fields alone,
/// named [`json_object_text`]; how `serde_json` orders keys and escapes strings is its own.
#[verifier::external_body]
pub(crate) fn object_text(fields: &[(&'static str, JsonScalar)]) -> (text: String)
    ensures
        text@ == json_object_text(field_views(fields@)),
{
    let mut map = serde_json::Map::new();
    for (key, value) in fields {
        let value = match value {
            JsonScalar::Text(s) => serde_json::Value::String(s.clone()),
            JsonScalar::Count(n) => serde_json::Value::from(*n),
            JsonScalar::Flag(b) => serde_json::Value::Bool(*b),
        };
        map.insert(key.to_string(), value);
    }
    serde_json::Value::Object(map).to_string()
}

/// The declared source types, by name, joined with `, `.
pub open spec fn declared_list(declared: Seq<EvidenceSourceType>) -> Seq<char>
    decreases declared.len(),
{
    if declared.len() == 0 {
        Seq::empty()
    } else if declared.len() == 1 {
        declared[0].name_of()
    } else {
        declared_list(declared.drop_last()) + ", "@ + declared.last().name_of()
    }
}

/// The declared source types, by name, joined with `, `.
fn declared_text(declared: &[EvidenceSourceType]) -> (text: String)
    ensures
        text@ == declared_list(declared@),
{
    let mut out: Vec<char> = Vec::new();
    let mut i: usize = 0;
    while i < declared.len()
        invariant
            i <= declared.len(),
            out@ == declared_list(declared@.take(i as int)),
        decreases declared.len() - i,
    {
        let ghost before = declared@.take(i as int);
        if i > 0 {
            extend_str(&mut out, ", ");
        }
        extend_str(&mut out, declared[i].as_str());
        proof {
            let after = declared@.take(i + 1);
            assert(after.drop_last() =~= before);
            assert(out@ =~= declared_list(after));
        }
        i = i + 1;
    }
    assert(declared@.take(declared.len() as int) =~= declared@);
    string_of(out.as_slice())
}

/// Verify that every observation carries a source type the extractor declared.
///
/// `observed` lists the source type of each observation of a batch, in order. Emitting outside
/// the declaration is a hard error, not a warning: the first undeclared type is reported, with
/// the declared set.
pub fn verify_declared_source_types(
    observed: &[EvidenceSourceType],
    extractor_id: &'static str,
    declared: &[EvidenceSourceType],
) -> (outcome: Result<(), NerveError>)
    ensures
        outcome is Ok <==> forall|i: int| 0 <= i < observed@.len() ==> declared@.contains(#[trigger] observed@[i]),
        outcome matches Err(e) ==> exists|i: int|
            {
                &&& 0 <= i < observed@.len()
                &&& !declared@.contains(#[trigger] observed@[i])
                &&& forall|j: int| 0 <= j < i ==> declared@.contains(observed@[j])
                &&& e matches NerveError::UndeclaredEvidenceSourceType {
                    extractor_id: x,
                    source_type: s,
                    declared: d,
                } && x == extractor_id && s@ == observed@[i].name_of() && d@ == declared_list(
                    declared@,
                )
            },
{
    let mut i: usize = 0;
    while i < observed.len()
        invariant
            i <= observed.len(),
            forall|k: int| 0 <= k < i ==> declared@.contains(#[trigger] observed@[k]),
        decreases observed.len() - i,
    {
        let source = observed[i];
        let mut found = false;
        let mut j: usize = 0;
        while j < declared.len()
            invariant
                j <= declared.len(),
                found == exists|k: int| 0 <= k < j && declared@[k] == source,
            decreases declared.len() - j,
        {
            if declared[j] == source {
                found = true;
            }
            j = j + 1;
        }
        if !found {
            let listed = declared_text(declared);
            proof {
                assert(!declared@.contains(observed@[i as int]));
            }
            return Err(
                NerveError::UndeclaredEvidenceSourceType {
                    extractor_id,
                    source_type: source.as_str(),
                    declared: listed,
                },
            );
        }
        proof {
            let k = choose|k: int| 0 <= k < declared.len() && declared@[k] == source;
            assert(declared@.contains(observed@[i as int]));
        }
        i = i + 1;
    }
    Ok(())
}

} // verus!
