//! The rows of the canonical graph dump that hold only text and integers.
//!
//! Each is a location fact, a claim, or a derived state, and none carries a repository state or
//! a timestamp: every field is a deterministic function of the project, its file set and the
//! file contents. Rows sort by their fields in declaration order.
use vstd::prelude::*;

verus! {

/// Canonical occurrence row. `occurrence_id` is omitted: it is derived from these fields.
///
/// Carries no repository state: an occurrence is a location fact. What the file said when the
/// location was recorded is `content_hash`.
#[derive(Debug, Clone, PartialEq, Eq, PartialOrd, Ord, Hash)]
pub struct DumpOccurrence {
    /// Entity that appears.
    pub entity_id: String,
    /// Repository-relative path.
    pub file_path: String,
    /// Inclusive start byte.
    pub start_byte: i64,
    /// Exclusive end byte.
    pub end_byte: i64,
    /// 1-based start line.
    pub start_line: i64,
    /// 0-based start column.
    pub start_col: i64,
    /// 1-based end line.
    pub end_line: i64,
    /// 0-based end column.
    pub end_col: i64,
    /// File content hash.
    pub content_hash: String,
}

/// Canonical assertion row.
#[derive(Debug, Clone, PartialEq, Eq, PartialOrd, Ord, Hash)]
pub struct DumpAssertion {
    /// Claim identifier.
    pub assertion_id: String,
    /// Source entity.
    pub source_entity_id: String,
    /// Relation.
    pub relation: String,
    /// Target entity.
    pub target_entity_id: String,
}

/// Canonical derived-state row.
///
/// Names no state: the state a claim was last observed in is a property of the runs that
/// observed it.
#[derive(Debug, Clone, PartialEq, Eq, PartialOrd, Ord, Hash)]
pub struct DumpAssertionState {
    /// Claim.
    pub assertion_id: String,
    /// Derived status.
    pub status: String,
    /// Structurally strongest source type present.
    pub strongest_source_type: String,
    /// Bitmask of source types present.
    pub source_type_mask: i64,
    /// Number of supporting observations.
    pub observation_count: i64,
    /// 1 when the target is an `Unresolved` entity.
    pub is_unresolved: i64,
}

} // verus!
