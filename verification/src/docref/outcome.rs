//! Outcome tags counted per document and reported over the whole repository.
use vstd::prelude::*;

verus! {

/// Resolved to an indexed file.
pub const RESOLVED_FILE: &'static str = "document_link_resolved_file";

/// A `#L<n>` anchor that resolved to exactly one symbol.
pub const RESOLVED_SYMBOL: &'static str = "document_link_resolved_symbol";

/// An external reference. Counted, never fetched.
pub const EXTERNAL: &'static str = "document_link_external";

/// A destination that is only a `#fragment`.
pub const FRAGMENT_ONLY: &'static str = "document_link_fragment_only";

} // verus!
