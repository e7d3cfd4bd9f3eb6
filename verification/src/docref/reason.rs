//! Closed reason vocabulary for an `Unresolved` entity of category `document_link`.
use vstd::prelude::*;

verus! {

/// The destination looks like a repository path and names no indexed file.
pub const TARGET_NOT_INDEXED: &'static str = "document_link_target_not_indexed";

/// The path guard refused the destination. The file was never read.
pub const REFUSED: &'static str = "document_link_refused";

/// A `#L<n>` anchor that no symbol covers, or that lies past the end of the file.
pub const ANCHOR_NO_SYMBOL: &'static str = "document_anchor_no_symbol";

} // verus!
