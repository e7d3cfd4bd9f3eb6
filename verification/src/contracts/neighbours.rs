//! Which registered neighbour a declared local path names, decided from what probing the path
//! found and from the registry as it stands.
use vstd::prelude::*;
use crate::contracts::UnresolvedReason;
use crate::text::{has_prefix, str_eq, string_of_str};

verus! {

/// What probing a declared path on disk found.
pub enum TargetProbe {
    /// A repository root, canonicalised, with the repository identity recorded there.
    Repository { root: String, repository_id: String },
    /// Nothing exists at the path.
    Missing,
    /// Something exists that is not a repository root; its canonical path, where one was had.
    NotARoot { canonical: Option<String> },
}

/// One entry of the registry as the scan sees it.
pub struct Neighbour {
    /// The registry entry's own id, which a link records.
    pub registry_id: String,
    /// The repository identity the entry expects to find at its path.
    pub expected_repository_id: String,
    /// Whether the entry is available and its path could be probed.
    pub usable: bool,
}

/// `path` lies at or under `root`, compared as canonical paths, segment by segment.
pub open spec fn path_within(path: Seq<char>, root: Seq<char>) -> bool {
    ||| path == root
    ||| root.len() == 0
    ||| (has_prefix(path, root) && (root.last() == '/' || (path.len() > root.len() && path[root.len() as int] == '/')))
}

/// The first neighbour that expects `repository_id`.
pub open spec fn first_expecting(neighbours: Seq<Neighbour>, repository_id: Seq<char>) -> Option<int>
    decreases neighbours.len(),
{
    if neighbours.len() == 0 {
        None
    } else {
        match first_expecting(neighbours.drop_last(), repository_id) {
            Some(k) => Some(k),
            None => if neighbours.last().expected_repository_id@ == repository_id {
                Some(neighbours.len() - 1)
            } else {
                None
            },
        }
    }
}

/// The registry entry that records `repository_id`, or why none can be linked: the first entry
/// expecting the identity decides, and it must be usable.
pub open spec fn registry_resolution(neighbours: Seq<Neighbour>, repository_id: Seq<char>) -> Result<Seq<char>, UnresolvedReason> {
    match first_expecting(neighbours, repository_id) {
        Some(k) => if neighbours[k].usable {
            Ok(neighbours[k].registry_id@)
        } else {
            Err(UnresolvedReason::RegistryEntryUnusable)
        },
        None => Err(UnresolvedReason::TargetNotRegistered),
    }
}

/// The registry entry a declared path resolves to, or why it does not.
///
/// A repository root that is the scanned repository itself is an intra-repository dependency; any
/// other root is matched against the registry by identity alone, the first entry that expects it
/// deciding. A path that is not a root is still intra-repository when it lies inside the scanned
/// repository.
pub open spec fn target_resolution(
    source_root: Seq<char>,
    probe: TargetProbe,
    neighbours: Seq<Neighbour>,
) -> Result<Seq<char>, UnresolvedReason> {
    match probe {
        TargetProbe::Repository { root, repository_id } => if root@ == source_root {
            Err(UnresolvedReason::DeclaredPathInSameRepository)
        } else {
            registry_resolution(neighbours, repository_id@)
        },
        TargetProbe::Missing => Err(UnresolvedReason::DeclaredPathMissing),
        TargetProbe::NotARoot { canonical } => match canonical {
            Some(c) => if path_within(c@, source_root) {
                Err(UnresolvedReason::DeclaredPathInSameRepository)
            } else {
                Err(UnresolvedReason::DeclaredPathNotARepositoryRoot)
            },
            None => Err(UnresolvedReason::DeclaredPathNotARepositoryRoot),
        },
    }
}

/// Whether the canonical path `path` lies at or under `root`.
pub fn is_within(path: &str, root: &str) -> (inside: bool)
    ensures
        inside == path_within(path@, root@),
{
    if str_eq(path, root) {
        return true;
    }
    let p = crate::text::chars_of(path);
    let r = crate::text::chars_of(root);
    if r.len() == 0 {
        return true;
    }
    if p.len() < r.len() {
        assert(!has_prefix(path@, root@));
        return false;
    }
    let mut i: usize = 0;
    while i < r.len()
        invariant
            i <= r.len(),
            r.len() <= p.len(),
            p@ == path@,
            r@ == root@,
            forall|j: int| 0 <= j < i ==> p@[j] == r@[j],
        decreases r.len() - i,
    {
        if p[i] != r[i] {
            assert(!has_prefix(path@, root@)) by {
                assert(path@.take(root@.len() as int)[i as int] != root@[i as int]);
            }
            return false;
        }
        i = i + 1;
    }
    assert(has_prefix(path@, root@)) by {
        assert(path@.take(root@.len() as int) =~= root@);
    }
    if r[r.len() - 1] == '/' {
        return true;
    }
    p.len() > r.len() && p[r.len()] == '/'
}

/// The registry entry a declared path resolves to, by the target's recorded identity.
///
/// A path inside the scanned repository is answered first and by name, since an intra-repository
/// dependency is no cross-repository contract; only then is the registry consulted, and only by
/// identity.
pub fn resolve_target(
    source_root: &str,
    probe: &TargetProbe,
    neighbours: &[Neighbour],
) -> (out: Result<String, UnresolvedReason>)
    ensures
        match out {
            Ok(id) => target_resolution(source_root@, *probe, neighbours@) == Ok::<Seq<char>, UnresolvedReason>(id@),
            Err(reason) => target_resolution(source_root@, *probe, neighbours@) == Err::<Seq<char>, UnresolvedReason>(reason),
        },
{
    match probe {
        TargetProbe::Repository { root, repository_id } => {
            if str_eq(root.as_str(), source_root) {
                return Err(UnresolvedReason::DeclaredPathInSameRepository);
            }
            registry_entry(neighbours, repository_id.as_str())
        },
        TargetProbe::Missing => Err(UnresolvedReason::DeclaredPathMissing),
        TargetProbe::NotARoot { canonical } => match canonical {
            Some(c) => if is_within(c.as_str(), source_root) {
                Err(UnresolvedReason::DeclaredPathInSameRepository)
            } else {
                Err(UnresolvedReason::DeclaredPathNotARepositoryRoot)
            },
            None => Err(UnresolvedReason::DeclaredPathNotARepositoryRoot),
        },
    }
}

/// The registry entry that records `repository_id`, looked up by identity.
fn registry_entry(neighbours: &[Neighbour], repository_id: &str) -> (out: Result<String, UnresolvedReason>)
    ensures
        match out {
            Ok(id) => registry_resolution(neighbours@, repository_id@) == Ok::<Seq<char>, UnresolvedReason>(id@),
            Err(reason) => registry_resolution(neighbours@, repository_id@) == Err::<Seq<char>, UnresolvedReason>(reason),
        },
{
    let mut i: usize = 0;
    while i < neighbours.len()
        invariant
            i <= neighbours.len(),
            first_expecting(neighbours@.take(i as int), repository_id@) is None,
        decreases neighbours.len() - i,
    {
        proof {
            assert(neighbours@.take(i as int + 1).drop_last() =~= neighbours@.take(i as int));
        }
        if str_eq(neighbours[i].expected_repository_id.as_str(), repository_id) {
            proof {
                lemma_first_expecting_prefix(neighbours@, repository_id@, i as int + 1);
            }
            if neighbours[i].usable {
                return Ok(string_of_str(neighbours[i].registry_id.as_str()));
            } else {
                return Err(UnresolvedReason::RegistryEntryUnusable);
            }
        }
        i = i + 1;
    }
    proof {
        assert(neighbours@.take(neighbours@.len() as int) =~= neighbours@);
    }
    Err(UnresolvedReason::TargetNotRegistered)
}

/// A match found within a prefix of the neighbours is the first match of the whole list.
proof fn lemma_first_expecting_prefix(neighbours: Seq<Neighbour>, id: Seq<char>, n: int)
    requires
        0 <= n <= neighbours.len(),
        first_expecting(neighbours.take(n), id) is Some,
    ensures
        first_expecting(neighbours, id) == first_expecting(neighbours.take(n), id),
    decreases neighbours.len() - n,
{
    if n < neighbours.len() {
        assert(neighbours.take(n + 1).drop_last() =~= neighbours.take(n));
        lemma_first_expecting_prefix(neighbours, id, n + 1);
    } else {
        assert(neighbours.take(n) =~= neighbours);
    }
}

} // verus!
