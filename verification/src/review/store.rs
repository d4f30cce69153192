//! Where review artifacts are kept.
use vstd::prelude::*;
use crate::paths::{join_path, joined_path};
use crate::text::concat;

verus! {

/// The path of the artifact of a route under a repository: artifacts are
/// kept in `.promrail/review`.
pub fn artifact_path(repo_root: &str, route_key: &str) -> (r: String)
    ensures
        r@ == joined_path(joined_path(repo_root@, ".promrail/review"@), route_key@ + ".yaml"@),
{
    let dir = join_path(repo_root, ".promrail/review");
    let name = concat(route_key, ".yaml");
    join_path(dir.as_str(), name.as_str())
}

} // verus!
