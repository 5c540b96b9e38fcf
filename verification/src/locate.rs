//! Where the configuration document lies: in the search root, or in one of its
//! nearest ancestors.

use vstd::prelude::*;
use crate::error::RunError;

verus! {

/// The name of the configuration document.
pub const CONFIG_FILE: &'static str = "bsrc.toml";

/// How many ancestors of the search root are searched for the configuration
/// document, after the search root itself.
pub const MAX_ANCESTORS: usize = 4;

/// Whether the document lies in the candidate directory at `i`, within the
/// depth of the search. Candidate 0 is the search root, candidate `i` its
/// `i`-th ancestor.
pub open spec fn holds_document(present: Seq<bool>, i: int) -> bool {
    0 <= i < present.len() && i <= MAX_ANCESTORS && present[i]
}

/// Locates the configuration document: in the search root, or else in the
/// nearest of its first four ancestors that holds it.
///
/// `present[i]` says whether the document exists in the candidate directory at
/// `i`; what `present` does not say counts as absent. Returns the index of the
/// nearest candidate that holds the document, or `ConfigNotFound` if none
/// within the depth of the search does.
pub fn find_toml_path(present: &Vec<bool>) -> (r: Result<usize, RunError>)
    ensures
        match r {
            Ok(depth) => holds_document(present@, depth as int) && forall|j: int|
                0 <= j < depth ==> !holds_document(present@, j),
            Err(error) => error is ConfigNotFound && forall|j: int| !holds_document(present@, j),
        },
{
    let mut depth: usize = 0;
    while depth < present.len() && depth <= MAX_ANCESTORS
        invariant
            depth <= present.len(),
            depth <= MAX_ANCESTORS + 1,
            forall|j: int| 0 <= j < depth ==> !holds_document(present@, j),
        decreases present.len() - depth,
    {
        if present[depth] {
            return Ok(depth);
        }
        depth += 1;
    }
    Err(RunError::ConfigNotFound)
}

/// The notice that the search goes on in the ancestors of the search root:
/// given exactly when the search root does not hold the document.
pub fn search_notice(present: &Vec<bool>) -> (r: Option<String>)
    ensures
        holds_document(present@, 0) ==> r is None,
        !holds_document(present@, 0) ==> r is Some && r->Some_0@
            == "searching for `bsrc.toml` in parent directories"@,
{
    if present.len() > 0 && present[0] {
        None
    } else {
        Some("searching for `bsrc.toml` in parent directories".to_owned())
    }
}

} // verus!
