use vstd::prelude::*;

verus! {

/// The query of a web login request: the name the visitor gives, if any.
#[derive(Clone, Debug, PartialEq, Eq)]
pub struct QueryParams {
    pub username: Option<String>,
}

} // verus!
