use vstd::prelude::*;

verus! {

/// A response body that carries a single human-readable message.
#[derive(Debug, Clone, PartialEq, Eq)]
pub struct MessageOnlyResponse {
    pub message: String,
}

/// The body sent back when a request is not authorized.
pub fn unauthorized() -> (r: MessageOnlyResponse)
    ensures
        r.message@ == "User unauthorized!"@,
{
    MessageOnlyResponse { message: String::from_str("User unauthorized!") }
}

} // verus!
