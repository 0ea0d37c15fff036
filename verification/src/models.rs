use vstd::prelude::*;

verus! {

/// The body of an error answer of the web interface.
#[derive(Debug, Clone)]
pub struct ErrorResponse {
    pub message: String,
}

} // verus!
