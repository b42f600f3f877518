use vstd::prelude::*;

verus! {

/// An error that aborts a statement import, carrying a human-readable
/// message for the caller to surface as a bad-request response.
#[derive(Debug)]
pub struct ImportError {
    pub message: String,
}

impl ImportError {
    pub fn new(msg: String) -> (e: ImportError)
        ensures
            e.message == msg,
    {
        ImportError { message: msg }
    }
}

} // verus!
