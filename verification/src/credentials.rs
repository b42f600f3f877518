//! A login: a username and the hash of its password.

use vstd::prelude::*;

verus! {

/// A persisted login; the password itself is never stored.
#[derive(Debug)]
pub struct Credentials {
    pub username: String,
    pub pwhash: String,
}

} // verus!
