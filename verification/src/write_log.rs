//! One entry of the write log: a record of a state-changing request, its
//! author, and how it ended.

use crate::ID;
use vstd::prelude::*;

verus! {

/// A persisted write-log entry; content and outcome are filled in as the
/// request proceeds.
#[derive(Debug)]
pub struct WriteLogEntry {
    pub id: ID,
    pub uri: String,
    pub method: String,
    pub username: String,
    pub content: Option<String>,
    pub status: Option<String>,
    pub start_ts: i64,
    pub end_ts: Option<i64>,
}

impl WriteLogEntry {
    /// Records the request body of the logged request; everything else is
    /// left as it was.
    pub fn set_content(&mut self, content: String)
        ensures
            final(self).content == Some(content),
            final(self).id == old(self).id,
            final(self).uri == old(self).uri,
            final(self).method == old(self).method,
            final(self).username == old(self).username,
            final(self).status == old(self).status,
            final(self).start_ts == old(self).start_ts,
            final(self).end_ts == old(self).end_ts,
    {
        self.content = Some(content);
    }
}

} // verus!
