//! Notes attached to tasks.

use vstd::prelude::*;

use crate::primitives::Id;

verus! {

/// A note on a task, with its times as orderable timestamps.
#[derive(Clone, Debug)]
pub struct Note {
    pub author: String,
    pub author_email: Option<String>,
    pub body: String,
    pub created_at: i64,
    pub id: Id,
    pub updated_at: i64,
}

/// Optional fields for updating an existing note.
#[derive(Clone, Debug)]
pub struct Patch {
    pub body: Option<String>,
}

impl Default for Patch {
    /// A patch that changes nothing.
    fn default() -> (r: Self)
        ensures
            r.body is None,
    {
        Patch { body: None }
    }
}

} // verus!
