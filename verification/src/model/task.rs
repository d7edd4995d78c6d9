//! Tasks: the stored record and the criteria that list them.

use vstd::prelude::*;

use crate::model::fields::Timestamp;
use crate::primitives::{Id, TaskStatus};

verus! {

/// Criteria for filtering tasks.
#[derive(Clone, Debug)]
pub struct Filter {
    pub all: bool,
    pub assigned_to: Option<String>,
    pub status: Option<TaskStatus>,
    pub tag: Option<String>,
}

impl Default for Filter {
    /// Active tasks only, with no other criterion.
    fn default() -> (r: Self)
        ensures
            !r.all && r.assigned_to is None && r.status is None && r.tag is None,
    {
        Filter { all: false, assigned_to: None, status: None, tag: None }
    }
}

impl Filter {
    /// A filter that includes tasks in every status, including terminal ones.
    pub fn all() -> (r: Self)
        ensures
            r.all && r.assigned_to is None && r.status is None && r.tag is None,
    {
        Filter { all: true, assigned_to: None, status: None, tag: None }
    }
}

/// A unit of work within a project.
#[derive(Debug)]
pub struct Model {
    pub assigned_to: Option<Id>,
    pub created_at: Timestamp,
    pub description: String,
    pub id: Id,
    /// The metadata as the JSON text it was stored as.
    pub metadata: String,
    /// 0 to 4, lower is more urgent.
    pub priority: Option<u8>,
    pub project_id: Id,
    /// When the task was completed or cancelled.
    pub resolved_at: Option<Timestamp>,
    pub status: TaskStatus,
    pub title: String,
    pub updated_at: Timestamp,
}

} // verus!
