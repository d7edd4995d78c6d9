//! Iterations: the stored record, how a row is read into it, and the
//! criteria and patches that list and change them.

use vstd::prelude::*;

use crate::model::fields::{
    first_error, id_error, instant_error, instant_of, json_error, opt_instant_error, opt_instant_of, check_json,
    read_instant, read_opt_instant, reads_as_id, Timestamp,
};
use crate::primitives::iteration_status::spec_from_lowercase;
use crate::primitives::{Id, IterationStatus};
use crate::text::lower;

verus! {

/// Criteria for filtering iterations.
#[derive(Clone, Debug)]
pub struct Filter {
    pub all: bool,
    pub has_available: bool,
    pub status: Option<IterationStatus>,
    pub tag: Option<String>,
}

impl Default for Filter {
    /// Active iterations only, with no other criterion.
    fn default() -> (r: Self)
        ensures
            !r.all && !r.has_available && r.status is None && r.tag is None,
    {
        Filter { all: false, has_available: false, status: None, tag: None }
    }
}

impl Filter {
    /// A filter that includes iterations in every status, including terminal ones.
    pub fn all() -> (r: Self)
        ensures
            r.all && !r.has_available && r.status is None && r.tag is None,
    {
        Filter { all: true, has_available: false, status: None, tag: None }
    }
}

/// Optional fields for updating an existing iteration.
///
/// `metadata`, where present, is the new metadata as JSON text.
#[derive(Clone, Debug)]
pub struct Patch {
    pub description: Option<String>,
    pub metadata: Option<String>,
    pub status: Option<IterationStatus>,
    pub title: Option<String>,
}

impl Default for Patch {
    /// A patch that changes nothing.
    fn default() -> (r: Self)
        ensures
            r.description is None && r.metadata is None && r.status is None && r.title is None,
    {
        Patch { description: None, metadata: None, status: None, title: None }
    }
}

/// A time-boxed plan of tasks within a project.
#[derive(Debug)]
pub struct Model {
    pub completed_at: Option<Timestamp>,
    pub created_at: Timestamp,
    pub description: String,
    pub id: Id,
    /// The metadata as the JSON text it was stored as.
    pub metadata: String,
    pub project_id: Id,
    pub status: IterationStatus,
    pub title: String,
    pub updated_at: Timestamp,
}

/// The columns of an iteration row, in query order: `id`, `project_id`,
/// `completed_at`, `created_at`, `description`, `metadata`, `status`,
/// `title`, `updated_at`.
#[derive(Clone, Debug)]
pub struct Row {
    pub id: String,
    pub project_id: String,
    pub completed_at: Option<String>,
    pub created_at: String,
    pub description: String,
    pub metadata: String,
    pub status: String,
    pub title: String,
    pub updated_at: String,
}

/// Why a status column does not read, if it does not.
pub open spec fn status_error(s: Seq<char>) -> Option<Seq<char>> {
    match spec_from_lowercase(lower(s)) {
        Ok(_) => None,
        Err(e) => Some(e),
    }
}

/// Why a row does not read as an iteration: the first column that does not
/// read, in the order `completed_at`, `created_at`, `id`, `metadata`,
/// `project_id`, `status`, `updated_at`.
pub open spec fn row_error(row: Row) -> Option<Seq<char>> {
    first_error(
        seq![
            opt_instant_error(row.completed_at),
            instant_error(row.created_at@),
            id_error(row.id@),
            json_error(row.metadata@),
            id_error(row.project_id@),
            status_error(row.status@),
            instant_error(row.updated_at@),
        ],
    )
}

impl Model {
    /// Reads an iteration row: every column as its type (the status by name,
    /// in any case), or the message of the first column that does not read.
    pub fn try_from(row: Row) -> (r: Result<Self, String>)
        ensures
            match r {
                Ok(m) => {
                    &&& row_error(row) is None
                    &&& m.completed_at == opt_instant_of(row.completed_at)
                    &&& m.created_at == instant_of(row.created_at@)
                    &&& m.metadata@ == row.metadata@
                    &&& m.description@ == row.description@
                    &&& reads_as_id(row.id@, m.id)
                    &&& reads_as_id(row.project_id@, m.project_id)
                    &&& spec_from_lowercase(lower(row.status@)) == Ok::<IterationStatus, Seq<char>>(m.status)
                    &&& m.title@ == row.title@
                    &&& m.updated_at == instant_of(row.updated_at@)
                },
                Err(e) => row_error(row) == Some(e@),
            },
    {
        proof {
            reveal_with_fuel(first_error, 8);
        }
        let completed_at = match read_opt_instant(&row.completed_at) {
            Ok(t) => t,
            Err(e) => return Err(e),
        };
        let created_at = match read_instant(row.created_at.as_str()) {
            Ok(t) => t,
            Err(e) => return Err(e),
        };
        let id = match Id::parse_str(row.id.as_str()) {
            Ok(id) => id,
            Err(e) => return Err(e),
        };
        match check_json(row.metadata.as_str()) {
            Ok(()) => {},
            Err(e) => return Err(e),
        }
        let project_id = match Id::parse_str(row.project_id.as_str()) {
            Ok(id) => id,
            Err(e) => return Err(e),
        };
        let status = match IterationStatus::parse(row.status.as_str()) {
            Ok(s) => s,
            Err(e) => return Err(e),
        };
        let updated_at = match read_instant(row.updated_at.as_str()) {
            Ok(t) => t,
            Err(e) => return Err(e),
        };
        Ok(
            Model {
                completed_at,
                created_at,
                description: row.description,
                id,
                metadata: row.metadata,
                project_id,
                status,
                title: row.title,
                updated_at,
            },
        )
    }
}

} // verus!
