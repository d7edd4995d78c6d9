//! Artifacts: the stored record, how a row is read into it, and the
//! criteria and patches that list and change them.

use vstd::prelude::*;

use crate::model::fields::{
    first_error, id_error, instant_error, instant_of, json_error, opt_instant_error, opt_instant_of, check_json,
    read_instant, read_opt_instant, reads_as_id, Timestamp,
};
use crate::primitives::Id;

verus! {

/// Criteria for filtering artifacts.
#[derive(Clone, Debug)]
pub struct Filter {
    pub all: bool,
    pub only_archived: bool,
    pub tag: Option<String>,
}

impl Default for Filter {
    /// Unarchived artifacts only, with no other criterion.
    fn default() -> (r: Self)
        ensures
            !r.all && !r.only_archived && r.tag is None,
    {
        Filter { all: false, only_archived: false, tag: None }
    }
}

/// Optional fields for updating an existing artifact.
///
/// `metadata`, where present, is the new metadata as JSON text.
#[derive(Clone, Debug)]
pub struct Patch {
    pub body: Option<String>,
    pub metadata: Option<String>,
    pub title: Option<String>,
}

impl Default for Patch {
    /// A patch that changes nothing.
    fn default() -> (r: Self)
        ensures
            r.body is None && r.metadata is None && r.title is None,
    {
        Patch { body: None, metadata: None, title: None }
    }
}

/// A persistent document (spec, ADR, design doc, ...) within a project.
#[derive(Debug)]
pub struct Model {
    pub archived_at: Option<Timestamp>,
    pub body: String,
    pub created_at: Timestamp,
    pub id: Id,
    /// The metadata as the JSON text it was stored as.
    pub metadata: String,
    pub project_id: Id,
    pub title: String,
    pub updated_at: Timestamp,
}

/// The columns of an artifact row, in query order: `id`, `project_id`,
/// `archived_at`, `body`, `created_at`, `metadata`, `title`, `updated_at`.
#[derive(Clone, Debug)]
pub struct Row {
    pub id: String,
    pub project_id: String,
    pub archived_at: Option<String>,
    pub body: String,
    pub created_at: String,
    pub metadata: String,
    pub title: String,
    pub updated_at: String,
}

/// Why a row does not read as an artifact: the first column that does not
/// read, in the order `archived_at`, `created_at`, `id`, `metadata`,
/// `project_id`, `updated_at`.
pub open spec fn row_error(row: Row) -> Option<Seq<char>> {
    first_error(
        seq![
            opt_instant_error(row.archived_at),
            instant_error(row.created_at@),
            id_error(row.id@),
            json_error(row.metadata@),
            id_error(row.project_id@),
            instant_error(row.updated_at@),
        ],
    )
}

impl Model {
    /// Reads an artifact row: every column as its type, or the message of
    /// the first column that does not read.
    pub fn try_from(row: Row) -> (r: Result<Self, String>)
        ensures
            match r {
                Ok(m) => {
                    &&& row_error(row) is None
                    &&& m.archived_at == opt_instant_of(row.archived_at)
                    &&& m.body@ == row.body@
                    &&& m.created_at == instant_of(row.created_at@)
                    &&& m.metadata@ == row.metadata@
                    &&& reads_as_id(row.id@, m.id)
                    &&& reads_as_id(row.project_id@, m.project_id)
                    &&& m.title@ == row.title@
                    &&& m.updated_at == instant_of(row.updated_at@)
                },
                Err(e) => row_error(row) == Some(e@),
            },
    {
        proof {
            reveal_with_fuel(first_error, 7);
        }
        let archived_at = match read_opt_instant(&row.archived_at) {
            Ok(t) => t,
            Err(e) => return Err(e),
        };
        let created_at = match read_instant(row.created_at.as_str()) {
            Ok(t) => t,
            Err(e) => return Err(e),
        };
        let id = match Id::parse_str(row.id.as_str()) {
            Ok(id) => id,
            Err(e) => return Err(e),
        };
        match check_json(row.metadata.as_str()) {
            Ok(()) => {},
            Err(e) => return Err(e),
        }
        let project_id = match Id::parse_str(row.project_id.as_str()) {
            Ok(id) => id,
            Err(e) => return Err(e),
        };
        let updated_at = match read_instant(row.updated_at.as_str()) {
            Ok(t) => t,
            Err(e) => return Err(e),
        };
        Ok(
            Model {
                archived_at,
                body: row.body,
                created_at,
                id,
                metadata: row.metadata,
                project_id,
                title: row.title,
                updated_at,
            },
        )
    }
}

} // verus!
