//! Content digests of the local sync mirror files, and how their rows are
//! read.

use vstd::prelude::*;

use crate::model::fields::{first_error, id_error, instant_error, instant_of, read_instant, reads_as_id, Timestamp};
use crate::primitives::Id;

verus! {

/// The recorded content digest of one mirror file.
#[derive(Clone, Debug)]
pub struct Model {
    /// The SHA-256 digest of the file's content.
    pub digest: String,
    /// The file's path relative to `.gest/`.
    pub file_path: String,
    pub project_id: Id,
    pub synced_at: Timestamp,
}

/// The columns of a digest row, in query order: `file_path`, `project_id`,
/// `digest`, `synced_at`.
#[derive(Clone, Debug)]
pub struct Row {
    pub file_path: String,
    pub project_id: String,
    pub digest: String,
    pub synced_at: String,
}

/// Why a row does not read as a digest record: the first column that does
/// not read, in the order `project_id`, `synced_at`.
pub open spec fn row_error(row: Row) -> Option<Seq<char>> {
    first_error(seq![id_error(row.project_id@), instant_error(row.synced_at@)])
}

impl Model {
    /// Reads a digest row: every column as its type, or the message of the
    /// first column that does not read.
    pub fn try_from(row: Row) -> (r: Result<Self, String>)
        ensures
            match r {
                Ok(m) => {
                    &&& row_error(row) is None
                    &&& m.digest@ == row.digest@
                    &&& m.file_path@ == row.file_path@
                    &&& reads_as_id(row.project_id@, m.project_id)
                    &&& m.synced_at == instant_of(row.synced_at@)
                },
                Err(e) => row_error(row) == Some(e@),
            },
    {
        proof {
            reveal_with_fuel(first_error, 3);
        }
        let project_id = match Id::parse_str(row.project_id.as_str()) {
            Ok(id) => id,
            Err(e) => return Err(e),
        };
        let synced_at = match read_instant(row.synced_at.as_str()) {
            Ok(t) => t,
            Err(e) => return Err(e),
        };
        Ok(Model { digest: row.digest, file_path: row.file_path, project_id, synced_at })
    }
}

} // verus!
