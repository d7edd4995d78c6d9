//! Projects: tracked repository or directory roots, and how their rows are
//! read.

use vstd::prelude::*;

use crate::model::fields::{first_error, id_error, instant_error, instant_of, read_instant, reads_as_id, Timestamp};
use crate::primitives::Id;

verus! {

/// The current time, as chrono's `Utc::now()` gives it, in seconds and
/// nanoseconds since the Unix epoch. Nothing is claimed of the instant.
#[verifier::external_body]
fn now() -> (r: Timestamp) {
    let t = chrono::Utc::now();
    Timestamp { secs: t.timestamp(), nanos: t.timestamp_subsec_nanos() }
}

/// A tracked repository or directory root, identified by its root path and
/// given a stable id when created.
#[derive(Clone, Debug)]
pub struct Model {
    pub created_at: Timestamp,
    pub id: Id,
    /// The absolute path of the project root.
    pub root: String,
    pub updated_at: Timestamp,
}

impl Model {
    /// A new project for `root`, with a fresh id, created and updated now.
    pub fn new(root: String) -> (r: Self)
        ensures
            r.root@ == root@,
            r.created_at == r.updated_at,
            r.id@.len() == 16,
    {
        let t = now();
        Model { created_at: t, id: Id::new(), root, updated_at: t }
    }
}

/// The columns of a project row, in query order: `id`, `root`, `created_at`,
/// `updated_at`.
#[derive(Clone, Debug)]
pub struct Row {
    pub id: String,
    pub root: String,
    pub created_at: String,
    pub updated_at: String,
}

/// Why a row does not read as a project: the first column that does not
/// read, in the order `id`, `created_at`, `updated_at`.
pub open spec fn row_error(row: Row) -> Option<Seq<char>> {
    first_error(seq![id_error(row.id@), instant_error(row.created_at@), instant_error(row.updated_at@)])
}

impl Model {
    /// Reads a project row: every column as its type, or the message of the
    /// first column that does not read.
    pub fn try_from(row: Row) -> (r: Result<Self, String>)
        ensures
            match r {
                Ok(m) => {
                    &&& row_error(row) is None
                    &&& m.created_at == instant_of(row.created_at@)
                    &&& reads_as_id(row.id@, m.id)
                    &&& m.root@ == row.root@
                    &&& m.updated_at == instant_of(row.updated_at@)
                },
                Err(e) => row_error(row) == Some(e@),
            },
    {
        proof {
            reveal_with_fuel(first_error, 4);
        }
        let id = match Id::parse_str(row.id.as_str()) {
            Ok(id) => id,
            Err(e) => return Err(e),
        };
        let created_at = match read_instant(row.created_at.as_str()) {
            Ok(t) => t,
            Err(e) => return Err(e),
        };
        let updated_at = match read_instant(row.updated_at.as_str()) {
            Ok(t) => t,
            Err(e) => return Err(e),
        };
        Ok(Model { created_at, id, root: row.root, updated_at })
    }
}

} // verus!
