//! Transactions and their events: the stored records of commands that can be
//! undone, and how their rows are read.

use vstd::prelude::*;

use crate::model::fields::{
    first_error, id_error, instant_error, instant_of, opt_id_error, opt_instant_error, opt_instant_of,
    opt_json_error, read_instant, read_opt_id, read_opt_instant, check_opt_json, reads_as_id, reads_as_opt_id,
    Timestamp,
};
use crate::primitives::Id;

verus! {

/// A recorded command execution, for undo.
#[derive(Debug)]
pub struct Model {
    pub author_id: Option<Id>,
    pub command: String,
    pub created_at: Timestamp,
    pub id: Id,
    pub project_id: Id,
    pub undone_at: Option<Timestamp>,
}

/// The columns of a transaction row, in query order: `id`, `project_id`,
/// `command`, `created_at`, `undone_at`, `author_id`.
#[derive(Clone, Debug)]
pub struct Row {
    pub id: String,
    pub project_id: String,
    pub command: String,
    pub created_at: String,
    pub undone_at: Option<String>,
    pub author_id: Option<String>,
}

/// Why a row does not read as a transaction: the first column that does not
/// read, in the order `author_id`, `created_at`, `id`, `project_id`,
/// `undone_at`.
pub open spec fn row_error(row: Row) -> Option<Seq<char>> {
    first_error(
        seq![
            opt_id_error(row.author_id),
            instant_error(row.created_at@),
            id_error(row.id@),
            id_error(row.project_id@),
            opt_instant_error(row.undone_at),
        ],
    )
}

impl Model {
    /// Reads a transaction row: every column as its type, or the message of
    /// the first column that does not read.
    pub fn try_from(row: Row) -> (r: Result<Self, String>)
        ensures
            match r {
                Ok(m) => {
                    &&& row_error(row) is None
                    &&& reads_as_opt_id(row.author_id, m.author_id)
                    &&& m.command@ == row.command@
                    &&& m.created_at == instant_of(row.created_at@)
                    &&& reads_as_id(row.id@, m.id)
                    &&& reads_as_id(row.project_id@, m.project_id)
                    &&& m.undone_at == opt_instant_of(row.undone_at)
                },
                Err(e) => row_error(row) == Some(e@),
            },
    {
        proof {
            reveal_with_fuel(first_error, 6);
        }
        let author_id = match read_opt_id(&row.author_id) {
            Ok(a) => a,
            Err(e) => return Err(e),
        };
        let created_at = match read_instant(row.created_at.as_str()) {
            Ok(t) => t,
            Err(e) => return Err(e),
        };
        let id = match Id::parse_str(row.id.as_str()) {
            Ok(id) => id,
            Err(e) => return Err(e),
        };
        let project_id = match Id::parse_str(row.project_id.as_str()) {
            Ok(id) => id,
            Err(e) => return Err(e),
        };
        let undone_at = match read_opt_instant(&row.undone_at) {
            Ok(t) => t,
            Err(e) => return Err(e),
        };
        Ok(Model { author_id, command: row.command, created_at, id, project_id, undone_at })
    }
}

/// A single change recorded within a transaction, for undo.
#[derive(Debug)]
pub struct Event {
    /// The row's prior state as the JSON text it was recorded as.
    pub before_data: Option<String>,
    pub created_at: Timestamp,
    pub event_type: String,
    pub id: Id,
    pub new_value: Option<String>,
    pub old_value: Option<String>,
    pub row_id: String,
    pub semantic_type: Option<String>,
    pub table_name: String,
    pub transaction_id: Id,
}

/// The columns of an event row, in query order: `id`, `transaction_id`,
/// `before_data`, `created_at`, `event_type`, `row_id`, `table_name`,
/// `semantic_type`, `old_value`, `new_value`.
#[derive(Clone, Debug)]
pub struct EventRow {
    pub id: String,
    pub transaction_id: String,
    pub before_data: Option<String>,
    pub created_at: String,
    pub event_type: String,
    pub row_id: String,
    pub table_name: String,
    pub semantic_type: Option<String>,
    pub old_value: Option<String>,
    pub new_value: Option<String>,
}

/// Why a row does not read as an event: the first column that does not read,
/// in the order `before_data`, `created_at`, `id`, `transaction_id`.
pub open spec fn event_row_error(row: EventRow) -> Option<Seq<char>> {
    first_error(
        seq![
            opt_json_error(row.before_data),
            instant_error(row.created_at@),
            id_error(row.id@),
            id_error(row.transaction_id@),
        ],
    )
}

/// The view of an optional string.
pub open spec fn opt_text(o: Option<String>) -> Option<Seq<char>> {
    match o {
        Some(s) => Some(s@),
        None => None,
    }
}

impl Event {
    /// Reads an event row: the prior state as JSON when recorded, every other
    /// column as its type, or the message of the first column that does not
    /// read.
    pub fn try_from(row: EventRow) -> (r: Result<Self, String>)
        ensures
            match r {
                Ok(ev) => {
                    &&& event_row_error(row) is None
                    &&& opt_text(ev.before_data) == opt_text(row.before_data)
                    &&& ev.created_at == instant_of(row.created_at@)
                    &&& ev.event_type@ == row.event_type@
                    &&& reads_as_id(row.id@, ev.id)
                    &&& opt_text(ev.new_value) == opt_text(row.new_value)
                    &&& opt_text(ev.old_value) == opt_text(row.old_value)
                    &&& ev.row_id@ == row.row_id@
                    &&& opt_text(ev.semantic_type) == opt_text(row.semantic_type)
                    &&& ev.table_name@ == row.table_name@
                    &&& reads_as_id(row.transaction_id@, ev.transaction_id)
                },
                Err(e) => event_row_error(row) == Some(e@),
            },
    {
        proof {
            reveal_with_fuel(first_error, 5);
        }
        match check_opt_json(&row.before_data) {
            Ok(()) => {},
            Err(e) => return Err(e),
        }
        let created_at = match read_instant(row.created_at.as_str()) {
            Ok(t) => t,
            Err(e) => return Err(e),
        };
        let id = match Id::parse_str(row.id.as_str()) {
            Ok(id) => id,
            Err(e) => return Err(e),
        };
        let transaction_id = match Id::parse_str(row.transaction_id.as_str()) {
            Ok(id) => id,
            Err(e) => return Err(e),
        };
        Ok(
            Event {
                before_data: row.before_data,
                created_at,
                event_type: row.event_type,
                id,
                new_value: row.new_value,
                old_value: row.old_value,
                row_id: row.row_id,
                semantic_type: row.semantic_type,
                table_name: row.table_name,
                transaction_id,
            },
        )
    }
}

/// A semantic event of the activity timeline, with its transaction's author.
#[derive(Debug)]
pub struct SemanticEvent {
    pub author_id: Option<Id>,
    pub created_at: Timestamp,
    pub id: Id,
    pub new_value: Option<String>,
    pub old_value: Option<String>,
    pub row_id: String,
    pub semantic_type: String,
    pub table_name: String,
}

/// The columns of a timeline row, in query order: `id`, `row_id`,
/// `table_name`, `semantic_type`, `old_value`, `new_value`, `created_at`,
/// and the transaction's `author_id`.
#[derive(Clone, Debug)]
pub struct SemanticEventRow {
    pub id: String,
    pub row_id: String,
    pub table_name: String,
    pub semantic_type: String,
    pub old_value: Option<String>,
    pub new_value: Option<String>,
    pub created_at: String,
    pub author_id: Option<String>,
}

/// Why a row does not read as a timeline entry: the first column that does
/// not read, in the order `id`, `author_id`, `created_at`.
pub open spec fn semantic_row_error(row: SemanticEventRow) -> Option<Seq<char>> {
    first_error(seq![id_error(row.id@), opt_id_error(row.author_id), instant_error(row.created_at@)])
}

impl SemanticEvent {
    /// Reads a timeline row: every column as its type, or the message of the
    /// first column that does not read.
    pub fn try_from(row: SemanticEventRow) -> (r: Result<Self, String>)
        ensures
            match r {
                Ok(ev) => {
                    &&& semantic_row_error(row) is None
                    &&& reads_as_opt_id(row.author_id, ev.author_id)
                    &&& ev.created_at == instant_of(row.created_at@)
                    &&& reads_as_id(row.id@, ev.id)
                    &&& opt_text(ev.new_value) == opt_text(row.new_value)
                    &&& opt_text(ev.old_value) == opt_text(row.old_value)
                    &&& ev.row_id@ == row.row_id@
                    &&& ev.semantic_type@ == row.semantic_type@
                    &&& ev.table_name@ == row.table_name@
                },
                Err(e) => semantic_row_error(row) == Some(e@),
            },
    {
        proof {
            reveal_with_fuel(first_error, 4);
        }
        let id = match Id::parse_str(row.id.as_str()) {
            Ok(id) => id,
            Err(e) => return Err(e),
        };
        let author_id = match read_opt_id(&row.author_id) {
            Ok(a) => a,
            Err(e) => return Err(e),
        };
        let created_at = match read_instant(row.created_at.as_str()) {
            Ok(t) => t,
            Err(e) => return Err(e),
        };
        Ok(
            SemanticEvent {
                author_id,
                created_at,
                id,
                new_value: row.new_value,
                old_value: row.old_value,
                row_id: row.row_id,
                semantic_type: row.semantic_type,
                table_name: row.table_name,
            },
        )
    }
}

} // verus!
