//! Cascade deletion of a top-level entity: the rows that depend on it are
//! captured before they go, so that each can be recorded in the audit log
//! and put back by an undo.

use vstd::prelude::*;

use crate::meta::Meta;
use crate::primitives::EntityType;
use crate::primitives::entity_type::kind_name;
use crate::text::{chars_of, decimal, decimal_chars, push_all, same_str, string_of, strs};

verus! {

/// Per-table counts of rows removed by a cascade delete.
#[derive(Clone, Copy, Debug, PartialEq, Eq, Structural)]
pub struct DeleteReport {
    /// Number of `iteration_tasks` join rows removed.
    pub iteration_tasks: usize,
    /// Number of attached notes removed.
    pub notes: usize,
    /// Number of relationships (in either direction) removed.
    pub relationships: usize,
    /// Number of `entity_tags` attachments removed.
    pub tags: usize,
}

impl Default for DeleteReport {
    /// Nothing removed.
    fn default() -> (r: Self)
        ensures
            r == (DeleteReport { iteration_tasks: 0, notes: 0, relationships: 0, tags: 0 }),
    {
        DeleteReport { iteration_tasks: 0, notes: 0, relationships: 0, tags: 0 }
    }
}

/// A snapshot of a dependent row taken before it is deleted.
#[derive(Debug)]
pub enum CapturedChild {
    EntityTag { created_at: String, entity_id: String, entity_type: String, tag_id: String },
    IterationTask { created_at: String, iteration_id: String, phase: i64, task_id: String },
    Note {
        author_id: Option<String>,
        body: String,
        created_at: String,
        entity_id: String,
        entity_type: String,
        id: String,
        updated_at: String,
    },
    Relationship {
        created_at: String,
        id: String,
        rel_type: String,
        source_id: String,
        source_type: String,
        target_id: String,
        target_type: String,
        updated_at: String,
    },
}

/// The logical key of a captured row in the audit log.
pub open spec fn spec_audit_row_id(c: CapturedChild) -> Seq<char> {
    match c {
        CapturedChild::EntityTag { entity_id, entity_type, tag_id, .. } => entity_type@ + seq![':'] + entity_id@
            + seq![':'] + tag_id@,
        CapturedChild::IterationTask { iteration_id, task_id, .. } => iteration_id@ + seq![':'] + task_id@,
        CapturedChild::Note { id, .. } => id@,
        CapturedChild::Relationship { id, .. } => id@,
    }
}

/// The statement that deletes a captured row: by its key columns for a tag
/// or membership row, by its id otherwise.
pub open spec fn spec_delete_sql(c: CapturedChild) -> Seq<char> {
    match c {
        CapturedChild::EntityTag { .. } => "DELETE FROM entity_tags WHERE entity_type = ?1 AND entity_id = ?2 AND tag_id = ?3"@,
        CapturedChild::IterationTask { .. } => "DELETE FROM iteration_tasks WHERE iteration_id = ?1 AND task_id = ?2"@,
        CapturedChild::Note { .. } => "DELETE FROM notes WHERE id = ?1"@,
        CapturedChild::Relationship { .. } => "DELETE FROM relationships WHERE id = ?1"@,
    }
}

/// The parameters of that statement.
pub open spec fn spec_delete_params(c: CapturedChild) -> Seq<Seq<char>> {
    match c {
        CapturedChild::EntityTag { entity_id, entity_type, tag_id, .. } => seq![entity_type@, entity_id@, tag_id@],
        CapturedChild::IterationTask { iteration_id, task_id, .. } => seq![iteration_id@, task_id@],
        CapturedChild::Note { id, .. } => seq![id@],
        CapturedChild::Relationship { id, .. } => seq![id@],
    }
}

/// The table a captured row lives in.
pub open spec fn spec_table(c: CapturedChild) -> Seq<char> {
    match c {
        CapturedChild::EntityTag { .. } => "entity_tags"@,
        CapturedChild::IterationTask { .. } => "iteration_tasks"@,
        CapturedChild::Note { .. } => "notes"@,
        CapturedChild::Relationship { .. } => "relationships"@,
    }
}

/// The columns of the audit payload of a captured row, in key order.
pub open spec fn payload_keys(c: CapturedChild) -> Seq<Seq<char>> {
    match c {
        CapturedChild::EntityTag { .. } => seq!["created_at"@, "entity_id"@, "entity_type"@, "tag_id"@],
        CapturedChild::IterationTask { .. } => seq!["created_at"@, "iteration_id"@, "phase"@, "task_id"@],
        CapturedChild::Note { .. } => seq![
            "author_id"@,
            "body"@,
            "created_at"@,
            "entity_id"@,
            "entity_type"@,
            "id"@,
            "updated_at"@,
        ],
        CapturedChild::Relationship { .. } => seq![
            "created_at"@,
            "id"@,
            "rel_type"@,
            "source_id"@,
            "source_type"@,
            "target_id"@,
            "target_type"@,
            "updated_at"@,
        ],
    }
}

/// The values of the audit payload of a captured row, in key order: each
/// column's text, the phase as an integer, and a missing author as null.
pub open spec fn payload_values(c: CapturedChild) -> Seq<Meta> {
    match c {
        CapturedChild::EntityTag { created_at, entity_id, entity_type, tag_id } => seq![
            Meta::Text(created_at),
            Meta::Text(entity_id),
            Meta::Text(entity_type),
            Meta::Text(tag_id),
        ],
        CapturedChild::IterationTask { created_at, iteration_id, phase, task_id } => seq![
            Meta::Text(created_at),
            Meta::Text(iteration_id),
            Meta::Integer(phase),
            Meta::Text(task_id),
        ],
        CapturedChild::Note { author_id, body, created_at, entity_id, entity_type, id, updated_at } => seq![
            match author_id {
                Some(a) => Meta::Text(a),
                None => Meta::Null,
            },
            Meta::Text(body),
            Meta::Text(created_at),
            Meta::Text(entity_id),
            Meta::Text(entity_type),
            Meta::Text(id),
            Meta::Text(updated_at),
        ],
        CapturedChild::Relationship {
            created_at,
            id,
            rel_type,
            source_id,
            source_type,
            target_id,
            target_type,
            updated_at,
        } => seq![
            Meta::Text(created_at),
            Meta::Text(id),
            Meta::Text(rel_type),
            Meta::Text(source_id),
            Meta::Text(source_type),
            Meta::Text(target_id),
            Meta::Text(target_type),
            Meta::Text(updated_at),
        ],
    }
}

/// `m` is a table with exactly the given keys and values, in order.
pub open spec fn is_table_of(m: Meta, keys: Seq<Seq<char>>, values: Seq<Meta>) -> bool {
    &&& m is Table
    &&& m->Table_0@.len() == keys.len()
    &&& keys.len() == values.len()
    &&& forall|i: int|
        0 <= i < keys.len() ==> (#[trigger] m->Table_0@[i]).0@ == keys[i] && m->Table_0@[i].1 == values[i]
}

/// Concatenates string pieces.
fn join_pieces(pieces: &Vec<&str>) -> (r: String)
    ensures
        r@ == pieces@.map_values(|p: &str| p@).fold_left(Seq::<char>::empty(), |acc: Seq<char>, x: Seq<char>| acc + x),
{
    let mut out: Vec<char> = Vec::new();
    let mut i: usize = 0;
    while i < pieces.len()
        invariant
            0 <= i <= pieces.len(),
            out@ == pieces@.take(i as int).map_values(|p: &str| p@).fold_left(
                Seq::<char>::empty(),
                |acc: Seq<char>, x: Seq<char>| acc + x,
            ),
        decreases pieces.len() - i,
    {
        let c = chars_of(pieces[i]);
        push_all(&mut out, &c);
        proof {
            let f = |acc: Seq<char>, x: Seq<char>| acc + x;
            let s = pieces@.take(i + 1).map_values(|p: &str| p@);
            assert(s.drop_last() =~= pieces@.take(i as int).map_values(|p: &str| p@));
        }
        i = i + 1;
    }
    assert(pieces@.take(pieces.len() as int) =~= pieces@);
    string_of(&out)
}

impl CapturedChild {
    /// The logical key used to identify this row in the audit log.
    pub fn audit_row_id(&self) -> (r: String)
        ensures
            r@ == spec_audit_row_id(*self),
    {
        match self {
            CapturedChild::EntityTag { entity_id, entity_type, tag_id, .. } => {
                let pieces = vec![entity_type.as_str(), ":", entity_id.as_str(), ":", tag_id.as_str()];
                proof {
                    reveal_strlit(":");
                    reveal_with_fuel(Seq::fold_left, 6);
                }
                let r = join_pieces(&pieces);
                proof {
                    let s = pieces@.map_values(|p: &str| p@);
                    assert(s =~= seq![entity_type@, ":"@, entity_id@, ":"@, tag_id@]);
                }
                r
            },
            CapturedChild::IterationTask { iteration_id, task_id, .. } => {
                let pieces = vec![iteration_id.as_str(), ":", task_id.as_str()];
                proof {
                    reveal_strlit(":");
                    reveal_with_fuel(Seq::fold_left, 4);
                }
                let r = join_pieces(&pieces);
                proof {
                    let s = pieces@.map_values(|p: &str| p@);
                    assert(s =~= seq![iteration_id@, ":"@, task_id@]);
                }
                r
            },
            CapturedChild::Note { id, .. } => id.clone(),
            CapturedChild::Relationship { id, .. } => id.clone(),
        }
    }

    /// The statement that deletes this captured row from its table, with its
    /// parameters.
    pub fn delete_statement(&self) -> (r: (&'static str, Vec<String>))
        ensures
            r.0@ == spec_delete_sql(*self),
            strs(r.1@) == spec_delete_params(*self),
    {
        match self {
            CapturedChild::EntityTag { entity_id, entity_type, tag_id, .. } => {
                let params = vec![entity_type.clone(), entity_id.clone(), tag_id.clone()];
                assert(strs(params@) =~= seq![entity_type@, entity_id@, tag_id@]);
                ("DELETE FROM entity_tags WHERE entity_type = ?1 AND entity_id = ?2 AND tag_id = ?3", params)
            },
            CapturedChild::IterationTask { iteration_id, task_id, .. } => {
                let params = vec![iteration_id.clone(), task_id.clone()];
                assert(strs(params@) =~= seq![iteration_id@, task_id@]);
                ("DELETE FROM iteration_tasks WHERE iteration_id = ?1 AND task_id = ?2", params)
            },
            CapturedChild::Note { id, .. } => {
                let params = vec![id.clone()];
                assert(strs(params@) =~= seq![id@]);
                ("DELETE FROM notes WHERE id = ?1", params)
            },
            CapturedChild::Relationship { id, .. } => {
                let params = vec![id.clone()];
                assert(strs(params@) =~= seq![id@]);
                ("DELETE FROM relationships WHERE id = ?1", params)
            },
        }
    }

    /// The table this captured row lives in.
    pub fn table(&self) -> (r: &'static str)
        ensures
            r@ == spec_table(*self),
    {
        match self {
            CapturedChild::EntityTag { .. } => "entity_tags",
            CapturedChild::IterationTask { .. } => "iteration_tasks",
            CapturedChild::Note { .. } => "notes",
            CapturedChild::Relationship { .. } => "relationships",
        }
    }

    /// The payload recorded in the audit log for this row: a table whose
    /// keys are the row's columns (in key order) and whose values are the
    /// column values, so that an undo can insert the row again from it.
    pub fn to_audit_payload(&self) -> (r: Meta)
        ensures
            is_table_of(r, payload_keys(*self), payload_values(*self)),
    {
        let t = |s: &String| -> (m: Meta)
            ensures
                m == Meta::Text(*s),
        { Meta::Text(s.clone()) };
        let entries: Vec<(String, Meta)> = match self {
            CapturedChild::EntityTag { created_at, entity_id, entity_type, tag_id } => vec![
                ("created_at".to_string(), t(created_at)),
                ("entity_id".to_string(), t(entity_id)),
                ("entity_type".to_string(), t(entity_type)),
                ("tag_id".to_string(), t(tag_id)),
            ],
            CapturedChild::IterationTask { created_at, iteration_id, phase, task_id } => vec![
                ("created_at".to_string(), t(created_at)),
                ("iteration_id".to_string(), t(iteration_id)),
                ("phase".to_string(), Meta::Integer(*phase)),
                ("task_id".to_string(), t(task_id)),
            ],
            CapturedChild::Note { author_id, body, created_at, entity_id, entity_type, id, updated_at } => vec![
                (
                    "author_id".to_string(),
                    match author_id {
                        Some(a) => t(a),
                        None => Meta::Null,
                    },
                ),
                ("body".to_string(), t(body)),
                ("created_at".to_string(), t(created_at)),
                ("entity_id".to_string(), t(entity_id)),
                ("entity_type".to_string(), t(entity_type)),
                ("id".to_string(), t(id)),
                ("updated_at".to_string(), t(updated_at)),
            ],
            CapturedChild::Relationship {
                created_at,
                id,
                rel_type,
                source_id,
                source_type,
                target_id,
                target_type,
                updated_at,
            } => vec![
                ("created_at".to_string(), t(created_at)),
                ("id".to_string(), t(id)),
                ("rel_type".to_string(), t(rel_type)),
                ("source_id".to_string(), t(source_id)),
                ("source_type".to_string(), t(source_type)),
                ("target_id".to_string(), t(target_id)),
                ("target_type".to_string(), t(target_type)),
                ("updated_at".to_string(), t(updated_at)),
            ],
        };
        Meta::Table(entries)
    }
}

/// The parent table of an entity kind and the statement that deletes one of its rows.
pub fn parent_table_and_sql(entity_type: EntityType) -> (r: (&'static str, &'static str))
    ensures
        r.0@ == match entity_type {
            EntityType::Artifact => "artifacts"@,
            EntityType::Iteration => "iterations"@,
            EntityType::Task => "tasks"@,
        },
        r.1@ == "DELETE FROM "@ + r.0@ + " WHERE id = ?1"@,
{
    proof {
        reveal_strlit("artifacts");
        reveal_strlit("iterations");
        reveal_strlit("tasks");
        reveal_strlit("DELETE FROM ");
        reveal_strlit(" WHERE id = ?1");
        reveal_strlit("DELETE FROM artifacts WHERE id = ?1");
        reveal_strlit("DELETE FROM iterations WHERE id = ?1");
        reveal_strlit("DELETE FROM tasks WHERE id = ?1");
    }
    match entity_type {
        EntityType::Artifact => {
            assert("DELETE FROM artifacts WHERE id = ?1"@ =~= "DELETE FROM "@ + "artifacts"@ + " WHERE id = ?1"@);
            ("artifacts", "DELETE FROM artifacts WHERE id = ?1")
        },
        EntityType::Iteration => {
            assert("DELETE FROM iterations WHERE id = ?1"@ =~= "DELETE FROM "@ + "iterations"@
                + " WHERE id = ?1"@);
            ("iterations", "DELETE FROM iterations WHERE id = ?1")
        },
        EntityType::Task => {
            assert("DELETE FROM tasks WHERE id = ?1"@ =~= "DELETE FROM "@ + "tasks"@ + " WHERE id = ?1"@);
            ("tasks", "DELETE FROM tasks WHERE id = ?1")
        },
    }
}

/// The placeholder `?n`.
pub open spec fn placeholder(n: nat) -> Seq<char> {
    seq!['?'] + decimal(n)
}

/// `?start, ?start+1, ...` for `count` placeholders, joined by `", "`.
pub open spec fn spec_placeholders(start: nat, count: nat) -> Seq<char>
    decreases count,
{
    if count == 0 {
        Seq::empty()
    } else if count == 1 {
        placeholder(start)
    } else {
        spec_placeholders(start, (count - 1) as nat) + ", "@ + placeholder((start + count - 1) as nat)
    }
}

/// Builds the placeholder list `?start, ?start+1, ...` with `count` entries.
pub fn placeholders(start: usize, count: usize) -> (r: String)
    requires
        start + count <= usize::MAX,
    ensures
        r@ == spec_placeholders(start as nat, count as nat),
{
    proof {
        reveal_strlit(", ");
    }
    let mut out: Vec<char> = Vec::new();
    let mut k: usize = 0;
    while k < count
        invariant
            0 <= k <= count,
            start + count <= usize::MAX,
            out@ == spec_placeholders(start as nat, k as nat),
        decreases count - k,
    {
        let ghost before = out@;
        if k > 0 {
            out.push(',');
            out.push(' ');
        }
        out.push('?');
        let d = decimal_chars(start + k);
        push_all(&mut out, &d);
        proof {
            reveal_strlit(", ");
            assert(", "@ =~= seq![',', ' ']);
            if k > 0 {
                assert(out@ =~= before + ", "@ + placeholder((start + k) as nat));
            } else {
                assert(out@ =~= placeholder(start as nat));
            }
        }
        k = k + 1;
    }
    string_of(&out)
}

/// Position of the first requested id that the parent lookup did not return.
pub open spec fn first_missing(requested: Seq<Seq<char>>, found: Seq<Seq<char>>, i: int) -> bool {
    &&& 0 <= i < requested.len()
    &&& !found.contains(requested[i])
    &&& forall|j: int| 0 <= j < i ==> found.contains(#[trigger] requested[j])
}

/// After the parent rows of `requested` were looked up and the rows with ids
/// `found` came back, the error to report: `None` when as many rows came back
/// as were asked for, else the text `"<kind> <id>"` for the first requested id
/// that is missing (`None` again if every requested id is there).
pub fn missing_parent(entity_type: EntityType, requested: &Vec<String>, found: &Vec<String>) -> (r:
    Option<String>)
    ensures
        found.len() == requested.len() ==> r is None,
        r is None <==> (found.len() == requested.len() || forall|i: int|
            0 <= i < requested.len() ==> strs(found@).contains(#[trigger] strs(requested@)[i])),
        r matches Some(msg) ==> exists|i: int|
            first_missing(strs(requested@), strs(found@), i) && msg@ == kind_name(entity_type) + " "@
                + requested@[i]@,
{
    if found.len() == requested.len() {
        return None;
    }
    let mut i: usize = 0;
    while i < requested.len()
        invariant
            0 <= i <= requested.len(),
            found.len() != requested.len(),
            forall|j: int| 0 <= j < i ==> strs(found@).contains(#[trigger] strs(requested@)[j]),
        decreases requested.len() - i,
    {
        let mut k: usize = 0;
        let mut seen = false;
        while k < found.len()
            invariant
                0 <= k <= found.len(),
                i < requested.len(),
                seen <==> exists|m: int| 0 <= m < k && found@[m]@ == requested@[i as int]@,
            decreases found.len() - k,
        {
            if same_str(found[k].as_str(), requested[i].as_str()) {
                seen = true;
            }
            k = k + 1;
        }
        if !seen {
            proof {
                assert forall|m: int| 0 <= m < strs(found@).len() implies strs(found@)[m]
                    != strs(requested@)[i as int] by {}
            }
            let mut msg: Vec<char> = chars_of(entity_type.as_str());
            msg.push(' ');
            let id = chars_of(requested[i].as_str());
            push_all(&mut msg, &id);
            proof {
                reveal_strlit(" ");
                assert(msg@ =~= kind_name(entity_type) + " "@ + requested@[i as int]@);
                assert(first_missing(strs(requested@), strs(found@), i as int));
            }
            return Some(string_of(&msg));
        }
        proof {
            let m = choose|m: int| 0 <= m < k && found@[m]@ == requested@[i as int]@;
            assert(strs(found@)[m] == strs(requested@)[i as int]);
        }
        i = i + 1;
    }
    None
}

/// The audit-log entry recorded for a deleted row.
#[derive(Debug)]
pub struct AuditRecord {
    pub table: String,
    pub row_id: String,
    pub payload: Meta,
}

/// `rec` records the deletion of `c`.
pub open spec fn records_child(rec: AuditRecord, c: CapturedChild) -> bool {
    &&& rec.table@ == spec_table(c)
    &&& rec.row_id@ == spec_audit_row_id(c)
    &&& is_table_of(rec.payload, payload_keys(c), payload_values(c))
}

/// Appends the audit entries of a group of captured rows, in order.
fn record_group(out: &mut Vec<AuditRecord>, group: &Vec<CapturedChild>)
    ensures
        final(out)@.len() == old(out)@.len() + group@.len(),
        forall|i: int| 0 <= i < old(out)@.len() ==> #[trigger] final(out)@[i] == old(out)@[i],
        forall|i: int|
            0 <= i < group@.len() ==> records_child(#[trigger] final(out)@[old(out)@.len() + i], group@[i]),
{
    let ghost start = out@;
    let mut i: usize = 0;
    while i < group.len()
        invariant
            0 <= i <= group.len(),
            out@.len() == start.len() + i,
            forall|j: int| 0 <= j < start.len() ==> #[trigger] out@[j] == start[j],
            forall|j: int| 0 <= j < i ==> records_child(#[trigger] out@[start.len() + j], group@[j]),
        decreases group.len() - i,
    {
        let c = &group[i];
        let table = c.table().to_string();
        let rec = AuditRecord { table, row_id: c.audit_row_id(), payload: c.to_audit_payload() };
        out.push(rec);
        i = i + 1;
    }
}

/// What a cascade delete records and reports, given the rows captured
/// before it: the audit entries of the dependent rows in restore order
/// (notes, tag attachments, relationships, iteration memberships), and the
/// count of each kind.
pub fn cascade_records(
    notes: &Vec<CapturedChild>,
    entity_tags: &Vec<CapturedChild>,
    relationships: &Vec<CapturedChild>,
    iteration_tasks: &Vec<CapturedChild>,
) -> (r: (DeleteReport, Vec<AuditRecord>))
    ensures
        r.0 == (DeleteReport {
            iteration_tasks: iteration_tasks@.len() as usize,
            notes: notes@.len() as usize,
            relationships: relationships@.len() as usize,
            tags: entity_tags@.len() as usize,
        }),
        r.1@.len() == notes@.len() + entity_tags@.len() + relationships@.len() + iteration_tasks@.len(),
        forall|i: int|
            0 <= i < r.1@.len() ==> records_child(
                #[trigger] r.1@[i],
                (notes@ + entity_tags@ + relationships@ + iteration_tasks@)[i],
            ),
{
    let report = DeleteReport {
        iteration_tasks: iteration_tasks.len(),
        notes: notes.len(),
        relationships: relationships.len(),
        tags: entity_tags.len(),
    };
    let mut out: Vec<AuditRecord> = Vec::new();
    record_group(&mut out, notes);
    let ghost o1 = out@;
    record_group(&mut out, entity_tags);
    let ghost o2 = out@;
    record_group(&mut out, relationships);
    let ghost o3 = out@;
    record_group(&mut out, iteration_tasks);
    proof {
        let all = notes@ + entity_tags@ + relationships@ + iteration_tasks@;
        let (a, b, c) = (notes@.len(), entity_tags@.len(), relationships@.len());
        assert forall|i: int| 0 <= i < out@.len() implies records_child(#[trigger] out@[i], all[i]) by {
            if i < a {
                assert(out@[i] == o3[i]);
                assert(o3[i] == o2[i]);
                assert(o2[i] == o1[i]);
                assert(o1[0 + i] == o1[i]);
            } else if i < a + b {
                assert(out@[i] == o3[i]);
                assert(o3[i] == o2[i]);
                assert(o2[a + (i - a)] == o2[i]);
            } else if i < a + b + c {
                assert(out@[i] == o3[i]);
                assert(o3[(a + b) + (i - a - b)] == o3[i]);
            } else {
                assert(out@[(a + b + c) + (i - a - b - c)] == out@[i]);
            }
        }
    }
    (report, out)
}

} // verus!
