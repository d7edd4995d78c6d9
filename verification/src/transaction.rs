//! Undoing a transaction: each recorded event is replayed backwards as one
//! SQL statement, built from the event's table, row and prior state.

use vstd::prelude::*;

use crate::delete::{payload_keys, payload_values, placeholders, spec_placeholders, spec_table, CapturedChild};
use crate::meta::Meta;
use crate::text::{chars_of, decimal, decimal_chars, join_with, push_all, same_str, string_of};

verus! {

/// A value of a row's recorded prior state, as a statement parameter sees it.
#[derive(Debug)]
pub enum BeforeValue {
    /// A string, bound as its text.
    Text(String),
    /// A null.
    Null,
    /// Any other value, bound as its compact JSON text.
    Json(String),
}

/// One recorded change of a transaction.
#[derive(Debug)]
pub struct UndoEvent {
    /// `created`, `modified` or `deleted` (others are not replayed).
    pub event_type: String,
    pub table_name: String,
    pub row_id: String,
    /// The row's columns before the change, when they were recorded as an object.
    pub before: Option<Vec<(String, BeforeValue)>>,
}

/// A statement and its positional parameters (`None` binds SQL `NULL`).
#[derive(Debug)]
pub struct Statement {
    pub sql: String,
    pub params: Vec<Option<String>>,
}

/// The view of a parameter.
pub open spec fn param_view(p: Option<String>) -> Option<Seq<char>> {
    match p {
        Some(s) => Some(s@),
        None => None,
    }
}

/// The kind of a recorded value: 0 for a string, 1 for null, 2 for anything
/// else.
pub open spec fn value_kind(v: BeforeValue) -> u8 {
    match v {
        BeforeValue::Text(_) => 0,
        BeforeValue::Null => 1,
        BeforeValue::Json(_) => 2,
    }
}

/// The text of a recorded value: the string, nothing for null, or the
/// compact JSON text.
pub open spec fn value_text(v: BeforeValue) -> Seq<char> {
    match v {
        BeforeValue::Text(t) => t@,
        BeforeValue::Null => Seq::empty(),
        BeforeValue::Json(t) => t@,
    }
}

/// The view of recorded entries: key, kind of value, text of value.
pub open spec fn entries_view(v: Seq<(String, BeforeValue)>) -> Seq<(Seq<char>, u8, Seq<char>)> {
    v.map_values(|kv: (String, BeforeValue)| (kv.0@, value_kind(kv.1), value_text(kv.1)))
}

/// What serde_json reads from recorded JSON text when it is an object: its
/// entries in the order the parsed map yields them, each value as its kind
/// (0 a string, 1 null, 2 anything else) and text (the string itself,
/// nothing, or the value's compact JSON text); none for text that does not
/// parse as a JSON object.
pub uninterp spec fn json_object_entries(s: Seq<char>) -> Option<Seq<(Seq<char>, u8, Seq<char>)>>;

/// Parses recorded JSON text with `serde_json::from_str` and, when it is an
/// object, takes its entries: a string as text, null as null, any other
/// value as its compact JSON text (`Value::to_string`). Claimed: the result
/// is what `json_object_entries` names for the text.
#[verifier::external_body]
fn object_entries(text: &str) -> (r: Option<Vec<(String, BeforeValue)>>)
    ensures
        match r {
            Some(v) => json_object_entries(text@) == Some(entries_view(v@)),
            None => json_object_entries(text@) is None,
        },
{
    match serde_json::from_str::<serde_json::Value>(text) {
        Ok(serde_json::Value::Object(map)) => Some(map.into_iter().map(|(k, v)| (k, match v {
            serde_json::Value::String(s) => BeforeValue::Text(s),
            serde_json::Value::Null => BeforeValue::Null,
            other => BeforeValue::Json(other.to_string()),
        })).collect()),
        _ => None,
    }
}

/// The event undo replays for a recorded change: its type, table and row,
/// and, when its prior state was recorded as a JSON object, that object's
/// entries; other recorded text gives no entries.
pub fn undo_event(event_type: &str, table_name: &str, row_id: &str, before_data: Option<&str>) -> (r: UndoEvent)
    ensures
        r.event_type@ == event_type@,
        r.table_name@ == table_name@,
        r.row_id@ == row_id@,
        match before_data {
            Some(t) => match json_object_entries(t@) {
                Some(es) => r.before matches Some(v) && entries_view(v@) == es,
                None => r.before is None,
            },
            None => r.before is None,
        },
{
    let before = match before_data {
        Some(t) => object_entries(t),
        None => None,
    };
    UndoEvent {
        event_type: event_type.to_string(),
        table_name: table_name.to_string(),
        row_id: row_id.to_string(),
        before,
    }
}

/// The SET clauses, parameters and next parameter number of an update that
/// restores `entries`: the `id` column is skipped; every other column gets a
/// clause with its own parameter number, bound to its recorded value (a
/// recorded null binds SQL `NULL`).
pub open spec fn restore_parts(entries: Seq<(String, BeforeValue)>) -> (Seq<Seq<char>>, Seq<Option<Seq<char>>>, nat)
    decreases entries.len(),
{
    if entries.len() == 0 {
        (Seq::empty(), Seq::empty(), 1)
    } else {
        let (sets, params, idx) = restore_parts(entries.drop_last());
        let (k, v) = entries.last();
        if k@ == "id"@ {
            (sets, params, idx)
        } else {
            let clause = k@ + " = ?"@ + decimal(idx);
            match v {
                BeforeValue::Null => (sets.push(clause), params.push(None), idx + 1),
                BeforeValue::Text(t) => (sets.push(clause), params.push(Some(t@)), idx + 1),
                BeforeValue::Json(t) => (sets.push(clause), params.push(Some(t@)), idx + 1),
            }
        }
    }
}

/// What a re-inserted column is bound to: its text, or SQL `NULL` for a
/// recorded null.
pub open spec fn insert_param(v: BeforeValue) -> Option<Seq<char>> {
    match v {
        BeforeValue::Text(t) => Some(t@),
        BeforeValue::Null => None,
        BeforeValue::Json(t) => Some(t@),
    }
}

/// What undoing one event executes, if anything: a created row is deleted,
/// a modified row has its recorded columns restored, a deleted row is
/// inserted again from its recorded columns.
pub open spec fn spec_undo(e: UndoEvent) -> Option<(Seq<char>, Seq<Option<Seq<char>>>)> {
    if e.event_type@ == "created"@ {
        Some(("DELETE FROM "@ + e.table_name@ + " WHERE id = ?1"@, seq![Some(e.row_id@)]))
    } else if e.event_type@ == "modified"@ {
        match e.before {
            Some(entries) => {
                let (sets, params, idx) = restore_parts(entries@);
                if sets.len() == 0 {
                    None
                } else {
                    Some(
                        (
                            "UPDATE "@ + e.table_name@ + " SET "@ + join_with(sets, ", "@) + " WHERE id = ?"@
                                + decimal(idx),
                            params.push(Some(e.row_id@)),
                        ),
                    )
                }
            },
            None => None,
        }
    } else if e.event_type@ == "deleted"@ {
        match e.before {
            Some(entries) => Some(
                (
                    "INSERT OR IGNORE INTO "@ + e.table_name@ + " ("@ + join_with(
                        entries@.map_values(|kv: (String, BeforeValue)| kv.0@),
                        ", "@,
                    ) + ") VALUES ("@ + spec_placeholders(1, entries@.len()) + ")"@,
                    entries@.map_values(|kv: (String, BeforeValue)| insert_param(kv.1)),
                ),
            ),
            None => None,
        }
    } else {
        None
    }
}

/// The recorded columns of an event can be counted in a `usize` with room
/// for one more.
pub open spec fn fits(e: UndoEvent) -> bool {
    e.before matches Some(v) ==> v.len() < usize::MAX
}

/// The view of a statement.
pub open spec fn statement_view(s: Statement) -> (Seq<char>, Seq<Option<Seq<char>>>) {
    (s.sql@, s.params@.map_values(|p: Option<String>| param_view(p)))
}

/// Appends `sep` (unless `out` is the first piece) and then `piece`.
fn push_joined(out: &mut Vec<char>, first: bool, sep: &str, piece: &Vec<char>)
    ensures
        final(out)@ == old(out)@ + (if first {
            Seq::<char>::empty()
        } else {
            sep@
        }) + piece@,
{
    if !first {
        let s = chars_of(sep);
        push_all(out, &s);
    }
    push_all(out, piece);
}

/// Copies a string.
fn copy_string(s: &String) -> (r: String)
    ensures
        r@ == s@,
{
    s.clone()
}

/// The statement that undoes one event, if any.
pub fn undo_statement(e: &UndoEvent) -> (r: Option<Statement>)
    requires
        fits(*e),
    ensures
        match r {
            Some(st) => spec_undo(*e) == Some(statement_view(st)),
            None => spec_undo(*e) is None,
        },
{
    proof {
        reveal_strlit("created");
        reveal_strlit("modified");
        reveal_strlit("deleted");
        reveal_strlit("id");
        reveal_strlit(" = ?");
        reveal_strlit(", ");
    }
    if same_str(e.event_type.as_str(), "created") {
        let mut sql = chars_of("DELETE FROM ");
        let t = chars_of(e.table_name.as_str());
        push_all(&mut sql, &t);
        let tail = chars_of(" WHERE id = ?1");
        push_all(&mut sql, &tail);
        let params = vec![Some(copy_string(&e.row_id))];
        let st = Statement { sql: string_of(&sql), params };
        assert(statement_view(st).1 =~= seq![Some(e.row_id@)]);
        return Some(st);
    }
    if same_str(e.event_type.as_str(), "modified") {
        assert(e.event_type@ != "created"@);
        let entries = match &e.before {
            Some(entries) => entries,
            None => {
                return None;
            },
        };
        let mut sets: Vec<char> = Vec::new();
        let mut n_sets: usize = 0;
        let mut params: Vec<Option<String>> = Vec::new();
        let mut idx: usize = 1;
        let mut i: usize = 0;
        while i < entries.len()
            invariant
                0 <= i <= entries.len(),
                entries.len() < usize::MAX,
                idx <= i + 1,
                n_sets <= i,
                ({
                    let (s, p, x) = restore_parts(entries@.take(i as int));
                    &&& sets@ == join_with(s, ", "@)
                    &&& n_sets == s.len()
                    &&& params@.map_values(|q: Option<String>| param_view(q)) == p
                    &&& idx == x
                }),
            decreases entries.len() - i,
        {
            proof {
                reveal_strlit("id");
                reveal_strlit(" = ?");
                reveal_strlit(", ");
                assert(entries@.take(i + 1).drop_last() =~= entries@.take(i as int));
            }
            let ghost prev = restore_parts(entries@.take(i as int));
            let key = &entries[i].0;
            if !same_str(key.as_str(), "id") {
                let mut clause = chars_of(key.as_str());
                let eq = chars_of(" = ?");
                push_all(&mut clause, &eq);
                let d = decimal_chars(idx);
                push_all(&mut clause, &d);
                let ghost before_sets = sets@;
                push_joined(&mut sets, n_sets == 0, ", ", &clause);
                proof {
                    let s2 = prev.0.push(clause@);
                    assert(s2.drop_last() =~= prev.0);
                    if n_sets == 0 {
                        assert(prev.0.len() == 0);
                        assert(sets@ =~= join_with(s2, ", "@));
                    } else {
                        assert(sets@ =~= join_with(s2, ", "@));
                    }
                }
                n_sets = n_sets + 1;
                let ghost bp = params@;
                let v = match &entries[i].1 {
                    BeforeValue::Null => None,
                    BeforeValue::Text(t) => Some(copy_string(t)),
                    BeforeValue::Json(t) => Some(copy_string(t)),
                };
                assert(param_view(v) == insert_param(entries@[i as int].1));
                params.push(v);
                assert(params@.map_values(|q: Option<String>| param_view(q)) =~= bp.map_values(
                    |q: Option<String>| param_view(q),
                ).push(param_view(v)));
                idx = idx + 1;
            }
            i = i + 1;
        }
        assert(entries@.take(entries.len() as int) =~= entries@);
        if n_sets == 0 {
            return None;
        }
        let mut sql = chars_of("UPDATE ");
        let t = chars_of(e.table_name.as_str());
        push_all(&mut sql, &t);
        let set_kw = chars_of(" SET ");
        push_all(&mut sql, &set_kw);
        push_all(&mut sql, &sets);
        let wh = chars_of(" WHERE id = ?");
        push_all(&mut sql, &wh);
        let d = decimal_chars(idx);
        push_all(&mut sql, &d);
        let ghost bp = params@;
        params.push(Some(copy_string(&e.row_id)));
        assert(params@.map_values(|q: Option<String>| param_view(q)) =~= bp.map_values(|q: Option<String>| param_view(q)).push(
            Some(e.row_id@),
        ));
        let st = Statement { sql: string_of(&sql), params };
        return Some(st);
    }
    if same_str(e.event_type.as_str(), "deleted") {
        assert(e.event_type@ != "created"@);
        assert(e.event_type@ != "modified"@);
        let entries = match &e.before {
            Some(entries) => entries,
            None => {
                return None;
            },
        };
        let mut cols: Vec<char> = Vec::new();
        let mut params: Vec<Option<String>> = Vec::new();
        let mut i: usize = 0;
        while i < entries.len()
            invariant
                0 <= i <= entries.len(),
                cols@ == join_with(entries@.take(i as int).map_values(|kv: (String, BeforeValue)| kv.0@), ", "@),
                params@.map_values(|q: Option<String>| param_view(q)) == entries@.take(i as int).map_values(
                    |kv: (String, BeforeValue)| insert_param(kv.1),
                ),
            decreases entries.len() - i,
        {
            proof {
                reveal_strlit(", ");
            }
            let ghost ks = entries@.take(i + 1).map_values(|kv: (String, BeforeValue)| kv.0@);
            assert(ks.drop_last() =~= entries@.take(i as int).map_values(|kv: (String, BeforeValue)| kv.0@));
            let k = chars_of(entries[i].0.as_str());
            push_joined(&mut cols, i == 0, ", ", &k);
            let ghost bp = params@;
            let v = match &entries[i].1 {
                BeforeValue::Text(t) => Some(copy_string(t)),
                BeforeValue::Null => None,
                BeforeValue::Json(t) => Some(copy_string(t)),
            };
            assert(param_view(v) == insert_param(entries@[i as int].1));
            params.push(v);
            assert(params@.map_values(|q: Option<String>| param_view(q)) =~= bp.map_values(|q: Option<String>| param_view(q)).push(
                param_view(v),
            ));
            assert(entries@.take(i + 1).map_values(|kv: (String, BeforeValue)| insert_param(kv.1)) =~= entries@.take(
                i as int,
            ).map_values(|kv: (String, BeforeValue)| insert_param(kv.1)).push(insert_param(entries@[i as int].1)));
            assert(params@.map_values(|q: Option<String>| param_view(q)) =~= entries@.take(i + 1).map_values(
                |kv: (String, BeforeValue)| insert_param(kv.1),
            ));
            i = i + 1;
        }
        assert(entries@.take(entries.len() as int) =~= entries@);
        let mut sql = chars_of("INSERT OR IGNORE INTO ");
        let t = chars_of(e.table_name.as_str());
        push_all(&mut sql, &t);
        let open = chars_of(" (");
        push_all(&mut sql, &open);
        push_all(&mut sql, &cols);
        let mid = chars_of(") VALUES (");
        push_all(&mut sql, &mid);
        let ph = placeholders(1, entries.len());
        let phc = chars_of(ph.as_str());
        push_all(&mut sql, &phc);
        let close = chars_of(")");
        push_all(&mut sql, &close);
        let st = Statement { sql: string_of(&sql), params };
        return Some(st);
    }
    None
}

/// The statements that undo a transaction's events, given newest first:
/// one for each event that has one, in that order.
pub fn undo_plan(events: &Vec<UndoEvent>) -> (r: Vec<Statement>)
    requires
        forall|k: int| 0 <= k < events.len() ==> fits(#[trigger] events@[k]),
    ensures
        r@.map_values(|s: Statement| statement_view(s)) == events@.filter_map(|e: UndoEvent| spec_undo(e)),
{
    let mut out: Vec<Statement> = Vec::new();
    let mut i: usize = 0;
    while i < events.len()
        invariant
            0 <= i <= events.len(),
            forall|k: int| 0 <= k < events.len() ==> fits(#[trigger] events@[k]),
            out@.map_values(|s: Statement| statement_view(s)) == events@.take(i as int).filter_map(
                |e: UndoEvent| spec_undo(e),
            ),
        decreases events.len() - i,
    {
        proof {
            events@.lemma_filter_map_take_succ(|e: UndoEvent| spec_undo(e), i as int);
        }
        let ghost before = out@;
        match undo_statement(&events[i]) {
            Some(st) => {
                out.push(st);
                assert(out@.map_values(|s: Statement| statement_view(s)) =~= before.map_values(
                    |s: Statement| statement_view(s),
                ) + seq![statement_view(st)]);
            },
            None => {},
        }
        i = i + 1;
    }
    assert(events@.take(events.len() as int) =~= events@);
    out
}

/// The JSON text of an integer.
pub open spec fn json_int(i: i64) -> Seq<char> {
    if i < 0 {
        seq!['-'] + decimal((-i) as nat)
    } else {
        decimal(i as nat)
    }
}

/// How an audit payload value reads back as recorded prior state: text as
/// its text, null as null, an integer as its JSON text. (Audit payloads hold
/// no other values.)
pub open spec fn recorded_as(m: Meta, v: BeforeValue) -> bool {
    match m {
        Meta::Text(t) => v matches BeforeValue::Text(u) && u@ == t@,
        Meta::Null => v is Null,
        Meta::Integer(i) => v matches BeforeValue::Json(u) && u@ == json_int(i),
        _ => false,
    }
}

/// What a payload value is re-inserted as: its text, or SQL `NULL` for a
/// null.
pub open spec fn payload_text(m: Meta) -> Option<Seq<char>> {
    match m {
        Meta::Text(t) => Some(t@),
        Meta::Integer(i) => Some(json_int(i)),
        _ => None,
    }
}

/// A row removed by a cascade comes back on undo: replaying the `deleted`
/// event whose recorded prior state is the row's audit payload re-inserts
/// into the row's table exactly the payload's columns, in order, each bound
/// to the payload's value (a null column to SQL `NULL`).
pub proof fn law_undo_restores_captured_row(c: CapturedChild, e: UndoEvent)
    requires
        e.event_type@ == "deleted"@,
        e.table_name@ == spec_table(c),
        e.before matches Some(entries) && entries@.len() == payload_keys(c).len() && forall|i: int|
            0 <= i < entries@.len() ==> (#[trigger] entries@[i]).0@ == payload_keys(c)[i] && recorded_as(
                payload_values(c)[i],
                entries@[i].1,
            ),
    ensures
        spec_undo(e) == Some(
            (
                "INSERT OR IGNORE INTO "@ + spec_table(c) + " ("@ + join_with(payload_keys(c), ", "@) + ") VALUES ("@
                    + spec_placeholders(1, payload_keys(c).len()) + ")"@,
                payload_values(c).map_values(|m: Meta| payload_text(m)),
            ),
        ),
{
    reveal_strlit("created");
    reveal_strlit("modified");
    reveal_strlit("deleted");
    let entries = e.before->Some_0;
    assert("deleted"@[0] != "created"@[0]);
    assert("deleted"@.len() != "modified"@.len());
    let keys = entries@.map_values(|kv: (String, BeforeValue)| kv.0@);
    assert(keys =~= payload_keys(c));
    let vals = entries@.map_values(|kv: (String, BeforeValue)| insert_param(kv.1));
    assert(payload_values(c).len() == payload_keys(c).len());
    assert forall|i: int| 0 <= i < vals.len() implies vals[i] == payload_values(c).map_values(
        |m: Meta| payload_text(m),
    )[i] by {
        assert(recorded_as(payload_values(c)[i], entries@[i].1));
    }
    assert(vals =~= payload_values(c).map_values(|m: Meta| payload_text(m)));
}

/// The clause that restores column `k` from parameter `i`.
pub open spec fn restore_clause(k: Seq<char>, i: nat) -> Seq<char> {
    k + " = ?"@ + decimal(i)
}

/// Without an `id` column, every recorded column gets its own parameter, in
/// order from 1, bound to its recorded value.
proof fn lemma_restore_parts(entries: Seq<(String, BeforeValue)>)
    requires
        forall|j: int| 0 <= j < entries.len() ==> (#[trigger] entries[j]).0@ != "id"@,
    ensures
        restore_parts(entries) == (
            Seq::new(entries.len(), |i: int| restore_clause(entries[i].0@, (i + 1) as nat)),
            entries.map_values(|kv: (String, BeforeValue)| insert_param(kv.1)),
            (entries.len() + 1) as nat,
        ),
    decreases entries.len(),
{
    if entries.len() > 0 {
        let init = entries.drop_last();
        assert forall|j: int| 0 <= j < init.len() implies (#[trigger] init[j]).0@ != "id"@ by {
            assert(init[j] == entries[j]);
        }
        lemma_restore_parts(init);
        assert(entries.last().0@ != "id"@);
        let (sets, params, idx) = restore_parts(init);
        assert(Seq::new(entries.len(), |i: int| restore_clause(entries[i].0@, (i + 1) as nat)) =~= sets.push(
            restore_clause(entries.last().0@, idx),
        ));
        assert(entries.map_values(|kv: (String, BeforeValue)| insert_param(kv.1)) =~= params.push(
            insert_param(entries.last().1),
        ));
    } else {
        assert(Seq::new(entries.len(), |i: int| restore_clause(entries[i].0@, (i + 1) as nat)) =~= Seq::<
            Seq<char>,
        >::empty());
        assert(entries.map_values(|kv: (String, BeforeValue)| insert_param(kv.1)) =~= Seq::<
            Option<Seq<char>>,
        >::empty());
    }
}

/// Undoing a modification restores every recorded column from its own
/// value: column `k_i` (the `i`-th recorded, none of them `id`) is set from
/// parameter `i`, bound to its recorded value (a recorded null to SQL
/// `NULL`), and the row id is bound last; no column is bound to another's
/// value.
pub proof fn law_undo_restores_modified_row(e: UndoEvent)
    requires
        e.event_type@ == "modified"@,
        e.before matches Some(entries) && entries@.len() > 0 && forall|j: int|
            0 <= j < entries@.len() ==> (#[trigger] entries@[j]).0@ != "id"@,
    ensures
        ({
            let entries = e.before->Some_0@;
            spec_undo(e) == Some(
                (
                    "UPDATE "@ + e.table_name@ + " SET "@ + join_with(
                        Seq::new(entries.len(), |i: int| restore_clause(entries[i].0@, (i + 1) as nat)),
                        ", "@,
                    ) + " WHERE id = ?"@ + decimal((entries.len() + 1) as nat),
                    entries.map_values(|kv: (String, BeforeValue)| insert_param(kv.1)).push(Some(e.row_id@)),
                ),
            )
        }),
{
    reveal_strlit("created");
    reveal_strlit("modified");
    assert("modified"@.len() != "created"@.len());
    let entries = e.before->Some_0@;
    lemma_restore_parts(entries);
    let (sets, params, idx) = restore_parts(entries);
    assert(sets.len() == entries.len());
    assert forall|i: int| 0 <= i < sets.len() implies #[trigger] sets[i] == restore_clause(entries[i].0@, (i + 1) as nat) by {}
}

} // verus!
