//! The `UPDATE` statements that apply a patch to an artifact, an iteration or
//! a note: one `SET` clause per field the patch holds, each bound to a
//! numbered parameter, always stamping `updated_at` first and binding the id
//! last.

use vstd::prelude::*;

use crate::model::artifact::Patch as ArtifactPatch;
use crate::model::iteration::Patch as IterationPatch;
use crate::model::note::Patch as NotePatch;
use crate::primitives::iteration_status::status_name;
use crate::primitives::{Id, IterationStatus};
use crate::text::{
    chars_of, decimal, decimal_chars, join_strings, join_with, lemma_join_mentions, lemma_mentions_within, mentions, push_all,
    string_of, strs,
};

verus! {

/// The clauses, the parameters and the next parameter number of a statement
/// under construction.
pub type UpdateState = (Seq<Seq<char>>, Seq<Seq<char>>, nat);

/// The clause that assigns parameter `i` to `column`.
pub open spec fn assign(column: Seq<char>, i: nat) -> Seq<char> {
    column + " = ?"@ + decimal(i)
}

/// Every update starts by stamping `updated_at` with parameter 1.
pub open spec fn start_update(now: Seq<char>) -> UpdateState {
    (seq![assign("updated_at"@, 1)], seq![now], 2)
}

/// Assigns the next parameter to `column` when the patch holds a value for it.
pub open spec fn set_field(s: UpdateState, column: Seq<char>, value: Option<Seq<char>>) -> UpdateState {
    match value {
        Some(v) => (s.0.push(assign(column, s.2)), s.1.push(v), s.2 + 1),
        None => s,
    }
}

/// The statement for `table`: the clauses joined by commas, the id bound to
/// the last parameter.
pub open spec fn finish_update(table: Seq<char>, s: UpdateState, id: Seq<char>) -> (Seq<char>, Seq<Seq<char>>) {
    ("UPDATE "@ + table + " SET "@ + join_with(s.0, ", "@) + " WHERE id = ?"@ + decimal(s.2), s.1.push(id))
}

/// The view of an optional string.
pub open spec fn opt_view(o: Option<String>) -> Option<Seq<char>> {
    match o {
        Some(s) => Some(s@),
        None => None,
    }
}

/// The statement that applies an artifact patch.
pub open spec fn spec_artifact_update(id: Seq<char>, p: ArtifactPatch, now: Seq<char>) -> (Seq<char>, Seq<Seq<char>>) {
    let s = set_field(
        set_field(set_field(start_update(now), "title"@, opt_view(p.title)), "body"@, opt_view(p.body)),
        "metadata"@,
        opt_view(p.metadata),
    );
    finish_update("artifacts"@, s, id)
}

/// A status change: the status is set, and `completed_at` is stamped when the
/// new status is terminal and cleared otherwise.
pub open spec fn set_status(s: UpdateState, status: Option<IterationStatus>, now: Seq<char>) -> UpdateState {
    match status {
        Some(st) => {
            let s1 = set_field(s, "status"@, Some(status_name(st)));
            if st.spec_is_terminal() {
                set_field(s1, "completed_at"@, Some(now))
            } else {
                (s1.0.push("completed_at = NULL"@), s1.1, s1.2)
            }
        },
        None => s,
    }
}

/// The statement that applies an iteration patch.
pub open spec fn spec_iteration_update(id: Seq<char>, p: IterationPatch, now: Seq<char>) -> (Seq<char>, Seq<Seq<char>>) {
    let s = set_field(
        set_status(
            set_field(set_field(start_update(now), "title"@, opt_view(p.title)), "description"@, opt_view(p.description)),
            p.status,
            now,
        ),
        "metadata"@,
        opt_view(p.metadata),
    );
    finish_update("iterations"@, s, id)
}

/// The statement that applies a note patch.
pub open spec fn spec_note_update(id: Seq<char>, p: NotePatch, now: Seq<char>) -> (Seq<char>, Seq<Seq<char>>) {
    finish_update("notes"@, set_field(start_update(now), "body"@, opt_view(p.body)), id)
}

/// An update statement under construction.
struct Update {
    sets: Vec<String>,
    params: Vec<String>,
    idx: usize,
}

/// The view of a statement under construction.
spec fn uview(u: Update) -> UpdateState {
    (strs(u.sets@), strs(u.params@), u.idx as nat)
}

/// `column = ?i`.
fn assign_exec(column: &str, i: usize) -> (r: String)
    ensures
        r@ == assign(column@, i as nat),
{
    let mut out = chars_of(column);
    let eq = chars_of(" = ?");
    push_all(&mut out, &eq);
    let d = decimal_chars(i);
    push_all(&mut out, &d);
    string_of(&out)
}

/// A statement that stamps `updated_at` with `now`.
fn start(now: &str) -> (r: Update)
    ensures
        uview(r) == start_update(now@),
        r.idx == 2,
{
    let mut sets: Vec<String> = Vec::new();
    sets.push(assign_exec("updated_at", 1));
    let mut params: Vec<String> = Vec::new();
    params.push(now.to_string());
    let r = Update { sets, params, idx: 2 };
    assert(strs(r.sets@) =~= seq![assign("updated_at"@, 1)]);
    assert(strs(r.params@) =~= seq![now@]);
    r
}

/// Assigns the next parameter to `column` when `value` is present.
fn set(u: &mut Update, column: &str, value: &Option<String>)
    requires
        old(u).idx < 100,
    ensures
        uview(*final(u)) == set_field(uview(*old(u)), column@, opt_view(*value)),
        final(u).idx <= old(u).idx + 1,
{
    match value {
        Some(v) => {
            let ghost before = uview(*u);
            let c = assign_exec(column, u.idx);
            u.sets.push(c);
            u.params.push(v.clone());
            u.idx = u.idx + 1;
            assert(strs(u.sets@) =~= before.0.push(assign(column@, before.2)));
            assert(strs(u.params@) =~= before.1.push(v@));
        },
        None => {},
    }
}

/// The finished statement for `table`, binding `id` last.
fn finish(u: Update, table: &str, id: &Id) -> (r: (String, Vec<String>))
    ensures
        (r.0@, strs(r.1@)) == finish_update(table@, uview(u), id.encoded()),
{
    let ghost before = uview(u);
    let mut sql = chars_of("UPDATE ");
    let t = chars_of(table);
    push_all(&mut sql, &t);
    let s = chars_of(" SET ");
    push_all(&mut sql, &s);
    let joined = join_strings(&u.sets, ", ");
    let j = chars_of(joined.as_str());
    push_all(&mut sql, &j);
    let w = chars_of(" WHERE id = ?");
    push_all(&mut sql, &w);
    let d = decimal_chars(u.idx);
    push_all(&mut sql, &d);
    let mut params = u.params;
    params.push(id.to_string());
    assert(strs(params@) =~= before.1.push(id.encoded()));
    (string_of(&sql), params)
}

/// The `UPDATE` statement and its parameters for an artifact patch, stamped
/// with the time `now`.
pub fn artifact_update_sql(id: &Id, patch: &ArtifactPatch, now: &str) -> (r: (String, Vec<String>))
    ensures
        (r.0@, strs(r.1@)) == spec_artifact_update(id.encoded(), *patch, now@),
{
    let mut u = start(now);
    set(&mut u, "title", &patch.title);
    set(&mut u, "body", &patch.body);
    set(&mut u, "metadata", &patch.metadata);
    finish(u, "artifacts", id)
}

/// The `UPDATE` statement and its parameters for an iteration patch, stamped
/// with the time `now`.
pub fn iteration_update_sql(id: &Id, patch: &IterationPatch, now: &str) -> (r: (String, Vec<String>))
    ensures
        (r.0@, strs(r.1@)) == spec_iteration_update(id.encoded(), *patch, now@),
{
    let mut u = start(now);
    set(&mut u, "title", &patch.title);
    set(&mut u, "description", &patch.description);
    match patch.status {
        Some(st) => {
            let ghost s0 = uview(u);
            set(&mut u, "status", &Some(st.to_string()));
            if st.is_terminal() {
                set(&mut u, "completed_at", &Some(now.to_string()));
            } else {
                let ghost s1 = uview(u);
                u.sets.push("completed_at = NULL".to_string());
                assert(strs(u.sets@) =~= s1.0.push("completed_at = NULL"@));
            }
            assert(uview(u) == set_status(s0, patch.status, now@));
        },
        None => {},
    }
    set(&mut u, "metadata", &patch.metadata);
    finish(u, "iterations", id)
}

/// The `UPDATE` statement and its parameters for a note patch, stamped with
/// the time `now`.
pub fn note_update_sql(id: &Id, patch: &NotePatch, now: &str) -> (r: (String, Vec<String>))
    ensures
        (r.0@, strs(r.1@)) == spec_note_update(id.encoded(), *patch, now@),
{
    let mut u = start(now);
    set(&mut u, "body", &patch.body);
    finish(u, "notes", id)
}

/// Whether `sql` ends by binding the row id to parameter `n`.
pub open spec fn binds_id_as(sql: Seq<char>, n: nat) -> bool {
    exists|head: Seq<char>| sql == head + " WHERE id = ?"@ + decimal(n)
}

/// Whether a statement under construction numbers its next parameter right
/// after the ones it holds.
pub open spec fn numbered(s: UpdateState) -> bool {
    s.2 == s.1.len() + 1
}

/// Finishing a consecutively numbered statement binds the id last, to the
/// number of the last parameter.
proof fn lemma_finish(table: Seq<char>, s: UpdateState, id: Seq<char>)
    requires
        numbered(s),
    ensures
        finish_update(table, s, id).1.last() == id,
        binds_id_as(finish_update(table, s, id).0, finish_update(table, s, id).1.len()),
{
    let head = "UPDATE "@ + table + " SET "@ + join_with(s.0, ", "@);
    assert(finish_update(table, s, id).0 == head + " WHERE id = ?"@ + decimal(s.2));
}

/// An update statement numbers its parameters consecutively and binds the
/// row id last: whatever the patch, the statement ends `WHERE id = ?n` with
/// `n` the number of parameters, the last of which is the id.
pub proof fn law_update_binds_id_last(
    id: Seq<char>,
    artifact: ArtifactPatch,
    iteration: IterationPatch,
    note: NotePatch,
    now: Seq<char>,
)
    ensures
        spec_artifact_update(id, artifact, now).1.last() == id,
        binds_id_as(spec_artifact_update(id, artifact, now).0, spec_artifact_update(id, artifact, now).1.len()),
        spec_iteration_update(id, iteration, now).1.last() == id,
        binds_id_as(spec_iteration_update(id, iteration, now).0, spec_iteration_update(id, iteration, now).1.len()),
        spec_note_update(id, note, now).1.last() == id,
        binds_id_as(spec_note_update(id, note, now).0, spec_note_update(id, note, now).1.len()),
{
    let a = set_field(
        set_field(set_field(start_update(now), "title"@, opt_view(artifact.title)), "body"@, opt_view(artifact.body)),
        "metadata"@,
        opt_view(artifact.metadata),
    );
    lemma_finish("artifacts"@, a, id);
    let i = set_field(
        set_status(
            set_field(
                set_field(start_update(now), "title"@, opt_view(iteration.title)),
                "description"@,
                opt_view(iteration.description),
            ),
            iteration.status,
            now,
        ),
        "metadata"@,
        opt_view(iteration.metadata),
    );
    lemma_finish("iterations"@, i, id);
    let n = set_field(start_update(now), "body"@, opt_view(note.body));
    lemma_finish("notes"@, n, id);
}

/// Adding a field keeps the clauses and parameters already there and the
/// numbering consecutive.
proof fn lemma_set_field_keeps(s: UpdateState, column: Seq<char>, value: Option<Seq<char>>)
    requires
        numbered(s),
    ensures
        numbered(set_field(s, column, value)),
        set_field(s, column, value).0.len() >= s.0.len(),
        set_field(s, column, value).0.take(s.0.len() as int) == s.0,
        set_field(s, column, value).1.len() >= s.1.len(),
        set_field(s, column, value).1.take(s.1.len() as int) == s.1,
{
    match value {
        Some(v) => {
            assert(set_field(s, column, value).0.take(s.0.len() as int) =~= s.0);
            assert(set_field(s, column, value).1.take(s.1.len() as int) =~= s.1);
        },
        None => {
            assert(s.0.take(s.0.len() as int) =~= s.0);
            assert(s.1.take(s.1.len() as int) =~= s.1);
        },
    }
}

/// A status change marks completion: a patch to `completed` or `cancelled`
/// binds `completed_at` to a parameter whose value is the time `now`, and
/// a patch to `active` writes `completed_at = NULL`. Either way the status
/// is bound, by its stored name, to a parameter of its own.
pub proof fn law_iteration_status_marks_completion(id: Seq<char>, p: IterationPatch, now: Seq<char>)
    requires
        p.status is Some,
    ensures
        ({
            let (sql, params) = spec_iteration_update(id, p, now);
            let st = p.status.unwrap();
            &&& (st == IterationStatus::Completed || st == IterationStatus::Cancelled) ==> exists|k: nat|
                1 <= k <= params.len() && params[k - 1] == now && #[trigger] mentions(
                    sql,
                    "completed_at = ?"@ + decimal(k),
                )
            &&& st == IterationStatus::Active ==> mentions(sql, "completed_at = NULL"@)
            &&& exists|k: nat|
                1 <= k <= params.len() && params[k - 1] == status_name(st) && #[trigger] mentions(
                    sql,
                    "status = ?"@ + decimal(k),
                )
        }),
{
    reveal_strlit("updated_at");
    reveal_strlit(" = ?");
    reveal_strlit("completed_at");
    reveal_strlit("completed_at = ?");
    reveal_strlit("completed_at = NULL");
    reveal_strlit("status");
    reveal_strlit("status = ?");
    let st = p.status.unwrap();
    let s00 = start_update(now);
    assert(numbered(s00));
    let sa = set_field(s00, "title"@, opt_view(p.title));
    lemma_set_field_keeps(s00, "title"@, opt_view(p.title));
    let s0 = set_field(sa, "description"@, opt_view(p.description));
    lemma_set_field_keeps(sa, "description"@, opt_view(p.description));
    let s1 = set_field(s0, "status"@, Some(status_name(st)));
    lemma_set_field_keeps(s0, "status"@, Some(status_name(st)));
    let s2 = set_status(s0, p.status, now);
    let s3 = set_field(s2, "metadata"@, opt_view(p.metadata));
    let (sql, params) = spec_iteration_update(id, p, now);
    let head = "UPDATE "@ + "iterations"@ + " SET "@;
    let tail = " WHERE id = ?"@ + decimal(s3.2);
    assert(sql == head + join_with(s3.0, ", "@) + tail);
    assert(params == s3.1.push(id));
    // the status clause
    let ks = s0.2;
    let cs = assign("status"@, ks);
    assert(cs =~= "status = ?"@ + decimal(ks));
    assert(s1.0[s0.0.len() as int] == cs);
    assert(s1.1[ks - 1] == status_name(st));
    if st.spec_is_terminal() {
        lemma_set_field_keeps(s1, "completed_at"@, Some(now));
        let kc = s1.2;
        let cc = assign("completed_at"@, kc);
        assert(cc =~= "completed_at = ?"@ + decimal(kc));
        assert(s2.0 =~= s1.0.push(cc));
        assert(s2.1 =~= s1.1.push(now));
        assert(s2.0[s1.0.len() as int] == cc);
        assert(s2.1[kc - 1] == now);
        lemma_set_field_keeps(s2, "metadata"@, opt_view(p.metadata));
        assert(s2.0.take(s2.0.len() as int)[s1.0.len() as int] == s3.0.take(s2.0.len() as int)[s1.0.len() as int]);
        assert(s3.0[s1.0.len() as int] == cc);
        assert(s3.1.take(s2.1.len() as int)[kc - 1] == s3.1[kc - 1]);
        assert(params[kc - 1] == now);
        lemma_join_mentions(s3.0, ", "@, s1.0.len() as int);
        lemma_mentions_within(head, join_with(s3.0, ", "@), tail, cc);
        assert(mentions(sql, "completed_at = ?"@ + decimal(kc)));
        assert(s2.0[s0.0.len() as int] == cs);
        assert(s3.0.take(s2.0.len() as int)[s0.0.len() as int] == s3.0[s0.0.len() as int]);
        assert(s3.1.take(s2.1.len() as int)[ks - 1] == s3.1[ks - 1]);
        assert(s2.1.take(s1.1.len() as int)[ks - 1] == s2.1[ks - 1]);
    } else {
        let cn = "completed_at = NULL"@;
        assert(s2.0 =~= s1.0.push(cn));
        assert(numbered(s2));
        lemma_set_field_keeps(s2, "metadata"@, opt_view(p.metadata));
        assert(s3.0.take(s2.0.len() as int)[s1.0.len() as int] == s3.0[s1.0.len() as int]);
        lemma_join_mentions(s3.0, ", "@, s1.0.len() as int);
        lemma_mentions_within(head, join_with(s3.0, ", "@), tail, cn);
        assert(s3.0.take(s2.0.len() as int)[s0.0.len() as int] == s3.0[s0.0.len() as int]);
        assert(s3.1.take(s2.1.len() as int)[ks - 1] == s3.1[ks - 1]);
    }
    lemma_join_mentions(s3.0, ", "@, s0.0.len() as int);
    lemma_mentions_within(head, join_with(s3.0, ", "@), tail, cs);
    assert(params[ks - 1] == status_name(st));
    assert(mentions(sql, "status = ?"@ + decimal(ks)));
}

/// Whether `b` keeps the clauses and parameters of `a` at their places.
pub open spec fn keeps(a: UpdateState, b: UpdateState) -> bool {
    &&& b.0.len() >= a.0.len()
    &&& b.0.take(a.0.len() as int) == a.0
    &&& b.1.len() >= a.1.len()
    &&& b.1.take(a.1.len() as int) == a.1
}

/// Whether a statement binds `column` to a parameter holding `value`: some
/// clause `column = ?k` occurs in it, and its parameter `k` is `value`.
pub open spec fn binds_column(stmt: (Seq<char>, Seq<Seq<char>>), column: Seq<char>, value: Seq<char>) -> bool {
    exists|k: nat| 1 <= k <= stmt.1.len() && stmt.1[k - 1] == value && #[trigger] mentions(stmt.0, column + " = ?"@ + decimal(k))
}

proof fn lemma_keeps_refl(a: UpdateState)
    ensures
        keeps(a, a),
{
    assert(a.0.take(a.0.len() as int) =~= a.0);
    assert(a.1.take(a.1.len() as int) =~= a.1);
}

proof fn lemma_keeps_trans(a: UpdateState, b: UpdateState, c: UpdateState)
    requires
        keeps(a, b),
        keeps(b, c),
    ensures
        keeps(a, c),
{
    assert(c.0.take(a.0.len() as int) =~= c.0.take(b.0.len() as int).take(a.0.len() as int));
    assert(c.1.take(a.1.len() as int) =~= c.1.take(b.1.len() as int).take(a.1.len() as int));
}

proof fn lemma_set_status_keeps(s: UpdateState, status: Option<IterationStatus>, now: Seq<char>)
    requires
        numbered(s),
    ensures
        numbered(set_status(s, status, now)),
        keeps(s, set_status(s, status, now)),
{
    match status {
        Some(st) => {
            let s1 = set_field(s, "status"@, Some(status_name(st)));
            lemma_set_field_keeps(s, "status"@, Some(status_name(st)));
            if st.spec_is_terminal() {
                lemma_set_field_keeps(s1, "completed_at"@, Some(now));
                lemma_keeps_trans(s, s1, set_status(s, status, now));
            } else {
                let s2 = (s1.0.push("completed_at = NULL"@), s1.1, s1.2);
                assert(s2.0.take(s1.0.len() as int) =~= s1.0);
                assert(s2.1.take(s1.1.len() as int) =~= s1.1);
                lemma_keeps_trans(s, s1, s2);
            }
        },
        None => lemma_keeps_refl(s),
    }
}

/// A field set on `s` and kept up to `rest` is bound in the finished statement.
proof fn lemma_field_bound(s: UpdateState, column: Seq<char>, v: Seq<char>, rest: UpdateState, table: Seq<char>, id: Seq<char>)
    requires
        numbered(s),
        keeps(set_field(s, column, Some(v)), rest),
    ensures
        binds_column(finish_update(table, rest, id), column, v),
{
    let s1 = set_field(s, column, Some(v));
    let clause = column + " = ?"@ + decimal(s.2);
    let i = s.0.len() as int;
    let k = s.2;
    assert(s1.0[i] == clause);
    assert(s1.1[k - 1] == v);
    assert(rest.0.take(s1.0.len() as int)[i] == rest.0[i]);
    assert(rest.1.take(s1.1.len() as int)[k - 1] == rest.1[k - 1]);
    let (sql, params) = finish_update(table, rest, id);
    assert(params == rest.1.push(id));
    assert(params[k - 1] == v);
    let head = "UPDATE "@ + table + " SET "@;
    let tail = " WHERE id = ?"@ + decimal(rest.2);
    assert(sql == head + join_with(rest.0, ", "@) + tail);
    lemma_join_mentions(rest.0, ", "@, i);
    lemma_mentions_within(head, join_with(rest.0, ", "@), tail, clause);
    assert(mentions(sql, column + " = ?"@ + decimal(k)));
}

/// An update binds what it sets: every statement binds `updated_at` to the
/// time `now`, and every field a patch holds (an artifact's title, body and
/// metadata; an iteration's title, description and metadata; a note's body)
/// is bound, under its column name, to a parameter holding its value.
pub proof fn law_update_binds_each_field(
    id: Seq<char>,
    a: ArtifactPatch,
    it: IterationPatch,
    n: NotePatch,
    now: Seq<char>,
)
    ensures
        binds_column(spec_artifact_update(id, a, now), "updated_at"@, now),
        a.title matches Some(v) ==> binds_column(spec_artifact_update(id, a, now), "title"@, v@),
        a.body matches Some(v) ==> binds_column(spec_artifact_update(id, a, now), "body"@, v@),
        a.metadata matches Some(v) ==> binds_column(spec_artifact_update(id, a, now), "metadata"@, v@),
        binds_column(spec_iteration_update(id, it, now), "updated_at"@, now),
        it.title matches Some(v) ==> binds_column(spec_iteration_update(id, it, now), "title"@, v@),
        it.description matches Some(v) ==> binds_column(spec_iteration_update(id, it, now), "description"@, v@),
        it.metadata matches Some(v) ==> binds_column(spec_iteration_update(id, it, now), "metadata"@, v@),
        binds_column(spec_note_update(id, n, now), "updated_at"@, now),
        n.body matches Some(v) ==> binds_column(spec_note_update(id, n, now), "body"@, v@),
{
    let e: UpdateState = (Seq::empty(), Seq::empty(), 1);
    assert(set_field(e, "updated_at"@, Some(now)) =~= start_update(now));
    let s0 = start_update(now);
    // artifact
    let a1 = set_field(s0, "title"@, opt_view(a.title));
    let a2 = set_field(a1, "body"@, opt_view(a.body));
    let a3 = set_field(a2, "metadata"@, opt_view(a.metadata));
    lemma_set_field_keeps(s0, "title"@, opt_view(a.title));
    lemma_set_field_keeps(a1, "body"@, opt_view(a.body));
    lemma_set_field_keeps(a2, "metadata"@, opt_view(a.metadata));
    lemma_keeps_refl(a3);
    lemma_keeps_trans(a1, a2, a3);
    lemma_keeps_trans(s0, a1, a3);
    lemma_field_bound(e, "updated_at"@, now, a3, "artifacts"@, id);
    if let Some(v) = a.title {
        lemma_field_bound(s0, "title"@, v@, a3, "artifacts"@, id);
    }
    if let Some(v) = a.body {
        lemma_field_bound(a1, "body"@, v@, a3, "artifacts"@, id);
    }
    if let Some(v) = a.metadata {
        lemma_field_bound(a2, "metadata"@, v@, a3, "artifacts"@, id);
    }
    // iteration
    let i1 = set_field(s0, "title"@, opt_view(it.title));
    let i2 = set_field(i1, "description"@, opt_view(it.description));
    let i3 = set_status(i2, it.status, now);
    let i4 = set_field(i3, "metadata"@, opt_view(it.metadata));
    lemma_set_field_keeps(s0, "title"@, opt_view(it.title));
    lemma_set_field_keeps(i1, "description"@, opt_view(it.description));
    lemma_set_status_keeps(i2, it.status, now);
    lemma_set_field_keeps(i3, "metadata"@, opt_view(it.metadata));
    lemma_keeps_refl(i4);
    lemma_keeps_trans(i2, i3, i4);
    lemma_keeps_trans(i1, i2, i4);
    lemma_keeps_trans(s0, i1, i4);
    lemma_field_bound(e, "updated_at"@, now, i4, "iterations"@, id);
    if let Some(v) = it.title {
        lemma_field_bound(s0, "title"@, v@, i4, "iterations"@, id);
    }
    if let Some(v) = it.description {
        lemma_field_bound(i1, "description"@, v@, i4, "iterations"@, id);
    }
    if let Some(v) = it.metadata {
        lemma_field_bound(i3, "metadata"@, v@, i4, "iterations"@, id);
    }
    // note
    let n1 = set_field(s0, "body"@, opt_view(n.body));
    lemma_set_field_keeps(s0, "body"@, opt_view(n.body));
    lemma_keeps_refl(n1);
    lemma_field_bound(e, "updated_at"@, now, n1, "notes"@, id);
    if let Some(v) = n.body {
        lemma_field_bound(s0, "body"@, v@, n1, "notes"@, id);
    }
}

} // verus!
