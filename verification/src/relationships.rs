//! Relationship rows: the query that fetches the rows touching a set of
//! entities, how fetched rows are grouped under the entities they touch, and
//! the audit payload of a row.

use vstd::prelude::*;

use crate::delete::{payload_keys, payload_values, placeholders, spec_placeholders, CapturedChild};
use crate::meta::Meta;
use crate::primitives::entity_type::kind_name;
use crate::primitives::{EntityType, Id};
use crate::text::{chars_of, push_all, string_of, strs};

verus! {

/// A relationship row, its timestamps rendered as RFC 3339 text and its
/// relationship type by name.
#[derive(Clone, Debug)]
pub struct RelationshipRow {
    pub created_at: String,
    pub id: Id,
    pub rel_type: String,
    pub source_id: Id,
    pub source_type: EntityType,
    pub target_id: Id,
    pub target_type: EntityType,
    pub updated_at: String,
}

/// The columns a relationship query selects.
pub open spec fn select_columns() -> Seq<char> {
    "id, rel_type, source_id, source_type, target_id, target_type, created_at, updated_at"@
}

/// The query for the relationships touching `n` entities of one kind: the
/// kind is parameter 1, the ids parameters 2 to n + 1.
pub open spec fn spec_for_entities_sql(n: nat) -> Seq<char> {
    "SELECT "@ + select_columns() + " FROM relationships WHERE (source_type = ?1 AND source_id IN ("@
        + spec_placeholders(2, n) + ")) OR (target_type = ?1 AND target_id IN ("@ + spec_placeholders(2, n)
        + "))"@
}

/// The parameters of that query: the kind, then the ids (the list is bound
/// once per `IN`, so it appears twice).
pub open spec fn spec_for_entities_params(kind: EntityType, ids: Seq<Id>) -> Seq<Seq<char>> {
    seq![kind_name(kind)] + ids.map_values(|i: Id| i.encoded()) + ids.map_values(|i: Id| i.encoded())
}

/// The query and parameters that fetch every relationship touching one of
/// `ids` (entities of kind `kind`); `None` for no ids, where no query is
/// needed.
pub fn for_entities_sql(kind: EntityType, ids: &Vec<Id>) -> (r: Option<(String, Vec<String>)>)
    requires
        ids.len() + 2 <= usize::MAX,
    ensures
        ids.len() == 0 <==> r is None,
        r matches Some((sql, params)) ==> sql@ == spec_for_entities_sql(ids.len() as nat) && strs(params@)
            == spec_for_entities_params(kind, ids@),
{
    if ids.len() == 0 {
        return None;
    }
    let p = placeholders(2, ids.len());
    let pc = chars_of(p.as_str());
    let mut sql = chars_of("SELECT ");
    let cols = chars_of("id, rel_type, source_id, source_type, target_id, target_type, created_at, updated_at");
    push_all(&mut sql, &cols);
    let a = chars_of(" FROM relationships WHERE (source_type = ?1 AND source_id IN (");
    push_all(&mut sql, &a);
    push_all(&mut sql, &pc);
    let b = chars_of(")) OR (target_type = ?1 AND target_id IN (");
    push_all(&mut sql, &b);
    push_all(&mut sql, &pc);
    let c = chars_of("))");
    push_all(&mut sql, &c);
    let mut params: Vec<String> = Vec::new();
    params.push(kind.as_str().to_string());
    let ghost enc = ids@.map_values(|i: Id| i.encoded());
    let mut round: usize = 0;
    while round < 2
        invariant
            0 <= round <= 2,
            enc == ids@.map_values(|i: Id| i.encoded()),
            strs(params@) == seq![kind_name(kind)] + if round == 0 {
                Seq::empty()
            } else if round == 1 {
                enc
            } else {
                enc + enc
            },
        decreases 2 - round,
    {
        let ghost base = strs(params@);
        let mut k: usize = 0;
        while k < ids.len()
            invariant
                0 <= k <= ids.len(),
                enc == ids@.map_values(|i: Id| i.encoded()),
                strs(params@) == base + enc.take(k as int),
            decreases ids.len() - k,
        {
            let ghost before = params@;
            params.push(ids[k].to_string());
            assert(strs(params@) =~= strs(before).push(ids@[k as int].encoded()));
            assert(enc.take(k + 1) =~= enc.take(k as int).push(enc[k as int]));
            k = k + 1;
        }
        assert(enc.take(ids.len() as int) =~= enc);
        round = round + 1;
    }
    assert(strs(params@) =~= spec_for_entities_params(kind, ids@));
    Some((string_of(&sql), params))
}

/// Whether a row's source is entity `id` of kind `kind`.
pub open spec fn source_hit(r: RelationshipRow, kind: EntityType, id: Id) -> bool {
    r.source_type == kind && r.source_id@ == id@
}

/// Whether a row's target is entity `id` of kind `kind`.
pub open spec fn target_hit(r: RelationshipRow, kind: EntityType, id: Id) -> bool {
    r.target_type == kind && r.target_id@ == id@
}

/// The positions of the rows listed under entity `id`, in row order: a row
/// is listed once for its source and once more for its target, so a row
/// from the entity to itself is listed twice.
pub open spec fn listed_under(rows: Seq<RelationshipRow>, kind: EntityType, id: Id) -> Seq<usize>
    decreases rows.len(),
{
    if rows.len() == 0 {
        Seq::empty()
    } else {
        let j = (rows.len() - 1) as usize;
        let r = rows.last();
        listed_under(rows.drop_last(), kind, id) + (if source_hit(r, kind, id) {
            seq![j]
        } else {
            Seq::empty()
        }) + (if target_hit(r, kind, id) {
            seq![j]
        } else {
            Seq::empty()
        })
    }
}

/// The rows listed under one entity.
fn rows_under(kind: EntityType, id: &Id, rows: &Vec<RelationshipRow>) -> (r: Vec<usize>)
    ensures
        r@ == listed_under(rows@, kind, *id),
{
    let mut out: Vec<usize> = Vec::new();
    let mut j: usize = 0;
    while j < rows.len()
        invariant
            0 <= j <= rows.len(),
            out@ == listed_under(rows@.take(j as int), kind, *id),
        decreases rows.len() - j,
    {
        let ghost before = out@;
        assert(rows@.take(j + 1).drop_last() =~= rows@.take(j as int));
        let r = &rows[j];
        let s = r.source_type == kind && r.source_id == *id;
        let t = r.target_type == kind && r.target_id == *id;
        if s {
            out.push(j);
        }
        if t {
            out.push(j);
        }
        assert(out@ =~= before + (if s {
            seq![j]
        } else {
            Seq::empty()
        }) + (if t {
            seq![j]
        } else {
            Seq::empty()
        }));
        j = j + 1;
    }
    assert(rows@.take(rows.len() as int) =~= rows@);
    out
}

/// Groups fetched rows under the queried entities they touch: entry `k` lists
/// the rows under `ids[k]`, in row order. An entity with an empty entry has
/// no relationship.
pub fn group_by_entity(kind: EntityType, ids: &Vec<Id>, rows: &Vec<RelationshipRow>) -> (r: Vec<Vec<usize>>)
    ensures
        r.len() == ids.len(),
        forall|k: int| 0 <= k < ids.len() ==> #[trigger] r@[k]@ == listed_under(rows@, kind, ids@[k]),
{
    let mut out: Vec<Vec<usize>> = Vec::new();
    let mut k: usize = 0;
    while k < ids.len()
        invariant
            0 <= k <= ids.len(),
            out.len() == k,
            forall|q: int| 0 <= q < k ==> #[trigger] out@[q]@ == listed_under(rows@, kind, ids@[q]),
        decreases ids.len() - k,
    {
        let under = rows_under(kind, &ids[k], rows);
        out.push(under);
        k = k + 1;
    }
    out
}

/// Whether `m` is an object whose entries are, in order, the given keys
/// bound to text values with the given characters.
pub open spec fn is_text_table(m: Meta, keys: Seq<Seq<char>>, texts: Seq<Seq<char>>) -> bool {
    &&& m is Table
    &&& m->Table_0@.len() == keys.len()
    &&& keys.len() == texts.len()
    &&& forall|i: int|
        0 <= i < keys.len() ==> (#[trigger] m->Table_0@[i]).0@ == keys[i] && (m->Table_0@[i].1 matches Meta::Text(
            t,
        ) && t@ == texts[i])
}

/// The JSON object the audit log stores for a relationship row: one text
/// entry per column, keys in order.
pub fn relationship_audit_payload(rel: &RelationshipRow) -> (r: Meta)
    ensures
        is_text_table(
            r,
            seq![
                "created_at"@,
                "id"@,
                "rel_type"@,
                "source_id"@,
                "source_type"@,
                "target_id"@,
                "target_type"@,
                "updated_at"@,
            ],
            seq![
                rel.created_at@,
                rel.id.encoded(),
                rel.rel_type@,
                rel.source_id.encoded(),
                kind_name(rel.source_type),
                rel.target_id.encoded(),
                kind_name(rel.target_type),
                rel.updated_at@,
            ],
        ),
{
    let c = CapturedChild::Relationship {
        created_at: rel.created_at.clone(),
        id: rel.id.to_string(),
        rel_type: rel.rel_type.clone(),
        source_id: rel.source_id.to_string(),
        source_type: rel.source_type.as_str().to_string(),
        target_id: rel.target_id.to_string(),
        target_type: rel.target_type.as_str().to_string(),
        updated_at: rel.updated_at.clone(),
    };
    let r = c.to_audit_payload();
    proof {
        let keys = payload_keys(c);
        let vals = payload_values(c);
        assert forall|i: int| 0 <= i < keys.len() implies (#[trigger] r->Table_0@[i]).0@ == keys[i] && (
        r->Table_0@[i].1 matches Meta::Text(t) && t@ == seq![
            rel.created_at@,
            rel.id.encoded(),
            rel.rel_type@,
            rel.source_id.encoded(),
            kind_name(rel.source_type),
            rel.target_id.encoded(),
            kind_name(rel.target_type),
            rel.updated_at@,
        ][i]) by {
            assert(r->Table_0@[i].1 == vals[i]);
        }
    }
    r
}

} // verus!
