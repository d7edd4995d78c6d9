//! The SQL of a database search: one parameterised `SELECT` per entity
//! table, its `WHERE` clause built from the parsed query. The database keeps
//! no artifact kind, so `type:` filters do not narrow a database search.

use vstd::prelude::*;

use crate::delete::placeholder;
use crate::model::{artifact, iteration, task};
use crate::primitives::Id;
use crate::search::{has_kind, spec_wants, wants_entity_type};
use crate::search_query::{Filter, FilterKind, ParsedQuery};
use crate::text::{
    chars_of, decimal, decimal_chars, join_strings, join_with, lemma_join_mentions, lemma_mentions_trans, lemma_mentions_within, mentions, push_all,
    string_of, strs,
};

verus! {

broadcast use vstd::seq_lib::group_seq_properties;

/// The rows a search across tasks, artifacts and iterations found.
#[derive(Debug)]
pub struct Results {
    pub artifacts: Vec<artifact::Model>,
    pub iterations: Vec<iteration::Model>,
    pub tasks: Vec<task::Model>,
}

/// The entity tables a search queries.
#[derive(Clone, Copy, Debug, PartialEq, Eq, Structural)]
pub enum SearchTable {
    Artifacts,
    Iterations,
    Tasks,
}

/// The table's name.
pub open spec fn table_name(t: SearchTable) -> Seq<char> {
    match t {
        SearchTable::Artifacts => "artifacts"@,
        SearchTable::Iterations => "iterations"@,
        SearchTable::Tasks => "tasks"@,
    }
}

/// The entity type recorded for tags of the table's rows.
pub open spec fn entity_name(t: SearchTable) -> Seq<char> {
    match t {
        SearchTable::Artifacts => "artifact"@,
        SearchTable::Iterations => "iteration"@,
        SearchTable::Tasks => "task"@,
    }
}

/// The columns a search selects from the table.
pub open spec fn select_columns(t: SearchTable) -> Seq<char> {
    match t {
        SearchTable::Artifacts => "id, project_id, archived_at, body, created_at, metadata, title, updated_at"@,
        SearchTable::Iterations => "id, project_id, completed_at, created_at, description, metadata, status, title, updated_at"@,
        SearchTable::Tasks => "id, project_id, assigned_to, created_at, description, metadata, priority, resolved_at, status, title, updated_at"@,
    }
}

/// The condition that leaves out finished rows unless everything is shown.
pub open spec fn active_condition(t: SearchTable) -> Seq<char> {
    match t {
        SearchTable::Artifacts => "archived_at IS NULL"@,
        SearchTable::Iterations => "status NOT IN ('completed', 'cancelled')"@,
        SearchTable::Tasks => "resolved_at IS NULL"@,
    }
}

/// The text columns free text is matched against.
pub open spec fn text_columns(t: SearchTable) -> Seq<Seq<char>> {
    match t {
        SearchTable::Artifacts => seq!["title"@, "body"@],
        _ => seq!["title"@, "description"@],
    }
}

/// The values of the filters of kind `k`, in order.
pub open spec fn values_of(fs: Seq<(FilterKind, Seq<char>)>, k: FilterKind) -> Seq<Seq<char>>
    decreases fs.len(),
{
    if fs.len() == 0 {
        Seq::empty()
    } else if fs.last().0 == k {
        values_of(fs.drop_last(), k).push(fs.last().1)
    } else {
        values_of(fs.drop_last(), k)
    }
}

/// The subquery that holds when a row carries the tag bound to parameter `i`.
pub open spec fn tag_exists(i: nat, t: SearchTable) -> Seq<char> {
    "EXISTS (SELECT 1 FROM entity_tags JOIN tags ON tags.id = entity_tags.tag_id WHERE tags.label = ?"@ + decimal(
        i,
    ) + " AND entity_tags.entity_id = "@ + table_name(t) + ".id AND entity_tags.entity_type = '"@ + entity_name(t)
        + "')"@
}

/// A query under construction: conditions, parameters, next parameter number.
pub struct Builder {
    pub conditions: Vec<String>,
    pub params: Vec<String>,
    pub idx: usize,
}

/// The view of a builder.
pub open spec fn bview(b: Builder) -> (Seq<Seq<char>>, Seq<Seq<char>>, nat) {
    (strs(b.conditions@), strs(b.params@), b.idx as nat)
}

/// Adds the tag inclusions: one condition OR-combining a subquery per tag.
pub open spec fn with_tag_includes(s: (Seq<Seq<char>>, Seq<Seq<char>>, nat), tags: Seq<Seq<char>>, t: SearchTable) -> (Seq<Seq<char>>, Seq<Seq<char>>, nat) {
    if tags.len() == 0 {
        s
    } else {
        (
            s.0.push("("@ + join_with(Seq::new(tags.len(), |k: int| tag_exists((s.2 + k) as nat, t)), " OR "@) + ")"@),
            s.1 + tags,
            s.2 + tags.len(),
        )
    }
}

/// Adds the tag exclusions: one negated subquery per tag.
pub open spec fn with_tag_excludes(s: (Seq<Seq<char>>, Seq<Seq<char>>, nat), tags: Seq<Seq<char>>, t: SearchTable) -> (Seq<Seq<char>>, Seq<Seq<char>>, nat) {
    (
        s.0 + Seq::new(tags.len(), |k: int| "NOT "@ + tag_exists((s.2 + k) as nat, t)),
        s.1 + tags,
        s.2 + tags.len(),
    )
}

/// Adds a status condition (`IN` or `NOT IN` the given statuses) when there
/// are any.
pub open spec fn with_statuses(s: (Seq<Seq<char>>, Seq<Seq<char>>, nat), statuses: Seq<Seq<char>>, op: Seq<char>) -> (Seq<Seq<char>>, Seq<Seq<char>>, nat) {
    if statuses.len() == 0 {
        s
    } else {
        (
            s.0.push("LOWER(status) "@ + op + " ("@ + join_with(
                Seq::new(statuses.len(), |k: int| placeholder((s.2 + k) as nat)),
                ", "@,
            ) + ")"@),
            s.1 + statuses,
            s.2 + statuses.len(),
        )
    }
}

/// Adds the free-text condition when there is text: any text column LIKE it.
pub open spec fn with_text(s: (Seq<Seq<char>>, Seq<Seq<char>>, nat), text: Seq<char>, cols: Seq<Seq<char>>) -> (Seq<Seq<char>>, Seq<Seq<char>>, nat) {
    if text.len() == 0 {
        s
    } else {
        (
            s.0.push("("@ + join_with(cols.map_values(|c: Seq<char>| c + " LIKE ?"@ + decimal(s.2)), " OR "@) + ")"@),
            s.1.push(seq!['%'] + text + seq!['%']),
            s.2 + 1,
        )
    }
}

/// All the conditions and parameters of a search of one table.
pub open spec fn search_state(
    inc: Seq<(FilterKind, Seq<char>)>,
    exc: Seq<(FilterKind, Seq<char>)>,
    text: Seq<Seq<char>>,
    pid: Seq<char>,
    t: SearchTable,
    show_all: bool,
) -> (Seq<Seq<char>>, Seq<Seq<char>>, nat) {
    let s0 = (seq!["project_id = ?1"@], seq![pid], 2nat);
    let s1 = if show_all {
        s0
    } else {
        (s0.0.push(active_condition(t)), s0.1, s0.2)
    };
    let s2 = with_tag_includes(s1, values_of(inc, FilterKind::Tag), t);
    let s3 = with_tag_excludes(s2, values_of(exc, FilterKind::Tag), t);
    let s5 = if t == SearchTable::Artifacts {
        s3
    } else {
        with_statuses(with_statuses(s3, values_of(inc, FilterKind::Status), "IN"@), values_of(exc, FilterKind::Status), "NOT IN"@)
    };
    with_text(s5, join_with(text, " "@), text_columns(t))
}

/// The statement a search of one table runs: none for artifacts when a
/// status is asked for (artifacts have none).
pub open spec fn spec_search_sql(
    inc: Seq<(FilterKind, Seq<char>)>,
    exc: Seq<(FilterKind, Seq<char>)>,
    text: Seq<Seq<char>>,
    pid: Seq<char>,
    t: SearchTable,
    show_all: bool,
) -> Option<(Seq<char>, Seq<Seq<char>>)> {
    if t == SearchTable::Artifacts && has_kind(inc, FilterKind::Status) {
        None
    } else {
        let s = search_state(inc, exc, text, pid, t, show_all);
        Some(
            (
                "SELECT "@ + select_columns(t) + " FROM "@ + table_name(t) + " WHERE "@ + join_with(s.0, " AND "@)
                    + " ORDER BY created_at DESC"@,
                s.1,
            ),
        )
    }
}

/// The values of the filters of kind `k`.
fn filter_values(fs: &Vec<Filter>, k: FilterKind) -> (r: Vec<String>)
    ensures
        strs(r@) == values_of(fs@.map_values(|f: Filter| f@), k),
{
    let ghost v = fs@.map_values(|f: Filter| f@);
    let mut out: Vec<String> = Vec::new();
    let mut i: usize = 0;
    while i < fs.len()
        invariant
            0 <= i <= fs.len(),
            v == fs@.map_values(|f: Filter| f@),
            strs(out@) == values_of(v.take(i as int), k),
        decreases fs.len() - i,
    {
        assert(v.take(i + 1).drop_last() =~= v.take(i as int));
        assert(v[i as int] == fs@[i as int]@);
        let ghost before = out@;
        let (fk, val) = match &fs[i] {
            Filter::Is(x) => (FilterKind::Is, x),
            Filter::Status(x) => (FilterKind::Status, x),
            Filter::Tag(x) => (FilterKind::Tag, x),
            Filter::Type(x) => (FilterKind::Type, x),
        };
        if fk == k {
            out.push(val.clone());
            assert(strs(out@) =~= strs(before).push(val@));
        }
        i = i + 1;
    }
    assert(v.take(fs.len() as int) =~= v);
    out
}

/// Builds the tag subquery for parameter `i`.
fn tag_exists_exec(i: usize, t: SearchTable) -> (r: Vec<char>)
    ensures
        r@ == tag_exists(i as nat, t),
{
    let mut out = chars_of(
        "EXISTS (SELECT 1 FROM entity_tags JOIN tags ON tags.id = entity_tags.tag_id WHERE tags.label = ?",
    );
    let d = decimal_chars(i);
    push_all(&mut out, &d);
    let a = chars_of(" AND entity_tags.entity_id = ");
    push_all(&mut out, &a);
    let tn = chars_of(table_str(t));
    push_all(&mut out, &tn);
    let b = chars_of(".id AND entity_tags.entity_type = '");
    push_all(&mut out, &b);
    let en = chars_of(entity_str(t));
    push_all(&mut out, &en);
    let c = chars_of("')");
    push_all(&mut out, &c);
    out
}

/// The table's name.
fn table_str(t: SearchTable) -> (r: &'static str)
    ensures
        r@ == table_name(t),
{
    match t {
        SearchTable::Artifacts => "artifacts",
        SearchTable::Iterations => "iterations",
        SearchTable::Tasks => "tasks",
    }
}

/// The entity type of the table's rows.
fn entity_str(t: SearchTable) -> (r: &'static str)
    ensures
        r@ == entity_name(t),
{
    match t {
        SearchTable::Artifacts => "artifact",
        SearchTable::Iterations => "iteration",
        SearchTable::Tasks => "task",
    }
}

impl Builder {
    /// Adds the tag inclusions.
    fn add_tag_includes(&mut self, tags: &Vec<String>, t: SearchTable)
        requires
            old(self).idx + tags.len() <= usize::MAX,
        ensures
            bview(*final(self)) == with_tag_includes(bview(*old(self)), strs(tags@), t),
    {
        if tags.len() == 0 {
            return;
        }
        let ghost s = bview(*self);
        let mut clause: Vec<char> = Vec::new();
        clause.push('(');
        let mut joined: Vec<char> = Vec::new();
        let mut k: usize = 0;
        let ghost parts = Seq::new(tags.len() as nat, |j: int| tag_exists((s.2 + j) as nat, t));
        while k < tags.len()
            invariant
                0 <= k <= tags.len(),
                s == bview(*old(self)),
                self.idx == old(self).idx + k,
                self.conditions == old(self).conditions,
                old(self).idx + tags.len() <= usize::MAX,
                parts == Seq::new(tags.len() as nat, |j: int| tag_exists((s.2 + j) as nat, t)),
                joined@ == join_with(parts.take(k as int), " OR "@),
                strs(self.params@) == s.1 + strs(tags@).take(k as int),
            decreases tags.len() - k,
        {
            proof {
                reveal_strlit(" OR ");
                assert(parts.take(k + 1).drop_last() =~= parts.take(k as int));
            }
            if k > 0 {
                let sep = chars_of(" OR ");
                push_all(&mut joined, &sep);
            }
            let e = tag_exists_exec(self.idx, t);
            push_all(&mut joined, &e);
            let ghost before = self.params@;
            self.params.push(tags[k].clone());
            assert(strs(self.params@) =~= strs(before).push(tags@[k as int]@));
            assert(strs(tags@).take(k + 1) =~= strs(tags@).take(k as int).push(tags@[k as int]@));
            self.idx = self.idx + 1;
            k = k + 1;
        }
        assert(parts.take(tags.len() as int) =~= parts);
        assert(strs(tags@).take(tags.len() as int) =~= strs(tags@));
        push_all(&mut clause, &joined);
        clause.push(')');
        let ghost before = self.conditions@;
        self.conditions.push(string_of(&clause));
        proof {
            reveal_strlit("(");
            reveal_strlit(")");
            assert(strs(self.conditions@) =~= strs(before).push(clause@));
            assert(clause@ =~= "("@ + joined@ + ")"@);
        }
    }

    /// Adds the tag exclusions.
    fn add_tag_excludes(&mut self, tags: &Vec<String>, t: SearchTable)
        requires
            old(self).idx + tags.len() <= usize::MAX,
        ensures
            bview(*final(self)) == with_tag_excludes(bview(*old(self)), strs(tags@), t),
    {
        let ghost s = bview(*self);
        let ghost parts = Seq::new(tags.len() as nat, |j: int| "NOT "@ + tag_exists((s.2 + j) as nat, t));
        let mut k: usize = 0;
        while k < tags.len()
            invariant
                0 <= k <= tags.len(),
                s == bview(*old(self)),
                self.idx == old(self).idx + k,
                old(self).idx + tags.len() <= usize::MAX,
                parts == Seq::new(tags.len() as nat, |j: int| "NOT "@ + tag_exists((s.2 + j) as nat, t)),
                strs(self.conditions@) == s.0 + parts.take(k as int),
                strs(self.params@) == s.1 + strs(tags@).take(k as int),
            decreases tags.len() - k,
        {
            let mut c = chars_of("NOT ");
            let e = tag_exists_exec(self.idx, t);
            push_all(&mut c, &e);
            let ghost bc = self.conditions@;
            self.conditions.push(string_of(&c));
            assert(strs(self.conditions@) =~= strs(bc).push(c@));
            assert(parts.take(k + 1) =~= parts.take(k as int).push(parts[k as int]));
            let ghost bp = self.params@;
            self.params.push(tags[k].clone());
            assert(strs(self.params@) =~= strs(bp).push(tags@[k as int]@));
            assert(strs(tags@).take(k + 1) =~= strs(tags@).take(k as int).push(tags@[k as int]@));
            self.idx = self.idx + 1;
            k = k + 1;
        }
        assert(parts.take(tags.len() as int) =~= parts);
        assert(strs(tags@).take(tags.len() as int) =~= strs(tags@));
    }

    /// Adds a status condition with operator `op`.
    fn add_statuses(&mut self, statuses: &Vec<String>, op: &str)
        requires
            old(self).idx + statuses.len() <= usize::MAX,
        ensures
            bview(*final(self)) == with_statuses(bview(*old(self)), strs(statuses@), op@),
    {
        if statuses.len() == 0 {
            return;
        }
        let ghost s = bview(*self);
        let ghost parts = Seq::new(statuses.len() as nat, |j: int| placeholder((s.2 + j) as nat));
        let mut joined: Vec<char> = Vec::new();
        let mut k: usize = 0;
        while k < statuses.len()
            invariant
                0 <= k <= statuses.len(),
                s == bview(*old(self)),
                self.idx == old(self).idx + k,
                self.conditions == old(self).conditions,
                old(self).idx + statuses.len() <= usize::MAX,
                parts == Seq::new(statuses.len() as nat, |j: int| placeholder((s.2 + j) as nat)),
                joined@ == join_with(parts.take(k as int), ", "@),
                strs(self.params@) == s.1 + strs(statuses@).take(k as int),
            decreases statuses.len() - k,
        {
            proof {
                reveal_strlit(", ");
                assert(parts.take(k + 1).drop_last() =~= parts.take(k as int));
            }
            if k > 0 {
                let sep = chars_of(", ");
                push_all(&mut joined, &sep);
            }
            joined.push('?');
            let d = decimal_chars(self.idx);
            push_all(&mut joined, &d);
            proof {
                assert(parts[k as int] =~= seq!['?'] + decimal(self.idx as nat));
            }
            let ghost bp = self.params@;
            self.params.push(statuses[k].clone());
            assert(strs(self.params@) =~= strs(bp).push(statuses@[k as int]@));
            assert(strs(statuses@).take(k + 1) =~= strs(statuses@).take(k as int).push(statuses@[k as int]@));
            self.idx = self.idx + 1;
            k = k + 1;
        }
        assert(parts.take(statuses.len() as int) =~= parts);
        assert(strs(statuses@).take(statuses.len() as int) =~= strs(statuses@));
        let mut clause = chars_of("LOWER(status) ");
        let o = chars_of(op);
        push_all(&mut clause, &o);
        let open = chars_of(" (");
        push_all(&mut clause, &open);
        push_all(&mut clause, &joined);
        clause.push(')');
        let ghost before = self.conditions@;
        self.conditions.push(string_of(&clause));
        proof {
            reveal_strlit(")");
            assert(clause@ =~= "LOWER(status) "@ + op@ + " ("@ + joined@ + ")"@);
            assert(strs(self.conditions@) =~= strs(before).push(clause@));
        }
    }

    /// Adds the free-text condition.
    fn add_text(&mut self, text: &String, cols: &Vec<&str>)
        requires
            old(self).idx < usize::MAX,
        ensures
            bview(*final(self)) == with_text(bview(*old(self)), text@, cols@.map_values(|c: &str| c@)),
    {
        if chars_of(text.as_str()).len() == 0 {
            return;
        }
        let ghost s = bview(*self);
        let ghost cv = cols@.map_values(|c: &str| c@);
        let ghost parts = cv.map_values(|c: Seq<char>| c + " LIKE ?"@ + decimal(s.2));
        let d = decimal_chars(self.idx);
        let mut joined: Vec<char> = Vec::new();
        let mut k: usize = 0;
        while k < cols.len()
            invariant
                0 <= k <= cols.len(),
                s == bview(*old(self)),
                self.idx == old(self).idx,
                d@ == decimal(s.2),
                cv == cols@.map_values(|c: &str| c@),
                parts == cv.map_values(|c: Seq<char>| c + " LIKE ?"@ + decimal(s.2)),
                joined@ == join_with(parts.take(k as int), " OR "@),
            decreases cols.len() - k,
        {
            proof {
                reveal_strlit(" OR ");
                assert(parts.take(k + 1).drop_last() =~= parts.take(k as int));
            }
            if k > 0 {
                let sep = chars_of(" OR ");
                push_all(&mut joined, &sep);
            }
            let c = chars_of(cols[k]);
            push_all(&mut joined, &c);
            let like = chars_of(" LIKE ?");
            push_all(&mut joined, &like);
            push_all(&mut joined, &d);
            k = k + 1;
        }
        assert(parts.take(cols.len() as int) =~= parts);
        let mut clause: Vec<char> = Vec::new();
        clause.push('(');
        push_all(&mut clause, &joined);
        clause.push(')');
        let ghost bc = self.conditions@;
        self.conditions.push(string_of(&clause));
        proof {
            reveal_strlit("(");
            reveal_strlit(")");
            assert(strs(self.conditions@) =~= strs(bc).push(clause@));
            assert(clause@ =~= "("@ + joined@ + ")"@);
        }
        let mut p: Vec<char> = Vec::new();
        p.push('%');
        let tc = chars_of(text.as_str());
        push_all(&mut p, &tc);
        p.push('%');
        let ghost bp = self.params@;
        self.params.push(string_of(&p));
        assert(strs(self.params@) =~= strs(bp).push(p@));
        assert(p@ =~= seq!['%'] + text@ + seq!['%']);
        self.idx = self.idx + 1;
        assert(bview(*self).0 == s.0.push("("@ + join_with(parts, " OR "@) + ")"@));
        assert(bview(*self).1 == s.1.push(seq!['%'] + text@ + seq!['%']));
        assert(bview(*self).2 == s.2 + 1);
    }
}

/// The statement and parameters that search one table of a project with a
/// parsed query; `None` for artifacts when the query asks for a status.
pub fn search_sql(parsed: &ParsedQuery, project_id: &Id, t: SearchTable, show_all: bool) -> (r: Option<(String, Vec<String>)>)
    requires
        parsed.included@.len() + parsed.exclude@.len() + 3 <= usize::MAX,
    ensures
        match r {
            Some((sql, params)) => spec_search_sql(
                parsed.include_view(),
                parsed.exclude_view(),
                parsed.text_view(),
                project_id.encoded(),
                t,
                show_all,
            ) == Some((sql@, strs(params@))),
            None => spec_search_sql(
                parsed.include_view(),
                parsed.exclude_view(),
                parsed.text_view(),
                project_id.encoded(),
                t,
                show_all,
            ) is None,
        },
{
    proof {
        reveal_strlit("project_id = ?1");
    }
    if t == SearchTable::Artifacts && crate::search::any_kind(&parsed.included, FilterKind::Status) {
        return None;
    }
    let ghost inc = parsed.include_view();
    let ghost exc = parsed.exclude_view();
    let mut b = Builder { conditions: vec!["project_id = ?1".to_string()], params: vec![project_id.to_string()], idx: 2 };
    assert(bview(b) =~= (seq!["project_id = ?1"@], seq![project_id.encoded()], 2nat));
    if !show_all {
        let c = match t {
            SearchTable::Artifacts => "archived_at IS NULL",
            SearchTable::Iterations => "status NOT IN ('completed', 'cancelled')",
            SearchTable::Tasks => "resolved_at IS NULL",
        };
        let ghost bc = b.conditions@;
        b.conditions.push(c.to_string());
        assert(strs(b.conditions@) =~= strs(bc).push(active_condition(t)));
    }
    let inc_tags = filter_values(&parsed.included, FilterKind::Tag);
    let exc_tags = filter_values(&parsed.exclude, FilterKind::Tag);
    proof {
        lemma_values_len(inc, FilterKind::Tag);
        lemma_values_len(exc, FilterKind::Tag);
        lemma_values_len(inc, FilterKind::Status);
        lemma_values_len(exc, FilterKind::Status);
        lemma_values_disjoint_len(inc);
        lemma_values_disjoint_len(exc);
    }
    b.add_tag_includes(&inc_tags, t);
    b.add_tag_excludes(&exc_tags, t);
    if t != SearchTable::Artifacts {
        let inc_st = filter_values(&parsed.included, FilterKind::Status);
        let exc_st = filter_values(&parsed.exclude, FilterKind::Status);
        b.add_statuses(&inc_st, "IN");
        b.add_statuses(&exc_st, "NOT IN");
    }
    let text = join_strings(&parsed.text, " ");
    let cols: Vec<&str> = match t {
        SearchTable::Artifacts => vec!["title", "body"],
        _ => vec!["title", "description"],
    };
    proof {
        reveal_strlit("title");
        reveal_strlit("body");
        reveal_strlit("description");
        assert(cols@.map_values(|c: &str| c@) =~= text_columns(t));
    }
    b.add_text(&text, &cols);
    let where_clause = join_strings(&b.conditions, " AND ");
    let mut sql = chars_of("SELECT ");
    let columns = match t {
        SearchTable::Artifacts => "id, project_id, archived_at, body, created_at, metadata, title, updated_at",
        SearchTable::Iterations => "id, project_id, completed_at, created_at, description, metadata, status, title, updated_at",
        SearchTable::Tasks => "id, project_id, assigned_to, created_at, description, metadata, priority, resolved_at, status, title, updated_at",
    };
    let cc = chars_of(columns);
    push_all(&mut sql, &cc);
    let from = chars_of(" FROM ");
    push_all(&mut sql, &from);
    let tn = chars_of(table_str(t));
    push_all(&mut sql, &tn);
    let wh = chars_of(" WHERE ");
    push_all(&mut sql, &wh);
    let wc = chars_of(where_clause.as_str());
    push_all(&mut sql, &wc);
    let ord = chars_of(" ORDER BY created_at DESC");
    push_all(&mut sql, &ord);
    Some((string_of(&sql), b.params))
}

/// There are no more filter values of a kind than filters.
proof fn lemma_values_len(fs: Seq<(FilterKind, Seq<char>)>, k: FilterKind)
    ensures
        values_of(fs, k).len() <= fs.len(),
    decreases fs.len(),
{
    if fs.len() > 0 {
        lemma_values_len(fs.drop_last(), k);
    }
}

/// Tag and status values together are no more than the filters.
proof fn lemma_values_disjoint_len(fs: Seq<(FilterKind, Seq<char>)>)
    ensures
        values_of(fs, FilterKind::Tag).len() + values_of(fs, FilterKind::Status).len() <= fs.len(),
    decreases fs.len(),
{
    if fs.len() > 0 {
        lemma_values_disjoint_len(fs.drop_last());
    }
}

/// The statement for one table in a cross-entity search: only when the
/// query's `is:` filters want the table's entity, and the table can answer it.
pub open spec fn planned(parsed: ParsedQuery, pid: Seq<char>, t: SearchTable, show_all: bool) -> Option<
    (SearchTable, Seq<char>, Seq<Seq<char>>),
> {
    if spec_wants(parsed, entity_name(t)) {
        match spec_search_sql(parsed.include_view(), parsed.exclude_view(), parsed.text_view(), pid, t, show_all) {
            Some((sql, params)) => Some((t, sql, params)),
            None => None,
        }
    } else {
        None
    }
}

/// A one-element sequence for a present value, an empty one otherwise.
pub open spec fn opt_seq<A>(o: Option<A>) -> Seq<A> {
    match o {
        Some(x) => seq![x],
        None => Seq::empty(),
    }
}

/// The statements a cross-entity search runs, tasks first, then artifacts,
/// then iterations.
pub open spec fn query_plan(parsed: ParsedQuery, pid: Seq<char>, show_all: bool) -> Seq<
    (SearchTable, Seq<char>, Seq<Seq<char>>),
> {
    opt_seq(planned(parsed, pid, SearchTable::Tasks, show_all)) + opt_seq(
        planned(parsed, pid, SearchTable::Artifacts, show_all),
    ) + opt_seq(planned(parsed, pid, SearchTable::Iterations, show_all))
}

/// The view of a planned statement.
pub open spec fn stmt_view(x: (SearchTable, String, Vec<String>)) -> (SearchTable, Seq<char>, Seq<Seq<char>>) {
    (x.0, x.1@, strs(x.2@))
}

/// Adds the statement for one table when the search runs one there.
fn plan_table(
    out: &mut Vec<(SearchTable, String, Vec<String>)>,
    parsed: &ParsedQuery,
    project_id: &Id,
    t: SearchTable,
    show_all: bool,
)
    requires
        parsed.included@.len() + parsed.exclude@.len() + 3 <= usize::MAX,
    ensures
        final(out)@.map_values(|x: (SearchTable, String, Vec<String>)| stmt_view(x)) == old(out)@.map_values(
            |x: (SearchTable, String, Vec<String>)| stmt_view(x),
        ) + opt_seq(planned(*parsed, project_id.encoded(), t, show_all)),
{
    let ghost before = out@;
    let name = match t {
        SearchTable::Artifacts => "artifact",
        SearchTable::Iterations => "iteration",
        SearchTable::Tasks => "task",
    };
    assert(name@ == entity_name(t));
    if wants_entity_type(parsed, name) {
        match search_sql(parsed, project_id, t, show_all) {
            Some((sql, params)) => {
                out.push((t, sql, params));
                assert(out@.map_values(|x: (SearchTable, String, Vec<String>)| stmt_view(x)) =~= before.map_values(
                    |x: (SearchTable, String, Vec<String>)| stmt_view(x),
                ) + opt_seq(planned(*parsed, project_id.encoded(), t, show_all)));
            },
            None => {
                assert(out@.map_values(|x: (SearchTable, String, Vec<String>)| stmt_view(x)) =~= before.map_values(
                    |x: (SearchTable, String, Vec<String>)| stmt_view(x),
                ) + opt_seq(planned(*parsed, project_id.encoded(), t, show_all)));
            },
        }
    } else {
        assert(out@.map_values(|x: (SearchTable, String, Vec<String>)| stmt_view(x)) =~= before.map_values(
            |x: (SearchTable, String, Vec<String>)| stmt_view(x),
        ) + opt_seq(planned(*parsed, project_id.encoded(), t, show_all)));
    }
}

/// The statements a cross-entity search runs, tasks first, then artifacts,
/// then iterations: one for each table whose entity the query's `is:`
/// filters want, except artifacts when a status is asked for.
pub fn query_statements(parsed: &ParsedQuery, project_id: &Id, show_all: bool) -> (r: Vec<
    (SearchTable, String, Vec<String>),
>)
    requires
        parsed.included@.len() + parsed.exclude@.len() + 3 <= usize::MAX,
    ensures
        r@.map_values(|x: (SearchTable, String, Vec<String>)| stmt_view(x)) == query_plan(
            *parsed,
            project_id.encoded(),
            show_all,
        ),
{
    let mut out: Vec<(SearchTable, String, Vec<String>)> = Vec::new();
    assert(out@.map_values(|x: (SearchTable, String, Vec<String>)| stmt_view(x)) =~= Seq::empty());
    plan_table(&mut out, parsed, project_id, SearchTable::Tasks, show_all);
    plan_table(&mut out, parsed, project_id, SearchTable::Artifacts, show_all);
    plan_table(&mut out, parsed, project_id, SearchTable::Iterations, show_all);
    proof {
        let e = Seq::<(SearchTable, Seq<char>, Seq<Seq<char>>)>::empty();
        assert(e + opt_seq(planned(*parsed, project_id.encoded(), SearchTable::Tasks, show_all)) =~= opt_seq(
            planned(*parsed, project_id.encoded(), SearchTable::Tasks, show_all),
        ));
    }
    out
}

/// A search numbers its parameters consecutively from 1: whatever the query,
/// the next free number is one past the parameters it binds, so every
/// placeholder it writes has its parameter and none is left unbound.
pub proof fn law_search_numbers_every_parameter(
    inc: Seq<(FilterKind, Seq<char>)>,
    exc: Seq<(FilterKind, Seq<char>)>,
    text: Seq<Seq<char>>,
    pid: Seq<char>,
    t: SearchTable,
    show_all: bool,
)
    ensures
        search_state(inc, exc, text, pid, t, show_all).2 == search_state(inc, exc, text, pid, t, show_all).1.len()
            + 1,
{
}

/// Whether the conditions of `b` begin with those of `a`.
pub open spec fn extends_conditions(a: (Seq<Seq<char>>, Seq<Seq<char>>, nat), b: (Seq<Seq<char>>, Seq<Seq<char>>, nat)) -> bool {
    b.0.len() >= a.0.len() && b.0.take(a.0.len() as int) == a.0
}

/// Extending conditions twice extends them.
proof fn lemma_extends_trans(
    a: (Seq<Seq<char>>, Seq<Seq<char>>, nat),
    b: (Seq<Seq<char>>, Seq<Seq<char>>, nat),
    c: (Seq<Seq<char>>, Seq<Seq<char>>, nat),
)
    requires
        extends_conditions(a, b),
        extends_conditions(b, c),
    ensures
        extends_conditions(a, c),
{
    assert(c.0.take(a.0.len() as int) =~= c.0.take(b.0.len() as int).take(a.0.len() as int));
}

/// Each step of a search adds conditions after those already there.
proof fn lemma_steps_extend(
    s: (Seq<Seq<char>>, Seq<Seq<char>>, nat),
    tags: Seq<Seq<char>>,
    t: SearchTable,
    op: Seq<char>,
    text: Seq<char>,
    cols: Seq<Seq<char>>,
)
    ensures
        extends_conditions(s, with_tag_includes(s, tags, t)),
        extends_conditions(s, with_tag_excludes(s, tags, t)),
        extends_conditions(s, with_statuses(s, tags, op)),
        extends_conditions(s, with_text(s, text, cols)),
{
    assert(s.0.take(s.0.len() as int) =~= s.0);
    assert(with_tag_includes(s, tags, t).0.take(s.0.len() as int) =~= s.0);
    assert(with_tag_excludes(s, tags, t).0.take(s.0.len() as int) =~= s.0);
    assert(with_statuses(s, tags, op).0.take(s.0.len() as int) =~= s.0);
    assert(with_text(s, text, cols).0.take(s.0.len() as int) =~= s.0);
}

/// A search that does not show everything leaves finished rows out: the
/// statement of every table restricts it to the project (`project_id =
/// ?1`, bound to the project id) and to its active rows: artifacts not
/// archived, iterations neither completed nor cancelled, tasks not resolved.
pub proof fn law_search_hides_finished_rows(
    inc: Seq<(FilterKind, Seq<char>)>,
    exc: Seq<(FilterKind, Seq<char>)>,
    text: Seq<Seq<char>>,
    pid: Seq<char>,
    t: SearchTable,
)
    requires
        spec_search_sql(inc, exc, text, pid, t, false) is Some,
    ensures
        ({
            let (sql, params) = spec_search_sql(inc, exc, text, pid, t, false).unwrap();
            &&& mentions(sql, "project_id = ?1"@)
            &&& params.len() >= 1 && params[0] == pid
            &&& t == SearchTable::Artifacts ==> mentions(sql, "archived_at IS NULL"@)
            &&& t == SearchTable::Iterations ==> mentions(sql, "status NOT IN ('completed', 'cancelled')"@)
            &&& t == SearchTable::Tasks ==> mentions(sql, "resolved_at IS NULL"@)
        }),
{
    let s0 = (seq!["project_id = ?1"@], seq![pid], 2nat);
    let s1 = (s0.0.push(active_condition(t)), s0.1, s0.2);
    let tv_in = values_of(inc, FilterKind::Tag);
    let tv_ex = values_of(exc, FilterKind::Tag);
    let s2 = with_tag_includes(s1, tv_in, t);
    let s3 = with_tag_excludes(s2, tv_ex, t);
    lemma_steps_extend(s1, tv_in, t, "IN"@, Seq::empty(), seq![]);
    lemma_steps_extend(s2, tv_ex, t, "IN"@, Seq::empty(), seq![]);
    let si = values_of(inc, FilterKind::Status);
    let se = values_of(exc, FilterKind::Status);
    let s4 = with_statuses(s3, si, "IN"@);
    let s4b = with_statuses(s4, se, "NOT IN"@);
    lemma_steps_extend(s3, si, t, "IN"@, Seq::empty(), seq![]);
    lemma_steps_extend(s4, se, t, "NOT IN"@, Seq::empty(), seq![]);
    let s5 = if t == SearchTable::Artifacts {
        s3
    } else {
        s4b
    };
    let jt = join_with(text, " "@);
    let s6 = with_text(s5, jt, text_columns(t));
    lemma_steps_extend(s5, tv_in, t, "IN"@, jt, text_columns(t));
    assert(s6 == search_state(inc, exc, text, pid, t, false));
    lemma_extends_trans(s1, s2, s3);
    if t == SearchTable::Artifacts {
        lemma_extends_trans(s1, s3, s6);
    } else {
        lemma_extends_trans(s3, s4, s4b);
        lemma_extends_trans(s1, s3, s4b);
        lemma_extends_trans(s1, s4b, s6);
    }
    assert(extends_conditions(s1, s6));
    assert(s6.0.take(2)[0] == s6.0[0] && s6.0.take(2)[1] == s6.0[1]);
    assert(s6.0[0] == "project_id = ?1"@);
    assert(s6.0[1] == active_condition(t));
    // the parameters only grow
    assert(s2.1.len() >= 1 && s2.1[0] == pid);
    assert(s3.1[0] == pid);
    assert(s4.1[0] == pid);
    assert(s4b.1[0] == pid);
    assert(s6.1[0] == pid);
    let head = "SELECT "@ + select_columns(t) + " FROM "@ + table_name(t) + " WHERE "@;
    let tail = " ORDER BY created_at DESC"@;
    lemma_join_mentions(s6.0, " AND "@, 0);
    lemma_join_mentions(s6.0, " AND "@, 1);
    lemma_mentions_within(head, join_with(s6.0, " AND "@), tail, s6.0[0]);
    lemma_mentions_within(head, join_with(s6.0, " AND "@), tail, s6.0[1]);
}

/// The free text of a search, and its scope: a search of artifacts with a
/// `status:` inclusion runs no statement (artifacts have no status), every
/// other search runs one; when the query has free text, the statement
/// matches it, wrapped in `%`, against the title and the description (the
/// body for artifacts), through one parameter that holds it.
pub proof fn law_search_text_and_scope(
    inc: Seq<(FilterKind, Seq<char>)>,
    exc: Seq<(FilterKind, Seq<char>)>,
    text: Seq<Seq<char>>,
    pid: Seq<char>,
    t: SearchTable,
    show_all: bool,
)
    ensures
        spec_search_sql(inc, exc, text, pid, t, show_all) is None <==> (t == SearchTable::Artifacts && exists|i: int|
            0 <= i < inc.len() && (#[trigger] inc[i]).0 == FilterKind::Status),
        spec_search_sql(inc, exc, text, pid, t, show_all) matches Some(stmt) ==> (join_with(text, " "@).len() > 0
            ==> exists|k: nat|
            1 <= k <= stmt.1.len() && stmt.1[k - 1] == seq!['%'] + join_with(text, " "@) + seq!['%']
                && #[trigger] mentions(stmt.0, "title LIKE ?"@ + decimal(k)) && mentions(
                stmt.0,
                (if t == SearchTable::Artifacts {
                    "body"@
                } else {
                    "description"@
                }) + " LIKE ?"@ + decimal(k),
            )),
{
    reveal_strlit("title");
    reveal_strlit("body");
    reveal_strlit("description");
    reveal_strlit(" LIKE ?");
    reveal_strlit("title LIKE ?");
    if spec_search_sql(inc, exc, text, pid, t, show_all) is Some {
        let jt = join_with(text, " "@);
        let s6 = search_state(inc, exc, text, pid, t, show_all);
        if jt.len() > 0 {
            let s0 = (seq!["project_id = ?1"@], seq![pid], 2nat);
            let s1 = if show_all {
                s0
            } else {
                (s0.0.push(active_condition(t)), s0.1, s0.2)
            };
            let s2 = with_tag_includes(s1, values_of(inc, FilterKind::Tag), t);
            let s3 = with_tag_excludes(s2, values_of(exc, FilterKind::Tag), t);
            let s5 = if t == SearchTable::Artifacts {
                s3
            } else {
                with_statuses(
                    with_statuses(s3, values_of(inc, FilterKind::Status), "IN"@),
                    values_of(exc, FilterKind::Status),
                    "NOT IN"@,
                )
            };
            assert(s6 == with_text(s5, jt, text_columns(t)));
            law_search_numbers_every_parameter(inc, exc, text, pid, t, show_all);
            let k = s5.2;
            assert(s6.1 == s5.1.push(seq!['%'] + jt + seq!['%']));
            assert(s6.2 == s5.2 + 1);
            assert(s6.1[k - 1] == seq!['%'] + jt + seq!['%']);
            let cols = text_columns(t).map_values(|c: Seq<char>| c + " LIKE ?"@ + decimal(k));
            let second = if t == SearchTable::Artifacts {
                "body"@
            } else {
                "description"@
            };
            assert(cols.len() == 2);
            assert(cols[0] == "title"@ + " LIKE ?"@ + decimal(k));
            assert(cols[1] == second + " LIKE ?"@ + decimal(k));
            assert("title"@ + " LIKE ?"@ + decimal(k) =~= "title LIKE ?"@ + decimal(k));
            let group = "("@ + join_with(cols, " OR "@) + ")"@;
            lemma_join_mentions(cols, " OR "@, 0);
            lemma_join_mentions(cols, " OR "@, 1);
            lemma_mentions_within("("@, join_with(cols, " OR "@), ")"@, cols[0]);
            lemma_mentions_within("("@, join_with(cols, " OR "@), ")"@, cols[1]);
            let last = (s6.0.len() - 1) as int;
            assert(s6.0[last] == group);
            let head = "SELECT "@ + select_columns(t) + " FROM "@ + table_name(t) + " WHERE "@;
            let tail = " ORDER BY created_at DESC"@;
            lemma_join_mentions(s6.0, " AND "@, last);
            lemma_mentions_within(Seq::empty(), group, Seq::empty(), cols[0]);
            assert(Seq::<char>::empty() + group + Seq::<char>::empty() =~= group);
            // from the group to the conditions to the statement
            assert(mentions(group, cols[0]));
            assert(mentions(group, cols[1]));
            lemma_mentions_trans(join_with(s6.0, " AND "@), group, cols[0]);
            lemma_mentions_trans(join_with(s6.0, " AND "@), group, cols[1]);
            lemma_mentions_within(head, join_with(s6.0, " AND "@), tail, cols[0]);
            lemma_mentions_within(head, join_with(s6.0, " AND "@), tail, cols[1]);
            let stmt = spec_search_sql(inc, exc, text, pid, t, show_all).unwrap();
            assert(stmt.1 == s6.1);
            assert(mentions(stmt.0, "title LIKE ?"@ + decimal(k)));
        }
    }
}

} // verus!
