//! Resolution of id prefixes to full ids: the tables searched, the
//! two-phase (active first, then all) resolution, and the prefix matching
//! of on-disk entity files.

use vstd::prelude::*;
use vstd::string::{StringExecFns, StringSliceAdditionalSpecFns};

use crate::primitives::id::{spec_decode, spec_validate_prefix};
use crate::primitives::{EntityType, Id};
use crate::text::{chars_of, push_all, string_of};

verus! {

/// Tables that can be searched by ID prefix resolution.
///
/// Using an enum (instead of raw `&str`) guarantees that every SQL string
/// interpolates a canonical, hand-audited identifier.
#[derive(Clone, Copy, Debug, PartialEq, Eq, Structural, Hash)]
pub enum Table {
    /// The `artifacts` table.
    Artifacts,
    /// The `iterations` table.
    Iterations,
    /// The `notes` table.
    Notes,
    /// The `tasks` table.
    Tasks,
}

impl Table {
    /// Returns the SQL fragment that filters this table to its "active" set.
    ///
    /// Active means:
    /// - artifacts: not archived (`archived_at IS NULL`)
    /// - tasks: not in a terminal state (`status NOT IN ('done', 'cancelled')`)
    /// - iterations: not in a terminal state (`status NOT IN ('completed', 'cancelled')`)
    /// - notes: no active concept — always returns `None`
    pub fn active_filter(self) -> (r: Option<&'static str>)
        ensures
            match self {
                Table::Artifacts => r matches Some(s) && s@ == "archived_at IS NULL"@,
                Table::Iterations => r matches Some(s) && s@
                    == "status NOT IN ('completed', 'cancelled')"@,
                Table::Notes => r is None,
                Table::Tasks => r matches Some(s) && s@ == "status NOT IN ('done', 'cancelled')"@,
            },
    {
        match self {
            Table::Artifacts => Some("archived_at IS NULL"),
            Table::Iterations => Some("status NOT IN ('completed', 'cancelled')"),
            Table::Notes => None,
            Table::Tasks => Some("status NOT IN ('done', 'cancelled')"),
        }
    }

    /// Returns the canonical SQL identifier for this table.
    pub fn as_sql_ident(self) -> (r: &'static str)
        ensures
            r@ == match self {
                Table::Artifacts => "artifacts"@,
                Table::Iterations => "iterations"@,
                Table::Notes => "notes"@,
                Table::Tasks => "tasks"@,
            },
    {
        match self {
            Table::Artifacts => "artifacts",
            Table::Iterations => "iterations",
            Table::Notes => "notes",
            Table::Tasks => "tasks",
        }
    }
}

/// The statement that finds the ids of a table starting with the prefix
/// bound to `?1`, among the active rows only when `active_only` is set and
/// the table has an active filter.
pub fn match_query_sql(table: Table, active_only: bool) -> (r: String)
    ensures
        r@ == "SELECT id FROM "@ + match table {
            Table::Artifacts => "artifacts"@,
            Table::Iterations => "iterations"@,
            Table::Notes => "notes"@,
            Table::Tasks => "tasks"@,
        } + " WHERE id LIKE ?1 || '%'"@ + if active_only {
            match table {
                Table::Artifacts => " AND archived_at IS NULL"@,
                Table::Iterations => " AND status NOT IN ('completed', 'cancelled')"@,
                Table::Notes => Seq::<char>::empty(),
                Table::Tasks => " AND status NOT IN ('done', 'cancelled')"@,
            }
        } else {
            Seq::<char>::empty()
        },
{
    let mut sql = chars_of("SELECT id FROM ");
    let ident = chars_of(table.as_sql_ident());
    push_all(&mut sql, &ident);
    let like = chars_of(" WHERE id LIKE ?1 || '%'");
    push_all(&mut sql, &like);
    if active_only {
        if let Some(filter) = table.active_filter() {
            let and = chars_of(" AND ");
            push_all(&mut sql, &and);
            let f = chars_of(filter);
            push_all(&mut sql, &f);
            proof {
                reveal_strlit(" AND ");
                reveal_strlit("archived_at IS NULL");
                reveal_strlit(" AND archived_at IS NULL");
                reveal_strlit("status NOT IN ('completed', 'cancelled')");
                reveal_strlit(" AND status NOT IN ('completed', 'cancelled')");
                reveal_strlit("status NOT IN ('done', 'cancelled')");
                reveal_strlit(" AND status NOT IN ('done', 'cancelled')");
            }
        }
    }
    string_of(&sql)
}

/// Errors of id prefix resolution.
#[derive(Debug, PartialEq, Eq)]
pub enum ResolveError {
    /// The prefix (or a matched id) is not a valid id or id prefix.
    InvalidPrefix(String),
    /// More than one row matched the prefix: the prefix and the count.
    Ambiguous(String, usize),
    /// Nothing matched.
    NotFound(String),
}

/// What resolving a prefix against one set of matching ids yields: `None`
/// when nothing matched.
pub open spec fn spec_pick(prefix: Seq<char>, matches: Seq<Seq<char>>) -> Option<Result<Seq<u8>, ResolveErrorView>> {
    if matches.len() == 0 {
        None
    } else if matches.len() == 1 {
        Some(
            match spec_decode(vstd::utf8::encode_utf8(matches[0])) {
                Ok(b) => Ok(b),
                Err(e) => Err(ResolveErrorView::InvalidPrefix(e)),
            },
        )
    } else {
        Some(Err(ResolveErrorView::Ambiguous(prefix, matches.len())))
    }
}

/// A resolution error as a value.
pub enum ResolveErrorView {
    InvalidPrefix(Seq<char>),
    Ambiguous(Seq<char>, nat),
    NotFound(Seq<char>),
}

impl View for ResolveError {
    type V = ResolveErrorView;

    open spec fn view(&self) -> ResolveErrorView {
        match self {
            ResolveError::InvalidPrefix(m) => ResolveErrorView::InvalidPrefix(m@),
            ResolveError::Ambiguous(p, n) => ResolveErrorView::Ambiguous(p@, *n as nat),
            ResolveError::NotFound(m) => ResolveErrorView::NotFound(m@),
        }
    }
}

/// The message of a failed lookup.
pub open spec fn not_found_message(prefix: Seq<char>) -> Seq<char> {
    "id prefix '"@ + prefix + "'"@
}

/// What two-phase resolution yields: the active matches decide when there
/// is any; otherwise all matches do.
pub open spec fn spec_resolve(
    prefix: &str,
    active: Seq<Seq<char>>,
    all: Seq<Seq<char>>,
) -> Result<Seq<u8>, ResolveErrorView> {
    match spec_validate_prefix(prefix@, prefix.spec_bytes()) {
        Err(e) => Err(ResolveErrorView::InvalidPrefix(e)),
        Ok(_) => match spec_pick(prefix@, active) {
            Some(r) => r,
            None => match spec_pick(prefix@, all) {
                Some(r) => r,
                None => Err(ResolveErrorView::NotFound(not_found_message(prefix@))),
            },
        },
    }
}

/// Resolve one set of matching ids: `None` when it is empty.
fn pick(prefix: &str, matches: &Vec<String>) -> (r: Option<Result<Id, ResolveError>>)
    ensures
        match r {
            None => spec_pick(prefix@, matches@.map_values(|m: String| m@)) is None,
            Some(Ok(id)) => spec_pick(prefix@, matches@.map_values(|m: String| m@)) == Some(
                Ok::<Seq<u8>, ResolveErrorView>(id@),
            ),
            Some(Err(e)) => spec_pick(prefix@, matches@.map_values(|m: String| m@)) == Some(
                Err::<Seq<u8>, ResolveErrorView>(e@),
            ),
        },
{
    let ghost mv = matches@.map_values(|m: String| m@);
    if matches.len() == 0 {
        None
    } else if matches.len() == 1 {
        assert(mv[0] == matches@[0]@);
        match Id::parse_str(matches[0].as_str()) {
            Ok(id) => Some(Ok(id)),
            Err(e) => Some(Err(ResolveError::InvalidPrefix(e))),
        }
    } else {
        Some(Err(ResolveError::Ambiguous(string_of(&chars_of(prefix)), matches.len())))
    }
}

/// Resolve an ID prefix to a full ID from the ids that match it.
///
/// Resolution is two-phase: `active_matches` are the ids of the active set
/// (non-archived / non-terminal rows) that start with the prefix, and
/// `all_matches` those of all rows; the latter are consulted only when the
/// former are empty. Exactly one match resolves; more than one is
/// ambiguous. The fallback is silent: a prefix matching one active and one
/// archived entity resolves to the active one.
pub fn resolve_id(prefix: &str, active_matches: &Vec<String>, all_matches: &Vec<String>) -> (r: Result<Id, ResolveError>)
    ensures
        match r {
            Ok(id) => spec_resolve(
                prefix,
                active_matches@.map_values(|m: String| m@),
                all_matches@.map_values(|m: String| m@),
            ) == Ok::<Seq<u8>, ResolveErrorView>(id@),
            Err(e) => spec_resolve(
                prefix,
                active_matches@.map_values(|m: String| m@),
                all_matches@.map_values(|m: String| m@),
            ) == Err::<Seq<u8>, ResolveErrorView>(e@),
        },
{
    match Id::validate_prefix(prefix) {
        Err(e) => return Err(ResolveError::InvalidPrefix(e)),
        Ok(_) => {},
    }
    match pick(prefix, active_matches) {
        Some(r) => return r,
        None => {},
    }
    match pick(prefix, all_matches) {
        Some(r) => r,
        None => {
            let mut msg = chars_of("id prefix '");
            let p = chars_of(prefix);
            push_all(&mut msg, &p);
            let tail = chars_of("'");
            push_all(&mut msg, &tail);
            Err(ResolveError::NotFound(string_of(&msg)))
        },
    }
}

/// A single active match decides the resolution, whatever else matches:
/// the id the active row has, when its text is a valid id.
pub proof fn law_active_match_wins(prefix: &str, id: Seq<u8>, all: Seq<Seq<char>>)
    requires
        spec_validate_prefix(prefix@, prefix.spec_bytes()) is Ok,
        id.len() == 16,
    ensures
        spec_resolve(prefix, seq![crate::primitives::id::encode_bytes(id)], all) == Ok::<
            Seq<u8>,
            ResolveErrorView,
        >(id),
{
    crate::primitives::id::law_decode_encode(id);
}

/// With no active match, a single match among all rows decides.
pub proof fn law_falls_back_to_all_rows(prefix: &str, id: Seq<u8>)
    requires
        spec_validate_prefix(prefix@, prefix.spec_bytes()) is Ok,
        id.len() == 16,
    ensures
        spec_resolve(prefix, Seq::empty(), seq![crate::primitives::id::encode_bytes(id)]) == Ok::<
            Seq<u8>,
            ResolveErrorView,
        >(id),
{
    crate::primitives::id::law_decode_encode(id);
}

/// A valid prefix that matches nothing is not found, naming the prefix.
pub proof fn law_nothing_matches(prefix: &str)
    requires
        spec_validate_prefix(prefix@, prefix.spec_bytes()) is Ok,
    ensures
        spec_resolve(prefix, Seq::empty(), Seq::empty()) == Err::<Seq<u8>, ResolveErrorView>(
            ResolveErrorView::NotFound(not_found_message(prefix@)),
        ),
{
}

/// Two or more active matches make the prefix ambiguous, with their count.
pub proof fn law_several_active_matches_are_ambiguous(prefix: &str, active: Seq<Seq<char>>, all: Seq<Seq<char>>)
    requires
        spec_validate_prefix(prefix@, prefix.spec_bytes()) is Ok,
        active.len() >= 2,
    ensures
        spec_resolve(prefix, active, all) == Err::<Seq<u8>, ResolveErrorView>(
            ResolveErrorView::Ambiguous(prefix@, active.len()),
        ),
{
}

/// The ids of the rows that start with a prefix, per entity table.
#[derive(Debug)]
pub struct EntityMatches {
    pub artifacts: Vec<String>,
    pub iterations: Vec<String>,
    pub tasks: Vec<String>,
}

/// Ids tagged with their entity kind.
pub open spec fn tagged(k: EntityType, ids: Seq<String>) -> Seq<(EntityType, Seq<char>)> {
    ids.map_values(|s: String| (k, s@))
}

/// The matching rows in table order (artifacts, iterations, tasks), each
/// with its kind.
pub open spec fn entity_rows(m: EntityMatches) -> Seq<(EntityType, Seq<char>)> {
    tagged(EntityType::Artifact, m.artifacts@) + tagged(EntityType::Iteration, m.iterations@) + tagged(
        EntityType::Task,
        m.tasks@,
    )
}

/// Every row's id parsed, in order, or the error of the first that does
/// not parse.
pub open spec fn parse_rows(rows: Seq<(EntityType, Seq<char>)>) -> Result<Seq<(EntityType, Seq<u8>)>, Seq<char>>
    decreases rows.len(),
{
    if rows.len() == 0 {
        Ok(Seq::empty())
    } else {
        match parse_rows(rows.drop_last()) {
            Err(e) => Err(e),
            Ok(done) => match spec_decode(vstd::utf8::encode_utf8(rows.last().1)) {
                Ok(b) => Ok(done.push((rows.last().0, b))),
                Err(e) => Err(e),
            },
        }
    }
}

/// What one phase of entity resolution yields: `None` when nothing matched.
pub open spec fn spec_pick_entity(prefix: Seq<char>, rows: Seq<(EntityType, Seq<char>)>) -> Option<
    Result<(EntityType, Seq<u8>), ResolveErrorView>,
> {
    match parse_rows(rows) {
        Err(e) => Some(Err(ResolveErrorView::InvalidPrefix(e))),
        Ok(found) => if found.len() == 0 {
            None
        } else if found.len() == 1 {
            Some(Ok(found[0]))
        } else {
            Some(Err(ResolveErrorView::Ambiguous(prefix, found.len())))
        },
    }
}

/// What resolving a prefix across the entity tables yields: the active
/// matches decide when there is any; otherwise all matches do.
pub open spec fn spec_resolve_entity(
    prefix: &str,
    active: Seq<(EntityType, Seq<char>)>,
    all: Seq<(EntityType, Seq<char>)>,
) -> Result<(EntityType, Seq<u8>), ResolveErrorView> {
    match spec_validate_prefix(prefix@, prefix.spec_bytes()) {
        Err(e) => Err(ResolveErrorView::InvalidPrefix(e)),
        Ok(_) => match spec_pick_entity(prefix@, active) {
            Some(r) => r,
            None => match spec_pick_entity(prefix@, all) {
                Some(r) => r,
                None => Err(ResolveErrorView::NotFound(not_found_message(prefix@))),
            },
        },
    }
}

/// The view of parsed matches.
pub open spec fn found_view(v: Seq<(EntityType, Id)>) -> Seq<(EntityType, Seq<u8>)> {
    v.map_values(|p: (EntityType, Id)| (p.0, p.1@))
}

/// Parses one table's matching ids onto `out`.
fn collect_group(
    out: &mut Vec<(EntityType, Id)>,
    k: EntityType,
    ids: &Vec<String>,
    Ghost(before): Ghost<Seq<(EntityType, Seq<char>)>>,
) -> (r: Result<(), String>)
    requires
        parse_rows(before) == Ok::<Seq<(EntityType, Seq<u8>)>, Seq<char>>(found_view(old(out)@)),
    ensures
        match r {
            Ok(()) => parse_rows(before + tagged(k, ids@)) == Ok::<Seq<(EntityType, Seq<u8>)>, Seq<char>>(
                found_view(final(out)@),
            ),
            Err(e) => parse_rows(before + tagged(k, ids@)) == Err::<Seq<(EntityType, Seq<u8>)>, Seq<char>>(e@),
        },
{
    let ghost t = tagged(k, ids@);
    let mut i: usize = 0;
    assert(before + t.take(0) =~= before);
    while i < ids.len()
        invariant
            0 <= i <= ids.len(),
            t == tagged(k, ids@),
            parse_rows(before + t.take(i as int)) == Ok::<Seq<(EntityType, Seq<u8>)>, Seq<char>>(found_view(out@)),
        decreases ids.len() - i,
    {
        assert((before + t.take(i + 1)).drop_last() =~= before + t.take(i as int));
        assert((before + t.take(i + 1)).last() == (k, ids@[i as int]@));
        match Id::parse_str(ids[i].as_str()) {
            Ok(id) => {
                let ghost prev = out@;
                out.push((k, id));
                assert(found_view(out@) =~= found_view(prev).push((k, id@)));
            },
            Err(e) => {
                proof {
                    assert(before + t.take(i + 1) =~= (before + t).take((before + t.take(i + 1)).len() as int));
                    lemma_parse_rows_err(before + t.take(i + 1), before + t);
                }
                return Err(e);
            },
        }
        i = i + 1;
    }
    assert(t.take(ids.len() as int) =~= t);
    Ok(())
}

/// An error in the first rows is the error of any extension of them.
proof fn lemma_parse_rows_err(a: Seq<(EntityType, Seq<char>)>, b: Seq<(EntityType, Seq<char>)>)
    requires
        a.len() <= b.len(),
        a == b.take(a.len() as int),
        parse_rows(a) is Err,
    ensures
        parse_rows(b) == parse_rows(a),
    decreases b.len(),
{
    if b.len() > a.len() {
        assert(b.drop_last().take(a.len() as int) =~= a);
        lemma_parse_rows_err(a, b.drop_last());
    } else {
        assert(a =~= b);
    }
}

/// Parses the matching ids of every entity table, in table order.
fn collect_entity_matches(m: &EntityMatches) -> (r: Result<Vec<(EntityType, Id)>, String>)
    ensures
        match r {
            Ok(v) => parse_rows(entity_rows(*m)) == Ok::<Seq<(EntityType, Seq<u8>)>, Seq<char>>(found_view(v@)),
            Err(e) => parse_rows(entity_rows(*m)) == Err::<Seq<(EntityType, Seq<u8>)>, Seq<char>>(e@),
        },
{
    let mut out: Vec<(EntityType, Id)> = Vec::new();
    let ghost r0 = Seq::<(EntityType, Seq<char>)>::empty();
    assert(found_view(out@) =~= Seq::<(EntityType, Seq<u8>)>::empty());
    let ghost r1 = r0 + tagged(EntityType::Artifact, m.artifacts@);
    match collect_group(&mut out, EntityType::Artifact, &m.artifacts, Ghost(r0)) {
        Ok(()) => {},
        Err(e) => {
            proof {
                assert(r1 =~= entity_rows(*m).take(r1.len() as int));
                lemma_parse_rows_err(r1, entity_rows(*m));
            }
            return Err(e);
        },
    }
    let ghost r2 = r1 + tagged(EntityType::Iteration, m.iterations@);
    match collect_group(&mut out, EntityType::Iteration, &m.iterations, Ghost(r1)) {
        Ok(()) => {},
        Err(e) => {
            proof {
                assert(r2 =~= entity_rows(*m).take(r2.len() as int));
                lemma_parse_rows_err(r2, entity_rows(*m));
            }
            return Err(e);
        },
    }
    let ghost r3 = r2 + tagged(EntityType::Task, m.tasks@);
    assert(r3 =~= entity_rows(*m));
    match collect_group(&mut out, EntityType::Task, &m.tasks, Ghost(r2)) {
        Ok(()) => {},
        Err(e) => {
            return Err(e);
        },
    }
    Ok(out)
}

/// Resolves one phase of entity resolution: `None` when nothing matched.
fn pick_entity(prefix: &str, m: &EntityMatches) -> (r: Option<Result<(EntityType, Id), ResolveError>>)
    ensures
        match r {
            None => spec_pick_entity(prefix@, entity_rows(*m)) is None,
            Some(Ok((k, id))) => spec_pick_entity(prefix@, entity_rows(*m)) == Some(
                Ok::<(EntityType, Seq<u8>), ResolveErrorView>((k, id@)),
            ),
            Some(Err(e)) => spec_pick_entity(prefix@, entity_rows(*m)) == Some(
                Err::<(EntityType, Seq<u8>), ResolveErrorView>(e@),
            ),
        },
{
    match collect_entity_matches(m) {
        Err(e) => Some(Err(ResolveError::InvalidPrefix(e))),
        Ok(found) => {
            if found.len() == 0 {
                None
            } else if found.len() == 1 {
                let (k, id) = found[0];
                assert(found_view(found@)[0] == (k, id@));
                Some(Ok((k, id)))
            } else {
                Some(Err(ResolveError::Ambiguous(string_of(&chars_of(prefix)), found.len())))
            }
        },
    }
}

/// Resolve an id prefix across the artifact, iteration and task tables.
///
/// Resolution is two-phase: `active` holds, per table, the ids of the active
/// rows starting with the prefix, and `all` those of all rows; the latter
/// are consulted only when the former are empty. Exactly one match resolves
/// (to its kind and id); more than one is ambiguous; a matched id that does
/// not parse is an invalid prefix. The fallback is silent: a prefix
/// matching one active and one archived entity resolves to the active one.
pub fn resolve_entity(prefix: &str, active: &EntityMatches, all: &EntityMatches) -> (r: Result<(EntityType, Id), ResolveError>)
    ensures
        match r {
            Ok((k, id)) => spec_resolve_entity(prefix, entity_rows(*active), entity_rows(*all)) == Ok::<
                (EntityType, Seq<u8>),
                ResolveErrorView,
            >((k, id@)),
            Err(e) => spec_resolve_entity(prefix, entity_rows(*active), entity_rows(*all)) == Err::<
                (EntityType, Seq<u8>),
                ResolveErrorView,
            >(e@),
        },
{
    match Id::validate_prefix(prefix) {
        Err(e) => return Err(ResolveError::InvalidPrefix(e)),
        Ok(_) => {},
    }
    match pick_entity(prefix, active) {
        Some(r) => return r,
        None => {},
    }
    match pick_entity(prefix, all) {
        Some(r) => r,
        None => {
            let mut msg = chars_of("id prefix '");
            let p = chars_of(prefix);
            push_all(&mut msg, &p);
            let tail = chars_of("'");
            push_all(&mut msg, &tail);
            Err(ResolveError::NotFound(string_of(&msg)))
        },
    }
}

/// A single active entity decides entity resolution, whatever else matches
/// among all rows: its kind and the id its row has.
pub proof fn law_active_entity_wins(prefix: &str, k: EntityType, id: Seq<u8>, all: Seq<(EntityType, Seq<char>)>)
    requires
        spec_validate_prefix(prefix@, prefix.spec_bytes()) is Ok,
        id.len() == 16,
    ensures
        spec_resolve_entity(prefix, seq![(k, crate::primitives::id::encode_bytes(id))], all) == Ok::<
            (EntityType, Seq<u8>),
            ResolveErrorView,
        >((k, id)),
{
    crate::primitives::id::law_decode_encode(id);
    let rows = seq![(k, crate::primitives::id::encode_bytes(id))];
    assert(rows.drop_last() =~= Seq::<(EntityType, Seq<char>)>::empty());
    assert(parse_rows(Seq::<(EntityType, Seq<char>)>::empty()) == Ok::<Seq<(EntityType, Seq<u8>)>, Seq<char>>(
        Seq::empty(),
    ));
    assert(Seq::<(EntityType, Seq<u8>)>::empty().push((k, id)) =~= seq![(k, id)]);
    assert(parse_rows(rows) == Ok::<Seq<(EntityType, Seq<u8>)>, Seq<char>>(seq![(k, id)]));
}

} // verus!
