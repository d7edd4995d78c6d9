//! Rows shown for the tasks of an iteration, and the per-status counts of
//! those tasks.

use vstd::prelude::*;
use vstd::utf8::{encode_scalar, encode_utf8};

use crate::text::{chars_of, same_str, string_of, strs, subvec};

verus! {

/// A task's summary within an iteration.
#[derive(Debug)]
pub struct IterationTaskRow {
    /// Short ids of the tasks that block the task (empty when none do).
    pub blocked_by: Vec<String>,
    /// Truncated task id for display.
    pub id_short: String,
    /// Whether the task blocks at least one other task.
    pub is_blocking: bool,
    /// Phase number within the iteration.
    pub phase: u32,
    /// Task priority (lower numbers are higher priority).
    pub priority: Option<u8>,
    /// Task status as stored.
    pub status: String,
    /// Task title.
    pub title: String,
}

/// Status counts for the tasks of an iteration.
#[derive(Debug, PartialEq, Eq, Structural)]
pub struct StatusCounts {
    /// Number of tasks in the `cancelled` state.
    pub cancelled: i64,
    /// Number of tasks in the `done` state.
    pub done: i64,
    /// Number of tasks in the `in-progress` state.
    pub in_progress: i64,
    /// Number of tasks in the `open` state.
    pub open: i64,
    /// Number of tasks across all states.
    pub total: i64,
}

/// The UTF-8 width of a character.
pub open spec fn utf8_width(c: char) -> nat {
    let u = c as u32;
    if u <= 0x7F {
        1
    } else if u <= 0x7FF {
        2
    } else if u <= 0xFFFF {
        3
    } else {
        4
    }
}

/// Encoding one more character appends its encoding.
proof fn lemma_encode_push(t: Seq<char>, c: char)
    ensures
        encode_utf8(t.push(c)) == encode_utf8(t) + encode_scalar(c as u32),
        encode_scalar(c as u32).len() == utf8_width(c),
    decreases t.len(),
{
    if t.len() == 0 {
        assert(t.push(c).drop_first() =~= Seq::<char>::empty());
        assert(encode_utf8(t.push(c)) =~= encode_scalar(c as u32) + encode_utf8(Seq::<char>::empty()));
    } else {
        lemma_encode_push(t.drop_first(), c);
        assert(t.push(c).drop_first() =~= t.drop_first().push(c));
        assert(encode_utf8(t.push(c)) =~= encode_utf8(t) + encode_scalar(c as u32));
    }
}

/// The byte length of the first `k` characters grows with `k`.
pub proof fn lemma_prefix_bytes_grow(s: Seq<char>, j: int, k: int)
    requires
        0 <= j < k <= s.len(),
    ensures
        encode_utf8(s.take(j)).len() < encode_utf8(s.take(k)).len(),
    decreases k - j,
{
    assert(s.take(k) =~= s.take(k - 1).push(s[k - 1]));
    lemma_encode_push(s.take(k - 1), s[k - 1]);
    if j < k - 1 {
        lemma_prefix_bytes_grow(s, j, k - 1);
    }
}

/// Whether the first eight bytes of `s` end on a character boundary, or `s`
/// has fewer than eight bytes.
pub open spec fn cut_at_eight_ok(s: Seq<char>) -> bool {
    encode_utf8(s).len() < 8 || exists|k: int| 0 <= k <= s.len() && encode_utf8(#[trigger] s.take(k)).len() == 8
}

/// The first eight bytes of an id as text (the whole id when it is shorter).
pub open spec fn spec_short_id(s: Seq<char>) -> Seq<char> {
    if encode_utf8(s).len() < 8 {
        s
    } else {
        s.take(choose|k: int| 0 <= k <= s.len() && encode_utf8(#[trigger] s.take(k)).len() == 8)
    }
}

/// The first eight bytes of a task id (the whole id when it is shorter).
pub fn short_task_id(full_id: &str) -> (r: String)
    requires
        cut_at_eight_ok(full_id@),
    ensures
        r@ == spec_short_id(full_id@),
        encode_utf8(full_id@).len() < 8 ==> r@ == full_id@,
        encode_utf8(full_id@).len() >= 8 ==> encode_utf8(r@).len() == 8 && full_id@.take(r@.len() as int) == r@
            && r@.len() <= full_id@.len(),
{
    let cs = chars_of(full_id);
    let n = cs.len();
    let mut acc: usize = 0;
    let mut i: usize = 0;
    assert(cs@.take(0) =~= Seq::<char>::empty());
    while i < n && acc < 8
        invariant
            0 <= i <= n,
            n == cs.len(),
            cs@ == full_id@,
            acc == encode_utf8(cs@.take(i as int)).len(),
            acc <= 11,
            i > 0 ==> encode_utf8(cs@.take(i - 1)).len() < 8,
        decreases n - i,
    {
        let u = cs[i] as u32;
        let w: usize = if u <= 0x7F {
            1
        } else if u <= 0x7FF {
            2
        } else if u <= 0xFFFF {
            3
        } else {
            4
        };
        proof {
            assert(cs@.take(i + 1) =~= cs@.take(i as int).push(cs@[i as int]));
            lemma_encode_push(cs@.take(i as int), cs@[i as int]);
        }
        acc = acc + w;
        i = i + 1;
    }
    if acc < 8 {
        assert(cs@.take(n as int) =~= cs@);
        return string_of(&cs);
    }
    proof {
        assert(acc >= 8);
        if acc > 8 {
            if encode_utf8(full_id@).len() < 8 {
                if i < n {
                    lemma_prefix_bytes_grow(cs@, i as int, n as int);
                }
                assert(cs@.take(n as int) =~= cs@);
            } else {
                let k = choose|k: int| 0 <= k <= cs@.len() && encode_utf8(#[trigger] cs@.take(k)).len() == 8;
                if k < i {
                    if k < i - 1 {
                        lemma_prefix_bytes_grow(cs@, k, i - 1);
                    }
                    assert(encode_utf8(cs@.take(i - 1)).len() < 8);
                } else if k > i {
                    lemma_prefix_bytes_grow(cs@, i as int, k);
                }
            }
        }
        if i < n {
            lemma_prefix_bytes_grow(cs@, i as int, n as int);
        }
        assert(cs@.take(n as int) =~= cs@);
    }
    proof {
        if encode_utf8(full_id@).len() >= 8 {
            let k = choose|k: int| 0 <= k <= full_id@.len() && encode_utf8(#[trigger] full_id@.take(k)).len() == 8;
            if k < i {
                lemma_prefix_bytes_grow(cs@, k, i as int);
            } else if k > i {
                lemma_prefix_bytes_grow(cs@, i as int, k);
            }
        }
    }
    let r = subvec(&cs, 0, i);
    string_of(&r)
}

/// The count recorded for a status: that of its last row, or 0.
pub open spec fn last_count(rows: Seq<(String, i64)>, status: Seq<char>) -> i64
    decreases rows.len(),
{
    if rows.len() == 0 {
        0
    } else if rows.last().0@ == status {
        rows.last().1
    } else {
        last_count(rows.drop_last(), status)
    }
}

/// The sum of the counts of all rows.
pub open spec fn sum_counts(rows: Seq<(String, i64)>) -> int
    decreases rows.len(),
{
    if rows.len() == 0 {
        0
    } else {
        sum_counts(rows.drop_last()) + rows.last().1
    }
}

/// Every running sum of the counts fits in an `i64`.
pub open spec fn sums_fit(rows: Seq<(String, i64)>) -> bool {
    forall|k: int| 0 <= k <= rows.len() ==> i64::MIN <= #[trigger] sum_counts(rows.take(k)) <= i64::MAX
}

/// Tallies `(status, count)` rows: the total adds every count, and each
/// known status takes the count of its (last) row.
pub fn status_counts_from_rows(rows: &Vec<(String, i64)>) -> (r: StatusCounts)
    requires
        sums_fit(rows@),
    ensures
        r.total == sum_counts(rows@),
        r.cancelled == last_count(rows@, "cancelled"@),
        r.done == last_count(rows@, "done"@),
        r.in_progress == last_count(rows@, "in-progress"@),
        r.open == last_count(rows@, "open"@),
{
    let mut counts = StatusCounts { cancelled: 0, done: 0, in_progress: 0, open: 0, total: 0 };
    let mut i: usize = 0;
    assert(rows@.take(0) =~= Seq::<(String, i64)>::empty());
    while i < rows.len()
        invariant
            0 <= i <= rows.len(),
            sums_fit(rows@),
            counts.total == sum_counts(rows@.take(i as int)),
            counts.cancelled == last_count(rows@.take(i as int), "cancelled"@),
            counts.done == last_count(rows@.take(i as int), "done"@),
            counts.in_progress == last_count(rows@.take(i as int), "in-progress"@),
            counts.open == last_count(rows@.take(i as int), "open"@),
        decreases rows.len() - i,
    {
        proof {
            assert(rows@.take(i + 1).drop_last() =~= rows@.take(i as int));
            assert(i64::MIN <= sum_counts(rows@.take(i + 1)) <= i64::MAX);
        }
        let (status, count) = (&rows[i].0, rows[i].1);
        counts.total = counts.total + count;
        if same_str(status.as_str(), "cancelled") {
            counts.cancelled = count;
        } else if same_str(status.as_str(), "done") {
            counts.done = count;
        } else if same_str(status.as_str(), "in-progress") {
            counts.in_progress = count;
        } else if same_str(status.as_str(), "open") {
            counts.open = count;
        }
        proof {
            reveal_strlit("cancelled");
            reveal_strlit("done");
            reveal_strlit("in-progress");
            reveal_strlit("open");
            assert("cancelled"@.len() != "done"@.len());
            assert("cancelled"@.len() != "in-progress"@.len());
            assert("cancelled"@.len() != "open"@.len());
            assert("done"@.len() != "in-progress"@.len());
            assert("done"@[0] != "open"@[0]);
            assert("in-progress"@.len() != "open"@.len());
        }
        i = i + 1;
    }
    assert(rows@.take(rows.len() as int) =~= rows@);
    counts
}

/// A task of an iteration as the board query returns it.
#[derive(Debug)]
pub struct PhaseRow {
    pub id: String,
    pub title: String,
    pub status: String,
    pub priority: Option<i64>,
    pub phase: i64,
}

/// A blocking relationship between tasks: source, target and type.
#[derive(Debug)]
pub struct Relationship {
    pub source_id: String,
    pub target_id: String,
    pub rel_type: String,
}

/// The blocker and the blocked task of a relationship, if it is a blocking one.
pub open spec fn edge(r: Relationship) -> Option<(Seq<char>, Seq<char>)> {
    if r.rel_type@ == "blocks"@ {
        Some((r.source_id@, r.target_id@))
    } else if r.rel_type@ == "blocked-by"@ {
        Some((r.target_id@, r.source_id@))
    } else {
        None
    }
}

/// The tasks that block task `id`, in relationship order.
pub open spec fn blockers_of(rels: Seq<Relationship>, id: Seq<char>) -> Seq<Seq<char>>
    decreases rels.len(),
{
    if rels.len() == 0 {
        Seq::empty()
    } else {
        let rest = blockers_of(rels.drop_last(), id);
        match edge(rels.last()) {
            Some((blocker, blocked)) => if blocked == id {
                rest.push(blocker)
            } else {
                rest
            },
            None => rest,
        }
    }
}

/// Whether task `id` blocks some task.
pub open spec fn is_blocking_task(rels: Seq<Relationship>, id: Seq<char>) -> bool {
    exists|i: int| 0 <= i < rels.len() && blocker_is(#[trigger] rels[i], id)
}

/// Whether a relationship makes task `id` a blocker.
pub open spec fn blocker_is(r: Relationship, id: Seq<char>) -> bool {
    edge(r) matches Some((b, _)) && b == id
}

/// Every id can be cut at eight bytes.
pub open spec fn ids_cuttable(rows: Seq<PhaseRow>, rels: Seq<Relationship>) -> bool {
    &&& forall|i: int| 0 <= i < rows.len() ==> cut_at_eight_ok(#[trigger] rows[i].id@)
    &&& forall|i: int|
        0 <= i < rels.len() ==> cut_at_eight_ok(#[trigger] rels[i].source_id@) && cut_at_eight_ok(
            rels[i].target_id@,
        )
}

/// The blocker of a relationship, when it blocks task `id`.
fn blocker_for<'a>(r: &'a Relationship, id: &str) -> (res: Option<&'a String>)
    ensures
        match res {
            Some(b) => edge(*r) matches Some((blocker, blocked)) && blocked == id@ && b@ == blocker,
            None => !(edge(*r) matches Some((_, blocked)) && blocked == id@),
        },
{
    if same_str(r.rel_type.as_str(), "blocks") {
        if same_str(r.target_id.as_str(), id) {
            Some(&r.source_id)
        } else {
            None
        }
    } else if same_str(r.rel_type.as_str(), "blocked-by") {
        proof {
            reveal_strlit("blocks");
            reveal_strlit("blocked-by");
            assert(r.rel_type@ != "blocks"@) by {
                assert("blocks"@.len() != "blocked-by"@.len());
            }
        }
        if same_str(r.source_id.as_str(), id) {
            Some(&r.target_id)
        } else {
            None
        }
    } else {
        None
    }
}

/// Whether a relationship makes task `id` a blocker.
fn blocks_someone(r: &Relationship, id: &str) -> (res: bool)
    ensures
        res == blocker_is(*r, id@),
{
    if same_str(r.rel_type.as_str(), "blocks") {
        same_str(r.source_id.as_str(), id)
    } else if same_str(r.rel_type.as_str(), "blocked-by") {
        proof {
            reveal_strlit("blocks");
            reveal_strlit("blocked-by");
            assert(r.rel_type@ != "blocks"@) by {
                assert("blocks"@.len() != "blocked-by"@.len());
            }
        }
        same_str(r.target_id.as_str(), id)
    } else {
        false
    }
}

/// The rows of an iteration's board: each task with its short id, its phase
/// and priority narrowed as stored, the short ids of the tasks that block it,
/// and whether it blocks another task.
pub fn tasks_with_phase(rows: Vec<PhaseRow>, rels: &Vec<Relationship>) -> (r: Vec<IterationTaskRow>)
    requires
        ids_cuttable(rows@, rels@),
    ensures
        r@.len() == rows@.len(),
        forall|i: int|
            0 <= i < rows@.len() ==> {
                let row = #[trigger] r@[i];
                let src = rows@[i];
                &&& row.id_short@ == spec_short_id(src.id@)
                &&& row.title == src.title
                &&& row.status == src.status
                &&& row.phase == src.phase as u32
                &&& row.priority == match src.priority {
                    Some(p) => Some(p as u8),
                    None => None,
                }
                &&& strs(row.blocked_by@) == blockers_of(rels@, src.id@).map_values(|b: Seq<char>| spec_short_id(b))
                &&& row.is_blocking == is_blocking_task(rels@, src.id@)
            },
{
    let ghost all = rows@;
    let mut rest = rows;
    let mut out: Vec<IterationTaskRow> = Vec::new();
    let ghost mut taken: int = 0;
    assert(rest@ =~= all.skip(0));
    while rest.len() > 0
        invariant
            0 <= taken <= all.len(),
            rest@ == all.skip(taken),
            ids_cuttable(all, rels@),
            out@.len() == taken,
            forall|i: int|
                0 <= i < taken ==> {
                    let row = #[trigger] out@[i];
                    let src = all[i];
                    &&& row.id_short@ == spec_short_id(src.id@)
                    &&& row.title == src.title
                    &&& row.status == src.status
                    &&& row.phase == src.phase as u32
                    &&& row.priority == match src.priority {
                        Some(p) => Some(p as u8),
                        None => None,
                    }
                    &&& strs(row.blocked_by@) == blockers_of(rels@, src.id@).map_values(
                        |b: Seq<char>| spec_short_id(b),
                    )
                    &&& row.is_blocking == is_blocking_task(rels@, src.id@)
                },
        decreases rest.len(),
    {
        let src = rest.remove(0);
        proof {
            assert(src == all[taken]);
            assert(rest@ =~= all.skip(taken + 1));
        }
        let mut blocked_by: Vec<String> = Vec::new();
        let mut is_blocking = false;
        let mut j: usize = 0;
        while j < rels.len()
            invariant
                0 <= j <= rels.len(),
                ids_cuttable(all, rels@),
                strs(blocked_by@) == blockers_of(rels@.take(j as int), src.id@).map_values(
                    |b: Seq<char>| spec_short_id(b),
                ),
                is_blocking == exists|k: int| 0 <= k < j && blocker_is(#[trigger] rels@[k], src.id@),
            decreases rels.len() - j,
        {
            let r = &rels[j];
            proof {
                assert(rels@.take(j + 1).drop_last() =~= rels@.take(j as int));
                assert(rels@.take(j + 1).last() == rels@[j as int]);
            }
            match blocker_for(r, src.id.as_str()) {
                Some(b) => {
                    let ghost before = blocked_by@;
                    blocked_by.push(short_task_id(b.as_str()));
                    proof {
                        assert(strs(blocked_by@) =~= strs(before).push(spec_short_id(b@)));
                    }
                },
                None => {},
            }
            if blocks_someone(r, src.id.as_str()) {
                is_blocking = true;
            }
            j = j + 1;
        }
        assert(rels@.take(rels.len() as int) =~= rels@);
        let priority = match src.priority {
            Some(p) => Some(p as u8),
            None => None,
        };
        let row = IterationTaskRow {
            blocked_by,
            id_short: short_task_id(src.id.as_str()),
            is_blocking,
            phase: src.phase as u32,
            priority,
            status: src.status,
            title: src.title,
        };
        out.push(row);
        proof {
            taken = taken + 1;
        }
    }
    out
}

} // verus!
