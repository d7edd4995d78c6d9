//! Phase orchestration over the tasks of an iteration: which phase is
//! active, what advancing it does, progress, and the next task to claim.

use vstd::prelude::*;

use crate::primitives::{Id, TaskStatus};
use crate::text::{chars_of, decimal, decimal_chars, insert_sorted, push_all, string_of, strictly_sorted, strs};

verus! {

broadcast use vstd::seq_lib::group_seq_properties;

/// A task as orchestration reads it.
#[derive(Clone, Debug)]
pub struct PhaseTask {
    pub id: Id,
    /// Phase within the iteration; a task without one is in phase 0.
    pub phase: Option<u16>,
    pub status: TaskStatus,
    pub assigned_to: Option<String>,
    /// Task priority (lower numbers are higher priority).
    pub priority: Option<u8>,
    /// Creation time as an orderable timestamp.
    pub created_at: i64,
}

/// A task as a value.
pub struct PhaseTaskView {
    pub id: Seq<u8>,
    pub phase: Option<u16>,
    pub status: TaskStatus,
    pub assigned_to: Option<Seq<char>>,
    pub priority: Option<u8>,
    pub created_at: i64,
}

impl View for PhaseTask {
    type V = PhaseTaskView;

    open spec fn view(&self) -> PhaseTaskView {
        PhaseTaskView {
            id: self.id@,
            phase: self.phase,
            status: self.status,
            assigned_to: match self.assigned_to {
                Some(s) => Some(s@),
                None => None,
            },
            priority: self.priority,
            created_at: self.created_at,
        }
    }
}

impl PhaseTask {
    /// A copy of the task.
    pub fn duplicate(&self) -> (r: PhaseTask)
        ensures
            r@ == self@,
    {
        PhaseTask {
            id: self.id,
            phase: self.phase,
            status: self.status,
            assigned_to: match &self.assigned_to {
                Some(s) => Some(s.clone()),
                None => None,
            },
            priority: self.priority,
            created_at: self.created_at,
        }
    }
}

/// The phase a task is in: its phase, or 0 when it has none.
pub open spec fn phase_of(t: PhaseTask) -> u16 {
    match t.phase {
        Some(p) => p,
        None => 0,
    }
}

/// Whether a task is not yet finished.
pub open spec fn incomplete(t: PhaseTask) -> bool {
    !t.status.spec_is_terminal()
}

/// Whether some unfinished task is in phase `p`.
pub open spec fn has_incomplete_in(ts: Seq<PhaseTask>, p: u16) -> bool {
    exists|i: int| 0 <= i < ts.len() && incomplete(#[trigger] ts[i]) && phase_of(ts[i]) == p
}

/// `p` is the lowest phase that holds an unfinished task.
pub open spec fn is_lowest_incomplete(ts: Seq<PhaseTask>, p: u16) -> bool {
    &&& has_incomplete_in(ts, p)
    &&& forall|i: int| 0 <= i < ts.len() && incomplete(#[trigger] ts[i]) ==> p <= phase_of(ts[i])
}

/// The active phase: the lowest phase with unfinished tasks, if any.
pub open spec fn active_phase(ts: Seq<PhaseTask>) -> Option<u16> {
    if exists|p: u16| is_lowest_incomplete(ts, p) {
        Some(choose|p: u16| is_lowest_incomplete(ts, p))
    } else {
        None
    }
}

/// The number of tasks of `ts` that satisfy `f`.
pub open spec fn count_where(ts: Seq<PhaseTask>, f: spec_fn(PhaseTask) -> bool) -> nat
    decreases ts.len(),
{
    if ts.len() == 0 {
        0
    } else {
        count_where(ts.drop_last(), f) + if f(ts.last()) {
            1nat
        } else {
            0nat
        }
    }
}

/// Unfinished tasks in phase `p`.
pub open spec fn open_in_phase(p: u16) -> spec_fn(PhaseTask) -> bool {
    |t: PhaseTask| phase_of(t) == p && incomplete(t)
}

/// `q` is the lowest phase of any task above `p`.
pub open spec fn is_next_phase(ts: Seq<PhaseTask>, p: u16, q: u16) -> bool {
    &&& p < q
    &&& exists|i: int| 0 <= i < ts.len() && phase_of(#[trigger] ts[i]) == q
    &&& forall|i: int| 0 <= i < ts.len() && p < phase_of(#[trigger] ts[i]) ==> q <= phase_of(ts[i])
}

/// The lowest phase of any task above `p`, if any.
pub open spec fn next_phase(ts: Seq<PhaseTask>, p: u16) -> Option<u16> {
    if exists|q: u16| is_next_phase(ts, p, q) {
        Some(choose|q: u16| is_next_phase(ts, p, q))
    } else {
        None
    }
}

proof fn lemma_lowest_unique(ts: Seq<PhaseTask>, p: u16)
    requires
        is_lowest_incomplete(ts, p),
    ensures
        active_phase(ts) == Some(p),
{
    let q = choose|q: u16| is_lowest_incomplete(ts, q);
    assert(is_lowest_incomplete(ts, q));
    let i = choose|i: int| 0 <= i < ts.len() && incomplete(#[trigger] ts[i]) && phase_of(ts[i]) == p;
    let j = choose|j: int| 0 <= j < ts.len() && incomplete(#[trigger] ts[j]) && phase_of(ts[j]) == q;
    assert(q <= phase_of(ts[i]));
    assert(p <= phase_of(ts[j]));
}

proof fn lemma_next_unique(ts: Seq<PhaseTask>, p: u16, q: u16)
    requires
        is_next_phase(ts, p, q),
    ensures
        next_phase(ts, p) == Some(q),
{
    let r = choose|r: u16| is_next_phase(ts, p, r);
    assert(is_next_phase(ts, p, r));
    let i = choose|i: int| 0 <= i < ts.len() && phase_of(#[trigger] ts[i]) == q;
    let j = choose|j: int| 0 <= j < ts.len() && phase_of(#[trigger] ts[j]) == r;
    assert(r <= phase_of(ts[i]));
    assert(q <= phase_of(ts[j]));
}

/// The phase of a task.
fn task_phase(t: &PhaseTask) -> (r: u16)
    ensures
        r == phase_of(*t),
{
    match t.phase {
        Some(p) => p,
        None => 0,
    }
}

/// Find the lowest phase with incomplete tasks.
pub fn compute_active_phase(tasks: &Vec<PhaseTask>) -> (r: Option<u16>)
    ensures
        r == active_phase(tasks@),
        r is None <==> forall|i: int| 0 <= i < tasks@.len() ==> !incomplete(#[trigger] tasks@[i]),
{
    let mut best: Option<u16> = None;
    let mut i: usize = 0;
    while i < tasks.len()
        invariant
            0 <= i <= tasks.len(),
            match best {
                Some(p) => {
                    &&& exists|k: int| 0 <= k < i && incomplete(#[trigger] tasks@[k]) && phase_of(tasks@[k]) == p
                    &&& forall|k: int| 0 <= k < i && incomplete(#[trigger] tasks@[k]) ==> p <= phase_of(tasks@[k])
                },
                None => forall|k: int| 0 <= k < i ==> !incomplete(#[trigger] tasks@[k]),
            },
        decreases tasks.len() - i,
    {
        let t = &tasks[i];
        if !t.status.is_terminal() {
            let p = task_phase(t);
            match best {
                Some(b) => {
                    if p < b {
                        best = Some(p);
                    }
                },
                None => {
                    best = Some(p);
                },
            }
        }
        i = i + 1;
    }
    match best {
        Some(p) => {
            proof {
                lemma_lowest_unique(tasks@, p);
            }
        },
        None => {},
    }
    best
}

/// Count the unfinished tasks in phase `p`.
fn count_open_in_phase(tasks: &Vec<PhaseTask>, p: u16) -> (r: usize)
    ensures
        r == count_where(tasks@, open_in_phase(p)),
{
    let mut n: usize = 0;
    let mut i: usize = 0;
    while i < tasks.len()
        invariant
            0 <= i <= tasks.len(),
            n == count_where(tasks@.take(i as int), open_in_phase(p)),
            n <= i,
        decreases tasks.len() - i,
    {
        assert(tasks@.take(i + 1).drop_last() =~= tasks@.take(i as int));
        let t = &tasks[i];
        if task_phase(t) == p && !t.status.is_terminal() {
            n = n + 1;
        }
        i = i + 1;
    }
    assert(tasks@.take(tasks.len() as int) =~= tasks@);
    n
}

/// Find the lowest phase of any task above `p`.
fn find_next_phase(tasks: &Vec<PhaseTask>, p: u16) -> (r: Option<u16>)
    ensures
        r == next_phase(tasks@, p),
{
    let mut best: Option<u16> = None;
    let mut i: usize = 0;
    while i < tasks.len()
        invariant
            0 <= i <= tasks.len(),
            match best {
                Some(q) => {
                    &&& p < q
                    &&& exists|k: int| 0 <= k < i && phase_of(#[trigger] tasks@[k]) == q
                    &&& forall|k: int| 0 <= k < i && p < phase_of(#[trigger] tasks@[k]) ==> q <= phase_of(tasks@[k])
                },
                None => forall|k: int| 0 <= k < i ==> phase_of(#[trigger] tasks@[k]) <= p,
            },
        decreases tasks.len() - i,
    {
        let q = task_phase(&tasks[i]);
        if q > p {
            match best {
                Some(b) => {
                    if q < b {
                        best = Some(q);
                    }
                },
                None => {
                    best = Some(q);
                },
            }
        }
        i = i + 1;
    }
    match best {
        Some(q) => {
            proof {
                lemma_next_unique(tasks@, p, q);
            }
        },
        None => {
            proof {
                if exists|q: u16| is_next_phase(tasks@, p, q) {
                    let q = choose|q: u16| is_next_phase(tasks@, p, q);
                    let k = choose|k: int| 0 <= k < tasks@.len() && phase_of(#[trigger] tasks@[k]) == q;
                    assert(phase_of(tasks@[k]) <= p);
                }
            }
        },
    }
    best
}

/// Summary of a phase advance operation.
#[derive(Clone, Debug, PartialEq)]
pub struct AdvanceSummary {
    /// Number of tasks now active in the new phase.
    pub active_tasks: u16,
    /// Whether the advance was forced (skipping non-terminal tasks).
    pub forced: bool,
    /// The phase that was just completed.
    pub from_phase: u16,
    /// The new active phase, or `None` if all phases are complete.
    pub to_phase: Option<u16>,
}

/// The error when no phase is active.
pub open spec fn no_active_phase_error() -> Seq<char> {
    "no active phase to advance"@
}

/// The error when unfinished tasks remain and the advance is not forced.
pub open spec fn remaining_error(phase: u16, remaining: u16) -> Seq<char> {
    "phase "@ + decimal(phase as nat) + " has "@ + decimal(remaining as nat)
        + " non-terminal task(s); use force to advance anyway"@
}

/// What advancing the active phase of `ts` yields.
pub open spec fn spec_advance(ts: Seq<PhaseTask>, force: bool) -> Result<AdvanceSummary, Seq<char>> {
    match active_phase(ts) {
        None => Err(no_active_phase_error()),
        Some(from) => {
            let remaining = count_where(ts, open_in_phase(from)) as u16;
            if remaining > 0 && !force {
                Err(remaining_error(from, remaining))
            } else {
                let to = next_phase(ts, from);
                Ok(
                    AdvanceSummary {
                        active_tasks: match to {
                            Some(q) => count_where(ts, open_in_phase(q)) as u16,
                            None => 0,
                        },
                        forced: force && remaining > 0,
                        from_phase: from,
                        to_phase: to,
                    },
                )
            }
        },
    }
}

/// Validate and return a summary of what advancing the phase would do.
///
/// If `force` is false, returns an error when non-terminal tasks remain in
/// the active phase. If `force` is true, allows advancing even with
/// non-terminal tasks.
pub fn advance_phase(tasks: &Vec<PhaseTask>, force: bool) -> (r: Result<AdvanceSummary, String>)
    ensures
        match r {
            Ok(s) => spec_advance(tasks@, force) == Ok::<AdvanceSummary, Seq<char>>(s),
            Err(e) => spec_advance(tasks@, force) == Err::<AdvanceSummary, Seq<char>>(e@),
        },
{
    let from_phase = match compute_active_phase(tasks) {
        Some(p) => p,
        None => return Err(string_of(&chars_of("no active phase to advance"))),
    };
    let remaining = count_open_in_phase(tasks, from_phase) as u16;
    if remaining > 0 && !force {
        let mut msg = chars_of("phase ");
        let d1 = decimal_chars(from_phase as usize);
        push_all(&mut msg, &d1);
        let mid = chars_of(" has ");
        push_all(&mut msg, &mid);
        let d2 = decimal_chars(remaining as usize);
        push_all(&mut msg, &d2);
        let tail = chars_of(" non-terminal task(s); use force to advance anyway");
        push_all(&mut msg, &tail);
        return Err(string_of(&msg));
    }
    let to_phase = find_next_phase(tasks, from_phase);
    let active_tasks = match to_phase {
        Some(p) => count_open_in_phase(tasks, p) as u16,
        None => 0,
    };
    Ok(AdvanceSummary { active_tasks, forced: force && remaining > 0, from_phase, to_phase })
}


/// Aggregated status of an iteration's progress.
#[derive(Clone, Debug, PartialEq)]
pub struct IterationProgress {
    pub active_phase: Option<u16>,
    pub assignees: Vec<String>,
    pub blocked: u16,
    pub in_progress: u16,
    pub overall_progress: OverallProgress,
    pub phase_progress: PhaseProgress,
    pub total_phases: u16,
}

/// Overall progress counts.
#[derive(Clone, Copy, Debug, PartialEq)]
pub struct OverallProgress {
    pub done: u16,
    pub total: u16,
}

/// Progress information for a single phase.
#[derive(Clone, Copy, Debug, PartialEq)]
pub struct PhaseProgress {
    pub done: u16,
    pub total: u16,
}

/// Whether task `t` shares its id with some task of `ts` that is marked
/// blocked (the marks are aligned with `ts` by position).
pub open spec fn is_blocked(ts: Seq<PhaseTask>, blocked: Seq<bool>, t: PhaseTask) -> bool {
    exists|j: int| 0 <= j < ts.len() && j < blocked.len() && blocked[j] && (#[trigger] ts[j]).id@ == t.id@
}

/// Whether a task is in the given active phase.
pub open spec fn in_active(active: Option<u16>, t: PhaseTask) -> bool {
    match active {
        Some(p) => phase_of(t) == p,
        None => false,
    }
}

/// The distinct phases of the tasks.
pub open spec fn phase_set(ts: Seq<PhaseTask>) -> Set<u16> {
    ts.map_values(|t: PhaseTask| phase_of(t)).to_set()
}

/// The people that in-progress tasks are assigned to.
pub open spec fn assignee_set(ts: Seq<PhaseTask>) -> Set<Seq<char>> {
    Set::new(
        |a: Seq<char>|
            exists|i: int|
                0 <= i < ts.len() && (#[trigger] ts[i]).status == TaskStatus::InProgress
                    && ts[i]@.assigned_to == Some(a),
    )
}

/// Counts for the progress of an iteration, by task.
pub open spec fn phase_done_pred(active: Option<u16>) -> spec_fn(PhaseTask) -> bool {
    |t: PhaseTask| in_active(active, t) && t.status.spec_is_terminal()
}

pub open spec fn phase_pred(active: Option<u16>) -> spec_fn(PhaseTask) -> bool {
    |t: PhaseTask| in_active(active, t)
}

pub open spec fn phase_blocked_pred(ts: Seq<PhaseTask>, blocked: Seq<bool>, active: Option<u16>) -> spec_fn(PhaseTask) -> bool {
    |t: PhaseTask| in_active(active, t) && is_blocked(ts, blocked, t)
}

pub open spec fn phase_in_progress_pred(active: Option<u16>) -> spec_fn(PhaseTask) -> bool {
    |t: PhaseTask| in_active(active, t) && t.status == TaskStatus::InProgress
}

pub open spec fn done_pred() -> spec_fn(PhaseTask) -> bool {
    |t: PhaseTask| t.status.spec_is_terminal()
}

/// Whether task `t` is blocked.
fn task_blocked(tasks: &Vec<PhaseTask>, blocked: &Vec<bool>, t: &PhaseTask) -> (r: bool)
    ensures
        r == is_blocked(tasks@, blocked@, *t),
{
    let mut j: usize = 0;
    while j < tasks.len()
        invariant
            0 <= j <= tasks.len(),
            forall|k: int| 0 <= k < j ==> !(k < blocked@.len() && blocked@[k] && (#[trigger] tasks@[k]).id@ == t.id@),
        decreases tasks.len() - j,
    {
        if j < blocked.len() && blocked[j] && tasks[j].id == t.id {
            return true;
        }
        j = j + 1;
    }
    false
}

/// The number of distinct phases among the tasks (a task without a phase is in phase 0).
pub fn compute_phase_count(tasks: &Vec<PhaseTask>) -> (r: usize)
    ensures
        r == phase_set(tasks@).len(),
{
    let mut seen: Vec<u16> = Vec::new();
    let mut i: usize = 0;
    while i < tasks.len()
        invariant
            0 <= i <= tasks.len(),
            seen@.no_duplicates(),
            seen@.to_set() == tasks@.take(i as int).map_values(|t: PhaseTask| phase_of(t)).to_set(),
            seen.len() <= i,
        decreases tasks.len() - i,
    {
        let p = task_phase(&tasks[i]);
        let ghost before = tasks@.take(i as int).map_values(|t: PhaseTask| phase_of(t));
        assert(tasks@.take(i + 1).map_values(|t: PhaseTask| phase_of(t)) =~= before.push(p));
        let mut present = false;
        let mut k: usize = 0;
        while k < seen.len()
            invariant
                0 <= k <= seen.len(),
                present == (exists|m: int| 0 <= m < k && seen@[m] == p),
            decreases seen.len() - k,
        {
            if seen[k] == p {
                present = true;
            }
            k = k + 1;
        }
        proof {
            before.lemma_push_to_set_commute(p);
        }
        if !present {
            let ghost old_seen = seen@;
            seen.push(p);
            proof {
                old_seen.lemma_push_to_set_commute(p);
            }
            assert(!old_seen.contains(p));
            assert(seen@.no_duplicates()) by {
                assert forall|a: int, b: int| 0 <= a < b < seen@.len() implies seen@[a] != seen@[b] by {
                    if b == old_seen.len() {
                        assert(old_seen[a] != p);
                    }
                }
            }
        } else {
            assert(seen@.to_set().insert(p) =~= seen@.to_set()) by {
                assert(seen@.contains(p));
            }
        }
        i = i + 1;
    }
    assert(tasks@.take(tasks.len() as int) =~= tasks@);
    proof {
        seen@.unique_seq_to_set();
    }
    seen.len()
}

/// What the progress of an iteration with tasks `ts` is.
pub open spec fn spec_progress(ts: Seq<PhaseTask>, blocked: Seq<bool>, r: IterationProgress) -> bool {
    let active = active_phase(ts);
    &&& r.active_phase == active
    &&& r.total_phases == phase_set(ts).len() as u16
    &&& r.phase_progress.done == count_where(ts, phase_done_pred(active)) as u16
    &&& r.phase_progress.total == count_where(ts, phase_pred(active)) as u16
    &&& r.blocked == count_where(ts, phase_blocked_pred(ts, blocked, active)) as u16
    &&& r.in_progress == count_where(ts, phase_in_progress_pred(active)) as u16
    &&& r.overall_progress.done == count_where(ts, done_pred()) as u16
    &&& r.overall_progress.total == ts.len() as u16
    &&& strictly_sorted(strs(r.assignees@))
    &&& strs(r.assignees@).to_set() == assignee_set(ts)
}

/// One more task adds one to a count exactly when it qualifies.
proof fn lemma_count_step(ts: Seq<PhaseTask>, i: int, f: spec_fn(PhaseTask) -> bool)
    requires
        0 <= i < ts.len(),
    ensures
        count_where(ts.take(i + 1), f) == count_where(ts.take(i), f) + if f(ts[i]) {
            1nat
        } else {
            0nat
        },
        count_where(ts.take(i), f) <= i,
    decreases i,
{
    assert(ts.take(i + 1).drop_last() =~= ts.take(i));
    assert(ts.take(i + 1).last() == ts[i]);
    if i > 0 {
        lemma_count_step(ts, i - 1, f);
    }
}

/// Collect the people that in-progress tasks are assigned to, without
/// repeats, in sorted order.
fn collect_assignees(tasks: &Vec<PhaseTask>) -> (r: Vec<String>)
    ensures
        strictly_sorted(strs(r@)),
        strs(r@).to_set() == assignee_set(tasks@),
{
    let ghost ts = tasks@;
    let mut assignees: Vec<String> = Vec::new();
    let mut i: usize = 0;
    assert(strs(assignees@).to_set() =~= assignee_set(ts.take(0)));
    while i < tasks.len()
        invariant
            0 <= i <= tasks.len(),
            ts == tasks@,
            strictly_sorted(strs(assignees@)),
            strs(assignees@).to_set() == assignee_set(ts.take(i as int)),
        decreases tasks.len() - i,
    {
        let t = &tasks[i];
        if t.status == TaskStatus::InProgress {
            match &t.assigned_to {
                Some(a) => {
                    insert_sorted(&mut assignees, a.clone());
                },
                None => {},
            }
        }
        proof {
            let tk = ts.take(i + 1);
            let tp = ts.take(i as int);
            assert(tk[i as int] == *t);
            assert forall|a: Seq<char>| #[trigger] assignee_set(tk).contains(a) <==> strs(assignees@).to_set().contains(a) by {
                if assignee_set(tk).contains(a) {
                    let m = choose|m: int| 0 <= m < tk.len() && (#[trigger] tk[m]).status == TaskStatus::InProgress && tk[m]@.assigned_to == Some(a);
                    if m < i {
                        assert(tp[m] == tk[m]);
                        assert(assignee_set(tp).contains(a));
                    }
                }
                if assignee_set(tp).contains(a) {
                    let m = choose|m: int| 0 <= m < tp.len() && (#[trigger] tp[m]).status == TaskStatus::InProgress && tp[m]@.assigned_to == Some(a);
                    assert(tk[m] == tp[m]);
                }
            }
            assert(assignee_set(tk) =~= strs(assignees@).to_set());
        }
        i = i + 1;
    }
    assert(ts.take(tasks.len() as int) =~= ts);
    assignees
}

/// Compute aggregated progress for an iteration from its tasks and, aligned
/// with them by position, whether each task has blockers.
///
/// Phase counts cover the active phase only; the assignees are those of all
/// in-progress tasks, without repeats, in sorted order.
pub fn iteration_status(tasks: &Vec<PhaseTask>, blocked: &Vec<bool>) -> (r: IterationProgress)
    ensures
        spec_progress(tasks@, blocked@, r),
{
    let active = compute_active_phase(tasks);
    let total_phases = compute_phase_count(tasks) as u16;
    let ghost ts = tasks@;
    let ghost f1 = phase_done_pred(active);
    let ghost f2 = phase_pred(active);
    let ghost f3 = phase_blocked_pred(ts, blocked@, active);
    let ghost f4 = phase_in_progress_pred(active);
    let ghost f5 = done_pred();
    let mut phase_done: usize = 0;
    let mut phase_total: usize = 0;
    let mut blocked_count: usize = 0;
    let mut in_progress_count: usize = 0;
    let mut overall_done: usize = 0;
    let mut i: usize = 0;
    while i < tasks.len()
        invariant
            0 <= i <= tasks.len(),
            ts == tasks@,
            f1 == phase_done_pred(active),
            f2 == phase_pred(active),
            f3 == phase_blocked_pred(ts, blocked@, active),
            f4 == phase_in_progress_pred(active),
            f5 == done_pred(),
            phase_done == count_where(ts.take(i as int), f1),
            phase_total == count_where(ts.take(i as int), f2),
            blocked_count == count_where(ts.take(i as int), f3),
            in_progress_count == count_where(ts.take(i as int), f4),
            overall_done == count_where(ts.take(i as int), f5),
        decreases tasks.len() - i,
    {
        let t = &tasks[i];
        proof {
            lemma_count_step(ts, i as int, f1);
            lemma_count_step(ts, i as int, f2);
            lemma_count_step(ts, i as int, f3);
            lemma_count_step(ts, i as int, f4);
            lemma_count_step(ts, i as int, f5);
        }
        let in_phase = match active {
            Some(p) => task_phase(t) == p,
            None => false,
        };
        let terminal = t.status.is_terminal();
        if in_phase {
            phase_total = phase_total + 1;
            if terminal {
                phase_done = phase_done + 1;
            }
            if task_blocked(tasks, blocked, t) {
                blocked_count = blocked_count + 1;
            }
            if t.status == TaskStatus::InProgress {
                in_progress_count = in_progress_count + 1;
            }
        }
        if terminal {
            overall_done = overall_done + 1;
        }
        i = i + 1;
    }
    assert(ts.take(tasks.len() as int) =~= ts);
    let assignees = collect_assignees(tasks);
    IterationProgress {
        active_phase: active,
        assignees,
        blocked: blocked_count as u16,
        in_progress: in_progress_count as u16,
        overall_progress: OverallProgress { done: overall_done as u16, total: tasks.len() as u16 },
        phase_progress: PhaseProgress { done: phase_done as u16, total: phase_total as u16 },
        total_phases,
    }
}

/// Whether task `t` can be claimed in phase `p`: open, unassigned, not
/// blocked, in that phase.
pub open spec fn claimable(ts: Seq<PhaseTask>, blocked: Seq<bool>, p: u16, t: PhaseTask) -> bool {
    &&& phase_of(t) == p
    &&& t.status == TaskStatus::Open
    &&& t.assigned_to is None
    &&& !is_blocked(ts, blocked, t)
}

/// The priority rank used for ordering; no priority sorts last.
pub open spec fn rank_of(t: PhaseTask) -> u8 {
    match t.priority {
        Some(v) => v,
        None => 255,
    }
}

/// Whether `a` sorts strictly before `b`: by priority, then by creation time.
pub open spec fn sorts_before(a: PhaseTask, b: PhaseTask) -> bool {
    rank_of(a) < rank_of(b) || (rank_of(a) == rank_of(b) && a.created_at < b.created_at)
}

/// Task `i` is what a stable sort of the claimable tasks puts first:
/// nothing sorts before it, and every earlier claimable task sorts after it.
pub open spec fn is_first_claimable(ts: Seq<PhaseTask>, blocked: Seq<bool>, p: u16, i: int) -> bool {
    &&& 0 <= i < ts.len()
    &&& claimable(ts, blocked, p, ts[i])
    &&& forall|j: int| 0 <= j < ts.len() && claimable(ts, blocked, p, #[trigger] ts[j]) ==> !sorts_before(ts[j], ts[i])
    &&& forall|j: int| 0 <= j < i && claimable(ts, blocked, p, #[trigger] ts[j]) ==> sorts_before(ts[i], ts[j])
}

fn task_rank(t: &PhaseTask) -> (r: u8)
    ensures
        r == rank_of(*t),
{
    match t.priority {
        Some(v) => v,
        None => 255,
    }
}

fn before(a: &PhaseTask, b: &PhaseTask) -> (r: bool)
    ensures
        r == sorts_before(*a, *b),
{
    let ra = task_rank(a);
    let rb = task_rank(b);
    ra < rb || (ra == rb && a.created_at < b.created_at)
}

/// Find the next claimable task in an iteration: open, unblocked, unassigned,
/// in the active phase, sorted by priority (lowest first) then `created_at`
/// (oldest first), ties kept in task order.
pub fn next_available_task(tasks: &Vec<PhaseTask>, blocked: &Vec<bool>) -> (r: Option<PhaseTask>)
    ensures
        match r {
            None => match active_phase(tasks@) {
                None => true,
                Some(p) => forall|i: int| 0 <= i < tasks@.len() ==> !claimable(tasks@, blocked@, p, #[trigger] tasks@[i]),
            },
            Some(t) => exists|i: int|
                #![trigger tasks@[i]]
                active_phase(tasks@) matches Some(p) && is_first_claimable(tasks@, blocked@, p, i) && t@ == tasks@[i]@,
        },
{
    let phase = match compute_active_phase(tasks) {
        Some(p) => p,
        None => return None,
    };
    let mut best: Option<usize> = None;
    let mut i: usize = 0;
    while i < tasks.len()
        invariant
            0 <= i <= tasks.len(),
            active_phase(tasks@) == Some(phase),
            match best {
                None => forall|j: int| 0 <= j < i ==> !claimable(tasks@, blocked@, phase, #[trigger] tasks@[j]),
                Some(b) => {
                    &&& b < i
                    &&& claimable(tasks@, blocked@, phase, tasks@[b as int])
                    &&& forall|j: int| 0 <= j < i && claimable(tasks@, blocked@, phase, #[trigger] tasks@[j]) ==> !sorts_before(tasks@[j], tasks@[b as int])
                    &&& forall|j: int| 0 <= j < b && claimable(tasks@, blocked@, phase, #[trigger] tasks@[j]) ==> sorts_before(tasks@[b as int], tasks@[j])
                },
            },
        decreases tasks.len() - i,
    {
        let t = &tasks[i];
        let ok = task_phase(t) == phase && t.status == TaskStatus::Open && t.assigned_to.is_none()
            && !task_blocked(tasks, blocked, t);
        if ok {
            match best {
                None => {
                    best = Some(i);
                },
                Some(b) => {
                    if before(t, &tasks[b]) {
                        best = Some(i);
                    }
                },
            }
        }
        i = i + 1;
    }
    match best {
        None => None,
        Some(b) => {
            assert(is_first_claimable(tasks@, blocked@, phase, b as int));
            Some(tasks[b].duplicate())
        },
    }
}

/// Set a task to in-progress with the given `assigned_to` value.
pub fn claim_task(task: &PhaseTask, assigned_to: &str) -> (r: PhaseTask)
    ensures
        r@ == (PhaseTaskView {
            status: TaskStatus::InProgress,
            assigned_to: Some(assigned_to@),
            ..task@
        }),
{
    let mut t = task.duplicate();
    t.status = TaskStatus::InProgress;
    t.assigned_to = Some(string_of(&chars_of(assigned_to)));
    t
}

/// A count covers at least the qualifying task at position `i`.
proof fn lemma_count_positive(ts: Seq<PhaseTask>, f: spec_fn(PhaseTask) -> bool, i: int)
    requires
        0 <= i < ts.len(),
        f(ts[i]),
    ensures
        count_where(ts, f) >= 1,
    decreases ts.len(),
{
    if i < ts.len() - 1 {
        assert(ts.drop_last()[i] == ts[i]);
        lemma_count_positive(ts.drop_last(), f, i);
    }
}

/// A count never exceeds the number of tasks.
proof fn lemma_count_bounded(ts: Seq<PhaseTask>, f: spec_fn(PhaseTask) -> bool)
    ensures
        count_where(ts, f) <= ts.len(),
    decreases ts.len(),
{
    if ts.len() > 0 {
        lemma_count_bounded(ts.drop_last(), f);
    }
}

/// A count under a stronger condition is no larger.
proof fn lemma_count_mono(ts: Seq<PhaseTask>, f: spec_fn(PhaseTask) -> bool, g: spec_fn(PhaseTask) -> bool)
    requires
        forall|t: PhaseTask| #[trigger] f(t) ==> g(t),
    ensures
        count_where(ts, f) <= count_where(ts, g),
    decreases ts.len(),
{
    if ts.len() > 0 {
        lemma_count_mono(ts.drop_last(), f, g);
    }
}

/// The active phase always holds an unfinished task, so advancing without
/// force is refused whenever a phase is active (and fewer than 65536 tasks
/// remain in it, the range of the remaining count).
pub proof fn law_unforced_advance_needs_finished_phase(ts: Seq<PhaseTask>)
    requires
        active_phase(ts) is Some,
        count_where(ts, open_in_phase(active_phase(ts)->0)) < 65536,
    ensures
        count_where(ts, open_in_phase(active_phase(ts)->0)) >= 1,
        spec_advance(ts, false) is Err,
{
    let p = choose|p: u16| is_lowest_incomplete(ts, p);
    assert(is_lowest_incomplete(ts, p));
    let i = choose|i: int| 0 <= i < ts.len() && incomplete(#[trigger] ts[i]) && phase_of(ts[i]) == p;
    lemma_count_positive(ts, open_in_phase(p), i);
}

/// An advance moves forward: the new phase, when there is one, lies above
/// the phase that was completed, and no task has a phase between them.
pub proof fn law_advance_moves_forward(ts: Seq<PhaseTask>, force: bool)
    requires
        spec_advance(ts, force) matches Ok(s) && s.to_phase is Some,
    ensures
        spec_advance(ts, force) matches Ok(s) && s.from_phase < s.to_phase->0 && forall|i: int|
            0 <= i < ts.len() && s.from_phase < phase_of(#[trigger] ts[i]) ==> s.to_phase->0 <= phase_of(ts[i]),
{
    let from = active_phase(ts)->0;
    let q = choose|q: u16| is_next_phase(ts, from, q);
    assert(is_next_phase(ts, from, q));
}

/// No phase holds more finished tasks than tasks, and no iteration more
/// finished tasks than tasks.
pub proof fn law_progress_bounds(ts: Seq<PhaseTask>)
    ensures
        count_where(ts, phase_done_pred(active_phase(ts))) <= count_where(ts, phase_pred(active_phase(ts))),
        count_where(ts, phase_pred(active_phase(ts))) <= ts.len(),
        count_where(ts, done_pred()) <= ts.len(),
{
    let a = active_phase(ts);
    lemma_count_mono(ts, phase_done_pred(a), phase_pred(a));
    lemma_count_bounded(ts, phase_pred(a));
    lemma_count_bounded(ts, done_pred());
}

/// A claimed task is no longer claimable: it is in progress and assigned.
pub proof fn law_claimed_not_claimable(ts: Seq<PhaseTask>, blocked: Seq<bool>, p: u16, t: PhaseTask, c: PhaseTask, who: Seq<char>)
    requires
        c@ == (PhaseTaskView { status: TaskStatus::InProgress, assigned_to: Some(who), ..t@ }),
    ensures
        !claimable(ts, blocked, p, c),
        c.status == TaskStatus::InProgress,
{
}

} // verus!
