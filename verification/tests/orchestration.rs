use gest::orchestration::{
    advance_phase, claim_task, compute_active_phase, compute_phase_count, iteration_status, next_available_task,
    PhaseTask,
};
use gest::primitives::{Id, TaskStatus};

fn make_task(id: &str) -> PhaseTask {
    PhaseTask {
        id: id.parse().unwrap(),
        phase: None,
        status: TaskStatus::Open,
        assigned_to: None,
        priority: None,
        created_at: 1_700_000_000,
    }
}

fn with(id: &str, phase: Option<u16>, status: TaskStatus) -> PhaseTask {
    PhaseTask { phase, status, ..make_task(id) }
}

const K: &str = "kkkkkkkkkkkkkkkkkkkkkkkkkkkkkkkk";
const L: &str = "llllllllllllllllllllllllllllllll";
const M: &str = "mmmmmmmmmmmmmmmmmmmmmmmmmmmmmmmm";
const N: &str = "nnnnnnnnnnnnnnnnnnnnnnnnnnnnnnnn";

#[test]
fn it_advances_to_next_phase() {
    let t1 = with(K, Some(1), TaskStatus::Done);
    let t2 = with(L, Some(1), TaskStatus::Cancelled);
    let t3 = with(M, Some(2), TaskStatus::Open);
    // Phase 1 is all terminal, so phase 2 is active and still has an open task.
    let err = advance_phase(&vec![t1, t2, t3], false);
    assert!(err.is_err());
}

#[test]
fn it_forces_advance_with_remaining_tasks() {
    let t1 = with(K, Some(1), TaskStatus::Open);
    let t2 = with(L, Some(2), TaskStatus::Open);
    let result = advance_phase(&vec![t1, t2], true).unwrap();
    assert!(result.forced);
    assert_eq!(result.from_phase, 1);
    assert_eq!(result.to_phase, Some(2));
}

#[test]
fn it_returns_none_to_phase_when_last_phase() {
    let t1 = with(K, Some(1), TaskStatus::Done);
    // All done: no active phase, so advancing fails.
    let err = advance_phase(&vec![t1], false);
    assert!(err.is_err());
}

#[test]
fn it_succeeds_when_active_phase_is_terminal() {
    let t1 = with(K, Some(1), TaskStatus::Open);
    let t2 = with(L, Some(2), TaskStatus::Open);
    let result = advance_phase(&vec![t1, t2], true).unwrap();
    assert_eq!(result.from_phase, 1);
    assert_eq!(result.to_phase, Some(2));
    assert_eq!(result.active_tasks, 1);
    assert!(result.forced);
}

#[test]
fn advance_phase_reports_its_errors() {
    let t1 = with(K, Some(1), TaskStatus::Done);
    assert_eq!(advance_phase(&vec![t1], false).unwrap_err(), "no active phase to advance");
    let t1 = with(K, Some(3), TaskStatus::Open);
    let t2 = with(L, Some(3), TaskStatus::InProgress);
    assert_eq!(
        advance_phase(&vec![t1, t2], false).unwrap_err(),
        "phase 3 has 2 non-terminal task(s); use force to advance anyway"
    );
}

#[test]
fn advance_without_force_moves_past_a_finished_phase() {
    let t1 = with(K, Some(1), TaskStatus::Done);
    let t2 = with(L, Some(2), TaskStatus::Open);
    let t3 = with(M, Some(2), TaskStatus::Open);
    // The active phase is 2, which is not finished.
    assert!(advance_phase(&vec![t1, t2, t3], false).is_err());
    let t1 = with(K, Some(1), TaskStatus::Open);
    let t2 = with(L, Some(4), TaskStatus::Open);
    let t3 = with(M, Some(4), TaskStatus::Open);
    let r = advance_phase(&vec![t1, t2, t3], true).unwrap();
    assert_eq!(r.to_phase, Some(4));
    assert_eq!(r.active_tasks, 2);
}

#[test]
fn it_sets_status_and_assigned_to() {
    let t1 = make_task(K);
    let claimed = claim_task(&t1, "agent-42");
    assert_eq!(claimed.status, TaskStatus::InProgress);
    assert_eq!(claimed.assigned_to, Some("agent-42".to_string()));
    assert_eq!(claimed.id, t1.id);
}

#[test]
fn it_computes_progress() {
    let t1 = with(K, Some(1), TaskStatus::Done);
    let mut t2 = with(L, Some(1), TaskStatus::InProgress);
    t2.assigned_to = Some("agent-1".to_string());
    let t3 = with(M, Some(2), TaskStatus::Open);
    let status = iteration_status(&vec![t1, t2, t3], &vec![false, false, false]);
    assert_eq!(status.active_phase, Some(1));
    assert_eq!(status.total_phases, 2);
    assert_eq!(status.phase_progress.done, 1);
    assert_eq!(status.phase_progress.total, 2);
    assert_eq!(status.in_progress, 1);
    assert_eq!(status.assignees, vec!["agent-1".to_string()]);
    assert_eq!(status.overall_progress.done, 1);
    assert_eq!(status.overall_progress.total, 3);
}

#[test]
fn it_returns_zero_phases_when_no_tasks() {
    let status = iteration_status(&vec![], &vec![]);
    assert_eq!(status.active_phase, None);
    assert_eq!(status.total_phases, 0);
    assert_eq!(status.overall_progress.total, 0);
}

#[test]
fn progress_counts_blocked_tasks_and_sorts_assignees() {
    let mut t1 = with(K, Some(1), TaskStatus::InProgress);
    t1.assigned_to = Some("zed".to_string());
    let mut t2 = with(L, Some(1), TaskStatus::InProgress);
    t2.assigned_to = Some("amy".to_string());
    let mut t3 = with(M, Some(1), TaskStatus::InProgress);
    t3.assigned_to = Some("zed".to_string());
    let t4 = with(N, Some(1), TaskStatus::Open);
    let status = iteration_status(&vec![t1, t2, t3, t4], &vec![false, false, false, true]);
    assert_eq!(status.assignees, vec!["amy".to_string(), "zed".to_string()]);
    assert_eq!(status.blocked, 1);
    assert_eq!(status.in_progress, 3);
    assert_eq!(status.phase_progress.total, 4);
}

#[test]
fn it_breaks_ties_by_created_at() {
    let now = 1_700_000_000i64;
    let mut t1 = with(K, Some(1), TaskStatus::Open);
    t1.priority = Some(1);
    t1.created_at = now;
    let mut t2 = with(L, Some(1), TaskStatus::Open);
    t2.priority = Some(1);
    t2.created_at = now - 3600;
    let result = next_available_task(&vec![t1, t2.clone()], &vec![false, false]).unwrap();
    assert_eq!(result.id, t2.id);
}

#[test]
fn it_excludes_assigned_tasks() {
    let mut t1 = with(K, Some(1), TaskStatus::Open);
    t1.priority = Some(1);
    t1.assigned_to = Some("agent-1".to_string());
    let mut t2 = with(L, Some(1), TaskStatus::Open);
    t2.priority = Some(2);
    let result = next_available_task(&vec![t1, t2.clone()], &vec![false, false]).unwrap();
    assert_eq!(result.id, t2.id);
}

#[test]
fn it_excludes_blocked_tasks() {
    let mut t1 = with(K, Some(1), TaskStatus::Open);
    t1.priority = Some(1);
    let mut t2 = with(L, Some(1), TaskStatus::Open);
    t2.priority = Some(2);
    // t1 is blocked by a task that is still in progress.
    let result = next_available_task(&vec![t1, t2.clone()], &vec![true, false]).unwrap();
    assert_eq!(result.id, t2.id);
}

#[test]
fn it_only_considers_active_phase() {
    let mut t1 = with(K, Some(1), TaskStatus::Open);
    t1.priority = Some(1);
    let mut t2 = with(L, Some(2), TaskStatus::Open);
    t2.priority = Some(0);
    let result = next_available_task(&vec![t1.clone(), t2], &vec![false, false]).unwrap();
    assert_eq!(result.id, t1.id);
}

#[test]
fn it_returns_none_when_no_tasks() {
    let result = next_available_task(&vec![], &vec![]);
    assert!(result.is_none());
}

#[test]
fn it_selects_by_priority() {
    let mut t1 = with(K, Some(1), TaskStatus::Open);
    t1.priority = Some(5);
    let mut t2 = with(L, Some(1), TaskStatus::Open);
    t2.priority = Some(1);
    let result = next_available_task(&vec![t1, t2.clone()], &vec![false, false]).unwrap();
    assert_eq!(result.id, t2.id);
}

#[test]
fn a_claimed_task_is_not_available_again() {
    let mut t1 = with(K, Some(1), TaskStatus::Open);
    t1.priority = Some(1);
    let claimed = claim_task(&t1, "agent-7");
    assert!(next_available_task(&vec![claimed], &vec![false]).is_none());
}

#[test]
fn phases_count_missing_phase_as_zero() {
    let t1 = with(K, None, TaskStatus::Open);
    let t2 = with(L, Some(0), TaskStatus::Open);
    let t3 = with(M, Some(2), TaskStatus::Done);
    let tasks = vec![t1, t2, t3];
    assert_eq!(compute_phase_count(&tasks), 2);
    assert_eq!(compute_active_phase(&tasks), Some(0));
    let id: Id = K.parse().unwrap();
    assert_eq!(tasks[0].id, id);
}
