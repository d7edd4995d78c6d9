use gest::model::artifact::Patch as ArtifactPatch;
use gest::model::iteration::Patch as IterationPatch;
use gest::model::note::Patch as NotePatch;
use gest::primitives::{Id, IterationStatus};
use gest::update_sql::{artifact_update_sql, iteration_update_sql, note_update_sql};

const ID: &str = "kkkkkkkkkkkkkkkkkkkkkkkkkkkkkkkl";
const NOW: &str = "2024-05-01T12:00:00+00:00";

fn id() -> Id {
    Id::parse_str(ID).unwrap()
}

#[test]
fn artifact_update_sets_only_patched_fields() {
    let patch = ArtifactPatch { body: None, metadata: Some("{\"k\":1}".to_string()), title: Some("New".to_string()) };
    let (sql, params) = artifact_update_sql(&id(), &patch, NOW);
    assert_eq!(sql, "UPDATE artifacts SET updated_at = ?1, title = ?2, metadata = ?3 WHERE id = ?4");
    assert_eq!(params, vec![NOW.to_string(), "New".to_string(), "{\"k\":1}".to_string(), ID.to_string()]);
}

#[test]
fn artifact_update_with_every_field() {
    let patch = ArtifactPatch { body: Some("b".to_string()), metadata: Some("{}".to_string()), title: Some("t".to_string()) };
    let (sql, params) = artifact_update_sql(&id(), &patch, NOW);
    assert_eq!(sql, "UPDATE artifacts SET updated_at = ?1, title = ?2, body = ?3, metadata = ?4 WHERE id = ?5");
    assert_eq!(params.len(), 5);
    assert_eq!(params[4], ID);
}

#[test]
fn iteration_update_stamps_completion_for_terminal_status() {
    let patch = IterationPatch { status: Some(IterationStatus::Completed), ..Default::default() };
    let (sql, params) = iteration_update_sql(&id(), &patch, NOW);
    assert_eq!(sql, "UPDATE iterations SET updated_at = ?1, status = ?2, completed_at = ?3 WHERE id = ?4");
    assert_eq!(params, vec![NOW.to_string(), "completed".to_string(), NOW.to_string(), ID.to_string()]);
}

#[test]
fn iteration_update_clears_completion_for_active_status() {
    let patch = IterationPatch {
        description: Some("d".to_string()),
        metadata: None,
        status: Some(IterationStatus::Active),
        title: None,
    };
    let (sql, params) = iteration_update_sql(&id(), &patch, NOW);
    assert_eq!(sql, "UPDATE iterations SET updated_at = ?1, description = ?2, status = ?3, completed_at = NULL WHERE id = ?4");
    assert_eq!(params, vec![NOW.to_string(), "d".to_string(), "active".to_string(), ID.to_string()]);
}

#[test]
fn note_update_with_empty_patch_only_stamps() {
    let (sql, params) = note_update_sql(&id(), &NotePatch::default(), NOW);
    assert_eq!(sql, "UPDATE notes SET updated_at = ?1 WHERE id = ?2");
    assert_eq!(params, vec![NOW.to_string(), ID.to_string()]);
    let (sql, params) = note_update_sql(&id(), &NotePatch { body: Some("x".to_string()) }, NOW);
    assert_eq!(sql, "UPDATE notes SET updated_at = ?1, body = ?2 WHERE id = ?3");
    assert_eq!(params[1], "x");
}
