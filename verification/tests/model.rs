use gest::model::artifact::{Model as Artifact, Row as ArtifactRow};
use gest::model::fields::Timestamp;
use gest::model::iteration::{Model as Iteration, Row as IterationRow};
use gest::model::transaction::{Event, EventRow, Model as Transaction, Row as TransactionRow, SemanticEvent, SemanticEventRow};
use gest::model::project::{Model as Project, Row as ProjectRow};
use gest::model::sync_digest::{Model as SyncDigest, Row as SyncDigestRow};
use gest::primitives::IterationStatus;

const K: &str = "kkkkkkkkkkkkkkkkkkkkkkkkkkkkkkkk";
const Z: &str = "zzzzzzzzzzzzzzzzzzzzzzzzzzzzzzzz";

fn artifact_row() -> ArtifactRow {
    ArtifactRow {
        id: K.to_string(),
        project_id: Z.to_string(),
        archived_at: None,
        body: "# Body".to_string(),
        created_at: "2024-01-02T03:04:05Z".to_string(),
        metadata: "{\"k\":1}".to_string(),
        title: "Spec".to_string(),
        updated_at: "2024-01-02T03:04:05.5+02:00".to_string(),
    }
}

fn iteration_row() -> IterationRow {
    IterationRow {
        id: K.to_string(),
        project_id: Z.to_string(),
        completed_at: Some("2024-01-02T03:04:05Z".to_string()),
        created_at: "2024-01-02T03:04:05Z".to_string(),
        description: "d".to_string(),
        metadata: "{}".to_string(),
        status: "Completed".to_string(),
        title: "Sprint".to_string(),
        updated_at: "2024-01-02T03:04:05Z".to_string(),
    }
}

#[test]
fn artifact_row_reads_every_column() {
    let m = Artifact::try_from(artifact_row()).unwrap();
    assert_eq!(m.id.to_string(), K);
    assert_eq!(m.project_id.to_string(), Z);
    assert_eq!(m.archived_at, None);
    assert_eq!(m.body, "# Body");
    assert_eq!(m.title, "Spec");
    assert_eq!(m.created_at, Timestamp { secs: 1704164645, nanos: 0 });
    assert_eq!(m.updated_at, Timestamp { secs: 1704157445, nanos: 500_000_000 });
    assert_eq!(m.metadata, "{\"k\":1}");
}

#[test]
fn artifact_row_reports_the_first_bad_column() {
    let mut row = artifact_row();
    row.id = "abc".to_string();
    row.metadata = "{".to_string();
    assert_eq!(Artifact::try_from(row).unwrap_err(), "Id must be exactly 32 characters, got 3");
    let mut row = artifact_row();
    row.metadata = "{".to_string();
    assert_eq!(Artifact::try_from(row).unwrap_err(), "EOF while parsing an object at line 1 column 1");
    let mut row = artifact_row();
    row.archived_at = Some("yesterday".to_string());
    row.id = "abc".to_string();
    assert_eq!(Artifact::try_from(row).unwrap_err(), "premature end of input");
}

#[test]
fn iteration_row_reads_status_in_any_case() {
    let m = Iteration::try_from(iteration_row()).unwrap();
    assert_eq!(m.status, IterationStatus::Completed);
    assert_eq!(m.completed_at, Some(Timestamp { secs: 1704164645, nanos: 0 }));
    assert_eq!(m.description, "d");
    assert_eq!(m.title, "Sprint");
    let mut row = iteration_row();
    row.status = "bogus".to_string();
    assert_eq!(Iteration::try_from(row).unwrap_err(), "invalid iteration status: bogus");
    let mut row = iteration_row();
    row.status = "bogus".to_string();
    row.updated_at = "2024-13-01T00:00:00Z".to_string();
    assert_eq!(Iteration::try_from(row).unwrap_err(), "invalid iteration status: bogus");
    let mut row = iteration_row();
    row.updated_at = "2024-13-01T00:00:00Z".to_string();
    assert_eq!(Iteration::try_from(row).unwrap_err(), "input is out of range");
}

#[test]
fn transaction_row_reads_optional_author_and_undo_time() {
    let row = TransactionRow {
        id: K.to_string(),
        project_id: Z.to_string(),
        command: "gest task create".to_string(),
        created_at: "1970-01-01T00:00:10Z".to_string(),
        undone_at: None,
        author_id: Some(Z.to_string()),
    };
    let t = Transaction::try_from(row.clone()).unwrap();
    assert_eq!(t.command, "gest task create");
    assert_eq!(t.created_at, Timestamp { secs: 10, nanos: 0 });
    assert_eq!(t.author_id.unwrap().to_string(), Z);
    assert!(t.undone_at.is_none());
    let mut bad = row;
    bad.author_id = Some("zz".to_string());
    bad.created_at = "never".to_string();
    assert_eq!(Transaction::try_from(bad).unwrap_err(), "Id must be exactly 32 characters, got 2");
}

#[test]
fn event_row_reads_recorded_prior_state() {
    let row = EventRow {
        id: K.to_string(),
        transaction_id: Z.to_string(),
        before_data: Some("{\"title\":\"Old\"}".to_string()),
        created_at: "1970-01-01T00:00:00Z".to_string(),
        event_type: "modified".to_string(),
        row_id: "r1".to_string(),
        table_name: "tasks".to_string(),
        semantic_type: Some("status_change".to_string()),
        old_value: Some("open".to_string()),
        new_value: None,
    };
    let ev = Event::try_from(row.clone()).unwrap();
    assert_eq!(ev.before_data.as_deref(), Some("{\"title\":\"Old\"}"));
    assert_eq!(ev.event_type, "modified");
    assert_eq!(ev.table_name, "tasks");
    assert_eq!(ev.old_value.as_deref(), Some("open"));
    assert_eq!(ev.new_value, None);
    let mut bad = row;
    bad.before_data = Some("{".to_string());
    bad.id = "short".to_string();
    assert_eq!(Event::try_from(bad).unwrap_err(), "EOF while parsing an object at line 1 column 1");
}

#[test]
fn semantic_event_row_reads_in_column_order() {
    let row = SemanticEventRow {
        id: K.to_string(),
        row_id: "r".to_string(),
        table_name: "tasks".to_string(),
        semantic_type: "status_change".to_string(),
        old_value: Some("open".to_string()),
        new_value: Some("done".to_string()),
        created_at: "1970-01-01T00:01:00+00:00".to_string(),
        author_id: None,
    };
    let ev = SemanticEvent::try_from(row.clone()).unwrap();
    assert_eq!(ev.created_at, Timestamp { secs: 60, nanos: 0 });
    assert_eq!(ev.semantic_type, "status_change");
    assert!(ev.author_id.is_none());
    let mut bad = row;
    bad.id = "x".to_string();
    bad.created_at = "bad".to_string();
    assert_eq!(SemanticEvent::try_from(bad).unwrap_err(), "Id must be exactly 32 characters, got 1");
}

#[test]
fn it_sets_timestamps_to_now() {
    let before = chrono::Utc::now();
    let project = Project::new("/tmp/test".to_string());
    let after = chrono::Utc::now();
    let created = chrono::DateTime::from_timestamp(project.created_at.secs, project.created_at.nanos).unwrap();
    assert!(created >= before && created <= after);
    assert_eq!(project.created_at, project.updated_at);
    assert_eq!(project.root, "/tmp/test");
}

#[test]
fn project_and_digest_rows_read() {
    let p = Project::try_from(ProjectRow {
        id: K.to_string(),
        root: "/work".to_string(),
        created_at: "1970-01-01T00:00:01Z".to_string(),
        updated_at: "1970-01-01T00:00:02Z".to_string(),
    })
    .unwrap();
    assert_eq!(p.root, "/work");
    assert_eq!(p.updated_at, Timestamp { secs: 2, nanos: 0 });
    let err = Project::try_from(ProjectRow {
        id: K.to_string(),
        root: "/work".to_string(),
        created_at: "1970-01-01T00:00:01Z".to_string(),
        updated_at: "".to_string(),
    })
    .unwrap_err();
    assert_eq!(err, "premature end of input");
    let d = SyncDigest::try_from(SyncDigestRow {
        file_path: "tasks/a.yaml".to_string(),
        project_id: Z.to_string(),
        digest: "abc".to_string(),
        synced_at: "1970-01-01T00:00:03Z".to_string(),
    })
    .unwrap();
    assert_eq!(d.file_path, "tasks/a.yaml");
    assert_eq!(d.digest, "abc");
    assert_eq!(d.project_id.to_string(), Z);
    assert_eq!(d.synced_at, Timestamp { secs: 3, nanos: 0 });
}
