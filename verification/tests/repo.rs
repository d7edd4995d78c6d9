use gest::delete::{cascade_records, missing_parent, parent_table_and_sql, placeholders, CapturedChild, DeleteReport};
use gest::iteration_repo::{short_task_id, status_counts_from_rows, tasks_with_phase, PhaseRow, Relationship, StatusCounts};
use gest::meta::Meta;
use gest::primitives::EntityType;
use gest::purge::{
    archived_artifacts_from_rows, archived_projects_from_rows, artifact_tombstone_id, dangling_relationships_from_rows, scope_dirs,
    split_file_name, terminal_iterations_from_rows, terminal_tasks_from_rows, terminal_iterations_query, terminal_tasks_query, yaml_tombstone_id, OrphanTombstones, Scope,
    TerminalIterations, TerminalTasks,
};
use gest::text::contains_str;
use gest::relationships::{for_entities_sql, group_by_entity, relationship_audit_payload, RelationshipRow};
use gest::resolve::{match_query_sql, resolve_entity, EntityMatches, ResolveError, Table};
use gest::transaction::{undo_event, undo_plan, undo_statement, BeforeValue, UndoEvent};
use gest::watcher::{debounce_step, find_gest_dir_upward, is_filtered, watched_dirs, DebounceState, WatchAction, WatchEvent};

fn payload(entries: Vec<(&str, Meta)>) -> Meta {
    Meta::Table(entries.into_iter().map(|(k, v)| (k.to_string(), v)).collect())
}

fn text(s: &str) -> Meta {
    Meta::Text(s.to_string())
}

// ── captured children ────────────────────────────────────────────────────

#[test]
fn it_round_trips_entity_tag_payload() {
    let child = CapturedChild::EntityTag {
        entity_id: "task-1".into(),
        entity_type: "task".into(),
        tag_id: "tag-1".into(),
        created_at: "2025-01-01T00:00:00Z".into(),
    };
    assert_eq!(child.table(), "entity_tags");
    assert_eq!(child.audit_row_id(), "task:task-1:tag-1");
    assert_eq!(
        child.to_audit_payload(),
        payload(vec![
            ("created_at", text("2025-01-01T00:00:00Z")),
            ("entity_id", text("task-1")),
            ("entity_type", text("task")),
            ("tag_id", text("tag-1")),
        ])
    );
}

#[test]
fn it_round_trips_iteration_task_payload() {
    let child = CapturedChild::IterationTask {
        iteration_id: "it-1".into(),
        task_id: "t-1".into(),
        phase: 3,
        created_at: "2025-01-01T00:00:00Z".into(),
    };
    assert_eq!(child.table(), "iteration_tasks");
    assert_eq!(child.audit_row_id(), "it-1:t-1");
    assert_eq!(
        child.to_audit_payload(),
        payload(vec![
            ("created_at", text("2025-01-01T00:00:00Z")),
            ("iteration_id", text("it-1")),
            ("phase", Meta::Integer(3)),
            ("task_id", text("t-1")),
        ])
    );
}

#[test]
fn it_round_trips_note_payload_with_null_author() {
    let child = CapturedChild::Note {
        id: "n-1".into(),
        entity_id: "task-1".into(),
        entity_type: "task".into(),
        author_id: None,
        body: "hello".into(),
        created_at: "2025-01-01T00:00:00Z".into(),
        updated_at: "2025-01-01T00:00:00Z".into(),
    };
    assert_eq!(child.table(), "notes");
    assert_eq!(child.audit_row_id(), "n-1");
    assert_eq!(
        child.to_audit_payload(),
        payload(vec![
            ("author_id", Meta::Null),
            ("body", text("hello")),
            ("created_at", text("2025-01-01T00:00:00Z")),
            ("entity_id", text("task-1")),
            ("entity_type", text("task")),
            ("id", text("n-1")),
            ("updated_at", text("2025-01-01T00:00:00Z")),
        ])
    );
}

#[test]
fn it_round_trips_relationship_payload() {
    let child = CapturedChild::Relationship {
        id: "r-1".into(),
        rel_type: "blocked-by".into(),
        source_id: "task-1".into(),
        source_type: "task".into(),
        target_id: "task-2".into(),
        target_type: "task".into(),
        created_at: "2025-01-01T00:00:00Z".into(),
        updated_at: "2025-01-01T00:00:00Z".into(),
    };
    assert_eq!(child.table(), "relationships");
    assert_eq!(child.audit_row_id(), "r-1");
    assert_eq!(
        child.to_audit_payload(),
        payload(vec![
            ("created_at", text("2025-01-01T00:00:00Z")),
            ("id", text("r-1")),
            ("rel_type", text("blocked-by")),
            ("source_id", text("task-1")),
            ("source_type", text("task")),
            ("target_id", text("task-2")),
            ("target_type", text("task")),
            ("updated_at", text("2025-01-01T00:00:00Z")),
        ])
    );
}

#[test]
fn delete_statements_and_placeholders() {
    assert_eq!(parent_table_and_sql(EntityType::Artifact), ("artifacts", "DELETE FROM artifacts WHERE id = ?1"));
    assert_eq!(parent_table_and_sql(EntityType::Iteration), ("iterations", "DELETE FROM iterations WHERE id = ?1"));
    assert_eq!(parent_table_and_sql(EntityType::Task), ("tasks", "DELETE FROM tasks WHERE id = ?1"));
    assert_eq!(placeholders(2, 3), "?2, ?3, ?4");
    assert_eq!(placeholders(1, 0), "");
    assert_eq!(placeholders(9, 2), "?9, ?10");
    assert_eq!(DeleteReport::default(), DeleteReport { iteration_tasks: 0, notes: 0, relationships: 0, tags: 0 });
}

// ── undo ─────────────────────────────────────────────────────────────────

fn event(kind: &str, before: Option<Vec<(&str, BeforeValue)>>) -> UndoEvent {
    UndoEvent {
        event_type: kind.to_string(),
        table_name: "tasks".to_string(),
        row_id: "row-1".to_string(),
        before: before.map(|b| b.into_iter().map(|(k, v)| (k.to_string(), v)).collect()),
    }
}

#[test]
fn undo_deletes_a_created_row() {
    let st = undo_statement(&event("created", None)).unwrap();
    assert_eq!(st.sql, "DELETE FROM tasks WHERE id = ?1");
    assert_eq!(st.params, vec![Some("row-1".to_string())]);
}

#[test]
fn undo_restores_a_modified_row() {
    let e = event(
        "modified",
        Some(vec![
            ("id", BeforeValue::Text("row-1".into())),
            ("title", BeforeValue::Text("Old".into())),
            ("priority", BeforeValue::Json("2".into())),
        ]),
    );
    let st = undo_statement(&e).unwrap();
    assert_eq!(st.sql, "UPDATE tasks SET title = ?1, priority = ?2 WHERE id = ?3");
    assert_eq!(st.params, vec![Some("Old".to_string()), Some("2".to_string()), Some("row-1".to_string())]);
    // A null column gets its own parameter, bound to SQL NULL.
    let e = event(
        "modified",
        Some(vec![("assigned_to", BeforeValue::Null), ("title", BeforeValue::Text("T".into()))]),
    );
    let st = undo_statement(&e).unwrap();
    assert_eq!(st.sql, "UPDATE tasks SET assigned_to = ?1, title = ?2 WHERE id = ?3");
    assert_eq!(st.params, vec![None, Some("T".to_string()), Some("row-1".to_string())]);
    assert!(undo_statement(&event("modified", Some(vec![("id", BeforeValue::Text("x".into()))]))).is_none());
    assert!(undo_statement(&event("modified", None)).is_none());
}

#[test]
fn undo_reinserts_a_deleted_row() {
    let e = event(
        "deleted",
        Some(vec![
            ("author_id", BeforeValue::Null),
            ("body", BeforeValue::Text("hello".into())),
            ("phase", BeforeValue::Json("3".into())),
        ]),
    );
    let st = undo_statement(&e).unwrap();
    assert_eq!(st.sql, "INSERT OR IGNORE INTO tasks (author_id, body, phase) VALUES (?1, ?2, ?3)");
    assert_eq!(st.params, vec![None, Some("hello".to_string()), Some("3".to_string())]);
    assert!(undo_statement(&event("renamed", None)).is_none());
}

#[test]
fn undo_plan_keeps_event_order_and_skips_the_rest() {
    let events = vec![event("created", None), event("other", None), event("deleted", Some(vec![]))];
    let plan = undo_plan(&events);
    assert_eq!(plan.len(), 2);
    assert_eq!(plan[0].sql, "DELETE FROM tasks WHERE id = ?1");
    assert_eq!(plan[1].sql, "INSERT OR IGNORE INTO tasks () VALUES ()");
}

// ── purge tallies ────────────────────────────────────────────────────────

const K: &str = "kkkkkkkkkkkkkkkkkkkkkkkkkkkkkkkk";
const Z: &str = "zyxwvutsrqponmlkzyxwvutsrqponmlk";

#[test]
fn terminal_rows_are_tallied_by_status() {
    let rows = vec![(K.to_string(), "done".to_string()), (Z.to_string(), "cancelled".to_string())];
    let t: TerminalTasks = terminal_tasks_from_rows(&rows).unwrap();
    assert_eq!((t.cancelled, t.done, t.ids.len()), (1, 1, 2));
    assert_eq!(t.total(), 2);
    let rows = vec![(K.to_string(), "completed".to_string()), (Z.to_string(), "completed".to_string())];
    let i: TerminalIterations = terminal_iterations_from_rows(&rows).unwrap();
    assert_eq!((i.cancelled, i.completed, i.total()), (0, 2, 2));
    assert!(terminal_tasks_from_rows(&vec![("bad".to_string(), "done".to_string())]).is_err());
    let scope = Scope::AllProjects;
    assert!(matches!(scope, Scope::AllProjects));
}

#[test]
fn status_counts_take_each_status_row() {
    let rows = vec![("open".to_string(), 2i64), ("done".to_string(), 3), ("weird".to_string(), 4)];
    let c = status_counts_from_rows(&rows);
    assert_eq!(c, StatusCounts { cancelled: 0, done: 3, in_progress: 0, open: 2, total: 9 });
}

#[test]
fn short_task_ids_take_eight_bytes() {
    assert_eq!(short_task_id(K), "kkkkkkkk");
    assert_eq!(short_task_id("abc"), "abc");
    assert_eq!(short_task_id("ééééx"), "éééé");
}

// ── resolve tables ───────────────────────────────────────────────────────

#[test]
fn it_returns_active_filter_for_artifacts() {
    assert_eq!(Table::Artifacts.active_filter(), Some("archived_at IS NULL"));
}

#[test]
fn it_returns_active_filter_for_iterations() {
    assert_eq!(Table::Iterations.active_filter(), Some("status NOT IN ('completed', 'cancelled')"));
}

#[test]
fn it_returns_active_filter_for_tasks() {
    assert_eq!(Table::Tasks.active_filter(), Some("status NOT IN ('done', 'cancelled')"));
}

#[test]
fn it_returns_canonical_sql_ident_for_each_variant() {
    assert_eq!(Table::Artifacts.as_sql_ident(), "artifacts");
    assert_eq!(Table::Iterations.as_sql_ident(), "iterations");
    assert_eq!(Table::Notes.as_sql_ident(), "notes");
    assert_eq!(Table::Tasks.as_sql_ident(), "tasks");
}

#[test]
fn it_returns_no_active_filter_for_notes() {
    assert_eq!(Table::Notes.active_filter(), None);
}

// ── watcher ──────────────────────────────────────────────────────────────

#[test]
fn it_filters_tmp_files() {
    assert!(is_filtered(&vec!["/tasks/.tmp_12345".to_string()]));
}

#[test]
fn it_does_not_filter_normal_files() {
    assert!(!is_filtered(&vec!["/tasks/abc123.toml".to_string()]));
}

#[test]
fn it_does_not_filter_mixed_paths() {
    assert!(!is_filtered(&vec!["/tasks/.tmp_12345".to_string(), "/tasks/abc123.toml".to_string()]));
}

#[test]
fn it_returns_none_when_no_gest_dir() {
    let ancestors = vec!["/tmp/x".to_string(), "/tmp".to_string(), "/".to_string()];
    assert_eq!(find_gest_dir_upward(&ancestors, &vec![false, false, false]), None);
    assert_eq!(find_gest_dir_upward(&ancestors, &vec![false, true, true]), Some("/tmp/.gest".to_string()));
}

#[test]
fn prefix_queries_filter_active_rows() {
    assert_eq!(
        match_query_sql(Table::Tasks, true),
        "SELECT id FROM tasks WHERE id LIKE ?1 || '%' AND status NOT IN ('done', 'cancelled')"
    );
    assert_eq!(match_query_sql(Table::Notes, true), "SELECT id FROM notes WHERE id LIKE ?1 || '%'");
    assert_eq!(match_query_sql(Table::Artifacts, false), "SELECT id FROM artifacts WHERE id LIKE ?1 || '%'");
}

#[test]
fn board_rows_carry_blockers_and_blocking() {
    let rows = vec![
        PhaseRow { id: K.to_string(), title: "A".into(), status: "open".into(), priority: Some(1), phase: 1 },
        PhaseRow { id: Z.to_string(), title: "B".into(), status: "done".into(), priority: None, phase: 2 },
    ];
    let rels = vec![
        Relationship { source_id: K.to_string(), target_id: Z.to_string(), rel_type: "blocks".into() },
        Relationship { source_id: Z.to_string(), target_id: K.to_string(), rel_type: "relates-to".into() },
        Relationship { source_id: Z.to_string(), target_id: "abcdefghijkl".to_string(), rel_type: "blocked-by".into() },
    ];
    let out = tasks_with_phase(rows, &rels);
    assert_eq!(out.len(), 2);
    assert_eq!(out[0].id_short, "kkkkkkkk");
    assert!(out[0].is_blocking);
    assert!(out[0].blocked_by.is_empty());
    assert_eq!(out[0].priority, Some(1));
    assert_eq!(out[1].id_short, "zyxwvuts");
    assert_eq!(out[1].blocked_by, vec!["kkkkkkkk", "abcdefgh"]);
    assert!(!out[1].is_blocking);
    assert_eq!(out[1].phase, 2);
}

#[test]
fn cascade_records_children_in_restore_order() {
    let note = CapturedChild::Note {
        id: "n-1".into(),
        entity_id: "t".into(),
        entity_type: "task".into(),
        author_id: Some("a-1".into()),
        body: "b".into(),
        created_at: "c".into(),
        updated_at: "u".into(),
    };
    let tag = CapturedChild::EntityTag {
        entity_id: "t".into(),
        entity_type: "task".into(),
        tag_id: "g".into(),
        created_at: "c".into(),
    };
    let member = CapturedChild::IterationTask {
        iteration_id: "i".into(),
        task_id: "t".into(),
        phase: 1,
        created_at: "c".into(),
    };
    let (report, records) = cascade_records(&vec![note], &vec![tag], &vec![], &vec![member]);
    assert_eq!(report, DeleteReport { iteration_tasks: 1, notes: 1, relationships: 0, tags: 1 });
    let tables: Vec<&str> = records.iter().map(|r| r.table.as_str()).collect();
    assert_eq!(tables, vec!["notes", "entity_tags", "iteration_tasks"]);
    assert_eq!(records[1].row_id, "task:t:g");
    assert_eq!(records[2].row_id, "i:t");
    match &records[0].payload {
        Meta::Table(entries) => assert_eq!(entries[0], ("author_id".to_string(), text("a-1"))),
        _ => panic!("expected a table"),
    }
}

#[test]
fn watcher_follows_roots_and_existing_resolved_dirs() {
    assert_eq!(watched_dirs("/g/tasks", "/g/artifacts", true, false), vec!["/g/tasks", "/g/tasks/resolved", "/g/artifacts"]);
    assert_eq!(watched_dirs("/g/tasks", "/g/artifacts", false, true), vec!["/g/tasks", "/g/artifacts", "/g/artifacts/resolved"]);
}

const ID_A: &str = "kkkkkkkkkkkkkkkkkkkkkkkkkkkkkkkk";
const ID_B: &str = "zzzzzzzzzzzzzzzzzzzzzzzzzzzzzzzz";

#[test]
fn archived_and_dangling_rows_collect_every_id() {
    let rows = vec![ID_A.to_string(), ID_B.to_string()];
    let a = archived_artifacts_from_rows(&rows).unwrap();
    assert_eq!(a.count, 2);
    assert_eq!(a.ids[0].to_string(), ID_A);
    assert_eq!(a.ids[1].to_string(), ID_B);
    let p = archived_projects_from_rows(&rows).unwrap();
    assert_eq!(p.count, 2);
    let d = dangling_relationships_from_rows(&Vec::new()).unwrap();
    assert_eq!(d.count, 0);
    assert!(d.ids.is_empty());
}

#[test]
fn archived_rows_fail_on_first_bad_id() {
    let rows = vec![ID_A.to_string(), "short".to_string(), "also-bad".to_string()];
    let err = archived_artifacts_from_rows(&rows).unwrap_err();
    assert_eq!(err, "Id must be exactly 32 characters, got 5");
}

#[test]
fn scope_dirs_keeps_only_the_chosen_project() {
    let a = gest::primitives::Id::parse_str(ID_A).unwrap();
    let b = gest::primitives::Id::parse_str(ID_B).unwrap();
    let dirs = vec![(a, "/one/.gest".to_string()), (b, "/two/.gest".to_string())];
    assert_eq!(scope_dirs(&Scope::AllProjects, &dirs), vec!["/one/.gest".to_string(), "/two/.gest".to_string()]);
    let only_b = gest::primitives::Id::parse_str(ID_B).unwrap();
    assert_eq!(scope_dirs(&Scope::Project(only_b), &dirs), vec!["/two/.gest".to_string()]);
}

#[test]
fn split_file_name_follows_path_rules() {
    assert_eq!(split_file_name("task.yaml"), ("task".to_string(), Some("yaml".to_string())));
    assert_eq!(split_file_name("a.b.md"), ("a.b".to_string(), Some("md".to_string())));
    assert_eq!(split_file_name(".hidden"), (".hidden".to_string(), None));
    assert_eq!(split_file_name("plain"), ("plain".to_string(), None));
    assert_eq!(split_file_name("trail."), ("trail".to_string(), Some(String::new())));
    assert_eq!(split_file_name(".."), ("..".to_string(), None));
}

#[test]
fn tombstone_ids_need_extension_marker_and_id_stem() {
    let name = format!("{ID_A}.yaml");
    let dead = "title: x\ndeleted_at: 2024-01-01T00:00:00Z\n";
    assert_eq!(yaml_tombstone_id(&name, Some("tasks"), "notes", dead).unwrap().to_string(), ID_A);
    assert!(yaml_tombstone_id(&name, Some("notes"), "notes", dead).is_none());
    assert!(yaml_tombstone_id(&name, Some("tasks"), "notes", "title: x\n").is_none());
    assert!(yaml_tombstone_id("not-an-id.yaml", None, "notes", dead).is_none());
    assert!(yaml_tombstone_id(&format!("{ID_A}.md"), None, "notes", dead).is_none());
    let md = format!("{ID_B}.md");
    assert_eq!(artifact_tombstone_id(&md, "---\ndeleted_at: now\n---\n").unwrap().to_string(), ID_B);
    assert!(artifact_tombstone_id(&name, dead).is_none());
}

#[test]
fn orphan_tombstones_record_only_rowless_files() {
    let mut o = OrphanTombstones { count: 0, paths: Vec::new() };
    o.record("a.yaml".to_string(), true);
    assert_eq!(o.count, 0);
    o.record("b.yaml".to_string(), false);
    assert_eq!(o.count, 1);
    assert_eq!(o.paths, vec!["b.yaml".to_string()]);
}

#[test]
fn contains_str_finds_substrings() {
    assert!(contains_str("a deleted_at b", "deleted_at"));
    assert!(!contains_str("deleted", "deleted_at"));
    assert!(contains_str("anything", ""));
    assert!(contains_str("", ""));
    assert!(!contains_str("", "x"));
}

fn rel(id: &str, src: &str, src_type: EntityType, tgt: &str, tgt_type: EntityType) -> RelationshipRow {
    RelationshipRow {
        created_at: "2024-01-01T00:00:00+00:00".to_string(),
        id: gest::primitives::Id::parse_str(id).unwrap(),
        rel_type: "blocks".to_string(),
        source_id: gest::primitives::Id::parse_str(src).unwrap(),
        source_type: src_type,
        target_id: gest::primitives::Id::parse_str(tgt).unwrap(),
        target_type: tgt_type,
        updated_at: "2024-01-02T00:00:00+00:00".to_string(),
    }
}

const ID_C: &str = "mmmmmmmmmmmmmmmmmmmmmmmmmmmmmmmm";

#[test]
fn for_entities_sql_binds_kind_then_ids_twice() {
    let ids = vec![gest::primitives::Id::parse_str(ID_A).unwrap(), gest::primitives::Id::parse_str(ID_B).unwrap()];
    let (sql, params) = for_entities_sql(EntityType::Task, &ids).unwrap();
    assert_eq!(
        sql,
        "SELECT id, rel_type, source_id, source_type, target_id, target_type, created_at, updated_at FROM relationships \
         WHERE (source_type = ?1 AND source_id IN (?2, ?3)) OR (target_type = ?1 AND target_id IN (?2, ?3))"
    );
    assert_eq!(params, vec!["task", ID_A, ID_B, ID_A, ID_B]);
    assert!(for_entities_sql(EntityType::Task, &Vec::new()).is_none());
}

#[test]
fn group_by_entity_lists_rows_under_each_endpoint() {
    let a = gest::primitives::Id::parse_str(ID_A).unwrap();
    let b = gest::primitives::Id::parse_str(ID_B).unwrap();
    let rows = vec![
        rel(ID_C, ID_A, EntityType::Task, ID_B, EntityType::Task),
        rel(ID_C, ID_A, EntityType::Task, ID_C, EntityType::Artifact),
        rel(ID_C, ID_B, EntityType::Iteration, ID_C, EntityType::Task),
        rel(ID_C, ID_A, EntityType::Task, ID_A, EntityType::Task),
    ];
    let groups = group_by_entity(EntityType::Task, &vec![a, b], &rows);
    assert_eq!(groups, vec![vec![0, 1, 3, 3], vec![0]]);
    let none = group_by_entity(EntityType::Artifact, &vec![gest::primitives::Id::parse_str(ID_A).unwrap()], &rows);
    assert_eq!(none, vec![Vec::<usize>::new()]);
}

#[test]
fn relationship_audit_payload_matches_the_table_columns() {
    let r = rel(ID_C, ID_A, EntityType::Task, ID_B, EntityType::Iteration);
    let payload = relationship_audit_payload(&r);
    let t = |s: &str| Meta::Text(s.to_string());
    assert_eq!(
        payload,
        Meta::Table(vec![
            ("created_at".to_string(), t("2024-01-01T00:00:00+00:00")),
            ("id".to_string(), t(ID_C)),
            ("rel_type".to_string(), t("blocks")),
            ("source_id".to_string(), t(ID_A)),
            ("source_type".to_string(), t("task")),
            ("target_id".to_string(), t(ID_B)),
            ("target_type".to_string(), t("iteration")),
            ("updated_at".to_string(), t("2024-01-02T00:00:00+00:00")),
        ])
    );
}

#[test]
fn undo_of_a_cascaded_row_reinserts_its_payload() {
    let child = CapturedChild::IterationTask {
        created_at: "2024-01-01T00:00:00Z".to_string(),
        iteration_id: "iter".to_string(),
        phase: 3,
        task_id: "task".to_string(),
    };
    let entries: Vec<(String, BeforeValue)> = match child.to_audit_payload() {
        Meta::Table(entries) => entries
            .into_iter()
            .map(|(k, v)| {
                let b = match v {
                    Meta::Text(t) => BeforeValue::Text(t),
                    Meta::Null => BeforeValue::Null,
                    Meta::Integer(i) => BeforeValue::Json(i.to_string()),
                    other => panic!("unexpected payload value {other:?}"),
                };
                (k, b)
            })
            .collect(),
        other => panic!("payload is not an object: {other:?}"),
    };
    let event = UndoEvent {
        event_type: "deleted".to_string(),
        table_name: child.table().to_string(),
        row_id: child.audit_row_id(),
        before: Some(entries),
    };
    let st = undo_statement(&event).unwrap();
    assert_eq!(st.sql, "INSERT OR IGNORE INTO iteration_tasks (created_at, iteration_id, phase, task_id) VALUES (?1, ?2, ?3, ?4)");
    let p = |s: &str| Some(s.to_string());
    assert_eq!(st.params, vec![p("2024-01-01T00:00:00Z"), p("iter"), p("3"), p("task")]);
}

#[test]
fn a_burst_of_changes_notifies_once() {
    let events = [
        WatchEvent::Changed { filtered: true },
        WatchEvent::Changed { filtered: false },
        WatchEvent::Changed { filtered: false },
        WatchEvent::Changed { filtered: true },
        WatchEvent::WindowElapsed,
    ];
    let mut state = DebounceState::Idle;
    let mut actions = Vec::new();
    for e in events {
        let (s, a) = debounce_step(state, e);
        state = s;
        actions.push(a);
    }
    assert_eq!(state, DebounceState::Idle);
    assert_eq!(
        actions,
        vec![WatchAction::Nothing, WatchAction::StartWindow, WatchAction::Nothing, WatchAction::Nothing, WatchAction::Notify]
    );
    assert_eq!(actions.iter().filter(|a| **a == WatchAction::Notify).count(), 1);
}

#[test]
fn the_watcher_exits_when_the_channel_closes() {
    assert_eq!(debounce_step(DebounceState::Idle, WatchEvent::Closed), (DebounceState::Stopped, WatchAction::Exit));
    assert_eq!(debounce_step(DebounceState::Waiting, WatchEvent::Closed), (DebounceState::Waiting, WatchAction::Nothing));
    assert_eq!(
        debounce_step(DebounceState::Stopped, WatchEvent::Changed { filtered: false }),
        (DebounceState::Stopped, WatchAction::Nothing)
    );
}

#[test]
fn captured_rows_delete_by_their_keys() {
    let tag = CapturedChild::EntityTag {
        created_at: "c".to_string(),
        entity_id: "e".to_string(),
        entity_type: "task".to_string(),
        tag_id: "t".to_string(),
    };
    let (sql, params) = tag.delete_statement();
    assert_eq!(sql, "DELETE FROM entity_tags WHERE entity_type = ?1 AND entity_id = ?2 AND tag_id = ?3");
    assert_eq!(params, vec!["task", "e", "t"]);
    let member = CapturedChild::IterationTask {
        created_at: "c".to_string(),
        iteration_id: "i".to_string(),
        phase: 1,
        task_id: "t".to_string(),
    };
    let (sql, params) = member.delete_statement();
    assert_eq!(sql, "DELETE FROM iteration_tasks WHERE iteration_id = ?1 AND task_id = ?2");
    assert_eq!(params, vec!["i", "t"]);
    let note = CapturedChild::Note {
        author_id: None,
        body: "b".to_string(),
        created_at: "c".to_string(),
        entity_id: "e".to_string(),
        entity_type: "task".to_string(),
        id: "n".to_string(),
        updated_at: "u".to_string(),
    };
    assert_eq!(note.delete_statement(), ("DELETE FROM notes WHERE id = ?1", vec!["n".to_string()]));
}

fn matches(artifacts: &[&str], iterations: &[&str], tasks: &[&str]) -> EntityMatches {
    let own = |v: &[&str]| v.iter().map(|s| s.to_string()).collect::<Vec<_>>();
    EntityMatches { artifacts: own(artifacts), iterations: own(iterations), tasks: own(tasks) }
}

#[test]
fn resolve_entity_prefers_the_active_match() {
    let (kind, id) = resolve_entity("kk", &matches(&[], &[], &[ID_A]), &matches(&[ID_A], &[], &[ID_A])).unwrap();
    assert_eq!(kind, EntityType::Task);
    assert_eq!(id.to_string(), ID_A);
    let (kind, id) = resolve_entity("mm", &matches(&[], &[], &[]), &matches(&[], &[ID_C], &[])).unwrap();
    assert_eq!(kind, EntityType::Iteration);
    assert_eq!(id.to_string(), ID_C);
}

#[test]
fn resolve_entity_reports_ambiguity_absence_and_bad_prefixes() {
    assert_eq!(
        resolve_entity("k", &matches(&[ID_A], &[], &[ID_A]), &matches(&[], &[], &[])),
        Err(ResolveError::Ambiguous("k".to_string(), 2))
    );
    assert_eq!(
        resolve_entity("kk", &matches(&[], &[], &[]), &matches(&[], &[], &[])),
        Err(ResolveError::NotFound("id prefix 'kk'".to_string()))
    );
    assert_eq!(
        resolve_entity("ab", &matches(&[], &[], &[]), &matches(&[], &[], &[])),
        Err(ResolveError::InvalidPrefix("Id prefix must contain only characters k-z, found 'a'".to_string()))
    );
    assert_eq!(
        resolve_entity("kk", &matches(&["kkk"], &[], &[ID_A]), &matches(&[], &[], &[])),
        Err(ResolveError::InvalidPrefix("Id must be exactly 32 characters, got 3".to_string()))
    );
}

#[test]
fn recorded_json_replays_with_nulls_restored() {
    let e = undo_event("deleted", "notes", "n1", Some("{\"body\":\"hi\",\"author_id\":null,\"phase\":3,\"tags\":[\"a\"]}"));
    assert_eq!(e.event_type, "deleted");
    assert_eq!(e.table_name, "notes");
    assert_eq!(e.row_id, "n1");
    let entries = e.before.as_ref().unwrap();
    let keys: Vec<&str> = entries.iter().map(|(k, _)| k.as_str()).collect();
    assert_eq!(keys, vec!["author_id", "body", "phase", "tags"]);
    let st = undo_statement(&e).unwrap();
    assert_eq!(st.sql, "INSERT OR IGNORE INTO notes (author_id, body, phase, tags) VALUES (?1, ?2, ?3, ?4)");
    assert_eq!(st.params, vec![None, Some("hi".to_string()), Some("3".to_string()), Some("[\"a\"]".to_string())]);
    let m = undo_event("modified", "tasks", "t1", Some("{\"id\":\"t1\",\"assigned_to\":null,\"title\":\"Old\"}"));
    let st = undo_statement(&m).unwrap();
    assert_eq!(st.sql, "UPDATE tasks SET assigned_to = ?1, title = ?2 WHERE id = ?3");
    assert_eq!(st.params, vec![None, Some("Old".to_string()), Some("t1".to_string())]);
    assert!(undo_event("deleted", "notes", "n1", Some("[1, 2]")).before.is_none());
    assert!(undo_event("deleted", "notes", "n1", Some("not json")).before.is_none());
    assert!(undo_event("created", "notes", "n1", None).before.is_none());
}

#[test]
fn missing_parent_names_the_first_absent_id() {
  let requested = vec!["aaa".to_string(), "bbb".to_string(), "ccc".to_string()];
  let found = vec!["ccc".to_string(), "aaa".to_string()];
  assert_eq!(missing_parent(EntityType::Task, &requested, &found), Some("task bbb".to_string()));
  let all = vec!["bbb".to_string(), "ccc".to_string(), "aaa".to_string()];
  assert_eq!(missing_parent(EntityType::Artifact, &requested, &all), None);
  assert_eq!(missing_parent(EntityType::Iteration, &requested, &vec![]), Some("iteration aaa".to_string()));
}

#[test]
fn terminal_queries_select_only_terminal_rows() {
    let (sql, params) = terminal_tasks_query(&Scope::AllProjects);
    assert_eq!(sql, "SELECT id, status FROM tasks WHERE status IN ('done', 'cancelled')");
    assert!(params.is_empty());
    let pid = gest::primitives::Id::parse_str(K).unwrap();
    let (sql, params) = terminal_iterations_query(&Scope::Project(pid));
    assert_eq!(sql, "SELECT id, status FROM iterations WHERE project_id = ?1 AND status IN ('completed', 'cancelled')");
    assert_eq!(params, vec![K.to_string()]);
}
