use gest::fs::{first_unused, next_id, resolve_id};
use gest::model::note::Note;
use gest::model::{artifact, iteration, task};
use gest::primitives::{Id, IterationStatus, TaskStatus};
use gest::store::{
    artifact_dirs, artifact_path, find_gest_dir, is_iteration_resolved, join_frontmatter, join_path, list_artifacts,
    list_notes, persist_entity_update, read_artifact, resolve_iteration_write, read_iteration_tasks, read_note, resolve_artifact_id,
    resolve_iteration_id, split_frontmatter, ArtifactEntry, ArtifactFilter, EntityWrite,
};

const K: &str = "kkkkkkkkkkkkkkkkkkkkkkkkkkkkkkkk";
const Z: &str = "zyxwvutsrqponmlkzyxwvutsrqponmlk";

fn id(s: &str) -> Id {
    s.parse().unwrap()
}

fn entry(i: &str, title: &str) -> ArtifactEntry {
    ArtifactEntry { id: id(i), title: title.to_string(), kind: None, tags: vec![] }
}

fn no_filter() -> ArtifactFilter {
    ArtifactFilter { show_all: false, only_archived: false, kind: None, tag: None }
}

/// Lists artifacts the way the file store does: read the directories the
/// filter asks for, then filter what was read.
fn listing(filter: &ArtifactFilter, active: Vec<ArtifactEntry>, archived: Vec<ArtifactEntry>) -> Vec<ArtifactEntry> {
    let (read_active, read_archive) = artifact_dirs(filter);
    let mut loaded = Vec::new();
    if read_active {
        loaded.extend(active);
    }
    if read_archive {
        loaded.extend(archived);
    }
    list_artifacts(loaded, filter)
}

// ── artifact files ───────────────────────────────────────────────────────

#[test]
fn it_handles_empty_body() {
    let content = join_frontmatter("title: Empty Body\n", "");
    assert_eq!(content, "---\ntitle: Empty Body\n---\n");
    let (yaml, body) = split_frontmatter(&content).unwrap();
    assert_eq!(body, "");
    assert_eq!(yaml, "title: Empty Body");
}

#[test]
fn it_roundtrips_artifact_with_frontmatter_and_body() {
    let yaml = format!("id: {Z}\ntitle: My Artifact\n");
    let content = join_frontmatter(&yaml, "# Hello\n\nSome content here.");
    let (front, body) = split_frontmatter(&content).unwrap();
    assert_eq!(front, format!("id: {Z}\ntitle: My Artifact"));
    assert_eq!(body, "# Hello\n\nSome content here.");
}

#[test]
fn split_frontmatter_reports_missing_fences() {
    assert_eq!(
        split_frontmatter("title: x\n").unwrap_err(),
        "Artifact file missing opening frontmatter delimiter"
    );
    assert_eq!(
        split_frontmatter("---\ntitle: x\n").unwrap_err(),
        "Artifact file missing closing frontmatter delimiter"
    );
    let (y, b) = split_frontmatter("---\na: 1\n---\nno blank line").unwrap();
    assert_eq!((y.as_str(), b.as_str()), ("a: 1", "no blank line"));
}

// ── listing artifacts ────────────────────────────────────────────────────

#[test]
fn artifact_it_excludes_archived_by_default() {
    let artifacts = listing(&no_filter(), vec![], vec![entry(Z, "To Archive")]);
    assert_eq!(artifacts.len(), 0);
}

#[test]
fn it_includes_archived_when_requested() {
    let filter = ArtifactFilter { show_all: true, ..no_filter() };
    let artifacts = listing(&filter, vec![entry(Z, "Active")], vec![entry(K, "Archived")]);
    assert_eq!(artifacts.len(), 2);
}

#[test]
fn it_returns_active_artifacts() {
    let artifacts = listing(&no_filter(), vec![entry(Z, "Active One"), entry(K, "Active Two")], vec![]);
    assert_eq!(artifacts.len(), 2);
}

#[test]
fn it_returns_only_archived_when_only_archived() {
    let filter = ArtifactFilter { only_archived: true, ..no_filter() };
    let artifacts = listing(&filter, vec![entry(Z, "Active")], vec![entry(K, "Archived")]);
    assert_eq!(artifacts.len(), 1);
    assert_eq!(artifacts[0].title, "Archived");
}

#[test]
fn list_artifacts_filters_by_kind_and_tag() {
    let mut a = entry(Z, "Spec");
    a.kind = Some("spec".to_string());
    a.tags = vec!["api".to_string()];
    let mut b = entry(K, "Adr");
    b.kind = Some("adr".to_string());
    b.tags = vec!["api".to_string()];
    let filter = ArtifactFilter { kind: Some("spec".to_string()), tag: Some("api".to_string()), ..no_filter() };
    let out = list_artifacts(vec![a, b], &filter);
    assert_eq!(out.len(), 1);
    assert_eq!(out[0].title, "Spec");
}

// ── resolving artifact and iteration ids ─────────────────────────────────

#[test]
fn it_errors_not_found_for_archived_when_not_included() {
    let result = resolve_artifact_id(&vec![], &vec![Z.to_string()], "zyxw", false);
    let err = result.unwrap_err();
    assert!(err.contains("not found"), "Expected not found error, got: {err}");
    assert!(err.contains("--all"), "Expected archive hint, got: {err}");
    assert_eq!(err, "Artifact not found: 'zyxw' (try --all)");
}

#[test]
fn it_falls_back_to_archived_when_no_active_match() {
    let resolved = resolve_artifact_id(&vec![], &vec![Z.to_string()], "zyxw", true).unwrap();
    assert_eq!(resolved.to_string(), Z);
}

#[test]
fn it_prefers_active_over_archived_with_shared_prefix() {
    let archived = "zyxwkkkkkkkkkkkkkkkkkkkkkkkkkkkk";
    let resolved = resolve_artifact_id(&vec![Z.to_string()], &vec![archived.to_string()], "zyxw", true).unwrap();
    assert_eq!(resolved.to_string(), Z);
}

#[test]
fn resolve_reports_ambiguity_and_bad_prefixes() {
    let other = "zyxwkkkkkkkkkkkkkkkkkkkkkkkkkkkk";
    let err = resolve_iteration_id(&vec![Z.to_string(), other.to_string()], &vec![], "zyxw", false).unwrap_err();
    assert_eq!(err, format!("Ambiguous ID prefix 'zyxw', matches: {Z}, {other}"));
    assert!(resolve_iteration_id(&vec![Z.to_string()], &vec![], "zy1", true).is_err());
    let err = resolve_id(&vec![], None, "kk", true, "Task").unwrap_err();
    assert_eq!(err, "Task not found: 'kk'");
}

// ── next_id ──────────────────────────────────────────────────────────────

#[test]
fn it_avoids_short_prefix_collisions_across_entity_types() {
    let task_short = id(Z).short();
    let dirs = vec![vec![Z.to_string()], vec![]];
    for _ in 0..50 {
        let new_id = next_id(&dirs).unwrap();
        assert_ne!(new_id.short(), task_short);
    }
}

#[test]
fn it_checks_artifact_directories_too() {
    let artifact_short = id(Z).short();
    let dirs = vec![vec![], vec![], vec![Z.to_string()]];
    for _ in 0..50 {
        let new_id = next_id(&dirs).unwrap();
        assert_ne!(new_id.short(), artifact_short);
    }
}

#[test]
fn it_generates_a_unique_id() {
    let new_id = next_id(&vec![]).unwrap();
    assert_eq!(new_id.to_string().len(), 32);
}

// ── paths and moves ──────────────────────────────────────────────────────

#[test]
fn join_path_follows_path_join() {
    assert_eq!(join_path("/a", "b"), "/a/b");
    assert_eq!(join_path("/a/", "b"), "/a/b");
    assert_eq!(join_path("", "b"), "b");
    assert_eq!(join_path("/a", "/etc"), "/etc");
}

#[test]
fn artifact_path_prefers_the_active_file() {
    let i = id(Z);
    assert_eq!(artifact_path("/g/artifacts", &i, true, true), format!("/g/artifacts/{Z}.md"));
    assert_eq!(artifact_path("/g/artifacts", &i, false, true), format!("/g/artifacts/archive/{Z}.md"));
    assert_eq!(artifact_path("/g/artifacts", &i, false, false), format!("/g/artifacts/{Z}.md"));
}

#[test]
fn read_artifact_checks_active_then_archive() {
    let i = id(Z);
    assert_eq!(read_artifact("/g/a", &i, true, true).unwrap(), format!("/g/a/{Z}.md"));
    assert_eq!(read_artifact("/g/a", &i, false, true).unwrap(), format!("/g/a/archive/{Z}.md"));
    assert_eq!(read_artifact("/g/a", &i, false, false).unwrap_err(), format!("Artifact not found: '{Z}'"));
}

#[test]
fn an_iteration_is_resolved_only_in_the_resolved_directory() {
    assert!(is_iteration_resolved(true, false));
    assert!(!is_iteration_resolved(true, true));
    assert!(!is_iteration_resolved(false, false));
}

#[test]
fn persist_moves_entities_between_directories() {
    let i = id(K);
    match persist_entity_update("/g/tasks", &i, true, false) {
        EntityWrite::Move { dest, cleanup } => {
            assert_eq!(dest, format!("/g/tasks/resolved/{K}.toml"));
            assert_eq!(cleanup, format!("/g/tasks/{K}.toml"));
        }
        EntityWrite::InPlace => panic!("expected a move"),
    }
    match persist_entity_update("/g/tasks", &i, false, true) {
        EntityWrite::Move { dest, cleanup } => {
            assert_eq!(dest, format!("/g/tasks/{K}.toml"));
            assert_eq!(cleanup, format!("/g/tasks/resolved/{K}.toml"));
        }
        EntityWrite::InPlace => panic!("expected a move"),
    }
    assert!(matches!(persist_entity_update("/g/tasks", &i, true, true), EntityWrite::InPlace));
    assert!(matches!(persist_entity_update("/g/tasks", &i, false, false), EntityWrite::InPlace));
}

#[test]
fn find_gest_dir_needs_a_directory() {
    assert_eq!(find_gest_dir("/work/proj", true), Some("/work/proj/.gest".to_string()));
    assert_eq!(find_gest_dir("/work/proj", false), None);
}

#[test]
fn iteration_task_references_skip_unparseable_ones() {
    let refs = vec![
        format!("tasks/{K}"),
        Z.to_string(),
        "tasks/nope".to_string(),
        "notes/kkkk".to_string(),
    ];
    let ids = read_iteration_tasks(&refs);
    assert_eq!(ids, vec![id(K), id(Z)]);
}

// ── notes ────────────────────────────────────────────────────────────────

fn note(i: &str, body: &str, created_at: i64) -> Note {
    Note {
        author: "amy".to_string(),
        author_email: None,
        body: body.to_string(),
        created_at,
        id: id(i),
        updated_at: created_at,
    }
}

#[test]
fn list_notes_orders_by_creation_time_stably() {
    let notes = vec![
        note(K, "third", 30),
        note(Z, "first-a", 10),
        note("llllllllllllllllllllllllllllllll", "second", 20),
        note("mmmmmmmmmmmmmmmmmmmmmmmmmmmmmmmm", "first-b", 10),
    ];
    let sorted = list_notes(notes);
    let bodies: Vec<&str> = sorted.iter().map(|n| n.body.as_str()).collect();
    assert_eq!(bodies, vec!["first-a", "first-b", "second", "third"]);
}

#[test]
fn read_note_finds_by_id_or_names_both_ids() {
    let task_id = id("nnnnnnnnnnnnnnnnnnnnnnnnnnnnnnnn");
    let notes = vec![note(K, "a", 1), note(Z, "b", 2)];
    assert_eq!(read_note(notes, &task_id, &id(Z)).unwrap().body, "b");
    let err = read_note(vec![], &task_id, &id(K)).unwrap_err();
    assert_eq!(err, format!("Note {K} not found on task nnnnnnnnnnnnnnnnnnnnnnnnnnnnnnnn"));
}

// ── filters ──────────────────────────────────────────────────────────────

#[test]
fn filters_default_to_active_and_all_includes_terminal() {
    let t = task::Filter::all();
    assert!(t.all && t.assigned_to.is_none() && t.status.is_none() && t.tag.is_none());
    let t = task::Filter::default();
    assert!(!t.all);
    let t = task::Filter { status: Some(TaskStatus::Open), ..task::Filter::default() };
    assert_eq!(t.status, Some(TaskStatus::Open));
    let i = iteration::Filter::all();
    assert!(i.all && !i.has_available && i.status.is_none());
    let i = iteration::Filter { status: Some(IterationStatus::Cancelled), ..iteration::Filter::default() };
    assert_eq!(i.status, Some(IterationStatus::Cancelled));
    let a = artifact::Filter::default();
    assert!(!a.all && !a.only_archived && a.tag.is_none());
}

// ── iteration task references and updates ───────────────────────────────

use gest::store::{
    add_task_ref, iteration_dirs, iteration_update, list_iterations, remove_task_refs, CompletedChange, IterationEntry,
};
use gest::model::iteration::Filter as IterationFilter;

#[test]
fn it_adds_a_task_reference() {
    let mut refs: Vec<String> = vec![];
    assert!(add_task_ref(&mut refs, "tasks/kkkkkkkkkkkkkkkkkkkkkkkkkkkkkkkk"));
    assert_eq!(refs, vec!["tasks/kkkkkkkkkkkkkkkkkkkkkkkkkkkkkkkk"]);
}

#[test]
fn iteration_it_is_idempotent() {
    let mut refs: Vec<String> = vec![];
    add_task_ref(&mut refs, "tasks/kkkkkkkkkkkkkkkkkkkkkkkkkkkkkkkk");
    assert!(!add_task_ref(&mut refs, "tasks/kkkkkkkkkkkkkkkkkkkkkkkkkkkkkkkk"));
    assert_eq!(refs.len(), 1);
}

#[test]
fn it_removes_a_task_reference() {
    let refs = vec!["tasks/kkkkkkkkkkkkkkkkkkkkkkkkkkkkkkkk".to_string()];
    let updated = remove_task_refs(&refs, "tasks/kkkkkkkkkkkkkkkkkkkkkkkkkkkkkkkk");
    assert_eq!(updated.len(), 0);
}

#[test]
fn it_resolves_on_terminal_status() {
    let u = iteration_update(IterationStatus::Active, Some(IterationStatus::Completed), false, false);
    assert_eq!(u.completed, CompletedChange::Stamp);
    assert!(u.is_terminal);
    let i = id(Z);
    assert!(matches!(persist_entity_update("/g/iterations", &i, u.is_terminal, false), EntityWrite::Move { .. }));
}

#[test]
fn it_unresolves_on_active_status() {
    let u = iteration_update(IterationStatus::Completed, Some(IterationStatus::Active), false, true);
    assert_eq!(u.completed, CompletedChange::Clear);
    assert!(!u.is_terminal);
}

#[test]
fn it_appends_status_change_event() {
    let u = iteration_update(IterationStatus::Active, Some(IterationStatus::Completed), true, false);
    assert_eq!(u.status_event, Some(("active".to_string(), "completed".to_string())));
}

#[test]
fn it_generates_no_events_for_same_status() {
    let u = iteration_update(IterationStatus::Active, Some(IterationStatus::Active), true, false);
    assert!(u.status_event.is_none());
}

#[test]
fn it_generates_no_events_without_author() {
    let u = iteration_update(IterationStatus::Active, Some(IterationStatus::Completed), false, false);
    assert!(u.status_event.is_none());
}

#[test]
fn it_writes_to_resolved_not_active() {
    // A resolved iteration updated without a status change stays where it is.
    let u = iteration_update(IterationStatus::Completed, None, false, true);
    assert_eq!(u.completed, CompletedChange::Keep);
    assert!(matches!(persist_entity_update("/g/iterations", &id(Z), u.is_terminal, true), EntityWrite::InPlace));
}

#[test]
fn it_keeps_active_iteration_in_active_dir() {
    let u = iteration_update(IterationStatus::Active, None, false, false);
    assert!(matches!(persist_entity_update("/g/iterations", &id(Z), u.is_terminal, false), EntityWrite::InPlace));
}

fn iteration_entry(id: &str, status: IterationStatus, tags: &[&str]) -> IterationEntry {
    IterationEntry {
        id: Id::parse_str(id).unwrap(),
        title: format!("iteration {id}"),
        status,
        tags: tags.iter().map(|t| t.to_string()).collect(),
    }
}

#[test]
fn list_iterations_filters_by_status_and_tag() {
    let entries = || {
        vec![
            iteration_entry("kkkkkkkkkkkkkkkkkkkkkkkkkkkkkkkk", IterationStatus::Active, &["alpha"]),
            iteration_entry("llllllllllllllllllllllllllllllll", IterationStatus::Cancelled, &["beta"]),
            iteration_entry("mmmmmmmmmmmmmmmmmmmmmmmmmmmmmmmm", IterationStatus::Active, &["beta", "alpha"]),
        ]
    };
    let all = list_iterations(entries(), &IterationFilter::default());
    assert_eq!(all.len(), 3);
    let cancelled = list_iterations(
        entries(),
        &IterationFilter { status: Some(IterationStatus::Cancelled), ..IterationFilter::default() },
    );
    assert_eq!(cancelled.len(), 1);
    assert_eq!(cancelled[0].id.to_string(), "llllllllllllllllllllllllllllllll");
    let beta = list_iterations(entries(), &IterationFilter { tag: Some("beta".to_string()), ..IterationFilter::default() });
    assert_eq!(beta.iter().map(|e| e.id.to_string()).collect::<Vec<_>>(), vec![
        "llllllllllllllllllllllllllllllll".to_string(),
        "mmmmmmmmmmmmmmmmmmmmmmmmmmmmmmmm".to_string()
    ]);
    let both = list_iterations(
        entries(),
        &IterationFilter { status: Some(IterationStatus::Active), tag: Some("beta".to_string()), ..IterationFilter::default() },
    );
    assert_eq!(both.len(), 1);
    assert_eq!(both[0].id.to_string(), "mmmmmmmmmmmmmmmmmmmmmmmmmmmmmmmm");
}

fn titled(id: &str, title: &str, status: IterationStatus, tags: &[&str]) -> IterationEntry {
    IterationEntry {
        id: Id::parse_str(id).unwrap(),
        title: title.to_string(),
        status,
        tags: tags.iter().map(|t| t.to_string()).collect(),
    }
}

#[test]
fn it_excludes_resolved_by_default() {
    let filter = IterationFilter::default();
    let (active_dir, resolved_dir) = iteration_dirs(&filter);
    assert!(active_dir);
    assert!(!resolved_dir);
    // The only iteration sits in the resolved directory, which is not read.
    let iterations = list_iterations(Vec::new(), &filter);
    assert_eq!(iterations.len(), 0);
}

#[test]
fn it_filters_by_cancelled_status() {
    let entries = vec![
        titled("zyxwvutsrqponmlkzyxwvutsrqponmlk", "Active", IterationStatus::Active, &[]),
        titled("kkkkkkkkkkkkkkkkkkkkkkkkkkkkkkkk", "Cancelled", IterationStatus::Cancelled, &[]),
    ];
    let filter = IterationFilter { status: Some(IterationStatus::Cancelled), ..Default::default() };
    let iterations = list_iterations(entries, &filter);
    assert_eq!(iterations.len(), 1);
    assert_eq!(iterations[0].title, "Cancelled");
}

#[test]
fn it_filters_by_tag() {
    let entries = vec![
        titled("zyxwvutsrqponmlkzyxwvutsrqponmlk", "Tagged", IterationStatus::Active, &["sprint"]),
        titled("kkkkkkkkkkkkkkkkkkkkkkkkkkkkkkkk", "Untagged", IterationStatus::Active, &[]),
    ];
    let filter = IterationFilter { tag: Some("sprint".to_string()), ..Default::default() };
    let iterations = list_iterations(entries, &filter);
    assert_eq!(iterations.len(), 1);
    assert_eq!(iterations[0].title, "Tagged");
}

#[test]
fn it_includes_resolved_when_all() {
    let filter = IterationFilter { all: true, ..Default::default() };
    let (active_dir, resolved_dir) = iteration_dirs(&filter);
    assert!(active_dir && resolved_dir);
    let entries = vec![titled("zyxwvutsrqponmlkzyxwvutsrqponmlk", "Resolved", IterationStatus::Completed, &[])];
    let iterations = list_iterations(entries, &filter);
    assert_eq!(iterations.len(), 1);
}

#[test]
fn it_returns_active_iterations() {
    let entries = vec![
        titled("zyxwvutsrqponmlkzyxwvutsrqponmlk", "One", IterationStatus::Active, &[]),
        titled("kkkkkkkkkkkkkkkkkkkkkkkkkkkkkkkk", "Two", IterationStatus::Active, &[]),
    ];
    let iterations = list_iterations(entries, &IterationFilter::default());
    assert_eq!(iterations.len(), 2);
}

#[test]
fn first_unused_skips_colliding_draws() {
    let a = Id::parse_str("kkkkkkkkzzzzzzzzzzzzzzzzzzzzzzzz").unwrap();
    let b = Id::parse_str("llllllllzzzzzzzzzzzzzzzzzzzzzzzz").unwrap();
    let c = Id::parse_str("mmmmmmmmzzzzzzzzzzzzzzzzzzzzzzzz").unwrap();
    let dirs = vec![vec!["kkkkkkkkqqqq".to_string()], vec!["llllllll".to_string(), "other".to_string()]];
    assert_eq!(first_unused(&dirs, &vec![a, b, c]).map(|i| i.to_string()), Some(c.to_string()));
    assert_eq!(first_unused(&dirs, &vec![c, a]).map(|i| i.to_string()), Some(c.to_string()));
    assert!(first_unused(&dirs, &vec![a, b]).is_none());
    assert!(first_unused(&dirs, &Vec::new()).is_none());
    assert_eq!(first_unused(&Vec::new(), &vec![a]).map(|i| i.to_string()), Some(a.to_string()));
}

#[test]
fn resolving_moves_the_iteration_into_resolved() {
    let i = id(K);
    match resolve_iteration_write("/g/iterations", &i) {
        EntityWrite::Move { dest, cleanup } => {
            assert_eq!(dest, format!("/g/iterations/resolved/{K}.toml"));
            assert_eq!(cleanup, format!("/g/iterations/{K}.toml"));
            assert!(is_iteration_resolved(true, false));
        }
        EntityWrite::InPlace => panic!("expected a move"),
    }
}
