use gest::primitives::{Id, TaskStatus};
use gest::search::{SearchArtifact, SearchIteration, SearchResults, SearchTask};
use gest::search_query::parse;
use gest::search_sql::{query_statements, search_sql, SearchTable};
use gest::text::{parse_i64, split_char, trim_str};
use gest::web::{
    api_search_results, artifact_edit, artifact_form_fields, display_link, task_form_fields, iteration_board_columns, phase_groups, parse_u8, split_tags, task_edit, task_list_selection, dashboard_counts, artifact_list_selection, api_render_markdown, task_detail_view, RenderMarkdownBody,
    ArtifactFormData, TaskFormData,
};

const K: &str = "kkkkkkkkkkkkkkkkkkkkkkkkkkkkkkkk";
const Z: &str = "zyxwvutsrqponmlkzyxwvutsrqponmlk";

#[test]
fn task_form_reads_repeated_link_fields() {
    let form = TaskFormData::from_bytes(
        b"title=Fix+login&description=a%20b&tags=x,y&priority=2&link_rel[]=blocks&link_ref[]=tasks/abc&link_rel[]=relates-to&link_ref[]=https://x.io&title=Second",
    );
    assert_eq!(form.title, "Second");
    assert_eq!(form.description, "a b");
    assert_eq!(form.tags, "x,y");
    assert_eq!(form.priority, "2");
    assert_eq!(form.link_rels, vec!["blocks", "relates-to"]);
    assert_eq!(form.link_refs, vec!["tasks/abc", "https://x.io"]);
    let empty = TaskFormData::from_bytes(b"");
    assert_eq!(empty.title, "");
    assert!(empty.link_rels.is_empty());
}

#[test]
fn task_edit_requires_a_title_and_cleans_fields() {
    let form = TaskFormData::from_bytes(b"title=++&tags=a");
    assert_eq!(task_edit(&form).unwrap_err(), "Title is required");
    let form = TaskFormData::from_bytes(b"title=+Ship+it+&description=d&tags=a,+b+,,c&priority=+3+");
    let edit = task_edit(&form).unwrap();
    assert_eq!(edit.title, "Ship it");
    assert_eq!(edit.description, "d");
    assert_eq!(edit.tags, vec!["a", "b", "c"]);
    assert_eq!(edit.priority, Some(3));
    let form = TaskFormData::from_bytes(b"title=t&priority=high");
    assert_eq!(task_edit(&form).unwrap().priority, None);
    let form = TaskFormData::from_bytes(b"title=t&priority=");
    assert_eq!(task_edit(&form).unwrap().priority, None);
}

#[test]
fn artifact_edit_requires_a_title() {
    let form = ArtifactFormData { title: " ".into(), kind: "spec".into(), tags: "".into(), body: "b".into() };
    assert_eq!(artifact_edit(&form).unwrap_err(), "Title is required.");
    let form = ArtifactFormData { title: " Plan ".into(), kind: "  ".into(), tags: "x, y".into(), body: "b".into() };
    let edit = artifact_edit(&form).unwrap();
    assert_eq!(edit.title, "Plan");
    assert_eq!(edit.kind, None);
    assert_eq!(edit.tags, vec!["x", "y"]);
    assert_eq!(edit.body, "b");
}

#[test]
fn numbers_parse_like_std() {
    assert_eq!(parse_u8("255"), Some(255));
    assert_eq!(parse_u8("256"), None);
    assert_eq!(parse_u8("+7"), Some(7));
    assert_eq!(parse_u8("-0"), None);
    assert_eq!(parse_u8(""), None);
    assert_eq!(parse_u8("0012"), Some(12));
    assert_eq!(parse_i64("-9223372036854775808"), Some(i64::MIN));
    assert_eq!(parse_i64("9223372036854775808"), None);
    assert_eq!(parse_i64("+"), None);
    assert_eq!(parse_i64("12a"), None);
}

#[test]
fn text_helpers_split_and_trim() {
    assert_eq!(split_char("a..b", '.'), vec!["a", "", "b"]);
    assert_eq!(split_char("", '.'), vec![""]);
    assert_eq!(trim_str("\u{3000} hi \t"), "hi");
    assert_eq!(split_tags(" , ,"), Vec::<String>::new());
}

#[test]
fn task_list_selects_by_status_parameter() {
    let statuses = vec![TaskStatus::Open, TaskStatus::Done, TaskStatus::InProgress, TaskStatus::Done];
    let sel = task_list_selection(&statuses, Some("done"));
    assert_eq!(sel.current_status, TaskStatus::Done);
    assert_eq!(sel.shown, vec![1, 3]);
    assert_eq!((sel.open_count, sel.in_progress_count, sel.done_count, sel.cancelled_count), (1, 1, 2, 0));
    let sel = task_list_selection(&statuses, Some("in_progress"));
    assert_eq!(sel.shown, vec![2]);
    let sel = task_list_selection(&statuses, Some("bogus"));
    assert_eq!(sel.current_status, TaskStatus::Open);
    let sel = task_list_selection(&statuses, None);
    assert_eq!(sel.shown, vec![0]);
}

#[test]
fn links_are_shown_by_kind() {
    let l = display_link("blocks", &format!("tasks/{K}"));
    assert_eq!(l.href, Some(format!("/tasks/{K}")));
    assert_eq!(l.display_text, "kkkkkkkk");
    assert_eq!(l.rel, "blocks");
    let l = display_link("relates-to", "artifacts/abc");
    assert_eq!(l.href, Some("/artifacts/abc".to_string()));
    assert_eq!(l.display_text, "abc");
    let l = display_link("relates-to", "https://example.com");
    assert_eq!(l.href, Some("https://example.com".to_string()));
    assert_eq!(l.display_text, "https://example.com");
    let l = display_link("relates-to", "see notes");
    assert_eq!(l.href, None);
    assert_eq!(l.display_text, "see notes");
}

#[test]
fn api_results_list_tasks_artifacts_then_iterations() {
    let id: Id = Z.parse().unwrap();
    let results = SearchResults {
        tasks: vec![SearchTask {
            id,
            title: "T".into(),
            description: String::new(),
            tags: vec![],
            status: "open".into(),
            metadata_text: None,
        }],
        artifacts: vec![SearchArtifact {
            id: K.parse().unwrap(),
            title: "A".into(),
            body: String::new(),
            tags: vec![],
            kind: None,
            metadata_text: None,
        }],
        iterations: vec![SearchIteration {
            id,
            title: "I".into(),
            description: String::new(),
            tags: vec![],
            status: "active".into(),
            metadata_text: None,
        }],
    };
    let items = api_search_results(&results);
    let kinds: Vec<&str> = items.iter().map(|i| i.kind.as_str()).collect();
    assert_eq!(kinds, vec!["task", "artifact", "iteration"]);
    assert_eq!(items[0].short_id, "zyxwvuts");
    assert_eq!(items[1].id, K);
    assert_eq!(items[2].title, "I");
}

#[test]
fn search_sql_builds_the_where_clause() {
    let pid: Id = Z.parse().unwrap();
    let q = parse("tag:a tag:b -tag:c status:open -status:done fix bug");
    let (sql, params) = search_sql(&q, &pid, SearchTable::Tasks, false).unwrap();
    let exists = |i: usize| {
        format!(
            "EXISTS (SELECT 1 FROM entity_tags JOIN tags ON tags.id = entity_tags.tag_id WHERE tags.label = ?{i} AND entity_tags.entity_id = tasks.id AND entity_tags.entity_type = 'task')"
        )
    };
    let expected = format!(
        "SELECT id, project_id, assigned_to, created_at, description, metadata, priority, resolved_at, status, title, updated_at FROM tasks WHERE project_id = ?1 AND resolved_at IS NULL AND ({} OR {}) AND NOT {} AND LOWER(status) IN (?5) AND LOWER(status) NOT IN (?6) AND (title LIKE ?7 OR description LIKE ?7) ORDER BY created_at DESC",
        exists(2),
        exists(3),
        exists(4)
    );
    assert_eq!(sql, expected);
    assert_eq!(params, vec![Z, "a", "b", "c", "open", "done", "%fix bug%"]);
}

#[test]
fn search_sql_skips_artifacts_for_status_filters() {
    let pid: Id = Z.parse().unwrap();
    assert!(search_sql(&parse("status:open"), &pid, SearchTable::Artifacts, true).is_none());
    let (sql, params) = search_sql(&parse("-status:open"), &pid, SearchTable::Artifacts, true).unwrap();
    assert_eq!(
        sql,
        "SELECT id, project_id, archived_at, body, created_at, metadata, title, updated_at FROM artifacts WHERE project_id = ?1 ORDER BY created_at DESC"
    );
    assert_eq!(params, vec![Z]);
    let (sql, _) = search_sql(&parse("x"), &pid, SearchTable::Iterations, false).unwrap();
    assert!(sql.contains("status NOT IN ('completed', 'cancelled') AND (title LIKE ?2 OR description LIKE ?2)"));
}

#[test]
fn board_columns_and_phase_groups() {
    let statuses = vec![TaskStatus::Done, TaskStatus::Open, TaskStatus::Cancelled, TaskStatus::Open];
    let cols = iteration_board_columns(&statuses);
    assert_eq!(cols.open, vec![1, 3]);
    assert_eq!(cols.in_progress, Vec::<usize>::new());
    assert_eq!(cols.done, vec![0]);
    assert_eq!(cols.cancelled, vec![2]);
    let groups = phase_groups(&vec![Some(2), None, Some(1), Some(2), Some(0)]);
    let shape: Vec<(u16, Vec<usize>)> = groups.into_iter().map(|g| (g.number, g.tasks)).collect();
    assert_eq!(shape, vec![(0, vec![1, 4]), (1, vec![2]), (2, vec![0, 3])]);
    assert!(phase_groups(&vec![]).is_empty());
}

#[test]
fn edit_forms_start_from_joined_fields() {
    let tags = vec!["a".to_string(), "b c".to_string()];
    assert_eq!(task_form_fields(&tags, Some(12)), ("a, b c".to_string(), "12".to_string()));
    assert_eq!(task_form_fields(&vec![], None), (String::new(), String::new()));
    assert_eq!(artifact_form_fields(&tags, &Some("spec".to_string())), ("a, b c".to_string(), "spec".to_string()));
    assert_eq!(artifact_form_fields(&vec![], &None), (String::new(), String::new()));
}

#[test]
fn dashboard_counts_every_task_once() {
    let statuses = vec![
        TaskStatus::Open,
        TaskStatus::Done,
        TaskStatus::Open,
        TaskStatus::Cancelled,
        TaskStatus::InProgress,
        TaskStatus::Done,
    ];
    let d = dashboard_counts(&statuses, 4, 2);
    assert_eq!(d.task_count, 6);
    assert_eq!(d.artifact_count, 4);
    assert_eq!(d.iteration_count, 2);
    assert_eq!(d.open_count, 2);
    assert_eq!(d.in_progress_count, 1);
    assert_eq!(d.done_count, 2);
    assert_eq!(d.cancelled_count, 1);
    let empty = dashboard_counts(&Vec::new(), 0, 0);
    assert_eq!(empty.task_count, 0);
    assert_eq!(empty.open_count, 0);
}

#[test]
fn artifact_list_selection_splits_open_and_archived() {
    let archived = vec![false, true, false, true, true];
    let sel = artifact_list_selection(&archived, None);
    assert_eq!(sel.current_status, "open");
    assert_eq!(sel.open_count, 2);
    assert_eq!(sel.archived_count, 3);
    assert_eq!(sel.shown, vec![0, 2]);
    let sel = artifact_list_selection(&archived, Some("archived"));
    assert_eq!(sel.current_status, "archived");
    assert_eq!(sel.shown, vec![1, 3, 4]);
    let sel = artifact_list_selection(&archived, Some("whatever"));
    assert_eq!(sel.current_status, "whatever");
    assert_eq!(sel.shown, vec![0, 2]);
}

#[test]
fn api_render_markdown_renders_html() {
    let html = api_render_markdown(&RenderMarkdownBody { body: "**bold** and ~~gone~~".to_string() });
    assert_eq!(html, "<p><strong>bold</strong> and <del>gone</del></p>\n");
    assert_eq!(api_render_markdown(&RenderMarkdownBody { body: String::new() }), "");
}

#[test]
fn task_detail_view_renders_description_and_links() {
    let links = vec![
        ("blocks".to_string(), "tasks/abcdefghijklmnop".to_string()),
        ("relates-to".to_string(), "https://example.com".to_string()),
    ];
    let view = task_detail_view("# Title", &vec!["x".to_string()], &links);
    assert!(view.is_blocked);
    assert_eq!(view.description_html, "<h1>Title</h1>\n");
    assert_eq!(view.display_links.len(), 2);
    assert_eq!(view.display_links[0].display_text, "abcdefgh");
    assert_eq!(view.display_links[0].href.as_deref(), Some("/tasks/abcdefghijklmnop"));
    assert_eq!(view.display_links[1].href.as_deref(), Some("https://example.com"));
    let free = task_detail_view("", &Vec::new(), &Vec::new());
    assert!(!free.is_blocked);
    assert!(free.display_links.is_empty());
}

#[test]
fn query_statements_follow_the_is_filters() {
    let pid = Id::parse_str(K).unwrap();
    let all = query_statements(&parse("hello"), &pid, false);
    assert_eq!(all.iter().map(|s| s.0).collect::<Vec<_>>(), vec![SearchTable::Tasks, SearchTable::Artifacts, SearchTable::Iterations]);
    let (sql, params) = search_sql(&parse("hello"), &pid, SearchTable::Artifacts, false).unwrap();
    assert_eq!(all[1].1, sql);
    assert_eq!(all[1].2, params);
    let tasks = query_statements(&parse("is:task"), &pid, false);
    assert_eq!(tasks.len(), 1);
    assert_eq!(tasks[0].0, SearchTable::Tasks);
    let no_artifacts = query_statements(&parse("status:open"), &pid, true);
    assert_eq!(no_artifacts.iter().map(|s| s.0).collect::<Vec<_>>(), vec![SearchTable::Tasks, SearchTable::Iterations]);
    let none = query_statements(&parse("-is:task -is:artifact -is:iteration"), &pid, false);
    assert!(none.is_empty());
}

#[test]
fn internal_link_text_is_cut_at_eight_bytes() {
    let l = display_link("blocks", "tasks/ééééé");
    assert_eq!(l.display_text, "éééé");
    let l = display_link("blocks", "tasks/abcdefgh");
    assert_eq!(l.display_text, "abcdefgh");
    let l = display_link("blocks", "tasks/abcdefghi");
    assert_eq!(l.display_text, "abcdefgh");
}
