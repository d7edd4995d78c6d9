use gest::search::{
    contains_ignore_case, matches_kind_filters, matches_status_filters, matches_tag_filters, search, search_scope, wants_entity_type,
    SearchArtifact, SearchIteration, SearchTask,
};
use gest::search_query::{parse, Filter, ParsedQuery};

fn task(id: &str, title: &str) -> SearchTask {
    SearchTask {
        id: id.parse().unwrap(),
        title: title.to_string(),
        description: String::new(),
        tags: vec![],
        status: "open".to_string(),
        metadata_text: None,
    }
}

fn artifact(id: &str, title: &str, body: &str) -> SearchArtifact {
    SearchArtifact {
        id: id.parse().unwrap(),
        title: title.to_string(),
        body: body.to_string(),
        tags: vec![],
        kind: None,
        metadata_text: None,
    }
}

fn iteration(id: &str, title: &str) -> SearchIteration {
    SearchIteration {
        id: id.parse().unwrap(),
        title: title.to_string(),
        description: String::new(),
        tags: vec![],
        status: "active".to_string(),
        metadata_text: None,
    }
}

const K: &str = "kkkkkkkkkkkkkkkkkkkkkkkkkkkkkkkk";
const L: &str = "llllllllllllllllllllllllllllllll";
const M: &str = "mmmmmmmmmmmmmmmmmmmmmmmmmmmmmmmm";
const N: &str = "nnnnnnnnnnnnnnnnnnnnnnnnnnnnnnnn";
const P: &str = "pppppppppppppppppppppppppppppppp";
const Z: &str = "zyxwvutsrqponmlkzyxwvutsrqponmlk";

#[test]
fn it_finds_artifacts_by_body() {
    let a = artifact(K, "Notes", "This contains a secret keyword");
    let results = search("secret", vec![], vec![a], vec![]);
    assert_eq!(results.artifacts.len(), 1);
    assert_eq!(results.artifacts[0].title, "Notes");
}

#[test]
fn it_finds_iterations_by_description() {
    let mut it = iteration(Z, "Sprint One");
    it.description = "This iteration focuses on the backend refactor".to_string();
    let results = search("refactor", vec![], vec![], vec![it]);
    assert_eq!(results.iterations.len(), 1);
    assert_eq!(results.iterations[0].title, "Sprint One");
}

#[test]
fn it_finds_iterations_by_tag_prefix() {
    let mut it = iteration(Z, "Tagged Iteration");
    it.tags = vec!["release".to_string()];
    let results = search("tag:release", vec![], vec![], vec![it]);
    assert_eq!(results.iterations.len(), 1);
    assert_eq!(results.iterations[0].title, "Tagged Iteration");
}

#[test]
fn it_finds_iterations_by_title() {
    let it = iteration(Z, "Sprint Alpha");
    let results = search("sprint", vec![], vec![], vec![it]);
    assert_eq!(results.iterations.len(), 1);
    assert_eq!(results.iterations[0].title, "Sprint Alpha");
}

#[test]
fn search_it_finds_tasks_by_title() {
    let t = task(Z, "Important Feature");
    let results = search("important", vec![t], vec![], vec![]);
    assert_eq!(results.tasks.len(), 1);
    assert_eq!(results.tasks[0].title, "Important Feature");
}

#[test]
fn it_is_case_insensitive() {
    let t = task(Z, "UPPERCASE Title");
    let results = search("uppercase", vec![t], vec![], vec![]);
    assert_eq!(results.tasks.len(), 1);
}

#[test]
fn it_returns_empty_when_no_match() {
    let t = task(Z, "Some Task");
    let results = search("nonexistent", vec![t], vec![], vec![]);
    assert_eq!(results.tasks.len(), 0);
    assert_eq!(results.artifacts.len(), 0);
    assert_eq!(results.iterations.len(), 0);
}

#[test]
fn it_excludes_entities_with_negated_is_filter() {
    let t = task(K, "My Task");
    let a = artifact(L, "My Artifact", "body");
    let results = search("-is:artifact My", vec![t], vec![a], vec![]);
    assert_eq!(results.tasks.len(), 1);
    assert_eq!(results.artifacts.len(), 0);
}

#[test]
fn it_excludes_entities_with_negated_tag_filter() {
    let mut t = task(K, "Tagged Task");
    t.tags = vec!["wip".to_string()];
    let t2 = task(N, "Other Task");
    let results = search("-tag:wip Task", vec![t, t2], vec![], vec![]);
    assert_eq!(results.tasks.len(), 1);
    assert_eq!(results.tasks[0].title, "Other Task");
}

#[test]
fn it_filters_by_status() {
    let mut t = task(K, "Open Task");
    t.status = "open".to_string();
    let mut t2 = task(N, "Done Task");
    t2.status = "done".to_string();
    let a = artifact(L, "Open Artifact", "body");
    let results = search("status:open", vec![t, t2], vec![a], vec![]);
    assert_eq!(results.tasks.len(), 1);
    assert_eq!(results.tasks[0].title, "Open Task");
    assert_eq!(results.artifacts.len(), 0);
}

#[test]
fn it_filters_tasks_only_with_is_task() {
    let t = task(K, "My Task");
    let a = artifact(L, "My Artifact", "body");
    let it = iteration(M, "My Iteration");
    let results = search("is:task My", vec![t], vec![a], vec![it]);
    assert_eq!(results.tasks.len(), 1);
    assert_eq!(results.artifacts.len(), 0);
    assert_eq!(results.iterations.len(), 0);
}

#[test]
fn it_or_combines_multiple_is_filters() {
    let t = task(K, "My Task");
    let a = artifact(L, "My Artifact", "body");
    let mut it = iteration(M, "My Iteration");
    it.description = "body".to_string();
    let results = search("is:task is:artifact My", vec![t], vec![a], vec![it]);
    assert_eq!(results.tasks.len(), 1);
    assert_eq!(results.artifacts.len(), 1);
    assert_eq!(results.iterations.len(), 0);
}

#[test]
fn search_it_or_combines_multiple_tag_filters() {
    let mut t1 = task(K, "Task A");
    t1.tags = vec!["alpha".to_string()];
    let mut t2 = task(N, "Task B");
    t2.tags = vec!["beta".to_string()];
    let t3 = task(P, "Task C");
    let results = search("tag:alpha tag:beta", vec![t1, t2, t3], vec![], vec![]);
    assert_eq!(results.tasks.len(), 2);
}

#[test]
fn it_and_combines_different_filter_types() {
    let mut t = task(K, "Tagged Open");
    t.tags = vec!["urgent".to_string()];
    t.status = "open".to_string();
    let mut t2 = task(N, "Tagged Done");
    t2.tags = vec!["urgent".to_string()];
    t2.status = "done".to_string();
    let results = search("is:task tag:urgent status:open", vec![t, t2], vec![], vec![]);
    assert_eq!(results.tasks.len(), 1);
    assert_eq!(results.tasks[0].title, "Tagged Open");
}

#[test]
fn it_returns_all_types_with_no_filters() {
    let t = task(K, "Shared Word");
    let a = artifact(L, "Shared Word", "body");
    let it = iteration(M, "Shared Word");
    let results = search("Shared", vec![t], vec![a], vec![it]);
    assert_eq!(results.tasks.len(), 1);
    assert_eq!(results.artifacts.len(), 1);
    assert_eq!(results.iterations.len(), 1);
}

#[test]
fn search_scope_follows_is_filters() {
    assert_eq!(search_scope("hello"), (true, true, true));
    assert_eq!(search_scope("is:task"), (true, false, false));
    assert_eq!(search_scope("-is:iteration"), (true, true, false));
}

#[test]
fn search_matches_metadata_kind_and_tags_as_text() {
    let mut a = artifact(K, "Plain", "nothing here");
    a.kind = Some("Spec".to_string());
    let mut b = artifact(L, "Other", "nothing");
    b.metadata_text = Some("owner = \"Dana\"".to_string());
    let mut c = artifact(M, "Third", "x");
    c.tags = vec!["Backend".to_string()];
    assert_eq!(search("spec", vec![], vec![a], vec![]).artifacts.len(), 1);
    assert_eq!(search("dana", vec![], vec![b], vec![]).artifacts.len(), 1);
    assert_eq!(search("backend", vec![], vec![c], vec![]).artifacts.len(), 1);
}

#[test]
fn contains_ignore_case_compares_lowercase_forms() {
    assert!(contains_ignore_case("Hello World", "world"));
    assert!(contains_ignore_case("abc", ""));
    assert!(!contains_ignore_case("", "a"));
    assert!(!contains_ignore_case("abc", "abcd"));
    assert!(contains_ignore_case("ÄBC", "äb"));
}

#[test]
fn filters_compare_lowercase_tags_and_statuses() {
    let q = parse("tag:backend -status:done");
    assert!(matches_tag_filters(&q, &vec!["Backend".to_string()]));
    assert!(!matches_tag_filters(&q, &vec!["frontend".to_string()]));
    assert!(matches_status_filters(&q, "Open"));
    assert!(!matches_status_filters(&q, "DONE"));
    let q = ParsedQuery { included: vec![Filter::Is("task".to_string())], ..Default::default() };
    assert!(wants_entity_type(&q, "task"));
    assert!(!wants_entity_type(&q, "artifact"));
}

#[test]
fn type_filters_select_artifacts_by_kind() {
    let mut a = artifact(K, "A", "");
    a.kind = Some("spec".to_string());
    let mut b = artifact(L, "B", "");
    b.kind = Some("ADR".to_string());
    let c = artifact(M, "C", "");
    let results = search("type:spec", vec![task(N, "t")], vec![a, b, c], vec![iteration(P, "i")]);
    assert_eq!(results.artifacts.iter().map(|x| x.title.as_str()).collect::<Vec<_>>(), vec!["A"]);
    assert!(results.tasks.is_empty());
    assert!(results.iterations.is_empty());
    let parsed = parse("-type:adr");
    assert!(!matches_kind_filters(&parsed, Some("Adr")));
    assert!(matches_kind_filters(&parsed, Some("spec")));
    assert!(matches_kind_filters(&parsed, None));
    assert!(!matches_kind_filters(&parse("type:spec"), None));
}
