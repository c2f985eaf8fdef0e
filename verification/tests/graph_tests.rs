use beadui::cache::SnapshotCache;
use beadui::graph::DependentsMap;
use beadui::model::{BlockerRef, Issue};
use beadui::save::{collect_failures, save_error_message, save_plan, FieldUpdate, UpdateOutcome};
use beadui::model::GatewayError;

fn blocker(id: &str) -> BlockerRef {
    BlockerRef { id: id.to_string(), title: String::new(), status: "open".to_string() }
}

fn issue(id: &str, deps: &[&str]) -> Issue {
    Issue {
        id: id.to_string(),
        title: format!("Title {}", id),
        description: String::new(),
        status: "open".to_string(),
        priority: 2,
        issue_type: "task".to_string(),
        assignee: None,
        notes: None,
        created_at: String::new(),
        updated_at: String::new(),
        dependencies: deps.iter().map(|d| blocker(d)).collect(),
        source_directory: String::new(),
    }
}

fn strings(items: &[&str]) -> Vec<String> {
    items.iter().map(|s| s.to_string()).collect()
}

fn update(field: &str, value: &str) -> FieldUpdate {
    FieldUpdate { field: field.to_string(), value: value.to_string() }
}

fn outcome(field: &str, result: Result<(), GatewayError>) -> UpdateOutcome {
    UpdateOutcome { field: field.to_string(), result }
}

#[test]
fn dependents_are_the_reverse_of_dependencies() {
    let full = vec![issue("a", &[]), issue("b", &["a"]), issue("c", &["a", "b"]), issue("d", &[])];
    let mut cache = SnapshotCache::new();
    for detail in &full {
        cache.store_fetched(&detail.id, Ok(detail.clone())).unwrap();
    }
    let listed: Vec<Issue> = full.iter().map(|i| issue(&i.id, &[])).collect();
    let graph = DependentsMap::build(&listed, &cache);
    for target in &full {
        let dependents = graph.get(&target.id);
        for other in &full {
            let names_target = other.dependencies.iter().any(|d| d.id == target.id);
            assert_eq!(dependents.contains(&other.id), names_target);
        }
    }
    assert_eq!(graph.get("a"), strings(&["b", "c"]));
    assert_eq!(graph.get("b"), strings(&["c"]));
    assert!(graph.get("c").is_empty());
    assert_eq!(graph.count("a"), 2);
    assert_eq!(graph.count("d"), 0);
    assert_eq!(graph.count("unknown"), 0);
}

#[test]
fn issues_without_remembered_detail_add_no_edge() {
    let mut cache = SnapshotCache::new();
    cache.store_fetched("b", Ok(issue("b", &["a"]))).unwrap();
    let listed = vec![issue("a", &[]), issue("b", &[]), issue("c", &["a"])];
    let graph = DependentsMap::build(&listed, &cache);
    assert_eq!(graph.get("a"), strings(&["b"]));
}

#[test]
fn edges_follow_the_detail_not_the_listing() {
    let mut cache = SnapshotCache::new();
    cache.store_fetched("b", Ok(issue("b", &[]))).unwrap();
    let listed = vec![issue("b", &["a"])];
    let graph = DependentsMap::build(&listed, &cache);
    assert!(graph.get("a").is_empty());
}

#[test]
fn blockers_outside_the_listing_get_dependents_too() {
    let mut cache = SnapshotCache::new();
    cache.store_fetched("b", Ok(issue("b", &["elsewhere", "elsewhere"]))).unwrap();
    let graph = DependentsMap::build(&vec![issue("b", &[])], &cache);
    assert_eq!(graph.get("elsewhere"), strings(&["b", "b"]));
    assert_eq!(graph.count("elsewhere"), 2);
}

#[test]
fn empty_graph_has_no_dependents() {
    let graph = DependentsMap::new();
    assert!(graph.get("a").is_empty());
    assert_eq!(graph.count("a"), 0);
    let built = DependentsMap::build(&vec![], &SnapshotCache::new());
    assert_eq!(built.count("a"), 0);
}

#[test]
fn save_plan_lists_the_changed_fields_in_order() {
    let mut edited = issue("a", &[]);
    edited.title = "New title".to_string();
    edited.status = "in_progress".to_string();
    edited.priority = 0;
    assert_eq!(
        save_plan(&edited),
        vec![update("title", "New title"), update("status", "in_progress"), update("priority", "0")]
    );
    edited.assignee = Some("kim".to_string());
    edited.notes = Some("see log".to_string());
    edited.priority = -2;
    assert_eq!(
        save_plan(&edited),
        vec![
            update("title", "New title"),
            update("status", "in_progress"),
            update("priority", "-2"),
            update("assignee", "kim"),
            update("notes", "see log"),
        ]
    );
    edited.assignee = None;
    assert_eq!(save_plan(&edited).len(), 4);
    assert_eq!(save_plan(&edited)[3], update("notes", "see log"));
}

#[test]
fn failures_are_collected_from_every_field() {
    let outcomes = vec![
        outcome("title", Err(GatewayError::Rejected("too long".to_string()))),
        outcome("status", Ok(())),
        outcome("priority", Err(GatewayError::Unavailable("no bd".to_string()))),
        outcome("notes", Err(GatewayError::Malformed("eof".to_string()))),
    ];
    let lines = collect_failures(&outcomes);
    assert_eq!(
        lines,
        strings(&[
            "title: too long",
            "priority: Failed to execute bd: no bd",
            "notes: Failed to parse JSON: eof",
        ])
    );
    assert_eq!(
        save_error_message(&lines),
        "Failed to save: title: too long, priority: Failed to execute bd: no bd, notes: Failed to parse JSON: eof"
    );
}

#[test]
fn no_failure_gives_no_line() {
    assert!(collect_failures(&vec![outcome("title", Ok(())), outcome("status", Ok(()))]).is_empty());
    assert!(collect_failures(&vec![]).is_empty());
    assert_eq!(save_error_message(&strings(&["assignee: nope"])), "Failed to save: assignee: nope");
}
