use beadui::cache::Lookup;
use beadui::config::AppConfig;
use beadui::model::{BlockerRef, DirectoryConfig, GatewayError, Issue, SortColumn};
use beadui::readiness::Readiness;
use beadui::save::{FieldUpdate, UpdateOutcome};
use beadui::session::{next_visible, Action, Event, Phase, Session};
use beadui::strmap::StrMap;

fn dir(path: &str, visible: bool, display_name: &str) -> DirectoryConfig {
    DirectoryConfig { path: path.to_string(), visible, display_name: display_name.to_string() }
}

fn blocker(id: &str, status: &str) -> BlockerRef {
    BlockerRef { id: id.to_string(), title: String::new(), status: status.to_string() }
}

fn issue(id: &str, status: &str, priority: i32, deps: Vec<BlockerRef>) -> Issue {
    Issue {
        id: id.to_string(),
        title: format!("Title {}", id),
        description: String::new(),
        status: status.to_string(),
        priority,
        issue_type: "task".to_string(),
        assignee: None,
        notes: None,
        created_at: String::new(),
        updated_at: String::new(),
        dependencies: deps,
        source_directory: String::new(),
    }
}

fn strings(items: &[&str]) -> Vec<String> {
    items.iter().map(|s| s.to_string()).collect()
}

struct Store {
    listings: Vec<(String, Result<Vec<Issue>, GatewayError>)>,
    details: Vec<Issue>,
    list_calls: Vec<String>,
    get_calls: Vec<(String, Option<String>)>,
}

impl Store {
    fn new() -> Self {
        Store { listings: Vec::new(), details: Vec::new(), list_calls: Vec::new(), get_calls: Vec::new() }
    }

    fn with(mut self, path: &str, full: Vec<Issue>) -> Self {
        let partial = full.iter().map(|i| issue(&i.id, &i.status, i.priority, vec![])).collect();
        self.listings.push((path.to_string(), Ok(partial)));
        self.details.extend(full);
        self
    }

    fn failing(mut self, path: &str, error: GatewayError) -> Self {
        self.listings.push((path.to_string(), Err(error)));
        self
    }

    fn list(&mut self, path: &str) -> Result<Vec<Issue>, GatewayError> {
        self.list_calls.push(path.to_string());
        match self.listings.iter().find(|(p, _)| p == path) {
            Some((_, answer)) => answer.clone(),
            None => Err(GatewayError::Unavailable("unknown path".to_string())),
        }
    }

    fn get(&mut self, id: &str, hint: Option<String>) -> Result<Issue, GatewayError> {
        self.get_calls.push((id.to_string(), hint));
        match self.details.iter().find(|i| i.id == id) {
            Some(found) => Ok(found.clone()),
            None => Err(GatewayError::Rejected(format!("no issue {}", id))),
        }
    }
}

fn drive(session: &mut Session, store: &mut Store, first: Event) {
    let mut event = first;
    loop {
        match session.step(event) {
            Action::List { path } => event = Event::Listed(store.list(&path)),
            Action::Fetch { id, db_path } => event = Event::Fetched(store.get(&id, db_path)),
            Action::Done => return,
        }
    }
}

fn two_directories() -> AppConfig {
    AppConfig {
        directories: vec![dir("/srv/one", true, "one"), dir("/srv/two", true, "two")],
        sidebar_collapsed: false,
    }
}

fn sample_store() -> Store {
    Store::new()
        .with(
            "/srv/one",
            vec![
                issue("a", "open", 3, vec![]),
                issue("b", "open", 1, vec![blocker("a", "open")]),
            ],
        )
        .with(
            "/srv/two",
            vec![
                issue("c", "in_progress", 4, vec![blocker("a", "open"), blocker("d", "closed")]),
                issue("d", "closed", 0, vec![]),
                issue("e", "open", 0, vec![blocker("d", "closed")]),
            ],
        )
}

fn view_ids(session: &Session) -> Vec<String> {
    session.filtered_and_sorted_issues().iter().map(|r| r.issue.id.clone()).collect()
}

#[test]
fn new_session_is_idle_and_empty() {
    let session = Session::new(two_directories());
    assert!(session.issues.is_empty());
    assert_eq!(session.selected_index, None);
    assert_eq!(session.filter_text, "");
    assert_eq!(session.error_message, None);
    assert_eq!(session.sort_by, SortColumn::Priority);
    assert!(session.sort_ascending);
    assert_eq!(session.current_issue, None);
    assert!(!session.edit_modified);
    assert_eq!(session.phase, Phase::Idle);
    assert!(session.column_filters.is_filtered(SortColumn::Status, "closed"));
    assert!(session.filtered_and_sorted_issues().is_empty());
}

#[test]
fn refresh_lists_then_loads_every_detail_once() {
    let mut session = Session::new(two_directories());
    let mut store = sample_store();
    drive(&mut session, &mut store, Event::Refresh);
    assert_eq!(session.phase, Phase::Idle);
    assert_eq!(store.list_calls, strings(&["/srv/one", "/srv/two"]));
    let ids: Vec<&str> = session.issues.iter().map(|i| i.id.as_str()).collect();
    assert_eq!(ids, vec!["a", "b", "c", "d", "e"]);
    let sources: Vec<&str> = session.issues.iter().map(|i| i.source_directory.as_str()).collect();
    assert_eq!(sources, vec!["one", "one", "two", "two", "two"]);
    assert_eq!(
        store.get_calls,
        vec![
            ("a".to_string(), Some("/srv/one".to_string())),
            ("b".to_string(), Some("/srv/one".to_string())),
            ("c".to_string(), Some("/srv/two".to_string())),
            ("d".to_string(), Some("/srv/two".to_string())),
            ("e".to_string(), Some("/srv/two".to_string())),
        ]
    );
    assert_eq!(session.dependents_map.get("a"), strings(&["b", "c"]));
    assert_eq!(session.dependents_map.get("d"), strings(&["c", "e"]));
    assert_eq!(session.get_dependents_count("a"), 2);
    assert_eq!(session.get_blockers_count("c"), 1);
    assert_eq!(session.get_blockers_count("e"), 0);
}

#[test]
fn queries_after_refresh_take_no_fetch() {
    let mut session = Session::new(two_directories());
    let mut store = sample_store();
    drive(&mut session, &mut store, Event::Refresh);
    let fetched = store.get_calls.len();
    drive(&mut session, &mut store, Event::Prefetch);
    session.filtered_and_sorted_issues();
    assert!(matches!(session.lookup("a"), Lookup::Cached(_)));
    assert_eq!(store.get_calls.len(), fetched);
    drive(&mut session, &mut store, Event::Refresh);
    assert_eq!(store.get_calls.len(), 2 * fetched);
}

#[test]
fn readiness_and_columns_of_listed_issues() {
    let mut session = Session::new(two_directories());
    let mut store = sample_store();
    drive(&mut session, &mut store, Event::Refresh);
    let readiness: Vec<Readiness> =
        session.issues.iter().map(|i| session.get_readiness(i)).collect();
    assert_eq!(
        readiness,
        vec![
            Readiness::Ready,
            Readiness::Blocked,
            Readiness::InProgress,
            Readiness::Closed,
            Readiness::Ready,
        ]
    );
    let b = session.issues[1].clone();
    assert_eq!(session.get_column_value(&b, SortColumn::Status), "blocked");
    assert_eq!(session.get_column_value(&b, SortColumn::Blockers), "1");
    assert_eq!(session.get_column_value(&b, SortColumn::Directory), "one");
    let a = session.issues[0].clone();
    assert_eq!(session.get_column_value(&a, SortColumn::Dependents), "2");
    assert_eq!(session.get_column_value(&a, SortColumn::Assignee), "-");
    assert_eq!(session.get_column_cardinality(SortColumn::Status), 4);
    assert_eq!(session.get_column_cardinality(SortColumn::Directory), 2);
    assert_eq!(session.get_column_cardinality(SortColumn::Id), 5);
    assert_eq!(
        session.filter_menu(SortColumn::Status),
        Some(strings(&["blocked", "closed", "in_progress", "ready"]))
    );
    assert_eq!(session.filter_menu(SortColumn::Id), None);
}

#[test]
fn default_view_hides_closed_and_sorts_by_priority() {
    let mut session = Session::new(two_directories());
    let mut store = sample_store();
    drive(&mut session, &mut store, Event::Refresh);
    let view = session.filtered_and_sorted_issues();
    let ids: Vec<&str> = view.iter().map(|r| r.issue.id.as_str()).collect();
    assert_eq!(ids, vec!["e", "b", "a", "c"]);
    let positions: Vec<usize> = view.iter().map(|r| r.original_idx).collect();
    assert_eq!(positions, vec![4, 1, 0, 2]);
    assert_eq!(view[1].readiness, Readiness::Blocked);
    assert_eq!(view[1].blockers_count, 1);
    assert_eq!(view[2].dependents_count, 2);
    assert_eq!(view[0].issue.source_directory, "two");
}

#[test]
fn sort_toggle_flips_then_resets() {
    let config = AppConfig { directories: vec![dir("/srv/one", true, "one")], sidebar_collapsed: false };
    let mut session = Session::new(config);
    let mut store = Store::new().with(
        "/srv/one",
        vec![
            issue("w", "open", 3, vec![]),
            issue("x", "open", 1, vec![]),
            issue("y", "open", 4, vec![]),
            issue("z", "open", 0, vec![]),
        ],
    );
    drive(&mut session, &mut store, Event::Refresh);
    let priorities = |s: &Session| -> Vec<i32> {
        s.filtered_and_sorted_issues().iter().map(|r| r.issue.priority).collect()
    };
    assert_eq!(priorities(&session), vec![0, 1, 3, 4]);
    session.sort_by_column(SortColumn::Priority);
    assert_eq!(session.sort_by, SortColumn::Priority);
    assert!(!session.sort_ascending);
    assert_eq!(priorities(&session), vec![4, 3, 1, 0]);
    session.sort_by_column(SortColumn::Id);
    assert_eq!(session.sort_by, SortColumn::Id);
    assert!(session.sort_ascending);
    assert_eq!(view_ids(&session), strings(&["w", "x", "y", "z"]));
    session.sort_by_column(SortColumn::Id);
    assert!(!session.sort_ascending);
    session.sort_by_column(SortColumn::Id);
    assert!(session.sort_ascending);
}

#[test]
fn filters_on_status_and_priority_compose() {
    let mut session = Session::new(two_directories());
    let mut store = sample_store();
    drive(&mut session, &mut store, Event::Refresh);
    session.toggle_filter(SortColumn::Priority, "P3".to_string());
    assert_eq!(view_ids(&session), strings(&["e", "b", "c"]));
    session.toggle_filter(SortColumn::Status, "closed".to_string());
    assert_eq!(view_ids(&session), strings(&["d", "e", "b", "c"]));
    session.toggle_filter(SortColumn::Priority, "P0".to_string());
    assert_eq!(view_ids(&session), strings(&["b", "c"]));
    session.toggle_filter(SortColumn::Priority, "P3".to_string());
    session.toggle_filter(SortColumn::Priority, "P0".to_string());
    assert_eq!(view_ids(&session), strings(&["d", "e", "b", "a", "c"]));
}

#[test]
fn text_search_is_case_insensitive() {
    let mut session = Session::new(two_directories());
    let mut store = sample_store();
    drive(&mut session, &mut store, Event::Refresh);
    session.set_filter_text("TITLE B".to_string());
    assert_eq!(view_ids(&session), strings(&["b"]));
    session.set_filter_text("Blocked".to_string());
    assert_eq!(view_ids(&session), strings(&["b"]));
    session.set_filter_text("in_pro".to_string());
    assert_eq!(view_ids(&session), strings(&["c"]));
    session.set_filter_text("no such thing".to_string());
    assert!(view_ids(&session).is_empty());
    session.set_filter_text(String::new());
    assert_eq!(view_ids(&session).len(), 4);
}

#[test]
fn failing_directory_is_skipped() {
    let config = AppConfig {
        directories: vec![
            dir("/srv/broken", true, "broken"),
            dir("/srv/hidden", false, "hidden"),
            dir("/srv/one", true, ""),
        ],
        sidebar_collapsed: false,
    };
    let mut session = Session::new(config);
    let mut store = Store::new()
        .failing("/srv/broken", GatewayError::Rejected("corrupt".to_string()))
        .with("/srv/hidden", vec![issue("h", "open", 1, vec![])])
        .with("/srv/one", vec![issue("a", "open", 1, vec![])]);
    session.error_message = Some("old".to_string());
    drive(&mut session, &mut store, Event::Refresh);
    assert_eq!(store.list_calls, strings(&["/srv/broken", "/srv/one"]));
    assert_eq!(session.issues.len(), 1);
    assert_eq!(session.issues[0].id, "a");
    assert_eq!(session.issues[0].source_directory, "one");
    assert_eq!(store.get_calls, vec![("a".to_string(), Some("/srv/one".to_string()))]);
    assert_eq!(session.error_message, None);
}

#[test]
fn refresh_without_visible_directories_finishes_at_once() {
    let config = AppConfig { directories: vec![dir("/srv/hidden", false, "h")], sidebar_collapsed: false };
    let mut session = Session::new(config);
    session.issues = vec![issue("stale", "open", 1, vec![])];
    assert_eq!(session.step(Event::Refresh), Action::Done);
    assert!(session.issues.is_empty());
    assert_eq!(session.phase, Phase::Idle);
    let mut empty = Session::new(AppConfig::default());
    assert_eq!(empty.step(Event::Refresh), Action::Done);
}

#[test]
fn steps_of_a_refresh_one_by_one() {
    let mut session = Session::new(two_directories());
    assert_eq!(session.step(Event::Refresh), Action::List { path: "/srv/one".to_string() });
    assert_eq!(session.phase, Phase::Listing { dir: 0 });
    let listed = session.step(Event::Listed(Ok(vec![issue("a", "open", 1, vec![])])));
    assert_eq!(listed, Action::List { path: "/srv/two".to_string() });
    assert_eq!(session.phase, Phase::Listing { dir: 1 });
    let next = session.step(Event::Listed(Err(GatewayError::Unavailable("x".to_string()))));
    assert_eq!(next, Action::Fetch { id: "a".to_string(), db_path: Some("/srv/one".to_string()) });
    assert_eq!(session.phase, Phase::Loading { issue: 0, rebuild: true });
    let full = issue("a", "open", 1, vec![blocker("z", "open")]);
    assert_eq!(session.step(Event::Fetched(Ok(full))), Action::Done);
    assert_eq!(session.phase, Phase::Idle);
    assert_eq!(session.dependents_map.get("z"), strings(&["a"]));
}

#[test]
fn failed_fetch_is_retried_by_prefetch_only() {
    let config = AppConfig { directories: vec![dir("/srv/one", true, "one")], sidebar_collapsed: false };
    let mut session = Session::new(config);
    let mut store = Store::new().with("/srv/one", vec![issue("a", "open", 1, vec![])]);
    store.details.clear();
    drive(&mut session, &mut store, Event::Refresh);
    assert_eq!(store.get_calls.len(), 1);
    assert_eq!(session.phase, Phase::Idle);
    assert!(matches!(session.lookup("a"), Lookup::Fetch { .. }));
    assert_eq!(session.get_blockers_count("a"), 0);
    assert_eq!(session.get_readiness(&session.issues[0]), Readiness::Ready);
    store.details.push(issue("a", "open", 1, vec![blocker("q", "open")]));
    drive(&mut session, &mut store, Event::Prefetch);
    assert_eq!(store.get_calls.len(), 2);
    assert_eq!(session.get_blockers_count("a"), 1);
    assert_eq!(session.get_readiness(&session.issues[0]), Readiness::Blocked);
    assert_eq!(session.get_dependents_count("q"), 0);
    session.compute_dependents_map();
    assert_eq!(session.get_dependents_count("q"), 1);
}

#[test]
fn unexpected_events_change_nothing() {
    let mut session = Session::new(two_directories());
    assert_eq!(session.step(Event::Listed(Ok(vec![issue("a", "open", 1, vec![])]))), Action::Done);
    assert!(session.issues.is_empty());
    assert_eq!(session.step(Event::Fetched(Ok(issue("a", "open", 1, vec![])))), Action::Done);
    assert!(matches!(session.lookup("a"), Lookup::Fetch { .. }));
    assert_eq!(session.phase, Phase::Idle);
    session.step(Event::Refresh);
    assert_eq!(session.phase, Phase::Listing { dir: 0 });
    assert_eq!(session.step(Event::Prefetch), Action::Done);
    assert_eq!(session.phase, Phase::Listing { dir: 0 });
    assert_eq!(session.step(Event::Fetched(Ok(issue("a", "open", 1, vec![])))), Action::Done);
    assert_eq!(session.phase, Phase::Listing { dir: 0 });
}

#[test]
fn source_registration_follows_the_directory_names() {
    let config = AppConfig {
        directories: vec![dir("/srv/one", true, "one"), dir("/srv/plain", true, "")],
        sidebar_collapsed: false,
    };
    let mut session = Session::new(config);
    let mut first = issue("a", "open", 1, vec![]);
    first.source_directory = "one".to_string();
    let mut second = issue("b", "open", 1, vec![]);
    second.source_directory = "plain".to_string();
    let mut third = issue("c", "open", 1, vec![]);
    third.source_directory = "elsewhere".to_string();
    session.issues = vec![first, second, third];
    session.register_sources();
    assert_eq!(session.lookup("a"), Lookup::Fetch { db_path: Some("/srv/one".to_string()) });
    assert_eq!(session.lookup("b"), Lookup::Fetch { db_path: Some("/srv/plain".to_string()) });
    assert_eq!(session.lookup("c"), Lookup::Fetch { db_path: None });
    assert_eq!(session.next_missing(0), 0);
    assert_eq!(session.next_missing(3), 3);
}

#[test]
fn next_visible_skips_hidden_directories() {
    let directories = vec![dir("/a", false, ""), dir("/b", true, ""), dir("/c", false, "")];
    assert_eq!(next_visible(&directories, 0), 1);
    assert_eq!(next_visible(&directories, 1), 1);
    assert_eq!(next_visible(&directories, 2), 3);
    assert_eq!(next_visible(&directories, 7), 3);
    assert_eq!(next_visible(&vec![], 0), 0);
}

#[test]
fn selection_moves_within_the_list() {
    let mut session = Session::new(AppConfig::default());
    session.select_next();
    assert_eq!(session.selected_index, None);
    session.select_previous();
    assert_eq!(session.selected_index, None);
    session.issues = vec![issue("a", "open", 1, vec![]), issue("b", "open", 1, vec![])];
    session.select_next();
    assert_eq!(session.selected_index, Some(0));
    session.select_next();
    assert_eq!(session.selected_index, Some(1));
    session.select_next();
    assert_eq!(session.selected_index, Some(1));
    session.select_previous();
    assert_eq!(session.selected_index, Some(0));
    session.select_previous();
    assert_eq!(session.selected_index, Some(0));
    session.select(None);
    assert_eq!(session.selected_index, None);
    session.select(Some(1));
    assert_eq!(session.selected_index, Some(1));
    assert_eq!(session.find_issue("b"), Some(1));
    assert_eq!(session.find_issue("zz"), None);
}

#[test]
fn detail_is_shown_or_its_failure() {
    let mut session = Session::new(AppConfig::default());
    assert!(session.needs_detail("a"));
    session.edit_modified = true;
    session.error_message = Some("old".to_string());
    session.show_detail(Ok(issue("a", "open", 1, vec![])));
    assert_eq!(session.current_issue, Some(issue("a", "open", 1, vec![])));
    assert!(!session.edit_modified);
    assert_eq!(session.error_message, None);
    assert!(!session.needs_detail("a"));
    assert!(session.needs_detail("b"));
    session.show_detail(Err(GatewayError::Rejected("not found".to_string())));
    assert_eq!(session.current_issue, None);
    assert_eq!(session.error_message, Some("Error loading issue: not found".to_string()));
    session.show_detail(Ok(issue("a", "open", 1, vec![])));
    session.edit_modified = true;
    session.close_detail();
    assert_eq!(session.current_issue, None);
    assert!(!session.edit_modified);
}

#[test]
fn pending_updates_come_from_the_edited_issue() {
    let mut session = Session::new(AppConfig::default());
    assert!(session.pending_updates().is_empty());
    let mut edited = issue("a", "open", 2, vec![]);
    edited.assignee = Some("kim".to_string());
    session.current_issue = Some(edited);
    assert_eq!(
        session.pending_updates(),
        vec![
            FieldUpdate { field: "title".to_string(), value: "Title a".to_string() },
            FieldUpdate { field: "status".to_string(), value: "open".to_string() },
            FieldUpdate { field: "priority".to_string(), value: "2".to_string() },
            FieldUpdate { field: "assignee".to_string(), value: "kim".to_string() },
        ]
    );
}

fn outcome(field: &str, result: Result<(), GatewayError>) -> UpdateOutcome {
    UpdateOutcome { field: field.to_string(), result }
}

#[test]
fn failed_save_keeps_the_edit_and_does_not_refresh() {
    let mut session = Session::new(two_directories());
    let mut store = sample_store();
    drive(&mut session, &mut store, Event::Refresh);
    let lists_before = store.list_calls.len();
    let mut edited = issue("a", "open", 3, vec![]);
    edited.assignee = Some("kim".to_string());
    session.current_issue = Some(edited.clone());
    session.edit_modified = true;
    let outcomes = vec![
        outcome("title", Ok(())),
        outcome("status", Ok(())),
        outcome("priority", Ok(())),
        outcome("assignee", Err(GatewayError::Rejected("unknown user".to_string()))),
    ];
    let action = session.save_issue_changes(&outcomes);
    assert_eq!(action, Action::Done);
    assert!(session.edit_modified);
    assert_eq!(session.error_message, Some("Failed to save: assignee: unknown user".to_string()));
    assert_eq!(session.current_issue, Some(edited));
    assert_eq!(session.phase, Phase::Idle);
    assert_eq!(session.issues.len(), 5);
    assert!(matches!(session.lookup("a"), Lookup::Cached(_)));
    assert_eq!(store.list_calls.len(), lists_before);
}

#[test]
fn successful_save_drops_the_edit_and_refreshes() {
    let mut session = Session::new(two_directories());
    let mut store = sample_store();
    drive(&mut session, &mut store, Event::Refresh);
    session.current_issue = Some(issue("a", "open", 3, vec![]));
    session.edit_modified = true;
    session.error_message = Some("old".to_string());
    let outcomes =
        vec![outcome("title", Ok(())), outcome("status", Ok(())), outcome("priority", Ok(()))];
    drive(&mut session, &mut store, Event::Saved(outcomes));
    assert!(!session.edit_modified);
    assert_eq!(session.current_issue, None);
    assert_eq!(session.error_message, None);
    assert_eq!(store.list_calls.len(), 4);
    assert_eq!(store.get_calls.len(), 10);
    assert_eq!(session.phase, Phase::Idle);
    assert_eq!(session.issues.len(), 5);
}

#[test]
fn save_with_several_failures_names_each_field() {
    let mut session = Session::new(AppConfig::default());
    session.edit_modified = true;
    let outcomes = vec![
        outcome("title", Err(GatewayError::Unavailable("no such file".to_string()))),
        outcome("status", Ok(())),
        outcome("notes", Err(GatewayError::Rejected("locked".to_string()))),
    ];
    assert_eq!(session.step(Event::Saved(outcomes)), Action::Done);
    assert_eq!(
        session.error_message,
        Some("Failed to save: title: Failed to execute bd: no such file, notes: locked".to_string())
    );
    assert!(session.edit_modified);
}

#[test]
fn string_map_basics() {
    let mut map: StrMap<u32> = StrMap::new();
    assert!(map.is_empty());
    assert_eq!(map.len(), 0);
    map.insert("a".to_string(), 1);
    map.insert("b".to_string(), 2);
    map.insert("a".to_string(), 3);
    assert_eq!(map.len(), 2);
    assert_eq!(map.get("a"), Some(&3));
    assert_eq!(map.get("b"), Some(&2));
    assert_eq!(map.get("c"), None);
    assert!(map.contains_key("b"));
    assert!(!map.contains_key("B"));
    assert_eq!(map.keys(), strings(&["a", "b"]));
    map.remove("a");
    assert_eq!(map.get("a"), None);
    assert_eq!(map.keys(), strings(&["b"]));
    map.remove("zz");
    assert_eq!(map.len(), 1);
    map.clear();
    assert!(map.is_empty());
}

#[test]
fn string_map_of_lists() {
    let mut map: StrMap<Vec<String>> = StrMap::new();
    map.append_to("a", "x".to_string());
    map.append_to("b", "y".to_string());
    map.append_to("a", "z".to_string());
    assert_eq!(map.get("a"), Some(&strings(&["x", "z"])));
    assert_eq!(map.get("b"), Some(&strings(&["y"])));
    assert_eq!(map.len(), 2);
}
