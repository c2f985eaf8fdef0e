use beadui::config::{
    abbreviate_path_in, abbreviate_with, base_name, display_names_for, AppConfig, PathNames,
};
use beadui::gateway::BdClient;
use beadui::model::{DirectoryConfig, GatewayError, Issue};

fn dir(path: &str, visible: bool, display_name: &str) -> DirectoryConfig {
    DirectoryConfig { path: path.to_string(), visible, display_name: display_name.to_string() }
}

fn issue(id: &str) -> Issue {
    Issue {
        id: id.to_string(),
        title: format!("Title of {}", id),
        description: String::new(),
        status: "open".to_string(),
        priority: 1,
        issue_type: "bug".to_string(),
        assignee: Some("sam".to_string()),
        notes: None,
        created_at: String::new(),
        updated_at: String::new(),
        dependencies: vec![],
        source_directory: "unset".to_string(),
    }
}

fn ids_and_sources(issues: &[Issue]) -> Vec<(String, String)> {
    issues.iter().map(|i| (i.id.clone(), i.source_directory.clone())).collect()
}

fn pair(id: &str, source: &str) -> (String, String) {
    (id.to_string(), source.to_string())
}

#[test]
fn base_name_is_the_last_component() {
    assert_eq!(base_name("/home/u/a/repo"), "repo");
    assert_eq!(base_name("/home/u/a/repo/"), "repo");
    assert_eq!(base_name("repo"), "repo");
    assert_eq!(base_name("/"), "");
    assert_eq!(base_name("/home/u/.."), "");
    assert_eq!(base_name(""), "");
}

#[test]
fn abbreviation_replaces_the_home_prefix() {
    let home = Some("/home/u".to_string());
    assert_eq!(abbreviate_path_in("/home/u/a/repo", &home), "~/a/repo");
    assert_eq!(abbreviate_path_in("/home/u", &home), "~/");
    assert_eq!(abbreviate_path_in("/srv/repo", &home), "/srv/repo");
    assert_eq!(abbreviate_path_in("/home/user2/repo", &home), "/home/user2/repo");
    assert_eq!(abbreviate_path_in("/home/u/a/repo", &None), "/home/u/a/repo");
}

#[test]
fn abbreviation_against_the_system_home() {
    let shown = AppConfig::abbreviate_path("/definitely/not/under/home/repo");
    assert!(shown == "/definitely/not/under/home/repo" || shown.starts_with("~/"));
}

#[test]
fn duplicate_base_names_get_the_abbreviated_path() {
    let mut config = AppConfig {
        directories: vec![dir("/home/u/a/repo", true, ""), dir("/home/u/b/repo", false, "stale")],
        sidebar_collapsed: true,
    };
    config.assign_display_names(&Some("/home/u".to_string()));
    assert_eq!(config.directories[0].display_name, "repo (~/a/repo)");
    assert_eq!(config.directories[1].display_name, "repo (~/b/repo)");
    assert_eq!(config.directories[0].path, "/home/u/a/repo");
    assert!(config.directories[0].visible);
    assert!(!config.directories[1].visible);
    assert!(config.sidebar_collapsed);
}

#[test]
fn unique_base_name_is_shown_alone() {
    let mut config =
        AppConfig { directories: vec![dir("/home/u/a/repo", true, "")], sidebar_collapsed: false };
    config.assign_display_names(&Some("/home/u".to_string()));
    assert_eq!(config.directories[0].display_name, "repo");
}

#[test]
fn mixed_unique_and_duplicate_names() {
    let mut config = AppConfig {
        directories: vec![
            dir("/home/u/a/repo", true, ""),
            dir("/srv/tools", true, ""),
            dir("/srv/repo", true, ""),
        ],
        sidebar_collapsed: false,
    };
    config.assign_display_names(&Some("/home/u".to_string()));
    assert_eq!(config.directories[0].display_name, "repo (~/a/repo)");
    assert_eq!(config.directories[1].display_name, "tools");
    assert_eq!(config.directories[2].display_name, "repo (/srv/repo)");
}

#[test]
fn duplicates_without_a_home_show_the_full_path() {
    let mut config = AppConfig {
        directories: vec![dir("/x/repo", true, ""), dir("/y/repo", true, "")],
        sidebar_collapsed: false,
    };
    config.assign_display_names(&None);
    assert_eq!(config.directories[0].display_name, "repo (/x/repo)");
    assert_eq!(config.directories[1].display_name, "repo (/y/repo)");
}

#[test]
fn compute_display_names_uses_base_names() {
    let mut config = AppConfig {
        directories: vec![dir("/srv/alpha", true, ""), dir("/srv/beta", true, "")],
        sidebar_collapsed: false,
    };
    config.compute_display_names();
    assert_eq!(config.directories[0].display_name, "alpha");
    assert_eq!(config.directories[1].display_name, "beta");
}

#[test]
fn default_config_is_empty() {
    let config = AppConfig::default();
    assert!(config.directories.is_empty());
    assert!(!config.sidebar_collapsed);
}

#[test]
fn registering_a_new_directory_adds_it_visible() {
    let mut config = AppConfig::default();
    assert!(config.register_directory_in("/home/u/work", &Some("/home/u".to_string())));
    assert_eq!(config.directories, vec![dir("/home/u/work", true, "work")]);
    assert!(config.contains_path("/home/u/work"));
    assert!(!config.contains_path("/home/u"));
}

#[test]
fn registering_a_known_directory_changes_nothing() {
    let mut config =
        AppConfig { directories: vec![dir("/srv/repo", false, "custom")], sidebar_collapsed: false };
    assert!(!config.register_directory_in("/srv/repo", &None));
    assert_eq!(config.directories, vec![dir("/srv/repo", false, "custom")]);
    assert!(!config.register_directory("/srv/repo"));
    assert_eq!(config.directories, vec![dir("/srv/repo", false, "custom")]);
}

#[test]
fn registering_a_namesake_renames_both() {
    let mut config =
        AppConfig { directories: vec![dir("/home/u/a/repo", true, "repo")], sidebar_collapsed: false };
    assert!(config.register_directory_in("/home/u/b/repo", &Some("/home/u".to_string())));
    assert_eq!(config.directories[0].display_name, "repo (~/a/repo)");
    assert_eq!(config.directories[1].display_name, "repo (~/b/repo)");
}

#[test]
fn registering_through_the_environment() {
    let mut config = AppConfig::default();
    assert!(config.register_directory("/srv/solo"));
    assert_eq!(config.directories, vec![dir("/srv/solo", true, "solo")]);
}

#[test]
fn source_name_prefers_the_display_name() {
    assert_eq!(BdClient::source_name(&dir("/srv/repo", true, "shown")), "shown");
    assert_eq!(BdClient::source_name(&dir("/srv/repo", true, "")), "repo");
}

#[test]
fn stamping_sets_only_the_source() {
    let stamped = BdClient::stamp_source(&vec![issue("a"), issue("b")], "repo");
    let mut expected_a = issue("a");
    expected_a.source_directory = "repo".to_string();
    let mut expected_b = issue("b");
    expected_b.source_directory = "repo".to_string();
    assert_eq!(stamped, vec![expected_a, expected_b]);
}

#[test]
fn listing_is_stamped_or_its_failure_handed_on() {
    let ok = BdClient::list_issues(Ok(vec![issue("a")]), "repo").unwrap();
    assert_eq!(ids_and_sources(&ok), vec![pair("a", "repo")]);
    let failed = BdClient::list_issues(Err(GatewayError::Unavailable("x".to_string())), "repo");
    assert_eq!(failed, Err(GatewayError::Unavailable("x".to_string())));
}

#[test]
fn aggregation_concatenates_in_registration_order() {
    let directories = vec![dir("/srv/one", true, "one"), dir("/srv/two", true, "two")];
    let listings = vec![Ok(vec![issue("a"), issue("b")]), Ok(vec![issue("c")])];
    let all = BdClient::list_issues_from_all(&directories, &listings);
    assert_eq!(ids_and_sources(&all), vec![pair("a", "one"), pair("b", "one"), pair("c", "two")]);
}

#[test]
fn aggregation_skips_failed_and_hidden_directories() {
    let directories = vec![
        dir("/srv/one", true, "one"),
        dir("/srv/broken", true, "broken"),
        dir("/srv/hidden", false, "hidden"),
        dir("/srv/last", true, ""),
    ];
    let listings = vec![
        Ok(vec![issue("a")]),
        Err(GatewayError::Rejected("no database".to_string())),
        Ok(vec![issue("h")]),
        Ok(vec![issue("z")]),
    ];
    let all = BdClient::list_issues_from_all(&directories, &listings);
    assert_eq!(ids_and_sources(&all), vec![pair("a", "one"), pair("z", "last")]);
}

#[test]
fn aggregation_treats_a_missing_listing_as_failed() {
    let directories = vec![dir("/srv/one", true, "one"), dir("/srv/two", true, "two")];
    let listings = vec![Ok(vec![issue("a")])];
    let all = BdClient::list_issues_from_all(&directories, &listings);
    assert_eq!(ids_and_sources(&all), vec![pair("a", "one")]);
    assert!(BdClient::list_issues_from_all(&vec![], &listings).is_empty());
}

#[test]
fn aggregation_keeps_colliding_ids() {
    let directories = vec![dir("/srv/one", true, "one"), dir("/srv/two", true, "two")];
    let listings = vec![Ok(vec![issue("same")]), Ok(vec![issue("same")])];
    let all = BdClient::list_issues_from_all(&directories, &listings);
    assert_eq!(ids_and_sources(&all), vec![pair("same", "one"), pair("same", "two")]);
}

fn names(base_name: &str, abbreviated: &str) -> PathNames {
    PathNames { base_name: base_name.to_string(), abbreviated: abbreviated.to_string() }
}

#[test]
fn shortening_puts_the_marker_before_the_rest() {
    assert_eq!(abbreviate_with("/home/u/a", &Some("a".to_string())), "~/a");
    assert_eq!(abbreviate_with("/home/u", &Some(String::new())), "~/");
    assert_eq!(abbreviate_with("/srv/x", &None), "/srv/x");
}

#[test]
fn display_names_mark_shared_base_names() {
    let chosen = display_names_for(&vec![
        names("repo", "~/a/repo"),
        names("tools", "~/tools"),
        names("repo", "~/b/repo"),
        names("", "/"),
    ]);
    assert_eq!(chosen, vec!["repo (~/a/repo)", "tools", "repo (~/b/repo)", ""]);
    assert!(display_names_for(&vec![]).is_empty());
    assert_eq!(display_names_for(&vec![names("repo", "~/a/repo")]), vec!["repo"]);
    assert_eq!(
        display_names_for(&vec![names("x", "p"), names("x", "p")]),
        vec!["x (p)", "x (p)"]
    );
}
