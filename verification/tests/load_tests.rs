use confmap::store::{find_name, ConfigStore};

#[test]
fn second_load_overwrites_and_extends() {
    let mut store = ConfigStore::new();
    store.load_str(r#"{"a": "x", "keep": 7}"#);
    assert_eq!(store.get_string("a"), Some("x".to_string()));
    store.load_str(r#"{"a": "y", "d": true}"#);
    assert_eq!(store.get_string("a"), Some("y".to_string()));
    assert_eq!(store.get_bool("d"), Some(true));
    assert_eq!(store.get_int64("keep"), Some(7));
}

#[test]
fn fresh_store_is_empty_and_unconfigured() {
    let store = ConfigStore::new();
    assert!(!store.is_configured());
    assert_eq!(store.get_string("a"), None);
    assert!(store.get("a").is_none());
}

#[test]
fn malformed_document_changes_nothing() {
    let mut store = ConfigStore::new();
    store.load_str(r#"{"a": 1}"#);
    store.load_str(r#"{"a": 2"#);
    assert_eq!(store.get_int64("a"), Some(1));
}

#[test]
fn non_object_document_changes_nothing() {
    let mut store = ConfigStore::new();
    store.load_str(r#"{"a": 1}"#);
    store.load_str(r#"[1, 2, 3]"#);
    store.load_str(r#""just a string""#);
    store.load_str(r#"42"#);
    assert_eq!(store.get_int64("a"), Some(1));
    assert_eq!(store.get_int64("0"), None);
}

#[test]
fn duplicate_keys_in_one_document_keep_the_last() {
    let mut store = ConfigStore::new();
    store.load_str(r#"{"a": 1, "a": 2}"#);
    assert_eq!(store.get_int64("a"), Some(2));
}

#[test]
fn empty_object_loads_nothing() {
    let mut store = ConfigStore::new();
    store.load_str(r#"{}"#);
    assert_eq!(store.get_string("a"), None);
}

#[test]
fn candidate_path_joins_search_path_and_name() {
    let mut store = ConfigStore::new();
    store.add_config_path("/some/dir");
    store.set_config_name("config.json");
    assert_eq!(store.candidate_path(), "/some/dir/config.json");
    assert!(store.is_configured());
    assert_eq!(store.config_name(), "config.json");
    assert_eq!(store.config_path(), "/some/dir/");
}

#[test]
fn search_path_keeps_existing_separator() {
    let mut store = ConfigStore::new();
    store.add_config_path("/some/dir/");
    assert_eq!(store.config_path(), "/some/dir/");
    store.set_config_name("c.json");
    assert_eq!(store.candidate_path(), "/some/dir/c.json");
}

#[test]
fn settings_do_not_touch_the_table() {
    let mut store = ConfigStore::new();
    store.load_str(r#"{"a": 5}"#);
    store.set_config_name("other.json");
    store.add_config_path("/elsewhere");
    assert_eq!(store.get_int64("a"), Some(5));
}

#[test]
fn find_name_picks_the_first_match() {
    let entries = vec![
        "alpha.json".to_string(),
        "config.json".to_string(),
        "config.json".to_string(),
        "zeta.json".to_string(),
    ];
    assert_eq!(find_name(&entries, "config.json"), Some(1));
    assert_eq!(find_name(&entries, "alpha.json"), Some(0));
}

#[test]
fn find_name_misses_when_nothing_matches() {
    let entries = vec!["alpha.json".to_string(), "beta.json".to_string()];
    assert_eq!(find_name(&entries, "config.json"), None);
    let empty: Vec<String> = Vec::new();
    assert_eq!(find_name(&empty, "config.json"), None);
}

#[test]
fn resolution_prefers_the_direct_candidate() {
    let mut store = ConfigStore::new();
    store.add_config_path("/conf");
    store.set_config_name("app.json");
    let entries = vec!["app.json".to_string()];
    assert_eq!(
        store.resolve_load(true, Some("/exe/dir"), &entries),
        Some("/conf/app.json".to_string())
    );
    assert_eq!(store.config_path(), "/conf/");
}

#[test]
fn resolution_falls_back_to_the_executable_directory() {
    let mut store = ConfigStore::new();
    store.add_config_path("/nowhere");
    store.set_config_name("app.json");
    let entries = vec!["other.txt".to_string(), "app.json".to_string()];
    assert_eq!(
        store.resolve_load(false, Some("/exe/dir"), &entries),
        Some("/exe/dir/app.json".to_string())
    );
    assert_eq!(store.config_path(), "/exe/dir/");
}

#[test]
fn resolution_misses_silently() {
    let mut store = ConfigStore::new();
    store.add_config_path("/does/not/exist");
    store.set_config_name("app.json");
    let entries = vec!["other.txt".to_string()];
    assert_eq!(store.resolve_load(false, Some("/exe/dir"), &entries), None);
    assert_eq!(store.config_path(), "/does/not/exist/");
    assert_eq!(store.get_string("any"), None);
}

#[test]
fn resolution_without_a_name_reads_nothing() {
    let mut store = ConfigStore::new();
    let entries = vec!["config.json".to_string()];
    assert_eq!(store.resolve_load(true, Some("/exe"), &entries), None);
    assert!(store.get("x").is_none());
}
