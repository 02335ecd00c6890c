use labworks::storage::{
    filter_by_tags, has_all_tags, is_blank, parse_storage_config, storage_config_for, ConfigError,
    FileRecord, JsonStorage, StorageConfig,
};

fn rec(path: &str, tags: &[&str]) -> FileRecord {
    FileRecord { path: path.to_string(), tags: tags.iter().map(|t| t.to_string()).collect() }
}

fn tags(v: &[&str]) -> Vec<String> {
    v.iter().map(|t| t.to_string()).collect()
}

fn paths(v: &[FileRecord]) -> Vec<&str> {
    v.iter().map(|r| r.path.as_str()).collect()
}

#[test]
fn files_with_all_requested_tags_are_found_in_order() {
    let records = vec![
        rec("a.txt", &["work", "rust"]),
        rec("b.txt", &["home"]),
        rec("c.txt", &["rust", "notes", "work"]),
        rec("d.txt", &[]),
    ];
    let found = filter_by_tags(records, &tags(&["rust", "work"]));
    assert_eq!(paths(&found), vec!["a.txt", "c.txt"]);
    assert_eq!(found[1].tags, tags(&["rust", "notes", "work"]));
}

#[test]
fn empty_search_finds_everything() {
    let records = vec![rec("a", &["x"]), rec("b", &[])];
    assert_eq!(paths(&filter_by_tags(records, &Vec::new())), vec!["a", "b"]);
}

#[test]
fn repeated_search_tags_count_once() {
    let records = vec![rec("a", &["x", "y"]), rec("b", &["x"])];
    assert_eq!(paths(&filter_by_tags(records, &tags(&["x", "x", "y"]))), vec!["a"]);
}

#[test]
fn tag_subset_check() {
    assert!(has_all_tags(&tags(&["a", "b"]), &tags(&["b"])));
    assert!(has_all_tags(&tags(&["a"]), &tags(&[])));
    assert!(!has_all_tags(&tags(&["a"]), &tags(&["A"])));
    assert!(!has_all_tags(&tags(&[]), &tags(&["a"])));
}

#[test]
fn added_file_is_found_by_its_tags() {
    let mut records = vec![rec("old", &["x"])];
    records.push(rec("new", &["x", "y"]));
    let found = filter_by_tags(records, &tags(&["y"]));
    assert_eq!(paths(&found), vec!["new"]);
}

#[test]
fn blank_content_means_no_records() {
    assert!(is_blank(""));
    assert!(is_blank(" \n\t\r\n"));
    assert!(!is_blank(" [] "));
}

#[test]
fn json_storage_remembers_its_file() {
    let s = JsonStorage::new("index.json".to_string());
    assert_eq!(s.file_path(), "index.json");
}

#[test]
fn storage_setting_is_type_colon_path() {
    match parse_storage_config("json:/tmp/index.json") {
        Ok(StorageConfig::Json(p)) => assert_eq!(p, "/tmp/index.json"),
        _ => panic!("expected json"),
    }
    match parse_storage_config("SQLite:C:/data/x.db") {
        Ok(StorageConfig::Sqlite(p)) => assert_eq!(p, "C:/data/x.db"),
        _ => panic!("expected sqlite"),
    }
    match parse_storage_config("json:") {
        Ok(StorageConfig::Json(p)) => assert_eq!(p, ""),
        _ => panic!("expected json"),
    }
    assert!(matches!(parse_storage_config("json"), Err(ConfigError::MissingSeparator)));
    assert!(matches!(parse_storage_config("yaml:x"), Err(ConfigError::UnsupportedType)));
    assert!(matches!(parse_storage_config(":x"), Err(ConfigError::UnsupportedType)));
    assert!(matches!(storage_config_for("JSON", "x"), Err(ConfigError::UnsupportedType)));
    assert!(matches!(storage_config_for("sqlite", "x"), Ok(StorageConfig::Sqlite(_))));
}

#[test]
fn search_for_more_tags_finds_part_of_search_for_fewer() {
    let records = || {
        vec![
            rec("a", &["x", "y", "z"]),
            rec("b", &["x"]),
            rec("c", &["y", "x"]),
            rec("d", &["z"]),
        ]
    };
    let fewer = filter_by_tags(records(), &tags(&["x"]));
    let more = filter_by_tags(records(), &tags(&["x", "y"]));
    assert_eq!(paths(&fewer), vec!["a", "b", "c"]);
    assert_eq!(paths(&more), vec!["a", "c"]);
    assert_eq!(paths(&filter_by_tags(fewer, &tags(&["x", "y"]))), paths(&more));
}
