use labworks::backend::{get_storage_provider, sqlite_get_plan, StorageKind};

#[test]
fn provider_type_is_case_insensitive() {
    let p = get_storage_provider("json:data.json").ok().unwrap();
    assert_eq!(p.kind, StorageKind::Json);
    assert_eq!(p.path, "data.json");
    let p = get_storage_provider("SQLite:files.db").ok().unwrap();
    assert_eq!(p.kind, StorageKind::Sqlite);
    assert_eq!(p.path, "files.db");
}

#[test]
fn path_is_everything_after_first_colon() {
    let p = get_storage_provider("json:C:/idx.json").ok().unwrap();
    assert_eq!(p.path, "C:/idx.json");
}

#[test]
fn setting_without_colon_is_refused() {
    assert_eq!(
        get_storage_provider("data.json").err().unwrap(),
        "Invalid index path format. Expected 'TYPE:PATH' (e.g., 'json:index.json')"
    );
}

#[test]
fn unknown_type_is_refused() {
    assert_eq!(
        get_storage_provider("xml:data.xml").err().unwrap(),
        "Unknown storage type: 'xml'. Supported: JSON, SQLITE"
    );
}

#[test]
fn sqlite_plan_for_no_tags_is_none() {
    assert!(sqlite_get_plan(&vec![]).is_none());
}

#[test]
fn sqlite_plan_has_one_placeholder_per_tag() {
    let q = sqlite_get_plan(&vec![" work".to_string(), "home ".to_string()]).unwrap();
    assert_eq!(
        q.sql,
        "SELECT path FROM file_tags\n             WHERE tag IN (?, ?)\n             GROUP BY path\n             HAVING COUNT(DISTINCT tag) = ?"
    );
    assert_eq!(q.tags, vec!["work", "home"]);
    assert_eq!(q.count, 2);
}
