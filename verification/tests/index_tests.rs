use labworks::index::{IndexerError, JsonStorage};

fn tags(v: &[&str]) -> Vec<String> {
    v.iter().map(|s| s.to_string()).collect()
}

#[test]
fn missing_or_blank_file_gives_empty_index() {
    let s = JsonStorage::new("idx.json", None).unwrap();
    assert_eq!(s.file_path(), "idx.json");
    assert!(s.get(vec![]).unwrap().is_empty());
    let s = JsonStorage::new("idx.json", Some("  \n\t")).unwrap();
    assert!(s.tags().unwrap().is_empty());
}

#[test]
fn invalid_json_is_a_json_error() {
    assert!(matches!(JsonStorage::new("idx.json", Some("{not json")), Err(IndexerError::Json(_))));
    assert!(matches!(JsonStorage::new("idx.json", Some("[1, 2]")), Err(IndexerError::Json(_))));
}

#[test]
fn loads_existing_index() {
    let s = JsonStorage::new("idx.json", Some(r#"{"b.txt": ["work"], "a.txt": ["work", "home"]}"#)).unwrap();
    assert_eq!(s.get(tags(&["work"])).unwrap(), vec!["a.txt", "b.txt"]);
    assert_eq!(s.get(tags(&["home"])).unwrap(), vec!["a.txt"]);
}

#[test]
fn add_then_get_finds_the_file() {
    let mut s = JsonStorage::new("idx.json", None).unwrap();
    let text = s.add("test.txt", tags(&[" work", "study "])).unwrap();
    assert_eq!(s.get(tags(&["work"])).unwrap(), vec!["test.txt"]);
    assert_eq!(s.get(tags(&[" study", "work "])).unwrap(), vec!["test.txt"]);
    assert!(s.get(tags(&["work", "home"])).unwrap().is_empty());
    let parsed: std::collections::HashMap<String, Vec<String>> = serde_json::from_str(&text).unwrap();
    assert_eq!(parsed["test.txt"], vec!["work", "study"]);
}

#[test]
fn add_replaces_tags_of_same_path() {
    let mut s = JsonStorage::new("idx.json", None).unwrap();
    s.add("a", tags(&["x"])).unwrap();
    s.add("b", tags(&["x"])).unwrap();
    s.add("a", tags(&["y"])).unwrap();
    assert_eq!(s.get(tags(&["x"])).unwrap(), vec!["b"]);
    assert_eq!(s.get(tags(&["y"])).unwrap(), vec!["a"]);
    assert_eq!(s.get(vec![]).unwrap(), vec!["a", "b"]);
}

#[test]
fn add_twice_is_add_once() {
    let mut s1 = JsonStorage::new("i", None).unwrap();
    let t1 = s1.add("a", tags(&["x", "y"])).unwrap();
    let mut s2 = JsonStorage::new("i", None).unwrap();
    s2.add("a", tags(&["x", "y"])).unwrap();
    let t2 = s2.add("a", tags(&["x", "y"])).unwrap();
    assert_eq!(t1, t2);
    assert_eq!(s1.tags().unwrap(), s2.tags().unwrap());
}

#[test]
fn tags_counts_and_sorts() {
    let mut s = JsonStorage::new("i", None).unwrap();
    s.add("f1", tags(&["work", "study"])).unwrap();
    s.add("f2", tags(&["work"])).unwrap();
    s.add("f3", tags(&["art", "work", "work"])).unwrap();
    assert_eq!(
        s.tags().unwrap(),
        vec![("art".to_string(), 1), ("study".to_string(), 1), ("work".to_string(), 3)]
    );
}

#[test]
fn tag_totals_follow_a_replacement() {
    let mut s = JsonStorage::new("i", None).unwrap();
    s.add("f1", tags(&["a", "b"])).unwrap();
    s.add("f1", tags(&["b", "c"])).unwrap();
    assert_eq!(s.tags().unwrap(), vec![("b".to_string(), 1), ("c".to_string(), 1)]);
}

#[test]
fn saved_text_reloads_to_same_index() {
    let mut s = JsonStorage::new("i", None).unwrap();
    s.add("z.txt", tags(&["q"])).unwrap();
    let text = s.add("a b.txt", tags(&["é", "\"quoted\""])).unwrap();
    let r = JsonStorage::new("i", Some(&text)).unwrap();
    assert_eq!(r.get(tags(&["\"quoted\""])).unwrap(), vec!["a b.txt"]);
    assert_eq!(r.tags().unwrap(), s.tags().unwrap());
}

#[test]
fn a_tag_repeated_in_one_file_counts_that_file_once() {
    let mut s = JsonStorage::new("i", None).unwrap();
    s.add("f1", tags(&["a", "a", " a "])).unwrap();
    assert_eq!(s.tags().unwrap(), vec![("a".to_string(), 1)]);
}

#[test]
fn more_search_tags_never_find_more_files() {
    let mut s = JsonStorage::new("i", None).unwrap();
    s.add("f1", tags(&["a", "b"])).unwrap();
    s.add("f2", tags(&["a"])).unwrap();
    s.add("f3", tags(&["b", "c"])).unwrap();
    assert_eq!(s.get(tags(&["a"])).unwrap(), vec!["f1", "f2"]);
    assert_eq!(s.get(tags(&["a", "b"])).unwrap(), vec!["f1"]);
    assert!(s.get(tags(&["a", "b", "c"])).unwrap().is_empty());
}

#[test]
fn search_tags_are_trimmed() {
    let mut s = JsonStorage::new("i", None).unwrap();
    s.add("f1", tags(&["rust"])).unwrap();
    assert_eq!(s.get(tags(&["  rust\t"])).unwrap(), s.get(tags(&["rust"])).unwrap());
    assert_eq!(s.get(tags(&["  rust\t"])).unwrap(), vec!["f1"]);
}

#[test]
fn added_file_is_found_after_other_adds() {
    let mut s = JsonStorage::new("i", None).unwrap();
    s.add("f1", tags(&["x", "y"])).unwrap();
    s.add("f2", tags(&["y"])).unwrap();
    s.add("f3", tags(&["z"])).unwrap();
    assert!(s.get(tags(&["y", "x"])).unwrap().contains(&"f1".to_string()));
    assert!(s.get(tags(&["x"])).unwrap().contains(&"f1".to_string()));
}
