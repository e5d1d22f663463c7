use libbig::index::EntryIndex;
use libbig::BigEntry;

fn entry(offset: u32, data_len: u32, name: &str) -> BigEntry {
    BigEntry { offset, data_len, name: name.to_string() }
}

#[test]
fn new_index_is_empty() {
    let index = EntryIndex::new();
    assert_eq!(index.len(), 0);
    assert!(index.names().is_empty());
    assert!(!index.contains(""));
    assert!(index.get("a").is_none());
    assert!(index.search("").is_empty());
}

#[test]
fn inserted_entry_is_found_under_its_name() {
    let mut index = EntryIndex::new();
    index.insert(entry(10, 20, "a/b"));
    assert_eq!(index.len(), 1);
    assert!(index.contains("a/b"));
    assert!(!index.contains("a"));
    let found = index.get("a/b").unwrap();
    assert_eq!((found.offset, found.data_len, found.name.as_str()), (10, 20, "a/b"));
}

#[test]
fn later_insert_replaces_the_earlier_one() {
    let mut index = EntryIndex::new();
    index.insert(entry(1, 2, "a"));
    index.insert(entry(3, 4, "b"));
    index.insert(entry(5, 6, "a"));
    assert_eq!(index.len(), 2);
    let a = index.get("a").unwrap();
    assert_eq!((a.offset, a.data_len), (5, 6));
    let b = index.get("b").unwrap();
    assert_eq!((b.offset, b.data_len), (3, 4));
    let mut names: Vec<&str> = index.names().iter().map(|name| name.as_str()).collect();
    names.sort();
    assert_eq!(names, vec!["a", "b"]);
}

#[test]
fn empty_name_is_a_name() {
    let mut index = EntryIndex::new();
    index.insert(entry(1, 2, ""));
    assert!(index.contains(""));
    assert_eq!(index.len(), 1);
    assert_eq!(index.names().len(), 1);
    assert_eq!(index.get("").unwrap().offset, 1);
}

#[test]
fn index_search_looks_inside_names() {
    let mut index = EntryIndex::new();
    index.insert(entry(1, 0, "maps/alpha.map"));
    index.insert(entry(2, 0, "maps/beta.map"));
    index.insert(entry(3, 0, "art/alpha.tga"));
    let mut found = index.search("alpha");
    found.sort();
    assert_eq!(found, vec!["art/alpha.tga", "maps/alpha.map"]);
    let mut found = index.search(".map");
    found.sort();
    assert_eq!(found, vec!["maps/alpha.map", "maps/beta.map"]);
    assert_eq!(index.search("maps/alpha.map"), vec!["maps/alpha.map"]);
    assert_eq!(index.search("").len(), 3);
    assert!(index.search("gamma").is_empty());
    assert!(index.search("maps/alpha.mapx").is_empty());
}

#[test]
fn entry_written_to_stays_under_its_name() {
    let mut index = EntryIndex::new();
    index.insert(entry(1, 2, "a"));
    index.insert(entry(3, 4, "b"));
    {
        let held = index.get_mut("a").unwrap();
        held.offset = 7;
        held.name = "b".to_string();
    }
    assert_eq!(index.len(), 2);
    let a = index.get("a").unwrap();
    assert_eq!((a.offset, a.data_len, a.name.as_str()), (7, 2, "b"));
    let b = index.get("b").unwrap();
    assert_eq!((b.offset, b.data_len, b.name.as_str()), (3, 4, "b"));
    assert!(index.get_mut("c").is_none());
    let mut names: Vec<&str> = index.names().iter().map(|name| name.as_str()).collect();
    names.sort();
    assert_eq!(names, vec!["a", "b"]);
}
