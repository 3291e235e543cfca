use dirjump::alias::AliasTable;

#[test]
fn alias_set_then_resolve_round_trip() {
    let mut table = AliasTable::new();
    assert!(!table.set("work", "/a/b"));
    assert_eq!(table.resolve("work"), Some("/a/b".to_string()));
    assert!(table.remove("work"));
    assert_eq!(table.resolve("work"), None);
}

#[test]
fn alias_set_reports_update_and_overwrites() {
    let mut table = AliasTable::new();
    assert!(!table.set("work", "/a/b"));
    assert!(table.set("work", "/c"));
    assert_eq!(table.resolve("work"), Some("/c".to_string()));
    assert_eq!(table.len(), 1);
}

#[test]
fn alias_lookup_is_exact() {
    let mut table = AliasTable::new();
    table.set("Work", "/a");
    assert_eq!(table.resolve("work"), None);
    assert_eq!(table.resolve("Work"), Some("/a".to_string()));
    assert_eq!(table.resolve("Wor"), None);
}

#[test]
fn alias_remove_reports_absence() {
    let mut table = AliasTable::new();
    assert!(!table.remove("nothing"));
    table.set("a", "/1");
    table.set("b", "/2");
    assert!(table.remove("a"));
    assert!(!table.remove("a"));
    assert_eq!(table.resolve("b"), Some("/2".to_string()));
}

#[test]
fn alias_list_holds_every_pair_once() {
    let mut table = AliasTable::new();
    assert!(table.is_empty());
    table.set("a", "/1");
    table.set("b", "/2");
    table.set("a", "/3");
    let mut pairs = table.list();
    pairs.sort();
    assert_eq!(
        pairs,
        vec![("a".to_string(), "/3".to_string()), ("b".to_string(), "/2".to_string())]
    );
    assert!(!table.is_empty());
}

#[test]
fn alias_from_pairs_lets_later_pairs_win() {
    let pairs = vec![
        ("a".to_string(), "/1".to_string()),
        ("b".to_string(), "/2".to_string()),
        ("a".to_string(), "/3".to_string()),
    ];
    let table = AliasTable::from_pairs(&pairs);
    assert_eq!(table.len(), 2);
    assert_eq!(table.resolve("a"), Some("/3".to_string()));
    assert_eq!(table.resolve("b"), Some("/2".to_string()));
}
