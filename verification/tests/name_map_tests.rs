use soroban_budget_assert::name_map::NameMap;

#[test]
fn name_map_insert_get_remove() {
    let mut m: NameMap<u64> = NameMap::new();
    assert!(m.is_empty());
    m.insert("b".to_string(), 2);
    m.insert("a".to_string(), 1);
    m.insert("c".to_string(), 3);
    m.insert("b".to_string(), 20);
    assert_eq!(m.len(), 3);
    assert_eq!(m.get("b"), Some(&20));
    assert_eq!(m.keys(), vec!["a".to_string(), "b".to_string(), "c".to_string()]);
    assert_eq!(m.remove("a"), Some(1));
    assert_eq!(m.remove("a"), None);
    assert_eq!(m.get("a"), None);
    assert_eq!(m.keys(), vec!["b".to_string(), "c".to_string()]);
}

#[test]
fn name_map_orders_like_str() {
    let names = ["b", "ab", "a", "", "B", "é", "aa"];
    let mut m: NameMap<()> = NameMap::new();
    for n in names {
        m.insert(n.to_string(), ());
    }
    let mut expected: Vec<String> = names.iter().map(|s| s.to_string()).collect();
    expected.sort();
    assert_eq!(m.keys(), expected);
}
