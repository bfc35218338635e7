use credx::ordered_map::{compare_texts, OrderedMap, Standing};

fn keys(map: &OrderedMap<u64>) -> Vec<String> {
    (0..map.len()).map(|i| map.key_at(i).clone()).collect()
}

#[test]
fn entries_come_out_in_order_of_keys() {
    let mut map: OrderedMap<u64> = OrderedMap::new();
    map.insert("b".to_string(), 2);
    map.insert("a".to_string(), 1);
    map.insert("c".to_string(), 3);
    assert_eq!(keys(&map), vec!["a", "b", "c"]);
    assert_eq!(*map.value_at(0), 1);
    assert_eq!(*map.value_at(1), 2);
    assert_eq!(*map.value_at(2), 3);
}

#[test]
fn order_of_entries_does_not_depend_on_order_of_insertion() {
    let names = ["", "z", "a", "aa", "A", "\u{e9}", "\u{1f600}", "\u{ffff}", "10", "9"];
    let mut forward: OrderedMap<u64> = OrderedMap::new();
    let mut backward: OrderedMap<u64> = OrderedMap::new();
    let mut std_map = std::collections::BTreeMap::new();
    for (i, name) in names.iter().enumerate() {
        forward.insert(name.to_string(), i as u64);
        std_map.insert(name.to_string(), i as u64);
    }
    for (i, name) in names.iter().enumerate().rev() {
        backward.insert(name.to_string(), i as u64);
    }
    let std_keys: Vec<String> = std_map.keys().cloned().collect();
    assert_eq!(keys(&forward), std_keys);
    assert_eq!(keys(&backward), std_keys);
    for (i, key) in std_keys.iter().enumerate() {
        assert_eq!(forward.value_at(i), backward.value_at(i));
        assert_eq!(forward.get(key), std_map.get(key));
    }
}

#[test]
fn inserting_a_key_again_replaces_its_value() {
    let mut map: OrderedMap<u64> = OrderedMap::new();
    map.insert("a".to_string(), 1);
    map.insert("b".to_string(), 2);
    map.insert("a".to_string(), 3);
    assert_eq!(map.len(), 2);
    assert_eq!(map.get("a"), Some(&3));
    assert_eq!(map.get("b"), Some(&2));
    assert_eq!(map.get("c"), None);
    assert!(map.contains_key("b"));
    assert!(!map.contains_key(""));
}

#[test]
fn setting_a_place_changes_that_value_alone() {
    let mut map: OrderedMap<u64> = OrderedMap::new();
    map.insert("a".to_string(), 1);
    map.insert("b".to_string(), 2);
    assert_eq!(map.position("b"), Some(1));
    assert_eq!(map.position("c"), None);
    map.set(1, 7);
    assert_eq!(map.get("a"), Some(&1));
    assert_eq!(map.get("b"), Some(&7));
}

#[test]
fn clones_hold_the_same_entries() {
    let mut map: OrderedMap<u64> = OrderedMap::new();
    map.insert("b".to_string(), 2);
    map.insert("a".to_string(), 1);
    let copy = map.clone();
    map.insert("c".to_string(), 3);
    assert_eq!(keys(&copy), vec!["a", "b"]);
    assert_eq!(copy.get("a"), Some(&1));
    assert_eq!(copy.get("b"), Some(&2));
}

#[test]
fn texts_compare_by_their_bytes() {
    assert_eq!(compare_texts("a", "b"), Standing::Before);
    assert_eq!(compare_texts("b", "a"), Standing::After);
    assert_eq!(compare_texts("a", "aa"), Standing::Before);
    assert_eq!(compare_texts("aa", "a"), Standing::After);
    assert_eq!(compare_texts("", ""), Standing::Same);
    assert_eq!(compare_texts("\u{e9}t\u{e9}", "\u{e9}t\u{e9}"), Standing::Same);
    assert_eq!(compare_texts("z", "\u{e9}"), Standing::Before);
}
