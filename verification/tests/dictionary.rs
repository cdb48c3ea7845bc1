use supermagma::dictionary::Dictionary;

#[test]
fn dictionary_starts_empty() {
    let dictionary: Dictionary<u8> = Dictionary::new();
    assert_eq!(dictionary.len(), 0);
    assert_eq!(dictionary.get("a"), None);
    assert_eq!(dictionary.get(""), None);
}

#[test]
fn dictionary_keeps_keys_in_order() {
    let mut dictionary: Dictionary<i32> = Dictionary::new();
    for (key, value) in [("m", 1), ("b", 2), ("z", 3), ("", 4), ("ma", 5), ("a", 6), ("M", 7)] {
        dictionary.insert(key.to_string(), value);
    }
    assert_eq!(dictionary.len(), 7);
    let keys: Vec<&str> = (0..dictionary.len()).map(|i| dictionary.key_at(i)).collect();
    assert_eq!(keys, vec!["", "M", "a", "b", "m", "ma", "z"]);
    let values: Vec<i32> = (0..dictionary.len()).map(|i| *dictionary.value_at(i)).collect();
    assert_eq!(values, vec![4, 7, 6, 2, 1, 5, 3]);
    assert_eq!(dictionary.get("ma"), Some(&5));
    assert_eq!(dictionary.get("mb"), None);
}

#[test]
fn dictionary_insert_replaces() {
    let mut dictionary: Dictionary<&str> = Dictionary::new();
    dictionary.insert("k".to_string(), "first");
    dictionary.insert("j".to_string(), "other");
    dictionary.insert("k".to_string(), "second");
    assert_eq!(dictionary.len(), 2);
    assert_eq!(dictionary.get("k"), Some(&"second"));
    assert_eq!(dictionary.get("j"), Some(&"other"));
    assert_eq!(dictionary.key_at(0), "j");
    assert_eq!(dictionary.key_at(1), "k");
}

#[test]
fn dictionaries_with_the_same_entries_are_equal() {
    let mut one: Dictionary<bool> = Dictionary::new();
    one.insert("x".to_string(), true);
    one.insert("y".to_string(), false);
    let mut other: Dictionary<bool> = Dictionary::new();
    other.insert("y".to_string(), true);
    other.insert("x".to_string(), true);
    assert_ne!(one, other);
    other.insert("y".to_string(), false);
    assert_eq!(one, other);
}
