use shm_hashtable::hash_table::HashTable;
use std::collections::hash_map::DefaultHasher;
use std::hash::{Hash, Hasher};

fn s(x: &str) -> String {
    x.to_string()
}

#[test]
fn new_table_is_empty() {
    let ht: HashTable<String> = HashTable::new(10);
    assert_eq!(ht.len(), 0);
    assert!(ht.is_empty());
    assert_eq!(ht.get(&s("a")), None);
}

#[test]
fn insert_then_get() {
    let mut ht: HashTable<String> = HashTable::new(10);
    assert_eq!(ht.insert(s("key1"), s("value1")), None);
    assert_eq!(ht.get(&s("key1")), Some(&s("value1")));
    assert_eq!(ht.len(), 1);
    assert!(!ht.is_empty());
}

#[test]
fn insert_existing_key_returns_old_value() {
    let mut ht: HashTable<String> = HashTable::new(4);
    assert_eq!(ht.insert(s("k"), s("v1")), None);
    assert_eq!(ht.insert(s("k"), s("v2")), Some(s("v1")));
    assert_eq!(ht.get(&s("k")), Some(&s("v2")));
    assert_eq!(ht.len(), 1);
}

#[test]
fn insert_keeps_other_keys() {
    let mut ht: HashTable<String> = HashTable::new(3);
    ht.insert(s("a"), s("1"));
    ht.insert(s("b"), s("2"));
    ht.insert(s("c"), s("3"));
    assert_eq!(ht.get(&s("a")), Some(&s("1")));
    assert_eq!(ht.get(&s("b")), Some(&s("2")));
    assert_eq!(ht.get(&s("c")), Some(&s("3")));
    assert_eq!(ht.len(), 3);
}

#[test]
fn remove_returns_value_and_forgets_key() {
    let mut ht: HashTable<String> = HashTable::new(10);
    ht.insert(s("x"), s("y"));
    ht.insert(s("z"), s("w"));
    assert_eq!(ht.remove(&s("x")), Some(s("y")));
    assert_eq!(ht.get(&s("x")), None);
    assert_eq!(ht.get(&s("z")), Some(&s("w")));
    assert_eq!(ht.len(), 1);
    assert_eq!(ht.remove(&s("x")), None);
    assert_eq!(ht.len(), 1);
}

#[test]
fn remove_undoes_insert() {
    let mut ht: HashTable<String> = HashTable::new(2);
    ht.insert(s("p"), s("q"));
    assert_eq!(ht.insert(s("new"), s("v")), None);
    assert_eq!(ht.remove(&s("new")), Some(s("v")));
    assert_eq!(ht.len(), 1);
    assert_eq!(ht.get(&s("p")), Some(&s("q")));
    assert_eq!(ht.get(&s("new")), None);
}

#[test]
fn single_bucket_chains_all_keys() {
    let mut ht: HashTable<u32> = HashTable::new(1);
    for i in 0..50u32 {
        assert_eq!(ht.insert(format!("key{}", i), i), None);
    }
    assert_eq!(ht.len(), 50);
    for i in 0..50u32 {
        assert_eq!(ht.get(&format!("key{}", i)), Some(&i));
    }
    for i in (0..50u32).step_by(2) {
        assert_eq!(ht.remove(&format!("key{}", i)), Some(i));
    }
    assert_eq!(ht.len(), 25);
    for i in 0..50u32 {
        let expected = if i % 2 == 0 { None } else { Some(&i) };
        assert_eq!(ht.get(&format!("key{}", i)), expected);
    }
}

#[test]
fn remove_all_makes_table_empty() {
    let mut ht: HashTable<String> = HashTable::new(5);
    ht.insert(s("a"), s("b"));
    ht.remove(&s("a"));
    assert!(ht.is_empty());
    assert_eq!(ht.len(), 0);
}

#[test]
fn hash_is_index_below_capacity_and_stable() {
    let ht: HashTable<String> = HashTable::new(7);
    for k in ["", "a", "key1", "a longer key with spaces", "ключ"] {
        let h = ht.hash(k);
        assert!(h < 7);
        assert_eq!(h, ht.hash(k));
    }
}

#[test]
fn hash_matches_std_hash_of_str() {
    let ht: HashTable<String> = HashTable::new(13);
    for k in ["", "a", "key1", "value42"] {
        let mut hasher = DefaultHasher::new();
        k.hash(&mut hasher);
        assert_eq!(ht.hash(k), (hasher.finish() as usize) % 13);
    }
}

#[test]
fn inserts_only_keep_last_value_per_key() {
    let mut ht: HashTable<u32> = HashTable::new(3);
    let keys = ["a", "b", "a", "c", "b", "a"];
    for (i, k) in keys.iter().enumerate() {
        ht.insert(k.to_string(), i as u32);
    }
    assert_eq!(ht.len(), 3);
    assert_eq!(ht.get(&s("a")), Some(&5));
    assert_eq!(ht.get(&s("b")), Some(&4));
    assert_eq!(ht.get(&s("c")), Some(&3));
}
