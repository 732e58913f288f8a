use shm_hashtable::hash_table::HashTable;
use shm_hashtable::message::{Message, MessageType, KEY_SIZE, VALUE_SIZE};
use shm_hashtable::server::handle_request;

fn request(typ: MessageType, key: &str, value: &str) -> Message {
    Message { typ, key: Message::serliaize_key(key), value: Message::serliaize_value(value) }
}

#[test]
fn get_missing_key_is_not_found() {
    let mut ht: HashTable<String> = HashTable::new(10);
    let r = handle_request(&mut ht, &request(MessageType::Get, "key1", ""));
    assert_eq!(r.typ, MessageType::GetNotFound);
    assert_eq!(r.key, [0u8; KEY_SIZE]);
    assert_eq!(r.value, [0u8; VALUE_SIZE]);
}

#[test]
fn insert_new_key_answers_zeroed_success() {
    let mut ht: HashTable<String> = HashTable::new(10);
    let r = handle_request(&mut ht, &request(MessageType::Insert, "key1", "value1"));
    assert_eq!(r.typ, MessageType::InsertSuccess);
    assert_eq!(r.key, [0u8; KEY_SIZE]);
    assert_eq!(r.value, [0u8; VALUE_SIZE]);
    assert_eq!(ht.len(), 1);
    assert_eq!(ht.get(&"key1".to_string()), Some(&"value1".to_string()));
}

#[test]
fn insert_existing_key_answers_old_value() {
    let mut ht: HashTable<String> = HashTable::new(10);
    handle_request(&mut ht, &request(MessageType::Insert, "key1", "old"));
    let req = request(MessageType::Insert, "key1", "new");
    let r = handle_request(&mut ht, &req);
    assert_eq!(r.typ, MessageType::InsertSuccess);
    assert_eq!(r.key, req.key);
    assert_eq!(r.value, Message::serliaize_value("old"));
    assert_eq!(ht.get(&"key1".to_string()), Some(&"new".to_string()));
}

#[test]
fn get_after_insert_echoes_value() {
    let mut ht: HashTable<String> = HashTable::new(10);
    let ins = request(MessageType::Insert, "key7", "value99");
    handle_request(&mut ht, &ins);
    let get = request(MessageType::Get, "key7", "");
    let r = handle_request(&mut ht, &get);
    assert_eq!(r.typ, MessageType::GetSuccess);
    assert_eq!(r.key, get.key);
    assert_eq!(r.value, ins.value);
}

#[test]
fn remove_after_insert_then_get_not_found() {
    let mut ht: HashTable<String> = HashTable::new(3);
    handle_request(&mut ht, &request(MessageType::Insert, "k", "v"));
    let rem = request(MessageType::Remove, "k", "");
    let r = handle_request(&mut ht, &rem);
    assert_eq!(r.typ, MessageType::RemoveSuccess);
    assert_eq!(r.key, rem.key);
    assert_eq!(r.value, Message::serliaize_value("v"));
    let r = handle_request(&mut ht, &request(MessageType::Get, "k", ""));
    assert_eq!(r.typ, MessageType::GetNotFound);
    assert!(ht.is_empty());
}

#[test]
fn remove_missing_key_is_not_found() {
    let mut ht: HashTable<String> = HashTable::new(3);
    let r = handle_request(&mut ht, &request(MessageType::Remove, "nothing", ""));
    assert_eq!(r.typ, MessageType::RemoveNotFound);
    assert_eq!(r.key, [0u8; KEY_SIZE]);
    assert_eq!(r.value, [0u8; VALUE_SIZE]);
}

#[test]
fn non_request_answered_empty_and_table_unchanged() {
    let mut ht: HashTable<String> = HashTable::new(3);
    handle_request(&mut ht, &request(MessageType::Insert, "k", "v"));
    for typ in [MessageType::Empty, MessageType::GetSuccess, MessageType::RemoveNotFound] {
        let r = handle_request(&mut ht, &request(typ, "k", "w"));
        assert_eq!(r.typ, MessageType::Empty);
        assert_eq!(r.key, [0u8; KEY_SIZE]);
        assert_eq!(r.value, [0u8; VALUE_SIZE]);
    }
    assert_eq!(ht.len(), 1);
    assert_eq!(ht.get(&"k".to_string()), Some(&"v".to_string()));
}

#[test]
fn keys_are_compared_as_text() {
    let mut ht: HashTable<String> = HashTable::new(10);
    handle_request(&mut ht, &request(MessageType::Insert, "key", "v"));
    let mut raw = Message::serliaize_key("key");
    raw[3] = 0;
    let get = Message { typ: MessageType::Get, key: raw, value: [0u8; VALUE_SIZE] };
    let r = handle_request(&mut ht, &get);
    assert_eq!(r.typ, MessageType::GetSuccess);
}
