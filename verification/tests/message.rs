use shm_hashtable::message::{Message, MessageType, KEY_SIZE, VALUE_SIZE};
use shm_hashtable::{deserialize, serliaize};

#[test]
fn empty_message_is_zeroed() {
    let m = Message::empty();
    assert!(matches!(m.typ, MessageType::Empty));
    assert_eq!(m.key, [0u8; KEY_SIZE]);
    assert_eq!(m.value, [0u8; VALUE_SIZE]);
}

#[test]
fn type_codes() {
    assert_eq!(MessageType::Empty.code(), 0);
    assert_eq!(MessageType::Get.code(), 500);
    assert_eq!(MessageType::Insert.code(), 501);
    assert_eq!(MessageType::Remove.code(), 502);
    assert_eq!(MessageType::GetSuccess.code(), 600);
    assert_eq!(MessageType::GetNotFound.code(), 601);
    assert_eq!(MessageType::InsertSuccess.code(), 602);
    assert_eq!(MessageType::RemoveSuccess.code(), 603);
    assert_eq!(MessageType::RemoveNotFound.code(), 604);
}

#[test]
fn serialize_key_pads_with_zeros() {
    let k = Message::serliaize_key("abc");
    let mut expected = [0u8; KEY_SIZE];
    expected[..3].copy_from_slice(b"abc");
    assert_eq!(k, expected);
}

#[test]
fn serialize_key_truncates() {
    let k = Message::serliaize_key("0123456789abcdefXYZ");
    assert_eq!(&k[..], b"0123456789abcdef");
}

#[test]
fn serialize_value_pads_and_truncates() {
    let v = Message::serliaize_value("value7");
    assert_eq!(&v[..6], b"value7");
    assert!(v[6..].iter().all(|b| *b == 0));
    let long = "x".repeat(100);
    let v = Message::serliaize_value(&long);
    assert_eq!(v, [b'x'; VALUE_SIZE]);
}

#[test]
fn key_roundtrip() {
    for text in ["", "k", "key50", "exactly16bytes!!", "ключ"] {
        assert_eq!(Message::deserialize_key(Message::serliaize_key(text)), text);
    }
}

#[test]
fn value_roundtrip() {
    for text in ["", "v", "value1000", "héllo wörld"] {
        assert_eq!(Message::deserialize_value(Message::serliaize_value(text)), text);
    }
}

#[test]
fn roundtrip_drops_trailing_nuls() {
    assert_eq!(Message::deserialize_key(Message::serliaize_key("ab\0\0")), "ab");
    assert_eq!(Message::deserialize_key(Message::serliaize_key("a\0b")), "a\0b");
}

#[test]
fn deserialize_invalid_utf8_gives_empty() {
    let mut k = [0u8; KEY_SIZE];
    k[0] = 0xff;
    k[1] = b'a';
    assert_eq!(Message::deserialize_key(k), "");
    let mut v = [0u8; VALUE_SIZE];
    v[0] = 0xc3;
    assert_eq!(Message::deserialize_value(v), "");
}

#[test]
fn truncation_inside_a_character_gives_empty() {
    // 15 ASCII bytes and a two-byte character: the cut leaves half of it.
    let text = "aaaaaaaaaaaaaaaé";
    assert_eq!(Message::deserialize_key(Message::serliaize_key(text)), "");
}

#[test]
fn top_level_serliaize() {
    let b = serliaize("hi");
    let mut expected = [0u8; 16];
    expected[0] = b'h';
    expected[1] = b'i';
    assert_eq!(b, expected);
}

#[test]
fn top_level_deserialize_keeps_nuls() {
    let b = serliaize("hi");
    let text = deserialize(b);
    assert_eq!(text.len(), 16);
    assert_eq!(text, format!("hi{}", "\0".repeat(14)));
}

#[test]
fn reverse_roundtrip_gives_back_valid_fields() {
    let mut k = [0u8; KEY_SIZE];
    k[..6].copy_from_slice("é\0x".as_bytes().iter().chain(b"yz").cloned().collect::<Vec<u8>>().as_slice());
    assert_eq!(Message::serliaize_key(&Message::deserialize_key(k)), k);
    let v = Message::serliaize_value("value9");
    assert_eq!(Message::serliaize_value(&Message::deserialize_value(v)), v);
    let full = [b'q'; KEY_SIZE];
    assert_eq!(Message::serliaize_key(&Message::deserialize_key(full)), full);
}
