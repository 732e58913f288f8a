use shm_hashtable::client::{generated_request, parse_command, random_request, CommandError};
use shm_hashtable::message::{Message, MessageType, VALUE_SIZE};

#[test]
fn parse_get() {
    let m = parse_command("get key1").unwrap();
    assert_eq!(m.typ, MessageType::Get);
    assert_eq!(m.key, Message::serliaize_key("key1"));
    assert_eq!(m.value, [0u8; VALUE_SIZE]);
}

#[test]
fn parse_insert_with_extra_whitespace() {
    let m = parse_command("  insert\tkey2   value2 \n").unwrap();
    assert_eq!(m.typ, MessageType::Insert);
    assert_eq!(m.key, Message::serliaize_key("key2"));
    assert_eq!(m.value, Message::serliaize_value("value2"));
}

#[test]
fn parse_remove() {
    let m = parse_command("remove k").unwrap();
    assert_eq!(m.typ, MessageType::Remove);
    assert_eq!(m.key, Message::serliaize_key("k"));
    assert_eq!(m.value, [0u8; VALUE_SIZE]);
}

#[test]
fn parse_too_few_words() {
    assert_eq!(parse_command("").unwrap_err(), CommandError::TooFewWords);
    assert_eq!(parse_command("get").unwrap_err(), CommandError::TooFewWords);
    assert_eq!(parse_command("   \n").unwrap_err(), CommandError::TooFewWords);
}

#[test]
fn parse_unknown_command() {
    assert_eq!(parse_command("put a b").unwrap_err(), CommandError::UnknownCommand);
    assert_eq!(parse_command("GET a").unwrap_err(), CommandError::UnknownCommand);
}

#[test]
fn parse_wrong_arity() {
    assert_eq!(parse_command("get a b").unwrap_err(), CommandError::WrongArity);
    assert_eq!(parse_command("insert a").unwrap_err(), CommandError::WrongArity);
    assert_eq!(parse_command("remove a b c").unwrap_err(), CommandError::WrongArity);
}

#[test]
fn generated_requests() {
    let g = generated_request(0, 17, 5);
    assert_eq!(g.typ, MessageType::Get);
    assert_eq!(g.key, Message::serliaize_key("key17"));
    assert_eq!(g.value, [0u8; VALUE_SIZE]);
    let i = generated_request(1, 3, 1000);
    assert_eq!(i.typ, MessageType::Insert);
    assert_eq!(i.key, Message::serliaize_key("key3"));
    assert_eq!(i.value, Message::serliaize_value("value1000"));
    let r = generated_request(2, 50, 0);
    assert_eq!(r.typ, MessageType::Remove);
    assert_eq!(r.key, Message::serliaize_key("key50"));
    assert_eq!(r.value, [0u8; VALUE_SIZE]);
    let z = generated_request(1, 0, 4294967295);
    assert_eq!(z.key, Message::serliaize_key("key0"));
    assert_eq!(z.value, Message::serliaize_value("value4294967295"));
}

#[test]
fn random_requests_stay_in_range() {
    for _ in 0..500 {
        let m = random_request();
        let key = Message::deserialize_key(m.key);
        let n: u32 = key.strip_prefix("key").unwrap().parse().unwrap();
        assert!((1..=50).contains(&n));
        match m.typ {
            MessageType::Insert => {
                let value = Message::deserialize_value(m.value);
                let v: u32 = value.strip_prefix("value").unwrap().parse().unwrap();
                assert!((1..=1000).contains(&v));
            }
            MessageType::Get | MessageType::Remove => assert_eq!(m.value, [0u8; VALUE_SIZE]),
            _ => panic!("unexpected type"),
        }
    }
}
