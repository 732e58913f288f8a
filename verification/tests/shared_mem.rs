use shm_hashtable::message::{Message, MessageType};
use shm_hashtable::shared_mem::{QueueError, SharedMemory, Q_CAPACITY};

fn msg(typ: MessageType, key: &str) -> Message {
    Message { typ, key: Message::serliaize_key(key), value: Message::serliaize_value("") }
}

#[test]
fn zeroed_region_has_empty_queues() {
    let mut shm = SharedMemory::zeroed();
    assert_eq!(shm.dequeue_request().unwrap_err(), QueueError::Empty);
    assert_eq!(shm.dequeue_response().unwrap_err(), QueueError::Empty);
    assert_eq!(shm.req_size, 0);
    assert_eq!(shm.res_size, 0);
}

#[test]
fn requests_come_out_in_order() {
    let mut shm = SharedMemory::zeroed();
    for i in 0..5 {
        shm.enqueue_request(msg(MessageType::Get, &format!("k{}", i))).unwrap();
    }
    for i in 0..5 {
        let m = shm.dequeue_request().unwrap();
        assert_eq!(m.key, Message::serliaize_key(&format!("k{}", i)));
    }
    assert_eq!(shm.dequeue_request().unwrap_err(), QueueError::Empty);
}

#[test]
fn full_queue_refuses_and_keeps_state() {
    let mut shm = SharedMemory::zeroed();
    for i in 0..Q_CAPACITY {
        shm.enqueue_response(msg(MessageType::GetSuccess, &format!("k{}", i))).unwrap();
    }
    assert_eq!(shm.res_size, Q_CAPACITY);
    let (front, rear) = (shm.res_front, shm.res_rear);
    assert_eq!(shm.enqueue_response(msg(MessageType::GetSuccess, "extra")).unwrap_err(), QueueError::Full);
    assert_eq!((shm.res_front, shm.res_rear, shm.res_size), (front, rear, Q_CAPACITY));
    assert_eq!(shm.dequeue_response().unwrap().key, Message::serliaize_key("k0"));
}

#[test]
fn ring_wraps_around() {
    let mut shm = SharedMemory::zeroed();
    for round in 0..3 {
        for i in 0..7 {
            shm.enqueue_request(msg(MessageType::Insert, &format!("r{}i{}", round, i))).unwrap();
        }
        for i in 0..7 {
            let m = shm.dequeue_request().unwrap();
            assert_eq!(m.typ, MessageType::Insert);
            assert_eq!(m.key, Message::serliaize_key(&format!("r{}i{}", round, i)));
        }
    }
    assert_eq!(shm.req_front, 21 % Q_CAPACITY);
    assert_eq!(shm.req_rear, 21 % Q_CAPACITY);
}

#[test]
fn dequeue_blanks_the_slot() {
    let mut shm = SharedMemory::zeroed();
    shm.enqueue_response(msg(MessageType::RemoveSuccess, "a")).unwrap();
    let front = shm.res_front;
    shm.dequeue_response().unwrap();
    assert_eq!(shm.res_buffer[front].typ, MessageType::Empty);
    assert_eq!(shm.res_buffer[front].key, [0u8; 16]);
}

#[test]
fn queues_are_independent() {
    let mut shm = SharedMemory::zeroed();
    shm.enqueue_request(msg(MessageType::Get, "req")).unwrap();
    assert_eq!(shm.dequeue_response().unwrap_err(), QueueError::Empty);
    shm.enqueue_response(msg(MessageType::GetNotFound, "res")).unwrap();
    assert_eq!(shm.dequeue_request().unwrap().key, Message::serliaize_key("req"));
    assert_eq!(shm.dequeue_response().unwrap().key, Message::serliaize_key("res"));
}

#[test]
fn oversized_request_count_still_enqueues() {
    let mut shm = SharedMemory::zeroed();
    shm.req_size = Q_CAPACITY + 1;
    shm.req_rear = 3;
    shm.enqueue_request(msg(MessageType::Get, "late")).unwrap();
    assert_eq!(shm.req_size, Q_CAPACITY + 2);
    assert_eq!(shm.req_rear, 4);
    assert_eq!(shm.req_buffer[3].key, Message::serliaize_key("late"));
}

#[test]
fn dequeue_reads_front_slot_whatever_the_rear() {
    let mut shm = SharedMemory::zeroed();
    shm.res_buffer[6] = msg(MessageType::GetSuccess, "six");
    shm.res_front = 6;
    shm.res_size = 1;
    let m = shm.dequeue_response().unwrap();
    assert_eq!(m.key, Message::serliaize_key("six"));
    assert_eq!(shm.res_front, 7);
    assert_eq!(shm.res_size, 0);
}

#[test]
fn full_count_refuses_even_with_bad_rear() {
    let mut shm = SharedMemory::zeroed();
    shm.req_size = Q_CAPACITY;
    shm.req_rear = 99;
    assert_eq!(shm.enqueue_request(msg(MessageType::Get, "x")).unwrap_err(), QueueError::Full);
    assert_eq!(shm.req_rear, 99);
}
