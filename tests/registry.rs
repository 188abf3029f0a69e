use chat_relay::message::ChatMessage;
use chat_relay::reader::InboundReader;
use chat_relay::registry::Registry;

fn registry_of(ids: &[u64]) -> Registry<Vec<String>> {
    let mut r = Registry::new();
    for &id in ids {
        assert!(r.register(id, Vec::new()).is_ok());
    }
    r
}

#[test]
fn register_twice_keeps_one_entry() {
    let mut r: Registry<u32> = Registry::new();
    assert!(r.register(7, 1).is_ok());
    assert_eq!(r.register(7, 2), Err(2));
    assert_eq!(r.len(), 1);
    assert_eq!(r.unregister(7), Some(1));
    assert_eq!(r.len(), 0);
}

#[test]
fn unregister_absent_is_a_no_op() {
    let mut r: Registry<u32> = Registry::new();
    assert!(r.register(1, 10).is_ok());
    assert!(r.register(2, 20).is_ok());
    assert_eq!(r.unregister(3), None);
    assert_eq!(r.len(), 2);
    assert!(r.contains(1) && r.contains(2));
    assert_eq!(r.unregister(1), Some(10));
    assert_eq!(r.unregister(1), None);
    assert_eq!(r.len(), 1);
}

#[test]
fn broadcast_reaches_everyone_but_the_sender_in_order() {
    let r = registry_of(&[5, 3, 9, 1]);
    let b = r.broadcast_except(9, &ChatMessage::new("n".to_string(), "x".to_string()));
    assert_eq!(b.recipients, vec![5, 3, 1]);
    assert_eq!(b.payload, "n: x");
}

#[test]
fn broadcast_from_sole_member_reaches_no_one() {
    let r = registry_of(&[4]);
    assert!(r.recipients(4).is_empty());
    let empty: Registry<u8> = Registry::new();
    assert!(empty.recipients(4).is_empty());
}

#[test]
fn broadcast_from_unregistered_sender_reaches_all() {
    let r = registry_of(&[1, 2]);
    assert_eq!(r.recipients(8), vec![1, 2]);
}

#[test]
fn writer_of_registered_identity_is_reachable() {
    let mut r = registry_of(&[1, 2]);
    r.writer_mut(2).unwrap().push("hello".to_string());
    assert!(r.writer_mut(3).is_none());
    assert_eq!(r.writer_mut(2).unwrap().len(), 1);
    assert_eq!(r.writer_mut(1).unwrap().len(), 0);
    assert_eq!(r.recipients(0), vec![1, 2]);
}

#[test]
fn two_clients_one_message() {
    // Client A (1) and client B (2) are connected.
    let mut r = registry_of(&[1, 2]);
    let reader_a = InboundReader::new(1);
    // A's client sends "hello" as user "A".
    let sent = ChatMessage::new("A".to_string(), "hello".to_string()).encode();
    let item = reader_a.on_data(sent.as_bytes()).unwrap();
    assert_eq!(item.sender, 1);
    let plan = r.broadcast_except(item.sender, &item.message);
    assert_eq!(plan.recipients, vec![2]);
    for id in &plan.recipients {
        r.writer_mut(*id).unwrap().push(plan.payload.clone());
    }
    assert!(r.writer_mut(1).unwrap().is_empty());
    let to_b = r.writer_mut(2).unwrap().clone();
    assert_eq!(to_b.len(), 1);
    let at_b = ChatMessage::decode_bytes(to_b[0].as_bytes());
    assert_eq!(at_b.username, "A");
    // Each hop keeps the space of the separator: the wire has no trimming.
    assert_eq!(at_b.content, "  hello");
    assert_eq!(at_b.content.trim(), "hello");
}

#[test]
fn abrupt_disconnect_leaves_two_entries() {
    let mut r = registry_of(&[1, 2, 3]);
    let mut reader = InboundReader::new(2);
    assert!(!reader.is_closed());
    assert!(reader.on_error(&mut r).is_some());
    assert!(reader.is_closed());
    assert_eq!(r.len(), 2);
    assert!(!r.contains(2));
    let plan = r.broadcast_except(9, &ChatMessage::new("s".to_string(), "m".to_string()));
    assert_eq!(plan.recipients, vec![1, 3]);
}

#[test]
fn error_on_already_removed_connection_changes_nothing() {
    let mut r = registry_of(&[1, 3]);
    let mut reader = InboundReader::new(2);
    assert!(reader.on_error(&mut r).is_none());
    assert_eq!(r.len(), 2);
    assert_eq!(reader.id(), 2);
}

#[test]
fn failed_deliveries_leave_the_registry() {
    let mut r = registry_of(&[1, 2, 3, 4]);
    r.drop_failed(&vec![3, 9, 1]);
    assert_eq!(r.len(), 2);
    assert_eq!(r.recipients(0), vec![2, 4]);
    r.drop_failed(&vec![]);
    assert_eq!(r.recipients(0), vec![2, 4]);
}
