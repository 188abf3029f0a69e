use chat_relay::message::ChatMessage;
use chat_relay::reader::decode_read;

fn msg(u: &str, c: &str) -> ChatMessage {
    ChatMessage::new(u.to_string(), c.to_string())
}

#[test]
fn encode_puts_colon_and_space_between_fields() {
    assert_eq!(msg("alice", "hi there").encode(), "alice: hi there");
    assert_eq!(msg("", "").encode(), ": ");
}

#[test]
fn decode_splits_on_the_only_colon() {
    let m = ChatMessage::decode("user:content");
    assert_eq!(m.username, "user");
    assert_eq!(m.content, "content");
}

#[test]
fn decode_of_encode_keeps_username_and_spaced_content() {
    let original = msg("quiet-otter", "good morning");
    let back = ChatMessage::decode(&original.encode());
    assert_eq!(back.username, "quiet-otter");
    assert_eq!(back.content, " good morning");
}

#[test]
fn decode_without_colon_is_empty() {
    let m = ChatMessage::decode("no separator here");
    assert_eq!(m.username, "");
    assert_eq!(m.content, "");
}

#[test]
fn decode_with_two_colons_is_empty() {
    let m = ChatMessage::decode("a: b: c");
    assert_eq!(m.username, "");
    assert_eq!(m.content, "");
    let m = ChatMessage::decode("::");
    assert_eq!(m.username, "");
    assert_eq!(m.content, "");
}

#[test]
fn decode_of_empty_text_is_empty() {
    let m = ChatMessage::decode("");
    assert_eq!(m.username, "");
    assert_eq!(m.content, "");
}

#[test]
fn decode_colon_at_the_edges() {
    let m = ChatMessage::decode(":tail");
    assert_eq!(m.username, "");
    assert_eq!(m.content, "tail");
    let m = ChatMessage::decode("head:");
    assert_eq!(m.username, "head");
    assert_eq!(m.content, "");
}

#[test]
fn decode_keeps_multibyte_characters() {
    let m = ChatMessage::decode("žofie:čau ☕");
    assert_eq!(m.username, "žofie");
    assert_eq!(m.content, "čau ☕");
}

#[test]
fn garbage_bytes_decode_to_the_empty_message() {
    let m = ChatMessage::decode_bytes(b"garbage-no-colon");
    assert_eq!(m.username, "");
    assert_eq!(m.content, "");
}

#[test]
fn invalid_utf8_is_replaced_not_rejected() {
    let m = ChatMessage::decode_bytes(&[0xff, b':', b'x']);
    assert_eq!(m.username, "\u{FFFD}");
    assert_eq!(m.content, "x");
}

#[test]
fn merged_messages_in_one_read_decode_to_the_empty_message() {
    let m = ChatMessage::decode_bytes(b"a: one b: two");
    assert_eq!(m.username, "");
    assert_eq!(m.content, "");
}

#[test]
fn default_message_is_empty() {
    let m = ChatMessage::default();
    assert_eq!(m.username, "");
    assert_eq!(m.content, "");
}

#[test]
fn empty_read_yields_nothing() {
    assert!(decode_read(&[]).is_none());
    let m = decode_read(b"bob: hey").unwrap();
    assert_eq!(m.username, "bob");
    assert_eq!(m.content, " hey");
}
