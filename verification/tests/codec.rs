use terminal_chat::codec::DecodeError;
use terminal_chat::message::ChatMessage;
use terminal_chat::message::MessageType;

fn sample(kind: MessageType) -> ChatMessage {
    ChatMessage {
        id: "0123456789abcdef0123456789abcdef".to_string(),
        username: "alice".to_string(),
        content: "hello there".to_string(),
        timestamp: 1700000000,
        message_type: kind,
    }
}

#[test]
fn round_trip_text() {
    let m = sample(MessageType::Text);
    let back = ChatMessage::from_json(&m.to_json()).unwrap();
    assert_eq!(back, m);
}

#[test]
fn round_trip_join() {
    let m = sample(MessageType::Join);
    let back = ChatMessage::from_json(&m.to_json()).unwrap();
    assert_eq!(back, m);
}

#[test]
fn round_trip_leave() {
    let m = sample(MessageType::Leave);
    let back = ChatMessage::from_json(&m.to_json()).unwrap();
    assert_eq!(back, m);
}

#[test]
fn round_trip_system() {
    let m = sample(MessageType::System);
    let back = ChatMessage::from_json(&m.to_json()).unwrap();
    assert_eq!(back, m);
}

#[test]
fn exact_wire_form() {
    let m = sample(MessageType::Text);
    assert_eq!(
        m.to_json(),
        "{\"id\":\"0123456789abcdef0123456789abcdef\",\"username\":\"alice\",\
         \"content\":\"hello there\",\"timestamp\":1700000000,\"message_type\":\"Text\"}"
    );
}

#[test]
fn round_trip_awkward_content() {
    let mut m = sample(MessageType::Text);
    m.content = "say \"hi\"\\ and\nmore\r\ttabs".to_string();
    m.username = "we\"ird\\user".to_string();
    let wire = m.to_json();
    assert!(!wire.contains('\n'));
    let back = ChatMessage::from_json(&wire).unwrap();
    assert_eq!(back, m);
}

#[test]
fn round_trip_empty_fields() {
    let mut m = sample(MessageType::System);
    m.content = String::new();
    m.username = String::new();
    m.id = String::new();
    m.timestamp = 0;
    let back = ChatMessage::from_json(&m.to_json()).unwrap();
    assert_eq!(back, m);
}

#[test]
fn round_trip_max_timestamp() {
    let mut m = sample(MessageType::Text);
    m.timestamp = u64::MAX;
    let back = ChatMessage::from_json(&m.to_json()).unwrap();
    assert_eq!(back, m);
}

#[test]
fn decode_rejects_garbage() {
    assert_eq!(
        ChatMessage::from_json("not a protocol message"),
        Err(DecodeError::Malformed)
    );
    assert_eq!(ChatMessage::from_json(""), Err(DecodeError::Malformed));
}

#[test]
fn decode_rejects_bad_kind() {
    let wire = "{\"id\":\"x\",\"username\":\"a\",\"content\":\"b\",\
                \"timestamp\":1,\"message_type\":\"Shout\"}";
    assert_eq!(ChatMessage::from_json(wire), Err(DecodeError::Malformed));
}

#[test]
fn decode_rejects_oversized_timestamp() {
    let wire = "{\"id\":\"x\",\"username\":\"a\",\"content\":\"b\",\
                \"timestamp\":99999999999999999999,\"message_type\":\"Text\"}";
    assert_eq!(ChatMessage::from_json(wire), Err(DecodeError::Malformed));
}

#[test]
fn decode_rejects_trailing_data() {
    let m = sample(MessageType::Text);
    let mut wire = m.to_json();
    wire.push_str("extra");
    assert_eq!(ChatMessage::from_json(&wire), Err(DecodeError::Malformed));
}

#[test]
fn decode_rejects_bad_escape() {
    let wire = "{\"id\":\"\\q\",\"username\":\"a\",\"content\":\"b\",\
                \"timestamp\":1,\"message_type\":\"Text\"}";
    assert_eq!(ChatMessage::from_json(wire), Err(DecodeError::Malformed));
}

#[test]
fn constructed_envelope_has_fresh_id() {
    let m = ChatMessage::new("alice".to_string(), "hi".to_string(), MessageType::Text);
    assert_eq!(m.id.len(), 32);
    assert!(m.id.chars().all(|c| c.is_ascii_hexdigit() && !c.is_ascii_uppercase()));
    let m2 = ChatMessage::new("alice".to_string(), "hi".to_string(), MessageType::Text);
    assert_ne!(m.id, m2.id);
    assert_eq!(m.username, "alice");
    assert_eq!(m.content, "hi");
    assert_eq!(m.message_type, MessageType::Text);
}
