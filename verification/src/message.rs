use vstd::prelude::*;

verus! {

/// Discriminates how an envelope is rendered; it never changes routing.
#[derive(Clone, Copy, Debug, PartialEq, Eq, Structural)]
pub enum MessageType {
    Text,
    Join,
    Leave,
    System,
}

/// One immutable unit of chat communication: identity, origin, payload,
/// timestamp and kind, fixed at construction and never mutated.
#[derive(Clone, Debug, PartialEq)]
pub struct ChatMessage {
    pub id: String,
    pub username: String,
    pub content: String,
    pub timestamp: u64,
    pub message_type: MessageType,
}

/// Mathematical image of an envelope: each text field as its sequence
/// of characters.
pub struct ChatMessageView {
    pub id: Seq<char>,
    pub username: Seq<char>,
    pub content: Seq<char>,
    pub timestamp: u64,
    pub message_type: MessageType,
}

impl View for ChatMessage {
    type V = ChatMessageView;

    open spec fn view(&self) -> ChatMessageView {
        ChatMessageView {
            id: self.id@,
            username: self.username@,
            content: self.content@,
            timestamp: self.timestamp,
            message_type: self.message_type,
        }
    }
}

pub open spec fn is_lower_hex_digit(c: char) -> bool {
    ('0' as int <= c as int && c as int <= '9' as int)
        || ('a' as int <= c as int && c as int <= 'f' as int)
}

/// Relies on uuid::Uuid::new_v4 and its simple formatter: a fresh random
/// identifier rendered as exactly 32 lowercase hexadecimal characters.
#[verifier::external_body]
fn fresh_id() -> (r: String)
    ensures
        r@.len() == 32,
        forall|i: int| 0 <= i < r@.len() ==> is_lower_hex_digit(#[trigger] r@[i]),
{
    uuid::Uuid::new_v4().as_simple().to_string()
}

/// Relies on std::time::SystemTime::now: the system clock read as whole
/// seconds since the Unix epoch. The value depends on the clock, so
/// nothing is promised of it.
#[verifier::external_body]
fn unix_now() -> u64 {
    match std::time::SystemTime::now().duration_since(std::time::UNIX_EPOCH) {
        Ok(d) => d.as_secs(),
        Err(_) => 0,
    }
}

impl ChatMessage {
    /// Builds a fresh envelope: a new unique id and the clock's current
    /// second are stamped on; the caller's fields are stored unchanged.
    pub fn new(username: String, content: String, message_type: MessageType) -> (r: Self)
        ensures
            r@.username == username@,
            r@.content == content@,
            r@.message_type == message_type,
            r@.id.len() == 32,
            forall|i: int| 0 <= i < r@.id.len() ==> is_lower_hex_digit(#[trigger] r@.id[i]),
    {
        ChatMessage {
            id: fresh_id(),
            username,
            content,
            timestamp: unix_now(),
            message_type,
        }
    }
}

} // verus!
