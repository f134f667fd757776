//! The replies to a lookup of a user or of a conversation: what was found,
//! or a note that nothing was.

use vstd::prelude::*;
use vstd::string::StringExecFns;

verus! {

/// The status of a reply that carries what was found.
pub const STATUS_OK: u16 = 200;

/// The status of a reply to a lookup that found nothing.
pub const STATUS_NOT_FOUND: u16 = 404;

/// A reply to a lookup: a status and a body of JSON text.
#[derive(Debug, PartialEq, Eq)]
pub struct Reply {
    pub status: u16,
    pub body: String,
}

/// A reply as a mathematical value.
pub struct ReplyView {
    pub status: u16,
    pub body: Seq<char>,
}

impl View for Reply {
    type V = ReplyView;

    open spec fn view(&self) -> ReplyView {
        ReplyView { status: self.status, body: self.body@ }
    }
}

/// The compact JSON text of an object with two members: `number` under
/// `number_key` and `text` under `text_key`, as `serde_json` writes it.
pub uninterp spec fn object_text(
    number_key: Seq<char>,
    number: u64,
    text_key: Seq<char>,
    text: Seq<char>,
) -> Seq<char>;

/// Calls `serde_json`: puts the two members into a `Map` (`Map::insert`, with
/// `Value::from` for the number and for the text), and formats
/// `Value::Object` of that map with `Value`'s `Display` (through
/// `to_string`), which writes compact JSON. What the text is, is not stated
/// here, and nothing of it is proved: it is named `object_text`, which says
/// only that the same arguments give the same text.
#[verifier::external_body]
fn write_object(number_key: &str, number: u64, text_key: &str, text: &str) -> (out: String)
    ensures
        out@ == object_text(number_key@, number, text_key@, text@),
{
    let mut members = serde_json::Map::new();
    members.insert(number_key.to_owned(), serde_json::Value::from(number));
    members.insert(text_key.to_owned(), serde_json::Value::from(text));
    serde_json::Value::Object(members).to_string()
}

/// The text that `uuid` writes for the id with the given value.
pub uninterp spec fn uuid_text(value: u128) -> Seq<char>;

/// Calls `uuid`: makes the id of the value with `Uuid::from_u128` and
/// formats it with `Uuid`'s `Display` (through `to_string`), which writes
/// the hyphenated form in lower case. What the text is, is not stated here,
/// and nothing of it is proved: it is named `uuid_text`, which says only that
/// the same value gives the same text.
#[verifier::external_body]
fn write_uuid(value: u128) -> (out: String)
    ensures
        out@ == uuid_text(value),
{
    uuid::Uuid::from_u128(value).to_string()
}

/// The body that tells of an error: an object with the status as `error`
/// and an explanation as `message`.
pub open spec fn error_body(status: u16, message: Seq<char>) -> Seq<char> {
    object_text("error"@, status as u64, "message"@, message)
}

/// The explanation when no user is found. `key` is what was looked for.
pub open spec fn user_missing(key: Seq<char>) -> Seq<char> {
    "No user found with phone: "@ + key
}

/// The explanation when no conversation belongs to the room.
pub open spec fn conversation_missing(room_id: Seq<char>) -> Seq<char> {
    "No conversation with room_id: "@ + room_id
}

/// What a reply to a lookup of a user is: the user, or the note that none
/// was found for `key`.
pub open spec fn user_answer(found: Option<String>, key: Seq<char>) -> ReplyView {
    match found {
        Some(json) => ReplyView { status: 200, body: json@ },
        None => ReplyView { status: 404, body: error_body(404, user_missing(key)) },
    }
}

/// What a reply to a lookup of a conversation is: the conversation, or the
/// note that none was found for the room.
pub open spec fn conversation_answer(found: Option<String>, room_id: Seq<char>) -> ReplyView {
    match found {
        Some(json) => ReplyView { status: 200, body: json@ },
        None => ReplyView { status: 404, body: error_body(404, conversation_missing(room_id)) },
    }
}

/// The reply to a lookup: what was found, as it is, or else the body that
/// was prepared for the case that nothing is found.
pub fn reply_for(found: Option<String>, missing: String) -> (reply: Reply)
    ensures
        reply@ == match found {
            Some(json) => (ReplyView { status: 200, body: json@ }),
            None => (ReplyView { status: 404, body: missing@ }),
        },
{
    match found {
        Some(json) => Reply { status: STATUS_OK, body: json },
        None => Reply { status: STATUS_NOT_FOUND, body: missing },
    }
}

/// The body of the reply to a lookup that found nothing, with its explanation.
pub fn not_found_body(message: &str) -> (body: String)
    ensures
        body@ == error_body(404, message@),
{
    write_object("error", 404, "message", message)
}

/// The text of an id.
pub fn id_text(id: u128) -> (out: String)
    ensures
        out@ == uuid_text(id),
{
    write_uuid(id)
}

/// The reply to the lookup of a user by a key that is given as text, such
/// as a phone number. `found` is the user as JSON text.
pub fn user_reply_for_key(found: Option<String>, key: &str) -> (reply: Reply)
    ensures
        reply@ == user_answer(found, key@),
{
    if found.is_some() {
        return reply_for(found, String::new());
    }
    let mut message = String::from_str("No user found with phone: ");
    message.append(key);
    reply_for(found, not_found_body(message.as_str()))
}

/// The reply to the lookup of a conversation by the id of its room, given
/// as text. `found` is the conversation as JSON text.
pub fn conversation_reply_for_key(found: Option<String>, room_id: &str) -> (reply: Reply)
    ensures
        reply@ == conversation_answer(found, room_id@),
{
    if found.is_some() {
        return reply_for(found, String::new());
    }
    let mut message = String::from_str("No conversation with room_id: ");
    message.append(room_id);
    reply_for(found, not_found_body(message.as_str()))
}

/// The reply to the lookup of a user by id. `found` is the user as JSON text.
pub fn user_reply(found: Option<String>, id: u128) -> (reply: Reply)
    ensures
        reply@ == user_answer(found, uuid_text(id)),
{
    if found.is_some() {
        return reply_for(found, String::new());
    }
    user_reply_for_key(found, id_text(id).as_str())
}

/// The reply to the lookup of a conversation by the id of its room. `found`
/// is the conversation as JSON text.
pub fn conversation_reply(found: Option<String>, room_id: u128) -> (reply: Reply)
    ensures
        reply@ == conversation_answer(found, uuid_text(room_id)),
{
    if found.is_some() {
        return reply_for(found, String::new());
    }
    conversation_reply_for_key(found, id_text(room_id).as_str())
}

} // verus!
