//! Application events decoded from bus payloads.
use vstd::prelude::*;
use crate::channel::same_bytes;

verus! {

/// The kinds of event that the bus carries, and the liveness ping.
#[derive(Clone, Copy, Debug, PartialEq, Eq, Structural)]
pub enum EventKind {
    Update,
    Notification,
    Delete,
    Conversation,
    Announcement,
    FilterChange,
    Ping,
}

/// An event: its kind and the JSON text of its payload (empty for the kinds
/// that carry none).
#[derive(Debug)]
pub struct Event {
    pub kind: EventKind,
    pub payload: Vec<u8>,
}

/// Why a payload gave no event.
#[derive(Debug, PartialEq, Eq, Structural)]
pub enum DecodeError {
    /// The `event` member is missing or not a string, or the text is not JSON.
    NotAnEvent,
    /// The `event` member names no known kind.
    UnknownEvent,
    /// The kind carries a payload but the `payload` member is missing.
    MissingPayload,
}

/// The string value of the member `key` of the JSON object `text`, as UTF-8
/// bytes; `None` when `text` is not a JSON object with such a string member.
pub uninterp spec fn json_str_member(text: Seq<u8>, key: Seq<char>) -> Option<Seq<u8>>;

/// The JSON text of the member `key` of the JSON object `text`; `None` when
/// `text` is not a JSON object with such a member.
pub uninterp spec fn json_member_text(text: Seq<u8>, key: Seq<char>) -> Option<Seq<u8>>;

/// Relies on `serde_json::from_slice` into a `serde_json::Value`, then
/// `Value::get` and `Value::as_str`: the named string member.
#[verifier::external_body]
fn str_member(text: &[u8], key: &str) -> (r: Option<Vec<u8>>)
    ensures
        match r {
            Some(v) => json_str_member(text@, key@) == Some(v@),
            None => json_str_member(text@, key@) is None,
        },
{
    let v: serde_json::Value = serde_json::from_slice(text).ok()?;
    v.get(key)?.as_str().map(|s| s.as_bytes().to_vec())
}

/// Relies on `serde_json::from_slice` into a `serde_json::Value`, then
/// `Value::get` and `Value::to_string`: the named member's JSON text.
#[verifier::external_body]
fn member_text(text: &[u8], key: &str) -> (r: Option<Vec<u8>>)
    ensures
        match r {
            Some(v) => json_member_text(text@, key@) == Some(v@),
            None => json_member_text(text@, key@) is None,
        },
{
    let v: serde_json::Value = serde_json::from_slice(text).ok()?;
    v.get(key).map(|m| m.to_string().into_bytes())
}

pub open spec fn update_word() -> Seq<u8> {
    seq![117u8, 112, 100, 97, 116, 101]
}

pub open spec fn notification_word() -> Seq<u8> {
    seq![110u8, 111, 116, 105, 102, 105, 99, 97, 116, 105, 111, 110]
}

pub open spec fn delete_word() -> Seq<u8> {
    seq![100u8, 101, 108, 101, 116, 101]
}

pub open spec fn conversation_word() -> Seq<u8> {
    seq![99u8, 111, 110, 118, 101, 114, 115, 97, 116, 105, 111, 110]
}

pub open spec fn announcement_word() -> Seq<u8> {
    seq![97u8, 110, 110, 111, 117, 110, 99, 101, 109, 101, 110, 116]
}

pub open spec fn filters_changed_word() -> Seq<u8> {
    seq![102u8, 105, 108, 116, 101, 114, 115, 95, 99, 104, 97, 110, 103, 101, 100]
}

/// The kind that an `event` member names on the bus.
pub open spec fn kind_named(name: Seq<u8>) -> Option<EventKind> {
    if name == update_word() {
        Some(EventKind::Update)
    } else if name == notification_word() {
        Some(EventKind::Notification)
    } else if name == delete_word() {
        Some(EventKind::Delete)
    } else if name == conversation_word() {
        Some(EventKind::Conversation)
    } else if name == announcement_word() {
        Some(EventKind::Announcement)
    } else if name == filters_changed_word() {
        Some(EventKind::FilterChange)
    } else {
        None
    }
}

/// Whether events of this kind carry a payload.
pub open spec fn carries_payload(k: EventKind) -> bool {
    !(k == EventKind::FilterChange || k == EventKind::Ping)
}

/// The event made of an `event` member's value and a `payload` member's
/// JSON text: the kind and payload, or the error.
pub open spec fn event_from(name: Option<Seq<u8>>, payload: Option<Seq<u8>>) -> Result<
    (EventKind, Seq<u8>),
    DecodeError,
> {
    match name {
        None => Err(DecodeError::NotAnEvent),
        Some(n) => match kind_named(n) {
            None => Err(DecodeError::UnknownEvent),
            Some(k) => if !carries_payload(k) {
                Ok((k, Seq::empty()))
            } else {
                match payload {
                    Some(p) => Ok((k, p)),
                    None => Err(DecodeError::MissingPayload),
                }
            },
        },
    }
}

pub open spec fn event_is(r: Result<Event, DecodeError>, m: Result<(EventKind, Seq<u8>), DecodeError>) -> bool {
    match (r, m) {
        (Ok(e), Ok((k, p))) => e.kind == k && e.payload@ == p,
        (Err(a), Err(b)) => a == b,
        _ => false,
    }
}

impl Event {
    /// The liveness event.
    pub fn ping() -> (r: Event)
        ensures
            r.kind == EventKind::Ping,
            r.payload@.len() == 0,
    {
        Event { kind: EventKind::Ping, payload: Vec::new() }
    }
}

/// Makes an event from the value of an `event` member and the JSON text of
/// a `payload` member.
pub fn event_from_fields(name: Option<&[u8]>, payload: Option<Vec<u8>>) -> (r: Result<Event, DecodeError>)
    ensures
        event_is(r, event_from(
            match name {
                Some(n) => Some(n@),
                None => None,
            },
            match payload {
                Some(p) => Some(p@),
                None => None,
            },
        )),
{
    let n = match name {
        Some(n) => n,
        None => {
            return Err(DecodeError::NotAnEvent);
        },
    };
    let update: [u8; 6] = [117, 112, 100, 97, 116, 101];
    let notification: [u8; 12] = [110, 111, 116, 105, 102, 105, 99, 97, 116, 105, 111, 110];
    let delete: [u8; 6] = [100, 101, 108, 101, 116, 101];
    let conversation: [u8; 12] = [99, 111, 110, 118, 101, 114, 115, 97, 116, 105, 111, 110];
    let announcement: [u8; 12] = [97, 110, 110, 111, 117, 110, 99, 101, 109, 101, 110, 116];
    let filters_changed: [u8; 15] = [102, 105, 108, 116, 101, 114, 115, 95, 99, 104, 97, 110, 103, 101, 100];
    assert(update@ == update_word());
    assert(notification@ == notification_word());
    assert(delete@ == delete_word());
    assert(conversation@ == conversation_word());
    assert(announcement@ == announcement_word());
    assert(filters_changed@ == filters_changed_word());
    let kind = if same_bytes(n, update.as_slice()) {
        EventKind::Update
    } else if same_bytes(n, notification.as_slice()) {
        EventKind::Notification
    } else if same_bytes(n, delete.as_slice()) {
        EventKind::Delete
    } else if same_bytes(n, conversation.as_slice()) {
        EventKind::Conversation
    } else if same_bytes(n, announcement.as_slice()) {
        EventKind::Announcement
    } else if same_bytes(n, filters_changed.as_slice()) {
        EventKind::FilterChange
    } else {
        return Err(DecodeError::UnknownEvent);
    };
    if kind == EventKind::FilterChange {
        return Ok(Event { kind, payload: Vec::new() });
    }
    match payload {
        Some(p) => Ok(Event { kind, payload: p }),
        None => Err(DecodeError::MissingPayload),
    }
}

/// Decodes a bus payload: a JSON object whose `event` member names the
/// kind and whose `payload` member carries the content.
pub fn event_from_json(text: &[u8]) -> (r: Result<Event, DecodeError>)
    ensures
        event_is(r, event_from(json_str_member(text@, "event"@), json_member_text(text@, "payload"@))),
{
    let name = str_member(text, "event");
    let payload = member_text(text, "payload");
    match name {
        Some(n) => event_from_fields(Some(n.as_slice()), payload),
        None => event_from_fields(None, payload),
    }
}

} // verus!
