//! cFE event messages (EVS long-format telemetry, MID `0x0808`).
//!
//! This is the flight software talking: app name, event id, severity, text. A
//! ground station that only renders numeric telemetry and drops these is throwing
//! away the one stream that says *why* something happened.
//!
//! Two things trip you up:
//!
//! * The telemetry header is **16 bytes**, not 12: `CFE_MSG_TelemetryHeader_t`
//!   carries a 4-byte spare after the timestamp.
//! * The payload fields are **little-endian** (host order). Only the CCSDS primary
//!   header is big-endian.
//!
//! ```text
//!   16: AppName[20]  36: EventID:u16le  38: EventType:u16le
//!   40: SpacecraftID:u32le  44: ProcessorID:u32le  48: Message[..]
//! ```

use vstd::prelude::*;
use vstd::slice::slice_subrange;
use vstd::utf8::{decode_utf8, valid_utf8};
use crate::bytes::{le16_at, read_le16};
use crate::ccsds::{MsgId, EVS_EVENT_MID};
use crate::text::{trim, trimmed};

verus! {

/// Where the name of the app stands.
pub const APP_NAME: usize = 16;

/// Where the event id stands, right behind the name.
pub const EVENT_ID: usize = 36;

/// Where the event type stands.
pub const EVENT_TYPE: usize = 38;

/// Where the message stands. It runs to the end of the packet.
pub const MESSAGE: usize = 48;

#[derive(Debug, Clone, Copy, PartialEq, Eq, Structural)]
pub enum Severity {
    Debug,
    Info,
    Error,
    Critical,
}

/// The severity of an event type (`CFE_EVS_EventType_*`). One that cFE does not
/// have counts as information.
pub open spec fn severity_of(t: u16) -> Severity {
    if t == 1 {
        Severity::Debug
    } else if t == 3 {
        Severity::Error
    } else if t == 4 {
        Severity::Critical
    } else {
        Severity::Info
    }
}

/// How a severity is written.
pub open spec fn label_of(s: Severity) -> Seq<char> {
    match s {
        Severity::Debug => "DEBUG"@,
        Severity::Info => "INFO"@,
        Severity::Error => "ERROR"@,
        Severity::Critical => "CRIT"@,
    }
}

impl Severity {
    pub fn from_event_type(t: u16) -> (s: Self)
        ensures
            s == severity_of(t),
    {
        match t {
            1 => Severity::Debug,
            2 => Severity::Info,
            3 => Severity::Error,
            4 => Severity::Critical,
            _ => Severity::Info,
        }
    }

    pub fn label(self) -> (s: &'static str)
        ensures
            s@ == match self {
                Severity::Debug => "DEBUG"@,
                Severity::Info => "INFO"@,
                Severity::Error => "ERROR"@,
                Severity::Critical => "CRIT"@,
            },
            s@ == label_of(self),
    {
        match self {
            Severity::Debug => "DEBUG",
            Severity::Info => "INFO",
            Severity::Error => "ERROR",
            Severity::Critical => "CRIT",
        }
    }
}

#[derive(Debug, Clone)]
pub struct Event {
    pub app: String,
    pub event_id: u16,
    pub severity: Severity,
    pub text: String,
}

/// What an event says.
#[verifier::ext_equal]
pub struct EventView {
    pub app: Seq<char>,
    pub event_id: u16,
    pub severity: Severity,
    pub text: Seq<char>,
}

impl View for Event {
    type V = EventView;

    open spec fn view(&self) -> EventView {
        EventView {
            app: self.app@,
            event_id: self.event_id,
            severity: self.severity,
            text: self.text@,
        }
    }
}

/// The text that `String::from_utf8_lossy` makes of bytes.
pub uninterp spec fn utf8_lossy(bytes: Seq<u8>) -> Seq<char>;

/// `String::from_utf8_lossy`: the text of the bytes, with a replacement character
/// where they are no UTF-8. The text is a function of the bytes alone, and for
/// valid UTF-8 it is what the bytes encode. Which invalid bytes share one
/// replacement character is left unsaid.
#[verifier::external_body]
fn from_utf8_lossy(bytes: &[u8]) -> (text: String)
    ensures
        text@ == utf8_lossy(bytes@),
        valid_utf8(bytes@) ==> text@ == decode_utf8(bytes@),
{
    String::from_utf8_lossy(bytes).into_owned()
}

/// How many bytes stand in front of the first NUL, all of them if there is none.
pub open spec fn nul_at(s: Seq<u8>) -> nat
    decreases s.len(),
{
    if s.len() == 0 || s[0] == 0 {
        0
    } else {
        1 + nul_at(s.drop_first())
    }
}

/// A fixed-width field up to its NUL.
pub open spec fn until_nul(s: Seq<u8>) -> Seq<u8> {
    s.take(nul_at(s) as int)
}

/// The text of a NUL-terminated, fixed-width field.
pub open spec fn field_text(s: Seq<u8>) -> Seq<char> {
    trimmed(utf8_lossy(until_nul(s)))
}

/// The field is cut in front of its first NUL: no byte of it is NUL, and either it
/// is the whole field or a NUL follows.
pub proof fn a_field_ends_at_its_first_nul(s: Seq<u8>)
    ensures
        nul_at(s) <= s.len(),
        forall|i: int| 0 <= i < nul_at(s) ==> #[trigger] s[i] != 0,
        nul_at(s) < s.len() ==> s[nul_at(s) as int] == 0,
    decreases s.len(),
{
    if s.len() > 0 && s[0] != 0 {
        let rest = s.drop_first();
        a_field_ends_at_its_first_nul(rest);
        assert forall|i: int| 0 <= i < nul_at(s) implies #[trigger] s[i] != 0 by {
            if i > 0 {
                assert(s[i] == rest[i - 1]);
            }
        }
    }
}

/// Read a NUL-terminated, fixed-width field.
pub fn cstr(bytes: &[u8]) -> (text: String)
    ensures
        text@ == field_text(bytes@),
        valid_utf8(until_nul(bytes@)) ==> text@ == trimmed(decode_utf8(until_nul(bytes@))),
{
    let mut end: usize = 0;
    assert(bytes@.skip(0) =~= bytes@);
    while end < bytes.len() && bytes[end] != 0
        invariant
            end <= bytes@.len(),
            nul_at(bytes@) == end + nul_at(bytes@.skip(end as int)),
        decreases bytes.len() - end,
    {
        assert(bytes@.skip(end as int).drop_first() =~= bytes@.skip(end as int + 1));
        end = end + 1;
    }
    let field = slice_subrange(bytes, 0, end);
    assert(field@ =~= until_nul(bytes@));
    let text: String = from_utf8_lossy(field);
    trim(text.as_str())
}

/// What an event packet says, with its two texts as decoded.
pub open spec fn event(buf: Seq<u8>, app: Seq<char>, text: Seq<char>) -> EventView {
    EventView {
        app,
        event_id: le16_at(buf, EVENT_ID as int) as u16,
        severity: severity_of(le16_at(buf, EVENT_TYPE as int) as u16),
        text,
    }
}

/// The field that holds the name of the app.
pub open spec fn app_field(buf: Seq<u8>) -> Seq<u8> {
    buf.subrange(APP_NAME as int, EVENT_ID as int)
}

/// The field that holds the message.
pub open spec fn message_field(buf: Seq<u8>) -> Seq<u8> {
    buf.skip(MESSAGE as int)
}

/// Is this an event packet, and whole?
pub open spec fn is_event(msg_id: MsgId, buf: Seq<u8>) -> bool {
    msg_id == EVS_EVENT_MID && buf.len() >= MESSAGE
}

/// What a packet says, if it is an event packet.
pub open spec fn event_in(msg_id: MsgId, buf: Seq<u8>) -> Option<EventView> {
    if is_event(msg_id, buf) {
        Some(event(buf, field_text(app_field(buf)), field_text(message_field(buf))))
    } else {
        None
    }
}

/// The view of an event, where there is one.
pub open spec fn event_view(e: Option<Event>) -> Option<EventView> {
    match e {
        Some(e) => Some(e@),
        None => None,
    }
}

/// Decode an event packet. `None` if this is not one, or it is malformed.
pub fn parse(msg_id: MsgId, buf: &[u8]) -> (r: Option<Event>)
    ensures
        event_view(r) == event_in(msg_id, buf@),
        r is Some && valid_utf8(until_nul(app_field(buf@))) && valid_utf8(
            until_nul(message_field(buf@)),
        ) ==> r->0@ == event(
            buf@,
            trimmed(decode_utf8(until_nul(app_field(buf@)))),
            trimmed(decode_utf8(until_nul(message_field(buf@)))),
        ),
{
    if msg_id != EVS_EVENT_MID || buf.len() < MESSAGE {
        return None;
    }
    let name = slice_subrange(buf, APP_NAME, EVENT_ID);
    let message = slice_subrange(buf, MESSAGE, buf.len());
    assert(message@ =~= message_field(buf@));
    let app: String = cstr(name);
    let text: String = cstr(message);
    Some(
        Event {
            app,
            event_id: read_le16(buf, EVENT_ID),
            severity: Severity::from_event_type(read_le16(buf, EVENT_TYPE)),
            text,
        },
    )
}

} // verus!
