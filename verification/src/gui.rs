//! What the ground station window shows and reads, apart from drawing it.

use vstd::prelude::*;
use crate::ccsds::MsgId;
use crate::fsw::STATE_TLM_MID;
use crate::text::{number, parse_number, trim, trimmed};
use crate::text_laws::{a_number_is_read_as_it_shows, shown};

verus! {

/// The name of a well-known message id; empty for others.
pub open spec fn name_of(msg_id: MsgId) -> Seq<char> {
    if msg_id == STATE_TLM_MID {
        "BESOM_IO state"@
    } else if msg_id == 0x0800 {
        "cFE ES"@
    } else if msg_id == 0x0801 {
        "cFE EVS"@
    } else if msg_id == 0x0803 {
        "cFE SB"@
    } else if msg_id == 0x0804 {
        "cFE TBL"@
    } else if msg_id == 0x0805 {
        "cFE TIME"@
    } else if msg_id == 0x0808 {
        "EVS events"@
    } else if msg_id == 0x0880 {
        "TO_LAB"@
    } else if msg_id == 0x0883 {
        "SAMPLE_APP"@
    } else if msg_id == 0x0884 {
        "CI_LAB"@
    } else if msg_id == 0x08a4 {
        "CS"@
    } else if msg_id == 0x08ad {
        "HS"@
    } else {
        ""@
    }
}

/// Well-known message ids, so the operator sees names rather than hex.
pub fn stream_name(msg_id: MsgId) -> (name: &'static str)
    ensures
        name@ == name_of(msg_id),
{
    if msg_id == STATE_TLM_MID {
        return "BESOM_IO state";
    }
    match msg_id {
        0x0800 => "cFE ES",
        0x0801 => "cFE EVS",
        0x0803 => "cFE SB",
        0x0804 => "cFE TBL",
        0x0805 => "cFE TIME",
        0x0808 => "EVS events",
        0x0880 => "TO_LAB",
        0x0883 => "SAMPLE_APP",
        0x0884 => "CI_LAB",
        0x08a4 => "CS",
        0x08ad => "HS",
        _ => "",
    }
}

/// The command that the operator typed in: a message id in hex and a function code
/// in decimal, with white space around either. `None` unless both are numbers that
/// fit.
pub open spec fn command_typed(mid: Seq<char>, fn_code: Seq<char>) -> Option<(MsgId, u8)> {
    match (number(trimmed(mid), 16, 0xFFFF), number(trimmed(fn_code), 10, 0xFF)) {
        (Some(m), Some(f)) => Some((m as u16, f as u8)),
        _ => None,
    }
}

/// Read the command that the operator typed in: MsgId is hex, fn is decimal.
pub fn parse_command(mid: &str, fn_code: &str) -> (r: Option<(MsgId, u8)>)
    ensures
        r == command_typed(mid@, fn_code@),
{
    let mid: String = trim(mid);
    let fn_code: String = trim(fn_code);
    match (parse_number(mid.as_str(), 16, 0xFFFF), parse_number(fn_code.as_str(), 10, 0xFF)) {
        (Some(m), Some(f)) => Some((m as u16, f as u8)),
        _ => None,
    }
}

/// Twelve messages have a name, each its own, and no other message has one.
pub proof fn each_known_message_has_its_own_name(a: MsgId, b: MsgId)
    ensures
        name_of(a).len() > 0 <==> (a == 0x0800 || a == 0x0801 || (0x0803 <= a <= 0x0805) || a
            == 0x0808 || a == 0x0880 || a == 0x0883 || a == 0x0884 || a == 0x08a4 || a == 0x08ad
            || a == 0x08f0),
        name_of(a).len() > 0 && name_of(a) == name_of(b) ==> a == b,
{
    reveal_strlit("BESOM_IO state");
    reveal_strlit("cFE ES");
    reveal_strlit("cFE EVS");
    reveal_strlit("cFE SB");
    reveal_strlit("cFE TBL");
    reveal_strlit("cFE TIME");
    reveal_strlit("EVS events");
    reveal_strlit("TO_LAB");
    reveal_strlit("SAMPLE_APP");
    reveal_strlit("CI_LAB");
    reveal_strlit("CS");
    reveal_strlit("HS");
    reveal_strlit("");
    if name_of(a) == name_of(b) && name_of(a).len() > 4 {
        assert(name_of(a)[0] == name_of(b)[0]);
        assert(name_of(a)[4] == name_of(b)[4]);
        assert(name_of(a)[5] == name_of(b)[5]);
    }
    if name_of(a) == name_of(b) && name_of(a).len() > 0 {
        assert(name_of(a)[0] == name_of(b)[0]);
    }
}

/// A command is taken exactly if both fields show a number that fits, and it is those
/// two numbers, whatever white space stands around them.
pub proof fn a_command_is_what_was_typed(mid: Seq<char>, fn_code: Seq<char>)
    ensures
        command_typed(mid, fn_code) is Some <==> {
            &&& shown(trimmed(mid), 16) matches Some(m)
            &&& shown(trimmed(fn_code), 10) matches Some(f)
            &&& m <= 0xFFFF
            &&& f <= 0xFF
        },
        command_typed(mid, fn_code) matches Some(c) ==> {
            &&& c.0 == shown(trimmed(mid), 16)->Some_0
            &&& c.1 == shown(trimmed(fn_code), 10)->Some_0
        },
{
    a_number_is_read_as_it_shows(trimmed(mid), 16, 0xFFFF);
    a_number_is_read_as_it_shows(trimmed(fn_code), 10, 0xFF);
}

} // verus!
