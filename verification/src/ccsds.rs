//! CCSDS space packets: the wire format cFS speaks.
//!
//! A packet is a 6-byte primary header followed by a secondary header and the
//! payload. Telemetry carries a 6-byte timestamp (4 bytes of seconds, 2 of
//! 1/65536 s); commands carry a function code and a checksum byte.

use vstd::prelude::*;
use crate::bytes::{be16, be16_at, be32_at, push_all, push_be16, read_be16, read_be32, tail};
use crate::text::{decimal, push_decimal, push_text};

verus! {

/// The apid/stream identifier cFS calls a "MsgId". Telemetry lives at `0x08xx`,
/// commands at `0x18xx`.
pub type MsgId = u16;

/// cFE's event message stream. It is asynchronous rather than periodic, and it is
/// emitted during un-gated startup, so a run's timestamps are anchored to the
/// first *periodic* packet instead of this one.
pub const EVS_EVENT_MID: MsgId = 0x0808;

/// Bytes in front of a telemetry packet's contents: primary header and timestamp.
pub const TLM_HEADER: usize = 12;

/// The sequence counter has 14 bits, so it wraps here.
pub const SEQ_MODULUS: u16 = 0x4000;

/// A decoded telemetry packet.
#[derive(Debug, Clone, PartialEq, Eq)]
pub struct TlmPacket {
    pub msg_id: MsgId,
    /// 14-bit CCSDS sequence counter. Compare *deltas*, never absolutes: the
    /// counter includes every transmit since boot, and boot runs before the
    /// simulated clock exists.
    pub seq: u16,
    /// Mission elapsed seconds from the packet's secondary header.
    pub secs: u32,
    /// Subseconds, in units of 1/65536 s.
    pub subsecs: u16,
    /// Length of the whole packet on the wire.
    pub len: usize,
    /// The packet's contents, everything after the 12-byte header.
    pub payload: Vec<u8>,
}

/// Why a datagram is not a telemetry packet.
#[derive(Debug, Clone, Copy, PartialEq, Eq, Structural)]
pub enum PacketError {
    /// Fewer bytes than the header has.
    Short { len: usize },
}

impl PacketError {
    /// The error in words.
    pub open spec fn text(self) -> Seq<char> {
        match self {
            PacketError::Short { len } => "short packet: "@ + decimal(len as nat) + " bytes"@,
        }
    }

    /// The error in words.
    pub fn message(&self) -> (out: String)
        ensures
            out@ == self.text(),
    {
        let mut out: String = String::new();
        match self {
            PacketError::Short { len } => {
                push_text(&mut out, "short packet: ");
                push_decimal(&mut out, *len as u64);
                push_text(&mut out, " bytes");
            },
        }
        assert(out@ =~= self.text());
        out
    }
}

/// What a telemetry packet says.
#[verifier::ext_equal]
pub struct PacketView {
    pub msg_id: MsgId,
    pub seq: u16,
    pub secs: u32,
    pub subsecs: u16,
    pub len: usize,
    pub payload: Seq<u8>,
}

/// A timestamp as a whole number of 1/65536 s.
pub open spec fn stamp(secs: u32, subsecs: u16) -> int {
    secs * 0x1_0000 + subsecs
}

impl PacketView {
    /// The packet's time, in units of 1/65536 s.
    pub open spec fn time(self) -> int {
        stamp(self.secs, self.subsecs)
    }
}

impl View for TlmPacket {
    type V = PacketView;

    open spec fn view(&self) -> PacketView {
        PacketView {
            msg_id: self.msg_id,
            seq: self.seq,
            secs: self.secs,
            subsecs: self.subsecs,
            len: self.len,
            payload: self.payload@,
        }
    }
}

/// What the bytes of a telemetry packet say; meaningful from 12 bytes on.
pub open spec fn decoded(buf: Seq<u8>) -> PacketView {
    PacketView {
        msg_id: be16_at(buf, 0) as u16,
        // The two bits above the counter are sequence flags.
        seq: (be16_at(buf, 2) % SEQ_MODULUS as int) as u16,
        secs: be32_at(buf, 6) as u32,
        subsecs: be16_at(buf, 10) as u16,
        len: buf.len() as usize,
        payload: buf.skip(TLM_HEADER as int),
    }
}

impl TlmPacket {
    /// Time in seconds, as a fixed-point number with sixteen fractional bits.
    ///
    /// The 1/65536 field cannot always represent a whole number of 10 ms ticks
    /// exactly, so callers comparing runs should snap to the tick grid rather than
    /// compare this directly.
    pub fn time_secs(&self) -> (t: u64)
        ensures
            t == self@.time(),
    {
        self.secs as u64 * 0x1_0000 + self.subsecs as u64
    }

    /// Decode a datagram.
    pub fn parse(buf: &[u8]) -> (r: Result<Self, PacketError>)
        ensures
            buf@.len() < TLM_HEADER ==> r == Err::<Self, PacketError>(
                PacketError::Short { len: buf@.len() as usize },
            ),
            buf@.len() >= TLM_HEADER ==> r is Ok && r->Ok_0@ == decoded(buf@),
    {
        if buf.len() < TLM_HEADER {
            return Err(PacketError::Short { len: buf.len() });
        }
        Ok(
            TlmPacket {
                msg_id: read_be16(buf, 0),
                seq: read_be16(buf, 2) % SEQ_MODULUS,
                secs: read_be32(buf, 6),
                subsecs: read_be16(buf, 10),
                len: buf.len(),
                payload: tail(buf, TLM_HEADER),
            },
        )
    }
}

/// The exclusive or of all bytes.
pub open spec fn xor_all(s: Seq<u8>) -> u8
    decreases s.len(),
{
    if s.len() == 0 {
        0
    } else {
        xor_all(s.drop_last()) ^ s.last()
    }
}

/// A command's eight header bytes, with `sum` in the checksum's place.
///
/// The primary header is the message id, the sequence flags (`0xC000`,
/// unsegmented) and the length, which counts the bytes after the primary header,
/// minus one, in sixteen bits. Function code and checksum follow.
pub open spec fn command_header(msg_id: MsgId, fn_code: u8, payload_len: nat, sum: u8) -> Seq<u8> {
    be16(msg_id) + be16(0xC000) + be16(((payload_len + 1) % 0x1_0000) as u16) + seq![fn_code, sum]
}

/// The command packet: its checksum makes the exclusive or over the whole packet
/// come out to `0xFF`.
pub open spec fn command(msg_id: MsgId, fn_code: u8, payload: Seq<u8>) -> Seq<u8> {
    let blank = command_header(msg_id, fn_code, payload.len(), 0) + payload;
    command_header(msg_id, fn_code, payload.len(), xor_all(blank) ^ 0xFF) + payload
}

pub(crate) proof fn lemma_xor_concat(a: Seq<u8>, b: Seq<u8>)
    ensures
        xor_all(a + b) == xor_all(a) ^ xor_all(b),
    decreases b.len(),
{
    if b.len() == 0 {
        assert(a + b =~= a);
        let x = xor_all(a);
        assert(x ^ 0 == x) by (bit_vector);
    } else {
        assert((a + b).drop_last() =~= a + b.drop_last());
        lemma_xor_concat(a, b.drop_last());
        let x = xor_all(a);
        let y = xor_all(b.drop_last());
        let z = b.last();
        assert((x ^ y) ^ z == x ^ (y ^ z)) by (bit_vector);
    }
}

/// Every command packet satisfies cFE's checksum rule: the exclusive or over all
/// of its bytes is `0xFF`.
pub proof fn command_checksum_holds(msg_id: MsgId, fn_code: u8, payload: Seq<u8>)
    ensures
        xor_all(command(msg_id, fn_code, payload)) == 0xFF,
{
    let n = payload.len();
    let blank = command_header(msg_id, fn_code, n, 0) + payload;
    let sum = xor_all(blank) ^ 0xFF;
    let front = command_header(msg_id, fn_code, n, 0).take(7);
    assert(command_header(msg_id, fn_code, n, 0) =~= front + seq![0u8]);
    assert(command_header(msg_id, fn_code, n, sum) =~= front + seq![sum]);
    lemma_xor_concat(front, seq![0u8]);
    lemma_xor_concat(front, seq![sum]);
    lemma_xor_concat(command_header(msg_id, fn_code, n, 0), payload);
    lemma_xor_concat(command_header(msg_id, fn_code, n, sum), payload);
    reveal_with_fuel(xor_all, 2);
    let f = xor_all(front);
    let p = xor_all(payload);
    assert(seq![0u8].drop_last() =~= Seq::<u8>::empty());
    assert(seq![sum].drop_last() =~= Seq::<u8>::empty());
    assert((f ^ (0 ^ (((f ^ (0u8 ^ 0)) ^ p) ^ 0xFF))) ^ p == 0xFF) by (bit_vector);
}

/// Build a CCSDS command packet.
///
/// cFS accepts commands whose checksum does not satisfy the rule, because it does
/// not verify command checksums by default; this one always does.
pub fn build_command(msg_id: MsgId, fn_code: u8, payload: &[u8]) -> (pkt: Vec<u8>)
    ensures
        pkt@ == command(msg_id, fn_code, payload@),
        xor_all(pkt@) == 0xFF,
{
    let mut pkt: Vec<u8> = Vec::new();
    push_be16(&mut pkt, msg_id);
    push_be16(&mut pkt, 0xC000);
    let len: u16 = ((payload.len() % 0x1_0000 + 1) % 0x1_0000) as u16;
    push_be16(&mut pkt, len);
    pkt.push(fn_code);
    pkt.push(0);
    push_all(&mut pkt, payload);

    let ghost blank = pkt@;
    assert(blank =~= command_header(msg_id, fn_code, payload@.len(), 0) + payload@);

    let mut sum: u8 = 0;
    let mut i: usize = 0;
    while i < pkt.len()
        invariant
            i <= pkt@.len(),
            sum == xor_all(pkt@.take(i as int)),
        decreases pkt.len() - i,
    {
        assert(pkt@.take(i as int + 1).drop_last() =~= pkt@.take(i as int));
        sum = sum ^ pkt[i];
        i = i + 1;
    }
    assert(pkt@.take(pkt@.len() as int) =~= pkt@);
    pkt.set(7, sum ^ 0xFF);
    assert(pkt@ =~= command(msg_id, fn_code, payload@));
    proof {
        command_checksum_holds(msg_id, fn_code, payload@);
    }
    pkt
}

} // verus!
