//! The link to `besom_io`, the sensor bridge running inside cFS.
//!
//! This is what closes the loop. Besom pushes simulated vehicle state into the
//! flight software; `besom_io` publishes it on the software bus; TO_LAB downlinks
//! it; the ground station reads it back. The state on screen has then travelled
//! *through* cFS rather than being Besom's own copy of it.
//!
//! A double is carried as its 64-bit pattern: this link copies numbers, it does
//! not compute with them.

use vstd::prelude::*;
use crate::bytes::{
    le32, le32_at, le32_reads_back, le64, le64_at, le64_reads_back, push_le32, push_le64,
    read_le32, read_le64,
};
use crate::ccsds::{build_command, command, MsgId};

verus! {

/// Where `besom_io` listens for vehicle state.
pub const STATE_PORT: u16 = 5010;

/// What `besom_io` publishes on the software bus.
pub const STATE_TLM_MID: MsgId = 0x08F0;

/// TO_LAB's command message.
pub const TO_LAB_CMD_MID: MsgId = 0x1880;

/// TO_LAB's command to downlink a stream.
pub const TO_LAB_ADD_PKT_CC: u8 = 2;

/// Bytes in front of the state in a telemetry packet. A telemetry header carries a
/// 4-byte spare after the timestamp, so it has 16 bytes, not 12.
pub const STATE_OFFSET: usize = 16;

/// Bytes of the state itself: ten doubles.
pub const STATE_LEN: usize = 80;

/// Bytes a state packet has at least: header, state and two counters.
pub const STATE_PACKET_LEN: usize = 104;

/// The vehicle's state as it is handed to the flight software: ten doubles, each
/// as its bit pattern. Position in km, velocity in km/s.
#[derive(Debug, Clone, Copy)]
pub struct VehicleState {
    pub pos_x: u64,
    pub pos_y: u64,
    pub pos_z: u64,
    pub vel_x: u64,
    pub vel_y: u64,
    pub vel_z: u64,
    pub alt_km: u64,
    pub lat_deg: u64,
    pub lon_deg: u64,
    pub roll: u64,
}

/// The state wire format, matching `BESOM_IO_State_t` exactly.
pub open spec fn encoded(v: VehicleState) -> Seq<u8> {
    le64(v.pos_x) + le64(v.pos_y) + le64(v.pos_z) + le64(v.vel_x) + le64(v.vel_y) + le64(v.vel_z)
        + le64(v.alt_km) + le64(v.lat_deg) + le64(v.lon_deg) + le64(v.roll)
}

/// The state wire format, matching `BESOM_IO_State_t` exactly.
///
/// Native little-endian doubles, no CCSDS framing: this is a host-to-host
/// simulation link, not a spacecraft downlink.
pub fn encode_state(v: &VehicleState) -> (out: Vec<u8>)
    ensures
        out@ == encoded(*v),
        out@.len() == STATE_LEN,
{
    let mut out: Vec<u8> = Vec::new();
    push_le64(&mut out, v.pos_x);
    push_le64(&mut out, v.pos_y);
    push_le64(&mut out, v.pos_z);
    push_le64(&mut out, v.vel_x);
    push_le64(&mut out, v.vel_y);
    push_le64(&mut out, v.vel_z);
    push_le64(&mut out, v.alt_km);
    push_le64(&mut out, v.lat_deg);
    push_le64(&mut out, v.lon_deg);
    push_le64(&mut out, v.roll);
    assert(out@ =~= encoded(*v));
    out
}

/// Vehicle state as the FLIGHT SOFTWARE reports it, decoded from `0x08F0`.
///
/// If this ever disagrees with Besom's own model, the loop is broken.
#[derive(Debug, Clone, Copy)]
pub struct FswState {
    pub alt_km: u64,
    pub lat_deg: u64,
    pub lon_deg: u64,
    pub roll: u64,
    /// State datagrams cFS has accepted. Should climb steadily; a stall means the
    /// flight software has stopped hearing us.
    pub rx_count: u32,
    pub rx_err_count: u32,
}

/// A double's bit pattern without its sign.
pub open spec fn magnitude(bits: u64) -> u64 {
    bits % 0x8000_0000_0000_0000
}

/// Is this the bit pattern of a double that is not a number?
pub open spec fn is_nan(bits: u64) -> bool {
    magnitude(bits) > 0x7FF0_0000_0000_0000
}

/// Are two doubles equal, by their bit patterns? What is not a number equals nothing,
/// and the two zeros equal each other.
pub open spec fn doubles_equal(a: u64, b: u64) -> bool {
    (a == b && !is_nan(a)) || (magnitude(a) == 0 && magnitude(b) == 0)
}

fn same_double(a: u64, b: u64) -> (r: bool)
    ensures
        r == doubles_equal(a, b),
{
    let size_a: u64 = a % 0x8000_0000_0000_0000;
    let size_b: u64 = b % 0x8000_0000_0000_0000;
    (a == b && size_a <= 0x7FF0_0000_0000_0000) || (size_a == 0 && size_b == 0)
}

impl PartialEq for FswState {
    fn eq(&self, other: &FswState) -> (r: bool) {
        same_double(self.alt_km, other.alt_km) && same_double(self.lat_deg, other.lat_deg)
            && same_double(self.lon_deg, other.lon_deg) && same_double(self.roll, other.roll)
            && self.rx_count == other.rx_count && self.rx_err_count == other.rx_err_count
    }
}

impl vstd::std_specs::cmp::PartialEqSpecImpl for FswState {
    open spec fn obeys_eq_spec() -> bool {
        true
    }

    open spec fn eq_spec(&self, other: &FswState) -> bool {
        &&& doubles_equal(self.alt_km, other.alt_km)
        &&& doubles_equal(self.lat_deg, other.lat_deg)
        &&& doubles_equal(self.lon_deg, other.lon_deg)
        &&& doubles_equal(self.roll, other.roll)
        &&& self.rx_count == other.rx_count
        &&& self.rx_err_count == other.rx_err_count
    }
}

impl FswState {
    /// Nothing reported: all zero.
    pub open spec fn zero() -> FswState {
        FswState { alt_km: 0, lat_deg: 0, lon_deg: 0, roll: 0, rx_count: 0, rx_err_count: 0 }
    }
}

impl Default for FswState {
    fn default() -> (s: FswState)
        ensures
            s == FswState::zero(),
    {
        FswState { alt_km: 0, lat_deg: 0, lon_deg: 0, roll: 0, rx_count: 0, rx_err_count: 0 }
    }
}

/// The double at place `i` of the state in a packet.
pub open spec fn state_field(buf: Seq<u8>, i: int) -> u64 {
    le64_at(buf, STATE_OFFSET + i * 8) as u64
}

/// What a packet says of the vehicle, if it is a state packet.
pub open spec fn reported(msg_id: MsgId, buf: Seq<u8>) -> Option<FswState> {
    if msg_id != STATE_TLM_MID || buf.len() < STATE_PACKET_LEN {
        None
    } else {
        Some(
            FswState {
                alt_km: state_field(buf, 6),
                lat_deg: state_field(buf, 7),
                lon_deg: state_field(buf, 8),
                roll: state_field(buf, 9),
                rx_count: le32_at(buf, STATE_OFFSET + STATE_LEN) as u32,
                rx_err_count: le32_at(buf, STATE_OFFSET + STATE_LEN + 4) as u32,
            },
        )
    }
}

impl FswState {
    /// Decode a state packet. `None` if this is not one, or it is too short.
    pub fn parse(msg_id: MsgId, buf: &[u8]) -> (r: Option<Self>)
        ensures
            r == reported(msg_id, buf@),
    {
        if msg_id != STATE_TLM_MID || buf.len() < STATE_PACKET_LEN {
            return None;
        }
        Some(
            FswState {
                alt_km: read_le64(buf, STATE_OFFSET + 48),
                lat_deg: read_le64(buf, STATE_OFFSET + 56),
                lon_deg: read_le64(buf, STATE_OFFSET + 64),
                roll: read_le64(buf, STATE_OFFSET + 72),
                rx_count: read_le32(buf, STATE_OFFSET + STATE_LEN),
                rx_err_count: read_le32(buf, STATE_OFFSET + STATE_LEN + 4),
            },
        )
    }
}

proof fn lemma_last_four(
    orbit: Seq<u8>,
    alt: Seq<u8>,
    lat: Seq<u8>,
    lon: Seq<u8>,
    roll: Seq<u8>,
)
    requires
        orbit.len() == 48,
        alt.len() == 8,
        lat.len() == 8,
        lon.len() == 8,
        roll.len() == 8,
    ensures
        ({
            let s = orbit + alt + lat + lon + roll;
            &&& s.subrange(48, 56) == alt
            &&& s.subrange(56, 64) == lat
            &&& s.subrange(64, 72) == lon
            &&& s.subrange(72, 80) == roll
        }),
{
    let s = orbit + alt + lat + lon + roll;
    assert(s.subrange(48, 56) =~= alt);
    assert(s.subrange(56, 64) =~= lat);
    assert(s.subrange(64, 72) =~= lon);
    assert(s.subrange(72, 80) =~= roll);
}

proof fn lemma_encoded(v: VehicleState)
    ensures
        encoded(v).subrange(48, 56) == le64(v.alt_km),
        encoded(v).subrange(56, 64) == le64(v.lat_deg),
        encoded(v).subrange(64, 72) == le64(v.lon_deg),
        encoded(v).subrange(72, 80) == le64(v.roll),
{
    lemma_last_four(
        le64(v.pos_x) + le64(v.pos_y) + le64(v.pos_z) + le64(v.vel_x) + le64(v.vel_y) + le64(
            v.vel_z,
        ),
        le64(v.alt_km),
        le64(v.lat_deg),
        le64(v.lon_deg),
        le64(v.roll),
    );
}

proof fn lemma_field(buf: Seq<u8>, state: Seq<u8>, i: int, x: u64)
    requires
        buf.len() >= STATE_PACKET_LEN,
        state.len() == STATE_LEN,
        buf.subrange(STATE_OFFSET as int, STATE_OFFSET + STATE_LEN) == state,
        0 <= i < 10,
        state.subrange(i * 8, i * 8 + 8) == le64(x),
    ensures
        state_field(buf, i) == x,
{
    let o = STATE_OFFSET + i * 8;
    assert(buf.subrange(o, o + 8) =~= buf.subrange(
        STATE_OFFSET as int,
        STATE_OFFSET + STATE_LEN,
    ).subrange(i * 8, i * 8 + 8));
    le64_reads_back(x, buf, o);
}

/// The encoder and the decoder agree on the layout: a packet that publishes an
/// encoded state behind its header, with the two counters after it, reports that
/// state and those counters.
pub proof fn state_round_trips(buf: Seq<u8>, v: VehicleState, rx_count: u32, rx_err_count: u32)
    requires
        buf.len() >= STATE_PACKET_LEN,
        buf.subrange(STATE_OFFSET as int, STATE_OFFSET + STATE_LEN) == encoded(v),
        buf.subrange(96, 100) == le32(rx_count),
        buf.subrange(100, 104) == le32(rx_err_count),
    ensures
        reported(STATE_TLM_MID, buf) == Some(
            FswState {
                alt_km: v.alt_km,
                lat_deg: v.lat_deg,
                lon_deg: v.lon_deg,
                roll: v.roll,
                rx_count,
                rx_err_count,
            },
        ),
{
    lemma_encoded(v);
    lemma_field(buf, encoded(v), 6, v.alt_km);
    lemma_field(buf, encoded(v), 7, v.lat_deg);
    lemma_field(buf, encoded(v), 8, v.lon_deg);
    lemma_field(buf, encoded(v), 9, v.roll);
    le32_reads_back(rx_count, buf, 96);
    le32_reads_back(rx_err_count, buf, 100);
}

/// The payload of `TO_LAB_AddPacket_Payload_t`: the message id as a 32-bit number,
/// priority and reliability, a buffer limit of 4, and padding.
pub open spec fn add_packet_payload(msg_id: MsgId) -> Seq<u8> {
    le32(msg_id as u32) + seq![0u8, 0u8, 4u8, 0u8]
}

/// Tell TO_LAB to downlink a stream it does not already carry.
///
/// TO_LAB's subscription table is baked in at build time and does not have
/// `besom_io`'s telemetry, so the ground station subscribes it at runtime.
pub fn add_packet_command(msg_id: MsgId) -> (cmd: Vec<u8>)
    ensures
        cmd@ == command(TO_LAB_CMD_MID, TO_LAB_ADD_PKT_CC, add_packet_payload(msg_id)),
{
    let mut payload: Vec<u8> = Vec::new();
    push_le32(&mut payload, msg_id as u32);
    payload.push(0);
    payload.push(0);
    payload.push(4);
    payload.push(0);
    assert(payload@ =~= add_packet_payload(msg_id));
    build_command(TO_LAB_CMD_MID, TO_LAB_ADD_PKT_CC, &payload)
}

} // verus!
