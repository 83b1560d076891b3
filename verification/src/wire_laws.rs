//! What holds of the wire formats: what was put into a datagram is what is read out of
//! it, byte by byte.

use vstd::prelude::*;
use crate::bytes::{
    be16, be16_at, be32_at, le16, le16_at, le32, le32_at, le32_reads_back, le64, le64_at,
    le64_reads_back,
};
use crate::ccsds::{command, decoded, lemma_xor_concat, stamp, xor_all, MsgId, PacketError, PacketView};
use crate::clock::{acknowledged, coop, step_message, AckError};
use crate::evs::{event_in, field_text, label_of, nul_at, severity_of, until_nul, utf8_lossy, EventView, Severity};
use crate::fsw::{add_packet_payload, doubles_equal, encoded, reported, FswState, VehicleState};
use crate::text::{decimal, trimmed};
use crate::text_laws::{all_digits, decimal_reads_back, reading};

verus! {

/// In a big-endian number the byte in front weighs 256 times the one behind it, and
/// each counts for itself.
pub proof fn big_endian_bytes_weigh_their_place(s: Seq<u8>, i: int, b: u8)
    requires
        0 <= i,
        i + 4 <= s.len(),
    ensures
        be16_at(s.update(i, b), i) == be16_at(s, i) + (b - s[i]) * 0x100,
        be16_at(s.update(i + 1, b), i) == be16_at(s, i) + (b - s[i + 1]),
        s[i] == 0 && s[i + 1] == 0 ==> be16_at(s, i) == 0,
        be32_at(s.update(i, b), i) == be32_at(s, i) + (b - s[i]) * 0x100_0000,
        be32_at(s.update(i + 1, b), i) == be32_at(s, i) + (b - s[i + 1]) * 0x1_0000,
        be32_at(s.update(i + 2, b), i) == be32_at(s, i) + (b - s[i + 2]) * 0x100,
        be32_at(s.update(i + 3, b), i) == be32_at(s, i) + (b - s[i + 3]),
        s[i] == 0 && s[i + 1] == 0 && s[i + 2] == 0 && s[i + 3] == 0 ==> be32_at(s, i) == 0,
{
}

/// In a little-endian number the byte behind weighs 256 times the one in front of it,
/// and each counts for itself.
pub proof fn little_endian_bytes_weigh_their_place(s: Seq<u8>, i: int, b: u8)
    requires
        0 <= i,
        i + 8 <= s.len(),
    ensures
        le16_at(s.update(i, b), i) == le16_at(s, i) + (b - s[i]),
        le16_at(s.update(i + 1, b), i) == le16_at(s, i) + (b - s[i + 1]) * 0x100,
        s[i] == 0 && s[i + 1] == 0 ==> le16_at(s, i) == 0,
        le32_at(s.update(i, b), i) == le32_at(s, i) + (b - s[i]),
        le32_at(s.update(i + 1, b), i) == le32_at(s, i) + (b - s[i + 1]) * 0x100,
        le32_at(s.update(i + 2, b), i) == le32_at(s, i) + (b - s[i + 2]) * 0x1_0000,
        le32_at(s.update(i + 3, b), i) == le32_at(s, i) + (b - s[i + 3]) * 0x100_0000,
        s[i] == 0 && s[i + 1] == 0 && s[i + 2] == 0 && s[i + 3] == 0 ==> le32_at(s, i) == 0,
        le64_at(s.update(i, b), i) == le64_at(s, i) + (b - s[i]),
        le64_at(s.update(i + 1, b), i) == le64_at(s, i) + (b - s[i + 1]) * 0x100,
        le64_at(s.update(i + 2, b), i) == le64_at(s, i) + (b - s[i + 2]) * 0x1_0000,
        le64_at(s.update(i + 3, b), i) == le64_at(s, i) + (b - s[i + 3]) * 0x100_0000,
        le64_at(s.update(i + 4, b), i) == le64_at(s, i) + (b - s[i + 4]) * 0x1_0000_0000,
        le64_at(s.update(i + 5, b), i) == le64_at(s, i) + (b - s[i + 5]) * 0x100_0000_0000,
        le64_at(s.update(i + 6, b), i) == le64_at(s, i) + (b - s[i + 6]) * 0x1_0000_0000_0000,
        le64_at(s.update(i + 7, b), i) == le64_at(s, i) + (b - s[i + 7]) * 0x100_0000_0000_0000,
        (forall|k: int| i <= k < i + 8 ==> #[trigger] s[k] == 0) ==> le64_at(s, i) == 0,
{
    if forall|k: int| i <= k < i + 8 ==> #[trigger] s[k] == 0 {
        assert(s[i] == 0 && s[i + 1] == 0 && s[i + 2] == 0 && s[i + 3] == 0);
        assert(s[i + 4] == 0 && s[i + 5] == 0 && s[i + 6] == 0 && s[i + 7] == 0);
    }
}

/// A number that was written is the number that is read, wherever it stands.
pub proof fn numbers_read_back(front: Seq<u8>, back: Seq<u8>, a: u16, b: u32, c: u64)
    ensures
        be16(a).len() == 2,
        le16(a).len() == 2,
        le32(b).len() == 4,
        le64(c).len() == 8,
        be16_at(front + be16(a) + back, front.len() as int) == a,
        le16_at(front + le16(a) + back, front.len() as int) == a,
        le32_at(front + le32(b) + back, front.len() as int) == b,
        le64_at(front + le64(c) + back, front.len() as int) == c,
{
    let n = front.len() as int;
    let s = front + be16(a) + back;
    assert(s[n] == be16(a)[0] && s[n + 1] == be16(a)[1]);
    let s = front + le16(a) + back;
    assert(s[n] == le16(a)[0] && s[n + 1] == le16(a)[1]);
    let s = front + le32(b) + back;
    assert(s.subrange(n, n + 4) =~= le32(b));
    le32_reads_back(b, s, n);
    let s = front + le64(c) + back;
    assert(s.subrange(n, n + 8) =~= le64(c));
    le64_reads_back(c, s, n);
}

/// A timestamp holds its seconds and its fraction apart.
pub proof fn a_timestamp_holds_both_parts(secs: u32, subsecs: u16)
    ensures
        stamp(secs, subsecs) / 0x1_0000 == secs,
        stamp(secs, subsecs) % 0x1_0000 == subsecs,
{
}

/// A telemetry packet says what was put into it: its message, its counter whatever the
/// sequence flags above it, its time, its contents whatever the length field, and how
/// long it is.
pub proof fn a_packet_reads_back(
    p: PacketView,
    flags: u16,
    length: u16,
)
    requires
        p.seq < 0x4000,
        flags < 4,
        p.len == p.payload.len() + 12,
    ensures
        decoded(
            be16(p.msg_id) + be16((flags * 0x4000 + p.seq) as u16) + be16(length) + be16(
                (p.secs / 0x1_0000) as u16,
            ) + be16((p.secs % 0x1_0000) as u16) + be16(p.subsecs) + p.payload,
        ) == p,
        p.time() == p.secs * 0x1_0000 + p.subsecs,
{
    let a = be16(p.msg_id);
    let b = be16((flags * 0x4000 + p.seq) as u16);
    let c = be16(length);
    let d = be16((p.secs / 0x1_0000) as u16);
    let e = be16((p.secs % 0x1_0000) as u16);
    let f = be16(p.subsecs);
    let buf = a + b + c + d + e + f + p.payload;
    assert(buf[0] == a[0] && buf[1] == a[1]);
    assert(buf[2] == b[0] && buf[3] == b[1]);
    assert(buf[6] == d[0] && buf[7] == d[1]);
    assert(buf[8] == e[0] && buf[9] == e[1]);
    assert(buf[10] == f[0] && buf[11] == f[1]);
    assert(buf.skip(12) =~= p.payload);
    assert(decoded(buf) =~= p);
}

/// Every datagram of twelve bytes or more is read as a packet of all its bytes: its
/// contents are what stands behind the first twelve, in place.
pub proof fn contents_are_what_follows_the_header(buf: Seq<u8>, i: int)
    requires
        12 <= buf.len() <= usize::MAX,
        12 <= i < buf.len(),
    ensures
        decoded(buf).len == buf.len(),
        decoded(buf).payload.len() == buf.len() - 12,
        decoded(buf).payload[i - 12] == buf[i],
        decoded(buf).seq < 0x4000,
{
}

/// The exclusive or over two runs of bytes is that of both together; one byte is its
/// own, and none come to zero.
pub proof fn checksums_combine(a: Seq<u8>, b: Seq<u8>, x: u8)
    ensures
        xor_all(a + b) == xor_all(a) ^ xor_all(b),
        xor_all(seq![x]) == x,
        xor_all(Seq::<u8>::empty()) == 0,
{
    lemma_xor_concat(a, b);
    reveal_with_fuel(xor_all, 2);
    assert(seq![x].drop_last() =~= Seq::<u8>::empty());
    assert(0 ^ x == x) by (bit_vector);
}

/// A command says what was put into it: its message, that it is unsegmented, the bytes
/// behind the primary header minus one, its function code and its payload.
pub proof fn a_command_reads_back(msg_id: MsgId, fn_code: u8, payload: Seq<u8>)
    ensures
        command(msg_id, fn_code, payload).len() == 8 + payload.len(),
        be16_at(command(msg_id, fn_code, payload), 0) == msg_id,
        be16_at(command(msg_id, fn_code, payload), 2) == 0xC000,
        be16_at(command(msg_id, fn_code, payload), 4) == (payload.len() + 1) % 0x1_0000,
        command(msg_id, fn_code, payload)[6] == fn_code,
        command(msg_id, fn_code, payload).skip(8) == payload,
{
    let c = command(msg_id, fn_code, payload);
    let n = ((payload.len() + 1) % 0x1_0000) as u16;
    assert(c[0] == be16(msg_id)[0] && c[1] == be16(msg_id)[1]);
    assert(c[2] == be16(0xC000)[0] && c[3] == be16(0xC000)[1]);
    assert(c[4] == be16(n)[0] && c[5] == be16(n)[1]);
    assert(c.skip(8) =~= payload);
}

/// A message about a length tells the length.
pub proof fn length_errors_tell_the_length(len: usize) -> (digits: Seq<char>)
    ensures
        digits.len() > 0,
        all_digits(digits, 10),
        reading(digits, 10) == len,
        (PacketError::Short { len }).text() == "short packet: "@ + digits + " bytes"@,
        (AckError::Malformed { len }).text() == "malformed step ack: "@ + digits + " bytes"@,
{
    decimal_reads_back(len as nat);
    decimal(len as nat)
}

/// A step of any size is the microseconds, and with a sensor block its length in 32
/// bits and the block itself, with nothing behind it.
pub proof fn a_step_of_any_size_reads_back(usec: u32, sensor: Seq<u8>)
    ensures
        le32_at(step_message(usec, sensor), 0) == usec,
        sensor.len() == 0 ==> step_message(usec, sensor).len() == 4,
        sensor.len() > 0 ==> {
            &&& le32_at(step_message(usec, sensor), 4) == sensor.len() % 0x1_0000_0000
            &&& step_message(usec, sensor).len() == 8 + sensor.len()
            &&& step_message(usec, sensor).skip(8) == sensor
        },
{
    let msg = step_message(usec, sensor);
    assert(msg.subrange(0, 4) =~= le32(usec));
    le32_reads_back(usec, msg, 0);
    if sensor.len() > 0 {
        let n = (sensor.len() % 0x1_0000_0000) as u32;
        assert(msg.subrange(4, 8) =~= le32(n));
        le32_reads_back(n, msg, 4);
        assert(msg.skip(8) =~= sensor);
    }
}

/// The clock stands where a reply of eight bytes says, and no other reply moves it.
pub proof fn a_reply_says_where_the_clock_stands(t: u64, reply: Seq<u8>)
    requires
        reply.len() <= usize::MAX,
    ensures
        acknowledged(le64(t)) == Ok::<u64, AckError>(t),
        reply.len() != 8 ==> acknowledged(reply) == Err::<u64, AckError>(
            AckError::Malformed { len: reply.len() as usize },
        ),
        reply.len() == 8 ==> acknowledged(reply) is Ok,
{
    assert(le64(t).subrange(0, 8) =~= le64(t));
    le64_reads_back(t, le64(t), 0);
}

/// Each severity is written its own way.
pub proof fn each_severity_has_its_own_label(a: Severity, b: Severity)
    ensures
        label_of(a) == label_of(b) <==> a == b,
        label_of(a).len() >= 4,
{
    reveal_strlit("DEBUG");
    reveal_strlit("INFO");
    reveal_strlit("ERROR");
    reveal_strlit("CRIT");
    if label_of(a) == label_of(b) {
        assert(label_of(a)[0] == label_of(b)[0]);
    }
}

/// The first character decides on cooperative scheduling, whatever follows it: it is on
/// with a `1` there, off with anything else or nothing, and on if the variable is not
/// set.
pub proof fn the_first_character_decides(c: char, rest: Seq<char>)
    ensures
        coop(Some(seq![c] + rest)) <==> c == '1',
        !coop(Some(Seq::<char>::empty())),
        coop(None),
{
    assert((seq![c] + rest)[0] == c);
}

/// Only the event types that cFE has for it are debug, errors or critical; every other
/// type is information.
pub proof fn severities_are_those_of_cfe(t: u16)
    ensures
        severity_of(t) == Severity::Debug <==> t == 1,
        severity_of(t) == Severity::Error <==> t == 3,
        severity_of(t) == Severity::Critical <==> t == 4,
        severity_of(t) == Severity::Info <==> t != 1 && t != 3 && t != 4,
{
}

/// A field is what stands in front of its first NUL, whatever stands behind it, and all
/// of it if there is none.
pub proof fn a_field_is_what_stands_in_front_of_nul(a: Seq<u8>, b: Seq<u8>)
    requires
        !a.contains(0),
    ensures
        until_nul(a + seq![0u8] + b) == a,
        until_nul(a) == a,
        field_text(a + seq![0u8] + b) == trimmed(utf8_lossy(a)),
        field_text(a) == trimmed(utf8_lossy(a)),
{
    let s = a + seq![0u8] + b;
    lemma_nul(a, b);
    assert(s.take(a.len() as int) =~= a);
    assert(a.take(a.len() as int) =~= a);
}

proof fn lemma_nul(a: Seq<u8>, b: Seq<u8>)
    requires
        !a.contains(0),
    ensures
        nul_at(a + seq![0u8] + b) == a.len(),
        nul_at(a) == a.len(),
    decreases a.len(),
{
    let s = a + seq![0u8] + b;
    if a.len() > 0 {
        let less = a.drop_first();
        assert(a.contains(a[0]));
        assert forall|x: u8| #[trigger] less.contains(x) implies a.contains(x) by {
            let i = choose|i: int| 0 <= i < less.len() && less[i] == x;
            assert(a[i + 1] == x);
        }
        lemma_nul(less, b);
        assert(s.drop_first() =~= less + seq![0u8] + b);
        assert(s[0] == a[0]);
    }
}

/// An event says what was put into it: the name of the app, the event's id and type,
/// and the message that runs to the end.
pub proof fn an_event_reads_back(
    header: Seq<u8>,
    name: Seq<u8>,
    event_id: u16,
    event_type: u16,
    ids: Seq<u8>,
    message: Seq<u8>,
)
    requires
        header.len() == 16,
        name.len() == 20,
        ids.len() == 8,
    ensures
        event_in(
            0x0808,
            header + name + le16(event_id) + le16(event_type) + ids + message,
        ) == Some(
            EventView {
                app: field_text(name),
                event_id,
                severity: severity_of(event_type),
                text: field_text(message),
            },
        ),
{
    let buf = header + name + le16(event_id) + le16(event_type) + ids + message;
    assert(buf[36] == le16(event_id)[0] && buf[37] == le16(event_id)[1]);
    assert(buf[38] == le16(event_type)[0] && buf[39] == le16(event_type)[1]);
    assert(buf.subrange(16, 36) =~= name);
    assert(buf.skip(48) =~= message);
}

/// Only a whole packet of the event stream is an event.
pub proof fn only_event_packets_are_events(msg_id: MsgId, buf: Seq<u8>)
    ensures
        event_in(msg_id, buf) is Some <==> msg_id == 0x0808 && buf.len() >= 48,
{
}

/// The state on the wire is ten numbers of eight bytes each, in this order.
#[verifier::rlimit(40)]
pub proof fn a_state_reads_back(v: VehicleState)
    ensures
        encoded(v).len() == 80,
        le64_at(encoded(v), 0) == v.pos_x,
        le64_at(encoded(v), 8) == v.pos_y,
        le64_at(encoded(v), 16) == v.pos_z,
        le64_at(encoded(v), 24) == v.vel_x,
        le64_at(encoded(v), 32) == v.vel_y,
        le64_at(encoded(v), 40) == v.vel_z,
        le64_at(encoded(v), 48) == v.alt_km,
        le64_at(encoded(v), 56) == v.lat_deg,
        le64_at(encoded(v), 64) == v.lon_deg,
        le64_at(encoded(v), 72) == v.roll,
{
    lemma_encoded(v);
    lemma_side_by_side(fields_of(v), 10);
    lemma_ten_fields(encoded(v), fields_of(v));
}

proof fn lemma_ten_fields(s: Seq<u8>, f: Seq<u64>)
    requires
        f.len() == 10,
        forall|i: int| 0 <= i < 10 ==> le64_at(s, i * 8) == #[trigger] f[i],
    ensures
        le64_at(s, 0) == f[0],
        le64_at(s, 8) == f[1],
        le64_at(s, 16) == f[2],
        le64_at(s, 24) == f[3],
        le64_at(s, 32) == f[4],
        le64_at(s, 40) == f[5],
        le64_at(s, 48) == f[6],
        le64_at(s, 56) == f[7],
        le64_at(s, 64) == f[8],
        le64_at(s, 72) == f[9],
{
}

spec fn fields_of(v: VehicleState) -> Seq<u64> {
    seq![
        v.pos_x,
        v.pos_y,
        v.pos_z,
        v.vel_x,
        v.vel_y,
        v.vel_z,
        v.alt_km,
        v.lat_deg,
        v.lon_deg,
        v.roll,
    ]
}

spec fn side_by_side(fields: Seq<u64>, n: nat) -> Seq<u8>
    decreases n,
{
    if n == 0 {
        Seq::empty()
    } else {
        side_by_side(fields, (n - 1) as nat) + le64(fields[n - 1])
    }
}

proof fn lemma_encoded(v: VehicleState)
    ensures
        encoded(v) == side_by_side(fields_of(v), 10),
{
    let f = fields_of(v);
    assert(side_by_side(f, 1) == side_by_side(f, 0) + le64(f[0]));
    assert(side_by_side(f, 0) + le64(f[0]) =~= le64(v.pos_x));
    assert(side_by_side(f, 2) == side_by_side(f, 1) + le64(f[1]));
    assert(side_by_side(f, 3) == side_by_side(f, 2) + le64(f[2]));
    assert(side_by_side(f, 4) == side_by_side(f, 3) + le64(f[3]));
    assert(side_by_side(f, 5) == side_by_side(f, 4) + le64(f[4]));
    assert(side_by_side(f, 6) == side_by_side(f, 5) + le64(f[5]));
    assert(side_by_side(f, 7) == side_by_side(f, 6) + le64(f[6]));
    assert(side_by_side(f, 8) == side_by_side(f, 7) + le64(f[7]));
    assert(side_by_side(f, 9) == side_by_side(f, 8) + le64(f[8]));
    assert(side_by_side(f, 10) == side_by_side(f, 9) + le64(f[9]));
}

proof fn lemma_side_by_side(fields: Seq<u64>, n: nat)
    requires
        n <= fields.len(),
    ensures
        side_by_side(fields, n).len() == n * 8,
        forall|i: int|
            0 <= i < n ==> le64_at(side_by_side(fields, n), i * 8) == #[trigger] fields[i],
    decreases n,
{
    if n > 0 {
        let front = side_by_side(fields, (n - 1) as nat);
        let all = side_by_side(fields, n);
        lemma_side_by_side(fields, (n - 1) as nat);
        assert forall|i: int| 0 <= i < n implies le64_at(all, i * 8) == #[trigger] fields[i] by {
            if i < n - 1 {
                assert(le64_at(front, i * 8) == fields[i]);
                assert(all[i * 8] == front[i * 8] && all[i * 8 + 1] == front[i * 8 + 1]);
                assert(all[i * 8 + 2] == front[i * 8 + 2] && all[i * 8 + 3] == front[i * 8 + 3]);
                assert(all[i * 8 + 4] == front[i * 8 + 4] && all[i * 8 + 5] == front[i * 8 + 5]);
                assert(all[i * 8 + 6] == front[i * 8 + 6] && all[i * 8 + 7] == front[i * 8 + 7]);
            } else {
                assert(all.subrange(i * 8, i * 8 + 8) =~= le64(fields[i]));
                le64_reads_back(fields[i], all, i * 8);
            }
        }
    }
}

/// Only a whole state packet reports a state, and it reports the last four numbers of
/// the state behind its sixteen-byte header, and the two counters behind the state.
pub proof fn a_report_is_read_in_place(msg_id: MsgId, buf: Seq<u8>)
    ensures
        reported(msg_id, buf) is Some <==> msg_id == 0x08F0 && buf.len() >= 104,
        reported(msg_id, buf) matches Some(f) ==> {
            &&& f.alt_km == le64_at(buf.skip(16), 48)
            &&& f.lat_deg == le64_at(buf.skip(16), 56)
            &&& f.lon_deg == le64_at(buf.skip(16), 64)
            &&& f.roll == le64_at(buf.skip(16), 72)
            &&& f.rx_count == le32_at(buf.skip(96), 0)
            &&& f.rx_err_count == le32_at(buf.skip(96), 4)
        },
{
}

/// A double equals itself unless it is not a number, that is, unless its exponent is all
/// ones and its fraction is not zero. Two different patterns are equal only if both are
/// zero, whatever the sign.
pub proof fn doubles_are_compared_as_numbers(a: u64, b: u64)
    ensures
        doubles_equal(a, a) <==> !(a as int / 0x10_0000_0000_0000 % 0x800 == 0x7FF && a as int
            % 0x10_0000_0000_0000 != 0),
        a != b ==> (doubles_equal(a, b) <==> (a == 0 || a == 0x8000_0000_0000_0000) && (b == 0 || b
            == 0x8000_0000_0000_0000)),
        doubles_equal(a, b) == doubles_equal(b, a),
{
}

/// Nothing reported is zero in every place.
pub proof fn nothing_reported_is_zero()
    ensures
        FswState::zero().alt_km == 0,
        FswState::zero().lat_deg == 0,
        FswState::zero().lon_deg == 0,
        FswState::zero().roll == 0,
        FswState::zero().rx_count == 0,
        FswState::zero().rx_err_count == 0,
{
}

/// A subscription names its stream in 32 bits, asks for no priority and no reliability,
/// and for a buffer of four.
pub proof fn a_subscription_reads_back(msg_id: MsgId)
    ensures
        add_packet_payload(msg_id).len() == 8,
        le32_at(add_packet_payload(msg_id), 0) == msg_id,
        add_packet_payload(msg_id).skip(4) == seq![0u8, 0u8, 4u8, 0u8],
{
    let p = add_packet_payload(msg_id);
    assert(p.subrange(0, 4) =~= le32(msg_id as u32));
    le32_reads_back(msg_id as u32, p, 0);
    assert(p.skip(4) =~= seq![0u8, 0u8, 4u8, 0u8]);
}

} // verus!
