//! A telemetry transcript: the reproducible record of what a run did.
//!
//! **Asserted**: the packet stream. Which message ids, in what order, with what
//! lengths, with no gaps or duplicates. This is exactly reproducible.
//!
//! **Not asserted:**
//! - *Absolute* mission time. cFE TIME's startup state machine settles on
//!   whole-second boundaries before our clock takes over, so the epoch lands on a
//!   5-second quantum that varies run to run. Times are therefore recorded
//!   relative to the first periodic packet.
//! - *Absolute* CCSDS sequence counters. They count every transmit since boot,
//!   including the events emitted during un-gated startup. Deltas still catch a
//!   dropped or duplicated packet without inheriting that history.
//! - *Order within a single tick*. Those packets are simultaneous in simulated
//!   time; their order is the host scheduler's choice. Entries sharing a timestamp
//!   are sorted by message id so they compare stably. Ordering ACROSS ticks is
//!   preserved and fully asserted.
//! - *Exact tick placement*. Intra-tick task ordering can push an event across a
//!   tick boundary (see [`Transcript::differences`]).

use std::collections::HashMap;
use vstd::prelude::*;
use crate::ccsds::{stamp, MsgId, PacketView, TlmPacket, EVS_EVENT_MID, SEQ_MODULUS};
use crate::clock::TICK_USEC;
use crate::order::{before, comes_before, lemma_insert, stably_ordered};
use crate::streams;
use crate::text::{
    decimal, decimal_text, hex4, pad_end, pad_start, push_decimal, push_hex4, push_pad_end,
    push_pad_start, push_text,
};

verus! {

/// One packet of the record.
#[derive(Debug, Clone)]
pub struct Entry {
    pub msg_id: MsgId,
    /// Sequence delta from this message's previous packet. `None` on first sight.
    pub seq_delta: Option<u16>,
    /// Time since the first periodic packet, in ticks: snapped to the tick grid.
    /// `None` for packets that arrived before the anchor.
    pub rel_time: Option<i64>,
    /// Stamped before the anchor? This is the sign of a time that snaps to zero.
    pub early: bool,
    pub len: usize,
    /// The packet's contents, everything after the 12-byte header. No part of the
    /// verdict on a stream.
    pub payload: Vec<u8>,
}

/// What an entry says.
#[verifier::ext_equal]
pub struct EntryView {
    pub msg_id: MsgId,
    pub seq_delta: Option<u16>,
    pub rel_time: Option<i64>,
    pub early: bool,
    pub len: usize,
    pub payload: Seq<u8>,
}

impl View for Entry {
    type V = EntryView;

    open spec fn view(&self) -> EntryView {
        EntryView {
            msg_id: self.msg_id,
            seq_delta: self.seq_delta,
            rel_time: self.rel_time,
            early: self.early,
            len: self.len,
            payload: self.payload@,
        }
    }
}

impl EntryView {
    /// The part of an entry that is exactly reproducible: what the packet was, not
    /// which tick it happened to land on.
    pub open spec fn stream_key(self) -> (MsgId, Option<u16>, usize) {
        (self.msg_id, self.seq_delta, self.len)
    }

    /// Do two entries say the same? A zero is a zero, whatever its sign.
    pub open spec fn same(self, other: EntryView) -> bool {
        &&& self.msg_id == other.msg_id
        &&& self.seq_delta == other.seq_delta
        &&& self.rel_time == other.rel_time
        &&& self.len == other.len
        &&& self.payload == other.payload
    }
}

/// Do two runs of bytes hold the same?
fn same_bytes(p: &Vec<u8>, q: &Vec<u8>) -> (r: bool)
    ensures
        r == (p@ == q@),
{
    if p.len() != q.len() {
        return false;
    }
    let mut i: usize = 0;
    while i < p.len()
        invariant
            i <= p@.len(),
            p@.len() == q@.len(),
            forall|k: int| 0 <= k < i ==> #[trigger] p@[k] == q@[k],
        decreases p.len() - i,
    {
        if p[i] != q[i] {
            return false;
        }
        i = i + 1;
    }
    assert(p@ =~= q@);
    true
}

impl PartialEq for Entry {
    fn eq(&self, other: &Entry) -> (r: bool) {
        self.msg_id == other.msg_id && self.seq_delta == other.seq_delta && self.rel_time
            == other.rel_time && self.len == other.len && same_bytes(&self.payload, &other.payload)
    }
}

impl vstd::std_specs::cmp::PartialEqSpecImpl for Entry {
    open spec fn obeys_eq_spec() -> bool {
        true
    }

    open spec fn eq_spec(&self, other: &Entry) -> bool {
        self@.same(other@)
    }
}

impl Entry {
    /// Is this what `other` is, whichever ticks the two landed on?
    pub fn same_key(&self, other: &Entry) -> (r: bool)
        ensures
            r == (self@.stream_key() == other@.stream_key()),
    {
        self.msg_id == other.msg_id && self.seq_delta == other.seq_delta && self.len == other.len
    }
}

/// `num / den` to the nearest whole number, halves away from zero.
pub open spec fn nearest(num: int, den: int) -> int {
    if num >= 0 {
        (2 * num + den) / (2 * den)
    } else {
        -((2 * -num + den) / (2 * den))
    }
}

/// A difference of two timestamps, in units of 1/65536 s, on the tick grid.
///
/// cFE time only ever advances in whole ticks, but the 1/65536 s field cannot
/// always represent one exactly. Snapping drops that rounding noise, not signal.
pub open spec fn snap(delta: int) -> int {
    nearest(delta * 1_000_000, 0x1_0000 * TICK_USEC as int)
}

/// How far a sequence counter moved from `prev` to `seq`, in its fourteen bits.
pub open spec fn seq_step(prev: u16, seq: u16) -> u16 {
    ((seq - prev) % SEQ_MODULUS as int) as u16
}

/// What a transcript holds.
#[verifier::ext_equal]
pub struct TranscriptView {
    pub entries: Seq<EntryView>,
    /// The last sequence counter seen of each message.
    pub prev_seq: Map<MsgId, u16>,
    /// When the first periodic packet was stamped, in units of 1/65536 s.
    pub epoch: Option<int>,
    /// The first packet of each message, in the order of the entries.
    pub first: Map<MsgId, Mark>,
    /// The first packet of each message by time: what comes first once finished.
    pub earliest: Map<MsgId, Mark>,
}

/// A packet's time in ticks and its timestamp, in units of 1/65536 s.
pub type Mark = (Option<i64>, u64);

/// Does a packet at time `a` come before one of the same message at time `b`? Those
/// that arrived before the anchor came before all others.
pub open spec fn earlier(a: Option<i64>, b: Option<i64>) -> bool {
    match (a, b) {
        (Some(x), Some(y)) => x < y,
        (None, Some(_)) => true,
        _ => false,
    }
}

impl TranscriptView {
    pub open spec fn empty() -> TranscriptView {
        TranscriptView {
            entries: Seq::empty(),
            prev_seq: Map::empty(),
            epoch: None,
            first: Map::empty(),
            earliest: Map::empty(),
        }
    }

    /// The epoch once `p` is recorded. The first *periodic* packet anchors the run:
    /// the event stream is asynchronous and would import boot timing.
    pub open spec fn anchored(self, p: PacketView) -> Option<int> {
        if self.epoch is None && p.msg_id != EVS_EVENT_MID {
            Some(p.time())
        } else {
            self.epoch
        }
    }

    /// The entry that `p` makes.
    pub open spec fn entry(self, p: PacketView) -> EntryView {
        EntryView {
            msg_id: p.msg_id,
            seq_delta: if self.prev_seq.contains_key(p.msg_id) {
                Some(seq_step(self.prev_seq[p.msg_id], p.seq))
            } else {
                None
            },
            rel_time: match self.anchored(p) {
                Some(epoch) => Some(snap(p.time() - epoch) as i64),
                None => None,
            },
            early: match self.anchored(p) {
                Some(epoch) => p.time() < epoch,
                None => false,
            },
            len: p.len,
            payload: p.payload,
        }
    }

    /// The mark of `p`.
    pub open spec fn mark(self, p: PacketView) -> Mark {
        (self.entry(p).rel_time, p.time() as u64)
    }

    /// The transcript with `p` recorded.
    pub open spec fn record(self, p: PacketView) -> TranscriptView {
        TranscriptView {
            entries: self.entries.push(self.entry(p)),
            prev_seq: self.prev_seq.insert(p.msg_id, p.seq),
            epoch: self.anchored(p),
            first: if self.first.contains_key(p.msg_id) {
                self.first
            } else {
                self.first.insert(p.msg_id, self.mark(p))
            },
            earliest: if self.earliest.contains_key(p.msg_id) && !earlier(
                self.mark(p).0,
                self.earliest[p.msg_id].0,
            ) {
                self.earliest
            } else {
                self.earliest.insert(p.msg_id, self.mark(p))
            },
        }
    }

    /// The transcript with every packet of `ps` recorded in turn.
    pub open spec fn record_all(self, ps: Seq<PacketView>) -> TranscriptView
        decreases ps.len(),
    {
        if ps.len() == 0 {
            self
        } else {
            self.record_all(ps.drop_last()).record(ps.last())
        }
    }
}

/// A transcript under construction, or finished.
#[derive(Debug)]
pub struct Transcript {
    entries: Vec<Entry>,
    prev_seq: HashMap<MsgId, u16>,
    /// Seconds and 1/65536 s of the anchor's timestamp.
    epoch: Option<(u32, u16)>,
    /// The first packet of each message, in the order of the entries.
    first: HashMap<MsgId, Mark>,
    /// The first packet of each message by time.
    earliest: HashMap<MsgId, Mark>,
}

/// The views of a run of entries.
pub open spec fn views(s: Seq<Entry>) -> Seq<EntryView> {
    s.map_values(|e: Entry| e@)
}

impl View for Transcript {
    type V = TranscriptView;

    closed spec fn view(&self) -> TranscriptView {
        TranscriptView {
            entries: views(self.entries@),
            prev_seq: self.prev_seq@,
            epoch: match self.epoch {
                Some((secs, subsecs)) => Some(stamp(secs, subsecs)),
                None => None,
            },
            first: self.first@,
            earliest: self.earliest@,
        }
    }
}

/// Snap the time between two stamps to the tick grid.
fn ticks_between(from: (u32, u16), to: (u32, u16)) -> (t: i64)
    ensures
        t == snap(stamp(to.0, to.1) - stamp(from.0, from.1)),
{
    let a: i128 = from.0 as i128 * 0x1_0000 + from.1 as i128;
    let b: i128 = to.0 as i128 * 0x1_0000 + to.1 as i128;
    let delta: i128 = b - a;
    let den: i128 = 0x1_0000 * TICK_USEC as i128;
    assert(den == 655_360_000);
    assert(-0x1_0000_0000_0000 < delta < 0x1_0000_0000_0000);
    if delta >= 0 {
        ((2 * (delta * 1_000_000) + den) / (2 * den)) as i64
    } else {
        let back: i128 = (2 * (-delta * 1_000_000) + den) / (2 * den);
        -(back as i64)
    }
}

/// Does a packet at time `a` come before one of the same message at time `b`?
fn is_earlier(a: Option<i64>, b: Option<i64>) -> (r: bool)
    ensures
        r == earlier(a, b),
{
    match (a, b) {
        (Some(x), Some(y)) => x < y,
        (None, Some(_)) => true,
        _ => false,
    }
}

impl Default for Transcript {
    fn default() -> (t: Transcript)
        ensures
            t@ == TranscriptView::empty(),
    {
        Transcript::new()
    }
}

impl Transcript {
    pub fn new() -> (t: Self)
        ensures
            t@ == TranscriptView::empty(),
    {
        let t = Transcript {
            entries: Vec::new(),
            prev_seq: HashMap::new(),
            epoch: None,
            first: HashMap::new(),
            earliest: HashMap::new(),
        };
        assert(t@ =~= TranscriptView::empty());
        t
    }

    /// Record one packet.
    pub fn record(&mut self, pkt: &TlmPacket)
        ensures
            final(self)@ == old(self)@.record(pkt@),
    {
        if self.epoch.is_none() && pkt.msg_id != EVS_EVENT_MID {
            self.epoch = Some((pkt.secs, pkt.subsecs));
        }
        let rel_time: Option<i64> = match self.epoch {
            Some(epoch) => Some(ticks_between(epoch, (pkt.secs, pkt.subsecs))),
            None => None,
        };
        let seq_delta: Option<u16> = match self.prev_seq.insert(pkt.msg_id, pkt.seq) {
            Some(prev) => {
                let moved: u32 = pkt.seq as u32 + 0x1_0000 - prev as u32;
                Some((moved % SEQ_MODULUS as u32) as u16)
            },
            None => None,
        };
        let early: bool = match self.epoch {
            Some((secs, subsecs)) => pkt.secs < secs || (pkt.secs == secs && pkt.subsecs < subsecs),
            None => false,
        };
        let mark: Mark = (rel_time, pkt.time_secs());
        if !self.first.contains_key(&pkt.msg_id) {
            self.first.insert(pkt.msg_id, mark);
        }
        let sooner: bool = match self.earliest.get(&pkt.msg_id) {
            Some(best) => is_earlier(rel_time, best.0),
            None => true,
        };
        if sooner {
            self.earliest.insert(pkt.msg_id, mark);
        }
        let payload: Vec<u8> = pkt.payload.clone();
        assert(payload@ =~= pkt.payload@);
        let e: Entry = Entry {
            msg_id: pkt.msg_id,
            seq_delta,
            rel_time,
            early,
            len: pkt.len,
            payload,
        };
        self.entries.push(e);
        assert(self@ =~= old(self)@.record(pkt@));
    }

    /// Finish the run: put the entries in order, so that same-instant packets
    /// compare stably.
    pub fn finish(self) -> (t: Self)
        ensures
            stably_ordered(self@.entries, t@.entries),
            t@.prev_seq == self@.prev_seq,
            t@.epoch == self@.epoch,
            t@.first == self@.earliest,
            t@.earliest == self@.earliest,
    {
        let Transcript { entries, prev_seq, epoch, first: _, earliest } = self;
        let ghost all = entries@;
        let mut out: Vec<Entry> = Vec::new();
        assert(views(all.take(0)) =~= views(out@));
        for e in it: entries
            invariant
                it.seq() == all,
                stably_ordered(views(all.take(it.index() as int)), views(out@)),
        {
            let ghost n = it.index() as int;
            let mut at: usize = out.len();
            while at > 0 && comes_before(&e, &out[at - 1])
                invariant
                    at <= out@.len(),
                    forall|k: int|
                        at <= k < out@.len() ==> before(e@, #[trigger] views(out@)[k]),
                decreases at,
            {
                at = at - 1;
            }
            proof {
                let s = views(all.take(n));
                let o = views(out@);
                assert forall|k: int| 0 <= k < at implies !before(e@, #[trigger] o[k]) by {
                    assert(!before(o[at - 1], o[k]) || k == at - 1);
                }
                lemma_insert(s, o, e@, at as int);
                assert(views(out@.insert(at as int, e)) =~= o.insert(at as int, e@));
                assert(views(all.take(n + 1)) =~= s.push(e@));
            }
            out.insert(at, e);
        }
        assert(all.take(all.len() as int) =~= all);
        Transcript { entries: out, prev_seq, epoch, first: earliest.clone(), earliest }
    }

    pub fn len(&self) -> (n: usize)
        ensures
            n == self@.entries.len(),
    {
        self.entries.len()
    }

    pub fn is_empty(&self) -> (r: bool)
        ensures
            r == (self@.entries.len() == 0),
    {
        self.entries.is_empty()
    }

    pub fn entries(&self) -> (s: &[Entry])
        ensures
            views(s@) == self@.entries,
    {
        self.entries.as_slice()
    }

    /// True when two runs produced the same packet stream: the property that
    /// actually holds, and the one a regression test should assert.
    ///
    /// Per message: the same packets, in the same order, with the same sequence
    /// deltas (so a drop or a duplicate fails) and the same lengths.
    ///
    /// Two things are deliberately *not* asserted, because neither is a property of
    /// the flight software: **which tick a packet landed on**, and **a single
    /// trailing packet**, which is the run *boundary* moving rather than a packet
    /// being lost.
    pub fn same_stream(&self, other: &Self) -> (r: bool)
        ensures
            r == streams::same_stream(self@.entries, other@.entries),
    {
        streams::same_packets(self.entries(), other.entries())
    }

    /// Packets whose tick placement moved between two runs, as message id, time in
    /// this run and time in the other. Compared per message, so a shift in one does
    /// not cascade into apparent shifts in every other.
    pub fn differences(&self, other: &Self) -> (out: Vec<(MsgId, Option<i64>, Option<i64>)>)
        ensures
            out@ == streams::differences(self@.entries, other@.entries),
    {
        streams::moved_packets(self.entries(), other.entries())
    }

    /// The largest tick-placement shift between two runs, in ticks.
    pub fn max_shift_ticks(&self, other: &Self) -> (max: u64)
        ensures
            max == streams::max_shift(streams::differences(self@.entries, other@.entries)),
    {
        streams::largest_shift(&self.differences(other))
    }

    /// Where two runs' packet CONTENTS differ, per message: the message id, the
    /// packets compared, the packets that differ, and the byte offsets at which any
    /// of them differ.
    ///
    /// Offsets are unioned across every packet of the message, because the question
    /// being answered is "which FIELD of this packet is unstable", not "which
    /// packet". A change of length makes a packet differ without naming an offset.
    /// This is a diagnostic, not a verdict.
    pub fn payload_differences(&self, other: &Self) -> (out: Vec<
        (MsgId, usize, usize, Vec<usize>),
    >)
        ensures
            streams::payload_differences(self@.entries, other@.entries, out@),
    {
        streams::changed_contents(self.entries(), other.entries())
    }

    /// cFE's own timestamp on the first packet of `mid`, in seconds on cFE's epoch,
    /// as a fixed-point number with sixteen fractional bits.
    ///
    /// This is what the FLIGHT SOFTWARE says about when it transmitted, so it is a
    /// function of granted ticks alone, unlike the tick on which the harness
    /// happened to read the datagram out of its socket. It is the stamp itself, not
    /// snapped to the tick grid. Compare stamps with stamps: cFE stamps on its own
    /// epoch, far from the harness's simulated microseconds.
    ///
    /// The first packet is the first in the order of the entries: by tick once the
    /// run is finished, and as recorded until then. One that arrived before the
    /// anchor has no tick, and was sent before those that have.
    pub fn first_stamp_secs(&self, mid: MsgId) -> (r: Option<u64>)
        ensures
            r == first_stamp(self@, mid),
    {
        match self.first.get(&mid) {
            Some(mark) => Some(mark.1),
            None => None,
        }
    }

    /// The transcript as text, a line for each packet.
    pub fn render(&self) -> (out: String)
        ensures
            out@ == rendered(self@.entries),
    {
        let mut out: String = String::new();
        let ghost all = self@.entries;
        let mut i: usize = 0;
        while i < self.entries.len()
            invariant
                i <= self.entries@.len(),
                all == views(self.entries@),
                out@ == rendered(all.take(i as int)),
            decreases self.entries.len() - i,
        {
            assert(all.take(i as int + 1).drop_last() =~= all.take(i as int));
            assert(all.take(i as int + 1).last() == self.entries@[i as int]@);
            render_line(&mut out, &self.entries[i]);
            i = i + 1;
        }
        assert(all.take(all.len() as int) =~= all);
        out
    }
}

/// The timestamp on the first packet of `mid`, in units of 1/65536 s. `None` if no
/// such packet was recorded.
pub open spec fn first_stamp(t: TranscriptView, mid: MsgId) -> Option<u64> {
    if t.first.contains_key(mid) {
        Some(t.first[mid].1)
    } else {
        None
    }
}

/// How a sequence delta is written.
pub open spec fn delta_text(d: Option<u16>) -> Seq<char> {
    match d {
        Some(d) => "d+"@ + decimal(d as nat),
        None => "first"@,
    }
}

/// A number of ticks in seconds, with five decimals and zeros in front up to a
/// width of nine, the sign included. A zero that was reached from below keeps its
/// sign.
pub open spec fn seconds_text(ticks: i64, early: bool) -> Seq<char> {
    let usec = (if ticks < 0 {
        -ticks
    } else {
        ticks as int
    }) * TICK_USEC;
    let digits = decimal((usec / 1_000_000) as nat);
    (if ticks < 0 || (ticks == 0 && early) {
        "-"@ + pad_start(digits, '0', 2)
    } else {
        pad_start(digits, '0', 3)
    }) + "."@ + pad_start(decimal((usec % 1_000_000 / 10) as nat), '0', 5)
}

/// How an entry's time is written.
pub open spec fn time_text(t: Option<i64>, early: bool) -> Seq<char> {
    match t {
        Some(ticks) => "+"@ + seconds_text(ticks, early),
        None => "PRE-ANCHOR"@,
    }
}

/// An entry's line.
pub open spec fn line_text(e: EntryView) -> Seq<char> {
    hex4(e.msg_id) + " "@ + pad_end(delta_text(e.seq_delta), ' ', 6) + " t="@ + time_text(
        e.rel_time,
        e.early,
    ) + " len="@ + decimal(e.len as nat) + "\n"@
}

/// The lines of all entries, in turn.
pub open spec fn rendered(s: Seq<EntryView>) -> Seq<char>
    decreases s.len(),
{
    if s.len() == 0 {
        Seq::empty()
    } else {
        rendered(s.drop_last()) + line_text(s.last())
    }
}

fn push_seconds(out: &mut String, ticks: i64, early: bool)
    ensures
        final(out)@ == old(out)@ + seconds_text(ticks, early),
{
    let size: u128 = if ticks < 0 {
        (-(ticks as i128)) as u128
    } else {
        ticks as u128
    };
    assert(size <= 0x8000_0000_0000_0000);
    let tick: u128 = TICK_USEC as u128;
    assert(size * tick <= 0x8000_0000_0000_0000 * 10_000) by (nonlinear_arith)
        requires
            size <= 0x8000_0000_0000_0000,
            tick == 10_000,
    ;
    let usec: u128 = size * tick;
    let whole: String = decimal_text((usec / 1_000_000) as u64);
    if ticks < 0 || (ticks == 0 && early) {
        push_text(out, "-");
        push_pad_start(out, whole.as_str(), '0', 2);
    } else {
        push_pad_start(out, whole.as_str(), '0', 3);
    }
    push_text(out, ".");
    let fraction: String = decimal_text((usec % 1_000_000 / 10) as u64);
    push_pad_start(out, fraction.as_str(), '0', 5);
    assert(out@ =~= old(out)@ + seconds_text(ticks, early));
}

fn render_line(out: &mut String, e: &Entry)
    ensures
        final(out)@ == old(out)@ + line_text(e@),
{
    push_hex4(out, e.msg_id);
    push_text(out, " ");
    let mut delta: String = String::new();
    match e.seq_delta {
        Some(d) => {
            push_text(&mut delta, "d+");
            push_decimal(&mut delta, d as u64);
        },
        None => {
            push_text(&mut delta, "first");
        },
    }
    assert(delta@ =~= delta_text(e.seq_delta));
    push_pad_end(out, delta.as_str(), ' ', 6);
    push_text(out, " t=");
    match e.rel_time {
        Some(ticks) => {
            push_text(out, "+");
            push_seconds(out, ticks, e.early);
        },
        None => {
            push_text(out, "PRE-ANCHOR");
        },
    }
    push_text(out, " len=");
    push_decimal(out, e.len as u64);
    push_text(out, "\n");
    assert(out@ =~= old(out)@ + line_text(e@));
}

} // verus!
