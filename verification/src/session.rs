//! A live session: cFS running under our clock, driven by an operator.
//!
//! Because Besom grants every tick, the operator can *pause simulated time*: the
//! flight software freezes mid-flight, exactly, and resumes with no discontinuity.
//! A ground station paced to wall time cannot do that, and it is the whole point of
//! owning the clock.
//!
//! [`crate::bringup`] gets the downlink going, [`crate::transport`] decides how much
//! time to grant, and [`State`] is what the operator sees.

use std::collections::BTreeMap;
use vstd::prelude::*;
use vstd::std_specs::btree::increasing_seq;
use vstd::std_specs::cmp::OrdSpec;
use vstd::std_specs::iter::IteratorSpec;
use crate::ccsds::{decoded, stamp, MsgId, TlmPacket, TLM_HEADER};
use crate::evs;
use crate::evs::{event_in, Event, EventView};
use crate::fsw::{reported, FswState};
use crate::run::packets_in;
use crate::transcript::seq_step;

verus! {

/// Events that the log holds at most.
pub const LOG_CAP: usize = 500;

/// Events that leave the log when it is over its limit.
pub const LOG_DROP: usize = 100;

/// What the operator can ask of the spacecraft.
#[derive(Debug)]
pub enum Cmd {
    Play,
    Pause,
    /// Ticks to grant per iteration. Simulated time can outrun the wall clock: there
    /// is no physical rate to respect, only how fast cFS can actually be driven.
    Warp(u32),
    /// Advance exactly n ticks, then pause. The reason to own a clock.
    StepTicks(u32),
    /// Send a raw command to CI_LAB.
    Send { msg_id: MsgId, fn_code: u8, payload: Vec<u8> },
    Shutdown,
}

/// One telemetry stream, as the operator sees it.
#[derive(Debug, Clone, Copy, PartialEq, Eq, Structural)]
pub struct Stream {
    pub count: u64,
    pub last_seq: u16,
    /// Gaps in the CCSDS sequence counter: packets the spacecraft sent that we never
    /// saw. On a real link this is the number that matters.
    pub gaps: u64,
    /// Time of the last packet since the first of any stream, in units of 1/65536 s.
    pub last_time: i64,
    pub len: usize,
}

impl Stream {
    /// A stream that nothing was received of.
    pub open spec fn silent() -> Stream {
        Stream { count: 0, last_seq: 0, gaps: 0, last_time: 0, len: 0 }
    }
}

impl Default for Stream {
    fn default() -> (s: Stream)
        ensures
            s == Stream::silent(),
    {
        Stream { count: 0, last_seq: 0, gaps: 0, last_time: 0, len: 0 }
    }
}

/// What the operator sees.
#[derive(Debug, Clone)]
pub struct State {
    pub running: bool,
    pub alive: bool,
    /// Simulated mission time, in microseconds. Advances only when we grant it.
    pub sim_usec: u64,
    pub streams: BTreeMap<MsgId, Stream>,
    pub events: Vec<Event>,
    pub packets: u64,
    pub error: Option<String>,
    /// Vehicle state as the FLIGHT SOFTWARE reports it, round-tripped through cFS.
    pub fsw: Option<FswState>,
    /// cFE's absolute time at the first packet, in seconds and 1/65536 s. Its epoch
    /// is a large constant that also varies run to run, so showing it raw would be
    /// misleading. Packet times are relative to it.
    epoch: Option<(u32, u16)>,
}

/// What a state says.
#[verifier::ext_equal]
pub struct StateView {
    pub running: bool,
    pub alive: bool,
    pub sim_usec: u64,
    pub streams: Map<MsgId, Stream>,
    pub events: Seq<EventView>,
    pub packets: u64,
    pub error: Option<Seq<char>>,
    pub fsw: Option<FswState>,
    /// When the first packet was stamped, in units of 1/65536 s.
    pub epoch: Option<int>,
}

/// The views of some events.
pub open spec fn event_views(events: Seq<Event>) -> Seq<EventView> {
    events.map_values(|e: Event| e@)
}

impl View for State {
    type V = StateView;

    closed spec fn view(&self) -> StateView {
        StateView {
            running: self.running,
            alive: self.alive,
            sim_usec: self.sim_usec,
            streams: self.streams@,
            events: event_views(self.events@),
            packets: self.packets,
            error: match self.error {
                Some(e) => Some(e@),
                None => None,
            },
            fsw: self.fsw,
            epoch: match self.epoch {
                Some((secs, subsecs)) => Some(stamp(secs, subsecs)),
                None => None,
            },
        }
    }
}

/// The event log with one more event. The log is a tail, not an archive: over its
/// limit, the oldest events leave.
pub open spec fn logged(events: Seq<EventView>, e: EventView) -> Seq<EventView> {
    let all = events.push(e);
    if all.len() > LOG_CAP {
        all.skip(LOG_DROP as int)
    } else {
        all
    }
}

/// Packets lost between two whose counters moved by `step`.
pub open spec fn missed(step: u16) -> u64 {
    if step > 1 {
        (step - 1) as u64
    } else {
        0
    }
}

impl StateView {
    /// Nothing was received yet, and time is not moving.
    pub open spec fn empty() -> StateView {
        StateView {
            running: false,
            alive: false,
            sim_usec: 0,
            streams: Map::empty(),
            events: Seq::empty(),
            packets: 0,
            error: None,
            fsw: None,
            epoch: None,
        }
    }

    /// What is known of a stream.
    pub open spec fn stream(self, mid: MsgId) -> Stream {
        if self.streams.contains_key(mid) {
            self.streams[mid]
        } else {
            Stream::silent()
        }
    }

    /// Packets of this message that were lost in front of the one with counter `seq`.
    /// The first packet of a stream shows no loss.
    pub open spec fn lost_before(self, mid: MsgId, seq: u16) -> u64 {
        let s = self.stream(mid);
        if s.count > 0 {
            missed(seq_step(s.last_seq, seq))
        } else {
            0
        }
    }

    /// Do the counters have room for one more packet?
    pub open spec fn has_room(self, buf: Seq<u8>) -> bool {
        let p = decoded(buf);
        buf.len() >= TLM_HEADER ==> {
            &&& self.packets < u64::MAX
            &&& self.stream(p.msg_id).count < u64::MAX
            &&& self.stream(p.msg_id).gaps + self.lost_before(p.msg_id, p.seq) <= u64::MAX
        }
    }

    /// The state after a datagram. What is too short to be a packet changes nothing.
    pub open spec fn ingest(self, buf: Seq<u8>) -> StateView {
        if buf.len() < TLM_HEADER {
            self
        } else {
            let p = decoded(buf);
            let epoch = match self.epoch {
                Some(t) => t,
                None => p.time(),
            };
            let s = self.stream(p.msg_id);
            StateView {
                fsw: match reported(p.msg_id, buf) {
                    Some(f) => Some(f),
                    None => self.fsw,
                },
                events: match event_in(p.msg_id, buf) {
                    Some(e) => logged(self.events, e),
                    None => self.events,
                },
                epoch: Some(epoch),
                streams: self.streams.insert(
                    p.msg_id,
                    Stream {
                        count: (s.count + 1) as u64,
                        last_seq: p.seq,
                        gaps: (s.gaps + self.lost_before(p.msg_id, p.seq)) as u64,
                        last_time: (p.time() - epoch) as i64,
                        len: p.len,
                    },
                ),
                packets: (self.packets + 1) as u64,
                ..self
            }
        }
    }

    /// The state of a session that failed for this reason.
    pub open spec fn failed(self, error: Seq<char>) -> StateView {
        StateView { error: Some(error), alive: false, running: false, ..self }
    }

    /// What the transport bar says.
    pub open spec fn status_text(self) -> Seq<char> {
        if !self.alive {
            "booting…"@
        } else if self.running {
            "running"@
        } else {
            "time frozen"@
        }
    }

    /// The state after all of some datagrams.
    pub open spec fn ingest_all(self, datagrams: Seq<Seq<u8>>) -> StateView
        decreases datagrams.len(),
    {
        if datagrams.len() == 0 {
            self
        } else {
            self.ingest_all(datagrams.drop_last()).ingest(datagrams.last())
        }
    }
}

/// The packets lost of all messages below `end`.
pub open spec fn gaps_below(streams: Map<MsgId, Stream>, end: nat) -> nat
    decreases end,
{
    if end == 0 {
        0
    } else {
        let mid = (end - 1) as u16;
        gaps_below(streams, (end - 1) as nat) + if streams.contains_key(mid) {
            streams[mid].gaps as nat
        } else {
            0
        }
    }
}

proof fn lemma_no_streams_between(streams: Map<MsgId, Stream>, lo: nat, hi: nat)
    requires
        lo <= hi <= 0x1_0000,
        forall|m: MsgId| lo <= m < hi ==> !#[trigger] streams.contains_key(m),
    ensures
        gaps_below(streams, lo) == gaps_below(streams, hi),
    decreases hi,
{
    if lo < hi {
        assert(!streams.contains_key((hi - 1) as u16));
        lemma_no_streams_between(streams, lo, (hi - 1) as nat);
    }
}

proof fn lemma_gaps_bound(streams: Map<MsgId, Stream>, end: nat)
    ensures
        gaps_below(streams, end) <= end * u64::MAX,
    decreases end,
{
    if end > 0 {
        lemma_gaps_bound(streams, (end - 1) as nat);
        assert((end - 1) * u64::MAX + u64::MAX == end * u64::MAX) by (nonlinear_arith);
    }
}

proof fn lemma_increasing(keys: Seq<MsgId>)
    requires
        increasing_seq(keys),
    ensures
        forall|i: int, j: int| 0 <= i < j < keys.len() ==> #[trigger] keys[i] < #[trigger] keys[j],
{
    assert forall|i: int, j: int| 0 <= i < j < keys.len() implies #[trigger] keys[i]
        < #[trigger] keys[j] by {
        assert(keys[i].cmp_spec(&keys[j]) is Less);
    }
}

impl Default for State {
    fn default() -> (s: State)
        ensures
            s@ == StateView::empty(),
    {
        let s = State {
            running: false,
            alive: false,
            sim_usec: 0,
            streams: BTreeMap::new(),
            events: Vec::new(),
            packets: 0,
            error: None,
            fsw: None,
            epoch: None,
        };
        assert(s@ =~= StateView::empty());
        s
    }
}

impl State {
    /// What is known of a stream.
    pub fn stream(&self, mid: MsgId) -> (s: Stream)
        ensures
            s == self@.stream(mid),
    {
        match self.streams.get(&mid) {
            Some(s) => *s,
            None => Stream { count: 0, last_seq: 0, gaps: 0, last_time: 0, len: 0 },
        }
    }

    fn lost_before(&self, mid: MsgId, seq: u16) -> (n: u64)
        ensures
            n == self@.lost_before(mid, seq),
    {
        let s: Stream = self.stream(mid);
        if s.count == 0 {
            return 0;
        }
        let moved: u32 = seq as u32 + 0x1_0000 - s.last_seq as u32;
        let step: u32 = moved % 0x4000;
        assert(step as u16 == seq_step(s.last_seq, seq));
        if step > 1 {
            (step - 1) as u64
        } else {
            0
        }
    }

    /// Do the counters have room for one more packet?
    pub fn has_room(&self, buf: &[u8]) -> (r: bool)
        ensures
            r == self@.has_room(buf@),
    {
        match TlmPacket::parse(buf) {
            Ok(pkt) => {
                let s: Stream = self.stream(pkt.msg_id);
                let lost: u64 = self.lost_before(pkt.msg_id, pkt.seq);
                self.packets < u64::MAX && s.count < u64::MAX && s.gaps <= u64::MAX - lost
            },
            Err(_) => true,
        }
    }

    /// Take in one datagram from the downlink.
    pub fn ingest(&mut self, buf: &[u8])
        requires
            old(self)@.has_room(buf@),
        ensures
            final(self)@ == old(self)@.ingest(buf@),
    {
        let pkt: TlmPacket = match TlmPacket::parse(buf) {
            Ok(pkt) => pkt,
            Err(_) => {
                return;
            },
        };
        let s: Stream = self.stream(pkt.msg_id);
        let lost: u64 = self.lost_before(pkt.msg_id, pkt.seq);

        match FswState::parse(pkt.msg_id, buf) {
            Some(f) => {
                self.fsw = Some(f);
            },
            None => {},
        }

        let ghost before = event_views(self.events@);
        match evs::parse(pkt.msg_id, buf) {
            Some(event) => {
                let ghost e = event@;
                self.events.push(event);
                assert(event_views(self.events@) =~= before.push(e));
                if self.events.len() > LOG_CAP {
                    let ghost all = event_views(self.events@);
                    self.events = self.events.split_off(LOG_DROP);
                    assert(event_views(self.events@) =~= all.skip(LOG_DROP as int));
                }
            },
            None => {},
        }

        let epoch: (u32, u16) = match self.epoch {
            Some(t) => t,
            None => (pkt.secs, pkt.subsecs),
        };
        let start: i64 = epoch.0 as i64 * 0x1_0000 + epoch.1 as i64;
        let last_time: i64 = pkt.time_secs() as i64 - start;
        self.epoch = Some(epoch);
        self.streams.insert(
            pkt.msg_id,
            Stream {
                count: s.count + 1,
                last_seq: pkt.seq,
                gaps: s.gaps + lost,
                last_time,
                len: pkt.len,
            },
        );
        self.packets = self.packets + 1;
        assert(self@ =~= old(self)@.ingest(buf@));
    }

    /// Packets lost over all streams.
    pub fn dropped(&self) -> (total: u128)
        ensures
            total == gaps_below(self@.streams, 0x1_0000),
    {
        let ghost m = self.streams@;
        let mut total: u128 = 0;
        let ghost mut done: nat = 0;
        let iter = self.streams.iter();
        proof {
            let keys = iter.remaining().map_values(|kv: (&MsgId, &Stream)| *kv.0);
            lemma_increasing(keys);
            assert forall|i: int, j: int|
                0 <= i < j < iter.remaining().len() implies *(#[trigger] iter.remaining()[i]).0 < *(
            #[trigger] iter.remaining()[j]).0 by {
                assert(keys[i] < keys[j]);
            }
        }
        for (mid, s) in it: iter
            invariant
                m == self.streams@,
                forall|i: int|
                    0 <= i < it.seq().len() ==> m.contains_key(*(#[trigger] it.seq()[i]).0)
                        && m[*it.seq()[i].0] == *it.seq()[i].1,
                forall|i: int, j: int|
                    0 <= i < j < it.seq().len() ==> *(#[trigger] it.seq()[i]).0 < *(
                    #[trigger] it.seq()[j]).0,
                forall|k: MsgId| #[trigger] m.contains_key(k) ==> it.seq().contains((&k, &m[k])),
                done <= 0x1_0000,
                done == if it.index() == 0 {
                    0nat
                } else {
                    (*it.seq()[it.index() - 1].0 + 1) as nat
                },
                total == gaps_below(m, done),
        {
            let ghost n = it.index() as int;
            proof {
                assert forall|k: MsgId| done <= k < *mid implies !#[trigger] m.contains_key(k) by {
                    if m.contains_key(k) {
                        let j = choose|j: int|
                            0 <= j < it.seq().len() && it.seq()[j] == (&k, &m[k]);
                        assert(*it.seq()[j].0 == k);
                        assert(*it.seq()[n].0 == *mid);
                        if j < n {
                            assert(j <= n - 1);
                        }
                    }
                }
                lemma_no_streams_between(m, done, *mid as nat);
                lemma_gaps_bound(m, *mid as nat);
                assert(m.contains_key(*it.seq()[n].0));
            }
            total = total + s.gaps as u128;
            proof {
                done = (*mid + 1) as nat;
            }
        }
        proof {
            assert forall|k: MsgId| done <= k < 0x1_0000 implies !#[trigger] m.contains_key(k) by {
            }
            lemma_no_streams_between(m, done, 0x1_0000);
        }
        total
    }

    /// The session failed: say why, and stop.
    pub fn fail(&mut self, error: String)
        ensures
            final(self)@ == (StateView {
                error: Some(error@),
                alive: false,
                running: false,
                ..old(self)@
            }),
            final(self)@ == old(self)@.failed(error@),
    {
        self.error = Some(error);
        self.alive = false;
        self.running = false;
    }

    /// What the transport bar says of the spacecraft.
    pub fn status(&self) -> (s: &'static str)
        ensures
            s@ == if !self@.alive {
                "booting…"@
            } else if self@.running {
                "running"@
            } else {
                "time frozen"@
            },
            s@ == self@.status_text(),
    {
        if !self.alive {
            "booting…"
        } else if self.running {
            "running"
        } else {
            "time frozen"
        }
    }
}

/// Add a point to the orbit trail where one is due, or where there is none yet. Over
/// its limit the oldest point leaves.
pub open spec fn trailed<T>(trail: Seq<T>, point: T, due: bool, cap: nat) -> Seq<T> {
    if trail.len() == 0 || due {
        let all = trail.push(point);
        if all.len() > cap {
            all.drop_first()
        } else {
            all
        }
    } else {
        trail
    }
}

/// Add a point to the orbit trail where one is due, or where there is none yet.
/// Returns whether the point was sampled.
pub fn extend_trail<T>(trail: &mut Vec<T>, point: T, due: bool, cap: usize) -> (sampled: bool)
    ensures
        final(trail)@ == trailed(old(trail)@, point, due, cap as nat),
        sampled == (old(trail)@.len() == 0 || due),
{
    if trail.len() == 0 || due {
        trail.push(point);
        if trail.len() > cap {
            let ghost all = trail@;
            trail.remove(0);
            assert(trail@ =~= all.drop_first());
        }
        return true;
    }
    false
}

/// The event log never grows past its limit, and an event that came in is its last.
pub proof fn the_log_is_a_tail(events: Seq<EventView>, e: EventView)
    requires
        events.len() <= LOG_CAP,
    ensures
        logged(events, e).len() <= LOG_CAP,
        logged(events, e).last() == e,
        events.len() < LOG_CAP ==> logged(events, e) == events.push(e),
{
}

/// The packets received of all messages below `end`.
pub open spec fn count_below(streams: Map<MsgId, Stream>, end: nat) -> nat
    decreases end,
{
    if end == 0 {
        0
    } else {
        let mid = (end - 1) as u16;
        count_below(streams, (end - 1) as nat) + if streams.contains_key(mid) {
            streams[mid].count as nat
        } else {
            0
        }
    }
}

proof fn lemma_count_insert(streams: Map<MsgId, Stream>, mid: MsgId, s: Stream, end: nat)
    requires
        end <= 0x1_0000,
        s.count == 1 + if streams.contains_key(mid) {
            streams[mid].count
        } else {
            0
        },
    ensures
        count_below(streams.insert(mid, s), end) == count_below(streams, end) + if mid < end {
            1nat
        } else {
            0
        },
    decreases end,
{
    if end > 0 {
        lemma_count_insert(streams, mid, s, (end - 1) as nat);
    }
}

proof fn lemma_count_covers(streams: Map<MsgId, Stream>, mid: MsgId, end: nat)
    requires
        mid < end <= 0x1_0000,
        streams.contains_key(mid),
    ensures
        streams[mid].count <= count_below(streams, end),
    decreases end,
{
    if mid < end - 1 {
        lemma_count_covers(streams, mid, (end - 1) as nat);
    }
}

/// Every packet is counted once, with its stream: the packets received stay the
/// packets of all streams together.
pub proof fn every_packet_is_counted_once(v: StateView, buf: Seq<u8>)
    requires
        v.packets < u64::MAX,
        v.packets == count_below(v.streams, 0x1_0000),
    ensures
        v.ingest(buf).packets == count_below(v.ingest(buf).streams, 0x1_0000),
        v.ingest(buf).packets == v.packets + if buf.len() >= TLM_HEADER {
            1int
        } else {
            0
        },
{
    if buf.len() >= TLM_HEADER {
        let p = decoded(buf);
        if v.streams.contains_key(p.msg_id) {
            lemma_count_covers(v.streams, p.msg_id, 0x1_0000);
        }
        lemma_count_insert(v.streams, p.msg_id, v.ingest(buf).streams[p.msg_id], 0x1_0000);
    }
}

/// Over a whole session the packets received are counted, each with its stream, and
/// the event log stays within its limit.
pub proof fn a_session_counts_its_packets(datagrams: Seq<Seq<u8>>)
    requires
        datagrams.len() <= u64::MAX,
    ensures
        ({
            let v = StateView::empty().ingest_all(datagrams);
            &&& v.packets == packets_in(datagrams).len()
            &&& v.packets == count_below(v.streams, 0x1_0000)
            &&& v.packets <= datagrams.len()
            &&& v.events.len() <= LOG_CAP
        }),
    decreases datagrams.len(),
{
    if datagrams.len() == 0 {
        counting_starts_at_zero(0x1_0000);
    } else {
        a_session_counts_its_packets(datagrams.drop_last());
        every_packet_is_counted_once(
            StateView::empty().ingest_all(datagrams.drop_last()),
            datagrams.last(),
        );
    }
}

/// A session that received nothing has counted nothing.
pub proof fn counting_starts_at_zero(end: nat)
    ensures
        count_below(StateView::empty().streams, end) == 0,
        gaps_below(StateView::empty().streams, end) == 0,
    decreases end,
{
    if end > 0 {
        counting_starts_at_zero((end - 1) as nat);
    }
}

/// A stream whose counters are consecutive shows no loss, and one that skipped `n`
/// counters, short of all the way round, shows `n`.
pub proof fn losses_are_counted(v: StateView, mid: MsgId, seq: u16, n: u16)
    requires
        v.stream(mid).count > 0,
        n < 0x3FFF,
        seq_step(v.stream(mid).last_seq, seq) == n + 1,
    ensures
        v.lost_before(mid, seq) == n,
{
}

} // verus!
