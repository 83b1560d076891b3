//! What holds of a live session: what one datagram changes, and what a whole series of
//! them adds up to.

use vstd::prelude::*;
use crate::bringup::{unanswered, BringUp, LinkActionView};
use crate::ccsds::{command, decoded, MsgId};
use crate::evs::{event_in, EventView};
use crate::fsw::{add_packet_payload, reported};
use crate::run::{ground_address, packets_in, states_in, RunError};
use crate::scenario_laws::{datagrams_are_decoded_in_order, one_datagram_is_one_packet};
use crate::session::{gaps_below, logged, trailed, Cmd, StateView, Stream};
use crate::stream_laws::packets_of;
use crate::transport::{after_bursts, reaction, sum_capped, ticks_over, ReactionView, Transport};

verus! {

/// A packet is counted with its own stream: one packet more, with its counter, its
/// length and its time since the first packet of the session, and the losses in front
/// of it added to those before. No other stream changes.
pub proof fn a_packet_changes_its_own_stream(v: StateView, buf: Seq<u8>, other: MsgId)
    requires
        v.has_room(buf),
        12 <= buf.len() <= usize::MAX,
    ensures
        ({
            let p = decoded(buf);
            let s = v.stream(p.msg_id);
            let t = v.ingest(buf).stream(p.msg_id);
            &&& v.ingest(buf).streams.contains_key(p.msg_id)
            &&& t.count == s.count + 1
            &&& t.last_seq == p.seq
            &&& t.len == buf.len()
            &&& t.gaps == s.gaps + v.lost_before(p.msg_id, p.seq)
            &&& v.epoch is None ==> t.last_time == 0
            &&& v.epoch matches Some(first) ==> (-0x7FFF_FFFF_FFFF_FFFF <= p.time() - first
                <= 0x7FFF_FFFF_FFFF_FFFF ==> t.last_time == p.time() - first)
            &&& other != p.msg_id ==> v.ingest(buf).stream(other) == v.stream(other)
            &&& other != p.msg_id ==> (v.ingest(buf).streams.contains_key(other)
                <==> v.streams.contains_key(other))
        }),
{
}

/// What else a packet changes: one packet more was received, the first sets the epoch,
/// a report on the vehicle replaces the last, and an event goes to the end of the log.
/// Only the operator and the link change the rest.
pub proof fn a_packet_changes_nothing_else(v: StateView, buf: Seq<u8>)
    requires
        v.has_room(buf),
    ensures
        buf.len() < 12 ==> v.ingest(buf) == v,
        buf.len() >= 12 ==> {
            let p = decoded(buf);
            let w = v.ingest(buf);
            &&& w.packets == v.packets + 1
            &&& w.epoch == Some(
                match v.epoch {
                    Some(t) => t,
                    None => p.time(),
                },
            )
            &&& w.fsw == match reported(p.msg_id, buf) {
                Some(f) => Some(f),
                None => v.fsw,
            }
            &&& event_in(p.msg_id, buf) is None ==> w.events == v.events
            &&& event_in(p.msg_id, buf) matches Some(e) ==> w.events.last() == e
            &&& w.running == v.running
            &&& w.alive == v.alive
            &&& w.sim_usec == v.sim_usec
            &&& w.error == v.error
        },
{
    if buf.len() >= 12 {
        if let Some(e) = event_in(decoded(buf).msg_id, buf) {
            a_log_loses_only_its_oldest(v.events, e);
        }
    }
}

/// The losses in front of a packet are the counters between it and the one before: they
/// lead from one to the other in fourteen bits. A counter that did not move shows no
/// loss, and neither does the first packet of a stream.
pub proof fn losses_are_the_counters_between(v: StateView, mid: MsgId, seq: u16)
    ensures
        ({
            let s = v.stream(mid);
            let lost = v.lost_before(mid, seq);
            &&& s.count == 0 ==> lost == 0
            &&& s.count > 0 && seq as int % 0x4000 == s.last_seq as int % 0x4000 ==> lost == 0
            &&& s.count > 0 && seq as int % 0x4000 != s.last_seq as int % 0x4000 ==> (s.last_seq
                + 1 + lost) % 0x4000 == seq as int % 0x4000
            &&& lost < 0x3FFF
        }),
{
}

/// There is room for a packet unless one of the three counts would overflow.
pub proof fn there_is_room_until_a_count_is_full(v: StateView, buf: Seq<u8>)
    ensures
        buf.len() < 12 ==> v.has_room(buf),
        buf.len() >= 12 ==> (v.has_room(buf) <==> {
            let p = decoded(buf);
            &&& v.packets < 0xFFFF_FFFF_FFFF_FFFF
            &&& v.stream(p.msg_id).count < 0xFFFF_FFFF_FFFF_FFFF
            &&& v.stream(p.msg_id).gaps + v.lost_before(p.msg_id, p.seq) <= 0xFFFF_FFFF_FFFF_FFFF
        }),
{
}

/// Do the counters have room for all of some datagrams, one after the other?
pub open spec fn has_room_for(v: StateView, d: Seq<Seq<u8>>) -> bool {
    forall|k: int| 0 <= k < d.len() ==> v.ingest_all(d.take(k)).has_room(#[trigger] d[k])
}

proof fn lemma_room(v: StateView, d: Seq<Seq<u8>>)
    requires
        has_room_for(v, d),
        d.len() > 0,
    ensures
        has_room_for(v, d.drop_last()),
        v.ingest_all(d.drop_last()).has_room(d.last()),
{
    let front = d.drop_last();
    assert forall|k: int| 0 <= k < front.len() implies v.ingest_all(front.take(k)).has_room(
        #[trigger] front[k],
    ) by {
        assert(front.take(k) =~= d.take(k));
        assert(front[k] == d[k]);
    }
    assert(d.take(d.len() - 1) =~= front);
    assert(v.ingest_all(d.take(d.len() - 1)).has_room(d[d.len() - 1]));
}

/// Counts and losses never go down over a session, on any stream.
pub proof fn losses_never_go_down(v: StateView, d: Seq<Seq<u8>>, mid: MsgId)
    requires
        has_room_for(v, d),
    ensures
        v.ingest_all(d).stream(mid).gaps >= v.stream(mid).gaps,
        v.ingest_all(d).stream(mid).count >= v.stream(mid).count,
        v.ingest_all(d).packets >= v.packets,
    decreases d.len(),
{
    if d.len() > 0 {
        lemma_room(v, d);
        losses_never_go_down(v, d.drop_last(), mid);
    }
}

/// Taking in some datagrams and then others is taking in all of them in turn.
pub proof fn a_session_goes_on(v: StateView, d: Seq<Seq<u8>>, e: Seq<Seq<u8>>, buf: Seq<u8>)
    ensures
        v.ingest_all(d + e) == v.ingest_all(d).ingest_all(e),
        v.ingest_all(seq![buf]) == v.ingest(buf),
        v.ingest_all(Seq::<Seq<u8>>::empty()) == v,
    decreases e.len(),
{
    reveal_with_fuel(StateView::ingest_all, 2);
    assert(seq![buf].drop_last() =~= Seq::<Seq<u8>>::empty());
    if e.len() == 0 {
        assert(d + e =~= d);
    } else {
        a_session_goes_on(v, d, e.drop_last(), buf);
        assert((d + e).drop_last() =~= d + e.drop_last());
        assert((d + e).last() == e.last());
    }
}

/// A session shows each stream as its packets make it: how many came, and of the last
/// its counter and its length. The epoch is the time of the first packet of all, and
/// the vehicle is where the last report said.
pub proof fn a_session_shows_what_came(d: Seq<Seq<u8>>, mid: MsgId)
    requires
        d.len() <= u64::MAX,
    ensures
        ({
            let v = StateView::empty().ingest_all(d);
            let all = packets_in(d);
            let own = packets_of(all, mid);
            &&& v.stream(mid).count == own.len()
            &&& v.streams.contains_key(mid) <==> own.len() > 0
            &&& own.len() > 0 ==> v.stream(mid).last_seq == own.last().seq
            &&& own.len() > 0 ==> v.stream(mid).len == own.last().len
            &&& own.len() <= all.len() <= d.len()
            &&& v.epoch == if all.len() > 0 {
                Some(all[0].time())
            } else {
                None
            }
            &&& v.fsw == if states_in(d).len() > 0 {
                Some(states_in(d).last())
            } else {
                None
            }
        }),
    decreases d.len(),
{
    reveal(Seq::filter);
    if d.len() > 0 {
        let front = d.drop_last();
        let buf = d.last();
        a_session_shows_what_came(front, mid);
        datagrams_are_decoded_in_order(front, seq![buf]);
        one_datagram_is_one_packet(buf);
        assert(front + seq![buf] =~= d);
        if buf.len() >= 12 {
            let p = decoded(buf);
            assert(packets_in(d) =~= packets_in(front).push(p));
            assert(packets_in(d).drop_last() =~= packets_in(front));
        } else {
            assert(packets_in(d) =~= packets_in(front));
            assert(states_in(d) =~= states_in(front));
        }
    }
}

/// Losses over all streams are those of each: what one stream has more, all have more.
pub proof fn losses_add_up_over_streams(
    streams: Map<MsgId, Stream>,
    mid: MsgId,
    s: Stream,
    end: nat,
)
    requires
        end <= 0x1_0000,
    ensures
        gaps_below(streams.insert(mid, s), end) + (if mid < end && streams.contains_key(mid) {
            streams[mid].gaps as nat
        } else {
            0
        }) == gaps_below(streams, end) + if mid < end {
            s.gaps as nat
        } else {
            0
        },
    decreases end,
{
    if end > 0 {
        losses_add_up_over_streams(streams, mid, s, (end - 1) as nat);
    }
}

/// A packet adds the losses in front of it to the losses of the session.
pub proof fn a_packet_adds_its_losses(v: StateView, buf: Seq<u8>)
    requires
        v.has_room(buf),
        buf.len() >= 12,
    ensures
        gaps_below(v.ingest(buf).streams, 0x1_0000) == gaps_below(v.streams, 0x1_0000)
            + v.lost_before(decoded(buf).msg_id, decoded(buf).seq),
{
    let m = decoded(buf).msg_id;
    losses_add_up_over_streams(v.streams, m, v.ingest(buf).stream(m), 0x1_0000);
}

/// A session that failed is neither alive nor running, and says why. What it received
/// stays.
pub proof fn a_failed_session_says_why(v: StateView, error: Seq<char>)
    ensures
        ({
            let w = v.failed(error);
            &&& w.error == Some(error)
            &&& !w.alive
            &&& !w.running
            &&& w == (StateView { error: w.error, alive: w.alive, running: w.running, ..v })
            &&& w.status_text() == "booting…"@
        }),
{
}

/// What the transport bar says depends on nothing but whether the spacecraft is alive
/// and time is running.
pub proof fn the_status_tells_whether_time_moves(v: StateView, w: StateView)
    ensures
        v.alive && v.running ==> v.status_text() == "running"@,
        v.alive && !v.running ==> v.status_text() == "time frozen"@,
        v.alive == w.alive && v.running == w.running ==> v.status_text() == w.status_text(),
        !v.alive && !w.alive ==> v.status_text() == w.status_text(),
{
}

/// The log loses the hundred oldest events when one comes in on top of five hundred,
/// and otherwise none: what is left is the rest of it, with the new event at the end.
pub proof fn a_log_loses_only_its_oldest(events: Seq<EventView>, e: EventView)
    ensures
        logged(events, e).len() == events.len() + 1 - if events.len() >= 500 {
            100int
        } else {
            0
        },
        logged(events, e).last() == e,
        forall|i: int|
            0 <= i < logged(events, e).len() - 1 ==> #[trigger] logged(events, e)[i] == events[i
                + events.len() + 1 - logged(events, e).len()],
{
}

/// A trail takes the point where one is due or it is empty, at its end, and then loses
/// its oldest point if it is longer than it may be. Otherwise it stays as it is.
pub proof fn a_trail_loses_only_its_oldest<T>(trail: Seq<T>, point: T, due: bool, cap: nat)
    ensures
        ({
            let t = trailed(trail, point, due, cap);
            let sampled = due || trail.len() == 0;
            let full = trail.len() >= cap;
            &&& !sampled ==> t == trail
            &&& sampled && !full ==> t == trail + seq![point]
            &&& sampled && full ==> seq![(trail + seq![point])[0]] + t == trail + seq![point]
        }),
{
    let all = trail + seq![point];
    assert(trail.push(point) =~= all);
    assert(seq![all[0]] + all.drop_first() =~= all);
}

/// A session that has not begun shows nothing.
pub proof fn a_session_begins_with_nothing(mid: MsgId)
    ensures
        ({
            let v = StateView::empty();
            &&& !v.running
            &&& !v.alive
            &&& v.sim_usec == 0
            &&& v.packets == 0
            &&& v.events.len() == 0
            &&& v.error is None
            &&& v.fsw is None
            &&& v.epoch is None
            &&& !v.streams.contains_key(mid)
            &&& v.stream(mid).count == 0
            &&& v.stream(mid).last_seq == 0
            &&& v.stream(mid).gaps == 0
            &&& v.stream(mid).last_time == 0
            &&& v.stream(mid).len == 0
        }),
{
}

proof fn lemma_bursts(t: Transport, n: nat)
    ensures
        after_bursts(t, n) == (Transport {
            budget: if n < t.budget {
                (t.budget - n) as u32
            } else {
                0
            },
            ..t
        }),
    decreases n,
{
    if n > 0 {
        lemma_bursts(t, (n - 1) as nat);
    }
}

/// Steps come first, one at a time; once they are taken, a spacecraft whose time is
/// running gets its warp with every burst, and one whose time is not gets nothing.
pub proof fn bursts_add_up(t: Transport, n: nat)
    ensures
        n <= t.budget ==> ticks_over(t, n) == n,
        n > t.budget && !t.running ==> ticks_over(t, n) == t.budget,
        n > t.budget && t.running ==> ticks_over(t, n) == t.budget + (n - t.budget) * t.warp,
    decreases n,
{
    if n > 0 {
        let m = (n - 1) as nat;
        bursts_add_up(t, m);
        lemma_bursts(t, m);
        if n > t.budget && t.running {
            let (k, w) = (n - t.budget, t.warp as int);
            assert(k * w == (k - 1) * w + w) by (nonlinear_arith);
            if m == t.budget {
                assert((k - 1) * w == 0) by (nonlinear_arith)
                    requires
                        k == 1,
                ;
            }
        }
    }
}

/// A step asks for that many ticks on top of those still to be taken, up to the largest
/// number there is, and they are all granted, whatever the warp.
pub proof fn steps_are_granted_in_full(t: Transport, ticks: u32, n: nat)
    requires
        n >= t.budget + ticks,
    ensures
        ticks_over(t.after(Cmd::StepTicks(ticks)), n) == if t.budget + ticks <= 0xFFFF_FFFF {
            t.budget + ticks
        } else {
            0xFFFF_FFFF
        },
        sum_capped(t.budget, ticks) == if t.budget + ticks <= 0xFFFF_FFFF {
            t.budget + ticks
        } else {
            0xFFFF_FFFF
        },
{
    bursts_add_up(t.after(Cmd::StepTicks(ticks)), n);
}

/// The warp is how many ticks a burst grants once time is running; a warp of none is a
/// warp of one. It changes nothing else.
pub proof fn the_warp_is_the_burst(t: Transport, warp: u32, n: nat)
    requires
        t.budget == 0,
    ensures
        t.after(Cmd::Warp(warp)).running == t.running,
        t.after(Cmd::Warp(warp)).budget == t.budget,
        ticks_over(t.after(Cmd::Warp(warp)).after(Cmd::Play), n) == n * if warp == 0 {
            1nat
        } else {
            warp as nat
        },
{
    let w = if warp == 0 {
        1nat
    } else {
        warp as nat
    };
    bursts_add_up(t.after(Cmd::Warp(warp)).after(Cmd::Play), n);
    assert(n == 0 ==> n * w == 0) by (nonlinear_arith);
}

/// Playing, pausing and stepping leave the warp as it was set, and playing leaves the
/// steps that are still to be taken.
pub proof fn the_warp_stays_as_set(t: Transport, ticks: u32)
    ensures
        t.after(Cmd::Play).warp == t.warp,
        t.after(Cmd::Play).budget == t.budget,
        t.after(Cmd::Play).running,
        t.after(Cmd::Pause).warp == t.warp,
        t.after(Cmd::StepTicks(ticks)).warp == t.warp,
        t.spent().warp == t.warp,
        t.spent().running == t.running,
{
}

/// A command to the spacecraft is sent as it was given and changes nothing of the
/// transport; shutting down stops the link; no other command is sent anywhere.
pub proof fn only_sending_sends(t: Transport, cmd: Cmd)
    ensures
        cmd matches Cmd::Send { msg_id, fn_code, payload } ==> t.after(cmd) == t && reaction(cmd)
            == (ReactionView::Uplink { command: command(msg_id, fn_code, payload@) }),
        cmd is Shutdown ==> t.after(cmd) == t && reaction(cmd) is Stop,
        !(cmd is Send) && !(cmd is Shutdown) ==> reaction(cmd) is Carry,
{
}

/// Bringing up the downlink goes forward with every answer, however many attempts it
/// took, and needs no answer to a subscription. Without a command port it ends.
pub proof fn an_answer_brings_the_downlink_forward(attempts: u32, answered: bool)
    ensures
        BringUp::AwaitPort.after(true) == Ok::<BringUp, RunError>(BringUp::Enable { attempts: 0 }),
        BringUp::AwaitPort.after(false) == Err::<BringUp, RunError>(RunError::NoCommandPort),
        (BringUp::Enable { attempts }).after(true) == Ok::<BringUp, RunError>(BringUp::Subscribe),
        BringUp::Subscribe.after(answered) == Ok::<BringUp, RunError>(BringUp::Up),
        BringUp::Up.after(answered) == Ok::<BringUp, RunError>(BringUp::Up),
{
}

/// The enable command is sent twenty-five times before the session gives up.
pub proof fn enabling_is_tried_that_often(n: nat)
    ensures
        n < 25 ==> unanswered(n) == Ok::<BringUp, RunError>(BringUp::Enable { attempts: n as u32 }),
        n >= 25 ==> unanswered(n) == Err::<BringUp, RunError>(RunError::NeverEnabled),
{
    crate::bringup::enabling_is_retried(n);
}

/// Every attempt sends the same command, and what is sent to bring up the downlink is
/// what enables and subscribes it.
pub proof fn the_downlink_is_asked_for(attempts: u32)
    ensures
        BringUp::AwaitPort.asked() is AwaitPort,
        (BringUp::Enable { attempts }).asked() == (LinkActionView::Enable {
            command: command(0x1880, 6, ground_address()),
        }),
        BringUp::Subscribe.asked() == (LinkActionView::Subscribe {
            command: command(0x1880, 2, add_packet_payload(0x08F0)),
        }),
        BringUp::Up.asked() is Fly,
{
}

} // verus!
