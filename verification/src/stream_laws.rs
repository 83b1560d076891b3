//! What a comparison of two runs forgives, and what it catches.

use vstd::prelude::*;
use crate::ccsds::{MsgId, PacketView, EVS_EVENT_MID, SEQ_MODULUS};
use crate::transcript_laws::{
    finishing_keeps_each_stream, lemma_filtered_in_order, lemma_slot_of_stream,
};
use crate::order::{before, in_order, in_slot, same_slots, slot, stably_ordered};
use crate::streams::{
    agree, common, contents_differ, differences, differing, max_shift, occurs,
    of_mid, payload_differences, same_stream, shift_size, shifts, shifts_below, shifts_of, stream,
    stream_is_there, PayloadDiff, Shift,
};
use crate::transcript::{earlier, first_stamp, seq_step, snap, EntryView, TranscriptView};

verus! {

/// A run tells of the same stream as itself.
pub proof fn same_stream_is_reflexive(a: Seq<EntryView>)
    ensures
        same_stream(a, a),
{
}

/// It does not matter which run is held against which.
pub proof fn same_stream_is_symmetric(a: Seq<EntryView>, b: Seq<EntryView>)
    ensures
        same_stream(a, b) == same_stream(b, a),
{
    if same_stream(a, b) {
        lemma_swap(a, b);
    }
    if same_stream(b, a) {
        lemma_swap(b, a);
    }
}

proof fn lemma_swap(a: Seq<EntryView>, b: Seq<EntryView>)
    requires
        same_stream(a, b),
    ensures
        same_stream(b, a),
{
    assert forall|mid: MsgId| #[trigger] agree(stream(b, mid), stream(a, mid)) by {
        let x = stream(a, mid);
        let y = stream(b, mid);
        assert(agree(x, y));
        assert forall|i: int| 0 <= i < y.len() && i < x.len() implies (
        #[trigger] y[i]).stream_key() == x[i].stream_key() by {
            assert(x[i].stream_key() == y[i].stream_key());
        }
    }
}

/// Do two sequences of packets show the same keys, in the same order?
pub open spec fn same_keys(x: Seq<EntryView>, y: Seq<EntryView>) -> bool {
    &&& x.len() == y.len()
    &&& forall|i: int| 0 <= i < x.len() ==> (#[trigger] x[i]).stream_key() == y[i].stream_key()
}

/// Neither tick placement nor contents are compared. A run that shows the same
/// message ids, sequence deltas and lengths, message by message, compares the same
/// with every other run. It tells of the same stream itself.
pub proof fn placement_and_contents_do_not_matter(
    a: Seq<EntryView>,
    moved: Seq<EntryView>,
    b: Seq<EntryView>,
)
    requires
        forall|mid: MsgId| same_keys(#[trigger] stream(a, mid), stream(moved, mid)),
    ensures
        same_stream(a, b) == same_stream(moved, b),
        same_stream(a, moved),
{
    assert forall|mid: MsgId| #[trigger]
        agree(stream(a, mid), stream(b, mid)) == agree(stream(moved, mid), stream(b, mid)) by {
        assert(same_keys(stream(a, mid), stream(moved, mid)));
        lemma_same_answer(stream(a, mid), stream(moved, mid), stream(b, mid));
    }
    if same_stream(moved, b) {
        assert forall|mid: MsgId| #[trigger] agree(stream(a, mid), stream(b, mid)) by {
            assert(agree(stream(moved, mid), stream(b, mid)));
        }
    }
    if same_stream(a, b) {
        assert forall|mid: MsgId| #[trigger] agree(stream(moved, mid), stream(b, mid)) by {
            assert(agree(stream(a, mid), stream(b, mid)));
        }
    }
    assert forall|mid: MsgId| #[trigger] agree(stream(a, mid), stream(moved, mid)) by {
        assert(same_keys(stream(a, mid), stream(moved, mid)));
    }
}

proof fn lemma_same_answer(x: Seq<EntryView>, m: Seq<EntryView>, y: Seq<EntryView>)
    requires
        same_keys(x, m),
    ensures
        agree(x, y) == agree(m, y),
{
    if agree(x, y) {
        assert forall|i: int| 0 <= i < m.len() && i < y.len() implies (
        #[trigger] m[i]).stream_key() == y[i].stream_key() by {
            assert(x[i].stream_key() == m[i].stream_key());
        }
    }
    if agree(m, y) {
        assert forall|i: int| 0 <= i < x.len() && i < y.len() implies (
        #[trigger] x[i]).stream_key() == y[i].stream_key() by {
            assert(x[i].stream_key() == m[i].stream_key());
            assert(m[i].stream_key() == y[i].stream_key());
        }
    }
}

/// The boundary moving is not a divergence: a run that recorded one packet more of
/// a message, at the end, tells of the same stream.
pub proof fn one_trailing_packet_is_forgiven(b: Seq<EntryView>, e: EntryView)
    requires
        occurs(b, e.msg_id),
    ensures
        same_stream(b.push(e), b),
        same_stream(b, b.push(e)),
{
    assert forall|mid: MsgId| #[trigger] agree(stream(b.push(e), mid), stream(b, mid)) by {
        lemma_stream_push(b, e, mid);
        stream_is_there(b, mid);
    }
    lemma_swap(b.push(e), b);
}

/// Only one packet is forgiven: two more of one message are a divergence.
pub proof fn two_trailing_packets_are_not_forgiven(b: Seq<EntryView>, e: EntryView, f: EntryView)
    requires
        e.msg_id == f.msg_id,
    ensures
        !same_stream(b.push(e).push(f), b),
        !same_stream(b, b.push(e).push(f)),
{
    let mid = e.msg_id;
    lemma_stream_push(b, e, mid);
    lemma_stream_push(b.push(e), f, mid);
    assert(!agree(stream(b.push(e).push(f), mid), stream(b, mid)));
    assert(!agree(stream(b, mid), stream(b.push(e).push(f), mid)));
}

/// A whole stream that appears or vanishes is a divergence, however short it is.
pub proof fn a_whole_stream_is_not_forgiven(a: Seq<EntryView>, b: Seq<EntryView>, mid: MsgId)
    requires
        occurs(a, mid) != occurs(b, mid),
    ensures
        !same_stream(a, b),
{
    stream_is_there(a, mid);
    stream_is_there(b, mid);
    assert(!agree(stream(a, mid), stream(b, mid)));
}

proof fn lemma_stream_push(s: Seq<EntryView>, e: EntryView, mid: MsgId)
    ensures
        stream(s.push(e), mid) == if e.msg_id == mid {
            stream(s, mid).push(e)
        } else {
            stream(s, mid)
        },
{
    reveal(Seq::filter);
    assert(s.push(e).drop_last() =~= s);
}

/// One message's packets, in the order they came.
pub open spec fn packets_of(ps: Seq<PacketView>, mid: MsgId) -> Seq<PacketView> {
    ps.filter(|p: PacketView| p.msg_id == mid)
}

/// The transcript of a run that received `ps`.
pub open spec fn recorded(ps: Seq<PacketView>) -> Seq<EntryView> {
    TranscriptView::empty().record_all(ps).entries
}

/// A message's entries follow its packets: the same number, the same lengths and
/// contents, and a sequence delta from each packet to the next, none on the first.
pub proof fn entries_follow_packets(ps: Seq<PacketView>, mid: MsgId)
    ensures
        ({
            let x = stream(recorded(ps), mid);
            let q = packets_of(ps, mid);
            &&& x.len() == q.len()
            &&& forall|i: int|
                0 <= i < q.len() ==> {
                    &&& (#[trigger] x[i]).msg_id == mid
                    &&& x[i].len == q[i].len
                    &&& x[i].payload == q[i].payload
                    &&& x[i].seq_delta == if i == 0 {
                        None
                    } else {
                        Some(seq_step(q[i - 1].seq, q[i].seq))
                    }
                }
        }),
{
    lemma_entries_follow_packets(ps, mid);
}

proof fn lemma_entries_follow_packets(ps: Seq<PacketView>, mid: MsgId)
    ensures
        ({
            let t = TranscriptView::empty().record_all(ps);
            let x = stream(t.entries, mid);
            let q = packets_of(ps, mid);
            &&& x.len() == q.len()
            &&& t.prev_seq.contains_key(mid) <==> q.len() > 0
            &&& q.len() > 0 ==> t.prev_seq[mid] == q.last().seq
            &&& forall|i: int|
                0 <= i < q.len() ==> {
                    &&& (#[trigger] x[i]).msg_id == mid
                    &&& x[i].len == q[i].len
                    &&& x[i].payload == q[i].payload
                    &&& x[i].seq_delta == if i == 0 {
                        None
                    } else {
                        Some(seq_step(q[i - 1].seq, q[i].seq))
                    }
                }
        }),
    decreases ps.len(),
{
    reveal(Seq::filter);
    if ps.len() > 0 {
        let front = ps.drop_last();
        lemma_entries_follow_packets(front, mid);
        let t = TranscriptView::empty().record_all(front);
        let e = t.entry(ps.last());
        lemma_stream_push(t.entries, e, mid);
    }
}

/// How many event packets came before the first periodic one: all packets, where
/// none is periodic.
pub open spec fn events_ahead(ps: Seq<PacketView>) -> nat
    decreases ps.len(),
{
    if ps.len() == 0 {
        0
    } else if events_ahead(ps.drop_last()) == ps.len() - 1 && ps.last().msg_id == EVS_EVENT_MID {
        ps.len()
    } else {
        events_ahead(ps.drop_last())
    }
}

proof fn lemma_ahead(ps: Seq<PacketView>)
    ensures
        events_ahead(ps) <= ps.len(),
        events_ahead(ps) <= packets_of(ps, EVS_EVENT_MID).len(),
        packets_of(ps, EVS_EVENT_MID).len() <= ps.len(),
        TranscriptView::empty().record_all(ps).epoch == if events_ahead(ps) < ps.len() {
            Some(ps[events_ahead(ps) as int].time())
        } else {
            None
        },
        events_ahead(ps) == ps.len() ==> forall|mid: MsgId|
            mid != EVS_EVENT_MID ==> (#[trigger] packets_of(ps, mid)).len() == 0,
        events_ahead(ps) == ps.len() ==> packets_of(ps, EVS_EVENT_MID).len() == ps.len(),
    decreases ps.len(),
{
    reveal(Seq::filter);
    if ps.len() > 0 {
        lemma_ahead(ps.drop_last());
        if events_ahead(ps) == ps.len() {
            assert forall|mid: MsgId| mid != EVS_EVENT_MID implies (#[trigger] packets_of(
                ps,
                mid,
            )).len() == 0 by {
                assert(packets_of(ps.drop_last(), mid).len() == 0);
            }
        }
    }
}

/// The tick that the packet at place `i` of its message is recorded on: none for an
/// event ahead of the anchor, or else the time since the anchor, snapped.
pub open spec fn recorded_tick(ps: Seq<PacketView>, mid: MsgId, i: int) -> Option<i64> {
    if mid == EVS_EVENT_MID && i < events_ahead(ps) {
        None
    } else {
        Some(
            snap(packets_of(ps, mid)[i].time() - ps[events_ahead(ps) as int].time()) as i64,
        )
    }
}

/// Was that packet stamped before the anchor, and recorded after it?
pub open spec fn recorded_early(ps: Seq<PacketView>, mid: MsgId, i: int) -> bool {
    !(mid == EVS_EVENT_MID && i < events_ahead(ps)) && packets_of(ps, mid)[i].time()
        < ps[events_ahead(ps) as int].time()
}

proof fn lemma_recorded_ticks(ps: Seq<PacketView>, mid: MsgId)
    ensures
        stream(recorded(ps), mid).len() == packets_of(ps, mid).len(),
        forall|i: int|
            0 <= i < packets_of(ps, mid).len() ==> (#[trigger] stream(
                recorded(ps),
                mid,
            )[i]).rel_time == recorded_tick(ps, mid, i) && stream(recorded(ps), mid)[i].early
                == recorded_early(ps, mid, i),
    decreases ps.len(),
{
    reveal(Seq::filter);
    if ps.len() > 0 {
        let front = ps.drop_last();
        lemma_recorded_ticks(front, mid);
        lemma_entries_follow_packets(front, mid);
        lemma_ahead(front);
        lemma_ahead(ps);
        let t = TranscriptView::empty().record_all(front);
        let e = t.entry(ps.last());
        lemma_stream_push(t.entries, e, mid);
        let x = stream(recorded(ps), mid);
        assert forall|i: int| 0 <= i < packets_of(ps, mid).len() implies (
        #[trigger] x[i]).rel_time == recorded_tick(ps, mid, i) && x[i].early == recorded_early(
            ps,
            mid,
            i,
        ) by {
            if i < packets_of(front, mid).len() {
                assert(x[i] == stream(recorded(front), mid)[i]);
                assert(packets_of(ps, mid)[i] == packets_of(front, mid)[i]);
                assert(x[i].rel_time == recorded_tick(front, mid, i));
            }
        }
    }
}

/// Did packets of different messages that carry the same stamp change places? The
/// stamps come in the same order, and so do each message's own packets. Which event
/// packets came ahead of the anchor is not such a change: they are recorded without
/// a tick.
pub open spec fn reordered_within_ticks(ps: Seq<PacketView>, qs: Seq<PacketView>) -> bool {
    &&& ps.len() == qs.len()
    &&& forall|i: int| 0 <= i < ps.len() ==> (#[trigger] ps[i]).time() == qs[i].time()
    &&& forall|mid: MsgId| #[trigger] packets_of(ps, mid) == packets_of(qs, mid)
    &&& events_ahead(ps) == events_ahead(qs)
}

/// Order within a single tick is not recorded: where packets of different messages
/// and equal stamps arrive in another order, each message's entries are the same, and
/// so are those at each instant.
pub proof fn order_within_a_tick_is_not_recorded(ps: Seq<PacketView>, qs: Seq<PacketView>)
    requires
        reordered_within_ticks(ps, qs),
    ensures
        forall|mid: MsgId| #[trigger] stream(recorded(ps), mid) == stream(recorded(qs), mid),
        same_slots(recorded(ps), recorded(qs)),
{
    lemma_ahead(ps);
    assert forall|mid: MsgId| #[trigger]
        stream(recorded(ps), mid) == stream(recorded(qs), mid) by {
        let x = stream(recorded(ps), mid);
        let y = stream(recorded(qs), mid);
        assert(packets_of(ps, mid) == packets_of(qs, mid));
        entries_follow_packets(ps, mid);
        entries_follow_packets(qs, mid);
        lemma_recorded_ticks(ps, mid);
        lemma_recorded_ticks(qs, mid);
        assert forall|i: int| 0 <= i < x.len() implies x[i] == y[i] by {
            assert(x[i].rel_time == recorded_tick(ps, mid, i));
            assert(y[i].rel_time == recorded_tick(qs, mid, i));
            if events_ahead(ps) < ps.len() {
                assert(ps[events_ahead(ps) as int].time() == qs[events_ahead(ps) as int].time());
            }
        }
        assert(x =~= y);
    }
    assert forall|time: Option<i64>, mid: MsgId| #[trigger]
        slot(recorded(ps), time, mid) == slot(recorded(qs), time, mid) by {
        assert(stream(recorded(ps), mid) == stream(recorded(qs), mid));
        lemma_slot_of_stream(recorded(ps), mid, time, mid);
        lemma_slot_of_stream(recorded(qs), mid, time, mid);
    }
}

/// Until a run is finished, the first stamp of a message is the time on the first of
/// its packets that was recorded.
pub proof fn the_first_stamp_is_the_first_packets(ps: Seq<PacketView>, mid: MsgId)
    ensures
        first_stamp(TranscriptView::empty().record_all(ps), mid) == if packets_of(ps, mid).len()
            > 0 {
            Some(packets_of(ps, mid)[0].time() as u64)
        } else {
            None
        },
    decreases ps.len(),
{
    reveal(Seq::filter);
    if ps.len() > 0 {
        the_first_stamp_is_the_first_packets(ps.drop_last(), mid);
    }
}

/// Is the entry at `k` the first of its message by time, and of those at one time the
/// first recorded?
pub open spec fn leads(x: Seq<EntryView>, k: int) -> bool {
    &&& 0 <= k < x.len()
    &&& forall|j: int| 0 <= j < x.len() ==> !earlier((#[trigger] x[j]).rel_time, x[k].rel_time)
    &&& forall|j: int| 0 <= j < k ==> earlier(x[k].rel_time, (#[trigger] x[j]).rel_time)
}

proof fn lemma_earliest(ps: Seq<PacketView>, mid: MsgId) -> (k: int)
    ensures
        ({
            let t = TranscriptView::empty().record_all(ps);
            let q = packets_of(ps, mid);
            let x = stream(t.entries, mid);
            &&& t.earliest.contains_key(mid) <==> q.len() > 0
            &&& q.len() > 0 ==> leads(x, k) && t.earliest[mid] == (
                x[k].rel_time,
                q[k].time() as u64,
            )
        }),
    decreases ps.len(),
{
    reveal(Seq::filter);
    if ps.len() == 0 {
        0
    } else {
        let front = ps.drop_last();
        let k = lemma_earliest(front, mid);
        lemma_entries_follow_packets(front, mid);
        let t = TranscriptView::empty().record_all(front);
        let p = ps.last();
        let e = t.entry(p);
        lemma_stream_push(t.entries, e, mid);
        let was = stream(t.entries, mid);
        let x = stream(t.record(p).entries, mid);
        if p.msg_id != mid {
            k
        } else if was.len() == 0 {
            assert(leads(x, 0));
            0
        } else if earlier(e.rel_time, was[k].rel_time) {
            let n = was.len() as int;
            assert forall|j: int| 0 <= j < x.len() implies !earlier(
                (#[trigger] x[j]).rel_time,
                x[n].rel_time,
            ) && (j < n ==> earlier(x[n].rel_time, x[j].rel_time)) by {
                if j < n {
                    assert(x[j] == was[j]);
                    assert(!earlier(was[j].rel_time, was[k].rel_time));
                }
            }
            assert(leads(x, n));
            n
        } else {
            assert forall|j: int| 0 <= j < x.len() implies !earlier(
                (#[trigger] x[j]).rel_time,
                x[k].rel_time,
            ) && (j < k ==> earlier(x[k].rel_time, x[j].rel_time)) by {
                if j < was.len() {
                    assert(x[j] == was[j]);
                }
            }
            assert(leads(x, k));
            k
        }
    }
}

proof fn lemma_first_of_slot(s: Seq<EntryView>, time: Option<i64>, mid: MsgId, k: int)
    requires
        0 <= k < s.len(),
        in_slot(time, mid)(s[k]),
        forall|j: int| 0 <= j < k ==> !in_slot(time, mid)(#[trigger] s[j]),
    ensures
        slot(s, time, mid).len() > 0,
        slot(s, time, mid)[0] == s[k],
{
    let p = in_slot(time, mid);
    let front = s.take(k);
    let rest = s.skip(k + 1);
    assert(s =~= front + (seq![s[k]] + rest));
    Seq::filter_distributes_over_add(front, seq![s[k]] + rest, p);
    rest.lemma_filter_prepend(s[k], p);
    assert forall|j: int| 0 <= j < front.len() implies !p(#[trigger] front[j]) by {
        assert(front[j] == s[j]);
    }
    front.lemma_all_neg_filter_empty(p);
    assert(s.filter(p) =~= seq![s[k]] + rest.filter(p));
}

/// Once a run is finished, the first stamp of a message is the time on the packet
/// whose entry comes first of its message in the finished order. The order in which
/// packets of different ticks arrived does not matter. (Where event packets came
/// ahead of the anchor, see `an_event_ahead_of_the_anchor_was_first`.)
pub proof fn a_finished_first_stamp_is_the_first_entrys(
    ps: Seq<PacketView>,
    finished: Seq<EntryView>,
    mid: MsgId,
) -> (k: int)
    requires
        stably_ordered(recorded(ps), finished),
        packets_of(ps, mid).len() > 0,
        mid != EVS_EVENT_MID || events_ahead(ps) == 0,
    ensures
        0 <= k < packets_of(ps, mid).len(),
        stream(finished, mid).len() > 0,
        stream(finished, mid)[0] == stream(recorded(ps), mid)[k],
        TranscriptView::empty().record_all(ps).earliest.contains_key(mid),
        TranscriptView::empty().record_all(ps).earliest[mid].1 == packets_of(ps, mid)[k].time(),
{
    let x = stream(recorded(ps), mid);
    let y = stream(finished, mid);
    let k = lemma_earliest(ps, mid);
    lemma_entries_follow_packets(ps, mid);
    lemma_recorded_ticks(ps, mid);
    let time = x[k].rel_time;
    assert forall|j: int| 0 <= j < x.len() implies (#[trigger] x[j]).rel_time is Some
        && x[j].msg_id == mid by {
        assert(x[j].rel_time == recorded_tick(ps, mid, j));
    }
    // The leading entry is the first of its slot as recorded ...
    assert forall|j: int| 0 <= j < k implies !in_slot(time, mid)(#[trigger] x[j]) by {
        assert(earlier(x[k].rel_time, x[j].rel_time));
    }
    lemma_first_of_slot(x, time, mid, k);
    lemma_slot_of_stream(recorded(ps), mid, time, mid);
    lemma_slot_of_stream(finished, mid, time, mid);
    assert(slot(recorded(ps), time, mid) == slot(finished, time, mid));
    let first = slot(y, time, mid)[0];
    // ... so it is in the finished stream, and what comes first there is not later.
    reveal(Seq::filter);
    y.lemma_filter_contains_rev(in_slot(time, mid), first);
    let at = choose|i: int| 0 <= i < y.len() && y[i] == first;
    lemma_filtered_in_order(finished, of_mid(mid));
    let f = y[0];
    finished.lemma_filter_contains_rev(of_mid(mid), f);
    assert(f.msg_id == mid);
    assert(slot(recorded(ps), f.rel_time, mid) == slot(finished, f.rel_time, mid));
    lemma_slot_of_stream(recorded(ps), mid, f.rel_time, mid);
    lemma_slot_of_stream(finished, mid, f.rel_time, mid);
    lemma_first_of_slot(y, f.rel_time, mid, 0);
    x.lemma_filter_contains_rev(in_slot(f.rel_time, mid), f);
    let from = choose|i: int| 0 <= i < x.len() && x[i] == f;
    assert(!earlier(x[from].rel_time, x[k].rel_time));
    assert(f.rel_time == time) by {
        if at > 0 {
            assert(!before(y[at], y[0]));
        }
    }
    k
}

/// Where event packets came ahead of the anchor, the first stamp of the events is the
/// time on the first of them, finished or not: it was sent before all that have a
/// tick, though a finished run lists it behind them.
pub proof fn an_event_ahead_of_the_anchor_was_first(ps: Seq<PacketView>)
    requires
        events_ahead(ps) > 0,
    ensures
        ({
            let t = TranscriptView::empty().record_all(ps);
            &&& packets_of(ps, EVS_EVENT_MID).len() > 0
            &&& t.earliest.contains_key(EVS_EVENT_MID)
            &&& t.earliest[EVS_EVENT_MID].1 == packets_of(ps, EVS_EVENT_MID)[0].time()
        }),
{
    lemma_ahead(ps);
    let x = stream(recorded(ps), EVS_EVENT_MID);
    let k = lemma_earliest(ps, EVS_EVENT_MID);
    lemma_recorded_ticks(ps, EVS_EVENT_MID);
    assert(x[0].rel_time == recorded_tick(ps, EVS_EVENT_MID, 0));
    assert(!earlier(x[0].rel_time, x[k].rel_time));
    if k > 0 {
        assert(earlier(x[k].rel_time, x[0].rel_time));
    }
}

/// Do one message's sequence counters go up by one from packet to packet?
pub open spec fn consecutive(q: Seq<PacketView>) -> bool {
    forall|i: int|
        0 < i < q.len() ==> seq_step(q[i - 1].seq, (#[trigger] q[i]).seq) == 1
}

/// Two steps of one are a step of two.
pub(crate) proof fn lemma_two_steps(a: u16, b: u16, c: u16)
    requires
        seq_step(a, b) == 1,
        seq_step(b, c) == 1,
    ensures
        seq_step(a, c) == 2,
{
    let m = SEQ_MODULUS as int;
    assert((b - a) % m == 1);
    assert((c - b) % m == 1);
    assert((c - a) % m == 2);
}

/// A genuinely dropped packet still fails. Where a message's counters were
/// consecutive and one run lost a packet that was neither its first nor its last,
/// the runs do not tell of the same stream.
pub proof fn a_dropped_packet_is_caught(
    ps: Seq<PacketView>,
    dropped: Seq<PacketView>,
    mid: MsgId,
    k: int,
)
    requires
        consecutive(packets_of(ps, mid)),
        0 < k < packets_of(ps, mid).len() - 1,
        packets_of(dropped, mid) == packets_of(ps, mid).remove(k),
    ensures
        !same_stream(recorded(ps), recorded(dropped)),
{
    let q = packets_of(ps, mid);
    let r = packets_of(dropped, mid);
    entries_follow_packets(ps, mid);
    entries_follow_packets(dropped, mid);
    let x = stream(recorded(ps), mid);
    let y = stream(recorded(dropped), mid);
    assert(q[k - 1] == r[k - 1] && q[k + 1] == r[k]);
    assert(seq_step(q[k - 1].seq, q[k].seq) == 1);
    assert(seq_step(q[k].seq, q[k + 1].seq) == 1);
    lemma_two_steps(q[k - 1].seq, q[k].seq, q[k + 1].seq);
    assert(x[k].seq_delta == Some(1u16));
    assert(y[k].seq_delta == Some(2u16));
    assert(x[k].stream_key() != y[k].stream_key());
    assert(!agree(x, y));
}

/// A duplicated packet still fails, unless it is the last of its message.
pub proof fn a_duplicated_packet_is_caught(
    ps: Seq<PacketView>,
    doubled: Seq<PacketView>,
    mid: MsgId,
    k: int,
)
    requires
        consecutive(packets_of(ps, mid)),
        0 <= k < packets_of(ps, mid).len() - 1,
        packets_of(doubled, mid) == packets_of(ps, mid).insert(k, packets_of(ps, mid)[k]),
    ensures
        !same_stream(recorded(ps), recorded(doubled)),
{
    let q = packets_of(ps, mid);
    let r = packets_of(doubled, mid);
    entries_follow_packets(ps, mid);
    entries_follow_packets(doubled, mid);
    let x = stream(recorded(ps), mid);
    let y = stream(recorded(doubled), mid);
    assert(r[k] == q[k] && r[k + 1] == q[k]);
    assert(seq_step(q[k].seq, q[k + 1].seq) == 1);
    assert(seq_step(r[k].seq, r[k + 1].seq) == 0);
    assert(x[k + 1].stream_key() != y[k + 1].stream_key());
    assert(!agree(x, y));
}

/// Sorting a finished run does not decide the comparison. Where each message was
/// recorded in the order that finishing gives it, two finished runs tell of the same
/// stream exactly if they did as recorded. (Events ahead of the anchor, with others
/// behind it, are not in that order: they have no tick, and are listed last.)
pub proof fn finishing_does_not_change_the_comparison(
    a: Seq<EntryView>,
    b: Seq<EntryView>,
    finished_a: Seq<EntryView>,
    finished_b: Seq<EntryView>,
)
    requires
        stably_ordered(a, finished_a),
        stably_ordered(b, finished_b),
        forall|mid: MsgId| in_order(#[trigger] stream(a, mid)),
        forall|mid: MsgId| in_order(#[trigger] stream(b, mid)),
    ensures
        same_stream(finished_a, finished_b) == same_stream(a, b),
{
    assert forall|mid: MsgId|
        #![trigger stream(finished_a, mid)]
        #![trigger stream(a, mid)]
        stream(finished_a, mid) == stream(a, mid) by {
        finishing_keeps_each_stream(a, finished_a, mid);
    }
    assert forall|mid: MsgId|
        #![trigger stream(finished_b, mid)]
        #![trigger stream(b, mid)]
        stream(finished_b, mid) == stream(b, mid) by {
        finishing_keeps_each_stream(b, finished_b, mid);
    }
    if same_stream(a, b) {
        assert forall|mid: MsgId| #[trigger]
            agree(stream(finished_a, mid), stream(finished_b, mid)) by {
            assert(agree(stream(a, mid), stream(b, mid)));
        }
    }
    if same_stream(finished_a, finished_b) {
        assert forall|mid: MsgId| #[trigger] agree(stream(a, mid), stream(b, mid)) by {
            assert(agree(stream(finished_a, mid), stream(finished_b, mid)));
        }
    }
}

/// Was the packet at `i` of message `mid` placed at the same instant in both runs?
pub open spec fn placed_alike(a: Seq<EntryView>, b: Seq<EntryView>, mid: MsgId, i: int) -> bool {
    stream(a, mid)[i].rel_time == stream(b, mid)[i].rel_time
}

proof fn lemma_shifts_empty(mid: MsgId, x: Seq<EntryView>, y: Seq<EntryView>, n: nat)
    ensures
        shifts(mid, x, y, n).len() == 0 <==> forall|i: int|
            0 <= i < n ==> (#[trigger] x[i]).rel_time == y[i].rel_time,
    decreases n,
{
    if n > 0 {
        lemma_shifts_empty(mid, x, y, (n - 1) as nat);
    }
}

proof fn lemma_below_empty(a: Seq<EntryView>, b: Seq<EntryView>, end: nat)
    requires
        end <= 0x1_0000,
    ensures
        shifts_below(a, b, end).len() == 0 <==> forall|mid: MsgId|
            mid < end ==> (#[trigger] shifts_of(a, b, mid)).len() == 0,
    decreases end,
{
    if end > 0 {
        lemma_below_empty(a, b, (end - 1) as nat);
        let last = (end - 1) as u16;
        if shifts_below(a, b, end).len() == 0 {
            assert forall|mid: MsgId| mid < end implies (#[trigger] shifts_of(a, b, mid)).len()
                == 0 by {
                if mid == last {
                } else {
                    assert(mid < end - 1);
                }
            }
        }
    }
}

/// Nothing moved exactly if each packet that both runs have was placed at the same
/// instant.
pub proof fn no_differences_means_same_placement(a: Seq<EntryView>, b: Seq<EntryView>)
    ensures
        differences(a, b).len() == 0 <==> forall|mid: MsgId, i: int|
            0 <= i < common(stream(a, mid), stream(b, mid)) ==> #[trigger] placed_alike(
                a,
                b,
                mid,
                i,
            ),
{
    lemma_below_empty(a, b, 0x1_0000);
    if differences(a, b).len() == 0 {
        assert forall|mid: MsgId, i: int|
            0 <= i < common(stream(a, mid), stream(b, mid)) implies #[trigger] placed_alike(
            a,
            b,
            mid,
            i,
        ) by {
            let x = stream(a, mid);
            let y = stream(b, mid);
            assert(shifts_of(a, b, mid).len() == 0);
            lemma_shifts_empty(mid, x, y, common(x, y));
            assert(x[i].rel_time == y[i].rel_time);
        }
    }
    if forall|mid: MsgId, i: int|
        0 <= i < common(stream(a, mid), stream(b, mid)) ==> #[trigger] placed_alike(a, b, mid, i) {
        assert forall|mid: MsgId| mid < 0x1_0000 implies (#[trigger] shifts_of(a, b, mid)).len()
            == 0 by {
            let x = stream(a, mid);
            let y = stream(b, mid);
            assert forall|i: int| 0 <= i < common(x, y) implies (#[trigger] x[i]).rel_time
                == y[i].rel_time by {
                assert(placed_alike(a, b, mid, i));
            }
            lemma_shifts_empty(mid, x, y, common(x, y));
        }
    }
}

/// A run did not move against itself.
pub proof fn a_run_does_not_move_against_itself(a: Seq<EntryView>)
    ensures
        differences(a, a).len() == 0,
        max_shift(differences(a, a)) == 0,
{
    assert forall|mid: MsgId, i: int|
        0 <= i < common(stream(a, mid), stream(a, mid)) implies #[trigger] placed_alike(
        a,
        a,
        mid,
        i,
    ) by {}
    no_differences_means_same_placement(a, a);
}

proof fn lemma_shifts_mid(mid: MsgId, x: Seq<EntryView>, y: Seq<EntryView>, n: nat)
    ensures
        forall|k: int|
            0 <= k < shifts(mid, x, y, n).len() ==> (#[trigger] shifts(mid, x, y, n)[k]).0 == mid,
    decreases n,
{
    if n > 0 {
        lemma_shifts_mid(mid, x, y, (n - 1) as nat);
        let front = shifts(mid, x, y, (n - 1) as nat);
        let all = shifts(mid, x, y, n);
        assert forall|k: int| 0 <= k < all.len() implies (#[trigger] all[k]).0 == mid by {
            if k < front.len() {
                assert(all[k] == front[k]);
            }
        }
    }
}

proof fn lemma_filter_whole(s: Seq<Shift>, p: spec_fn(Shift) -> bool)
    requires
        forall|k: int| 0 <= k < s.len() ==> p(#[trigger] s[k]),
    ensures
        s.filter(p) == s,
    decreases s.len(),
{
    reveal(Seq::filter);
    if s.len() > 0 {
        lemma_filter_whole(s.drop_last(), p);
        assert(s.drop_last().push(s.last()) =~= s);
    } else {
        assert(s.filter(p) =~= s);
    }
}

pub open spec fn shift_of_mid(mid: MsgId) -> spec_fn(Shift) -> bool {
    |d: Shift| d.0 == mid
}

/// The differences of one message.
pub open spec fn differences_of(s: Seq<Shift>, mid: MsgId) -> Seq<Shift> {
    s.filter(shift_of_mid(mid))
}

proof fn lemma_below_of(a: Seq<EntryView>, b: Seq<EntryView>, end: nat, mid: MsgId)
    requires
        end <= 0x1_0000,
    ensures
        differences_of(shifts_below(a, b, end), mid) == if mid < end {
            shifts_of(a, b, mid)
        } else {
            Seq::empty()
        },
    decreases end,
{
    let p = shift_of_mid(mid);
    if end == 0 {
        reveal(Seq::filter);
        assert(differences_of(shifts_below(a, b, end), mid) =~= Seq::<Shift>::empty());
    } else {
        let front = shifts_below(a, b, (end - 1) as nat);
        let last = (end - 1) as u16;
        let more = shifts_of(a, b, last);
        lemma_below_of(a, b, (end - 1) as nat, mid);
        lemma_shifts_mid(
            last,
            stream(a, last),
            stream(b, last),
            common(stream(a, last), stream(b, last)),
        );
        Seq::filter_distributes_over_add(front, more, p);
        if last == mid {
            lemma_filter_whole(more, p);
            assert(Seq::<Shift>::empty() + more =~= more);
        } else {
            more.lemma_all_neg_filter_empty(p);
            assert(front.filter(p) + Seq::<Shift>::empty() =~= front.filter(p));
        }
    }
}

/// A packet that slips is seen on its own, without cascading: what is reported of a
/// message depends on that message's packets alone.
pub proof fn a_slip_does_not_cascade(a: Seq<EntryView>, b: Seq<EntryView>, mid: MsgId)
    ensures
        differences_of(differences(a, b), mid) == shifts_of(a, b, mid),
{
    lemma_below_of(a, b, 0x1_0000, mid);
}

/// The largest shift bounds every shift, and is one of them unless there is none.
pub proof fn max_shift_is_the_largest(s: Seq<Shift>)
    ensures
        forall|i: int| 0 <= i < s.len() ==> shift_size(#[trigger] s[i]) <= max_shift(s),
        s.len() > 0 ==> exists|i: int|
            0 <= i < s.len() && shift_size(#[trigger] s[i]) == max_shift(s),
    decreases s.len(),
{
    if s.len() > 0 {
        let front = s.drop_last();
        max_shift_is_the_largest(front);
        assert forall|i: int| 0 <= i < s.len() implies shift_size(#[trigger] s[i]) <= max_shift(
            s,
        ) by {
            if i < front.len() {
                assert(s[i] == front[i]);
            }
        }
        if max_shift(s) == shift_size(s.last()) {
            assert(shift_size(s[s.len() - 1]) == max_shift(s));
        } else {
            let i = choose|i: int|
                0 <= i < front.len() && shift_size(#[trigger] front[i]) == max_shift(front);
            assert(s[i] == front[i]);
        }
    }
}

proof fn lemma_nothing_differs(x: Seq<EntryView>, y: Seq<EntryView>, n: nat)
    ensures
        differing(x, y, n) == 0 <==> forall|i: int|
            0 <= i < n ==> (#[trigger] x[i]).payload == y[i].payload,
    decreases n,
{
    if n > 0 {
        lemma_nothing_differs(x, y, (n - 1) as nat);
    }
}

/// The report on contents is empty when contents match: exactly if each packet that
/// both runs have carries the same bytes in both.
pub proof fn no_payload_differences_means_same_contents(
    a: Seq<EntryView>,
    b: Seq<EntryView>,
    r: Seq<PayloadDiff>,
)
    requires
        payload_differences(a, b, r),
    ensures
        r.len() == 0 <==> forall|mid: MsgId| !#[trigger] contents_differ(a, b, mid),
        forall|mid: MsgId| #[trigger]
            contents_differ(a, b, mid) <==> exists|i: int|
                0 <= i < common(stream(a, mid), stream(b, mid)) && #[trigger] stream(
                    a,
                    mid,
                )[i].payload != stream(b, mid)[i].payload,
{
    if r.len() > 0 {
        assert(contents_differ(a, b, r[0].0));
    }
    assert forall|mid: MsgId| #[trigger]
        contents_differ(a, b, mid) <==> exists|i: int|
            0 <= i < common(stream(a, mid), stream(b, mid)) && #[trigger] stream(
                a,
                mid,
            )[i].payload != stream(b, mid)[i].payload by {
        let x = stream(a, mid);
        let y = stream(b, mid);
        lemma_nothing_differs(x, y, common(x, y));
    }
}

} // verus!
