//! What holds of transcripts as a whole: what they forget, what they keep, and
//! what a comparison forgives.

use vstd::prelude::*;
use crate::ccsds::{MsgId, PacketView, SEQ_MODULUS};
use crate::clock::TICK_USEC;
use crate::order::{before, in_order, in_slot, same_slots, slot, stably_ordered};
use crate::streams::{of_mid, stream};
use crate::transcript::{rendered, seq_step, snap, EntryView, TranscriptView};

verus! {

/// Snapping drops rounding noise, not signal: a difference of timestamps that is
/// less than half a tick away from `n` ticks snaps to `n`.
pub proof fn snapping_recovers_the_tick(delta: int, n: int)
    requires
        -0x1_0000 * TICK_USEC < 2 * (delta * 1_000_000 - n * 0x1_0000 * TICK_USEC) < 0x1_0000
            * TICK_USEC,
    ensures
        snap(delta) == n,
{
    let num = delta * 1_000_000;
    assert(0x1_0000 * TICK_USEC as int == 655_360_000);
    assert(n * 0x1_0000 * TICK_USEC == n * 655_360_000) by (nonlinear_arith)
        requires
            TICK_USEC == 10_000,
    ;
    assert(num >= 0 ==> (2 * num + 655_360_000) / 1_310_720_000 == n);
    assert(num < 0 ==> (2 * -num + 655_360_000) / 1_310_720_000 == -n);
}

/// Are `q` and `p` the same packet but for the time, which is `shift` units of
/// 1/65536 s later?
pub open spec fn later_by(p: PacketView, q: PacketView, shift: int) -> bool {
    &&& q.msg_id == p.msg_id
    &&& q.seq == p.seq
    &&& q.len == p.len
    &&& q.payload == p.payload
    &&& q.time() == p.time() + shift
}

/// The absolute epoch does not matter: a run whose every timestamp is shifted by
/// the same amount leaves the same record, and renders identically.
pub proof fn epoch_shift_does_not_change_the_record(
    ps: Seq<PacketView>,
    qs: Seq<PacketView>,
    shift: int,
)
    requires
        ps.len() == qs.len(),
        forall|i: int| 0 <= i < ps.len() ==> later_by(#[trigger] ps[i], qs[i], shift),
    ensures
        TranscriptView::empty().record_all(ps).entries == TranscriptView::empty().record_all(
            qs,
        ).entries,
        rendered(TranscriptView::empty().record_all(ps).entries) == rendered(
            TranscriptView::empty().record_all(qs).entries,
        ),
{
    lemma_epoch_shift(ps, qs, shift);
}

proof fn lemma_epoch_shift(ps: Seq<PacketView>, qs: Seq<PacketView>, shift: int)
    requires
        ps.len() == qs.len(),
        forall|i: int| 0 <= i < ps.len() ==> later_by(#[trigger] ps[i], qs[i], shift),
    ensures
        ({
            let a = TranscriptView::empty().record_all(ps);
            let b = TranscriptView::empty().record_all(qs);
            &&& a.entries == b.entries
            &&& a.prev_seq == b.prev_seq
            &&& match (a.epoch, b.epoch) {
                (Some(x), Some(y)) => y == x + shift,
                (None, None) => true,
                _ => false,
            }
        }),
    decreases ps.len(),
{
    if ps.len() > 0 {
        assert forall|i: int| 0 <= i < ps.drop_last().len() implies later_by(
            #[trigger] ps.drop_last()[i],
            qs.drop_last()[i],
            shift,
        ) by {
            assert(later_by(ps[i], qs[i], shift));
        }
        lemma_epoch_shift(ps.drop_last(), qs.drop_last(), shift);
        assert(later_by(ps[ps.len() - 1], qs[ps.len() - 1], shift));
    }
}

/// Are `q` and `p` the same packet but for the sequence counter, which is `shift`
/// ahead in its fourteen bits?
pub open spec fn counted_from(p: PacketView, q: PacketView, shift: int) -> bool {
    &&& q.msg_id == p.msg_id
    &&& q.secs == p.secs
    &&& q.subsecs == p.subsecs
    &&& q.len == p.len
    &&& q.payload == p.payload
    &&& (q.seq - p.seq - shift) % SEQ_MODULUS as int == 0
}

/// Boot history does not matter: a run whose sequence counters start elsewhere,
/// each message by its own amount, leaves the same record.
pub proof fn boot_history_does_not_change_the_record(
    ps: Seq<PacketView>,
    qs: Seq<PacketView>,
    shift: spec_fn(MsgId) -> int,
)
    requires
        ps.len() == qs.len(),
        forall|i: int|
            0 <= i < ps.len() ==> counted_from(#[trigger] ps[i], qs[i], shift(ps[i].msg_id)),
    ensures
        TranscriptView::empty().record_all(ps).entries == TranscriptView::empty().record_all(
            qs,
        ).entries,
{
    lemma_boot_history(ps, qs, shift);
}

proof fn lemma_boot_history(
    ps: Seq<PacketView>,
    qs: Seq<PacketView>,
    shift: spec_fn(MsgId) -> int,
)
    requires
        ps.len() == qs.len(),
        forall|i: int|
            0 <= i < ps.len() ==> counted_from(#[trigger] ps[i], qs[i], shift(ps[i].msg_id)),
    ensures
        ({
            let a = TranscriptView::empty().record_all(ps);
            let b = TranscriptView::empty().record_all(qs);
            &&& a.entries == b.entries
            &&& a.epoch == b.epoch
            &&& a.prev_seq.dom() == b.prev_seq.dom()
            &&& forall|m: MsgId| #[trigger]
                a.prev_seq.contains_key(m) ==> (b.prev_seq[m] - a.prev_seq[m] - shift(m))
                    % SEQ_MODULUS as int == 0
        }),
    decreases ps.len(),
{
    if ps.len() > 0 {
        let n = ps.len() - 1;
        assert forall|i: int| 0 <= i < ps.drop_last().len() implies counted_from(
            #[trigger] ps.drop_last()[i],
            qs.drop_last()[i],
            shift(ps.drop_last()[i].msg_id),
        ) by {
            assert(counted_from(ps[i], qs[i], shift(ps[i].msg_id)));
        }
        lemma_boot_history(ps.drop_last(), qs.drop_last(), shift);
        let a = TranscriptView::empty().record_all(ps.drop_last());
        let b = TranscriptView::empty().record_all(qs.drop_last());
        let p = ps[n];
        let q = qs[n];
        let m = p.msg_id;
        assert(counted_from(p, q, shift(m)));
        assert(b.prev_seq.contains_key(m) == a.prev_seq.contains_key(m)) by {
            assert(b.prev_seq.dom().contains(m) == a.prev_seq.dom().contains(m));
        }
        if a.prev_seq.contains_key(m) {
            assert(seq_step(a.prev_seq[m], p.seq) == seq_step(b.prev_seq[m], q.seq));
        }
        assert(a.entry(p) == b.entry(q));
        assert(a.record(p).prev_seq.dom() =~= b.record(q).prev_seq.dom());
    }
}

/// There is one order: entries in order that agree slot by slot are the same
/// sequence.
pub proof fn order_is_unique(a: Seq<EntryView>, b: Seq<EntryView>)
    requires
        in_order(a),
        in_order(b),
        same_slots(a, b),
    ensures
        a == b,
    decreases a.len(),
{
    reveal(Seq::filter);
    if a.len() == 0 {
        if b.len() > 0 {
            let f = b.last();
            assert(slot(a, f.rel_time, f.msg_id) == slot(b, f.rel_time, f.msg_id));
        }
        assert(a =~= b);
    } else {
        let e = a.last();
        assert(slot(a, e.rel_time, e.msg_id) == slot(b, e.rel_time, e.msg_id));
        let se = slot(b, e.rel_time, e.msg_id);
        assert(se.last() == e);
        b.lemma_filter_contains_rev(in_slot(e.rel_time, e.msg_id), e);
        assert(b.contains(e));
        let f = b.last();
        assert(slot(a, f.rel_time, f.msg_id) == slot(b, f.rel_time, f.msg_id));
        let sf = slot(a, f.rel_time, f.msg_id);
        assert(sf.last() == f);
        a.lemma_filter_contains_rev(in_slot(f.rel_time, f.msg_id), f);
        assert(a.contains(f));
        let i = choose|i: int| 0 <= i < b.len() && b[i] == e;
        let j = choose|j: int| 0 <= j < a.len() && a[j] == f;
        assert(!before(f, e)) by {
            if i < b.len() - 1 {
                assert(!before(b[b.len() - 1], b[i]));
            }
        }
        assert(!before(e, f)) by {
            if j < a.len() - 1 {
                assert(!before(a[a.len() - 1], a[j]));
            }
        }
        assert(e.rel_time == f.rel_time && e.msg_id == f.msg_id);
        assert(e == f);
        assert forall|time: Option<i64>, mid: MsgId| #[trigger]
            slot(a.drop_last(), time, mid) == slot(b.drop_last(), time, mid) by {
            assert(slot(a, time, mid) == slot(b, time, mid));
            let x = slot(a.drop_last(), time, mid);
            let y = slot(b.drop_last(), time, mid);
            if in_slot(time, mid)(e) {
                assert(x.push(e).drop_last() =~= x);
                assert(y.push(e).drop_last() =~= y);
            }
        }
        order_is_unique(a.drop_last(), b.drop_last());
        assert(a =~= a.drop_last().push(e));
        assert(b =~= b.drop_last().push(f));
    }
}

/// Order within a tick is not asserted: two runs that recorded the same packets of
/// each message at each instant, in whatever order across messages, finish as the
/// same transcript.
pub proof fn same_tick_order_does_not_matter(
    a: Seq<EntryView>,
    b: Seq<EntryView>,
    finished_a: Seq<EntryView>,
    finished_b: Seq<EntryView>,
)
    requires
        same_slots(a, b),
        stably_ordered(a, finished_a),
        stably_ordered(b, finished_b),
    ensures
        finished_a == finished_b,
{
    assert forall|time: Option<i64>, mid: MsgId| #[trigger]
        slot(finished_a, time, mid) == slot(finished_b, time, mid) by {
        assert(slot(a, time, mid) == slot(finished_a, time, mid));
        assert(slot(b, time, mid) == slot(finished_b, time, mid));
        assert(slot(a, time, mid) == slot(b, time, mid));
    }
    order_is_unique(finished_a, finished_b);
}

/// What is left of entries in order is in order.
pub(crate) proof fn lemma_filtered_in_order(s: Seq<EntryView>, p: spec_fn(EntryView) -> bool)
    requires
        in_order(s),
    ensures
        in_order(s.filter(p)),
    decreases s.len(),
{
    reveal(Seq::filter);
    if s.len() > 0 {
        let front = s.drop_last();
        lemma_filtered_in_order(front, p);
        let f = front.filter(p);
        if p(s.last()) {
            let all = s.filter(p);
            assert forall|i: int, j: int| 0 <= i < j < all.len() implies !before(
                #[trigger] all[j],
                #[trigger] all[i],
            ) by {
                assert(all[i] == f[i]);
                if j < f.len() {
                    assert(all[j] == f[j]);
                } else {
                    assert(f.contains(f[i]));
                    front.lemma_filter_contains_rev(p, f[i]);
                    let k = choose|k: int| 0 <= k < front.len() && front[k] == f[i];
                    assert(!before(s[s.len() - 1], s[k]));
                }
            }
        }
    }
}

/// What a message has at an instant, it has in its own stream.
pub(crate) proof fn lemma_slot_of_stream(s: Seq<EntryView>, mid: MsgId, time: Option<i64>, m: MsgId)
    ensures
        m == mid ==> slot(stream(s, mid), time, m) == slot(s, time, m),
        m != mid ==> slot(stream(s, mid), time, m) == Seq::<EntryView>::empty(),
    decreases s.len(),
{
    reveal(Seq::filter);
    if s.len() == 0 {
        assert(slot(stream(s, mid), time, m) =~= Seq::<EntryView>::empty());
    } else {
        let front = s.drop_last();
        lemma_slot_of_stream(front, mid, time, m);
        if s.last().msg_id == mid {
            assert(stream(s, mid).drop_last() =~= stream(front, mid));
        }
    }
}

/// Ordering across ticks is preserved: a message whose packets were recorded in
/// the order of their ticks, those without a tick last, keeps them in that sequence.
pub proof fn finishing_keeps_each_stream(
    s: Seq<EntryView>,
    finished: Seq<EntryView>,
    mid: MsgId,
)
    requires
        stably_ordered(s, finished),
        in_order(stream(s, mid)),
    ensures
        stream(finished, mid) == stream(s, mid),
{
    lemma_filtered_in_order(finished, of_mid(mid));
    assert forall|time: Option<i64>, m: MsgId| #[trigger]
        slot(stream(finished, mid), time, m) == slot(stream(s, mid), time, m) by {
        lemma_slot_of_stream(finished, mid, time, m);
        lemma_slot_of_stream(s, mid, time, m);
        assert(slot(s, time, m) == slot(finished, time, m));
    }
    order_is_unique(stream(finished, mid), stream(s, mid));
}

/// Finishing neither loses nor invents a packet.
pub proof fn finishing_keeps_every_packet(s: Seq<EntryView>, finished: Seq<EntryView>)
    requires
        stably_ordered(s, finished),
    ensures
        s.to_multiset() == finished.to_multiset(),
    decreases s.len(),
{
    broadcast use vstd::seq_lib::group_to_multiset_ensures;

    assert forall|e: EntryView| s.to_multiset().count(e) == finished.to_multiset().count(e) by {
        assert(slot(s, e.rel_time, e.msg_id) == slot(finished, e.rel_time, e.msg_id));
        lemma_slot_count(s, e);
        lemma_slot_count(finished, e);
    }
    assert(s.to_multiset() =~= finished.to_multiset());
}

proof fn lemma_slot_count(s: Seq<EntryView>, e: EntryView)
    ensures
        s.to_multiset().count(e) == slot(s, e.rel_time, e.msg_id).to_multiset().count(e),
    decreases s.len(),
{
    broadcast use vstd::seq_lib::group_to_multiset_ensures;

    reveal(Seq::filter);
    if s.len() == 0 {
        assert(slot(s, e.rel_time, e.msg_id) =~= s);
    } else {
        let front = s.drop_last();
        lemma_slot_count(front, e);
        assert(s =~= front.push(s.last()));
    }
}

} // verus!
