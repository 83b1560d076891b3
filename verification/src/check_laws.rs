//! What holds of the verdict on two runs, from their packets on.

use vstd::prelude::*;
use crate::ccsds::{MsgId, PacketView, SEQ_MODULUS};
use crate::check::{verdict_on, Verdict};
use crate::contents_laws::{
    blanked, contents_are_recorded_apart, contents_do_not_decide_the_check,
    contents_do_not_decide_the_order, lemma_blank_slots, same_but_for_contents,
};
use crate::order::{in_order, slot, stably_ordered};
use crate::run::{ReportView, RunView, GUARD};
use crate::run_laws::{flown, the_record_is_the_window, window_packets};
use crate::stream_laws::{
    a_run_does_not_move_against_itself, consecutive, entries_follow_packets, lemma_two_steps,
    order_within_a_tick_is_not_recorded, packets_of, recorded, reordered_within_ticks,
    same_stream_is_reflexive,
};
use crate::streams::{agree, differences, of_mid, same_stream, stream};
use crate::transcript::{seq_step, EntryView};
use crate::transcript_laws::{
    boot_history_does_not_change_the_record, counted_from, epoch_shift_does_not_change_the_record,
    finishing_keeps_each_stream, finishing_keeps_every_packet, later_by, lemma_filtered_in_order,
    lemma_slot_of_stream, same_tick_order_does_not_matter,
};

verus! {

/// A run that recorded anything passes against itself, whatever the host did.
pub proof fn a_run_passes_against_itself(a: Seq<EntryView>, stalls: int, coop: bool)
    requires
        a.len() > 0,
    ensures
        verdict_on(a, a, stalls, coop) == Verdict::Reproducible,
{
    same_stream_is_reflexive(a);
    a_run_does_not_move_against_itself(a);
}

/// An empty sky never passes, though two empty transcripts tell of the same stream.
pub proof fn an_empty_sky_never_passes(
    a: Seq<EntryView>,
    b: Seq<EntryView>,
    stalls: int,
    coop: bool,
)
    requires
        a.len() == 0 || b.len() == 0,
    ensures
        !verdict_on(a, b, stalls, coop).is_pass(),
        a.len() == 0 && b.len() == 0 ==> same_stream(a, b) && differences(a, b).len() == 0,
{
    if a.len() == 0 && b.len() == 0 {
        assert(a =~= b);
        same_stream_is_reflexive(a);
        a_run_does_not_move_against_itself(a);
    }
}

/// What passing asserts: both runs recorded something, they tell of the same stream,
/// and under cooperative scheduling each packet landed on the same tick.
pub proof fn passing_means_reproducible(
    a: Seq<EntryView>,
    b: Seq<EntryView>,
    stalls: int,
    coop: bool,
)
    ensures
        verdict_on(a, b, stalls, coop).is_pass() <==> {
            &&& a.len() > 0
            &&& b.len() > 0
            &&& same_stream(a, b)
            &&& coop ==> differences(a, b).len() == 0
        },
{
}

/// A stall never turns a failure into a pass or a pass into a failure; it only says
/// whether moved placement speaks of the flight software.
pub proof fn a_stall_does_not_decide(
    a: Seq<EntryView>,
    b: Seq<EntryView>,
    stalls: int,
    coop: bool,
)
    ensures
        verdict_on(a, b, stalls, coop).is_pass() == verdict_on(a, b, 0, coop).is_pass(),
        verdict_on(a, b, stalls, coop) is PlacementMoved ==> stalls <= 0,
{
}

/// Is `q` the packet `p` of another run of the scenario: the same but for when its
/// clock started, `epoch` units of 1/65536 s later, where its message's counter did,
/// and what it carries?
pub open spec fn same_but_for_boot(
    p: PacketView,
    q: PacketView,
    epoch: int,
    counters: spec_fn(MsgId) -> int,
) -> bool {
    &&& q.msg_id == p.msg_id
    &&& q.len == p.len
    &&& q.time() == p.time() + epoch
    &&& (q.seq - p.seq - counters(p.msg_id)) % SEQ_MODULUS as int == 0
}

/// An identical scenario run twice passes. Where the flight software sent the same
/// packets over the recorded window of two runs, whatever they carried, whatever the
/// epoch its clock had settled on, whatever it had sent before, and in whatever order
/// those of one instant `arrived`, the check finds the runs reproducible, whatever the
/// host did.
pub proof fn an_identical_scenario_passes(
    ticks: u32,
    reports_a: Seq<ReportView>,
    reports_b: Seq<ReportView>,
    arrived: Seq<PacketView>,
    finished_a: Seq<EntryView>,
    finished_b: Seq<EntryView>,
    epoch: int,
    counters: spec_fn(MsgId) -> int,
    stalls: int,
    coop: bool,
)
    requires
        ticks > GUARD,
        flown(RunView::start(ticks), reports_a) is Ok,
        flown(RunView::start(ticks), reports_b) is Ok,
        stably_ordered(flown(RunView::start(ticks), reports_a)->Ok_0.record.entries, finished_a),
        stably_ordered(flown(RunView::start(ticks), reports_b)->Ok_0.record.entries, finished_b),
        finished_a.len() > 0,
        reordered_within_ticks(window_packets(RunView::start(ticks), reports_a), arrived),
        arrived.len() == window_packets(RunView::start(ticks), reports_b).len(),
        forall|i: int|
            0 <= i < arrived.len() ==> same_but_for_boot(
                #[trigger] arrived[i],
                window_packets(RunView::start(ticks), reports_b)[i],
                epoch,
                counters,
            ),
    ensures
        verdict_on(finished_a, finished_b, stalls, coop) == Verdict::Reproducible,
{
    let start = RunView::start(ticks);
    let ps = window_packets(start, reports_a);
    let qs = window_packets(start, reports_b);
    the_record_is_the_window(ticks, reports_a);
    the_record_is_the_window(ticks, reports_b);
    // The second run's packets with the first run's contents, and then with its counters.
    let us = Seq::new(
        arrived.len(),
        |i: int| PacketView { payload: arrived[i].payload, ..qs[i] },
    );
    let ms = Seq::new(arrived.len(), |i: int| PacketView { seq: arrived[i].seq, ..us[i] });
    assert forall|i: int| 0 <= i < arrived.len() implies later_by(
        #[trigger] arrived[i],
        ms[i],
        epoch,
    ) by {
        assert(same_but_for_boot(arrived[i], qs[i], epoch, counters));
    }
    assert forall|i: int| 0 <= i < ms.len() implies counted_from(
        #[trigger] ms[i],
        us[i],
        counters(ms[i].msg_id),
    ) by {
        assert(same_but_for_boot(arrived[i], qs[i], epoch, counters));
    }
    assert forall|i: int| 0 <= i < us.len() implies same_but_for_contents(
        #[trigger] us[i],
        qs[i],
    ) by {}
    epoch_shift_does_not_change_the_record(arrived, ms, epoch);
    boot_history_does_not_change_the_record(ms, us, counters);
    contents_are_recorded_apart(us, qs);
    order_within_a_tick_is_not_recorded(ps, arrived);
    lemma_blank_slots(recorded(ps), recorded(arrived));
    contents_do_not_decide_the_order(recorded(ps), finished_a);
    contents_do_not_decide_the_order(recorded(qs), finished_b);
    same_tick_order_does_not_matter(
        blanked(recorded(ps)),
        blanked(recorded(arrived)),
        blanked(finished_a),
        blanked(finished_b),
    );
    contents_do_not_decide_the_check(
        finished_a,
        finished_b,
        finished_a,
        finished_a,
        stalls,
        coop,
    );
    a_run_passes_against_itself(finished_a, stalls, coop);
}

/// Finishing only permutes a message's entries.
pub proof fn finishing_permutes_each_stream(
    s: Seq<EntryView>,
    finished: Seq<EntryView>,
    mid: MsgId,
)
    requires
        stably_ordered(s, finished),
    ensures
        stream(finished, mid).len() == stream(s, mid).len(),
        stream(finished, mid).to_multiset() == stream(s, mid).to_multiset(),
        forall|e: EntryView| #[trigger]
            stream(finished, mid).contains(e) <==> stream(s, mid).contains(e),
{
    broadcast use vstd::seq_lib::group_to_multiset_ensures;

    let x = stream(s, mid);
    let y = stream(finished, mid);
    lemma_filtered_in_order(finished, of_mid(mid));
    assert forall|time: Option<i64>, m: MsgId| #[trigger] slot(x, time, m) == slot(y, time, m) by {
        lemma_slot_of_stream(s, mid, time, m);
        lemma_slot_of_stream(finished, mid, time, m);
        assert(slot(s, time, m) == slot(finished, time, m));
    }
    finishing_keeps_every_packet(x, y);
    assert(x.to_multiset().len() == x.len());
    assert(y.to_multiset().len() == y.len());
    assert forall|e: EntryView| #[trigger] y.contains(e) <==> x.contains(e) by {
        assert(x.contains(e) <==> x.to_multiset().count(e) > 0);
        assert(y.contains(e) <==> y.to_multiset().count(e) > 0);
    }
}

/// Is there a gap in one message's sequence counters in front of the packet at `k`:
/// a step other than one?
pub open spec fn gap_at(r: Seq<PacketView>, k: int) -> bool {
    0 < k < r.len() && seq_step(r[k - 1].seq, r[k].seq) != 1
}

/// A gap in the sequence counters fails the check. Where one run's counters of a
/// message were consecutive and the other's have a gap, the check does not pass. The
/// one exception is the forgiven boundary: a run that recorded one packet more, and
/// whose gap is at the end of the message once finished.
pub proof fn a_gap_fails_the_check(
    ps: Seq<PacketView>,
    gapped: Seq<PacketView>,
    mid: MsgId,
    k: int,
    finished_a: Seq<EntryView>,
    finished_b: Seq<EntryView>,
    stalls: int,
    coop: bool,
)
    requires
        consecutive(packets_of(ps, mid)),
        gap_at(packets_of(gapped, mid), k),
        stably_ordered(recorded(ps), finished_a),
        stably_ordered(recorded(gapped), finished_b),
        packets_of(gapped, mid).len() == packets_of(ps, mid).len() + 1 ==> stream(
            finished_b,
            mid,
        ).last() != stream(recorded(gapped), mid)[k],
    ensures
        !verdict_on(finished_a, finished_b, stalls, coop).is_pass(),
{
    let q = packets_of(ps, mid);
    let r = packets_of(gapped, mid);
    entries_follow_packets(ps, mid);
    entries_follow_packets(gapped, mid);
    finishing_permutes_each_stream(recorded(ps), finished_a, mid);
    finishing_permutes_each_stream(recorded(gapped), finished_b, mid);
    let x = stream(recorded(ps), mid);
    let fx = stream(finished_a, mid);
    let fy = stream(finished_b, mid);
    let odd = stream(recorded(gapped), mid)[k];
    assert(odd.seq_delta == Some(seq_step(r[k - 1].seq, r[k].seq)));
    assert(stream(recorded(gapped), mid).contains(odd));
    assert(fy.contains(odd));
    let i = choose|i: int| 0 <= i < fy.len() && fy[i] == odd;
    if i < fx.len() {
        let e = fx[i];
        assert(fx.contains(e));
        assert(x.contains(e));
        let j = choose|j: int| 0 <= j < x.len() && x[j] == e;
        assert(j > 0 ==> seq_step(q[j - 1].seq, q[j].seq) == 1);
        assert(e.seq_delta != odd.seq_delta);
        assert(fx[i].stream_key() != fy[i].stream_key());
    }
    assert(!agree(fx, fy));
}

/// A dropped packet fails the check. Where a message's counters were consecutive and
/// the second run lost one of its packets, neither the first nor the last, the check
/// does not pass. A first or last packet that is lost is the run's boundary.
pub proof fn a_dropped_packet_fails_the_check(
    ps: Seq<PacketView>,
    dropped: Seq<PacketView>,
    mid: MsgId,
    k: int,
    finished_a: Seq<EntryView>,
    finished_b: Seq<EntryView>,
    stalls: int,
    coop: bool,
)
    requires
        consecutive(packets_of(ps, mid)),
        0 < k < packets_of(ps, mid).len() - 1,
        packets_of(dropped, mid) == packets_of(ps, mid).remove(k),
        stably_ordered(recorded(ps), finished_a),
        stably_ordered(recorded(dropped), finished_b),
    ensures
        !verdict_on(finished_a, finished_b, stalls, coop).is_pass(),
{
    let q = packets_of(ps, mid);
    let r = packets_of(dropped, mid);
    assert(q[k - 1] == r[k - 1] && q[k + 1] == r[k]);
    assert(seq_step(q[k - 1].seq, q[k].seq) == 1);
    assert(seq_step(q[k].seq, q[k + 1].seq) == 1);
    lemma_two_steps(q[k - 1].seq, q[k].seq, q[k + 1].seq);
    a_gap_fails_the_check(ps, dropped, mid, k, finished_a, finished_b, stalls, coop);
}

/// A duplicated packet fails the check, unless the doubled entry is the last of its
/// message once finished: that is the one trailing packet which is forgiven.
pub proof fn a_duplicated_packet_fails_the_check(
    ps: Seq<PacketView>,
    doubled: Seq<PacketView>,
    mid: MsgId,
    k: int,
    finished_a: Seq<EntryView>,
    finished_b: Seq<EntryView>,
    stalls: int,
    coop: bool,
)
    requires
        consecutive(packets_of(ps, mid)),
        0 <= k < packets_of(ps, mid).len(),
        packets_of(doubled, mid) == packets_of(ps, mid).insert(k, packets_of(ps, mid)[k]),
        stably_ordered(recorded(ps), finished_a),
        stably_ordered(recorded(doubled), finished_b),
        stream(finished_b, mid).last() != stream(recorded(doubled), mid)[k + 1],
    ensures
        !verdict_on(finished_a, finished_b, stalls, coop).is_pass(),
{
    let q = packets_of(ps, mid);
    let r = packets_of(doubled, mid);
    assert(r[k] == q[k] && r[k + 1] == q[k]);
    assert(seq_step(r[k].seq, r[k + 1].seq) == 0);
    a_gap_fails_the_check(ps, doubled, mid, k + 1, finished_a, finished_b, stalls, coop);
}

/// A duplicate of a packet that is not the last of its message fails the check, where
/// the run that has it recorded the message in the order of its ticks.
pub proof fn a_duplicate_in_order_fails_the_check(
    ps: Seq<PacketView>,
    doubled: Seq<PacketView>,
    mid: MsgId,
    k: int,
    finished_a: Seq<EntryView>,
    finished_b: Seq<EntryView>,
    stalls: int,
    coop: bool,
)
    requires
        consecutive(packets_of(ps, mid)),
        0 <= k < packets_of(ps, mid).len() - 1,
        packets_of(doubled, mid) == packets_of(ps, mid).insert(k, packets_of(ps, mid)[k]),
        stably_ordered(recorded(ps), finished_a),
        stably_ordered(recorded(doubled), finished_b),
        in_order(stream(recorded(doubled), mid)),
    ensures
        !verdict_on(finished_a, finished_b, stalls, coop).is_pass(),
{
    let q = packets_of(ps, mid);
    let r = packets_of(doubled, mid);
    let n = q.len() as int;
    entries_follow_packets(doubled, mid);
    finishing_keeps_each_stream(recorded(doubled), finished_b, mid);
    assert(r[k] == q[k] && r[k + 1] == q[k]);
    assert(r[n - 1] == q[n - 2] && r[n] == q[n - 1]);
    assert(seq_step(q[n - 2].seq, q[n - 1].seq) == 1);
    assert(seq_step(r[k].seq, r[k + 1].seq) == 0);
    let y = stream(recorded(doubled), mid);
    assert(y[k + 1].seq_delta == Some(0u16));
    assert(y[n].seq_delta == Some(1u16));
    a_duplicated_packet_fails_the_check(
        ps,
        doubled,
        mid,
        k,
        finished_a,
        finished_b,
        stalls,
        coop,
    );
}

} // verus!
