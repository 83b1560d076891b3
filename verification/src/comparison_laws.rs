//! What holds of comparing two runs: which differences count, and that each of them is
//! found where it is.

use vstd::prelude::*;
use crate::ccsds::MsgId;
use crate::check::{shift_sizes, verdict_on, Verdict};
use crate::order::before;
use crate::record_laws::a_stream_is_taken_piece_by_piece;
use crate::streams::{
    agree, bytes_differ, common, contents_differ, differences, differing, listed, max_shift, of_mid,
    payload_differences, payload_report, same_stream, shift_size, shifts, shifts_below, shifts_of,
    stream, unstable, PayloadDiff, Shift,
};
use crate::transcript::{earlier, EntryView};

verus! {

/// A stream holds packets of its own message only.
pub proof fn a_stream_holds_its_message_only(s: Seq<EntryView>, mid: MsgId, i: int)
    requires
        0 <= i < stream(s, mid).len(),
    ensures
        stream(s, mid)[i].msg_id == mid,
        s.contains(stream(s, mid)[i]),
{
    assert(stream(s, mid).contains(stream(s, mid)[i]));
    s.lemma_filter_contains_rev(of_mid(mid), stream(s, mid)[i]);
}

/// A packet of another length, or whose counter moved otherwise, is a divergence,
/// wherever in its stream it is and however long: the check does not pass.
pub proof fn a_packet_that_differs_is_a_divergence(
    a: Seq<EntryView>,
    b: Seq<EntryView>,
    mid: MsgId,
    i: int,
    stalls: int,
    coop: bool,
)
    requires
        0 <= i < stream(a, mid).len(),
        i < stream(b, mid).len(),
        stream(a, mid)[i].len != stream(b, mid)[i].len || stream(a, mid)[i].seq_delta != stream(
            b,
            mid,
        )[i].seq_delta,
    ensures
        !same_stream(a, b),
        !verdict_on(a, b, stalls, coop).is_pass(),
{
    assert(stream(a, mid)[i].stream_key() != stream(b, mid)[i].stream_key());
    assert(!agree(stream(a, mid), stream(b, mid)));
}

/// A stream that is more than one packet longer in one run is a divergence, wherever
/// its packets stand among the others.
pub proof fn a_stream_of_another_length_is_a_divergence(
    a: Seq<EntryView>,
    b: Seq<EntryView>,
    mid: MsgId,
)
    requires
        stream(a, mid).len() > stream(b, mid).len() + 1 || stream(b, mid).len() > stream(
            a,
            mid,
        ).len() + 1 || (stream(a, mid).len() == 0) != (stream(b, mid).len() == 0),
    ensures
        !same_stream(a, b),
{
    assert(!agree(stream(a, mid), stream(b, mid)));
}

/// Nothing else is a divergence: where each message's packets in common have the same
/// lengths and the same steps of the counter, and no stream is there in one run only or
/// longer by more than a packet, the runs tell of the same stream.
pub proof fn nothing_else_is_a_divergence(a: Seq<EntryView>, b: Seq<EntryView>)
    requires
        forall|mid: MsgId| #[trigger]
            stream(a, mid).len() <= stream(b, mid).len() + 1 && stream(b, mid).len() <= stream(
                a,
                mid,
            ).len() + 1 && ((stream(a, mid).len() == 0) == (stream(b, mid).len() == 0)),
        forall|mid: MsgId, i: int|
            0 <= i < stream(a, mid).len() && i < stream(b, mid).len() ==> (#[trigger] stream(
                a,
                mid,
            )[i]).len == stream(b, mid)[i].len && stream(a, mid)[i].seq_delta == stream(
                b,
                mid,
            )[i].seq_delta,
    ensures
        same_stream(a, b),
{
    assert forall|mid: MsgId| #[trigger] agree(stream(a, mid), stream(b, mid)) by {
        let x = stream(a, mid);
        let y = stream(b, mid);
        assert forall|i: int| 0 <= i < x.len() && i < y.len() implies (
        #[trigger] x[i]).stream_key() == y[i].stream_key() by {
            a_stream_holds_its_message_only(a, mid, i);
            a_stream_holds_its_message_only(b, mid, i);
            assert(stream(a, mid)[i].len == stream(b, mid)[i].len);
        }
    }
}

/// Two entries say the same exactly if they differ in nothing but on which side of the
/// anchor a zero was.
pub proof fn entries_say_the_same(e: EntryView, f: EntryView)
    ensures
        e.same(f) <==> f == (EntryView { early: f.early, ..e }),
{
    if e.same(f) {
        assert(f.payload == e.payload);
    }
}

/// Every two entries are in one order or the other, or they are of one message at one
/// instant; and what comes before what comes before comes before.
pub proof fn entries_have_one_order(a: EntryView, b: EntryView, c: EntryView)
    ensures
        !(before(a, b) && before(b, a)),
        !before(a, b) && !before(b, a) <==> a.rel_time == b.rel_time && a.msg_id == b.msg_id,
        before(a, b) && before(b, c) ==> before(a, c),
        a.rel_time matches Some(x) && b.rel_time matches Some(y) && x < y ==> before(a, b),
        a.rel_time is Some && b.rel_time is None ==> before(a, b),
        a.rel_time == b.rel_time && a.msg_id < b.msg_id ==> before(a, b),
{
}

/// Of two packets of one message, one came earlier, or they came at one instant. One
/// without a tick came before all that have one.
pub proof fn times_have_one_order(a: Option<i64>, b: Option<i64>)
    ensures
        !(earlier(a, b) && earlier(b, a)),
        !earlier(a, b) && !earlier(b, a) <==> a == b,
        a is None && b is Some ==> earlier(a, b),
        a matches Some(x) && b matches Some(y) && x < y ==> earlier(a, b),
{
}

/// Packets are compared pair by pair: the next packet of a stream is held against the
/// packet at its place in the other run. It is one shift more if they are on different
/// ticks, and none if they are not or there is no packet to hold it against.
pub proof fn packets_are_compared_pair_by_pair(
    a: Seq<EntryView>,
    b: Seq<EntryView>,
    e: EntryView,
    mid: MsgId,
)
    ensures
        ({
            let n = stream(a, mid).len();
            let m = stream(b, mid).len();
            let y = stream(b, mid)[n as int].rel_time;
            shifts_of(a.push(e), b, mid) == if e.msg_id == mid && n < m && e.rel_time != y {
                shifts_of(a, b, mid).push((mid, e.rel_time, y))
            } else {
                shifts_of(a, b, mid)
            }
        }),
        ({
            let n = stream(a, mid).len();
            let m = stream(b, mid).len();
            let x = stream(a, mid)[m as int].rel_time;
            shifts_of(a, b.push(e), mid) == if e.msg_id == mid && m < n && e.rel_time != x {
                shifts_of(a, b, mid).push((mid, x, e.rel_time))
            } else {
                shifts_of(a, b, mid)
            }
        }),
        shifts_of(Seq::<EntryView>::empty(), b, mid).len() == 0,
        shifts_of(a, Seq::<EntryView>::empty(), mid).len() == 0,
{
    let x = stream(a, mid);
    let y = stream(b, mid);
    a_stream_is_taken_piece_by_piece(a, seq![e], e, mid);
    a_stream_is_taken_piece_by_piece(b, seq![e], e, mid);
    assert(a.push(e) =~= a + seq![e]);
    assert(b.push(e) =~= b + seq![e]);
    if e.msg_id == mid {
        let longer_x = stream(a.push(e), mid);
        let longer_y = stream(b.push(e), mid);
        lemma_shifts_of_prefix(mid, x, longer_x, y, y, common(x, y));
        lemma_shifts_of_prefix(mid, x, x, y, longer_y, common(x, y));
    } else {
        assert(x + Seq::<EntryView>::empty() =~= x);
        assert(y + Seq::<EntryView>::empty() =~= y);
    }
}

proof fn lemma_shifts_of_prefix(
    mid: MsgId,
    x: Seq<EntryView>,
    longer_x: Seq<EntryView>,
    y: Seq<EntryView>,
    longer_y: Seq<EntryView>,
    n: nat,
)
    requires
        n <= x.len() <= longer_x.len(),
        n <= y.len() <= longer_y.len(),
        forall|i: int| 0 <= i < x.len() ==> #[trigger] longer_x[i] == x[i],
        forall|i: int| 0 <= i < y.len() ==> #[trigger] longer_y[i] == y[i],
    ensures
        shifts(mid, longer_x, longer_y, n) == shifts(mid, x, y, n),
    decreases n,
{
    if n > 0 {
        lemma_shifts_of_prefix(mid, x, longer_x, y, longer_y, (n - 1) as nat);
        assert(longer_x[n - 1] == x[n - 1]);
        assert(longer_y[n - 1] == y[n - 1]);
    }
}

proof fn lemma_shifts_name_their_message(mid: MsgId, x: Seq<EntryView>, y: Seq<EntryView>, n: nat)
    ensures
        forall|i: int|
            0 <= i < shifts(mid, x, y, n).len() ==> (#[trigger] shifts(mid, x, y, n)[i]).0 == mid,
    decreases n,
{
    if n > 0 {
        let m = (n - 1) as nat;
        lemma_shifts_name_their_message(mid, x, y, m);
        assert forall|i: int| 0 <= i < shifts(mid, x, y, n).len() implies (#[trigger] shifts(
            mid,
            x,
            y,
            n,
        )[i]).0 == mid by {
            if i < shifts(mid, x, y, m).len() {
                assert(shifts(mid, x, y, n)[i] == shifts(mid, x, y, m)[i]);
            }
        }
    }
}

proof fn lemma_all_filter<T>(s: Seq<T>, p: spec_fn(T) -> bool)
    requires
        forall|i: int| 0 <= i < s.len() ==> p(#[trigger] s[i]),
    ensures
        s.filter(p) == s,
    decreases s.len(),
{
    reveal(Seq::filter);
    if s.len() > 0 {
        assert(p(s[s.len() - 1]));
        assert forall|i: int| 0 <= i < s.drop_last().len() implies p(
            #[trigger] s.drop_last()[i],
        ) by {
            assert(p(s[i]));
        }
        lemma_all_filter(s.drop_last(), p);
        assert(s.drop_last().push(s.last()) =~= s);
    }
    assert(s.filter(p) =~= s);
}

proof fn lemma_shifts_below(a: Seq<EntryView>, b: Seq<EntryView>, end: nat, mid: MsgId)
    requires
        end <= 0x1_0000,
    ensures
        forall|i: int|
            0 <= i < shifts_below(a, b, end).len() ==> (#[trigger] shifts_below(
                a,
                b,
                end,
            )[i]).0 < end,
        forall|i: int, j: int|
            0 <= i < j < shifts_below(a, b, end).len() ==> (#[trigger] shifts_below(
                a,
                b,
                end,
            )[i]).0 <= (#[trigger] shifts_below(a, b, end)[j]).0,
        shifts_below(a, b, end).filter(|s: Shift| s.0 == mid) == if mid < end {
            shifts_of(a, b, mid)
        } else {
            Seq::<Shift>::empty()
        },
    decreases end,
{
    let p = |s: Shift| s.0 == mid;
    let all = shifts_below(a, b, end);
    if end == 0 {
        reveal(Seq::filter);
        assert(all.filter(p) =~= Seq::<Shift>::empty());
    } else {
        let m = (end - 1) as u16;
        let front = shifts_below(a, b, (end - 1) as nat);
        let back = shifts_of(a, b, m);
        lemma_shifts_below(a, b, (end - 1) as nat, mid);
        let x = stream(a, m);
        let y = stream(b, m);
        lemma_shifts_name_their_message(m, x, y, common(x, y));
        assert forall|i: int| 0 <= i < all.len() implies (#[trigger] all[i]).0 < end by {
            if i < front.len() {
                assert(all[i] == front[i]);
            } else {
                assert(all[i] == back[i - front.len()]);
            }
        }
        assert forall|i: int, j: int| 0 <= i < j < all.len() implies (#[trigger] all[i]).0 <= (
        #[trigger] all[j]).0 by {
            if j < front.len() {
                assert(all[i] == front[i] && all[j] == front[j]);
            } else {
                assert(all[j] == back[j - front.len()]);
                assert(all[j].0 == m);
            }
        }
        Seq::filter_distributes_over_add(front, back, p);
        if m == mid {
            lemma_all_filter(back, p);
            assert(Seq::<Shift>::empty() + back =~= back);
        } else {
            back.lemma_all_neg_filter_empty(p);
            assert(front.filter(p) + Seq::<Shift>::empty() =~= front.filter(p));
        }
    }
}

/// All that moved is listed, message by message in ascending order: what the list holds
/// of a message is what moved of it.
pub proof fn all_that_moved_is_listed(a: Seq<EntryView>, b: Seq<EntryView>, mid: MsgId)
    ensures
        differences(a, b).filter(|s: Shift| s.0 == mid) == shifts_of(a, b, mid),
        forall|i: int, j: int|
            0 <= i < j < differences(a, b).len() ==> (#[trigger] differences(a, b)[i]).0 <= (
            #[trigger] differences(a, b)[j]).0,
{
    lemma_shifts_below(a, b, 0x1_0000, mid);
}

/// A packet that is on another tick in the other run is among what moved, wherever in
/// its stream it is.
pub proof fn a_packet_that_moved_is_listed(
    a: Seq<EntryView>,
    b: Seq<EntryView>,
    mid: MsgId,
    i: int,
)
    requires
        0 <= i < stream(a, mid).len(),
        i < stream(b, mid).len(),
        stream(a, mid)[i].rel_time != stream(b, mid)[i].rel_time,
    ensures
        differences(a, b).contains(
            (mid, stream(a, mid)[i].rel_time, stream(b, mid)[i].rel_time),
        ),
        !(verdict_on(a, b, 0, true).is_pass()),
{
    let x = stream(a, mid);
    let y = stream(b, mid);
    let s = (mid, x[i].rel_time, y[i].rel_time);
    lemma_moved(mid, x, y, common(x, y), i);
    all_that_moved_is_listed(a, b, mid);
    let p = |s: Shift| s.0 == mid;
    assert(differences(a, b).filter(p).contains(s));
    differences(a, b).lemma_filter_contains_rev(p, s);
}

proof fn lemma_moved(mid: MsgId, x: Seq<EntryView>, y: Seq<EntryView>, n: nat, i: int)
    requires
        0 <= i < n,
        x[i].rel_time != y[i].rel_time,
    ensures
        shifts(mid, x, y, n).contains((mid, x[i].rel_time, y[i].rel_time)),
    decreases n,
{
    let s = (mid, x[i].rel_time, y[i].rel_time);
    let all = shifts(mid, x, y, n);
    let front = shifts(mid, x, y, (n - 1) as nat);
    if i < n - 1 {
        lemma_moved(mid, x, y, (n - 1) as nat, i);
        let k = choose|k: int| 0 <= k < front.len() && front[k] == s;
        assert(all[k] == s);
    } else {
        assert(all[all.len() - 1] == s);
    }
}

/// A shift is the way from one tick to the other, whichever is later, and none where a
/// tick is missing.
pub proof fn a_shift_is_the_way_between_ticks(mid: MsgId, x: i64, y: i64)
    ensures
        x <= y ==> x + shift_size((mid, Some(x), Some(y))) == y,
        x >= y ==> y + shift_size((mid, Some(x), Some(y))) == x,
        shift_size((mid, None, Some(y))) == 0,
        shift_size((mid, Some(x), None)) == 0,
        shift_size((mid, None, None)) == 0,
{
}

/// The largest shift is at least as large as each, and is one of them.
pub proof fn the_largest_shift_is_one_of_them(s: Seq<Shift>)
    ensures
        forall|i: int| 0 <= i < s.len() ==> shift_size(#[trigger] s[i]) <= max_shift(s),
        s.len() > 0 ==> exists|i: int|
            0 <= i < s.len() && shift_size(#[trigger] s[i]) == max_shift(s),
        s.len() == 0 ==> max_shift(s) == 0,
    decreases s.len(),
{
    if s.len() > 0 {
        let front = s.drop_last();
        the_largest_shift_is_one_of_them(front);
        assert forall|i: int| 0 <= i < s.len() implies shift_size(#[trigger] s[i])
            <= max_shift(s) by {
            if i < front.len() {
                assert(s[i] == front[i]);
            }
        }
        if max_shift(s) == shift_size(s.last()) {
            assert(shift_size(s[s.len() - 1]) == max_shift(s));
        } else {
            let i = choose|i: int|
                0 <= i < front.len() && shift_size(#[trigger] front[i]) == max_shift(front);
            assert(shift_size(s[i]) == max_shift(s));
        }
    }
}

/// Each shift is reported with its message and its size, in place.
pub proof fn each_shift_is_reported(s: Seq<Shift>, i: int)
    requires
        0 <= i < s.len(),
    ensures
        shift_sizes(s).len() == s.len(),
        shift_sizes(s)[i].0 == s[i].0,
        shift_sizes(s)[i].1 == shift_size(s[i]),
{
}

/// The places among the first `n` at which two streams carry different contents.
pub open spec fn different_places(x: Seq<EntryView>, y: Seq<EntryView>, n: nat) -> Seq<int> {
    Seq::new(n, |i: int| i).filter(|i: int| x[i].payload != y[i].payload)
}

proof fn lemma_different_places(x: Seq<EntryView>, y: Seq<EntryView>, n: nat)
    ensures
        differing(x, y, n) == different_places(x, y, n).len(),
        differing(x, y, n) > 0 <==> exists|i: int|
            0 <= i < n && (#[trigger] x[i]).payload != y[i].payload,
    decreases n,
{
    reveal(Seq::filter);
    if n > 0 {
        let m = (n - 1) as nat;
        lemma_different_places(x, y, m);
        assert(Seq::new(n, |i: int| i).drop_last() =~= Seq::new(m, |i: int| i));
        if x[n - 1].payload == y[n - 1].payload && differing(x, y, n) > 0 {
            let i = choose|i: int| 0 <= i < m && (#[trigger] x[i]).payload != y[i].payload;
            assert(x[i].payload != y[i].payload);
        }
    }
}

/// A line of the report on contents counts the packets that both runs have of a
/// message, and those of them that differ, and names each offset at which some pair has
/// different bytes, once, in ascending order.
pub proof fn a_line_tells_where_contents_differ(
    a: Seq<EntryView>,
    b: Seq<EntryView>,
    r: Seq<PayloadDiff>,
    k: int,
)
    requires
        payload_differences(a, b, r),
        0 <= k < r.len(),
    ensures
        ({
            let x = stream(a, r[k].0);
            let y = stream(b, r[k].0);
            let n = if x.len() <= y.len() { x.len() } else { y.len() };
            &&& r[k].1 == n
            &&& r[k].2 == different_places(x, y, n).len()
            &&& r[k].2 > 0
            &&& forall|o: usize|
                #![trigger r[k].3@.contains(o)]
                r[k].3@.contains(o) <==> exists|i: int|
                    0 <= i < n && o < (#[trigger] x[i]).payload.len() && o < y[i].payload.len()
                        && x[i].payload[o as int] != y[i].payload[o as int]
            &&& forall|i: int, j: int|
                0 <= i < j < r[k].3@.len() ==> #[trigger] r[k].3@[i] < #[trigger] r[k].3@[j]
        }),
        forall|j: int| k < j < r.len() ==> r[k].0 < (#[trigger] r[j]).0,
{
    let x = stream(a, r[k].0);
    let y = stream(b, r[k].0);
    let n = common(x, y);
    assert(payload_report(a, b, r[k]));
    assert(contents_differ(a, b, r[k].0));
    lemma_different_places(x, y, n);
    assert forall|o: usize|
        #![trigger r[k].3@.contains(o)]
        r[k].3@.contains(o) <==> exists|i: int|
            0 <= i < n && o < (#[trigger] x[i]).payload.len() && o < y[i].payload.len()
                && x[i].payload[o as int] != y[i].payload[o as int] by {
        if unstable(x, y, n, o as int) {
            let i = choose|i: int|
                0 <= i < n && bytes_differ(#[trigger] x[i].payload, y[i].payload, o as int);
            assert(x[i].payload[o as int] != y[i].payload[o as int]);
        }
        if exists|i: int|
            0 <= i < n && o < (#[trigger] x[i]).payload.len() && o < y[i].payload.len()
                && x[i].payload[o as int] != y[i].payload[o as int] {
            let i = choose|i: int|
                0 <= i < n && o < (#[trigger] x[i]).payload.len() && o < y[i].payload.len()
                    && x[i].payload[o as int] != y[i].payload[o as int];
            assert(bytes_differ(x[i].payload, y[i].payload, o as int));
            assert(unstable(x, y, n, o as int));
        }
    }
}

/// A message has a line exactly if both runs have some packet of it with different
/// contents.
pub proof fn every_difference_in_contents_has_a_line(
    a: Seq<EntryView>,
    b: Seq<EntryView>,
    r: Seq<PayloadDiff>,
    mid: MsgId,
)
    requires
        payload_differences(a, b, r),
    ensures
        (exists|k: int| 0 <= k < r.len() && (#[trigger] r[k]).0 == mid) <==> (exists|i: int|
            0 <= i < stream(a, mid).len() && i < stream(b, mid).len() && (#[trigger] stream(
                a,
                mid,
            )[i]).payload != stream(b, mid)[i].payload),
{
    let x = stream(a, mid);
    let y = stream(b, mid);
    lemma_different_places(x, y, common(x, y));
    if exists|i: int|
        0 <= i < x.len() && i < y.len() && (#[trigger] x[i]).payload != y[i].payload {
        let i = choose|i: int|
            0 <= i < x.len() && i < y.len() && (#[trigger] x[i]).payload != y[i].payload;
        assert(0 <= i < common(x, y) && x[i].payload != y[i].payload);
        assert(contents_differ(a, b, mid));
        assert(listed(r, mid));
    }
    if exists|k: int| 0 <= k < r.len() && (#[trigger] r[k]).0 == mid {
        let k = choose|k: int| 0 <= k < r.len() && (#[trigger] r[k]).0 == mid;
        assert(contents_differ(a, b, r[k].0));
    }
}

/// Each outcome of the check has its own cause: a run without telemetry, streams that
/// differ, nothing moved, or packets that moved, which counts against the flight
/// software only under cooperative scheduling and without a stall.
pub proof fn each_outcome_has_its_cause(
    a: Seq<EntryView>,
    b: Seq<EntryView>,
    stalls: int,
    coop: bool,
)
    ensures
        ({
            let v = verdict_on(a, b, stalls, coop);
            let there = a.len() > 0 && b.len() > 0;
            let same = there && same_stream(a, b);
            let moved = same && differences(a, b).len() > 0;
            &&& v == Verdict::NoTelemetry <==> !there
            &&& v == Verdict::StreamsDiffer <==> there && !same
            &&& v == Verdict::Reproducible <==> same && !moved
            &&& v == Verdict::StreamOnly <==> moved && !coop
            &&& v == Verdict::Inconclusive <==> moved && coop && stalls > 0
            &&& v == Verdict::PlacementMoved <==> moved && coop && stalls <= 0
            &&& v.is_pass() <==> same && (!moved || !coop)
        }),
{
}

} // verus!
