//! The order of a finished transcript: by tick, then by message id, and
//! otherwise as recorded.

use vstd::prelude::*;
use crate::ccsds::MsgId;
use crate::transcript::{Entry, EntryView};

verus! {

/// Does `a` belong strictly before `b`?
///
/// Earlier ticks come first, and entries of one tick are ordered by message id.
/// What arrived before the anchor has no tick and comes last.
pub open spec fn before(a: EntryView, b: EntryView) -> bool {
    match (a.rel_time, b.rel_time) {
        (Some(x), Some(y)) => x < y || (x == y && a.msg_id < b.msg_id),
        (Some(_), None) => true,
        (None, Some(_)) => false,
        (None, None) => a.msg_id < b.msg_id,
    }
}

/// No entry stands in front of one that belongs before it.
pub open spec fn in_order(s: Seq<EntryView>) -> bool {
    forall|i: int, j: int| 0 <= i < j < s.len() ==> !before(#[trigger] s[j], #[trigger] s[i])
}

/// The entries of one message at one instant.
pub open spec fn in_slot(time: Option<i64>, mid: MsgId) -> spec_fn(EntryView) -> bool {
    |e: EntryView| e.rel_time == time && e.msg_id == mid
}

/// What `s` holds of one message at one instant, as recorded.
pub open spec fn slot(s: Seq<EntryView>, time: Option<i64>, mid: MsgId) -> Seq<EntryView> {
    s.filter(in_slot(time, mid))
}

/// Do `a` and `b` hold the same entries of each message at each instant, in the
/// same sequence?
pub open spec fn same_slots(a: Seq<EntryView>, b: Seq<EntryView>) -> bool {
    forall|time: Option<i64>, mid: MsgId| #[trigger] slot(a, time, mid) == slot(b, time, mid)
}

/// `out` is `s` in order, with the entries of one message at one instant left in
/// the sequence they were recorded in.
pub open spec fn stably_ordered(s: Seq<EntryView>, out: Seq<EntryView>) -> bool {
    in_order(out) && same_slots(s, out)
}

/// Does `a` belong strictly before `b`?
pub fn comes_before(a: &Entry, b: &Entry) -> (r: bool)
    ensures
        r == before(a@, b@),
{
    match (a.rel_time, b.rel_time) {
        (Some(x), Some(y)) => x < y || (x == y && a.msg_id < b.msg_id),
        (Some(_), None) => true,
        (None, Some(_)) => false,
        (None, None) => a.msg_id < b.msg_id,
    }
}

/// Putting `e` where everything in front may stay in front of it, and everything
/// behind belongs after it, keeps the order.
pub proof fn lemma_insert(s: Seq<EntryView>, out: Seq<EntryView>, e: EntryView, at: int)
    requires
        stably_ordered(s, out),
        0 <= at <= out.len(),
        forall|k: int| 0 <= k < at ==> !before(e, #[trigger] out[k]),
        forall|k: int| at <= k < out.len() ==> before(e, #[trigger] out[k]),
    ensures
        stably_ordered(s.push(e), out.insert(at, e)),
{
    let new = out.insert(at, e);
    assert forall|i: int, j: int| 0 <= i < j < new.len() implies !before(
        #[trigger] new[j],
        #[trigger] new[i],
    ) by {
        let a = if i < at { out[i] } else if i == at { e } else { out[i - 1] };
        let b = if j < at { out[j] } else if j == at { e } else { out[j - 1] };
        assert(new[i] == a && new[j] == b);
    }
    assert forall|time: Option<i64>, mid: MsgId| #[trigger]
        slot(s.push(e), time, mid) == slot(new, time, mid) by {
        let p = in_slot(time, mid);
        let front = out.take(at);
        let back = out.skip(at);
        assert(out =~= front + back);
        assert(new =~= front + (seq![e] + back));
        Seq::filter_distributes_over_add(front, back, p);
        Seq::filter_distributes_over_add(front, seq![e] + back, p);
        back.lemma_filter_prepend(e, p);
        assert(slot(s, time, mid) == slot(out, time, mid));
        assert(s.push(e).drop_last() =~= s);
        reveal(Seq::filter);
        if p(e) {
            assert forall|i: int| 0 <= i < back.len() implies !p(#[trigger] back[i]) by {
                assert(back[i] == out[at + i]);
            }
            back.lemma_all_neg_filter_empty(p);
            assert(s.push(e).filter(p) =~= s.filter(p).push(e));
            assert(new.filter(p) =~= front.filter(p).push(e));
            assert(out.filter(p) =~= front.filter(p));
        } else {
            assert(new.filter(p) =~= front.filter(p) + back.filter(p));
        }
    }
}

} // verus!
