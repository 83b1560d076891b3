//! Contents are reported, not judged: what a packet carries does not decide the check.

use vstd::prelude::*;
use crate::ccsds::{MsgId, PacketView};
use crate::check::verdict_on;
use crate::order::{before, in_slot, same_slots, slot, stably_ordered};
use crate::streams::{
    agree, common, differences, of_mid, same_stream, shifts, shifts_below, stream,
};
use crate::transcript::{EntryView, TranscriptView};

verus! {

/// An entry without its contents.
pub open spec fn blank(e: EntryView) -> EntryView {
    EntryView { payload: Seq::empty(), ..e }
}

/// Entries without their contents.
pub open spec fn blanked(s: Seq<EntryView>) -> Seq<EntryView> {
    s.map_values(|e: EntryView| blank(e))
}

proof fn lemma_blank_filter(s: Seq<EntryView>, p: spec_fn(EntryView) -> bool)
    requires
        forall|e: EntryView| #[trigger] p(blank(e)) == p(e),
    ensures
        blanked(s).filter(p) == blanked(s.filter(p)),
    decreases s.len(),
{
    reveal(Seq::filter);
    if s.len() == 0 {
        assert(blanked(s).filter(p) =~= blanked(s.filter(p)));
    } else {
        lemma_blank_filter(s.drop_last(), p);
        assert(blanked(s).drop_last() =~= blanked(s.drop_last()));
        assert(p(blank(s.last())) == p(s.last()));
        assert(blanked(s).filter(p) =~= blanked(s.filter(p)));
    }
}

proof fn lemma_blank_stream(s: Seq<EntryView>, mid: MsgId)
    ensures
        stream(blanked(s), mid) == blanked(stream(s, mid)),
{
    lemma_blank_filter(s, of_mid(mid));
}

/// Leaving contents out of a finished run and finishing a run without contents is the
/// same.
pub proof fn contents_do_not_decide_the_order(s: Seq<EntryView>, finished: Seq<EntryView>)
    requires
        stably_ordered(s, finished),
    ensures
        stably_ordered(blanked(s), blanked(finished)),
{
    lemma_blank_slots(s, finished);
    assert forall|i: int, j: int| 0 <= i < j < blanked(finished).len() implies !before(
        #[trigger] blanked(finished)[j],
        #[trigger] blanked(finished)[i],
    ) by {
        assert(!before(finished[j], finished[i]));
    }
}

/// Entries that agree slot by slot agree without their contents.
pub(crate) proof fn lemma_blank_slots(a: Seq<EntryView>, b: Seq<EntryView>)
    requires
        same_slots(a, b),
    ensures
        same_slots(blanked(a), blanked(b)),
{
    assert forall|time: Option<i64>, mid: MsgId| #[trigger]
        slot(blanked(a), time, mid) == slot(blanked(b), time, mid) by {
        lemma_blank_filter(a, in_slot(time, mid));
        lemma_blank_filter(b, in_slot(time, mid));
        assert(slot(a, time, mid) == slot(b, time, mid));
    }
}

proof fn lemma_blank_agree(x: Seq<EntryView>, y: Seq<EntryView>)
    ensures
        agree(blanked(x), blanked(y)) == agree(x, y),
{
    if agree(blanked(x), blanked(y)) {
        assert forall|i: int| 0 <= i < x.len() && i < y.len() implies (
        #[trigger] x[i]).stream_key() == y[i].stream_key() by {
            assert(blanked(x)[i].stream_key() == blanked(y)[i].stream_key());
        }
    }
    if agree(x, y) {
        assert forall|i: int| 0 <= i < blanked(x).len() && i < blanked(y).len() implies (
        #[trigger] blanked(x)[i]).stream_key() == blanked(y)[i].stream_key() by {
            assert(x[i].stream_key() == y[i].stream_key());
        }
    }
}

proof fn lemma_blank_shifts(mid: MsgId, x: Seq<EntryView>, y: Seq<EntryView>, n: nat)
    requires
        n <= x.len(),
        n <= y.len(),
    ensures
        shifts(mid, blanked(x), blanked(y), n) == shifts(mid, x, y, n),
    decreases n,
{
    if n > 0 {
        lemma_blank_shifts(mid, x, y, (n - 1) as nat);
    }
}

proof fn lemma_blank_below(a: Seq<EntryView>, b: Seq<EntryView>, end: nat)
    ensures
        shifts_below(blanked(a), blanked(b), end) == shifts_below(a, b, end),
    decreases end,
{
    if end > 0 {
        lemma_blank_below(a, b, (end - 1) as nat);
        let mid = (end - 1) as u16;
        lemma_blank_stream(a, mid);
        lemma_blank_stream(b, mid);
        let x = stream(a, mid);
        let y = stream(b, mid);
        lemma_blank_shifts(mid, x, y, common(x, y));
    }
}

proof fn lemma_blank_verdict(a: Seq<EntryView>, b: Seq<EntryView>, stalls: int, coop: bool)
    ensures
        verdict_on(blanked(a), blanked(b), stalls, coop) == verdict_on(a, b, stalls, coop),
{
    assert forall|mid: MsgId| #[trigger]
        agree(stream(blanked(a), mid), stream(blanked(b), mid)) == agree(
            stream(a, mid),
            stream(b, mid),
        ) by {
        lemma_blank_stream(a, mid);
        lemma_blank_stream(b, mid);
        lemma_blank_agree(stream(a, mid), stream(b, mid));
    }
    if same_stream(a, b) {
        assert forall|mid: MsgId| #[trigger]
            agree(stream(blanked(a), mid), stream(blanked(b), mid)) by {
            assert(agree(stream(a, mid), stream(b, mid)));
        }
    }
    if same_stream(blanked(a), blanked(b)) {
        assert forall|mid: MsgId| #[trigger] agree(stream(a, mid), stream(b, mid)) by {
            assert(agree(stream(blanked(a), mid), stream(blanked(b), mid)));
        }
    }
    lemma_blank_below(a, b, 0x1_0000);
}

/// Contents do not decide the check. Runs whose entries agree in all but what the
/// packets carry fare the same against any others, and the same packets moved.
pub proof fn contents_do_not_decide_the_check(
    a: Seq<EntryView>,
    b: Seq<EntryView>,
    other_a: Seq<EntryView>,
    other_b: Seq<EntryView>,
    stalls: int,
    coop: bool,
)
    requires
        blanked(a) == blanked(other_a),
        blanked(b) == blanked(other_b),
    ensures
        verdict_on(a, b, stalls, coop) == verdict_on(other_a, other_b, stalls, coop),
        differences(a, b) == differences(other_a, other_b),
{
    lemma_blank_verdict(a, b, stalls, coop);
    lemma_blank_verdict(other_a, other_b, stalls, coop);
    lemma_blank_below(a, b, 0x1_0000);
    lemma_blank_below(other_a, other_b, 0x1_0000);
}

/// Do two packets agree in all but what they carry?
pub open spec fn same_but_for_contents(p: PacketView, q: PacketView) -> bool {
    q == PacketView { payload: q.payload, ..p }
}

/// What packets carry changes nothing else of the record.
pub proof fn contents_are_recorded_apart(ps: Seq<PacketView>, qs: Seq<PacketView>)
    requires
        ps.len() == qs.len(),
        forall|i: int| 0 <= i < ps.len() ==> same_but_for_contents(#[trigger] ps[i], qs[i]),
    ensures
        blanked(TranscriptView::empty().record_all(ps).entries) == blanked(
            TranscriptView::empty().record_all(qs).entries,
        ),
        TranscriptView::empty().record_all(ps).prev_seq == TranscriptView::empty().record_all(
            qs,
        ).prev_seq,
        TranscriptView::empty().record_all(ps).epoch == TranscriptView::empty().record_all(
            qs,
        ).epoch,
    decreases ps.len(),
{
    if ps.len() > 0 {
        assert forall|i: int| 0 <= i < ps.drop_last().len() implies same_but_for_contents(
            #[trigger] ps.drop_last()[i],
            qs.drop_last()[i],
        ) by {
            assert(same_but_for_contents(ps[i], qs[i]));
        }
        contents_are_recorded_apart(ps.drop_last(), qs.drop_last());
        assert(same_but_for_contents(ps[ps.len() - 1], qs[ps.len() - 1]));
        let a = TranscriptView::empty().record_all(ps.drop_last());
        let b = TranscriptView::empty().record_all(qs.drop_last());
        let e = a.entry(ps.last());
        let f = b.entry(qs.last());
        assert(blank(e) == blank(f));
        assert(blanked(a.entries.push(e)) =~= blanked(a.entries).push(blank(e)));
        assert(blanked(b.entries.push(f)) =~= blanked(b.entries).push(blank(f)));
    }
}

} // verus!
