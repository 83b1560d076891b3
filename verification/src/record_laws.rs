//! What holds of a record and of its text: each packet is on it, where it came, and
//! each line reads back.

use vstd::prelude::*;
use crate::ccsds::{MsgId, PacketView};
use crate::order::{before, stably_ordered};
use crate::stream_laws::recorded;
use crate::streams::stream;
use crate::text::{decimal, pad_end, pad_start};
use crate::text_laws::{
    all_digits, decimal_is_short, decimal_reads_back, face_value, hex4_reads_back,
    padded_numbers_read_back, padding_behind_is_all_it_adds, padding_in_front_is_all_it_adds,
    reading,
};
use crate::transcript::{
    delta_text, line_text, rendered, seconds_text, seq_step, snap, time_text, EntryView,
    TranscriptView,
};

verus! {

/// The sequence counter that a step leads to is the one that came, in fourteen bits.
pub proof fn a_sequence_step_leads_there(prev: u16, seq: u16)
    ensures
        seq_step(prev, seq) < 0x4000,
        (prev + seq_step(prev, seq)) % 0x4000 == seq as int % 0x4000,
{
}

/// Snapping picks the nearest tick of 655.36 units, on either side of the anchor, and
/// from the middle between two the one farther from it.
pub proof fn snapping_picks_the_nearest_tick(delta: int)
    ensures
        -32_768 <= delta * 100 - snap(delta) * 65_536 <= 32_768,
        delta >= 0 ==> delta * 100 - snap(delta) * 65_536 < 32_768,
        delta <= 0 ==> delta * 100 - snap(delta) * 65_536 > -32_768,
        snap(-delta) == -snap(delta),
{
    let num = delta * 1_000_000;
    assert(0x1_0000 * crate::clock::TICK_USEC as int == 655_360_000);
    assert(num >= 0 ==> snap(delta) == (2 * num + 655_360_000) / 1_310_720_000);
    assert(num < 0 ==> snap(delta) == -((2 * -num + 655_360_000) / 1_310_720_000));
}

/// Every packet is on the record, in the order they came, with its own message,
/// length and contents.
pub proof fn every_packet_is_recorded_where_it_came(ps: Seq<PacketView>)
    ensures
        recorded(ps).len() == ps.len(),
        forall|i: int|
            0 <= i < ps.len() ==> {
                &&& (#[trigger] recorded(ps)[i]).msg_id == ps[i].msg_id
                &&& recorded(ps)[i].len == ps[i].len
                &&& recorded(ps)[i].payload == ps[i].payload
            },
    decreases ps.len(),
{
    if ps.len() > 0 {
        every_packet_is_recorded_where_it_came(ps.drop_last());
        let front = recorded(ps.drop_last());
        assert forall|i: int| 0 <= i < ps.len() implies {
            &&& (#[trigger] recorded(ps)[i]).msg_id == ps[i].msg_id
            &&& recorded(ps)[i].len == ps[i].len
            &&& recorded(ps)[i].payload == ps[i].payload
        } by {
            if i < ps.len() - 1 {
                assert(recorded(ps)[i] == front[i]);
            }
        }
    }
}

/// Is the packet at `anchor` the first periodic one: all in front of it are events?
pub open spec fn anchors(ps: Seq<PacketView>, anchor: int) -> bool {
    &&& 0 <= anchor < ps.len()
    &&& ps[anchor].msg_id != 0x0808
    &&& forall|j: int| 0 <= j < anchor ==> (#[trigger] ps[j]).msg_id == 0x0808
}

/// Every packet is recorded on the tick nearest to its time since the first periodic
/// packet, and it is told whether it was stamped before that. The events that came in
/// front of the first periodic packet have no tick.
pub proof fn every_packet_is_recorded_on_its_tick(ps: Seq<PacketView>, anchor: int, i: int)
    requires
        anchors(ps, anchor),
        0 <= i < ps.len(),
    ensures
        i < anchor ==> recorded(ps)[i].rel_time is None && !recorded(ps)[i].early,
        i >= anchor ==> {
            &&& recorded(ps)[i].rel_time is Some
            &&& recorded(ps)[i].rel_time->Some_0 == snap(ps[i].time() - ps[anchor].time())
            &&& recorded(ps)[i].early <==> ps[i].time() < ps[anchor].time()
        },
        TranscriptView::empty().record_all(ps).epoch == Some(ps[anchor].time()),
    decreases ps.len(),
{
    every_packet_is_recorded_where_it_came(ps);
    let front = ps.drop_last();
    let t = TranscriptView::empty().record_all(front);
    every_packet_is_recorded_where_it_came(front);
    assert(recorded(ps) == t.entries.push(t.entry(ps.last())));
    if anchor < front.len() {
        assert forall|j: int| 0 <= j < anchor implies (#[trigger] front[j]).msg_id == 0x0808 by {
            assert(front[j] == ps[j]);
        }
        if i < front.len() {
            every_packet_is_recorded_on_its_tick(front, anchor, i);
        } else {
            every_packet_is_recorded_on_its_tick(front, anchor, anchor);
        }
    } else {
        assert forall|j: int| 0 <= j < front.len() implies (#[trigger] front[j]).msg_id
            == 0x0808 by {
            assert(front[j] == ps[j]);
        }
        without_a_periodic_packet_there_is_no_tick(front);
    }
    if i == front.len() {
        snapping_picks_the_nearest_tick(ps[i].time() - ps[anchor].time());
    }
}

/// Where only events came, none has a tick.
pub proof fn without_a_periodic_packet_there_is_no_tick(ps: Seq<PacketView>)
    requires
        forall|j: int| 0 <= j < ps.len() ==> (#[trigger] ps[j]).msg_id == 0x0808,
    ensures
        TranscriptView::empty().record_all(ps).epoch is None,
        recorded(ps).len() == ps.len(),
        forall|i: int|
            0 <= i < ps.len() ==> (#[trigger] recorded(ps)[i]).rel_time is None && !recorded(
                ps,
            )[i].early,
    decreases ps.len(),
{
    if ps.len() > 0 {
        let front = ps.drop_last();
        assert forall|j: int| 0 <= j < front.len() implies (#[trigger] front[j]).msg_id
            == 0x0808 by {
            assert(front[j] == ps[j]);
        }
        without_a_periodic_packet_there_is_no_tick(front);
        assert(ps[ps.len() - 1].msg_id == 0x0808);
        let t = TranscriptView::empty().record_all(front);
        assert(recorded(ps) == t.entries.push(t.entry(ps.last())));
    }
}

/// A packet's sequence delta is the step from the packet of its message before it,
/// however many of other messages came between; the first of a message has none.
pub proof fn deltas_are_steps_within_a_message(ps: Seq<PacketView>, j: int, i: int)
    requires
        0 <= i < ps.len(),
        j < i,
        forall|k: int| 0 <= k && j < k < i ==> (#[trigger] ps[k]).msg_id != ps[i].msg_id,
        j >= 0 ==> ps[j].msg_id == ps[i].msg_id,
    ensures
        recorded(ps)[i].seq_delta == if j >= 0 {
            Some(seq_step(ps[j].seq, ps[i].seq))
        } else {
            None
        },
    decreases ps.len(),
{
    let front = ps.drop_last();
    let t = TranscriptView::empty().record_all(front);
    every_packet_is_recorded_where_it_came(front);
    assert(recorded(ps) == t.entries.push(t.entry(ps.last())));
    if i < front.len() {
        assert forall|k: int| 0 <= k && j < k < i implies (#[trigger] front[k]).msg_id
            != front[i].msg_id by {
            assert(front[k] == ps[k]);
        }
        deltas_are_steps_within_a_message(front, j, i);
    } else {
        assert forall|k: int| 0 <= k && j < k < front.len() implies (#[trigger] front[k]).msg_id
            != ps[i].msg_id by {
            assert(front[k] == ps[k]);
        }
        lemma_last_counter(front, ps[i].msg_id, j);
    }
}

proof fn lemma_last_counter(ps: Seq<PacketView>, mid: MsgId, j: int)
    requires
        j < ps.len(),
        forall|k: int| 0 <= k && j < k < ps.len() ==> (#[trigger] ps[k]).msg_id != mid,
        j >= 0 ==> ps[j].msg_id == mid,
    ensures
        ({
            let seen = TranscriptView::empty().record_all(ps).prev_seq;
            &&& seen.contains_key(mid) <==> j >= 0
            &&& j >= 0 ==> seen[mid] == ps[j].seq
        }),
    decreases ps.len(),
{
    if ps.len() > 0 && j < ps.len() - 1 {
        let front = ps.drop_last();
        assert forall|k: int| 0 <= k && j < k < front.len() implies (#[trigger] front[k]).msg_id
            != mid by {
            assert(front[k] == ps[k]);
        }
        assert(ps[ps.len() - 1].msg_id != mid);
        lemma_last_counter(front, mid, j);
    }
}

/// What was recorded stays: more packets only add to the record.
pub proof fn recording_only_adds(t: TranscriptView, ps: Seq<PacketView>)
    ensures
        t.record_all(ps).entries.len() == t.entries.len() + ps.len(),
        t.record_all(ps).entries.take(t.entries.len() as int) == t.entries,
    decreases ps.len(),
{
    if ps.len() == 0 {
        assert(t.entries.take(t.entries.len() as int) =~= t.entries);
    } else {
        recording_only_adds(t, ps.drop_last());
        let front = t.record_all(ps.drop_last()).entries;
        let all = t.record_all(ps).entries;
        assert(all.take(t.entries.len() as int) =~= front.take(t.entries.len() as int));
    }
}

/// One message's packets are those of a run and of what follows it, in turn; a single
/// packet belongs to its own message alone.
pub proof fn a_stream_is_taken_piece_by_piece(
    a: Seq<EntryView>,
    b: Seq<EntryView>,
    e: EntryView,
    mid: MsgId,
)
    ensures
        stream(a + b, mid) == stream(a, mid) + stream(b, mid),
        stream(seq![e], mid) == if e.msg_id == mid { seq![e] } else { Seq::<EntryView>::empty() },
        stream(Seq::<EntryView>::empty(), mid) == Seq::<EntryView>::empty(),
{
    reveal(Seq::filter);
    let p = crate::streams::of_mid(mid);
    Seq::filter_distributes_over_add(a, b, p);
    assert(seq![e].drop_last() =~= Seq::<EntryView>::empty());
    assert(Seq::<EntryView>::empty().filter(p) =~= Seq::<EntryView>::empty());
    assert(Seq::<EntryView>::empty().push(e) =~= seq![e]);
}

/// A finished run is sorted: by tick, those of one tick by message id, and those
/// without a tick last.
pub proof fn a_finished_run_is_sorted(
    s: Seq<EntryView>,
    finished: Seq<EntryView>,
    i: int,
    j: int,
)
    requires
        stably_ordered(s, finished),
        0 <= i < j < finished.len(),
    ensures
        finished[j].rel_time is Some ==> finished[i].rel_time is Some
            && finished[i].rel_time->Some_0 <= finished[j].rel_time->Some_0,
        finished[i].rel_time == finished[j].rel_time ==> finished[i].msg_id <= finished[j].msg_id,
{
    assert(!before(finished[j], finished[i]));
}

/// Finishing leaves the packets of one message at one instant in the sequence they
/// were recorded in.
pub proof fn finishing_is_stable(
    s: Seq<EntryView>,
    finished: Seq<EntryView>,
    time: Option<i64>,
    mid: MsgId,
)
    requires
        stably_ordered(s, finished),
    ensures
        s.filter(|e: EntryView| e.rel_time == time && e.msg_id == mid) == finished.filter(
            |e: EntryView| e.rel_time == time && e.msg_id == mid,
        ),
{
    assert(crate::order::slot(s, time, mid) == crate::order::slot(finished, time, mid));
    let p = |e: EntryView| e.rel_time == time && e.msg_id == mid;
    assert(p =~= crate::order::in_slot(time, mid));
}

/// A rendered time reads back as the time: a minus sign if it is before the anchor, the
/// whole seconds, a point, and five digits of a second. A tick is a hundredth of one.
pub proof fn a_rendered_time_reads_back(ticks: i64, early: bool)
    ensures
        ({
            let t = seconds_text(ticks, early);
            let negative = ticks < 0 || (ticks == 0 && early);
            let size = if ticks < 0 { -ticks } else { ticks as int };
            let body = if negative { t.skip(1) } else { t };
            let point = body.len() - 6;
            &&& t.len() >= 9
            &&& negative <==> t[0] == '-'
            &&& body[point] == '.'
            &&& all_digits(body.take(point), 10)
            &&& reading(body.take(point), 10) == size / 100
            &&& all_digits(body.skip(point + 1), 10)
            &&& reading(body.skip(point + 1), 10) == size % 100 * 1_000
            &&& face_value(body[0]) == 0 ==> t.len() == 9
        }),
{
    reveal_strlit("-");
    reveal_strlit(".");
    let t = seconds_text(ticks, early);
    let negative = ticks < 0 || (ticks == 0 && early);
    let size = if ticks < 0 {
        -ticks
    } else {
        ticks as int
    };
    let usec = size * 10_000;
    let whole = (usec / 1_000_000) as nat;
    let part = (usec % 1_000_000 / 10) as nat;
    assert(whole == size / 100 && part == size % 100 * 1_000);
    let width = if negative {
        2nat
    } else {
        3nat
    };
    let front = pad_start(decimal(whole), '0', width);
    let back = pad_start(decimal(part), '0', 5);
    padded_numbers_read_back(whole, width);
    padded_numbers_read_back(part, 5);
    padding_in_front_is_all_it_adds(decimal(whole), '0', width);
    padding_in_front_is_all_it_adds(decimal(part), '0', 5);
    decimal_is_short(part);
    decimal_is_short(whole);
    decimal_reads_back(whole);
    let body = front + seq!['.'] + back;
    if negative {
        assert(t =~= seq!['-'] + body);
        assert(t.skip(1) =~= body);
    } else {
        assert(t =~= body);
        assert(face_value(front[0]) < 10);
        assert(t[0] == front[0]);
    }
    let point = body.len() - 6;
    assert(body.take(point) =~= front);
    assert(body.skip(point + 1) =~= back);
}

/// Two different times never have the same text.
pub proof fn different_times_render_differently(
    ticks: i64,
    early: bool,
    other: i64,
    other_early: bool,
)
    requires
        seconds_text(ticks, early) == seconds_text(other, other_early),
    ensures
        ticks == other,
        ticks == 0 ==> early == other_early,
{
    a_rendered_time_reads_back(ticks, early);
    a_rendered_time_reads_back(other, other_early);
}

/// A sequence delta reads back from its text; the first packet of a message has none.
pub proof fn a_rendered_delta_reads_back(d: Option<u16>)
    ensures
        match d {
            None => delta_text(d) == seq!['f', 'i', 'r', 's', 't'],
            Some(n) => {
                &&& delta_text(d).len() >= 3
                &&& delta_text(d).take(2) == seq!['d', '+']
                &&& all_digits(delta_text(d).skip(2), 10)
                &&& reading(delta_text(d).skip(2), 10) == n
            },
        },
{
    reveal_strlit("first");
    reveal_strlit("d+");
    match d {
        None => {
            assert(delta_text(d) =~= seq!['f', 'i', 'r', 's', 't']);
        },
        Some(n) => {
            decimal_reads_back(n as nat);
            assert(delta_text(d).take(2) =~= seq!['d', '+']);
            assert(delta_text(d).skip(2) =~= decimal(n as nat));
        },
    }
}

/// The parts of a line: message id, sequence delta, time and length.
pub struct Line {
    pub mid: Seq<char>,
    pub delta: Seq<char>,
    pub time: Seq<char>,
    pub len: Seq<char>,
}

/// A line tells its entry: the message id as four hexadecimal digits, the sequence
/// delta in at least six places, the time behind a plus sign or that there is none,
/// and the length. It ends in a line break and has no other.
pub proof fn a_line_tells_its_entry(e: EntryView) -> (line: Line)
    ensures
        line_text(e) == line.mid + seq![' '] + line.delta + seq![' ', 't', '='] + line.time + seq![
            ' ',
            'l',
            'e',
            'n',
            '=',
        ] + line.len + seq!['\n'],
        line.mid.len() == 4,
        all_digits(line.mid, 16),
        reading(line.mid, 16) == e.msg_id,
        line.delta.len() >= 6,
        line.delta.take(delta_text(e.seq_delta).len() as int) == delta_text(e.seq_delta),
        delta_text(e.seq_delta).len() <= 6 ==> line.delta.len() == 6,
        delta_text(e.seq_delta).len() > 6 ==> line.delta == delta_text(e.seq_delta),
        forall|i: int|
            delta_text(e.seq_delta).len() <= i < line.delta.len() ==> #[trigger] line.delta[i]
                == ' ',
        match e.rel_time {
            Some(ticks) => line.time == seq!['+'] + seconds_text(ticks, e.early),
            None => line.time == seq!['P', 'R', 'E', '-', 'A', 'N', 'C', 'H', 'O', 'R'],
        },
        line.len.len() > 0,
        all_digits(line.len, 10),
        reading(line.len, 10) == e.len,
        forall|i: int| 0 <= i < line_text(e).len() - 1 ==> #[trigger] line_text(e)[i] != '\n',
{
    reveal_strlit(" ");
    reveal_strlit(" t=");
    reveal_strlit(" len=");
    reveal_strlit("\n");
    reveal_strlit("+");
    reveal_strlit("PRE-ANCHOR");
    hex4_reads_back(e.msg_id);
    decimal_reads_back(e.len as nat);
    padding_behind_is_all_it_adds(delta_text(e.seq_delta), ' ', 6);
    let line = Line {
        mid: crate::text::hex4(e.msg_id),
        delta: pad_end(delta_text(e.seq_delta), ' ', 6),
        time: time_text(e.rel_time, e.early),
        len: decimal(e.len as nat),
    };
    assert(" "@ =~= seq![' ']);
    assert(" t="@ =~= seq![' ', 't', '=']);
    assert(" len="@ =~= seq![' ', 'l', 'e', 'n', '=']);
    assert("\n"@ =~= seq!['\n']);
    assert("+"@ =~= seq!['+']);
    assert("PRE-ANCHOR"@ =~= seq!['P', 'R', 'E', '-', 'A', 'N', 'C', 'H', 'O', 'R']);
    assert(delta_text(e.seq_delta).len() > 6 ==> line.delta =~= delta_text(e.seq_delta));
    assert(unbroken(line.mid));
    assert(unbroken(line.len));
    a_rendered_delta_reads_back(e.seq_delta);
    lemma_delta_unbroken(e.seq_delta);
    assert forall|i: int| 0 <= i < line.delta.len() implies #[trigger] line.delta[i] != '\n' by {
        let d = delta_text(e.seq_delta);
        if i < d.len() {
            assert(line.delta.take(d.len() as int)[i] == d[i]);
        }
    }
    if let Some(ticks) = e.rel_time {
        lemma_seconds_unbroken(ticks, e.early);
    }
    assert(unbroken(line.time));
    let a = line.mid + seq![' '] + line.delta;
    let b = seq![' ', 't', '='] + line.time;
    let c = seq![' ', 'l', 'e', 'n', '='] + line.len;
    assert(unbroken(a));
    assert(unbroken(b));
    assert(unbroken(c));
    assert(line_text(e) =~= a + b + c + seq!['\n']);
    assert(unbroken(a + b + c));
    assert forall|i: int| 0 <= i < line_text(e).len() - 1 implies #[trigger] line_text(e)[i]
        != '\n' by {
        assert(line_text(e)[i] == (a + b + c)[i]);
    }
    line
}

/// Has this text no line break?
pub open spec fn unbroken(s: Seq<char>) -> bool {
    forall|i: int| 0 <= i < s.len() ==> #[trigger] s[i] != '\n'
}

proof fn lemma_delta_unbroken(d: Option<u16>)
    ensures
        unbroken(delta_text(d)),
{
    a_rendered_delta_reads_back(d);
    let t = delta_text(d);
    assert forall|i: int| 0 <= i < t.len() implies #[trigger] t[i] != '\n' by {
        if d is Some {
            if i < 2 {
                assert(t.take(2)[i] == t[i]);
            } else {
                assert(t.skip(2)[i - 2] == t[i]);
            }
        }
    }
}

proof fn lemma_seconds_unbroken(ticks: i64, early: bool)
    ensures
        unbroken(seconds_text(ticks, early)),
{
    a_rendered_time_reads_back(ticks, early);
    let t = seconds_text(ticks, early);
    let body = if ticks < 0 || (ticks == 0 && early) {
        t.skip(1)
    } else {
        t
    };
    let point = body.len() - 6;
    assert forall|i: int| 0 <= i < body.len() implies #[trigger] body[i] != '\n' by {
        if i < point {
            assert(body.take(point)[i] == body[i]);
        } else if i > point {
            assert(body.skip(point + 1)[i - point - 1] == body[i]);
        }
    }
    assert forall|i: int| 0 <= i < t.len() implies #[trigger] t[i] != '\n' by {
        if body != t && i > 0 {
            assert(body[i - 1] == t[i]);
        }
    }
}

/// The text of a record is the text of its parts in turn, an entry to a line.
pub proof fn a_record_renders_line_by_line(a: Seq<EntryView>, b: Seq<EntryView>, e: EntryView)
    ensures
        rendered(a + b) == rendered(a) + rendered(b),
        rendered(seq![e]) == line_text(e),
        rendered(Seq::<EntryView>::empty()).len() == 0,
    decreases b.len(),
{
    if b.len() == 0 {
        assert(a + b =~= a);
        assert(rendered(a) + rendered(b) =~= rendered(a));
    } else {
        a_record_renders_line_by_line(a, b.drop_last(), e);
        assert((a + b).drop_last() =~= a + b.drop_last());
        assert(rendered(a + b) =~= rendered(a) + rendered(b));
    }
    assert(seq![e].drop_last() =~= Seq::<EntryView>::empty());
    assert(rendered(Seq::<EntryView>::empty()) =~= Seq::<char>::empty());
    assert(rendered(seq![e]) =~= line_text(e));
}

} // verus!
