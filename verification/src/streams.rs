//! Transcripts taken apart by message, and compared message by message.
//!
//! Comparing whole transcripts positionally does NOT work: entries are sorted by
//! time, so a single packet slipping one tick changes its sort position and makes
//! the entire sequence appear to differ. Grouping by message id first separates
//! *what the flight software did* from *which tick it landed on*.

use vstd::prelude::*;
use crate::ccsds::MsgId;
use crate::transcript::{views, Entry, EntryView};

verus! {

pub open spec fn of_mid(mid: MsgId) -> spec_fn(EntryView) -> bool {
    |e: EntryView| e.msg_id == mid
}

/// One message's own ordered sequence of packets: the placement-independent view.
pub open spec fn stream(s: Seq<EntryView>, mid: MsgId) -> Seq<EntryView> {
    s.filter(of_mid(mid))
}

/// Do two sequences of one message's packets tell of the same stream?
///
/// The packets they have in common must be the same packets. One more or less at
/// the end is the run's boundary moving; a stream that is there in one run and
/// not in the other is no boundary.
pub open spec fn agree(x: Seq<EntryView>, y: Seq<EntryView>) -> bool {
    &&& x.len() == 0 <==> y.len() == 0
    &&& -1 <= x.len() - y.len() <= 1
    &&& forall|i: int|
        0 <= i < x.len() && i < y.len() ==> (#[trigger] x[i]).stream_key() == y[i].stream_key()
}

/// Do two runs tell of the same stream, message by message?
pub open spec fn same_stream(a: Seq<EntryView>, b: Seq<EntryView>) -> bool {
    forall|mid: MsgId| #[trigger] agree(stream(a, mid), stream(b, mid))
}

/// A packet whose tick placement moved: its message, and its time in either run.
pub type Shift = (MsgId, Option<i64>, Option<i64>);

/// The packets among the first `n` of one message that moved, pair by pair.
pub open spec fn shifts(mid: MsgId, x: Seq<EntryView>, y: Seq<EntryView>, n: nat) -> Seq<Shift>
    decreases n,
{
    if n == 0 {
        Seq::empty()
    } else {
        let front = shifts(mid, x, y, (n - 1) as nat);
        let a = x[n - 1].rel_time;
        let b = y[n - 1].rel_time;
        if a != b {
            front.push((mid, a, b))
        } else {
            front
        }
    }
}

/// How many packets of a message two runs have in common.
pub open spec fn common(x: Seq<EntryView>, y: Seq<EntryView>) -> nat {
    if x.len() <= y.len() {
        x.len()
    } else {
        y.len()
    }
}

/// The packets of message `mid` that moved between two runs.
pub open spec fn shifts_of(a: Seq<EntryView>, b: Seq<EntryView>, mid: MsgId) -> Seq<Shift> {
    let x = stream(a, mid);
    let y = stream(b, mid);
    shifts(mid, x, y, common(x, y))
}

/// The moved packets of all messages below `end`, in ascending order of message.
pub open spec fn shifts_below(a: Seq<EntryView>, b: Seq<EntryView>, end: nat) -> Seq<Shift>
    decreases end,
{
    if end == 0 {
        Seq::empty()
    } else {
        shifts_below(a, b, (end - 1) as nat) + shifts_of(a, b, (end - 1) as u16)
    }
}

/// The packets whose tick placement moved between two runs.
pub open spec fn differences(a: Seq<EntryView>, b: Seq<EntryView>) -> Seq<Shift> {
    shifts_below(a, b, 0x1_0000)
}

/// By how many ticks a packet moved, where it had a time in both runs.
pub open spec fn shift_size(s: Shift) -> nat {
    match (s.1, s.2) {
        (Some(x), Some(y)) => if x >= y {
            (x - y) as nat
        } else {
            (y - x) as nat
        },
        _ => 0,
    }
}

/// The largest of the shifts, zero if there is none.
pub open spec fn max_shift(s: Seq<Shift>) -> nat
    decreases s.len(),
{
    if s.len() == 0 {
        0
    } else {
        let front = max_shift(s.drop_last());
        let last = shift_size(s.last());
        if front >= last {
            front
        } else {
            last
        }
    }
}

/// Where two runs' packet CONTENTS differ, for one message: the message, how many
/// packets were compared, how many of them differ, and the byte offsets at which
/// any of them differ.
pub type PayloadDiff = (MsgId, usize, usize, Vec<usize>);

/// How many of the first `n` pairs of packets have different contents.
pub open spec fn differing(x: Seq<EntryView>, y: Seq<EntryView>, n: nat) -> nat
    decreases n,
{
    if n == 0 {
        0
    } else {
        differing(x, y, (n - 1) as nat) + if x[n - 1].payload != y[n - 1].payload {
            1nat
        } else {
            0
        }
    }
}

/// Do `p` and `q` differ in the byte at offset `o`, which both have?
pub open spec fn bytes_differ(p: Seq<u8>, q: Seq<u8>, o: int) -> bool {
    0 <= o < p.len() && o < q.len() && p[o] != q[o]
}

/// Does any of the first `n` pairs of packets differ in the byte at offset `o`?
pub open spec fn unstable(x: Seq<EntryView>, y: Seq<EntryView>, n: nat, o: int) -> bool {
    exists|i: int| 0 <= i < n && bytes_differ(#[trigger] x[i].payload, y[i].payload, o)
}

/// Is `r` what is to be said of the contents of its message?
pub open spec fn payload_report(a: Seq<EntryView>, b: Seq<EntryView>, r: PayloadDiff) -> bool {
    let x = stream(a, r.0);
    let y = stream(b, r.0);
    let n = common(x, y);
    &&& r.1 == n
    &&& r.2 == differing(x, y, n)
    &&& forall|i: int, j: int| 0 <= i < j < r.3@.len() ==> #[trigger] r.3@[i] < #[trigger] r.3@[j]
    &&& forall|o: usize| #[trigger] r.3@.contains(o) <==> unstable(x, y, n, o as int)
}

/// Does message `mid` have a pair of packets with different contents?
pub open spec fn contents_differ(a: Seq<EntryView>, b: Seq<EntryView>, mid: MsgId) -> bool {
    let x = stream(a, mid);
    let y = stream(b, mid);
    differing(x, y, common(x, y)) > 0
}

/// Is `r` the report on all messages: one line for each whose contents differ, in
/// ascending order of message?
pub open spec fn payload_differences(
    a: Seq<EntryView>,
    b: Seq<EntryView>,
    r: Seq<PayloadDiff>,
) -> bool {
    &&& forall|i: int|
        0 <= i < r.len() ==> payload_report(a, b, #[trigger] r[i]) && contents_differ(a, b, r[i].0)
    &&& forall|i: int, j: int| 0 <= i < j < r.len() ==> (#[trigger] r[i]).0 < (#[trigger] r[j]).0
    &&& forall|mid: MsgId| #[trigger] contents_differ(a, b, mid) ==> listed(r, mid)
}

/// Is there a line for message `mid`?
pub open spec fn listed(r: Seq<PayloadDiff>, mid: MsgId) -> bool {
    exists|i: int| 0 <= i < r.len() && (#[trigger] r[i]).0 == mid
}

/// The views of a run of borrowed entries.
pub open spec fn ref_views(s: Seq<&Entry>) -> Seq<EntryView> {
    s.map_values(|e: &Entry| e@)
}

/// Does any packet of message `mid` occur?
pub open spec fn occurs(s: Seq<EntryView>, mid: MsgId) -> bool {
    exists|i: int| 0 <= i < s.len() && (#[trigger] s[i]).msg_id == mid
}

/// A message has a stream exactly if one of its packets occurs.
pub proof fn stream_is_there(s: Seq<EntryView>, mid: MsgId)
    ensures
        stream(s, mid).len() > 0 <==> occurs(s, mid),
{
    if occurs(s, mid) {
        let i = choose|i: int| 0 <= i < s.len() && (#[trigger] s[i]).msg_id == mid;
        s.lemma_filter_contains(of_mid(mid), i);
        assert(stream(s, mid).contains(s[i]));
    } else {
        s.lemma_all_neg_filter_empty(of_mid(mid));
    }
}

/// Each message id that occurs, once, in ascending order.
pub fn message_ids(entries: &[Entry]) -> (mids: Vec<MsgId>)
    ensures
        forall|i: int, j: int| 0 <= i < j < mids@.len() ==> mids@[i] < mids@[j],
        forall|m: MsgId| #[trigger] mids@.contains(m) <==> occurs(views(entries@), m),
{
    let mut mids: Vec<MsgId> = Vec::new();
    let mut k: usize = 0;
    let ghost all = views(entries@);
    assert(all.take(0) =~= Seq::<EntryView>::empty());
    while k < entries.len()
        invariant
            k <= entries@.len(),
            all == views(entries@),
            forall|i: int, j: int| 0 <= i < j < mids@.len() ==> mids@[i] < mids@[j],
            forall|m: MsgId| #[trigger] mids@.contains(m) <==> occurs(all.take(k as int), m),
        decreases entries.len() - k,
    {
        let m: MsgId = entries[k].msg_id;
        let mut at: usize = 0;
        while at < mids.len() && mids[at] < m
            invariant
                at <= mids@.len(),
                forall|i: int| 0 <= i < at ==> mids@[i] < m,
            decreases mids.len() - at,
        {
            at = at + 1;
        }
        let ghost before = mids@;
        let ghost s = all.take(k as int);
        let ghost t = all.take(k as int + 1);
        proof {
            assert(t =~= s.push(all[k as int]));
            assert forall|x: MsgId| occurs(t, x) <==> occurs(s, x) || x == m by {
                if occurs(s, x) {
                    let i = choose|i: int| 0 <= i < s.len() && (#[trigger] s[i]).msg_id == x;
                    assert(t[i].msg_id == x);
                }
                if x == m {
                    assert(t[k as int].msg_id == x);
                }
                if occurs(t, x) && x != m {
                    let i = choose|i: int| 0 <= i < t.len() && (#[trigger] t[i]).msg_id == x;
                    assert(s[i].msg_id == x);
                }
            }
        }
        if at == mids.len() || mids[at] != m {
            mids.insert(at, m);
            proof {
                assert forall|x: MsgId| #[trigger] mids@.contains(x) <==> before.contains(x) || x
                    == m by {
                    if before.contains(x) {
                        let i = choose|i: int| 0 <= i < before.len() && before[i] == x;
                        assert(mids@[if i < at { i } else { i + 1 }] == x);
                    }
                    if x == m {
                        assert(mids@[at as int] == x);
                    }
                    if mids@.contains(x) && x != m {
                        let i = choose|i: int| 0 <= i < mids@.len() && mids@[i] == x;
                        assert(before[if i < at { i } else { i - 1 }] == x);
                    }
                }
            }
        } else {
            assert(before.contains(m)) by {
                assert(before[at as int] == m);
            }
        }
        k = k + 1;
    }
    assert(all.take(all.len() as int) =~= all);
    mids
}

/// Each message's own ordered sequence of packets.
pub fn by_msg_id(entries: &[Entry], mid: MsgId) -> (out: Vec<&Entry>)
    ensures
        ref_views(out@) == stream(views(entries@), mid),
{
    let mut out: Vec<&Entry> = Vec::new();
    let ghost all = views(entries@);
    let mut k: usize = 0;
    proof {
        reveal(Seq::filter);
        assert(ref_views(out@) =~= stream(all.take(0), mid));
    }
    while k < entries.len()
        invariant
            k <= entries@.len(),
            all == views(entries@),
            ref_views(out@) == stream(all.take(k as int), mid),
        decreases entries.len() - k,
    {
        proof {
            reveal(Seq::filter);
            assert(all.take(k as int + 1).drop_last() =~= all.take(k as int));
            assert(all.take(k as int + 1).last() == entries@[k as int]@);
        }
        if entries[k].msg_id == mid {
            let ghost was = out@;
            out.push(&entries[k]);
            assert(ref_views(out@) =~= ref_views(was).push(entries@[k as int]@));
        }
        k = k + 1;
    }
    assert(all.take(all.len() as int) =~= all);
    out
}

/// Do two sequences of one message's packets tell of the same stream?
fn streams_agree(x: &Vec<&Entry>, y: &Vec<&Entry>) -> (r: bool)
    ensures
        r == agree(ref_views(x@), ref_views(y@)),
{
    let n: usize = x.len();
    let m: usize = y.len();
    if (n == 0) != (m == 0) {
        return false;
    }
    // Only the boundary may differ, and only by one packet.
    if (n > m && n - m > 1) || (m > n && m - n > 1) {
        return false;
    }
    let ghost xs = ref_views(x@);
    let ghost ys = ref_views(y@);
    let mut i: usize = 0;
    while i < n && i < m
        invariant
            n == x@.len(),
            m == y@.len(),
            xs == ref_views(x@),
            ys == ref_views(y@),
            i <= n,
            i <= m,
            forall|k: int| 0 <= k < i ==> (#[trigger] xs[k]).stream_key() == ys[k].stream_key(),
        decreases n - i,
    {
        if !x[i].same_key(y[i]) {
            assert(xs[i as int].stream_key() != ys[i as int].stream_key());
            return false;
        }
        i = i + 1;
    }
    true
}

fn contains(mids: &Vec<MsgId>, mid: MsgId) -> (r: bool)
    ensures
        r == mids@.contains(mid),
{
    let mut i: usize = 0;
    while i < mids.len()
        invariant
            i <= mids@.len(),
            forall|k: int| 0 <= k < i ==> mids@[k] != mid,
        decreases mids.len() - i,
    {
        if mids[i] == mid {
            assert(mids@[i as int] == mid);
            return true;
        }
        i = i + 1;
    }
    false
}

/// Do two runs tell of the same stream, message by message?
pub fn same_packets(a: &[Entry], b: &[Entry]) -> (r: bool)
    ensures
        r == same_stream(views(a@), views(b@)),
{
    let ghost va = views(a@);
    let ghost vb = views(b@);
    let in_a: Vec<MsgId> = message_ids(a);
    let in_b: Vec<MsgId> = message_ids(b);
    let mut i: usize = 0;
    while i < in_a.len()
        invariant
            i <= in_a@.len(),
            va == views(a@),
            vb == views(b@),
            forall|k: int|
                0 <= k < i ==> agree(stream(va, #[trigger] in_a@[k]), stream(vb, in_a@[k])),
        decreases in_a.len() - i,
    {
        let x: Vec<&Entry> = by_msg_id(a, in_a[i]);
        let y: Vec<&Entry> = by_msg_id(b, in_a[i]);
        if !streams_agree(&x, &y) {
            assert(!agree(stream(va, in_a@[i as int]), stream(vb, in_a@[i as int])));
            return false;
        }
        i = i + 1;
    }
    // A message of the second run alone is a whole stream that appeared.
    let mut j: usize = 0;
    while j < in_b.len()
        invariant
            j <= in_b@.len(),
            va == views(a@),
            vb == views(b@),
            forall|m: MsgId| #[trigger] in_a@.contains(m) <==> occurs(va, m),
            forall|m: MsgId| #[trigger] in_b@.contains(m) <==> occurs(vb, m),
            forall|k: int| 0 <= k < j ==> in_a@.contains(#[trigger] in_b@[k]),
        decreases in_b.len() - j,
    {
        if !contains(&in_a, in_b[j]) {
            proof {
                let m = in_b@[j as int];
                assert(in_b@.contains(m));
                stream_is_there(va, m);
                stream_is_there(vb, m);
                assert(!agree(stream(va, m), stream(vb, m)));
            }
            return false;
        }
        j = j + 1;
    }
    assert forall|m: MsgId| #[trigger] agree(stream(va, m), stream(vb, m)) by {
        stream_is_there(va, m);
        stream_is_there(vb, m);
        if in_a@.contains(m) {
            let k = choose|k: int| 0 <= k < in_a@.len() && in_a@[k] == m;
            assert(agree(stream(va, in_a@[k]), stream(vb, in_a@[k])));
        } else if in_b@.contains(m) {
            let k = choose|k: int| 0 <= k < in_b@.len() && in_b@[k] == m;
            assert(in_a@.contains(in_b@[k]));
        }
    }
    true
}

/// Messages that do not occur in the first run have no moved packets.
proof fn lemma_skip_absent(a: Seq<EntryView>, b: Seq<EntryView>, from: nat, to: nat)
    requires
        from <= to <= 0x1_0000,
        forall|m: MsgId| from <= m < to ==> !occurs(a, m),
    ensures
        shifts_below(a, b, to) == shifts_below(a, b, from),
    decreases to,
{
    if from < to {
        let m = (to - 1) as u16;
        lemma_skip_absent(a, b, from, (to - 1) as nat);
        stream_is_there(a, m);
        assert(shifts_below(a, b, (to - 1) as nat) + Seq::<Shift>::empty() =~= shifts_below(
            a,
            b,
            (to - 1) as nat,
        ));
    }
}

/// Is every message of the run that lies between `from` and `to` in `mids`, from
/// its place `k` on?
proof fn lemma_gap(a: Seq<EntryView>, mids: Seq<MsgId>, k: int, from: nat, to: nat)
    requires
        0 <= k <= mids.len(),
        forall|i: int, j: int| 0 <= i < j < mids.len() ==> mids[i] < mids[j],
        forall|m: MsgId| #[trigger] mids.contains(m) <==> occurs(a, m),
        k == 0 ==> from == 0,
        k > 0 ==> from == mids[k - 1] + 1,
        k < mids.len() ==> to == mids[k],
        k == mids.len() ==> to == 0x1_0000,
    ensures
        from <= to,
        forall|m: MsgId| from <= m < to ==> !occurs(a, m),
{
    assert forall|m: MsgId| from <= m < to implies !occurs(a, m) by {
        if mids.contains(m) {
            let i = choose|i: int| 0 <= i < mids.len() && mids[i] == m;
            if i < k {
                assert(i < k - 1 ==> mids[i] < mids[k - 1]);
            } else {
                assert(i > k ==> mids[k] < mids[i]);
            }
        }
    }
}

/// The packets whose tick placement moved between two runs.
pub fn moved_packets(a: &[Entry], b: &[Entry]) -> (out: Vec<Shift>)
    ensures
        out@ == differences(views(a@), views(b@)),
{
    let ghost va = views(a@);
    let ghost vb = views(b@);
    let mids: Vec<MsgId> = message_ids(a);
    let mut out: Vec<Shift> = Vec::new();
    let ghost mut done: nat = 0;
    let mut k: usize = 0;
    while k < mids.len()
        invariant
            k <= mids@.len(),
            va == views(a@),
            vb == views(b@),
            forall|i: int, j: int| 0 <= i < j < mids@.len() ==> mids@[i] < mids@[j],
            forall|m: MsgId| #[trigger] mids@.contains(m) <==> occurs(va, m),
            k == 0 ==> done == 0,
            k > 0 ==> done == mids@[k - 1] + 1,
            out@ == shifts_below(va, vb, done),
        decreases mids.len() - k,
    {
        let mid: MsgId = mids[k];
        let x: Vec<&Entry> = by_msg_id(a, mid);
        let y: Vec<&Entry> = by_msg_id(b, mid);
        let ghost xs = stream(va, mid);
        let ghost ys = stream(vb, mid);
        let ghost base = out@;
        proof {
            lemma_gap(va, mids@, k as int, done, mid as nat);
            lemma_skip_absent(va, vb, done, mid as nat);
            assert(base + shifts(mid, xs, ys, 0) =~= base);
        }
        let mut i: usize = 0;
        while i < x.len() && i < y.len()
            invariant
                i <= x@.len(),
                i <= y@.len(),
                xs == ref_views(x@),
                ys == ref_views(y@),
                out@ == base + shifts(mid, xs, ys, i as nat),
            decreases x.len() - i,
        {
            let s: Option<i64> = x[i].rel_time;
            let t: Option<i64> = y[i].rel_time;
            assert(xs[i as int].rel_time == s && ys[i as int].rel_time == t);
            let ghost front = shifts(mid, xs, ys, i as nat);
            if s != t {
                out.push((mid, s, t));
                assert(base + front.push((mid, s, t)) =~= (base + front).push((mid, s, t)));
            }
            i = i + 1;
        }
        proof {
            done = mid as nat + 1;
            assert(out@ == base + shifts_of(va, vb, mid));
        }
        k = k + 1;
    }
    proof {
        lemma_gap(va, mids@, k as int, done, 0x1_0000);
        lemma_skip_absent(va, vb, done, 0x1_0000);
    }
    out
}

/// By how many ticks a packet moved, where it had a time in both runs.
pub fn ticks_moved(s: &Shift) -> (ticks: u64)
    ensures
        ticks == shift_size(*s),
{
    match (s.1, s.2) {
        (Some(x), Some(y)) => if x >= y {
            (x as i128 - y as i128) as u64
        } else {
            (y as i128 - x as i128) as u64
        },
        _ => 0,
    }
}

/// The largest of the shifts, in ticks.
pub fn largest_shift(s: &Vec<Shift>) -> (max: u64)
    ensures
        max == max_shift(s@),
{
    let mut max: u64 = 0;
    let mut i: usize = 0;
    while i < s.len()
        invariant
            i <= s@.len(),
            max == max_shift(s@.take(i as int)),
        decreases s.len() - i,
    {
        assert(s@.take(i as int + 1).drop_last() =~= s@.take(i as int));
        let size: u64 = ticks_moved(&s[i]);
        if size > max {
            max = size;
        }
        i = i + 1;
    }
    assert(s@.take(s@.len() as int) =~= s@);
    max
}

/// Mark the offsets at which `p` and `q` differ, and say whether they differ at all.
fn mark_differences(p: &Vec<u8>, q: &Vec<u8>, marks: &mut Vec<bool>) -> (r: bool)
    ensures
        r == (p@ != q@),
        old(marks)@.len() <= final(marks)@.len(),
        forall|o: int|
            0 <= o < final(marks)@.len() ==> #[trigger] final(marks)@[o] == ((o < old(marks)@.len()
                && old(marks)@[o]) || bytes_differ(p@, q@, o)),
        forall|o: int| bytes_differ(p@, q@, o) ==> o < final(marks)@.len(),
{
    let ghost was = marks@;
    let mut differ: bool = p.len() != q.len();
    let mut o: usize = 0;
    while o < p.len() && o < q.len()
        invariant
            o <= p@.len(),
            o <= q@.len(),
            was.len() <= marks@.len(),
            o <= marks@.len(),
            forall|k: int|
                0 <= k < marks@.len() ==> #[trigger] marks@[k] == ((k < was.len() && was[k]) || (k < o
                    && bytes_differ(p@, q@, k))),
            differ == (p@.len() != q@.len() || exists|k: int|
                0 <= k < o && #[trigger] bytes_differ(p@, q@, k)),
        decreases p.len() - o,
    {
        let d: bool = p[o] != q[o];
        assert(d == bytes_differ(p@, q@, o as int));
        if o == marks.len() {
            marks.push(d);
        } else if d {
            marks.set(o, true);
        }
        differ = differ || d;
        o = o + 1;
    }
    proof {
        if differ {
            if p@.len() == q@.len() {
                let k = choose|k: int| 0 <= k < o && #[trigger] bytes_differ(p@, q@, k);
                assert(p@[k] != q@[k]);
            }
        } else {
            assert forall|k: int| 0 <= k < p@.len() implies p@[k] == q@[k] by {
                assert(!bytes_differ(p@, q@, k));
            }
            assert(p@ =~= q@);
        }
    }
    differ
}

/// The offsets that are marked, in ascending order.
fn marked(marks: &Vec<bool>) -> (out: Vec<usize>)
    ensures
        forall|i: int, j: int| 0 <= i < j < out@.len() ==> #[trigger] out@[i] < #[trigger] out@[j],
        forall|o: usize| #[trigger] out@.contains(o) <==> o < marks@.len() && marks@[o as int],
{
    let mut out: Vec<usize> = Vec::new();
    let mut o: usize = 0;
    while o < marks.len()
        invariant
            o <= marks@.len(),
            forall|i: int| 0 <= i < out@.len() ==> #[trigger] out@[i] < o && marks@[out@[i] as int],
            forall|i: int, j: int|
                0 <= i < j < out@.len() ==> #[trigger] out@[i] < #[trigger] out@[j],
            forall|k: usize| k < o && marks@[k as int] ==> #[trigger] out@.contains(k),
        decreases marks.len() - o,
    {
        if marks[o] {
            let ghost was = out@;
            out.push(o);
            assert forall|k: usize| k < o + 1 && marks@[k as int] implies #[trigger] out@.contains(
                k,
            ) by {
                if k < o {
                    assert(was.contains(k));
                    let i = choose|i: int| 0 <= i < was.len() && was[i] == k;
                    assert(out@[i] == k);
                } else {
                    assert(out@[out@.len() - 1] == k);
                }
            }
        }
        o = o + 1;
    }
    out
}

/// Compare the contents of one message's packets, pair by pair.
fn compare_contents(mid: MsgId, x: &Vec<&Entry>, y: &Vec<&Entry>) -> (r: PayloadDiff)
    ensures
        ({
            let xs = ref_views(x@);
            let ys = ref_views(y@);
            let n = common(xs, ys);
            &&& r.0 == mid
            &&& r.1 == n
            &&& r.2 == differing(xs, ys, n)
            &&& forall|i: int, j: int|
                0 <= i < j < r.3@.len() ==> #[trigger] r.3@[i] < #[trigger] r.3@[j]
            &&& forall|o: usize| #[trigger] r.3@.contains(o) <==> unstable(xs, ys, n, o as int)
        }),
{
    let ghost xs = ref_views(x@);
    let ghost ys = ref_views(y@);
    let mut marks: Vec<bool> = Vec::new();
    let mut count: usize = 0;
    let mut i: usize = 0;
    while i < x.len() && i < y.len()
        invariant
            i <= x@.len(),
            i <= y@.len(),
            xs == ref_views(x@),
            ys == ref_views(y@),
            count <= i,
            count == differing(xs, ys, i as nat),
            forall|o: int| 0 <= o < marks@.len() && #[trigger] marks@[o] ==> unstable(
                xs,
                ys,
                i as nat,
                o,
            ),
            forall|o: int| #[trigger] unstable(xs, ys, i as nat, o) ==> 0 <= o < marks@.len()
                && marks@[o],
        decreases x.len() - i,
    {
        let ghost was = marks@;
        let d: bool = mark_differences(&x[i].payload, &y[i].payload, &mut marks);
        proof {
            let p = xs[i as int].payload;
            let q = ys[i as int].payload;
            assert(p == x@[i as int].payload@ && q == y@[i as int].payload@);
            assert forall|o: int| 0 <= o < marks@.len() && #[trigger] marks@[o] implies unstable(
                xs,
                ys,
                i as nat + 1,
                o,
            ) by {
                if bytes_differ(p, q, o) {
                    assert(bytes_differ(xs[i as int].payload, ys[i as int].payload, o));
                } else {
                    assert(was[o]);
                    assert(unstable(xs, ys, i as nat, o));
                    let k = choose|k: int|
                        0 <= k < i && bytes_differ(#[trigger] xs[k].payload, ys[k].payload, o);
                    assert(bytes_differ(xs[k].payload, ys[k].payload, o));
                }
            }
            assert forall|o: int| #[trigger] unstable(xs, ys, i as nat + 1, o) implies 0 <= o
                < marks@.len() && marks@[o] by {
                let k = choose|k: int|
                    0 <= k < i + 1 && bytes_differ(#[trigger] xs[k].payload, ys[k].payload, o);
                if k < i {
                    assert(unstable(xs, ys, i as nat, o));
                    assert(was[o]);
                } else {
                    assert(bytes_differ(p, q, o));
                }
            }
        }
        if d {
            count = count + 1;
        }
        i = i + 1;
    }
    let offsets: Vec<usize> = marked(&marks);
    assert forall|o: usize| #[trigger] offsets@.contains(o) <==> unstable(
        xs,
        ys,
        i as nat,
        o as int,
    ) by {
        if unstable(xs, ys, i as nat, o as int) {
            assert(marks@[o as int]);
        }
    }
    (mid, i, count, offsets)
}

/// A line of the report, and a line that is owed.
#[verifier::opaque]
spec fn line(a: Seq<EntryView>, b: Seq<EntryView>, r: PayloadDiff) -> bool {
    payload_report(a, b, r) && contents_differ(a, b, r.0)
}

#[verifier::opaque]
spec fn owed(a: Seq<EntryView>, b: Seq<EntryView>, mid: MsgId) -> bool {
    contents_differ(a, b, mid)
}

/// The report, as far as the first `k` messages go.
spec fn reported(
    a: Seq<EntryView>,
    b: Seq<EntryView>,
    mids: Seq<MsgId>,
    k: int,
    out: Seq<PayloadDiff>,
) -> bool {
    &&& forall|i: int| 0 <= i < out.len() ==> line(a, b, #[trigger] out[i])
    &&& forall|i: int, j: int| 0 <= i < j < out.len() ==> (#[trigger] out[i]).0 < (#[trigger] out[j]).0
    &&& out.len() > 0 ==> k > 0 && out.last().0 <= mids[k - 1]
    &&& forall|l: int| 0 <= l < k && owed(a, b, #[trigger] mids[l]) ==> listed(out, mids[l])
}

proof fn lemma_add_line(
    a: Seq<EntryView>,
    b: Seq<EntryView>,
    mids: Seq<MsgId>,
    k: int,
    out: Seq<PayloadDiff>,
    r: PayloadDiff,
)
    requires
        reported(a, b, mids, k, out),
        0 <= k < mids.len(),
        k > 0 ==> mids[k - 1] < mids[k],
        line(a, b, r),
        r.0 == mids[k],
    ensures
        reported(a, b, mids, k + 1, out.push(r)),
{
    let new = out.push(r);
    assert forall|l: int| 0 <= l < k + 1 && owed(a, b, #[trigger] mids[l]) implies listed(
        new,
        mids[l],
    ) by {
        if l < k {
            let i = choose|i: int| 0 <= i < out.len() && (#[trigger] out[i]).0 == mids[l];
            assert(new[i].0 == mids[l]);
        } else {
            assert(new[out.len() as int].0 == mids[l]);
        }
    }
    assert forall|i: int, j: int| 0 <= i < j < new.len() implies (#[trigger] new[i]).0 < (
    #[trigger] new[j]).0 by {
        if j == out.len() {
            assert(i < out.len() - 1 ==> out[i].0 < out[out.len() - 1].0);
        }
    }
}

/// Where two runs' packet contents differ, message by message.
pub fn changed_contents(a: &[Entry], b: &[Entry]) -> (out: Vec<PayloadDiff>)
    ensures
        payload_differences(views(a@), views(b@), out@),
{
    let ghost va = views(a@);
    let ghost vb = views(b@);
    let mids: Vec<MsgId> = message_ids(a);
    let mut out: Vec<PayloadDiff> = Vec::new();
    let mut k: usize = 0;
    while k < mids.len()
        invariant
            k <= mids@.len(),
            va == views(a@),
            vb == views(b@),
            forall|i: int, j: int| 0 <= i < j < mids@.len() ==> mids@[i] < mids@[j],
            reported(va, vb, mids@, k as int, out@),
        decreases mids.len() - k,
    {
        let r: PayloadDiff = compare_message(a, b, mids[k]);
        if r.2 > 0 {
            proof {
                lemma_add_line(va, vb, mids@, k as int, out@, r);
            }
            out.push(r);
        }
        k = k + 1;
    }
    proof {
        reveal(line);
        reveal(owed);
        assert forall|m: MsgId| #[trigger] contents_differ(va, vb, m) implies listed(out@, m) by {
            stream_is_there(va, m);
            assert(mids@.contains(m));
            let l = choose|l: int| 0 <= l < mids@.len() && mids@[l] == m;
            assert(owed(va, vb, mids@[l]));
        }
    }
    out
}

/// Compare the contents of one message's packets in two runs.
fn compare_message(a: &[Entry], b: &[Entry], mid: MsgId) -> (r: PayloadDiff)
    ensures
        r.0 == mid,
        r.2 > 0 ==> line(views(a@), views(b@), r),
        r.2 == 0 ==> !owed(views(a@), views(b@), mid),
{
    let x: Vec<&Entry> = by_msg_id(a, mid);
    let y: Vec<&Entry> = by_msg_id(b, mid);
    let r: PayloadDiff = compare_contents(mid, &x, &y);
    proof {
        reveal(line);
        reveal(owed);
    }
    r
}

} // verus!
