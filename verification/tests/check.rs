//! The verdict on two runs.

use besom::ccsds::TlmPacket;
use besom::check::{compare, Verdict};
use besom::transcript::Transcript;

fn pkt(msg_id: u16, seq: u16, secs: u32, subsecs: u16) -> TlmPacket {
    TlmPacket { msg_id, seq, secs, subsecs, len: 32, payload: vec![0; 20] }
}

fn run(packets: &[TlmPacket]) -> Transcript {
    let mut t = Transcript::new();
    for p in packets {
        t.record(p);
    }
    t.finish()
}

fn steady() -> Transcript {
    run(&[pkt(0x0800, 1, 10, 0), pkt(0x0880, 1, 11, 0)])
}

/// As `steady`, with one packet five ticks late.
fn shifted() -> Transcript {
    run(&[pkt(0x0800, 1, 10, 0), pkt(0x0880, 1, 11, 3277)])
}

#[test]
fn nothing_recorded_is_nothing_verified() {
    let empty = Transcript::new();
    for (a, b) in [(&empty, &empty), (&steady(), &empty), (&empty, &steady())] {
        let c = compare(a, b, 0, 0, true);
        assert_eq!(c.verdict, Verdict::NoTelemetry);
        assert!(!c.verdict.passes());
    }
    assert!(empty.same_stream(&Transcript::new()), "and yet they compare equal");
}

#[test]
fn different_streams_fail_whatever_the_host_did() {
    let other = run(&[pkt(0x0800, 1, 10, 0), pkt(0x0881, 1, 11, 0)]);
    for stalls in [0, 3] {
        for coop in [false, true] {
            let c = compare(&steady(), &other, stalls, 0, coop);
            assert_eq!(c.verdict, Verdict::StreamsDiffer);
            assert!(!c.verdict.passes());
        }
    }
}

#[test]
fn identical_runs_pass() {
    let c = compare(&steady(), &steady(), 2, 3, true);
    assert_eq!(c.verdict, Verdict::Reproducible);
    assert!(c.verdict.passes());
    assert_eq!(c.stalls, 5);
    assert!(c.shifted.is_empty());
    assert_eq!(c.max_shift, 0);
}

#[test]
fn moved_placement_fails_where_it_is_guaranteed() {
    let c = compare(&steady(), &shifted(), 0, 0, true);
    assert_eq!(c.verdict, Verdict::PlacementMoved);
    assert!(!c.verdict.passes());
    assert_eq!(c.shifted, vec![(0x0880, 5)]);
    assert_eq!(c.max_shift, 5);
}

#[test]
fn moved_placement_on_a_stalled_host_says_nothing() {
    for (a, b) in [(1, 0), (0, 1), (u64::MAX, u64::MAX)] {
        let c = compare(&steady(), &shifted(), a, b, true);
        assert_eq!(c.verdict, Verdict::Inconclusive);
        assert!(!c.verdict.passes());
        assert_eq!(c.stalls, u128::from(a) + u128::from(b));
    }
}

#[test]
fn without_cooperative_scheduling_the_stream_alone_counts() {
    for stalls in [0, 4] {
        let c = compare(&steady(), &shifted(), stalls, 0, false);
        assert_eq!(c.verdict, Verdict::StreamOnly);
        assert!(c.verdict.passes());
        assert_eq!(c.shifted.len(), 1);
    }
}

#[test]
fn a_lost_packet_fails_the_check() {
    let sent: Vec<TlmPacket> = (0..6u16).map(|i| pkt(0x08F0, 70 + i, 10 + u32::from(i), 0)).collect();
    let mut received = sent.clone();
    received.remove(3);
    let c = compare(&run(&sent), &run(&received), 0, 0, true);
    assert_eq!(c.verdict, Verdict::StreamsDiffer);
    assert_eq!(compare(&run(&sent), &run(&sent[..5]), 0, 0, true).verdict, Verdict::Reproducible);
}

#[test]
fn boot_history_does_not_fail_the_check() {
    let fly = |epoch: u32, counters: u16| {
        let packets: Vec<TlmPacket> = (0..40u16)
            .map(|i| pkt(0x0880 + i % 3, (counters + i / 3) % 0x4000, epoch + u32::from(i), 0))
            .collect();
        run(&packets)
    };
    let c = compare(&fly(1_001_001, 35), &fly(1_001_006, 0x3FFA), 0, 0, true);
    assert_eq!(c.verdict, Verdict::Reproducible);
}

#[test]
fn a_duplicated_packet_fails_the_check() {
    let sent: Vec<TlmPacket> = (0..6u16).map(|i| pkt(0x08F0, 70 + i, 10 + u32::from(i), 0)).collect();
    let mut received = sent.clone();
    received.insert(3, sent[3].clone());
    assert!(!compare(&run(&sent), &run(&received), 0, 0, true).verdict.passes());
    assert!(!compare(&run(&sent), &run(&received), 0, 0, false).verdict.passes());
}

#[test]
fn order_within_a_tick_does_not_fail_the_check() {
    let sent = [
        pkt(0x0808, 1, 9, 0),
        pkt(0x0800, 1, 10, 0),
        pkt(0x0880, 1, 10, 0),
        pkt(0x0808, 2, 10, 0),
        pkt(0x0880, 2, 11, 655),
        pkt(0x0800, 2, 11, 655),
    ];
    let order = |places: [usize; 6]| run(&places.map(|i| sent[i].clone()));
    let a = order([0, 1, 2, 3, 4, 5]);
    for b in [order([0, 2, 1, 3, 5, 4]), order([0, 1, 3, 2, 4, 5]), order([0, 2, 3, 1, 5, 4])] {
        assert_eq!(compare(&a, &b, 0, 0, true).verdict, Verdict::Reproducible);
    }
}

#[test]
fn an_event_ahead_of_the_anchor_has_no_tick() {
    // At the anchor's own instant, an event that comes first is recorded without a tick.
    let a = run(&[pkt(0x0800, 1, 10, 0), pkt(0x0808, 1, 10, 0)]);
    let b = run(&[pkt(0x0808, 1, 10, 0), pkt(0x0800, 1, 10, 0)]);
    assert_eq!(compare(&a, &b, 0, 0, true).verdict, Verdict::PlacementMoved);
}

#[test]
fn a_lost_packet_fails_the_check_with_events_ahead_of_the_anchor() {
    let mut sent = vec![pkt(0x0808, 5, 9, 0)];
    for i in 0..6u16 {
        sent.push(pkt(0x0800, i, 10 + u32::from(i), 0));
        sent.push(pkt(0x0808, 6 + i, 10 + u32::from(i), 0));
    }
    // Neither a periodic packet nor an event may go missing from within its stream.
    for lost in 2..sent.len() - 2 {
        let mut received = sent.clone();
        received.remove(lost);
        for coop in [false, true] {
            let c = compare(&run(&sent), &run(&received), 0, 0, coop);
            assert_eq!(c.verdict, Verdict::StreamsDiffer, "without packet {lost}");
        }
    }
}

#[test]
fn a_gap_fails_the_check_though_the_counts_agree() {
    let good = run(&[pkt(0x0800, 1, 10, 0), pkt(0x0800, 2, 11, 0), pkt(0x0800, 3, 12, 0)]);
    let gapped = run(&[pkt(0x0800, 1, 10, 0), pkt(0x0800, 3, 11, 0), pkt(0x0800, 4, 12, 0)]);
    assert!(!compare(&good, &gapped, 0, 0, true).verdict.passes());
    // A doubled packet at the end is the one trailing packet that is forgiven.
    let trailing = run(&[
        pkt(0x0800, 1, 10, 0),
        pkt(0x0800, 2, 11, 0),
        pkt(0x0800, 3, 12, 0),
        pkt(0x0800, 3, 12, 0),
    ]);
    assert!(compare(&good, &trailing, 0, 0, true).verdict.passes());
}

#[test]
fn contents_do_not_decide_the_check() {
    let fly = |fill: u8| {
        let packets: Vec<TlmPacket> = (0..6u16)
            .map(|i| TlmPacket {
                payload: vec![fill; usize::from(fill % 7)],
                ..pkt(0x0800 + i % 2, i / 2, 10 + u32::from(i), 0)
            })
            .collect();
        run(&packets)
    };
    let c = compare(&fly(0xAA), &fly(0x55), 0, 0, true);
    assert_eq!(c.verdict, Verdict::Reproducible);
    assert_eq!(fly(0xAA).payload_differences(&fly(0x55)).len(), 2);
}
