//! Transcripts: recording, finishing and comparing runs.

use besom::ccsds::{MsgId, TlmPacket, EVS_EVENT_MID};
use besom::transcript::Transcript;


fn pkt(msg_id: MsgId, seq: u16, secs: u32, subsecs: u16) -> TlmPacket {
    TlmPacket { msg_id, seq, secs, subsecs, len: 32, payload: vec![0; 20] }
}

#[test]
fn payload_is_retained_but_not_yet_asserted_on() {
    // Contents are kept for a report of their own. Two runs whose payloads differ must
    // still compare equal, or `check` goes permanently red.
    let mut a = Transcript::new();
    let mut b = Transcript::new();

    let mut pa = pkt(0x0800, 1, 100, 0);
    let mut pb = pkt(0x0800, 1, 100, 0);
    pa.payload = vec![0xAA; 20];
    pb.payload = vec![0xBB; 20];
    a.record(&pa);
    b.record(&pb);

    let (a, b) = (a.finish(), b.finish());
    assert_eq!(a.entries()[0].payload, vec![0xAA; 20], "payload must survive into the entry");
    assert_ne!(a.entries()[0].payload, b.entries()[0].payload);
    assert!(a.same_stream(&b), "payload must not yet affect the verdict");
}

#[test]
fn payload_differences_names_the_unstable_field_not_the_packet() {
    // A counter at a fixed offset is ONE unstable field however many packets carry it, so
    // offsets are unioned across the MID. That is the difference between a work list of
    // "one counter in ES housekeeping" and one of "seven packets differ".
    let (mut a, mut b) = (Transcript::new(), Transcript::new());
    for seq in 1..=3u16 {
        let mut pa = pkt(0x0800, seq, 100 + u32::from(seq), 0);
        let mut pb = pkt(0x0800, seq, 100 + u32::from(seq), 0);
        pa.payload = vec![0; 20];
        pb.payload = vec![0; 20];
        pb.payload[7] = 0xFF; // same offset every packet: one field
        a.record(&pa);
        b.record(&pb);
    }

    let d = a.finish().payload_differences(&b.finish());
    assert_eq!(d.len(), 1, "one MID");
    let (mid, compared, differing, offsets) = &d[0];
    assert_eq!(*mid, 0x0800);
    assert_eq!((*compared, *differing), (3, 3));
    assert_eq!(offsets, &vec![7], "three packets, one unstable field");
}

#[test]
fn payload_differences_is_empty_when_contents_match() {
    let (mut a, mut b) = (Transcript::new(), Transcript::new());
    a.record(&pkt(0x0800, 1, 100, 0));
    b.record(&pkt(0x0800, 1, 100, 0));
    assert!(a.finish().payload_differences(&b.finish()).is_empty());
}

#[test]
fn anchors_on_the_first_periodic_packet_not_the_event_stream() {
    let mut t = Transcript::new();
    t.record(&pkt(EVS_EVENT_MID, 1, 100, 0)); // async, pre-anchor
    t.record(&pkt(0x0800, 1, 110, 0)); // first periodic -> t=0
    let t = t.finish();

    let evs = t.entries().iter().find(|e| e.msg_id == EVS_EVENT_MID).unwrap();
    let hk = t.entries().iter().find(|e| e.msg_id == 0x0800).unwrap();

    assert_eq!(evs.rel_time, None, "event stream must not anchor the run");
    assert_eq!(hk.rel_time, Some(0));
}

#[test]
fn absolute_epoch_shift_does_not_change_the_transcript() {
    // cFE TIME's boot epoch lands on a 5-second quantum that varies run to
    // run. The same run at a different epoch must render identically.
    let build = |base: u32| {
        let mut t = Transcript::new();
        t.record(&pkt(0x0800, 1, base, 0));
        t.record(&pkt(0x0801, 1, base + 1, 0));
        t.finish()
    };

    assert_eq!(build(1_001_001).render(), build(1_001_006).render());
}

#[test]
fn sequence_deltas_survive_a_different_boot_history() {
    // Absolute counters differ (boot emitted a different number of events);
    // the deltas -- which is what actually detects a dropped packet -- do not.
    let build = |start: u16| {
        let mut t = Transcript::new();
        t.record(&pkt(0x0800, start, 10, 0));
        t.record(&pkt(0x0800, start + 1, 11, 0));
        t.finish()
    };

    assert!(build(32).same_stream(&build(79)));
}

#[test]
fn one_trailing_packet_is_a_boundary_effect_not_a_defect() {
    // A periodic app's timer is armed during un-gated boot, so over a fixed
    // tick budget it can fire N or N+1 times. The run's edge moved; nothing
    // was lost.
    let build = |n: u16| {
        let mut t = Transcript::new();
        for i in 0..n {
            t.record(&pkt(0x08F0, i + 1, 10 + u32::from(i), 0));
        }
        t.finish()
    };

    assert!(build(300).same_stream(&build(299)), "a trailing packet is the boundary");
    assert!(!build(300).same_stream(&build(297)), "three is not a boundary");
}

#[test]
fn a_drop_still_fails_even_though_the_boundary_is_forgiven() {
    // The guarantee that makes forgiving the boundary safe: an interior drop
    // shows up as a sequence delta != 1 and is caught in the common prefix.
    let mut good = Transcript::new();
    for i in 0..10u16 {
        good.record(&pkt(0x08F0, i + 1, 10 + u32::from(i), 0));
    }

    let mut dropped = Transcript::new();
    for i in 0..10u16 {
        // Same packet count, but seq jumps in the middle: one never arrived.
        let seq = if i < 5 { i + 1 } else { i + 2 };
        dropped.record(&pkt(0x08F0, seq, 10 + u32::from(i), 0));
    }

    assert!(!good.finish().same_stream(&dropped.finish()), "an interior drop must fail");
}

#[test]
fn a_dropped_packet_is_still_caught() {
    let mut good = Transcript::new();
    good.record(&pkt(0x0800, 1, 10, 0));
    good.record(&pkt(0x0800, 2, 11, 0));

    let mut dropped = Transcript::new();
    dropped.record(&pkt(0x0800, 1, 10, 0));
    dropped.record(&pkt(0x0800, 3, 11, 0)); // gap: seq jumped

    assert!(!good.finish().same_stream(&dropped.finish()), "seq gap must fail");
}

#[test]
fn same_tick_order_is_not_asserted_but_cross_tick_order_is() {
    // Two packets in the SAME tick, emitted in opposite order.
    let mut a = Transcript::new();
    a.record(&pkt(0x0800, 1, 10, 0));
    a.record(&pkt(0x08b0, 1, 10, 0));
    a.record(&pkt(0x0801, 1, 10, 0));

    let mut b = Transcript::new();
    b.record(&pkt(0x0800, 1, 10, 0));
    b.record(&pkt(0x0801, 1, 10, 0));
    b.record(&pkt(0x08b0, 1, 10, 0));

    assert!(a.finish().same_stream(&b.finish()), "same-instant order is the scheduler's choice");
}

#[test]
fn a_slipped_packet_does_not_cascade_into_a_false_stream_mismatch() {
    // The trap: entries are sorted by time, so if one packet slips a tick it
    // lands on the other side of its neighbour. Comparing the two runs
    // positionally then reports EVERY subsequent packet as different, and a
    // pure scheduling artifact masquerades as a broken telemetry stream.
    // Grouping by MID first is what keeps the two questions separate.
    let mut a = Transcript::new();
    a.record(&pkt(0x0880, 1, 10, 0)); // before 0x0800
    a.record(&pkt(0x0800, 1, 10, 655));
    let a = a.finish();

    let mut b = Transcript::new();
    b.record(&pkt(0x0880, 1, 10, 1310)); // slipped past 0x0800
    b.record(&pkt(0x0800, 1, 10, 655));
    let b = b.finish();

    assert!(a.same_stream(&b), "a tick slip is not a stream change");
    assert_eq!(a.differences(&b).len(), 1, "only the slipped packet is reported");
}

#[test]
fn one_tick_of_jitter_keeps_the_stream_but_shows_up_as_a_shift() {
    let mut a = Transcript::new();
    a.record(&pkt(0x0800, 1, 10, 0));
    a.record(&pkt(0x0880, 1, 11, 0));
    let a = a.finish();

    // 0x0880 slipped one tick (10 ms = 655.36 subsecond units).
    let mut b = Transcript::new();
    b.record(&pkt(0x0800, 1, 10, 0));
    b.record(&pkt(0x0880, 1, 11, 655));
    let b = b.finish();

    assert!(a.same_stream(&b), "the stream is unchanged");
    assert_eq!(a.differences(&b).len(), 1);
    assert!((a.max_shift_ticks(&b) as f64 - 1.0).abs() < 0.01, "exactly one tick");
}

fn finished(packets: &[TlmPacket]) -> Transcript {
    let mut t = Transcript::new();
    for p in packets {
        t.record(p);
    }
    t.finish()
}

fn times(t: &Transcript) -> Vec<(MsgId, Option<i64>)> {
    t.entries().iter().map(|e| (e.msg_id, e.rel_time)).collect()
}

#[test]
fn a_new_transcript_is_empty() {
    let t = Transcript::new();
    assert!(t.is_empty());
    assert_eq!(t.len(), 0);
    assert_eq!(t.render(), "");
    assert!(Transcript::default().same_stream(&t));
    assert_eq!(t.first_stamp_secs(0x0800), None);
}

#[test]
fn times_snap_to_the_tick_grid() {
    // 655 units are one tick less a rounding error; so are 656. Half a tick is
    // 327.68 units, and the field cannot hold it.
    for (subsecs, ticks) in [(0, 0), (327, 0), (328, 1), (655, 1), (656, 1), (983, 1), (984, 2)] {
        let t = finished(&[pkt(0x0800, 1, 50, 0), pkt(0x0801, 1, 50, subsecs)]);
        assert_eq!(t.entries()[1].rel_time, Some(ticks), "{subsecs} units");
        let back = finished(&[pkt(0x0800, 1, 50, subsecs), pkt(0x0801, 1, 50, 0)]);
        let other = back.entries().iter().find(|e| e.msg_id == 0x0801).unwrap();
        assert_eq!(other.rel_time, Some(-ticks), "{subsecs} units back");
    }
}

#[test]
fn a_tick_recorded_on_any_second_is_the_same_tick() {
    // Whole ticks, rounded to the nearest 1/65536 s, from different seconds on.
    for base in [0u32, 1, 5, 1_000_001] {
        for n in 0..500u32 {
            let usec = u64::from(n) * 10_000;
            let stamp = (usec * 65536 + 500_000) / 1_000_000;
            let t = finished(&[
                pkt(0x0800, 1, base, 0),
                pkt(0x0801, 1, base + (stamp >> 16) as u32, (stamp & 0xFFFF) as u16),
            ]);
            let e = t.entries().iter().find(|e| e.msg_id == 0x0801).unwrap();
            assert_eq!(e.rel_time, Some(i64::from(n)));
        }
    }
}

#[test]
fn sequence_counters_wrap_at_fourteen_bits() {
    let t = finished(&[
        pkt(0x0800, 0x3FFF, 1, 0),
        pkt(0x0800, 0, 2, 0),
        pkt(0x0800, 0, 3, 0),
        pkt(0x0800, 5, 4, 0),
        pkt(0x0800, 4, 5, 0),
    ]);
    let deltas: Vec<Option<u16>> = t.entries().iter().map(|e| e.seq_delta).collect();
    assert_eq!(deltas, vec![None, Some(1), Some(0), Some(5), Some(0x3FFF)]);
}

#[test]
fn a_finished_run_is_in_order_of_time_then_message() {
    let t = finished(&[
        pkt(EVS_EVENT_MID, 1, 5, 0), // before the anchor
        pkt(0x0883, 1, 10, 0),
        pkt(0x0800, 1, 11, 0),
        pkt(0x0805, 1, 10, 0),
        pkt(0x0801, 1, 9, 0), // stamped before the anchor
        pkt(0x0800, 2, 11, 0),
    ]);
    assert_eq!(
        times(&t),
        vec![
            (0x0801, Some(-100)),
            (0x0805, Some(0)),
            (0x0883, Some(0)),
            (0x0800, Some(100)),
            (0x0800, Some(100)),
            (EVS_EVENT_MID, None),
        ]
    );
    assert_eq!(t.entries()[3].seq_delta, None, "as recorded within a message");
    assert_eq!(t.entries()[4].seq_delta, Some(1));
}

#[test]
fn same_instant_packets_finish_in_one_order() {
    let a = finished(&[pkt(0x0800, 1, 10, 0), pkt(0x08b0, 1, 10, 0), pkt(0x0801, 1, 10, 0)]);
    let b = finished(&[pkt(0x0800, 1, 10, 0), pkt(0x0801, 1, 10, 0), pkt(0x08b0, 1, 10, 0)]);
    assert_eq!(a.entries(), b.entries());
    assert_eq!(a.render(), b.render());
}

#[test]
fn a_whole_stream_more_or_less_is_no_boundary() {
    let one = finished(&[pkt(0x0800, 1, 10, 0)]);
    let two = finished(&[pkt(0x0800, 1, 10, 0), pkt(0x0801, 1, 10, 0)]);
    assert!(!one.same_stream(&two));
    assert!(!two.same_stream(&one));
}

#[test]
fn a_duplicated_packet_is_caught() {
    let good: Vec<TlmPacket> = (0..5u16).map(|i| pkt(0x0800, i, 10 + u32::from(i), 0)).collect();
    let mut doubled = good.clone();
    doubled.insert(2, good[2].clone());
    assert!(!finished(&good).same_stream(&finished(&doubled)));
}

#[test]
fn a_length_is_part_of_the_stream() {
    let mut longer = pkt(0x0800, 1, 10, 0);
    longer.len = 33;
    assert!(!finished(&[pkt(0x0800, 1, 10, 0)]).same_stream(&finished(&[longer])));
}

#[test]
fn the_verdict_does_not_depend_on_the_order_of_the_runs() {
    let a = finished(&[pkt(0x0800, 1, 10, 0), pkt(0x0800, 2, 11, 0)]);
    let b = finished(&[pkt(0x0800, 1, 10, 0)]);
    assert_eq!(a.same_stream(&b), b.same_stream(&a));
    assert!(a.same_stream(&a));
}

#[test]
fn differences_come_by_message_and_then_in_sequence() {
    let a = finished(&[
        pkt(0x0800, 1, 10, 0),
        pkt(0x0883, 1, 11, 0),
        pkt(0x0880, 1, 12, 0),
        pkt(0x0883, 2, 13, 0),
        pkt(0x0884, 1, 13, 0),
    ]);
    let b = finished(&[
        pkt(0x0800, 1, 10, 0),
        pkt(0x0883, 1, 12, 0),
        pkt(0x0880, 1, 12, 655),
        pkt(0x0883, 2, 13, 655),
    ]);
    assert_eq!(
        a.differences(&b),
        vec![
            (0x0880, Some(200), Some(201)),
            (0x0883, Some(100), Some(200)),
            (0x0883, Some(300), Some(301)),
        ]
    );
    assert_eq!(a.max_shift_ticks(&b), 100);
    assert_eq!(b.max_shift_ticks(&a), 100);
    assert!(a.differences(&a).is_empty());
    assert_eq!(a.max_shift_ticks(&a), 0);
}

#[test]
fn a_packet_without_a_time_moves_by_no_ticks() {
    let a = finished(&[pkt(EVS_EVENT_MID, 1, 5, 0), pkt(0x0800, 1, 10, 0)]);
    let b = finished(&[pkt(0x0800, 1, 10, 0), pkt(EVS_EVENT_MID, 1, 10, 0)]);
    assert_eq!(a.differences(&b), vec![(EVS_EVENT_MID, None, Some(0))]);
    assert_eq!(a.max_shift_ticks(&b), 0);
}

#[test]
fn payload_differences_count_pairs_and_offsets() {
    let with = |mid: MsgId, seq: u16, bytes: &[u8]| {
        let mut p = pkt(mid, seq, 10 + u32::from(seq), 0);
        p.payload = bytes.to_vec();
        p
    };
    let a = finished(&[
        with(0x0801, 1, &[1, 2, 3, 4]),
        with(0x0801, 2, &[1, 2, 3, 4]),
        with(0x0801, 3, &[1, 2, 3, 4]),
        with(0x0800, 1, &[9]),
        with(0x0800, 2, &[9, 9]),
        with(0x0805, 1, &[7]),
    ]);
    let b = finished(&[
        with(0x0801, 1, &[1, 0, 3, 0]),
        with(0x0801, 2, &[1, 2, 3, 4]),
        with(0x0801, 3, &[0, 2, 3, 4]),
        with(0x0801, 4, &[0, 0, 0, 0]),
        with(0x0800, 1, &[9]),
        with(0x0800, 2, &[9]),
        with(0x0805, 1, &[7]),
    ]);
    assert_eq!(
        a.payload_differences(&b),
        vec![(0x0800, 2, 1, vec![]), (0x0801, 3, 2, vec![0, 1, 3])]
    );
}

#[test]
fn the_first_stamp_of_a_message_is_the_flight_softwares_own() {
    // 655 units are not a whole tick: the stamp is not snapped to the grid.
    let t = finished(&[pkt(0x0800, 1, 10, 0), pkt(0x0880, 1, 11, 655)]);
    let secs = |mid: MsgId| t.first_stamp_secs(mid).map(|s| s as f64 / 65536.0);
    assert_eq!(secs(0x0880), Some(11.0 + 655.0 / 65536.0));
    assert_eq!(secs(0x0800), Some(10.0));
    assert_eq!(secs(0x0803), None);
}

#[test]
fn a_first_stamp_follows_the_order_of_the_entries() {
    let packets = [pkt(0x0801, 1, 10, 0), pkt(0x0800, 1, 12, 0), pkt(0x0800, 2, 11, 3)];
    let mut t = Transcript::new();
    for p in &packets {
        t.record(p);
    }
    assert_eq!(t.first_stamp_secs(0x0800), Some(12 * 65536), "as recorded");
    let mut t = t.finish();
    assert_eq!(t.first_stamp_secs(0x0800), Some(11 * 65536 + 3), "by tick, once finished");
    assert_eq!(t.first_stamp_secs(0x0801), Some(10 * 65536));
    // A run that goes on stands as it is until it is finished again.
    t.record(&pkt(0x0800, 3, 9, 0));
    t.record(&pkt(0x0805, 1, 8, 0));
    assert_eq!(t.first_stamp_secs(0x0800), Some(11 * 65536 + 3));
    assert_eq!(t.first_stamp_secs(0x0805), Some(8 * 65536));
    assert_eq!(t.finish().first_stamp_secs(0x0800), Some(9 * 65536));
}

#[test]
fn packets_of_one_tick_stay_as_recorded() {
    let t = finished(&[pkt(0x0801, 1, 10, 0), pkt(0x0800, 1, 11, 9), pkt(0x0800, 2, 11, 2)]);
    assert_eq!(t.first_stamp_secs(0x0800), Some(11 * 65536 + 9));
}

#[test]
fn a_first_stamp_needs_no_anchor() {
    let t = finished(&[
        pkt(EVS_EVENT_MID, 1, 5, 7),
        pkt(0x0801, 1, 12, 0),
        pkt(EVS_EVENT_MID, 2, 13, 0),
    ]);
    assert_eq!(t.first_stamp_secs(EVS_EVENT_MID), Some(5 * 65536 + 7));
    assert_eq!(finished(&[pkt(EVS_EVENT_MID, 1, 5, 7)]).first_stamp_secs(EVS_EVENT_MID), Some(5 * 65536 + 7));
    assert_eq!(t.first_stamp_secs(0x0999), None);
}

#[test]
fn a_zero_reached_from_below_keeps_its_sign() {
    let early = finished(&[pkt(0x0800, 1, 10, 100), pkt(0x0801, 1, 10, 0)]);
    assert_eq!(
        early.render(),
        "0800 first  t=+000.00000 len=32\n0801 first  t=+-00.00000 len=32\n"
    );
    assert_eq!(format!("+{:09.5}", -0.0f64), "+-00.00000");
    // It is a zero all the same: nothing moved, and the entries say the same.
    let sharp = finished(&[pkt(0x0800, 1, 10, 100), pkt(0x0801, 1, 10, 100)]);
    assert!(early.differences(&sharp).is_empty());
    assert_eq!(early.entries(), sharp.entries());
    assert_eq!(early.entries()[1].rel_time, Some(0));
    assert!(early.entries()[1].early && !sharp.entries()[1].early);
}

#[test]
fn entries_differ_in_what_they_say() {
    let base = pkt(0x0800, 1, 10, 0);
    let of = |p: &TlmPacket| finished(&[p.clone()]);
    let mut other = base.clone();
    other.payload[19] = 1;
    assert_ne!(of(&base).entries(), of(&other).entries());
    other.payload.truncate(19);
    assert_ne!(of(&base).entries(), of(&other).entries());
    let mut other = base.clone();
    other.len = 31;
    assert_ne!(of(&base).entries(), of(&other).entries());
    assert_ne!(of(&base).entries(), of(&pkt(0x0801, 1, 10, 0)).entries());
    assert_eq!(of(&base).entries(), of(&pkt(0x0800, 9, 99, 0)).entries());
}

#[test]
fn the_rendering_is_one_line_per_packet() {
    let t = finished(&[
        pkt(0x0800, 1, 10, 0),
        pkt(0x0800, 2, 11, 655),
        pkt(0x0883, 9, 9, 0),
        pkt(0x0883, 9, 2000, 0),
    ]);
    assert_eq!(
        t.render(),
        "0883 first  t=+-01.00000 len=32\n\
         0800 first  t=+000.00000 len=32\n\
         0800 d+1    t=+001.01000 len=32\n\
         0883 d+0    t=+1990.00000 len=32\n"
    );
}

#[test]
fn what_came_before_the_anchor_renders_as_such() {
    let t = finished(&[pkt(EVS_EVENT_MID, 0x3000, 5, 0), pkt(EVS_EVENT_MID, 0x2FFF, 5, 0)]);
    assert_eq!(
        t.render(),
        "0808 first  t=PRE-ANCHOR len=32\n0808 d+16383 t=PRE-ANCHOR len=32\n"
    );
}

#[test]
fn two_trailing_packets_are_no_boundary() {
    let build = |n: u16| {
        let packets: Vec<TlmPacket> =
            (0..n).map(|i| pkt(0x08F0, i + 1, 10 + u32::from(i), 0)).collect();
        finished(&packets)
    };
    assert!(build(9).same_stream(&build(8)));
    assert!(!build(9).same_stream(&build(7)));
    assert!(!build(7).same_stream(&build(9)));
}

#[test]
fn finishing_neither_loses_nor_invents_a_packet() {
    let packets: Vec<TlmPacket> =
        (0..50u16).map(|i| pkt(0x0800 + i % 7, i, 100 - u32::from(i % 11), i * 97)).collect();
    let mut t = Transcript::new();
    for p in &packets {
        t.record(p);
    }
    let key = |e: &besom::Entry| (e.msg_id, e.rel_time, e.seq_delta, e.len);
    let mut before: Vec<_> = t.entries().iter().map(key).collect();
    let t = t.finish();
    let mut after: Vec<_> = t.entries().iter().map(key).collect();
    before.sort();
    after.sort();
    assert_eq!(before, after);
    let order: Vec<_> = t.entries().iter().map(|e| (e.rel_time, e.msg_id)).collect();
    let mut sorted = order.clone();
    sorted.sort();
    assert_eq!(order, sorted, "every packet has a time here");
}
