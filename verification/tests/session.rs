//! A live session: what the operator sees and can do.

use besom::bringup::{BringUp, LinkAction, ENABLE_ATTEMPTS};
use besom::ccsds::{build_command, EVS_EVENT_MID};
use besom::fsw::{add_packet_command, STATE_TLM_MID};
use besom::run::{enable_output_command, RunError};
use besom::session::{extend_trail, Cmd, State, Stream};
use besom::transport::{Reaction, Transport};

fn packet(msg_id: u16, seq: u16, secs: u32, subsecs: u16) -> Vec<u8> {
    let mut buf = vec![0u8; 20];
    buf[0..2].copy_from_slice(&msg_id.to_be_bytes());
    buf[2..4].copy_from_slice(&(0xC000 | seq).to_be_bytes());
    buf[6..10].copy_from_slice(&secs.to_be_bytes());
    buf[10..12].copy_from_slice(&subsecs.to_be_bytes());
    buf
}

fn event(id: u16) -> Vec<u8> {
    let mut buf = vec![0u8; 60];
    buf[0..2].copy_from_slice(&EVS_EVENT_MID.to_be_bytes());
    buf[16..20].copy_from_slice(b"TIME");
    buf[36..38].copy_from_slice(&id.to_le_bytes());
    buf
}

fn take(s: &mut State, buf: &[u8]) {
    assert!(s.has_room(buf));
    s.ingest(buf);
}

#[test]
fn a_fresh_session_is_paused_and_silent() {
    let s = State::default();
    assert!(!s.running && !s.alive);
    assert_eq!((s.sim_usec, s.packets, s.dropped()), (0, 0, 0));
    assert!(s.streams.is_empty() && s.events.is_empty());
    assert!(s.error.is_none() && s.fsw.is_none());
    assert_eq!(s.stream(0x0800), Stream::default());
    assert_eq!(s.status(), "booting…");
}

#[test]
fn a_stream_is_counted_and_timed() {
    let mut s = State::default();
    take(&mut s, &packet(0x0883, 9, 1_000_001, 0x8000));
    take(&mut s, &packet(0x0800, 1, 1_000_002, 0));
    take(&mut s, &packet(0x0883, 10, 1_000_003, 0x8001));
    take(&mut s, &packet(0x0800, 2, 1_000_000, 0));
    assert_eq!(s.packets, 4);
    assert_eq!(
        s.stream(0x0883),
        Stream { count: 2, last_seq: 10, gaps: 0, last_time: 0x2_0001, len: 20 }
    );
    assert_eq!(s.stream(0x0800).last_time, -0x1_8000);
    assert_eq!(s.streams.keys().copied().collect::<Vec<u16>>(), vec![0x0800, 0x0883]);
    assert_eq!(s.dropped(), 0);
}

#[test]
fn gaps_count_what_was_never_received() {
    let mut s = State::default();
    for seq in [0x3FFE, 0x3FFF, 0, 4, 4, 3] {
        take(&mut s, &packet(0x0883, seq, 1, 0));
    }
    // 0 to 4 lost three; a repeat lost none; 4 to 3 is all the way round.
    assert_eq!(s.stream(0x0883).gaps, 3 + 0x3FFE);
    take(&mut s, &packet(0x0800, 100, 1, 0));
    assert_eq!(s.stream(0x0800).gaps, 0, "the first packet shows no loss");
    take(&mut s, &packet(0x0800, 102, 1, 0));
    assert_eq!(s.dropped(), 3 + 0x3FFE + 1);
}

#[test]
fn a_runt_changes_nothing() {
    let mut s = State::default();
    take(&mut s, &[0u8; 11]);
    assert_eq!(s.packets, 0);
    assert!(s.streams.is_empty());
}

#[test]
fn the_event_log_is_a_tail() {
    let mut s = State::default();
    for id in 0..500 {
        take(&mut s, &event(id));
    }
    assert_eq!(s.events.len(), 500);
    take(&mut s, &event(500));
    assert_eq!(s.events.len(), 401);
    assert_eq!(s.events[0].event_id, 100);
    assert_eq!(s.events[400].event_id, 500);
    assert_eq!(s.events[400].app, "TIME");
    assert_eq!(s.packets, 501);
    for id in 501..2000 {
        take(&mut s, &event(id));
        assert!(s.events.len() <= 500);
        assert_eq!(s.events[s.events.len() - 1].event_id, id);
    }
}

#[test]
fn the_flight_software_has_the_last_word_on_its_state() {
    let mut s = State::default();
    let mut buf = vec![0u8; 104];
    buf[0..2].copy_from_slice(&STATE_TLM_MID.to_be_bytes());
    buf[96..100].copy_from_slice(&3u32.to_le_bytes());
    take(&mut s, &buf);
    assert_eq!(s.fsw.unwrap().rx_count, 3);
    take(&mut s, &packet(0x0800, 1, 1, 0));
    assert_eq!(s.fsw.unwrap().rx_count, 3);
    buf[96] = 4;
    take(&mut s, &buf);
    assert_eq!(s.fsw.unwrap().rx_count, 4);
    take(&mut s, &buf[..100]);
    assert_eq!(s.fsw.unwrap().rx_count, 4, "too short to say anything");
    assert_eq!(s.packets, 4);
}

#[test]
fn counters_that_are_full_have_no_room() {
    let mut s = State::default();
    s.packets = u64::MAX;
    assert!(!s.has_room(&packet(0x0800, 1, 1, 0)));
    assert!(s.has_room(&[0u8; 5]), "a runt needs no room");
    let mut s = State::default();
    s.streams.insert(
        0x0800,
        Stream { count: 1, last_seq: 1, gaps: u64::MAX, last_time: 0, len: 0 },
    );
    assert!(s.has_room(&packet(0x0800, 2, 1, 0)));
    assert!(!s.has_room(&packet(0x0800, 3, 1, 0)));
    assert!(s.has_room(&packet(0x0801, 3, 1, 0)));
}

#[test]
fn a_failure_stops_the_session() {
    let mut s = State::default();
    s.alive = true;
    assert_eq!(s.status(), "time frozen");
    s.running = true;
    assert_eq!(s.status(), "running");
    s.fail("cFS boot timed out".to_string());
    assert_eq!(s.error.as_deref(), Some("cFS boot timed out"));
    assert!(!s.alive && !s.running);
    assert_eq!(s.status(), "booting…");
}

/// Let a transport run for some iterations; says how many ticks it granted.
fn granted(t: &mut Transport, iterations: u32) -> u32 {
    (0..iterations).map(|_| t.grant()).sum()
}

#[test]
fn a_session_starts_paused() {
    let mut t = Transport::new();
    assert_eq!(t, Transport { running: false, budget: 0, warp: 1 });
    assert!(!t.is_moving());
    assert_eq!(granted(&mut t, 100), 0, "alive, but time is not moving");
    t.apply(&Cmd::Warp(50));
    assert_eq!(granted(&mut t, 100), 0, "a warp does not start it");
}

#[test]
fn play_sets_time_going() {
    let mut t = Transport::new();
    t.apply(&Cmd::Play);
    assert!(t.is_moving());
    assert_eq!(granted(&mut t, 7), 7);
    t.apply(&Cmd::Warp(50));
    assert_eq!(granted(&mut t, 3), 150);
    t.apply(&Cmd::Warp(0));
    assert_eq!(granted(&mut t, 3), 3, "a warp of nothing is a warp of one");
}

#[test]
fn pause_freezes_and_play_resumes() {
    let mut t = Transport::new();
    t.apply(&Cmd::Play);
    t.apply(&Cmd::Warp(5));
    let before = t;
    t.apply(&Cmd::Pause);
    assert!(!t.is_moving());
    assert_eq!(granted(&mut t, 100), 0);
    t.apply(&Cmd::Play);
    assert_eq!(t, before);
    assert_eq!(granted(&mut t, 2), 10);
}

#[test]
fn step_advances_exactly_then_freezes() {
    let mut t = Transport::new();
    t.apply(&Cmd::Play);
    t.apply(&Cmd::Warp(500));
    t.apply(&Cmd::StepTicks(100));
    assert!(t.is_moving());
    assert_eq!(granted(&mut t, 60), 60);
    t.apply(&Cmd::StepTicks(10));
    assert_eq!(granted(&mut t, 1000), 50);
    assert!(!t.is_moving());
    t.apply(&Cmd::StepTicks(9));
    t.apply(&Cmd::Pause);
    assert_eq!(granted(&mut t, 100), 0);
}

#[test]
fn steps_do_not_overflow() {
    let mut t = Transport::new();
    t.apply(&Cmd::StepTicks(u32::MAX));
    t.apply(&Cmd::StepTicks(5));
    assert_eq!(t.budget, u32::MAX);
}

#[test]
fn play_while_stepping_takes_the_steps_first() {
    let mut t = Transport::new();
    t.apply(&Cmd::Warp(20));
    t.apply(&Cmd::StepTicks(2));
    t.apply(&Cmd::Play);
    assert_eq!((t.grant(), t.grant(), t.grant()), (1, 1, 20));
}

#[test]
fn a_raw_command_is_framed_and_shutdown_stops() {
    let mut t = Transport::new();
    t.apply(&Cmd::Play);
    let before = t;
    match t.apply(&Cmd::Send { msg_id: 0x1882, fn_code: 1, payload: vec![4, 5] }) {
        Reaction::Uplink { command } => assert_eq!(command, build_command(0x1882, 1, &[4, 5])),
        other => panic!("expected an uplink, not {other:?}"),
    }
    assert!(matches!(t.apply(&Cmd::Shutdown), Reaction::Stop));
    assert!(matches!(t.apply(&Cmd::Play), Reaction::Carry));
    assert_eq!(t, before);
}

#[test]
fn the_downlink_comes_up_step_by_step() {
    let b = BringUp::AwaitPort;
    assert!(matches!(b.action(), LinkAction::AwaitPort));
    assert_eq!(b.next(false), Err(RunError::NoCommandPort));
    let b = b.next(true).unwrap();
    match b.action() {
        LinkAction::Enable { command } => assert_eq!(command, enable_output_command()),
        other => panic!("expected the enable command, not {other:?}"),
    }
    let b = b.next(true).unwrap();
    match b.action() {
        LinkAction::Subscribe { command } => {
            assert_eq!(command, add_packet_command(STATE_TLM_MID))
        }
        other => panic!("expected the subscription, not {other:?}"),
    }
    let b = b.next(false).unwrap();
    assert_eq!(b, BringUp::Up);
    assert!(matches!(b.action(), LinkAction::Fly));
    assert_eq!(b.next(true), Ok(BringUp::Up));
}

#[test]
fn a_lost_enable_is_resent() {
    let mut b = BringUp::AwaitPort.next(true).unwrap();
    for n in 0..ENABLE_ATTEMPTS - 1 {
        assert_eq!(b, BringUp::Enable { attempts: n });
        b = b.next(false).unwrap();
    }
    assert_eq!(b.next(true), Ok(BringUp::Subscribe));
    assert_eq!(b.next(false), Err(RunError::NeverEnabled));
}

#[test]
fn the_trail_is_sparse_and_bounded() {
    let mut trail: Vec<u32> = Vec::new();
    assert!(extend_trail(&mut trail, 1, false, 3), "the first point always counts");
    assert!(!extend_trail(&mut trail, 2, false, 3));
    for p in 3..=6 {
        assert!(extend_trail(&mut trail, p, true, 3));
    }
    assert_eq!(trail, vec![4, 5, 6]);
    let mut none: Vec<u32> = Vec::new();
    assert!(extend_trail(&mut none, 1, true, 0));
    assert!(none.is_empty());
}
