//! The step protocol.

use besom::clock::{coop_enabled, missing_ack, AckError, Clock, TICK_USEC};

#[test]
fn a_bare_step_has_four_bytes() {
    let c = Clock::new();
    assert_eq!(c.sim_usec(), 0);
    assert_eq!(c.step(TICK_USEC), vec![0x10, 0x27, 0, 0]);
    assert_eq!(c.step_with_sensor(1, &[]), vec![1, 0, 0, 0]);
}

#[test]
fn the_sensor_block_rides_the_step() {
    let c = Clock::new();
    assert_eq!(
        c.step_with_sensor(0x0403_0201, &[9, 8, 7]),
        vec![1, 2, 3, 4, 3, 0, 0, 0, 9, 8, 7]
    );
    let block = vec![0xAB; 300];
    let msg = c.step_with_sensor(TICK_USEC, &block);
    assert_eq!(&msg[..8], &[0x10, 0x27, 0, 0, 0x2C, 0x01, 0, 0]);
    assert_eq!(&msg[8..], &block[..]);
}

#[test]
fn an_acknowledgement_moves_the_clock() {
    let mut c = Clock::new();
    assert_eq!(c.acknowledge(&10_000u64.to_le_bytes()), Ok(10_000));
    assert_eq!(c.sim_usec(), 10_000);
    assert_eq!(c.acknowledge(&0x0102_0304_0506_0708u64.to_le_bytes()), Ok(0x0102_0304_0506_0708));
    assert_eq!(c.sim_usec(), 0x0102_0304_0506_0708);
}

#[test]
fn a_malformed_acknowledgement_does_not() {
    let mut c = Clock::new();
    c.acknowledge(&7u64.to_le_bytes()).unwrap();
    for n in [0usize, 4, 7, 9] {
        let e = c.acknowledge(&vec![1u8; n]).unwrap_err();
        assert_eq!(e, AckError::Malformed { len: n });
        assert_eq!(e.message(), format!("malformed step ack: {n} bytes"));
        assert_eq!(c.sim_usec(), 7);
    }
}

#[test]
fn cooperative_scheduling_is_on_unless_something_else_is_said() {
    assert!(coop_enabled(None));
    assert!(coop_enabled(Some("1")));
    assert!(coop_enabled(Some("1x")));
    for v in ["", "0", "true", "yes", "on", "2", " 1"] {
        assert!(!coop_enabled(Some(v)), "{v:?} leaves cFS on host scheduling");
    }
}

#[test]
fn a_missing_acknowledgement_is_explained() {
    assert!(missing_ack(true).starts_with("cFS did not acknowledge the step.\nWith BESOM_COOP=1"));
    assert!(missing_ack(true).contains("COOP-STALL"));
    assert_eq!(
        missing_ack(false),
        "cFS did not acknowledge the step (is it running on timebase_besom?)"
    );
}
