//! Scripted scenarios, driven by hand.

use besom::ccsds::build_command;
use besom::fsw::{add_packet_command, STATE_TLM_MID};
use besom::run::{
    boot_polling_secs, boot_timeout_secs, default_cfs_dir, enable_output_command, Action, Config,
    Phase, Report, RunError, Runner, BOOT_TICKS, CI_PORT, ENABLE_TICKS, GUARD, SYNC_LIMIT,
    TLM_PORT,
};

fn config(ticks: u32) -> Config {
    Config { cfs_dir: "/cfs".into(), step_sock: "/tmp/step.sock".into(), ticks }
}

fn packet(msg_id: u16, seq: u16, secs: u32) -> Vec<u8> {
    let mut buf = vec![0u8; 20];
    buf[0..2].copy_from_slice(&msg_id.to_be_bytes());
    buf[2..4].copy_from_slice(&(0xC000 | seq).to_be_bytes());
    buf[6..10].copy_from_slice(&secs.to_be_bytes());
    buf
}

fn state_packet(rx_count: u32) -> Vec<u8> {
    let mut buf = vec![0u8; 104];
    buf[0..2].copy_from_slice(&STATE_TLM_MID.to_be_bytes());
    buf[96..100].copy_from_slice(&rx_count.to_le_bytes());
    buf
}

fn drained(datagrams: &[Vec<u8>]) -> Report {
    Report::Drained { datagrams: datagrams.to_vec() }
}

/// A run up to the given phase of a healthy scenario.
fn synced(ticks: u32) -> Runner {
    let mut r = Runner::new(&config(ticks)).unwrap();
    let mut granted = 0;
    while !matches!(r.phase(), Phase::Record { .. }) {
        let report = match r.action() {
            Action::BootTick => {
                granted += 1;
                Report::Booting { operational: granted > 100, expired: false }
            }
            Action::AwaitPort => Report::CommandPort { bound: true },
            Action::Uplink { .. } => Report::Sent,
            Action::CheckEnabled => Report::Enabled { acknowledged: true },
            Action::Tick { advance } => {
                granted += 1;
                let sync = matches!(r.phase(), Phase::Sync { granted: 2 });
                assert_eq!(advance, matches!(r.phase(), Phase::Sync { .. }));
                if sync {
                    drained(&[packet(0x0801, 1, 9), packet(0x0800, 7, 9)])
                } else {
                    drained(&[packet(0x0880, 1, 8)])
                }
            }
            _ => drained(&[packet(0x0880, 2, 8)]),
        };
        assert!(r.next(&report).unwrap().is_empty());
    }
    assert_eq!(granted, BOOT_TICKS + ENABLE_TICKS + 3);
    r
}

#[test]
fn a_budget_inside_the_guard_band_is_refused() {
    for ticks in [0, 1, GUARD] {
        let e = Runner::new(&config(ticks)).unwrap_err();
        assert_eq!(e, RunError::InsideGuard { ticks });
    }
    assert_eq!(
        RunError::InsideGuard { ticks: 60 }.message(0, 0),
        "tick budget 60 is inside the 120-tick guard band, so nothing would be recorded -- use \
         more than 120 ticks"
    );
    assert!(Runner::new(&config(GUARD + 1)).is_ok());
}

#[test]
fn the_guard_band_is_on_no_record() {
    let ticks = 130;
    let mut r = synced(ticks);
    for i in 0..ticks {
        assert_eq!(r.phase(), Phase::Record { granted: i });
        r.next(&drained(&[packet(0x0883, i as u16, 10 + i), vec![1, 2, 3]])).unwrap();
    }
    assert_eq!(r.phase(), Phase::Settle { idle: 0 });
    r.next(&drained(&[])).unwrap();
    r.next(&drained(&[])).unwrap();
    assert_eq!(r.phase(), Phase::Done);
    let t = r.finish();
    assert_eq!(t.len(), 10, "130 ticks less the guard band");
    assert!(t.entries().iter().all(|e| e.msg_id == 0x0883));
    assert_eq!(t.entries()[0].seq_delta, None, "boot history is on no record");
    assert_eq!(t.entries()[9].rel_time, Some(900));
}

#[test]
fn the_flight_software_is_heard_in_the_guard_band_too() {
    let mut r = synced(121);
    let heard = r.next(&drained(&[state_packet(5), packet(0x0800, 1, 1), state_packet(6)])).unwrap();
    assert_eq!(heard.iter().map(|s| s.rx_count).collect::<Vec<u32>>(), vec![5, 6]);
    let heard = r.next(&drained(&[state_packet(7)])).unwrap();
    assert_eq!(heard.len(), 1, "past the recorded window");
    assert_eq!(r.finish().len(), 3);
}

#[test]
fn a_run_settles_after_two_empty_passes() {
    let mut r = synced(121);
    for _ in 0..121 {
        r.next(&drained(&[])).unwrap();
    }
    let full = drained(&[packet(0x0800, 1, 1)]);
    let runt = drained(&[vec![0; 11]]);
    r.next(&drained(&[])).unwrap();
    assert_eq!(r.phase(), Phase::Settle { idle: 1 });
    r.next(&full).unwrap();
    assert_eq!(r.phase(), Phase::Settle { idle: 0 });
    r.next(&runt).unwrap();
    assert_eq!(r.phase(), Phase::Settle { idle: 1 });
    r.next(&runt).unwrap();
    assert_eq!(r.phase(), Phase::Done);
    assert!(matches!(r.action(), Action::Finish));
    r.next(&full).unwrap();
    assert_eq!(r.phase(), Phase::Done);
    assert!(r.finish().is_empty());
}

#[test]
fn the_boot_takes_all_of_its_ticks() {
    let mut r = Runner::new(&config(600)).unwrap();
    for i in 0..BOOT_TICKS {
        assert_eq!(r.phase(), Phase::Boot { granted: i });
        r.next(&Report::Booting { operational: i == 0, expired: false }).unwrap();
    }
    assert_eq!(r.phase(), Phase::AwaitPort);
}

#[test]
fn a_boot_that_never_finishes_fails() {
    let mut r = Runner::new(&config(600)).unwrap();
    for _ in 0..BOOT_TICKS - 1 {
        r.next(&Report::Booting { operational: false, expired: false }).unwrap();
    }
    let e = r.next(&Report::Booting { operational: false, expired: false }).unwrap_err();
    assert_eq!(e, RunError::NeverOperational);
    assert_eq!(e.message(60, 4), "cFS never reached OPERATIONAL within 4000 ticks");
    assert!(r.next(&Report::Booting { operational: true, expired: false }).is_ok());
}

#[test]
fn a_boot_has_a_wall_clock_budget() {
    let mut r = Runner::new(&config(600)).unwrap();
    let e = r.next(&Report::Booting { operational: true, expired: true }).unwrap_err();
    assert_eq!(e, RunError::BootTimedOut);
    assert_eq!(
        e.message(60, 4),
        "cFS boot timed out after 60s of wall clock (raise $BESOM_BOOT_TIMEOUT_S; a wide \
         $BESOM_QUIESCE_SAMPLES costs ~4s of polling across 4000 boot ticks)"
    );
    assert_eq!(r.phase(), Phase::Boot { granted: 0 });
}

fn booted() -> Runner {
    let mut r = Runner::new(&config(600)).unwrap();
    for _ in 0..BOOT_TICKS {
        r.next(&Report::Booting { operational: true, expired: false }).unwrap();
    }
    r
}

#[test]
fn a_lost_command_port_fails() {
    let mut r = booted();
    assert!(matches!(r.action(), Action::AwaitPort));
    let e = r.next(&Report::CommandPort { bound: false }).unwrap_err();
    assert_eq!(e, RunError::NoCommandPort);
    assert_eq!(e.message(0, 0), "CI_LAB never bound its command port");
}

#[test]
fn a_lost_enable_fails() {
    let mut r = booted();
    r.next(&Report::CommandPort { bound: true }).unwrap();
    match r.action() {
        Action::Uplink { command } => {
            let mut ip = [0u8; 16];
            ip[..9].copy_from_slice(b"127.0.0.1");
            assert_eq!(command, build_command(0x1880, 6, &ip));
            assert_eq!(command, enable_output_command());
        }
        other => panic!("expected the enable command, not {other:?}"),
    }
    r.next(&Report::Sent).unwrap();
    for _ in 0..ENABLE_TICKS {
        assert!(matches!(r.action(), Action::Tick { advance: false }));
        r.next(&drained(&[])).unwrap();
    }
    assert!(matches!(r.action(), Action::CheckEnabled));
    let e = r.next(&Report::Enabled { acknowledged: false }).unwrap_err();
    assert_eq!(e, RunError::NeverEnabled);
    assert_eq!(
        e.message(0, 0),
        "TO_LAB never acknowledged the enable-output command; there would be no downlink"
    );
}

#[test]
fn a_run_that_never_gets_in_phase_fails() {
    let mut r = booted();
    r.next(&Report::CommandPort { bound: true }).unwrap();
    r.next(&Report::Sent).unwrap();
    for _ in 0..ENABLE_TICKS {
        r.next(&drained(&[])).unwrap();
    }
    r.next(&Report::Enabled { acknowledged: true }).unwrap();
    match r.action() {
        Action::Uplink { command } => assert_eq!(command, add_packet_command(STATE_TLM_MID)),
        other => panic!("expected the subscription, not {other:?}"),
    }
    r.next(&Report::Sent).unwrap();
    assert!(matches!(r.action(), Action::Quiet));
    r.next(&drained(&[packet(0x0800, 1, 1)])).unwrap();
    assert_eq!(r.phase(), Phase::Sync { granted: 0 }, "what drained away does not count");
    for _ in 0..SYNC_LIMIT - 1 {
        r.next(&drained(&[packet(0x0801, 1, 1)])).unwrap();
    }
    let e = r.next(&drained(&[])).unwrap_err();
    assert_eq!(e, RunError::NeverSynced);
    assert_eq!(
        e.message(0, 0),
        "cFS never emitted a housekeeping cycle -- cannot phase-align the run"
    );
}

#[test]
fn an_answer_to_something_else_changes_nothing() {
    let mut r = Runner::new(&config(600)).unwrap();
    for report in [
        Report::Sent,
        Report::CommandPort { bound: false },
        Report::Enabled { acknowledged: false },
        drained(&[packet(0x0800, 1, 1)]),
    ] {
        assert!(r.next(&report).unwrap().is_empty());
        assert_eq!(r.phase(), Phase::Boot { granted: 0 });
    }
}

#[test]
fn two_runs_of_one_scenario_agree() {
    let fly = |epoch: u32, seq: u16| {
        let mut r = synced(200);
        for i in 0..200u16 {
            r.next(&drained(&[packet(0x0883, seq + i, epoch + u32::from(i))])).unwrap();
        }
        r.finish()
    };
    let (a, b) = (fly(1_000_001, 5), fly(1_000_006, 77));
    assert_eq!(a.len(), 80);
    assert_eq!(a.render(), b.render());
    assert!(a.same_stream(&b));
    assert!(a.differences(&b).is_empty());
}

#[test]
fn settings_from_the_environment() {
    assert_eq!(boot_timeout_secs(None), 60);
    assert_eq!(boot_timeout_secs(Some("240")), 240);
    assert_eq!(boot_timeout_secs(Some("")), 60);
    assert_eq!(boot_timeout_secs(Some("-1")), 60);
    assert_eq!(boot_polling_secs(1200), 4);
    assert_eq!(boot_polling_secs(8000), 32);
    assert_eq!(boot_polling_secs(400), 0);
    assert_eq!(boot_polling_secs(u64::MAX), u64::MAX / 1000 * 4);
    assert_eq!((CI_PORT, TLM_PORT), (1234, 2234));
}

#[test]
fn where_a_build_is_looked_for() {
    let tail = "Projects/cFS/build-native_std/exe/cpu1";
    assert_eq!(default_cfs_dir(Some("/opt/cfs"), Some("/home/op")), "/opt/cfs");
    assert_eq!(default_cfs_dir(Some(""), Some("/home/op")), "");
    assert_eq!(default_cfs_dir(None, Some("/home/op")), format!("/home/op/{tail}"));
    assert_eq!(default_cfs_dir(None, Some("/")), format!("/{tail}"));
    assert_eq!(default_cfs_dir(None, Some("")), tail);
    assert_eq!(default_cfs_dir(None, None), tail);
    for home in ["/home/op", "/", "", "rel/", "rel"] {
        let joined = std::path::Path::new(home).join(tail);
        assert_eq!(std::path::PathBuf::from(default_cfs_dir(None, Some(home))), joined);
        assert_eq!(default_cfs_dir(None, Some(home)), joined.to_str().unwrap());
    }
}
