//! Quiescence: how many clean samples it takes, and what a sample says.

use besom::quiesce::{
    any_runnable, clean_samples, confirm_window, is_runnable, reset, timeout, timeouts, wait,
    Glance, Quiesce, Waiting,
};

#[test]
fn the_defaults_and_what_overrides_them() {
    assert_eq!(clean_samples(None), 3);
    assert_eq!(clean_samples(Some("20")), 20);
    assert_eq!(clean_samples(Some("+4")), 4);
    for v in ["0", "", "-1", "3.5", " 3", "4294967296", "x"] {
        assert_eq!(clean_samples(Some(v)), 3, "{v:?}");
    }
    assert_eq!(clean_samples(Some("4294967295")), u32::MAX);
    assert_eq!(timeout(None), 2000);
    assert_eq!(timeout(Some("0")), 0);
    assert_eq!(timeout(Some("18446744073709551615")), u64::MAX);
    assert_eq!(timeout(Some("18446744073709551616")), 2000);
}

#[test]
fn the_window_is_four_hundred_microseconds_a_sample() {
    assert_eq!(confirm_window(&Quiesce::new(None, None)), 1200);
    assert_eq!(confirm_window(&Quiesce::new(Some("20"), None)), 8000);
    assert_eq!(confirm_window(&Quiesce::new(Some("4294967295"), None)), 400 * 4_294_967_295);
    assert_eq!(Quiesce::new(None, Some("5")).timeout_ms(), 5);
}

/// Feed a gate samples until it is satisfied; says how many it took.
fn samples_until_quiet(q: &mut Quiesce, samples: &[Glance]) -> Option<usize> {
    let mut clean = 0;
    for (i, s) in samples.iter().enumerate() {
        match wait(q, clean, *s) {
            Waiting::Over => return Some(i + 1),
            Waiting::Poll { clean: n } => clean = n,
        }
    }
    None
}

#[test]
fn quiet_takes_consecutive_clean_samples() {
    let mut q = Quiesce::new(None, None);
    let (b, r) = (Glance::Blocked, Glance::Runnable);
    assert_eq!(samples_until_quiet(&mut q, &[b, b, b]), Some(3));
    assert_eq!(samples_until_quiet(&mut q, &[b, b, r, b, b]), None);
    assert_eq!(samples_until_quiet(&mut q, &[b, b, r, b, b, b, r]), Some(6));
    assert_eq!(samples_until_quiet(&mut q, &[r, r, r, r]), None);
    assert_eq!(timeouts(&q), 0);
    let mut one = Quiesce::new(Some("1"), None);
    assert_eq!(samples_until_quiet(&mut one, &[r, b]), Some(2));
}

#[test]
fn a_process_that_is_gone_ends_the_wait() {
    let mut q = Quiesce::new(None, None);
    assert_eq!(samples_until_quiet(&mut q, &[Glance::Runnable, Glance::Gone]), Some(2));
    assert_eq!(timeouts(&q), 0);
}

#[test]
fn giving_up_is_counted() {
    let mut q = Quiesce::new(None, None);
    for n in 1..=3 {
        assert_eq!(wait(&mut q, 2, Glance::Expired), Waiting::Over);
        assert_eq!(timeouts(&q), n);
    }
    reset(&mut q);
    assert_eq!(timeouts(&q), 0);
    assert_eq!(confirm_window(&q), 1200);
}

#[test]
fn the_state_follows_the_last_parenthesis() {
    assert_eq!(is_runnable("1234 (core-cpu1) R 1 2 3"), Some(true));
    assert_eq!(is_runnable("1234 (core-cpu1) S 1 2 3"), Some(false));
    assert_eq!(is_runnable("1234 (odd) R name) S 1"), Some(false));
    assert_eq!(is_runnable("1234 (odd) S name)\tR\n"), Some(true));
    assert_eq!(is_runnable("1234 (x) Rx"), Some(false));
    assert_eq!(is_runnable("1234 (x)R"), Some(true));
    assert_eq!(is_runnable("1234 (x)   "), None);
    assert_eq!(is_runnable("1234 (x)"), None);
    assert_eq!(is_runnable("R"), None);
    assert_eq!(is_runnable(""), None);
}

#[test]
fn one_runnable_thread_is_enough() {
    let stats = |s: &[&str]| s.iter().map(|t| t.to_string()).collect::<Vec<String>>();
    assert_eq!(any_runnable(&stats(&["1 (a) S", "2 (b) R", "3 (c) S"])), Some(true));
    assert_eq!(any_runnable(&stats(&["1 (a) S", "2 (b) D", "3 (c) t"])), Some(false));
    assert_eq!(any_runnable(&stats(&["", "2 (b) S"])), Some(false));
    assert_eq!(any_runnable(&stats(&["", "gone"])), None);
    assert_eq!(any_runnable(&stats(&[])), None);
}
