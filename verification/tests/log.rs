//! What cFS's log says.

use besom::log::{log_says, COMMAND_PORT_BOUND, OPERATIONAL, OUTPUT_ENABLED};

#[test]
fn the_guards_are_found_in_a_log() {
    let log = "EVS Port1 1980-012-14:03:20 66/1/CI_LAB 5: CI_LAB listening on UDP port: 1234\n\
               EVS Port1 1980-012-14:03:21 66/1/TO_LAB 19: subscribed to table\n\
               CFE_ES_Main: CFE_ES_Main entering OPERATIONAL state\n";
    assert!(log_says(log, COMMAND_PORT_BOUND));
    assert!(log_says(log, OPERATIONAL));
    assert!(!log_says(log, OUTPUT_ENABLED), "a boot event is not the enable");
    assert!(log_says("66/1/TO_LAB 3: TO telemetry output enabled", OUTPUT_ENABLED));
}

#[test]
fn searching_agrees_with_the_standard_library() {
    let texts = ["", "a", "ab", "aab", "abab", "aaab", "Grüße", "ße", "b", "ba", "üß"];
    for log in texts {
        for what in texts {
            assert_eq!(log_says(log, what), log.contains(what), "{what:?} in {log:?}");
        }
    }
}
