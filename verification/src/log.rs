//! What cFS's log says: the lines that a run and a session wait for.

use vstd::prelude::*;
use crate::text::chars_of;

verus! {

/// What the log says once cFS is up.
pub const OPERATIONAL: &'static str = "entering OPERATIONAL state";

/// What the log says once CI_LAB has bound its command port.
pub const COMMAND_PORT_BOUND: &'static str = "CI_LAB listening on UDP port";

/// What the log says once TO_LAB has taken the enable command: the enable itself
/// (`TO_LAB_TLMOUTENA_INF_EID`), not a boot event.
pub const OUTPUT_ENABLED: &'static str = "TO_LAB 3";

/// Does `what` stand in the log at character `i`?
pub open spec fn says_at(log: Seq<char>, what: Seq<char>, i: int) -> bool {
    0 <= i && i + what.len() <= log.len() && log.subrange(i, i + what.len()) == what
}

/// Does `what` stand anywhere in the log?
pub open spec fn says(log: Seq<char>, what: Seq<char>) -> bool {
    exists|i: int| #[trigger] says_at(log, what, i)
}

fn stands_at(log: &Vec<char>, what: &Vec<char>, i: usize) -> (r: bool)
    requires
        i + what@.len() <= log@.len(),
    ensures
        r == says_at(log@, what@, i as int),
{
    assert(i + what.len() <= log.len());
    let ghost there = log@.subrange(i as int, i + what@.len());
    let mut j: usize = 0;
    while j < what.len()
        invariant
            i + what.len() <= log.len(),
            j <= what@.len(),
            there == log@.subrange(i as int, i + what@.len()),
            forall|k: int| 0 <= k < j ==> there[k] == #[trigger] what@[k],
        decreases what.len() - j,
    {
        if log[i + j] != what[j] {
            assert(there[j as int] != what@[j as int]);
            return false;
        }
        j = j + 1;
    }
    assert(there =~= what@);
    true
}

/// Does the log say `what`, anywhere?
pub fn log_says(log: &str, what: &str) -> (r: bool)
    ensures
        r == says(log@, what@),
{
    let log_chars: Vec<char> = chars_of(log);
    let what_chars: Vec<char> = chars_of(what);
    if what_chars.len() > log_chars.len() {
        return false;
    }
    let last: usize = log_chars.len() - what_chars.len();
    let mut i: usize = 0;
    while i < last
        invariant
            i <= last,
            log_chars@ == log@,
            what_chars@ == what@,
            last + what_chars.len() == log_chars.len(),
            forall|k: int| 0 <= k < i ==> !#[trigger] says_at(log@, what@, k),
        decreases last - i,
    {
        if stands_at(&log_chars, &what_chars, i) {
            return true;
        }
        i = i + 1;
    }
    stands_at(&log_chars, &what_chars, last)
}

/// A log says what stands in it, wherever that is.
pub proof fn a_log_says_what_stands_in_it(front: Seq<char>, what: Seq<char>, back: Seq<char>)
    ensures
        says(front + what + back, what),
{
    let log = front + what + back;
    let i = front.len() as int;
    assert(log.subrange(i, i + what.len()) =~= what);
    assert(says_at(log, what, i));
}

/// A log says nothing that does not stand in it: there is a place in front of which and
/// behind which the rest of the log stands.
pub proof fn a_log_says_nothing_else(log: Seq<char>, what: Seq<char>) -> (at: int)
    requires
        says(log, what),
    ensures
        0 <= at <= log.len() - what.len(),
        log == log.take(at) + what + log.skip(at + what.len()),
{
    let at = choose|i: int| #[trigger] says_at(log, what, i);
    assert forall|k: int| 0 <= k < what.len() implies #[trigger] what[k] == log[at + k] by {
        assert(log.subrange(at, at + what.len())[k] == log[at + k]);
    }
    assert(log =~= log.take(at) + what + log.skip(at + what.len()));
    at
}

/// A log that grows goes on saying what it said.
pub proof fn a_growing_log_goes_on_saying(log: Seq<char>, what: Seq<char>, more: Seq<char>)
    requires
        says(log, what),
    ensures
        says(log + more, what),
{
    let at = a_log_says_nothing_else(log, what);
    let back = log.skip(at + what.len());
    a_log_says_what_stands_in_it(log.take(at), what, back + more);
    assert(log + more =~= log.take(at) + what + (back + more));
}

} // verus!
