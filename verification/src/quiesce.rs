//! Quiescence detection: knowing when the flight software has finished reacting.
//!
//! A step ack proves the clock moved and that the timebase dispatched its
//! callbacks. It does NOT prove the tasks those callbacks woke have finished. They
//! run on ordinary host threads. Granting the next tick while they are still
//! working makes how much they get done depend on host scheduling, and the run
//! stops being reproducible.
//!
//! Linux exposes exactly what is needed: a thread in state `R` is
//! runnable/running; anything else is blocked. When every thread of the cFS process
//! is blocked, it has finished reacting to the tick and cannot make further
//! progress until we grant more time.
//!
//! Immediately after an ack the woken tasks may not be marked runnable yet, so a
//! single clean sample can report a false quiescence. Requiring consecutive clean
//! samples is what makes it hold.

use vstd::prelude::*;
use crate::text::{chars_of, is_white_space, number, parse_number, trim_start, white_space};

verus! {

/// Consecutive clean samples that are asked for where nothing else is set.
pub const DEFAULT_CLEAN_SAMPLES: u32 = 3;

/// Time between two samples, in microseconds.
pub const POLL_USEC: u64 = 400;

/// How long to hold out for quiescence where nothing else is set, in milliseconds.
pub const DEFAULT_TIMEOUT_MS: u64 = 2_000;

/// The harness's own determinism budget, and how often it was overrun.
#[derive(Debug)]
pub struct Quiesce {
    samples: u32,
    timeout_ms: u64,
    timeouts: u64,
}

/// What a gate asks for, and what it counted.
pub struct QuiesceView {
    /// Consecutive all-blocked samples required before declaring quiescence.
    pub samples: u32,
    /// How long to hold out before giving up and granting time anyway.
    pub timeout_ms: u64,
    /// How many times waiting gave up before cFS actually went quiet.
    pub timeouts: u64,
}

impl QuiesceView {
    /// The budget after a look. Only running out of time is counted.
    pub open spec fn after(self, glance: Glance) -> QuiesceView {
        QuiesceView {
            timeouts: if glance is Expired {
                ((self.timeouts + 1) % 0x1_0000_0000_0000_0000) as u64
            } else {
                self.timeouts
            },
            ..self
        }
    }

    /// The budget with nothing counted.
    pub open spec fn cleared(self) -> QuiesceView {
        QuiesceView { timeouts: 0, ..self }
    }

    /// How long a clean run of samples takes, in microseconds.
    pub open spec fn window_usec(self) -> int {
        POLL_USEC * self.samples
    }
}

impl View for Quiesce {
    type V = QuiesceView;

    closed spec fn view(&self) -> QuiesceView {
        QuiesceView {
            samples: self.samples,
            timeout_ms: self.timeout_ms,
            timeouts: self.timeouts,
        }
    }
}

/// The text of a variable, where it is set.
pub open spec fn set_to(var: Option<&str>) -> Option<Seq<char>> {
    match var {
        Some(v) => Some(v@),
        None => None,
    }
}

/// The samples that `$BESOM_QUIESCE_SAMPLES` asks for: a positive number, or else
/// the default.
pub open spec fn samples_asked(var: Option<Seq<char>>) -> u32 {
    match var {
        Some(v) => match number(v, 10, u32::MAX as nat) {
            Some(n) if n > 0 => n as u32,
            _ => DEFAULT_CLEAN_SAMPLES,
        },
        None => DEFAULT_CLEAN_SAMPLES,
    }
}

/// The milliseconds that `$BESOM_QUIESCE_MS` asks for, or else the default.
pub open spec fn timeout_asked(var: Option<Seq<char>>) -> u64 {
    match var {
        Some(v) => match number(v, 10, u64::MAX as nat) {
            Some(n) => n as u64,
            None => DEFAULT_TIMEOUT_MS,
        },
        None => DEFAULT_TIMEOUT_MS,
    }
}

/// Consecutive all-blocked samples required before declaring quiescence, from
/// `$BESOM_QUIESCE_SAMPLES`.
///
/// This, not the timeout, is what decides whether quiescence is real: if the tick's
/// woken tasks have not been marked `R` within the window, every sample is clean
/// and waiting ends before cFS has begun reacting.
pub fn clean_samples(var: Option<&str>) -> (n: u32)
    ensures
        n == samples_asked(set_to(var)),
        n > 0,
{
    match var {
        Some(v) => match parse_number(v, 10, u32::MAX as u64) {
            Some(n) => if n > 0 {
                n as u32
            } else {
                DEFAULT_CLEAN_SAMPLES
            },
            None => DEFAULT_CLEAN_SAMPLES,
        },
        None => DEFAULT_CLEAN_SAMPLES,
    }
}

/// How long to hold out for quiescence before giving up and granting time anyway,
/// in milliseconds, from `$BESOM_QUIESCE_MS`.
///
/// The right value is a property of the HOST, not of the flight software. Raising
/// it trades wall-clock time for determinism.
pub fn timeout(var: Option<&str>) -> (ms: u64)
    ensures
        ms == timeout_asked(set_to(var)),
{
    match var {
        Some(v) => match parse_number(v, 10, u64::MAX) {
            Some(n) => n,
            None => DEFAULT_TIMEOUT_MS,
        },
        None => DEFAULT_TIMEOUT_MS,
    }
}

impl Quiesce {
    /// A gate that has not been overrun, as the two variables ask for it.
    pub fn new(samples_var: Option<&str>, timeout_var: Option<&str>) -> (q: Self)
        ensures
            q@ == (QuiesceView {
                samples: samples_asked(set_to(samples_var)),
                timeout_ms: timeout_asked(set_to(timeout_var)),
                timeouts: 0,
            }),
    {
        Quiesce {
            samples: clean_samples(samples_var),
            timeout_ms: timeout(timeout_var),
            timeouts: 0,
        }
    }

    /// How long to hold out, in milliseconds.
    pub fn timeout_ms(&self) -> (ms: u64)
        ensures
            ms == self@.timeout_ms,
    {
        self.timeout_ms
    }
}

/// How long a clean run of samples takes to confirm quiescence, in microseconds.
///
/// The cost paid after every granted tick, so callers with a fixed wall-clock
/// budget can say what widening the window will cost them.
pub fn confirm_window(q: &Quiesce) -> (usec: u64)
    ensures
        usec == POLL_USEC * q@.samples,
        usec == q@.window_usec(),
{
    assert(400 * q.samples <= 400 * 0xFFFF_FFFF);
    POLL_USEC * q.samples as u64
}

/// Timeouts recorded since the last [`reset`].
///
/// **Zero is not proof of health.** This counts only the LATE failure, giving up.
/// It cannot see the early one: samples that were all clean because the tick's
/// woken tasks had not been marked `R` yet.
pub fn timeouts(q: &Quiesce) -> (n: u64)
    ensures
        n == q@.timeouts,
{
    q.timeouts
}

/// Zero the counter. Call before a run whose quiescence you intend to report.
pub fn reset(q: &mut Quiesce)
    ensures
        final(q)@ == (QuiesceView { timeouts: 0, ..old(q)@ }),
        final(q)@ == old(q)@.cleared(),
{
    q.timeouts = 0;
}

/// One look at the process while waiting.
#[derive(Debug, Clone, Copy, PartialEq, Eq, Structural)]
pub enum Glance {
    /// The timeout has elapsed, so there was no look.
    Expired,
    /// The process is gone; the caller will notice.
    Gone,
    /// Some thread is runnable.
    Runnable,
    /// Every thread is blocked.
    Blocked,
}

/// What to do after a look.
#[derive(Debug, Clone, Copy, PartialEq, Eq, Structural)]
pub enum Waiting {
    /// Waiting is over.
    Over,
    /// Sleep, then look again; `clean` samples in a row were all blocked.
    Poll { clean: u32 },
}

/// What to do after a look, with `clean` blocked samples in a row before it.
pub open spec fn after_glance(samples: u32, clean: u32, glance: Glance) -> Waiting {
    match glance {
        Glance::Expired => Waiting::Over,
        Glance::Gone => Waiting::Over,
        Glance::Runnable => Waiting::Poll { clean: 0 },
        Glance::Blocked => if clean + 1 >= samples {
            Waiting::Over
        } else {
            Waiting::Poll { clean: (clean + 1) as u32 }
        },
    }
}

/// One step of waiting until no thread is runnable, or the timeout elapses.
///
/// Timing out is not an error in the sense that it aborts nothing: stalling the
/// whole run over a genuinely busy process would be worse. But it is the harness
/// choosing to move on while cFS is mid-flight, so it is COUNTED (see
/// [`timeouts`]) rather than passed over in silence.
pub fn wait(q: &mut Quiesce, clean: u32, glance: Glance) -> (w: Waiting)
    ensures
        w == after_glance(old(q)@.samples, clean, glance),
        final(q)@ == (QuiesceView {
            timeouts: if glance is Expired {
                ((old(q)@.timeouts + 1) % 0x1_0000_0000_0000_0000) as u64
            } else {
                old(q)@.timeouts
            },
            ..old(q)@
        }),
        final(q)@ == old(q)@.after(glance),
{
    match glance {
        Glance::Expired => {
            q.timeouts = q.timeouts.wrapping_add(1);
            Waiting::Over
        },
        Glance::Gone => Waiting::Over,
        Glance::Runnable => Waiting::Poll { clean: 0 },
        Glance::Blocked => if clean as u64 + 1 >= q.samples as u64 {
            Waiting::Over
        } else {
            Waiting::Poll { clean: clean + 1 }
        },
    }
}

/// Where waiting stands after a series of looks at a live process, each of which
/// found some thread runnable or none. `None` once it is over.
pub open spec fn watched(samples: u32, runnable: Seq<bool>) -> Option<u32>
    decreases runnable.len(),
{
    if runnable.len() == 0 {
        Some(0)
    } else {
        match watched(samples, runnable.drop_last()) {
            None => None,
            Some(clean) => match after_glance(
                samples,
                clean,
                if runnable.last() {
                    Glance::Runnable
                } else {
                    Glance::Blocked
                },
            ) {
                Waiting::Over => None,
                Waiting::Poll { clean } => Some(clean),
            },
        }
    }
}

/// Were `n` samples in a row clean, from the one at `i` on?
pub open spec fn clean_from(runnable: Seq<bool>, i: int, n: int) -> bool {
    0 <= i && i + n <= runnable.len() && forall|j: int| i <= j < i + n ==> !#[trigger] runnable[j]
}

proof fn lemma_watched(samples: u32, runnable: Seq<bool>)
    requires
        samples > 0,
    ensures
        match watched(samples, runnable) {
            None => exists|i: int| clean_from(runnable, i, samples as int),
            Some(clean) => {
                &&& clean < samples
                &&& clean <= runnable.len()
                &&& clean_from(runnable, runnable.len() - clean, clean as int)
                &&& clean < runnable.len() ==> runnable[runnable.len() - clean - 1]
                &&& forall|i: int| !#[trigger] clean_from(runnable, i, samples as int)
            },
        },
    decreases runnable.len(),
{
    if runnable.len() > 0 {
        let front = runnable.drop_last();
        let n = runnable.len();
        lemma_watched(samples, front);
        match watched(samples, front) {
            None => {
                let i = choose|i: int| clean_from(front, i, samples as int);
                assert forall|j: int| i <= j < i + samples implies !#[trigger] runnable[j] by {
                    assert(!front[j]);
                }
                assert(clean_from(runnable, i, samples as int));
            },
            Some(clean) => {
                if !runnable.last() {
                    assert forall|j: int|
                        n - clean - 1 <= j < n implies !#[trigger] runnable[j] by {
                        if j < n - 1 {
                            assert(!front[j]);
                        }
                    }
                    assert(clean_from(runnable, n - clean - 1, clean + 1));
                    if clean + 1 >= samples {
                        assert(clean_from(runnable, n - samples, samples as int));
                    }
                }
                if watched(samples, runnable) is Some {
                    assert forall|i: int| !#[trigger] clean_from(runnable, i, samples as int) by {
                        if clean_from(runnable, i, samples as int) {
                            if i + samples < n {
                                assert forall|j: int|
                                    i <= j < i + samples implies !#[trigger] front[j] by {
                                    assert(!runnable[j]);
                                }
                                assert(clean_from(front, i, samples as int));
                            } else {
                                assert(!runnable[n - 1]);
                                if clean + 1 < samples {
                                    assert(!runnable[n - clean - 2]);
                                    assert(front[n - 1 - clean - 1]);
                                }
                            }
                        }
                    }
                }
            },
        }
    }
}

/// Requiring consecutive clean samples is what makes quiescence hold: as long as
/// the process lives and the timeout has not elapsed, waiting is over exactly once
/// as many samples in a row as were asked for found no thread runnable.
pub proof fn quiet_means_consecutive_clean_samples(samples: u32, runnable: Seq<bool>)
    requires
        samples > 0,
    ensures
        watched(samples, runnable) is None <==> exists|i: int|
            clean_from(runnable, i, samples as int),
{
    lemma_watched(samples, runnable);
    if watched(samples, runnable) is Some {
        assert forall|i: int| !clean_from(runnable, i, samples as int) by {}
    }
}

/// What follows the last closing parenthesis, if there is one.
pub open spec fn after_last_paren(s: Seq<char>) -> Option<Seq<char>>
    decreases s.len(),
{
    if s.len() == 0 {
        None
    } else if s.last() == ')' {
        Some(Seq::empty())
    } else {
        match after_last_paren(s.drop_last()) {
            Some(rest) => Some(rest.push(s.last())),
            None => None,
        }
    }
}

/// The characters in front of the first white space.
pub open spec fn word(s: Seq<char>) -> Seq<char>
    decreases s.len(),
{
    if s.len() == 0 || white_space(s[0]) {
        Seq::empty()
    } else {
        seq![s[0]] + word(s.drop_first())
    }
}

/// The state that a thread's `stat` line gives.
///
/// The state field follows the parenthesised comm, which may itself contain spaces
/// or parens, so it is the first word after the LAST parenthesis.
pub open spec fn thread_state(stat: Seq<char>) -> Option<Seq<char>> {
    match after_last_paren(stat) {
        Some(rest) => if trim_start(rest).len() == 0 {
            None
        } else {
            Some(word(trim_start(rest)))
        },
        None => None,
    }
}

/// Whether any thread is runnable, going by the threads' `stat` lines. `None` if no
/// line gives a state.
pub open spec fn runnable_among(stats: Seq<Seq<char>>) -> Option<bool> {
    if exists|i: int| 0 <= i < stats.len() && thread_state(#[trigger] stats[i]) == Some(seq!['R']) {
        Some(true)
    } else if exists|i: int| 0 <= i < stats.len() && thread_state(#[trigger] stats[i]) is Some {
        Some(false)
    } else {
        None
    }
}

/// The characters of each of some strings.
pub open spec fn texts(s: Seq<String>) -> Seq<Seq<char>> {
    s.map_values(|t: String| t@)
}

proof fn lemma_after_last_paren(s: Seq<char>, at: int)
    requires
        0 <= at < s.len(),
        s[at] == ')',
        forall|j: int| at < j < s.len() ==> #[trigger] s[j] != ')',
    ensures
        after_last_paren(s) == Some(s.skip(at + 1)),
    decreases s.len(),
{
    if at == s.len() - 1 {
        assert(s.skip(at + 1) =~= Seq::<char>::empty());
    } else {
        let front = s.drop_last();
        assert(s[s.len() - 1] != ')');
        assert forall|j: int| at < j < front.len() implies #[trigger] front[j] != ')' by {
            assert(s[j] != ')');
        }
        lemma_after_last_paren(front, at);
        assert(front.skip(at + 1).push(s.last()) =~= s.skip(at + 1));
    }
}

proof fn lemma_no_paren(s: Seq<char>)
    requires
        forall|j: int| 0 <= j < s.len() ==> #[trigger] s[j] != ')',
    ensures
        after_last_paren(s) is None,
    decreases s.len(),
{
    if s.len() > 0 {
        assert(s[s.len() - 1] != ')');
        assert forall|j: int| 0 <= j < s.drop_last().len() implies #[trigger] s.drop_last()[j]
            != ')' by {
            assert(s[j] != ')');
        }
        lemma_no_paren(s.drop_last());
    }
}

/// Whether a thread is runnable, going by its `stat` line. `None` if the line gives
/// no state.
pub fn is_runnable(stat: &str) -> (r: Option<bool>)
    ensures
        r == match thread_state(stat@) {
            Some(state) => Some(state == seq!['R']),
            None => None,
        },
{
    let chars: Vec<char> = chars_of(stat);
    let ghost all = chars@;
    let mut end: usize = chars.len();
    while end > 0 && chars[end - 1] != ')'
        invariant
            end <= chars@.len(),
            chars@ == all,
            forall|j: int| end <= j < all.len() ==> #[trigger] all[j] != ')',
        decreases end,
    {
        end = end - 1;
    }
    if end == 0 {
        proof {
            lemma_no_paren(all);
        }
        return None;
    }
    proof {
        lemma_after_last_paren(all, end - 1);
    }
    let ghost rest = all.skip(end as int);
    let mut from: usize = end;
    assert(rest =~= all.skip(from as int));
    while from < chars.len() && is_white_space(chars[from])
        invariant
            end <= from <= chars@.len(),
            chars@ == all,
            trim_start(all.skip(from as int)) == trim_start(rest),
        decreases chars.len() - from,
    {
        assert(all.skip(from as int).drop_first() =~= all.skip(from as int + 1));
        from = from + 1;
    }
    let ghost body = all.skip(from as int);
    assert(trim_start(body) == body);
    if from == chars.len() {
        return None;
    }
    let one: bool = from + 1 == chars.len() || is_white_space(chars[from + 1]);
    proof {
        reveal_with_fuel(word, 2);
        let tail = body.drop_first();
        assert(word(body) == seq![body[0]] + word(tail));
        assert(tail.len() > 0 ==> tail[0] == all[from + 1]);
        if one {
            assert(word(body) =~= seq![body[0]]);
            assert(seq![body[0]] == seq!['R'] ==> seq![body[0]][0] == seq!['R'][0]);
        } else {
            assert(word(tail).len() > 0);
            assert(word(body).len() > 1);
            assert(word(body) != seq!['R']);
        }
    }
    Some(one && chars[from] == 'R')
}

/// Whether any thread is runnable, going by the threads' `stat` lines. `None` if
/// there is no thread left. A line without a state is a thread that exited
/// mid-scan.
pub fn any_runnable(stats: &Vec<String>) -> (r: Option<bool>)
    ensures
        r == runnable_among(texts(stats@)),
{
    let ghost all = texts(stats@);
    let mut saw_any: bool = false;
    let mut i: usize = 0;
    while i < stats.len()
        invariant
            i <= stats@.len(),
            all == texts(stats@),
            forall|j: int| 0 <= j < i ==> thread_state(#[trigger] all[j]) != Some(seq!['R']),
            saw_any <==> exists|j: int| 0 <= j < i && thread_state(#[trigger] all[j]) is Some,
        decreases stats.len() - i,
    {
        assert(all[i as int] == stats@[i as int]@);
        match is_runnable(stats[i].as_str()) {
            Some(running) => {
                assert(thread_state(all[i as int]) is Some);
                saw_any = true;
                if running {
                    return Some(true);
                }
            },
            None => {},
        }
        i = i + 1;
    }
    if saw_any {
        Some(false)
    } else {
        None
    }
}

} // verus!
