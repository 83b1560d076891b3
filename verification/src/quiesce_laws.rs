//! What holds of waiting for quiescence: which lines count, and what one look changes.

use vstd::prelude::*;
use crate::quiesce::{
    after_glance, after_last_paren, runnable_among, samples_asked, thread_state,
    timeout_asked, watched, word, Glance, QuiesceView, Waiting,
};
use crate::text::{trim_start, white_space};
use crate::text_laws::{a_number_is_read_as_it_shows, shown};

verus! {

/// One runnable thread is enough, wherever its line stands, and nothing else is: the
/// answer is yes exactly if some line gives the state `R`, it is no if none does and
/// some line gives a state, and without any state there is no answer.
pub proof fn one_runnable_thread_is_enough(stats: Seq<Seq<char>>)
    ensures
        forall|i: int|
            0 <= i < stats.len() && thread_state(#[trigger] stats[i]) == Some(seq!['R'])
                ==> runnable_among(stats) == Some(true),
        runnable_among(stats) == Some(true) ==> exists|i: int|
            0 <= i < stats.len() && thread_state(#[trigger] stats[i]) == Some(seq!['R']),
        forall|i: int|
            0 <= i < stats.len() && thread_state(#[trigger] stats[i]) is Some ==> runnable_among(
                stats,
            ) is Some,
        runnable_among(stats) is Some ==> exists|i: int|
            0 <= i < stats.len() && thread_state(#[trigger] stats[i]) is Some,
{
}

/// Threads can be looked at in parts: some thread is runnable if one is in either
/// part, and there is no answer only if neither part gives one.
pub proof fn threads_are_looked_at_in_any_parts(a: Seq<Seq<char>>, b: Seq<Seq<char>>)
    ensures
        runnable_among(a + b) == match (runnable_among(a), runnable_among(b)) {
            (None, r) => r,
            (r, None) => r,
            (Some(x), Some(y)) => Some(x || y),
        },
        runnable_among(a + b) == runnable_among(b + a),
{
    let s = a + b;
    let t = b + a;
    assert forall|i: int| 0 <= i < a.len() implies #[trigger] a[i] == s[i] && a[i] == t[b.len() + i] by {}
    assert forall|i: int| 0 <= i < b.len() implies #[trigger] b[i] == s[a.len() + i] && b[i] == t[i] by {}
    assert forall|i: int| 0 <= i < s.len() implies #[trigger] s[i] == if i < a.len() {
        a[i]
    } else {
        b[i - a.len()]
    } by {}
    assert forall|i: int| 0 <= i < t.len() implies #[trigger] t[i] == if i < b.len() {
        b[i]
    } else {
        a[i - b.len()]
    } by {}
}

/// The order of the lines does not matter, nor how often one is there: two lists of
/// the same lines give the same answer.
pub proof fn the_order_of_threads_does_not_matter(a: Seq<Seq<char>>, b: Seq<Seq<char>>)
    requires
        forall|l: Seq<char>| #[trigger] a.contains(l) <==> b.contains(l),
    ensures
        runnable_among(a) == runnable_among(b),
{
    assert forall|i: int| 0 <= i < a.len() implies b.contains(#[trigger] a[i]) by {
        assert(a.contains(a[i]));
    }
    assert forall|i: int| 0 <= i < b.len() implies a.contains(#[trigger] b[i]) by {
        assert(b.contains(b[i]));
    }
}

/// One thread decides for itself, and without threads there is no answer.
pub proof fn a_single_thread_decides(stat: Seq<char>)
    ensures
        runnable_among(seq![stat]) == match thread_state(stat) {
            Some(state) => Some(state == seq!['R']),
            None => None,
        },
        runnable_among(Seq::<Seq<char>>::empty()) is None,
{
    assert(seq![stat][0] == stat);
}

/// More lines never take back that a thread is runnable.
pub proof fn more_threads_stay_runnable(
    front: Seq<Seq<char>>,
    stats: Seq<Seq<char>>,
    back: Seq<Seq<char>>,
)
    requires
        runnable_among(stats) == Some(true),
    ensures
        runnable_among(front + stats + back) == Some(true),
{
    threads_are_looked_at_in_any_parts(front, stats);
    threads_are_looked_at_in_any_parts(front + stats, back);
}

/// Whatever stands in front of the last parenthesis does not matter.
pub proof fn the_last_parenthesis_ends_the_name(name: Seq<char>, rest: Seq<char>)
    requires
        !rest.contains(')'),
    ensures
        after_last_paren(name + seq![')'] + rest) == Some(rest),
        after_last_paren(rest) is None,
    decreases rest.len(),
{
    let s = name + seq![')'] + rest;
    if rest.len() == 0 {
        assert(rest =~= Seq::<char>::empty());
    } else {
        let less = rest.drop_last();
        assert forall|c: char| #[trigger] less.contains(c) implies rest.contains(c) by {
            let i = choose|i: int| 0 <= i < less.len() && less[i] == c;
            assert(rest[i] == c);
        }
        assert(rest.contains(rest[rest.len() - 1]));
        the_last_parenthesis_ends_the_name(name, less);
        assert(s.drop_last() =~= name + seq![')'] + less);
        assert(less.push(rest.last()) =~= rest);
    }
}

/// A word ends at the first white space, and at nothing else.
pub proof fn a_word_ends_at_white_space(s: Seq<char>, rest: Seq<char>)
    requires
        forall|i: int| 0 <= i < s.len() ==> !white_space(#[trigger] s[i]),
        rest.len() > 0 ==> white_space(rest[0]),
    ensures
        word(s + rest) == s,
    decreases s.len(),
{
    if s.len() == 0 {
        assert(s + rest =~= rest);
        assert(word(rest) =~= s);
    } else {
        let less = s.drop_first();
        assert forall|i: int| 0 <= i < less.len() implies !white_space(#[trigger] less[i]) by {
            assert(less[i] == s[i + 1]);
        }
        assert(!white_space(s[0]));
        a_word_ends_at_white_space(less, rest);
        assert((s + rest).drop_first() =~= less + rest);
        assert((s + rest)[0] == s[0]);
        assert(seq![s[0]] + less =~= s);
    }
}

/// White space in front of a text is all that trimming its front takes.
proof fn lemma_trim_start(blank: Seq<char>, s: Seq<char>)
    requires
        forall|i: int| 0 <= i < blank.len() ==> white_space(#[trigger] blank[i]),
        s.len() > 0 ==> !white_space(s[0]),
    ensures
        trim_start(blank + s) == s,
    decreases blank.len(),
{
    if blank.len() == 0 {
        assert(blank + s =~= s);
    } else {
        let less = blank.drop_first();
        assert forall|i: int| 0 <= i < less.len() implies white_space(#[trigger] less[i]) by {
            assert(less[i] == blank[i + 1]);
        }
        assert(white_space(blank[0]));
        lemma_trim_start(less, s);
        assert((blank + s).drop_first() =~= less + s);
        assert((blank + s)[0] == blank[0]);
    }
}

/// A thread's state is the word behind its name, whatever the name holds: spaces,
/// parentheses, or what looks like a state. A line that ends with the name gives none,
/// nor does one without a name.
pub proof fn the_state_follows_the_name(
    name: Seq<char>,
    blank: Seq<char>,
    state: Seq<char>,
    rest: Seq<char>,
)
    requires
        forall|i: int| 0 <= i < blank.len() ==> white_space(#[trigger] blank[i]),
        forall|i: int| 0 <= i < state.len() ==> !white_space(#[trigger] state[i]),
        state.len() > 0,
        rest.len() > 0 ==> white_space(rest[0]),
        !blank.contains(')'),
        !state.contains(')'),
        !rest.contains(')'),
    ensures
        thread_state(name + seq![')'] + (blank + (state + rest))) == Some(state),
        thread_state(name + seq![')'] + blank) is None,
        thread_state(blank + (state + rest)) is None,
{
    let tail = blank + (state + rest);
    if tail.contains(')') {
        let i = choose|i: int| 0 <= i < tail.len() && tail[i] == ')';
        if i < blank.len() {
            assert(blank[i] == ')');
        } else if i < blank.len() + state.len() {
            assert(state[i - blank.len()] == ')');
        } else {
            assert(rest[i - blank.len() - state.len()] == ')');
        }
    }
    the_last_parenthesis_ends_the_name(name, tail);
    the_last_parenthesis_ends_the_name(name, blank);
    assert(!white_space(state[0]));
    assert((state + rest)[0] == state[0]);
    lemma_trim_start(blank, state + rest);
    lemma_trim_start(blank, Seq::<char>::empty());
    assert(blank + Seq::<char>::empty() =~= blank);
    a_word_ends_at_white_space(state, rest);
}

/// A look at a runnable process starts the count over, whatever it stood at; a blocked
/// one is one more; time running out or the process being gone ends the waiting.
pub proof fn one_look_at_the_process(samples: u32, clean: u32)
    ensures
        after_glance(samples, clean, Glance::Expired) is Over,
        after_glance(samples, clean, Glance::Gone) is Over,
        after_glance(samples, clean, Glance::Runnable) == (Waiting::Poll { clean: 0 }),
        clean + 1 < samples ==> after_glance(samples, clean, Glance::Blocked) == (Waiting::Poll {
            clean: (clean + 1) as u32,
        }),
        clean + 1 >= samples ==> after_glance(samples, clean, Glance::Blocked) is Over,
{
}

/// As many blocked looks in a row as were asked for end the waiting, and one fewer do
/// not, whatever came before a runnable one.
pub proof fn a_runnable_thread_starts_the_count_over(samples: u32, looks: Seq<bool>, n: nat)
    requires
        watched(samples, looks) is Some,
        samples > 0,
    ensures
        watched(samples, looks.push(true) + Seq::new(n, |i: int| false)) == if n >= samples {
            None::<u32>
        } else {
            Some(n as u32)
        },
    decreases n,
{
    let all = looks.push(true) + Seq::new(n, |i: int| false);
    if n == 0 {
        assert(all =~= looks.push(true));
        assert(looks.push(true).drop_last() =~= looks);
    } else {
        let less = (n - 1) as nat;
        a_runnable_thread_starts_the_count_over(samples, looks, less);
        assert(all.drop_last() =~= looks.push(true) + Seq::new(less, |i: int| false));
        assert(!all.last());
    }
}

/// Waiting asks for what its variables say: a number of samples, if it is one and not
/// zero, and a number of milliseconds. Otherwise it is three samples and two seconds.
pub proof fn waiting_asks_for_what_is_set(var: Seq<char>)
    ensures
        samples_asked(None) == 3,
        timeout_asked(None) == 2_000,
        samples_asked(Some(var)) == match shown(var, 10) {
            Some(n) => if 0 < n <= 0xFFFF_FFFF {
                n
            } else {
                3
            },
            None => 3int,
        },
        timeout_asked(Some(var)) == match shown(var, 10) {
            Some(n) => if 0 <= n <= 0xFFFF_FFFF_FFFF_FFFF {
                n
            } else {
                2_000
            },
            None => 2_000int,
        },
{
    a_number_is_read_as_it_shows(var, 10, u32::MAX as nat);
    a_number_is_read_as_it_shows(var, 10, u64::MAX as nat);
}

/// Every time that waiting gave up is counted, and nothing else is. What waiting asks
/// for stays.
pub proof fn only_giving_up_is_counted(q: QuiesceView, glance: Glance)
    ensures
        q.after(glance).samples == q.samples,
        q.after(glance).timeout_ms == q.timeout_ms,
        glance == Glance::Expired && q.timeouts < 0xFFFF_FFFF_FFFF_FFFF ==> q.after(glance).timeouts
            == q.timeouts + 1,
        glance == Glance::Expired && q.timeouts == 0xFFFF_FFFF_FFFF_FFFF ==> q.after(
            glance,
        ).timeouts == 0,
        glance != Glance::Expired ==> q.after(glance) == q,
        q.cleared().timeouts == 0,
        q.cleared().samples == q.samples,
        q.cleared().timeout_ms == q.timeout_ms,
{
}

/// Each sample that is asked for makes the confirmation window four hundred
/// microseconds longer.
pub proof fn each_sample_costs_the_same(q: QuiesceView, longer: QuiesceView)
    requires
        longer.samples == q.samples + 1,
    ensures
        longer.window_usec() == q.window_usec() + 400,
        q.samples == 0 ==> q.window_usec() == 0,
{
}

} // verus!
