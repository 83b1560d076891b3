//! The verdict on two runs of one scenario.
//!
//! A placement difference can arise in two ways, and conflating them is how a
//! determinism harness earns a reputation for flakiness. Where the harness stalled,
//! the host was too loaded to grant ticks cleanly, and the runs say nothing about
//! the flight software either way.

use vstd::prelude::*;
use crate::ccsds::MsgId;
use crate::streams::{differences, max_shift, same_stream, shift_size, ticks_moved, Shift};
use crate::transcript::{EntryView, Transcript};

verus! {

/// What two runs of one scenario show.
#[derive(Debug, Clone, Copy, PartialEq, Eq, Structural)]
pub enum Verdict {
    /// A run recorded no telemetry, so nothing was verified. Two empty transcripts
    /// compare equal; passing them would be passing with the downlink dead.
    NoTelemetry,
    /// The packet streams differ.
    StreamsDiffer,
    /// The same stream, placed on the same ticks.
    Reproducible,
    /// The same stream on other ticks. Without cooperative scheduling placement is
    /// not guaranteed, and only the stream is checked.
    StreamOnly,
    /// Placement differs, but the harness granted time while cFS was still
    /// reacting.
    Inconclusive,
    /// Placement differs with quiescence clean throughout: the flight software's
    /// timing changed.
    PlacementMoved,
}

impl Verdict {
    /// Does the check pass?
    pub open spec fn is_pass(self) -> bool {
        self is Reproducible || self is StreamOnly
    }

    /// Does the check pass?
    pub fn passes(&self) -> (r: bool)
        ensures
            r == self.is_pass(),
    {
        match self {
            Verdict::Reproducible => true,
            Verdict::StreamOnly => true,
            _ => false,
        }
    }
}

/// The verdict on two runs over which the harness stalled `stalls` times.
pub open spec fn verdict_on(
    a: Seq<EntryView>,
    b: Seq<EntryView>,
    stalls: int,
    coop: bool,
) -> Verdict {
    if a.len() == 0 || b.len() == 0 {
        Verdict::NoTelemetry
    } else if !same_stream(a, b) {
        Verdict::StreamsDiffer
    } else if differences(a, b).len() == 0 {
        Verdict::Reproducible
    } else if !coop {
        Verdict::StreamOnly
    } else if stalls > 0 {
        Verdict::Inconclusive
    } else {
        Verdict::PlacementMoved
    }
}

/// Two runs of one scenario, compared.
#[derive(Debug)]
pub struct Comparison {
    pub verdict: Verdict,
    /// Times that the harness stalled over both runs.
    pub stalls: u128,
    /// The packets whose tick placement moved, each by how many ticks.
    pub shifted: Vec<(MsgId, u64)>,
    /// The largest of these shifts.
    pub max_shift: u64,
}

/// By how many ticks each packet moved.
pub open spec fn shift_sizes(s: Seq<Shift>) -> Seq<(MsgId, u64)> {
    s.map_values(|d: Shift| (d.0, shift_size(d) as u64))
}

/// Compare two runs of one scenario. Under cooperative scheduling tick placement is
/// a guarantee, so a difference fails; without it the stream alone is checked.
pub fn compare(a: &Transcript, b: &Transcript, stalls_a: u64, stalls_b: u64, coop: bool) -> (c:
    Comparison)
    ensures
        c.verdict == verdict_on(a@.entries, b@.entries, stalls_a + stalls_b, coop),
        c.stalls == stalls_a + stalls_b,
        c.shifted@ == shift_sizes(differences(a@.entries, b@.entries)),
        c.max_shift == max_shift(differences(a@.entries, b@.entries)),
{
    let stalls: u128 = stalls_a as u128 + stalls_b as u128;
    let moved: Vec<Shift> = a.differences(b);
    let max_shift: u64 = a.max_shift_ticks(b);
    let mut shifted: Vec<(MsgId, u64)> = Vec::new();
    let mut i: usize = 0;
    while i < moved.len()
        invariant
            i <= moved@.len(),
            shifted@ == shift_sizes(moved@.take(i as int)),
        decreases moved.len() - i,
    {
        shifted.push((moved[i].0, ticks_moved(&moved[i])));
        i = i + 1;
        assert(shifted@ =~= shift_sizes(moved@.take(i as int)));
    }
    assert(moved@.take(moved@.len() as int) =~= moved@);
    let verdict: Verdict = if a.is_empty() || b.is_empty() {
        Verdict::NoTelemetry
    } else if !a.same_stream(b) {
        Verdict::StreamsDiffer
    } else if moved.len() == 0 {
        Verdict::Reproducible
    } else if !coop {
        Verdict::StreamOnly
    } else if stalls > 0 {
        Verdict::Inconclusive
    } else {
        Verdict::PlacementMoved
    };
    Comparison { verdict, stalls, shifted, max_shift }
}

} // verus!
