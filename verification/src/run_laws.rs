//! What holds of a scripted scenario from its first report to its last.

use vstd::prelude::*;
use crate::ccsds::PacketView;
use crate::run::{
    packets_in, Phase, ReportView, RunError, RunView, BOOT_TICKS, ENABLE_TICKS, GUARD, SETTLED,
};
use crate::transcript::TranscriptView;

verus! {

/// Every run stays within its limits, whatever it is told.
pub proof fn a_run_stays_well_formed(v: RunView, report: ReportView)
    requires
        v.wf(),
    ensures
        v.next(report) matches Ok(w) ==> w.wf() && w.ticks == v.ticks,
{
}

/// The run after a series of reports; an error ends it.
pub open spec fn flown(v: RunView, reports: Seq<ReportView>) -> Result<RunView, RunError>
    decreases reports.len(),
{
    if reports.len() == 0 {
        Ok(v)
    } else {
        match flown(v, reports.drop_last()) {
            Ok(w) => w.next(reports.last()),
            Err(e) => Err(e),
        }
    }
}

/// Is a tick granted in this phase?
pub open spec fn grants(phase: Phase) -> bool {
    phase is Boot || phase is Enable || phase is Sync || phase is Record
}

/// Is `report` the answer to what a run in this phase asks?
pub open spec fn answers(phase: Phase, report: ReportView) -> bool {
    match phase {
        Phase::Boot { .. } => report is Booting,
        Phase::AwaitPort => report is CommandPort,
        Phase::SendEnable => report is Sent,
        Phase::CheckEnabled => report is Enabled,
        Phase::SendSubscribe => report is Sent,
        Phase::Done => false,
        _ => report is Drained,
    }
}

/// How many ticks were granted over a series of reports.
pub open spec fn ticks_granted(v: RunView, reports: Seq<ReportView>) -> nat
    decreases reports.len(),
{
    if reports.len() == 0 {
        0
    } else {
        ticks_granted(v, reports.drop_last()) + match flown(v, reports.drop_last()) {
            Ok(w) => if grants(w.phase) && answers(w.phase, reports.last()) {
                1nat
            } else {
                0
            },
            Err(_) => 0,
        }
    }
}

/// How many ticks a run that has come this far has been granted.
pub open spec fn ticks_so_far(v: RunView) -> nat {
    match v.phase {
        Phase::Boot { granted } => granted as nat,
        Phase::AwaitPort => BOOT_TICKS as nat,
        Phase::SendEnable => BOOT_TICKS as nat,
        Phase::Enable { granted } => (BOOT_TICKS + granted) as nat,
        Phase::CheckEnabled => (BOOT_TICKS + ENABLE_TICKS) as nat,
        Phase::SendSubscribe => (BOOT_TICKS + ENABLE_TICKS) as nat,
        Phase::Quiet => (BOOT_TICKS + ENABLE_TICKS) as nat,
        Phase::Sync { granted } => (BOOT_TICKS + ENABLE_TICKS + granted) as nat,
        Phase::Record { granted } => (BOOT_TICKS + ENABLE_TICKS + v.sync_ticks + granted) as nat,
        Phase::Settle { .. } => (BOOT_TICKS + ENABLE_TICKS + v.sync_ticks + v.ticks) as nat,
        Phase::Done => (BOOT_TICKS + ENABLE_TICKS + v.sync_ticks + v.ticks) as nat,
    }
}

/// The handshakes cost the same simulated time every run: how many ticks have been
/// granted depends on how far the run is, and not on how fast the host was or what
/// the flight software answered. The boot takes exactly its ticks, the downlink
/// exactly its own, and a run that is over was granted its whole budget on top of
/// what it took to get in phase.
pub proof fn time_granted_is_fixed(ticks: u32, reports: Seq<ReportView>)
    requires
        ticks > GUARD,
    ensures
        flown(RunView::start(ticks), reports) matches Ok(v) ==> {
            &&& v.wf()
            &&& v.ticks == ticks
            &&& ticks_granted(RunView::start(ticks), reports) == ticks_so_far(v)
        },
    decreases reports.len(),
{
    if reports.len() > 0 {
        time_granted_is_fixed(ticks, reports.drop_last());
    }
}

/// The packets that were drained over a series of reports, on ticks in front of the
/// guard band.
pub open spec fn window_packets(v: RunView, reports: Seq<ReportView>) -> Seq<PacketView>
    decreases reports.len(),
{
    if reports.len() == 0 {
        Seq::empty()
    } else {
        let front = window_packets(v, reports.drop_last());
        match (flown(v, reports.drop_last()), reports.last()) {
            (Ok(w), ReportView::Drained { datagrams }) => if w.in_window() {
                front + packets_in(datagrams)
            } else {
                front
            },
            _ => front,
        }
    }
}

/// Recording one series of packets and then another is recording both in turn.
pub proof fn recording_goes_on(t: TranscriptView, p: Seq<PacketView>, q: Seq<PacketView>)
    ensures
        t.record_all(p).record_all(q) == t.record_all(p + q),
    decreases q.len(),
{
    if q.len() == 0 {
        assert(p + q =~= p);
    } else {
        assert((p + q).drop_last() =~= p + q.drop_last());
        assert((p + q).last() == q.last());
        recording_goes_on(t, p, q.drop_last());
    }
}

/// The record holds the window and nothing else: what was drained while cFS booted,
/// while the downlink came up, before the run was in phase, in the guard band or
/// while the run settled is on no record.
pub proof fn the_record_is_the_window(ticks: u32, reports: Seq<ReportView>)
    requires
        ticks > GUARD,
    ensures
        flown(RunView::start(ticks), reports) matches Ok(v) ==> v.record
            == TranscriptView::empty().record_all(window_packets(RunView::start(ticks), reports)),
    decreases reports.len(),
{
    let start = RunView::start(ticks);
    if reports.len() > 0 {
        let front = reports.drop_last();
        the_record_is_the_window(ticks, front);
        time_granted_is_fixed(ticks, front);
        match (flown(start, front), reports.last()) {
            (Ok(w), ReportView::Drained { datagrams }) => {
                if w.in_window() {
                    recording_goes_on(
                        TranscriptView::empty(),
                        window_packets(start, front),
                        packets_in(datagrams),
                    );
                }
            },
            _ => {},
        }
    }
}

/// How many of a series of reports were on ticks in front of the guard band.
pub open spec fn window_ticks(v: RunView, reports: Seq<ReportView>) -> nat
    decreases reports.len(),
{
    if reports.len() == 0 {
        0
    } else {
        window_ticks(v, reports.drop_last()) + match flown(v, reports.drop_last()) {
            Ok(w) => if w.in_window() && reports.last() is Drained {
                1nat
            } else {
                0
            },
            Err(_) => 0,
        }
    }
}

/// The recorded window ends at a simulated time we chose: a run past its last tick
/// recorded all of its budget but the guard band.
pub proof fn the_window_leaves_the_guard_band(ticks: u32, reports: Seq<ReportView>)
    requires
        ticks > GUARD,
    ensures
        flown(RunView::start(ticks), reports) matches Ok(v) ==> window_ticks(
            RunView::start(ticks),
            reports,
        ) == match v.phase {
            Phase::Record { granted } => if granted < ticks - GUARD {
                granted as int
            } else {
                ticks - GUARD
            },
            Phase::Settle { .. } => ticks - GUARD,
            Phase::Done => ticks - GUARD,
            _ => 0int,
        },
    decreases reports.len(),
{
    if reports.len() > 0 {
        time_granted_is_fixed(ticks, reports.drop_last());
        the_window_leaves_the_guard_band(ticks, reports.drop_last());
    }
}

/// Did this pass come up empty?
pub open spec fn is_empty_pass(report: ReportView) -> bool {
    match report {
        ReportView::Drained { datagrams } => packets_in(datagrams).len() == 0,
        _ => false,
    }
}

/// The run settles: after the last tick it is over exactly once two passes in a row
/// came up empty, and only packets in flight keep it going.
pub proof fn settling_takes_two_empty_passes(v: RunView, passes: Seq<ReportView>)
    requires
        v.wf(),
        v.phase == (Phase::Settle { idle: 0 }),
        forall|i: int| 0 <= i < passes.len() ==> #[trigger] passes[i] is Drained,
    ensures
        flown(v, passes) matches Ok(w) && (w.phase is Done <==> exists|i: int|
            0 <= i < passes.len() - 1 && #[trigger] is_empty_pass(passes[i]) && is_empty_pass(
                passes[i + 1],
            )),
{
    lemma_settling(v, passes);
}

proof fn lemma_settling(v: RunView, passes: Seq<ReportView>)
    requires
        v.wf(),
        v.phase == (Phase::Settle { idle: 0 }),
        forall|i: int| 0 <= i < passes.len() ==> #[trigger] passes[i] is Drained,
    ensures
        flown(v, passes) is Ok,
        ({
            let n = passes.len() as int;
            match flown(v, passes)->Ok_0.phase {
                Phase::Done => exists|i: int|
                    0 <= i < n - 1 && #[trigger] is_empty_pass(passes[i]) && is_empty_pass(
                        passes[i + 1],
                    ),
                Phase::Settle { idle } => {
                    &&& idle < SETTLED
                    &&& idle == 1 <==> n > 0 && is_empty_pass(passes[n - 1])
                    &&& forall|i: int|
                        0 <= i < n - 1 && #[trigger] is_empty_pass(passes[i]) ==> !is_empty_pass(
                            passes[i + 1],
                        )
                },
                _ => false,
            }
        }),
    decreases passes.len(),
{
    if passes.len() > 0 {
        let front = passes.drop_last();
        let n = passes.len() as int;
        assert forall|i: int| 0 <= i < front.len() implies #[trigger] front[i] is Drained by {
            assert(passes[i] is Drained);
        }
        lemma_settling(v, front);
        let w = flown(v, front)->Ok_0;
        assert(passes[n - 1] is Drained);
        match w.phase {
            Phase::Done => {
                let i = choose|i: int|
                    0 <= i < n - 2 && #[trigger] is_empty_pass(front[i]) && is_empty_pass(
                        front[i + 1],
                    );
                assert(is_empty_pass(passes[i]) && is_empty_pass(passes[i + 1]));
            },
            Phase::Settle { idle } => {
                if idle == 1 && is_empty_pass(passes[n - 1]) {
                    assert(is_empty_pass(passes[n - 2]));
                } else {
                    assert forall|i: int|
                        0 <= i < n - 1 && #[trigger] is_empty_pass(
                            passes[i],
                        ) implies !is_empty_pass(passes[i + 1]) by {
                        if i < n - 2 {
                            assert(is_empty_pass(front[i]));
                        }
                    }
                }
            },
            _ => {},
        }
    }
}

/// A run whose flight software answers is never stuck: whatever is asked for, an
/// answer to it either moves the run on or, where it is a refusal, ends it.
pub proof fn an_answer_moves_the_run(v: RunView, report: ReportView)
    requires
        v.wf(),
        answers(v.phase, report),
        !(v.phase == (Phase::Settle { idle: 0 }) && !is_empty_pass(report)),
    ensures
        v.next(report) matches Ok(w) ==> w.phase != v.phase,
{
}

} // verus!
