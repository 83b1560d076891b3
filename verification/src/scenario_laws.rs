//! What holds of a scenario step by step: what is decoded of a datagram, what each
//! series of reports leads to, and what is asked for on the way.

use vstd::prelude::*;
use crate::ccsds::{command, decoded, PacketView};
use crate::fsw::{add_packet_payload, reported, FswState};
use crate::run::{
    boot_timeout_asked, canonical_clone, cfs_dir, ground_address, housekeeping, packets_in,
    polling_secs, state_in, states_in, ActionView, Phase, ReportView, RunError, RunView,
};
use crate::run_laws::{answers, flown, recording_goes_on};
use crate::text::decimal;
use crate::text_laws::{
    a_number_is_read_as_it_shows, all_digits, decimal_reads_back, reading, shown,
};
use crate::transcript::TranscriptView;

verus! {

/// Where every datagram is long enough to be a packet, each is decoded, in place.
pub proof fn every_datagram_is_decoded_in_place(d: Seq<Seq<u8>>)
    requires
        forall|i: int| 0 <= i < d.len() ==> (#[trigger] d[i]).len() >= 12,
    ensures
        packets_in(d).len() == d.len(),
        forall|i: int| 0 <= i < d.len() ==> #[trigger] packets_in(d)[i] == decoded(d[i]),
    decreases d.len(),
{
    if d.len() > 0 {
        let front = d.drop_last();
        assert forall|i: int| 0 <= i < front.len() implies (#[trigger] front[i]).len() >= 12 by {
            assert(front[i] == d[i]);
        }
        every_datagram_is_decoded_in_place(front);
        assert(d[d.len() - 1].len() >= 12);
        assert forall|i: int| 0 <= i < d.len() implies #[trigger] packets_in(d)[i] == decoded(
            d[i],
        ) by {
            if i < front.len() {
                assert(packets_in(d)[i] == packets_in(front)[i]);
            }
        }
    }
}

/// Datagrams are decoded in the order they came: what is in a series and in what
/// follows it is in both together, one after the other.
pub proof fn datagrams_are_decoded_in_order(d: Seq<Seq<u8>>, e: Seq<Seq<u8>>)
    ensures
        packets_in(d + e) == packets_in(d) + packets_in(e),
        states_in(d + e) == states_in(d) + states_in(e),
    decreases e.len(),
{
    if e.len() == 0 {
        assert(d + e =~= d);
        assert(packets_in(d) + packets_in(e) =~= packets_in(d));
        assert(states_in(d) + states_in(e) =~= states_in(d));
    } else {
        datagrams_are_decoded_in_order(d, e.drop_last());
        assert((d + e).drop_last() =~= d + e.drop_last());
        assert((d + e).last() == e.last());
        assert(packets_in(d + e) =~= packets_in(d) + packets_in(e));
        assert(states_in(d + e) =~= states_in(d) + states_in(e));
    }
}

/// One datagram of twelve bytes or more is one packet, and a shorter one is none. It
/// tells of the vehicle if it is a packet that does.
pub proof fn one_datagram_is_one_packet(d: Seq<u8>)
    ensures
        packets_in(seq![d]) == if d.len() >= 12 {
            seq![decoded(d)]
        } else {
            Seq::<PacketView>::empty()
        },
        states_in(seq![d]) == match reported(decoded(d).msg_id, d) {
            Some(f) => seq![f],
            None => Seq::<FswState>::empty(),
        },
        packets_in(Seq::<Seq<u8>>::empty()).len() == 0,
        states_in(Seq::<Seq<u8>>::empty()).len() == 0,
{
    reveal_with_fuel(packets_in, 2);
    reveal_with_fuel(states_in, 2);
    assert(seq![d].drop_last() =~= Seq::<Seq<u8>>::empty());
    assert(packets_in(seq![d]) =~= if d.len() >= 12 {
        seq![decoded(d)]
    } else {
        Seq::<PacketView>::empty()
    });
    assert(states_in(seq![d]) =~= match state_in(d) {
        Some(f) => seq![f],
        None => Seq::<FswState>::empty(),
    });
}

/// Housekeeping is found wherever it stands, and nothing else is taken for it.
pub proof fn housekeeping_is_found_anywhere(a: Seq<PacketView>, b: Seq<PacketView>, p: PacketView)
    ensures
        housekeeping(a + b) == (housekeeping(a) || housekeeping(b)),
        housekeeping(seq![p]) <==> p.msg_id == 0x0800,
        !housekeeping(Seq::<PacketView>::empty()),
{
    let s = a + b;
    assert forall|i: int| 0 <= i < a.len() implies #[trigger] a[i] == s[i] by {}
    assert forall|i: int| 0 <= i < b.len() implies #[trigger] b[i] == s[a.len() + i] by {}
    assert forall|i: int| 0 <= i < s.len() implies #[trigger] s[i] == if i < a.len() {
        a[i]
    } else {
        b[i - a.len()]
    } by {}
    assert(seq![p][0] == p);
}

/// Are these all reports on the boot, none of them that time ran out?
pub open spec fn booting(reports: Seq<ReportView>) -> bool {
    forall|i: int|
        0 <= i < reports.len() ==> (#[trigger] reports[i]) is Booting
            && !reports[i]->Booting_expired
}

/// Did one of these reports say that cFS is operational?
pub open spec fn said_operational(reports: Seq<ReportView>) -> bool {
    exists|i: int|
        0 <= i < reports.len() && (#[trigger] reports[i]) is Booting
            && reports[i]->Booting_operational
}

/// The boot takes four thousand ticks, whenever cFS said that it is operational. If it
/// never did, the run fails then and not before.
pub proof fn the_boot_takes_its_ticks(ticks: u32, reports: Seq<ReportView>)
    requires
        ticks > 120,
        booting(reports),
        reports.len() <= 4000,
    ensures
        flown(RunView::start(ticks), reports) == if reports.len() < 4000 {
            Ok::<RunView, RunError>(
                RunView {
                    phase: Phase::Boot { granted: reports.len() as u32 },
                    ticks,
                    booted: said_operational(reports),
                    sync_ticks: 0,
                    record: TranscriptView::empty(),
                },
            )
        } else if said_operational(reports) {
            Ok(
                RunView {
                    phase: Phase::AwaitPort,
                    ticks,
                    booted: true,
                    sync_ticks: 0,
                    record: TranscriptView::empty(),
                },
            )
        } else {
            Err(RunError::NeverOperational)
        },
    decreases reports.len(),
{
    if reports.len() > 0 {
        let front = reports.drop_last();
        let last = reports.last();
        assert forall|i: int| 0 <= i < front.len() implies (#[trigger] front[i]) is Booting
            && !front[i]->Booting_expired by {
            assert(front[i] == reports[i]);
        }
        assert(reports[reports.len() - 1] is Booting);
        the_boot_takes_its_ticks(ticks, front);
        assert(said_operational(reports) <==> said_operational(front)
            || last->Booting_operational) by {
            if said_operational(front) {
                let i = choose|i: int|
                    0 <= i < front.len() && (#[trigger] front[i]) is Booting
                        && front[i]->Booting_operational;
                assert(reports[i] == front[i]);
            }
            if last->Booting_operational {
                assert(reports[reports.len() - 1] == last);
            }
            if said_operational(reports) && !last->Booting_operational {
                let i = choose|i: int|
                    0 <= i < reports.len() && (#[trigger] reports[i]) is Booting
                        && reports[i]->Booting_operational;
                assert(front[i] == reports[i]);
            }
        }
    }
}

/// Between the boot and the scenario a run asks for one thing at a time, and nothing
/// but the phase changes.
pub proof fn the_handshake_goes_step_by_step(v: RunView, datagrams: Seq<Seq<u8>>)
    ensures
        v.phase == Phase::AwaitPort ==> {
            &&& v.next(ReportView::CommandPort { bound: true }) == Ok::<RunView, RunError>(
                RunView { phase: Phase::SendEnable, ..v },
            )
            &&& v.next(ReportView::CommandPort { bound: false }) == Err::<RunView, RunError>(
                RunError::NoCommandPort,
            )
        },
        v.phase == Phase::SendEnable ==> v.next(ReportView::Sent) == Ok::<RunView, RunError>(
            RunView { phase: Phase::Enable { granted: 0 }, ..v },
        ),
        v.phase == Phase::CheckEnabled ==> {
            &&& v.next(ReportView::Enabled { acknowledged: true }) == Ok::<RunView, RunError>(
                RunView { phase: Phase::SendSubscribe, ..v },
            )
            &&& v.next(ReportView::Enabled { acknowledged: false }) == Err::<RunView, RunError>(
                RunError::NeverEnabled,
            )
        },
        v.phase == Phase::SendSubscribe ==> v.next(ReportView::Sent) == Ok::<RunView, RunError>(
            RunView { phase: Phase::Quiet, ..v },
        ),
        v.phase == Phase::Quiet ==> v.next(ReportView::Drained { datagrams }) == Ok::<
            RunView,
            RunError,
        >(RunView { phase: Phase::Sync { granted: 0 }, ..v }),
{
}

/// Whatever was not asked for leaves a run as it is, and a run that is over stays over.
pub proof fn what_was_not_asked_for_is_ignored(v: RunView, report: ReportView)
    requires
        !answers(v.phase, report),
    ensures
        v.next(report) == Ok::<RunView, RunError>(v),
{
}

/// Are these all reports of draining the downlink?
pub open spec fn draining(reports: Seq<ReportView>) -> bool {
    forall|i: int| 0 <= i < reports.len() ==> (#[trigger] reports[i]) is Drained
}

/// The packets drained over a series of reports, in turn.
pub open spec fn drained(reports: Seq<ReportView>) -> Seq<PacketView>
    decreases reports.len(),
{
    if reports.len() == 0 {
        Seq::empty()
    } else {
        drained(reports.drop_last()) + packets_in(reports.last()->Drained_datagrams)
    }
}

proof fn lemma_draining(reports: Seq<ReportView>)
    requires
        draining(reports),
        reports.len() > 0,
    ensures
        draining(reports.drop_last()),
        reports.last() is Drained,
{
    let front = reports.drop_last();
    assert forall|i: int| 0 <= i < front.len() implies (#[trigger] front[i]) is Drained by {
        assert(front[i] == reports[i]);
    }
    assert(reports[reports.len() - 1] is Drained);
}

/// The downlink takes two hundred ticks to come up, whatever comes in meanwhile.
pub proof fn the_downlink_takes_its_ticks(v: RunView, reports: Seq<ReportView>)
    requires
        v.phase == (Phase::Enable { granted: 0 }),
        draining(reports),
        reports.len() <= 200,
    ensures
        flown(v, reports) == Ok::<RunView, RunError>(
            RunView {
                phase: if reports.len() < 200 {
                    Phase::Enable { granted: reports.len() as u32 }
                } else {
                    Phase::CheckEnabled
                },
                ..v
            },
        ),
    decreases reports.len(),
{
    if reports.len() > 0 {
        lemma_draining(reports);
        the_downlink_takes_its_ticks(v, reports.drop_last());
    }
}

/// The run gets in phase at the first housekeeping packet: until it comes nothing but
/// the count changes, and without one the run fails after fifteen hundred ticks.
pub proof fn a_run_waits_for_housekeeping(
    v: RunView,
    reports: Seq<ReportView>,
    datagrams: Seq<Seq<u8>>,
)
    requires
        v.phase == (Phase::Sync { granted: 0 }),
        draining(reports),
        !housekeeping(drained(reports)),
    ensures
        reports.len() < 1500 ==> {
            &&& flown(v, reports) == Ok::<RunView, RunError>(
                RunView { phase: Phase::Sync { granted: reports.len() as u32 }, ..v },
            )
            &&& housekeeping(packets_in(datagrams)) ==> flown(
                v,
                reports.push(ReportView::Drained { datagrams }),
            ) == Ok::<RunView, RunError>(
                RunView {
                    phase: Phase::Record { granted: 0 },
                    sync_ticks: (reports.len() + 1) as u32,
                    ..v
                },
            )
        },
        reports.len() >= 1500 ==> flown(v, reports) == Err::<RunView, RunError>(
            RunError::NeverSynced,
        ),
    decreases reports.len(),
{
    if reports.len() > 0 {
        let front = reports.drop_last();
        lemma_draining(reports);
        housekeeping_is_found_anywhere(
            drained(front),
            packets_in(reports.last()->Drained_datagrams),
            arbitrary(),
        );
        a_run_waits_for_housekeeping(v, front, datagrams);
    }
    let more = reports.push(ReportView::Drained { datagrams });
    assert(more.drop_last() =~= reports);
}

/// The scenario runs for its ticks, and what is drained over all but the last hundred
/// and twenty of them is recorded, in turn. Nothing else changes.
pub proof fn a_scenario_records_its_window(v: RunView, reports: Seq<ReportView>)
    requires
        v.phase == (Phase::Record { granted: 0 }),
        v.ticks > 120,
        draining(reports),
        reports.len() <= v.ticks,
    ensures
        flown(v, reports) == Ok::<RunView, RunError>(
            RunView {
                phase: if reports.len() < v.ticks {
                    Phase::Record { granted: reports.len() as u32 }
                } else {
                    Phase::Settle { idle: 0 }
                },
                record: v.record.record_all(
                    drained(
                        if reports.len() <= v.ticks - 120 {
                            reports
                        } else {
                            reports.take(v.ticks - 120)
                        },
                    ),
                ),
                ..v
            },
        ),
    decreases reports.len(),
{
    if reports.len() > 0 {
        let front = reports.drop_last();
        let window = v.ticks - 120;
        lemma_draining(reports);
        a_scenario_records_its_window(v, front);
        if reports.len() <= window {
            recording_goes_on(
                v.record,
                drained(front),
                packets_in(reports.last()->Drained_datagrams),
            );
        } else {
            assert(front.len() > window ==> front.take(window) =~= reports.take(window));
            assert(front.len() == window ==> front =~= reports.take(window));
        }
    }
}

/// The tick that is being granted is recorded if it is one of the scenario's and not
/// one of its last hundred and twenty.
pub proof fn the_window_ends_in_front_of_the_guard_band(v: RunView)
    ensures
        v.in_window() <==> v.phase is Record && v.phase->Record_granted + 120 < v.ticks,
{
}

/// What the flight software says of the vehicle is heard over every tick of the
/// scenario, the guard band included, and at no other time.
pub proof fn the_vehicle_is_heard_during_the_scenario(v: RunView, report: ReportView)
    ensures
        v.phase is Record && report is Drained ==> v.heard(report) == states_in(
            report->Drained_datagrams,
        ),
        !(v.phase is Record && report is Drained) ==> v.heard(report).len() == 0,
{
}

/// A run asks for what its phase is about. The vehicle moves on over the ticks that get
/// the run in phase and over those of the scenario, and over no others.
pub proof fn a_run_asks_for_what_its_phase_is_about(v: RunView)
    ensures
        v.action() is BootTick <==> v.phase is Boot,
        v.action() is AwaitPort <==> v.phase is AwaitPort,
        v.action() == (ActionView::Uplink { command: command(0x1880, 6, ground_address()) })
            <== v.phase is SendEnable,
        v.action() == (ActionView::Uplink {
            command: command(0x1880, 2, add_packet_payload(0x08F0)),
        }) <== v.phase is SendSubscribe,
        v.action() is Uplink <==> v.phase is SendEnable || v.phase is SendSubscribe,
        v.action() == (ActionView::Tick { advance: true }) <==> v.phase is Sync
            || v.phase is Record,
        v.action() == (ActionView::Tick { advance: false }) <==> v.phase is Enable,
        v.action() is CheckEnabled <==> v.phase is CheckEnabled,
        v.action() is Quiet <==> v.phase is Quiet,
        v.action() is Settle <==> v.phase is Settle,
        v.action() is Finish <==> v.phase is Done,
{
}

/// Each failure has its own cause, and there is no other.
pub proof fn each_failure_has_its_cause(v: RunView, report: ReportView, ticks: u32)
    requires
        v.wf(),
    ensures
        v.next(report) == Err::<RunView, RunError>(RunError::BootTimedOut) <==> v.phase is Boot
            && report is Booting && report->Booting_expired,
        v.next(report) == Err::<RunView, RunError>(RunError::NeverOperational) <==> v.phase == (
        Phase::Boot { granted: 3999 }) && report == (ReportView::Booting {
            operational: false,
            expired: false,
        }) && !v.booted,
        v.next(report) == Err::<RunView, RunError>(RunError::NoCommandPort) <==> v.phase
            == Phase::AwaitPort && report == (ReportView::CommandPort { bound: false }),
        v.next(report) == Err::<RunView, RunError>(RunError::NeverEnabled) <==> v.phase
            == Phase::CheckEnabled && report == (ReportView::Enabled { acknowledged: false }),
        v.next(report) == Err::<RunView, RunError>(RunError::NeverSynced) <==> v.phase == (
        Phase::Sync { granted: 1499 }) && report is Drained && !housekeeping(
            packets_in(report->Drained_datagrams),
        ),
        v.next(report) != Err::<RunView, RunError>(RunError::InsideGuard { ticks }),
{
}

/// The ground station is this host, written out and filled up with zeros.
pub proof fn the_ground_station_is_this_host()
    ensures
        ground_address().len() == 16,
        ground_address().take(9) == "127.0.0.1"@.map_values(|c: char| c as u8),
        forall|i: int| 9 <= i < 16 ==> #[trigger] ground_address()[i] == 0,
{
    reveal_strlit("127.0.0.1");
    assert(ground_address().take(9) =~= "127.0.0.1"@.map_values(|c: char| c as u8));
}

/// A boot gets the seconds that its variable shows, and a minute where it shows none.
pub proof fn a_boot_gets_what_is_set(var: Seq<char>)
    ensures
        boot_timeout_asked(None) == 60,
        boot_timeout_asked(Some(var)) == match shown(var, 10) {
            Some(n) => if 0 <= n <= 0xFFFF_FFFF_FFFF_FFFF {
                n
            } else {
                60
            },
            None => 60int,
        },
{
    a_number_is_read_as_it_shows(var, 10, u64::MAX as nat);
}

/// Each whole millisecond of the confirmation window costs four seconds of polling over
/// the boot, and part of one costs nothing.
pub proof fn each_millisecond_costs_the_same(usec: u64, more: u64)
    requires
        more == usec + 1000,
    ensures
        polling_secs(more) == polling_secs(usec) + 4,
        usec < 1000 ==> polling_secs(usec) == 0,
{
}

/// The build is where the variable says, whatever the home directory. Without the
/// variable it is below the home directory, one slash apart, whether or not that ends
/// in one; and it is a relative path without a home directory.
pub proof fn a_build_is_looked_for_below_home(dir: Seq<char>, home: Seq<char>)
    ensures
        cfs_dir(Some(dir), Some(home)) == dir,
        cfs_dir(Some(dir), None) == dir,
        cfs_dir(None, Some(home + seq!['/'])) == home + seq!['/'] + canonical_clone(),
        home.len() > 0 && home.last() != '/' ==> cfs_dir(None, Some(home)) == cfs_dir(
            None,
            Some(home + seq!['/']),
        ),
        cfs_dir(None, Some(Seq::<char>::empty())) == canonical_clone(),
        cfs_dir(None, None) == canonical_clone(),
{
}

/// A failure says what it is, and tells the numbers it is about and no others.
pub proof fn failures_tell_their_numbers(ticks: u32, timeout: u64, polling: u64) -> (r: (
    Seq<char>,
    Seq<char>,
    Seq<char>,
))
    ensures
        r.0.len() > 0 && all_digits(r.0, 10) && reading(r.0, 10) == ticks,
        r.1.len() > 0 && all_digits(r.1, 10) && reading(r.1, 10) == timeout,
        r.2.len() > 0 && all_digits(r.2, 10) && reading(r.2, 10) == polling,
        (RunError::InsideGuard { ticks }).text(timeout, polling) == "tick budget "@ + r.0
            + " is inside the 120-tick guard band, so nothing would be \
                    recorded -- use more than 120 ticks"@,
        RunError::BootTimedOut.text(timeout, polling) == "cFS boot timed out after "@ + r.1
            + "s of wall clock (raise $BESOM_BOOT_TIMEOUT_S; a wide \
                    $BESOM_QUIESCE_SAMPLES costs ~"@
            + r.2 + "s of polling across 4000 boot ticks)"@,
        RunError::NeverOperational.text(timeout, polling)
            == "cFS never reached OPERATIONAL within 4000 ticks"@,
        RunError::NoCommandPort.text(timeout, polling) == "CI_LAB never bound its command port"@,
        RunError::NeverEnabled.text(timeout, polling)
            == "TO_LAB never acknowledged the enable-output command; \
                    there would be no downlink"@,
        RunError::NeverSynced.text(timeout, polling)
            == "cFS never emitted a housekeeping cycle -- cannot phase-align the run"@,
{
    decimal_reads_back(ticks as nat);
    decimal_reads_back(timeout as nat);
    decimal_reads_back(polling as nat);
    (decimal(ticks as nat), decimal(timeout as nat), decimal(polling as nat))
}

} // verus!
