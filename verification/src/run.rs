//! A scripted scenario: boot cFS, own its clock, capture its telemetry.
//!
//! [`Runner`] holds what a run decides. It says what to do next ([`Action`]), is
//! told what came of it ([`Report`]), and moves on. Launching the process, sending
//! datagrams and waiting are done by the program that drives it.

use std::path::PathBuf;
use vstd::prelude::*;
use crate::ccsds::{build_command, command, decoded, MsgId, PacketView, TlmPacket, TLM_HEADER};
use crate::fsw::{
    add_packet_command, add_packet_payload, reported, FswState, STATE_TLM_MID, TO_LAB_ADD_PKT_CC,
    TO_LAB_CMD_MID,
};
use crate::order::stably_ordered;
use crate::quiesce::set_to;
use crate::text::{chars_of, decimal, number, parse_number, push_decimal, push_text};
use crate::transcript::{Transcript, TranscriptView};

verus! {

/// CI_LAB's command ingest port.
pub const CI_PORT: u16 = 1234;

/// TO_LAB's telemetry downlink port. Note: **2234**, not the 1235 that older cFS
/// tutorials still print.
pub const TLM_PORT: u16 = 2234;

/// TO_LAB's command to start the downlink.
pub const TO_LAB_OUTPUT_ENABLE_CC: u8 = 6;

/// Ticks granted past the end of the recorded window, whose packets are thrown away.
///
/// At least one full period of the SLOWEST periodic stream. cFE TIME's 1 Hz tone is
/// the slowest thing driving telemetry, so anything less than 100 ticks cannot
/// stabilise the edge.
pub const GUARD: u32 = 120;

/// Ticks granted while cFS boots. The boot must consume a FIXED number of ticks, not
/// "however many it takes": that would be a host-timed condition, and every app's
/// cycle phase would move with it.
pub const BOOT_TICKS: u32 = 4000;

/// Ticks granted for the downlink to come up: four times CI_LAB's 50-tick receive
/// timeout, so it has several chances to wake, and still a fixed cost.
pub const ENABLE_TICKS: u32 = 200;

/// cFE ES housekeeping: one per 1 Hz cycle. The recorded window starts at the first.
pub const SYNC_MID: MsgId = 0x0800;

/// Ticks granted for the first housekeeping cycle to appear.
pub const SYNC_LIMIT: u32 = 1500;

/// Passes in a row that must come up empty before a run is settled.
pub const SETTLED: u32 = 2;

/// Seconds of wall clock that a boot may take where nothing else is set.
pub const DEFAULT_BOOT_TIMEOUT_S: u64 = 60;

/// `std::path::PathBuf`: carried through, never looked into.
#[verifier::external_type_specification]
#[verifier::external_body]
pub struct ExPathBuf(PathBuf);

/// What to run.
#[derive(Debug)]
pub struct Config {
    /// Directory holding `core-cpu1` (the cFS build's `exe/cpu1`).
    pub cfs_dir: PathBuf,
    pub step_sock: PathBuf,
    pub ticks: u32,
}

/// Why a run failed.
#[derive(Debug, Clone, Copy, PartialEq, Eq, Structural)]
pub enum RunError {
    /// The tick budget is inside the guard band, so nothing would be recorded.
    InsideGuard { ticks: u32 },
    /// cFS was still booting when its wall-clock budget was spent.
    BootTimedOut,
    /// cFS never reached OPERATIONAL within the boot's ticks.
    NeverOperational,
    /// CI_LAB never bound its command port.
    NoCommandPort,
    /// TO_LAB never acknowledged the enable-output command.
    NeverEnabled,
    /// cFS never emitted a housekeeping cycle, so the run cannot be phase-aligned.
    NeverSynced,
}

impl RunError {
    /// The error in words, for a run whose boot had `timeout` seconds of wall clock
    /// and whose confirmation window costs `polling` seconds over the boot.
    pub open spec fn text(self, timeout: u64, polling: u64) -> Seq<char> {
        match self {
            RunError::InsideGuard { ticks } => "tick budget "@ + decimal(ticks as nat)
                + " is inside the 120-tick guard band, so nothing would be \
                    recorded -- use more than 120 ticks"@,
            RunError::BootTimedOut => "cFS boot timed out after "@ + decimal(timeout as nat)
                + "s of wall clock (raise $BESOM_BOOT_TIMEOUT_S; a wide \
                    $BESOM_QUIESCE_SAMPLES costs ~"@
                + decimal(polling as nat) + "s of polling across 4000 boot ticks)"@,
            RunError::NeverOperational => "cFS never reached OPERATIONAL within 4000 ticks"@,
            RunError::NoCommandPort => "CI_LAB never bound its command port"@,
            RunError::NeverEnabled =>
                "TO_LAB never acknowledged the enable-output command; \
                    there would be no downlink"@,
            RunError::NeverSynced =>
                "cFS never emitted a housekeeping cycle -- cannot phase-align the run"@,
        }
    }

    /// The error in words. Widening the confirmation window and raising the boot's
    /// budget go together, so the message on a timeout names both.
    pub fn message(&self, timeout: u64, polling: u64) -> (out: String)
        ensures
            out@ == self.text(timeout, polling),
    {
        let mut out: String = String::new();
        match self {
            RunError::InsideGuard { ticks } => {
                push_text(&mut out, "tick budget ");
                push_decimal(&mut out, *ticks as u64);
                push_text(
                    &mut out,
                    " is inside the 120-tick guard band, so nothing would be \
                    recorded -- use more than 120 ticks",
                );
            },
            RunError::BootTimedOut => {
                push_text(&mut out, "cFS boot timed out after ");
                push_decimal(&mut out, timeout);
                push_text(
                    &mut out,
                    "s of wall clock (raise $BESOM_BOOT_TIMEOUT_S; a wide \
                    $BESOM_QUIESCE_SAMPLES costs ~",
                );
                push_decimal(&mut out, polling);
                push_text(&mut out, "s of polling across 4000 boot ticks)");
            },
            RunError::NeverOperational => {
                push_text(&mut out, "cFS never reached OPERATIONAL within 4000 ticks");
            },
            RunError::NoCommandPort => {
                push_text(&mut out, "CI_LAB never bound its command port");
            },
            RunError::NeverEnabled => {
                push_text(
                    &mut out,
                    "TO_LAB never acknowledged the enable-output command; \
                    there would be no downlink",
                );
            },
            RunError::NeverSynced => {
                push_text(
                    &mut out,
                    "cFS never emitted a housekeeping cycle -- cannot phase-align the run",
                );
            },
        }
        assert(out@ =~= self.text(timeout, polling));
        out
    }
}

/// How far a run is.
#[derive(Debug, Clone, Copy, PartialEq, Eq, Structural)]
pub enum Phase {
    /// Granting ticks while cFS boots.
    Boot { granted: u32 },
    /// Waiting for CI_LAB to bind its port. An uplink sent before that is a datagram
    /// to a closed port, dropped in silence.
    AwaitPort,
    /// About to enable the downlink.
    SendEnable,
    /// Granting ticks for the enable to take effect. With the clock frozen CI_LAB
    /// could never wake to read it.
    Enable { granted: u32 },
    /// About to see whether the enable was acknowledged.
    CheckEnabled,
    /// About to subscribe `besom_io`'s telemetry.
    SendSubscribe,
    /// Letting what was emitted meanwhile drain away.
    Quiet,
    /// Granting ticks up to a known point in the system's cycle.
    Sync { granted: u32 },
    /// Granting the scenario's own ticks.
    Record { granted: u32 },
    /// Letting what is still in flight drain away.
    Settle { idle: u32 },
    /// The run is over.
    Done,
}

/// What the program is to do next.
#[derive(Debug)]
pub enum Action {
    /// Grant one tick with the vehicle's state, wait until cFS is quiet, and report
    /// what its log and the wall clock say.
    BootTick,
    /// Wait for CI_LAB to listen on its port, and report whether it does.
    AwaitPort,
    /// Send this to CI_LAB.
    Uplink { command: Vec<u8> },
    /// Grant one tick with the vehicle's state, wait until cFS is quiet, and drain
    /// the downlink. Then move the vehicle on by one tick, if `advance` is set.
    Tick { advance: bool },
    /// Report whether TO_LAB has acknowledged the enable.
    CheckEnabled,
    /// Wait until cFS is quiet, and drain the downlink.
    Quiet,
    /// Wait until cFS is quiet and a little longer, and drain the downlink.
    Settle,
    /// Nothing: the run is over.
    Finish,
}

/// What came of an action.
#[derive(Debug)]
pub enum Report {
    Booting {
        /// Does the log say that cFS is operational?
        operational: bool,
        /// Is the boot's wall-clock budget spent?
        expired: bool,
    },
    CommandPort { bound: bool },
    Sent,
    Enabled { acknowledged: bool },
    Drained { datagrams: Vec<Vec<u8>> },
}

/// An action, with its bytes as a sequence.
#[verifier::ext_equal]
pub enum ActionView {
    BootTick,
    AwaitPort,
    Uplink { command: Seq<u8> },
    Tick { advance: bool },
    CheckEnabled,
    Quiet,
    Settle,
    Finish,
}

/// A report, with its datagrams as sequences.
#[verifier::ext_equal]
pub enum ReportView {
    Booting { operational: bool, expired: bool },
    CommandPort { bound: bool },
    Sent,
    Enabled { acknowledged: bool },
    Drained { datagrams: Seq<Seq<u8>> },
}

impl View for Action {
    type V = ActionView;

    open spec fn view(&self) -> ActionView {
        match self {
            Action::BootTick => ActionView::BootTick,
            Action::AwaitPort => ActionView::AwaitPort,
            Action::Uplink { command } => ActionView::Uplink { command: command@ },
            Action::Tick { advance } => ActionView::Tick { advance: *advance },
            Action::CheckEnabled => ActionView::CheckEnabled,
            Action::Quiet => ActionView::Quiet,
            Action::Settle => ActionView::Settle,
            Action::Finish => ActionView::Finish,
        }
    }
}

/// The bytes of each of some datagrams.
pub open spec fn contents(datagrams: Seq<Vec<u8>>) -> Seq<Seq<u8>> {
    datagrams.map_values(|d: Vec<u8>| d@)
}

impl View for Report {
    type V = ReportView;

    open spec fn view(&self) -> ReportView {
        match self {
            Report::Booting { operational, expired } => ReportView::Booting {
                operational: *operational,
                expired: *expired,
            },
            Report::CommandPort { bound } => ReportView::CommandPort { bound: *bound },
            Report::Sent => ReportView::Sent,
            Report::Enabled { acknowledged } => ReportView::Enabled { acknowledged: *acknowledged },
            Report::Drained { datagrams } => ReportView::Drained {
                datagrams: contents(datagrams@),
            },
        }
    }
}

/// The packets among some datagrams. What is too short to be one is passed over.
pub open spec fn packets_in(datagrams: Seq<Seq<u8>>) -> Seq<PacketView>
    decreases datagrams.len(),
{
    if datagrams.len() == 0 {
        Seq::empty()
    } else {
        let front = packets_in(datagrams.drop_last());
        if datagrams.last().len() < TLM_HEADER {
            front
        } else {
            front.push(decoded(datagrams.last()))
        }
    }
}

/// What one datagram says of the vehicle, if it is a packet that does.
pub open spec fn state_in(datagram: Seq<u8>) -> Option<FswState> {
    if datagram.len() < TLM_HEADER {
        None
    } else {
        reported(decoded(datagram).msg_id, datagram)
    }
}

/// The vehicle's states that the flight software reported in some datagrams.
pub open spec fn states_in(datagrams: Seq<Seq<u8>>) -> Seq<FswState>
    decreases datagrams.len(),
{
    if datagrams.len() == 0 {
        Seq::empty()
    } else {
        let front = states_in(datagrams.drop_last());
        match state_in(datagrams.last()) {
            Some(state) => front.push(state),
            None => front,
        }
    }
}

/// Is there a housekeeping packet among these?
pub open spec fn housekeeping(packets: Seq<PacketView>) -> bool {
    exists|i: int| 0 <= i < packets.len() && (#[trigger] packets[i]).msg_id == SYNC_MID
}

/// The sixteen bytes that hold the address of the ground station: this host.
pub open spec fn ground_address() -> Seq<u8> {
    seq![49u8, 50, 55, 46, 48, 46, 48, 46, 49, 0, 0, 0, 0, 0, 0, 0]
}

/// A run, as it stands.
#[verifier::ext_equal]
pub struct RunView {
    pub phase: Phase,
    /// The scenario's tick budget.
    pub ticks: u32,
    /// Has the log said that cFS is operational?
    pub booted: bool,
    /// Ticks that it took to get in phase.
    pub sync_ticks: u32,
    /// What was recorded so far.
    pub record: TranscriptView,
}

impl RunView {
    /// A run that has not begun.
    pub open spec fn start(ticks: u32) -> RunView {
        RunView {
            phase: Phase::Boot { granted: 0 },
            ticks,
            booted: false,
            sync_ticks: 0,
            record: TranscriptView::empty(),
        }
    }

    /// Has the recorded window begun?
    pub open spec fn recording(self) -> bool {
        self.phase is Record || self.phase is Settle || self.phase is Done
    }

    /// What holds of every run: its counts are within their limits, and nothing is
    /// on record before the window begins.
    pub open spec fn wf(self) -> bool {
        &&& self.ticks > GUARD
        &&& match self.phase {
            Phase::Boot { granted } => granted < BOOT_TICKS,
            Phase::Enable { granted } => granted < ENABLE_TICKS,
            Phase::Sync { granted } => granted < SYNC_LIMIT,
            Phase::Record { granted } => granted < self.ticks,
            Phase::Settle { idle } => idle < SETTLED,
            _ => true,
        }
        &&& self.sync_ticks <= SYNC_LIMIT
        &&& !self.recording() ==> self.record == TranscriptView::empty() && self.sync_ticks == 0
    }

    /// What is to be done next.
    pub open spec fn action(self) -> ActionView {
        match self.phase {
            Phase::Boot { .. } => ActionView::BootTick,
            Phase::AwaitPort => ActionView::AwaitPort,
            Phase::SendEnable => ActionView::Uplink {
                command: command(TO_LAB_CMD_MID, TO_LAB_OUTPUT_ENABLE_CC, ground_address()),
            },
            Phase::Enable { .. } => ActionView::Tick { advance: false },
            Phase::CheckEnabled => ActionView::CheckEnabled,
            Phase::SendSubscribe => ActionView::Uplink {
                command: command(
                    TO_LAB_CMD_MID,
                    TO_LAB_ADD_PKT_CC,
                    add_packet_payload(STATE_TLM_MID),
                ),
            },
            Phase::Quiet => ActionView::Quiet,
            Phase::Sync { .. } => ActionView::Tick { advance: true },
            Phase::Record { .. } => ActionView::Tick { advance: true },
            Phase::Settle { .. } => ActionView::Settle,
            Phase::Done => ActionView::Finish,
        }
    }

    /// Is the tick that is being granted in front of the guard band?
    pub open spec fn in_window(self) -> bool {
        match self.phase {
            Phase::Record { granted } => granted < self.ticks - GUARD,
            _ => false,
        }
    }

    pub open spec fn at(self, phase: Phase) -> RunView {
        RunView { phase, ..self }
    }

    /// The run after a report. One that answers nothing that was asked leaves the
    /// run as it is.
    pub open spec fn next(self, report: ReportView) -> Result<RunView, RunError> {
        match (self.phase, report) {
            (Phase::Boot { granted }, ReportView::Booting { operational, expired }) => {
                let booted = self.booted || operational;
                if expired {
                    Err(RunError::BootTimedOut)
                } else if granted + 1 < BOOT_TICKS {
                    Ok(
                        RunView {
                            phase: Phase::Boot { granted: (granted + 1) as u32 },
                            booted,
                            ..self
                        },
                    )
                } else if booted {
                    Ok(RunView { phase: Phase::AwaitPort, booted, ..self })
                } else {
                    Err(RunError::NeverOperational)
                }
            },
            (Phase::AwaitPort, ReportView::CommandPort { bound }) => if bound {
                Ok(self.at(Phase::SendEnable))
            } else {
                Err(RunError::NoCommandPort)
            },
            (Phase::SendEnable, ReportView::Sent) => Ok(self.at(Phase::Enable { granted: 0 })),
            (Phase::Enable { granted }, ReportView::Drained { .. }) => if granted + 1
                < ENABLE_TICKS {
                Ok(self.at(Phase::Enable { granted: (granted + 1) as u32 }))
            } else {
                Ok(self.at(Phase::CheckEnabled))
            },
            (Phase::CheckEnabled, ReportView::Enabled { acknowledged }) => if acknowledged {
                Ok(self.at(Phase::SendSubscribe))
            } else {
                Err(RunError::NeverEnabled)
            },
            (Phase::SendSubscribe, ReportView::Sent) => Ok(self.at(Phase::Quiet)),
            (Phase::Quiet, ReportView::Drained { .. }) => Ok(self.at(Phase::Sync { granted: 0 })),
            (Phase::Sync { granted }, ReportView::Drained { datagrams }) => if housekeeping(
                packets_in(datagrams),
            ) {
                Ok(
                    RunView {
                        phase: Phase::Record { granted: 0 },
                        sync_ticks: (granted + 1) as u32,
                        ..self
                    },
                )
            } else if granted + 1 < SYNC_LIMIT {
                Ok(self.at(Phase::Sync { granted: (granted + 1) as u32 }))
            } else {
                Err(RunError::NeverSynced)
            },
            (Phase::Record { granted }, ReportView::Drained { datagrams }) => Ok(
                RunView {
                    phase: if granted + 1 < self.ticks {
                        Phase::Record { granted: (granted + 1) as u32 }
                    } else {
                        Phase::Settle { idle: 0 }
                    },
                    record: if self.in_window() {
                        self.record.record_all(packets_in(datagrams))
                    } else {
                        self.record
                    },
                    ..self
                },
            ),
            (Phase::Settle { idle }, ReportView::Drained { datagrams }) => if packets_in(
                datagrams,
            ).len() > 0 {
                Ok(self.at(Phase::Settle { idle: 0 }))
            } else if idle + 1 < SETTLED {
                Ok(self.at(Phase::Settle { idle: (idle + 1) as u32 }))
            } else {
                Ok(self.at(Phase::Done))
            },
            _ => Ok(self),
        }
    }

    /// The vehicle's states that the flight software reported over a tick of the
    /// scenario, the guard band included.
    pub open spec fn heard(self, report: ReportView) -> Seq<FswState> {
        match (self.phase, report) {
            (Phase::Record { .. }, ReportView::Drained { datagrams }) => states_in(datagrams),
            _ => Seq::empty(),
        }
    }
}

/// The views of some packets.
pub open spec fn packet_views(packets: Seq<TlmPacket>) -> Seq<PacketView> {
    packets.map_values(|p: TlmPacket| p@)
}

/// Decode the packets among some datagrams. What is too short to be one is passed
/// over.
pub fn decode_all(datagrams: &Vec<Vec<u8>>) -> (out: Vec<TlmPacket>)
    ensures
        packet_views(out@) == packets_in(contents(datagrams@)),
{
    let ghost all = contents(datagrams@);
    let mut out: Vec<TlmPacket> = Vec::new();
    let mut i: usize = 0;
    assert(packet_views(out@) =~= packets_in(all.take(0)));
    while i < datagrams.len()
        invariant
            i <= datagrams@.len(),
            all == contents(datagrams@),
            packet_views(out@) == packets_in(all.take(i as int)),
        decreases datagrams.len() - i,
    {
        assert(all.take(i as int + 1).drop_last() =~= all.take(i as int));
        assert(all.take(i as int + 1).last() == datagrams@[i as int]@);
        match TlmPacket::parse(datagrams[i].as_slice()) {
            Ok(pkt) => {
                let ghost before = packet_views(out@);
                out.push(pkt);
                assert(packet_views(out@) =~= before.push(pkt@));
            },
            Err(_) => {},
        }
        i = i + 1;
    }
    assert(all.take(all.len() as int) =~= all);
    out
}

/// The vehicle's states that the flight software reported in some datagrams.
pub fn states_reported(datagrams: &Vec<Vec<u8>>) -> (out: Vec<FswState>)
    ensures
        out@ == states_in(contents(datagrams@)),
{
    let ghost all = contents(datagrams@);
    let mut out: Vec<FswState> = Vec::new();
    let mut i: usize = 0;
    assert(all.take(0) =~= Seq::<Seq<u8>>::empty());
    while i < datagrams.len()
        invariant
            i <= datagrams@.len(),
            all == contents(datagrams@),
            out@ == states_in(all.take(i as int)),
        decreases datagrams.len() - i,
    {
        assert(all.take(i as int + 1).drop_last() =~= all.take(i as int));
        assert(all.take(i as int + 1).last() == datagrams@[i as int]@);
        let datagram: &[u8] = datagrams[i].as_slice();
        match TlmPacket::parse(datagram) {
            Ok(pkt) => match FswState::parse(pkt.msg_id, datagram) {
                Some(state) => {
                    out.push(state);
                },
                None => {},
            },
            Err(_) => {},
        }
        i = i + 1;
    }
    assert(all.take(all.len() as int) =~= all);
    out
}

/// Is there a housekeeping packet among these?
fn has_housekeeping(packets: &Vec<TlmPacket>) -> (r: bool)
    ensures
        r == housekeeping(packet_views(packets@)),
{
    let ghost all = packet_views(packets@);
    let mut i: usize = 0;
    while i < packets.len()
        invariant
            i <= packets@.len(),
            all == packet_views(packets@),
            forall|j: int| 0 <= j < i ==> (#[trigger] all[j]).msg_id != SYNC_MID,
        decreases packets.len() - i,
    {
        assert(all[i as int] == packets@[i as int]@);
        if packets[i].msg_id == SYNC_MID {
            return true;
        }
        i = i + 1;
    }
    false
}

/// Record packets in turn.
fn record_packets(record: &mut Transcript, packets: &Vec<TlmPacket>)
    ensures
        final(record)@ == old(record)@.record_all(packet_views(packets@)),
{
    let ghost all = packet_views(packets@);
    let ghost start = record@;
    let mut i: usize = 0;
    assert(all.take(0) =~= Seq::<PacketView>::empty());
    while i < packets.len()
        invariant
            i <= packets@.len(),
            all == packet_views(packets@),
            record@ == start.record_all(all.take(i as int)),
        decreases packets.len() - i,
    {
        assert(all.take(i as int + 1).drop_last() =~= all.take(i as int));
        assert(all.take(i as int + 1).last() == packets@[i as int]@);
        record.record(&packets[i]);
        i = i + 1;
    }
    assert(all.take(all.len() as int) =~= all);
}

/// The command that starts the downlink, to this host.
pub fn enable_output_command() -> (cmd: Vec<u8>)
    ensures
        cmd@ == command(TO_LAB_CMD_MID, TO_LAB_OUTPUT_ENABLE_CC, ground_address()),
{
    let address: [u8; 16] = [49, 50, 55, 46, 48, 46, 48, 46, 49, 0, 0, 0, 0, 0, 0, 0];
    assert(address@ =~= ground_address());
    build_command(TO_LAB_CMD_MID, TO_LAB_OUTPUT_ENABLE_CC, address.as_slice())
}

/// A scripted scenario under way.
#[derive(Debug)]
pub struct Runner {
    phase: Phase,
    ticks: u32,
    booted: bool,
    sync_ticks: u32,
    record: Transcript,
}

impl View for Runner {
    type V = RunView;

    closed spec fn view(&self) -> RunView {
        RunView {
            phase: self.phase,
            ticks: self.ticks,
            booted: self.booted,
            sync_ticks: self.sync_ticks,
            record: self.record@,
        }
    }
}

impl Runner {
    /// Begin a run.
    ///
    /// A budget inside the guard band records NOTHING, and an empty transcript is
    /// not a reproducible one: it is an unasked question. Such a run is refused.
    pub fn new(cfg: &Config) -> (r: Result<Runner, RunError>)
        ensures
            cfg.ticks <= GUARD ==> r == Err::<Runner, RunError>(
                RunError::InsideGuard { ticks: cfg.ticks },
            ),
            cfg.ticks > GUARD ==> r is Ok && r->Ok_0@ == RunView::start(cfg.ticks)
                && r->Ok_0@.wf(),
    {
        if cfg.ticks <= GUARD {
            return Err(RunError::InsideGuard { ticks: cfg.ticks });
        }
        Ok(
            Runner {
                phase: Phase::Boot { granted: 0 },
                ticks: cfg.ticks,
                booted: false,
                sync_ticks: 0,
                record: Transcript::new(),
            },
        )
    }

    /// How far the run is.
    pub fn phase(&self) -> (p: Phase)
        ensures
            p == self@.phase,
    {
        self.phase
    }

    /// What is to be done next.
    pub fn action(&self) -> (a: Action)
        ensures
            a@ == self@.action(),
    {
        match self.phase {
            Phase::Boot { .. } => Action::BootTick,
            Phase::AwaitPort => Action::AwaitPort,
            Phase::SendEnable => Action::Uplink { command: enable_output_command() },
            Phase::Enable { .. } => Action::Tick { advance: false },
            Phase::CheckEnabled => Action::CheckEnabled,
            Phase::SendSubscribe => Action::Uplink { command: add_packet_command(STATE_TLM_MID) },
            Phase::Quiet => Action::Quiet,
            Phase::Sync { .. } => Action::Tick { advance: true },
            Phase::Record { .. } => Action::Tick { advance: true },
            Phase::Settle { .. } => Action::Settle,
            Phase::Done => Action::Finish,
        }
    }

    /// Take the report on an action. `Ok` gives the vehicle's states that the flight
    /// software reported over a tick of the scenario; an error ends the run.
    pub fn next(&mut self, report: &Report) -> (r: Result<Vec<FswState>, RunError>)
        requires
            old(self)@.wf(),
        ensures
            final(self)@.wf(),
            match old(self)@.next(report@) {
                Ok(v) => r is Ok && final(self)@ == v && r->Ok_0@ == old(self)@.heard(report@),
                Err(e) => r == Err::<Vec<FswState>, RunError>(e) && final(self)@ == old(self)@,
            },
    {
        match (self.phase, report) {
            (Phase::Boot { granted }, Report::Booting { operational, expired }) => {
                let booted: bool = self.booted || *operational;
                if *expired {
                    return Err(RunError::BootTimedOut);
                }
                if granted + 1 < BOOT_TICKS {
                    self.phase = Phase::Boot { granted: granted + 1 };
                } else if booted {
                    self.phase = Phase::AwaitPort;
                } else {
                    return Err(RunError::NeverOperational);
                }
                self.booted = booted;
            },
            (Phase::AwaitPort, Report::CommandPort { bound }) => {
                if !*bound {
                    return Err(RunError::NoCommandPort);
                }
                self.phase = Phase::SendEnable;
            },
            (Phase::SendEnable, Report::Sent) => {
                self.phase = Phase::Enable { granted: 0 };
            },
            (Phase::Enable { granted }, Report::Drained { .. }) => {
                self.phase = if granted + 1 < ENABLE_TICKS {
                    Phase::Enable { granted: granted + 1 }
                } else {
                    Phase::CheckEnabled
                };
            },
            (Phase::CheckEnabled, Report::Enabled { acknowledged }) => {
                if !*acknowledged {
                    return Err(RunError::NeverEnabled);
                }
                self.phase = Phase::SendSubscribe;
            },
            (Phase::SendSubscribe, Report::Sent) => {
                self.phase = Phase::Quiet;
            },
            (Phase::Quiet, Report::Drained { .. }) => {
                self.phase = Phase::Sync { granted: 0 };
            },
            (Phase::Sync { granted }, Report::Drained { datagrams }) => {
                let packets: Vec<TlmPacket> = decode_all(datagrams);
                if has_housekeeping(&packets) {
                    self.phase = Phase::Record { granted: 0 };
                    self.sync_ticks = granted + 1;
                } else if granted + 1 < SYNC_LIMIT {
                    self.phase = Phase::Sync { granted: granted + 1 };
                } else {
                    return Err(RunError::NeverSynced);
                }
            },
            (Phase::Record { granted }, Report::Drained { datagrams }) => {
                if granted < self.ticks - GUARD {
                    let packets: Vec<TlmPacket> = decode_all(datagrams);
                    record_packets(&mut self.record, &packets);
                }
                self.phase = if granted + 1 < self.ticks {
                    Phase::Record { granted: granted + 1 }
                } else {
                    Phase::Settle { idle: 0 }
                };
                return Ok(states_reported(datagrams));
            },
            (Phase::Settle { idle }, Report::Drained { datagrams }) => {
                let packets: Vec<TlmPacket> = decode_all(datagrams);
                assert(packets@.len() == packet_views(packets@).len());
                self.phase = if packets.len() > 0 {
                    Phase::Settle { idle: 0 }
                } else if idle + 1 < SETTLED {
                    Phase::Settle { idle: idle + 1 }
                } else {
                    Phase::Done
                };
            },
            _ => {},
        }
        Ok(Vec::new())
    }

    /// The transcript of the run, in order.
    pub fn finish(self) -> (t: Transcript)
        ensures
            stably_ordered(self@.record.entries, t@.entries),
            t@.prev_seq == self@.record.prev_seq,
            t@.epoch == self@.record.epoch,
            t@.first == self@.record.earliest,
            t@.earliest == self@.record.earliest,
    {
        self.record.finish()
    }
}

/// The seconds of wall clock that `$BESOM_BOOT_TIMEOUT_S` gives a boot, or else the
/// default.
pub open spec fn boot_timeout_asked(var: Option<Seq<char>>) -> u64 {
    match var {
        Some(v) => match number(v, 10, u64::MAX as nat) {
            Some(n) => n as u64,
            None => DEFAULT_BOOT_TIMEOUT_S,
        },
        None => DEFAULT_BOOT_TIMEOUT_S,
    }
}

/// The seconds of wall clock that a boot may take.
///
/// A WALL-CLOCK backstop, not a simulated one: it exists so that a wedged cFS fails
/// instead of hanging forever. It bounds nothing about the run's content.
pub fn boot_timeout_secs(var: Option<&str>) -> (secs: u64)
    ensures
        secs == boot_timeout_asked(set_to(var)),
{
    match var {
        Some(v) => match parse_number(v, 10, u64::MAX) {
            Some(n) => n,
            None => DEFAULT_BOOT_TIMEOUT_S,
        },
        None => DEFAULT_BOOT_TIMEOUT_S,
    }
}

/// Seconds of polling that a confirmation window of `window_usec` costs across the
/// boot's ticks.
pub open spec fn polling_secs(window_usec: u64) -> int {
    (window_usec / 1000) * BOOT_TICKS / 1000
}

/// Seconds of polling that a confirmation window of `window_usec` costs across the
/// boot's ticks. The window counts in whole milliseconds.
pub fn boot_polling_secs(window_usec: u64) -> (secs: u64)
    ensures
        secs == (window_usec / 1000) * BOOT_TICKS / 1000,
        secs == polling_secs(window_usec),
{
    let ms: u64 = window_usec / 1000;
    assert((ms * 4000) / 1000 == ms * 4);
    ms * 4
}

/// Where a cFS build is looked for, below the home directory.
pub open spec fn canonical_clone() -> Seq<char> {
    "Projects/cFS/build-native_std/exe/cpu1"@
}

/// Where the cFS build is: where `$BESOM_CFS_DIR` says, or else in the canonical
/// clone below `$HOME`. Without a home directory that is a relative path.
pub open spec fn cfs_dir(var: Option<Seq<char>>, home: Option<Seq<char>>) -> Seq<char> {
    match var {
        Some(dir) => dir,
        None => match home {
            Some(h) => if h.len() == 0 {
                canonical_clone()
            } else if h.last() == '/' {
                h + canonical_clone()
            } else {
                h + seq!['/'] + canonical_clone()
            },
            None => canonical_clone(),
        },
    }
}

/// Locate a cFS build. Honours `$BESOM_CFS_DIR`, else the canonical clone.
pub fn default_cfs_dir(var: Option<&str>, home: Option<&str>) -> (dir: String)
    ensures
        dir@ == cfs_dir(set_to(var), set_to(home)),
{
    let mut dir: String = String::new();
    match var {
        Some(v) => {
            push_text(&mut dir, v);
            assert(dir@ =~= v@);
            return dir;
        },
        None => {},
    }
    match home {
        Some(h) => {
            push_text(&mut dir, h);
            assert(dir@ =~= h@);
            let chars: Vec<char> = chars_of(h);
            if chars.len() > 0 && chars[chars.len() - 1] != '/' {
                dir.push('/');
            }
        },
        None => {},
    }
    push_text(&mut dir, "Projects/cFS/build-native_std/exe/cpu1");
    assert(dir@ =~= cfs_dir(set_to(var), set_to(home)));
    dir
}

} // verus!
