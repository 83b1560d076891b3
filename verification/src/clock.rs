//! The simulated clock: Besom's half of the `timebase_besom` protocol.
//!
//! cFS runs on a PSP timebase module whose OSAL sync function blocks on a UNIX
//! datagram socket. cFE time advances only when we send a step, so this is the sole
//! source of time for the flight software.
//!
//! Wire protocol (v1), little-endian, over `$BESOM_STEP_SOCK`:
//! ```text
//!   Besom -> PSP : u32  step_usec    (microseconds to advance; must be nonzero)
//!                  u32  sensor_len   (optional; omitted or 0 = no sensor block)
//!                  u8[] sensor_block (opaque to the PSP)
//!   PSP  -> Besom: u64  sim_usec     (simulated clock, AFTER the step is dispatched)
//! ```
//!
//! A bare 4-byte step is still valid v0, so an unpatched PSP and the free-running
//! path both keep working.
//!
//! The sensor block travels *inside* the step because that is what makes the flight
//! software's view of the world a function of simulated time. The PSP installs it
//! before advancing the clock, so there is no instant at which cFS is at time T
//! without the state belonging to T.
//!
//! The reply is sent from the *entry* of the PSP's next sync call, so receiving it
//! is a hard guarantee that the previous tick was fully dispatched. It does NOT
//! prove that the *tasks* woken by it have finished; that is what
//! [`crate::quiesce`] is for.

use vstd::prelude::*;
use crate::bytes::{
    le32, le32_at, le32_reads_back, le64, le64_at, le64_reads_back, push_all, push_le32, read_le64,
};
use crate::text::{chars_of, decimal, push_decimal, push_text};

verus! {

/// The tick cFS is configured for (`CFE_PSP_SOFT_TIMEBASE_PERIOD`), in microseconds.
pub const TICK_USEC: u32 = 10_000;

/// Bytes in the acknowledgement of a step.
pub const ACK_LEN: usize = 8;

/// The simulated clock, as far as the flight software has acknowledged it.
#[derive(Debug)]
pub struct Clock {
    sim_usec: u64,
}

/// Why a reply does not acknowledge a step.
#[derive(Debug, Clone, Copy, PartialEq, Eq, Structural)]
pub enum AckError {
    /// An acknowledgement has eight bytes; this one has `len`.
    Malformed { len: usize },
}

impl AckError {
    /// The error in words.
    pub open spec fn text(self) -> Seq<char> {
        match self {
            AckError::Malformed { len } => "malformed step ack: "@ + decimal(len as nat)
                + " bytes"@,
        }
    }

    /// The error in words.
    pub fn message(&self) -> (out: String)
        ensures
            out@ == self.text(),
    {
        let mut out: String = String::new();
        match self {
            AckError::Malformed { len } => {
                push_text(&mut out, "malformed step ack: ");
                push_decimal(&mut out, *len as u64);
                push_text(&mut out, " bytes");
            },
        }
        assert(out@ =~= self.text());
        out
    }
}

impl View for Clock {
    type V = u64;

    closed spec fn view(&self) -> u64 {
        self.sim_usec
    }
}

/// The datagram that grants `usec` microseconds and delivers `sensor` with them.
/// Without a sensor block it is a bare step. The length field has 32 bits.
pub open spec fn step_message(usec: u32, sensor: Seq<u8>) -> Seq<u8> {
    if sensor.len() == 0 {
        le32(usec)
    } else {
        le32(usec) + le32((sensor.len() % 0x1_0000_0000) as u32) + sensor
    }
}

/// Where the clock stands after the reply to a step, if it is one.
pub open spec fn acknowledged(reply: Seq<u8>) -> Result<u64, AckError> {
    if reply.len() == ACK_LEN {
        Ok(le64_at(reply, 0) as u64)
    } else {
        Err(AckError::Malformed { len: reply.len() as usize })
    }
}

impl Clock {
    /// A clock that has not been granted any time.
    pub fn new() -> (c: Self)
        ensures
            c@ == 0,
    {
        Clock { sim_usec: 0 }
    }

    /// Simulated microseconds granted so far.
    pub fn sim_usec(&self) -> (t: u64)
        ensures
            t == self@,
    {
        self.sim_usec
    }

    /// The datagram that grants one tick of `usec` microseconds.
    pub fn step(&self, usec: u32) -> (msg: Vec<u8>)
        requires
            usec > 0,
        ensures
            msg@ == step_message(usec, Seq::empty()),
    {
        let none: Vec<u8> = Vec::new();
        assert(none@ =~= Seq::<u8>::empty());
        self.step_with_sensor(usec, &none)
    }

    /// The datagram that grants one tick, delivering `sensor` to the flight software
    /// as part of it. A zero step would tell the PSP no time has passed.
    ///
    /// An empty `sensor` makes a bare v0 step, which the PSP still accepts.
    pub fn step_with_sensor(&self, usec: u32, sensor: &[u8]) -> (msg: Vec<u8>)
        requires
            usec > 0,
        ensures
            msg@ == step_message(usec, sensor@),
    {
        let mut msg: Vec<u8> = Vec::new();
        push_le32(&mut msg, usec);
        if sensor.len() > 0 {
            push_le32(&mut msg, (sensor.len() as u64 % 0x1_0000_0000) as u32);
            push_all(&mut msg, sensor);
        }
        assert(msg@ =~= step_message(usec, sensor@));
        msg
    }

    /// Take the reply to a step. It says where the simulated clock now is.
    pub fn acknowledge(&mut self, reply: &[u8]) -> (r: Result<u64, AckError>)
        ensures
            reply@.len() == ACK_LEN ==> r == Ok::<u64, AckError>(le64_at(reply@, 0) as u64)
                && final(self)@ == le64_at(reply@, 0) as u64,
            reply@.len() != ACK_LEN ==> r == Err::<u64, AckError>(
                AckError::Malformed { len: reply@.len() as usize },
            ) && final(self)@ == old(self)@,
            r == acknowledged(reply@),
            final(self)@ == match acknowledged(reply@) {
                Ok(t) => t,
                Err(_) => old(self)@,
            },
    {
        if reply.len() != ACK_LEN {
            return Err(AckError::Malformed { len: reply.len() });
        }
        self.sim_usec = read_le64(reply, 0);
        Ok(self.sim_usec)
    }
}

/// What the PSP reads of a step is what was granted: the microseconds, and behind
/// them the length of the sensor block and the block itself. A step without a
/// sensor block has four bytes.
pub proof fn a_step_reads_back(usec: u32, sensor: Seq<u8>)
    requires
        sensor.len() < 0x1_0000_0000,
    ensures
        le32_at(step_message(usec, sensor), 0) == usec,
        sensor.len() == 0 ==> step_message(usec, sensor).len() == 4,
        sensor.len() > 0 ==> le32_at(step_message(usec, sensor), 4) == sensor.len(),
        sensor.len() > 0 ==> step_message(usec, sensor).skip(8) == sensor,
{
    let msg = step_message(usec, sensor);
    assert(msg.subrange(0, 4) =~= le32(usec));
    le32_reads_back(usec, msg, 0);
    if sensor.len() > 0 {
        let n = (sensor.len() % 0x1_0000_0000) as u32;
        assert(msg.subrange(4, 8) =~= le32(n));
        le32_reads_back(n, msg, 4);
        assert(msg.skip(8) =~= sensor);
    }
}

/// What the PSP replies is where the clock then stands: the reply `le64(t)` is read
/// as `t`.
pub proof fn an_acknowledgement_reads_back(t: u64)
    ensures
        le64(t).len() == ACK_LEN,
        le64_at(le64(t), 0) == t,
{
    assert(le64(t).subrange(0, 8) =~= le64(t));
    le64_reads_back(t, le64(t), 0);
}

/// Does `$BESOM_COOP`, where it is set, ask for cooperative scheduling?
pub open spec fn coop(var: Option<Seq<char>>) -> bool {
    match var {
        Some(v) => v.len() > 0 && v[0] == '1',
        None => true,
    }
}

/// Is cooperative scheduling on? It is by default.
///
/// This matches OSAL's own test exactly: it enables the scheduler if the variable
/// starts with `1`, so "true", "yes" and "2" all leave cFS on host scheduling.
pub fn coop_enabled(var: Option<&str>) -> (r: bool)
    ensures
        r == coop(
            match var {
                Some(v) => Some(v@),
                None => None,
            },
        ),
{
    match var {
        Some(v) => {
            let chars: Vec<char> = chars_of(v);
            chars.len() > 0 && chars[0] == '1'
        },
        None => true,
    }
}

/// What to say when a step is not acknowledged.
///
/// A missing ack has two very different causes and they need different answers.
/// Under cooperative scheduling a task that busy-waits on the mission clock while
/// holding the token deadlocks the run: the ack is sent at the entry of the next
/// sync call, and re-entering it needs the token.
pub fn missing_ack(coop: bool) -> (s: &'static str)
    ensures
        coop ==> s@ == "cFS did not acknowledge the step.\n\
            With BESOM_COOP=1 this usually means a task is waiting on the mission clock while \
            holding the cooperative token: only one tick can be in flight, so the clock cannot \
            reach what the task is waiting for and the run deadlocks. Look for COOP-STALL \
            lines in cFS's log -- they name the task holding the token.\n\
            Code that spins or sleeps across many ticks cannot run cooperatively; re-run with \
            BESOM_COOP=0 to get the stream guarantee without tick-placement determinism."@,
        !coop ==> s@
            == "cFS did not acknowledge the step (is it running on timebase_besom?)"@,
{
    if coop {
        "cFS did not acknowledge the step.\n\
            With BESOM_COOP=1 this usually means a task is waiting on the mission clock while \
            holding the cooperative token: only one tick can be in flight, so the clock cannot \
            reach what the task is waiting for and the run deadlocks. Look for COOP-STALL \
            lines in cFS's log -- they name the task holding the token.\n\
            Code that spins or sleeps across many ticks cannot run cooperatively; re-run with \
            BESOM_COOP=0 to get the stream guarantee without tick-placement determinism."
    } else {
        "cFS did not acknowledge the step (is it running on timebase_besom?)"
    }
}

} // verus!
