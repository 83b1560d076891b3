//! The transport: because Besom grants every tick, PAUSE genuinely stops the
//! spacecraft rather than merely stopping the display, and STEP advances it by an
//! exact number of ticks.

use vstd::prelude::*;
use crate::ccsds::{build_command, command};
use crate::session::Cmd;

verus! {

/// Who moves time, and by how much.
#[derive(Debug, Clone, Copy, PartialEq, Eq, Structural)]
pub struct Transport {
    /// Is time running?
    pub running: bool,
    /// Ticks that are still to be granted one by one.
    pub budget: u32,
    /// Ticks to grant per iteration while time is running.
    pub warp: u32,
}

/// What an operator's command asks of the link.
#[derive(Debug)]
pub enum Reaction {
    /// Nothing.
    Carry,
    /// Send this to CI_LAB.
    Uplink { command: Vec<u8> },
    /// Stop the spacecraft and leave.
    Stop,
}

/// A reaction, with its bytes as a sequence.
#[verifier::ext_equal]
pub enum ReactionView {
    Carry,
    Uplink { command: Seq<u8> },
    Stop,
}

impl View for Reaction {
    type V = ReactionView;

    open spec fn view(&self) -> ReactionView {
        match self {
            Reaction::Carry => ReactionView::Carry,
            Reaction::Uplink { command } => ReactionView::Uplink { command: command@ },
            Reaction::Stop => ReactionView::Stop,
        }
    }
}

/// `a + b`, or the largest number there is.
pub open spec fn sum_capped(a: u32, b: u32) -> u32 {
    if a + b > u32::MAX {
        u32::MAX
    } else {
        (a + b) as u32
    }
}

/// What a command asks of the link.
pub open spec fn reaction(cmd: Cmd) -> ReactionView {
    match cmd {
        Cmd::Send { msg_id, fn_code, payload } => ReactionView::Uplink {
            command: command(msg_id, fn_code, payload@),
        },
        Cmd::Shutdown => ReactionView::Stop,
        _ => ReactionView::Carry,
    }
}

impl Transport {
    /// A session starts paused: the spacecraft is alive but time is not moving.
    pub open spec fn paused() -> Transport {
        Transport { running: false, budget: 0, warp: 1 }
    }

    /// The transport after a command.
    pub open spec fn after(self, cmd: Cmd) -> Transport {
        match cmd {
            Cmd::Play => Transport { running: true, ..self },
            Cmd::Warp(n) => Transport {
                warp: if n == 0 {
                    1
                } else {
                    n
                },
                ..self
            },
            Cmd::Pause => Transport { running: false, budget: 0, ..self },
            Cmd::StepTicks(n) => Transport {
                running: false,
                budget: sum_capped(self.budget, n),
                ..self
            },
            _ => self,
        }
    }

    /// The ticks to grant now: a step at a time while there are steps to take, a
    /// burst while time is running, none while it is frozen.
    pub open spec fn burst(self) -> u32 {
        if self.budget > 0 {
            1
        } else if self.running {
            self.warp
        } else {
            0
        }
    }

    /// The transport once its burst was granted.
    pub open spec fn spent(self) -> Transport {
        Transport {
            budget: if self.budget > 0 {
                (self.budget - 1) as u32
            } else {
                0
            },
            ..self
        }
    }

    /// Is time moving?
    pub open spec fn moving(self) -> bool {
        self.running || self.budget > 0
    }

    /// A session starts paused: the spacecraft is alive but time is not moving.
    pub fn new() -> (t: Transport)
        ensures
            t == Transport::paused(),
    {
        Transport { running: false, budget: 0, warp: 1 }
    }

    /// Take a command of the operator.
    pub fn apply(&mut self, cmd: &Cmd) -> (r: Reaction)
        ensures
            *final(self) == old(self).after(*cmd),
            r@ == reaction(*cmd),
    {
        match cmd {
            Cmd::Play => {
                self.running = true;
            },
            Cmd::Warp(n) => {
                self.warp = if *n == 0 {
                    1
                } else {
                    *n
                };
            },
            Cmd::Pause => {
                self.running = false;
                self.budget = 0;
            },
            Cmd::StepTicks(n) => {
                self.running = false;
                self.budget = self.budget.saturating_add(*n);
            },
            Cmd::Send { msg_id, fn_code, payload } => {
                return Reaction::Uplink {
                    command: build_command(*msg_id, *fn_code, payload.as_slice()),
                };
            },
            Cmd::Shutdown => {
                return Reaction::Stop;
            },
        }
        Reaction::Carry
    }

    /// The ticks to grant now. Once they are granted, the steps that are left count
    /// one less.
    pub fn grant(&mut self) -> (ticks: u32)
        ensures
            ticks == old(self).burst(),
            *final(self) == old(self).spent(),
    {
        let ticks: u32 = if self.budget > 0 {
            1
        } else if self.running {
            self.warp
        } else {
            0
        };
        self.budget = self.budget.saturating_sub(1);
        ticks
    }

    /// Is time moving?
    pub fn is_moving(&self) -> (r: bool)
        ensures
            r == self.moving(),
    {
        self.running || self.budget > 0
    }
}

/// The transport after `n` bursts without a command.
pub open spec fn after_bursts(t: Transport, n: nat) -> Transport
    decreases n,
{
    if n == 0 {
        t
    } else {
        after_bursts(t, (n - 1) as nat).spent()
    }
}

/// The ticks granted over `n` bursts without a command.
pub open spec fn ticks_over(t: Transport, n: nat) -> nat
    decreases n,
{
    if n == 0 {
        0
    } else {
        ticks_over(t, (n - 1) as nat) + after_bursts(t, (n - 1) as nat).burst() as nat
    }
}

proof fn lemma_steps(t: Transport, n: nat)
    requires
        !t.running,
    ensures
        after_bursts(t, n) == (Transport {
            budget: if n < t.budget {
                (t.budget - n) as u32
            } else {
                0
            },
            ..t
        }),
        ticks_over(t, n) == if n < t.budget {
            n
        } else {
            t.budget as nat
        },
    decreases n,
{
    if n > 0 {
        lemma_steps(t, (n - 1) as nat);
    }
}

/// A session starts paused: until a command comes, no tick is granted, and Play is
/// what sets time going.
pub proof fn a_session_starts_paused(n: nat)
    ensures
        ticks_over(Transport::paused(), n) == 0,
        !after_bursts(Transport::paused(), n).moving(),
        Transport::paused().after(Cmd::Play).burst() == 1,
{
    lemma_steps(Transport::paused(), n);
}

/// Step advances exactly as many ticks as asked for, then time is frozen: however
/// often the session looks, it grants those ticks and no more.
pub proof fn stepping_grants_exactly_that_many(t: Transport, ticks: u32, n: nat)
    requires
        t.budget == 0,
        n >= ticks,
    ensures
        ticks_over(t.after(Cmd::StepTicks(ticks)), n) == ticks,
        !after_bursts(t.after(Cmd::StepTicks(ticks)), n).moving(),
{
    lemma_steps(t.after(Cmd::StepTicks(ticks)), n);
}

/// Steps add up: two requests in a row are granted in full, up to the largest number
/// there is.
pub proof fn steps_add_up(t: Transport, first: u32, second: u32, n: nat)
    requires
        t.budget == 0,
        first + second <= u32::MAX,
        n >= first + second,
    ensures
        ticks_over(t.after(Cmd::StepTicks(first)).after(Cmd::StepTicks(second)), n) == first
            + second,
{
    lemma_steps(t.after(Cmd::StepTicks(first)).after(Cmd::StepTicks(second)), n);
}

/// Pause genuinely freezes the spacecraft: from then on no tick is granted, however
/// many steps were still to be taken.
pub proof fn pausing_grants_nothing(t: Transport, n: nat)
    ensures
        ticks_over(t.after(Cmd::Pause), n) == 0,
        !after_bursts(t.after(Cmd::Pause), n).moving(),
{
    lemma_steps(t.after(Cmd::Pause), n);
}

/// Play resumes with no discontinuity: pausing a running spacecraft that has no
/// steps to take and playing it again leaves everything as it was.
pub proof fn playing_undoes_pausing(t: Transport)
    requires
        t.running,
        t.budget == 0,
    ensures
        t.after(Cmd::Pause).after(Cmd::Play) == t,
{
}

/// Time moves exactly where ticks are granted, as long as the warp is not zero. It
/// never is: no command makes it zero.
pub proof fn moving_means_granting(t: Transport, cmd: Cmd)
    requires
        t.warp > 0,
    ensures
        t.moving() <==> t.burst() > 0,
        t.after(cmd).warp > 0,
        t.spent().warp > 0,
        Transport::paused().warp > 0,
{
}

} // verus!
