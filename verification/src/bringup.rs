//! Bringing up the downlink of a live session.
//!
//! The launch returns as soon as the PSP binds the step socket. CI_LAB binds its
//! port some time later, and an uplink sent before that is a datagram to a closed
//! port. So wait for the bind, then confirm that the enable was acknowledged, and
//! resend it while waiting.

use vstd::prelude::*;
use crate::ccsds::command;
use crate::fsw::{
    add_packet_command, add_packet_payload, STATE_TLM_MID, TO_LAB_ADD_PKT_CC, TO_LAB_CMD_MID,
};
use crate::run::{enable_output_command, ground_address, RunError, TO_LAB_OUTPUT_ENABLE_CC};

verus! {

/// How often the enable command is sent before giving up.
pub const ENABLE_ATTEMPTS: u32 = 25;

/// How far the bring-up of the downlink is.
#[derive(Debug, Clone, Copy, PartialEq, Eq, Structural)]
pub enum BringUp {
    /// Waiting for CI_LAB to bind its port. An uplink sent before that is dropped in
    /// silence.
    AwaitPort,
    /// About to send the enable command, after so many attempts without an answer. A
    /// command lost in the gap is invisible to us and only a retry recovers it.
    Enable { attempts: u32 },
    /// About to subscribe `besom_io`'s telemetry.
    Subscribe,
    /// The downlink is up.
    Up,
}

/// What the bring-up asks for.
#[derive(Debug)]
pub enum LinkAction {
    /// Wait for CI_LAB to listen on its port.
    AwaitPort,
    /// Send this to CI_LAB, and wait a little for TO_LAB to acknowledge it.
    Enable { command: Vec<u8> },
    /// Send this to CI_LAB, and wait until cFS is quiet.
    Subscribe { command: Vec<u8> },
    /// Nothing: the downlink is up.
    Fly,
}

/// What the bring-up asks for, with its bytes as a sequence.
#[verifier::ext_equal]
pub enum LinkActionView {
    AwaitPort,
    Enable { command: Seq<u8> },
    Subscribe { command: Seq<u8> },
    Fly,
}

impl View for LinkAction {
    type V = LinkActionView;

    open spec fn view(&self) -> LinkActionView {
        match self {
            LinkAction::AwaitPort => LinkActionView::AwaitPort,
            LinkAction::Enable { command } => LinkActionView::Enable { command: command@ },
            LinkAction::Subscribe { command } => LinkActionView::Subscribe { command: command@ },
            LinkAction::Fly => LinkActionView::Fly,
        }
    }
}

impl BringUp {
    /// What is to be done next.
    pub open spec fn asked(self) -> LinkActionView {
        match self {
            BringUp::AwaitPort => LinkActionView::AwaitPort,
            BringUp::Enable { .. } => LinkActionView::Enable {
                command: command(TO_LAB_CMD_MID, TO_LAB_OUTPUT_ENABLE_CC, ground_address()),
            },
            BringUp::Subscribe => LinkActionView::Subscribe {
                command: command(
                    TO_LAB_CMD_MID,
                    TO_LAB_ADD_PKT_CC,
                    add_packet_payload(STATE_TLM_MID),
                ),
            },
            BringUp::Up => LinkActionView::Fly,
        }
    }

    /// Where the bring-up is once its action was done, with or without an answer. A
    /// subscription has no answer to wait for.
    pub open spec fn after(self, answered: bool) -> Result<BringUp, RunError> {
        match self {
            BringUp::AwaitPort => if answered {
                Ok(BringUp::Enable { attempts: 0 })
            } else {
                Err(RunError::NoCommandPort)
            },
            BringUp::Enable { attempts } => if answered {
                Ok(BringUp::Subscribe)
            } else if attempts + 1 < ENABLE_ATTEMPTS {
                Ok(BringUp::Enable { attempts: (attempts + 1) as u32 })
            } else {
                Err(RunError::NeverEnabled)
            },
            BringUp::Subscribe => Ok(BringUp::Up),
            BringUp::Up => Ok(BringUp::Up),
        }
    }

    /// What is to be done next.
    pub fn action(&self) -> (a: LinkAction)
        ensures
            a@ == self.asked(),
    {
        match self {
            BringUp::AwaitPort => LinkAction::AwaitPort,
            BringUp::Enable { .. } => LinkAction::Enable { command: enable_output_command() },
            BringUp::Subscribe => LinkAction::Subscribe {
                command: add_packet_command(STATE_TLM_MID),
            },
            BringUp::Up => LinkAction::Fly,
        }
    }

    /// Move on once the action was done, with or without an answer.
    pub fn next(self, answered: bool) -> (r: Result<BringUp, RunError>)
        ensures
            r == self.after(answered),
    {
        match self {
            BringUp::AwaitPort => if answered {
                Ok(BringUp::Enable { attempts: 0 })
            } else {
                Err(RunError::NoCommandPort)
            },
            BringUp::Enable { attempts } => if answered {
                Ok(BringUp::Subscribe)
            } else if attempts < ENABLE_ATTEMPTS - 1 {
                Ok(BringUp::Enable { attempts: attempts + 1 })
            } else {
                Err(RunError::NeverEnabled)
            },
            BringUp::Subscribe => Ok(BringUp::Up),
            BringUp::Up => Ok(BringUp::Up),
        }
    }
}

/// Where the bring-up is after the enable command went unanswered `n` times.
pub open spec fn unanswered(n: nat) -> Result<BringUp, RunError>
    decreases n,
{
    if n == 0 {
        Ok(BringUp::Enable { attempts: 0 })
    } else {
        match unanswered((n - 1) as nat) {
            Ok(b) => b.after(false),
            Err(e) => Err(e),
        }
    }
}

/// The enable command is resent while it goes unanswered, and the session gives up
/// after exactly as many attempts as it has.
pub proof fn enabling_is_retried(n: nat)
    ensures
        n < ENABLE_ATTEMPTS ==> unanswered(n) == Ok::<BringUp, RunError>(
            BringUp::Enable { attempts: n as u32 },
        ),
        n >= ENABLE_ATTEMPTS ==> unanswered(n) == Err::<BringUp, RunError>(
            RunError::NeverEnabled,
        ),
    decreases n,
{
    if n > 0 {
        enabling_is_retried((n - 1) as nat);
    }
}

} // verus!
