//! **besom**: the rules of a deterministic simulation harness and ground station
//! for NASA's core Flight System (cFS).
//!
//! Besom owns cFS's clock. Simulated time advances only when Besom grants a tick,
//! so a scripted scenario produces the same telemetry every run, and two runs can
//! be compared packet by packet.
//!
//! This crate holds what the harness decides and computes: the packet codecs, the
//! step protocol, the quiescence rule, the scenario and session state machines,
//! and the transcript with its comparisons. Sockets, processes, the vehicle
//! model and the window live in the program around it.

pub mod bringup;
pub mod bytes;
pub mod ccsds;
pub mod check;
pub mod check_laws;
pub mod clock;
pub mod comparison_laws;
pub mod contents_laws;
pub mod evs;
pub mod fsw;
pub mod gui;
pub mod log;
pub mod order;
pub mod quiesce;
pub mod quiesce_laws;
pub mod record_laws;
pub mod run;
pub mod run_laws;
pub mod scenario_laws;
pub mod session;
pub mod session_laws;
pub mod stream_laws;
pub mod streams;
pub mod text;
pub mod text_laws;
pub mod transcript;
pub mod transcript_laws;
pub mod transport;
pub mod view_laws;
pub mod wire_laws;

pub use ccsds::{MsgId, TlmPacket};
pub use clock::{Clock, TICK_USEC};
pub use evs::Event;
pub use run::Config;
pub use session::State;
pub use transcript::{Entry, Transcript};
