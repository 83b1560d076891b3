# besom

The rules of a deterministic simulation harness and ground station for NASA's core Flight
System (cFS), written in Verus.

Besom owns cFS's clock: simulated time advances only when it grants a tick, so a scripted
scenario run twice produces the same telemetry, and two runs can be compared packet by packet.

- `src/` is the library. Its functions are verified, on top of two trusted contracts for the
  standard library: `evs::from_utf8_lossy` wraps `String::from_utf8_lossy`, and `text` states
  that `String::push` appends one character. `PathBuf` is carried through as an opaque type.
  - `ccsds`, `evs`, `fsw`, `bytes`, `text`: what goes over the wire and into the log;
  - `clock`, `quiesce`, `log`: the step protocol, when the flight software counts as quiet, and
    the lines of its log that are waited for;
  - `transcript`, `order`, `streams`, `check`: recording a run, and comparing two;
  - `run`: a scripted scenario as a state machine;
  - `session`, `transport`, `bringup`, `gui`: a live session, driven by an operator;
  - `*_laws`: what holds across calls and over whole runs. `check_laws` ends in those that
    the harness is for. An identical scenario passes. A packet lost from within a message's
    stream, neither its first nor its last, does not pass; nor does a doubled one, unless it is
    the last of its message once the run is finished: that is the one trailing packet that a
    comparison forgives.
- `tests/` runs the library on concrete values.
- `app/` is the program around it: sockets, the cFS process, the vehicle's dynamics and the
  window. `besom run|check|loop [ticks]` and `besom gui`.

Doubles travel through the library as bit patterns and times as whole ticks or units of
1/65536 s; arithmetic on doubles stays in `app/`.
