//! Optional serial-port PTT keying, entirely separate from the audio path. If
//! no port is configured, nothing here is ever touched and PTT stays what it
//! has always been: the user keying the radio by hand during the on-screen
//! countdown.
//!
//! PTT is keyed by raising the RTS and DTR hardware control lines, which is
//! what most simple USB PTT interfaces are wired to. The Kenwood `TX;` and
//! `RX;` command texts are sent too: harmless for a pure RTS/DTR interface,
//! they cover a CAT-capable rig on the same port.
//!
//! The steps are decided here; performing each of them on the port is left to
//! the caller, who reports how it went.

use vstd::prelude::*;
use crate::error::AudioIoError;
use crate::text::{together, together3};

verus! {

/// Baud rates offered in the settings: the range that real rig and interface
/// CAT ports use.
pub const BAUD_RATES: [u32; 8] = [1200, 2400, 4800, 9600, 19200, 38400, 57600, 115200];

/// The baud rate of the usual Kenwood preset.
pub const DEFAULT_BAUD: u32 = 4800;

/// How long a serial operation may take, in milliseconds.
pub const PORT_TIMEOUT_MS: u64 = 500;

/// What to do next with the port.
#[derive(Clone, Copy, Debug, PartialEq, Eq, Structural)]
pub enum PttStep {
    /// Open it: eight data bits, two stop bits, no parity.
    Open,
    /// Set the RTS line.
    Rts { on: bool },
    /// Set the DTR line.
    Dtr { on: bool },
    /// Send the `TX;` command, or the `RX;` command.
    Command { transmit: bool },
    Flush,
    /// Wait for the radio's relay to close.
    Settle,
    /// Nothing: the radio is keyed.
    Keyed,
    /// Nothing: the radio is released.
    Released,
}

/// The step that comes after a step that went well.
pub open spec fn step_after(step: PttStep, keying: bool) -> PttStep {
    if keying {
        match step {
            PttStep::Open => PttStep::Rts { on: true },
            PttStep::Rts { .. } => PttStep::Dtr { on: true },
            PttStep::Dtr { .. } => PttStep::Command { transmit: true },
            PttStep::Command { .. } => PttStep::Flush,
            PttStep::Flush => PttStep::Settle,
            _ => PttStep::Keyed,
        }
    } else {
        match step {
            PttStep::Rts { .. } => PttStep::Dtr { on: false },
            PttStep::Dtr { .. } => PttStep::Command { transmit: false },
            PttStep::Command { .. } => PttStep::Flush,
            _ => PttStep::Released,
        }
    }
}

/// The error that a failed step ends the keying with, if it does: the radio
/// cannot be keyed without the port or its RTS line, and can be without the
/// rest.
pub open spec fn keying_error(step: PttStep, port_name: Seq<char>, e: Seq<char>) -> Option<
    Seq<char>,
> {
    match step {
        PttStep::Open => Some("couldn't open "@ + port_name + ": "@ + e),
        PttStep::Rts { .. } => Some("RTS key-up on "@ + port_name + " failed: "@ + e),
        _ => None,
    }
}

/// The first step of keying the radio.
pub fn key() -> (step: PttStep)
    ensures
        step == PttStep::Open,
{
    PttStep::Open
}

/// The step after `step` while keying, given how `step` went.
pub fn after_key_step(step: PttStep, port_name: &str, outcome: Result<(), String>) -> (next: Result<
    PttStep,
    AudioIoError,
>)
    ensures
        match outcome {
            Ok(_) => next == Ok::<PttStep, AudioIoError>(step_after(step, true)),
            Err(e) => match keying_error(step, port_name@, e@) {
                Some(text) => next matches Err(AudioIoError::Ptt(s)) && s@ == text,
                None => next == Ok::<PttStep, AudioIoError>(step_after(step, true)),
            },
        },
{
    if let Err(e) = outcome {
        match step {
            PttStep::Open => {
                let front = together3("couldn't open ", port_name, ": ");
                return Err(AudioIoError::Ptt(together(&front, &e)));
            },
            PttStep::Rts { .. } => {
                let front = together3("RTS key-up on ", port_name, " failed: ");
                return Err(AudioIoError::Ptt(together(&front, &e)));
            },
            _ => {},
        }
    }
    Ok(
        match step {
            PttStep::Open => PttStep::Rts { on: true },
            PttStep::Rts { .. } => PttStep::Dtr { on: true },
            PttStep::Dtr { .. } => PttStep::Command { transmit: true },
            PttStep::Command { .. } => PttStep::Flush,
            PttStep::Flush => PttStep::Settle,
            _ => PttStep::Keyed,
        },
    )
}

/// The first step of releasing the radio.
pub fn release() -> (step: PttStep)
    ensures
        step == (PttStep::Rts { on: false }),
{
    PttStep::Rts { on: false }
}

/// The step after `step` while releasing, however `step` went: a keyed radio
/// must never be left on because of an error.
pub fn after_release_step(step: PttStep) -> (next: PttStep)
    ensures
        next == step_after(step, false),
{
    match step {
        PttStep::Rts { .. } => PttStep::Dtr { on: false },
        PttStep::Dtr { .. } => PttStep::Command { transmit: false },
        PttStep::Command { .. } => PttStep::Flush,
        _ => PttStep::Released,
    }
}

/// The bytes of a command step.
pub fn command_bytes(transmit: bool) -> (bytes: Vec<u8>)
    ensures
        bytes@ == (if transmit {
            seq![84u8, 88, 59]
        } else {
            seq![82u8, 88, 59]
        }),
{
    if transmit {
        vec![84, 88, 59]
    } else {
        vec![82, 88, 59]
    }
}

/// The step reached after `n` more steps.
pub open spec fn steps_on(step: PttStep, keying: bool, n: nat) -> PttStep
    decreases n,
{
    if n == 0 {
        step
    } else {
        steps_on(step_after(step, keying), keying, (n - 1) as nat)
    }
}

/// Keying opens the port, raises RTS, then DTR, sends the command, flushes,
/// settles and is done. Only the first two steps can end it early.
pub proof fn keying_raises_every_line(port_name: Seq<char>, e: Seq<char>)
    ensures
        steps_on(PttStep::Open, true, 1) == (PttStep::Rts { on: true }),
        steps_on(PttStep::Open, true, 2) == (PttStep::Dtr { on: true }),
        steps_on(PttStep::Open, true, 3) == (PttStep::Command { transmit: true }),
        steps_on(PttStep::Open, true, 4) == PttStep::Flush,
        steps_on(PttStep::Open, true, 5) == PttStep::Settle,
        steps_on(PttStep::Open, true, 6) == PttStep::Keyed,
        forall|n: nat|
            2 <= n ==> keying_error(#[trigger] steps_on(PttStep::Open, true, n), port_name, e)
                is None,
{
    reveal_with_fuel(steps_on, 7);
    assert forall|n: nat| 2 <= n implies keying_error(
        #[trigger] steps_on(PttStep::Open, true, n),
        port_name,
        e,
    ) is None by {
        late_steps_never_fail(steps_on(PttStep::Open, true, 2), (n - 2) as nat);
        assert(steps_on(PttStep::Open, true, n) == steps_on(
            PttStep::Dtr { on: true },
            true,
            (n - 2) as nat,
        ));
    }
}

proof fn late_steps_never_fail(step: PttStep, n: nat)
    requires
        !(step is Open) && !(step is Rts),
    ensures
        !(steps_on(step, true, n) is Open) && !(steps_on(step, true, n) is Rts),
    decreases n,
{
    if n > 0 {
        late_steps_never_fail(step_after(step, true), (n - 1) as nat);
    }
}

/// Releasing lowers RTS, then DTR, sends the command, flushes and is done,
/// whatever fails on the way.
pub proof fn releasing_lowers_every_line()
    ensures
        steps_on(PttStep::Rts { on: false }, false, 1) == (PttStep::Dtr { on: false }),
        steps_on(PttStep::Rts { on: false }, false, 2) == (PttStep::Command { transmit: false }),
        steps_on(PttStep::Rts { on: false }, false, 3) == PttStep::Flush,
        steps_on(PttStep::Rts { on: false }, false, 4) == PttStep::Released,
{
    reveal_with_fuel(steps_on, 5);
}

/// Keying fails exactly where the port cannot be opened or its RTS line cannot
/// be raised, and says so with the port's name and, at the end, the error.
pub proof fn keying_needs_the_port_and_its_line(step: PttStep, port_name: Seq<char>, e: Seq<char>)
    ensures
        keying_error(step, port_name, e) is Some <==> step is Open || step is Rts,
        keying_error(step, port_name, e) matches Some(text) ==> {
            &&& e.len() + port_name.len() <= text.len()
            &&& text.skip(text.len() - e.len()) == e
            &&& exists|at: int|
                0 <= at && at + port_name.len() <= text.len() && #[trigger] text.subrange(
                    at,
                    at + port_name.len(),
                ) == port_name
        },
{
    if let Some(text) = keying_error(step, port_name, e) {
        assert(text.skip(text.len() - e.len()) == e);
        let front = if step is Open {
            "couldn't open "@
        } else {
            "RTS key-up on "@
        };
        let at = front.len() as int;
        assert(text.subrange(at, at + port_name.len()) == port_name);
    }
}

/// A keyed radio stays keyed, and a released one released; while releasing no
/// step ever raises a line or sends the command to transmit, and while keying
/// none ever lowers one.
pub proof fn no_step_turns_back(step: PttStep)
    ensures
        step_after(PttStep::Keyed, true) == PttStep::Keyed,
        step_after(PttStep::Released, false) == PttStep::Released,
        step_after(PttStep::Flush, false) == PttStep::Released,
        step_after(step, false) matches PttStep::Rts { on } ==> !on,
        step_after(step, false) matches PttStep::Dtr { on } ==> !on,
        step_after(step, false) matches PttStep::Command { transmit } ==> !transmit,
        step_after(step, true) matches PttStep::Rts { on } ==> on,
        step_after(step, true) matches PttStep::Dtr { on } ==> on,
        step_after(step, true) matches PttStep::Command { transmit } ==> transmit,
        step_after(step, false) != PttStep::Keyed,
        step_after(step, true) != PttStep::Released,
{
}

} // verus!
