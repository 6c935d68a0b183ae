//! The channel probe's state and what events do to it: pick devices, listen,
//! play the diagnostic signal after a countdown, stop and analyze.
//!
//! Times are nanoseconds on one monotonic clock. `X` is a running reception,
//! `H` a running playback and `P` the report of an analysis.

use vstd::prelude::*;
use crate::device::{
    first_device, first_name, keep_selection, kept_selection, listing_error, DeviceInfo, DeviceLists,
};
use crate::error::{error_text, AudioIoError};
use crate::probe::SAMPLE_RATE;
use crate::single::{
    one_decimal, one_decimal_text, power_of_two, quotients_with_zero, rounding_is_fine, seconds_in,
    seconds_left, seconds_left_after, seconds_of, single_of, small_numbers_are_exact,
    span_in_seconds, span_seconds,
    spans_are_close, tenth, two_decimals, two_decimals_text,
};
use crate::text::{copy_of, said, together, together3};
use crate::vad::window_at;
use crate::waterfall::FEED_INTERVAL_NS;
use vstd::arithmetic::power2::pow2;

verus! {

/// How long the user has to key PTT before the signal plays, in seconds.
pub const COUNTDOWN_SECONDS: u8 = 3;

pub enum TxState<H> {
    Idle,
    Countdown { started: u64 },
    Playing { handle: H },
}

pub struct ChannelProbeApp<X, H, P> {
    pub input_devices: Vec<DeviceInfo>,
    pub output_devices: Vec<DeviceInfo>,
    pub selected_input: Option<String>,
    pub selected_output: Option<String>,
    pub device_error: Option<String>,
    pub rx: Option<X>,
    pub tx: TxState<H>,
    pub last_feed: u64,
    pub status: String,
    pub last_report: Option<P>,
    pub last_save_path: Option<String>,
}

/// Whether a span, in seconds, has reached the countdown's end.
pub open spec fn countdown_over(started: u64, now: u64) -> bool {
    let (m, shift) = span_in_seconds(
        if now >= started {
            (now - started) as nat
        } else {
            0
        },
    );
    m >= COUNTDOWN_SECONDS * pow2(shift)
}

/// What the countdown says is left.
pub open spec fn countdown_label(started: u64, now: u64) -> Seq<char> {
    let (m, shift) = seconds_left(
        COUNTDOWN_SECONDS as nat,
        if now >= started {
            (now - started) as nat
        } else {
            0
        },
    );
    "Key up PTT now -- playback in "@ + one_decimal(m, pow2(shift)) + "s"@
}

fn since(started: u64, now: u64) -> (ns: u64)
    ensures
        ns == (if now >= started {
            (now - started) as nat
        } else {
            0
        }),
{
    if now >= started {
        now - started
    } else {
        0
    }
}

impl<X, H, P> ChannelProbeApp<X, H, P> {
    pub fn new(lists: DeviceLists, now: u64) -> (app: Self)
        ensures
            app.input_devices == lists.inputs,
            app.output_devices == lists.outputs,
            said(app.selected_input) == first_name(lists.inputs@),
            said(app.selected_output) == first_name(lists.outputs@),
            app.device_error == lists.error,
            app.rx is None,
            app.tx is Idle,
            app.last_feed == now,
            app.status@ == "Idle. Pick devices, then \"Start Listening\"."@,
            app.last_report is None,
            app.last_save_path is None,
    {
        let selected_input = first_device(&lists.inputs);
        let selected_output = first_device(&lists.outputs);
        ChannelProbeApp {
            input_devices: lists.inputs,
            output_devices: lists.outputs,
            selected_input,
            selected_output,
            device_error: lists.error,
            rx: None,
            tx: TxState::Idle,
            last_feed: now,
            status: copy_of("Idle. Pick devices, then \"Start Listening\"."),
            last_report: None,
            last_save_path: None,
        }
    }

    /// The devices have been listed again: each selection stays while it is
    /// still on offer. Where listing failed, only the error changes.
    pub fn refresh_devices(
        &mut self,
        inputs: Result<Vec<DeviceInfo>, AudioIoError>,
        outputs: Result<Vec<DeviceInfo>, AudioIoError>,
    )
        ensures
            said(final(self).device_error) == listing_error(inputs, outputs),
            match (inputs, outputs) {
                (Ok(i), Ok(o)) => {
                    &&& final(self).input_devices == i
                    &&& final(self).output_devices == o
                    &&& said(final(self).selected_input) == kept_selection(
                        i@,
                        said(old(self).selected_input),
                    )
                    &&& said(final(self).selected_output) == kept_selection(
                        o@,
                        said(old(self).selected_output),
                    )
                    &&& *final(self) == (ChannelProbeApp {
                        input_devices: i,
                        output_devices: o,
                        selected_input: final(self).selected_input,
                        selected_output: final(self).selected_output,
                        device_error: None,
                        ..*old(self)
                    })
                },
                _ => *final(self) == (ChannelProbeApp {
                    device_error: final(self).device_error,
                    ..*old(self)
                }),
            },
    {
        match (inputs, outputs) {
            (Ok(inputs), Ok(outputs)) => {
                let mut selected_input: Option<String> = None;
                core::mem::swap(&mut selected_input, &mut self.selected_input);
                let mut selected_output: Option<String> = None;
                core::mem::swap(&mut selected_output, &mut self.selected_output);
                self.selected_input = keep_selection(&inputs, selected_input);
                self.selected_output = keep_selection(&outputs, selected_output);
                self.input_devices = inputs;
                self.output_devices = outputs;
                self.device_error = None;
            },
            (Err(e), _) => {
                self.device_error = Some(e.message());
            },
            (Ok(_), Err(e)) => {
                self.device_error = Some(e.message());
            },
        }
    }

    /// Listening has been asked for. `started` is what came of starting a
    /// reception on the selected device, if one is selected.
    pub fn start_listening(&mut self, started: Option<Result<X, AudioIoError>>)
        requires
            old(self).selected_input is Some == started is Some,
        ensures
            match started {
                None => {
                    &&& final(self).status@ == "No input device selected."@
                    &&& final(self).rx == old(self).rx
                },
                Some(Ok(rx)) => {
                    &&& final(self).status@ == "Listening on \""@ + old(self).selected_input->0@
                        + "\"..."@
                    &&& final(self).rx == Some(rx)
                },
                Some(Err(e)) => {
                    &&& final(self).status@ == "Failed to start capture: "@ + error_text(e)
                    &&& final(self).rx == old(self).rx
                },
            },
            *final(self) == (ChannelProbeApp {
                status: final(self).status,
                rx: final(self).rx,
                ..*old(self)
            }),
    {
        match started {
            None => {
                self.status = copy_of("No input device selected.");
            },
            Some(Ok(rx)) => {
                self.rx = Some(rx);
                if let Some(device) = &self.selected_input {
                    self.status = together3("Listening on \"", device, "\"...");
                }
            },
            Some(Err(e)) => {
                let message = e.message();
                self.status = together("Failed to start capture: ", &message);
            },
        }
    }

    /// Hands out the reception to be stopped and analyzed.
    pub fn take_reception(&mut self) -> (rx: Option<X>)
        ensures
            rx == old(self).rx,
            final(self).rx is None,
            final(self).status@ == (if old(self).rx is None {
                "Not currently listening."@
            } else {
                old(self).status@
            }),
            *final(self) == (ChannelProbeApp {
                status: final(self).status,
                rx: None,
                ..*old(self)
            }),
    {
        let mut rx: Option<X> = None;
        core::mem::swap(&mut rx, &mut self.rx);
        if rx.is_none() {
            self.status = copy_of("Not currently listening.");
        }
        rx
    }

    /// A capture has been analyzed, and perhaps saved.
    pub fn analyzed(&mut self, samples: usize, reliable: bool, report: P, saved: Option<String>)
        ensures
            final(self).status@ == (if reliable {
                "Analyzed "@ + capture_length(samples as nat)
                    + "s capture -- start marker found cleanly."@
            } else {
                "Analyzed capture -- start marker was NOT found reliably (see warning below). Check PTT/levels/routing."@
            }),
            *final(self) == (ChannelProbeApp {
                status: final(self).status,
                last_report: Some(report),
                last_save_path: match saved {
                    Some(path) => Some(path),
                    None => old(self).last_save_path,
                },
                ..*old(self)
            }),
    {
        if let Some(path) = saved {
            self.last_save_path = Some(path);
        }
        if reliable {
            let length = capture_length_text(samples);
            self.status = together3(
                "Analyzed ",
                &length,
                "s capture -- start marker found cleanly.",
            );
        } else {
            self.status = copy_of(
                "Analyzed capture -- start marker was NOT found reliably (see warning below). Check PTT/levels/routing.",
            );
        }
        self.last_report = Some(report);
    }

    /// Playing the signal has been asked for.
    pub fn start_play_countdown(&mut self, now: u64)
        ensures
            if old(self).selected_output is None {
                &&& final(self).status@ == "No output device selected."@
                &&& *final(self) == (ChannelProbeApp { status: final(self).status, ..*old(self) })
            } else {
                *final(self) == (ChannelProbeApp {
                    tx: TxState::Countdown { started: now },
                    ..*old(self)
                })
            },
    {
        if self.selected_output.is_none() {
            self.status = copy_of("No output device selected.");
            return;
        }
        self.tx = TxState::Countdown { started: now };
    }

    /// Whether the countdown has run out, so that playback is due.
    pub fn playback_due(&self, now: u64) -> (due: bool)
        ensures
            due == (self.tx matches TxState::Countdown { started } && countdown_over(started, now)),
    {
        match self.tx {
            TxState::Countdown { started } => {
                let span = span_seconds(since(started, now));
                span.at_least(COUNTDOWN_SECONDS as u32)
            },
            _ => false,
        }
    }

    /// Playback has been started, or could not be.
    pub fn playback_started(&mut self, started: Result<H, AudioIoError>)
        ensures
            match started {
                Ok(handle) => {
                    &&& final(self).status@ == "Playing diagnostic signal..."@
                    &&& final(self).tx == (TxState::Playing { handle })
                },
                Err(e) => {
                    &&& final(self).status@ == "Failed to start playback: "@ + error_text(e)
                    &&& final(self).tx is Idle
                },
            },
            *final(self) == (ChannelProbeApp {
                status: final(self).status,
                tx: final(self).tx,
                ..*old(self)
            }),
    {
        match started {
            Ok(handle) => {
                self.status = copy_of("Playing diagnostic signal...");
                self.tx = TxState::Playing { handle };
            },
            Err(e) => {
                let message = e.message();
                self.status = together("Failed to start playback: ", &message);
                self.tx = TxState::Idle;
            },
        }
    }

    /// Looks whether playback has finished.
    pub fn playback_polled(&mut self, finished: bool)
        ensures
            if old(self).tx is Playing && finished {
                &&& final(self).status@ == "Playback finished."@
                &&& final(self).tx is Idle
                &&& *final(self) == (ChannelProbeApp {
                    status: final(self).status,
                    tx: final(self).tx,
                    ..*old(self)
                })
            } else {
                *final(self) == *old(self)
            },
    {
        if let TxState::Playing { .. } = self.tx {
            if finished {
                self.status = copy_of("Playback finished.");
                self.tx = TxState::Idle;
            }
        }
    }

    /// Whether it is time to pull recent audio into the waterfall and the level
    /// meter; if so, it has been.
    pub fn feed_due(&mut self, now: u64) -> (due: bool)
        ensures
            due == (old(self).rx is Some && now - old(self).last_feed >= 15_000_000),
            *final(self) == (ChannelProbeApp {
                last_feed: if due {
                    now
                } else {
                    old(self).last_feed
                },
                ..*old(self)
            }),
    {
        if self.rx.is_some() && now >= self.last_feed && now - self.last_feed >= FEED_INTERVAL_NS {
            self.last_feed = now;
            true
        } else {
            false
        }
    }

    /// Whether the signal is about to play or playing, so that it cannot be
    /// started again.
    pub fn tx_busy(&self) -> (busy: bool)
        ensures
            busy == !(self.tx is Idle),
    {
        match self.tx {
            TxState::Idle => false,
            _ => true,
        }
    }

    /// Whether something is going on that has to be redrawn.
    pub fn is_live(&self) -> (yes: bool)
        ensures
            yes == (self.rx is Some || !(self.tx is Idle)),
    {
        self.rx.is_some() || self.tx_busy()
    }

    /// What the user is told of the playback, if there is one.
    pub fn tx_label(&self, now: u64) -> (label: Option<String>)
        ensures
            said(label) == (match self.tx {
                TxState::Idle => None,
                TxState::Countdown { started } => Some(countdown_label(started, now)),
                TxState::Playing { .. } => Some("Transmitting..."@),
            }),
    {
        match self.tx {
            TxState::Idle => None,
            TxState::Countdown { started } => {
                let left = seconds_left_after(COUNTDOWN_SECONDS, since(started, now));
                let number = one_decimal_text(left.mantissa, power_of_two(left.shift));
                Some(together3("Key up PTT now -- playback in ", &number, "s"))
            },
            TxState::Playing { .. } => Some(copy_of("Transmitting...")),
        }
    }
}

/// How long a capture is, in seconds with two decimals.
pub open spec fn capture_length(samples: nat) -> Seq<char> {
    let (m, shift) = seconds_in(samples, SAMPLE_RATE as nat);
    two_decimals(m, pow2(shift))
}

/// Writes how long a capture is.
pub fn capture_length_text(samples: usize) -> (text: String)
    ensures
        text@ == capture_length(samples as nat),
{
    let s = seconds_of(samples, SAMPLE_RATE);
    two_decimals_text(s.mantissa, power_of_two(s.shift))
}

/// How many samples the level meter looks back on: a tenth of a second, at
/// least one.
pub fn meter_window(rate: u32) -> (n: usize)
    ensures
        n == window_at(rate),
{
    let n: usize = tenth(rate);
    if n >= 1 {
        n
    } else {
        1
    }
}

/// The signal never plays before the countdown is over: only a countdown that
/// has run out makes playback due, and right after it was started none is.
pub proof fn playback_waits_for_the_countdown(started: u64)
    ensures
        !countdown_over(started, started),
{
    vstd::arithmetic::power2::lemma2_to64();
    let (m, shift) = span_in_seconds(0);
    vstd::arithmetic::power2::lemma_pow2_pos(shift);
    crate::single::no_time_is_zero_seconds();
}

/// The countdown is over three seconds after it was started: not before, but
/// for one part in 4,194,304, and no later than that much behind.
pub proof fn the_countdown_lasts_three_seconds(started: u64, now: u64)
    ensures
        countdown_over(started, now) ==> 0x40_0001 * (now - started) >= 0x40_0000 * 3_000_000_000,
        0x3F_FFFF * (now - started) >= 0x40_0000 * 3_000_000_000 ==> countdown_over(started, now),
{
    let ns = if now >= started {
        (now - started) as nat
    } else {
        0
    };
    let (m, shift) = span_in_seconds(ns);
    let one = pow2(shift);
    vstd::arithmetic::power2::lemma_pow2_pos(shift);
    spans_are_close(ns);
    if m >= 3 * one {
        assert(0x40_0001 * ns >= 0x40_0000 * 3_000_000_000) by (nonlinear_arith)
            requires
                m >= 3 * one,
                one > 0,
                0x40_0000 * (1_000_000_000 * m) <= 0x40_0001 * (ns * one),
        ;
    }
    if 0x3F_FFFF * ns >= 0x40_0000 * 3_000_000_000 {
        assert(m >= 3 * one) by (nonlinear_arith)
            requires
                0x3F_FFFF * ns >= 0x40_0000 * 3_000_000_000,
                one > 0,
                0x40_0000 * (1_000_000_000 * m) >= 0x3F_FFFF * (ns * one),
        ;
    }
}

/// The countdown shows how much of the three seconds is left, to the nearest
/// tenth of what single precision makes of it, which is within one part in
/// 2,097,152 of the three seconds; it shows nothing left once they are over.
#[verifier::spinoff_prover]
pub proof fn the_countdown_shows_what_is_left(started: u64, now: u64)
    ensures
        exists|m: nat, one: nat|
            one > 0 && countdown_label(started, now) == "Key up PTT now -- playback in "@
                + #[trigger] one_decimal(m, one) + "s"@ && {
                let left = if now < started {
                    3_000_000_000
                } else if now - started < 3_000_000_000 {
                    3_000_000_000 - (now - started)
                } else {
                    0
                };
                -3_000_000_000 * one <= 0x20_0000 * (1_000_000_000 * m - left * one)
                    <= 3_000_000_000 * one
            },
{
    let ns: nat = if now >= started {
        (now - started) as nat
    } else {
        0
    };
    let left: int = if ns < 3_000_000_000 {
        3_000_000_000 - ns
    } else {
        0
    };
    let (s, shift) = span_in_seconds(ns);
    let one = pow2(shift);
    vstd::arithmetic::power2::lemma_pow2_pos(shift);
    spans_are_close(ns);
    let m = seconds_left(3, ns).0;
    let all = 3 * one;
    let n_one = ns * one;
    assert(left * one == (if ns < 3_000_000_000 {
        3_000_000_000 * one - n_one
    } else {
        0
    })) by (nonlinear_arith)
        requires
            n_one == ns * one,
            ns < 3_000_000_000 ==> left == 3_000_000_000 - ns,
            ns >= 3_000_000_000 ==> left == 0,
    ;
    assert(ns >= 3_000_000_000 ==> n_one >= 3_000_000_000 * one) by (nonlinear_arith)
        requires
            n_one == ns * one,
    ;
    assert(ns < 3_000_000_000 ==> n_one <= 3_000_000_000 * one) by (nonlinear_arith)
        requires
            n_one == ns * one,
    ;
    if all > s {
        rounding_is_fine((all - s) as nat);
    }
    assert(-3_000_000_000 * one <= 0x20_0000 * (1_000_000_000 * m - left * one) <= 3_000_000_000
        * one);
    assert(countdown_label(started, now) == "Key up PTT now -- playback in "@ + one_decimal(m, one)
        + "s"@);
}

/// The length of a capture is shown to the nearest hundredth of a second of
/// what single precision makes of it, which is within one part in 4,194,304 of
/// its samples at 48 kHz.
pub proof fn a_capture_is_as_long_as_its_samples(samples: nat)
    ensures
        exists|m: nat, one: nat|
            one > 0 && capture_length(samples) == #[trigger] two_decimals(m, one) && 0x40_0000 * (
            48_000 * m) <= 0x40_0001 * (samples * one) && 0x40_0000 * (48_000 * m) >= 0x3F_FFFF * (
            samples * one),
{
    let n = single_of(samples);
    rounding_is_fine(samples);
    rounding_is_fine(48_000);
    small_numbers_are_exact(48_000);
    let (m, shift) = seconds_in(samples, 48_000);
    let one = pow2(shift);
    vstd::arithmetic::power2::lemma_pow2_pos(shift);
    quotients_with_zero(n, 48_000);
    assert(0x100_0000 * (n * one) <= 0x100_0001 * (samples * one)) by (nonlinear_arith)
        requires
            0x100_0000 * n <= 0x100_0001 * samples,
    ;
    assert(0x100_0000 * (n * one) >= 0xFF_FFFF * (samples * one)) by (nonlinear_arith)
        requires
            0x100_0000 * n >= 0xFF_FFFF * samples,
    ;
    assert(capture_length(samples) == two_decimals(m, one));
}

} // verus!
