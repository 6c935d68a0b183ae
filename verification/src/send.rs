//! Sending, shared by both modes: prepare, count down while the user presses
//! PTT, transmit, hold the PTT a little longer, done.
//!
//! Times are nanoseconds on one monotonic clock. `S` is a sample, `R` what a
//! preparation running in the background is received through, `H` a running
//! playback and `K` a keyed serial PTT port, which releases the radio when it
//! is dropped.

use vstd::arithmetic::power2::pow2;
use vstd::prelude::*;
use crate::error::{error_text, AudioIoError};
use crate::pipeline::PreparedTx;
use crate::single::{
    duration_text, format_duration, playback_position, position_along, positions_are_in_proportion,
    seconds_are_close, seconds_in, seconds_of, seconds_up, seconds_up_is_close, span_seconds_up, Single,
};
use crate::text::{copy_of, decimal, decimal_text, said, together, together3};
use crate::tx::samples_played;

verus! {

/// How long the user has to press PTT before a transmission starts.
pub const PTT_LEAD_IN_NS: u64 = 3_000_000_000;

/// How long to wait after keying a serial PTT port for the radio's relay to
/// close, in milliseconds.
pub const PTT_PRE_DELAY_MS: u64 = 750;

/// How long a serial PTT port stays keyed after the audio has finished: the
/// output can report that slightly before the last samples have left the
/// speaker.
pub const PTT_POST_DELAY_NS: u64 = 400_000_000;

pub enum SendPhase<S, R, H, K> {
    Idle,
    /// Covers the upload of an attachment, if there is one, and the assembly.
    Preparing { rx: R },
    /// Assembled, until the user picks to send it, to save it or both.
    Prepared { prepared: PreparedTx<S> },
    Countdown { prepared: PreparedTx<S>, deadline: u64 },
    /// A configured PTT port is held for the whole transmission.
    Transmitting { tx: H, ptt: Option<K> },
    /// The audio has finished; the PTT port is held a little longer.
    Releasing { until: u64, ptt: Option<K> },
    Done,
    Failed(String),
}

pub struct SendState<S, R, H, K> {
    pub phase: SendPhase<S, R, H, K>,
    /// A copy of the prepared wave and its rate, for the waterfall to draw
    /// from while the wave itself is being played.
    pub cached_wave: Option<(Vec<S>, u32)>,
    /// Set if a configured PTT port failed to key. The transmission still goes
    /// ahead: manual PTT is always the fallback.
    pub ptt_warning: Option<String>,
}

/// Whether a new message can be prepared: nothing is under way.
pub open spec fn is_free<S, R, H, K>(phase: SendPhase<S, R, H, K>) -> bool {
    phase is Idle || phase is Done || phase is Failed
}

/// Whether PTT is engaged, by hand or by port.
pub open spec fn is_engaged<S, R, H, K>(phase: SendPhase<S, R, H, K>) -> bool {
    phase is Countdown || phase is Transmitting || phase is Releasing
}

/// The keyed PTT port that a phase holds, if it holds one.
pub open spec fn held_port<S, R, H, K>(phase: SendPhase<S, R, H, K>) -> Option<K> {
    match phase {
        SendPhase::Transmitting { ptt, .. } => ptt,
        SendPhase::Releasing { ptt, .. } => ptt,
        _ => None,
    }
}

/// What the user's choice does to a prepared message: sending goes before
/// editing, editing before reporting that saving failed.
pub open spec fn after_choice<S, R, H, K>(
    phase: SendPhase<S, R, H, K>,
    transmit: bool,
    edit: bool,
    save_error: Option<String>,
    now: u64,
) -> SendPhase<S, R, H, K> {
    match phase {
        SendPhase::Prepared { prepared } => if transmit {
            SendPhase::Countdown { prepared, deadline: (now + PTT_LEAD_IN_NS) as u64 }
        } else if edit {
            SendPhase::Idle
        } else {
            match save_error {
                Some(e) => SendPhase::Failed(e),
                None => phase,
            }
        },
        _ => phase,
    }
}

/// What the end of the audio does: a port is held a little longer, and without
/// one the transmission is done.
pub open spec fn after_audio<S, R, H, K>(
    phase: SendPhase<S, R, H, K>,
    finished: bool,
    now: u64,
) -> SendPhase<S, R, H, K> {
    match phase {
        SendPhase::Transmitting { tx, ptt } => if !finished {
            phase
        } else {
            match ptt {
                Some(_) => SendPhase::Releasing { until: (now + PTT_POST_DELAY_NS) as u64, ptt },
                None => SendPhase::Done,
            }
        },
        _ => phase,
    }
}

/// What the passing of time does to a held port.
pub open spec fn after_hold<S, R, H, K>(phase: SendPhase<S, R, H, K>, now: u64) -> SendPhase<
    S,
    R,
    H,
    K,
> {
    match phase {
        SendPhase::Releasing { until, .. } => if now >= until {
            SendPhase::Done
        } else {
            phase
        },
        _ => phase,
    }
}

/// Whether one wave is a copy of the other.
pub open spec fn is_copy_of<S>(cached: Option<(Vec<S>, u32)>, prepared: PreparedTx<S>) -> bool {
    cached matches Some((wave, rate)) && wave@ == prepared.wave@ && rate == prepared.sample_rate
}

fn copy_wave<S: Copy>(wave: &Vec<S>) -> (copy: Vec<S>)
    ensures
        copy@ == wave@,
{
    let mut copy: Vec<S> = Vec::new();
    for i in 0..wave.len()
        invariant
            copy@ == wave@.take(i as int),
    {
        copy.push(wave[i]);
        assert(copy@ == wave@.take(i + 1));
    }
    assert(wave@.take(wave@.len() as int) == wave@);
    copy
}

impl<S: Copy, R, H, K> SendState<S, R, H, K> {
    pub fn new() -> (state: Self)
        ensures
            state.phase == SendPhase::<S, R, H, K>::Idle,
            state.cached_wave is None,
            state.ptt_warning is None,
    {
        SendState { phase: SendPhase::Idle, cached_wave: None, ptt_warning: None }
    }

    /// Whether a new message can be prepared.
    pub fn free(&self) -> (yes: bool)
        ensures
            yes == is_free(self.phase),
    {
        match self.phase {
            SendPhase::Idle | SendPhase::Done | SendPhase::Failed(_) => true,
            _ => false,
        }
    }

    /// Whether PTT is engaged.
    pub fn engaged(&self) -> (yes: bool)
        ensures
            yes == is_engaged(self.phase),
    {
        match self.phase {
            SendPhase::Countdown { .. }
            | SendPhase::Transmitting { .. }
            | SendPhase::Releasing { .. } => true,
            _ => false,
        }
    }

    /// A preparation has been started in the background.
    pub fn prepare(&mut self, rx: R)
        requires
            is_free(old(self).phase),
        ensures
            final(self).phase == (SendPhase::<S, R, H, K>::Preparing { rx }),
            final(self).cached_wave == old(self).cached_wave,
            final(self).ptt_warning == old(self).ptt_warning,
    {
        self.phase = SendPhase::Preparing { rx };
    }

    /// The preparation has come to an end.
    pub fn prepared(&mut self, result: Result<PreparedTx<S>, String>)
        ensures
            old(self).phase is Preparing ==> match result {
                Ok(p) => final(self).phase == (SendPhase::<S, R, H, K>::Prepared { prepared: p })
                    && is_copy_of(final(self).cached_wave, p),
                Err(e) => {
                    &&& final(self).phase == SendPhase::<S, R, H, K>::Failed(e)
                    &&& final(self).cached_wave == old(self).cached_wave
                },
            },
            !(old(self).phase is Preparing) ==> *final(self) == *old(self),
            final(self).ptt_warning == old(self).ptt_warning,
    {
        if let SendPhase::Preparing { .. } = self.phase {
            match result {
                Ok(p) => {
                    self.cached_wave = Some((copy_wave(&p.wave), p.sample_rate));
                    self.phase = SendPhase::Prepared { prepared: p };
                },
                Err(e) => {
                    self.phase = SendPhase::Failed(e);
                },
            }
        }
    }

    /// The user has chosen what to do with a prepared message.
    pub fn choose_action(
        &mut self,
        transmit: bool,
        edit: bool,
        save_error: Option<String>,
        now: u64,
    )
        requires
            now + PTT_LEAD_IN_NS <= u64::MAX,
        ensures
            final(self).phase == after_choice(old(self).phase, transmit, edit, save_error, now),
            final(self).cached_wave == (if old(self).phase is Prepared && !transmit && edit {
                None
            } else {
                old(self).cached_wave
            }),
            final(self).ptt_warning == old(self).ptt_warning,
    {
        let mut phase = SendPhase::Idle;
        core::mem::swap(&mut phase, &mut self.phase);
        match phase {
            SendPhase::Prepared { prepared } => {
                if transmit {
                    self.phase = SendPhase::Countdown { prepared, deadline: now + PTT_LEAD_IN_NS };
                } else if edit {
                    self.phase = SendPhase::Idle;
                    self.cached_wave = None;
                } else if let Some(e) = save_error {
                    self.phase = SendPhase::Failed(e);
                } else {
                    self.phase = SendPhase::Prepared { prepared };
                }
            },
            other => {
                self.phase = other;
            },
        }
    }

    /// How long the countdown still runs, in nanoseconds.
    pub fn remaining(&self, now: u64) -> (ns: u64)
        ensures
            ns == (match self.phase {
                SendPhase::Countdown { deadline, .. } => if deadline >= now {
                    (deadline - now) as u64
                } else {
                    0
                },
                _ => 0,
            }),
    {
        match self.phase {
            SendPhase::Countdown { deadline, .. } => if deadline >= now {
                deadline - now
            } else {
                0
            },
            _ => 0,
        }
    }

    /// Hands out the prepared message once the countdown has run out. What
    /// comes of it is reported to `launched`; until then the phase says that
    /// something went wrong.
    pub fn take_launch(&mut self, now: u64) -> (launch: Option<PreparedTx<S>>)
        ensures
            match old(self).phase {
                SendPhase::Countdown { prepared, deadline } => if now >= deadline {
                    &&& launch == Some(prepared)
                    &&& final(self).phase matches SendPhase::Failed(e) && e@
                        == "internal state error"@
                } else {
                    launch is None && final(self).phase == old(self).phase
                },
                _ => launch is None && final(self).phase == old(self).phase,
            },
            final(self).cached_wave == old(self).cached_wave,
            final(self).ptt_warning == old(self).ptt_warning,
    {
        let mut phase = SendPhase::Idle;
        core::mem::swap(&mut phase, &mut self.phase);
        match phase {
            SendPhase::Countdown { prepared, deadline } => {
                if now >= deadline {
                    self.phase = SendPhase::Failed(copy_of("internal state error"));
                    Some(prepared)
                } else {
                    self.phase = SendPhase::Countdown { prepared, deadline };
                    None
                }
            },
            other => {
                self.phase = other;
                None
            },
        }
    }

    /// Playback has been started, or could not be. `key` is what came of
    /// keying the PTT port, if one is configured: a port that failed to key is
    /// worth a warning, nothing more.
    pub fn launched(
        &mut self,
        key: Option<Result<K, AudioIoError>>,
        started: Result<H, AudioIoError>,
    )
        ensures
            match started {
                Ok(tx) => final(self).phase == (SendPhase::<S, R, H, K>::Transmitting {
                    tx,
                    ptt: match key {
                        Some(Ok(port)) => Some(port),
                        _ => None,
                    },
                }),
                Err(e) => final(self).phase matches SendPhase::Failed(s) && s@ == error_text(e),
            },
            match key {
                Some(Ok(_)) => final(self).ptt_warning is None,
                Some(Err(e)) => said(final(self).ptt_warning) == Some(error_text(e)),
                None => final(self).ptt_warning == old(self).ptt_warning,
            },
            final(self).cached_wave == old(self).cached_wave,
    {
        let ptt = match key {
            Some(Ok(port)) => {
                self.ptt_warning = None;
                Some(port)
            },
            Some(Err(e)) => {
                self.ptt_warning = Some(e.message());
                None
            },
            None => None,
        };
        match started {
            Ok(tx) => {
                self.phase = SendPhase::Transmitting { tx, ptt };
            },
            Err(e) => {
                self.phase = SendPhase::Failed(e.message());
            },
        }
    }

    /// Looks whether the audio has finished.
    pub fn audio_polled(&mut self, finished: bool, now: u64)
        requires
            now + PTT_POST_DELAY_NS <= u64::MAX,
        ensures
            final(self).phase == after_audio(old(self).phase, finished, now),
            final(self).cached_wave == old(self).cached_wave,
            final(self).ptt_warning == old(self).ptt_warning,
    {
        let mut phase = SendPhase::Idle;
        core::mem::swap(&mut phase, &mut self.phase);
        match phase {
            SendPhase::Transmitting { tx, ptt } => {
                if !finished {
                    self.phase = SendPhase::Transmitting { tx, ptt };
                } else if ptt.is_some() {
                    self.phase = SendPhase::Releasing { until: now + PTT_POST_DELAY_NS, ptt };
                } else {
                    self.phase = SendPhase::Done;
                }
            },
            other => {
                self.phase = other;
            },
        }
    }

    /// Looks whether a held port has been held long enough.
    pub fn hold_polled(&mut self, now: u64)
        ensures
            final(self).phase == after_hold(old(self).phase, now),
            final(self).cached_wave == old(self).cached_wave,
            final(self).ptt_warning == old(self).ptt_warning,
    {
        if let SendPhase::Releasing { until, .. } = self.phase {
            if now >= until {
                self.phase = SendPhase::Done;
            }
        }
    }

    /// The user wants to try again after a failure.
    pub fn try_again(&mut self)
        ensures
            final(self).phase == (if old(self).phase is Failed {
                SendPhase::<S, R, H, K>::Idle
            } else {
                old(self).phase
            }),
            final(self).cached_wave == old(self).cached_wave,
            final(self).ptt_warning == old(self).ptt_warning,
    {
        if let SendPhase::Failed(_) = self.phase {
            self.phase = SendPhase::Idle;
        }
    }

    /// Ready for the next message.
    pub fn reset(&mut self)
        ensures
            final(self).phase == SendPhase::<S, R, H, K>::Idle,
            final(self).cached_wave is None,
            final(self).ptt_warning == old(self).ptt_warning,
    {
        self.phase = SendPhase::Idle;
        self.cached_wave = None;
    }
}

// ---------------------------------------------------------------------
// The stretch that the waterfall shows
// ---------------------------------------------------------------------

/// The stretch of `len` samples that ends where playback is, no longer than
/// `window`.
pub open spec fn window_at(played: nat, total: nat, len: nat, window: nat) -> (int, int) {
    let at = position_along(
        if played < total {
            played
        } else {
            total
        },
        total,
        len,
    ) as int;
    (
        if at > window {
            at - window
        } else {
            0
        },
        at,
    )
}

/// The stretch of the cached wave to show while transmitting.
pub fn playing_window(played: usize, total: usize, len: usize, window: usize) -> (stretch: (
    usize,
    usize,
))
    ensures
        (stretch.0 as int, stretch.1 as int) == window_at(
            played as nat,
            total as nat,
            len as nat,
            window as nat,
        ),
        stretch.0 <= stretch.1 <= len,
{
    let at: usize = playback_position(samples_played(played, total), total, len);
    let start: usize = if at > window {
        at - window
    } else {
        0
    };
    (start, at)
}

// ---------------------------------------------------------------------
// What the user is told
// ---------------------------------------------------------------------

/// How long so many samples are, in words. Without a rate no samples are not a
/// number of seconds, and any are infinitely many.
pub open spec fn length_text(samples: nat, rate: nat) -> Seq<char> {
    if rate == 0 {
        if samples == 0 {
            "NaNmNaNs"@
        } else {
            "infmNaNs"@
        }
    } else {
        let (m, shift) = seconds_in(samples, rate);
        duration_text(Single { mantissa: m as u128, shift: shift as u32 })
    }
}

/// Announces a prepared message.
pub fn ready_text(samples: usize, rate: u32) -> (text: String)
    ensures
        text@ == "Ready: "@ + length_text(samples as nat, rate as nat) + " of speech at "@
            + decimal(rate as nat) + " Hz"@,
{
    let length = if rate == 0 {
        if samples == 0 {
            copy_of("NaNmNaNs")
        } else {
            copy_of("infmNaNs")
        }
    } else {
        format_duration(seconds_of(samples, rate))
    };
    let front = together3("Ready: ", &length, " of speech at ");
    let number = decimal_text(rate as u128);
    together3(&front, &number, " Hz")
}

/// The heading of the countdown.
pub fn countdown_text(port_configured: bool, remaining: u64) -> (text: String)
    ensures
        text@ == (if port_configured {
            "🎙 PTT will key automatically -- starting in "@
        } else {
            "🎙 Press and hold PTT now -- starting in "@
        }) + decimal(seconds_up(remaining as nat)) + "s"@,
{
    let number = decimal_text(span_seconds_up(remaining));
    if port_configured {
        together3("🎙 PTT will key automatically -- starting in ", &number, "s")
    } else {
        together3("🎙 Press and hold PTT now -- starting in ", &number, "s")
    }
}

/// The warning about a port that did not key.
pub fn port_warning_text(warning: &str) -> (text: String)
    ensures
        text@ == "⚠ PTT port didn't respond, sending with manual PTT: "@ + warning@,
{
    together("⚠ PTT port didn't respond, sending with manual PTT: ", warning)
}

/// The report of a failure.
pub fn failed_text(error: &str) -> (text: String)
    ensures
        text@ == "Failed: "@ + error@,
{
    together("Failed: ", error)
}

/// How many characters a field holds out of how many it may.
pub fn counter_text(text: &str, most: usize) -> (counter: String)
    ensures
        counter@ == decimal(text@.len()) + "/"@ + decimal(most as nat) + " chars"@,
{
    let chars = crate::text::chars_of(text);
    let count = decimal_text(chars.len() as u128);
    let limit = decimal_text(most as u128);
    let front = together3(&count, "/", &limit);
    together(&front, " chars")
}

// ---------------------------------------------------------------------
// Laws
// ---------------------------------------------------------------------

/// A keyed port is let go neither before nor long after it should be: it is
/// held through the whole transmission and for the full delay behind it, and
/// no later phase still holds it.
pub proof fn a_port_is_held_until_the_delay_is_over<S, R, H, K>(
    tx: H,
    port: K,
    finished_at: u64,
    later: u64,
)
    requires
        finished_at + PTT_POST_DELAY_NS <= u64::MAX,
    ensures
        ({
            let sending = SendPhase::<S, R, H, K>::Transmitting { tx, ptt: Some(port) };
            let playing = after_audio(sending, false, finished_at);
            let releasing = after_audio(sending, true, finished_at);
            let after = after_hold(releasing, later);
            &&& held_port(playing) == Some(port)
            &&& held_port(releasing) == Some(port)
            &&& later < finished_at + PTT_POST_DELAY_NS ==> held_port(after) == Some(port)
            &&& later >= finished_at + PTT_POST_DELAY_NS ==> held_port(after) is None && after
                is Done
        }),
{
}

/// Without a port there is nothing to release: the transmission is done when
/// its audio is.
pub proof fn manual_ptt_is_not_held<S, R, H, K>(tx: H, now: u64)
    ensures
        after_audio(SendPhase::<S, R, H, K>::Transmitting { tx, ptt: None }, true, now) == SendPhase::<
            S,
            R,
            H,
            K,
        >::Done,
{
}

/// A message is transmitted only after the user has asked for it and the full
/// lead-in has passed.
pub proof fn the_lead_in_is_kept<S, R, H, K>(
    before: SendPhase<S, R, H, K>,
    transmit: bool,
    edit: bool,
    save_error: Option<String>,
    now: u64,
)
    requires
        now + PTT_LEAD_IN_NS <= u64::MAX,
        !(before is Countdown),
    ensures
        after_choice(before, transmit, edit, save_error, now) matches SendPhase::Countdown {
            deadline,
            ..
        } ==> transmit && before is Prepared && deadline == now + PTT_LEAD_IN_NS,
{
}

/// PTT is engaged only between the countdown and the release, and a phase in
/// which a new message can be prepared holds no port.
pub proof fn a_free_phase_holds_no_port<S, R, H, K>(phase: SendPhase<S, R, H, K>)
    ensures
        is_free(phase) ==> held_port(phase) is None && !is_engaged(phase),
        held_port(phase) is Some ==> is_engaged(phase),
{
}

/// Every phase is one of three: free for a new message, engaged with the radio,
/// or busy with a message that is not on the air yet.
pub proof fn every_phase_is_free_busy_or_engaged<S, R, H, K>(phase: SendPhase<S, R, H, K>)
    ensures
        phase is Idle || phase is Done || phase is Failed <==> is_free(phase),
        phase is Countdown || phase is Transmitting || phase is Releasing <==> is_engaged(phase),
        phase is Preparing || phase is Prepared <==> !is_free(phase) && !is_engaged(phase),
        phase matches SendPhase::Transmitting { ptt, .. } ==> held_port(phase) == ptt,
        phase matches SendPhase::Releasing { ptt, .. } ==> held_port(phase) == ptt,
        !(phase is Transmitting) && !(phase is Releasing) ==> held_port(phase) is None,
{
}

/// What a choice does to a prepared message. Sent, it is the same message that
/// counts down three seconds; edited, it is gone; where it could not be saved,
/// the error is shown; else it stays.
pub proof fn a_choice_is_done_as_asked<S, R, H, K>(
    prepared: PreparedTx<S>,
    edit: bool,
    save_error: Option<String>,
    error: String,
    now: u64,
)
    requires
        now + 3_000_000_000 <= u64::MAX,
    ensures
        ({
            let phase = SendPhase::<S, R, H, K>::Prepared { prepared };
            &&& after_choice(phase, true, edit, save_error, now) == (SendPhase::<
                S,
                R,
                H,
                K,
            >::Countdown { prepared, deadline: (now + 3_000_000_000) as u64 })
            &&& after_choice(phase, false, true, save_error, now) is Idle
            &&& after_choice(phase, false, false, Some(error), now) == SendPhase::<
                S,
                R,
                H,
                K,
            >::Failed(error)
            &&& after_choice(phase, false, false, None, now) == phase
        }),
{
}

/// Where nothing is prepared there is nothing to choose: no phase but that one
/// changes with a choice, none but a transmission with the end of the audio,
/// and none but a held port with the time.
pub proof fn other_phases_stay_as_they_are<S, R, H, K>(
    phase: SendPhase<S, R, H, K>,
    transmit: bool,
    edit: bool,
    save_error: Option<String>,
    finished: bool,
    now: u64,
)
    ensures
        !(phase is Prepared) ==> after_choice(phase, transmit, edit, save_error, now) == phase,
        !(phase is Transmitting) ==> after_audio(phase, finished, now) == phase,
        !finished ==> after_audio(phase, finished, now) == phase,
        !(phase is Releasing) ==> after_hold(phase, now) == phase,
{
}

/// A port is held for four tenths of a second after the audio, and let go then.
pub proof fn a_port_is_held_for_the_full_delay<S, R, H, K>(tx: H, port: K, now: u64, later: u64)
    requires
        now + 400_000_000 <= u64::MAX,
    ensures
        ({
            let sending = SendPhase::<S, R, H, K>::Transmitting { tx, ptt: Some(port) };
            let held = after_audio(sending, true, now);
            &&& held == (SendPhase::<S, R, H, K>::Releasing {
                until: (now + 400_000_000) as u64,
                ptt: Some(port),
            })
            &&& later < now + 400_000_000 ==> after_hold(held, later) == held
            &&& later >= now + 400_000_000 ==> after_hold(held, later) is Done
        }),
{
}

/// The waterfall shows the stretch that has just been played: it ends where
/// playback is, within one part in 2,097,152 and rounded down, and starts one
/// window before that, or with the wave.
pub proof fn the_waterfall_shows_what_was_just_played(
    played: nat,
    total: nat,
    len: nat,
    window: nat,
)
    requires
        total > 0,
    ensures
        ({
            let (start, end) = window_at(played, total, len, window);
            &&& 0 <= start <= end <= len
            &&& end - start == window || (start == 0 && end <= window)
            &&& 0x1F_FFFF * (end * total) <= 0x20_0000 * (played * len)
            &&& played >= total ==> 0x20_0000 * (end + 1) > 0x1F_FFFF * len
            &&& played < total ==> 0x20_0000 * ((end + 1) * total) > 0x1F_FFFF * (played * len)
        }),
{
    let at = if played < total {
        played
    } else {
        total
    };
    positions_are_in_proportion(at, total, len);
    let end = position_along(at, total, len);
    assert(at * len <= played * len) by (nonlinear_arith)
        requires
            at <= played,
    ;
    if played >= total {
        assert(0x20_0000 * (end + 1) > 0x1F_FFFF * len) by (nonlinear_arith)
            requires
                0x20_0000 * ((end + 1) * total) > 0x1F_FFFF * (total * len),
                total > 0,
        ;
    }
}

/// The countdown never says that less than a whole second is left: its number
/// is the time left, rounded up, within one part in 4,194,304.
pub proof fn the_countdown_rounds_up(remaining: nat)
    ensures
        0x40_0000 * (1_000_000_000 * seconds_up(remaining)) >= 0x3F_FFFF * remaining,
        remaining > 0 ==> 0x40_0000 * (1_000_000_000 * (seconds_up(remaining) - 1)) < 0x40_0001
            * remaining,
        remaining == 0 ==> seconds_up(remaining) == 0,
{
    seconds_up_is_close(remaining);
}

/// The copy that the waterfall draws from is the whole prepared wave, sample for
/// sample, at its rate.
pub proof fn the_copy_is_the_whole_wave<S>(
    cached: Option<(Vec<S>, u32)>,
    prepared: PreparedTx<S>,
)
    requires
        is_copy_of(cached, prepared),
    ensures
        cached matches Some((wave, rate)) && {
            &&& rate == prepared.sample_rate
            &&& wave@.len() == prepared.wave@.len()
            &&& forall|i: int|
                0 <= i < prepared.wave@.len() ==> wave@[i] == #[trigger] prepared.wave@[i]
        },
{
}

/// The length of a message is that of its samples at its rate, in single
/// precision, within one part in 4,194,304.
pub proof fn a_message_is_as_long_as_its_samples(samples: nat, rate: nat)
    requires
        0 < rate <= u32::MAX,
        samples <= usize::MAX,
    ensures
        ({
            let (m, shift) = seconds_in(samples, rate);
            &&& 0x3F_FFFF * (m * rate) <= 0x40_0000 * (samples * pow2(shift))
            &&& 0x40_0000 * (m * rate) >= 0x3F_FFFF * (samples * pow2(shift))
            &&& length_text(samples, rate) == duration_text(
                Single { mantissa: m as u128, shift: shift as u32 },
            )
        }),
{
    seconds_are_close(samples, rate);
}

} // verus!
