//! The shared listening session: one continuously running receive path, used
//! whichever mode is on screen. There is only one input device, so there is
//! only one session; what it decodes is handed back to be routed into the list
//! of the mode that it belongs to.
//!
//! Times are nanoseconds on one monotonic clock. `X` is a running reception,
//! `D` what a decode running in the background is received through, `S` a
//! sample.

use vstd::prelude::*;
use crate::error::{error_text, AudioIoError};
use crate::pipeline::ReceivedPayload;
use crate::single::{
    one_decimal, one_decimal_text, power_of_two, span_in_seconds, span_seconds, spans_are_close,
};
use crate::text::{decimal, decimal_text, said, together, together3};
use crate::vad::{
    vad_accepts, vad_step, VadEvent, VadPhase, VadTracker, POLL_INTERVAL_MS,
};
use vstd::arithmetic::power2::pow2;

verus! {

/// The rate that everything is decoded at.
pub const DECODE_RATE: u32 = 48_000;

/// How many samples the level meter looks back on.
pub const LEVEL_SAMPLES: usize = 4800;

pub enum ReceivePhase<X> {
    Idle,
    Listening { rx: X, started: u64, vad: VadTracker, last_poll: u64 },
}

pub struct ListenState<X, D, S> {
    pub phase: ReceivePhase<X>,
    /// The decodes that are under way.
    pub pending: Vec<D>,
    pub error: Option<String>,
    /// What was decoded last, for saving.
    pub last_raw_capture: Option<Vec<S>>,
}

/// What looking at a decode in the background came to.
pub enum Polled {
    /// It has come to an end.
    Finished(Result<ReceivedPayload, String>),
    /// It is still running.
    Running,
    /// It is gone without a result.
    Gone,
}

/// The decodes that are still running.
pub open spec fn still_running<D>(pending: Seq<D>, polled: Seq<Polled>) -> Seq<D>
    decreases pending.len(),
{
    if pending.len() == 0 {
        Seq::empty()
    } else {
        let rest = still_running(pending.drop_last(), polled.drop_last());
        if polled.last() is Running {
            rest.push(pending.last())
        } else {
            rest
        }
    }
}

/// The messages that were decoded, in order.
pub open spec fn decoded(polled: Seq<Polled>) -> Seq<ReceivedPayload>
    decreases polled.len(),
{
    if polled.len() == 0 {
        Seq::empty()
    } else {
        match polled.last() {
            Polled::Finished(Ok(payload)) => decoded(polled.drop_last()).push(payload),
            _ => decoded(polled.drop_last()),
        }
    }
}

/// The error to show: that of the last decode that failed, or the one before.
pub open spec fn error_after(before: Option<String>, polled: Seq<Polled>) -> Option<String>
    decreases polled.len(),
{
    if polled.len() == 0 {
        before
    } else {
        match polled.last() {
            Polled::Finished(Err(e)) => Some(e),
            _ => error_after(before, polled.drop_last()),
        }
    }
}

/// Drains the decodes that have come to an end: failures surface as the error,
/// successes are returned to be routed.
pub fn drain_pending<X, D, S>(state: &mut ListenState<X, D, S>, polled: Vec<Polled>) -> (results:
    Vec<ReceivedPayload>)
    requires
        polled@.len() == old(state).pending@.len(),
    ensures
        results@ == decoded(polled@),
        final(state).pending@ == still_running(old(state).pending@, polled@),
        final(state).error == error_after(old(state).error, polled@),
        final(state).phase == old(state).phase,
        final(state).last_raw_capture == old(state).last_raw_capture,
{
    let ghost all = polled@;
    let ghost before = state.pending@;
    let ghost error = state.error;
    let mut polled = polled;
    let mut pending: Vec<D> = Vec::new();
    core::mem::swap(&mut pending, &mut state.pending);
    let mut results: Vec<ReceivedPayload> = Vec::new();
    let ghost mut seen: int = 0;
    assert(all.skip(0) == all);
    assert(before.skip(0) == before);
    while pending.len() > 0
        invariant
            0 <= seen <= all.len(),
            all.len() == before.len(),
            polled@ == all.skip(seen),
            pending@ == before.skip(seen),
            results@ == decoded(all.take(seen)),
            state.pending@ == still_running(before.take(seen), all.take(seen)),
            state.error == error_after(error, all.take(seen)),
            state.phase == old(state).phase,
            state.last_raw_capture == old(state).last_raw_capture,
        decreases pending@.len(),
    {
        let decode = pending.remove(0);
        let outcome = polled.remove(0);
        assert(all.take(seen + 1).drop_last() == all.take(seen));
        assert(before.take(seen + 1).drop_last() == before.take(seen));
        assert(outcome == all[seen]);
        assert(decode == before[seen]);
        match outcome {
            Polled::Finished(Ok(payload)) => {
                results.push(payload);
            },
            Polled::Finished(Err(e)) => {
                state.error = Some(e);
            },
            Polled::Running => {
                state.pending.push(decode);
            },
            Polled::Gone => {},
        }
        proof {
            seen = seen + 1;
        }
        assert(polled@ == all.skip(seen));
        assert(pending@ == before.skip(seen));
    }
    assert(all.take(seen) == all);
    assert(before.take(seen) == before);
    results
}

/// What polling the detector comes to: its next state, and the segment to
/// decode, if one is ready and not empty.
pub open spec fn segment_from(event: VadEvent) -> Option<(usize, usize)> {
    match event {
        VadEvent::SegmentReady { start_idx, end_idx } => if end_idx > start_idx {
            Some((start_idx, end_idx))
        } else {
            None
        },
        VadEvent::Nothing => None,
    }
}

impl<X, D, S> ListenState<X, D, S> {
    pub fn new() -> (state: Self)
        ensures
            state.phase is Idle,
            state.pending@ == Seq::<D>::empty(),
            state.error is None,
            state.last_raw_capture is None,
    {
        ListenState {
            phase: ReceivePhase::Idle,
            pending: Vec::new(),
            error: None,
            last_raw_capture: None,
        }
    }

    /// A reception has been started, at the rate that goes with it, or could
    /// not be.
    pub fn start(&mut self, started: Result<(X, u32), AudioIoError>, now: u64)
        ensures
            match started {
                Ok((rx, device_rate)) => {
                    &&& final(self).error is None
                    &&& final(self).phase matches ReceivePhase::Listening {
                        rx: r,
                        started: s,
                        vad,
                        last_poll,
                    } && {
                        &&& r == rx
                        &&& s == now
                        &&& last_poll == now
                        &&& vad.device_rate == device_rate
                        &&& vad.noise_floor == 0
                        &&& vad.state@ == (VadPhase::Calibrating { energies: Seq::empty() })
                    }
                },
                Err(e) => {
                    &&& said(final(self).error) == Some(error_text(e))
                    &&& final(self).phase == old(self).phase
                },
            },
            final(self).pending == old(self).pending,
            final(self).last_raw_capture == old(self).last_raw_capture,
    {
        match started {
            Ok((rx, device_rate)) => {
                let vad = VadTracker::new(device_rate);
                self.phase = ReceivePhase::Listening { rx, started: now, vad, last_poll: now };
                self.error = None;
            },
            Err(e) => {
                self.error = Some(e.message());
            },
        }
    }

    /// A decode of these samples has been started.
    pub fn decode_started(&mut self, samples: Vec<S>, decode: D)
        ensures
            final(self).last_raw_capture == Some(samples),
            final(self).pending@ == old(self).pending@.push(decode),
            final(self).phase == old(self).phase,
            final(self).error == old(self).error,
    {
        self.last_raw_capture = Some(samples);
        self.pending.push(decode);
    }

    /// Something went wrong that the user should see.
    pub fn fail(&mut self, error: String)
        ensures
            final(self).error == Some(error),
            final(self).phase == old(self).phase,
            final(self).pending == old(self).pending,
            final(self).last_raw_capture == old(self).last_raw_capture,
    {
        self.error = Some(error);
    }

    /// Whether it is time to poll the detector.
    pub fn poll_due(&self, now: u64) -> (due: bool)
        ensures
            due == (self.phase matches ReceivePhase::Listening { last_poll, .. } && now - last_poll
                >= 100_000_000),
    {
        match self.phase {
            ReceivePhase::Listening { last_poll, .. } => now >= last_poll && now - last_poll
                >= POLL_INTERVAL_MS * 1_000_000,
            ReceivePhase::Idle => false,
        }
    }

    /// How many samples of the capture's tail the energy is measured over.
    pub fn energy_window(&self) -> (n: Option<usize>)
        ensures
            n == (match self.phase {
                ReceivePhase::Listening { vad, .. } => Some(
                    crate::vad::window_at(vad.device_rate) as usize,
                ),
                ReceivePhase::Idle => None,
            }),
    {
        match &self.phase {
            ReceivePhase::Listening { vad, .. } => Some(vad.window_len()),
            ReceivePhase::Idle => None,
        }
    }

    /// Whether `poll` can be called with this energy.
    pub fn accepts(&self, energy: u32) -> (yes: bool)
        ensures
            yes == (self.phase matches ReceivePhase::Listening { vad, .. } ==> vad_accepts(
                vad.state@,
                energy,
            )),
    {
        match &self.phase {
            ReceivePhase::Listening { vad, .. } => vad.accepts(energy),
            ReceivePhase::Idle => true,
        }
    }

    /// Polls the detector with the energy of the capture's tail, and says which
    /// stretch of the capture to decode, if one is complete.
    pub fn poll(&mut self, energy: Option<u32>, total_len: usize, now: u64) -> (segment: Option<
        (usize, usize),
    >)
        requires
            energy matches Some(e) ==> (old(self).phase matches ReceivePhase::Listening { vad, .. }
                ==> vad_accepts(vad.state@, e)),
        ensures
            match old(self).phase {
                ReceivePhase::Listening { rx, started, vad, .. } => {
                    &&& final(self).phase matches ReceivePhase::Listening {
                        rx: rx2,
                        started: started2,
                        vad: vad2,
                        last_poll,
                    } && {
                        &&& rx2 == rx
                        &&& started2 == started
                        &&& last_poll == now
                        &&& vad2.device_rate == vad.device_rate
                        &&& match energy {
                            Some(e) => {
                                let (floor, next, event) = vad_step(
                                    vad.device_rate,
                                    vad.noise_floor,
                                    vad.state@,
                                    e,
                                    total_len,
                                );
                                &&& vad2.noise_floor == floor
                                &&& vad2.state@ == next
                                &&& segment == segment_from(event)
                            },
                            None => vad2 == vad && segment is None,
                        }
                    }
                },
                ReceivePhase::Idle => final(self).phase is Idle && segment is None,
            },
            final(self).pending == old(self).pending,
            final(self).error == old(self).error,
            final(self).last_raw_capture == old(self).last_raw_capture,
    {
        let mut phase: ReceivePhase<X> = ReceivePhase::Idle;
        core::mem::swap(&mut phase, &mut self.phase);
        match phase {
            ReceivePhase::Listening { rx, started, vad, .. } => {
                let mut vad = vad;
                let event = vad.poll(energy, total_len);
                self.phase = ReceivePhase::Listening { rx, started, vad, last_poll: now };
                match event {
                    VadEvent::SegmentReady { start_idx, end_idx } => if end_idx > start_idx {
                        Some((start_idx, end_idx))
                    } else {
                        None
                    },
                    VadEvent::Nothing => None,
                }
            },
            ReceivePhase::Idle => None,
        }
    }

    /// Ends the session and hands back the reception to be stopped.
    pub fn stop(&mut self) -> (rx: Option<X>)
        ensures
            rx == (match old(self).phase {
                ReceivePhase::Listening { rx, .. } => Some(rx),
                ReceivePhase::Idle => None,
            }),
            final(self).phase is Idle,
            final(self).pending == old(self).pending,
            final(self).error == old(self).error,
            final(self).last_raw_capture == old(self).last_raw_capture,
    {
        let mut phase: ReceivePhase<X> = ReceivePhase::Idle;
        core::mem::swap(&mut phase, &mut self.phase);
        match phase {
            ReceivePhase::Listening { rx, .. } => Some(rx),
            ReceivePhase::Idle => None,
        }
    }

    /// The dot's label: what the detector is doing.
    pub fn status_label(&self) -> (label: &'static str)
        ensures
            label@ == (match self.phase {
                ReceivePhase::Idle => "Not listening."@,
                ReceivePhase::Listening { vad, .. } => match vad.state@ {
                    VadPhase::Calibrating { .. } => "Calibrating to ambient noise..."@,
                    VadPhase::Waiting => "Listening for a transmission..."@,
                    VadPhase::Active { .. } => "Signal detected -- receiving..."@,
                },
            }),
    {
        match &self.phase {
            ReceivePhase::Idle => "Not listening.",
            ReceivePhase::Listening { vad, .. } => vad.status_label(),
        }
    }

    /// How long the session has been running, in nanoseconds.
    pub fn elapsed(&self, now: u64) -> (ns: u64)
        ensures
            ns == (match self.phase {
                ReceivePhase::Listening { started, .. } => if now >= started {
                    (now - started) as u64
                } else {
                    0
                },
                ReceivePhase::Idle => 0,
            }),
    {
        match self.phase {
            ReceivePhase::Listening { started, .. } => if now >= started {
                now - started
            } else {
                0
            },
            ReceivePhase::Idle => 0,
        }
    }

    /// Whether any decode is under way.
    pub fn is_decoding(&self) -> (yes: bool)
        ensures
            yes == (self.pending@.len() > 0),
    {
        self.pending.len() > 0
    }
}

/// A span of nanoseconds in seconds, with one decimal.
pub open spec fn span_text(nanos: nat) -> Seq<char> {
    let (m, shift) = span_in_seconds(nanos);
    one_decimal(m, pow2(shift))
}

/// The progress of a session in words.
pub fn progress_text(elapsed: u64, captured: usize, pending: usize) -> (text: String)
    ensures
        text@ == "Elapsed: "@ + span_text(elapsed as nat) + "s -- "@ + decimal(captured as nat)
            + " samples captured -- "@ + decimal(pending as nat) + " pending decode(s)"@,
{
    let s = span_seconds(elapsed);
    let seconds = one_decimal_text(s.mantissa, power_of_two(s.shift));
    let front = together3("Elapsed: ", &seconds, "s -- ");
    let samples = decimal_text(captured as u128);
    let middle = together3(&front, &samples, " samples captured -- ");
    let decodes = decimal_text(pending as u128);
    together3(&middle, &decodes, " pending decode(s)")
}

/// The error for a capture that could not be saved.
pub fn save_error_text(error: &str) -> (text: String)
    ensures
        text@ == "couldn't save raw capture: "@ + error@,
{
    together("couldn't save raw capture: ", error)
}

// ---------------------------------------------------------------------
// Laws
// ---------------------------------------------------------------------

/// How many of the decodes failed or vanished.
pub open spec fn lost(polled: Seq<Polled>) -> nat
    decreases polled.len(),
{
    if polled.len() == 0 {
        0
    } else {
        lost(polled.drop_last()) + match polled.last() {
            Polled::Finished(Err(_)) => 1nat,
            Polled::Gone => 1,
            _ => 0,
        }
    }
}

/// Every decode is accounted for: it is returned, still pending, or lost.
pub proof fn no_decode_is_forgotten<D>(pending: Seq<D>, polled: Seq<Polled>)
    requires
        polled.len() == pending.len(),
    ensures
        decoded(polled).len() + still_running(pending, polled).len() + lost(polled)
            == pending.len(),
    decreases pending.len(),
{
    if pending.len() > 0 {
        no_decode_is_forgotten(pending.drop_last(), polled.drop_last());
    }
}

/// What is handed out for decoding is a stretch of the capture that is not
/// empty and has been captured, while the capture only grows.
pub proof fn handed_out_segments_are_captured(
    device_rate: u32,
    noise_floor: u32,
    state: VadPhase,
    energy: u32,
    captured: usize,
    total_len: usize,
)
    requires
        crate::vad::within(state, captured),
        captured <= total_len,
    ensures
        segment_from(vad_step(device_rate, noise_floor, state, energy, total_len).2) matches Some(
            (start, end),
        ) ==> start < end <= total_len,
{
    crate::vad::segments_lie_within_the_capture(
        device_rate,
        noise_floor,
        state,
        energy,
        captured,
        total_len,
    );
}

/// Every decode is taken for what it came to, in order: two rows of decodes,
/// one behind the other, come to what the one comes to and then what the other
/// does.
pub proof fn decodes_are_taken_one_by_one<D>(
    pending: Seq<D>,
    polled: Seq<Polled>,
    more: Seq<D>,
    more_polled: Seq<Polled>,
    error: Option<String>,
)
    requires
        polled.len() == pending.len(),
        more_polled.len() == more.len(),
    ensures
        decoded(polled + more_polled) == decoded(polled) + decoded(more_polled),
        still_running(pending + more, polled + more_polled) == still_running(pending, polled)
            + still_running(more, more_polled),
        error_after(error, polled + more_polled) == error_after(
            error_after(error, polled),
            more_polled,
        ),
    decreases more.len(),
{
    if more.len() == 0 {
        assert(polled + more_polled == polled);
        assert(pending + more == pending);
        assert(decoded(polled) + decoded(more_polled) == decoded(polled));
        assert(still_running(pending, polled) + still_running(more, more_polled) == still_running(
            pending,
            polled,
        ));
    } else {
        let (rest, rest_polled) = (more.drop_last(), more_polled.drop_last());
        decodes_are_taken_one_by_one(pending, polled, rest, rest_polled, error);
        assert((polled + more_polled).drop_last() == polled + rest_polled);
        assert((pending + more).drop_last() == pending + rest);
        assert((polled + more_polled).last() == more_polled.last());
        assert(decoded(polled + more_polled) == decoded(polled) + decoded(more_polled));
        assert(still_running(pending + more, polled + more_polled) == still_running(pending, polled)
            + still_running(more, more_polled));
    }
}

/// What a single decode comes to: a message is handed on, an error is shown,
/// one that runs stays, and one that is gone leaves nothing.
pub proof fn each_decode_comes_to_one_thing<D>(
    decode: D,
    error: Option<String>,
    payload: ReceivedPayload,
    failure: String,
)
    ensures
        ({
            let heard = seq![Polled::Finished(Ok::<ReceivedPayload, String>(payload))];
            &&& decoded(heard) == seq![payload]
            &&& still_running(seq![decode], heard) == Seq::<D>::empty()
            &&& error_after(error, heard) == error
        }),
        ({
            let failed = seq![Polled::Finished(Err::<ReceivedPayload, String>(failure))];
            &&& decoded(failed) == Seq::<ReceivedPayload>::empty()
            &&& still_running(seq![decode], failed) == Seq::<D>::empty()
            &&& error_after(error, failed) == Some(failure)
        }),
        ({
            let running = seq![Polled::Running];
            &&& decoded(running) == Seq::<ReceivedPayload>::empty()
            &&& still_running(seq![decode], running) == seq![decode]
            &&& error_after(error, running) == error
        }),
        ({
            let gone = seq![Polled::Gone];
            &&& decoded(gone) == Seq::<ReceivedPayload>::empty()
            &&& still_running(seq![decode], gone) == Seq::<D>::empty()
            &&& error_after(error, gone) == error
        }),
{
    reveal_with_fuel(decoded, 2);
    reveal_with_fuel(still_running, 2);
    reveal_with_fuel(error_after, 2);
    let heard = seq![Polled::Finished(Ok::<ReceivedPayload, String>(payload))];
    assert(decoded(heard) == seq![payload]);
    let running = seq![Polled::Running];
    assert(still_running(seq![decode], running) == seq![decode]);
    assert(heard.drop_last() == Seq::<Polled>::empty());
    assert(seq![Polled::Finished(Err::<ReceivedPayload, String>(failure))].drop_last() == Seq::<
        Polled,
    >::empty());
    assert(running.drop_last() == Seq::<Polled>::empty());
    assert(seq![Polled::Gone].drop_last() == Seq::<Polled>::empty());
}

/// Every segment that is ready is decoded as it is, unless it is empty, and
/// nothing else is.
pub proof fn segments_are_decoded_whole(start_idx: usize, end_idx: usize)
    ensures
        start_idx < end_idx ==> segment_from(VadEvent::SegmentReady { start_idx, end_idx }) == Some(
            (start_idx, end_idx),
        ),
        start_idx >= end_idx ==> segment_from(VadEvent::SegmentReady { start_idx, end_idx })
            is None,
        segment_from(VadEvent::Nothing) is None,
{
}

/// The time that a session has run is shown to the nearest tenth of a second of
/// what single precision makes of it, which is within one part in 4,194,304.
pub proof fn spans_are_shown_to_the_nearest_tenth(nanos: nat)
    ensures
        exists|m: nat, one: nat|
            one > 0 && span_text(nanos) == #[trigger] one_decimal(m, one) && 0x40_0000 * (
            1_000_000_000 * m) <= 0x40_0001 * (nanos * one) && 0x40_0000 * (1_000_000_000 * m)
                >= 0x3F_FFFF * (nanos * one),
{
    let (m, shift) = span_in_seconds(nanos);
    let one = pow2(shift);
    vstd::arithmetic::power2::lemma_pow2_pos(shift);
    spans_are_close(nanos);
    assert(span_text(nanos) == one_decimal(m, one));
}

} // verus!
