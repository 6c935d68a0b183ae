//! Simple energy-based activity detector for continuous-receive mode.
//! Calibrates itself to ambient noise, then watches for the energy rising
//! well above that floor (a transmission starting) and falling back to it for
//! a sustained period (the transmission ending).
//!
//! The hang time only has to be longer than the longest natural pause within
//! a spoken sentence: there is no block or frame structure to cover.
//!
//! Energies are levels: non-negative single-precision numbers, held as their
//! bit patterns. Ordering the bit patterns orders the numbers.

use vstd::arithmetic::power2::{lemma_pow2_adds, lemma_pow2_pos, pow2};
use vstd::prelude::*;
use vstd::relations::{sorted_by, total_ordering};
use vstd::seq_lib::{lemma_sorted_unique, to_multiset_insert};
use crate::single::{
    a_tenth_is_close, lasts, lasts_at_least, nearly_lasts, tenth, tenth_of,
    what_is_long_enough_lasts, what_lasts_nearly_does,
};

verus! {

/// How many energies the noise floor is taken from: a second of windows.
pub const CALIBRATION_WINDOWS: usize = 10;

pub const QUIET_HANG_SECONDS: u32 = 2;

/// A safety cap, so that a stuck-noisy channel cannot grow a segment forever.
pub const MAX_ACTIVE_SECONDS: u32 = 600;

/// The bit pattern of the smallest threshold, 0.003.
pub const THRESHOLD_FLOOR: u32 = 0x3B44_9BA6;

/// The bit pattern of infinity, the largest level.
pub const INFINITE_LEVEL: u32 = 0x7F80_0000;

/// How often to poll, in milliseconds.
pub const POLL_INTERVAL_MS: u64 = 100;

// ---------------------------------------------------------------------
// Levels
// ---------------------------------------------------------------------

/// Whether a bit pattern is that of a non-negative number.
pub open spec fn is_level(bits: u32) -> bool {
    bits <= INFINITE_LEVEL
}

/// A finite level, in units of the smallest positive one.
pub open spec fn level_value(bits: u32) -> nat {
    let exponent = bits as nat / 0x80_0000;
    let fraction = bits as nat % 0x80_0000;
    if exponent == 0 {
        fraction
    } else {
        (0x80_0000 + fraction) * pow2((exponent - 1) as nat)
    }
}

/// The level that the noise floor has to be exceeded by: four times the floor,
/// but no less than the smallest threshold. Adding two to the exponent
/// multiplies by four.
pub open spec fn threshold(noise_floor: u32) -> u32 {
    if noise_floor >= 0x7E80_0000 {
        INFINITE_LEVEL
    } else if noise_floor + 0x100_0000 >= THRESHOLD_FLOOR {
        (noise_floor + 0x100_0000) as u32
    } else {
        THRESHOLD_FLOOR
    }
}

/// Of two finite levels, the one with the larger bit pattern is the larger.
pub proof fn levels_are_ordered(a: u32, b: u32)
    requires
        a < b < INFINITE_LEVEL,
    ensures
        level_value(a) < level_value(b),
{
    let ea = a as nat / 0x80_0000;
    let eb = b as nat / 0x80_0000;
    let fa = a as nat % 0x80_0000;
    let fb = b as nat % 0x80_0000;
    if ea == eb {
        if ea > 0 {
            let p = pow2((ea - 1) as nat);
            lemma_pow2_pos((ea - 1) as nat);
            assert((0x80_0000 + fa) * p < (0x80_0000 + fb) * p) by (nonlinear_arith)
                requires
                    fa < fb,
                    p > 0,
            ;
        }
    } else if ea == 0 {
        let p = pow2((eb - 1) as nat);
        lemma_pow2_pos((eb - 1) as nat);
        assert(0x80_0000 + fb <= (0x80_0000 + fb) * p) by (nonlinear_arith)
            requires
                p >= 1,
        ;
    } else {
        let p = pow2((ea - 1) as nat);
        let more = pow2((eb - ea) as nat);
        lemma_pow2_adds((ea - 1) as nat, (eb - ea) as nat);
        lemma_pow2_pos((ea - 1) as nat);
        lemma_pow2_pos((eb - ea - 1) as nat);
        lemma_pow2_adds(1, (eb - ea - 1) as nat);
        vstd::arithmetic::power2::lemma2_to64();
        assert(more >= 2);
        assert((0x80_0000 + fa) * p < 0x100_0000 * p) by (nonlinear_arith)
            requires
                fa < 0x80_0000,
                p > 0,
        ;
        assert(0x100_0000 * p <= (0x80_0000 + fb) * (p * more)) by (nonlinear_arith)
            requires
                more >= 2,
                p > 0,
                fb >= 0,
        ;
    }
}

/// Short of overflow, the threshold is the larger of four times the noise
/// floor and the smallest threshold.
pub proof fn threshold_is_four_times_the_floor(noise_floor: u32)
    requires
        noise_floor < 0x7E80_0000,
    ensures
        level_value(threshold(noise_floor)) == (if 4 * level_value(noise_floor) >= level_value(
            THRESHOLD_FLOOR,
        ) {
            4 * level_value(noise_floor)
        } else {
            level_value(THRESHOLD_FLOOR)
        }),
        threshold(noise_floor) >= THRESHOLD_FLOOR,
{
    let e = noise_floor as nat / 0x80_0000;
    let f = noise_floor as nat % 0x80_0000;
    let t = (noise_floor + 0x100_0000) as u32;
    assert(t as nat / 0x80_0000 == e + 2);
    assert(t as nat % 0x80_0000 == f);
    if e == 0 {
        // A subnormal floor stays far below the smallest threshold.
        assert(t < 0x180_0000);
        assert(THRESHOLD_FLOOR as nat / 0x80_0000 == 118);
        vstd::arithmetic::power2::lemma2_to64_rest();
        vstd::arithmetic::power2::lemma2_to64();
        lemma_pow2_adds(64, 53);
        assert(pow2(117) >= pow2(64)) by {
            lemma_pow2_pos(53);
            assert(pow2(64) * pow2(53) >= pow2(64)) by (nonlinear_arith)
                requires
                    pow2(53) >= 1,
                    pow2(64) >= 0,
            ;
        }
        assert((0x80_0000 + THRESHOLD_FLOOR as nat % 0x80_0000) * pow2(117) >= pow2(117))
            by (nonlinear_arith);
        assert(4 * level_value(noise_floor) < level_value(THRESHOLD_FLOOR));
    } else {
        lemma_pow2_adds((e - 1) as nat, 2);
        vstd::arithmetic::power2::lemma2_to64();
        let p = pow2((e - 1) as nat);
        assert((0x80_0000 + f) * (p * 4) == 4 * ((0x80_0000 + f) * p)) by (nonlinear_arith);
        assert(level_value(t) == 4 * level_value(noise_floor));
        if t >= THRESHOLD_FLOOR {
            if t > THRESHOLD_FLOOR {
                levels_are_ordered(THRESHOLD_FLOOR, t);
            }
        } else {
            levels_are_ordered(t, THRESHOLD_FLOOR);
        }
    }
}

fn threshold_level(noise_floor: u32) -> (t: u32)
    ensures
        t == threshold(noise_floor),
{
    if noise_floor >= 0x7E80_0000 {
        INFINITE_LEVEL
    } else if noise_floor + 0x100_0000 >= THRESHOLD_FLOOR {
        noise_floor + 0x100_0000
    } else {
        THRESHOLD_FLOOR
    }
}

// ---------------------------------------------------------------------
// The noise floor
// ---------------------------------------------------------------------

pub open spec fn no_more(a: u32, b: u32) -> bool {
    a <= b
}

/// The energy in the middle of the row once it is sorted.
pub open spec fn median(energies: Seq<u32>) -> u32 {
    energies.sort_by(|a: u32, b: u32| no_more(a, b))[energies.len() as int / 2]
}

fn insert_in_order(row: &mut Vec<u32>, x: u32)
    requires
        sorted_by(old(row)@, |a: u32, b: u32| no_more(a, b)),
    ensures
        sorted_by(final(row)@, |a: u32, b: u32| no_more(a, b)),
        final(row)@.to_multiset() == old(row)@.to_multiset().insert(x),
        final(row)@.len() == old(row)@.len() + 1,
{
    let ghost leq = |a: u32, b: u32| no_more(a, b);
    let mut at: usize = 0;
    while at < row.len() && row[at] <= x
        invariant
            row@ == old(row)@,
            at <= row@.len(),
            forall|k: int| 0 <= k < at ==> row@[k] <= x,
        decreases row@.len() - at,
    {
        at = at + 1;
    }
    row.insert(at, x);
    proof {
        to_multiset_insert(old(row)@, at as int, x);
        let before = old(row)@;
        let after = row@;
        assert forall|i: int, j: int| 0 <= i < j < after.len() implies #[trigger] leq(
            after[i],
            after[j],
        ) by {
            let bi = if i < at {
                i
            } else {
                i - 1
            };
            let bj = if j < at {
                j
            } else {
                j - 1
            };
            if i != at && j != at {
                assert(leq(before[bi], before[bj]));
            } else if i == at {
                // What stands behind `x` is no less than the first that was more.
                if at < bj {
                    assert(leq(before[at as int], before[bj]));
                }
            }
        }
    }
}

fn middle_energy(energies: &Vec<u32>) -> (m: u32)
    requires
        energies@.len() > 0,
    ensures
        m == median(energies@),
{
    let ghost leq = |a: u32, b: u32| no_more(a, b);
    let mut row: Vec<u32> = Vec::new();
    assert(row@ == energies@.take(0));
    for i in 0..energies.len()
        invariant
            leq == (|a: u32, b: u32| no_more(a, b)),
            sorted_by(row@, leq),
            row@.len() == i,
            row@.to_multiset() == energies@.take(i as int).to_multiset(),
    {
        insert_in_order(&mut row, energies[i]);
        proof {
            vstd::seq_lib::to_multiset_build(energies@.take(i as int), energies@[i as int]);
            assert(energies@.take(i + 1) == energies@.take(i as int).push(energies@[i as int]));
        }
    }
    proof {
        assert(energies@.take(energies@.len() as int) == energies@);
        assert(total_ordering(leq));
        energies@.lemma_sort_by_ensures(leq);
        lemma_sorted_unique(row@, energies@.sort_by(leq), leq);
    }
    row[energies.len() / 2]
}

// ---------------------------------------------------------------------
// The tracker
// ---------------------------------------------------------------------

#[derive(Debug)]
pub enum VadState {
    Calibrating { energies: Vec<u32> },
    Waiting,
    Active { start_idx: usize, quiet_since_idx: Option<usize> },
}

/// A tracker's state with the energies as a sequence.
pub enum VadPhase {
    Calibrating { energies: Seq<u32> },
    Waiting,
    Active { start_idx: usize, quiet_since_idx: Option<usize> },
}

impl View for VadState {
    type V = VadPhase;

    open spec fn view(&self) -> VadPhase {
        match *self {
            VadState::Calibrating { energies } => VadPhase::Calibrating { energies: energies@ },
            VadState::Waiting => VadPhase::Waiting,
            VadState::Active { start_idx, quiet_since_idx } => VadPhase::Active {
                start_idx,
                quiet_since_idx,
            },
        }
    }
}

#[derive(Clone, Copy, Debug, PartialEq, Eq, Structural)]
pub enum VadEvent {
    Nothing,
    SegmentReady { start_idx: usize, end_idx: usize },
}

pub struct VadTracker {
    pub device_rate: u32,
    pub noise_floor: u32,
    pub state: VadState,
}

/// How many samples the energy is measured over: a tenth of a second, at
/// least one.
pub open spec fn window_at(device_rate: u32) -> nat {
    if tenth_of(device_rate as nat) >= 1 {
        tenth_of(device_rate as nat)
    } else {
        1
    }
}

/// How far `b` is behind `a`, zero if it is ahead.
pub open spec fn behind(a: usize, b: int) -> nat {
    if a >= b {
        (a - b) as nat
    } else {
        0
    }
}

/// Whether an energy stands out from the noise. Something that is not a
/// number never does.
pub open spec fn is_loud(energy: u32, noise_floor: u32) -> bool {
    is_level(energy) && energy > threshold(noise_floor)
}

/// When the current quiet began.
pub open spec fn quiet_since(
    loud: bool,
    before: Option<usize>,
    total_len: usize,
) -> Option<usize> {
    if loud {
        None
    } else if before is None {
        Some(total_len)
    } else {
        before
    }
}

/// Whether an active segment is over: quiet long enough, or as long as a
/// segment may be.
pub open spec fn segment_over(
    device_rate: u32,
    start_idx: usize,
    quiet: Option<usize>,
    total_len: usize,
) -> bool {
    ||| (quiet matches Some(q) && lasts(
        behind(total_len, q as int),
        device_rate as nat,
        QUIET_HANG_SECONDS as nat,
    ))
    ||| lasts(behind(total_len, start_idx as int), device_rate as nat, MAX_ACTIVE_SECONDS as nat)
}

/// What one poll does: the next noise floor, the next state and the event.
pub open spec fn vad_step(
    device_rate: u32,
    noise_floor: u32,
    state: VadPhase,
    energy: u32,
    total_len: usize,
) -> (u32, VadPhase, VadEvent) {
    let loud = is_loud(energy, noise_floor);
    match state {
        VadPhase::Calibrating { energies } => {
            let row = energies.push(energy);
            if row.len() >= CALIBRATION_WINDOWS {
                (median(row), VadPhase::Waiting, VadEvent::Nothing)
            } else {
                (noise_floor, VadPhase::Calibrating { energies: row }, VadEvent::Nothing)
            }
        },
        VadPhase::Waiting => {
            if loud {
                (
                    noise_floor,
                    VadPhase::Active {
                        start_idx: behind(total_len, window_at(device_rate) as int) as usize,
                        quiet_since_idx: None,
                    },
                    VadEvent::Nothing,
                )
            } else {
                (noise_floor, VadPhase::Waiting, VadEvent::Nothing)
            }
        },
        VadPhase::Active { start_idx, quiet_since_idx } => {
            let quiet = quiet_since(loud, quiet_since_idx, total_len);
            if segment_over(device_rate, start_idx, quiet, total_len) {
                (
                    noise_floor,
                    VadPhase::Waiting,
                    VadEvent::SegmentReady {
                        start_idx,
                        end_idx: match quiet {
                            Some(q) => q,
                            None => total_len,
                        },
                    },
                )
            } else {
                (
                    noise_floor,
                    VadPhase::Active { start_idx, quiet_since_idx: quiet },
                    VadEvent::Nothing,
                )
            }
        },
    }
}

/// Whether a poll with this energy can be answered: the noise floor is taken
/// from levels only.
pub open spec fn vad_accepts(state: VadPhase, energy: u32) -> bool {
    state matches VadPhase::Calibrating { energies } ==> {
        energies.len() + 1 >= CALIBRATION_WINDOWS ==> {
            &&& is_level(energy)
            &&& forall|i: int| 0 <= i < energies.len() ==> is_level(#[trigger] energies[i])
        }
    }
}

impl VadTracker {
    pub fn new(device_rate: u32) -> (tracker: Self)
        ensures
            tracker.device_rate == device_rate,
            tracker.noise_floor == 0,
            tracker.state@ == (VadPhase::Calibrating { energies: Seq::empty() }),
    {
        let tracker = VadTracker {
            device_rate,
            noise_floor: 0,
            state: VadState::Calibrating { energies: Vec::new() },
        };
        assert(tracker.state@->Calibrating_energies == Seq::<u32>::empty());
        tracker
    }

    /// How often to call `poll`, in milliseconds.
    pub fn poll_interval() -> (ms: u64)
        ensures
            ms == 100,
    {
        POLL_INTERVAL_MS
    }

    pub fn status_label(&self) -> (label: &'static str)
        ensures
            label@ == (match self.state {
                VadState::Calibrating { .. } => "Calibrating to ambient noise..."@,
                VadState::Waiting => "Listening for a transmission..."@,
                VadState::Active { .. } => "Signal detected -- receiving..."@,
            }),
    {
        match self.state {
            VadState::Calibrating { .. } => "Calibrating to ambient noise...",
            VadState::Waiting => "Listening for a transmission...",
            VadState::Active { .. } => "Signal detected -- receiving...",
        }
    }

    /// How many samples of the capture's tail to measure the energy over.
    pub fn window_len(&self) -> (n: usize)
        ensures
            n == window_at(self.device_rate),
    {
        let n: usize = tenth(self.device_rate);
        if n >= 1 {
            n
        } else {
            1
        }
    }

    /// Whether `poll` can be called with this energy.
    pub fn accepts(&self, energy: u32) -> (yes: bool)
        ensures
            yes == vad_accepts(self.state@, energy),
    {
        match &self.state {
            VadState::Calibrating { energies } => {
                if energies.len() >= CALIBRATION_WINDOWS - 1 {
                    if energy > INFINITE_LEVEL {
                        return false;
                    }
                    for i in 0..energies.len()
                        invariant
                            energies@ == self.state@->Calibrating_energies,
                            self.state@ is Calibrating,
                            energies@.len() + 1 >= CALIBRATION_WINDOWS,
                            forall|j: int| 0 <= j < i ==> is_level(#[trigger] energies@[j]),
                    {
                        if energies[i] > INFINITE_LEVEL {
                            assert(!is_level(energies@[i as int]));
                            return false;
                        }
                    }
                }
                true
            },
            _ => true,
        }
    }

    /// Takes in the energy of the capture's tail, or `None` while nothing has
    /// been captured. Call roughly every `poll_interval()`.
    pub fn poll(&mut self, energy: Option<u32>, total_len: usize) -> (event: VadEvent)
        requires
            energy matches Some(e) ==> vad_accepts(old(self).state@, e),
        ensures
            final(self).device_rate == old(self).device_rate,
            match energy {
                Some(e) => (final(self).noise_floor, final(self).state@, event) == vad_step(
                    old(self).device_rate,
                    old(self).noise_floor,
                    old(self).state@,
                    e,
                    total_len,
                ),
                None => *final(self) == *old(self) && event == VadEvent::Nothing,
            },
    {
        let e: u32 = match energy {
            Some(e) => e,
            None => {
                return VadEvent::Nothing;
            },
        };
        let ghost before = self.state@;
        let loud = e <= INFINITE_LEVEL && e > threshold_level(self.noise_floor);
        let mut state = VadState::Waiting;
        core::mem::swap(&mut state, &mut self.state);
        match state {
            VadState::Calibrating { energies } => {
                let mut row = energies;
                row.push(e);
                if row.len() >= CALIBRATION_WINDOWS {
                    self.noise_floor = middle_energy(&row);
                    self.state = VadState::Waiting;
                } else {
                    self.state = VadState::Calibrating { energies: row };
                }
                VadEvent::Nothing
            },
            VadState::Waiting => {
                if loud {
                    let window_n: usize = self.window_len();
                    let start_idx: usize = if total_len >= window_n {
                        total_len - window_n
                    } else {
                        0
                    };
                    self.state = VadState::Active { start_idx, quiet_since_idx: None };
                }
                VadEvent::Nothing
            },
            VadState::Active { start_idx, quiet_since_idx } => {
                let quiet: Option<usize> = if loud {
                    None
                } else if quiet_since_idx.is_none() {
                    Some(total_len)
                } else {
                    quiet_since_idx
                };
                let quiet_long_enough = match quiet {
                    Some(q) => lasts_at_least(
                        saturating_gap(total_len, q),
                        self.device_rate,
                        QUIET_HANG_SECONDS,
                    ),
                    None => false,
                };
                let too_long = lasts_at_least(
                    saturating_gap(total_len, start_idx),
                    self.device_rate,
                    MAX_ACTIVE_SECONDS,
                );
                if quiet_long_enough || too_long {
                    self.state = VadState::Waiting;
                    let end_idx: usize = match quiet {
                        Some(q) => q,
                        None => total_len,
                    };
                    VadEvent::SegmentReady { start_idx, end_idx }
                } else {
                    self.state = VadState::Active { start_idx, quiet_since_idx: quiet };
                    VadEvent::Nothing
                }
            },
        }
    }
}

fn saturating_gap(a: usize, b: usize) -> (gap: usize)
    ensures
        gap == behind(a, b as int),
{
    if a >= b {
        a - b
    } else {
        0
    }
}

// ---------------------------------------------------------------------
// Laws
// ---------------------------------------------------------------------

/// Whether a state speaks only of samples that have been captured, and of
/// quiet only after the segment's start.
pub open spec fn within(state: VadPhase, captured: usize) -> bool {
    state matches VadPhase::Active { start_idx, quiet_since_idx } ==> {
        &&& start_idx <= captured
        &&& quiet_since_idx matches Some(q) ==> start_idx <= q <= captured
    }
}

/// While the capture only grows, every segment that is reported starts no
/// later than it ends and lies within what was captured.
pub proof fn segments_lie_within_the_capture(
    device_rate: u32,
    noise_floor: u32,
    state: VadPhase,
    energy: u32,
    captured: usize,
    total_len: usize,
)
    requires
        within(state, captured),
        captured <= total_len,
    ensures
        ({
            let (_, next, event) = vad_step(device_rate, noise_floor, state, energy, total_len);
            &&& within(next, total_len)
            &&& event matches VadEvent::SegmentReady { start_idx, end_idx } ==> start_idx
                <= end_idx <= total_len
        }),
{
}

/// Calibration happens once: after it, the noise floor stays and the tracker
/// never calibrates again. Segments come only from an active tracker, which
/// then waits for the next one.
pub proof fn calibration_happens_once(
    device_rate: u32,
    noise_floor: u32,
    state: VadPhase,
    energy: u32,
    total_len: usize,
)
    ensures
        ({
            let (floor, next, event) = vad_step(device_rate, noise_floor, state, energy, total_len);
            &&& !(state is Calibrating) ==> floor == noise_floor && !(next is Calibrating)
            &&& event is SegmentReady ==> state is Active && next is Waiting
        }),
{
}

/// A segment is handed out only after a long quiet or at a great length: two
/// seconds of quiet lie behind its end, or it has lasted ten minutes. Single
/// precision lets both fall short by no more than one part in 4,194,304 (at
/// 48 kHz, 28,799,999 samples already count as ten minutes). Below 8,388,608 Hz
/// the quiet falls short by no sample at all, and up to 27,962 Hz neither do the
/// ten minutes.
pub proof fn segments_end_in_quiet_or_at_their_longest(
    device_rate: u32,
    noise_floor: u32,
    state: VadPhase,
    energy: u32,
    captured: usize,
    total_len: usize,
)
    requires
        device_rate > 0,
        within(state, captured),
        captured <= total_len,
    ensures
        vad_step(device_rate, noise_floor, state, energy, total_len).2 matches VadEvent::SegmentReady {
            start_idx,
            end_idx,
        } ==> {
            ||| {
                &&& nearly_lasts(
                    total_len - end_idx,
                    device_rate as nat,
                    QUIET_HANG_SECONDS as nat,
                )
                &&& device_rate < 0x80_0000 ==> total_len - end_idx >= 2 * device_rate
            }
            ||| {
                &&& nearly_lasts(
                    total_len - start_idx,
                    device_rate as nat,
                    MAX_ACTIVE_SECONDS as nat,
                )
                &&& device_rate <= 27_962 ==> total_len - start_idx >= 600 * device_rate
            }
        },
{
    if let VadPhase::Active { start_idx, quiet_since_idx } = state {
        let quiet = quiet_since(is_loud(energy, noise_floor), quiet_since_idx, total_len);
        if let Some(q) = quiet {
            let silent = behind(total_len, q as int);
            if lasts(silent, device_rate as nat, QUIET_HANG_SECONDS as nat) {
                what_lasts_nearly_does(silent, device_rate as nat, QUIET_HANG_SECONDS as nat);
            }
        }
        let long = behind(total_len, start_idx as int);
        if lasts(long, device_rate as nat, MAX_ACTIVE_SECONDS as nat) {
            what_lasts_nearly_does(long, device_rate as nat, MAX_ACTIVE_SECONDS as nat);
        }
    }
}

/// Whether a level stands out: it is more than four times the noise floor and
/// more than 0.003. Infinity does where four times the floor is still finite.
pub open spec fn stands_out(energy: u32, noise_floor: u32) -> bool {
    ||| {
        &&& energy < 0x7F80_0000
        &&& level_value(energy) > 4 * level_value(noise_floor)
        &&& level_value(energy) > level_value(0x3B44_9BA6)
    }
    ||| energy == 0x7F80_0000 && noise_floor < 0x7E80_0000
}

proof fn four_times_a_large_floor(energy: u32, noise_floor: u32)
    requires
        energy < 0x7F80_0000,
        0x7E80_0000 <= noise_floor < 0x7F80_0000,
    ensures
        level_value(energy) < 4 * level_value(noise_floor),
{
    let most: u32 = 0x7F7F_FFFF;
    let least: u32 = 0x7E80_0000;
    if energy < most {
        levels_are_ordered(energy, most);
    }
    if least < noise_floor {
        levels_are_ordered(least, noise_floor);
    }
    assert(most as nat / 0x80_0000 == 254 && most as nat % 0x80_0000 == 0x7F_FFFF);
    assert(least as nat / 0x80_0000 == 253 && least as nat % 0x80_0000 == 0);
    let p = pow2(252);
    lemma_pow2_pos(252);
    lemma_pow2_adds(252, 1);
    vstd::arithmetic::power2::lemma2_to64();
    assert(level_value(most) == 0xFF_FFFF * pow2(253));
    assert(level_value(least) == 0x80_0000 * p);
    assert(0xFF_FFFF * (p * 2) < 4 * (0x80_0000 * p)) by (nonlinear_arith)
        requires
            p > 0,
    ;
}

/// A level counts as loud exactly where it stands out, and what is not a number
/// never does.
pub proof fn loud_is_what_stands_out(energy: u32, noise_floor: u32)
    requires
        noise_floor < 0x7F80_0000,
    ensures
        is_loud(energy, noise_floor) <==> stands_out(energy, noise_floor),
        energy > 0x7F80_0000 ==> !is_loud(energy, noise_floor),
{
    if energy < 0x7F80_0000 {
        if noise_floor >= 0x7E80_0000 {
            four_times_a_large_floor(energy, noise_floor);
        } else {
            let t = threshold(noise_floor);
            threshold_is_four_times_the_floor(noise_floor);
            if energy > t {
                levels_are_ordered(t, energy);
            } else if energy < t {
                levels_are_ordered(energy, t);
            }
        }
    }
}

/// What a poll does to an active tracker. A level that stands out ends the
/// quiet, any other starts it or lets it go on; a segment that is handed out
/// ends where the quiet began, or with the capture if there is none.
pub proof fn quiet_is_what_does_not_stand_out(
    device_rate: u32,
    noise_floor: u32,
    start_idx: usize,
    quiet_since_idx: Option<usize>,
    energy: u32,
    total_len: usize,
)
    requires
        noise_floor < 0x7F80_0000,
    ensures
        ({
            let (floor, next, event) = vad_step(
                device_rate,
                noise_floor,
                VadPhase::Active { start_idx, quiet_since_idx },
                energy,
                total_len,
            );
            let loud = stands_out(energy, noise_floor);
            &&& floor == noise_floor
            &&& event is SegmentReady ==> next is Waiting && event->start_idx == start_idx
            &&& event is Nothing ==> next is Active && next->start_idx == start_idx
            &&& loud && event is Nothing ==> next->quiet_since_idx is None
            &&& loud && event is SegmentReady ==> event->end_idx == total_len
            &&& !loud && event is Nothing ==> next->quiet_since_idx is Some
            &&& !loud && event is Nothing && quiet_since_idx is None
                ==> next->quiet_since_idx == Some(total_len)
            &&& !loud && event is Nothing && quiet_since_idx is Some ==> next->quiet_since_idx
                == quiet_since_idx
            &&& !loud && event is SegmentReady && quiet_since_idx is None ==> event->end_idx
                == total_len
            &&& !loud && event is SegmentReady && quiet_since_idx is Some ==> Some(event->end_idx)
                == quiet_since_idx
        }),
{
    loud_is_what_stands_out(energy, noise_floor);
}

/// Whether a number of samples is as long as so many seconds, and longer by one
/// part in 4,194,303 where single precision cannot tell.
pub open spec fn is_as_long_as(samples: int, rate: nat, seconds: nat) -> bool {
    ||| samples * 0x3F_FFFF >= seconds * rate * 0x40_0000
    ||| seconds * rate < 0x100_0000 && samples >= seconds * rate
}

/// An active tracker hands its segment out as soon as two seconds have passed
/// since the quiet began, or ten minutes since the start.
pub proof fn segments_are_handed_out_in_time(
    device_rate: u32,
    noise_floor: u32,
    start_idx: usize,
    quiet_since_idx: Option<usize>,
    energy: u32,
    total_len: usize,
)
    requires
        device_rate > 0,
        noise_floor < 0x7F80_0000,
        ({
            ||| {
                &&& !stands_out(energy, noise_floor)
                &&& quiet_since_idx matches Some(q) && is_as_long_as(
                    total_len - q,
                    device_rate as nat,
                    2,
                )
            }
            ||| is_as_long_as(total_len - start_idx, device_rate as nat, 600)
        }),
    ensures
        vad_step(
            device_rate,
            noise_floor,
            VadPhase::Active { start_idx, quiet_since_idx },
            energy,
            total_len,
        ).2 is SegmentReady,
{
    let rate = device_rate as nat;
    loud_is_what_stands_out(energy, noise_floor);
    if is_as_long_as(total_len - start_idx, rate, 600) {
        let n = (total_len - start_idx) as nat;
        what_is_long_enough_lasts(n, rate, 600);
    } else if let Some(q) = quiet_since_idx {
        let n = (total_len - q) as nat;
        what_is_long_enough_lasts(n, rate, 2);
    }
}

/// The first segment that a row of polls gives, each an energy and how much was
/// captured by then.
pub open spec fn first_segment(
    device_rate: u32,
    noise_floor: u32,
    state: VadPhase,
    polls: Seq<(u32, usize)>,
) -> Option<(usize, usize)>
    decreases polls.len(),
{
    if polls.len() == 0 {
        None
    } else {
        let (floor, next, event) = vad_step(
            device_rate,
            noise_floor,
            state,
            polls[0].0,
            polls[0].1,
        );
        match event {
            VadEvent::SegmentReady { start_idx, end_idx } => Some((start_idx, end_idx)),
            VadEvent::Nothing => first_segment(device_rate, floor, next, polls.drop_first()),
        }
    }
}

/// A run of polls none of which stands out, two seconds long, always gives the
/// segment: from its start to where the quiet began, which is where the run
/// began if it was loud before.
pub proof fn two_seconds_of_quiet_give_the_segment(
    device_rate: u32,
    noise_floor: u32,
    start_idx: usize,
    quiet_since_idx: Option<usize>,
    polls: Seq<(u32, usize)>,
)
    requires
        device_rate > 0,
        noise_floor < 0x7F80_0000,
        polls.len() > 0,
        forall|i: int|
            0 <= i < polls.len() ==> !stands_out((#[trigger] polls[i]).0, noise_floor),
        is_as_long_as(
            polls.last().1 - (match quiet_since_idx {
                Some(q) => q,
                None => polls[0].1,
            }),
            device_rate as nat,
            2,
        ),
    ensures
        first_segment(
            device_rate,
            noise_floor,
            VadPhase::Active { start_idx, quiet_since_idx },
            polls,
        ) == Some(
            (
                start_idx,
                match quiet_since_idx {
                    Some(q) => q,
                    None => polls[0].1,
                },
            ),
        ),
    decreases polls.len(),
{
    let (energy, total_len) = polls[0];
    let q = match quiet_since_idx {
        Some(q) => q,
        None => total_len,
    };
    let state = VadPhase::Active { start_idx, quiet_since_idx };
    quiet_is_what_does_not_stand_out(
        device_rate,
        noise_floor,
        start_idx,
        quiet_since_idx,
        energy,
        total_len,
    );
    let (floor, next, event) = vad_step(device_rate, noise_floor, state, energy, total_len);
    if event is Nothing {
        let rest = polls.drop_first();
        if rest.len() == 0 {
            if quiet_since_idx is None {
                assert(polls.last().1 - q == 0);
                assert(false);
            }
            segments_are_handed_out_in_time(
                device_rate,
                noise_floor,
                start_idx,
                quiet_since_idx,
                energy,
                total_len,
            );
        } else {
            assert(rest.last() == polls.last());
            assert forall|i: int| 0 <= i < rest.len() implies !stands_out(
                (#[trigger] rest[i]).0,
                noise_floor,
            ) by {
                assert(rest[i] == polls[i + 1]);
            }
            two_seconds_of_quiet_give_the_segment(
                device_rate,
                noise_floor,
                start_idx,
                Some(q),
                rest,
            );
        }
    }
}

/// A waiting tracker turns active exactly with a level that stands out, and the
/// segment then starts one window before the end of the capture, or with it.
pub proof fn what_stands_out_starts_a_segment(
    device_rate: u32,
    noise_floor: u32,
    energy: u32,
    total_len: usize,
)
    requires
        noise_floor < 0x7F80_0000,
    ensures
        ({
            let (floor, next, event) = vad_step(
                device_rate,
                noise_floor,
                VadPhase::Waiting,
                energy,
                total_len,
            );
            let window = window_at(device_rate);
            &&& floor == noise_floor
            &&& event is Nothing
            &&& next is Active <==> stands_out(energy, noise_floor)
            &&& next is Active || next is Waiting
            &&& next is Active ==> next->quiet_since_idx is None
            &&& next is Active && total_len >= window ==> next->start_idx == total_len - window
            &&& next is Active && total_len < window ==> next->start_idx == 0
        }),
{
    loud_is_what_stands_out(energy, noise_floor);
}

/// A window is a tenth of a second, rounded down, and never empty.
pub proof fn a_window_is_a_tenth_of_a_second(device_rate: u32)
    ensures
        window_at(device_rate) >= 1,
        device_rate >= 20 ==> 0x40_0000 * (10 * window_at(device_rate)) <= 0x40_0001 * device_rate,
        0x40_0000 * (10 * window_at(device_rate) + 10) > 0x3F_FFFF * device_rate,
{
    a_tenth_is_close(device_rate as nat);
}

/// Calibration takes ten energies in. The noise floor is then the one that
/// stands sixth once they are put in order, in whatever order they came.
pub proof fn the_noise_floor_is_the_middle_energy(
    device_rate: u32,
    noise_floor: u32,
    energies: Seq<u32>,
    energy: u32,
    total_len: usize,
    ordered: Seq<u32>,
)
    requires
        energies.len() < 10,
        ordered.to_multiset() == energies.push(energy).to_multiset(),
        forall|i: int, j: int|
            0 <= i < j < ordered.len() ==> #[trigger] ordered[i] <= #[trigger] ordered[j],
    ensures
        ({
            let (floor, next, event) = vad_step(
                device_rate,
                noise_floor,
                VadPhase::Calibrating { energies },
                energy,
                total_len,
            );
            &&& event is Nothing
            &&& energies.len() < 9 ==> next == (VadPhase::Calibrating {
                energies: energies.push(energy),
            }) && floor == noise_floor
            &&& energies.len() == 9 ==> next is Waiting && floor == ordered[5]
        }),
{
    let leq = |a: u32, b: u32| no_more(a, b);
    let row = energies.push(energy);
    assert(total_ordering(leq));
    row.lemma_sort_by_ensures(leq);
    assert(sorted_by(ordered, leq));
    lemma_sorted_unique(ordered, row.sort_by(leq), leq);
    assert(ordered.len() == row.len()) by {
        vstd::seq_lib::to_multiset_len(ordered);
        vstd::seq_lib::to_multiset_len(row);
    }
}

/// Any energy is taken in, but for the last one of the calibration: the noise
/// floor can be found only where that one and those before it are levels.
pub proof fn calibration_ends_with_levels(
    energies: Seq<u32>,
    start_idx: usize,
    quiet_since_idx: Option<usize>,
    energy: u32,
)
    requires
        energies.len() < 10,
    ensures
        vad_accepts(VadPhase::Waiting, energy),
        vad_accepts((VadPhase::Active { start_idx, quiet_since_idx }), energy),
        energies.len() < 9 ==> vad_accepts((VadPhase::Calibrating { energies }), energy),
        energies.len() == 9 ==> (vad_accepts((VadPhase::Calibrating { energies }), energy)
            <==> energy <= 0x7F80_0000 && forall|i: int|
            0 <= i < 9 ==> #[trigger] energies[i] <= 0x7F80_0000),
{
    let state = VadPhase::Calibrating { energies };
    if energies.len() == 9 {
        if vad_accepts(state, energy) {
            assert forall|i: int| 0 <= i < 9 implies #[trigger] energies[i] <= 0x7F80_0000 by {
                assert(is_level(state->energies[i]));
            }
        }
        if energy <= 0x7F80_0000 && forall|i: int|
            0 <= i < 9 ==> #[trigger] energies[i] <= 0x7F80_0000 {
            assert forall|i: int| 0 <= i < state->energies.len() implies is_level(
                #[trigger] state->energies[i],
            ) by {
                assert(energies[i] <= 0x7F80_0000);
            }
            assert(vad_accepts(state, energy));
        }
    }
}

/// What a tracker holds is what its state says.
pub proof fn a_state_says_what_it_holds(
    energies: Vec<u32>,
    start_idx: usize,
    quiet_since_idx: Option<usize>,
)
    ensures
        (VadState::Calibrating { energies })@ == (VadPhase::Calibrating { energies: energies@ }),
        VadState::Waiting@ == VadPhase::Waiting,
        (VadState::Active { start_idx, quiet_since_idx })@ == (VadPhase::Active {
            start_idx,
            quiet_since_idx,
        }),
{
}

} // verus!
