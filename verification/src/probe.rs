//! A scheme-agnostic diagnostic for a real channel: the layout of a known
//! signal (a wideband marker, silence, a stepped tone sweep across the voice
//! band and a closing marker), the search for it in a capture, and what of the
//! capture is measured where.
//!
//! The layout is fixed: the analyzer rebuilds the same signal as its
//! reference, so only the captured audio is ever needed.

use vstd::prelude::*;

verus! {

pub const SAMPLE_RATE: u32 = 48_000;

/// A quarter of a second.
pub const MARKER_SAMPLES: usize = 12_000;

/// Seven tenths of a second.
pub const SILENCE_SAMPLES: usize = 33_600;

/// Three tenths of a second.
pub const TONE_SAMPLES: usize = 14_400;

/// A tenth of a second.
pub const GAP_SAMPLES: usize = 4_800;

pub const MARKER_LOW_HZ: u32 = 300;

pub const MARKER_HIGH_HZ: u32 = 3_400;

pub const TONE_START_HZ: u32 = 300;

pub const TONE_END_HZ: u32 = 3_300;

pub const TONE_STEP_HZ: u32 = 200;

/// How many tones the sweep has.
pub const TONE_COUNT: usize = 16;

#[derive(Clone, Copy, Debug, PartialEq, Eq, Structural)]
pub enum SegmentKind {
    Marker,
    Silence,
    /// A tone of that many Hz.
    Tone(u32),
}

#[derive(Clone, Copy, Debug, PartialEq, Eq, Structural)]
pub struct Segment {
    pub kind: SegmentKind,
    pub start_sample: usize,
    pub len_samples: usize,
}

// ---------------------------------------------------------------------
// The signal
// ---------------------------------------------------------------------

/// Where tone `i` starts.
pub open spec fn tone_start(i: int) -> int {
    MARKER_SAMPLES + SILENCE_SAMPLES + i * (TONE_SAMPLES + GAP_SAMPLES)
}

/// Segment `k` of the signal.
pub open spec fn segment_at(k: int) -> Segment {
    if k == 0 {
        Segment { kind: SegmentKind::Marker, start_sample: 0, len_samples: MARKER_SAMPLES }
    } else if k == 1 {
        Segment {
            kind: SegmentKind::Silence,
            start_sample: MARKER_SAMPLES,
            len_samples: SILENCE_SAMPLES,
        }
    } else if k < 2 + TONE_COUNT {
        Segment {
            kind: SegmentKind::Tone((TONE_START_HZ + (k - 2) * TONE_STEP_HZ) as u32),
            start_sample: tone_start(k - 2) as usize,
            len_samples: TONE_SAMPLES,
        }
    } else {
        Segment {
            kind: SegmentKind::Marker,
            start_sample: tone_start(TONE_COUNT as int) as usize,
            len_samples: MARKER_SAMPLES,
        }
    }
}

/// The segments of the signal, in order.
pub open spec fn signal_segments() -> Seq<Segment> {
    Seq::new((TONE_COUNT + 3) as nat, |k: int| segment_at(k))
}

/// The samples of the sweep's first `n` tones, each with the gap behind it.
pub open spec fn sweep<S>(tones: Seq<Seq<S>>, silence: S, n: nat) -> Seq<S>
    decreases n,
{
    if n == 0 {
        Seq::empty()
    } else {
        sweep(tones, silence, (n - 1) as nat) + tones[n - 1] + Seq::new(
            GAP_SAMPLES as nat,
            |i: int| silence,
        )
    }
}

/// The samples of the signal.
pub open spec fn signal_samples<S>(marker: Seq<S>, tones: Seq<Seq<S>>, silence: S) -> Seq<S> {
    marker + Seq::new(SILENCE_SAMPLES as nat, |i: int| silence) + sweep(
        tones,
        silence,
        TONE_COUNT as nat,
    ) + marker
}

/// The samples of the tones.
pub open spec fn tone_values<S>(tones: Seq<Vec<S>>) -> Seq<Seq<S>> {
    tones.map_values(|t: Vec<S>| t@)
}

/// Whether the parts of a signal have the lengths that its layout gives them.
pub open spec fn parts_fit<S>(marker: Seq<S>, tones: Seq<Seq<S>>) -> bool {
    &&& marker.len() == MARKER_SAMPLES
    &&& tones.len() == TONE_COUNT
    &&& forall|i: int| 0 <= i < TONE_COUNT ==> (#[trigger] tones[i]).len() == TONE_SAMPLES
}

fn push_all<S: Copy>(wave: &mut Vec<S>, samples: &Vec<S>)
    ensures
        final(wave)@ == old(wave)@ + samples@,
{
    let ghost before = wave@;
    for i in 0..samples.len()
        invariant
            wave@ == before + samples@.take(i as int),
    {
        wave.push(samples[i]);
        assert(wave@ == before + samples@.take(i + 1));
    }
    assert(samples@.take(samples@.len() as int) == samples@);
}

fn push_silence<S: Copy>(wave: &mut Vec<S>, silence: S, n: usize)
    ensures
        final(wave)@ == old(wave)@ + Seq::new(n as nat, |i: int| silence),
{
    let ghost before = wave@;
    let ghost all = Seq::new(n as nat, |i: int| silence);
    for i in 0..n
        invariant
            all == Seq::new(n as nat, |i: int| silence),
            wave@ == before + all.take(i as int),
    {
        wave.push(silence);
        assert(wave@ == before + all.take(i + 1));
    }
    assert(all.take(n as int) == all);
}

/// The frequency of tone `i`.
pub fn tone_frequency(i: usize) -> (hz: u32)
    requires
        i < TONE_COUNT,
    ensures
        hz == TONE_START_HZ + i * TONE_STEP_HZ,
        TONE_START_HZ <= hz <= TONE_END_HZ,
{
    TONE_START_HZ + (i as u32) * TONE_STEP_HZ
}

/// Puts the signal together and says where each of its parts starts and how
/// long it is.
pub fn build_signal<S: Copy>(marker: &Vec<S>, tones: &Vec<Vec<S>>, silence: S) -> (signal: (
    Vec<S>,
    Vec<Segment>,
))
    requires
        parts_fit(marker@, tone_values(tones@)),
    ensures
        signal.0@ == signal_samples(marker@, tone_values(tones@), silence),
        signal.1@ == signal_segments(),
{
    let ghost values = tone_values(tones@);
    let mut wave: Vec<S> = Vec::new();
    let mut segments: Vec<Segment> = Vec::new();

    segments.push(
        Segment { kind: SegmentKind::Marker, start_sample: 0, len_samples: marker.len() },
    );
    push_all(&mut wave, marker);
    segments.push(
        Segment {
            kind: SegmentKind::Silence,
            start_sample: wave.len(),
            len_samples: SILENCE_SAMPLES,
        },
    );
    push_silence(&mut wave, silence, SILENCE_SAMPLES);
    let ghost head = marker@ + Seq::new(SILENCE_SAMPLES as nat, |i: int| silence);
    assert(wave@ == head);
    assert(segments@ == signal_segments().take(2));
    assert(head + sweep(values, silence, 0) == head);
    for i in 0..TONE_COUNT
        invariant
            values == tone_values(tones@),
            parts_fit(marker@, values),
            head.len() == MARKER_SAMPLES + SILENCE_SAMPLES,
            wave@ == head + sweep(values, silence, i as nat),
            wave@.len() == tone_start(i as int),
            segments@ == signal_segments().take(2 + i),
    {
        let ghost so_far = sweep(values, silence, i as nat);
        assert(values[i as int] == tones@[i as int]@);
        assert(values[i as int].len() == TONE_SAMPLES);
        segments.push(
            Segment {
                kind: SegmentKind::Tone(tone_frequency(i)),
                start_sample: wave.len(),
                len_samples: tones[i].len(),
            },
        );
        push_all(&mut wave, &tones[i]);
        push_silence(&mut wave, silence, GAP_SAMPLES);
        let ghost gap = Seq::new(GAP_SAMPLES as nat, |k: int| silence);
        assert(head + so_far + values[i as int] + gap == head + (so_far + values[i as int] + gap));
        assert(segments@ == signal_segments().take(3 + i));
    }
    segments.push(
        Segment {
            kind: SegmentKind::Marker,
            start_sample: wave.len(),
            len_samples: marker.len(),
        },
    );
    push_all(&mut wave, marker);
    assert(segments@ == signal_segments());
    (wave, segments)
}

// ---------------------------------------------------------------------
// Finding the marker. A score is the bit pattern of a single-precision
// number; its key orders scores as the numbers are ordered.
// ---------------------------------------------------------------------

/// How far apart the offsets of the coarse search are.
pub const COARSE_STRIDE: usize = 8;

/// The bit pattern of the lowest finite score.
pub const LOWEST_SCORE: u32 = 0xFF7F_FFFF;

/// The key of a score: larger for a larger number, the same for the two zeros,
/// and lowest for what is not a number.
pub open spec fn score_key(bits: u32) -> int {
    if bits <= 0x7F80_0000 {
        bits as int
    } else if 0x8000_0000 <= bits <= 0xFF80_0000 {
        0x8000_0000 - bits
    } else {
        -0x1_0000_0000
    }
}

fn key_of(bits: u32) -> (key: i64)
    ensures
        key == score_key(bits),
{
    if bits <= 0x7F80_0000 {
        bits as i64
    } else if bits >= 0x8000_0000 && bits <= 0xFF80_0000 {
        0x8000_0000 - bits as i64
    } else {
        -0x1_0000_0000
    }
}

/// An offset and its score.
#[derive(Clone, Copy, Debug, PartialEq, Eq, Structural)]
pub struct Found {
    pub offset: usize,
    pub score: u32,
}

/// The best of a row of scored offsets and of what was best before: a later one
/// only where its score is larger.
pub open spec fn best_among(before: Found, row: Seq<Found>) -> Found
    decreases row.len(),
{
    if row.len() == 0 {
        before
    } else {
        let best = best_among(before, row.drop_last());
        if score_key(row.last().score) > score_key(best.score) {
            row.last()
        } else {
            best
        }
    }
}

/// Picks the best of a row of scored offsets.
pub fn pick_best(before: Found, row: &Vec<Found>) -> (best: Found)
    ensures
        best == best_among(before, row@),
{
    let mut best: Found = before;
    assert(row@.take(0) == Seq::<Found>::empty());
    for i in 0..row.len()
        invariant
            best == best_among(before, row@.take(i as int)),
    {
        assert(row@.take(i + 1).drop_last() == row@.take(i as int));
        if key_of(row[i].score) > key_of(best.score) {
            best = row[i];
        }
    }
    assert(row@.take(row@.len() as int) == row@);
    best
}

/// Where the search for a template of `n` samples ends, if there is anything
/// to search.
pub open spec fn search_end(audio_len: nat, n: nat, start: nat, end: nat) -> Option<nat> {
    if audio_len < n {
        None
    } else {
        let last = if end < audio_len - n + 1 {
            end
        } else {
            (audio_len - n + 1) as nat
        };
        if last <= start {
            None
        } else {
            Some(last)
        }
    }
}

/// The offset that the search for a template of `n` samples stops before, if
/// there is anything to search.
pub fn search_limit(audio_len: usize, n: usize, start: usize, end: usize) -> (limit: Option<usize>)
    ensures
        match limit {
            Some(last) => search_end(audio_len as nat, n as nat, start as nat, end as nat) == Some(
                last as nat,
            ),
            None => search_end(audio_len as nat, n as nat, start as nat, end as nat) is None,
        },
{
    if audio_len < n {
        return None;
    }
    let last: usize = if end <= audio_len - n {
        end
    } else {
        audio_len - n + 1
    };
    if last <= start {
        None
    } else {
        Some(last)
    }
}

/// The offsets of the coarse search: every eighth from `start` on. Without any
/// the marker is taken to be at the start of the range, with a score of zero.
pub fn coarse_offsets(audio_len: usize, n: usize, start: usize, end: usize) -> (offsets: Option<
    Vec<usize>,
>)
    ensures
        match offsets {
            Some(row) => search_end(audio_len as nat, n as nat, start as nat, end as nat) matches Some(
                last,
            ) && {
                &&& row@.len() == (last - start + COARSE_STRIDE - 1) / COARSE_STRIDE as int
                &&& forall|i: int|
                    0 <= i < row@.len() ==> #[trigger] row@[i] == start + i * COARSE_STRIDE
            },
            None => search_end(audio_len as nat, n as nat, start as nat, end as nat) is None,
        },
{
    let last: usize = match search_limit(audio_len, n, start, end) {
        Some(last) => last,
        None => return None,
    };
    let mut row: Vec<usize> = Vec::new();
    let mut offset: usize = start;
    let mut done = false;
    while !done
        invariant
            start < last,
            !done ==> offset == start + row@.len() * COARSE_STRIDE && offset < last,
            done ==> row@.len() == (last - start + COARSE_STRIDE - 1) / COARSE_STRIDE as int,
            forall|i: int| 0 <= i < row@.len() ==> #[trigger] row@[i] == start + i * COARSE_STRIDE,
        decreases
                (if done {
                    0
                } else {
                    last - offset
                }),
    {
        row.push(offset);
        if last - offset > COARSE_STRIDE {
            offset = offset + COARSE_STRIDE;
        } else {
            done = true;
        }
    }
    Some(row)
}

/// Where the fine search around a coarse offset starts: no earlier than the
/// range.
pub open spec fn fine_start(start: int, best: int) -> int {
    if best - COARSE_STRIDE > start {
        best - COARSE_STRIDE
    } else {
        start
    }
}

/// Where the fine search around a coarse offset ends: no later than the range.
pub open spec fn fine_end(best: int, last: int) -> int {
    if best + COARSE_STRIDE + 1 < last {
        best + COARSE_STRIDE + 1
    } else {
        last
    }
}

/// The offsets of the fine search: all those of the range around the best
/// coarse one.
pub fn fine_offsets(start: usize, best: usize, last: usize) -> (row: Vec<usize>)
    requires
        start <= best < last,
    ensures
        row@.len() == fine_end(best as int, last as int) - fine_start(start as int, best as int),
        forall|i: int|
            0 <= i < row@.len() ==> #[trigger] row@[i] == fine_start(start as int, best as int) + i,
{
    let from: usize = if best - start > COARSE_STRIDE {
        best - COARSE_STRIDE
    } else {
        start
    };
    let to: usize = if last - best > COARSE_STRIDE + 1 {
        best + COARSE_STRIDE + 1
    } else {
        last
    };
    let mut row: Vec<usize> = Vec::new();
    for offset in from..to
        invariant
            from <= to,
            row@.len() == offset - from,
            forall|i: int| 0 <= i < row@.len() ==> #[trigger] row@[i] == from + i,
    {
        row.push(offset);
    }
    row
}

/// Nothing that was scored is better than the best, and the best is one of
/// those scored or the one from before.
pub proof fn the_best_is_not_beaten(before: Found, row: Seq<Found>)
    ensures
        score_key(best_among(before, row).score) >= score_key(before.score),
        forall|i: int|
            0 <= i < row.len() ==> score_key((#[trigger] row[i]).score) <= score_key(
                best_among(before, row).score,
            ),
        best_among(before, row) == before || row.contains(best_among(before, row)),
    decreases row.len(),
{
    if row.len() > 0 {
        let rest = row.drop_last();
        the_best_is_not_beaten(before, rest);
        let best = best_among(before, rest);
        assert forall|i: int| 0 <= i < row.len() implies score_key((#[trigger] row[i]).score)
            <= score_key(best_among(before, row).score) by {
            if i < rest.len() {
                assert(rest[i] == row[i]);
            }
        }
        if best_among(before, row) == row.last() {
            assert(row[row.len() - 1] == row.last());
        } else if best != before {
            let i = choose|i: int| 0 <= i < rest.len() && rest[i] == best;
            assert(row[i] == best);
        }
    }
}

/// What a search has found before it has looked anywhere.
pub open spec fn nothing_found(start: usize) -> Found {
    Found { offset: start, score: LOWEST_SCORE }
}

/// Whether a row is what the coarse search scores.
pub open spec fn is_coarse_row(start: int, last: int, row: Seq<Found>) -> bool {
    &&& row.len() == (last - start + COARSE_STRIDE - 1) / COARSE_STRIDE as int
    &&& forall|i: int|
        0 <= i < row.len() ==> (#[trigger] row[i]).offset == start + i * COARSE_STRIDE
}

/// Whether a row is what the fine search around a coarse offset scores.
pub open spec fn is_fine_row(start: int, best: int, last: int, row: Seq<Found>) -> bool {
    &&& row.len() == fine_end(best, last) - fine_start(start, best)
    &&& forall|i: int|
        0 <= i < row.len() ==> (#[trigger] row[i]).offset == fine_start(start, best) + i
}

/// Whether two rows are what the two passes over a range score.
pub open spec fn are_search_rows(
    start: usize,
    last: nat,
    coarse: Seq<Found>,
    fine: Seq<Found>,
) -> bool {
    &&& is_coarse_row(start as int, last as int, coarse)
    &&& is_fine_row(
        start as int,
        best_among(nothing_found(start), coarse).offset as int,
        last as int,
        fine,
    )
}

/// Whether no score of a row is better than what was found.
pub open spec fn unbeaten(found: Found, row: Seq<Found>) -> bool {
    forall|i: int|
        0 <= i < row.len() ==> score_key((#[trigger] row[i]).score) <= score_key(found.score)
}

/// What both passes of a search have found.
pub open spec fn found_in(start: usize, coarse: Seq<Found>, fine: Seq<Found>) -> Found {
    best_among(best_among(nothing_found(start), coarse), fine)
}

/// The best of both passes: of the coarse one, and of the fine one around its
/// best. It lies in the range, and no score of either pass beats it. Without
/// anything to search it is the start of the range, with a score of zero.
pub fn best_found(
    audio_len: usize,
    n: usize,
    start: usize,
    end: usize,
    coarse: &Vec<Found>,
    fine: &Vec<Found>,
) -> (found: Found)
    requires
        search_end(audio_len as nat, n as nat, start as nat, end as nat) matches Some(last)
            ==> are_search_rows(start, last, coarse@, fine@),
    ensures
        match search_end(audio_len as nat, n as nat, start as nat, end as nat) {
            Some(last) => {
                &&& found == found_in(start, coarse@, fine@)
                &&& start <= found.offset < last
                &&& unbeaten(found, coarse@)
                &&& unbeaten(found, fine@)
            },
            None => found == (Found { offset: start, score: 0 }),
        },
{
    match search_limit(audio_len, n, start, end) {
        Some(last) => {
            let nothing = Found { offset: start, score: LOWEST_SCORE };
            let rough = pick_best(nothing, coarse);
            let found = pick_best(rough, fine);
            proof {
                the_best_lies_in_the_range(start, last as nat, coarse@, fine@);
            }
            found
        },
        None => Found { offset: start, score: 0 },
    }
}

/// Whether each score of a row is what scoring its offset gave.
pub open spec fn scored_by<F: Fn(usize) -> u32>(score: F, row: Seq<Found>) -> bool {
    forall|i: int|
        0 <= i < row.len() ==> call_ensures(
            score,
            ((#[trigger] row[i]).offset,),
            row[i].score,
        )
}

/// Whether a search of a range, with a way to score an offset, can find this.
pub open spec fn search_finds<F: Fn(usize) -> u32>(
    score: F,
    start: usize,
    last: nat,
    found: Found,
) -> bool {
    exists|coarse: Seq<Found>, fine: Seq<Found>|
        #![trigger found_in(start, coarse, fine)]
        {
            &&& are_search_rows(start, last, coarse, fine)
            &&& scored_by(score, coarse)
            &&& scored_by(score, fine)
            &&& found == found_in(start, coarse, fine)
            &&& unbeaten(found, coarse)
            &&& unbeaten(found, fine)
        }
}

/// Whether looking for a template of `n` samples over a range can find this:
/// without anything to search, the start of the range with a score of zero.
pub open spec fn is_marker_found<F: Fn(usize) -> u32>(
    score: F,
    audio_len: nat,
    n: nat,
    start: usize,
    end: nat,
    found: Found,
) -> bool {
    match search_end(audio_len, n, start as nat, end) {
        Some(last) => search_finds(score, start, last, found) && start <= found.offset < last,
        None => found == (Found { offset: start, score: 0 }),
    }
}

fn scored_row<F: Fn(usize) -> u32>(score: &F, offsets: &Vec<usize>) -> (row: Vec<Found>)
    requires
        forall|i: int| 0 <= i < offsets@.len() ==> call_requires(*score, (#[trigger] offsets@[i],)),
    ensures
        row@.len() == offsets@.len(),
        forall|i: int| 0 <= i < row@.len() ==> (#[trigger] row@[i]).offset == offsets@[i],
        scored_by(*score, row@),
{
    let mut row: Vec<Found> = Vec::new();
    for i in 0..offsets.len()
        invariant
            forall|i: int|
                0 <= i < offsets@.len() ==> call_requires(*score, (#[trigger] offsets@[i],)),
            row@.len() == i,
            forall|j: int| 0 <= j < row@.len() ==> (#[trigger] row@[j]).offset == offsets@[j],
            scored_by(*score, row@),
    {
        let offset: usize = offsets[i];
        row.push(Found { offset, score: score(offset) });
    }
    row
}

/// Looks for a template of `n` samples in audio of `audio_len`, over the range
/// from `start` to `end`: first in strides, then offset by offset around the
/// best. `score` gives the bit pattern of an offset's score.
pub fn find_marker<F: Fn(usize) -> u32>(
    audio_len: usize,
    n: usize,
    start: usize,
    end: usize,
    score: &F,
) -> (found: Found)
    requires
        forall|offset: usize|
            start <= offset < end && offset + n <= audio_len ==> #[trigger] call_requires(
                *score,
                (offset,),
            ),
    ensures
        is_marker_found(*score, audio_len as nat, n as nat, start, end as nat, found),
{
    let last: usize = match search_limit(audio_len, n, start, end) {
        Some(last) => last,
        None => return Found { offset: start, score: 0 },
    };
    let offsets = match coarse_offsets(audio_len, n, start, end) {
        Some(offsets) => offsets,
        None => return Found { offset: start, score: 0 },
    };
    assert forall|i: int| 0 <= i < offsets@.len() implies start <= #[trigger] offsets@[i] < last by {
        coarse_offsets_end(start as int, last as int, i);
    }
    let coarse = scored_row(score, &offsets);
    let rough = pick_best(Found { offset: start, score: LOWEST_SCORE }, &coarse);
    proof {
        the_rough_best_lies_in_the_range(start, last as nat, coarse@);
    }
    let fine = scored_row(score, &fine_offsets(start, rough.offset, last));
    let found = best_found(audio_len, n, start, end, &coarse, &fine);
    assert(search_finds(*score, start, last as nat, found)) by {
        assert(found == found_in(start, coarse@, fine@));
    }
    found
}

proof fn coarse_offsets_end(start: int, last: int, i: int)
    requires
        start < last,
        0 <= i < (last - start + COARSE_STRIDE - 1) / COARSE_STRIDE as int,
    ensures
        start <= start + i * COARSE_STRIDE < last,
{
}

proof fn the_rough_best_lies_in_the_range(start: usize, last: nat, coarse: Seq<Found>)
    requires
        start < last,
        is_coarse_row(start as int, last as int, coarse),
    ensures
        start <= best_among(nothing_found(start), coarse).offset < last,
{
    let rough = best_among(nothing_found(start), coarse);
    the_best_is_not_beaten(nothing_found(start), coarse);
    if rough != nothing_found(start) {
        let i = choose|i: int| 0 <= i < coarse.len() && coarse[i] == rough;
        coarse_offsets_end(start as int, last as int, i);
    }
}

/// Wherever the scores lie, what a search finds lies in the range that it
/// searches, and no score of either pass beats it.
pub proof fn the_best_lies_in_the_range(
    start: usize,
    last: nat,
    coarse: Seq<Found>,
    fine: Seq<Found>,
)
    requires
        start < last,
        are_search_rows(start, last, coarse, fine),
    ensures
        start <= found_in(start, coarse, fine).offset < last,
        unbeaten(found_in(start, coarse, fine), coarse),
        unbeaten(found_in(start, coarse, fine), fine),
{
    let rough = best_among(nothing_found(start), coarse);
    let found = best_among(rough, fine);
    the_rough_best_lies_in_the_range(start, last, coarse);
    the_best_is_not_beaten(nothing_found(start), coarse);
    the_best_is_not_beaten(rough, fine);
    if found != rough {
        let i = choose|i: int| 0 <= i < fine.len() && fine[i] == found;
        assert(fine[i].offset == fine_start(start as int, rough.offset as int) + i);
    }
}

/// The fine search looks at every offset of the range that is closer to the
/// best coarse one than the next coarse ones are, so a marker between them is
/// not missed; and it looks at no offset outside the range.
pub proof fn the_fine_search_closes_the_gaps(start: int, last: int, i: int, offset: int)
    requires
        0 <= start < last,
        0 <= i,
        start + i * COARSE_STRIDE < last,
    ensures
        ({
            let best = start + i * COARSE_STRIDE;
            &&& start <= offset < last && best - COARSE_STRIDE < offset < best + COARSE_STRIDE
                ==> fine_start(start, best) <= offset < fine_end(best, last)
            &&& fine_start(start, best) <= offset < fine_end(best, last) ==> start <= offset < last
        }),
{
}

// ---------------------------------------------------------------------
// Measuring
// ---------------------------------------------------------------------

/// Where the closing marker starts in the signal.
pub open spec fn closing_marker_start() -> int {
    tone_start(TONE_COUNT as int)
}

/// Where to look for the closing marker: half a second around where it is
/// expected.
#[derive(Clone, Copy, Debug, PartialEq, Eq, Structural)]
pub struct EndSearch {
    pub expected: usize,
    pub low: usize,
    pub high: usize,
}

/// Whether this is where to look for the closing marker, once the signal was
/// found to start at an offset.
pub open spec fn is_end_search(search: EndSearch, start_offset: int, captured_len: int) -> bool {
    &&& search.expected == start_offset + closing_marker_start()
    &&& search.low == (if search.expected >= 24_000 {
        search.expected - 24_000
    } else {
        0
    })
    &&& search.high == (if search.expected + 24_000 < captured_len {
        search.expected + 24_000
    } else {
        captured_len
    })
}

/// Where to look for the closing marker, once the first one has been found.
pub fn end_search(start_offset: usize, captured_len: usize) -> (search: EndSearch)
    requires
        start_offset + closing_marker_start() + 24_000 <= usize::MAX,
    ensures
        is_end_search(search, start_offset as int, captured_len as int),
{
    let expected: usize = start_offset + 352_800;
    EndSearch {
        expected,
        low: if expected >= 24_000 {
            expected - 24_000
        } else {
            0
        },
        high: if expected + 24_000 < captured_len {
            expected + 24_000
        } else {
            captured_len
        },
    }
}

/// How many samples later than expected the closing marker was found.
pub fn drift_samples(end_offset: usize, expected: usize) -> (drift: i64)
    requires
        end_offset <= i64::MAX,
        expected <= i64::MAX,
    ensures
        drift == end_offset - expected,
{
    end_offset as i64 - expected as i64
}

/// A stretch of the capture that a segment is measured in.
#[derive(Clone, Copy, Debug, PartialEq, Eq, Structural)]
pub struct Measured {
    pub segment: Segment,
    pub start: usize,
    pub end: usize,
}

/// The first `n` segments that the capture holds whole.
pub open spec fn measured_among(start_offset: nat, captured_len: nat, n: nat) -> Seq<Measured>
    decreases n,
{
    if n == 0 {
        Seq::empty()
    } else {
        let rest = measured_among(start_offset, captured_len, (n - 1) as nat);
        let segment = segment_at(n - 1);
        let start = start_offset + segment.start_sample;
        let end = start + segment.len_samples;
        if end > captured_len {
            rest
        } else {
            rest.push(Measured { segment, start: start as usize, end: end as usize })
        }
    }
}

/// Which stretches of the capture to measure, once the first marker has been
/// found: the segments that it holds whole.
pub fn measured_segments(segments: &Vec<Segment>, start_offset: usize, captured_len: usize) -> (rows:
    Vec<Measured>)
    requires
        segments@ == signal_segments(),
        start_offset + closing_marker_start() + MARKER_SAMPLES <= usize::MAX,
    ensures
        rows@ == measured_among(start_offset as nat, captured_len as nat, (TONE_COUNT + 3) as nat),
        forall|i: int| 0 <= i < rows@.len() ==> (#[trigger] rows@[i]).end <= captured_len,
{
    let mut rows: Vec<Measured> = Vec::new();
    for k in 0..segments.len()
        invariant
            segments@ == signal_segments(),
            start_offset + closing_marker_start() + MARKER_SAMPLES <= usize::MAX,
            rows@ == measured_among(start_offset as nat, captured_len as nat, k as nat),
            forall|i: int| 0 <= i < rows@.len() ==> (#[trigger] rows@[i]).end <= captured_len,
    {
        let segment = segments[k];
        assert(segment == segment_at(k as int));
        let start: usize = start_offset + segment.start_sample;
        let end: usize = start + segment.len_samples;
        if end <= captured_len {
            rows.push(Measured { segment, start, end });
        }
    }
    rows
}

/// Where a capture holds the signal.
#[derive(Debug)]
pub struct Located {
    /// Where the opening marker was found.
    pub start: Found,
    /// Where the closing marker was looked for.
    pub search: EndSearch,
    /// Where the closing marker was found.
    pub end: Found,
    /// How many samples later than expected that is.
    pub drift: i64,
    /// The stretches to measure.
    pub rows: Vec<Measured>,
}

/// Whether locating the signal in a capture, with a way to score an offset, can
/// give this: the opening marker is looked for everywhere, the closing one
/// around where it is expected from there, and the stretches follow from where
/// the opening one was found.
pub open spec fn is_located<F: Fn(usize) -> u32>(
    score: F,
    captured_len: nat,
    located: Located,
) -> bool {
    &&& is_marker_found(
        score,
        captured_len,
        MARKER_SAMPLES as nat,
        0,
        captured_len,
        located.start,
    )
    &&& is_end_search(located.search, located.start.offset as int, captured_len as int)
    &&& is_marker_found(
        score,
        captured_len,
        MARKER_SAMPLES as nat,
        located.search.low,
        located.search.high as nat,
        located.end,
    )
    &&& located.drift == located.end.offset - located.search.expected
    &&& located.rows@ == measured_among(
        located.start.offset as nat,
        captured_len,
        (TONE_COUNT + 3) as nat,
    )
}

/// Locates the signal in a capture: both its markers, how far the closing one
/// has drifted, and the stretches to measure. `score` gives the bit pattern of
/// how well the marker fits at an offset.
pub fn locate_signal<F: Fn(usize) -> u32>(
    segments: &Vec<Segment>,
    captured_len: usize,
    score: &F,
) -> (located: Located)
    requires
        segments@ == signal_segments(),
        captured_len + closing_marker_start() + 24_000 <= usize::MAX,
        captured_len + closing_marker_start() + 24_000 <= i64::MAX,
        forall|offset: usize|
            offset + MARKER_SAMPLES <= captured_len ==> #[trigger] call_requires(*score, (offset,)),
    ensures
        is_located(*score, captured_len as nat, located),
        forall|i: int|
            0 <= i < located.rows@.len() ==> (#[trigger] located.rows@[i]).end <= captured_len,
{
    let start = find_marker(captured_len, MARKER_SAMPLES, 0, captured_len, score);
    let search = end_search(start.offset, captured_len);
    let end = find_marker(captured_len, MARKER_SAMPLES, search.low, search.high, score);
    let drift: i64 = drift_samples(end.offset, search.expected);
    let rows = measured_segments(segments, start.offset, captured_len);
    Located { start, search, end, drift, rows }
}

// ---------------------------------------------------------------------
// Laws
// ---------------------------------------------------------------------

proof fn sweep_layout<S>(tones: Seq<Seq<S>>, silence: S, n: nat, i: int)
    requires
        n <= TONE_COUNT,
        tones.len() == TONE_COUNT,
        forall|k: int| 0 <= k < TONE_COUNT ==> (#[trigger] tones[k]).len() == TONE_SAMPLES,
        0 <= i,
    ensures
        sweep(tones, silence, n).len() == n * (TONE_SAMPLES + GAP_SAMPLES),
        i < n ==> sweep(tones, silence, n).subrange(
            i * (TONE_SAMPLES + GAP_SAMPLES),
            i * (TONE_SAMPLES + GAP_SAMPLES) + TONE_SAMPLES,
        ) == tones[i],
    decreases n,
{
    if n > 0 {
        let m = (n - 1) as nat;
        sweep_layout(tones, silence, m, i);
        let front = sweep(tones, silence, m);
        let gap = Seq::new(GAP_SAMPLES as nat, |k: int| silence);
        let tone = tones[n - 1];
        let all = front + tone + gap;
        assert(tone.len() == TONE_SAMPLES);
        let at = i * (TONE_SAMPLES + GAP_SAMPLES);
        if i < m {
            assert(at + TONE_SAMPLES <= front.len());
            assert(all.subrange(at, at + TONE_SAMPLES) == front.subrange(at, at + TONE_SAMPLES));
        } else if i == m {
            assert(all.subrange(at, at + TONE_SAMPLES) == tone);
        }
    }
}

/// Every segment stands in the signal exactly where the layout says: both
/// markers, and every tone.
pub proof fn segments_stand_at_their_offsets<S>(
    marker: Seq<S>,
    tones: Seq<Seq<S>>,
    silence: S,
    k: int,
)
    requires
        parts_fit(marker, tones),
        0 <= k < TONE_COUNT + 3,
    ensures
        ({
            let wave = signal_samples(marker, tones, silence);
            let segment = segment_at(k);
            let start = segment.start_sample as int;
            let end = start + segment.len_samples;
            &&& wave.len() == closing_marker_start() + MARKER_SAMPLES
            &&& 0 <= start <= end <= wave.len()
            &&& match segment.kind {
                SegmentKind::Marker => wave.subrange(start, end) == marker,
                SegmentKind::Silence => wave.subrange(start, end) == Seq::new(
                    SILENCE_SAMPLES as nat,
                    |i: int| silence,
                ),
                SegmentKind::Tone(_) => wave.subrange(start, end) == tones[k - 2],
            }
        }),
{
    let quiet = Seq::new(SILENCE_SAMPLES as nat, |i: int| silence);
    let tail = sweep(tones, silence, TONE_COUNT as nat);
    let wave = marker + quiet + tail + marker;
    let segment = segment_at(k);
    let start = segment.start_sample as int;
    let end = start + segment.len_samples;
    if k < 2 || k == TONE_COUNT + 2 {
        sweep_layout(tones, silence, TONE_COUNT as nat, 0);
        if k == 0 {
            assert(wave.subrange(start, end) == marker);
        } else if k == 1 {
            assert(wave.subrange(start, end) == quiet);
        } else {
            assert(wave.subrange(start, end) == marker);
        }
    } else {
        let i = k - 2;
        sweep_layout(tones, silence, TONE_COUNT as nat, i);
        let at = i * (TONE_SAMPLES + GAP_SAMPLES);
        assert(wave.subrange(start, end) == tail.subrange(at, at + TONE_SAMPLES));
    }
}

/// The sweep covers its band: it starts at the lowest tone, ends at the
/// highest, and steps evenly between them.
pub proof fn the_sweep_covers_its_band(i: int)
    requires
        0 <= i < TONE_COUNT,
    ensures
        segment_at(2).kind == SegmentKind::Tone(TONE_START_HZ),
        segment_at(TONE_COUNT + 1).kind == SegmentKind::Tone(TONE_END_HZ),
        segment_at(2 + i).kind matches SegmentKind::Tone(hz) && hz == TONE_START_HZ + i
            * TONE_STEP_HZ && hz <= TONE_END_HZ,
{
}

/// A capture that holds the whole signal, wherever in it the signal starts, is
/// measured in every segment.
pub proof fn a_whole_capture_is_measured_whole(start_offset: nat, captured_len: nat, n: nat)
    requires
        n <= TONE_COUNT + 3,
        start_offset + closing_marker_start() + MARKER_SAMPLES <= captured_len,
    ensures
        measured_among(start_offset, captured_len, n).len() == n,
    decreases n,
{
    if n > 0 {
        a_whole_capture_is_measured_whole(start_offset, captured_len, (n - 1) as nat);
    }
}

/// The segments follow one another without overlapping, from the first sample
/// of the signal to its last.
pub proof fn segments_follow_each_other(k: int)
    requires
        0 <= k < TONE_COUNT + 2,
    ensures
        segment_at(0).start_sample == 0,
        segment_at(k).start_sample + segment_at(k).len_samples <= segment_at(k + 1).start_sample,
        segment_at(TONE_COUNT + 2).start_sample + segment_at(TONE_COUNT + 2).len_samples
            == closing_marker_start() + MARKER_SAMPLES,
{
}

/// Whether sample `x` of the signal lies in segment `k`.
pub open spec fn lies_in(x: int, k: int) -> bool {
    segment_at(k).start_sample <= x < segment_at(k).start_sample + segment_at(k).len_samples
}

/// Every sample outside the markers and the tones is silence.
pub proof fn the_rest_of_the_signal_is_silence<S>(
    marker: Seq<S>,
    tones: Seq<Seq<S>>,
    silence: S,
    x: int,
)
    requires
        parts_fit(marker, tones),
        0 <= x < signal_samples(marker, tones, silence).len(),
        forall|k: int|
            0 <= k < TONE_COUNT + 3 && #[trigger] lies_in(x, k) ==> segment_at(k).kind is Silence,
    ensures
        signal_samples(marker, tones, silence)[x] == silence,
{
    let quiet = Seq::new(SILENCE_SAMPLES as nat, |i: int| silence);
    let tail = sweep(tones, silence, TONE_COUNT as nat);
    let at = MARKER_SAMPLES + SILENCE_SAMPLES;
    sweep_layout(tones, silence, TONE_COUNT as nat, 0);
    assert(!lies_in(x, 0));
    assert(!lies_in(x, TONE_COUNT + 2));
    if x >= at {
        let y = x - at;
        assert(signal_samples(marker, tones, silence)[x] == tail[y]);
        let i = y / (TONE_SAMPLES + GAP_SAMPLES) as int;
        assert(!lies_in(x, i + 2));
        sweep_gaps(tones, silence, TONE_COUNT as nat, y);
    } else {
        assert(signal_samples(marker, tones, silence)[x] == quiet[x - MARKER_SAMPLES]);
    }
}

proof fn sweep_gaps<S>(tones: Seq<Seq<S>>, silence: S, n: nat, y: int)
    requires
        n <= TONE_COUNT,
        tones.len() == TONE_COUNT,
        forall|k: int| 0 <= k < TONE_COUNT ==> (#[trigger] tones[k]).len() == TONE_SAMPLES,
        0 <= y < n * (TONE_SAMPLES + GAP_SAMPLES),
        y % (TONE_SAMPLES + GAP_SAMPLES) as int >= TONE_SAMPLES,
    ensures
        sweep(tones, silence, n)[y] == silence,
    decreases n,
{
    let m = (n - 1) as nat;
    sweep_layout(tones, silence, m, 0);
    let front = sweep(tones, silence, m);
    assert(tones[n - 1].len() == TONE_SAMPLES);
    if y < front.len() {
        sweep_gaps(tones, silence, m, y);
        assert(sweep(tones, silence, n)[y] == front[y]);
    } else {
        let gap = Seq::new(GAP_SAMPLES as nat, |k: int| silence);
        let z = y - front.len() - TONE_SAMPLES;
        assert(y % 19200 == y - m * 19200) by (nonlinear_arith)
            requires
                m * 19200 <= y < (m + 1) * 19200,
        ;
        assert(sweep(tones, silence, n) == front + tones[n - 1] + gap);
        assert((front + tones[n - 1] + gap)[y] == gap[z]);
    }
}

/// A measured stretch, so many samples later.
pub open spec fn later(m: Measured, by: nat) -> Measured {
    Measured { segment: m.segment, start: (m.start + by) as usize, end: (m.end + by) as usize }
}

/// A signal that starts later in a capture that is as much longer is measured
/// in the same stretches, each as much later.
pub proof fn a_later_start_shifts_the_stretches(
    start_offset: nat,
    captured_len: nat,
    by: nat,
    n: nat,
)
    requires
        n <= TONE_COUNT + 3,
        start_offset + by + closing_marker_start() + MARKER_SAMPLES <= usize::MAX,
    ensures
        measured_among(start_offset + by, captured_len + by, n) == measured_among(
            start_offset,
            captured_len,
            n,
        ).map_values(|m: Measured| later(m, by)),
    decreases n,
{
    if n > 0 {
        let m = (n - 1) as nat;
        a_later_start_shifts_the_stretches(start_offset, captured_len, by, m);
        assert(segment_at(m as int).start_sample + segment_at(m as int).len_samples
            <= closing_marker_start() + MARKER_SAMPLES);
    }
    assert(measured_among(start_offset + by, captured_len + by, n) == measured_among(
        start_offset,
        captured_len,
        n,
    ).map_values(|m: Measured| later(m, by)));
}

// ---------------------------------------------------------------------
// Laws of the search, for a score that is always the same at an offset
// ---------------------------------------------------------------------

/// Whether a way to score an offset gives the same score every time.
pub open spec fn is_steady<F: Fn(usize) -> u32>(score: F, scores: spec_fn(int) -> u32) -> bool {
    forall|offset: usize, s: u32| #[trigger]
        call_ensures(score, (offset,), s) ==> s == scores(offset as int)
}

/// The row that the coarse search scores.
pub open spec fn coarse_row(scores: spec_fn(int) -> u32, start: int, last: int) -> Seq<Found> {
    Seq::new(
        ((last - start + COARSE_STRIDE - 1) / COARSE_STRIDE as int) as nat,
        |i: int|
            Found {
                offset: (start + i * COARSE_STRIDE) as usize,
                score: scores(start + i * COARSE_STRIDE),
            },
    )
}

/// The row that the fine search around a coarse offset scores.
pub open spec fn fine_row(
    scores: spec_fn(int) -> u32,
    start: int,
    best: int,
    last: int,
) -> Seq<Found> {
    Seq::new(
        (fine_end(best, last) - fine_start(start, best)) as nat,
        |i: int|
            Found {
                offset: (fine_start(start, best) + i) as usize,
                score: scores(fine_start(start, best) + i),
            },
    )
}

/// The best of the coarse search.
pub open spec fn rough_best(scores: spec_fn(int) -> u32, start: usize, last: nat) -> Found {
    best_among(nothing_found(start), coarse_row(scores, start as int, last as int))
}

/// What a search of a range finds.
pub open spec fn search_result(scores: spec_fn(int) -> u32, start: usize, last: nat) -> Found {
    let rough = rough_best(scores, start, last);
    best_among(rough, fine_row(scores, start as int, rough.offset as int, last as int))
}

/// With a steady score there is one thing that a search can find.
pub proof fn a_steady_score_decides_the_search<F: Fn(usize) -> u32>(
    score: F,
    scores: spec_fn(int) -> u32,
    start: usize,
    last: nat,
    found: Found,
)
    requires
        is_steady(score, scores),
        start < last <= usize::MAX,
        search_finds(score, start, last, found),
    ensures
        found == search_result(scores, start, last),
{
    let (coarse, fine) = choose|coarse: Seq<Found>, fine: Seq<Found>|
        #![trigger found_in(start, coarse, fine)]
        {
            &&& are_search_rows(start, last, coarse, fine)
            &&& scored_by(score, coarse)
            &&& scored_by(score, fine)
            &&& found == found_in(start, coarse, fine)
            &&& unbeaten(found, coarse)
            &&& unbeaten(found, fine)
        };
    let expected = coarse_row(scores, start as int, last as int);
    assert forall|i: int| 0 <= i < coarse.len() implies #[trigger] coarse[i] == expected[i] by {
        coarse_offsets_end(start as int, last as int, i);
        assert(call_ensures(score, (coarse[i].offset,), coarse[i].score));
    }
    assert(coarse == expected);
    let rough = rough_best(scores, start, last);
    let around = fine_row(scores, start as int, rough.offset as int, last as int);
    assert forall|i: int| 0 <= i < fine.len() implies #[trigger] fine[i] == around[i] by {
        assert(call_ensures(score, (fine[i].offset,), fine[i].score));
    }
    assert(fine == around);
}

/// What scores highest in a range, and stands on one of its strides, is found.
pub proof fn a_peak_on_a_stride_is_found(
    scores: spec_fn(int) -> u32,
    start: usize,
    last: nat,
    i: int,
)
    requires
        last <= usize::MAX,
        0 <= i,
        start + i * COARSE_STRIDE < last,
        score_key(scores(start + i * COARSE_STRIDE)) > score_key(LOWEST_SCORE),
        forall|o: int|
            start <= o < last && o != start + i * COARSE_STRIDE ==> score_key(#[trigger] scores(o))
                < score_key(scores(start + i * COARSE_STRIDE)),
    ensures
        search_result(scores, start, last) == (Found {
            offset: (start + i * COARSE_STRIDE) as usize,
            score: scores(start + i * COARSE_STRIDE),
        }),
{
    let at = start + i * COARSE_STRIDE;
    let peak = Found { offset: at as usize, score: scores(at) };
    let coarse = coarse_row(scores, start as int, last as int);
    let rough = rough_best(scores, start, last);
    the_best_is_not_beaten(nothing_found(start), coarse);
    assert(i < coarse.len());
    assert(coarse[i] == peak);
    assert(rough == peak) by {
        let j = choose|j: int| 0 <= j < coarse.len() && coarse[j] == rough;
        coarse_offsets_end(start as int, last as int, j);
        if j != i {
            assert(score_key(scores(start + j * COARSE_STRIDE)) < score_key(scores(at)));
        }
    }
    let fine = fine_row(scores, start as int, at, last as int);
    let found = best_among(rough, fine);
    the_best_is_not_beaten(rough, fine);
    if found != rough {
        let j = choose|j: int| 0 <= j < fine.len() && fine[j] == found;
        let o = fine_start(start as int, at) + j;
        assert(found.score == scores(o));
        if o != at {
            assert(score_key(scores(o)) < score_key(scores(at)));
        }
    }
}

/// A capture in which the marker scores highest where the signal starts, and
/// around the end where the signal ends, is located there without any drift,
/// wherever on a stride the signal starts, and is measured in every segment.
pub proof fn a_clean_signal_is_located<F: Fn(usize) -> u32>(
    score: F,
    scores: spec_fn(int) -> u32,
    captured_len: nat,
    at: int,
    located: Located,
)
    requires
        is_steady(score, scores),
        is_located(score, captured_len, located),
        captured_len <= usize::MAX,
        0 <= at,
        at % COARSE_STRIDE as int == 0,
        at + closing_marker_start() + MARKER_SAMPLES <= captured_len,
        score_key(scores(at)) > score_key(LOWEST_SCORE),
        score_key(scores(at + closing_marker_start())) > score_key(LOWEST_SCORE),
        forall|o: int|
            0 <= o <= captured_len - MARKER_SAMPLES && o != at ==> score_key(#[trigger] scores(o))
                < score_key(scores(at)),
        forall|o: int|
            at + closing_marker_start() - 24_000 <= o < at + closing_marker_start() + 24_000 && o
                <= captured_len - MARKER_SAMPLES && o != at + closing_marker_start()
                ==> score_key(#[trigger] scores(o)) < score_key(
                scores(at + closing_marker_start()),
            ),
    ensures
        located.start == (Found { offset: at as usize, score: scores(at) }),
        located.search.expected == at + closing_marker_start(),
        located.end == (Found {
            offset: (at + closing_marker_start()) as usize,
            score: scores(at + closing_marker_start()),
        }),
        located.drift == 0,
        located.rows@.len() == TONE_COUNT + 3,
{
    let n = MARKER_SAMPLES as nat;
    let last = search_end(captured_len, n, 0, captured_len)->0;
    a_steady_score_decides_the_search(score, scores, 0, last, located.start);
    let i = at / COARSE_STRIDE as int;
    assert(0 + i * COARSE_STRIDE == at);
    a_peak_on_a_stride_is_found(scores, 0, last, i);
    let search = located.search;
    let until = search_end(captured_len, n, search.low as nat, search.high as nat)->0;
    a_steady_score_decides_the_search(score, scores, search.low, until, located.end);
    assert(search.low + 3000 * COARSE_STRIDE == at + closing_marker_start());
    a_peak_on_a_stride_is_found(scores, search.low, until, 3000);
    a_whole_capture_is_measured_whole(
        at as nat,
        captured_len,
        (TONE_COUNT + 3) as nat,
    );
}

/// What was found, so many samples later.
pub open spec fn found_later(found: Found, by: nat) -> Found {
    Found { offset: (found.offset + by) as usize, score: found.score }
}

/// Looking on from what was found in one row.
proof fn rows_one_after_the_other(before: Found, first: Seq<Found>, second: Seq<Found>)
    ensures
        best_among(before, first + second) == best_among(best_among(before, first), second),
    decreases second.len(),
{
    if second.len() == 0 {
        assert(first + second == first);
    } else {
        assert((first + second).drop_last() == first + second.drop_last());
        assert((first + second).last() == second.last());
        rows_one_after_the_other(before, first, second.drop_last());
    }
}

/// What is beaten anyway does not matter to what is found.
proof fn a_beaten_start_does_not_matter(a: Found, b: Found, row: Seq<Found>)
    requires
        score_key(a.score) < score_key(best_among(b, row).score),
        score_key(b.score) < score_key(best_among(b, row).score),
    ensures
        best_among(a, row) == best_among(b, row),
    decreases row.len(),
{
    if row.len() > 0 {
        let rest = row.drop_last();
        let by_a = best_among(a, rest);
        let by_b = best_among(b, rest);
        if score_key(row.last().score) > score_key(by_b.score) {
            the_best_is_not_beaten(a, rest);
            the_best_is_not_beaten(b, rest);
            if by_a != a {
                let i = choose|i: int| 0 <= i < rest.len() && rest[i] == by_a;
                assert(score_key(rest[i].score) <= score_key(by_b.score));
            }
        } else {
            a_beaten_start_does_not_matter(a, b, rest);
        }
    }
}

proof fn nothing_better(before: Found, row: Seq<Found>)
    requires
        unbeaten(before, row),
    ensures
        best_among(before, row) == before,
    decreases row.len(),
{
    if row.len() > 0 {
        let rest = row.drop_last();
        assert(row[row.len() - 1] == row.last());
        assert forall|i: int| 0 <= i < rest.len() implies score_key((#[trigger] rest[i]).score)
            <= score_key(before.score) by {
            assert(rest[i] == row[i]);
        }
        nothing_better(before, rest);
    }
}

proof fn the_best_shifts(before: Found, row: Seq<Found>, by: nat)
    ensures
        best_among(found_later(before, by), row.map_values(|f: Found| found_later(f, by)))
            == found_later(best_among(before, row), by),
    decreases row.len(),
{
    let moved = row.map_values(|f: Found| found_later(f, by));
    if row.len() > 0 {
        let rest = row.drop_last();
        the_best_shifts(before, rest, by);
        assert(moved.drop_last() == rest.map_values(|f: Found| found_later(f, by)));
        assert(moved.last() == found_later(row.last(), by));
    }
}

/// Whether the second scores are the first, so many samples later.
pub open spec fn are_later(
    scores: spec_fn(int) -> u32,
    others: spec_fn(int) -> u32,
    by: nat,
) -> bool {
    forall|o: int| 0 <= o ==> #[trigger] others(o + by) == scores(o)
}

proof fn the_coarse_row_shifts(
    scores: spec_fn(int) -> u32,
    others: spec_fn(int) -> u32,
    start: usize,
    last: nat,
    by: nat,
)
    requires
        start < last,
        last + by <= usize::MAX,
        are_later(scores, others, by),
    ensures
        coarse_row(others, start + by, (last + by) as int) == coarse_row(
            scores,
            start as int,
            last as int,
        ).map_values(|f: Found| found_later(f, by)),
{
    let row = coarse_row(scores, start as int, last as int);
    let moved = coarse_row(others, start + by, (last + by) as int);
    assert forall|i: int| 0 <= i < row.len() implies #[trigger] moved[i] == found_later(
        row[i],
        by,
    ) by {
        coarse_offsets_end(start as int, last as int, i);
        assert(others((start + i * COARSE_STRIDE) + by) == scores(start + i * COARSE_STRIDE));
    }
    assert(moved == row.map_values(|f: Found| found_later(f, by)));
}

/// A search of a range that lies later, over scores that lie as much later,
/// finds the same, as much later.
pub proof fn a_later_range_shifts_what_is_found(
    scores: spec_fn(int) -> u32,
    others: spec_fn(int) -> u32,
    start: usize,
    last: nat,
    by: nat,
)
    requires
        start < last,
        last + by <= usize::MAX,
        are_later(scores, others, by),
    ensures
        search_result(others, (start + by) as usize, last + by) == found_later(
            search_result(scores, start, last),
            by,
        ),
{
    the_coarse_row_shifts(scores, others, start, last, by);
    let coarse = coarse_row(scores, start as int, last as int);
    the_best_shifts(nothing_found(start), coarse, by);
    let rough = rough_best(scores, start, last);
    assert(is_coarse_row(start as int, last as int, coarse)) by {
        assert forall|i: int| 0 <= i < coarse.len() implies (#[trigger] coarse[i]).offset == start
            + i * COARSE_STRIDE by {
            coarse_offsets_end(start as int, last as int, i);
        }
    }
    the_rough_best_lies_in_the_range(start, last, coarse);
    assert(rough_best(others, (start + by) as usize, last + by) == found_later(rough, by));
    let fine = fine_row(scores, start as int, rough.offset as int, last as int);
    let moved = fine_row(others, start + by, rough.offset + by, (last + by) as int);
    assert forall|i: int| 0 <= i < fine.len() implies #[trigger] moved[i] == found_later(
        fine[i],
        by,
    ) by {
        let o = fine_start(start as int, rough.offset as int) + i;
        assert(others(o + by) == scores(o));
    }
    assert(moved == fine.map_values(|f: Found| found_later(f, by)));
    the_best_shifts(rough, fine, by);
}

/// A search from the very beginning finds the same, so many samples later, if
/// so many samples of silence come first and no offset in them scores as high as
/// the best of the strides behind them.
pub proof fn silence_in_front_shifts_what_is_found(
    scores: spec_fn(int) -> u32,
    others: spec_fn(int) -> u32,
    last: nat,
    by: nat,
)
    requires
        0 < last,
        last + by <= usize::MAX,
        by % COARSE_STRIDE as nat == 0,
        are_later(scores, others, by),
        score_key(rough_best(scores, 0, last).score) > score_key(LOWEST_SCORE),
        forall|o: int|
            0 <= o < by ==> score_key(#[trigger] others(o)) < score_key(
                rough_best(scores, 0, last).score,
            ),
    ensures
        search_result(others, 0, last + by) == found_later(search_result(scores, 0, last), by),
{
    let coarse = coarse_row(scores, 0, last as int);
    let rough = rough_best(scores, 0, last);
    let q = by as int / COARSE_STRIDE as int;
    assert(q * COARSE_STRIDE == by);
    let whole = coarse_row(others, 0, (last + by) as int);
    let front = whole.take(q);
    let moved = coarse.map_values(|f: Found| found_later(f, by));
    assert(whole.len() == q + coarse.len());
    assert forall|i: int| 0 <= i < coarse.len() implies #[trigger] whole[q + i] == moved[i] by {
        coarse_offsets_end(0, last as int, i);
        assert((q + i) * COARSE_STRIDE == i * COARSE_STRIDE + by);
        assert(others((0 + i * COARSE_STRIDE) + by) == scores(0 + i * COARSE_STRIDE));
    }
    assert(whole == front + moved);
    rows_one_after_the_other(nothing_found(0), front, moved);
    let quiet = best_among(nothing_found(0), front);
    the_best_is_not_beaten(nothing_found(0), front);
    assert(score_key(quiet.score) < score_key(rough.score)) by {
        if quiet != nothing_found(0) {
            let i = choose|i: int| 0 <= i < front.len() && front[i] == quiet;
            assert(front[i] == whole[i]);
            assert(score_key(others(0 + i * COARSE_STRIDE)) < score_key(rough.score));
        }
    }
    the_best_shifts(nothing_found(0), coarse, by);
    a_beaten_start_does_not_matter(quiet, found_later(nothing_found(0), by), moved);
    assert(rough_best(others, 0, last + by) == found_later(rough, by));
    assert(is_coarse_row(0, last as int, coarse)) by {
        assert forall|i: int| 0 <= i < coarse.len() implies (#[trigger] coarse[i]).offset == 0 + i
            * COARSE_STRIDE by {
            coarse_offsets_end(0, last as int, i);
        }
    }
    the_rough_best_lies_in_the_range(0, last, coarse);
    let fine = fine_row(scores, 0, rough.offset as int, last as int);
    let around = fine_row(others, 0, rough.offset + by, (last + by) as int);
    let from = fine_start(0, rough.offset + by);
    let early = fine_start(0, rough.offset as int) + by - from;
    assert(0 <= early && around.len() == early + fine.len());
    let head = around.take(early);
    let later_fine = fine.map_values(|f: Found| found_later(f, by));
    assert forall|i: int| 0 <= i < fine.len() implies #[trigger] around[early + i]
        == later_fine[i] by {
        let o = fine_start(0, rough.offset as int) + i;
        assert(others(o + by) == scores(o));
    }
    assert(around == head + later_fine);
    rows_one_after_the_other(found_later(rough, by), head, later_fine);
    assert(unbeaten(found_later(rough, by), head)) by {
        assert forall|i: int| 0 <= i < head.len() implies score_key((#[trigger] head[i]).score)
            <= score_key(rough.score) by {
            assert(head[i] == around[i]);
            assert(score_key(others(from + i)) < score_key(rough.score));
        }
    }
    nothing_better(found_later(rough, by), head);
    the_best_shifts(rough, fine, by);
}

/// Leading silence only shifts what is located: a capture with so many samples
/// of silence in front, a whole number of strides, in which no offset scores as
/// high as the best of the strides behind it, has both markers, the place where
/// the closing one is expected and every measured stretch as much later, with
/// the same scores and the same drift.
pub proof fn leading_silence_only_shifts<F: Fn(usize) -> u32, G: Fn(usize) -> u32>(
    score: F,
    scores: spec_fn(int) -> u32,
    located: Located,
    other: G,
    others: spec_fn(int) -> u32,
    after: Located,
    captured_len: nat,
    by: nat,
)
    requires
        is_steady(score, scores),
        is_steady(other, others),
        is_located(score, captured_len, located),
        is_located(other, captured_len + by, after),
        MARKER_SAMPLES <= captured_len,
        captured_len + by + closing_marker_start() + 24_000 <= usize::MAX,
        by % COARSE_STRIDE as nat == 0,
        are_later(scores, others, by),
        ({
            let last = (captured_len - MARKER_SAMPLES + 1) as nat;
            let rough = rough_best(scores, 0, last);
            &&& score_key(rough.score) > score_key(LOWEST_SCORE)
            &&& forall|o: int|
                0 <= o < by ==> score_key(#[trigger] others(o)) < score_key(rough.score)
        }),
    ensures
        after.start == found_later(located.start, by),
        after.search.expected == located.search.expected + by,
        after.end == found_later(located.end, by),
        after.drift == located.drift,
        after.rows@ == located.rows@.map_values(|m: Measured| later(m, by)),
{
    let n = MARKER_SAMPLES as nat;
    let last = (captured_len - MARKER_SAMPLES + 1) as nat;
    assert(search_end(captured_len, n, 0, captured_len) == Some(last));
    assert(search_end(captured_len + by, n, 0, captured_len + by) == Some(last + by));
    a_steady_score_decides_the_search(score, scores, 0, last, located.start);
    a_steady_score_decides_the_search(other, others, 0, last + by, after.start);
    silence_in_front_shifts_what_is_found(scores, others, last, by);
    let (low, high) = (located.search.low, located.search.high);
    assert(after.search.low == low + by && after.search.high == high + by);
    match search_end(captured_len, n, low as nat, high as nat) {
        Some(until) => {
            a_steady_score_decides_the_search(score, scores, low, until, located.end);
            a_steady_score_decides_the_search(
                other,
                others,
                after.search.low,
                until + by,
                after.end,
            );
            a_later_range_shifts_what_is_found(scores, others, low, until, by);
        },
        None => {},
    }
    a_later_start_shifts_the_stretches(
        located.start.offset as nat,
        captured_len,
        by,
        (TONE_COUNT + 3) as nat,
    );
}

// ---------------------------------------------------------------------
// What the parts are
// ---------------------------------------------------------------------

/// How the signal is timed, in samples at 48 kHz: a quarter of a second of
/// marker, seven tenths of silence, sixteen tones of three tenths with a tenth
/// of silence behind each, and the marker again. The tones are 200 Hz apart,
/// from 300 Hz on.
pub proof fn the_signal_is_timed(i: int)
    requires
        0 <= i < 16,
    ensures
        signal_segments().len() == 19,
        signal_segments()[0] == (Segment {
            kind: SegmentKind::Marker,
            start_sample: 0,
            len_samples: 12_000,
        }),
        signal_segments()[1] == (Segment {
            kind: SegmentKind::Silence,
            start_sample: 12_000,
            len_samples: 33_600,
        }),
        signal_segments()[2 + i] == (Segment {
            kind: SegmentKind::Tone((300 + 200 * i) as u32),
            start_sample: (45_600 + 19_200 * i) as usize,
            len_samples: 14_400,
        }),
        signal_segments()[18] == (Segment {
            kind: SegmentKind::Marker,
            start_sample: 352_800,
            len_samples: 12_000,
        }),
{
    assert(TONE_SAMPLES + GAP_SAMPLES == 19_200);
    assert(i * (TONE_SAMPLES + GAP_SAMPLES) == 19_200 * i) by (nonlinear_arith)
        requires
            TONE_SAMPLES + GAP_SAMPLES == 19_200,
    ;
    assert(TONE_COUNT * (TONE_SAMPLES + GAP_SAMPLES) == 307_200);
}

/// Scores are compared as the numbers they are: of two positive ones the larger
/// bit pattern is larger, of two negative ones the smaller, every negative one
/// is below every positive one, the two zeros are equal, and what is not a
/// number is below everything that is.
pub proof fn scores_are_compared_as_numbers(a: u32, b: u32)
    ensures
        a <= 0x7F80_0000 && b <= 0x7F80_0000 ==> (score_key(a) < score_key(b) <==> a < b),
        0x8000_0000 <= a <= 0xFF80_0000 && 0x8000_0000 <= b <= 0xFF80_0000 ==> (score_key(a)
            < score_key(b) <==> a > b),
        0x8000_0000 < a <= 0xFF80_0000 && b <= 0x7F80_0000 ==> score_key(a) < score_key(b),
        score_key(0x8000_0000) == score_key(0),
        (0x7F80_0000 < a < 0x8000_0000 || a > 0xFF80_0000) && (b <= 0x7F80_0000 || 0x8000_0000 <= b
            <= 0xFF80_0000) ==> score_key(a) < score_key(b),
        (0x7F80_0000 < a < 0x8000_0000 || a > 0xFF80_0000) && (0x7F80_0000 < b < 0x8000_0000 || b
            > 0xFF80_0000) ==> score_key(a) == score_key(b),
{
}

/// The best is the first of those with the highest score, and what was best
/// before stays unless it is beaten.
pub proof fn the_first_of_equals_is_best(before: Found, row: Seq<Found>)
    ensures
        ({
            let best = best_among(before, row);
            ||| best == before && forall|j: int|
                0 <= j < row.len() ==> score_key((#[trigger] row[j]).score) <= score_key(
                    before.score,
                )
            ||| exists|i: int|
                0 <= i < row.len() && best == #[trigger] row[i] && score_key(before.score)
                    < score_key(best.score) && (forall|j: int|
                    0 <= j < i ==> score_key((#[trigger] row[j]).score) < score_key(best.score))
                    && forall|j: int|
                    i <= j < row.len() ==> score_key((#[trigger] row[j]).score) <= score_key(
                        best.score,
                    )
        }),
    decreases row.len(),
{
    if row.len() > 0 {
        let rest = row.drop_last();
        let rest_best = best_among(before, rest);
        let best = best_among(before, row);
        let last = row.len() - 1;
        the_first_of_equals_is_best(before, rest);
        the_best_is_not_beaten(before, rest);
        assert forall|j: int| 0 <= j < rest.len() implies rest[j] == #[trigger] row[j] by {}
        if score_key(row.last().score) > score_key(rest_best.score) {
            assert(best == row[last]);
            assert forall|j: int| 0 <= j < last implies score_key((#[trigger] row[j]).score)
                < score_key(best.score) by {
                assert(rest[j] == row[j]);
            }
        } else if best == before && forall|j: int|
            0 <= j < rest.len() ==> score_key((#[trigger] rest[j]).score) <= score_key(
                before.score,
            ) {
            assert forall|j: int| 0 <= j < row.len() implies score_key((#[trigger] row[j]).score)
                <= score_key(before.score) by {
                if j < last {
                    assert(rest[j] == row[j]);
                }
            }
        } else {
            let i = choose|i: int|
                0 <= i < rest.len() && best == #[trigger] rest[i] && score_key(before.score)
                    < score_key(best.score) && (forall|j: int|
                    0 <= j < i ==> score_key((#[trigger] rest[j]).score) < score_key(best.score))
                    && forall|j: int|
                    i <= j < rest.len() ==> score_key((#[trigger] rest[j]).score) <= score_key(
                        best.score,
                    );
            assert(best == row[i]);
            assert forall|j: int| 0 <= j < i implies score_key((#[trigger] row[j]).score)
                < score_key(best.score) by {
                assert(rest[j] == row[j]);
            }
            assert forall|j: int| i <= j < row.len() implies score_key((#[trigger] row[j]).score)
                <= score_key(best.score) by {
                if j < last {
                    assert(rest[j] == row[j]);
                }
            }
        }
    }
}

/// The range of a search is made of exactly the offsets between its bounds at
/// which the whole template fits, and there is none where no offset does.
pub proof fn a_search_covers_what_fits(audio_len: nat, n: nat, start: nat, end: nat, offset: nat)
    requires
        n > 0,
    ensures
        (search_end(audio_len, n, start, end) matches Some(last) && start <= offset < last)
            <==> start <= offset < end && offset + n <= audio_len,
{
}

/// The coarse search looks at every eighth offset of its range, from the first
/// one on, up to its end, and the fine one at all offsets of the range that are
/// no more than eight away from the best of those.
pub proof fn the_search_looks_at_every_eighth_offset(
    start: int,
    last: int,
    row: Seq<Found>,
    i: int,
    best: int,
    offset: int,
)
    requires
        0 <= start < last,
        is_coarse_row(start, last, row),
        0 <= i,
        start <= best < last,
    ensures
        i < row.len() <==> start + 8 * i < last,
        i < row.len() ==> row[i].offset == start + 8 * i,
        fine_start(start, best) <= offset < fine_end(best, last) <==> start <= offset < last && best
            - 8 <= offset <= best + 8,
{
}

/// The closing marker is looked for half a second around where it is expected,
/// as far as the capture goes.
pub proof fn the_closing_marker_is_looked_for_around(
    search: EndSearch,
    start_offset: int,
    captured_len: int,
    offset: int,
)
    requires
        0 <= start_offset,
        is_end_search(search, start_offset, captured_len),
    ensures
        search.expected == start_offset + 352_800,
        search.low <= offset < search.high <==> 0 <= offset < captured_len && search.expected
            - 24_000 <= offset < search.expected + 24_000,
{
    assert(TONE_COUNT * (TONE_SAMPLES + GAP_SAMPLES) == 307_200);
}

/// The stretch that segment `k` lies in, in a capture in which the signal starts
/// at an offset.
spec fn stretch_of(start_offset: nat, k: int) -> Measured {
    let segment = segment_at(k);
    Measured {
        segment,
        start: (start_offset + segment.start_sample) as usize,
        end: (start_offset + segment.start_sample + segment.len_samples) as usize,
    }
}

#[verifier::spinoff_prover]
proof fn segments_come_in_order(j: int, k: int)
    requires
        0 <= j < k < TONE_COUNT + 3,
    ensures
        segment_at(j).start_sample + segment_at(j).len_samples <= segment_at(k).start_sample,
    decreases k - j,
{
    segments_follow_each_other(j);
    if j + 1 < k {
        segments_come_in_order(j + 1, k);
    }
}

#[verifier::spinoff_prover]
proof fn segments_lie_in_the_signal(k: int)
    requires
        0 <= k < TONE_COUNT + 3,
    ensures
        segment_at(k).start_sample + segment_at(k).len_samples <= closing_marker_start()
            + MARKER_SAMPLES,
{
    segments_follow_each_other(0);
    if k < TONE_COUNT + 2 {
        segments_come_in_order(k, TONE_COUNT + 2);
    }
}

/// Which segments are measured, in what order.
proof fn segments_measured(start_offset: nat, captured_len: nat, n: nat) -> (places: Seq<int>)
    ensures
        measured_among(start_offset, captured_len, n) == places.map_values(
            |k: int| stretch_of(start_offset, k),
        ),
        forall|i: int, j: int| 0 <= i < j < places.len() ==> places[i] < places[j],
        forall|j: int|
            0 <= j < places.len() ==> 0 <= #[trigger] places[j] < n && start_offset + segment_at(
                places[j],
            ).start_sample + segment_at(places[j]).len_samples <= captured_len,
        forall|k: int|
            0 <= k < n && start_offset + (#[trigger] segment_at(k)).start_sample + segment_at(
                k,
            ).len_samples <= captured_len ==> places.contains(k),
    decreases n,
{
    if n == 0 {
        let places = Seq::<int>::empty();
        assert(measured_among(start_offset, captured_len, n) == places.map_values(
            |k: int| stretch_of(start_offset, k),
        ));
        places
    } else {
        let before = segments_measured(start_offset, captured_len, (n - 1) as nat);
        let segment = segment_at(n - 1);
        if start_offset + segment.start_sample + segment.len_samples > captured_len {
            before
        } else {
            let places = before.push(n - 1);
            assert(measured_among(start_offset, captured_len, n) == places.map_values(
                |k: int| stretch_of(start_offset, k),
            ));
            assert forall|k: int|
                0 <= k < n && start_offset + (#[trigger] segment_at(k)).start_sample + segment_at(
                    k,
                ).len_samples <= captured_len implies places.contains(k) by {
                if k < n - 1 {
                    let j = choose|j: int| 0 <= j < before.len() && before[j] == k;
                    assert(places[j] == k);
                } else {
                    assert(places[places.len() - 1] == k);
                }
            }
            places
        }
    }
}

/// Every segment of the signal that the capture holds whole is measured, in the
/// stretch where it lies, and no other is; the stretches come in the order of
/// the segments.
#[verifier::spinoff_prover]
pub proof fn whole_segments_are_measured(start_offset: nat, captured_len: nat, n: nat)
    requires
        n <= TONE_COUNT + 3,
        start_offset + closing_marker_start() + MARKER_SAMPLES <= usize::MAX,
    ensures
        ({
            let rows = measured_among(start_offset, captured_len, n);
            &&& forall|k: int|
                0 <= k < n && start_offset + (#[trigger] segment_at(k)).start_sample + segment_at(
                    k,
                ).len_samples <= captured_len ==> exists|j: int|
                    0 <= j < rows.len() && (#[trigger] rows[j]).segment == segment_at(k)
            &&& forall|j: int|
                0 <= j < rows.len() ==> {
                    let m = #[trigger] rows[j];
                    &&& exists|k: int| 0 <= k < n && m.segment == #[trigger] segment_at(k)
                    &&& m.start == start_offset + m.segment.start_sample
                    &&& m.end == m.start + m.segment.len_samples
                    &&& m.end <= captured_len
                }
            &&& forall|i: int, j: int|
                0 <= i < j < rows.len() ==> (#[trigger] rows[i]).end <= (#[trigger] rows[j]).start
        }),
{
    let rows = measured_among(start_offset, captured_len, n);
    let places = segments_measured(start_offset, captured_len, n);
    assert(rows.len() == places.len());
    assert forall|j: int| 0 <= j < rows.len() implies #[trigger] rows[j] == stretch_of(
        start_offset,
        places[j],
    ) by {}
    assert forall|k: int|
        0 <= k < n && start_offset + (#[trigger] segment_at(k)).start_sample + segment_at(
            k,
        ).len_samples <= captured_len implies exists|j: int|
        0 <= j < rows.len() && (#[trigger] rows[j]).segment == segment_at(k) by {
        let j = choose|j: int| 0 <= j < places.len() && places[j] == k;
        assert(rows[j].segment == segment_at(k));
    }
    assert forall|j: int| 0 <= j < rows.len() implies {
        let m = #[trigger] rows[j];
        &&& exists|k: int| 0 <= k < n && m.segment == #[trigger] segment_at(k)
        &&& m.start == start_offset + m.segment.start_sample
        &&& m.end == m.start + m.segment.len_samples
        &&& m.end <= captured_len
    } by {
        segments_lie_in_the_signal(places[j]);
        assert(rows[j].segment == segment_at(places[j]));
    }
    assert forall|i: int, j: int| 0 <= i < j < rows.len() implies (#[trigger] rows[i]).end <= (
    #[trigger] rows[j]).start by {
        segments_come_in_order(places[i], places[j]);
        segments_lie_in_the_signal(places[i]);
        segments_lie_in_the_signal(places[j]);
    }
}

/// The tones are taken sample for sample.
pub proof fn tones_are_taken_sample_for_sample<S>(tones: Seq<Vec<S>>, i: int)
    requires
        0 <= i < tones.len(),
    ensures
        tone_values(tones).len() == tones.len(),
        tone_values(tones)[i] == tones[i]@,
{
}

} // verus!
