//! Playing a transmission out: which sample goes into which output frame, how
//! far playback is, and when it is over. There is deliberately no gain or
//! volume anywhere.

use vstd::prelude::*;

verus! {

/// A transmission being played. `S` is a sample.
pub struct Playback<S> {
    pub data: Vec<S>,
    /// How many output frames have been asked for.
    pub cursor: usize,
    /// How many of the samples have been handed out.
    pub played: usize,
}

impl<S: Copy> Playback<S> {
    pub open spec fn wf(&self) -> bool {
        self.played <= self.data@.len()
    }

    pub fn new(data: Vec<S>) -> (playback: Self)
        ensures
            playback.wf(),
            playback.data == data,
            playback.cursor == 0,
            playback.played == 0,
    {
        Playback { data, cursor: 0, played: 0 }
    }

    /// The sample for the next output frame, silence once the samples have
    /// run out. Every channel of the frame gets it.
    pub fn next_sample(&mut self, silence: S) -> (sample: S)
        requires
            old(self).wf(),
        ensures
            final(self).wf(),
            final(self).data == old(self).data,
            final(self).cursor == old(self).cursor.wrapping_add(1),
            sample == (if old(self).cursor < old(self).data@.len() {
                old(self).data@[old(self).cursor as int]
            } else {
                silence
            }),
            final(self).played == (if old(self).cursor < old(self).data@.len() {
                (old(self).cursor + 1) as usize
            } else {
                old(self).played
            }),
    {
        let idx: usize = self.cursor;
        self.cursor = idx.wrapping_add(1);
        if idx < self.data.len() {
            self.played = idx + 1;
            self.data[idx]
        } else {
            silence
        }
    }
}

/// How many samples have been played, no more than there are.
pub fn samples_played(played: usize, total_samples: usize) -> (n: usize)
    ensures
        n == (if played < total_samples {
            played
        } else {
            total_samples
        }),
{
    if played < total_samples {
        played
    } else {
        total_samples
    }
}

/// How far playback is: so many samples out of so many. Without any samples it
/// is all the way there.
pub fn progress(played: usize, total_samples: usize) -> (fraction: (usize, usize))
    ensures
        fraction == (if total_samples == 0 {
            (1, 1)
        } else if played < total_samples {
            (played, total_samples)
        } else {
            (total_samples, total_samples)
        }),
        0 <= fraction.0 <= fraction.1,
        fraction.1 > 0,
{
    if total_samples == 0 {
        (1, 1)
    } else {
        (samples_played(played, total_samples), total_samples)
    }
}

/// Whether playback is over: it was cancelled, or every sample has been asked
/// for.
pub fn is_over(cancelled: bool, cursor: usize, total_samples: usize) -> (over: bool)
    ensures
        over == (cancelled || cursor >= total_samples),
{
    cancelled || cursor >= total_samples
}

/// The samples of the next `frames` output frames.
pub open spec fn frames_from<S>(data: Seq<S>, cursor: nat, frames: nat, silence: S) -> Seq<S> {
    Seq::new(
        frames,
        |i: int|
            if cursor + i < data.len() {
                data[cursor + i]
            } else {
                silence
            },
    )
}

/// Fills the next output frames, one sample each.
pub fn fill_frames<S: Copy>(playback: &mut Playback<S>, frames: usize, silence: S) -> (samples: Vec<
    S,
>)
    requires
        old(playback).wf(),
        old(playback).cursor + frames <= usize::MAX,
    ensures
        final(playback).wf(),
        final(playback).data == old(playback).data,
        final(playback).cursor == old(playback).cursor + frames,
        samples@ == frames_from(
            old(playback).data@,
            old(playback).cursor as nat,
            frames as nat,
            silence,
        ),
        final(playback).played == (if old(playback).cursor >= old(playback).data@.len() || frames
            == 0 {
            old(playback).played as int
        } else if old(playback).cursor + frames < old(playback).data@.len() {
            old(playback).cursor + frames
        } else {
            old(playback).data@.len() as int
        }),
{
    let mut samples: Vec<S> = Vec::new();
    let ghost start = playback.cursor;
    let ghost all = frames_from(playback.data@, start as nat, frames as nat, silence);
    for i in 0..frames
        invariant
            playback.wf(),
            playback.data == old(playback).data,
            start == old(playback).cursor,
            start + frames <= usize::MAX,
            playback.cursor == start + i,
            playback.played == (if start >= playback.data@.len() || i == 0 {
                old(playback).played as int
            } else if start + i < playback.data@.len() {
                start + i
            } else {
                playback.data@.len() as int
            }),
            all == frames_from(playback.data@, start as nat, frames as nat, silence),
            samples@ == all.take(i as int),
    {
        let sample = playback.next_sample(silence);
        samples.push(sample);
        assert(samples@ == all.take(i + 1));
    }
    assert(all.take(frames as int) == all);
    samples
}

/// Played to its end, a transmission has gone out whole and unchanged.
pub proof fn everything_is_played_unchanged<S>(data: Seq<S>, silence: S)
    ensures
        frames_from(data, 0, data.len(), silence) == data,
{
    assert(frames_from(data, 0, data.len(), silence) == data);
}

/// It does not matter in how many goes a transmission is played: some frames
/// and then some more are as many frames at once. A frame holds the sample that
/// is due, and behind the last one there is silence.
pub proof fn playing_goes_on_where_it_stopped<S>(
    data: Seq<S>,
    cursor: nat,
    frames: nat,
    more: nat,
    silence: S,
)
    ensures
        frames_from(data, cursor, frames, silence) + frames_from(
            data,
            cursor + frames,
            more,
            silence,
        ) == frames_from(data, cursor, frames + more, silence),
        cursor < data.len() ==> frames_from(data, cursor, 1, silence) == seq![data[cursor as int]],
        cursor >= data.len() ==> frames_from(data, cursor, 1, silence) == seq![silence],
{
    assert(frames_from(data, cursor, frames, silence) + frames_from(
        data,
        cursor + frames,
        more,
        silence,
    ) == frames_from(data, cursor, frames + more, silence));
    if cursor < data.len() {
        assert(frames_from(data, cursor, 1, silence) == seq![data[cursor as int]]);
    } else {
        assert(frames_from(data, cursor, 1, silence) == seq![silence]);
    }
}

} // verus!
