//! The layout of the waterfall: frequency across, time scrolling down. Which
//! stretches of the audio become rows, how many rows are kept and where each
//! of their cells goes in the picture.

use std::collections::VecDeque;
use vstd::prelude::*;

verus! {

/// How many samples a row is transformed from: at 48 kHz about 23 Hz per bin.
pub const FFT_SIZE: usize = 2048;

/// How many cells a row has.
pub const NUM_BINS: usize = 480;

/// How many rows the application keeps.
pub const MAX_ROWS: usize = 560;

/// How many rows the channel probe keeps.
pub const PROBE_MAX_ROWS: usize = 400;

/// How many samples the next row advances by.
pub const HOP: usize = 200;

/// The least that is worth a row.
pub const LEAST_SAMPLES: usize = 512;

/// How much recent audio to feed at a time. The overlap with the feed before
/// is intentional: it is cheap, and guarantees that there are no gaps.
pub const FEED_WINDOW_SAMPLES: usize = 3248;

/// How often to feed, in nanoseconds.
pub const FEED_INTERVAL_NS: u64 = 15_000_000;

// ---------------------------------------------------------------------
// Which samples make a row
// ---------------------------------------------------------------------

/// A stretch of samples.
#[derive(Clone, Copy, Debug, PartialEq, Eq, Structural)]
pub struct RowWindow {
    pub start: usize,
    pub end: usize,
}

pub open spec fn smaller(a: int, b: int) -> int {
    if a < b {
        a
    } else {
        b
    }
}

/// How many rows so many samples make: one for the first window, one for each
/// hop from there to the end.
pub open spec fn row_count(len: nat, sample_rate: u32) -> nat {
    if len < LEAST_SAMPLES || sample_rate == 0 {
        0
    } else if len <= FFT_SIZE {
        1
    } else {
        1 + ((len - FFT_SIZE + HOP - 1) / HOP as int) as nat
    }
}

/// Where row `k` ends: a window and `k` hops in, but not beyond the samples.
pub open spec fn row_end(len: nat, k: int) -> int {
    smaller(FFT_SIZE + HOP * k, len as int)
}

/// Where row `k` starts: a window before its end.
pub open spec fn row_start(len: nat, k: int) -> int {
    let end = row_end(len, k);
    if end >= FFT_SIZE {
        end - FFT_SIZE
    } else {
        0
    }
}

/// The stretches of the samples that become rows, the oldest first.
pub fn row_windows(len: usize, sample_rate: u32) -> (rows: Vec<RowWindow>)
    ensures
        rows@.len() == row_count(len as nat, sample_rate),
        forall|k: int|
            0 <= k < rows@.len() ==> {
                &&& (#[trigger] rows@[k]).start == row_start(len as nat, k)
                &&& rows@[k].end == row_end(len as nat, k)
            },
{
    let mut rows: Vec<RowWindow> = Vec::new();
    if len < LEAST_SAMPLES || sample_rate == 0 {
        return rows;
    }
    let mut pos: usize = if FFT_SIZE < len {
        FFT_SIZE
    } else {
        len
    };
    loop
        invariant
            len >= LEAST_SAMPLES,
            sample_rate > 0,
            pos == row_end(len as nat, rows@.len() as int),
            pos <= len,
            rows@.len() > 0 ==> FFT_SIZE + HOP * (rows@.len() - 1) < len,
            forall|k: int|
                0 <= k < rows@.len() ==> {
                    &&& (#[trigger] rows@[k]).start == row_start(len as nat, k)
                    &&& rows@[k].end == row_end(len as nat, k)
                },
        decreases len + HOP - FFT_SIZE - HOP * rows@.len(),
    {
        let start: usize = if pos >= FFT_SIZE {
            pos - FFT_SIZE
        } else {
            0
        };
        rows.push(RowWindow { start, end: pos });
        if pos >= len {
            return rows;
        }
        pos = if HOP < len - pos {
            pos + HOP
        } else {
            len
        };
    }
}

/// Every sample of a feed is in some row, and the last row ends where the feed
/// does.
pub proof fn rows_leave_no_gap(len: nat, sample_rate: u32, i: int)
    requires
        len >= LEAST_SAMPLES,
        sample_rate > 0,
        0 <= i < len,
    ensures
        exists|k: int|
            0 <= k < row_count(len, sample_rate) && row_start(len, k) <= i < #[trigger] row_end(
                len,
                k,
            ),
        row_end(len, row_count(len, sample_rate) - 1) == len,
{
    let n = row_count(len, sample_rate);
    if i < FFT_SIZE {
        assert(row_start(len, 0) <= i < row_end(len, 0));
    } else {
        let k = (i - FFT_SIZE) / 200 + 1;
        assert(k < n);
        assert(row_start(len, k) <= i < row_end(len, k));
    }
}

// ---------------------------------------------------------------------
// What a row is transformed from
// ---------------------------------------------------------------------

/// The last samples of a stretch, filled up with silence in front.
pub open spec fn padded_front<S>(samples: Seq<S>, silence: S) -> Seq<S> {
    Seq::new(
        FFT_SIZE as nat,
        |i: int|
            if i + samples.len() >= FFT_SIZE {
                samples[i + samples.len() - FFT_SIZE]
            } else {
                silence
            },
    )
}

/// Fills the input of a transform.
pub fn transform_input<S: Copy>(samples: &[S], silence: S) -> (input: Vec<S>)
    ensures
        input@ == padded_front(samples@, silence),
{
    let n: usize = samples.len();
    let mut input: Vec<S> = Vec::new();
    for i in 0..FFT_SIZE
        invariant
            n == samples@.len(),
            input@ == padded_front(samples@, silence).take(i as int),
    {
        if FFT_SIZE - i <= n {
            input.push(samples[n - (FFT_SIZE - i)]);
        } else {
            input.push(silence);
        }
        assert(input@ == padded_front(samples@, silence).take(i + 1));
    }
    assert(padded_front(samples@, silence).take(FFT_SIZE as int) == padded_front(samples@, silence));
    input
}

// ---------------------------------------------------------------------
// The rows that are kept
// ---------------------------------------------------------------------

/// The most recent rows, the newest first. `C` is what a cell shows.
pub struct Rows<C> {
    pub rows: VecDeque<Vec<C>>,
    pub most: usize,
}

impl<C: Copy> Rows<C> {
    pub open spec fn wf(&self) -> bool {
        &&& self.rows@.len() <= self.most
        &&& self.most * NUM_BINS <= usize::MAX
        &&& forall|y: int|
            0 <= y < self.rows@.len() ==> (#[trigger] self.rows@[y])@.len() == NUM_BINS
    }

    pub fn new(most: usize) -> (rows: Self)
        requires
            most * NUM_BINS <= usize::MAX,
        ensures
            rows.wf(),
            rows.rows@ == Seq::<Vec<C>>::empty(),
            rows.most == most,
    {
        Rows { rows: VecDeque::new(), most }
    }

    /// Puts a new row on top and lets go of what no longer fits.
    pub fn push(&mut self, row: Vec<C>)
        requires
            old(self).wf(),
            row@.len() == NUM_BINS,
        ensures
            final(self).wf(),
            final(self).most == old(self).most,
            final(self).rows@ == (seq![row] + old(self).rows@).take(
                smaller((old(self).rows@.len() + 1) as int, old(self).most as int),
            ),
    {
        let ghost all = seq![row] + self.rows@;
        self.rows.push_front(row);
        assert(all.take(all.len() as int) == all);
        while self.rows.len() > self.most
            invariant
                self.most == old(self).most,
                self.rows@.len() <= all.len(),
                self.rows@ == all.take(self.rows@.len() as int),
                self.rows@.len() < all.len() ==> self.rows@.len() >= self.most,
            decreases self.rows@.len(),
        {
            let ghost n = self.rows@.len();
            self.rows.pop_back();
            assert(self.rows@ == all.take(n - 1));
        }
    }

    /// The picture, row by row: cells that nothing has been drawn in show the
    /// background.
    pub fn render(&self, background: C) -> (cells: Vec<C>)
        requires
            self.wf(),
        ensures
            cells@.len() == self.most * NUM_BINS,
            forall|y: int, x: int|
                0 <= y < self.most && 0 <= x < NUM_BINS ==> #[trigger] cells@[y * NUM_BINS + x] == (
                if y < self.rows@.len() {
                    self.rows@[y]@[x]
                } else {
                    background
                }),
    {
        let mut cells: Vec<C> = Vec::new();
        for y in 0..self.most
            invariant
                self.wf(),
                cells@.len() == y * NUM_BINS,
                forall|v: int, x: int|
                    0 <= v < y && 0 <= x < NUM_BINS ==> #[trigger] cells@[v * NUM_BINS + x] == (
                    if v < self.rows@.len() {
                        self.rows@[v]@[x]
                    } else {
                        background
                    }),
        {
            for x in 0..NUM_BINS
                invariant
                    self.wf(),
                    y < self.most,
                    cells@.len() == y * NUM_BINS + x,
                    forall|v: int, u: int|
                        0 <= v < y && 0 <= u < NUM_BINS ==> #[trigger] cells@[v * NUM_BINS + u] == (
                        if v < self.rows@.len() {
                            self.rows@[v]@[u]
                        } else {
                            background
                        }),
                    forall|u: int|
                        0 <= u < x ==> #[trigger] cells@[y * NUM_BINS + u] == (if y
                            < self.rows@.len() {
                            self.rows@[y as int]@[u]
                        } else {
                            background
                        }),
            {
                if y < self.rows.len() {
                    cells.push(self.rows[y][x]);
                } else {
                    cells.push(background);
                }
            }
        }
        cells
    }
}

/// Once there are as many rows as are kept, a new one replaces the oldest:
/// the newest comes first, and every other moves down by one.
pub proof fn a_full_waterfall_scrolls<C>(before: Seq<Vec<C>>, row: Vec<C>, most: nat)
    requires
        before.len() == most,
        most > 0,
    ensures
        (seq![row] + before).take(smaller((before.len() + 1) as int, most as int)) == seq![row]
            + before.drop_last(),
{
    assert((seq![row] + before).take(most as int) == seq![row] + before.drop_last());
}

// ---------------------------------------------------------------------
// The window
// ---------------------------------------------------------------------

/// Whether the waterfall is shown, and when it was last fed, in nanoseconds.
pub struct WaterfallWindow {
    pub open: bool,
    pub last_feed: u64,
}

impl WaterfallWindow {
    pub fn new(now: u64) -> (window: Self)
        ensures
            !window.open,
            window.last_feed == now,
    {
        WaterfallWindow { open: false, last_feed: now }
    }

    pub fn toggle(&mut self)
        ensures
            final(self).open == !old(self).open,
            final(self).last_feed == old(self).last_feed,
    {
        self.open = !self.open;
    }

    pub fn close(&mut self)
        ensures
            !final(self).open,
            final(self).last_feed == old(self).last_feed,
    {
        self.open = false;
    }

    /// Whether it is shown and it is time to feed it again.
    pub fn wants_feed(&self, now: u64) -> (yes: bool)
        ensures
            yes == (self.open && now - self.last_feed >= 15_000_000),
    {
        self.open && now >= self.last_feed && now - self.last_feed >= FEED_INTERVAL_NS
    }

    /// It has been fed, and which stretches of the feed become rows.
    pub fn feed(&mut self, len: usize, sample_rate: u32, now: u64) -> (rows: Vec<RowWindow>)
        ensures
            final(self).open == old(self).open,
            final(self).last_feed == now,
            rows@.len() == row_count(len as nat, sample_rate),
            forall|k: int|
                0 <= k < rows@.len() ==> {
                    &&& (#[trigger] rows@[k]).start == row_start(len as nat, k)
                    &&& rows@[k].end == row_end(len as nat, k)
                },
    {
        self.last_feed = now;
        row_windows(len, sample_rate)
    }
}

// ---------------------------------------------------------------------
// Laws
// ---------------------------------------------------------------------

/// Fewer than 512 samples make no row, and none do without a rate. Else the
/// first row ends with the first 2048 samples, or with all there are; every
/// next one ends 200 samples later, or with the last sample; and there is no
/// row behind the one that ends there. Every row is 2048 samples long, unless
/// there are fewer.
pub proof fn rows_advance_by_hops(len: nat, sample_rate: u32, k: int)
    requires
        0 <= k < row_count(len, sample_rate),
    ensures
        len >= 512,
        sample_rate > 0,
        row_end(len, 0) == 2048 || (len < 2048 && row_end(len, 0) == len),
        k + 1 < row_count(len, sample_rate) ==> {
            &&& row_end(len, k) < len
            &&& row_end(len, k + 1) == row_end(len, k) + 200 || (row_end(len, k + 1) == len
                && len < row_end(len, k) + 200)
        },
        k + 1 == row_count(len, sample_rate) ==> row_end(len, k) == len,
        row_end(len, k) - row_start(len, k) == 2048 || (len < 2048 && row_start(len, k) == 0),
{
}

/// Where rows are owed they come.
pub proof fn enough_samples_make_rows(len: nat, sample_rate: u32)
    ensures
        row_count(len, sample_rate) > 0 <==> len >= 512 && sample_rate > 0,
{
}

/// A transform takes in 2048 samples: the last of the stretch in their order,
/// behind as much silence as is missing.
pub proof fn a_transform_takes_the_last_samples<S>(samples: Seq<S>, silence: S)
    ensures
        padded_front(samples, silence).len() == 2048,
        samples.len() >= 2048 ==> padded_front(samples, silence) == samples.skip(
            samples.len() - 2048,
        ),
        samples.len() < 2048 ==> padded_front(samples, silence) == Seq::new(
            (2048 - samples.len()) as nat,
            |i: int| silence,
        ) + samples,
{
    let all = padded_front(samples, silence);
    if samples.len() >= 2048 {
        assert(all == samples.skip(samples.len() - 2048));
    } else {
        assert(all == Seq::new((2048 - samples.len()) as nat, |i: int| silence) + samples);
    }
}

/// A new row stands on top of the others, which keep their order, and only the
/// oldest ones that there is no room for are let go.
pub proof fn a_new_row_stands_on_top<C>(before: Seq<Vec<C>>, row: Vec<C>, most: nat)
    requires
        before.len() <= most,
        most > 0,
    ensures
        ({
            let after = (seq![row] + before).take(
                smaller((before.len() + 1) as int, most as int),
            );
            &&& after.len() == before.len() + 1 || (before.len() == most && after.len() == most)
            &&& after[0] == row
            &&& forall|y: int| 0 < y < after.len() ==> #[trigger] after[y] == before[y - 1]
        }),
{
}

} // verus!
