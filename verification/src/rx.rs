//! What has been captured from the input device. A capture is only ever read:
//! nothing here leads back out to an output device.

use vstd::prelude::*;

verus! {

/// The captured samples, at the device's native rate. `S` is a sample.
pub struct Capture<S> {
    pub samples: Vec<S>,
    pub device_rate: u32,
}

fn copied<S: Copy>(samples: &Vec<S>, from: usize, to: usize) -> (copy: Vec<S>)
    requires
        from <= to <= samples@.len(),
    ensures
        copy@ == samples@.subrange(from as int, to as int),
{
    let mut copy: Vec<S> = Vec::new();
    for i in from..to
        invariant
            from <= to <= samples@.len(),
            copy@ == samples@.subrange(from as int, i as int),
    {
        copy.push(samples[i]);
        assert(copy@ == samples@.subrange(from as int, i + 1));
    }
    copy
}

/// The last `n` of a row, or all of it where there are fewer.
pub open spec fn last_of<S>(samples: Seq<S>, n: nat) -> Seq<S> {
    if n < samples.len() {
        samples.skip(samples.len() - n)
    } else {
        samples
    }
}

/// A stretch of a row, cut to what there is: the end to the row's length, the
/// start to the end.
pub open spec fn stretch<S>(samples: Seq<S>, start: nat, end: nat) -> Seq<S> {
    let to = if end < samples.len() {
        end
    } else {
        samples.len()
    };
    let from = if start < to {
        start
    } else {
        to
    };
    samples.subrange(from as int, to as int)
}

impl<S: Copy> Capture<S> {
    pub fn new(device_rate: u32) -> (capture: Self)
        ensures
            capture.samples@ == Seq::<S>::empty(),
            capture.device_rate == device_rate,
    {
        Capture { samples: Vec::new(), device_rate }
    }

    /// Takes in what the device delivered, one sample per frame.
    pub fn append(&mut self, mixed: &Vec<S>)
        ensures
            final(self).samples@ == old(self).samples@ + mixed@,
            final(self).device_rate == old(self).device_rate,
    {
        let ghost before = self.samples@;
        for i in 0..mixed.len()
            invariant
                self.device_rate == old(self).device_rate,
                self.samples@ == before + mixed@.take(i as int),
        {
            self.samples.push(mixed[i]);
            assert(self.samples@ == before + mixed@.take(i + 1));
        }
        assert(mixed@.take(mixed@.len() as int) == mixed@);
    }

    pub fn samples_captured(&self) -> (n: usize)
        ensures
            n == self.samples@.len(),
    {
        self.samples.len()
    }

    /// Everything captured so far.
    pub fn snapshot(&self) -> (copy: Vec<S>)
        ensures
            copy@ == self.samples@,
    {
        let copy = copied(&self.samples, 0, self.samples.len());
        assert(copy@ == self.samples@);
        copy
    }

    /// Just the last `n` samples, or fewer if less has been captured.
    pub fn tail(&self, n: usize) -> (copy: Vec<S>)
        ensures
            copy@ == last_of(self.samples@, n as nat),
    {
        let len: usize = self.samples.len();
        let start: usize = if n < len {
            len - n
        } else {
            0
        };
        let copy = copied(&self.samples, start, len);
        assert(copy@ == last_of(self.samples@, n as nat));
        copy
    }
}

/// The samples of a segment, as far as the snapshot has them.
pub fn segment_of<S: Copy>(snapshot: &Vec<S>, start_idx: usize, end_idx: usize) -> (segment: Vec<S>)
    ensures
        segment@ == stretch(snapshot@, start_idx as nat, end_idx as nat),
{
    let to: usize = if end_idx < snapshot.len() {
        end_idx
    } else {
        snapshot.len()
    };
    let from: usize = if start_idx < to {
        start_idx
    } else {
        to
    };
    copied(snapshot, from, to)
}

/// A frame of so many channels out of what the device delivered, the last one
/// perhaps short.
#[derive(Clone, Copy, Debug, PartialEq, Eq, Structural)]
pub struct Frame {
    pub start: usize,
    pub end: usize,
}

/// How many values make a frame: at least one.
pub open spec fn frame_width(channels: usize) -> nat {
    if channels >= 1 {
        channels as nat
    } else {
        1
    }
}

/// The frames that `len` delivered values make.
pub fn frames(len: usize, channels: usize) -> (rows: Vec<Frame>)
    ensures
        rows@.len() == (len + frame_width(channels) - 1) / frame_width(channels) as int,
        forall|i: int|
            0 <= i < rows@.len() ==> {
                &&& (#[trigger] rows@[i]).start == i * frame_width(channels)
                &&& rows@[i].end == (if (i + 1) * frame_width(channels) < len {
                    (i + 1) * frame_width(channels)
                } else {
                    len as int
                })
                &&& rows@[i].start < rows@[i].end
            },
{
    let width: usize = if channels >= 1 {
        channels
    } else {
        1
    };
    let mut rows: Vec<Frame> = Vec::new();
    let mut start: usize = 0;
    assert(0 * width == 0) by (nonlinear_arith);
    assert(rows@.len() == 0);
    while start < len
        invariant
            width == frame_width(channels),
            width >= 1,
            start <= len,
            rows@.len() * width >= start,
            start < len ==> start == rows@.len() * width,
            rows@.len() > 0 ==> (rows@.len() - 1) * width < len,
            forall|i: int|
                0 <= i < rows@.len() ==> {
                    &&& (#[trigger] rows@[i]).start == i * width
                    &&& rows@[i].end == (if (i + 1) * width < len {
                        (i + 1) * width
                    } else {
                        len as int
                    })
                    &&& rows@[i].start < rows@[i].end
                },
        decreases len - start,
    {
        let end: usize = if width < len - start {
            start + width
        } else {
            len
        };
        assert((rows@.len() + 1) * width == rows@.len() * width + width) by (nonlinear_arith);
        rows.push(Frame { start, end });
        start = end;
    }
    proof {
        let n = rows@.len() as int;
        let w = width as int;
        assert(n == (len + w - 1) / w) by (nonlinear_arith)
            requires
                w >= 1,
                n >= 0,
                n * w >= len,
                n > 0 ==> (n - 1) * w < len,
                len >= 0,
        ;
    }
    rows
}

// ---------------------------------------------------------------------
// Laws
// ---------------------------------------------------------------------

/// The tail of a capture is as long as was asked for, or as there is, and
/// stands at its end.
pub proof fn the_tail_stands_at_the_end<S>(samples: Seq<S>, n: nat)
    ensures
        n <= samples.len() ==> last_of(samples, n).len() == n,
        n > samples.len() ==> last_of(samples, n) == samples,
        exists|front: Seq<S>| samples == #[trigger] (front + last_of(samples, n)),
{
    let tail = last_of(samples, n);
    let front = samples.take(samples.len() - tail.len());
    assert(samples == front + tail);
}

/// A segment holds the samples between its bounds, one for one, and is cut to
/// what there is: bounds past the end stand for the end.
pub proof fn a_segment_holds_what_lies_between<S>(
    before: Seq<S>,
    between: Seq<S>,
    after: Seq<S>,
    more: nat,
)
    ensures
        stretch(before + between + after, before.len(), before.len() + between.len()) == between,
        stretch(before + between, before.len(), before.len() + between.len() + more) == between,
        stretch(before, before.len() + more, before.len() + more + between.len()) == Seq::<
            S,
        >::empty(),
        stretch(before, more, 0) == Seq::<S>::empty(),
{
    assert(stretch(before + between + after, before.len(), before.len() + between.len())
        == between);
    assert(stretch(before + between, before.len(), before.len() + between.len() + more) == between);
}

/// A frame has one value for each channel, and one where there is none.
pub proof fn a_frame_has_one_value_for_each_channel(channels: usize)
    ensures
        channels >= 1 ==> frame_width(channels) == channels,
        channels == 0 ==> frame_width(channels) == 1,
{
}

} // verus!
