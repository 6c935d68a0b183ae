//! WAV files as bytes: what a file holds, the file that holds a row of 16-bit
//! samples, and the 16-bit sample that a level is written as. Reading and
//! writing the bytes themselves, and mixing channels, happen outside.

use vstd::arithmetic::power2::{lemma_pow2_strictly_increases, pow2};
use vstd::prelude::*;
use crate::bytes::{as_signed_16, as_signed_32, as_unsigned_16, push_u16, push_u32, read_u16, read_u32};
use crate::bytes::{signed_16, signed_32, u16_at, u16_bytes, u32_at, u32_bytes, unsigned_16};
use crate::bytes::{u16_round_trip, u32_round_trip};
use crate::single::{power_of_two, rounding_is_fine, single_of, to_single};

verus! {

/// What the format chunk of a WAV file says of its samples.
#[derive(Clone, Copy, Debug, PartialEq, Eq, Structural)]
pub struct WavFormat {
    pub audio_format: u16,
    pub channels: u16,
    pub sample_rate: u32,
    pub bits_per_sample: u16,
}

/// Why a buffer holds no WAV audio.
#[derive(Clone, Copy, Debug, PartialEq, Eq, Structural)]
pub enum WavError {
    NotRiffWave,
    NoDataChunk,
}

impl WavError {
    pub fn message(&self) -> (text: &'static str)
        ensures
            text@ == (match *self {
                WavError::NotRiffWave => "not a valid RIFF/WAVE file"@,
                WavError::NoDataChunk => "no data chunk found in WAV"@,
            }),
    {
        match self {
            WavError::NotRiffWave => "not a valid RIFF/WAVE file",
            WavError::NoDataChunk => "no data chunk found in WAV",
        }
    }
}

/// One sample as the file holds it: the bits of a single-precision number, or
/// a whole number between minus `full_scale` and `full_scale`. A sample in an
/// encoding that is not supported counts as silence.
#[derive(Clone, Copy, Debug, PartialEq, Eq, Structural)]
pub enum RawSample {
    Float { bits: u32 },
    Pcm { value: i32, full_scale: u32 },
    Silence,
}

/// The audio of a WAV file: the samples of all channels, frame after frame.
#[derive(Debug)]
pub struct WavAudio {
    pub sample_rate: u32,
    pub channels: usize,
    pub samples: Vec<RawSample>,
}

// ---------------------------------------------------------------------
// Chunks
// ---------------------------------------------------------------------

/// One chunk of a file: its four-byte name and its body, which the end of
/// the file may cut short.
pub struct Chunk {
    pub id: Seq<u8>,
    pub body: Seq<u8>,
}

/// The chunks from position `pos` on. A chunk starts at an even distance
/// from the body before it.
pub open spec fn chunks(buf: Seq<u8>, pos: int) -> Seq<Chunk>
    decreases
            (if pos < buf.len() {
                buf.len() - pos
            } else {
                0
            }),
{
    if pos + 8 <= buf.len() {
        let len = u32_at(buf, pos + 4) as int;
        let start = pos + 8;
        let end = if start + len <= buf.len() {
            start + len
        } else {
            buf.len() as int
        };
        seq![Chunk { id: buf.subrange(pos, pos + 4), body: buf.subrange(start, end) }] + chunks(
            buf,
            start + len + len % 2,
        )
    } else {
        Seq::empty()
    }
}

pub open spec fn riff_id() -> Seq<u8> {
    seq![0x52u8, 0x49u8, 0x46u8, 0x46u8]
}

pub open spec fn wave_id() -> Seq<u8> {
    seq![0x57u8, 0x41u8, 0x56u8, 0x45u8]
}

pub open spec fn fmt_id() -> Seq<u8> {
    seq![0x66u8, 0x6Du8, 0x74u8, 0x20u8]
}

pub open spec fn data_id() -> Seq<u8> {
    seq![0x64u8, 0x61u8, 0x74u8, 0x61u8]
}

/// Whether a chunk describes the format.
pub open spec fn is_format(chunk: Chunk) -> bool {
    chunk.id == fmt_id() && chunk.body.len() >= 16
}

/// The format that a row of chunks leaves in force: the last one described.
pub open spec fn format_in(row: Seq<Chunk>) -> WavFormat
    decreases row.len(),
{
    if row.len() == 0 {
        WavFormat { audio_format: 0, channels: 1, sample_rate: 0, bits_per_sample: 16 }
    } else if is_format(row.last()) {
        let body = row.last().body;
        WavFormat {
            audio_format: u16_at(body, 0),
            channels: u16_at(body, 2),
            sample_rate: u32_at(body, 4),
            bits_per_sample: u16_at(body, 14),
        }
    } else {
        format_in(row.drop_last())
    }
}

/// The body of the last data chunk in a row.
pub open spec fn data_in(row: Seq<Chunk>) -> Option<Seq<u8>>
    decreases row.len(),
{
    if row.len() == 0 {
        None
    } else if row.last().id == data_id() {
        Some(row.last().body)
    } else {
        data_in(row.drop_last())
    }
}

/// Whether a buffer starts like a WAV file.
pub open spec fn is_riff_wave(buf: Seq<u8>) -> bool {
    buf.len() >= 12 && buf.subrange(0, 4) == riff_id() && buf.subrange(8, 12) == wave_id()
}

/// The format and the sample bytes of a WAV file.
pub open spec fn layout_of(buf: Seq<u8>) -> Result<(WavFormat, Seq<u8>), WavError> {
    if !is_riff_wave(buf) {
        Err(WavError::NotRiffWave)
    } else {
        match data_in(chunks(buf, 12)) {
            Some(data) => Ok((format_in(chunks(buf, 12)), data)),
            None => Err(WavError::NoDataChunk),
        }
    }
}

fn id_at(buf: &[u8], at: usize, a: u8, b: u8, c: u8, d: u8) -> (yes: bool)
    requires
        at + 4 <= buf@.len(),
    ensures
        yes == (buf@.subrange(at as int, at + 4) == seq![a, b, c, d]),
{
    let yes = buf[at] == a && buf[at + 1] == b && buf[at + 2] == c && buf[at + 3] == d;
    let ghost name = buf@.subrange(at as int, at + 4);
    assert(name[0] == buf@[at as int] && name[1] == buf@[at + 1] && name[2] == buf@[at + 2]
        && name[3] == buf@[at + 3]);
    if yes {
        assert(name == seq![a, b, c, d]);
    } else {
        assert(name[0] != a || name[1] != b || name[2] != c || name[3] != d);
        assert(seq![a, b, c, d][0] == a && seq![a, b, c, d][1] == b && seq![a, b, c, d][2] == c
            && seq![a, b, c, d][3] == d);
    }
    yes
}

proof fn one_more_chunk(row: Seq<Chunk>, chunk: Chunk)
    ensures
        row.push(chunk).drop_last() == row,
        row.push(chunk).last() == chunk,
{
}

/// Finds the format and the bounds of the sample bytes.
fn find_layout(buf: &[u8]) -> (r: Result<(WavFormat, usize, usize), WavError>)
    ensures
        match r {
            Ok((format, from, to)) => from <= to <= buf@.len() && layout_of(buf@) == Ok::<
                (WavFormat, Seq<u8>),
                WavError,
            >((format, buf@.subrange(from as int, to as int))),
            Err(e) => layout_of(buf@) == Err::<(WavFormat, Seq<u8>), WavError>(e),
        },
{
    let n: usize = buf.len();
    if n < 12 || !id_at(buf, 0, 0x52, 0x49, 0x46, 0x46) || !id_at(buf, 8, 0x57, 0x41, 0x56, 0x45) {
        return Err(WavError::NotRiffWave);
    }
    let mut pos: usize = 12;
    let mut format = WavFormat {
        audio_format: 0,
        channels: 1,
        sample_rate: 0,
        bits_per_sample: 16,
    };
    let mut data: Option<(usize, usize)> = None;
    let mut more = true;
    let ghost mut row: Seq<Chunk> = Seq::empty();
    assert(row + chunks(buf@, 12) == chunks(buf@, 12));
    while more && pos <= n && n - pos >= 8
        invariant
            n == buf@.len(),
            is_riff_wave(buf@),
            more ==> chunks(buf@, 12) == row + chunks(buf@, pos as int),
            !more ==> chunks(buf@, 12) == row,
            format == format_in(row),
            match data {
                Some((from, to)) => from <= to <= n && data_in(row) == Some(
                    buf@.subrange(from as int, to as int),
                ),
                None => data_in(row) is None,
            },
        decreases
                (if more && pos <= n {
                    n - pos + 1
                } else {
                    0
                }),
    {
        let len: usize = read_u32(buf, pos + 4) as usize;
        let start: usize = pos + 8;
        let cut = len > n - start;
        let end: usize = if cut {
            n
        } else {
            start + len
        };
        let ghost chunk = Chunk {
            id: buf@.subrange(pos as int, pos + 4),
            body: buf@.subrange(start as int, end as int),
        };
        let ghost next = start + len + len % 2;
        assert(chunks(buf@, pos as int) == seq![chunk] + chunks(buf@, next));
        assert(row + (seq![chunk] + chunks(buf@, next)) == row.push(chunk) + chunks(buf@, next));
        proof {
            one_more_chunk(row, chunk);
        }
        if id_at(buf, pos, 0x66, 0x6D, 0x74, 0x20) {
            if end - start >= 16 {
                format = WavFormat {
                    audio_format: read_u16(buf, start),
                    channels: read_u16(buf, start + 2),
                    sample_rate: read_u32(buf, start + 4),
                    bits_per_sample: read_u16(buf, start + 14),
                };
                assert(u16_at(chunk.body, 0) == u16_at(buf@, start as int));
                assert(u16_at(chunk.body, 2) == u16_at(buf@, start + 2));
                assert(u32_at(chunk.body, 4) == u32_at(buf@, start + 4));
                assert(u16_at(chunk.body, 14) == u16_at(buf@, start + 14));
            }
            assert(fmt_id()[0] != data_id()[0]);
            assert(chunk.id != data_id());
        } else if id_at(buf, pos, 0x64, 0x61, 0x74, 0x61) {
            data = Some((start, end));
        }
        proof {
            row = row.push(chunk);
        }
        // Past a chunk that the end of the file cuts, or that reaches it,
        // there is no room for another.
        if cut || end == n {
            more = false;
            assert(chunks(buf@, next) == Seq::<Chunk>::empty()) by {
                assert(next + 8 > n);
            }
            assert(row + Seq::<Chunk>::empty() == row);
        } else {
            pos = end + len % 2;
        }
    }
    proof {
        if more {
            assert(chunks(buf@, pos as int) == Seq::<Chunk>::empty());
            assert(row + Seq::<Chunk>::empty() == row);
        }
    }
    match data {
        Some((from, to)) => Ok((format, from, to)),
        None => Err(WavError::NoDataChunk),
    }
}

// ---------------------------------------------------------------------
// Samples
// ---------------------------------------------------------------------

/// How many bytes a sample of so many bits takes.
pub open spec fn sample_bytes(bits: u16) -> int {
    if bits / 8 >= 1 {
        (bits / 8) as int
    } else {
        1
    }
}

/// The sample that a row of bytes holds: 8-bit samples are unsigned around
/// 128, wider ones signed.
pub open spec fn sample_of(raw: Seq<u8>, bits: u16, is_float: bool) -> RawSample {
    if bits == 32 && is_float {
        RawSample::Float { bits: u32_at(raw, 0) }
    } else if is_float {
        RawSample::Silence
    } else if bits == 8 {
        RawSample::Pcm { value: (raw[0] - 128) as i32, full_scale: 128 }
    } else if bits == 16 {
        RawSample::Pcm { value: signed_16(u16_at(raw, 0)) as i32, full_scale: 32768 }
    } else if bits == 24 {
        let v = raw[0] + 256 * raw[1] + 65536 * raw[2];
        RawSample::Pcm {
            value: (if v < 0x80_0000 {
                v
            } else {
                v - 0x100_0000
            }) as i32,
            full_scale: 8388608,
        }
    } else if bits == 32 {
        RawSample::Pcm { value: signed_32(u32_at(raw, 0)), full_scale: 2147483648 }
    } else {
        RawSample::Silence
    }
}

/// Reads one sample.
pub fn decode_sample(raw: &[u8], bits: u16, is_float: bool) -> (sample: RawSample)
    requires
        raw@.len() == sample_bytes(bits),
    ensures
        sample == sample_of(raw@, bits, is_float),
{
    if bits == 32 && is_float {
        RawSample::Float { bits: read_u32(raw, 0) }
    } else if is_float {
        RawSample::Silence
    } else if bits == 8 {
        RawSample::Pcm { value: raw[0] as i32 - 128, full_scale: 128 }
    } else if bits == 16 {
        RawSample::Pcm { value: as_signed_16(read_u16(raw, 0)) as i32, full_scale: 32768 }
    } else if bits == 24 {
        let v: i32 = raw[0] as i32 + 256 * (raw[1] as i32) + 65536 * (raw[2] as i32);
        let value: i32 = if v < 0x80_0000 {
            v
        } else {
            v - 0x100_0000
        };
        RawSample::Pcm { value, full_scale: 8388608 }
    } else if bits == 32 {
        RawSample::Pcm { value: as_signed_32(read_u32(raw, 0)), full_scale: 2147483648 }
    } else {
        RawSample::Silence
    }
}

// ---------------------------------------------------------------------
// Levels. Mixed down to one channel, samples are single-precision numbers
// from minus one to one, held as their bit patterns.
// ---------------------------------------------------------------------

/// The bit pattern of one.
pub const FULL_LEVEL: u32 = 0x3F80_0000;

/// The bit pattern of a level without its sign.
pub open spec fn magnitude(bits: u32) -> u32 {
    bits % 0x8000_0000
}

/// Whether a level lies from minus one to one.
pub open spec fn is_in_range(bits: u32) -> bool {
    magnitude(bits) <= FULL_LEVEL
}

/// The level nearest to a level that lies from minus one to one. What is not a
/// number counts as silence.
pub open spec fn bounded_bits(bits: u32) -> u32 {
    if magnitude(bits) > 0x7F80_0000 {
        0
    } else if magnitude(bits) <= FULL_LEVEL {
        bits
    } else if bits < 0x8000_0000 {
        FULL_LEVEL
    } else {
        0xBF80_0000
    }
}

/// Keeps a level of the mix from minus one to one.
pub fn bounded(bits: u32) -> (level: u32)
    ensures
        level == bounded_bits(bits),
        is_in_range(level),
{
    let size: u32 = bits % 0x8000_0000;
    if size > 0x7F80_0000 {
        0
    } else if size <= FULL_LEVEL {
        bits
    } else if bits < 0x8000_0000 {
        FULL_LEVEL
    } else {
        0xBF80_0000
    }
}

/// A bounded level lies from minus one to one, on the side of zero that it was
/// on; a level that did so before is kept, and bounding it again changes
/// nothing.
pub proof fn bounding_keeps_what_is_in_range(bits: u32)
    ensures
        is_in_range(bounded_bits(bits)),
        is_in_range(bits) ==> bounded_bits(bits) == bits,
        magnitude(bits) <= 0x7F80_0000 ==> (bounded_bits(bits) < 0x8000_0000) == (bits
            < 0x8000_0000),
        bounded_bits(bounded_bits(bits)) == bounded_bits(bits),
{
}

/// A level from zero to one, given by its bit pattern, as a fraction.
pub open spec fn level_fraction(size: u32) -> (nat, nat) {
    let exponent = size / 0x80_0000;
    if exponent == 0 {
        (size as nat, pow2(149))
    } else {
        ((0x80_0000 + size % 0x80_0000) as nat, pow2((150 - exponent) as nat))
    }
}

/// The 16-bit sample that a level without its sign is written as: 32767 times
/// the level, in single precision, rounded down; no more than that.
pub open spec fn pcm_size(size: u32) -> int {
    if size >= FULL_LEVEL {
        32767
    } else if size < 0x80_0000 {
        0
    } else {
        let (mantissa, weight) = level_fraction(size);
        single_of(mantissa * 32767) as int / weight as int
    }
}

/// The 16-bit sample that a level is written as. What is not a number counts as
/// silence.
pub open spec fn pcm_of(bits: u32) -> int {
    if magnitude(bits) > 0x7F80_0000 {
        0
    } else if bits < 0x8000_0000 {
        pcm_size(magnitude(bits))
    } else {
        -pcm_size(magnitude(bits))
    }
}

/// The 16-bit sample that a level is written as.
pub fn pcm_sample(bits: u32) -> (sample: i16)
    ensures
        sample == pcm_of(bits),
        -32767 <= sample <= 32767,
{
    let size: u32 = bits % 0x8000_0000;
    if size > 0x7F80_0000 {
        return 0;
    }
    let positive: i16 = if size >= FULL_LEVEL {
        32767
    } else if size < 0x80_0000 {
        0
    } else {
        let mantissa: u128 = 0x80_0000 + (size % 0x80_0000) as u128;
        let shift: u32 = 150 - size / 0x80_0000;
        proof {
            a_small_level_is_written_close(size);
        }
        let rounded: u128 = to_single(mantissa * 32767);
        if shift > 104 {
            proof {
                lemma_pow2_strictly_increases(64, shift as nat);
                vstd::arithmetic::power2::lemma2_to64();
            }
            assert(rounded as int / pow2(shift as nat) as int == 0) by (nonlinear_arith)
                requires
                    0 <= rounded < pow2(shift as nat),
            ;
            0
        } else {
            (rounded / power_of_two(shift)) as i16
        }
    };
    if bits < 0x8000_0000 {
        positive
    } else {
        -positive
    }
}

#[verifier::spinoff_prover]
proof fn a_small_level_is_written_close(size: u32)
    requires
        0x80_0000 <= size < FULL_LEVEL,
    ensures
        ({
            let (num, den) = level_fraction(size);
            let v = pcm_size(size);
            &&& num < 0x100_0000 <= den
            &&& 0 <= v <= 32767
            &&& 32768 * num - 3 * den < v * den <= 32768 * num
        }),
{
    let (num, den) = level_fraction(size);
    let shift = (150 - size / 0x80_0000) as nat;
    vstd::arithmetic::power2::lemma2_to64();
    if shift > 24 {
        lemma_pow2_strictly_increases(24, shift);
    }
    let rounded = single_of(num * 32767) as int;
    rounding_is_fine(num * 32767);
    let v = rounded / den as int;
    assert(v * den <= rounded < v * den + den) by (nonlinear_arith)
        requires
            den > 0,
            v == rounded / den as int,
    ;
    assert(0 <= v <= 32767) by (nonlinear_arith)
        requires
            den >= 0x100_0000,
            v * den <= rounded < v * den + den,
            0 <= rounded < 32768 * 0x100_0000,
    ;
}

#[verifier::spinoff_prover]
proof fn a_size_is_written_close(size: u32)
    requires
        size <= FULL_LEVEL,
    ensures
        ({
            let (num, den) = level_fraction(size);
            let v = pcm_size(size);
            &&& den > 0
            &&& 0 <= v <= 32767
            &&& 32768 * num - 4 * den < v * den <= 32768 * num
        }),
{
    let (num, den) = level_fraction(size);
    let v = pcm_size(size);
    vstd::arithmetic::power2::lemma2_to64();
    if size == FULL_LEVEL {
        assert(size / 0x80_0000 == 127 && size % 0x80_0000 == 0);
        assert(den == 0x80_0000 && num == 0x80_0000);
        assert(v * den == 32767 * 0x80_0000) by (nonlinear_arith)
            requires
                v == 32767,
                den == 0x80_0000,
        ;
    } else if size < 0x80_0000 {
        assert(size / 0x80_0000 == 0);
        lemma_pow2_strictly_increases(64, 149);
        assert(v * den == 0) by (nonlinear_arith)
            requires
                v == 0,
        ;
    } else {
        a_small_level_is_written_close(size);
    }
}

/// Whether a sample of a full scale is within a thousandth of a level.
pub open spec fn is_near(value: int, full_scale: int, bits: u32) -> bool {
    let (num, den) = level_fraction(magnitude(bits));
    let level = if bits < 0x8000_0000 {
        num as int
    } else {
        -num
    };
    -full_scale * den < 1000 * (value * den - full_scale * level) < full_scale * den
}

/// The sample that a level is written as, read back, is within a thousandth of
/// the level, kept from minus one to one.
pub proof fn a_level_is_written_close(bits: u32)
    requires
        magnitude(bits) <= 0x7F80_0000,
    ensures
        -32767 <= pcm_of(bits) <= 32767,
        is_near(pcm_of(bits), 32768, bounded_bits(bits)),
{
    let level = bounded_bits(bits);
    let size = magnitude(level);
    let (num, den) = level_fraction(size);
    let v = pcm_size(size);
    assert(pcm_size(magnitude(bits)) == v);
    a_size_is_written_close(size);
    assert((-v) * den == -(v * den)) by (nonlinear_arith);
}

/// A whole-number sample lies from minus its full scale to its full scale.
pub proof fn whole_numbers_are_in_range(raw: Seq<u8>, bits: u16, is_float: bool)
    requires
        raw.len() == sample_bytes(bits),
    ensures
        sample_of(raw, bits, is_float) matches RawSample::Pcm { value, full_scale } ==> {
            &&& full_scale > 0
            &&& -full_scale <= value <= full_scale
        },
{
}

/// The number of channels that a format counts with: at least one.
pub open spec fn channel_count(format: WavFormat) -> int {
    if format.channels >= 1 {
        format.channels as int
    } else {
        1
    }
}

/// The samples in `data`: those of the whole frames that it holds.
pub open spec fn samples_of(format: WavFormat, data: Seq<u8>) -> Seq<RawSample> {
    let width = sample_bytes(format.bits_per_sample);
    let channels = channel_count(format);
    let frames = data.len() as int / (width * channels);
    Seq::new(
        (frames * channels) as nat,
        |k: int|
            sample_of(
                data.subrange(k * width, k * width + width),
                format.bits_per_sample,
                format.audio_format == 3,
            ),
    )
}

proof fn sample_in_bounds(k: int, width: int, channels: int, total: int)
    requires
        0 <= k < (total / (width * channels)) * channels,
        1 <= width,
        1 <= channels,
        0 <= total,
    ensures
        0 <= k * width,
        k * width + width <= total,
{
    let frames = total / (width * channels);
    assert(frames * (width * channels) <= total) by (nonlinear_arith)
        requires
            frames == total / (width * channels),
            1 <= width,
            1 <= channels,
            0 <= total,
    ;
    assert(k * width + width <= (frames * channels) * width) by (nonlinear_arith)
        requires
            k + 1 <= frames * channels,
            1 <= width,
    ;
    assert((frames * channels) * width == frames * (width * channels)) by (nonlinear_arith);
    assert(0 <= k * width) by (nonlinear_arith)
        requires
            0 <= k,
            1 <= width,
    ;
}

/// Reads the audio out of a WAV file's bytes.
pub fn parse_wav(buf: &[u8]) -> (r: Result<WavAudio, WavError>)
    ensures
        match layout_of(buf@) {
            Ok((format, data)) => {
                &&& r matches Ok(audio)
                &&& audio.sample_rate == format.sample_rate
                &&& audio.channels == channel_count(format)
                &&& audio.samples@ == samples_of(format, data)
            },
            Err(e) => r == Err::<WavAudio, WavError>(e),
        },
{
    let (format, from, to) = match find_layout(buf) {
        Ok(found) => found,
        Err(e) => {
            return Err(e);
        },
    };
    let ghost data = buf@.subrange(from as int, to as int);
    let channels: usize = if format.channels >= 1 {
        format.channels as usize
    } else {
        1
    };
    let bits: u16 = format.bits_per_sample;
    let width: usize = if bits / 8 >= 1 {
        (bits / 8) as usize
    } else {
        1
    };
    let is_float = format.audio_format == 3;
    assert(1 <= width * channels <= 8191 * 65535) by (nonlinear_arith)
        requires
            1 <= width <= 8191,
            1 <= channels <= 65535,
    ;
    let frame_bytes: usize = width * channels;
    let total: usize = to - from;
    let frames: usize = total / frame_bytes;
    assert(frames * channels <= total) by (nonlinear_arith)
        requires
            frames == total / frame_bytes,
            frame_bytes == width * channels,
            1 <= width,
            1 <= channels,
    ;
    let count: usize = frames * channels;
    let mut samples: Vec<RawSample> = Vec::new();
    for k in 0..count
        invariant
            from <= to <= buf@.len(),
            total == to - from,
            data == buf@.subrange(from as int, to as int),
            width == sample_bytes(bits),
            1 <= width,
            1 <= channels,
            count == (total as int / (width * channels)) * channels,
            samples@.len() == k,
            forall|j: int|
                0 <= j < k ==> #[trigger] samples@[j] == sample_of(
                    data.subrange(j * width, j * width + width),
                    bits,
                    is_float,
                ),
    {
        proof {
            sample_in_bounds(k as int, width as int, channels as int, total as int);
        }
        let at: usize = from + k * width;
        assert(data.subrange(k * width, k * width + width) == buf@.subrange(
            at as int,
            at + width,
        ));
        samples.push(decode_sample(&buf[at..at + width], bits, is_float));
    }
    assert(samples@ == samples_of(format, data));
    Ok(WavAudio { sample_rate: format.sample_rate, channels, samples })
}

// ---------------------------------------------------------------------
// 16-bit frames, summed
// ---------------------------------------------------------------------

/// The sum of the first `n` channels of the 16-bit frame that starts at `at`.
pub open spec fn frame_sum(data: Seq<u8>, at: int, n: nat) -> int
    decreases n,
{
    if n == 0 {
        0
    } else {
        frame_sum(data, at, (n - 1) as nat) + signed_16(u16_at(data, at + 2 * (n - 1)))
    }
}

/// The channel sums of every whole frame in `data`, taken as 16-bit samples.
pub open spec fn frame_sums_of(format: WavFormat, data: Seq<u8>) -> Seq<i32> {
    let channels = channel_count(format);
    Seq::new(
        (data.len() as int / (2 * channels)) as nat,
        |i: int| frame_sum(data, i * (2 * channels), channels as nat) as i32,
    )
}

/// The sums over the channels of a file's 16-bit frames.
#[derive(Debug)]
pub struct FrameSums {
    pub sample_rate: u32,
    pub channels: usize,
    pub sums: Vec<i32>,
}

fn sum_frame(buf: &[u8], at: usize, channels: usize) -> (sum: i32)
    requires
        at + 2 * channels <= buf@.len(),
        channels <= 65535,
    ensures
        sum == frame_sum(buf@, at as int, channels as nat),
        -32768 * channels <= sum <= 32767 * channels,
{
    let n: usize = buf.len();
    let mut sum: i32 = 0;
    for c in 0..channels
        invariant
            n == buf@.len(),
            at + 2 * channels <= n,
            channels <= 65535,
            sum == frame_sum(buf@, at as int, c as nat),
            -32768 * c <= sum <= 32767 * c,
    {
        sum = sum + as_signed_16(read_u16(buf, at + 2 * c)) as i32;
    }
    sum
}

proof fn frame_sum_in_part(buf: Seq<u8>, from: int, to: int, at: int, n: nat)
    requires
        0 <= from <= to <= buf.len(),
        0 <= at,
        at + 2 * n <= to - from,
    ensures
        frame_sum(buf.subrange(from, to), at, n) == frame_sum(buf, from + at, n),
    decreases n,
{
    if n > 0 {
        frame_sum_in_part(buf, from, to, at, (n - 1) as nat);
    }
}

/// Reads a WAV file's bytes as 16-bit frames, whatever sample width its
/// format chunk names, and adds up the channels of each frame.
pub fn parse_frame_sums(buf: &[u8]) -> (r: Result<FrameSums, WavError>)
    ensures
        match layout_of(buf@) {
            Ok((format, data)) => {
                &&& r matches Ok(audio)
                &&& audio.sample_rate == format.sample_rate
                &&& audio.channels == channel_count(format)
                &&& audio.sums@ == frame_sums_of(format, data)
            },
            Err(e) => r == Err::<FrameSums, WavError>(e),
        },
{
    let (format, from, to) = match find_layout(buf) {
        Ok(found) => found,
        Err(e) => {
            return Err(e);
        },
    };
    let ghost data = buf@.subrange(from as int, to as int);
    let channels: usize = if format.channels >= 1 {
        format.channels as usize
    } else {
        1
    };
    let frame_bytes: usize = 2 * channels;
    let frames: usize = (to - from) / frame_bytes;
    let mut sums: Vec<i32> = Vec::new();
    for i in 0..frames
        invariant
            from <= to <= buf@.len(),
            data == buf@.subrange(from as int, to as int),
            1 <= channels <= 65535,
            frame_bytes == 2 * channels,
            frames == (to - from) as int / (frame_bytes as int),
            sums@.len() == i,
            forall|j: int|
                0 <= j < i ==> #[trigger] sums@[j] == frame_sum(
                    data,
                    j * (2 * channels),
                    channels as nat,
                ) as i32,
    {
        assert(i * frame_bytes + frame_bytes <= to - from) by (nonlinear_arith)
            requires
                i + 1 <= frames,
                frames == (to - from) as int / (frame_bytes as int),
                1 <= frame_bytes,
                from <= to,
        ;
        assert(0 <= i * frame_bytes) by (nonlinear_arith);
        let at: usize = from + i * frame_bytes;
        proof {
            frame_sum_in_part(
                buf@,
                from as int,
                to as int,
                i * frame_bytes,
                channels as nat,
            );
        }
        sums.push(sum_frame(buf, at, channels));
    }
    assert(sums@ == frame_sums_of(format, data));
    Ok(FrameSums { sample_rate: format.sample_rate, channels, sums })
}

// ---------------------------------------------------------------------
// Writing
// ---------------------------------------------------------------------

/// How the header counts the bytes of `n` samples: in 32 bits.
pub open spec fn data_length(n: nat) -> u32 {
    (2 * n % 0x1_0000_0000) as u32
}

pub open spec fn pcm_bytes(samples: Seq<i16>) -> Seq<u8>
    decreases samples.len(),
{
    if samples.len() == 0 {
        Seq::empty()
    } else {
        pcm_bytes(samples.drop_last()) + u16_bytes(unsigned_16(samples.last()))
    }
}

/// The header of a file with one channel of 16-bit samples.
pub open spec fn wav_header(sample_rate: u32, n: nat) -> Seq<u8> {
    riff_id() + u32_bytes((36 + data_length(n)) as u32) + wave_id() + fmt_id() + u32_bytes(16)
        + u16_bytes(1) + u16_bytes(1) + u32_bytes(sample_rate) + u32_bytes(
        (sample_rate * 2) as u32,
    ) + u16_bytes(2) + u16_bytes(16) + data_id() + u32_bytes(data_length(n))
}

/// The file that holds one channel of 16-bit samples.
pub open spec fn wav_bytes(sample_rate: u32, samples: Seq<i16>) -> Seq<u8> {
    wav_header(sample_rate, samples.len()) + pcm_bytes(samples)
}

fn push_id(buf: &mut Vec<u8>, a: u8, b: u8, c: u8, d: u8)
    ensures
        final(buf)@ == old(buf)@ + seq![a, b, c, d],
{
    buf.push(a);
    buf.push(b);
    buf.push(c);
    buf.push(d);
    assert(buf@ == old(buf)@ + seq![a, b, c, d]);
}

/// Builds the bytes of a WAV file with one channel of 16-bit samples. The
/// byte rate and the file length have to fit the header's 32-bit fields.
pub fn encode_wav(sample_rate: u32, samples: &[i16]) -> (buf: Vec<u8>)
    requires
        sample_rate * 2 <= u32::MAX,
        36 + data_length(samples@.len()) <= u32::MAX,
        44 + 2 * samples@.len() <= usize::MAX,
    ensures
        buf@ == wav_bytes(sample_rate, samples@),
{
    let n: usize = samples.len();
    let data_len: u32 = ((2 * n as u64) % 0x1_0000_0000) as u32;
    let mut buf: Vec<u8> = Vec::new();
    push_id(&mut buf, 0x52, 0x49, 0x46, 0x46);
    push_u32(&mut buf, 36 + data_len);
    push_id(&mut buf, 0x57, 0x41, 0x56, 0x45);
    push_id(&mut buf, 0x66, 0x6D, 0x74, 0x20);
    push_u32(&mut buf, 16);
    push_u16(&mut buf, 1);
    push_u16(&mut buf, 1);
    push_u32(&mut buf, sample_rate);
    push_u32(&mut buf, sample_rate * 2);
    push_u16(&mut buf, 2);
    push_u16(&mut buf, 16);
    push_id(&mut buf, 0x64, 0x61, 0x74, 0x61);
    push_u32(&mut buf, data_len);
    assert(buf@ == wav_header(sample_rate, samples@.len()));
    assert(samples@.take(0) == Seq::<i16>::empty());
    for i in 0..n
        invariant
            n == samples@.len(),
            buf@ == wav_header(sample_rate, samples@.len()) + pcm_bytes(samples@.take(i as int)),
    {
        push_u16(&mut buf, as_unsigned_16(samples[i]));
        assert(samples@.take(i + 1).drop_last() == samples@.take(i as int));
        assert(buf@ == wav_header(sample_rate, samples@.len()) + pcm_bytes(samples@.take(i + 1)));
    }
    assert(samples@.take(n as int) == samples@);
    buf
}

proof fn pcm_bytes_at(samples: Seq<i16>, k: int)
    ensures
        pcm_bytes(samples).len() == 2 * samples.len(),
        0 <= k < samples.len() ==> u16_at(pcm_bytes(samples), 2 * k) == unsigned_16(samples[k]),
    decreases samples.len(),
{
    if samples.len() > 0 {
        let front = pcm_bytes(samples.drop_last());
        pcm_bytes_at(samples.drop_last(), k);
        if 0 <= k < samples.len() - 1 {
            assert(pcm_bytes(samples)[2 * k] == front[2 * k]);
            assert(pcm_bytes(samples)[2 * k + 1] == front[2 * k + 1]);
        } else if k == samples.len() - 1 {
            let last = u16_bytes(unsigned_16(samples.last()));
            assert(pcm_bytes(samples)[2 * k] == last[0]);
            assert(pcm_bytes(samples)[2 * k + 1] == last[1]);
        }
    }
}

/// The format of the files that `encode_wav` builds.
pub open spec fn written_format(sample_rate: u32) -> WavFormat {
    WavFormat { audio_format: 1, channels: 1, sample_rate, bits_per_sample: 16 }
}

/// Reading a written file gives back the sample rate and every sample, for
/// any number of samples whose file length fits the header.
pub proof fn written_samples_are_read_back(sample_rate: u32, samples: Seq<i16>)
    requires
        sample_rate * 2 <= u32::MAX,
        36 + 2 * samples.len() <= u32::MAX,
    ensures
        layout_of(wav_bytes(sample_rate, samples)) == Ok::<(WavFormat, Seq<u8>), WavError>(
            (written_format(sample_rate), pcm_bytes(samples)),
        ),
        samples_of(written_format(sample_rate), pcm_bytes(samples)) == samples.map_values(
            |v: i16| RawSample::Pcm { value: v as i32, full_scale: 32768 },
        ),
        frame_sums_of(written_format(sample_rate), pcm_bytes(samples)) == samples.map_values(
            |v: i16| v as i32,
        ),
{
    written_layout(sample_rate, samples);
    written_pcm(sample_rate, samples);
    written_sums(sample_rate, samples);
}

/// Levels that are written and read back come back one for one, at their rate,
/// each within a thousandth of what it was, kept from minus one to one.
pub proof fn written_levels_are_read_back(sample_rate: u32, levels: Seq<u32>, i: int)
    requires
        sample_rate * 2 <= u32::MAX,
        36 + 2 * levels.len() <= u32::MAX,
        0 <= i < levels.len(),
        magnitude(levels[i]) <= 0x7F80_0000,
    ensures
        ({
            let written = levels.map_values(|bits: u32| pcm_of(bits) as i16);
            let file = wav_bytes(sample_rate, written);
            &&& layout_of(file) matches Ok((format, data)) && {
                &&& format.sample_rate == sample_rate
                &&& channel_count(format) == 1
                &&& samples_of(format, data).len() == levels.len()
                &&& samples_of(format, data)[i] matches RawSample::Pcm { value, full_scale }
                    && is_near(value as int, full_scale as int, bounded_bits(levels[i]))
            }
        }),
{
    let written = levels.map_values(|bits: u32| pcm_of(bits) as i16);
    written_samples_are_read_back(sample_rate, written);
    a_level_is_written_close(levels[i]);
    let read = written.map_values(|v: i16| RawSample::Pcm { value: v as i32, full_scale: 32768 });
    assert(written[i] == pcm_of(levels[i]));
    assert(read[i] == (RawSample::Pcm { value: written[i] as i32, full_scale: 32768 }));
}

#[verifier::spinoff_prover]
proof fn written_pcm(sample_rate: u32, samples: Seq<i16>)
    ensures
        samples_of(written_format(sample_rate), pcm_bytes(samples)) == samples.map_values(
            |v: i16| RawSample::Pcm { value: v as i32, full_scale: 32768 },
        ),
{
    let data = pcm_bytes(samples);
    let format = written_format(sample_rate);
    pcm_bytes_at(samples, 0);
    let read = samples_of(format, data);
    let (width, channels) = (sample_bytes(16), channel_count(format));
    assert(width == 2 && channels == 1);
    let frames = data.len() as int / (width * channels);
    assert(width * channels == 2 && frames * channels == samples.len()) by (nonlinear_arith)
        requires
            width == 2,
            channels == 1,
            frames == data.len() as int / (width * channels),
            data.len() == 2 * samples.len(),
    ;
    assert(read.len() == samples.len());
    assert forall|k: int| 0 <= k < samples.len() implies #[trigger] read[k] == (RawSample::Pcm {
        value: samples[k] as i32,
        full_scale: 32768,
    }) by {
        written_sample(samples, k);
        assert(k * width == k * 2) by (nonlinear_arith)
            requires
                width == 2,
        ;
    }
    assert(read == samples.map_values(
        |v: i16| RawSample::Pcm { value: v as i32, full_scale: 32768 },
    ));
}

#[verifier::spinoff_prover]
proof fn written_sample(samples: Seq<i16>, k: int)
    requires
        0 <= k < samples.len(),
    ensures
        sample_of(pcm_bytes(samples).subrange(k * 2, k * 2 + 2), 16, false) == (RawSample::Pcm {
            value: samples[k] as i32,
            full_scale: 32768,
        }),
{
    pcm_bytes_at(samples, k);
    let raw = pcm_bytes(samples).subrange(k * 2, k * 2 + 2);
    assert(u16_at(raw, 0) == u16_at(pcm_bytes(samples), 2 * k));
}

#[verifier::spinoff_prover]
proof fn written_sums(sample_rate: u32, samples: Seq<i16>)
    ensures
        frame_sums_of(written_format(sample_rate), pcm_bytes(samples)) == samples.map_values(
            |v: i16| v as i32,
        ),
{
    let data = pcm_bytes(samples);
    pcm_bytes_at(samples, 0);
    let sums = frame_sums_of(written_format(sample_rate), data);
    let channels = channel_count(written_format(sample_rate));
    assert(channels == 1);
    assert(data.len() as int / (2 * channels) == samples.len()) by (nonlinear_arith)
        requires
            channels == 1,
            data.len() == 2 * samples.len(),
    ;
    assert forall|k: int| 0 <= k < samples.len() implies #[trigger] sums[k]
        == samples[k] as i32 by {
        pcm_bytes_at(samples, k);
        reveal_with_fuel(frame_sum, 2);
        assert(k * (2 * channels) == 2 * k) by (nonlinear_arith)
            requires
                channels == 1,
        ;
        assert(frame_sum(data, 2 * k, 1) == samples[k]);
    }
    assert(sums == samples.map_values(|v: i16| v as i32));
}

#[verifier::spinoff_prover]
proof fn written_layout(sample_rate: u32, samples: Seq<i16>)
    requires
        sample_rate * 2 <= u32::MAX,
        36 + 2 * samples.len() <= u32::MAX,
    ensures
        layout_of(wav_bytes(sample_rate, samples)) == Ok::<(WavFormat, Seq<u8>), WavError>(
            (written_format(sample_rate), pcm_bytes(samples)),
        ),
{
    let buf = wav_bytes(sample_rate, samples);
    let n = samples.len();
    header_fields(sample_rate, samples);
    read_layout(buf, sample_rate, 2 * n as int);
}

/// A buffer with a format chunk and a data chunk that fills the rest.
#[verifier::spinoff_prover]
proof fn read_layout(buf: Seq<u8>, sample_rate: u32, n: int)
    requires
        n % 2 == 0,
        buf.len() == 44 + n,
        is_riff_wave(buf),
        buf.subrange(12, 16) == fmt_id(),
        u32_at(buf, 16) == 16,
        u16_at(buf, 20) == 1,
        u16_at(buf, 22) == 1,
        u32_at(buf, 24) == sample_rate,
        u16_at(buf, 34) == 16,
        buf.subrange(36, 40) == data_id(),
        u32_at(buf, 40) == n,
    ensures
        layout_of(buf) == Ok::<(WavFormat, Seq<u8>), WavError>(
            (written_format(sample_rate), buf.subrange(44, 44 + n)),
        ),
{
    let fmt_chunk = Chunk { id: buf.subrange(12, 16), body: buf.subrange(20, 36) };
    let data_chunk = Chunk { id: buf.subrange(36, 40), body: buf.subrange(44, 44 + n) };
    assert(chunks(buf, 44 + n) == Seq::<Chunk>::empty());
    assert(chunks(buf, 36) == seq![data_chunk] + Seq::<Chunk>::empty());
    assert(chunks(buf, 36) == seq![data_chunk]);
    assert(chunks(buf, 12) == seq![fmt_chunk] + seq![data_chunk]);
    let row = seq![fmt_chunk, data_chunk];
    assert(chunks(buf, 12) == row);
    assert(row.drop_last() == seq![fmt_chunk]);
    assert(row.last() == data_chunk);
    assert(seq![fmt_chunk].last() == fmt_chunk);
    assert(fmt_id()[0] != data_id()[0]);
    assert(format_in(row.drop_last()) == written_format(sample_rate)) by {
        assert(u16_at(fmt_chunk.body, 0) == u16_at(buf, 20));
        assert(u16_at(fmt_chunk.body, 2) == u16_at(buf, 22));
        assert(u32_at(fmt_chunk.body, 4) == u32_at(buf, 24));
        assert(u16_at(fmt_chunk.body, 14) == u16_at(buf, 34));
    }
    assert(format_in(row) == written_format(sample_rate));
}

/// Where each part of a header stands, whatever the parts hold.
#[verifier::spinoff_prover]
proof fn header_parts(
    riff: Seq<u8>,
    size: Seq<u8>,
    wave: Seq<u8>,
    fmt: Seq<u8>,
    fmt_size: Seq<u8>,
    code: Seq<u8>,
    channels: Seq<u8>,
    rate: Seq<u8>,
    byte_rate: Seq<u8>,
    align: Seq<u8>,
    bits: Seq<u8>,
    name: Seq<u8>,
    len: Seq<u8>,
    data: Seq<u8>,
)
    requires
        riff.len() == 4,
        size.len() == 4,
        wave.len() == 4,
        fmt.len() == 4,
        fmt_size.len() == 4,
        code.len() == 2,
        channels.len() == 2,
        rate.len() == 4,
        byte_rate.len() == 4,
        align.len() == 2,
        bits.len() == 2,
        name.len() == 4,
        len.len() == 4,
    ensures
        ({
            let buf = (riff + size + wave + fmt + fmt_size + code + channels + rate + byte_rate
                + align + bits + name + len) + data;
            &&& buf.len() == 44 + data.len()
            &&& buf.subrange(0, 4) == riff
            &&& buf.subrange(8, 12) == wave
            &&& buf.subrange(12, 16) == fmt
            &&& buf.subrange(16, 20) == fmt_size
            &&& buf.subrange(20, 22) == code
            &&& buf.subrange(22, 24) == channels
            &&& buf.subrange(24, 28) == rate
            &&& buf.subrange(34, 36) == bits
            &&& buf.subrange(36, 40) == name
            &&& buf.subrange(40, 44) == len
            &&& buf.subrange(44, 44 + data.len() as int) == data
        }),
{
    let p2 = riff + size + wave;
    let p4 = p2 + fmt + fmt_size;
    let p7 = p4 + code + channels + rate;
    let p10 = p7 + byte_rate + align + bits;
    let p12 = p10 + name + len;
    let buf = p12 + data;
    assert(buf.subrange(0, 12) == p2);
    assert(p2.subrange(0, 4) == riff);
    assert(p2.subrange(8, 12) == wave);
    assert(buf.subrange(0, 12).subrange(0, 4) == buf.subrange(0, 4));
    assert(buf.subrange(0, 12).subrange(8, 12) == buf.subrange(8, 12));
    assert(buf.subrange(12, 16) == fmt);
    assert(buf.subrange(16, 20) == fmt_size);
    assert(buf.subrange(0, 28) == p7);
    assert(p7.subrange(20, 22) == code);
    assert(p7.subrange(22, 24) == channels);
    assert(p7.subrange(24, 28) == rate);
    assert(p7.subrange(20, 22) == buf.subrange(20, 22));
    assert(p7.subrange(22, 24) == buf.subrange(22, 24));
    assert(p7.subrange(24, 28) == buf.subrange(24, 28));
    assert(buf.subrange(34, 36) == bits);
    assert(buf.subrange(36, 40) == name);
    assert(buf.subrange(40, 44) == len);
    assert(buf.subrange(44, 44 + data.len() as int) == data);
}

#[verifier::spinoff_prover]
proof fn header_fields(sample_rate: u32, samples: Seq<i16>)
    requires
        sample_rate * 2 <= u32::MAX,
        36 + 2 * samples.len() <= u32::MAX,
    ensures
        ({
            let buf = wav_bytes(sample_rate, samples);
            &&& buf.len() == 44 + 2 * samples.len()
            &&& is_riff_wave(buf)
            &&& buf.subrange(12, 16) == fmt_id()
            &&& u32_at(buf, 16) == 16
            &&& u16_at(buf, 20) == 1
            &&& u16_at(buf, 22) == 1
            &&& u32_at(buf, 24) == sample_rate
            &&& u16_at(buf, 34) == 16
            &&& buf.subrange(36, 40) == data_id()
            &&& u32_at(buf, 40) == 2 * samples.len()
            &&& buf.subrange(44, 44 + 2 * samples.len() as int) == pcm_bytes(samples)
        }),
{
    let buf = wav_bytes(sample_rate, samples);
    let n = samples.len();
    pcm_bytes_at(samples, 0);
    let size = u32_bytes((36 + data_length(n)) as u32);
    let fmt_size = u32_bytes(16);
    let one = u16_bytes(1);
    let rate = u32_bytes(sample_rate);
    let byte_rate = u32_bytes((sample_rate * 2) as u32);
    let align = u16_bytes(2);
    let bits = u16_bytes(16);
    let len = u32_bytes(data_length(n));
    assert(data_length(n) == 2 * n);
    header_parts(
        riff_id(),
        size,
        wave_id(),
        fmt_id(),
        fmt_size,
        one,
        one,
        rate,
        byte_rate,
        align,
        bits,
        data_id(),
        len,
        pcm_bytes(samples),
    );
    assert(u32_at(buf, 16) == 16) by {
        number_in_part(buf, 16, 16);
    }
    assert(u32_at(buf, 24) == sample_rate) by {
        number_in_part(buf, 24, sample_rate);
    }
    assert(u32_at(buf, 40) == data_length(n)) by {
        number_in_part(buf, 40, data_length(n));
    }
    assert(u16_at(buf, 20) == 1) by {
        short_in_part(buf, 20, 1);
    }
    assert(u16_at(buf, 22) == 1) by {
        short_in_part(buf, 22, 1);
    }
    assert(u16_at(buf, 34) == 16) by {
        short_in_part(buf, 34, 16);
    }
}

#[verifier::spinoff_prover]
proof fn number_in_part(buf: Seq<u8>, at: int, v: u32)
    requires
        0 <= at,
        at + 4 <= buf.len(),
        buf.subrange(at, at + 4) == u32_bytes(v),
    ensures
        u32_at(buf, at) == v,
{
    let (front, back) = (buf.take(at), buf.skip(at + 4));
    assert(buf == front + buf.subrange(at, at + 4) + back);
    u32_round_trip(front, v, back);
}

#[verifier::spinoff_prover]
proof fn short_in_part(buf: Seq<u8>, at: int, v: u16)
    requires
        0 <= at,
        at + 2 <= buf.len(),
        buf.subrange(at, at + 2) == u16_bytes(v),
    ensures
        u16_at(buf, at) == v,
{
    let (front, back) = (buf.take(at), buf.skip(at + 2));
    assert(buf == front + buf.subrange(at, at + 2) + back);
    u16_round_trip(front, v, back);
}

// ---------------------------------------------------------------------
// Laws
// ---------------------------------------------------------------------

/// An 8-bit sample is its value on top of 128.
pub proof fn eight_bits_are_read_back(v: int)
    requires
        -128 <= v < 128,
    ensures
        sample_bytes(8) == 1,
        sample_of(seq![(v + 128) as u8], 8, false) == (RawSample::Pcm {
            value: v as i32,
            full_scale: 128,
        }),
{
}

/// A 16-bit sample is its value in two's complement, little end first.
pub proof fn sixteen_bits_are_read_back(v: int)
    requires
        -0x8000 <= v < 0x8000,
    ensures
        sample_bytes(16) == 2,
        sample_of(seq![(v % 256) as u8, (v / 256 % 256) as u8], 16, false) == (RawSample::Pcm {
            value: v as i32,
            full_scale: 0x8000,
        }),
{
    let raw = seq![(v % 256) as u8, (v / 256 % 256) as u8];
    let u = v % 0x1_0000;
    assert(raw[0] + 256 * raw[1] == u);
    assert(u16_at(raw, 0) == u);
}

/// A 24-bit sample is its value in two's complement, little end first.
#[verifier::spinoff_prover]
pub proof fn twenty_four_bits_are_read_back(v: int)
    requires
        -0x80_0000 <= v < 0x80_0000,
    ensures
        sample_bytes(24) == 3,
        sample_of(
            seq![(v % 256) as u8, (v / 256 % 256) as u8, (v / 65536 % 256) as u8],
            24,
            false,
        ) == (RawSample::Pcm { value: v as i32, full_scale: 0x80_0000 }),
{
    let raw = seq![(v % 256) as u8, (v / 256 % 256) as u8, (v / 65536 % 256) as u8];
    let u = v % 0x100_0000;
    assert(raw[0] + 256 * raw[1] + 65536 * raw[2] == u);
}

/// A 32-bit sample is its value in two's complement, little end first.
#[verifier::spinoff_prover]
pub proof fn thirty_two_bits_are_read_back(v: int)
    requires
        -0x8000_0000 <= v < 0x8000_0000,
    ensures
        sample_bytes(32) == 4,
        sample_of(
            seq![
                (v % 256) as u8,
                (v / 256 % 256) as u8,
                (v / 65536 % 256) as u8,
                (v / 16777216 % 256) as u8,
            ],
            32,
            false,
        ) == (RawSample::Pcm { value: v as i32, full_scale: 0x8000_0000 }),
{
    let raw = seq![
        (v % 256) as u8,
        (v / 256 % 256) as u8,
        (v / 65536 % 256) as u8,
        (v / 16777216 % 256) as u8,
    ];
    let (a, b, c) = (v / 256, v / 65536, v / 16777216);
    let below: int = if v < 0 {
        0x1_0000_0000
    } else {
        0
    };
    assert(v == 256 * a + v % 256);
    assert(a == 256 * b + a % 256);
    assert(b == 256 * c + b % 256);
    assert(-128 <= c < 128);
    assert(c % 256 == c + below / 16777216);
    assert(v % 256 + 256 * (a % 256) + 65536 * (b % 256) + 16777216 * (c % 256) == v + below);
    assert(u32_at(raw, 0) == v + below);
}

/// A floating-point sample is its 32 bits, little end first.
pub proof fn float_bits_are_read_back(bits: u32)
    ensures
        sample_of(
            seq![
                (bits % 256) as u8,
                (bits / 256 % 256) as u8,
                (bits / 65536 % 256) as u8,
                (bits / 16777216 % 256) as u8,
            ],
            32,
            true,
        ) == (RawSample::Float { bits }),
{
    let raw = seq![
        (bits % 256) as u8,
        (bits / 256 % 256) as u8,
        (bits / 65536 % 256) as u8,
        (bits / 16777216 % 256) as u8,
    ];
    assert(raw[0] + 256 * raw[1] + 65536 * raw[2] + 16777216 * raw[3] == bits);
}

/// A sample of any other width counts as silence, and so does a floating-point
/// sample that does not have 32 bits.
pub proof fn other_widths_are_silence(raw: Seq<u8>, bits: u16, is_float: bool)
    requires
        bits != 32,
        is_float || (bits != 8 && bits != 16 && bits != 24),
    ensures
        sample_of(raw, bits, is_float) == RawSample::Silence,
{
}

proof fn parts_stand_in_order(parts: Seq<Seq<u8>>, width: int, k: int)
    requires
        width >= 1,
        forall|i: int| 0 <= i < parts.len() ==> (#[trigger] parts[i]).len() == width,
        0 <= k <= parts.len(),
    ensures
        parts.flatten().len() == parts.len() * width,
        k < parts.len() ==> {
            &&& 0 <= k * width
            &&& k * width + width <= parts.flatten().len()
            &&& parts.flatten().subrange(k * width, k * width + width) == parts[k]
        },
    decreases parts.len(),
{
    if parts.len() == 0 {
        assert(parts.len() * width == 0) by (nonlinear_arith)
            requires
                parts.len() == 0,
        ;
    } else {
        let (first, rest) = (parts.first(), parts.drop_first());
        let (all, tail) = (parts.flatten(), rest.flatten());
        assert(parts.len() * width == width + (parts.len() - 1) * width) by (nonlinear_arith);
        parts_stand_in_order(
            rest,
            width,
            if k > 0 {
                k - 1
            } else {
                0
            },
        );
        assert(all == first + tail);
        if k == 0 {
            assert(k * width == 0) by (nonlinear_arith)
                requires
                    k == 0,
            ;
            assert((parts.len() - 1) * width >= 0) by (nonlinear_arith)
                requires
                    parts.len() >= 1,
                    width >= 1,
            ;
            assert(all.subrange(0, width) == first);
        } else if k < parts.len() {
            assert(k * width == width + (k - 1) * width) by (nonlinear_arith);
            assert(all.subrange(k * width, k * width + width) == tail.subrange(
                (k - 1) * width,
                (k - 1) * width + width,
            ));
        }
    }
}

/// The samples of a file come one after the other, all channels of a frame
/// before the next frame: bytes that hold whole frames, sample by sample, are
/// read as those samples, in order. What is left of a frame at the end is not
/// read.
pub proof fn samples_are_read_in_order(
    format: WavFormat,
    parts: Seq<Seq<u8>>,
    frames: nat,
    rest: Seq<u8>,
)
    requires
        parts.len() == frames * channel_count(format),
        forall|i: int|
            0 <= i < parts.len() ==> (#[trigger] parts[i]).len() == sample_bytes(
                format.bits_per_sample,
            ),
        rest.len() < sample_bytes(format.bits_per_sample) * channel_count(format),
    ensures
        format.channels >= 1 ==> channel_count(format) == format.channels,
        format.channels == 0 ==> channel_count(format) == 1,
        samples_of(format, parts.flatten() + rest) == parts.map_values(
            |raw: Seq<u8>|
                sample_of(raw, format.bits_per_sample, format.audio_format == 3),
        ),
{
    let width = sample_bytes(format.bits_per_sample);
    let channels = channel_count(format);
    let data = parts.flatten() + rest;
    let frame = width * channels;
    parts_stand_in_order(parts, width, 0);
    assert(frame >= 1) by (nonlinear_arith)
        requires
            frame == width * channels,
            width >= 1,
            channels >= 1,
    ;
    assert(parts.len() * width == frames * frame) by (nonlinear_arith)
        requires
            parts.len() == frames * channels,
            frame == width * channels,
    ;
    assert(data.len() as int / frame == frames) by (nonlinear_arith)
        requires
            data.len() == frames * frame + rest.len(),
            rest.len() < frame,
    ;
    let read = samples_of(format, data);
    let wanted = parts.map_values(
        |raw: Seq<u8>| sample_of(raw, format.bits_per_sample, format.audio_format == 3),
    );
    assert(read.len() == parts.len());
    assert forall|k: int| 0 <= k < parts.len() implies #[trigger] read[k] == wanted[k] by {
        parts_stand_in_order(parts, width, k);
        assert(data.subrange(k * width, k * width + width) == parts[k]);
    }
    assert(read == wanted);
}

/// The sum of a row of samples.
pub open spec fn total_of(samples: Seq<i16>) -> int
    decreases samples.len(),
{
    if samples.len() == 0 {
        0
    } else {
        samples[0] + total_of(samples.drop_first())
    }
}

proof fn total_with_one_more(samples: Seq<i16>, last: i16)
    ensures
        total_of(samples.push(last)) == total_of(samples) + last,
    decreases samples.len(),
{
    reveal_with_fuel(total_of, 2);
    if samples.len() > 0 {
        total_with_one_more(samples.drop_first(), last);
        assert(samples.push(last).drop_first() == samples.drop_first().push(last));
    } else {
        assert(samples.push(last).drop_first() == Seq::<i16>::empty());
    }
}

proof fn a_frame_adds_up(samples: Seq<i16>, from: int, n: nat)
    requires
        0 <= from,
        from + n <= samples.len(),
    ensures
        frame_sum(pcm_bytes(samples), 2 * from, n) == total_of(samples.subrange(from, from + n)),
        -32768 * n <= frame_sum(pcm_bytes(samples), 2 * from, n) <= 32767 * n,
    decreases n,
{
    if n == 0 {
        assert(samples.subrange(from, from + n) == Seq::<i16>::empty());
    } else {
        let k = from + n - 1;
        a_frame_adds_up(samples, from, (n - 1) as nat);
        pcm_bytes_at(samples, k);
        total_with_one_more(samples.subrange(from, k), samples[k]);
        assert(samples.subrange(from, from + n) == samples.subrange(from, k).push(samples[k]));
    }
}

/// The frames of a file are added up channel by channel: each sum is that of
/// the samples of its own frame, all of them, and there is one for every whole
/// frame.
pub proof fn frames_are_summed_over_their_channels(format: WavFormat, samples: Seq<i16>, i: int)
    requires
        0 <= i < samples.len() as int / channel_count(format),
    ensures
        ({
            let sums = frame_sums_of(format, pcm_bytes(samples));
            let channels = channel_count(format);
            &&& sums.len() == samples.len() as int / channels
            &&& sums[i] == total_of(samples.subrange(i * channels, i * channels + channels))
        }),
{
    let channels = channel_count(format);
    let n = samples.len() as int;
    let sums = frame_sums_of(format, pcm_bytes(samples));
    pcm_bytes_at(samples, 0);
    assert((2 * n) / (2 * channels) == n / channels) by (nonlinear_arith)
        requires
            channels >= 1,
            n >= 0,
    ;
    assert(i * channels + channels <= n && 0 <= i * channels) by (nonlinear_arith)
        requires
            0 <= i < n / channels,
            channels >= 1,
            n >= 0,
    ;
    assert(i * (2 * channels) == 2 * (i * channels)) by (nonlinear_arith);
    a_frame_adds_up(samples, i * channels, channels as nat);
    assert(sums[i] == frame_sum(pcm_bytes(samples), i * (2 * channels), channels as nat) as i32);
}

/// The bytes of a chunk: its name, the length of its body, the body, and a
/// zero to make the length even.
pub open spec fn chunk_bytes(chunk: Chunk) -> Seq<u8> {
    chunk.id + u32_bytes(chunk.body.len() as u32) + chunk.body + (if chunk.body.len() % 2 == 1 {
        seq![0u8]
    } else {
        Seq::empty()
    })
}

/// The bytes of a row of chunks.
pub open spec fn row_bytes(row: Seq<Chunk>) -> Seq<u8>
    decreases row.len(),
{
    if row.len() == 0 {
        Seq::empty()
    } else {
        chunk_bytes(row[0]) + row_bytes(row.drop_first())
    }
}

/// Whether a row of chunks can be written: names of four bytes, lengths that
/// fit 32 bits.
pub open spec fn can_be_written(row: Seq<Chunk>) -> bool {
    forall|i: int|
        0 <= i < row.len() ==> (#[trigger] row[i]).id.len() == 4 && row[i].body.len() <= u32::MAX
}

/// Chunks are read back one after the other, whatever they are called and
/// however long they are: none is passed over, and none is taken for two.
#[verifier::spinoff_prover]
pub proof fn written_chunks_are_read_back(front: Seq<u8>, row: Seq<Chunk>)
    requires
        can_be_written(row),
    ensures
        chunks(front + row_bytes(row), front.len() as int) == row,
    decreases row.len(),
{
    let buf = front + row_bytes(row);
    let pos = front.len() as int;
    if row.len() == 0 {
        assert(buf.len() == pos);
        assert(chunks(buf, pos) == row);
    } else {
        let (first, rest) = (row[0], row.drop_first());
        let len = first.body.len() as int;
        let word = u32_bytes(len as u32);
        let pad = if len % 2 == 1 {
            seq![0u8]
        } else {
            Seq::<u8>::empty()
        };
        let after = front + chunk_bytes(first);
        assert(can_be_written(rest)) by {
            assert forall|i: int| 0 <= i < rest.len() implies (#[trigger] rest[i]).id.len() == 4
                && rest[i].body.len() <= u32::MAX by {
                assert(rest[i] == row[i + 1]);
            }
        }
        written_chunks_are_read_back(after, rest);
        assert(buf == after + row_bytes(rest));
        assert(buf == (front + first.id) + word + (first.body + pad + row_bytes(rest)));
        u32_round_trip(front + first.id, len as u32, first.body + pad + row_bytes(rest));
        assert(u32_at(buf, pos + 4) == len);
        assert(buf.subrange(pos, pos + 4) == first.id);
        assert(buf.subrange(pos + 8, pos + 8 + len) == first.body);
        assert(after.len() == pos + 8 + len + len % 2);
        assert(chunks(buf, pos) == seq![first] + chunks(buf, pos + 8 + len + len % 2));
        assert(seq![first] + rest == row);
    }
}

/// The data of a file is the body of its last data chunk; without one there is
/// none. Chunks of any other name are passed over.
pub proof fn the_last_data_chunk_counts(row: Seq<Chunk>)
    ensures
        match data_in(row) {
            Some(data) => exists|i: int|
                0 <= i < row.len() && (#[trigger] row[i]).id == seq![100u8, 97u8, 116u8, 97u8]
                    && row[i].body == data && forall|j: int|
                    i < j < row.len() ==> (#[trigger] row[j]).id != seq![100u8, 97u8, 116u8, 97u8],
            None => forall|i: int|
                0 <= i < row.len() ==> (#[trigger] row[i]).id != seq![100u8, 97u8, 116u8, 97u8],
        },
    decreases row.len(),
{
    let name = seq![100u8, 97u8, 116u8, 97u8];
    assert(data_id() == name);
    if row.len() > 0 {
        let rest = row.drop_last();
        if row.last().id == name {
            assert(row[row.len() - 1].id == name);
        } else {
            the_last_data_chunk_counts(rest);
            if let Some(data) = data_in(rest) {
                let i = choose|i: int|
                    0 <= i < rest.len() && (#[trigger] rest[i]).id == name && rest[i].body == data
                        && forall|j: int| i < j < rest.len() ==> (#[trigger] rest[j]).id != name;
                assert(row[i] == rest[i]);
                assert forall|j: int| i < j < row.len() implies (#[trigger] row[j]).id != name by {
                    if j < rest.len() {
                        assert(rest[j] == row[j]);
                    }
                }
            } else {
                assert forall|j: int| 0 <= j < row.len() implies (#[trigger] row[j]).id != name by {
                    if j < rest.len() {
                        assert(rest[j] == row[j]);
                    }
                }
            }
        }
    }
}

/// The format of a file is the one that its last format chunk of sixteen bytes
/// or more describes: the encoding in its first two bytes, the channels in the
/// next two, the rate in the next four, and the sample width in bytes 14 and
/// 15. Without one it is one channel of 16 bits.
pub proof fn the_last_format_chunk_counts(row: Seq<Chunk>)
    ensures
        (exists|i: int|
            0 <= i < row.len() && (#[trigger] row[i]).id == seq![102u8, 109u8, 116u8, 32u8]
                && row[i].body.len() >= 16 && (forall|j: int|
                i < j < row.len() && (#[trigger] row[j]).id == seq![102u8, 109u8, 116u8, 32u8]
                    ==> row[j].body.len() < 16) && {
                let (format, body) = (format_in(row), row[i].body);
                &&& format.audio_format == body[0] + 256 * body[1]
                &&& format.channels == body[2] + 256 * body[3]
                &&& format.sample_rate == body[4] + 256 * body[5] + 65536 * body[6] + 16777216
                    * body[7]
                &&& format.bits_per_sample == body[14] + 256 * body[15]
            }) || ((forall|i: int|
            0 <= i < row.len() && (#[trigger] row[i]).id == seq![102u8, 109u8, 116u8, 32u8]
                ==> row[i].body.len() < 16) && format_in(row).channels == 1 && format_in(
            row,
        ).bits_per_sample == 16 && format_in(row).audio_format == 0 && format_in(row).sample_rate
            == 0),
    decreases row.len(),
{
    let name = seq![102u8, 109u8, 116u8, 32u8];
    assert(fmt_id() == name);
    if row.len() > 0 {
        let rest = row.drop_last();
        let format = format_in(row);
        if is_format(row.last()) {
            let i = row.len() - 1;
            assert(row[i].id == name);
        } else {
            the_last_format_chunk_counts(rest);
            assert(format == format_in(rest));
            if exists|i: int|
                0 <= i < rest.len() && (#[trigger] rest[i]).id == name && rest[i].body.len() >= 16
                    && (forall|j: int|
                    i < j < rest.len() && (#[trigger] rest[j]).id == name ==> rest[j].body.len()
                        < 16) && {
                    let body = rest[i].body;
                    &&& format.audio_format == body[0] + 256 * body[1]
                    &&& format.channels == body[2] + 256 * body[3]
                    &&& format.sample_rate == body[4] + 256 * body[5] + 65536 * body[6]
                        + 16777216 * body[7]
                    &&& format.bits_per_sample == body[14] + 256 * body[15]
                } {
                let i = choose|i: int|
                    0 <= i < rest.len() && (#[trigger] rest[i]).id == name && rest[i].body.len()
                        >= 16 && (forall|j: int|
                        i < j < rest.len() && (#[trigger] rest[j]).id == name
                            ==> rest[j].body.len() < 16) && {
                        let body = rest[i].body;
                        &&& format.audio_format == body[0] + 256 * body[1]
                        &&& format.channels == body[2] + 256 * body[3]
                        &&& format.sample_rate == body[4] + 256 * body[5] + 65536 * body[6]
                            + 16777216 * body[7]
                        &&& format.bits_per_sample == body[14] + 256 * body[15]
                    };
                assert(row[i] == rest[i]);
                assert forall|j: int|
                    i < j < row.len() && (#[trigger] row[j]).id == name implies row[j].body.len()
                    < 16 by {
                    if j < rest.len() {
                        assert(rest[j] == row[j]);
                    }
                }
            } else {
                assert forall|j: int|
                    0 <= j < row.len() && (#[trigger] row[j]).id == name implies row[j].body.len()
                    < 16 by {
                    if j < rest.len() {
                        assert(rest[j] == row[j]);
                    }
                }
            }
        }
    }
}

/// A buffer is a WAV file exactly where it starts with RIFF, any four bytes and
/// WAVE. It is then read chunk by chunk from its thirteenth byte on, and it is
/// refused exactly where none of its chunks is a data chunk.
pub proof fn files_are_read_chunk_by_chunk(buf: Seq<u8>, size: Seq<u8>, row: Seq<Chunk>)
    requires
        size.len() == 4,
        can_be_written(row),
    ensures
        layout_of(buf) == Err::<(WavFormat, Seq<u8>), WavError>(WavError::NotRiffWave)
            <==> buf.len() < 12 || buf.take(4) != seq![82u8, 73u8, 70u8, 70u8] || buf.subrange(
            8,
            12,
        ) != seq![87u8, 65u8, 86u8, 69u8],
        layout_of(
            seq![82u8, 73u8, 70u8, 70u8] + size + seq![87u8, 65u8, 86u8, 69u8] + row_bytes(row),
        ) == (match data_in(row) {
            Some(data) => Ok::<(WavFormat, Seq<u8>), WavError>((format_in(row), data)),
            None => Err(WavError::NoDataChunk),
        }),
{
    let (riff, wave) = (seq![82u8, 73u8, 70u8, 70u8], seq![87u8, 65u8, 86u8, 69u8]);
    assert(riff_id() == riff);
    assert(wave_id() == wave);
    if buf.len() >= 12 {
        assert(buf.take(4) == buf.subrange(0, 4));
    }
    let front = riff + size + wave;
    let file = front + row_bytes(row);
    written_chunks_are_read_back(front, row);
    assert(file.subrange(0, 4) == riff);
    assert(file.subrange(8, 12) == wave);
}

/// What the header says besides what is read back: how long the rest of the
/// file is, how many bytes a second takes, and how many a frame does.
#[verifier::spinoff_prover]
pub proof fn the_header_counts_the_bytes(sample_rate: u32, samples: Seq<i16>)
    requires
        sample_rate * 2 <= u32::MAX,
        36 + 2 * samples.len() <= u32::MAX,
    ensures
        ({
            let file = wav_bytes(sample_rate, samples);
            &&& file.len() == 44 + 2 * samples.len()
            &&& u32_at(file, 4) == file.len() - 8
            &&& u32_at(file, 16) == 16
            &&& u32_at(file, 28) == 2 * sample_rate
            &&& u16_at(file, 32) == 2
            &&& u32_at(file, 40) == file.len() - 44
        }),
{
    let file = wav_bytes(sample_rate, samples);
    let n = samples.len();
    header_fields(sample_rate, samples);
    assert(data_length(n) == 2 * n);
    let size = u32_bytes((36 + data_length(n)) as u32);
    let byte_rate = u32_bytes((sample_rate * 2) as u32);
    let align = u16_bytes(2);
    let front = riff_id() + size + wave_id() + fmt_id() + u32_bytes(16) + u16_bytes(1) + u16_bytes(
        1,
    ) + u32_bytes(sample_rate);
    let back = u16_bytes(16) + data_id() + u32_bytes(data_length(n)) + pcm_bytes(samples);
    assert(front.len() == 28);
    assert(file == front + byte_rate + (align + back));
    assert(file.subrange(28, 32) == byte_rate);
    assert(file == (front + byte_rate) + align + back);
    assert(file.subrange(32, 34) == align);
    assert(front.subrange(4, 8) == size);
    assert(file.subrange(4, 8) == front.subrange(4, 8));
    number_in_part(file, 4, (36 + data_length(n)) as u32);
    number_in_part(file, 28, (sample_rate * 2) as u32);
    short_in_part(file, 32, 2);
}

} // verus!
