//! Linear-interpolation resampling between a device's native sample rate and
//! the modem's internal rate. It runs once, after a transmission is prepared
//! or a reception finishes, never on the real-time audio callback.
//!
//! Which samples each output sample lies between, and how far along, is
//! settled here; mixing the two is left to whoever knows what a sample is.

use vstd::arithmetic::power2::{lemma_pow2_adds, lemma_pow2_pos, pow2};
use vstd::prelude::*;
use crate::single::{divide, power_of_two, quotients_are_fine, rounding_is_fine, single_of};
use crate::single::{single_quotient, to_single, Single};

verus! {

/// An output sample: `a` where the fraction is zero, `b` where it is one, and
/// in proportion between them. Without a fraction it is not a number.
#[derive(Debug)]
pub struct Tap<S> {
    pub a: S,
    pub b: S,
    pub fraction: Option<Single>,
}

/// The samples at the other rate: the input itself where there is nothing to
/// interpolate.
pub enum Resampled<S> {
    Same(Vec<S>),
    Taps(Vec<Tap<S>>),
}

/// How many input samples one output sample covers.
pub open spec fn rate_ratio(from_rate: nat, to_rate: nat) -> (nat, nat) {
    single_quotient(single_of(from_rate), single_of(to_rate))
}

/// How many output samples there are: the input's length divided by the
/// ratio, at least one. Dividing by a ratio divides by its mantissa and
/// multiplies by its power of two, which is exact.
pub open spec fn output_length(len: nat, from_rate: nat, to_rate: nat) -> nat {
    let (m, shift) = rate_ratio(from_rate, to_rate);
    let (q, down) = single_quotient(single_of(len), m);
    let n = q * pow2(shift) / pow2(down);
    if n >= 1 {
        n
    } else {
        1
    }
}

/// Where in the input output sample `i` lies, in parts of the ratio's power of
/// two.
pub open spec fn position_of(i: nat, m: nat) -> nat {
    single_of(single_of(i) * m)
}

/// The input sample at `i`, the last one where there are not that many.
pub open spec fn sample_near<S>(input: Seq<S>, i: nat) -> S {
    if i < input.len() {
        input[i as int]
    } else {
        input.last()
    }
}

/// Output sample `i`.
pub open spec fn is_tap<S>(tap: Tap<S>, input: Seq<S>, i: nat, m: nat, shift: nat) -> bool {
    let position = position_of(i, m);
    let whole = position / pow2(shift);
    &&& tap.a == sample_near(input, whole)
    &&& tap.b == sample_near(input, whole + 1)
    &&& tap.fraction matches Some(f) && f.shift == shift && f.mantissa == position % pow2(shift)
}

/// Whether anything has to be interpolated.
pub open spec fn interpolates(len: nat, from_rate: u32, to_rate: u32) -> bool {
    from_rate != to_rate && len > 0
}

/// Whether the output can be held: there has to be a rate to come from, and no
/// more samples than memory can have.
pub open spec fn can_resample(len: nat, from_rate: u32, to_rate: u32) -> bool {
    interpolates(len, from_rate, to_rate) && to_rate > 0 ==> {
        &&& from_rate > 0
        &&& output_length(len, from_rate as nat, to_rate as nat) <= usize::MAX
    }
}

fn ratio(from_rate: u32, to_rate: u32) -> (r: Single)
    requires
        from_rate > 0,
        to_rate > 0,
    ensures
        (r.mantissa as nat, r.shift as nat) == rate_ratio(from_rate as nat, to_rate as nat),
        0 < r.mantissa <= 0x4_0000_0000,
        r.shift <= 104,
{
    let num: u128 = to_single(from_rate as u128);
    let den: u128 = to_single(to_rate as u128);
    divide(num, den)
}

proof fn scaled_quotient(q: nat, up: nat, down: nat)
    ensures
        up >= down ==> q * pow2(up) / pow2(down) == q * pow2((up - down) as nat),
        up < down ==> q * pow2(up) / pow2(down) == q / pow2((down - up) as nat),
{
    lemma_pow2_pos(up);
    lemma_pow2_pos(down);
    if up >= down {
        let d = pow2(down);
        let rest = pow2((up - down) as nat);
        lemma_pow2_adds(down, (up - down) as nat);
        assert(q * pow2(up) == (q * rest) * d) by (nonlinear_arith)
            requires
                pow2(up) == d * rest,
        ;
        vstd::arithmetic::div_mod::lemma_div_by_multiple((q * rest) as int, d as int);
    } else {
        let u = pow2(up);
        let rest = pow2((down - up) as nat);
        lemma_pow2_pos((down - up) as nat);
        lemma_pow2_adds(up, (down - up) as nat);
        vstd::arithmetic::div_mod::lemma_div_denominator((q * u) as int, u as int, rest as int);
        assert(q * u / u == q) by {
            vstd::arithmetic::div_mod::lemma_div_by_multiple(q as int, u as int);
        }
    }
}

/// How many samples come out, if they can be held.
fn count_output(len: usize, r: Single) -> (n: Option<usize>)
    requires
        len > 0,
        0 < r.mantissa <= 0x4_0000_0000,
        r.shift <= 104,
    ensures
        ({
            let (q, down) = single_quotient(single_of(len as nat), r.mantissa as nat);
            let scaled = q * pow2(r.shift as nat) / pow2(down);
            match n {
                Some(k) => k == (if scaled >= 1 {
                    scaled
                } else {
                    1
                }),
                None => scaled > usize::MAX,
            }
        }),
{
    let q = divide(to_single(len as u128), r.mantissa);
    proof {
        scaled_quotient(q.mantissa as nat, r.shift as nat, q.shift as nat);
    }
    let most: u128 = usize::MAX as u128;
    let scaled: u128 = if r.shift >= q.shift {
        let p: u128 = power_of_two(r.shift - q.shift);
        if q.mantissa > most / p {
            assert(q.mantissa * p > most) by (nonlinear_arith)
                requires
                    q.mantissa > most / p,
                    p >= 1,
            ;
            return None;
        }
        assert(q.mantissa * p <= most) by (nonlinear_arith)
            requires
                q.mantissa <= most / p,
                p >= 1,
        ;
        q.mantissa * p
    } else {
        q.mantissa / power_of_two(q.shift - r.shift)
    };
    if scaled > most {
        None
    } else if scaled >= 1 {
        Some(scaled as usize)
    } else {
        Some(1)
    }
}

/// Whether `resample` can be called.
pub fn resamples(len: usize, from_rate: u32, to_rate: u32) -> (yes: bool)
    ensures
        yes == can_resample(len as nat, from_rate, to_rate),
{
    if from_rate == to_rate || len == 0 || to_rate == 0 {
        return true;
    }
    if from_rate == 0 {
        return false;
    }
    let r = ratio(from_rate, to_rate);
    count_output(len, r).is_some()
}

fn near<S: Copy>(input: &[S], i: u128) -> (s: S)
    requires
        input@.len() > 0,
    ensures
        s == sample_near(input@, i as nat),
{
    let n: usize = input.len();
    if i < n as u128 {
        input[i as usize]
    } else {
        input[n - 1]
    }
}

/// Resamples from one rate to the other. An output rate of zero leaves a
/// single sample that is not a number.
pub fn resample<S: Copy>(input: &[S], from_rate: u32, to_rate: u32) -> (out: Resampled<S>)
    requires
        can_resample(input@.len(), from_rate, to_rate),
    ensures
        match out {
            Resampled::Same(samples) => !interpolates(input@.len(), from_rate, to_rate) && samples@
                == input@,
            Resampled::Taps(taps) => {
                &&& interpolates(input@.len(), from_rate, to_rate)
                &&& if to_rate == 0 {
                    &&& taps@.len() == 1
                    &&& taps@[0].a == input@[0]
                    &&& taps@[0].b == sample_near(input@, 1)
                    &&& taps@[0].fraction is None
                } else {
                    let (m, shift) = rate_ratio(from_rate as nat, to_rate as nat);
                    &&& taps@.len() == output_length(
                        input@.len(),
                        from_rate as nat,
                        to_rate as nat,
                    )
                    &&& forall|i: int|
                        0 <= i < taps@.len() ==> is_tap(
                            #[trigger] taps@[i],
                            input@,
                            i as nat,
                            m,
                            shift,
                        )
                }
            },
        },
{
    if from_rate == to_rate || input.len() == 0 {
        let mut same: Vec<S> = Vec::new();
        for i in 0..input.len()
            invariant
                same@ == input@.take(i as int),
        {
            same.push(input[i]);
            assert(same@ == input@.take(i + 1));
        }
        assert(input@.take(input@.len() as int) == input@);
        return Resampled::Same(same);
    }
    let mut taps: Vec<Tap<S>> = Vec::new();
    if to_rate == 0 {
        taps.push(Tap { a: input[0], b: near(input, 1), fraction: None });
        return Resampled::Taps(taps);
    }
    let r = ratio(from_rate, to_rate);
    let n: usize = match count_output(input.len(), r) {
        Some(n) => n,
        None => 0,
    };
    let one: u128 = power_of_two(r.shift);
    for i in 0..n
        invariant
            input@.len() > 0,
            0 < r.mantissa <= 0x4_0000_0000,
            r.shift <= 104,
            one == pow2(r.shift as nat),
            1 <= one,
            taps@.len() == i,
            forall|k: int|
                0 <= k < i ==> is_tap(
                    #[trigger] taps@[k],
                    input@,
                    k as nat,
                    r.mantissa as nat,
                    r.shift as nat,
                ),
    {
        let step: u128 = to_single(i as u128);
        assert(step * r.mantissa <= 0x2_0000_0000_0000_0000 * 0x4_0000_0000) by (nonlinear_arith)
            requires
                step <= 0x2_0000_0000_0000_0000,
                r.mantissa <= 0x4_0000_0000,
        ;
        let position: u128 = to_single(step * r.mantissa);
        let whole: u128 = position / one;
        let rest: u128 = position % one;
        let tap = Tap {
            a: near(input, whole),
            b: near(input, whole + 1),
            fraction: Some(Single { mantissa: rest, shift: r.shift }),
        };
        assert(whole <= position) by (nonlinear_arith)
            requires
                whole == position / one,
                one >= 1,
        ;
        taps.push(tap);
    }
    Resampled::Taps(taps)
}

// ---------------------------------------------------------------------
// Laws
// ---------------------------------------------------------------------

/// A product of factors that are each at most one part in 16,777,216 too large
/// or too small.
proof fn a_ratio_times_a_number(
    m: nat,
    p: nat,
    from: nat,
    to: nat,
    near_from: nat,
    near_to: nat,
    x: nat,
)
    requires
        0x100_0000 * (m * near_to) <= 0x100_0001 * (near_from * p),
        0x100_0000 * (m * near_to) >= 0xFF_FFFF * (near_from * p),
        0x100_0000 * near_from <= 0x100_0001 * from,
        0x100_0000 * near_from >= 0xFF_FFFF * from,
        0x100_0000 * near_to <= 0x100_0001 * to,
        0x100_0000 * near_to >= 0xFF_FFFF * to,
    ensures
        0x3F_FFFF * (x * m * to) <= 0x40_0000 * (x * from * p),
        0x40_0000 * (x * m * to) >= 0x3F_FFFF * (x * from * p),
{
    let a = m * near_to;
    let b = near_from * p;
    assert(0x100_0000 * a >= 0xFF_FFFF * (m * to)) by (nonlinear_arith)
        requires
            a == m * near_to,
            0x100_0000 * near_to >= 0xFF_FFFF * to,
    ;
    assert(0x100_0000 * a <= 0x100_0001 * (m * to)) by (nonlinear_arith)
        requires
            a == m * near_to,
            0x100_0000 * near_to <= 0x100_0001 * to,
    ;
    assert(0x100_0000 * b <= 0x100_0001 * (from * p)) by (nonlinear_arith)
        requires
            b == near_from * p,
            0x100_0000 * near_from <= 0x100_0001 * from,
    ;
    assert(0x100_0000 * b >= 0xFF_FFFF * (from * p)) by (nonlinear_arith)
        requires
            b == near_from * p,
            0x100_0000 * near_from >= 0xFF_FFFF * from,
    ;
    let (c, d) = (m * to, from * p);
    assert(0x3F_FFFF * c <= 0x40_0000 * d);
    assert(0x40_0000 * c >= 0x3F_FFFF * d);
    assert(x * m * to == x * c) by (nonlinear_arith)
        requires
            c == m * to,
    ;
    assert(x * from * p == x * d) by (nonlinear_arith)
        requires
            d == from * p,
    ;
    assert(0x3F_FFFF * (x * c) <= 0x40_0000 * (x * d)) by (nonlinear_arith)
        requires
            0x3F_FFFF * c <= 0x40_0000 * d,
    ;
    assert(0x40_0000 * (x * c) >= 0x3F_FFFF * (x * d)) by (nonlinear_arith)
        requires
            0x40_0000 * c >= 0x3F_FFFF * d,
    ;
}

/// The output lasts as long as the input, to the sample: its length is the
/// input's length times the output rate over the input rate, rounded down,
/// within one part in 2,097,152, and at least one.
#[verifier::spinoff_prover]
pub proof fn the_output_lasts_as_long_as_the_input(len: nat, from_rate: nat, to_rate: nat)
    requires
        len > 0,
        from_rate > 0,
        to_rate > 0,
    ensures
        output_length(len, from_rate, to_rate) >= 1,
        output_length(len, from_rate, to_rate) == 1 || 0x1F_FFFF * (output_length(
            len,
            from_rate,
            to_rate,
        ) * from_rate) <= 0x20_0000 * (len * to_rate),
        0x20_0000 * ((output_length(len, from_rate, to_rate) + 1) * from_rate) > 0x1F_FFFF * (len
            * to_rate),
{
    let (f, t, l) = (single_of(from_rate), single_of(to_rate), single_of(len));
    let (m, shift) = single_quotient(f, t);
    let (q, down) = single_quotient(l, m);
    let (up, d) = (pow2(shift), pow2(down));
    rounding_is_fine(from_rate);
    rounding_is_fine(to_rate);
    rounding_is_fine(len);
    assert(f > 0 && t > 0 && l > 0);
    quotients_are_fine(f, t);
    quotients_are_fine(l, m);
    lemma_pow2_pos(shift);
    lemma_pow2_pos(down);
    a_ratio_times_a_number(m, up, from_rate, to_rate, f, t, q);
    let scaled = q * up;
    let n = scaled / d;
    let x = len * to_rate;
    // With w = q * m * to_rate: close to q * from_rate * up on the one side,
    // and to len * d * to_rate on the other.
    let w = q * m * to_rate;
    let y = scaled * from_rate;
    assert(q * from_rate * up == y) by (nonlinear_arith)
        requires
            scaled == q * up,
            y == scaled * from_rate,
    ;
    let v = l * d;
    assert(0x100_0000 * (q * m) <= 0x100_0001 * v);
    assert(0x100_0000 * (q * m) >= 0xFF_FFFF * v);
    assert(0x100_0000 * w <= 0x100_0001 * (v * to_rate)) by (nonlinear_arith)
        requires
            w == q * m * to_rate,
            0x100_0000 * (q * m) <= 0x100_0001 * v,
    ;
    assert(0x100_0000 * w >= 0xFF_FFFF * (v * to_rate)) by (nonlinear_arith)
        requires
            w == q * m * to_rate,
            0x100_0000 * (q * m) >= 0xFF_FFFF * v,
    ;
    let xd = x * d;
    assert(0x100_0000 * (v * to_rate) <= 0x100_0001 * xd) by (nonlinear_arith)
        requires
            v == l * d,
            xd == x * d,
            x == len * to_rate,
            0x100_0000 * l <= 0x100_0001 * len,
    ;
    assert(0x100_0000 * (v * to_rate) >= 0xFF_FFFF * xd) by (nonlinear_arith)
        requires
            v == l * d,
            xd == x * d,
            x == len * to_rate,
            0x100_0000 * l >= 0xFF_FFFF * len,
    ;
    assert(0x1F_FFFF * y <= 0x20_0000 * xd);
    assert(0x20_0000 * y >= 0x1F_FFFF * xd);
    assert(n * d <= scaled < n * d + d) by (nonlinear_arith)
        requires
            n == scaled / d,
            d > 0,
    ;
    assert(0x1F_FFFF * (n * from_rate) <= 0x20_0000 * x) by (nonlinear_arith)
        requires
            0x1F_FFFF * (scaled * from_rate) <= 0x20_0000 * (x * d),
            n * d <= scaled,
            d > 0,
    ;
    assert(0x20_0000 * ((n + 1) * from_rate) > 0x1F_FFFF * x) by (nonlinear_arith)
        requires
            0x20_0000 * (scaled * from_rate) >= 0x1F_FFFF * (x * d),
            scaled < n * d + d,
            d > 0,
            from_rate > 0,
    ;
    let out = output_length(len, from_rate, to_rate);
    assert((out + 1) * from_rate >= (n + 1) * from_rate) by (nonlinear_arith)
        requires
            out >= n,
    ;
}

/// Every output sample lies where its time falls in the input: between two
/// neighbouring input samples, less than a whole sample behind the first. Their
/// place times the output rate is the output's place times the input rate,
/// within one part in 2,097,152. Past the end the last sample goes on.
#[verifier::spinoff_prover]
pub proof fn output_samples_lie_where_their_time_falls<S>(
    tap: Tap<S>,
    input: Seq<S>,
    i: nat,
    from_rate: nat,
    to_rate: nat,
    whole: nat,
)
    requires
        from_rate > 0,
        to_rate > 0,
        is_tap(
            tap,
            input,
            i,
            rate_ratio(from_rate, to_rate).0,
            rate_ratio(from_rate, to_rate).1,
        ),
        whole == position_of(i, rate_ratio(from_rate, to_rate).0) / pow2(
            rate_ratio(from_rate, to_rate).1,
        ),
    ensures
        whole < input.len() ==> tap.a == input[whole as int],
        whole >= input.len() ==> tap.a == input.last(),
        whole + 1 < input.len() ==> tap.b == input[(whole + 1) as int],
        whole + 1 >= input.len() ==> tap.b == input.last(),
        tap.fraction matches Some(f) && {
            let one = pow2(f.shift as nat);
            let place = whole * one + f.mantissa as nat;
            &&& f.mantissa < one
            &&& 0x1F_FFFF * (place * to_rate) <= 0x20_0000 * (i * from_rate * one)
            &&& 0x20_0000 * (place * to_rate) >= 0x1F_FFFF * (i * from_rate * one)
        },
{
    let (f, t, near) = (single_of(from_rate), single_of(to_rate), single_of(i));
    let (m, shift) = single_quotient(f, t);
    let one = pow2(shift);
    let place = position_of(i, m);
    rounding_is_fine(from_rate);
    rounding_is_fine(to_rate);
    rounding_is_fine(i);
    rounding_is_fine(near * m);
    assert(f > 0 && t > 0);
    quotients_are_fine(f, t);
    lemma_pow2_pos(shift);
    a_ratio_times_a_number(m, one, from_rate, to_rate, f, t, i);
    assert(whole * one + place % one == place && place % one < one) by (nonlinear_arith)
        requires
            whole == place / one,
            one > 0,
    ;
    let w = i * m;
    assert(0x100_0000 * (near * m) <= 0x100_0001 * w) by (nonlinear_arith)
        requires
            w == i * m,
            0x100_0000 * near <= 0x100_0001 * i,
    ;
    assert(0x100_0000 * (near * m) >= 0xFF_FFFF * w) by (nonlinear_arith)
        requires
            w == i * m,
            0x100_0000 * near >= 0xFF_FFFF * i,
    ;
    assert(0x7F_FFFF * place <= 0x80_0000 * w);
    assert(0x80_0000 * place >= 0x7F_FFFF * w);
    assert(0x7F_FFFF * (place * to_rate) <= 0x80_0000 * (w * to_rate)) by (nonlinear_arith)
        requires
            0x7F_FFFF * place <= 0x80_0000 * w,
    ;
    assert(0x80_0000 * (place * to_rate) >= 0x7F_FFFF * (w * to_rate)) by (nonlinear_arith)
        requires
            0x80_0000 * place >= 0x7F_FFFF * w,
    ;
}

/// The first output sample is the first input sample.
pub proof fn the_output_starts_with_the_input<S>(tap: Tap<S>, input: Seq<S>, m: nat, shift: nat)
    requires
        input.len() > 0,
        is_tap(tap, input, 0, m, shift),
    ensures
        tap.a == input[0],
        tap.fraction matches Some(f) && f.mantissa == 0,
{
    lemma_pow2_pos(shift);
    rounding_is_fine(0);
    assert(0 * m == 0) by (nonlinear_arith);
    let one = pow2(shift);
    assert(0nat / one == 0 && 0nat % one == 0) by (nonlinear_arith)
        requires
            one > 0,
    ;
}

/// What can be resampled: everything whose output, with one part in 1,048,576
/// to spare, has no more samples than memory can have. From a rate of zero
/// nothing can be brought to another rate.
pub proof fn what_fits_memory_can_be_resampled(len: nat, from_rate: u32, to_rate: u32)
    ensures
        from_rate > 0 && 0x10_0000 * (len * to_rate) <= 0xF_FFFF * (usize::MAX * from_rate)
            ==> can_resample(len, from_rate, to_rate),
        from_rate == to_rate || len == 0 || to_rate == 0 ==> can_resample(len, from_rate, to_rate),
        from_rate == 0 && to_rate > 0 && len > 0 ==> !can_resample(len, from_rate, to_rate),
{
    if from_rate > 0 && to_rate > 0 && len > 0 {
        let n = output_length(len, from_rate as nat, to_rate as nat);
        the_output_lasts_as_long_as_the_input(len, from_rate as nat, to_rate as nat);
        if n > 1 && 0x10_0000 * (len * to_rate) <= 0xF_FFFF * (usize::MAX * from_rate) {
            assert(n <= usize::MAX) by (nonlinear_arith)
                requires
                    0x1F_FFFF * (n * from_rate) <= 0x20_0000 * (len * to_rate),
                    0x10_0000 * (len * to_rate) <= 0xF_FFFF * (usize::MAX * from_rate),
                    from_rate > 0,
            ;
        }
    }
}

/// There is nothing to interpolate exactly where the rates are the same or there
/// are no samples.
pub proof fn other_rates_are_interpolated(len: nat, from_rate: u32, to_rate: u32)
    ensures
        !interpolates(len, from_rate, to_rate) <==> from_rate == to_rate || len == 0,
{
}

} // verus!
