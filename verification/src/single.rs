//! Single-precision arithmetic in whole numbers. The audio side of the
//! application counts in single precision (24 significant bits, rounded to
//! the nearest, ties to the even one); what it decides from sample counts is
//! decided here exactly as it is there.

use vstd::arithmetic::power2::{lemma_pow2_adds, lemma_pow2_pos, lemma_pow2_unfold, pow2};
use vstd::prelude::*;
use crate::text::{decimal, decimal_text, digit, two_digit_text, two_digits};

verus! {

/// `num / den` to the nearest whole number, a tie to the even one.
pub open spec fn nearest(num: nat, den: nat) -> nat {
    let q = num / den;
    let r = num % den;
    if 2 * r > den || (2 * r == den && q % 2 == 1) {
        q + 1
    } else {
        q
    }
}

/// The distance between neighbouring single-precision numbers at `n`, at
/// least one.
pub open spec fn spacing(n: nat) -> nat
    decreases n,
{
    if n < 0x100_0000 {
        1
    } else {
        2 * spacing(n / 2)
    }
}

/// The single-precision number nearest to the whole number `n`.
pub open spec fn single_of(n: nat) -> nat {
    nearest(n, spacing(n)) * spacing(n)
}

/// How many times a fraction has to be doubled to fill 24 significant bits.
pub open spec fn doublings(num: nat, den: nat) -> nat
    decreases
            (if num < 0x80_0000 * den {
                0x80_0000 * den - num
            } else {
                0
            }),
{
    if num == 0 || num >= 0x80_0000 * den {
        0
    } else {
        1 + doublings(2 * num, den)
    }
}

/// The distance between neighbouring single-precision numbers at `num / den`,
/// at least one.
pub open spec fn quotient_spacing(num: nat, den: nat) -> nat
    decreases num / den,
{
    if den == 0 || num < 0x100_0000 * den {
        1
    } else {
        proof {
            assert(num / (2 * den) < num / den) by (nonlinear_arith)
                requires
                    den > 0,
                    num >= 0x100_0000 * den,
            ;
        }
        2 * quotient_spacing(num, 2 * den)
    }
}

/// A finite, non-negative single-precision number: `mantissa` divided by two
/// to the power of `shift`.
#[derive(Clone, Copy, Debug, PartialEq, Eq, Structural)]
pub struct Single {
    pub mantissa: u128,
    pub shift: u32,
}

/// The bound on what is divided.
pub const LIMIT: u128 = 0x1_0000_0000_0000_0000_0000;

impl Single {
    pub open spec fn wf(self) -> bool {
        self.shift <= 104
    }

    /// Whether the number is at least the whole number `c`.
    pub open spec fn reaches(self, c: nat) -> bool {
        self.mantissa >= c * pow2(self.shift as nat)
    }
}

/// The single-precision quotient of two whole numbers.
pub open spec fn single_quotient(num: nat, den: nat) -> (nat, nat) {
    let shift = doublings(num, den);
    let step = quotient_spacing(num, den);
    (nearest(num * pow2(shift), den * step) * step, shift)
}

proof fn half_of(num: nat, den: nat)
    requires
        den >= 2,
    ensures
        num / den <= num / 2,
{
    assert(num / den <= num / 2) by (nonlinear_arith)
        requires
            den >= 2,
    ;
}

fn round_nearest(num: u128, den: u128) -> (q: u128)
    requires
        den > 0,
    ensures
        q == nearest(num as nat, den as nat),
{
    let q: u128 = num / den;
    let r: u128 = num % den;
    if r > den - r || (r == den - r && q % 2 == 1) {
        proof {
            if den >= 2 {
                half_of(num as nat, den as nat);
            }
        }
        q + 1
    } else {
        q
    }
}

proof fn nearest_is_close(num: nat, den: nat)
    requires
        den > 0,
    ensures
        nearest(num, den) * den <= num + den,
        nearest(num, den) <= num / den + 1,
{
    let q = num / den;
    assert(q * den <= num) by (nonlinear_arith)
        requires
            den > 0,
            q == num / den,
    ;
    assert((q + 1) * den == q * den + den) by (nonlinear_arith);
}

/// The single-precision number nearest to a whole number.
pub fn to_single(n: u128) -> (s: u128)
    requires
        n <= 0x3FFF_FFFF_FFFF_FFFF_FFFF_FFFF_FFFF_FFFF,
    ensures
        s == single_of(n as nat),
        s <= 2 * n,
        n > 0 ==> s > 0,
{
    let mut rest: u128 = n;
    let mut step: u128 = 1;
    while rest >= 0x100_0000
        invariant
            n <= 0x3FFF_FFFF_FFFF_FFFF_FFFF_FFFF_FFFF_FFFF,
            spacing(n as nat) == step * spacing(rest as nat),
            1 <= step,
            rest == 0 ==> step == 1,
            step * rest <= n,
        decreases rest,
    {
        assert(step <= step * rest) by (nonlinear_arith)
            requires
                rest >= 0x100_0000,
                step >= 1,
        ;
        assert((step * 2) * (rest / 2) <= step * rest) by (nonlinear_arith)
            requires
                step >= 1,
        ;
        assert(step * 0x100_0000 <= step * rest) by (nonlinear_arith)
            requires
                rest >= 0x100_0000,
        ;
        assert(step * (2 * spacing((rest / 2) as nat)) == (step * 2) * spacing((rest / 2) as nat))
            by (nonlinear_arith);
        rest = rest / 2;
        step = step * 2;
    }
    assert(step * spacing(rest as nat) == step) by (nonlinear_arith)
        requires
            spacing(rest as nat) == 1,
    ;
    assert(n > 0 ==> step <= n) by (nonlinear_arith)
        requires
            step * rest <= n,
            rest == 0 ==> step == 1,
            rest >= 0,
    ;
    let q: u128 = round_nearest(n, step);
    proof {
        nearest_is_close(n as nat, step as nat);
        if n > 0 {
            assert(n / step >= 1) by (nonlinear_arith)
                requires
                    1 <= step <= n,
            ;
            assert(q * step >= 1) by (nonlinear_arith)
                requires
                    q >= 1,
                    step >= 1,
            ;
        }
    }
    q * step
}

/// The single-precision quotient of two whole numbers.
pub fn divide(num: u128, den: u128) -> (s: Single)
    requires
        num <= LIMIT,
        1 <= den <= LIMIT,
    ensures
        (s.mantissa as nat, s.shift as nat) == single_quotient(num as nat, den as nat),
        s.shift <= 104,
        num < 0x80_0000 * den ==> s.mantissa <= 0x200_0000,
        num >= 0x80_0000 * den ==> s.mantissa <= 2 * num,
        num > 0 ==> s.mantissa > 0,
        s.shift > 0 ==> num * pow2((s.shift - 1) as nat) < 0x80_0000 * den,
{
    if num == 0 {
        assert(nearest(0 * pow2(0), (den * 1) as nat) == 0) by {
            assert(0 * pow2(0) == 0);
            assert(0nat / (den as nat) == 0 && 0nat % (den as nat) == 0) by (nonlinear_arith)
                requires
                    den > 0,
            ;
        }
        assert(0 * 1 == 0);
        return Single { mantissa: 0, shift: 0 };
    }
    if num < 0x80_0000 * den {
        let mut top: u128 = num;
        let mut shift: u32 = 0;
        proof {
            lemma2_zero();
        }
        while top < 0x80_0000 * den
            invariant
                0 < num <= LIMIT,
                1 <= den <= LIMIT,
                0 < top < 0x100_0000 * den,
                top == num * pow2(shift as nat),
                doublings(num as nat, den as nat) == shift + doublings(top as nat, den as nat),
                shift <= 104,
                shift > 0 ==> num * pow2((shift - 1) as nat) < 0x80_0000 * den,
            decreases 0x100_0000 * den - top,
        {
            proof {
                doubled_power(num as nat, shift as nat);
                shift_is_bounded(num as nat, den as nat, shift as nat);
            }
            top = top * 2;
            shift = shift + 1;
        }
        let q: u128 = round_nearest(top, den);
        proof {
            assert(quotient_spacing(num as nat, den as nat) == 1);
            assert(den * 1 == den);
            nearest_is_close(top as nat, den as nat);
            assert(1 <= top / den <= 0x100_0000) by (nonlinear_arith)
                requires
                    0x80_0000 * den <= top < 0x100_0000 * den,
                    den >= 1,
            ;
        }
        return Single { mantissa: q, shift };
    }
    let mut unit: u128 = den;
    let mut step: u128 = 1;
    while num >= 0x100_0000 * unit
        invariant
            num <= LIMIT,
            1 <= den,
            1 <= step,
            unit == den * step,
            1 <= unit <= LIMIT,
            unit <= num,
            quotient_spacing(num as nat, den as nat) == step * quotient_spacing(
                num as nat,
                unit as nat,
            ),
        decreases num - unit,
    {
        assert(den * (step * 2) == unit * 2) by (nonlinear_arith)
            requires
                unit == den * step,
        ;
        assert(step * (2 * quotient_spacing(num as nat, (2 * unit) as nat)) == (step * 2)
            * quotient_spacing(num as nat, (2 * unit) as nat)) by (nonlinear_arith);
        assert(step <= unit) by (nonlinear_arith)
            requires
                unit == den * step,
                den >= 1,
        ;
        unit = unit * 2;
        step = step * 2;
    }
    assert(step * 1 == step);
    let q: u128 = round_nearest(num, unit);
    proof {
        lemma2_zero();
        nearest_is_close(num as nat, unit as nat);
        assert(num * 1 == num);
        assert(step <= unit) by (nonlinear_arith)
            requires
                unit == den * step,
                den >= 1,
        ;
        assert(q * step <= q * unit) by (nonlinear_arith)
            requires
                step <= unit,
        ;
        assert(num / unit >= 1) by (nonlinear_arith)
            requires
                1 <= unit <= num,
        ;
        assert(q * step >= 1) by (nonlinear_arith)
            requires
                q >= 1,
                step >= 1,
        ;
    }
    Single { mantissa: q * step, shift: 0 }
}

proof fn lemma2_zero()
    ensures
        pow2(0) == 1,
{
    vstd::arithmetic::power2::lemma2_to64();
}

proof fn doubled_power(num: nat, shift: nat)
    ensures
        (num * pow2(shift)) * 2 == num * pow2(shift + 1),
{
    lemma_pow2_unfold(shift + 1);
    assert((num * pow2(shift)) * 2 == num * (2 * pow2(shift))) by (nonlinear_arith);
}

proof fn shift_is_bounded(num: nat, den: nat, shift: nat)
    requires
        1 <= num,
        den <= LIMIT,
        num * pow2(shift) < 0x80_0000 * den,
    ensures
        shift < 104,
{
    if shift >= 104 {
        lemma_pow2_adds(104, (shift - 104) as nat);
        lemma_pow2_pos((shift - 104) as nat);
        power_of_104();
        assert(pow2(104) <= pow2(shift)) by (nonlinear_arith)
            requires
                pow2(shift) == pow2(104) * pow2((shift - 104) as nat),
                pow2((shift - 104) as nat) >= 1,
        ;
        assert(pow2(104) <= num * pow2(shift)) by (nonlinear_arith)
            requires
                num >= 1,
                pow2(104) <= pow2(shift),
        ;
    }
}

proof fn power_of_104()
    ensures
        pow2(104) == 0x100_0000_0000_0000_0000_0000_0000,
{
    vstd::arithmetic::power2::lemma2_to64();
    vstd::arithmetic::power2::lemma2_to64_rest();
    lemma_pow2_adds(64, 40);
}

/// How many seconds a number of samples lasts, in single precision.
pub open spec fn seconds_in(samples: nat, rate: nat) -> (nat, nat) {
    single_quotient(single_of(samples), single_of(rate))
}

/// How many seconds a number of samples lasts.
pub fn seconds_of(samples: usize, rate: u32) -> (s: Single)
    requires
        rate > 0,
    ensures
        s.wf(),
        s.mantissa <= LIMIT,
        (s.mantissa as nat, s.shift as nat) == seconds_in(samples as nat, rate as nat),
{
    let num: u128 = to_single(samples as u128);
    let den: u128 = to_single(rate as u128);
    divide(num, den)
}

/// Whether a number of samples lasts at least `c` seconds. At a rate of zero
/// any sample at all lasts longer than that.
pub open spec fn lasts(samples: nat, rate: nat, c: nat) -> bool {
    if rate == 0 {
        samples > 0
    } else {
        let (mantissa, shift) = seconds_in(samples, rate);
        mantissa >= c * pow2(shift)
    }
}

/// Whether a number of samples lasts at least `c` seconds.
pub fn lasts_at_least(samples: usize, rate: u32, c: u32) -> (yes: bool)
    ensures
        yes == lasts(samples as nat, rate as nat, c as nat),
{
    if rate == 0 {
        samples > 0
    } else {
        seconds_of(samples, rate).at_least(c)
    }
}

/// A tenth of a number, in single precision: the single-precision number
/// nearest to a tenth is 13421773 divided by two to the power of 27.
pub open spec fn tenth_of(n: nat) -> nat {
    single_of(single_of(n) * 13421773) / 0x800_0000
}

/// A tenth of a number, rounded down.
pub fn tenth(n: u32) -> (t: usize)
    ensures
        t == tenth_of(n as nat),
        t < 0x8000_0000,
{
    let product: u128 = to_single(n as u128) * 13421773;
    let rounded: u128 = to_single(product);
    (rounded / 0x800_0000) as usize
}

/// A span of nanoseconds in seconds: the whole seconds and the rest, each in
/// single precision, added in single precision.
pub open spec fn span_in_seconds(nanos: nat) -> (nat, nat) {
    let (m, shift) = single_quotient(single_of(nanos % 1_000_000_000), 1_000_000_000);
    (single_of(single_of(nanos / 1_000_000_000) * pow2(shift) + m), shift)
}

/// A span of nanoseconds in seconds.
pub fn span_seconds(nanos: u64) -> (s: Single)
    ensures
        s.shift <= 60,
        s.mantissa <= 0x100_0000_0000_0000_0000_0000_0000,
        (s.mantissa as nat, s.shift as nat) == span_in_seconds(nanos as nat),
{
    let whole: u128 = to_single((nanos / 1_000_000_000) as u128);
    let part: u128 = to_single((nanos % 1_000_000_000) as u128);
    let rest = divide(part, 1_000_000_000);
    proof {
        if rest.shift > 0 {
            short_shift(part as nat, rest.shift as nat);
        }
    }
    let one: u128 = power_of_two(rest.shift);
    proof {
        if part == 0 {
            assert(rest.shift == 0);
        }
        sixty_doublings(rest.shift as nat);
        assert(whole * one <= 0x10_0000_0000 * 0x1000_0000_0000_0000) by (nonlinear_arith)
            requires
                whole <= 0x10_0000_0000,
                one <= 0x1000_0000_0000_0000,
        ;
    }
    Single { mantissa: to_single(whole * one + rest.mantissa), shift: rest.shift }
}

/// No time at all is zero seconds.
pub proof fn no_time_is_zero_seconds()
    ensures
        span_in_seconds(0) == (0nat, 0nat),
{
    lemma2_zero();
    assert(nearest(0, 1) == 0);
    assert(single_of(0) == 0) by {
        assert(0nat * 1 == 0);
    }
    assert(0nat / 1_000_000_000 == 0 && 0nat % 1_000_000_000 == 0);
    assert(nearest(0 * pow2(0), 1_000_000_000 * 1) == 0) by {
        assert(0 * pow2(0) == 0);
    }
    assert(single_quotient(0, 1_000_000_000) == (0nat, 0nat));
    assert(0 * pow2(0) + 0 == 0);
}

proof fn sixty_doublings(shift: nat)
    requires
        shift <= 60,
    ensures
        pow2(shift) <= 0x1000_0000_0000_0000,
{
    lemma_pow2_pos((60 - shift) as nat);
    lemma_pow2_pos(shift);
    lemma_pow2_adds(shift, (60 - shift) as nat);
    vstd::arithmetic::power2::lemma2_to64();
    vstd::arithmetic::power2::lemma2_to64_rest();
    assert(pow2(shift) <= pow2(60)) by (nonlinear_arith)
        requires
            pow2(60) == pow2(shift) * pow2((60 - shift) as nat),
            pow2((60 - shift) as nat) >= 1,
    ;
}

proof fn short_shift(num: nat, shift: nat)
    requires
        shift > 0,
        num > 0,
        num * pow2((shift - 1) as nat) < 0x80_0000 * 1_000_000_000,
    ensures
        shift <= 60,
{
    if shift > 60 {
        lemma_pow2_pos((shift - 61) as nat);
        lemma_pow2_adds(60, (shift - 61) as nat);
        vstd::arithmetic::power2::lemma2_to64();
        vstd::arithmetic::power2::lemma2_to64_rest();
        assert(pow2(60) <= pow2((shift - 1) as nat)) by (nonlinear_arith)
            requires
                pow2((shift - 1) as nat) == pow2(60) * pow2((shift - 61) as nat),
                pow2((shift - 61) as nat) >= 1,
        ;
        assert(pow2(60) <= num * pow2((shift - 1) as nat)) by (nonlinear_arith)
            requires
                num >= 1,
                pow2(60) <= pow2((shift - 1) as nat),
        ;
    }
}

/// A span of nanoseconds in whole seconds, rounded up.
pub open spec fn seconds_up(nanos: nat) -> nat {
    let (m, shift) = span_in_seconds(nanos);
    ((m + pow2(shift) - 1) / pow2(shift) as int) as nat
}

/// A span of nanoseconds in whole seconds, rounded up.
pub fn span_seconds_up(nanos: u64) -> (n: u128)
    ensures
        n == seconds_up(nanos as nat),
{
    let s = span_seconds(nanos);
    let one: u128 = power_of_two(s.shift);
    (s.mantissa + one - 1) / one
}

/// How far along `len` samples playback is, when `played` out of `total` have
/// been played: the fraction in single precision, times the length in single
/// precision.
pub open spec fn position_along(played: nat, total: nat, len: nat) -> nat {
    let along = if total == 0 {
        single_of(len)
    } else {
        let (m, shift) = single_quotient(single_of(played), single_of(total));
        single_of(m * single_of(len)) / pow2(shift)
    };
    if along < len {
        along
    } else {
        len
    }
}

/// How far along `len` samples playback is.
pub fn playback_position(played: usize, total: usize, len: usize) -> (at: usize)
    requires
        played <= total,
    ensures
        at == position_along(played as nat, total as nat, len as nat),
        at <= len,
{
    let whole: u128 = to_single(len as u128);
    let along: u128 = if total == 0 {
        whole
    } else {
        let num: u128 = to_single(played as u128);
        let den: u128 = to_single(total as u128);
        proof {
            rounding_is_within_two(played as nat);
            rounding_is_within_two(total as nat);
        }
        let fraction = divide(num, den);
        assert(fraction.mantissa * whole <= 0x200_0000 * 0x2_0000_0000_0000_0000)
            by (nonlinear_arith)
            requires
                fraction.mantissa <= 0x200_0000,
                whole <= 0x2_0000_0000_0000_0000,
        ;
        to_single(fraction.mantissa * whole) / power_of_two(fraction.shift)
    };
    if along < len as u128 {
        along as usize
    } else {
        len
    }
}

proof fn rounding_is_within_two(n: nat)
    ensures
        single_of(n) <= 2 * n,
        n <= 2 * single_of(n),
{
    spacing_bounds(n);
    let step = spacing(n);
    nearest_is_close(n, step);
    if n < 0x100_0000 {
        assert(nearest(n, 1) == n) by {
            assert(n % 1 == 0 && n / 1 == n);
        }
        assert(n * 1 == n);
    } else {
        let q = n / step;
        let near = nearest(n, step);
        assert(q >= 1 && q * step + step > n) by (nonlinear_arith)
            requires
                1 <= step <= n,
                q == n / step,
        ;
        assert(near * step >= q * step) by (nonlinear_arith)
            requires
                near >= q,
        ;
        assert(q * step >= step) by (nonlinear_arith)
            requires
                q >= 1,
        ;
    }
}

proof fn spacing_bounds(n: nat)
    ensures
        1 <= spacing(n),
        n >= 1 ==> spacing(n) <= n,
    decreases n,
{
    if n >= 0x100_0000 {
        spacing_bounds(n / 2);
    }
}

// ---------------------------------------------------------------------
// How far rounding moves a length of time
// ---------------------------------------------------------------------

/// Whether a number of samples falls short of so many seconds by no more than
/// one part in 4,194,304.
pub open spec fn nearly_lasts(samples: int, rate: nat, seconds: nat) -> bool {
    samples * 0x40_0000 >= seconds * rate * 0x3F_FFFF
}

proof fn nearest_is_within_a_half(num: nat, den: nat)
    requires
        den > 0,
    ensures
        2 * num - den <= 2 * (nearest(num, den) * den) <= 2 * num + den,
{
    let q = num / den;
    let r = num % den;
    assert(q * den + r == num) by (nonlinear_arith)
        requires
            den > 0,
            q == num / den,
            r == num % den,
    ;
    assert((q + 1) * den == q * den + den) by (nonlinear_arith);
}

proof fn spacing_is_fine(n: nat)
    ensures
        1 <= spacing(n),
        n >= 0x80_0000 ==> spacing(n) * 0x80_0000 <= n,
    decreases n,
{
    if n >= 0x100_0000 {
        spacing_is_fine(n / 2);
    }
}

/// Rounding moves a whole number by no more than one part in 16,777,216.
pub proof fn rounding_is_fine(n: nat)
    ensures
        0x100_0000 * single_of(n) <= 0x100_0001 * n,
        0x100_0000 * single_of(n) >= 0xFF_FFFF * n,
{
    spacing_is_fine(n);
    nearest_is_within_a_half(n, spacing(n));
    if n < 0x100_0000 {
        assert(nearest(n, 1) == n) by {
            assert(n % 1 == 0 && n / 1 == n);
        }
    }
}

proof fn quotient_spacing_is_fine(num: nat, den: nat)
    requires
        den > 0,
        num >= 0x80_0000 * den,
    ensures
        quotient_spacing(num, den) >= 1,
        den * quotient_spacing(num, den) * 0x80_0000 <= num,
    decreases num / den,
{
    if num >= 0x100_0000 * den {
        assert(num / (2 * den) < num / den) by (nonlinear_arith)
            requires
                den > 0,
                num >= 0x100_0000 * den,
        ;
        quotient_spacing_is_fine(num, 2 * den);
        let half = quotient_spacing(num, 2 * den);
        assert((2 * den) * half == den * (2 * half)) by (nonlinear_arith);
    } else {
        assert(den * 1 == den);
    }
}

proof fn doublings_are_enough(num: nat, den: nat)
    requires
        num > 0,
        den > 0,
    ensures
        num * pow2(doublings(num, den)) >= 0x80_0000 * den,
    decreases
            (if num < 0x80_0000 * den {
                0x80_0000 * den - num
            } else {
                0
            }),
{
    if num < 0x80_0000 * den {
        doublings_are_enough(2 * num, den);
        let shift = doublings(2 * num, den);
        doubled_power(num, shift);
        assert((2 * num) * pow2(shift) == (num * pow2(shift)) * 2) by (nonlinear_arith);
    } else {
        lemma2_zero();
        assert(num * 1 == num);
    }
}

/// A quotient that reaches a whole number is at most one part in 16,777,216
/// short of it.
proof fn a_quotient_is_close(num: nat, den: nat, c: nat)
    requires
        den > 0,
        c > 0,
        single_quotient(num, den).0 >= c * pow2(single_quotient(num, den).1),
    ensures
        0x100_0000 * (den * c) <= 0x100_0001 * num,
{
    let shift = doublings(num, den);
    let step = quotient_spacing(num, den);
    let p = pow2(shift);
    let scaled = num * p;
    lemma_pow2_pos(shift);
    lemma2_zero();
    if num == 0 {
        assert(scaled == 0) by (nonlinear_arith)
            requires
                num == 0,
                scaled == num * p,
        ;
        assert(step == 1);
        assert(nearest(0, den * 1) == 0) by {
            assert(den * 1 == den);
            assert(0nat % den == 0 && 0nat / den == 0) by (nonlinear_arith)
                requires
                    den > 0,
            ;
        }
        assert(c * p > 0) by (nonlinear_arith)
            requires
                c > 0,
                p > 0,
        ;
        assert(false);
    }
    doublings_are_enough(num, den);
    if num >= 0x80_0000 * den {
        quotient_spacing_is_fine(num, den);
        assert(num * 1 == num);
    } else {
        assert(step == 1);
        assert(den * 1 == den);
    }
    let whole = den * step;
    assert(whole * 0x80_0000 <= scaled);
    assert(whole > 0) by (nonlinear_arith)
        requires
            den > 0,
            step >= 1,
            whole == den * step,
    ;
    let near = nearest(scaled, whole);
    nearest_is_within_a_half(scaled, whole);
    let mantissa = near * step;
    assert(mantissa * den == near * whole) by (nonlinear_arith)
        requires
            mantissa == near * step,
            whole == den * step,
    ;
    assert(mantissa * den >= (den * c) * p) by (nonlinear_arith)
        requires
            mantissa >= c * p,
    ;
    assert(0x100_0000 * ((den * c) * p) <= 0x100_0001 * scaled);
    assert(0x100_0000 * (den * c) <= 0x100_0001 * num) by (nonlinear_arith)
        requires
            0x100_0000 * ((den * c) * p) <= 0x100_0001 * (num * p),
            p > 0,
    ;
}

/// Whole numbers below 16,777,216 are single-precision numbers as they are.
pub proof fn small_numbers_are_exact(n: nat)
    requires
        n < 0x100_0000,
    ensures
        single_of(n) == n,
{
    assert(spacing(n) == 1);
    assert(nearest(n, 1) == n) by {
        assert(n % 1 == 0 && n / 1 == n);
    }
    assert(n * 1 == n);
}

/// What counts as lasting so many seconds nearly does: single precision lets it
/// fall short by no more than one part in 4,194,304, and by no sample at all
/// where the seconds are fewer than 16,777,216 samples.
pub proof fn what_lasts_nearly_does(samples: nat, rate: nat, seconds: nat)
    requires
        rate > 0,
        lasts(samples, rate, seconds),
    ensures
        nearly_lasts(samples as int, rate, seconds),
        seconds * rate < 0x100_0000 ==> samples >= seconds * rate,
{
    let n = single_of(samples);
    let r = single_of(rate);
    let x = seconds * rate;
    if seconds > 0 {
        rounding_is_fine(samples);
        rounding_is_fine(rate);
        assert(r > 0);
        a_quotient_is_close(n, r, seconds);
        assert(0x100_0000 * (r * seconds) >= 0xFF_FFFF * x) by (nonlinear_arith)
            requires
                0x100_0000 * r >= 0xFF_FFFF * rate,
                x == seconds * rate,
        ;
        if x < 0x100_0000 && samples < x {
            assert(rate <= x) by (nonlinear_arith)
                requires
                    x == seconds * rate,
                    seconds >= 1,
            ;
            small_numbers_are_exact(samples);
            small_numbers_are_exact(rate);
            assert(r * seconds == x) by (nonlinear_arith)
                requires
                    r == rate,
                    x == seconds * rate,
            ;
        }
    } else {
        assert(x == 0) by (nonlinear_arith)
            requires
                seconds == 0,
                x == seconds * rate,
        ;
    }
}

// ---------------------------------------------------------------------
// Comparing and writing
// ---------------------------------------------------------------------

/// Two to the power of `shift`.
pub fn power_of_two(shift: u32) -> (p: u128)
    requires
        shift <= 104,
    ensures
        p == pow2(shift as nat),
        1 <= p <= 0x100_0000_0000_0000_0000_0000_0000,
{
    let mut p: u128 = 1;
    let mut k: u32 = 0;
    proof {
        lemma2_zero();
    }
    while k < shift
        invariant
            k <= shift <= 104,
            p == pow2(k as nat),
            1 <= p <= 0x100_0000_0000_0000_0000_0000_0000,
        decreases shift - k,
    {
        proof {
            lemma_pow2_unfold((k + 1) as nat);
            power_bound((k + 1) as nat);
        }
        p = p * 2;
        k = k + 1;
    }
    p
}

proof fn power_bound(k: nat)
    requires
        k <= 104,
    ensures
        1 <= pow2(k) <= 0x100_0000_0000_0000_0000_0000_0000,
{
    lemma_pow2_pos(k);
    lemma_pow2_pos((104 - k) as nat);
    lemma_pow2_adds(k, (104 - k) as nat);
    power_of_104();
    assert(pow2(k) <= pow2(104)) by (nonlinear_arith)
        requires
            pow2(104) == pow2(k) * pow2((104 - k) as nat),
            pow2((104 - k) as nat) >= 1,
    ;
}

impl Single {
    /// Whether the number is at least the whole number `c`.
    pub fn at_least(&self, c: u32) -> (yes: bool)
        requires
            self.wf(),
        ensures
            yes == self.reaches(c as nat),
    {
        let p: u128 = power_of_two(self.shift);
        let whole: u128 = self.mantissa / p;
        assert(whole >= c <==> self.mantissa >= c * p) by (nonlinear_arith)
            requires
                whole == self.mantissa / p,
                p >= 1,
        ;
        whole >= c as u128
    }
}

/// `num / den` with one decimal.
pub open spec fn one_decimal(num: nat, den: nat) -> Seq<char> {
    let tenths = nearest(10 * num, den);
    decimal(tenths / 10) + seq!['.', digit((tenths % 10) as int)]
}

/// Writes `num / den` with one decimal.
pub fn one_decimal_text(num: u128, den: u128) -> (text: String)
    requires
        num <= 0xFF_FFFF_FFFF_FFFF_FFFF_FFFF_FFFF_FFFF,
        den > 0,
    ensures
        text@ == one_decimal(num as nat, den as nat),
{
    let tenths: u128 = round_nearest(10 * num, den);
    let mut text = decimal_text(tenths / 10);
    text.push('.');
    text.push((48 + (tenths % 10) as u8) as char);
    assert(text@ == one_decimal(num as nat, den as nat));
    text
}

/// `num / den` with two decimals.
pub open spec fn two_decimals(num: nat, den: nat) -> Seq<char> {
    let hundredths = nearest(100 * num, den);
    decimal(hundredths / 100) + seq!['.'] + two_digits(hundredths % 100)
}

/// Writes `num / den` with two decimals.
pub fn two_decimals_text(num: u128, den: u128) -> (text: String)
    requires
        num <= 0xFF_FFFF_FFFF_FFFF_FFFF_FFFF_FFFF_FFFF,
        den > 0,
    ensures
        text@ == two_decimals(num as nat, den as nat),
{
    let hundredths: u128 = round_nearest(100 * num, den);
    let mut text = decimal_text(hundredths / 100);
    text.push('.');
    let tail = two_digit_text(hundredths % 100);
    vstd::string::StringExecFns::append(&mut text, tail.as_str());
    assert(text@ == two_decimals(num as nat, den as nat));
    text
}

/// How much of a number of seconds is left after a span, in single precision:
/// nothing where the span is longer.
pub open spec fn seconds_left(seconds: nat, nanos: nat) -> (nat, nat) {
    let (m, shift) = span_in_seconds(nanos);
    let all = seconds * pow2(shift);
    (
        if all > m {
            single_of((all - m) as nat)
        } else {
            0
        },
        shift,
    )
}

/// How much of a few seconds is left after a span.
pub fn seconds_left_after(seconds: u8, nanos: u64) -> (s: Single)
    ensures
        s.shift <= 60,
        s.mantissa <= 0x100_0000_0000_0000_0000_0000_0000,
        (s.mantissa as nat, s.shift as nat) == seconds_left(seconds as nat, nanos as nat),
{
    let span = span_seconds(nanos);
    let one: u128 = power_of_two(span.shift);
    proof {
        sixty_doublings(span.shift as nat);
        assert(seconds * one <= 0xFF * 0x1000_0000_0000_0000) by (nonlinear_arith)
            requires
                seconds <= 0xFF,
                one <= 0x1000_0000_0000_0000,
        ;
    }
    let all: u128 = (seconds as u128) * one;
    if all > span.mantissa {
        Single { mantissa: to_single(all - span.mantissa), shift: span.shift }
    } else {
        Single { mantissa: 0, shift: span.shift }
    }
}

/// A length of time: in seconds with one decimal below a minute, in whole
/// minutes and seconds from there on.
pub open spec fn duration_text(seconds: Single) -> Seq<char> {
    let m = seconds.mantissa as nat;
    let one = pow2(seconds.shift as nat);
    if !seconds.reaches(60) {
        one_decimal(m, one).push('s')
    } else {
        let minutes = single_quotient(m, 60 * one);
        decimal(minutes.0 / pow2(minutes.1)) + seq!['m'] + two_digits(nearest(m % (60 * one), one))
            + seq!['s']
    }
}

/// Writes a length of time.
pub fn format_duration(seconds: Single) -> (text: String)
    requires
        seconds.wf(),
        seconds.mantissa <= LIMIT,
    ensures
        text@ == duration_text(seconds),
{
    let m: u128 = seconds.mantissa;
    let one: u128 = power_of_two(seconds.shift);
    if !seconds.at_least(60) {
        let mut text = one_decimal_text(m, one);
        text.push('s');
        assert(text@ == duration_text(seconds));
        text
    } else {
        assert(60 * one <= m);
        let minute: u128 = 60 * one;
        let minutes = divide(m, minute);
        let whole: u128 = minutes.mantissa / power_of_two(minutes.shift);
        let mut text = decimal_text(whole);
        text.push('m');
        let tail = two_digit_text(round_nearest(m % minute, one));
        vstd::string::StringExecFns::append(&mut text, tail.as_str());
        text.push('s');
        assert(text@ == duration_text(seconds));
        text
    }
}

// ---------------------------------------------------------------------
// How close the results are
// ---------------------------------------------------------------------

/// A quotient is within one part in 16,777,216 of the true one.
pub proof fn quotients_are_fine(num: nat, den: nat)
    requires
        num > 0,
        den > 0,
    ensures
        ({
            let (m, shift) = single_quotient(num, den);
            &&& m > 0
            &&& 0x100_0000 * (m * den) <= 0x100_0001 * (num * pow2(shift))
            &&& 0x100_0000 * (m * den) >= 0xFF_FFFF * (num * pow2(shift))
        }),
{
    let shift = doublings(num, den);
    let step = quotient_spacing(num, den);
    let p = pow2(shift);
    let scaled = num * p;
    lemma_pow2_pos(shift);
    lemma2_zero();
    doublings_are_enough(num, den);
    if num >= 0x80_0000 * den {
        quotient_spacing_is_fine(num, den);
        assert(num * 1 == num);
    } else {
        assert(step == 1);
        assert(den * 1 == den);
    }
    let whole = den * step;
    assert(whole * 0x80_0000 <= scaled);
    assert(whole > 0) by (nonlinear_arith)
        requires
            den > 0,
            step >= 1,
            whole == den * step,
    ;
    let near = nearest(scaled, whole);
    nearest_is_within_a_half(scaled, whole);
    let m = near * step;
    assert(m * den == near * whole) by (nonlinear_arith)
        requires
            m == near * step,
            whole == den * step,
    ;
    assert(m * den > 0);
    assert(m > 0) by (nonlinear_arith)
        requires
            m * den > 0,
            m >= 0,
    ;
}

/// A quotient is within one part in 16,777,216 of the true one, and that of
/// zero is zero.
pub proof fn quotients_with_zero(num: nat, den: nat)
    requires
        den > 0,
    ensures
        ({
            let (m, shift) = single_quotient(num, den);
            &&& 0x100_0000 * (m * den) <= 0x100_0001 * (num * pow2(shift))
            &&& 0x100_0000 * (m * den) >= 0xFF_FFFF * (num * pow2(shift))
            &&& num == 0 ==> m == 0
        }),
{
    if num > 0 {
        quotients_are_fine(num, den);
    } else {
        let one = pow2(doublings(0, den));
        assert(quotient_spacing(0, den) == 1);
        assert(0 * one == 0) by (nonlinear_arith);
        assert(den * 1 == den);
        assert(0nat / den == 0 && 0nat % den == 0) by (nonlinear_arith)
            requires
                den > 0,
        ;
        assert(nearest(0, den) == 0);
        assert(0 * den == 0) by (nonlinear_arith);
    }
}

/// A quotient that is at least a whole number counts as at least that number.
proof fn large_quotients_count(num: nat, den: nat, c: nat)
    requires
        den > 0,
        0 < c < 0x80_0000,
        num >= c * den,
    ensures
        ({
            let (m, shift) = single_quotient(num, den);
            m >= c * pow2(shift)
        }),
{
    let shift = doublings(num, den);
    let step = quotient_spacing(num, den);
    let p = pow2(shift);
    lemma_pow2_pos(shift);
    assert(c * den > 0) by (nonlinear_arith)
        requires
            c > 0,
            den > 0,
    ;
    if step == 1 {
        let scaled = num * p;
        assert(den * 1 == den);
        assert(scaled >= (c * p) * den) by (nonlinear_arith)
            requires
                num >= c * den,
                scaled == num * p,
        ;
        let q = scaled / den;
        assert(q >= c * p) by (nonlinear_arith)
            requires
                q == scaled / den,
                scaled >= (c * p) * den,
                den > 0,
        ;
        assert(nearest(scaled, den) >= q);
        assert(nearest(scaled, den) * 1 == nearest(scaled, den));
    } else {
        assert(num >= 0x100_0000 * den);
        lemma2_zero();
        assert(p == 1);
        quotients_are_fine(num, den);
        let m = single_quotient(num, den).0;
        assert(num * 1 == num);
        assert(m >= 0x80_0000) by (nonlinear_arith)
            requires
                0x100_0000 * (m * den) >= 0xFF_FFFF * num,
                num >= 0x100_0000 * den,
                den > 0,
        ;
        assert(c * p == c);
    }
}

/// What lasts so many seconds counts as doing so: single precision asks for no
/// more than one part in 4,194,303 on top, and for no sample on top where the
/// seconds are fewer than 16,777,216 samples.
pub proof fn what_is_long_enough_lasts(samples: nat, rate: nat, seconds: nat)
    requires
        rate > 0,
        0 < seconds < 0x80_0000,
        samples * 0x3F_FFFF >= seconds * rate * 0x40_0000 || (seconds * rate < 0x100_0000
            && samples >= seconds * rate),
    ensures
        lasts(samples, rate, seconds),
{
    let n = single_of(samples);
    let r = single_of(rate);
    let x = seconds * rate;
    rounding_is_fine(samples);
    rounding_is_fine(rate);
    assert(r > 0);
    if samples * 0x3F_FFFF >= x * 0x40_0000 {
        assert(0x100_0000 * (seconds * r) <= 0x100_0001 * x) by (nonlinear_arith)
            requires
                0x100_0000 * r <= 0x100_0001 * rate,
                x == seconds * rate,
        ;
        assert(n >= seconds * r);
    } else {
        assert(rate <= x) by (nonlinear_arith)
            requires
                x == seconds * rate,
                seconds >= 1,
        ;
        small_numbers_are_exact(rate);
        if samples < 0x100_0000 {
            small_numbers_are_exact(samples);
        }
        assert(seconds * r == x);
        assert(n >= x);
    }
    large_quotients_count(n, r, seconds);
}

/// A tenth of a whole number is rounded down, and is within one part in
/// 4,194,304 of it but for that.
pub proof fn a_tenth_is_close(n: nat)
    ensures
        0x40_0000 * (10 * tenth_of(n)) <= 0x40_0001 * n,
        0x40_0000 * (10 * tenth_of(n) + 10) > 0x3F_FFFF * n,
{
    let a = single_of(n);
    rounding_is_fine(n);
    rounding_is_fine(a * 13421773);
    let b = single_of(a * 13421773);
    let t = b / 0x800_0000;
    assert(t * 0x800_0000 <= b < t * 0x800_0000 + 0x800_0000);
}

/// A position is in proportion: so much of the whole as was played of it,
/// rounded down, within one part in 2,097,152.
#[verifier::spinoff_prover]
pub proof fn positions_are_in_proportion(played: nat, total: nat, len: nat)
    requires
        0 < total,
        played <= total,
    ensures
        position_along(played, total, len) <= len,
        0x1F_FFFF * (position_along(played, total, len) * total) <= 0x20_0000 * (played * len),
        0x20_0000 * ((position_along(played, total, len) + 1) * total) > 0x1F_FFFF * (played * len),
{
    let (a, t, l) = (single_of(played), single_of(total), single_of(len));
    rounding_is_fine(played);
    rounding_is_fine(total);
    rounding_is_fine(len);
    assert(t > 0);
    let (m, shift) = single_quotient(a, t);
    let one = pow2(shift);
    lemma_pow2_pos(shift);
    let x = m * l;
    rounding_is_fine(x);
    let rounded = single_of(x);
    let along = rounded / one;
    assert(along * one <= rounded < along * one + one) by (nonlinear_arith)
        requires
            along == rounded / one,
            one > 0,
    ;
    let end = position_along(played, total, len);
    let y = played * len;
    // y * one against rounded * total.
    let r = rounded * total;
    let yo = y * one;
    if played == 0 {
        assert(a == 0);
        lemma2_zero();
        let step = quotient_spacing(0, t);
        assert(step == 1);
        assert(m == 0) by {
            assert(0 * one == 0) by (nonlinear_arith);
            assert(t * 1 == t);
            assert(0nat / t == 0 && 0nat % t == 0) by (nonlinear_arith)
                requires
                    t > 0,
            ;
            assert(nearest(0, t) == 0);
            assert(0 * 1 == 0);
        }
        assert(x == 0) by (nonlinear_arith)
            requires
                m == 0,
                x == m * l,
        ;
        assert(y == 0) by (nonlinear_arith)
            requires
                played == 0,
                y == played * len,
        ;
        assert(rounded == 0);
        assert(along == 0) by (nonlinear_arith)
            requires
                along * one <= 0,
                one > 0,
                along >= 0,
        ;
        assert(end == 0);
        assert(0 * total == 0) by (nonlinear_arith);
        assert((0 + 1) * total == total) by (nonlinear_arith);
    } else {
        quotients_are_fine(a, t);
        let (mt, ao) = (m * t, a * one);
        assert(0x100_0000 * mt >= 0xFF_FFFF * (m * total)) by (nonlinear_arith)
            requires
                mt == m * t,
                0x100_0000 * t >= 0xFF_FFFF * total,
        ;
        assert(0x100_0000 * mt <= 0x100_0001 * (m * total)) by (nonlinear_arith)
            requires
                mt == m * t,
                0x100_0000 * t <= 0x100_0001 * total,
        ;
        assert(0x100_0000 * ao <= 0x100_0001 * (played * one)) by (nonlinear_arith)
            requires
                ao == a * one,
                0x100_0000 * a <= 0x100_0001 * played,
        ;
        assert(0x100_0000 * ao >= 0xFF_FFFF * (played * one)) by (nonlinear_arith)
            requires
                ao == a * one,
                0x100_0000 * a >= 0xFF_FFFF * played,
        ;
        let (c, d) = (m * total, played * one);
        assert(0x3F_FFFF * c <= 0x40_0000 * d);
        assert(0x40_0000 * c >= 0x3F_FFFF * d);
        let cl = c * len;
        assert(d * len == yo) by (nonlinear_arith)
            requires
                d == played * one,
                yo == y * one,
                y == played * len,
        ;
        assert(0x3F_FFFF * cl <= 0x40_0000 * yo) by (nonlinear_arith)
            requires
                0x3F_FFFF * c <= 0x40_0000 * d,
                cl == c * len,
                d * len == yo,
        ;
        assert(0x40_0000 * cl >= 0x3F_FFFF * yo) by (nonlinear_arith)
            requires
                0x40_0000 * c >= 0x3F_FFFF * d,
                cl == c * len,
                d * len == yo,
        ;
        let xt = x * total;
        assert(0x100_0000 * xt <= 0x100_0001 * cl) by (nonlinear_arith)
            requires
                xt == x * total,
                x == m * l,
                cl == c * len,
                c == m * total,
                0x100_0000 * l <= 0x100_0001 * len,
        ;
        assert(0x100_0000 * xt >= 0xFF_FFFF * cl) by (nonlinear_arith)
            requires
                xt == x * total,
                x == m * l,
                cl == c * len,
                c == m * total,
                0x100_0000 * l >= 0xFF_FFFF * len,
        ;
        assert(0x100_0000 * r <= 0x100_0001 * xt) by (nonlinear_arith)
            requires
                r == rounded * total,
                xt == x * total,
                0x100_0000 * rounded <= 0x100_0001 * x,
        ;
        assert(0x100_0000 * r >= 0xFF_FFFF * xt) by (nonlinear_arith)
            requires
                r == rounded * total,
                xt == x * total,
                0x100_0000 * rounded >= 0xFF_FFFF * x,
        ;
        assert(0x1F_FFFF * r <= 0x20_0000 * yo);
        assert(0x20_0000 * r >= 0x1F_FFFF * yo);
        assert(0x1F_FFFF * (along * total) <= 0x20_0000 * y) by (nonlinear_arith)
            requires
                0x1F_FFFF * (rounded * total) <= 0x20_0000 * (y * one),
                along * one <= rounded,
                one > 0,
        ;
        assert(0x20_0000 * ((along + 1) * total) > 0x1F_FFFF * y) by (nonlinear_arith)
            requires
                0x20_0000 * (rounded * total) >= 0x1F_FFFF * (y * one),
                rounded < along * one + one,
                one > 0,
                total > 0,
        ;
        if along >= len {
            assert(end == len);
            assert(len * total <= along * total) by (nonlinear_arith)
                requires
                    len <= along,
            ;
            assert((len + 1) * total > y) by (nonlinear_arith)
                requires
                    y == played * len,
                    played <= total,
                    total > 0,
            ;
        } else {
            assert(end == along);
        }
    }
}

/// A span in seconds is within one part in 4,194,304 of the true one.
#[verifier::spinoff_prover]
pub proof fn spans_are_close(nanos: nat)
    ensures
        ({
            let (m, shift) = span_in_seconds(nanos);
            &&& 0x40_0000 * (1_000_000_000 * m) <= 0x40_0001 * (nanos * pow2(shift))
            &&& 0x40_0000 * (1_000_000_000 * m) >= 0x3F_FFFF * (nanos * pow2(shift))
        }),
{
    let whole = nanos / 1_000_000_000;
    let rest = nanos % 1_000_000_000;
    let (w, r) = (single_of(whole), single_of(rest));
    rounding_is_fine(whole);
    rounding_is_fine(rest);
    let (q, shift) = single_quotient(r, 1_000_000_000);
    let p = pow2(shift);
    lemma_pow2_pos(shift);
    let x = w * p + q;
    rounding_is_fine(x);
    let m = single_of(x);
    if rest > 0 {
        assert(r > 0);
        quotients_are_fine(r, 1_000_000_000);
    } else {
        assert(r == 0);
        lemma2_zero();
        assert(q == 0) by {
            assert(0 * p == 0) by (nonlinear_arith);
            let step = quotient_spacing(0, 1_000_000_000);
            assert(step == 1);
            assert(nearest(0, 1_000_000_000) == 0);
        }
        assert(r * p == 0) by (nonlinear_arith)
            requires
                r == 0,
        ;
    }
    let (wp, rp) = (w * p, r * p);
    let (whole_p, rest_p) = (whole * p, rest * p);
    assert(0x100_0000 * wp <= 0x100_0001 * whole_p) by (nonlinear_arith)
        requires
            wp == w * p,
            whole_p == whole * p,
            0x100_0000 * w <= 0x100_0001 * whole,
    ;
    assert(0x100_0000 * wp >= 0xFF_FFFF * whole_p) by (nonlinear_arith)
        requires
            wp == w * p,
            whole_p == whole * p,
            0x100_0000 * w >= 0xFF_FFFF * whole,
    ;
    assert(0x100_0000 * rp <= 0x100_0001 * rest_p) by (nonlinear_arith)
        requires
            rp == r * p,
            rest_p == rest * p,
            0x100_0000 * r <= 0x100_0001 * rest,
    ;
    assert(0x100_0000 * rp >= 0xFF_FFFF * rest_p) by (nonlinear_arith)
        requires
            rp == r * p,
            rest_p == rest * p,
            0x100_0000 * r >= 0xFF_FFFF * rest,
    ;
    assert(nanos * p == 1_000_000_000 * whole_p + rest_p) by (nonlinear_arith)
        requires
            nanos == 1_000_000_000 * whole + rest,
            whole_p == whole * p,
            rest_p == rest * p,
    ;
}

/// The whole seconds that a span takes up, rounded up.
pub proof fn seconds_up_is_close(nanos: nat)
    ensures
        0x40_0000 * (1_000_000_000 * seconds_up(nanos)) >= 0x3F_FFFF * nanos,
        nanos > 0 ==> 0x40_0000 * (1_000_000_000 * (seconds_up(nanos) - 1)) < 0x40_0001 * nanos,
        nanos == 0 ==> seconds_up(nanos) == 0,
{
    let (m, shift) = span_in_seconds(nanos);
    let p = pow2(shift);
    spans_are_close(nanos);
    lemma_pow2_pos(shift);
    let up = seconds_up(nanos) as int;
    assert(up * p >= m && (up - 1) * p < m && up >= 0) by (nonlinear_arith)
        requires
            up == (m + p - 1) / p as int,
            p > 0,
            m >= 0,
    ;
    assert(0x40_0000 * (1_000_000_000 * up) >= 0x3F_FFFF * nanos) by (nonlinear_arith)
        requires
            0x40_0000 * (1_000_000_000 * m) >= 0x3F_FFFF * (nanos * p),
            up * p >= m,
            p > 0,
    ;
    assert(0x40_0000 * (1_000_000_000 * (up - 1)) < 0x40_0001 * nanos || nanos == 0)
        by (nonlinear_arith)
        requires
            0x40_0000 * (1_000_000_000 * m) <= 0x40_0001 * (nanos * p),
            (up - 1) * p < m,
            p > 0,
            nanos >= 0,
    ;
    if nanos == 0 {
        no_time_is_zero_seconds();
        lemma2_zero();
    }
}

/// A fraction with one decimal is the nearest tenth: the digits, read without
/// the point, are within a half of ten times the fraction.
pub proof fn one_decimal_is_the_nearest_tenth(num: nat, den: nat)
    requires
        den > 0,
    ensures
        exists|tenths: nat|
            one_decimal(num, den) == #[trigger] decimal(tenths / 10) + seq![
                '.',
                digit((tenths % 10) as int),
            ] && 20 * num - den <= 2 * (tenths * den) <= 20 * num + den,
{
    let tenths = nearest(10 * num, den);
    nearest_is_within_a_half(10 * num, den);
    assert(one_decimal(num, den) == decimal(tenths / 10) + seq!['.', digit((tenths % 10) as int)]);
}

/// A fraction with two decimals is the nearest hundredth.
pub proof fn two_decimals_are_the_nearest_hundredth(num: nat, den: nat)
    requires
        den > 0,
    ensures
        exists|hundredths: nat|
            two_decimals(num, den) == #[trigger] decimal(hundredths / 100) + seq!['.'] + two_digits(
                hundredths % 100,
            ) && 200 * num - den <= 2 * (hundredths * den) <= 200 * num + den,
{
    let hundredths = nearest(100 * num, den);
    nearest_is_within_a_half(100 * num, den);
    assert(two_decimals(num, den) == decimal(hundredths / 100) + seq!['.'] + two_digits(
        hundredths % 100,
    ));
}

/// A length of time below a minute is written in seconds with one decimal. From
/// a minute on it is written in whole minutes, which are not more than there
/// are and leave less than one over, and the seconds that are over, rounded to
/// the nearest; the minutes within one part in 16,777,216.
pub proof fn durations_are_minutes_and_seconds(seconds: Single)
    ensures
        seconds.mantissa < 60 * pow2(seconds.shift as nat) ==> duration_text(seconds)
            == one_decimal(seconds.mantissa as nat, pow2(seconds.shift as nat)) + seq!['s'],
        seconds.mantissa >= 60 * pow2(seconds.shift as nat) ==> exists|minutes: nat, over: nat|
            {
                let (m, one) = (seconds.mantissa as nat, pow2(seconds.shift as nat));
                &&& duration_text(seconds) == #[trigger] decimal(minutes) + seq!['m']
                    + #[trigger] two_digits(over) + seq!['s']
                &&& 0x100_0000 * (minutes * (60 * one)) <= 0x100_0001 * m
                &&& 0x100_0000 * (minutes * (60 * one) + 60 * one) > 0xFF_FFFF * m
                &&& 2 * (m % (60 * one)) - one <= 2 * (over * one) <= 2 * (m % (60 * one)) + one
            },
{
    let (m, one) = (seconds.mantissa as nat, pow2(seconds.shift as nat));
    lemma_pow2_pos(seconds.shift as nat);
    if m < 60 * one {
        assert(one_decimal(m, one).push('s') == one_decimal(m, one) + seq!['s']);
    } else {
        let minute = 60 * one;
        let (q, shift) = single_quotient(m, minute);
        quotients_are_fine(m, minute);
        let p = pow2(shift);
        lemma_pow2_pos(shift);
        let minutes = q / p;
        let over = nearest(m % minute, one);
        nearest_is_within_a_half(m % minute, one);
        assert(minutes * p <= q < minutes * p + p) by (nonlinear_arith)
            requires
                minutes == q / p,
                p > 0,
        ;
        assert(0x100_0000 * (minutes * minute) <= 0x100_0001 * m) by (nonlinear_arith)
            requires
                0x100_0000 * (q * minute) <= 0x100_0001 * (m * p),
                minutes * p <= q,
                p > 0,
        ;
        assert(0x100_0000 * (minutes * minute + minute) > 0xFF_FFFF * m) by (nonlinear_arith)
            requires
                0x100_0000 * (q * minute) >= 0xFF_FFFF * (m * p),
                q < minutes * p + p,
                p > 0,
                minute > 0,
        ;
        assert(duration_text(seconds) == decimal(minutes) + seq!['m'] + two_digits(over)
            + seq!['s']);
    }
}

proof fn spacing_is_a_power_of_two(n: nat) -> (j: nat)
    ensures
        spacing(n) == pow2(j),
        n < 0x100_0000 * spacing(n),
        j > 0 ==> n >= 0x80_0000 * spacing(n),
    decreases n,
{
    if n < 0x100_0000 {
        lemma2_zero();
        0
    } else {
        let k = spacing_is_a_power_of_two(n / 2);
        lemma_pow2_unfold(k + 1);
        lemma2_zero();
        k + 1
    }
}

proof fn rounding_to_a_multiple(num: nat, den: nat)
    requires
        den > 0,
    ensures
        ({
            let q = nearest(num, den);
            &&& 2 * num - den <= 2 * (q * den) <= 2 * num + den
            &&& 2 * num - den == 2 * (q * den) || 2 * (q * den) == 2 * num + den ==> q % 2 == 0
        }),
{
    nearest_is_within_a_half(num, den);
    let q = num / den;
    let r = num % den;
    assert(q * den + r == num && r < den) by (nonlinear_arith)
        requires
            den > 0,
            q == num / den,
            r == num % den,
    ;
    assert((q + 1) * den == q * den + den) by (nonlinear_arith);
}

/// A whole number is rounded to a single-precision number, a multiple of a
/// power of two with no more than 24 significant bits, and there is none
/// nearer; of two that are as near, the one whose last bit is zero is taken.
pub proof fn rounding_is_to_the_nearest_single(n: nat)
    ensures
        exists|j: nat|
            {
                let step = #[trigger] pow2(j);
                let q = single_of(n) / step;
                &&& step > 0
                &&& single_of(n) == q * step
                &&& q <= 0x100_0000
                &&& j == 0 || n >= 0x80_0000 * step
                &&& 2 * n - step <= 2 * single_of(n) <= 2 * n + step
                &&& 2 * n - step == 2 * single_of(n) || 2 * single_of(n) == 2 * n + step ==> q % 2
                    == 0
            },
{
    let j = spacing_is_a_power_of_two(n);
    let step = pow2(j);
    lemma_pow2_pos(j);
    let q = nearest(n, step);
    rounding_to_a_multiple(n, step);
    assert(single_of(n) == q * step);
    assert(q * step / step == q) by {
        vstd::arithmetic::div_mod::lemma_div_by_multiple(q as int, step as int);
    }
    assert(q <= 0x100_0000) by (nonlinear_arith)
        requires
            2 * (q * step) <= 2 * n + step,
            n < 0x100_0000 * step,
            step > 0,
    ;
    assert(pow2(j) == step);
}

proof fn doublings_are_few(num: nat, den: nat)
    requires
        0 < num < 0x80_0000 * den,
    ensures
        num * pow2(doublings(num, den)) < 0x100_0000 * den,
    decreases 0x80_0000 * den - num,
{
    let shift = doublings(2 * num, den);
    doubled_power(num, shift);
    if 2 * num < 0x80_0000 * den {
        doublings_are_few(2 * num, den);
    } else {
        lemma2_zero();
        assert((2 * num) * 1 == 2 * num);
    }
    assert(num * pow2(shift + 1) == (2 * num) * pow2(shift)) by {
        lemma_pow2_unfold(shift + 1);
        assert(num * (2 * pow2(shift)) == (2 * num) * pow2(shift)) by (nonlinear_arith);
    }
}

proof fn quotient_spacing_is_a_power_of_two(num: nat, den: nat) -> (j: nat)
    requires
        den > 0,
    ensures
        quotient_spacing(num, den) == pow2(j),
        num < 0x100_0000 * (den * quotient_spacing(num, den)),
    decreases num / den,
{
    if num < 0x100_0000 * den {
        lemma2_zero();
        assert(den * 1 == den);
        0
    } else {
        assert(num / (2 * den) < num / den) by (nonlinear_arith)
            requires
                den > 0,
                num >= 0x100_0000 * den,
        ;
        let k = quotient_spacing_is_a_power_of_two(num, 2 * den);
        let half = quotient_spacing(num, 2 * den);
        lemma_pow2_unfold(k + 1);
        assert((2 * den) * half == den * (2 * half)) by (nonlinear_arith);
        k + 1
    }
}

/// A quotient is rounded to a single-precision number of 24 significant bits,
/// and there is none nearer; of two that are as near, the one whose last bit is
/// zero is taken.
pub proof fn quotients_are_the_nearest_singles(num: nat, den: nat)
    requires
        num > 0,
        den > 0,
    ensures
        exists|j: nat|
            {
                let (m, shift) = single_quotient(num, den);
                let step = #[trigger] pow2(j);
                let q = m / step;
                let (there, here) = (num * pow2(shift), m * den);
                &&& step > 0
                &&& m == q * step
                &&& 0x80_0000 <= q <= 0x100_0000
                &&& j == 0 || shift == 0
                &&& 2 * there - den * step <= 2 * here <= 2 * there + den * step
                &&& 2 * there - den * step == 2 * here || 2 * here == 2 * there + den * step ==> q
                    % 2 == 0
            },
{
    let (m, shift) = single_quotient(num, den);
    let p = pow2(shift);
    let there = num * p;
    lemma_pow2_pos(shift);
    lemma2_zero();
    doublings_are_enough(num, den);
    let j = quotient_spacing_is_a_power_of_two(num, den);
    let step = pow2(j);
    lemma_pow2_pos(j);
    let whole = den * step;
    assert(whole > 0) by (nonlinear_arith)
        requires
            whole == den * step,
            den > 0,
            step > 0,
    ;
    if num < 0x80_0000 * den {
        doublings_are_few(num, den);
        assert(step == 1);
        assert(den * 1 == den);
        if j > 0 {
            lemma_pow2_unfold(j);
        }
    } else {
        quotient_spacing_is_fine(num, den);
        assert(num * 1 == num);
    }
    assert(0x80_0000 * whole <= there < 0x100_0000 * whole);
    let q = nearest(there, whole);
    rounding_to_a_multiple(there, whole);
    assert(m == q * step);
    assert(m * den == q * whole) by (nonlinear_arith)
        requires
            m == q * step,
            whole == den * step,
    ;
    assert(q * step / step == q) by {
        vstd::arithmetic::div_mod::lemma_div_by_multiple(q as int, step as int);
    }
    assert(0x80_0000 <= q <= 0x100_0000) by (nonlinear_arith)
        requires
            2 * there - whole <= 2 * (q * whole) <= 2 * there + whole,
            0x80_0000 * whole <= there < 0x100_0000 * whole,
            whole > 0,
    ;
    assert(pow2(j) == step);
}

/// Without a rate any samples last forever, and none last no time at all.
pub proof fn without_a_rate_anything_lasts(samples: nat, seconds: nat)
    ensures
        lasts(samples, 0, seconds) <==> samples > 0,
{
}

/// So many samples at a rate are so many seconds, within one part in 4,194,304.
pub proof fn seconds_are_close(samples: nat, rate: nat)
    requires
        rate > 0,
    ensures
        ({
            let (m, shift) = seconds_in(samples, rate);
            &&& 0x3F_FFFF * (m * rate) <= 0x40_0000 * (samples * pow2(shift))
            &&& 0x40_0000 * (m * rate) >= 0x3F_FFFF * (samples * pow2(shift))
        }),
{
    let (n, r) = (single_of(samples), single_of(rate));
    rounding_is_fine(samples);
    rounding_is_fine(rate);
    assert(r > 0);
    let (m, shift) = single_quotient(n, r);
    let p = pow2(shift);
    quotients_with_zero(n, r);
    let (mr, np) = (m * r, n * p);
    assert(0x100_0000 * mr >= 0xFF_FFFF * (m * rate)) by (nonlinear_arith)
        requires
            mr == m * r,
            0x100_0000 * r >= 0xFF_FFFF * rate,
    ;
    assert(0x100_0000 * mr <= 0x100_0001 * (m * rate)) by (nonlinear_arith)
        requires
            mr == m * r,
            0x100_0000 * r <= 0x100_0001 * rate,
    ;
    assert(0x100_0000 * np <= 0x100_0001 * (samples * p)) by (nonlinear_arith)
        requires
            np == n * p,
            0x100_0000 * n <= 0x100_0001 * samples,
    ;
    assert(0x100_0000 * np >= 0xFF_FFFF * (samples * p)) by (nonlinear_arith)
        requires
            np == n * p,
            0x100_0000 * n >= 0xFF_FFFF * samples,
    ;
}

} // verus!
