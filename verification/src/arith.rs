//! Bounded integer arithmetic shared by the clocks.
//!
//! Time is counted in whole nanoseconds and rates in billionths of a packet per
//! second, so every quantity the pacer reasons about is an integer. Where a result
//! can leave its type it saturates, which is what [`capped`] and [`lasting`] state.

use vstd::prelude::*;

verus! {

/// A duration, or an instant as the nanoseconds elapsed since one fixed origin.
///
/// One hundred and twenty-eight bits hold every [`std::time::Duration`].
pub type Nanos = u128;

/// The longest [`std::time::Duration`], at which the sum of two saturates.
pub const LONGEST: Nanos = 18_446_744_073_709_551_615_999_999_999;

/// Nanoseconds in one second.
pub const NANOS_PER_SEC: u64 = 1_000_000_000;

/// Nanoseconds in one millisecond.
pub const NANOS_PER_MILLI: Nanos = 1_000_000;

/// `x` held inside the range of a `u64`.
pub open spec fn capped(x: int) -> u64 {
    if x < 0 {
        0
    } else if x > u64::MAX {
        u64::MAX
    } else {
        x as u64
    }
}

/// `x` held inside the range of a time.
pub open spec fn lasting(x: int) -> Nanos {
    if x < 0 {
        0
    } else if x > u128::MAX {
        u128::MAX
    } else {
        x as u128
    }
}

/// `x` held inside the range of a duration.
pub open spec fn at_longest(x: int) -> Nanos {
    if x < 0 {
        0
    } else if x > LONGEST {
        LONGEST
    } else {
        x as u128
    }
}

/// `x` held inside the range of a count.
pub open spec fn capped_count(x: nat) -> usize {
    if x > usize::MAX {
        usize::MAX
    } else {
        x as usize
    }
}

/// The smallest whole number that is not below `n / d`.
pub open spec fn ceil_div(n: int, d: int) -> int {
    (n + d - 1) / d
}

/// The whole number nearest to `n / d`, a half rounding up.
pub open spec fn nearest_div(n: int, d: int) -> int {
    (2 * n + d) / (2 * d)
}

/// The larger of two values.
#[verifier::allow_in_spec]
pub fn larger(a: u64, b: u64) -> u64
    returns
        (if a >= b {
            a
        } else {
            b
        }),
{
    if a >= b {
        a
    } else {
        b
    }
}

/// The larger of two counts.
#[verifier::allow_in_spec]
pub fn larger_count(a: usize, b: usize) -> usize
    returns
        (if a >= b {
            a
        } else {
            b
        }),
{
    if a >= b {
        a
    } else {
        b
    }
}

/// The longer of two durations, or the later of two instants.
#[verifier::allow_in_spec]
pub fn longer(a: Nanos, b: Nanos) -> Nanos
    returns
        (if a >= b {
            a
        } else {
            b
        }),
{
    if a >= b {
        a
    } else {
        b
    }
}

/// The time from `from` to `to`, none if `to` is the earlier.
#[verifier::allow_in_spec]
pub fn elapsed(from: Nanos, to: Nanos) -> Nanos
    returns
        (if to >= from {
            (to - from) as u128
        } else {
            0
        }),
{
    if to >= from {
        to - from
    } else {
        0
    }
}

/// How far `to` lies beyond `from`, nothing if it does not.
#[verifier::allow_in_spec]
pub fn beyond(from: u64, to: u64) -> u64
    returns
        (if to >= from {
            (to - from) as u64
        } else {
            0
        }),
{
    to.saturating_sub(from)
}

/// The largest multiple of `step` that is not above `x`.
#[verifier::allow_in_spec]
pub fn floor_to(x: u64, step: u64) -> u64
    requires
        step > 0,
    returns
        ((x / step) * step) as u64,
{
    proof {
        vstd::arithmetic::div_mod::lemma_fundamental_div_mod(x as int, step as int);
        vstd::arithmetic::div_mod::lemma_mod_bound(x as int, step as int);
        assert((x / step) * step == step * (x / step)) by (nonlinear_arith);
    }
    x - (x % step)
}

/// The smallest whole number that is not below `n / d`.
pub fn rounded_up(n: u128, d: u64) -> (r: u128)
    requires
        d > 0,
    ensures
        r == ceil_div(n as int, d as int),
        r <= n,
{
    let parts: u128 = d as u128;
    let whole: u128 = n / parts;
    let rest: u128 = n % parts;
    proof {
        let (q, m, k) = (whole as int, rest as int, parts as int);
        vstd::arithmetic::div_mod::lemma_fundamental_div_mod(n as int, k);
        vstd::arithmetic::div_mod::lemma_mod_bound(n as int, k);
        assert(k * q >= q) by (nonlinear_arith)
            requires
                k >= 1,
                q >= 0,
        ;
        let (up, left) = if m == 0 {
            (q, k - 1)
        } else {
            (q + 1, m - 1)
        };
        assert(n + k - 1 == up * k + left) by (nonlinear_arith)
            requires
                n == k * q + m,
                up == q && m == 0 && left == k - 1 || up == q + 1 && left == m - 1,
        ;
        vstd::arithmetic::div_mod::lemma_fundamental_div_mod_converse(n + k - 1, k, up, left);
    }
    if rest == 0 {
        whole
    } else {
        whole + 1
    }
}

/// The whole number nearest to `n / d`, a half rounding up.
pub fn nearest(n: u128, d: u64) -> (r: u128)
    requires
        d > 0,
    ensures
        r == nearest_div(n as int, d as int),
        r <= n + 1,
{
    let parts: u128 = d as u128;
    let whole: u128 = n / parts;
    let rest: u128 = n % parts;
    proof {
        lemma_nearest_by_remainder(n as int, parts as int);
        if parts > 1 {
            vstd::arithmetic::div_mod::lemma_div_decreases(n as int + 1, parts as int);
        }
    }
    if 2 * rest >= parts {
        assert(whole < u128::MAX) by {
            if whole == n {
                vstd::arithmetic::div_mod::lemma_fundamental_div_mod(n as int, parts as int);
                assert(parts * whole >= whole) by (nonlinear_arith)
                    requires
                        parts >= 1,
                        whole >= 0,
                ;
            }
        }
        whole + 1
    } else {
        whole
    }
}

/// Narrow to sixty-four bits, saturating.
pub fn cap(x: u128) -> (r: u64)
    ensures
        r == capped(x as int),
{
    if x > u64::MAX as u128 {
        u64::MAX
    } else {
        x as u64
    }
}

/// Narrow to sixty-four bits, keeping the low half.
pub fn low64(x: u128) -> (r: u64)
    ensures
        r == x as int % 0x1_0000_0000_0000_0000,
{
    assert(x as u64 == x % 0x1_0000_0000_0000_0000u128) by (bit_vector);
    x as u64
}

/// `a * b`, saturating.
pub fn saturating_product(a: u64, b: u64) -> (r: u64)
    ensures
        r == capped(a * b),
{
    let wide: u128 = product(a, b);
    cap(wide)
}

/// `a * b`, which always fits twice the width.
pub fn product(a: u64, b: u64) -> (r: u128)
    ensures
        r == a * b,
        r <= 0xffff_ffff_ffff_fffe_0000_0000_0000_0001,
{
    proof {
        lemma_product_bound(a as int, b as int);
    }
    (a as u128) * (b as u128)
}

/// The product of two sixty-four bit values fits in one hundred and twenty-eight.
pub proof fn lemma_product_bound(a: int, b: int)
    requires
        0 <= a <= u64::MAX,
        0 <= b <= u64::MAX,
    ensures
        0 <= a * b <= 0xffff_ffff_ffff_fffe_0000_0000_0000_0001,
{
    assert(0 <= a * b <= 0xffff_ffff_ffff_ffff * 0xffff_ffff_ffff_ffff) by (nonlinear_arith)
        requires
            0 <= a <= 0xffff_ffff_ffff_ffff,
            0 <= b <= 0xffff_ffff_ffff_ffff,
    ;
}

/// A whole number of milliseconds.
pub fn millis(ms: u64) -> (r: Nanos)
    ensures
        r == ms * NANOS_PER_MILLI,
{
    (ms as u128) * NANOS_PER_MILLI
}

/// A whole number of seconds.
pub fn seconds(s: u64) -> (r: Nanos)
    ensures
        r == s * NANOS_PER_SEC,
{
    product(s, NANOS_PER_SEC)
}

/// A duration in whole milliseconds.
pub open spec fn in_millis(d: Nanos) -> u64 {
    capped(d as int / NANOS_PER_MILLI as int)
}

/// The whole milliseconds of a duration.
pub fn whole_millis(d: Nanos) -> (ms: u64)
    ensures
        ms == in_millis(d),
{
    cap(d / NANOS_PER_MILLI)
}

/// The sum of two durations.
pub fn summed(a: Nanos, b: Nanos) -> (r: Nanos)
    ensures
        r == at_longest(a + b),
{
    if a >= LONGEST || b >= LONGEST - a {
        LONGEST
    } else {
        a + b
    }
}

/// The sum of two times.
pub fn together(a: Nanos, b: Nanos) -> (r: Nanos)
    ensures
        r == lasting(a + b),
{
    if a > u128::MAX - b {
        u128::MAX
    } else {
        a + b
    }
}

/// A proportion held exactly: how many of `denominator` equal parts to take.
#[derive(Clone, Copy, Debug, PartialEq, Eq, Structural)]
pub struct Ratio {
    /// Parts taken.
    pub numerator: u64,
    /// Parts in the whole.
    pub denominator: u64,
}

impl Ratio {
    /// A proportion has a whole to be part of.
    pub open spec fn wf(self) -> bool {
        self.denominator > 0
    }

    /// `d` times this ratio, to the nearest whole number.
    pub open spec fn of(self, d: int) -> int {
        nearest_div(d * self.numerator, self.denominator as int)
    }

    /// `numerator` parts of `denominator`.
    pub fn new(numerator: u64, denominator: u64) -> (r: Self)
        requires
            denominator > 0,
        ensures
            r.wf(),
            r.numerator == numerator,
            r.denominator == denominator,
    {
        Ratio { numerator, denominator }
    }

    /// `hundredths` parts of one hundred.
    pub fn percent(hundredths: u64) -> (r: Self)
        ensures
            r == (Ratio { numerator: hundredths, denominator: 100 }),
            r.wf(),
    {
        Ratio { numerator: hundredths, denominator: 100 }
    }

    /// Scale a duration by this ratio, to the nearest nanosecond.
    pub fn scale(&self, d: Nanos) -> (r: Nanos)
        requires
            self.wf(),
        ensures
            r == at_longest(self.of(d as int)),
    {
        let parts: u128 = self.denominator as u128;
        let taken: u128 = self.numerator as u128;
        let whole: u128 = d / parts;
        let rest: u128 = d % parts;
        proof {
            lemma_product_bound(rest as int, taken as int);
        }
        let more: u128 = nearest(rest * taken, self.denominator);
        proof {
            lemma_scaled_in_two(d as int, taken as int, parts as int);
            lemma_nearest_by_remainder(rest * taken, parts as int);
            if taken > 0 {
                vstd::arithmetic::div_mod::lemma_fundamental_div_mod(LONGEST as int, taken as int);
                vstd::arithmetic::div_mod::lemma_mod_bound(LONGEST as int, taken as int);
                let most = LONGEST as int / taken as int;
                if whole > most {
                    assert(whole * taken > LONGEST) by (nonlinear_arith)
                        requires
                            whole >= most + 1,
                            LONGEST == taken * most + LONGEST as int % taken as int,
                            LONGEST as int % (taken as int) < taken,
                            taken > 0,
                    ;
                } else {
                    assert(whole * taken <= LONGEST) by (nonlinear_arith)
                        requires
                            whole <= most,
                            LONGEST == taken * most + LONGEST as int % taken as int,
                            LONGEST as int % (taken as int) >= 0,
                            taken > 0,
                    ;
                }
            }
        }
        if taken > 0 && whole > LONGEST / taken {
            return LONGEST;
        }
        assert(taken == 0 ==> whole * taken == 0);
        let r: u128 = whole * taken;
        if more > LONGEST - r {
            LONGEST
        } else {
            r + more
        }
    }
}

/// Scaling takes the whole parts first and rounds what is left.
proof fn lemma_scaled_in_two(d: int, n: int, parts: int)
    requires
        d >= 0,
        n >= 0,
        parts > 0,
    ensures
        nearest_div(d * n, parts) == (d / parts) * n + nearest_div((d % parts) * n, parts),
        (d % parts) * n >= 0,
{
    let (q, r) = (d / parts, d % parts);
    vstd::arithmetic::div_mod::lemma_fundamental_div_mod(d, parts);
    vstd::arithmetic::div_mod::lemma_mod_bound(d, parts);
    assert(2 * (d * n) + parts == (2 * (r * n) + parts) + (q * n) * (2 * parts)) by (nonlinear_arith)
        requires
            d == parts * q + r,
    ;
    vstd::arithmetic::div_mod::lemma_hoist_over_denominator(
        2 * (r * n) + parts,
        q * n,
        (2 * parts) as nat,
    );
    assert(r * n >= 0) by (nonlinear_arith)
        requires
            r >= 0,
            n >= 0,
    ;
}

/// Dividing a multiple gives back what was multiplied.
pub proof fn lemma_exact_division(x: int, d: int)
    requires
        d > 0,
    ensures
        (x * d) / d == x,
        (x * d) % d == 0,
{
    vstd::arithmetic::div_mod::lemma_fundamental_div_mod_converse(x * d, d, x, 0);
}

/// Rounding to the nearest whole number looks only at the remainder.
pub proof fn lemma_nearest_by_remainder(n: int, d: int)
    requires
        n >= 0,
        d > 0,
    ensures
        2 * (n % d) >= d ==> nearest_div(n, d) == n / d + 1,
        2 * (n % d) < d ==> nearest_div(n, d) == n / d,
        0 <= n / d <= n,
        0 <= n % d < d,
{
    let q = n / d;
    let r = n % d;
    vstd::arithmetic::div_mod::lemma_fundamental_div_mod(n, d);
    vstd::arithmetic::div_mod::lemma_mod_bound(n, d);
    vstd::arithmetic::div_mod::lemma_div_pos_is_pos(n, d);
    vstd::arithmetic::div_mod::lemma_div_is_ordered_by_denominator(n, 1, d);
    let up: int = if 2 * r >= d {
        q + 1
    } else {
        q
    };
    let left: int = if 2 * r >= d {
        2 * r + d - 2 * d
    } else {
        2 * r + d
    };
    assert(2 * n + d == up * (2 * d) + left) by (nonlinear_arith)
        requires
            n == d * q + r,
            up == q + 1 && left == 2 * r + d - 2 * d || up == q && left == 2 * r + d,
    ;
    vstd::arithmetic::div_mod::lemma_fundamental_div_mod_converse(2 * n + d, 2 * d, up, left);
}

} // verus!
