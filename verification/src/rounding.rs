//! Figures as a floating-point number of double precision gives them.
//!
//! A report states proportions to a few decimal places. What is printed is the decimal
//! nearest to the quotient in double precision, which has 53 significant bits, not the
//! decimal nearest to the quotient itself: 3 in 2000 is a little less than 0.15 % there.
//! The figures are worked out here in whole numbers, so that they are the same to the
//! last digit.

use vstd::prelude::*;

verus! {

/// The whole number nearest to `n / d`, the even one of two that are as near.
pub open spec fn nearest_even(n: int, d: int) -> int {
    let q = n / d;
    let r = n % d;
    if 2 * r < d || (2 * r == d && q % 2 == 0) {
        q
    } else {
        q + 1
    }
}

/// The first of `p` and its doubles by which `n` must be multiplied for `n / d` to have
/// 53 bits before the point.
pub open spec fn raised_by(n: int, d: int, p: int) -> int
    decreases d * 0x20_0000_0000_0000 - n * p,
{
    if n < 1 || p < 1 || n * p >= d * 0x10_0000_0000_0000 {
        p
    } else {
        proof {
            assert(n * (2 * p) == 2 * (n * p)) by (nonlinear_arith);
            assert(n * p >= 1) by (nonlinear_arith)
                requires
                    n >= 1,
                    p >= 1,
            ;
        }
        raised_by(n, d, 2 * p)
    }
}

/// The first of `p` and its doubles by which `n / d` must be divided to have no more
/// than 53 bits before the point.
pub open spec fn lowered_by(n: int, d: int, p: int) -> int
    decreases n - d * p,
{
    if d < 1 || p < 1 || n < (d * p) * 0x20_0000_0000_0000 {
        p
    } else {
        proof {
            assert(d * (2 * p) == 2 * (d * p)) by (nonlinear_arith);
            assert(d * p >= 1) by (nonlinear_arith)
                requires
                    d >= 1,
                    p >= 1,
            ;
        }
        lowered_by(n, d, 2 * p)
    }
}

/// The double nearest to `n / d`, as a fraction: its numerator, and the power of two
/// below it.
pub open spec fn double_of(n: int, d: int) -> (int, int) {
    if n < d * 0x20_0000_0000_0000 {
        let p = raised_by(n, d, 1);
        (nearest_even(n * p, d), p)
    } else {
        let p = lowered_by(n, d, 1);
        (nearest_even(n, d * p) * p, 1)
    }
}

/// The double nearest to the whole number `n`.
pub open spec fn whole_double(n: int) -> int {
    if n < 0x20_0000_0000_0000 {
        n
    } else {
        double_of(n, 1).0
    }
}

/// The quotient of `n` and `d`, each a double and the quotient again one.
pub open spec fn quotient(n: int, d: int) -> (int, int) {
    double_of(whole_double(n), whole_double(d))
}

/// `f` in parts of which `parts` make a whole, to the nearest.
pub open spec fn in_parts(f: (int, int), parts: int) -> int {
    nearest_even(f.0 * parts, f.1)
}

/// `f` times `by`, again a double. Below a power of two the bits of a number are those
/// of its numerator.
pub open spec fn times(f: (int, int), by: int) -> (int, int) {
    (whole_double(f.0 * by), f.1)
}

/// Rounding is by the remainder, and moves by one at most.
fn divided(n: u128, d: u128) -> (r: u128)
    requires
        d > 0,
        n < 0x8000_0000_0000_0000_0000_0000_0000_0000,
        d < 0x8000_0000_0000_0000_0000_0000_0000_0000,
    ensures
        r == nearest_even(n as int, d as int),
        r <= n / d + 1,
{
    let q: u128 = n / d;
    let r: u128 = n % d;
    proof {
        vstd::arithmetic::div_mod::lemma_mod_bound(n as int, d as int);
        vstd::arithmetic::div_mod::lemma_div_is_ordered_by_denominator(n as int, 1, d as int);
    }
    if 2 * r < d || (2 * r == d && q % 2 == 0) {
        q
    } else {
        q + 1
    }
}

/// The double nearest to `n / d`.
fn double(n: u128, d: u128) -> (f: (u128, u128))
    requires
        n <= 0x10_0000_0000_0000_0000_0000_0000,
        1 <= d <= 0x2_0000_0000_0000_0000,
    ensures
        f.0 as int == double_of(n as int, d as int).0,
        f.1 as int == double_of(n as int, d as int).1,
        1 <= f.1 < 0x8000_0000_0000_0000_0000_0000_0000_0000,
        f.0 <= 2 * n + 0x40_0000_0000_0000,
        n >= d * 0x20_0000_0000_0000 ==> f.0 <= 2 * n,
{
    if n < d * 0x20_0000_0000_0000 {
        let mut p: u128 = 1;
        let mut top: u128 = n;
        if n > 0 {
            while top < d * 0x10_0000_0000_0000
                invariant
                    1 <= n,
                    1 <= d <= 0x2_0000_0000_0000_0000,
                    top == n * p,
                    1 <= p <= top,
                    top < d * 0x20_0000_0000_0000,
                    raised_by(n as int, d as int, 1) == raised_by(n as int, d as int, p as int),
                decreases d * 0x20_0000_0000_0000 - top,
            {
                proof {
                    assert(n * (2 * p) == 2 * (n * p)) by (nonlinear_arith);
                }
                top = 2 * top;
                p = 2 * p;
            }
        }
        proof {
            assert(n * 1 == n);
            assert(top as int / d as int <= 0x20_0000_0000_0000) by (nonlinear_arith)
                requires
                    top < d * 0x20_0000_0000_0000,
                    d >= 1,
                    top >= 0,
            ;
        }
        (divided(top, d), p)
    } else {
        let mut p: u128 = 1;
        let mut low: u128 = d;
        while n >= low * 0x20_0000_0000_0000
            invariant
                1 <= d,
                n <= 0x10_0000_0000_0000_0000_0000_0000,
                low == d * p,
                1 <= p <= low,
                low <= 0x2_0000_0000_0000_0000,
                low <= n,
                lowered_by(n as int, d as int, 1) == lowered_by(n as int, d as int, p as int),
            decreases n - low,
        {
            proof {
                assert(d * (2 * p) == 2 * (d * p)) by (nonlinear_arith);
            }
            low = 2 * low;
            p = 2 * p;
        }
        let m: u128 = divided(n, low);
        proof {
            assert(d * 1 == d);
            let q = n as int / low as int;
            vstd::arithmetic::div_mod::lemma_fundamental_div_mod(n as int, low as int);
            assert(q <= n) by (nonlinear_arith)
                requires
                    n == low * q + n as int % low as int,
                    low >= 1,
                    n as int % low as int >= 0,
                    q >= 0,
            ;
            assert(m * p <= n + p) by (nonlinear_arith)
                requires
                    m <= q + 1,
                    q * low <= n,
                    1 <= p <= low,
                    q >= 0,
            ;
        }
        (m * p, 1)
    }
}

/// The double nearest to the whole number `n`.
fn whole(n: u128) -> (r: u128)
    requires
        n <= 0x10_0000_0000_0000_0000_0000_0000,
    ensures
        r == whole_double(n as int),
        r <= 2 * n,
        n >= 1 ==> r >= 1,
{
    if n < 0x20_0000_0000_0000 {
        n
    } else {
        let f: (u128, u128) = double(n, 1);
        proof {
            lemma_no_double_vanishes(n as int);
        }
        f.0
    }
}

/// A number that takes more than 53 bits is still a number in 53.
proof fn lemma_no_double_vanishes(n: int)
    requires
        n >= 0x20_0000_0000_0000,
    ensures
        double_of(n, 1).0 >= 1,
{
    let p = lowered_by(n, 1, 1);
    lemma_lowered(n, 1);
    assert(1 * p == p);
    let q = n / p;
    assert(q >= 1) by {
        vstd::arithmetic::div_mod::lemma_div_is_ordered(p, n, p);
        vstd::arithmetic::div_mod::lemma_div_by_self(p);
    }
    let m = nearest_even(n, p);
    assert(m * p >= 1) by (nonlinear_arith)
        requires
            m >= 1,
            p >= 1,
    ;
}

/// What a number is divided by is no larger than the number.
proof fn lemma_lowered(n: int, p: int)
    requires
        1 <= p <= n,
    ensures
        1 <= lowered_by(n, 1, p) <= n,
    decreases n - p,
{
    assert(1 * p == p);
    if n >= (1 * p) * 0x20_0000_0000_0000 {
        lemma_lowered(n, 2 * p);
    }
}

/// `n / d` in parts of which `parts` make a whole, as double precision has it.
pub fn quotient_in_parts(n: u128, d: u64, parts: u64) -> (r: u128)
    requires
        n <= 0x100_0000_0000_0000_0000,
        d >= 1,
        parts <= 1000,
    ensures
        r == in_parts(quotient(n as int, d as int), parts as int),
{
    let f: (u128, u128) = double(whole(n), whole(d as u128));
    proof {
        assert(f.0 * parts < 0x8000_0000_0000_0000_0000_0000_0000_0000) by (nonlinear_arith)
            requires
                f.0 <= 0x1_0000_0000_0000_0000_0000,
                parts <= 1000,
        ;
    }
    divided(f.0 * (parts as u128), f.1)
}

/// `n / d` times a hundred, in tenths, as double precision has it.
pub fn percent_in_tenths(n: u64, d: u64) -> (r: u128)
    requires
        d >= 1,
    ensures
        r == in_parts(times(quotient(n as int, d as int), 100), 10),
{
    let f: (u128, u128) = double(whole(n as u128), whole(d as u128));
    divided(whole(f.0 * 100) * 10, f.1)
}

/// A rounded quotient is within a half of the quotient.
proof fn lemma_even_is_near(n: int, d: int)
    requires
        n >= 0,
        d >= 1,
    ensures
        nearest_even(n, d) >= 0,
        2 * nearest_even(n, d) * d <= 2 * n + d,
        2 * n <= 2 * nearest_even(n, d) * d + d,
{
    let (q, r) = (n / d, n % d);
    vstd::arithmetic::div_mod::lemma_fundamental_div_mod(n, d);
    vstd::arithmetic::div_mod::lemma_mod_bound(n, d);
    vstd::arithmetic::div_mod::lemma_div_pos_is_pos(n, d);
    assert(2 * q * d == 2 * (d * q) && 2 * (q + 1) * d == 2 * (d * q) + 2 * d) by (nonlinear_arith);
}

/// Raising stops only once there are enough bits.
proof fn lemma_raised_enough(n: int, d: int, p: int)
    requires
        n >= 1,
        d >= 1,
        p >= 1,
    ensures
        raised_by(n, d, p) >= p,
        n * raised_by(n, d, p) >= d * 0x10_0000_0000_0000,
    decreases d * 0x20_0000_0000_0000 - n * p,
{
    if n * p < d * 0x10_0000_0000_0000 {
        assert(n * (2 * p) == 2 * (n * p)) by (nonlinear_arith);
        assert(n * p >= 1) by (nonlinear_arith)
            requires
                n >= 1,
                p >= 1,
        ;
        lemma_raised_enough(n, d, 2 * p);
    }
}

/// What is said in parts is to the nearest part: for any number that can come up, the
/// quotient in double precision and its rounding leave no more than half a part.
pub proof fn law_parts_are_to_the_nearest(n: int, d: int, parts: int)
    requires
        0 <= n < 0x20_0000_0000_0000,
        1 <= d < 0x20_0000_0000_0000,
        parts >= 1,
        parts * n < 0x10_0000_0000_0000,
    ensures
        ({
            let said = in_parts(quotient(n, d), parts);
            &&& said >= 0
            &&& 2 * said * d <= 2 * parts * n + d
            &&& 2 * parts * n <= 2 * said * d + d
        }),
{
    let p = raised_by(n, d, 1);
    let f = nearest_even(n * p, d);
    let said = nearest_even(f * parts, p);
    assert(n < d * 0x20_0000_0000_0000) by (nonlinear_arith)
        requires
            n < 0x20_0000_0000_0000,
            d >= 1,
    ;
    assert(quotient(n, d) == (f, p));
    if n == 0 {
        assert(p == 1);
        assert(n * p == 0);
        vstd::arithmetic::div_mod::lemma_div_of0(d);
        vstd::arithmetic::div_mod::lemma_small_mod(0, d as nat);
        assert(f == 0);
        assert(f * parts == 0 && 2 * parts * n == 0 && 2 * 0 * d == 0) by (nonlinear_arith)
            requires
                f == 0,
                n == 0,
        ;
        assert(said == 0);
    } else {
        lemma_raised_enough(n, d, 1);
        assert(n * p >= 0) by (nonlinear_arith)
            requires
                n >= 1,
                p >= 1,
        ;
        lemma_even_is_near(n * p, d);
        assert(f * parts >= 0) by (nonlinear_arith)
            requires
                f >= 0,
                parts >= 1,
        ;
        lemma_even_is_near(f * parts, p);
        lemma_two_roundings(n, d, parts, p, f, said);
    }
}

/// Rounding twice, with enough bits the first time, is rounding once.
proof fn lemma_two_roundings(n: int, d: int, parts: int, p: int, f: int, said: int)
    requires
        n >= 1,
        d >= 1,
        parts >= 1,
        p >= 1,
        n * p >= d * 0x10_0000_0000_0000,
        parts * n < 0x10_0000_0000_0000,
        2 * f * d <= 2 * (n * p) + d,
        2 * (n * p) <= 2 * f * d + d,
        2 * said * p <= 2 * (f * parts) + p,
        2 * (f * parts) <= 2 * said * p + p,
    ensures
        2 * said * d <= 2 * parts * n + d,
        2 * parts * n <= 2 * said * d + d,
{
    let a = said * d;
    let b = parts * n;
    let w: int = 0x10_0000_0000_0000;
    // parts * d stays below p, so that what both roundings leave is below one part more.
    assert(parts * d < p) by {
        assert(parts * (d * w) <= parts * (n * p)) by (nonlinear_arith)
            requires
                d * w <= n * p,
                parts >= 1,
        ;
        assert(parts * (n * p) == b * p && parts * (d * w) == (parts * d) * w) by (nonlinear_arith)
            requires
                b == parts * n,
        ;
        assert(b * p < w * p) by (nonlinear_arith)
            requires
                b < w,
                p >= 1,
        ;
        assert((parts * d) * w < w * p);
        assert(parts * d < p) by (nonlinear_arith)
            requires
                (parts * d) * w < w * p,
                w > 0,
        ;
    }
    let g = f * d * parts;
    assert((2 * f * d) * parts == 2 * g) by (nonlinear_arith)
        requires
            g == f * d * parts,
    ;
    assert(2 * g <= 2 * (b * p) + d * parts && 2 * (b * p) <= 2 * g + d * parts)
        by (nonlinear_arith)
        requires
            2 * f * d <= 2 * (n * p) + d,
            2 * (n * p) <= 2 * f * d + d,
            (2 * f * d) * parts == 2 * g,
            b == parts * n,
            parts >= 1,
    ;
    assert(2 * (a * p) <= 2 * g + p * d && 2 * g <= 2 * (a * p) + p * d) by (nonlinear_arith)
        requires
            2 * said * p <= 2 * (f * parts) + p,
            2 * (f * parts) <= 2 * said * p + p,
            a == said * d,
            g == f * d * parts,
            d >= 1,
    ;
    assert(d * parts == parts * d) by (nonlinear_arith);
    assert(2 * (a * p) < 2 * (b * p) + p * d + p);
    assert(2 * (b * p) < 2 * (a * p) + p * d + p);
    assert(2 * a < 2 * b + d + 1 && 2 * b < 2 * a + d + 1) by (nonlinear_arith)
        requires
            2 * (a * p) < 2 * (b * p) + p * d + p,
            2 * (b * p) < 2 * (a * p) + p * d + p,
            p >= 1,
    ;
    assert(2 * said * d == 2 * a && 2 * parts * n == 2 * b) by (nonlinear_arith)
        requires
            a == said * d,
            b == parts * n,
    ;
}

/// Lowering goes no further than it must.
proof fn lemma_lowered_no_further(n: int, p: int)
    requires
        n >= p * 0x10_0000_0000_0000,
        p >= 1,
    ensures
        lowered_by(n, 1, p) >= p,
        lowered_by(n, 1, p) * 0x10_0000_0000_0000 <= n,
    decreases n - p,
{
    assert(1 * p == p);
    if n >= (1 * p) * 0x20_0000_0000_0000 {
        lemma_lowered_no_further(n, 2 * p);
    }
}

/// The double nearest to a whole number is off by no more than a part in 2^53.
proof fn lemma_whole_is_near(n: int)
    requires
        n >= 0,
    ensures
        whole_double(n) >= 0,
        (2 * whole_double(n) - 2 * n) * 0x10_0000_0000_0000 <= n,
        (2 * n - 2 * whole_double(n)) * 0x10_0000_0000_0000 <= n,
{
    if n >= 0x20_0000_0000_0000 {
        let p = lowered_by(n, 1, 1);
        lemma_lowered_no_further(n, 1);
        lemma_even_is_near(n, p);
        let m = nearest_even(n, p);
        assert(1 * p == p);
        assert(whole_double(n) == m * p);
        assert(2 * m * p == 2 * (m * p)) by (nonlinear_arith);
        assert(m * p >= 0) by (nonlinear_arith)
            requires
                m >= 0,
                p >= 1,
        ;
    }
}

/// A percentage is said to the nearest tenth, for any number of packets that can come up.
pub proof fn law_percentages_are_to_the_nearest(n: int, d: int)
    requires
        0 <= n <= d,
        n < 0x100_0000_0000,
        1 <= d < 0x20_0000_0000_0000,
    ensures
        ({
            let said = in_parts(times(quotient(n, d), 100), 10);
            &&& said >= 0
            &&& 2 * said * d <= 2000 * n + d
            &&& 2000 * n <= 2 * said * d + d
        }),
{
    let p = raised_by(n, d, 1);
    let f = nearest_even(n * p, d);
    let x = f * 100;
    let w = whole_double(x);
    let said = nearest_even(w * 10, p);
    assert(n < d * 0x20_0000_0000_0000) by (nonlinear_arith)
        requires
            n <= d,
            d >= 1,
    ;
    assert(quotient(n, d) == (f, p));
    if n == 0 {
        assert(p == 1);
        assert(n * p == 0);
        vstd::arithmetic::div_mod::lemma_div_of0(d);
        vstd::arithmetic::div_mod::lemma_small_mod(0, d as nat);
        assert(f == 0 && w == 0 && said == 0);
        assert(2 * 0 * d == 0) by (nonlinear_arith);
    } else {
        lemma_raised_enough(n, d, 1);
        assert(n * p >= 0) by (nonlinear_arith)
            requires
                n >= 1,
                p >= 1,
        ;
        lemma_even_is_near(n * p, d);
        lemma_whole_is_near(x);
        lemma_even_is_near(w * 10, p);
        lemma_three_roundings(n, d, p, f, w, said);
    }
}

/// Rounding three times, with enough bits the first two, is rounding once.
proof fn lemma_three_roundings(n: int, d: int, p: int, f: int, w: int, said: int)
    requires
        1 <= n < 0x100_0000_0000,
        d >= 1,
        p >= 1,
        f >= 0,
        n * p >= d * 0x10_0000_0000_0000,
        2 * f * d <= 2 * (n * p) + d,
        2 * (n * p) <= 2 * f * d + d,
        (2 * w - 2 * (f * 100)) * 0x10_0000_0000_0000 <= f * 100,
        (2 * (f * 100) - 2 * w) * 0x10_0000_0000_0000 <= f * 100,
        2 * said * p <= 2 * (w * 10) + p,
        2 * (w * 10) <= 2 * said * p + p,
    ensures
        2 * said * d <= 2000 * n + d,
        2000 * n <= 2 * said * d + d,
{
    let big: int = 0x10_0000_0000_0000;
    let (a, b, g, v) = (said * d, n * p, f * d, w * d);
    assert(2 * f * d == 2 * g && 2 * said * d == 2 * a) by (nonlinear_arith)
        requires
            g == f * d,
            a == said * d,
    ;
    // The parts left over, all together, are below one more.
    assert((2 * v - 200 * g) * big <= 100 * g && (200 * g - 2 * v) * big <= 100 * g)
        by (nonlinear_arith)
        requires
            (2 * w - 2 * (f * 100)) * big <= f * 100,
            (2 * (f * 100) - 2 * w) * big <= f * 100,
            g == f * d,
            v == w * d,
            d >= 1,
    ;
    assert(b < 0x100_0000_0000 * p) by (nonlinear_arith)
        requires
            b == n * p,
            n < 0x100_0000_0000,
            p >= 1,
    ;
    let (up, down) = (20 * v - 2000 * b, 2000 * b - 20 * v);
    assert(up < p && down < p);
    assert(2 * (a * p) <= 20 * v + p * d && 20 * v <= 2 * (a * p) + p * d) by (nonlinear_arith)
        requires
            2 * said * p <= 2 * (w * 10) + p,
            2 * (w * 10) <= 2 * said * p + p,
            a == said * d,
            v == w * d,
            d >= 1,
    ;
    assert(2 * (a * p) < 2000 * b + p * d + p);
    assert(2000 * b < 2 * (a * p) + p * d + p);
    assert(2 * a < 2000 * n + d + 1 && 2000 * n < 2 * a + d + 1) by (nonlinear_arith)
        requires
            2 * (a * p) < 2000 * b + p * d + p,
            2000 * b < 2 * (a * p) + p * d + p,
            b == n * p,
            p >= 1,
    ;
}

} // verus!
