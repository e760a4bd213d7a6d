//! Quotients of doubles: the double nearest to a quotient, and the whole days
//! that a number of seconds holds.

use vstd::arithmetic::div_mod::{
    lemma_div_denominator, lemma_div_is_ordered, lemma_div_multiples_vanish,
    lemma_fundamental_div_mod, lemma_fundamental_div_mod_converse,
};
use vstd::arithmetic::power2::{
    lemma2_to64, lemma2_to64_rest, lemma_pow2_adds, lemma_pow2_pos, lemma_pow2_strictly_increases,
    pow2,
};
use vstd::prelude::*;

use crate::double::{
    exponent, fraction, lemma_steps_parts, lemma_whole_shift_up, Double, FRACTIONS, INFINITE,
};

verus! {

/// The seconds of a day.
pub const DAY: u64 = 86_400;

/// The whole number nearest to `n / d`, the even one of two equally near.
pub open spec fn rounded(n: int, d: int) -> int {
    if 2 * (n % d) < d || (2 * (n % d) == d && (n / d) % 2 == 0) {
        n / d
    } else {
        n / d + 1
    }
}

/// The place of the leading binary digit of `n / d`, for `n >= d > 0`.
pub open spec fn leading_place(n: int, d: int) -> nat
    decreases n - d,
{
    if d <= 0 || n < 2 * d {
        0
    } else {
        1 + leading_place(n, 2 * d)
    }
}

/// The whole part of the double nearest to `n / d`: the quotient rounded to
/// 53 binary digits. Below one it is one only where the quotient lies no
/// farther from one than from the last double before it.
pub open spec fn nearest_whole(n: int, d: int) -> int {
    if n < d {
        if n * pow2(54) >= d * (pow2(54) - 1) {
            1
        } else {
            0
        }
    } else {
        let k = leading_place(n, d);
        if k <= 52 {
            rounded(n * pow2((52 - k) as nat), d) / pow2((52 - k) as nat) as int
        } else {
            rounded(n, d * pow2((k - 52) as nat)) * pow2((k - 52) as nat)
        }
    }
}

impl Double {
    /// The whole part of the quotient of this number of seconds by the seconds
    /// of a day, cut to the range of an `i64`; for finite numbers above zero.
    pub open spec fn days(self) -> int {
        let q = nearest_whole(self.value(), DAY * pow2(1074));
        if q > i64::MAX {
            i64::MAX as int
        } else {
            q
        }
    }
}

proof fn lemma_leading_place(n: int, d: int)
    requires
        0 < d <= n,
    ensures
        d * pow2(leading_place(n, d)) <= n,
        n < 2 * (d * pow2(leading_place(n, d))),
    decreases n - d,
{
    let k = leading_place(n, d);
    lemma2_to64();
    if n < 2 * d {
        assert(pow2(k) == 1);
        assert(d * 1 == d);
    } else {
        lemma_leading_place(n, 2 * d);
        lemma_pow2_adds(1, (k - 1) as nat);
        let p = pow2((k - 1) as nat) as int;
        assert(pow2(k) == 2 * p);
        assert((2 * d) * p == d * (2 * p)) by (nonlinear_arith);
    }
}

proof fn lemma_leading_place_scales(n: int, d: int, p: int)
    requires
        0 < d <= n,
        p > 0,
    ensures
        leading_place(n * p, d * p) == leading_place(n, d),
    decreases n - d,
{
    assert(d * p > 0) by (nonlinear_arith)
        requires
            d > 0,
            p > 0,
    ;
    assert((n * p < 2 * (d * p)) == (n < 2 * d)) by (nonlinear_arith)
        requires
            p > 0,
    ;
    if n >= 2 * d {
        assert((2 * d) * p == 2 * (d * p)) by (nonlinear_arith);
        lemma_leading_place_scales(n, 2 * d, p);
    }
}

pub proof fn lemma_rounded_scales(n: int, d: int, p: int)
    requires
        n >= 0,
        d > 0,
        p > 0,
    ensures
        rounded(n * p, d * p) == rounded(n, d),
{
    let (q, r) = (n / d, n % d);
    lemma_fundamental_div_mod(n, d);
    assert(n * p == q * (d * p) + r * p) by (nonlinear_arith)
        requires
            n == d * q + r,
    ;
    assert(0 <= r * p < d * p) by (nonlinear_arith)
        requires
            0 <= r < d,
            p > 0,
    ;
    lemma_fundamental_div_mod_converse(n * p, d * p, q, r * p);
    assert((2 * (r * p) < d * p) == (2 * r < d)) by (nonlinear_arith)
        requires
            p > 0,
    ;
    assert((2 * (r * p) == d * p) == (2 * r == d)) by (nonlinear_arith)
        requires
            p > 0,
    ;
}

/// The nearest double depends on the quotient alone.
proof fn lemma_nearest_whole_scales(n: int, d: int, p: int)
    requires
        0 < d <= n,
        p > 0,
    ensures
        nearest_whole(n * p, d * p) == nearest_whole(n, d),
{
    let k = leading_place(n, d);
    lemma_leading_place_scales(n, d, p);
    assert(d * p <= n * p) by (nonlinear_arith)
        requires
            d <= n,
            p > 0,
    ;
    if k <= 52 {
        let t = pow2((52 - k) as nat) as int;
        lemma_pow2_pos((52 - k) as nat);
        assert((n * p) * t == (n * t) * p) by (nonlinear_arith);
        assert(n * t >= 0) by (nonlinear_arith)
            requires
                n >= 0,
                t >= 0,
        ;
        lemma_rounded_scales(n * t, d, p);
    } else {
        let t = pow2((k - 52) as nat) as int;
        lemma_pow2_pos((k - 52) as nat);
        assert((d * p) * t == (d * t) * p) by (nonlinear_arith);
        assert(d * t > 0) by (nonlinear_arith)
            requires
                d > 0,
                t > 0,
        ;
        lemma_rounded_scales(n, d * t, p);
    }
}

/// Rounding does not reach the next whole number where the distance to it is
/// more than half a step of the result.
proof fn lemma_rounded_below(n: int, d: int, bound: int)
    requires
        n >= 0,
        d > 0,
        2 * (bound * d - n) > d,
    ensures
        rounded(n, d) < bound,
{
    lemma_fundamental_div_mod(n, d);
    let (q, r) = (n / d, n % d);
    let x = rounded(n, d);
    assert(2 * (x * d) <= 2 * n + d) by (nonlinear_arith)
        requires
            n == d * q + r,
            x == q || (x == q + 1 && 2 * r >= d),
            0 <= r < d,
    ;
    assert(x < bound) by (nonlinear_arith)
        requires
            2 * (x * d) <= 2 * n + d,
            2 * (bound * d - n) > d,
            d > 0,
    ;
}

proof fn lemma_rounded_least(n: int, d: int)
    requires
        n >= 0,
        d > 0,
    ensures
        n / d <= rounded(n, d) <= n / d + 1,
{
}

/// A quotient of at least 2^63 stays there when it is rounded.
proof fn lemma_nearest_whole_large(n: int, d: int)
    requires
        d > 0,
        n >= d * pow2(63),
    ensures
        nearest_whole(n, d) > i64::MAX,
{
    lemma2_to64_rest();
    assert(n >= d) by (nonlinear_arith)
        requires
            n >= d * 0x8000_0000_0000_0000,
            d > 0,
    ;
    let k = leading_place(n, d);
    lemma_leading_place(n, d);
    if k < 63 {
        if k < 62 {
            lemma_pow2_strictly_increases(k, 62);
        }
        let p = pow2(k) as int;
        assert(false) by (nonlinear_arith)
            requires
                n < 2 * (d * p),
                n >= d * 0x8000_0000_0000_0000,
                p <= 0x4000_0000_0000_0000,
                d > 0,
        ;
    }
    let t = pow2((k - 52) as nat) as int;
    lemma_pow2_pos((k - 52) as nat);
    lemma_pow2_adds(52, (k - 52) as nat);
    let step = d * t;
    assert(step > 0) by (nonlinear_arith)
        requires
            d > 0,
            t > 0,
            step == d * t,
    ;
    assert(n >= step * FRACTIONS) by (nonlinear_arith)
        requires
            n >= d * pow2(k),
            pow2(k) == FRACTIONS * t,
            step == d * t,
    ;
    assert(n / step >= FRACTIONS) by {
        lemma_div_multiples_vanish(FRACTIONS as int, step);
        lemma_div_is_ordered(step * FRACTIONS, n, step);
    }
    lemma_rounded_least(n, step);
    if k > 63 {
        lemma_pow2_strictly_increases(63, k);
    }
    assert(rounded(n, step) * t >= FRACTIONS * t) by (nonlinear_arith)
        requires
            rounded(n, step) >= FRACTIONS,
            t > 0,
    ;
}

/// For times below 2^60 seconds the rounded quotient lies in the same day as
/// the exact one: a multiple of the step of `n` cannot come nearer to the
/// next day than half a step of the quotient.
proof fn lemma_nearest_whole_small(digits: int, e: int)
    requires
        0 <= digits < 2 * FRACTIONS,
        1 <= e <= 1082,
    ensures
        nearest_whole(digits * pow2((e - 1) as nat), DAY * pow2(1074)) == (digits * pow2(
            (e - 1) as nat,
        )) / (DAY * pow2(1074)),
{
    let g = pow2((e - 1) as nat) as int;
    let n = digits * g;
    let d = DAY * pow2(1074);
    lemma_pow2_pos((e - 1) as nat);
    lemma_pow2_pos(1074);
    lemma2_to64();
    lemma2_to64_rest();
    // The step of `n` divides the seconds of a day.
    let c = pow2((1082 - e) as nat) as int;
    lemma_pow2_adds((e - 1) as nat, (1082 - e) as nat);
    lemma_pow2_adds(7, 1074);
    assert(d == 675 * pow2(1081));
    assert(d == g * (675 * c)) by (nonlinear_arith)
        requires
            d == 675 * pow2(1081),
            pow2(1081) == g * c,
    ;
    lemma_pow2_adds((e - 1) as nat, 53);
    assert(n < pow2((e + 52) as nat)) by (nonlinear_arith)
        requires
            n == digits * g,
            digits < 2 * FRACTIONS,
            g > 0,
            pow2((e + 52) as nat) == g * (2 * FRACTIONS),
    ;
    assert(n >= 0) by (nonlinear_arith)
        requires
            n == digits * g,
            digits >= 0,
            g > 0,
    ;
    let u = n / d;
    lemma_fundamental_div_mod(n, d);
    let gap = (u + 1) * d - n;
    assert(0 < gap) by (nonlinear_arith)
        requires
            n == d * u + n % d,
            n % d < d,
            gap == (u + 1) * d - n,
    ;
    assert(gap >= g) by (nonlinear_arith)
        requires
            gap > 0,
            gap == (u + 1) * d - n,
            d == g * (675 * c),
            n == digits * g,
            g > 0,
    {
        let w = (u + 1) * (675 * c) - digits;
        assert(gap == w * g);
        assert(w >= 1);
    }
    if n < d {
        assert(u == 0) by {
            vstd::arithmetic::div_mod::lemma_basic_div(n, d);
        }
        assert((u + 1) * d == d) by (nonlinear_arith)
            requires
                u == 0,
        ;
        if n * pow2(54) >= d * (pow2(54) - 1) {
            assert(d >= gap * pow2(54)) by (nonlinear_arith)
                requires
                    gap == d - n,
                    n * pow2(54) >= d * (pow2(54) - 1),
            ;
            assert(false) by (nonlinear_arith)
                requires
                    d >= gap * pow2(54),
                    gap == d - n,
                    gap >= g,
                    n < g * (2 * FRACTIONS),
                    pow2(54) == 4 * FRACTIONS,
                    FRACTIONS >= 2,
                    g > 0,
            ;
        }
    } else {
        let k = leading_place(n, d);
        lemma_leading_place(n, d);
        // The quotient stays below 2^44.
        assert(k <= 44) by {
            if k > 44 {
                lemma_pow2_strictly_increases(44, k);
                lemma_pow2_adds(1074, 60);
                if e < 1082 {
                    lemma_pow2_strictly_increases((e + 52) as nat, 1134);
                }
                let p = pow2(1074) as int;
                assert(false) by (nonlinear_arith)
                    requires
                        n >= d * pow2(k),
                        pow2(k) > pow2(44),
                        d == DAY * p,
                        p > 0,
                        n < p * pow2(60),
                        pow2(44) == 0x1000_0000_0000,
                        pow2(60) == 0x1000_0000_0000_0000,
                        DAY == 86_400,
                ;
            }
        }
        let s = (52 - k) as nat;
        let t = pow2(s) as int;
        lemma_pow2_pos(s);
        lemma_pow2_pos(k);
        lemma_pow2_adds(s, k);
        // One step of `n`, moved up by the scale, exceeds half of `d`.
        assert(2 * (t * g) > d) by (nonlinear_arith)
            requires
                n >= d * pow2(k),
                n < g * (2 * FRACTIONS),
                FRACTIONS == t * pow2(k),
                pow2(k) > 0,
        ;
        assert(2 * (((u + 1) * t) * d - n * t) > d) by (nonlinear_arith)
            requires
                gap == (u + 1) * d - n,
                gap >= g,
                t > 0,
                2 * (t * g) > d,
        ;
        assert(n * t >= 0) by (nonlinear_arith)
            requires
                n >= 0,
                t > 0,
        ;
        lemma_rounded_below(n * t, d, (u + 1) * t);
        let x = rounded(n * t, d);
        assert(x >= u * t) by {
            lemma_rounded_least(n * t, d);
            assert(n * t >= d * (u * t)) by (nonlinear_arith)
                requires
                    n >= d * u,
                    t > 0,
            ;
            lemma_div_multiples_vanish(u * t, d);
            lemma_div_is_ordered(d * (u * t), n * t, d);
        }
        assert(x == t * u + (x - u * t)) by (nonlinear_arith);
        assert(0 <= x - u * t < t) by (nonlinear_arith)
            requires
                x >= u * t,
                x < (u + 1) * t,
        ;
        assert(x == u * t + (x - u * t));
        lemma_fundamental_div_mod_converse(x, t, u, x - u * t);
    }
}

/// The whole part of the double nearest to `n / 86400`, for whole numbers of
/// seconds that are at least a day.
fn nearest_whole_days(n: u128) -> (r: u128)
    requires
        DAY <= n < 0x1_0000_0000_0000_0000_0000,
    ensures
        r == nearest_whole(n as int, DAY as int),
{
    let mut place: u64 = 0;
    let mut top: u128 = 86_400;
    let ghost k = leading_place(n as int, DAY as int);
    proof {
        lemma2_to64();
    }
    while top * 2 <= n
        invariant
            0 < top <= n < 0x1_0000_0000_0000_0000_0000,
            top == DAY * pow2(place as nat),
            place < 80,
            pow2(place as nat) <= top,
            place + leading_place(n as int, top as int) == k,
        decreases n - top,
    {
        proof {
            lemma_pow2_adds(place as nat, 1);
            lemma2_to64();
        }
        top = top * 2;
        place += 1;
        proof {
            if place >= 80 {
                lemma2_to64_rest();
                lemma_pow2_adds(64, 16);
                if place > 80 {
                    lemma_pow2_strictly_increases(80, place as nat);
                }
            }
        }
    }
    assert(place == k);
    let mut scale: u128 = 1;
    let mut i: u64 = 0;
    let shift: u64 = if place <= 52 {
        52 - place
    } else {
        place - 52
    };
    proof {
        lemma2_to64();
    }
    while i < shift
        invariant
            i <= shift <= 52,
            scale == pow2(i as nat),
            0 < scale <= 0x10_0000_0000_0000,
        decreases shift - i,
    {
        proof {
            lemma_pow2_adds(i as nat, 1);
            lemma2_to64();
            lemma2_to64_rest();
            if i + 1 < 52 {
                lemma_pow2_strictly_increases(i as nat + 1, 52);
            }
        }
        scale = scale * 2;
        i += 1;
    }
    proof {
        lemma2_to64();
        if place > 52 && shift < 28 {
            lemma_pow2_strictly_increases(shift as nat, 28);
        }
    }
    if place <= 52 {
        proof {
            // At most 2^53 days, scaled to 53 binary digits.
            lemma_leading_place(n as int, DAY as int);
            lemma_pow2_adds(shift as nat, k);
            lemma2_to64_rest();
        }
        assert(n * scale <= 0x7fff_ffff_ffff_ffff_ffff_ffff_ffff_ffff) by (nonlinear_arith)
            requires
                n < 2 * (DAY * pow2(k)),
                scale * pow2(k) == 0x10_0000_0000_0000,
                DAY == 86_400,
        ;
        round_to_even(n * scale, 86_400) / scale
    } else {
        let step: u128 = 86_400 * scale;
        let r: u128 = round_to_even(n, step);
        proof {
            lemma_rounded_least(n as int, step as int);
            vstd::arithmetic::div_mod::lemma_div_nonincreasing(n as int, step as int);
        }
        assert(r * scale <= 0x7fff_ffff_ffff_ffff_ffff_ffff_ffff_ffff) by (nonlinear_arith)
            requires
                r <= n + 1,
                n < 0x1_0000_0000_0000_0000_0000,
                scale <= 0x1000_0000,
        ;
        r * scale
    }
}

/// The whole number nearest to `n / d`, the even one of two equally near.
pub fn round_to_even(n: u128, d: u128) -> (r: u128)
    requires
        0 < d <= 0x7fff_ffff_ffff_ffff_ffff_ffff_ffff_ffff,
        n <= 0x7fff_ffff_ffff_ffff_ffff_ffff_ffff_ffff,
    ensures
        r == rounded(n as int, d as int),
{
    let q: u128 = n / d;
    let rest: u128 = n % d;
    proof {
        vstd::arithmetic::div_mod::lemma_div_nonincreasing(n as int, d as int);
        vstd::arithmetic::div_mod::lemma_mod_bound(n as int, d as int);
    }
    if 2 * rest < d || (2 * rest == d && q % 2 == 0) {
        q
    } else {
        q + 1
    }
}

impl Double {
    /// The whole days that this number of seconds holds: the whole part of its
    /// quotient by the seconds of a day.
    pub fn whole_days(&self) -> (r: i64)
        requires
            self.is_positive_number(),
        ensures
            r == self.days(),
            r >= 0,
    {
        let m: u64 = self.bits;
        proof {
            lemma_steps_parts(self.unsigned());
            lemma_pow2_pos(1074);
            assert(m < INFINITE);
        }
        let e: u64 = m / FRACTIONS;
        let digits: u64 = FRACTIONS + m % FRACTIONS;
        if e <= 1082 {
            let r: u64 = self.whole_part() / DAY;
            proof {
                let p = pow2(1074) as int;
                let v = self.value();
                if e == 0 {
                    lemma2_to64();
                    lemma_nearest_whole_small(fraction(m as int), 1);
                    assert(fraction(m as int) * pow2(0) == v);
                } else {
                    lemma_nearest_whole_small(digits as int, e as int);
                }
                lemma_div_denominator(v, p, DAY as int);
                assert(p * DAY == DAY * p) by (nonlinear_arith);
                assert(v / p <= u64::MAX) by {
                    if e > 0 {
                        lemma_pow2_adds(60, 1074);
                        if e < 1082 {
                            lemma_pow2_strictly_increases((e + 52) as nat, 1134);
                        }
                    } else {
                        lemma2_to64_rest();
                        lemma_pow2_strictly_increases(52, 1134);
                        lemma_pow2_adds(60, 1074);
                    }
                    lemma2_to64_rest();
                    lemma_div_multiples_vanish(pow2(60) as int, p);
                    assert(p * pow2(60) == pow2(60) * p) by (nonlinear_arith);
                    lemma_div_is_ordered(v, p * pow2(60), p);
                }
            }
            return r as i64;
        }
        proof {
            lemma_whole_shift_up(digits as int, e as int);
            lemma2_to64();
            lemma2_to64_rest();
        }
        if e >= 1103 {
            proof {
                let p = pow2(1074) as int;
                lemma_pow2_adds(80, 1074);
                lemma_pow2_adds(64, 16);
                if e + 51 > 1154 {
                    lemma_pow2_strictly_increases(1154, (e + 51) as nat);
                }
                assert(self.value() >= (DAY * p) * pow2(63)) by (nonlinear_arith)
                    requires
                        self.value() >= pow2(80) * p,
                        pow2(80) == 0x1_0000_0000_0000_0000_0000,
                        pow2(63) == 0x8000_0000_0000_0000,
                        DAY == 86_400,
                        p > 0,
                ;
                assert(DAY * p > 0);
                lemma_nearest_whole_large(self.value(), DAY * p);
            }
            return i64::MAX;
        }
        let mut n: u128 = digits as u128;
        let mut i: u64 = 1075;
        assert(digits * pow2(0) == digits) by (nonlinear_arith)
            requires
                pow2(0) == 1,
        ;
        while i < e
            invariant
                1075 <= i <= e <= 1102,
                n == digits * pow2((i - 1075) as nat),
                FRACTIONS <= digits < 2 * FRACTIONS,
                digits <= n < 0x1_0000_0000_0000_0000_0000,
            decreases e - i,
        {
            proof {
                lemma_pow2_adds((i - 1075) as nat, 1);
                lemma2_to64();
                let q = pow2((i - 1075) as nat) as int;
                if i - 1075 < 26 {
                    lemma_pow2_strictly_increases((i - 1075) as nat, 26);
                }
                assert(digits * q * 2 < 0x1_0000_0000_0000_0000_0000) by (nonlinear_arith)
                    requires
                        digits < 2 * FRACTIONS,
                        q <= 0x400_0000,
                        FRACTIONS == 0x10_0000_0000_0000,
                ;
                assert(digits * (q * 2) == digits * q * 2) by (nonlinear_arith);
            }
            n = n * 2;
            i += 1;
        }
        let r: u128 = nearest_whole_days(n);
        proof {
            let p = pow2(1074) as int;
            assert(p * n == n * p) by (nonlinear_arith);
            lemma_nearest_whole_scales(n as int, DAY as int, p);
        }
        if r > 0x7fff_ffff_ffff_ffff {
            i64::MAX
        } else {
            r as i64
        }
    }
}

/// Below 2^60 seconds rounding does not move a time to another day: its days
/// are the whole days that its exact value holds.
pub proof fn law_days_are_exact(secs: Double)
    requires
        secs.is_positive_number(),
        secs.value() < pow2(60) * pow2(1074),
    ensures
        secs.days() == secs.value() / (DAY * pow2(1074)),
        secs.days() * (DAY * pow2(1074)) <= secs.value() < (secs.days() + 1) * (DAY * pow2(1074)),
{
    let m = secs.unsigned();
    let v = secs.value();
    let p = pow2(1074) as int;
    let d = DAY * p;
    let e = exponent(m);
    lemma_steps_parts(m);
    lemma_pow2_pos(1074);
    lemma_pow2_adds(60, 1074);
    lemma2_to64();
    lemma2_to64_rest();
    if e > 1082 {
        if e > 1083 {
            lemma_pow2_strictly_increases(1134, (e + 51) as nat);
        }
        assert(false);
    }
    if e == 0 {
        lemma_nearest_whole_small(fraction(m), 1);
        assert(fraction(m) * pow2(0) == v);
    } else {
        lemma_nearest_whole_small(FRACTIONS + fraction(m), e);
    }
    let q = v / d;
    lemma_fundamental_div_mod(v, d);
    assert(q * d <= v < (q + 1) * d) by (nonlinear_arith)
        requires
            v == d * q + v % d,
            0 <= v % d < d,
    ;
    assert(q <= pow2(60)) by (nonlinear_arith)
        requires
            q * d <= v,
            v < pow2(60) * p,
            d == DAY * p,
            DAY == 86_400,
            p > 0,
    ;
}

} // verus!
