//! Double precision numbers, held by their IEEE 754 bit patterns.
//!
//! A store keeps times, weights and scores as doubles. Here such a number is
//! its 64 bits: order, whole part and quotients are computed on integers, and
//! the contracts speak of the exact value that the bits stand for.

use vstd::arithmetic::div_mod::{
    lemma_div_denominator, lemma_div_is_ordered, lemma_div_multiples_vanish,
    lemma_fundamental_div_mod,
};
use vstd::arithmetic::power2::{
    lemma2_to64, lemma2_to64_rest, lemma_pow2_adds, lemma_pow2_pos, lemma_pow2_strictly_increases,
    pow2,
};
use vstd::prelude::*;

verus! {

/// The lowest bit pattern with the sign bit set.
pub const SIGN: u64 = 0x8000_0000_0000_0000;

/// The bit pattern of positive infinity; larger ones, up to the sign bit, are
/// not numbers.
pub const INFINITE: u64 = 0x7ff0_0000_0000_0000;

/// The number of fractions that share an exponent.
pub const FRACTIONS: u64 = 0x10_0000_0000_0000;

/// A double precision number, by its bit pattern.
#[derive(Clone, Copy, Debug, PartialEq, Eq, Structural)]
pub struct Double {
    pub bits: u64,
}

/// The exponent field of the pattern `m` without its sign.
pub open spec fn exponent(m: int) -> int {
    m / (FRACTIONS as int)
}

/// The fraction field of the pattern `m` without its sign.
pub open spec fn fraction(m: int) -> int {
    m % (FRACTIONS as int)
}

/// The distance from zero of the pattern `m` without its sign, in steps of
/// the smallest positive double, which is one part in 2^1074. The patterns
/// that are not numbers continue the row beyond infinity.
pub open spec fn steps(m: int) -> nat {
    if exponent(m) == 0 {
        fraction(m) as nat
    } else {
        ((FRACTIONS + fraction(m)) * pow2((exponent(m) - 1) as nat)) as nat
    }
}

impl Double {
    pub open spec fn is_negative(self) -> bool {
        self.bits >= SIGN
    }

    /// The pattern without its sign.
    pub open spec fn unsigned(self) -> int {
        if self.is_negative() {
            self.bits - SIGN
        } else {
            self.bits as int
        }
    }

    pub open spec fn is_nan(self) -> bool {
        self.unsigned() > INFINITE
    }

    pub open spec fn is_finite(self) -> bool {
        self.unsigned() < INFINITE
    }

    /// The exact value, times 2^1074.
    pub open spec fn value(self) -> int {
        if self.is_negative() {
            -steps(self.unsigned())
        } else {
            steps(self.unsigned()) as int
        }
    }

    /// The order of numbers, in which nothing is less or greater than what is
    /// not a number.
    pub open spec fn is_less(self, other: Double) -> bool {
        !self.is_nan() && !other.is_nan() && self.value() < other.value()
    }

    /// Whether this is a finite number above zero.
    pub open spec fn is_positive_number(self) -> bool {
        self.is_finite() && self.value() > 0
    }

    /// The whole part of the number, cut to the range of a `u64`: nothing for
    /// negative numbers and for what is not a number.
    pub open spec fn whole(self) -> int {
        if self.is_nan() || self.value() < 0 {
            0
        } else if self.value() / pow2(1074) as int > u64::MAX {
            u64::MAX as int
        } else {
            self.value() / pow2(1074) as int
        }
    }
}

/// What the parts of a pattern say about its size.
pub proof fn lemma_steps_parts(m: int)
    requires
        0 <= m < SIGN,
    ensures
        0 <= exponent(m) <= 2047,
        0 <= fraction(m) < FRACTIONS,
        exponent(m) > 0 ==> {
            &&& FRACTIONS * pow2((exponent(m) - 1) as nat) <= steps(m)
            &&& steps(m) < 2 * FRACTIONS * pow2((exponent(m) - 1) as nat)
            &&& steps(m) < pow2((exponent(m) + 52) as nat)
            &&& steps(m) >= pow2((exponent(m) + 51) as nat)
        },
        exponent(m) == 0 ==> steps(m) < FRACTIONS,
        (steps(m) == 0) == (m == 0),
{
    let e = exponent(m);
    let f = fraction(m);
    lemma_fundamental_div_mod(m, FRACTIONS as int);
    if e > 0 {
        let p = pow2((e - 1) as nat);
        lemma_pow2_pos((e - 1) as nat);
        assert(FRACTIONS * p <= (FRACTIONS + f) * p < 2 * FRACTIONS * p) by (nonlinear_arith)
            requires
                0 <= f < FRACTIONS,
                p > 0,
        ;
        lemma2_to64_rest();
        lemma_pow2_adds(52, (e - 1) as nat);
        lemma_pow2_adds(53, (e - 1) as nat);
        assert(FRACTIONS * p > 0) by (nonlinear_arith)
            requires
                p > 0,
                FRACTIONS > 0,
        ;
    }
}

/// Larger patterns stand for larger numbers.
pub proof fn lemma_steps_increase(a: int, b: int)
    requires
        0 <= a < b < SIGN,
    ensures
        steps(a) < steps(b),
{
    let (ea, eb) = (exponent(a), exponent(b));
    lemma_steps_parts(a);
    lemma_steps_parts(b);
    lemma_fundamental_div_mod(a, FRACTIONS as int);
    lemma_fundamental_div_mod(b, FRACTIONS as int);
    if ea == eb {
        let (fa, fb) = (fraction(a), fraction(b));
        if ea > 0 {
            let p = pow2((ea - 1) as nat);
            lemma_pow2_pos((ea - 1) as nat);
            assert((FRACTIONS + fa) * p < (FRACTIONS + fb) * p) by (nonlinear_arith)
                requires
                    fa < fb,
                    p > 0,
            ;
        }
    } else {
        assert(ea < eb) by {
            lemma_div_is_ordered(a, b, FRACTIONS as int);
        }
        if ea == 0 {
            lemma_pow2_pos((eb - 1) as nat);
            let p = pow2((eb - 1) as nat);
            assert(FRACTIONS <= FRACTIONS * p) by (nonlinear_arith)
                requires
                    p > 0,
                    FRACTIONS > 0,
            ;
        } else if ea + 52 < eb + 51 {
            lemma_pow2_strictly_increases((ea + 52) as nat, (eb + 51) as nat);
        }
    }
}

impl Double {
    /// The number whose IEEE 754 bit pattern is `bits`.
    pub fn from_bits(bits: u64) -> (d: Double)
        ensures
            d.bits == bits,
    {
        Double { bits }
    }

    fn split(&self) -> (r: (bool, u64))
        ensures
            r.0 == self.is_negative(),
            r.1 == self.unsigned(),
            0 <= r.1 < SIGN,
    {
        if self.bits >= SIGN {
            (true, self.bits - SIGN)
        } else {
            (false, self.bits)
        }
    }

    /// Whether the value of `self` is below that of `other`, with the row of
    /// patterns continued beyond infinity.
    pub fn precedes(&self, other: &Double) -> (r: bool)
        ensures
            r == (self.value() < other.value()),
    {
        let (negative, a) = self.split();
        let (other_negative, b) = other.split();
        proof {
            lemma_steps_parts(a as int);
            lemma_steps_parts(b as int);
            if a < b {
                lemma_steps_increase(a as int, b as int);
            }
            if b < a {
                lemma_steps_increase(b as int, a as int);
            }
        }
        if negative && other_negative {
            b < a
        } else if negative {
            a > 0 || b > 0
        } else if other_negative {
            false
        } else {
            a < b
        }
    }

    /// Whether `self` is less than `other`.
    pub fn less_than(&self, other: &Double) -> (r: bool)
        ensures
            r == self.is_less(*other),
    {
        let (_, a) = self.split();
        let (_, b) = other.split();
        a <= INFINITE && b <= INFINITE && self.precedes(other)
    }

    /// Whether this is a finite number above zero.
    pub fn positive_number(&self) -> (r: bool)
        ensures
            r == self.is_positive_number(),
    {
        proof {
            lemma_steps_parts(self.unsigned());
        }
        0 < self.bits && self.bits < INFINITE
    }
}

/// The power of two with the exponent `k`.
pub fn power_of_two(k: u64) -> (p: u64)
    requires
        k < 64,
    ensures
        p == pow2(k as nat),
        p > 0,
{
    proof {
        lemma2_to64();
    }
    let mut p: u64 = 1;
    let mut i: u64 = 0;
    while i < k
        invariant
            i <= k < 64,
            p == pow2(i as nat),
            p > 0,
        decreases k - i,
    {
        proof {
            lemma2_to64();
            lemma_pow2_adds(i as nat, 1);
            if i < 62 {
                lemma_pow2_strictly_increases(i as nat + 1, 63);
            }
            assert(pow2(63) == 0x8000_0000_0000_0000) by {
                lemma2_to64_rest();
            }
        }
        p = p * 2;
        i += 1;
    }
    p
}

/// The whole part of a number whose exponent leaves part of its digits
/// behind the point.
pub proof fn lemma_whole_shift_down(digits: int, e: int)
    requires
        digits >= 0,
        1 <= e <= 1075,
    ensures
        (digits * pow2((e - 1) as nat)) / pow2(1074) as int == digits / pow2(
            (1075 - e) as nat,
        ) as int,
{
    let p = pow2((e - 1) as nat) as int;
    let q = pow2((1075 - e) as nat) as int;
    lemma_pow2_pos((e - 1) as nat);
    lemma_pow2_pos((1075 - e) as nat);
    lemma_pow2_adds((e - 1) as nat, (1075 - e) as nat);
    lemma_div_denominator(digits * p, p, q);
    lemma_div_multiples_vanish(digits, p);
    assert(p * digits == digits * p) by (nonlinear_arith);
}

/// The whole part of a number all of whose digits stand before the point.
pub proof fn lemma_whole_shift_up(digits: int, e: int)
    requires
        digits >= 0,
        e >= 1075,
    ensures
        digits * pow2((e - 1) as nat) == pow2(1074) * (digits * pow2((e - 1075) as nat)),
        (digits * pow2((e - 1) as nat)) / pow2(1074) as int == digits * pow2((e - 1075) as nat),
{
    let p = pow2(1074) as int;
    let q = pow2((e - 1075) as nat) as int;
    lemma_pow2_pos(1074);
    lemma_pow2_adds(1074, (e - 1075) as nat);
    assert(digits * (p * q) == p * (digits * q)) by (nonlinear_arith);
    lemma_div_multiples_vanish(digits * q, p);
}

impl Double {
    /// The whole part of the number, cut to the range of a `u64`.
    pub fn whole_part(&self) -> (r: u64)
        ensures
            r == self.whole(),
    {
        let (negative, m) = self.split();
        proof {
            lemma_steps_parts(m as int);
            lemma_pow2_pos(1074);
        }
        if negative || m > INFINITE {
            assert(negative ==> self.value() <= 0);
            assert(0int / pow2(1074) as int == 0) by {
                vstd::arithmetic::div_mod::lemma_div_of0(pow2(1074) as int);
            }
            return 0;
        }
        let e: u64 = m / FRACTIONS;
        let digits: u64 = FRACTIONS + m % FRACTIONS;
        if e <= 1022 {
            proof {
                if e == 0 {
                    lemma2_to64_rest();
                    lemma_pow2_strictly_increases(52, 1074);
                } else if e < 1022 {
                    lemma_pow2_strictly_increases((e + 52) as nat, 1074);
                }
                vstd::arithmetic::div_mod::lemma_basic_div(
                    steps(m as int) as int,
                    pow2(1074) as int,
                );
            }
            0
        } else if e <= 1074 {
            proof {
                lemma_whole_shift_down(digits as int, e as int);
                lemma_pow2_pos((1075 - e) as nat);
                vstd::arithmetic::div_mod::lemma_div_nonincreasing(
                    digits as int,
                    pow2((1075 - e) as nat) as int,
                );
            }
            digits / power_of_two(1075 - e)
        } else {
            proof {
                lemma_whole_shift_up(digits as int, e as int);
                lemma2_to64();
            }
            if e <= 1086 {
                let p: u64 = power_of_two(e - 1075);
                proof {
                    if e < 1086 {
                        lemma_pow2_strictly_increases((e - 1075) as nat, 11);
                    }
                }
                assert(digits * p <= u64::MAX) by (nonlinear_arith)
                    requires
                        digits <= 0x1f_ffff_ffff_ffff,
                        p <= 2048,
                ;
                digits * p
            } else {
                proof {
                    if e > 1087 {
                        lemma_pow2_strictly_increases(12, (e - 1075) as nat);
                    }
                    let p = pow2((e - 1075) as nat);
                    assert(digits * p > u64::MAX) by (nonlinear_arith)
                        requires
                            digits >= 0x10_0000_0000_0000,
                            p >= 4096,
                    ;
                }
                u64::MAX
            }
        }
    }
}

// Laws ------------------------------------------------------------------

/// Of two numbers one is less or they have the same value; what is not a number
/// is neither less nor greater than anything.
pub proof fn law_numbers_are_ordered(a: Double, b: Double)
    ensures
        a.is_nan() || b.is_nan() ==> !a.is_less(b) && !b.is_less(a),
        !a.is_nan() && !b.is_nan() ==> (a.is_less(b) <==> a.value() < b.value()),
        a.bits < b.bits <= INFINITE ==> a.is_less(b),
        b.bits >= SIGN && 0 < a.bits <= INFINITE && !b.is_nan() ==> b.is_less(a),
{
    lemma_steps_parts(a.unsigned());
    lemma_steps_parts(b.unsigned());
    if a.bits < b.bits <= INFINITE {
        lemma_steps_increase(a.bits as int, b.bits as int);
    }
}

/// The sign bit turns a number into its opposite, and the next exponent is
/// twice the number.
pub proof fn law_sign_and_exponent(m: u64)
    requires
        m < INFINITE,
    ensures
        (Double { bits: (m + SIGN) as u64 }).value() == -(Double { bits: m }).value(),
        m >= FRACTIONS && m + FRACTIONS < INFINITE ==> (Double {
            bits: (m + FRACTIONS) as u64,
        }).value() == 2 * (Double { bits: m }).value(),
        m < FRACTIONS ==> (Double { bits: m }).value() == m,
{
    if m >= FRACTIONS && m + FRACTIONS < INFINITE {
        let e = exponent(m as int);
        assert(exponent(m + FRACTIONS) == e + 1);
        assert(fraction(m + FRACTIONS) == fraction(m as int));
        lemma_pow2_adds((e - 1) as nat, 1);
        lemma2_to64();
        let d = FRACTIONS + fraction(m as int);
        let p = pow2((e - 1) as nat) as int;
        assert(d * (p * 2) == 2 * (d * p)) by (nonlinear_arith);
    }
}

/// The whole part of a number that is not negative is the largest whole number
/// not above it, as far as a `u64` reaches; that of a negative one is nothing.
pub proof fn law_whole_part(v: Double)
    ensures
        v.is_nan() || v.value() <= 0 ==> v.whole() == 0,
        !v.is_nan() && v.value() >= 0 && v.value() < (u64::MAX + 1) * pow2(1074) ==> v.whole()
            * pow2(1074) <= v.value() < (v.whole() + 1) * pow2(1074),
        !v.is_nan() && v.value() >= (u64::MAX + 1) * pow2(1074) ==> v.whole() == u64::MAX,
{
    let p = pow2(1074) as int;
    let x = v.value();
    lemma_pow2_pos(1074);
    if x >= 0 {
        lemma_fundamental_div_mod(x, p);
        let q = x / p;
        assert(q * p <= x < (q + 1) * p) by (nonlinear_arith)
            requires
                x == p * q + x % p,
                0 <= x % p < p,
        ;
        if x < (u64::MAX + 1) * p {
            assert(q <= u64::MAX) by (nonlinear_arith)
                requires
                    q * p <= x,
                    x < (u64::MAX + 1) * p,
                    p > 0,
            ;
        } else {
            assert(q > u64::MAX) by (nonlinear_arith)
                requires
                    (u64::MAX + 1) * p <= x,
                    x < (q + 1) * p,
                    p > 0,
            ;
        }
        if x == 0 {
            vstd::arithmetic::div_mod::lemma_div_of0(p);
        }
    }
}

} // verus!
