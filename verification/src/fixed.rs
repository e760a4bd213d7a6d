//! Doubles in decimal notation with a fixed number of places.

use vstd::arithmetic::div_mod::{
    lemma_fundamental_div_mod, lemma_fundamental_div_mod_converse, lemma_small_mod,
};
use vstd::arithmetic::power2::{
    lemma2_to64, lemma2_to64_rest, lemma_pow2_adds, lemma_pow2_pos, lemma_pow2_strictly_increases,
    pow2,
};
use vstd::prelude::*;

use crate::double::{
    exponent, lemma_steps_parts, power_of_two, steps, Double, FRACTIONS, INFINITE, SIGN,
};
use crate::quotient::{lemma_rounded_scales, round_to_even, rounded};
use crate::text::{
    decimal, decimal_of, decimal_value, digit, hex_char, law_decimal_reads_back,
    law_padded_numerals_read_back, pad_left, push_decimal, push_padded_left,
};

verus! {

/// The power of ten with the exponent `k`.
pub open spec fn ten_to(k: nat) -> nat
    decreases k,
{
    if k == 0 {
        1
    } else {
        10 * ten_to((k - 1) as nat)
    }
}

/// `n` parts of a whole that has `ten_to(places)` of them, with a decimal
/// point.
pub open spec fn pointed(n: nat, places: nat) -> Seq<char> {
    decimal(n / ten_to(places)) + "."@ + pad_left(decimal(n % ten_to(places)), '0', places)
}

/// `v` to `places` decimal places: the nearest such number, the even one of
/// two equally near.
pub open spec fn fixed_text(v: Double, places: nat) -> Seq<char> {
    if v.is_nan() {
        "NaN"@
    } else {
        (if v.is_negative() {
            "-"@
        } else {
            ""@
        }) + if v.is_finite() {
            pointed(
                rounded((steps(v.unsigned()) * ten_to(places)) as int, pow2(1074) as int) as nat,
                places,
            )
        } else {
            "inf"@
        }
    }
}

/// The number that decimal digits stand for, the leading one first.
spec fn numeral(ds: Seq<u8>) -> nat
    decreases ds.len(),
{
    if ds.len() == 0 {
        0
    } else {
        10 * numeral(ds.drop_last()) + ds.last() as nat
    }
}

/// Whether `ds` are decimal digits, without a zero in front.
spec fn are_digits(ds: Seq<u8>) -> bool {
    &&& forall|i: int| 0 <= i < ds.len() ==> (#[trigger] ds[i]) < 10
    &&& ds.len() > 0 ==> ds[0] != 0
}

spec fn written(ds: Seq<u8>) -> Seq<char> {
    ds.map_values(|d: u8| digit(d as int))
}

proof fn lemma_numeral_pos(ds: Seq<u8>)
    requires
        are_digits(ds),
        ds.len() > 0,
    ensures
        numeral(ds) > 0,
        ds.len() > 1 ==> numeral(ds) >= 10,
    decreases ds.len(),
{
    if ds.len() > 1 {
        lemma_numeral_pos(ds.drop_last());
    }
}

proof fn lemma_written(ds: Seq<u8>)
    requires
        are_digits(ds),
        ds.len() > 0,
    ensures
        written(ds) == decimal(numeral(ds)),
    decreases ds.len(),
{
    lemma_numeral_pos(ds);
    assert(ds[ds.len() - 1] < 10);
    if ds.len() > 1 {
        lemma_written(ds.drop_last());
        assert(numeral(ds) / 10 == numeral(ds.drop_last()));
        assert(numeral(ds) % 10 == ds.last());
        assert(written(ds) =~= written(ds.drop_last()).push(digit(ds.last() as int)));
    } else {
        assert(numeral(ds.drop_last()) == 0);
        assert(written(ds) =~= seq![digit(ds[0] as int)]);
    }
}

/// The digits of `n`.
fn digits_of(n: u64) -> (ds: Vec<u8>)
    ensures
        are_digits(ds@),
        numeral(ds@) == n,
    decreases n,
{
    if n == 0 {
        return Vec::new();
    }
    let mut ds = digits_of(n / 10);
    let ghost front = ds@;
    ds.push((n % 10) as u8);
    assert(ds@.drop_last() =~= front);
    ds
}

/// Twice the number of the digits `ds`, and one more where `carry` says so.
fn doubled(ds: Vec<u8>, carry: bool) -> (r: Vec<u8>)
    requires
        are_digits(ds@),
    ensures
        are_digits(r@),
        numeral(r@) == 2 * numeral(ds@) + if carry {
            1int
        } else {
            0
        },
    decreases ds.len(),
{
    let mut rest = ds;
    match rest.pop() {
        None => {
            let mut r: Vec<u8> = Vec::new();
            if carry {
                r.push(1);
                assert(numeral(r@.drop_last()) == 0);
            }
            r
        },
        Some(d) => {
            assert(rest@ =~= ds@.drop_last());
            assert(ds@[ds@.len() - 1] == d);
            let twice: u8 = 2 * d + if carry {
                1
            } else {
                0
            };
            let mut r = doubled(rest, twice >= 10);
            let ghost front = r@;
            let low: u8 = if twice >= 10 {
                twice - 10
            } else {
                twice
            };
            proof {
                if front.len() == 0 {
                    assert(numeral(front) == 0);
                    if rest@.len() > 0 {
                        lemma_numeral_pos(rest@);
                    }
                }
            }
            r.push(low);
            assert(r@.drop_last() =~= front);
            r
        },
    }
}

fn push_digits(out: &mut String, ds: &Vec<u8>)
    requires
        are_digits(ds@),
    ensures
        final(out)@ == old(out)@ + written(ds@),
{
    let mut i: usize = 0;
    assert(out@ =~= old(out)@ + written(ds@.take(0)));
    while i < ds.len()
        invariant
            i <= ds.len(),
            are_digits(ds@),
            out@ == old(out)@ + written(ds@.take(i as int)),
        decreases ds.len() - i,
    {
        out.push(hex_char(ds[i] as u64));
        i += 1;
        assert(written(ds@.take(i as int)) =~= written(ds@.take(i - 1)).push(
            digit(ds@[i - 1] as int),
        ));
        assert(out@ =~= old(out)@ + written(ds@.take(i as int)));
    }
    assert(ds@.take(i as int) =~= ds@);
}

/// Appends `n` parts of a whole that has `unit` of them, with a decimal point.
fn push_pointed(out: &mut String, n: u64, unit: u64, places: usize)
    requires
        unit == ten_to(places as nat),
        unit > 0,
    ensures
        final(out)@ == old(out)@ + pointed(n as nat, places as nat),
{
    push_decimal(out, n / unit);
    out.append(".");
    let part = decimal_of(n % unit);
    push_padded_left(out, part.as_str(), '0', places);
    assert(out@ =~= old(out)@ + pointed(n as nat, places as nat));
}

/// Appends a whole number above zero with a decimal point.
fn push_whole(out: &mut String, ds: &Vec<u8>, places: usize)
    requires
        are_digits(ds@),
        ds@.len() > 0,
        places <= 2,
    ensures
        final(out)@ == old(out)@ + pointed(numeral(ds@) * ten_to(places as nat), places as nat),
{
    let ghost n = numeral(ds@);
    let ghost unit = ten_to(places as nat);
    push_digits(out, ds);
    out.append(".");
    let part = decimal_of(0);
    push_padded_left(out, part.as_str(), '0', places);
    proof {
        reveal_with_fuel(ten_to, 3);
        lemma_written(ds@);
        lemma_fundamental_div_mod_converse((n * unit) as int, unit as int, n as int, 0);
        assert(out@ =~= old(out)@ + pointed(n * unit, places as nat));
    }
}

/// A number whose digits reach below the point, in parts.
proof fn lemma_parts_below(digits: int, e: int, unit: int)
    requires
        digits >= 0,
        unit > 0,
        1 <= e <= 1075,
    ensures
        rounded((digits * pow2((e - 1) as nat)) * unit, pow2(1074) as int) == rounded(
            digits * unit,
            pow2((1075 - e) as nat) as int,
        ),
{
    let p = pow2((e - 1) as nat) as int;
    let q = pow2((1075 - e) as nat) as int;
    lemma_pow2_pos((e - 1) as nat);
    lemma_pow2_pos((1075 - e) as nat);
    lemma_pow2_adds((1075 - e) as nat, (e - 1) as nat);
    assert(digits * unit >= 0) by (nonlinear_arith)
        requires
            digits >= 0,
            unit > 0,
    ;
    assert((digits * p) * unit == (digits * unit) * p) by (nonlinear_arith);
    lemma_rounded_scales(digits * unit, q, p);
}

/// A whole number, in parts.
proof fn lemma_parts_above(digits: int, e: int, unit: int)
    requires
        digits >= 0,
        unit > 0,
        e >= 1075,
    ensures
        rounded((digits * pow2((e - 1) as nat)) * unit, pow2(1074) as int) == (digits * pow2(
            (e - 1075) as nat,
        )) * unit,
{
    let p = pow2(1074) as int;
    let q = pow2((e - 1075) as nat) as int;
    lemma_pow2_pos(1074);
    lemma_pow2_adds(1074, (e - 1075) as nat);
    let n = (digits * q) * unit;
    assert((digits * (p * q)) * unit == n * p) by (nonlinear_arith)
        requires
            n == (digits * q) * unit,
    ;
    lemma_fundamental_div_mod_converse(n * p, p, n, 0);
}

/// `v` to one or two decimal places.
pub fn fixed(v: &Double, places: usize) -> (r: String)
    requires
        1 <= places <= 2,
    ensures
        r@ == fixed_text(*v, places as nat),
{
    let negative: bool = v.bits >= SIGN;
    let m: u64 = if negative {
        v.bits - SIGN
    } else {
        v.bits
    };
    if m > INFINITE {
        return "NaN".to_owned();
    }
    let mut out = if negative {
        "-".to_owned()
    } else {
        "".to_owned()
    };
    if m == INFINITE {
        out.append("inf");
        return out;
    }
    let unit: u64 = if places == 1 {
        10
    } else {
        100
    };
    proof {
        reveal_with_fuel(ten_to, 3);
        lemma_steps_parts(m as int);
        lemma2_to64();
        lemma2_to64_rest();
    }
    let field: u64 = m / FRACTIONS;
    let (e, digits): (u64, u64) = if field == 0 {
        (1, m % FRACTIONS)
    } else {
        (field, FRACTIONS + m % FRACTIONS)
    };
    assert(steps(m as int) == digits * pow2((e - 1) as nat));
    assert(steps(m as int) * unit == (digits * pow2((e - 1) as nat)) * unit);
    if e <= 1075 {
        proof {
            lemma_parts_below(digits as int, e as int, unit as int);
        }
        let x: u64 = digits * unit;
        if e < 1015 {
            proof {
                let d = pow2((1075 - e) as nat) as int;
                if e < 1014 {
                    lemma_pow2_strictly_increases(61, (1075 - e) as nat);
                }
                vstd::arithmetic::div_mod::lemma_basic_div(x as int, d);
                lemma_small_mod(x as nat, d as nat);
                assert(rounded(x as int, d) == 0);
            }
            push_pointed(&mut out, 0, unit, places);
        } else {
            let d: u64 = power_of_two(1075 - e);
            let n: u128 = round_to_even(x as u128, d as u128);
            proof {
                vstd::arithmetic::div_mod::lemma_div_nonincreasing(x as int, d as int);
            }
            push_pointed(&mut out, n as u64, unit, places);
        }
    } else {
        proof {
            lemma_parts_above(digits as int, e as int, unit as int);
        }
        let mut ds = digits_of(digits);
        let mut i: u64 = 1075;
        assert(digits * pow2(0) == digits) by (nonlinear_arith)
            requires
                pow2(0) == 1,
        ;
        while i < e
            invariant
                1075 <= i <= e,
                are_digits(ds@),
                numeral(ds@) == digits * pow2((i - 1075) as nat),
                digits > 0,
            decreases e - i,
        {
            proof {
                lemma2_to64();
                lemma_pow2_adds((i - 1075) as nat, 1);
                let q = pow2((i - 1075) as nat) as int;
                assert(2 * (digits * q) == digits * (q * 2)) by (nonlinear_arith);
            }
            ds = doubled(ds, false);
            i += 1;
        }
        proof {
            lemma_pow2_pos((e - 1075) as nat);
            let q = pow2((e - 1075) as nat) as int;
            assert(digits * q > 0) by (nonlinear_arith)
                requires
                    digits > 0,
                    q > 0,
            ;
        }
        push_whole(&mut out, &ds, places);
    }
    out
}

// Laws ------------------------------------------------------------------

/// A number is written with a minus sign exactly where its sign bit is set, and
/// then as digits, a point and as many digits as there are places. No number
/// with as many places is nearer to it, and of two equally near it is the even
/// one.
pub proof fn law_fixed_texts_are_nearest(v: Double, places: nat)
    requires
        1 <= places <= 2,
        v.is_finite(),
    ensures
        ({
            let t = fixed_text(v, places);
            let unsigned = if v.is_negative() {
                t.skip(1)
            } else {
                t
            };
            let n = unsigned.len() as int;
            let unit = if places == 1 {
                10int
            } else {
                100
            };
            let parts = decimal_value(unsigned.take(n - places - 1)) * unit + decimal_value(
                unsigned.skip(n - places),
            );
            let exact = unit * if v.is_negative() {
                -v.value()
            } else {
                v.value()
            };
            &&& v.is_negative() <==> t[0] == '-'
            &&& n >= places + 2
            &&& unsigned[n - places - 1] == '.'
            &&& 2 * (parts * pow2(1074) - exact) <= pow2(1074)
            &&& 2 * (exact - parts * pow2(1074)) <= pow2(1074)
            &&& 2 * (parts * pow2(1074) - exact) == pow2(1074) || 2 * (exact - parts * pow2(1074))
                == pow2(1074) ==> parts % 2 == 0
        }),
{
    let t = fixed_text(v, places);
    let unit = ten_to(places);
    let p = pow2(1074) as int;
    let x = (steps(v.unsigned()) * unit) as int;
    let r = rounded(x, p);
    reveal_with_fuel(ten_to, 3);
    lemma_pow2_pos(1074);
    lemma_fundamental_div_mod(x, p);
    let q = x / p;
    assert(x >= 0) by (nonlinear_arith)
        requires
            x == steps(v.unsigned()) * unit,
    ;
    assert(q >= 0) by {
        vstd::arithmetic::div_mod::lemma_div_pos_is_pos(x, p);
    }
    assert(2 * (r * p - x) <= p && 2 * (x - r * p) <= p) by (nonlinear_arith)
        requires
            x == p * q + x % p,
            0 <= x % p < p,
            r == q && 2 * (x % p) <= p || r == q + 1 && 2 * (x % p) >= p,
    ;
    if r == q {
        assert(x - r * p == x % p) by (nonlinear_arith)
            requires
                x == p * q + x % p,
                r == q,
        ;
    } else {
        assert(r * p - x == p - x % p) by (nonlinear_arith)
            requires
                x == p * q + x % p,
                r == q + 1,
        ;
    }
    let m = r as nat;
    let (whole, part) = (m / unit, m % unit);
    law_decimal_reads_back(whole);
    law_padded_numerals_read_back(part, places);
    reveal_strlit(".");
    reveal_strlit("-");
    reveal_strlit("");
    let unsigned = if v.is_negative() {
        t.skip(1)
    } else {
        t
    };
    assert(unsigned =~= pointed(m, places));
    let n = unsigned.len() as int;
    assert(pad_left(decimal(part), '0', places).len() == places);
    assert(unsigned.take(n - places - 1) =~= decimal(whole));
    assert(unsigned.skip(n - places) =~= pad_left(decimal(part), '0', places));
    lemma_fundamental_div_mod(m as int, unit as int);
    assert(whole * unit + part == m) by (nonlinear_arith)
        requires
            m == unit * whole + part,
    ;
    let k = if places == 1 {
        10int
    } else {
        100
    };
    let s = steps(v.unsigned());
    assert(unit == k);
    assert(x == k * s) by (nonlinear_arith)
        requires
            x == s * unit,
            unit == k,
    ;
    let parts = decimal_value(unsigned.take(n - places - 1)) * k + decimal_value(
        unsigned.skip(n - places),
    );
    assert(parts == m) by (nonlinear_arith)
        requires
            parts == whole * k + part,
            whole * unit + part == m,
            unit == k,
    ;
    assert(parts * p == r * p);
    assert(t[0] == if v.is_negative() {
        '-'
    } else {
        decimal(whole)[0]
    });
}

} // verus!
