//! JSON numbers compared as doubles, in exact integer arithmetic.
//!
//! A finite double is a multiple of 2^-1074; its value is stated here in that
//! unit, so that every comparison is one of integers.

use vstd::arithmetic::power2::{
    lemma2_to64, lemma2_to64_rest, lemma_pow2_adds, lemma_pow2_pos, lemma_pow2_strictly_increases,
    pow2,
};
use vstd::prelude::*;

verus! {

/// A number of a JSON document: an integer, or the bits of a finite double.
#[derive(Clone, Copy)]
pub enum Number {
    Whole(i128),
    Double(u64),
}

/// Whether the bits are those of a finite double.
pub open spec fn is_finite(bits: u64) -> bool {
    exponent_field(bits) < 2047
}

/// Whether a number is one that a JSON document can hold.
pub open spec fn is_json_number(n: Number) -> bool {
    match n {
        Number::Whole(v) => -0x8000_0000_0000_0000 <= v <= 0xffff_ffff_ffff_ffff,
        Number::Double(bits) => is_finite(bits),
    }
}

/// The biased exponent of a double.
pub open spec fn exponent_field(bits: u64) -> int {
    (bits as int / 0x10_0000_0000_0000) % 2048
}

/// The significand of a double, its leading one included.
pub open spec fn significand(bits: u64) -> int {
    let fraction = bits as int % 0x10_0000_0000_0000;
    if exponent_field(bits) == 0 {
        fraction
    } else {
        fraction + 0x10_0000_0000_0000
    }
}

/// The power of two that scales the significand, in units of 2^-1074.
pub open spec fn scale(bits: u64) -> nat {
    if exponent_field(bits) == 0 {
        0
    } else {
        (exponent_field(bits) - 1) as nat
    }
}

/// The absolute value of a double, in units of 2^-1074.
pub open spec fn double_size(bits: u64) -> int {
    significand(bits) * pow2(scale(bits))
}

/// The value of a double, in units of 2^-1074.
pub open spec fn double_units(bits: u64) -> int {
    if bits >= 0x8000_0000_0000_0000 {
        -double_size(bits)
    } else {
        double_size(bits)
    }
}

/// The distance between neighbouring doubles at a whole number from 2^53 on;
/// one below.
pub open spec fn spacing(m: nat) -> nat
    decreases m,
{
    if m < 0x20_0000_0000_0000 {
        1
    } else {
        2 * spacing(m / 2)
    }
}

/// The double nearest to a natural number, which is a whole number too; a tie
/// goes to the even significand.
pub open spec fn nearest(m: nat) -> nat {
    let u = spacing(m);
    let q = m / u;
    let r = m % u;
    if 2 * r > u || (2 * r == u && q % 2 == 1) {
        (q + 1) * u
    } else {
        q * u
    }
}

/// An integer as the double nearest to it.
pub open spec fn as_double(n: int) -> int {
    if n < 0 {
        -nearest((-n) as nat)
    } else {
        nearest(n as nat) as int
    }
}

/// A number as a double, in units of 2^-1074.
pub open spec fn units(n: Number) -> int {
    match n {
        Number::Whole(v) => as_double(v as int) * pow2(1074),
        Number::Double(bits) => double_units(bits),
    }
}

/// Whether two doubles differ by less than 2^-52, the machine epsilon.
pub open spec fn nearly_equal(a: int, b: int) -> bool {
    -(pow2(1022) as int) < a - b < pow2(1022)
}

proof fn lemma_spacing(m: nat)
    ensures
        1 <= spacing(m) <= m + 1,
        m < 0x20_0000_0000_0000 * spacing(m),
        m < 0x1_0000_0000_0000_0000 ==> spacing(m) < 4096,
        m >= 0x20_0000_0000_0000 ==> 0x10_0000_0000_0000 * spacing(m) <= m,
    decreases m,
{
    if m >= 0x20_0000_0000_0000 {
        lemma_spacing(m / 2);
    }
}

fn spacing_of(m: u64) -> (r: u64)
    ensures
        r == spacing(m as nat),
        1 <= r < 4096,
    decreases m,
{
    proof {
        lemma_spacing(m as nat);
        lemma_spacing((m / 2) as nat);
    }
    if m < 0x20_0000_0000_0000 {
        1
    } else {
        2 * spacing_of(m / 2)
    }
}

/// The double nearest to a natural number.
fn nearest_of(m: u64) -> (r: u128)
    ensures
        r == nearest(m as nat),
        r <= 0x2_0000_0000_0000_0000,
{
    proof {
        lemma_spacing(m as nat);
    }
    let u: u64 = spacing_of(m);
    let q: u64 = m / u;
    let rest: u64 = m % u;
    assert(m == q * u + rest) by (nonlinear_arith)
        requires
            q == m / u,
            rest == m % u,
            u >= 1,
    ;
    assert(q < 0x20_0000_0000_0000) by (nonlinear_arith)
        requires
            m < 0x20_0000_0000_0000 * u,
            m == q * u + rest,
            rest >= 0,
            u >= 1,
    ;
    let up: bool = 2 * rest > u || (2 * rest == u && q % 2 == 1);
    let whole: u64 = if up {
        q + 1
    } else {
        q
    };
    assert(whole * u <= 0x20_0000_0000_0000 * 4096) by (nonlinear_arith)
        requires
            0 <= whole <= 0x20_0000_0000_0000,
            1 <= u < 4096,
    ;
    (whole as u128) * (u as u128)
}

fn two_to(k: u64) -> (r: u128)
    requires
        k <= 100,
    ensures
        r == pow2(k as nat),
        1 <= r <= 0x10_0000_0000_0000_0000_0000_0000,
    decreases k,
{
    if k == 0 {
        proof {
            lemma2_to64();
        }
        1
    } else {
        let half = two_to(k - 1);
        proof {
            lemma2_to64();
            lemma_pow2_adds(1, (k - 1) as nat);
            lemma_two_to_100();
            if k < 100 {
                lemma_pow2_strictly_increases(k as nat, 100);
            }
        }
        2 * half
    }
}

proof fn lemma_two_to_100()
    ensures
        pow2(100) == 0x10_0000_0000_0000_0000_0000_0000,
{
    lemma2_to64();
    lemma2_to64_rest();
    lemma_pow2_adds(50, 50);
    assert(pow2(50) == 0x4_0000_0000_0000);
}

proof fn lemma_same_factor(x: int, y: int, f: int)
    requires
        f > 0,
    ensures
        (x * f < y * f) == (x < y),
        (x * f == y * f) == (x == y),
{
    assert((x * f < y * f) == (x < y)) by (nonlinear_arith)
        requires
            f > 0,
    ;
    assert((x * f == y * f) == (x == y)) by (nonlinear_arith)
        requires
            f > 0,
    ;
}

/// Two integers that compare like the whole number `m` and the double
/// `mantissa * 2^shift`, the latter in units of 2^-1074.
fn aligned(m: u128, mantissa: u64, shift: u64) -> (r: (u128, u128))
    requires
        m <= 0x2_0000_0000_0000_0000,
        mantissa < 0x20_0000_0000_0000,
        shift <= 2045,
        shift > 0 ==> mantissa >= 0x10_0000_0000_0000,
    ensures
        (r.0 < r.1) == (m * pow2(1074) < mantissa * pow2(shift as nat)),
        (r.0 == r.1) == (m * pow2(1074) == mantissa * pow2(shift as nat)),
{
    proof {
        lemma_pow2_pos(1074);
        lemma_pow2_pos(shift as nat);
        lemma2_to64();
        lemma2_to64_rest();
    }
    if shift >= 1074 {
        let k: u64 = shift - 1074;
        let ghost p = pow2(k as nat) as int;
        proof {
            lemma_pow2_adds(1074, k as nat);
            assert(mantissa * pow2(shift as nat) == (mantissa * p) * pow2(1074)) by (nonlinear_arith)
                requires
                    pow2(shift as nat) == pow2(1074) * p,
            ;
            lemma_same_factor(m as int, mantissa * p, pow2(1074) as int);
        }
        if k >= 14 {
            proof {
                if k > 14 {
                    lemma_pow2_strictly_increases(14, k as nat);
                }
                assert(mantissa * p > m) by (nonlinear_arith)
                    requires
                        mantissa >= 0x10_0000_0000_0000,
                        p >= 0x4000,
                        m <= 0x2_0000_0000_0000_0000,
                ;
            }
            (0, 1)
        } else {
            let factor = two_to(k);
            proof {
                lemma_pow2_strictly_increases(k as nat, 14);
                assert(mantissa * factor < 0x20_0000_0000_0000 * 0x4000) by (nonlinear_arith)
                    requires
                        0 <= mantissa < 0x20_0000_0000_0000,
                        0 < factor <= 0x4000,
                ;
            }
            (m, (mantissa as u128) * factor)
        }
    } else {
        let k: u64 = 1074 - shift;
        let ghost p = pow2(k as nat) as int;
        proof {
            lemma_pow2_adds(shift as nat, k as nat);
            assert(m * pow2(1074) == (m * p) * pow2(shift as nat)) by (nonlinear_arith)
                requires
                    pow2(1074) == pow2(shift as nat) * p,
            ;
            lemma_same_factor(m * p, mantissa as int, pow2(shift as nat) as int);
            lemma_same_factor(mantissa as int, m * p, pow2(shift as nat) as int);
        }
        if k >= 54 {
            proof {
                if k > 54 {
                    lemma_pow2_strictly_increases(54, k as nat);
                }
                if m > 0 {
                    assert(m * p >= p) by (nonlinear_arith)
                        requires
                            m >= 1,
                            p >= 0,
                    ;
                }
            }
            if m == 0 {
                (0, mantissa as u128)
            } else {
                (1, 0)
            }
        } else {
            let factor = two_to(k);
            proof {
                lemma_pow2_strictly_increases(k as nat, 54);
                assert(m * factor <= 0x2_0000_0000_0000_0000 * 0x40_0000_0000_0000)
                    by (nonlinear_arith)
                    requires
                        0 <= m <= 0x2_0000_0000_0000_0000,
                        0 < factor <= 0x40_0000_0000_0000,
                ;
            }
            (m * factor, mantissa as u128)
        }
    }
}

/// How one number stands to another.
#[derive(Clone, Copy, PartialEq, Eq, Structural)]
pub enum Standing {
    Below,
    Level,
    Above,
}

fn double_of(n: i128) -> (r: i128)
    requires
        is_json_number(Number::Whole(n)),
    ensures
        r == as_double(n as int),
        -0x2_0000_0000_0000_0000 <= r <= 0x2_0000_0000_0000_0000,
        r < 0 ==> n < 0,
{
    if n < 0 {
        -(nearest_of((-n) as u64) as i128)
    } else {
        nearest_of(n as u64) as i128
    }
}

/// The significand and the scale of a double.
fn split_double(bits: u64) -> (r: (u64, u64))
    requires
        is_finite(bits),
    ensures
        r.0 == significand(bits),
        r.1 == scale(bits),
        r.0 < 0x20_0000_0000_0000,
        r.1 <= 2045,
        r.1 > 0 ==> r.0 >= 0x10_0000_0000_0000,
{
    let fraction: u64 = bits % 0x10_0000_0000_0000;
    let exponent: u64 = (bits / 0x10_0000_0000_0000) % 2048;
    if exponent == 0 {
        (fraction, 0)
    } else {
        (fraction + 0x10_0000_0000_0000, exponent - 1)
    }
}

/// How an integer stands to another number, both taken as doubles.
pub fn compare_whole(n: i128, other: Number) -> (r: Standing)
    requires
        is_json_number(Number::Whole(n)),
        is_json_number(other),
    ensures
        r == (if units(Number::Whole(n)) < units(other) {
            Standing::Below
        } else if units(Number::Whole(n)) == units(other) {
            Standing::Level
        } else {
            Standing::Above
        }),
{
    let d = double_of(n);
    let ghost unit = pow2(1074) as int;
    proof {
        lemma_pow2_pos(1074);
    }
    match other {
        Number::Whole(v) => {
            let e = double_of(v);
            proof {
                lemma_same_factor(d as int, e as int, unit);
            }
            if d < e {
                Standing::Below
            } else if d == e {
                Standing::Level
            } else {
                Standing::Above
            }
        },
        Number::Double(bits) => {
            let (mantissa, shift) = split_double(bits);
            let ghost size = double_size(bits);
            proof {
                lemma_pow2_pos(shift as nat);
                assert(size >= 0 && (mantissa > 0 ==> size > 0) && (mantissa == 0 ==> size == 0))
                    by (nonlinear_arith)
                    requires
                        size == mantissa * pow2(shift as nat),
                        mantissa >= 0,
                        pow2(shift as nat) > 0,
                ;
                lemma_same_factor(d as int, 0, unit);
                lemma_same_factor(0, d as int, unit);
            }
            let negative: bool = bits >= 0x8000_0000_0000_0000;
            if d < 0 {
                if !negative {
                    return Standing::Below;
                }
                assert((-d) * unit == -(d * unit)) by (nonlinear_arith);
                let (a, b) = aligned((-d) as u128, mantissa, shift);
                if a < b {
                    Standing::Above
                } else if a == b {
                    Standing::Level
                } else {
                    Standing::Below
                }
            } else {
                if negative {
                    return if mantissa == 0 && d == 0 {
                        Standing::Level
                    } else {
                        Standing::Above
                    };
                }
                let (a, b) = aligned(d as u128, mantissa, shift);
                if a < b {
                    Standing::Below
                } else if a == b {
                    Standing::Level
                } else {
                    Standing::Above
                }
            }
        },
    }
}

/// Near one, only the double just below one is within 2^-52 of a whole number
/// that it does not equal.
proof fn lemma_near_whole(m: int, mantissa: int, shift: nat)
    requires
        m >= 1,
        0 <= mantissa < 0x20_0000_0000_0000,
        m * pow2(1074) != mantissa * pow2(shift),
    ensures
        nearly_equal(m * pow2(1074), mantissa * pow2(shift)) == (m == 1 && shift == 1021 && mantissa
            == 0x1f_ffff_ffff_ffff),
{
    lemma2_to64();
    lemma2_to64_rest();
    lemma_pow2_pos(1022);
    lemma_pow2_pos(1074);
    lemma_pow2_pos(shift);
    let eps = pow2(1022) as int;
    let unit = pow2(1074) as int;
    lemma_pow2_adds(1022, 52);
    assert(unit == 0x10_0000_0000_0000 * eps);
    if shift >= 1022 {
        let k = (shift - 1022) as nat;
        lemma_pow2_adds(1022, k);
        let p = pow2(k) as int;
        let a = m * 0x10_0000_0000_0000;
        let b = mantissa * p;
        assert(m * unit == a * eps) by (nonlinear_arith)
            requires
                unit == 0x10_0000_0000_0000 * eps,
                a == m * 0x10_0000_0000_0000,
        ;
        assert(mantissa * pow2(shift) == b * eps) by (nonlinear_arith)
            requires
                pow2(shift) == eps * p,
                b == mantissa * p,
        ;
        assert(a != b);
        assert(a * eps - b * eps >= eps || b * eps - a * eps >= eps) by (nonlinear_arith)
            requires
                a != b,
                eps > 0,
        ;
    } else {
        lemma_pow2_adds(1021, 1);
        let half = pow2(1021) as int;
        assert(eps == 2 * half);
        assert(m * unit >= unit) by (nonlinear_arith)
            requires
                m >= 1,
                unit > 0,
        ;
        if m >= 2 {
            assert(m * unit >= 2 * unit) by (nonlinear_arith)
                requires
                    m >= 2,
                    unit > 0,
            ;
        }
        if shift < 1021 {
            lemma_pow2_strictly_increases(shift, 1021);
            lemma_pow2_adds(1020, 1);
            if shift < 1020 {
                lemma_pow2_strictly_increases(shift, 1020);
            }
            let quarter = pow2(1020) as int;
            assert(mantissa * pow2(shift) <= 0x1f_ffff_ffff_ffff * quarter) by (nonlinear_arith)
                requires
                    0 <= mantissa <= 0x1f_ffff_ffff_ffff,
                    0 < pow2(shift) <= quarter,
            ;
        } else {
            assert(mantissa * half <= 0x1f_ffff_ffff_ffff * half) by (nonlinear_arith)
                requires
                    0 <= mantissa <= 0x1f_ffff_ffff_ffff,
                    0 < half,
            ;
            if mantissa < 0x1f_ffff_ffff_ffff {
                assert(mantissa * half <= 0x1f_ffff_ffff_fffe * half) by (nonlinear_arith)
                    requires
                        0 <= mantissa <= 0x1f_ffff_ffff_fffe,
                        0 < half,
                ;
            }
        }
    }
}

/// A double is less than 2^-52 in size when its exponent says so.
proof fn lemma_near_zero(mantissa: int, shift: nat)
    requires
        0 <= mantissa < 0x20_0000_0000_0000,
        shift > 0 ==> mantissa >= 0x10_0000_0000_0000,
    ensures
        (mantissa * pow2(shift) < pow2(1022)) == (shift <= 969),
{
    lemma2_to64();
    lemma2_to64_rest();
    lemma_pow2_pos(shift);
    lemma_pow2_adds(969, 53);
    lemma_pow2_adds(970, 52);
    if shift <= 969 {
        if shift < 969 {
            lemma_pow2_strictly_increases(shift, 969);
        }
        assert(mantissa * pow2(shift) < 0x20_0000_0000_0000 * pow2(969)) by (nonlinear_arith)
            requires
                0 <= mantissa < 0x20_0000_0000_0000,
                0 < pow2(shift) <= pow2(969),
        ;
    } else {
        if shift > 970 {
            lemma_pow2_strictly_increases(970, shift);
        }
        assert(mantissa * pow2(shift) >= 0x10_0000_0000_0000 * pow2(970)) by (nonlinear_arith)
            requires
                mantissa >= 0x10_0000_0000_0000,
                pow2(shift) >= pow2(970),
                pow2(970) >= 0,
        ;
    }
}

/// Whether an integer and another number differ by less than the machine
/// epsilon when both are taken as doubles.
pub fn nearly_equals(n: i128, other: Number) -> (r: bool)
    requires
        is_json_number(Number::Whole(n)),
        is_json_number(other),
    ensures
        r == nearly_equal(units(Number::Whole(n)), units(other)),
{
    let d = double_of(n);
    let ghost unit = pow2(1074) as int;
    let ghost eps = pow2(1022) as int;
    proof {
        lemma_pow2_pos(1074);
        lemma_pow2_pos(1022);
        lemma_pow2_strictly_increases(1022, 1074);
    }
    match other {
        Number::Whole(v) => {
            let e = double_of(v);
            proof {
                lemma_same_factor(d as int, e as int, unit);
                if d != e {
                    assert(d * unit - e * unit >= unit || e * unit - d * unit >= unit)
                        by (nonlinear_arith)
                        requires
                            d != e,
                            unit > 0,
                    ;
                }
            }
            d == e
        },
        Number::Double(bits) => {
            let (mantissa, shift) = split_double(bits);
            let ghost size = double_size(bits);
            proof {
                lemma_pow2_pos(shift as nat);
                assert(size >= 0) by (nonlinear_arith)
                    requires
                        size == mantissa * pow2(shift as nat),
                        mantissa >= 0,
                        pow2(shift as nat) > 0,
                ;
                lemma_near_zero(mantissa as int, shift as nat);
            }
            let negative: bool = bits >= 0x8000_0000_0000_0000;
            if d == 0 {
                assert(d * unit == 0) by (nonlinear_arith)
                    requires
                        d == 0,
                ;
                return shift <= 969;
            }
            let m: u128 = if d < 0 {
                (-d) as u128
            } else {
                d as u128
            };
            proof {
                assert(m * unit >= unit) by (nonlinear_arith)
                    requires
                        m >= 1,
                        unit > 0,
                ;
                if d < 0 {
                    assert(d * unit == -(m * unit)) by (nonlinear_arith)
                        requires
                            d == -m,
                    ;
                }
            }
            if (d < 0) != negative {
                return false;
            }
            let (a, b) = aligned(m, mantissa, shift);
            if a == b {
                return true;
            }
            proof {
                lemma_near_whole(m as int, mantissa as int, shift as nat);
            }
            m == 1 && shift == 1021 && mantissa == 0x1f_ffff_ffff_ffff
        },
    }
}

/// Whether the bits are those of no number.
pub open spec fn is_nan(bits: u64) -> bool {
    exponent_field(bits) == 2047 && bits as int % 0x10_0000_0000_0000 != 0
}

/// The place of a double that is a number in the order of the doubles. Both
/// zeros have the same place.
pub open spec fn rank(bits: u64) -> int {
    if bits >= 0x8000_0000_0000_0000 {
        -(bits as int - 0x8000_0000_0000_0000)
    } else {
        bits as int
    }
}

/// Whether a double is at least another. Nothing is where one of them is no
/// number.
pub open spec fn double_at_least(a: u64, b: u64) -> bool {
    !is_nan(a) && !is_nan(b) && rank(a) >= rank(b)
}

/// Whether a double is greater than zero.
pub open spec fn double_positive(a: u64) -> bool {
    !is_nan(a) && rank(a) > 0
}

pub fn no_number(bits: u64) -> (r: bool)
    ensures
        r == is_nan(bits),
{
    (bits / 0x10_0000_0000_0000) % 2048 == 2047 && bits % 0x10_0000_0000_0000 != 0
}

fn rank_of(bits: u64) -> (r: i128)
    ensures
        r == rank(bits),
{
    if bits >= 0x8000_0000_0000_0000 {
        -(bits as i128 - 0x8000_0000_0000_0000)
    } else {
        bits as i128
    }
}

/// Whether the double with the bits `a` is at least the one with the bits `b`.
pub fn at_least(a: u64, b: u64) -> (r: bool)
    ensures
        r == double_at_least(a, b),
{
    !no_number(a) && !no_number(b) && rank_of(a) >= rank_of(b)
}

/// Whether a double is below another. Nothing is where one of them is no
/// number.
pub open spec fn double_below(a: u64, b: u64) -> bool {
    !is_nan(a) && !is_nan(b) && rank(a) < rank(b)
}

/// Whether the double with the bits `a` is below the one with the bits `b`.
pub fn is_below(a: u64, b: u64) -> (r: bool)
    ensures
        r == double_below(a, b),
{
    !no_number(a) && !no_number(b) && rank_of(a) < rank_of(b)
}

/// Whether the double with the bits `a` is greater than zero.
pub fn is_positive(a: u64) -> (r: bool)
    ensures
        r == double_positive(a),
{
    !no_number(a) && rank_of(a) > 0
}

proof fn lemma_size_grows(a: u64, b: u64)
    requires
        is_finite(a),
        is_finite(b),
        a < b < 0x8000_0000_0000_0000,
    ensures
        0 <= double_size(a) < double_size(b),
{
    let ea = exponent_field(a);
    let eb = exponent_field(b);
    let fa = a as int % 0x10_0000_0000_0000;
    let fb = b as int % 0x10_0000_0000_0000;
    assert(a == ea * 0x10_0000_0000_0000 + fa);
    assert(b == eb * 0x10_0000_0000_0000 + fb);
    lemma2_to64();
    lemma2_to64_rest();
    lemma_pow2_pos(scale(a));
    lemma_pow2_pos(scale(b));
    let pa = pow2(scale(a)) as int;
    let pb = pow2(scale(b)) as int;
    let sa = significand(a);
    let sb = significand(b);
    if ea == eb {
        assert(0 <= sa * pa < sb * pb) by (nonlinear_arith)
            requires
                0 <= sa < sb,
                pa == pb,
                pa > 0,
        ;
    } else {
        assert(ea < eb);
        if ea == 0 {
            assert(0 <= sa * pa < sb * pb) by (nonlinear_arith)
                requires
                    0 <= sa < 0x10_0000_0000_0000 <= sb,
                    pa == 1,
                    pb > 0,
            ;
        } else {
            lemma_pow2_adds(scale(a), 1);
            if scale(a) + 1 < scale(b) {
                lemma_pow2_strictly_increases(scale(a) + 1, scale(b));
            }
            assert(2 * pa <= pb);
            assert(0 <= sa * pa < sb * pb) by (nonlinear_arith)
                requires
                    0 <= sa < 0x20_0000_0000_0000,
                    0x10_0000_0000_0000 <= sb,
                    0 < pa,
                    2 * pa <= pb,
            ;
        }
    }
}

proof fn lemma_opposite(bits: u64)
    requires
        bits >= 0x8000_0000_0000_0000,
    ensures
        ({
            let m = (bits - 0x8000_0000_0000_0000) as u64;
            &&& double_size(m) == double_size(bits)
            &&& is_finite(m) == is_finite(bits)
        }),
{
    let m = (bits - 0x8000_0000_0000_0000) as u64;
    assert(bits as int == m as int + 2048 * 0x10_0000_0000_0000);
    assert(bits as int / 0x10_0000_0000_0000 == m as int / 0x10_0000_0000_0000 + 2048);
    assert(bits as int % 0x10_0000_0000_0000 == m as int % 0x10_0000_0000_0000);
}

proof fn lemma_rank_of_size(bits: u64)
    requires
        is_finite(bits),
    ensures
        double_size(bits) >= 0,
        (rank(bits) == 0) == (double_size(bits) == 0),
{
    let m = if bits >= 0x8000_0000_0000_0000 {
        lemma_opposite(bits);
        (bits - 0x8000_0000_0000_0000) as u64
    } else {
        bits
    };
    assert(double_size(0) == 0) by {
        lemma_pow2_pos(0);
        assert(significand(0) == 0);
    }
    if m > 0 {
        lemma_size_grows(0, m);
    }
}

/// The order by rank is the order of the values of finite doubles.
pub proof fn law_rank_is_order(a: u64, b: u64)
    requires
        is_finite(a),
        is_finite(b),
    ensures
        double_at_least(a, b) == (double_units(a) >= double_units(b)),
        double_positive(a) == (double_units(a) > 0),
{
    lemma_rank_of_size(a);
    lemma_rank_of_size(b);
    let high: int = 0x8000_0000_0000_0000;
    let ma = if a >= high {
        lemma_opposite(a);
        (a - high) as u64
    } else {
        a
    };
    let mb = if b >= high {
        lemma_opposite(b);
        (b - high) as u64
    } else {
        b
    };
    if ma < mb {
        lemma_size_grows(ma, mb);
    } else if mb < ma {
        lemma_size_grows(mb, ma);
    }
}

/// A whole number that a double holds exactly is compared as it is: the order of
/// the units is the order of the numbers, and two that differ are not nearly
/// equal.
pub proof fn law_small_numbers_are_exact(x: i128, y: i128)
    requires
        -0x20_0000_0000_0000 < x < 0x20_0000_0000_0000,
        -0x20_0000_0000_0000 < y < 0x20_0000_0000_0000,
    ensures
        (units(Number::Whole(x)) < units(Number::Whole(y))) == (x < y),
        (units(Number::Whole(x)) == units(Number::Whole(y))) == (x == y),
        nearly_equal(units(Number::Whole(x)), units(Number::Whole(y))) == (x == y),
{
    lemma_exact(x as int);
    lemma_exact(y as int);
    lemma_pow2_pos(1074);
    lemma_pow2_pos(1022);
    lemma_pow2_strictly_increases(1022, 1074);
    let p = pow2(1074) as int;
    lemma_same_factor(x as int, y as int, p);
    let d = x as int - y as int;
    assert(x as int * p - y as int * p == d * p) by (nonlinear_arith)
        requires
            d == x as int - y as int,
    ;
    if d > 0 {
        assert(d * p >= p) by (nonlinear_arith)
            requires
                d >= 1,
                p > 0,
        ;
    } else if d < 0 {
        assert(d * p <= -p) by (nonlinear_arith)
            requires
                d <= -1,
                p > 0,
        ;
    }
}

proof fn lemma_exact(n: int)
    requires
        -0x20_0000_0000_0000 < n < 0x20_0000_0000_0000,
    ensures
        as_double(n) == n,
{
    let m = if n < 0 {
        (-n) as nat
    } else {
        n as nat
    };
    assert(spacing(m) == 1);
    assert(m / 1 == m && m % 1 == 0) by (nonlinear_arith);
}

/// Near equality is a matter of distance: it goes both ways, holds of equal
/// values, and of anything between two that are nearly equal.
pub proof fn law_near_equality(a: int, b: int, c: int)
    ensures
        nearly_equal(a, a),
        nearly_equal(a, b) == nearly_equal(b, a),
        nearly_equal(a, c) && a <= b <= c ==> nearly_equal(a, b) && nearly_equal(b, c),
{
    lemma_pow2_pos(1022);
}

/// Doubles that are numbers are ordered: exactly one of two is below the other or
/// both are at least each other; whatever is at least a positive double is
/// positive; and of no number nothing of this holds.
pub proof fn law_doubles_are_ordered(a: u64, b: u64, c: u64)
    ensures
        !is_nan(a) && !is_nan(b) ==> double_below(a, b) == !double_at_least(a, b),
        !is_nan(a) && !is_nan(b) ==> double_at_least(a, b) || double_at_least(b, a),
        double_at_least(a, b) && double_at_least(b, c) ==> double_at_least(a, c),
        double_at_least(a, b) && double_positive(b) ==> double_positive(a),
        double_positive(a) == (!is_nan(a) && double_below(0, a)),
        is_nan(a) ==> !double_at_least(a, b) && !double_at_least(b, a) && !double_below(a, b)
            && !double_below(b, a) && !double_positive(a),
        !double_positive(0) && !is_nan(0),
{
    assert(0u64 as int / 0x10_0000_0000_0000 == 0) by (nonlinear_arith);
    assert(0u64 as int % 0x10_0000_0000_0000 == 0) by (nonlinear_arith);
}

} // verus!
