//! IEEE 754 binary64 values held by their bit patterns.
//!
//! The library never computes with doubles. It reads the fields of a bit
//! pattern to decide whether a value is finite or below zero, and it encodes
//! integers as doubles the way Rust's `as` conversion does: rounded to the
//! nearest value with 53 significant bits, ties to an even significand.
use vstd::arithmetic::div_mod::{
    lemma_div_multiples_vanish, lemma_fundamental_div_mod, lemma_fundamental_div_mod_converse,
    lemma_mod_mod,
};
use vstd::arithmetic::mul::{
    lemma_mul_equality_converse, lemma_mul_inequality, lemma_mul_strict_inequality,
};
use vstd::arithmetic::power2::{
    lemma2_to64, lemma2_to64_rest, lemma_pow2_adds, lemma_pow2_pos, lemma_pow2_strictly_increases,
    lemma_pow2_unfold, pow2,
};
use vstd::prelude::*;

verus! {

/// Weight of the sign bit of a double.
pub const SIGN_BIT: u64 = 0x8000_0000_0000_0000;

/// Weight of the lowest bit of the biased exponent field of a double.
pub const EXPONENT_UNIT: u64 = 0x10_0000_0000_0000;

/// Whether the sign bit of the double with these bits is set.
pub open spec fn sign_of(bits: u64) -> bool {
    bits >= SIGN_BIT
}

/// The biased exponent field (0 through 2047) of the double with these bits.
pub open spec fn exponent_of(bits: u64) -> int {
    ((bits % SIGN_BIT) / EXPONENT_UNIT) as int
}

/// The fraction field (the 52 stored significand bits) of the double with these bits.
pub open spec fn fraction_of(bits: u64) -> int {
    (bits % EXPONENT_UNIT) as int
}

/// A double is finite when its exponent field is not all ones.
pub open spec fn is_finite(bits: u64) -> bool {
    exponent_of(bits) != 2047
}

/// A double is NaN when its exponent field is all ones and its fraction is not zero.
pub open spec fn is_nan(bits: u64) -> bool {
    exponent_of(bits) == 2047 && fraction_of(bits) != 0
}

/// A double is zero (of either sign) when every bit but the sign bit is clear.
pub open spec fn is_zero(bits: u64) -> bool {
    bits % SIGN_BIT == 0
}

/// What `x < 0.0` gives for the double `x` with these bits: its sign is set and
/// it is neither zero nor NaN.
pub open spec fn is_below_zero(bits: u64) -> bool {
    sign_of(bits) && !is_zero(bits) && !is_nan(bits)
}

/// Returns whether the double with these bits is finite (neither infinite nor NaN).
pub fn bits_are_finite(bits: u64) -> (r: bool)
    ensures
        r == is_finite(bits),
{
    (bits % SIGN_BIT) / EXPONENT_UNIT != 2047
}

/// Returns what `x < 0.0` gives for the double `x` with these bits.
pub fn bits_are_below_zero(bits: u64) -> (r: bool)
    ensures
        r == is_below_zero(bits),
{
    let negative = bits >= SIGN_BIT;
    let zero = bits % SIGN_BIT == 0;
    let nan = (bits % SIGN_BIT) / EXPONENT_UNIT == 2047 && bits % EXPONENT_UNIT != 0;
    negative && !zero && !nan
}

/// The position of the highest set bit of a positive integer (0 for 0 and 1).
pub open spec fn top_bit(a: nat) -> nat
    decreases a,
{
    if a < 2 {
        0
    } else {
        1 + top_bit(a / 2)
    }
}

/// The natural number `a` rounded to the nearest number that has at most 53
/// significant bits, a tie going to the one whose 53-bit significand is even.
pub open spec fn round_to_double_precision(a: nat) -> nat {
    let e = top_bit(a);
    if e <= 52 {
        a
    } else {
        let unit = pow2((e - 52) as nat);
        let q = a / unit;
        let r = a % unit;
        if 2 * r > unit || (2 * r == unit && q % 2 == 1) {
            (q + 1) * unit
        } else {
            q * unit
        }
    }
}

/// The value of the double nearest to the integer `i` (ties to even), which is
/// what Rust's `i as f64` gives.
pub open spec fn nearest_double(i: int) -> int {
    if i < 0 {
        -round_to_double_precision((-i) as nat)
    } else {
        round_to_double_precision(i as nat) as int
    }
}

/// The bits are those of the double whose value is the integer `v`: positive
/// zero for zero; for any other value a normal double of the sign of `v` whose
/// significand (the fraction with its hidden leading one), scaled by the power
/// of two that its exponent field gives, is the magnitude of `v`.
pub open spec fn encodes_integer(bits: u64, v: int) -> bool {
    if v == 0 {
        bits == 0
    } else {
        let e = exponent_of(bits);
        let m = EXPONENT_UNIT + fraction_of(bits);
        let magnitude = if v < 0 {
            -v
        } else {
            v
        };
        &&& sign_of(bits) == (v < 0)
        &&& 1 <= e <= 2046
        &&& if e >= 1075 {
            m * pow2((e - 1075) as nat) == magnitude
        } else {
            m == magnitude * pow2((1075 - e) as nat)
        }
    }
}

/// The top bit of `a` is `e` exactly when `a` lies between `2^e` and `2^(e+1)`.
pub proof fn lemma_top_bit(a: nat, e: nat)
    requires
        pow2(e) <= a < pow2(e + 1),
    ensures
        top_bit(a) == e,
    decreases e,
{
    lemma_pow2_unfold(e + 1);
    if e == 0 {
        lemma2_to64();
    } else {
        lemma_pow2_unfold(e);
        lemma_pow2_pos((e - 1) as nat);
        assert(pow2((e - 1) as nat) <= a / 2 < pow2(e));
        lemma_top_bit(a / 2, (e - 1) as nat);
    }
}

/// The sign, exponent and fraction fields of a packed double.
proof fn lemma_fields(sign: u64, e: u64, f: u64)
    requires
        sign == 0 || sign == SIGN_BIT,
        e < 2048,
        f < EXPONENT_UNIT,
    ensures
        sign + e * EXPONENT_UNIT + f <= u64::MAX,
        sign_of((sign + e * EXPONENT_UNIT + f) as u64) == (sign == SIGN_BIT),
        exponent_of((sign + e * EXPONENT_UNIT + f) as u64) == e,
        fraction_of((sign + e * EXPONENT_UNIT + f) as u64) == f,
{
    let low = e * EXPONENT_UNIT + f;
    assert(low < SIGN_BIT) by (nonlinear_arith)
        requires
            e < 2048,
            f < EXPONENT_UNIT,
            low == e * EXPONENT_UNIT + f,
    ;
    let bits = sign + low;
    if sign == 0 {
        lemma_fundamental_div_mod_converse(bits, SIGN_BIT as int, 0, low);
    } else {
        lemma_fundamental_div_mod_converse(bits, SIGN_BIT as int, 1, low);
    }
    assert(bits % SIGN_BIT as int == low);
    lemma_fundamental_div_mod_converse(low, EXPONENT_UNIT as int, e as int, f as int);
    assert(bits % EXPONENT_UNIT as int == f) by {
        let k: int = if sign == 0 { 0 } else { 2048 };
        assert(bits == (e + k) * EXPONENT_UNIT + f);
        lemma_fundamental_div_mod_converse(bits, EXPONENT_UNIT as int, e + k, f as int);
    }
}

/// A double's bits are its sign bit, then its exponent field, then its fraction.
pub proof fn lemma_bits_from_fields(bits: u64)
    ensures
        bits == (if sign_of(bits) { SIGN_BIT as int } else { 0 }) + exponent_of(bits)
            * EXPONENT_UNIT + fraction_of(bits),
        0 <= exponent_of(bits) < 2048,
        0 <= fraction_of(bits) < EXPONENT_UNIT,
{
    let b: int = bits as int;
    let s: int = SIGN_BIT as int;
    let u: int = EXPONENT_UNIT as int;
    let low: int = b % s;
    lemma_fundamental_div_mod(b, s);
    lemma_fundamental_div_mod(low, u);
    assert(s == u * 2048);
    lemma_mod_mod(b, u, 2048);
    assert(b / s == if sign_of(bits) { 1int } else { 0 });
    assert(low / u < 2048) by {
        if low / u >= 2048 {
            lemma_mul_inequality(2048, low / u, u);
        }
    }
}

/// An integer's magnitude fixes the exponent field of any double that encodes it.
proof fn lemma_encoded_exponent(bits: u64, v: int)
    requires
        v != 0,
        encodes_integer(bits, v),
    ensures
        exponent_of(bits) == top_bit((if v < 0 { -v } else { v }) as nat) + 1023,
{
    let e = exponent_of(bits);
    let m = EXPONENT_UNIT + fraction_of(bits);
    let magnitude: int = if v < 0 {
        -v
    } else {
        v
    };
    lemma_bits_from_fields(bits);
    lemma2_to64();
    lemma2_to64_rest();
    lemma_pow2_unfold(53);
    assert(pow2(52) <= m < pow2(53));
    if e >= 1075 {
        let k = (e - 1075) as nat;
        lemma_pow2_adds(52, k);
        lemma_pow2_adds(53, k);
        assert((52 + k) as nat == (e - 1023) as nat);
        assert((53 + k) as nat == (e - 1022) as nat);
        lemma_pow2_pos(k);
        lemma_mul_inequality(pow2(52) as int, m, pow2(k) as int);
        lemma_mul_strict_inequality(m, pow2(53) as int, pow2(k) as int);
        lemma_top_bit(magnitude as nat, (e - 1023) as nat);
    } else {
        let k = (1075 - e) as nat;
        lemma_pow2_pos(k);
        if e < 1023 {
            lemma_pow2_strictly_increases(52, k);
            lemma_pow2_unfold(k);
            assert(k >= 53);
            if k > 53 {
                lemma_pow2_strictly_increases(53, k);
            }
            lemma_mul_inequality(1, magnitude, pow2(k) as int);
            assert(false);
        }
        let j = (e - 1023) as nat;
        lemma_pow2_adds(j, k);
        lemma_pow2_adds((j + 1) as nat, k);
        assert((j + k) as nat == 52);
        assert((j + 1 + k) as nat == 53);
        if magnitude < pow2(j) {
            lemma_mul_strict_inequality(magnitude, pow2(j) as int, pow2(k) as int);
            assert(false);
        }
        if magnitude >= pow2(j + 1) {
            lemma_mul_inequality(pow2(j + 1) as int, magnitude, pow2(k) as int);
            assert(false);
        }
        lemma_top_bit(magnitude as nat, j);
    }
}

/// At most one bit pattern encodes a given integer.
pub proof fn lemma_integer_encoding_is_unique(b1: u64, b2: u64, v: int)
    requires
        encodes_integer(b1, v),
        encodes_integer(b2, v),
    ensures
        b1 == b2,
{
    if v != 0 {
        lemma_encoded_exponent(b1, v);
        lemma_encoded_exponent(b2, v);
        lemma_bits_from_fields(b1);
        lemma_bits_from_fields(b2);
        let e = exponent_of(b1);
        let m1 = EXPONENT_UNIT + fraction_of(b1);
        let m2 = EXPONENT_UNIT + fraction_of(b2);
        if e >= 1075 {
            let k = (e - 1075) as nat;
            lemma_pow2_pos(k);
            lemma_mul_equality_converse(pow2(k) as int, m1, m2);
        }
        assert(m1 == m2);
    }
}

/// The bits of the double that `i as f64` gives for the integer `i`.
pub open spec fn double_of_int(i: int) -> u64 {
    choose|bits: u64| encodes_integer(bits, nearest_double(i))
}

/// The exponent field and fraction of the double nearest to the positive integer `a`.
pub open spec fn nearest_double_fields(a: nat) -> (int, int) {
    let e = top_bit(a);
    if e <= 52 {
        ((e + 1023) as int, a * pow2((52 - e) as nat) - EXPONENT_UNIT)
    } else {
        let q = round_to_double_precision(a) / pow2((e - 52) as nat);
        if q == 2 * EXPONENT_UNIT {
            ((e + 1024) as int, 0)
        } else {
            ((e + 1023) as int, q - EXPONENT_UNIT)
        }
    }
}

/// The bits of the double of the given sign nearest to the positive integer `a`.
pub open spec fn nearest_double_bits(negative: bool, a: nat) -> int {
    (if negative {
        SIGN_BIT as int
    } else {
        0
    }) + nearest_double_fields(a).0 * EXPONENT_UNIT + nearest_double_fields(a).1
}

/// Every positive integer lies between two consecutive powers of two, the
/// lower one at its top bit.
pub proof fn lemma_top_bit_bounds(a: nat)
    requires
        a >= 1,
    ensures
        pow2(top_bit(a)) <= a < pow2(top_bit(a) + 1),
    decreases a,
{
    lemma_pow2_unfold(top_bit(a) + 1);
    if a < 2 {
        lemma2_to64();
    } else {
        lemma_top_bit_bounds(a / 2);
        lemma_pow2_unfold(top_bit(a));
    }
}

/// The fields of the nearest double encode the rounded integer.
pub proof fn lemma_nearest_double_bits(negative: bool, a: nat)
    requires
        1 <= a <= SIGN_BIT,
    ensures
        0 <= nearest_double_bits(negative, a) <= u64::MAX,
        encodes_integer(
            nearest_double_bits(negative, a) as u64,
            if negative {
                -round_to_double_precision(a)
            } else {
                round_to_double_precision(a) as int
            },
        ),
{
    lemma2_to64();
    lemma2_to64_rest();
    let e = top_bit(a);
    lemma_top_bit_bounds(a);
    lemma_pow2_unfold(e + 1);
    if e > 63 {
        lemma_pow2_strictly_increases(63, e);
    }
    assert(e <= 63);
    let magnitude = round_to_double_precision(a);
    let exponent = nearest_double_fields(a).0;
    let fraction = nearest_double_fields(a).1;
    let m = EXPONENT_UNIT + fraction;
    if e <= 52 {
        let scale = pow2((52 - e) as nat);
        lemma_pow2_adds((52 - e) as nat, e);
        assert(((52 - e) as nat + e) as nat == 52);
        assert(a * scale < 2 * EXPONENT_UNIT) by (nonlinear_arith)
            requires
                a < 2 * pow2(e),
                scale > 0,
                EXPONENT_UNIT == scale * pow2(e),
        ;
        assert(a * scale >= EXPONENT_UNIT) by (nonlinear_arith)
            requires
                a >= pow2(e),
                scale > 0,
                EXPONENT_UNIT == scale * pow2(e),
        ;
        assert(magnitude == a);
        if exponent >= 1075 {
            assert(e == 52);
            assert(scale == 1);
            assert(m == a);
            assert(m * pow2((exponent - 1075) as nat) == magnitude);
        } else {
            assert((1075 - exponent) as nat == (52 - e) as nat);
        }
    } else {
        let unit = pow2((e - 52) as nat);
        lemma_pow2_adds((e - 52) as nat, 52);
        assert(((e - 52) as nat + 52) as nat == e);
        lemma_pow2_pos((e - 52) as nat);
        lemma_pow2_unfold((e - 52) as nat);
        assert(unit >= 2);
        let q = a / unit;
        let r = a % unit;
        lemma_fundamental_div_mod(a as int, unit as int);
        assert(EXPONENT_UNIT <= q < 2 * EXPONENT_UNIT) by (nonlinear_arith)
            requires
                a == unit * q + r,
                0 <= r < unit,
                EXPONENT_UNIT * unit <= a,
                a < 2 * EXPONENT_UNIT * unit,
        ;
        let q2 = if 2 * r > unit || (2 * r == unit && q % 2 == 1) {
            q + 1
        } else {
            q
        };
        assert(magnitude == q2 * unit);
        lemma_div_multiples_vanish(q2 as int, unit as int);
        assert(magnitude / unit == q2);
        assert(q2 * unit > 0) by (nonlinear_arith)
            requires
                q2 >= 1,
                unit >= 1,
        ;
        if q2 == 2 * EXPONENT_UNIT {
            lemma_pow2_unfold((exponent - 1075) as nat);
            assert((exponent - 1075 - 1) as nat == (e - 52) as nat);
            assert(m * pow2((exponent - 1075) as nat) == 2 * EXPONENT_UNIT * unit)
                by (nonlinear_arith)
                requires
                    m == EXPONENT_UNIT,
                    pow2((exponent - 1075) as nat) == 2 * unit,
            ;
        } else {
            assert((exponent - 1075) as nat == (e - 52) as nat);
            assert(m == q2);
            assert(m * pow2((exponent - 1075) as nat) == magnitude);
        }
    }
    let sign: u64 = if negative {
        SIGN_BIT
    } else {
        0
    };
    lemma_fields(sign, exponent as u64, fraction as u64);
    let bits = nearest_double_bits(negative, a) as u64;
    assert(bits as int == sign + exponent * EXPONENT_UNIT + fraction);
    assert(exponent_of(bits) == exponent);
    assert(fraction_of(bits) == fraction);
    assert(sign_of(bits) == negative);
    assert(magnitude > 0);
    assert(1 <= exponent <= 2046);
    if exponent >= 1075 {
        assert(m * pow2((exponent - 1075) as nat) == magnitude);
    } else {
        assert(m == magnitude * pow2((1075 - exponent) as nat));
    }
}

/// The double of an integer in the range of `i64` exists, and is finite.
pub proof fn lemma_double_of_int(i: int)
    requires
        i64::MIN <= i <= i64::MAX,
    ensures
        encodes_integer(double_of_int(i), nearest_double(i)),
        is_finite(double_of_int(i)),
{
    if i == 0 {
        assert(nearest_double(0) == 0);
        assert(encodes_integer(0u64, nearest_double(0)));
    } else {
        let a: nat = if i < 0 {
            (-i) as nat
        } else {
            i as nat
        };
        lemma_nearest_double_bits(i < 0, a);
        let bits = nearest_double_bits(i < 0, a) as u64;
        assert(encodes_integer(bits, nearest_double(i)));
        lemma_bits_from_fields(double_of_int(i));
    }
}

/// Returns the bits of `i as f64`: the double nearest to `i`, ties to even.
pub fn int_to_double_bits(i: i64) -> (bits: u64)
    ensures
        bits == double_of_int(i as int),
        encodes_integer(bits, nearest_double(i as int)),
        is_finite(bits),
{
    proof {
        lemma_double_of_int(i as int);
    }
    if i == 0 {
        return 0;
    }
    let negative = i < 0;
    let a: u64 = if i == i64::MIN {
        SIGN_BIT
    } else if negative {
        (-i) as u64
    } else {
        i as u64
    };
    proof {
        lemma2_to64();
        lemma2_to64_rest();
    }
    // Find the top bit of `a`.
    let mut e: u64 = 0;
    let mut p: u64 = 1;
    while e < 63 && p <= a / 2
        invariant
            e <= 63,
            p == pow2(e as nat),
            1 <= p <= a,
            a <= SIGN_BIT,
            pow2(63) == SIGN_BIT,
        decreases 63 - e,
    {
        proof {
            lemma_pow2_unfold((e + 1) as nat);
        }
        p = p * 2;
        e = e + 1;
    }
    proof {
        lemma_pow2_unfold((e + 1) as nat);
        lemma_top_bit(a as nat, e as nat);
    }
    let exponent: u64;
    let fraction: u64;
    if e <= 52 {
        proof {
            lemma_pow2_adds((52 - e) as nat, e as nat);
            lemma_pow2_pos((52 - e) as nat);
            lemma_div_multiples_vanish(pow2((52 - e) as nat) as int, p as int);
        }
        assert(pow2(52) == EXPONENT_UNIT);
        assert(((52 - e) as nat + e as nat) as nat == 52);
        assert(EXPONENT_UNIT == p * pow2((52 - e) as nat)) by (nonlinear_arith)
            requires
                EXPONENT_UNIT == pow2((52 - e) as nat) * pow2(e as nat),
                p == pow2(e as nat),
        ;
        let scale = EXPONENT_UNIT / p;
        assert(scale == pow2((52 - e) as nat));
        assert(EXPONENT_UNIT <= a * scale < 2 * EXPONENT_UNIT) by (nonlinear_arith)
            requires
                p <= a < 2 * p,
                scale > 0,
                EXPONENT_UNIT == p * scale,
        ;
        exponent = e + 1023;
        fraction = a * scale - EXPONENT_UNIT;
        assert(exponent == nearest_double_fields(a as nat).0);
        assert(fraction == nearest_double_fields(a as nat).1);
    } else {
        proof {
            lemma_pow2_adds((e - 52) as nat, 52);
            lemma_pow2_pos((e - 52) as nat);
            lemma_div_multiples_vanish(pow2((e - 52) as nat) as int, EXPONENT_UNIT as int);
            lemma_pow2_unfold((e - 52) as nat);
        }
        assert(pow2(52) == EXPONENT_UNIT);
        assert(((e - 52) as nat + 52) as nat == e);
        assert(p == EXPONENT_UNIT * pow2((e - 52) as nat)) by (nonlinear_arith)
            requires
                p == pow2((e - 52) as nat) * EXPONENT_UNIT,
        ;
        let unit = p / EXPONENT_UNIT;
        assert(unit == pow2((e - 52) as nat));
        let q = a / unit;
        let r = a % unit;
        proof {
            lemma_fundamental_div_mod(a as int, unit as int);
        }
        assert(EXPONENT_UNIT <= q < 2 * EXPONENT_UNIT) by (nonlinear_arith)
            requires
                a == unit * q + r,
                0 <= r < unit,
                p <= a < 2 * p,
                p == EXPONENT_UNIT * unit,
        ;
        let half = unit / 2;
        let up = r > half || (r == half && q % 2 == 1);
        let q2 = if up {
            q + 1
        } else {
            q
        };
        proof {
            assert(round_to_double_precision(a as nat) == q2 * unit);
            assert(q2 * unit == unit * q2) by (nonlinear_arith);
            lemma_div_multiples_vanish(q2 as int, unit as int);
        }
        if q2 == 2 * EXPONENT_UNIT {
            exponent = e + 1024;
            fraction = 0;
        } else {
            exponent = e + 1023;
            fraction = q2 - EXPONENT_UNIT;
        }
        assert(round_to_double_precision(a as nat) / pow2((e - 52) as nat) == q2);
        assert(exponent == nearest_double_fields(a as nat).0);
        assert(fraction == nearest_double_fields(a as nat).1);
    }
    let sign: u64 = if negative {
        SIGN_BIT
    } else {
        0
    };
    proof {
        lemma_fields(sign, exponent, fraction);
        lemma_nearest_double_bits(negative, a as nat);
    }
    let bits = sign + exponent * EXPONENT_UNIT + fraction;
    assert(bits == nearest_double_bits(negative, a as nat));
    proof {
        lemma_integer_encoding_is_unique(bits, double_of_int(i as int), nearest_double(i as int));
    }
    bits
}

} // verus!
