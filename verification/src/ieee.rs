//! Numbers of the document as IEEE 754 binary64 values, held by their bit
//! patterns: how an integer and a binary32 value are written as binary64,
//! and how two binary64 values compare.

use vstd::prelude::*;

verus! {

/// The bit of the sign.
pub const SIGN_BIT: u64 = 0x8000_0000_0000_0000;

/// The bit pattern of positive infinity: every exponent bit set.
pub const INFINITY_BITS: u64 = 0x7ff0_0000_0000_0000;

/// Two to the power 52: the weight of the leading bit of a significand.
pub const HIDDEN_BIT: u64 = 0x0010_0000_0000_0000;

/// Two to the power `e`.
pub open spec fn two_pow(e: int) -> int
    decreases e,
{
    if e <= 0 {
        1
    } else {
        2 * two_pow(e - 1)
    }
}

/// The number of binary digits of `m`.
pub open spec fn bit_length(m: int) -> int
    decreases m,
{
    if m <= 0 {
        0
    } else {
        1 + bit_length(m / 2)
    }
}

/// The bits that follow the sign.
pub open spec fn magnitude(bits: u64) -> int {
    (bits % SIGN_BIT) as int
}

/// Not a number: all exponent bits set and a fraction that is not zero.
pub open spec fn is_nan(bits: u64) -> bool {
    magnitude(bits) > INFINITY_BITS
}

/// Where a value that is a number stands in the order of the numbers:
/// values of one sign are ordered as their magnitudes are, negative ones in
/// reverse, and both zeros stand at 0.
pub open spec fn rank(bits: u64) -> int {
    if bits >= SIGN_BIT {
        -magnitude(bits)
    } else {
        magnitude(bits)
    }
}

/// `a <= b` as IEEE 754 has it: false if either is not a number.
pub open spec fn le(a: u64, b: u64) -> bool {
    !is_nan(a) && !is_nan(b) && rank(a) <= rank(b)
}

/// Compares two binary64 values by `<=`.
pub fn double_le(a: u64, b: u64) -> (r: bool)
    ensures
        r == le(a, b),
{
    let ma: u64 = a % SIGN_BIT;
    let mb: u64 = b % SIGN_BIT;
    if ma > INFINITY_BITS || mb > INFINITY_BITS {
        return false;
    }
    let na: bool = a >= SIGN_BIT;
    let nb: bool = b >= SIGN_BIT;
    if na && nb {
        ma >= mb
    } else if na {
        true
    } else if nb {
        ma == 0 && mb == 0
    } else {
        ma <= mb
    }
}

/// `mag`, which is not zero, with 53 significant bits, as a significand from
/// 2^52 up to but not 2^53 and the exponent of its leading bit. Where `mag`
/// has more bits it is rounded to the nearest such value, and to the one
/// with an even significand where two are equally near.
pub open spec fn rounded(mag: int) -> (int, int) {
    let p = bit_length(mag) - 1;
    if p <= 52 {
        (mag * two_pow(52 - p), p)
    } else {
        let unit = two_pow(p - 52);
        let q = mag / unit;
        let rest = mag % unit;
        let up = 2 * rest > unit || (2 * rest == unit && q % 2 == 1);
        if !up {
            (q, p)
        } else if q + 1 == 2 * HIDDEN_BIT {
            (HIDDEN_BIT as int, p + 1)
        } else {
            (q + 1, p)
        }
    }
}

/// The bit pattern of the binary64 value that the integer `v` converts to.
pub open spec fn double_of_int(v: int) -> int {
    if v == 0 {
        0
    } else {
        let mag = if v < 0 {
            -v
        } else {
            v
        };
        let sign = if v < 0 {
            SIGN_BIT as int
        } else {
            0
        };
        sign + (1023 + rounded(mag).1) * HIDDEN_BIT + (rounded(mag).0 - HIDDEN_BIT)
    }
}

/// The bit pattern of the binary64 value equal to the binary32 value with
/// the bit pattern `bits`. Zeros and infinities keep their sign; a value
/// that is not a number becomes a quiet one with the same sign and payload.
pub open spec fn double_of_single(bits: u32) -> int {
    let sign = if bits >= 0x8000_0000u32 {
        SIGN_BIT as int
    } else {
        0
    };
    let e = (bits / 0x80_0000u32) % 256;
    let m = bits % 0x80_0000u32;
    if e == 255 {
        if m == 0 {
            sign + INFINITY_BITS
        } else {
            sign + INFINITY_BITS + HIDDEN_BIT / 2 + (m % 0x40_0000) * 0x2000_0000
        }
    } else if e == 0 {
        if m == 0 {
            sign
        } else {
            let k = bit_length(m as int) - 1;
            sign + (k + 874) * HIDDEN_BIT + (m * two_pow(52 - k) - HIDDEN_BIT)
        }
    } else {
        sign + (e + 896) * HIDDEN_BIT + m * 0x2000_0000
    }
}

proof fn lemma_two_pow_adds(a: int, b: int)
    requires
        0 <= a,
        0 <= b,
    ensures
        two_pow(a + b) == two_pow(a) * two_pow(b),
        two_pow(a) > 0,
    decreases a,
{
    if a == 0 {
        assert(two_pow(0 + b) == 1 * two_pow(b));
    } else {
        lemma_two_pow_adds(a - 1, b);
        assert(two_pow(a + b) == 2 * two_pow(a - 1 + b));
        assert(2 * (two_pow(a - 1) * two_pow(b)) == (2 * two_pow(a - 1)) * two_pow(b))
            by (nonlinear_arith);
    }
}

proof fn lemma_two_pow_positive(e: int)
    ensures
        two_pow(e) > 0,
    decreases e,
{
    if e > 0 {
        lemma_two_pow_positive(e - 1);
    }
}

proof fn lemma_two_pow_grows(a: int, b: int)
    requires
        0 <= a <= b,
    ensures
        0 < two_pow(a) <= two_pow(b),
    decreases b - a,
{
    lemma_two_pow_adds(a, 0);
    if a < b {
        lemma_two_pow_grows(a + 1, b);
    }
}

proof fn lemma_bit_length_bounds(m: int)
    requires
        m > 0,
    ensures
        bit_length(m) >= 1,
        two_pow(bit_length(m) - 1) <= m < two_pow(bit_length(m)),
    decreases m,
{
    if m == 1 {
        assert(bit_length(1) == 1 + bit_length(0));
        assert(two_pow(1) == 2 * two_pow(0));
    } else {
        lemma_bit_length_bounds(m / 2);
    }
}

proof fn lemma_bit_length_is(m: int, k: int)
    requires
        0 <= k,
        two_pow(k) <= m < two_pow(k + 1),
    ensures
        bit_length(m) == k + 1,
{
    lemma_two_pow_grows(0, k);
    lemma_bit_length_bounds(m);
    let b = bit_length(m);
    if b - 1 < k {
        lemma_two_pow_grows(b, k);
    } else if b - 1 > k {
        lemma_two_pow_grows(k + 1, b - 1);
    }
}

/// A value that doubling `t` times has brought between `two_pow(top)` and
/// its double has `top - t + 1` binary digits.
proof fn lemma_scaled_bit_length(m: int, t: int, top: int)
    requires
        0 <= t <= top,
        m > 0,
        two_pow(top) <= m * two_pow(t) < two_pow(top + 1),
    ensures
        bit_length(m) == top - t + 1,
{
    lemma_two_pow_adds(top - t, t);
    lemma_two_pow_adds(top - t + 1, t);
    lemma_two_pow_positive(t);
    let f = two_pow(t);
    let lo = two_pow(top - t);
    let hi = two_pow(top - t + 1);
    assert(lo <= m) by (nonlinear_arith)
        requires
            lo * f <= m * f,
            f > 0,
    ;
    assert(m < hi) by (nonlinear_arith)
        requires
            m * f < hi * f,
            f > 0,
    ;
    lemma_bit_length_is(m, top - t);
}

/// A value whose quotient by `two_pow(s)` lies between 2^52 and 2^53 has
/// `53 + s` binary digits.
proof fn lemma_quotient_bit_length(m: int, s: int, q: int)
    requires
        0 <= s,
        q == m / two_pow(s),
        two_pow(52) <= q < two_pow(53),
    ensures
        bit_length(m) == 53 + s,
{
    lemma_two_pow_adds(52, s);
    lemma_two_pow_adds(53, s);
    lemma_two_pow_positive(s);
    let u = two_pow(s);
    assert(q * u <= m < (q + 1) * u) by (nonlinear_arith)
        requires
            q == m / u,
            u > 0,
    ;
    assert(two_pow(52) * u <= q * u) by (nonlinear_arith)
        requires
            two_pow(52) <= q,
            u > 0,
    ;
    assert((q + 1) * u <= two_pow(53) * u) by (nonlinear_arith)
        requires
            q + 1 <= two_pow(53),
            u > 0,
    ;
    lemma_bit_length_is(m, 52 + s);
}

proof fn lemma_two_pow_values()
    ensures
        two_pow(11) == 2048,
        two_pow(22) == 0x40_0000,
        two_pow(23) == 0x80_0000,
        two_pow(24) == 0x100_0000,
        two_pow(29) == 0x2000_0000,
        two_pow(52) == 0x0010_0000_0000_0000,
        two_pow(53) == 0x0020_0000_0000_0000,
{
    assert(two_pow(11) == 2048 && two_pow(7) == 128 && two_pow(1) == 2) by {
        reveal_with_fuel(two_pow, 12);
    }
    lemma_two_pow_adds(11, 11);
    lemma_two_pow_adds(22, 1);
    lemma_two_pow_adds(23, 1);
    lemma_two_pow_adds(22, 7);
    lemma_two_pow_adds(29, 23);
    lemma_two_pow_adds(52, 1);
}

/// Writes an integer as the binary64 value nearest to it.
pub fn int_to_double(v: i64) -> (r: u64)
    ensures
        r == double_of_int(v as int),
{
    if v == 0 {
        return 0;
    }
    let negative: bool = v < 0;
    let mag: u64 = if v == i64::MIN {
        SIGN_BIT
    } else if negative {
        (-v) as u64
    } else {
        v as u64
    };
    let sign: u64 = if negative {
        SIGN_BIT
    } else {
        0
    };
    proof {
        lemma_two_pow_values();
    }
    let mut sig: u64 = mag;
    let mut exp: u64 = 52;
    if mag < 2 * HIDDEN_BIT {
        let ghost mut t: int = 0;
        while sig < HIDDEN_BIT
            invariant
                0 < mag,
                0 <= t <= 52,
                exp == 52 - t,
                sig == mag * two_pow(t),
                0 < sig < 2 * HIDDEN_BIT,
            decreases exp,
        {
            proof {
                assert(t < 52) by {
                    if t == 52 {
                        lemma_two_pow_values();
                        assert(mag * two_pow(52) >= two_pow(52)) by (nonlinear_arith)
                            requires
                                mag >= 1,
                                two_pow(52) > 0,
                        ;
                    }
                }
                assert(2 * (mag * two_pow(t)) == mag * (2 * two_pow(t))) by (nonlinear_arith);
                t = t + 1;
            }
            sig = sig * 2;
            exp = exp - 1;
        }
        proof {
            lemma_two_pow_values();
            lemma_scaled_bit_length(mag as int, t, 52);
            assert(rounded(mag as int) == (sig as int, exp as int));
        }
    } else {
        let mut unit: u64 = 1;
        let ghost mut s: int = 0;
        while mag / unit >= 2 * HIDDEN_BIT
            invariant
                mag >= 2 * HIDDEN_BIT,
                0 <= s <= 11,
                exp == 52 + s,
                unit == two_pow(s),
                unit > 0,
                s > 0 ==> mag / (unit / 2) >= 2 * HIDDEN_BIT,
                s == 0 ==> unit == 1,
            decreases 11 - s,
        {
            proof {
                assert(s < 11) by {
                    if s == 11 {
                        lemma_two_pow_values();
                        assert(mag / 2048 < 2 * HIDDEN_BIT);
                    }
                }
                lemma_two_pow_grows(s, 10);
                lemma_two_pow_values();
                assert(two_pow(11) == 2 * two_pow(10));
                assert((unit * 2) / 2 == unit);
                s = s + 1;
            }
            unit = unit * 2;
            exp = exp + 1;
        }
        let q: u64 = mag / unit;
        let rest: u64 = mag % unit;
        proof {
            assert(s >= 1) by {
                if s == 0 {
                    assert(mag / 1 == mag);
                }
            }
            lemma_two_pow_positive(s - 1);
            assert(unit >= 2);
            let half = (unit / 2) as int;
            assert(unit == 2 * half) by {
                assert(two_pow(s) == 2 * two_pow(s - 1));
            }
            assert(q >= HIDDEN_BIT) by (nonlinear_arith)
                requires
                    (mag as int) / half >= 2 * HIDDEN_BIT,
                    q == (mag as int) / (2 * half),
                    half > 0,
            ;
            lemma_quotient_bit_length(mag as int, s, q as int);
        }
        let up: bool = rest > unit - rest || (rest == unit - rest && q % 2 == 1);
        sig = q;
        if up {
            if q + 1 == 2 * HIDDEN_BIT {
                sig = HIDDEN_BIT;
                exp = exp + 1;
            } else {
                sig = q + 1;
            }
        }
        assert(rounded(mag as int) == (sig as int, exp as int));
    }
    sign + (1023 + exp) * HIDDEN_BIT + (sig - HIDDEN_BIT)
}

/// Writes a binary32 value, given by its bit pattern, as the binary64 value
/// equal to it.
pub fn single_to_double(bits: u32) -> (r: u64)
    ensures
        r == double_of_single(bits),
{
    let sign: u64 = if bits >= 0x8000_0000u32 {
        SIGN_BIT
    } else {
        0
    };
    let e: u64 = ((bits / 0x80_0000u32) % 256) as u64;
    let m: u64 = (bits % 0x80_0000u32) as u64;
    if e == 255 {
        if m == 0 {
            sign + INFINITY_BITS
        } else {
            sign + INFINITY_BITS + HIDDEN_BIT / 2 + (m % 0x40_0000) * 0x2000_0000
        }
    } else if e == 0 {
        if m == 0 {
            sign
        } else {
            let mut sig: u64 = m;
            let mut t: u64 = 0;
            proof {
                lemma_two_pow_values();
            }
            while sig < 0x80_0000
                invariant
                    0 < m < 0x80_0000,
                    0 <= t <= 23,
                    sig == m * two_pow(t as int),
                    0 < sig < 0x100_0000,
                decreases 23 - t,
            {
                proof {
                    assert(t < 23) by {
                        if t == 23 {
                            lemma_two_pow_values();
                            assert(m * two_pow(23) >= two_pow(23)) by (nonlinear_arith)
                                requires
                                    m >= 1,
                                    two_pow(23) > 0,
                            ;
                        }
                    }
                    assert(2 * (m * two_pow(t as int)) == m * (2 * two_pow(t as int)))
                        by (nonlinear_arith);
                }
                sig = sig * 2;
                t = t + 1;
            }
            proof {
                lemma_two_pow_values();
                lemma_scaled_bit_length(m as int, t as int, 23);
                let k = bit_length(m as int) - 1;
                assert(k == 23 - t);
                lemma_two_pow_adds(t as int, 29);
                assert(m * two_pow(52 - k) == (m * two_pow(t as int)) * two_pow(29))
                    by (nonlinear_arith)
                    requires
                        two_pow(52 - k) == two_pow(t as int) * two_pow(29),
                ;
            }
            sign + (897 - t) * HIDDEN_BIT + (sig - 0x80_0000) * 0x2000_0000
        }
    } else {
        sign + (e + 896) * HIDDEN_BIT + m * 0x2000_0000
    }
}

} // verus!
