use crate::error::LayError;
use vstd::arithmetic::div_mod::{
    lemma_div_by_multiple, lemma_fundamental_div_mod, lemma_mod_multiples_basic, lemma_small_mod,
    lemma_truncate_middle,
};
use vstd::arithmetic::mul::{
    lemma_mul_inequality, lemma_mul_is_associative, lemma_mul_is_commutative,
    lemma_mul_strictly_positive,
};
use vstd::arithmetic::power2::{
    lemma2_to64, lemma_pow2_adds, lemma_pow2_pos, lemma_pow2_strictly_increases,
    lemma_pow2_unfold, pow2,
};
use vstd::prelude::*;

verus! {

// A chunk coordinate arrives on disk as a 32-bit IEEE 754 value. Its bit
// pattern splits into a sign, an 8-bit exponent and a 23-bit fraction, and
// the magnitude it denotes, scaled by 2^149, is the exact natural number
// `f32_scaled_mag`. Working on that scaled integer keeps the whole
// validation (finite? integral? truncated to i32) in integer arithmetic.
/// Sign bit of the encoded value.
pub open spec fn f32_sign(b: u32) -> bool {
    b / 0x8000_0000 == 1
}

/// Biased exponent field (bits 23..31).
pub open spec fn f32_exp(b: u32) -> nat {
    ((b / 0x80_0000) % 0x100) as nat
}

/// Fraction field (bits 0..23).
pub open spec fn f32_frac(b: u32) -> nat {
    (b % 0x80_0000) as nat
}

/// A pattern encodes a finite number unless its exponent field is all ones
/// (an infinity or a NaN).
pub open spec fn f32_is_finite(b: u32) -> bool {
    f32_exp(b) != 255
}

/// The encoded magnitude times 2^149, an exact natural number: a subnormal
/// denotes `frac * 2^-149`, a normal `(2^23 + frac) * 2^(exp - 150)`.
pub open spec fn f32_scaled_mag(b: u32) -> nat
    recommends
        f32_is_finite(b),
{
    if f32_exp(b) == 0 {
        f32_frac(b)
    } else {
        (0x80_0000 + f32_frac(b)) * pow2((f32_exp(b) - 1) as nat)
    }
}

/// The encoded value is a whole number: its scaled magnitude carries no
/// remainder below the 2^149 scale.
pub open spec fn f32_is_integral(b: u32) -> bool
    recommends
        f32_is_finite(b),
{
    f32_scaled_mag(b) % pow2(149) == 0
}

/// Magnitude of the encoded value, meaningful when it is integral.
pub open spec fn f32_int_mag(b: u32) -> nat {
    f32_scaled_mag(b) / pow2(149)
}

/// The encoded whole number with its sign applied.
pub open spec fn f32_int_value(b: u32) -> int {
    if f32_sign(b) {
        -(f32_int_mag(b) as int)
    } else {
        f32_int_mag(b) as int
    }
}

/// Saturation of an integer into the i32 range, as casting a float to i32
/// does.
pub open spec fn sat_i32(v: int) -> int {
    if v < i32::MIN {
        i32::MIN as int
    } else if v > i32::MAX {
        i32::MAX as int
    } else {
        v
    }
}

/// Monotonicity of powers of two, in the non-strict form the proofs here
/// keep reaching for.
proof fn lemma_pow2_le(e1: nat, e2: nat)
    requires
        e1 <= e2,
    ensures
        pow2(e1) <= pow2(e2),
{
    if e1 < e2 {
        lemma_pow2_strictly_increases(e1, e2);
    }
}

/// Computes 2^e.
fn pow2_u32(e: u32) -> (r: u32)
    requires
        e <= 31,
    ensures
        r as nat == pow2(e as nat),
{
    let mut r: u32 = 1;
    let mut i: u32 = 0;
    proof {
        lemma2_to64();
    }
    while i < e
        invariant
            i <= e <= 31,
            r as nat == pow2(i as nat),
        decreases e - i,
    {
        proof {
            lemma_pow2_le(i as nat, 30);
            lemma2_to64();
            lemma_pow2_unfold((i + 1) as nat);
        }
        r = 2 * r;
        i = i + 1;
    }
    r
}

/// Validates one coordinate, given the 32-bit pattern of the on-disk
/// float: a non-finite pattern and a pattern with a fractional part are
/// format errors; a whole number is truncated into the i32 range.
pub fn coord_from_bits(bits: u32) -> (r: Result<i32, LayError>)
    ensures
        !f32_is_finite(bits) ==> r == Err::<i32, LayError>(LayError::NonFiniteCoord),
        f32_is_finite(bits) && !f32_is_integral(bits) ==> r == Err::<i32, LayError>(
            LayError::FractionalCoord,
        ),
        f32_is_finite(bits) && f32_is_integral(bits) ==> (r matches Ok(v) && v as int == sat_i32(
            f32_int_value(bits),
        )),
{
    let exp: u32 = (bits / 0x80_0000) % 0x100;
    let frac: u32 = bits % 0x80_0000;
    let sign: bool = bits / 0x8000_0000 == 1;
    if exp == 255 {
        return Err(LayError::NonFiniteCoord);
    }
    proof {
        lemma_pow2_pos(149);
    }
    if exp == 0 {
        if frac == 0 {
            // Positive or negative zero.
            proof {
                lemma_small_mod(0, pow2(149));
                lemma_div_by_multiple(0, pow2(149) as int);
            }
            return Ok(0);
        }
        // A non-zero subnormal lies strictly between 0 and 1.
        proof {
            lemma2_to64();
            lemma_pow2_strictly_increases(23, 149);
            lemma_small_mod(frac as nat, pow2(149));
        }
        return Err(LayError::FractionalCoord);
    }
    let m: u32 = 0x80_0000 + frac;
    if exp <= 126 {
        // Magnitude below 1 but not zero: necessarily fractional.
        proof {
            lemma2_to64();
            lemma_pow2_pos((exp - 1) as nat);
            lemma_pow2_le((exp - 1) as nat, 125);
            lemma_pow2_adds(24, 125);
            assert(m * pow2((exp - 1) as nat) < pow2(24) * pow2(125)) by (nonlinear_arith)
                requires
                    0 < m < pow2(24),
                    0 < pow2((exp - 1) as nat) <= pow2(125),
            ;
            assert(0 < m * pow2((exp - 1) as nat)) by (nonlinear_arith)
                requires
                    0 < m,
                    0 < pow2((exp - 1) as nat),
            ;
            lemma_small_mod(f32_scaled_mag(bits), pow2(149));
        }
        return Err(LayError::FractionalCoord);
    }
    if exp <= 149 {
        // The value is m / 2^k; it is whole exactly when 2^k divides m.
        let k: u32 = 150 - exp;
        let p: u32 = pow2_u32(k);
        proof {
            lemma_pow2_pos(k as nat);
            lemma_pow2_pos((149 - k) as nat);
        }
        if m % p != 0 {
            proof {
                lemma_pow2_adds((149 - k) as nat, k as nat);
                lemma_mul_is_commutative(m as int, pow2((149 - k) as nat) as int);
                lemma_truncate_middle(
                    m as int,
                    pow2((149 - k) as nat) as int,
                    pow2(k as nat) as int,
                );
                lemma_mul_strictly_positive(
                    pow2((149 - k) as nat) as int,
                    ((m as nat) % pow2(k as nat)) as int,
                );
            }
            return Err(LayError::FractionalCoord);
        }
        let mag: u32 = m / p;
        proof {
            lemma_fundamental_div_mod(m as int, p as int);
            assert(m as int == p as int * mag as int);
            assert(mag <= m) by (nonlinear_arith)
                requires
                    m as int == p as int * mag as int,
                    p >= 1,
                    mag >= 0,
            ;
            lemma_pow2_adds(k as nat, (149 - k) as nat);
            assert(f32_scaled_mag(bits) == mag as int * pow2(149)) by (nonlinear_arith)
                requires
                    f32_scaled_mag(bits) == (m as nat) * pow2((149 - k) as nat),
                    m as int == p as int * mag as int,
                    p as nat == pow2(k as nat),
                    pow2(k as nat) * pow2((149 - k) as nat) == pow2(149),
            ;
            lemma_mod_multiples_basic(mag as int, pow2(149) as int);
            lemma_div_by_multiple(mag as int, pow2(149) as int);
            assert(f32_is_integral(bits));
            assert(f32_int_mag(bits) == mag as nat);
        }
        if sign {
            return Ok(-(mag as i32));
        } else {
            return Ok(mag as i32);
        }
    }
    // Exponent at or above the scale: the value is the whole number
    // m * 2^(exp - 150).
    let e: u32 = exp - 150;
    proof {
        lemma_pow2_adds(e as nat, 149);
        lemma_mul_is_associative(m as int, pow2(e as nat) as int, pow2(149) as int);
        assert(f32_scaled_mag(bits) == (m * pow2(e as nat)) as int * pow2(149));
        lemma_mod_multiples_basic((m * pow2(e as nat)) as int, pow2(149) as int);
        lemma_div_by_multiple((m * pow2(e as nat)) as int, pow2(149) as int);
        assert(f32_int_mag(bits) == m * pow2(e as nat));
    }
    if e >= 8 {
        // Magnitude at least 2^31: the cast saturates.
        proof {
            lemma2_to64();
            lemma_pow2_le(8, e as nat);
            assert(m * pow2(e as nat) >= pow2(23) * pow2(8)) by (nonlinear_arith)
                requires
                    m >= pow2(23),
                    pow2(e as nat) >= pow2(8),
                    pow2(8) > 0,
            ;
            lemma_pow2_adds(23, 8);
        }
        if sign {
            return Ok(i32::MIN);
        } else {
            return Ok(i32::MAX);
        }
    }
    let p: u32 = pow2_u32(e);
    proof {
        lemma2_to64();
        lemma_pow2_le(e as nat, 7);
        lemma_mul_inequality(p as int, pow2(7) as int, m as int);
        lemma_mul_is_commutative(p as int, m as int);
        assert(m * p <= m * pow2(7));
        lemma_mul_inequality(m as int, 0xff_ffff, pow2(7) as int);
        assert(m * pow2(7) <= 0xff_ffff * 128);
    }
    let mag: u32 = m * p;
    if sign {
        Ok(-(mag as i32))
    } else {
        Ok(mag as i32)
    }
}

} // verus!
