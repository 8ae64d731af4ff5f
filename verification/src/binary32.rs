//! Exact conversion between IEEE 754 binary32 wire values and grid
//! coordinates.
//!
//! A binary32 value is `(-1)^s * (2^23 + f) * 2^(e - 150)` for biased
//! exponent `1 <= e <= 254` and fraction `f < 2^23`; `e == 255` encodes
//! an infinity or NaN, `e == 0` a zero or subnormal. A coordinate is an
//! `i64` count of 1/65536 units, so a wire value maps to the magnitude
//! `(2^23 + f) * 2^(e - 134)`. Every finite in-range value is accepted:
//! a value on the grid converts exactly, one between grid points is
//! rounded to the nearest grid coordinate (ties away from zero), and a
//! zero or subnormal (all of which fall under half a grid step) becomes
//! zero. Only a NaN, an infinity, or a magnitude beyond the coordinate
//! range is refused.

use vstd::arithmetic::div_mod::{
    lemma_div_multiples_vanish, lemma_fundamental_div_mod_converse,
};
use vstd::arithmetic::mul::{lemma_mul_equality_converse, lemma_mul_inequality, lemma_mul_upper_bound};
use vstd::arithmetic::power2::{
    lemma2_to64, lemma2_to64_rest, lemma_pow2_adds, lemma_pow2_pos, lemma_pow2_strictly_increases,
    pow2,
};
use vstd::math::abs;
use vstd::prelude::*;

verus! {

/// Largest admissible coordinate magnitude: 2^47 raw steps (2^31 units).
/// Keeping two spare octaves under `i64` lets normalization translate any
/// decoded mesh without overflow.
pub const MAX_COORD_MAG: i64 = 0x8000_0000_0000;

/// The wire value's sign bit.
pub open spec fn bits_sign(b: u32) -> int {
    b as int / 0x8000_0000
}

/// The wire value's biased exponent.
pub open spec fn bits_exp(b: u32) -> int {
    (b as int % 0x8000_0000) / 0x80_0000
}

/// The wire value's fraction field.
pub open spec fn bits_frac(b: u32) -> int {
    b as int % 0x80_0000
}

/// The grid coordinate nearest to a binary32 wire value: exact when the
/// value lies on the grid, rounded to the nearest grid point otherwise
/// (ties away from zero). Zeros and subnormals, all under half a grid
/// step, become zero. `None` only for a NaN, an infinity, or a magnitude
/// beyond `MAX_COORD_MAG`.
pub open spec fn coord_raw_of_bits(b: u32) -> Option<i64> {
    let s = bits_sign(b);
    let e = bits_exp(b);
    let f = bits_frac(b);
    if e == 255 {
        None
    } else if e == 0 {
        Some(0i64)
    } else {
        let m = f + 0x80_0000;
        if e >= 134 {
            let mag = m * pow2((e - 134) as nat);
            if mag <= MAX_COORD_MAG as int {
                if s == 1 {
                    Some((-mag) as i64)
                } else {
                    Some(mag as i64)
                }
            } else {
                None
            }
        } else {
            let sh = (134 - e) as nat;
            let mag = (m + pow2((sh - 1) as nat)) / (pow2(sh) as int);
            if s == 1 {
                Some((-mag) as i64)
            } else {
                Some(mag as i64)
            }
        }
    }
}

/// Halve an over-wide significand until it fits 24 bits, raising the
/// exponent in step; a lost low bit means the coordinate has no exact
/// binary32 form.
/// The pair `(m, e)` stands for the magnitude `m * 2^(e - 134)`.
pub open spec fn norm_down(m: nat, e: nat) -> Option<(nat, nat)>
    decreases m,
{
    if m < 0x100_0000 {
        Some((m, e))
    } else if m % 2 == 1 {
        None
    } else {
        norm_down(m / 2, e + 1)
    }
}

/// Double an under-wide significand until it reaches 24 bits, lowering
/// the exponent in step.
pub open spec fn norm_up(m: nat, e: int) -> (nat, int)
    decreases vstd::math::max(0x80_0000 - m, 0),
{
    if m == 0 || m >= 0x80_0000 {
        (m, e)
    } else {
        norm_up(2 * m, e - 1)
    }
}

/// The binary32 wire value denoting a coordinate exactly, if one exists:
/// `None` when the magnitude exceeds `MAX_COORD_MAG` or needs more than
/// 24 significant bits. Zero maps to the positive zero wire value.
pub open spec fn bits_of_coord_raw(raw: i64) -> Option<u32> {
    if raw == 0 {
        Some(0u32)
    } else {
        let s: int = if raw < 0 {
            1
        } else {
            0
        };
        let mag = abs(raw as int);
        if mag > MAX_COORD_MAG as int {
            None
        } else {
            match norm_down(mag, 134) {
                Option::None => None,
                Option::Some(me) => {
                    let me2 = norm_up(me.0, me.1 as int);
                    Some((s * 0x8000_0000 + me2.1 * 0x80_0000 + (me2.0 - 0x80_0000)) as u32)
                },
            }
        }
    }
}

/// The normalization pair `(m, e)` keeps the value `m * 2^e` constant
/// while halving an over-wide significand.
proof fn lemma_norm_down_props(m: nat, e: nat)
    requires
        1 <= m,
    ensures
        match norm_down(m, e) {
            Option::Some(me) => {
                &&& 1 <= me.0 < 0x100_0000
                &&& e <= me.1
                &&& me.0 * pow2(me.1) == m * pow2(e)
            },
            Option::None => true,
        },
    decreases m,
{
    if m < 0x100_0000 {
    } else if m % 2 == 1 {
    } else {
        let m2 = m / 2;
        lemma_norm_down_props(m2, e + 1);
        lemma_pow2_adds(e, 1);
        lemma2_to64();
        vstd::arithmetic::mul::lemma_mul_is_associative(m2 as int, 2, pow2(e) as int);
        assert(m2 * pow2(e + 1) == m * pow2(e));
    }
}

/// Halving a significand that carries `k` trailing doublings never loses
/// a bit: the chain ends in a 24-bit-or-narrower significand.
proof fn lemma_norm_down_of_shifted(m: nat, k: nat, e: nat)
    requires
        1 <= m < 0x100_0000,
    ensures
        norm_down(m * pow2(k), e) is Some,
    decreases k,
{
    lemma_pow2_pos(k);
    if m * pow2(k) < 0x100_0000 {
    } else {
        if k == 0 {
            lemma2_to64();
            assert(m * pow2(0) == m * 1);
        } else {
            lemma_pow2_adds((k - 1) as nat, 1);
            lemma2_to64();
            vstd::arithmetic::mul::lemma_mul_is_associative(
                m as int,
                pow2((k - 1) as nat) as int,
                2,
            );
            assert(m * pow2(k) == (m * pow2((k - 1) as nat)) * 2);
            vstd::arithmetic::div_mod::lemma_mod_multiples_basic(
                (m * pow2((k - 1) as nat)) as int,
                2,
            );
            assert((m * pow2(k)) % 2 == 0);
            assert((m * pow2(k)) / 2 == m * pow2((k - 1) as nat)) by {
                lemma_div_multiples_vanish((m * pow2((k - 1) as nat)) as int, 2);
            }
            lemma_norm_down_of_shifted(m, (k - 1) as nat, e + 1);
        }
    }
}

/// The normalization pair `(m, e)` keeps the value `m * 2^e` constant
/// while doubling an under-wide significand; the exponent stays high
/// enough that the value never dips below `2^134`.
proof fn lemma_norm_up_props(m: nat, e: int)
    requires
        1 <= m < 0x100_0000,
        e >= 0,
        m * pow2(e as nat) >= pow2(134),
    ensures
        ({
            let me2 = norm_up(m, e);
            &&& 0x80_0000 <= me2.0 < 0x100_0000
            &&& 0 <= me2.1 <= e
            &&& me2.0 * pow2(me2.1 as nat) == m * pow2(e as nat)
        }),
    decreases vstd::math::max(0x80_0000 - m, 0),
{
    if m >= 0x80_0000 {
    } else {
        // The value is at least 2^134 while the significand is under
        // 2^23, so the exponent exceeds 111.
        assert(m * pow2(e as nat) < 0x80_0000 * pow2(e as nat)) by {
            lemma_pow2_pos(e as nat);
            vstd::arithmetic::mul::lemma_mul_strict_inequality(
                m as int,
                0x80_0000,
                pow2(e as nat) as int,
            );
        }
        lemma_pow2_adds(23, e as nat);
        lemma2_to64();
        assert(0x80_0000 * pow2(e as nat) == pow2((23 + e) as nat));
        if 23 + e < 134 {
            lemma_pow2_strictly_increases((23 + e) as nat, 134);
            assert(false);
        }
        assert(e >= 111);
        assert((2 * m) * pow2((e - 1) as nat) == m * pow2(e as nat)) by {
            lemma_pow2_adds((e - 1) as nat, 1);
            lemma2_to64();
            vstd::arithmetic::mul::lemma_mul_is_associative(
                2,
                m as int,
                pow2((e - 1) as nat) as int,
            );
            vstd::arithmetic::mul::lemma_mul_is_associative(
                m as int,
                pow2((e - 1) as nat) as int,
                2,
            );
        }
        lemma_norm_up_props(2 * m, e - 1);
    }
}

/// The significand and exponent that encode a non-zero magnitude sit in
/// the normal binary32 ranges, and their value equals the magnitude.
proof fn lemma_norm_chain(mag: nat) -> (me2: (nat, int))
    requires
        1 <= mag <= MAX_COORD_MAG as int,
        norm_down(mag, 134) is Some,
    ensures
        me2 == norm_up(norm_down(mag, 134)->Some_0.0, norm_down(mag, 134)->Some_0.1 as int),
        0x80_0000 <= me2.0 < 0x100_0000,
        111 <= me2.1 <= 158,
        me2.0 * pow2(me2.1 as nat) == mag * pow2(134),
{
    let md = norm_down(mag, 134)->Some_0;
    lemma_norm_down_props(mag, 134);
    assert(mag * pow2(134) >= pow2(134)) by {
        lemma_pow2_pos(134);
        lemma_mul_inequality(1, mag as int, pow2(134) as int);
        vstd::arithmetic::mul::lemma_mul_basics(pow2(134) as int);
    }
    lemma_norm_up_props(md.0, md.1 as int);
    let me2 = norm_up(md.0, md.1 as int);
    let m2 = me2.0;
    let e2 = me2.1;
    assert(e2 >= 111) by {
        if e2 < 111 {
            lemma_pow2_pos(e2 as nat);
            vstd::arithmetic::mul::lemma_mul_strict_inequality(
                m2 as int,
                0x100_0000,
                pow2(e2 as nat) as int,
            );
            lemma_pow2_adds(24, e2 as nat);
            lemma2_to64();
            if 24 + e2 < 134 {
                lemma_pow2_strictly_increases((24 + e2) as nat, 134);
            }
            lemma_pow2_pos(134);
            lemma_mul_inequality(1, mag as int, pow2(134) as int);
            vstd::arithmetic::mul::lemma_mul_basics(pow2(134) as int);
            assert(false);
        }
    }
    assert(e2 <= 158) by {
        if e2 > 158 {
            lemma_pow2_pos(e2 as nat);
            lemma_mul_inequality(0x80_0000, m2 as int, pow2(e2 as nat) as int);
            lemma_pow2_adds(23, e2 as nat);
            lemma2_to64();
            lemma_pow2_strictly_increases(181, (23 + e2) as nat);
            lemma_pow2_adds(47, 134);
            lemma2_to64_rest();
            lemma_pow2_pos(134);
            lemma_mul_inequality(mag as int, pow2(47) as int, pow2(134) as int);
            assert(false);
        }
    }
    me2
}

/// Decoding the wire value produced for a representable coordinate gives
/// back exactly that coordinate: the encode/decode pair loses nothing.
pub proof fn lemma_bits_round_trip(raw: i64)
    requires
        bits_of_coord_raw(raw) is Some,
    ensures
        coord_raw_of_bits(bits_of_coord_raw(raw)->Some_0) == Some(raw),
{
    if raw == 0 {
    } else {
        let s: int = if raw < 0 {
            1
        } else {
            0
        };
        let mag = abs(raw as int);
        let me2 = lemma_norm_chain(mag);
        let m2 = me2.0;
        let e2 = me2.1;
        let fr = m2 - 0x80_0000;
        let b = bits_of_coord_raw(raw)->Some_0;
        let b_int = s * 0x8000_0000 + e2 * 0x80_0000 + fr;
        assert(0 <= b_int < 0x1_0000_0000);
        assert(b as int == b_int);
        let r1 = e2 * 0x80_0000 + fr;
        assert(0 <= r1 < 0x8000_0000);
        lemma_fundamental_div_mod_converse(b as int, 0x8000_0000, s, r1);
        assert(bits_sign(b) == s && (b as int % 0x8000_0000) == r1);
        lemma_fundamental_div_mod_converse(r1, 0x80_0000, e2, fr);
        assert(bits_exp(b) == e2 && bits_frac(b) == fr);
        if e2 >= 134 {
            let a = pow2((e2 - 134) as nat);
            assert(pow2(e2 as nat) == a * pow2(134)) by {
                lemma_pow2_adds((e2 - 134) as nat, 134);
            }
            assert(pow2(134) as int * (m2 * a) as int == pow2(134) as int * (mag as int)) by {
                vstd::arithmetic::mul::lemma_mul_is_associative(m2 as int, a as int, pow2(134) as int);
                vstd::arithmetic::mul::lemma_mul_is_commutative((m2 * a) as int, pow2(134) as int);
                vstd::arithmetic::mul::lemma_mul_is_commutative(mag as int, pow2(134) as int);
            }
            lemma_pow2_pos(134);
            lemma_mul_equality_converse(pow2(134) as int, (m2 * a) as int, mag as int);
            assert(m2 * a == mag);
        } else {
            let sh = (134 - e2) as nat;
            assert(sh < 24);
            assert(pow2(134) == pow2(sh) * pow2(e2 as nat)) by {
                lemma_pow2_adds(sh, e2 as nat);
            }
            assert(pow2(e2 as nat) as int * (m2 as int) == pow2(e2 as nat) as int * (mag * pow2(
                sh,
            )) as int) by {
                vstd::arithmetic::mul::lemma_mul_is_associative(
                    mag as int,
                    pow2(sh) as int,
                    pow2(e2 as nat) as int,
                );
                vstd::arithmetic::mul::lemma_mul_is_commutative(m2 as int, pow2(e2 as nat) as int);
                vstd::arithmetic::mul::lemma_mul_is_commutative(
                    (mag * pow2(sh)) as int,
                    pow2(e2 as nat) as int,
                );
            }
            lemma_pow2_pos(e2 as nat);
            lemma_mul_equality_converse(
                pow2(e2 as nat) as int,
                m2 as int,
                (mag * pow2(sh)) as int,
            );
            assert(m2 == mag * pow2(sh));
            // Rounding an exact multiple of the step returns it: the
            // half-step tie offset is swallowed by the division.
            lemma_pow2_pos(sh);
            lemma_pow2_strictly_increases((sh - 1) as nat, sh);
            lemma_fundamental_div_mod_converse(
                (m2 + pow2((sh - 1) as nat)) as int,
                pow2(sh) as int,
                mag as int,
                pow2((sh - 1) as nat) as int,
            );
            assert((m2 + pow2((sh - 1) as nat)) as int / (pow2(sh) as int) == mag);
        }
    }
}

/// Every coordinate the wire decoder accepts can be encoded again: its
/// magnitude is within range and needs at most 24 significant bits.
pub proof fn lemma_decoded_is_encodable(b: u32)
    requires
        coord_raw_of_bits(b) is Some,
    ensures
        bits_of_coord_raw(coord_raw_of_bits(b)->Some_0) is Some,
{
    let raw = coord_raw_of_bits(b)->Some_0;
    if raw == 0 {
    } else {
        let s = bits_sign(b);
        let e = bits_exp(b);
        let f = bits_frac(b);
        let m = f + 0x80_0000;
        let mag = abs(raw as int);
        if e >= 134 {
            assert(mag == m * pow2((e - 134) as nat));
            lemma_norm_down_of_shifted(m as nat, (e - 134) as nat, 134);
        } else {
            let sh = (134 - e) as nat;
            lemma_pow2_pos(sh);
            lemma_pow2_pos((sh - 1) as nat);
            lemma_pow2_adds((sh - 1) as nat, 1);
            lemma2_to64();
            let num = (m + pow2((sh - 1) as nat)) as int;
            vstd::arithmetic::div_mod::lemma_div_basics_4(num, pow2(sh) as int);
            if sh <= 24 {
                if ((sh - 1) as nat) < 23 {
                    lemma_pow2_strictly_increases((sh - 1) as nat, 23);
                }
                vstd::arithmetic::div_mod::lemma_div_is_ordered_by_denominator(
                    num,
                    2,
                    pow2(sh) as int,
                );
            } else {
                if 24 < (sh - 1) as nat {
                    lemma_pow2_strictly_increases(24, (sh - 1) as nat);
                }
                vstd::arithmetic::div_mod::lemma_basic_div(num, pow2(sh) as int);
            }
            assert(mag == num / (pow2(sh) as int));
            assert(mag < 0x100_0000);
            assert(norm_down(mag as nat, 134) is Some);
        }
    }
}

/// `2^k` as a machine word.
fn pow2_u64(k: u64) -> (r: u64)
    requires
        k <= 63,
    ensures
        r as nat == pow2(k as nat),
{
    let mut r: u64 = 1;
    let mut i: u64 = 0;
    proof {
        lemma2_to64();
    }
    while i < k
        invariant
            i <= k <= 63,
            r as nat == pow2(i as nat),
        decreases k - i,
    {
        proof {
            lemma_pow2_strictly_increases(i as nat, 63);
            lemma2_to64_rest();
            lemma_pow2_adds(i as nat, 1);
            lemma2_to64();
        }
        r = r * 2;
        i = i + 1;
    }
    r
}

/// The grid coordinate nearest to a binary32 wire value: exact on-grid,
/// rounded to the nearest grid point otherwise (ties away from zero);
/// `None` only for a NaN, an infinity, or an out-of-range magnitude.
pub fn coord_from_bits(b: u32) -> (r: Option<i64>)
    ensures
        r == coord_raw_of_bits(b),
{
    let s: u32 = b / 0x8000_0000;
    let rem: u32 = b % 0x8000_0000;
    let e: u32 = rem / 0x80_0000;
    let f: u32 = rem % 0x80_0000;
    if e == 255 {
        return None;
    }
    if e == 0 {
        return Some(0i64);
    }
    let m: u64 = f as u64 + 0x80_0000;
    if e >= 134 {
        let sh: u32 = e - 134;
        if sh > 24 {
            proof {
                let shn = sh as nat;
                lemma_pow2_strictly_increases(24, shn);
                lemma_mul_inequality(0x80_0000, m as int, pow2(shn) as int);
                lemma_pow2_adds(23, shn);
                lemma_pow2_strictly_increases(47, 23 + shn);
                lemma2_to64();
                lemma2_to64_rest();
                assert(0x80_0000 * pow2(shn) == pow2(23 + shn));
                assert((m as int) * pow2(shn) > MAX_COORD_MAG as int);
            }
            return None;
        }
        let p: u64 = pow2_u64(sh as u64);
        proof {
            lemma2_to64();
            if sh < 24 {
                lemma_pow2_strictly_increases(sh as nat, 24);
            }
            lemma_mul_upper_bound(m as int, 0xFF_FFFF, p as int, 0x100_0000);
        }
        let mag: u64 = m * p;
        if mag > MAX_COORD_MAG as u64 {
            None
        } else if s == 1 {
            Some(-(mag as i64))
        } else {
            Some(mag as i64)
        }
    } else {
        let sh: u32 = 134 - e;
        if sh > 24 {
            // The whole value sits under half a grid step, so the
            // nearest grid point is zero.
            proof {
                let shn = sh as nat;
                lemma2_to64();
                if shn - 1 > 24 {
                    lemma_pow2_strictly_increases(24, (shn - 1) as nat);
                }
                lemma_pow2_adds((shn - 1) as nat, 1);
                lemma_pow2_pos((shn - 1) as nat);
                vstd::arithmetic::div_mod::lemma_basic_div(
                    (m + pow2((shn - 1) as nat)) as int,
                    pow2(shn) as int,
                );
            }
            return Some(0i64);
        }
        let p: u64 = pow2_u64(sh as u64);
        let half: u64 = p / 2;
        proof {
            lemma_pow2_adds((sh - 1) as nat, 1);
            lemma2_to64();
            lemma_pow2_pos((sh - 1) as nat);
            assert(p as nat == pow2((sh - 1) as nat) * 2);
            assert(half as nat == pow2((sh - 1) as nat));
        }
        let mag: u64 = (m + half) / p;
        if s == 1 {
            Some(-(mag as i64))
        } else {
            Some(mag as i64)
        }
    }
}

/// The binary32 wire value denoting a coordinate exactly, if one exists;
/// `None` when the magnitude is out of range or needs more than 24
/// significant bits.
pub fn coord_to_bits(raw: i64) -> (r: Option<u32>)
    ensures
        r == bits_of_coord_raw(raw),
{
    if raw == 0 {
        return Some(0u32);
    }
    let s: u32 = if raw < 0 {
        1
    } else {
        0
    };
    let mag0: u64 = if raw < 0 {
        (-(raw as i128)) as u64
    } else {
        raw as u64
    };
    if mag0 > MAX_COORD_MAG as u64 {
        return None;
    }
    let mut m: u64 = mag0;
    let mut e: u32 = 134;
    proof {
        lemma2_to64();
        vstd::arithmetic::mul::lemma_mul_basics(mag0 as int);
    }
    while m >= 0x100_0000
        invariant
            1 <= mag0 <= MAX_COORD_MAG,
            abs(raw as int) == mag0 as int,
            raw != 0,
            1 <= m,
            134 <= e <= 158,
            norm_down(m as nat, e as nat) == norm_down(mag0 as nat, 134),
            m as nat * pow2(e as nat) == mag0 as nat * pow2(134),
        decreases m,
    {
        if m % 2 == 1 {
            proof {
                assert(norm_down(mag0 as nat, 134) is None);
            }
            return None;
        }
        proof {
            let mi = m as nat;
            let en = e as nat;
            lemma_pow2_adds(en, 1);
            lemma2_to64();
            vstd::arithmetic::mul::lemma_mul_is_associative((mi / 2) as int, 2, pow2(en) as int);
            assert((mi / 2) * pow2(en + 1) == mi * pow2(en));
            // The exponent stays under 158 because the value is capped:
            // a significand still 2^24 or wider forces 2^(e+24) at most
            // 2^181 = 2^47 * 2^134.
            lemma_pow2_adds(24, en);
            lemma_pow2_adds(47, 134);
            lemma2_to64_rest();
            lemma_mul_inequality(0x100_0000, mi as int, pow2(en) as int);
            lemma_mul_inequality(mag0 as int, pow2(47) as int, pow2(134) as int);
            assert(pow2(24 + en) <= pow2(181));
            if 24 + en > 181 {
                lemma_pow2_strictly_increases(181, 24 + en);
                assert(false);
            }
        }
        m = m / 2;
        e = e + 1;
    }
    let ghost md = norm_down(mag0 as nat, 134)->Some_0;
    proof {
        assert(md == (m as nat, e as nat));
    }
    while m < 0x80_0000
        invariant
            1 <= m < 0x100_0000,
            111 <= e <= 158,
            norm_up(m as nat, e as int) == norm_up(md.0, md.1 as int),
            m as nat * pow2(e as nat) == mag0 as nat * pow2(134),
            1 <= mag0 <= MAX_COORD_MAG,
            abs(raw as int) == mag0 as int,
            raw != 0,
            norm_down(mag0 as nat, 134) == Some(md),
        decreases 0x100_0000 - m,
    {
        proof {
            let mi = m as nat;
            let en = e as nat;
            // The exponent stays above 111 because the value is at least
            // 2^134 while the significand is under 2^23.
            lemma_pow2_pos(en);
            vstd::arithmetic::mul::lemma_mul_strict_inequality(
                mi as int,
                0x80_0000,
                pow2(en) as int,
            );
            lemma_pow2_adds(23, en);
            lemma2_to64();
            lemma_pow2_pos(134);
            lemma_mul_inequality(1, mag0 as int, pow2(134) as int);
            vstd::arithmetic::mul::lemma_mul_basics(pow2(134) as int);
            if 23 + en <= 134 {
                if 23 + en < 134 {
                    lemma_pow2_strictly_increases(23 + en, 134);
                }
                assert(false);
            }
            assert(e >= 112);
            assert((2 * mi) * pow2((en - 1) as nat) == mi * pow2(en)) by {
                lemma_pow2_adds((en - 1) as nat, 1);
                lemma2_to64();
                vstd::arithmetic::mul::lemma_mul_is_associative(
                    2,
                    mi as int,
                    pow2((en - 1) as nat) as int,
                );
                vstd::arithmetic::mul::lemma_mul_is_associative(
                    mi as int,
                    pow2((en - 1) as nat) as int,
                    2,
                );
            }
        }
        m = m * 2;
        e = e - 1;
    }
    Some(s * 0x8000_0000 + e * 0x80_0000 + (m as u32 - 0x80_0000))
}

} // verus!
