//! Integer arithmetic views of IEEE 754 bit patterns.
//!
//! Every sample the decoder produces is the bit pattern of a 64-bit float,
//! held in a `u64`.  This module defines, purely over the integers, the
//! binary64 bit pattern of a small integer value and of a binary32 bit
//! pattern widened losslessly to binary64, and proves executable encoders
//! against those definitions.

use vstd::arithmetic::power2::{
    lemma2_to64, lemma2_to64_rest, lemma_pow2_adds, lemma_pow2_pos, lemma_pow2_strictly_increases,
    lemma_pow2_unfold, pow2,
};
use vstd::prelude::*;

verus! {

/// Position of the most significant one bit of `m`: `floor(log2(m))` for
/// `m >= 1`, and 0 for `m == 0`.
pub open spec fn msb_pos(m: nat) -> nat
    decreases m,
{
    if m < 2 {
        0
    } else {
        1 + msb_pos(m / 2)
    }
}

pub proof fn lemma_msb_pos_bounds(m: nat)
    requires
        m >= 1,
    ensures
        pow2(msb_pos(m)) <= m < pow2(msb_pos(m) + 1),
    decreases m,
{
    if m < 2 {
        lemma2_to64();
    } else {
        lemma_msb_pos_bounds(m / 2);
        lemma_pow2_unfold(msb_pos(m) + 1);
        lemma_pow2_unfold(msb_pos(m));
    }
}

pub proof fn lemma_msb_pos_unique(m: nat, n: nat)
    requires
        pow2(n) <= m < pow2(n + 1),
    ensures
        msb_pos(m) == n,
{
    lemma_pow2_pos(n);
    lemma_msb_pos_bounds(m);
    let k = msb_pos(m);
    if k < n {
        if k + 1 < n {
            lemma_pow2_strictly_increases(k + 1, n);
        }
        assert(false);
    } else if n < k {
        if n + 1 < k {
            lemma_pow2_strictly_increases(n + 1, k);
        }
        assert(false);
    }
}

/// The IEEE 754 binary64 bit pattern of a positive integer `m < 2^52`:
/// biased exponent `1023 + floor(log2(m))`, and the bits of `m` below its
/// leading one, shifted to the top of the 52-bit mantissa field.  Exact for
/// this range: no rounding is involved.
pub open spec fn f64_bits_of_mag(m: nat) -> u64
    recommends
        1 <= m < pow2(52),
{
    let n = msb_pos(m);
    (((1023 + n) * pow2(52)) + (m - pow2(n)) * pow2((52 - n) as nat)) as u64
}

/// The IEEE 754 binary64 bit pattern of an integer value `v` with
/// `|v| < 2^52`; the top bit carries the sign.
pub open spec fn f64_bits_of_int(v: int) -> u64
    recommends
        -pow2(52) < v < pow2(52),
{
    if v == 0 {
        0
    } else if v > 0 {
        f64_bits_of_mag(v as nat)
    } else {
        (pow2(63) + f64_bits_of_mag((-v) as nat)) as u64
    }
}

/// The binary64 bit pattern denoting the same value as the binary32 bit
/// pattern `b`: the sign moves to bit 63, a normal exponent is re-biased from
/// 127 to 1023, the mantissa moves up 29 bits.  Infinities and NaNs keep a
/// maximal exponent; subnormal values are normalized, which is always
/// possible in binary64's wider exponent range.  The widening is exact.
pub open spec fn widen_f32_bits(b: u32) -> u64 {
    let s: nat = (b as nat) / 0x80000000;
    let e: nat = ((b as nat) / 0x800000) % 0x100;
    let m: nat = (b as nat) % 0x800000;
    if e == 0xff {
        (s * pow2(63) + 0x7ff * pow2(52) + m * pow2(29)) as u64
    } else if e != 0 {
        (s * pow2(63) + (e + 896) * pow2(52) + m * pow2(29)) as u64
    } else if m == 0 {
        (s * pow2(63)) as u64
    } else {
        let n = msb_pos(m);
        (s * pow2(63) + (874 + n) * pow2(52) + (m - pow2(n)) * pow2((52 - n) as nat)) as u64
    }
}

/// Most significant one bit of `m`, executably: returns `(n, p)` with
/// `p == 2^n <= m < 2^(n+1)`.
fn msb_index(m: u64) -> (r: (u64, u64))
    requires
        m >= 1,
    ensures
        r.0 < 64,
        r.1 == pow2(r.0 as nat),
        r.0 as nat == msb_pos(m as nat),
        r.1 <= m,
    {
    let mut n: u64 = 0;
    let mut p: u64 = 1;
    proof {
        lemma2_to64();
    }
    while p <= m / 2
        invariant
            1 <= m,
            1 <= p,
            p == pow2(n as nat),
            p <= m,
            n < 64,
        decreases m - p,
    {
        proof {
            lemma_pow2_unfold(n as nat + 1);
            if n as nat + 1 >= 64 {
                lemma2_to64();
                lemma2_to64_rest();
                lemma_pow2_strictly_increases(64, n as nat + 1);
                assert(false);
            }
        }
        p = 2 * p;
        n = n + 1;
    }
    proof {
        lemma_pow2_unfold(n as nat + 1);
        lemma_msb_pos_unique(m as nat, n as nat);
    }
    (n, p)
}

/// `2^k` executably, for `k < 64`.
fn pow2_u64(k: u64) -> (r: u64)
    requires
        k < 64,
    ensures
        r == pow2(k as nat),
{
    let mut j: u64 = 0;
    let mut q: u64 = 1;
    proof {
        lemma2_to64();
    }
    while j < k
        invariant
            j <= k < 64,
            q == pow2(j as nat),
        decreases k - j,
    {
        proof {
            lemma_pow2_unfold(j as nat + 1);
            lemma_pow2_strictly_increases(j as nat + 1, 64);
            lemma2_to64();
            lemma2_to64_rest();
        }
        q = 2 * q;
        j = j + 1;
    }
    q
}

/// The binary64 bit pattern of the integer `v`, for `|v| < 2^52`; exact.
pub fn f64_bits_of_i64(v: i64) -> (r: u64)
    requires
        -0x10000000000000 < v < 0x10000000000000,
    ensures
        r == f64_bits_of_int(v as int),
{
    proof {
        lemma2_to64();
        lemma2_to64_rest();
    }
    if v == 0 {
        return 0;
    }
    let (sign, mag): (u64, u64) = if v < 0 {
        (0x8000000000000000u64, (-v) as u64)
    } else {
        (0u64, v as u64)
    };
    let (n, p) = msb_index(mag);
    proof {
        lemma_msb_pos_bounds(mag as nat);
        if n >= 52 {
            lemma_pow2_strictly_increases(52, n as nat);
            assert(false);
        }
    }
    let q = pow2_u64(52 - n);
    let p52: u64 = 0x10000000000000;
    assert(p52 == pow2(52)) by {
        lemma2_to64_rest();
    }
    assert((mag - p) * q < pow2(52)) by {
        assert(mag - p < pow2(n as nat)) by {
            lemma_msb_pos_bounds(mag as nat);
            lemma_pow2_unfold(n as nat + 1);
        }
        assert((mag - p) * q <= (pow2(n as nat) - 1) * pow2((52 - n) as nat)) by (nonlinear_arith)
            requires
                mag - p <= pow2(n as nat) - 1,
                q == pow2((52 - n) as nat),
                q >= 0,
        ;
        assert((pow2(n as nat) - 1) * pow2((52 - n) as nat) < pow2(n as nat) * pow2(
            (52 - n) as nat,
        )) by (nonlinear_arith)
            requires
                pow2((52 - n) as nat) > 0,
        ;
        lemma_pow2_pos((52 - n) as nat);
        lemma_pow2_adds(n as nat, (52 - n) as nat);
    }
    assert((1023 + n) * p52 <= 1074 * pow2(52)) by (nonlinear_arith)
        requires
            n < 52,
            p52 == pow2(52),
            pow2(52) > 0,
    ;
    let r = sign + (1023 + n) * p52 + (mag - p) * q;
    proof {
        lemma_msb_pos_bounds(mag as nat);
    }
    r
}

/// Widen a binary32 bit pattern to the binary64 bit pattern of the same
/// value; exact, per [`widen_f32_bits`].
pub fn widen_f32(b: u32) -> (r: u64)
    ensures
        r == widen_f32_bits(b),
{
    proof {
        lemma2_to64();
        lemma2_to64_rest();
    }
    let s: u64 = (b / 0x80000000) as u64;
    let e: u64 = ((b / 0x800000) % 0x100) as u64;
    let m: u64 = (b % 0x800000) as u64;
    let s63: u64 = 0x8000000000000000;
    let p52: u64 = 0x10000000000000;
    let p29: u64 = 0x20000000;
    if e == 0xff {
        s * s63 + 0x7ff * p52 + m * p29
    } else if e != 0 {
        s * s63 + (e + 896) * p52 + m * p29
    } else if m == 0 {
        s * s63
    } else {
        let (n, p) = msb_index(m);
        proof {
            lemma_msb_pos_bounds(m as nat);
            if n >= 23 {
                if n > 23 {
                    lemma_pow2_strictly_increases(23, n as nat);
                }
                assert(false);
            }
        }
        let q = pow2_u64(52 - n);
        assert((m - p) * q < pow2(52)) by {
            assert(m - p < pow2(n as nat)) by {
                lemma_msb_pos_bounds(m as nat);
                lemma_pow2_unfold(n as nat + 1);
            }
            assert((m - p) * q <= (pow2(n as nat) - 1) * pow2((52 - n) as nat))
                by (nonlinear_arith)
                requires
                    m - p <= pow2(n as nat) - 1,
                    q == pow2((52 - n) as nat),
                    q >= 0,
            ;
            assert((pow2(n as nat) - 1) * pow2((52 - n) as nat) < pow2(n as nat) * pow2(
                (52 - n) as nat,
            )) by (nonlinear_arith)
                requires
                    pow2((52 - n) as nat) > 0,
            ;
            lemma_pow2_pos((52 - n) as nat);
            lemma_pow2_adds(n as nat, (52 - n) as nat);
        }
        s * s63 + (874 + n) * p52 + (m - p) * q
    }
}

} // verus!
