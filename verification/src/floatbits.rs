//! Widening a single-precision float to double precision, on the bit
//! patterns alone: the codec normalizes both wire float widths to the
//! 64-bit form without ever interpreting the value.

use vstd::prelude::*;
use vstd::arithmetic::power2::pow2;
use vstd::arithmetic::power2::lemma_pow2_adds;
use vstd::arithmetic::power2::lemma_pow2_strictly_increases;
use vstd::arithmetic::power2::lemma2_to64;

verus! {

/// The index of the most significant set bit of `n` (0 for 0 and 1).
pub open spec fn spec_msb(n: nat) -> nat
    decreases n,
{
    if n < 2 {
        0
    } else {
        1 + spec_msb(n / 2)
    }
}

/// The most significant set bit brackets the value.
pub proof fn lemma_msb_brackets(n: nat)
    requires
        n >= 1,
    ensures
        pow2(spec_msb(n)) <= n < pow2(spec_msb(n) + 1),
    decreases n,
{
    vstd::arithmetic::power2::lemma_pow2_unfold(spec_msb(n) + 1);
    if n >= 2 {
        lemma_msb_brackets(n / 2);
        vstd::arithmetic::power2::lemma_pow2_unfold(spec_msb(n));
    } else {
        lemma2_to64();
    }
}

/// The double-precision bit pattern that represents the same number as the
/// single-precision bit pattern `b`: the exponent is re-biased and the
/// mantissa padded; an all-ones exponent stays all-ones with the mantissa
/// shifted; a subnormal is normalized into an ordinary double.
pub open spec fn spec_f32_to_f64_bits(b: u32) -> u64 {
    let sign = b / 0x8000_0000;
    let e = (b / 0x80_0000) % 0x100;
    let f = b % 0x80_0000;
    (if e == 0xff {
        sign * 0x8000_0000_0000_0000 + 0x7ff0_0000_0000_0000 + f * 0x2000_0000
    } else if e == 0 {
        if f == 0 {
            sign * 0x8000_0000_0000_0000
        } else {
            let m = spec_msb(f as nat);
            sign * 0x8000_0000_0000_0000 + (m + 874) * 0x10_0000_0000_0000 + (f - pow2(m)) * pow2(
                (52 - m) as nat,
            )
        }
    } else {
        sign * 0x8000_0000_0000_0000 + (e + 896) * 0x10_0000_0000_0000 + f * 0x2000_0000
    }) as u64
}

/// `2^k`, for exponents that fit a 64-bit result.
fn pow2_u64(k: usize) -> (r: u64)
    requires
        k <= 63,
    ensures
        r as nat == pow2(k as nat),
    decreases k,
{
    proof {
        lemma2_to64();
        vstd::arithmetic::power2::lemma2_to64_rest();
    }
    if k == 0 {
        1
    } else {
        let half = pow2_u64(k - 1);
        proof {
            vstd::arithmetic::power2::lemma_pow2_unfold(k as nat);
            if k < 63 {
                lemma_pow2_strictly_increases(k as nat, 63);
            }
        }
        2 * half
    }
}

/// Widens a single-precision bit pattern to the double-precision bit
/// pattern of the same number.
pub fn f32_to_f64_bits(b: u32) -> (r: u64)
    ensures
        r == spec_f32_to_f64_bits(b),
{
    let sign: u64 = (b / 0x8000_0000) as u64;
    let e: u32 = (b / 0x80_0000) % 0x100;
    let f: u32 = b % 0x80_0000;
    if e == 0xff {
        sign * 0x8000_0000_0000_0000 + 0x7ff0_0000_0000_0000 + (f as u64) * 0x2000_0000
    } else if e == 0 {
        if f == 0 {
            sign * 0x8000_0000_0000_0000
        } else {
            let mut m: usize = 0;
            let mut t: u32 = f;
            proof {
                lemma2_to64();
            }
            while t >= 2
                invariant
                    1 <= t,
                    t as nat == f as nat / pow2(m as nat),
                    spec_msb(f as nat) == m + spec_msb(t as nat),
                    m <= 22,
                    f < 0x80_0000,
                decreases t,
            {
                proof {
                    vstd::arithmetic::power2::lemma_pow2_unfold((m + 1) as nat);
                    vstd::arithmetic::power2::lemma_pow2_pos(m as nat);
                    assert(t as nat / 2 == f as nat / (pow2(m as nat) * 2)) by (nonlinear_arith)
                        requires
                            t as nat == f as nat / pow2(m as nat),
                            pow2(m as nat) >= 1,
                    {
                        vstd::arithmetic::div_mod::lemma_div_denominator(
                            f as int,
                            pow2(m as nat) as int,
                            2,
                        );
                    }
                    if m + 1 > 22 {
                        // t >= 2 would force f >= 2^23
                        assert(spec_msb(t as nat) >= 1);
                        assert(spec_msb(f as nat) >= 23);
                        lemma_msb_brackets(f as nat);
                        if spec_msb(f as nat) > 23 {
                            lemma_pow2_strictly_increases(23, spec_msb(f as nat));
                        }
                        lemma2_to64();
                        assert(false);
                    }
                }
                t = t / 2;
                m = m + 1;
            }
            proof {
                assert(spec_msb(t as nat) == 0);
                assert(spec_msb(f as nat) == m);
                lemma_msb_brackets(f as nat);
                lemma2_to64();
            }
            let pm = pow2_u64(m);
            proof {
                lemma_pow2_adds((m + 1) as nat, (52 - m) as nat);
                lemma_pow2_adds(m as nat, (52 - m + 1) as nat);
                lemma_pow2_adds(m as nat, (52 - m) as nat);
                lemma2_to64();
                vstd::arithmetic::power2::lemma2_to64_rest();
                assert((f - pm) * pow2((52 - m) as nat) + pow2((52 - m) as nat) <= pow2(52))
                    by (nonlinear_arith)
                    requires
                        f < pow2((m + 1) as nat),
                        pm == pow2(m as nat),
                        pow2((m + 1) as nat) * pow2((52 - m) as nat) == pow2(53nat),
                        pow2(m as nat) * pow2((52 - m) as nat) == pow2(52nat),
                        pow2(53nat) == 2 * pow2(52nat),
                        f >= pm,
                ;
            }
            let mantissa: u64 = ((f as u64) - pm) * pow2_u64(52 - m);
            sign * 0x8000_0000_0000_0000 + ((m as u64) + 874) * 0x10_0000_0000_0000 + mantissa
        }
    } else {
        sign * 0x8000_0000_0000_0000 + ((e as u64) + 896) * 0x10_0000_0000_0000 + (f as u64)
            * 0x2000_0000
    }
}

} // verus!
