//! IEEE half- and single-precision conversion on bit patterns.
use vstd::arithmetic::power2::{lemma2_to64, lemma_pow2_adds, lemma_pow2_pos, lemma_pow2_strictly_increases, lemma_pow2_unfold, pow2};
use vstd::bits::{lemma_u32_shl_is_mul, lemma_u64_shl_is_mul};
use vstd::prelude::*;

verus! {

/// `x / 2^k` rounded to the nearest integer, ties to the even one.
pub open spec fn rne(x: nat, k: nat) -> nat {
    let p = pow2(k);
    let q = x / p;
    let r = x % p;
    if r > p / 2 || (r == p / 2 && q % 2 == 1) {
        q + 1
    } else {
        q
    }
}

/// The IEEE half-precision bits nearest to the single-precision value with bits `b`, ties
/// to even: the sign is kept; a NaN stays a (quiet) NaN and an infinity an infinity; a
/// value too large for a half becomes infinite; a value too small becomes zero. In the
/// normal range the half's exponent and mantissa are the float's, rebased and rounded by
/// 13 bits; below it the mantissa with its leading one is rounded by a shift that grows as
/// the exponent falls.
#[verifier::opaque]
pub open spec fn f2h_spec(b: u32) -> u16 {
    let sign: nat = if b >= 0x8000_0000 {
        0x8000
    } else {
        0
    };
    let e = (b as nat / 0x80_0000) % 256;
    let m = b as nat % 0x80_0000;
    let mag: nat = if e == 255 {
        0x7c00 + if m != 0 {
            0x200nat
        } else {
            0
        }
    } else if e >= 143 {
        0x7c00
    } else if e >= 113 {
        rne((e - 112) as nat * 0x80_0000 + m, 13)
    } else if e >= 102 {
        rne(m + 0x80_0000, (126 - e) as nat)
    } else {
        0
    };
    (sign + mag) as u16
}

/// The position of the highest set bit of `m`.
pub open spec fn top_bit(m: nat) -> nat
    decreases m,
{
    if m < 2 {
        0
    } else {
        1 + top_bit(m / 2)
    }
}

/// The single-precision bits of the half-precision value with bits `h`, which all halves
/// have exactly: the sign is kept; zero stays zero; a subnormal half becomes a normal float
/// whose exponent comes from its highest set bit; infinities and NaNs keep their mantissa
/// bits; a normal half's exponent is rebased and its mantissa widened by 13 bits.
#[verifier::opaque]
pub open spec fn h2f_spec(h: u16) -> u32 {
    let sign: nat = if h >= 0x8000 {
        0x8000_0000
    } else {
        0
    };
    let e = (h as nat / 1024) % 32;
    let m = h as nat % 1024;
    let mag: nat = if e == 0 {
        if m == 0 {
            0
        } else {
            let p = top_bit(m);
            (p + 103) * 0x80_0000 + (m - pow2(p)) as nat * pow2((23 - p) as nat)
        }
    } else if e == 31 {
        0x7f80_0000 + m * 0x2000
    } else {
        (e + 112) * 0x80_0000 + m * 0x2000
    };
    (sign + mag) as u32
}

/// `x / 2^k` rounded to nearest, ties to even.
fn rne_exec(x: u32, k: u32) -> (r: u32)
    requires
        1 <= k <= 24,
    ensures
        r == rne(x as nat, k as nat),
        r <= x as nat / pow2(k as nat) + 1,
{
    proof {
        lemma2_to64();
        if k < 24 {
            lemma_pow2_strictly_increases(k as nat, 24);
        }
        lemma_pow2_strictly_increases(0, k as nat);
        lemma_u32_shl_is_mul(1, k);
    }
    let p: u32 = 1u32 << k;
    let q = x / p;
    assert(q <= x / 2) by {
        vstd::arithmetic::div_mod::lemma_div_is_ordered_by_denominator(x as int, 2, p as int);
    }
    let r = x % p;
    let half = p / 2;
    if r > half || (r == half && q % 2 == 1) {
        q + 1
    } else {
        q
    }
}

/// Single-precision bits to the nearest half-precision bits.
pub fn f2h_bits(b: u32) -> (h: u16)
    ensures
        h == f2h_spec(b),
{
    reveal(f2h_spec);
    let sign: u32 = if b >= 0x8000_0000 {
        0x8000
    } else {
        0
    };
    let e = (b / 0x80_0000) % 256;
    let m = b % 0x80_0000;
    let mag: u32 = if e == 255 {
        0x7c00 + if m != 0 {
            0x200
        } else {
            0
        }
    } else if e >= 143 {
        0x7c00
    } else if e >= 113 {
        proof {
            lemma2_to64();
        }
        rne_exec((e - 112) * 0x80_0000 + m, 13)
    } else if e >= 102 {
        proof {
            lemma2_to64();
            if 126 - e > 14 {
                lemma_pow2_strictly_increases(14, (126 - e) as nat);
            }
        }
        let r = rne_exec(m + 0x80_0000, 126 - e);
        assert((m + 0x80_0000) as nat / pow2((126 - e) as nat) <= (m + 0x80_0000) as nat / 0x4000) by {
            vstd::arithmetic::div_mod::lemma_div_is_ordered_by_denominator((m + 0x80_0000) as int, 0x4000, pow2((126 - e) as nat) as int);
        }
        r
    } else {
        0
    };
    (sign + mag) as u16
}

pub(crate) proof fn lemma_top_bit(m: nat)
    requires
        m >= 1,
    ensures
        pow2(top_bit(m)) <= m < pow2(top_bit(m) + 1),
    decreases m,
{
    lemma_pow2_unfold(top_bit(m) + 1);
    if m < 2 {
        lemma2_to64();
    } else {
        lemma_top_bit(m / 2);
        lemma_pow2_unfold(top_bit(m / 2) + 1);
    }
}

pub(crate) proof fn lemma_top_bit_small(m: nat)
    requires
        1 <= m < 1024,
    ensures
        top_bit(m) <= 9,
{
    lemma_top_bit(m);
    lemma2_to64();
    if top_bit(m) > 9 {
        lemma_pow2_strictly_increases(10, top_bit(m));
    }
}

/// Half-precision bits to the single-precision bits of the same value.
pub fn h2f_bits(h: u16) -> (b: u32)
    ensures
        b == h2f_spec(h),
{
    reveal(h2f_spec);
    let sign: u32 = if h >= 0x8000 {
        0x8000_0000
    } else {
        0
    };
    let e = ((h / 1024) % 32) as u32;
    let m = (h % 1024) as u32;
    let mag: u32 = if e == 0 {
        if m == 0 {
            0
        } else {
            let mut t = m;
            let mut p: u32 = 0;
            proof {
                lemma_top_bit_small(m as nat);
            }
            while t >= 2
                invariant
                    1 <= t <= m < 1024,
                    top_bit(m as nat) <= 9,
                    p <= 9,
                    top_bit(m as nat) == p + top_bit(t as nat),
                decreases t,
            {
                proof {
                    lemma_top_bit_small(t as nat);
                }
                t = t / 2;
                p = p + 1;
            }
            proof {
                lemma_top_bit(m as nat);
                lemma_top_bit_small(m as nat);
                lemma_pow2_adds(p as nat, (23 - p) as nat);
                lemma_pow2_adds(p as nat, 1);
                lemma2_to64();
                lemma_pow2_strictly_increases(p as nat, 10);
                lemma_u32_shl_is_mul(1, p);
                lemma_u32_shl_is_mul(1, (23 - p) as u32);
                lemma_pow2_pos((23 - p) as nat);
                assert((m - pow2(p as nat)) * pow2((23 - p) as nat) < pow2(p as nat) * pow2((23 - p) as nat)) by (nonlinear_arith)
                    requires
                        m - pow2(p as nat) < pow2(p as nat),
                        pow2((23 - p) as nat) > 0,
                ;
            }
            let lead: u32 = 1u32 << p;
            let scale: u32 = 1u32 << (23 - p);
            (p + 103) * 0x80_0000 + (m - lead) * scale
        }
    } else if e == 31 {
        0x7f80_0000 + m * 0x2000
    } else {
        (e + 112) * 0x80_0000 + m * 0x2000
    };
    sign + mag
}

proof fn lemma_rne_exact(x: nat, k: nat)
    requires
        k >= 1,
    ensures
        rne(x * pow2(k), k) == x,
{
    let p = pow2(k);
    lemma_pow2_strictly_increases(0, k);
    lemma2_to64();
    vstd::arithmetic::div_mod::lemma_div_multiples_vanish(x as int, p as int);
    vstd::arithmetic::div_mod::lemma_mod_multiples_basic(x as int, p as int);
    assert(x * p == p * x) by (nonlinear_arith);
}

/// Every half-precision value except a NaN survives the trip to single precision and back
/// unchanged.
pub proof fn law_half_round_trip(h: u16)
    requires
        !((h as nat / 1024) % 32 == 31 && h as nat % 1024 != 0),
    ensures
        f2h_spec(h2f_spec(h)) == h,
{
    reveal(f2h_spec);
    reveal(h2f_spec);
    lemma2_to64();
    let e = (h as nat / 1024) % 32;
    let m = h as nat % 1024;
    let b = h2f_spec(h);
    if e == 0 && m != 0 {
        let p = top_bit(m);
        lemma_top_bit(m);
        lemma_top_bit_small(m);
        lemma_pow2_adds(p, (23 - p) as nat);
        lemma_pow2_adds(p, 1);
        lemma_pow2_strictly_increases(p, 10);
        lemma_pow2_pos((23 - p) as nat);
        let s = pow2((23 - p) as nat);
        assert((m - pow2(p)) * s < pow2(p) * s) by (nonlinear_arith)
            requires
                m - pow2(p) < pow2(p),
                s > 0,
        ;
        assert((m - pow2(p)) * s + 0x80_0000 == m * s) by (nonlinear_arith)
            requires
                pow2(p) * s == 0x80_0000,
                m >= pow2(p),
        ;
        let a = ((m - pow2(p)) * s) as nat;
        assert(b as nat % 0x80_0000 == a);
        assert((b as nat / 0x80_0000) % 256 == p + 103);
        lemma_rne_exact(m, (23 - p) as nat);
    } else if e != 0 && e != 31 {
        assert(b as nat % 0x80_0000 == m * 0x2000);
        assert((b as nat / 0x80_0000) % 256 == e + 112);
        assert((e * 0x80_0000 + m * 0x2000) == (e * 1024 + m) * pow2(13));
        lemma_rne_exact(e * 1024 + m, 13);
    }
}

/// Rounding to the nearest multiple of `2^k` is off by at most half of `2^k`.
pub proof fn law_rne_within_half(x: nat, k: nat)
    requires
        k >= 1,
    ensures
        rne(x, k) * pow2(k) <= x + pow2(k) / 2,
        x <= rne(x, k) * pow2(k) + pow2(k) / 2,
{
    let p = pow2(k);
    lemma_pow2_strictly_increases(0, k);
    lemma2_to64();
    lemma_pow2_unfold(k);
    vstd::arithmetic::div_mod::lemma_fundamental_div_mod(x as int, p as int);
    let q = x / p;
    let r = x % p;
    assert(x == p * q + r);
    assert(rne(x, k) * p == p * rne(x, k)) by (nonlinear_arith);
    if rne(x, k) == q + 1 {
        assert(p * (q + 1) == p * q + p) by (nonlinear_arith);
    }
}

/// The single-precision bits nearest to the double-precision value with bits `b` (what
/// `as f32` gives), ties to even: the sign is kept; an infinity stays infinite; a value too
/// large becomes infinite and one too small zero; in the normal range the exponent is
/// rebased and the mantissa rounded by 29 bits, below it the mantissa with its leading one
/// is rounded by a shift that grows as the exponent falls. A NaN becomes the quiet NaN that
/// keeps the top 22 bits of its payload, as x86-64 and AArch64 give it.
#[verifier::opaque]
pub open spec fn narrow_spec(b: u64) -> u32 {
    let sign: nat = if b >= 0x8000_0000_0000_0000 {
        0x8000_0000
    } else {
        0
    };
    let e = (b as nat / 0x10_0000_0000_0000) % 2048;
    let m = b as nat % 0x10_0000_0000_0000;
    let mag: nat = if e == 2047 {
        if m == 0 {
            0x7f80_0000
        } else {
            0x7fc0_0000 + (m / 0x2000_0000) % 0x40_0000
        }
    } else if e >= 1151 {
        0x7f80_0000
    } else if e >= 897 {
        rne((e - 896) as nat * 0x10_0000_0000_0000 + m, 29)
    } else if e >= 872 {
        rne(m + 0x10_0000_0000_0000, (926 - e) as nat)
    } else {
        0
    };
    (sign + mag) as u32
}

/// `x / 2^k` rounded to nearest, ties to even.
fn rne_exec64(x: u64, k: u64) -> (r: u64)
    requires
        1 <= k <= 54,
    ensures
        r == rne(x as nat, k as nat),
        r <= x as nat / pow2(k as nat) + 1,
{
    proof {
        lemma2_to64();
        lemma_pow2_strictly_increases(k as nat, 64);
        lemma_pow2_strictly_increases(0, k as nat);
        lemma_u64_shl_is_mul(1, k);
    }
    let p: u64 = 1u64 << k;
    let q = x / p;
    assert(q <= x / 2) by {
        vstd::arithmetic::div_mod::lemma_div_is_ordered_by_denominator(x as int, 2, p as int);
    }
    let r = x % p;
    let half = p / 2;
    if r > half || (r == half && q % 2 == 1) {
        q + 1
    } else {
        q
    }
}

/// Double-precision bits to the nearest single-precision bits.
pub fn narrow_bits(b: u64) -> (r: u32)
    ensures
        r == narrow_spec(b),
{
    reveal(narrow_spec);
    let sign: u64 = if b >= 0x8000_0000_0000_0000 {
        0x8000_0000
    } else {
        0
    };
    let e = (b / 0x10_0000_0000_0000) % 2048;
    let m = b % 0x10_0000_0000_0000;
    let mag: u64 = if e == 2047 {
        if m == 0 {
            0x7f80_0000
        } else {
            0x7fc0_0000 + (m / 0x2000_0000) % 0x40_0000
        }
    } else if e >= 1151 {
        0x7f80_0000
    } else if e >= 897 {
        proof {
            lemma2_to64();
            assert(pow2(29) == 0x2000_0000) by {
                vstd::arithmetic::power2::lemma2_to64_rest();
            }
        }
        rne_exec64((e - 896) * 0x10_0000_0000_0000 + m, 29)
    } else if e >= 872 {
        proof {
            lemma2_to64();
            assert(pow2(30) == 0x4000_0000) by {
                vstd::arithmetic::power2::lemma2_to64_rest();
            }
            if 926 - e > 30 {
                lemma_pow2_strictly_increases(30, (926 - e) as nat);
            }
        }
        let r = rne_exec64(m + 0x10_0000_0000_0000, 926 - e);
        assert((m + 0x10_0000_0000_0000) as nat / pow2((926 - e) as nat) <= (m + 0x10_0000_0000_0000) as nat / 0x4000_0000) by {
            vstd::arithmetic::div_mod::lemma_div_is_ordered_by_denominator((m + 0x10_0000_0000_0000) as int, 0x4000_0000, pow2((926 - e) as nat) as int);
        }
        r
    } else {
        0
    };
    (sign + mag) as u32
}

} // verus!
