//! How far a single-precision value moves on its way to half precision and back.
use super::half::{f2h_spec, h2f_spec, law_rne_within_half, lemma_top_bit, lemma_top_bit_small, rne, top_bit};
use vstd::arithmetic::div_mod::{lemma_fundamental_div_mod, lemma_fundamental_div_mod_converse};
use vstd::arithmetic::power2::{lemma2_to64, lemma_pow2_adds, lemma_pow2_pos, lemma_pow2_strictly_increases, lemma_pow2_unfold, pow2};
use vstd::prelude::*;

verus! {

/// The magnitude of the finite single-precision value with bits `b`, counted in units of
/// 2^-149 (the smallest subnormal), of which every such value is a whole number.
pub open spec fn f32_units(b: u32) -> nat {
    let e = (b as nat / 0x80_0000) % 256;
    let m = b as nat % 0x80_0000;
    if e == 0 {
        m
    } else {
        (0x80_0000 + m) * pow2((e - 1) as nat)
    }
}

/// Whether the single-precision bits `b` have their sign bit set.
pub open spec fn f32_negative(b: u32) -> bool {
    b >= 0x8000_0000
}

/// Whether the single-precision bits `b` hold a finite value (neither infinite nor NaN).
pub open spec fn f32_finite(b: u32) -> bool {
    (b as nat / 0x80_0000) % 256 != 255
}

/// The magnitude of the finite half-precision value with bits `h`, in units of 2^-149.
pub open spec fn half_units(h: u16) -> nat {
    let e = (h as nat / 1024) % 32;
    let m = h as nat % 1024;
    if e == 0 {
        m * pow2(125)
    } else {
        (1024 + m) * pow2(e + 124)
    }
}

/// Whether the magnitude `back` is within half a unit in the last place of a half of the
/// magnitude `v` (both in units of 2^-149): it differs from `v` by at most 2^-11 of `v`, or
/// by 2^-25 (2^124 units, half the spacing of the subnormal halves) where that is more.
pub open spec fn within_half_ulp(back: nat, v: nat) -> bool {
    let tol = if v > pow2(135) {
        v
    } else {
        pow2(135)
    };
    &&& back * 2048 <= v * 2048 + tol
    &&& v * 2048 <= back * 2048 + tol
}

proof fn lemma_f32_fields(s: nat, y: nat)
    requires
        s == 0 || s == 0x8000_0000,
        y < 0x8000_0000,
    ensures
        ((s + y) / 0x80_0000) % 256 == y / 0x80_0000,
        (s + y) % 0x80_0000 == y % 0x80_0000,
{
    lemma_fundamental_div_mod(y as int, 0x80_0000);
    let q = y / 0x80_0000;
    let r = y % 0x80_0000;
    let c: nat = if s == 0 {
        0
    } else {
        256
    };
    assert(s + y == (c + q) * 0x80_0000 + r);
    lemma_fundamental_div_mod_converse((s + y) as int, 0x80_0000, (c + q) as int, r as int);
    assert(q < 256);
    lemma_fundamental_div_mod_converse((c + q) as int, 256, (c / 256) as int, q as int);
}

proof fn lemma_half_fields(s: nat, g: nat)
    requires
        s == 0 || s == 0x8000,
        g < 0x8000,
    ensures
        ((s + g) / 1024) % 32 == g / 1024,
        (s + g) % 1024 == g % 1024,
{
    lemma_fundamental_div_mod(g as int, 1024);
    let q = g / 1024;
    let r = g % 1024;
    let c: nat = if s == 0 {
        0
    } else {
        32
    };
    assert(s + g == (c + q) * 1024 + r);
    lemma_fundamental_div_mod_converse((s + g) as int, 1024, (c + q) as int, r as int);
    assert(q < 32);
    lemma_fundamental_div_mod_converse((c + q) as int, 32, (c / 32) as int, q as int);
}

/// Widening a finite half to single precision keeps its sign and its value exactly.
proof fn lemma_h2f_units(h: u16)
    requires
        (h as nat / 1024) % 32 != 31,
    ensures
        f32_finite(h2f_spec(h)),
        f32_negative(h2f_spec(h)) == (h >= 0x8000),
        f32_units(h2f_spec(h)) == half_units(h),
{
    reveal(h2f_spec);
    lemma2_to64();
    let sign: nat = if h >= 0x8000 {
        0x8000_0000
    } else {
        0
    };
    let e = (h as nat / 1024) % 32;
    let m = h as nat % 1024;
    if e == 0 {
        if m == 0 {
            assert(h2f_spec(h) as nat == sign);
            lemma_f32_fields(sign, 0);
            assert(f32_units(h2f_spec(h)) == 0);
            assert(half_units(h) == 0 * pow2(125));
        } else {
            let p = top_bit(m);
            lemma_top_bit(m);
            lemma_top_bit_small(m);
            lemma_pow2_adds(p, (23 - p) as nat);
            lemma_pow2_adds(p, 1);
            lemma_pow2_adds((23 - p) as nat, p + 102);
            lemma_pow2_pos((23 - p) as nat);
            let s = pow2((23 - p) as nat);
            assert((m - pow2(p)) * s < pow2(p) * s) by (nonlinear_arith)
                requires
                    m - pow2(p) < pow2(p),
                    s > 0,
            ;
            let low = ((m - pow2(p)) * s) as nat;
            let mag = (p + 103) * 0x80_0000 + low;
            assert(h2f_spec(h) as nat == sign + mag);
            lemma_f32_fields(sign, mag);
            lemma_fundamental_div_mod_converse(mag as int, 0x80_0000, (p + 103) as int, low as int);
            assert(0x80_0000 + low == m * s) by (nonlinear_arith)
                requires
                    pow2(p) * s == 0x80_0000,
                    low == (m - pow2(p)) * s,
                    m >= pow2(p),
            ;
            assert((0x80_0000 + low) * pow2(p + 102) == m * pow2(125)) by (nonlinear_arith)
                requires
                    0x80_0000 + low == m * s,
                    s * pow2(p + 102) == pow2(125),
            ;
            assert((p + 103 - 1) as nat == p + 102);
            assert(f32_units(h2f_spec(h)) == (0x80_0000 + low) * pow2(p + 102));
            assert(half_units(h) == m * pow2(125));
        }
    } else {
        let mag = (e + 112) * 0x80_0000 + m * 0x2000;
        assert(h2f_spec(h) as nat == sign + mag);
        lemma_f32_fields(sign, mag);
        lemma_fundamental_div_mod_converse(mag as int, 0x80_0000, (e + 112) as int, (m * 0x2000) as int);
        lemma_pow2_adds(13, e + 111);
        assert((0x80_0000 + m * 0x2000) * pow2(e + 111) == (1024 + m) * pow2(e + 124)) by (nonlinear_arith)
            requires
                pow2(13) * pow2(e + 111) == pow2(e + 124),
                pow2(13) == 0x2000,
        ;
        assert((e + 112 - 1) as nat == e + 111);
        assert(f32_units(h2f_spec(h)) == (0x80_0000 + m * 0x2000) * pow2(e + 111));
        assert(half_units(h) == (1024 + m) * pow2(e + 124));
    }
}

proof fn lemma_scaled_error(d: int, c: nat, p: nat)
    requires
        -(c as int) <= d <= c,
    ensures
        -((c * p) as int) <= d * p <= c * p,
{
    assert(-((c * p) as int) <= d * p <= c * p) by (nonlinear_arith)
        requires
            -(c as int) <= d <= c,
            p >= 0,
    ;
}

/// Narrowing a finite single-precision value no larger than 65504 gives a finite half with
/// its sign, within half a unit in the half's last place.
proof fn lemma_f2h_error(b: u32)
    requires
        f32_finite(b),
        f32_units(b) <= 2047 * pow2(154),
    ensures
        (f2h_spec(b) as nat / 1024) % 32 != 31,
        (f2h_spec(b) >= 0x8000) == f32_negative(b),
        within_half_ulp(half_units(f2h_spec(b)), f32_units(b)),
{
    reveal(f2h_spec);
    lemma2_to64();
    let sign: nat = if b >= 0x8000_0000 {
        0x8000
    } else {
        0
    };
    let e = (b as nat / 0x80_0000) % 256;
    let m = b as nat % 0x80_0000;
    let v = f32_units(b);
    let h = f2h_spec(b);
    lemma_pow2_adds(11, 124);
    lemma_pow2_pos(124);
    if e >= 143 {
        lemma_pow2_adds(23, 142);
        lemma_pow2_adds(11, 154);
        lemma_pow2_pos(154);
        if e - 1 > 142 {
            lemma_pow2_strictly_increases(142, (e - 1) as nat);
        }
        assert(v >= 0x80_0000 * pow2(142)) by (nonlinear_arith)
            requires
                v == (0x80_0000 + m) * pow2((e - 1) as nat),
                pow2((e - 1) as nat) >= pow2(142),
        ;
        assert(false);
    } else if e >= 113 {
        let q = (e - 113) as nat;
        let x = (q + 1) * 0x80_0000 + m;
        let r = rne(x, 13);
        law_rne_within_half(x, 13);
        assert(r * 8192 <= x + 4096 && x <= r * 8192 + 4096);
        assert((q + 1) * 1024 <= r <= (q + 2) * 1024);
        let p = pow2(q + 112);
        lemma_pow2_pos(q + 112);
        assert(v == (0x80_0000 + m) * p);
        if q == 29 {
            lemma_pow2_adds(13, 141);
            assert(p == pow2(141));
            assert(pow2(154) == 8192 * pow2(141));
            assert(v <= 2047 * pow2(154));
            assert(0x80_0000 + m <= 2047 * 8192) by (nonlinear_arith)
                requires
                    v == (0x80_0000 + m) * pow2(141),
                    v <= 2047 * pow2(154),
                    pow2(154) == 8192 * pow2(141),
                    pow2(141) > 0,
            ;
        }
        assert(r < 31 * 1024);
        assert(h as nat == sign + r);
        lemma_half_fields(sign, r);
        lemma_pow2_adds(13, q + 112);
        lemma_pow2_unfold(q + 126);
        let eh = (h as nat / 1024) % 32;
        let mh = h as nat % 1024;
        if r < (q + 2) * 1024 {
            lemma_fundamental_div_mod_converse(r as int, 1024, (q + 1) as int, (r - (q + 1) * 1024) as int);
            assert(eh == q + 1 && mh == r - (q + 1) * 1024);
            assert(half_units(h) == (1024 + mh) * pow2(eh + 124));
            assert(eh + 124 == q + 125);
            assert(1024 + mh == r - q * 1024);
            assert(half_units(h) == (r - q * 1024) * pow2(q + 125));
        } else {
            lemma_fundamental_div_mod_converse(r as int, 1024, (q + 2) as int, 0);
            assert(eh == q + 2 && mh == 0);
            assert(half_units(h) == 1024 * pow2(eh + 124));
            assert(eh + 124 == q + 126);
            assert(pow2(q + 126) == 2 * pow2(q + 125)) by {
                lemma_pow2_adds(q + 125, 1);
            }
            assert(r - q * 1024 == 2048);
            assert(half_units(h) == (r - q * 1024) * pow2(q + 125));
        }
        assert(half_units(h) == (r * 8192 - q * 0x80_0000) * p) by (nonlinear_arith)
            requires
                half_units(h) == (r - q * 1024) * pow2(q + 125),
                pow2(q + 125) == 8192 * p,
        ;
        assert(v == (x - q * 0x80_0000) * p);
        lemma_scaled_error(r * 8192 - x, 4096, p);
        assert(half_units(h) - v == (r * 8192 - x) * p) by (nonlinear_arith)
            requires
                half_units(h) == (r * 8192 - q * 0x80_0000) * p,
                v == (x - q * 0x80_0000) * p,
        ;
        assert(v >= 0x80_0000 * p) by (nonlinear_arith)
            requires
                v == (0x80_0000 + m) * p,
        ;
    } else if e >= 102 {
        let k = (126 - e) as nat;
        let big = m + 0x80_0000;
        let r = rne(big, k);
        law_rne_within_half(big, k);
        lemma_pow2_unfold(k);
        if k > 14 {
            lemma_pow2_strictly_increases(14, k);
        }
        let pk = pow2(k);
        assert(pk >= 16384);
        assert(r <= 1024) by {
            if r >= 1025 {
                assert(r * pk >= 1024 * 16384 + pk) by (nonlinear_arith)
                    requires
                        r >= 1025,
                        pk >= 16384,
                ;
            }
        }
        assert(h as nat == sign + r);
        lemma_half_fields(sign, r);
        if r < 1024 {
            lemma_fundamental_div_mod_converse(r as int, 1024, 0, r as int);
        } else {
            lemma_fundamental_div_mod_converse(r as int, 1024, 1, 0);
        }
        assert(half_units(h) == r * pow2(125));
        let p = pow2((e - 1) as nat);
        lemma_pow2_adds(k, (e - 1) as nat);
        lemma_pow2_adds((k - 1) as nat, (e - 1) as nat);
        assert(k + (e - 1) == 125 && (k - 1) + (e - 1) == 124);
        assert(v == big * p);
        lemma_scaled_error(r * pk - big, pow2((k - 1) as nat), p);
        assert(half_units(h) - v == (r * pk - big) * p) by (nonlinear_arith)
            requires
                half_units(h) == r * pow2(125),
                pow2(125) == pk * p,
                v == big * p,
        ;
        assert(pow2((k - 1) as nat) * p == pow2(124));
    } else {
        assert(h as nat == sign);
        lemma_half_fields(sign, 0);
        assert(half_units(h) == 0);
        if e > 0 {
            lemma_pow2_adds(24, 100);
            lemma_pow2_pos((e - 1) as nat);
            if e - 1 < 100 {
                lemma_pow2_strictly_increases((e - 1) as nat, 100);
            }
            assert(v < pow2(124)) by (nonlinear_arith)
                requires
                    v == (0x80_0000 + m) * pow2((e - 1) as nat),
                    m < 0x80_0000,
                    0 < pow2((e - 1) as nat) <= pow2(100),
                    pow2(24) * pow2(100) == pow2(124),
                    pow2(24) == 0x100_0000,
            ;
        } else {
            lemma_pow2_strictly_increases(23, 124);
        }
    }
}

/// Half precision keeps a finite single-precision value no larger than 65504 in magnitude
/// to within half a unit in its last place: back in single precision the value is finite,
/// has its sign, and differs from the original by at most 2^-11 of its magnitude, or by
/// 2^-25 where that is more (magnitudes counted in units of 2^-149).
pub proof fn law_f2h_within_half_ulp(b: u32)
    requires
        f32_finite(b),
        f32_units(b) <= 2047 * pow2(154),
    ensures
        f32_finite(h2f_spec(f2h_spec(b))),
        f32_negative(h2f_spec(f2h_spec(b))) == f32_negative(b),
        within_half_ulp(f32_units(h2f_spec(f2h_spec(b))), f32_units(b)),
{
    lemma_f2h_error(b);
    lemma_h2f_units(f2h_spec(b));
}

} // verus!
