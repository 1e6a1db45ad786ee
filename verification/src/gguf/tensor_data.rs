//! Tensor data: numbers to bytes and back, by their IEEE bit patterns.
use super::format::{T_BF16, T_F16, T_F32};
use super::wire::{get16, get32, le16, le32, lemma_get16_le16, lemma_get32_le32, put_u16, put_u32, read_u16_at, read_u32_at};
use crate::weights::half::{f2h_bits, f2h_spec, h2f_bits, h2f_spec};
use vstd::prelude::*;

verus! {

/// The little-endian bytes of each value, in order.
pub open spec fn le32_all(s: Seq<u32>) -> Seq<u8>
    decreases s.len(),
{
    if s.len() == 0 {
        Seq::empty()
    } else {
        le32_all(s.drop_last()) + le32(s.last())
    }
}

/// The little-endian bytes of each value, in order.
pub open spec fn le16_all(s: Seq<u16>) -> Seq<u8>
    decreases s.len(),
{
    if s.len() == 0 {
        Seq::empty()
    } else {
        le16_all(s.drop_last()) + le16(s.last())
    }
}

/// Single-precision numbers, by bit pattern, as F32 tensor data.
pub fn as_f32_bytes(bits: &[u32]) -> (r: Vec<u8>)
    ensures
        r@ == le32_all(bits@),
{
    let mut r: Vec<u8> = Vec::new();
    let mut i: usize = 0;
    while i < bits.len()
        invariant
            i <= bits@.len(),
            r@ == le32_all(bits@.take(i as int)),
        decreases bits.len() - i,
    {
        assert(bits@.take(i + 1).drop_last() == bits@.take(i as int));
        put_u32(&mut r, bits[i]);
        i = i + 1;
    }
    assert(bits@.take(bits@.len() as int) == bits@);
    r
}

/// Single-precision numbers, by bit pattern, rounded to half precision as F16 tensor data.
pub fn as_f16_bytes(bits: &[u32]) -> (r: Vec<u8>)
    ensures
        r@ == le16_all(bits@.map_values(|b: u32| f2h_spec(b))),
{
    let ghost hs = bits@.map_values(|b: u32| f2h_spec(b));
    let mut r: Vec<u8> = Vec::new();
    let mut i: usize = 0;
    while i < bits.len()
        invariant
            i <= bits@.len(),
            hs == bits@.map_values(|b: u32| f2h_spec(b)),
            r@ == le16_all(hs.take(i as int)),
        decreases bits.len() - i,
    {
        assert(hs.take(i + 1).drop_last() == hs.take(i as int));
        put_u16(&mut r, f2h_bits(bits[i]));
        i = i + 1;
    }
    assert(hs.take(bits@.len() as int) == hs);
    r
}

/// Tensor data of type `ty` read as single-precision numbers, by bit pattern: F32 as it is,
/// F16 widened, BF16 as the high half of the bits; trailing bytes that make no whole element
/// are ignored. Other types are not numbers this crate reads.
pub open spec fn decoded(b: Seq<u8>, ty: u32) -> Option<Seq<u32>> {
    if ty == T_F32 {
        Some(Seq::new(b.len() / 4, |i: int| get32(b, 4 * i)))
    } else if ty == T_F16 {
        Some(Seq::new(b.len() / 2, |i: int| h2f_spec(get16(b, 2 * i))))
    } else if ty == T_BF16 {
        Some(Seq::new(b.len() / 2, |i: int| (get16(b, 2 * i) as u32 * 0x1_0000) as u32))
    } else {
        None
    }
}

/// Reads tensor data as single-precision numbers, by bit pattern.
pub fn decode_f32(bytes: &[u8], ty: u32) -> (r: Option<Vec<u32>>)
    ensures
        match decoded(bytes@, ty) {
            Some(s) => r is Some && r->0@ == s,
            None => r is None,
        },
{
    if ty != T_F32 && ty != T_F16 && ty != T_BF16 {
        return None;
    }
    let w: usize = if ty == T_F32 {
        4
    } else {
        2
    };
    let n = bytes.len() / w;
    let mut r: Vec<u32> = Vec::new();
    let mut i: usize = 0;
    while i < n
        invariant
            i <= n,
            n == bytes@.len() / (w as nat),
            w == (if ty == T_F32 {
                4usize
            } else {
                2usize
            }),
            ty == T_F32 || ty == T_F16 || ty == T_BF16,
            r@.len() == i,
            forall|j: int| 0 <= j < i ==> #[trigger] r@[j] == decoded(bytes@, ty)->0[j],
        decreases n - i,
    {
        assert(i * w + w <= bytes.len()) by (nonlinear_arith)
            requires
                i < n,
                n == bytes.len() / w,
                w == 2 || w == 4,
        ;
        let x: u32 = if ty == T_F32 {
            read_u32_at(bytes, i * 4)
        } else if ty == T_F16 {
            h2f_bits(read_u16_at(bytes, i * 2))
        } else {
            let h = read_u16_at(bytes, i * 2);
            assert(h as u32 * 0x1_0000 <= u32::MAX);
            (h as u32) * 0x1_0000
        };
        r.push(x);
        i = i + 1;
    }
    assert(r@ =~= decoded(bytes@, ty)->0);
    Some(r)
}


/// Where each value lies in `le32_all`: four bytes apiece, in order.
pub proof fn lemma_le32_all(s: Seq<u32>)
    ensures
        le32_all(s).len() == 4 * s.len(),
        forall|i: int| 0 <= i < s.len() ==> #[trigger] le32_all(s).subrange(4 * i, 4 * i + 4) == le32(s[i]),
    decreases s.len(),
{
    if s.len() > 0 {
        let p = s.drop_last();
        lemma_le32_all(p);
        let a = le32_all(p);
        let b = le32_all(s);
        assert(b == a + le32(s.last()));
        assert forall|i: int| 0 <= i < s.len() implies #[trigger] le32_all(s).subrange(4 * i, 4 * i + 4) == le32(s[i]) by {
            if i < p.len() {
                assert(b.subrange(4 * i, 4 * i + 4) =~= a.subrange(4 * i, 4 * i + 4));
                assert(p[i] == s[i]);
            } else {
                assert(b.subrange(4 * i, 4 * i + 4) =~= le32(s.last()));
            }
        }
    }
}

/// Where each value lies in `le16_all`: two bytes apiece, in order.
pub proof fn lemma_le16_all(s: Seq<u16>)
    ensures
        le16_all(s).len() == 2 * s.len(),
        forall|i: int| 0 <= i < s.len() ==> #[trigger] le16_all(s).subrange(2 * i, 2 * i + 2) == le16(s[i]),
    decreases s.len(),
{
    if s.len() > 0 {
        let p = s.drop_last();
        lemma_le16_all(p);
        let a = le16_all(p);
        let b = le16_all(s);
        assert(b == a + le16(s.last()));
        assert forall|i: int| 0 <= i < s.len() implies #[trigger] le16_all(s).subrange(2 * i, 2 * i + 2) == le16(s[i]) by {
            if i < p.len() {
                assert(b.subrange(2 * i, 2 * i + 2) =~= a.subrange(2 * i, 2 * i + 2));
                assert(p[i] == s[i]);
            } else {
                assert(b.subrange(2 * i, 2 * i + 2) =~= le16(s.last()));
            }
        }
    }
}

/// F32 tensor data made of numbers reads back as the same numbers.
pub proof fn law_f32_data_round_trip(bits: Seq<u32>)
    ensures
        decoded(le32_all(bits), T_F32) == Some(bits),
{
    lemma_le32_all(bits);
    let b = le32_all(bits);
    let got = Seq::new(b.len() / 4, |i: int| get32(b, 4 * i));
    assert forall|i: int| 0 <= i < bits.len() implies #[trigger] got[i] == bits[i] by {
        assert(4 * i + 4 <= b.len());
        lemma_get32_le32(b, 4 * i, bits[i]);
    }
    assert(got =~= bits);
}

/// F16 tensor data made of half-precision numbers reads back as each one widened.
pub proof fn law_f16_data_round_trip(halves: Seq<u16>)
    ensures
        decoded(le16_all(halves), T_F16) == Some(halves.map_values(|h: u16| h2f_spec(h))),
{
    lemma_le16_all(halves);
    let b = le16_all(halves);
    let got = Seq::new(b.len() / 2, |i: int| h2f_spec(get16(b, 2 * i)));
    let want = halves.map_values(|h: u16| h2f_spec(h));
    assert forall|i: int| 0 <= i < halves.len() implies #[trigger] got[i] == want[i] by {
        assert(2 * i + 2 <= b.len());
        lemma_get16_le16(b, 2 * i, halves[i]);
    }
    assert(got =~= want);
}

} // verus!
