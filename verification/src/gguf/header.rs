//! Looking things up in a parsed header.
use super::format::{
    ALIGNMENT, Header, T_BF16, T_F16, T_F32, TensorInfo, TensorInfoView, align_up_spec, elem_bytes,
    product, supported_type, view_kv, view_tensors,
};
use super::read::{lemma_product_mono, lemma_product_nonneg, lemma_product_zero};
use super::value::{Value, ValueView, as_u64_spec};
use crate::text::str_eq;
use vstd::prelude::*;

verus! {

/// The index of the first entry of `kv` with key `k`.
pub open spec fn first_key(kv: Seq<(Seq<char>, ValueView)>, k: Seq<char>) -> Option<int> {
    if exists|i: int| 0 <= i < kv.len() && #[trigger] kv[i].0 == k {
        let i = choose|i: int|
            0 <= i < kv.len() && #[trigger] kv[i].0 == k && forall|j: int|
                0 <= j < i ==> kv[j].0 != k;
        Some(i)
    } else {
        None
    }
}

/// The value of the first entry with key `k`.
pub open spec fn lookup(kv: Seq<(Seq<char>, ValueView)>, k: Seq<char>) -> Option<ValueView> {
    match first_key(kv, k) {
        Some(i) => Some(kv[i].1),
        None => None,
    }
}

/// The first tensor named `name`.
pub open spec fn lookup_tensor(ts: Seq<TensorInfoView>, name: Seq<char>) -> Option<TensorInfoView> {
    if exists|i: int| 0 <= i < ts.len() && #[trigger] ts[i].name == name {
        let i = choose|i: int|
            0 <= i < ts.len() && #[trigger] ts[i].name == name && forall|j: int|
                0 <= j < i ==> ts[j].name != name;
        Some(ts[i])
    } else {
        None
    }
}

/// `x` rounded up to the next multiple of the alignment.
pub fn align_up(x: u64) -> (r: u64)
    requires
        x <= u64::MAX - 31,
    ensures
        r == align_up_spec(x as int),
        r % ALIGNMENT == 0,
        x <= r < x + ALIGNMENT,
{
    x + (ALIGNMENT - x % ALIGNMENT) % ALIGNMENT
}

/// The byte width of one element of a supported tensor type.
pub fn elem_size(ty: u32) -> (r: u64)
    requires
        supported_type(ty),
    ensures
        r == elem_bytes(ty),
{
    if ty == T_F32 {
        4
    } else {
        2
    }
}

/// The name of a tensor type, "?" for one this crate does not know.
pub open spec fn type_name_spec(ty: u32) -> Seq<char> {
    if ty == T_F32 {
        "F32"@
    } else if ty == T_F16 {
        "F16"@
    } else if ty == T_BF16 {
        "BF16"@
    } else {
        "?"@
    }
}

/// The name of a tensor type, as `type_name_spec` gives it.
pub fn tensor_type_name(ty: u32) -> (r: &'static str)
    ensures
        r@ == type_name_spec(ty),
{
    if ty == T_F32 {
        "F32"
    } else if ty == T_F16 {
        "F16"
    } else if ty == T_BF16 {
        "BF16"
    } else {
        "?"
    }
}

/// The product of `dims`, for a product that fits in a u64.
fn product_of(dims: &Vec<u64>) -> (r: u64)
    requires
        product(dims@) <= u64::MAX,
    ensures
        r == product(dims@),
{
    let mut k: usize = 0;
    while k < dims.len()
        invariant
            k <= dims@.len(),
            forall|j: int| 0 <= j < k ==> dims@[j] >= 1,
        decreases dims.len() - k,
    {
        if dims[k] == 0 {
            proof {
                lemma_product_zero(dims@, k as int);
            }
            return 0;
        }
        k = k + 1;
    }
    let mut acc: u64 = 1;
    let mut i: usize = 0;
    while i < dims.len()
        invariant
            i <= dims@.len(),
            forall|j: int| 0 <= j < dims@.len() ==> dims@[j] >= 1,
            acc == product(dims@.subrange(0, i as int)),
            product(dims@) <= u64::MAX,
        decreases dims.len() - i,
    {
        proof {
            lemma_product_mono(dims@, i + 1, dims@.len() as int);
            assert(dims@.subrange(0, dims@.len() as int) == dims@);
            assert(dims@.subrange(0, i + 1).subrange(0, i as int) == dims@.subrange(0, i as int));
        }
        acc = acc * dims[i];
        i = i + 1;
    }
    assert(dims@.subrange(0, dims@.len() as int) == dims@);
    acc
}

impl TensorInfo {
    /// The number of elements.
    pub fn elems(&self) -> (r: u64)
        requires
            product(self.dims@) <= u64::MAX,
        ensures
            r == product(self.dims@),
    {
        product_of(&self.dims)
    }

    /// The number of bytes of data.
    pub fn nbytes(&self) -> (r: u64)
        requires
            supported_type(self.ty),
            product(self.dims@) * elem_bytes(self.ty) <= u64::MAX,
        ensures
            r == product(self.dims@) * elem_bytes(self.ty),
    {
        proof {
            lemma_product_nonneg(self.dims@);
            let p = product(self.dims@);
            let e = elem_bytes(self.ty);
            assert(p <= p * e) by (nonlinear_arith)
                requires
                    p >= 0,
                    e >= 1,
            ;
        }
        let n = product_of(&self.dims);
        n * elem_size(self.ty)
    }
}

impl Header {
    /// The value of the first metadata entry with this key.
    pub fn get(&self, key: &str) -> (r: Option<&Value>)
        ensures
            match r {
                Some(v) => lookup(self@.kv, key@) == Some(v@),
                None => lookup(self@.kv, key@) is None,
            },
    {
        let ghost kv = self@.kv;
        let mut i: usize = 0;
        while i < self.kv.len()
            invariant
                i <= self.kv@.len(),
                kv == self@.kv,
                kv == view_kv(self.kv@),
                forall|j: int| 0 <= j < i ==> kv[j].0 != key@,
            decreases self.kv.len() - i,
        {
            assert(kv[i as int] == (self.kv@[i as int].0@, self.kv@[i as int].1@));
            if str_eq(self.kv[i].0.as_str(), key) {
                proof {
                    let ii = i as int;
                    assert(0 <= ii < kv.len() && kv[ii].0 == key@ && forall|j: int| 0 <= j < ii ==> kv[j].0 != key@);
                    let c = choose|c: int|
                        0 <= c < kv.len() && #[trigger] kv[c].0 == key@ && forall|j: int|
                            0 <= j < c ==> kv[j].0 != key@;
                    if c < ii {
                        assert(kv[c].0 != key@);
                    }
                    if c > ii {
                        assert(kv[ii].0 != key@);
                    }
                    assert(c == ii);
                }
                return Some(&self.kv[i].1);
            }
            i = i + 1;
        }
        None
    }

    /// The string under `key`, or `d` when there is none.
    pub fn str_or(&self, key: &str, d: &str) -> (r: String)
        ensures
            r@ == (match lookup(self@.kv, key@) {
                Some(ValueView::Str(s)) => s,
                _ => d@,
            }),
    {
        match self.get(key) {
            Some(Value::Str(s)) => s.clone(),
            _ => d.to_owned(),
        }
    }

    /// The integer under `key` (see `Value::as_u64`), or `d` when there is none.
    pub fn u64_or(&self, key: &str, d: u64) -> (r: u64)
        ensures
            r == (match lookup(self@.kv, key@) {
                Some(v) => match as_u64_spec(v) {
                    Some(x) => x,
                    None => d,
                },
                None => d,
            }),
    {
        match self.get(key) {
            Some(v) => match v.as_u64() {
                Some(x) => x,
                None => d,
            },
            None => d,
        }
    }

    /// The first tensor with this name.
    pub fn tensor(&self, name: &str) -> (r: Option<&TensorInfo>)
        ensures
            match r {
                Some(t) => lookup_tensor(self@.tensors, name@) == Some(t@),
                None => lookup_tensor(self@.tensors, name@) is None,
            },
    {
        let ghost ts = self@.tensors;
        let mut i: usize = 0;
        while i < self.tensors.len()
            invariant
                i <= self.tensors@.len(),
                ts == self@.tensors,
                ts == view_tensors(self.tensors@),
                forall|j: int| 0 <= j < i ==> ts[j].name != name@,
            decreases self.tensors.len() - i,
        {
            assert(ts[i as int] == self.tensors@[i as int]@);
            if str_eq(self.tensors[i].name.as_str(), name) {
                proof {
                    let ii = i as int;
                    assert(0 <= ii < ts.len() && ts[ii].name == name@ && forall|j: int| 0 <= j < ii ==> ts[j].name != name@);
                    let c = choose|c: int|
                        0 <= c < ts.len() && #[trigger] ts[c].name == name@ && forall|j: int|
                            0 <= j < c ==> ts[j].name != name@;
                    if c < ii {
                        assert(ts[c].name != name@);
                    }
                    if c > ii {
                        assert(ts[ii].name != name@);
                    }
                    assert(c == ii);
                }
                return Some(&self.tensors[i]);
            }
            i = i + 1;
        }
        None
    }
}

} // verus!
