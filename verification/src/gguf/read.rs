//! Reading a GGUF file held in memory.
use super::error::GgufError;
use super::format::{
    ALIGNMENT, Header, HeaderView, MAGIC, T_BF16, T_F16, T_F32, TensorInfo, TensorInfoView, VERSION,
    align_up_spec, elem_bytes, product, sp_array, sp_check, sp_dims, sp_header, sp_kvs, sp_scalar,
    sp_str, sp_tensor, sp_tensors, sp_u16, sp_u32, sp_u64, sp_u8, sp_value, sp_values,
    supported_type, tensor_bytes, view_kv, view_tensors,
};
use super::value::{Value, ValueView, view_values};
use super::wire::{read_u16_at, read_u32_at, read_u64_at};
use vstd::prelude::*;
use vstd::utf8::{decode_utf8, valid_utf8};

verus! {

/// An exec result that agrees with the spec reader's result `s`.
pub open spec fn agrees<T>(r: Result<(T, usize), GgufError>, s: Result<(T, int), GgufError>) -> bool {
    match r {
        Ok((x, q)) => s == Ok::<_, GgufError>((x, q as int)),
        Err(e) => s == Err::<(T, int), GgufError>(e),
    }
}

/// `String::from_utf8`: the string whose UTF-8 encoding is `bytes`, or nothing where
/// `bytes` is not valid UTF-8.
#[verifier::external_body]
fn string_from_utf8(bytes: Vec<u8>) -> (r: Option<String>)
    ensures
        r is Some <==> valid_utf8(bytes@),
        r matches Some(s) ==> s@ == decode_utf8(bytes@),
{
    String::from_utf8(bytes).ok()
}

fn rd_u8(b: &[u8], p: usize) -> (r: Result<(u8, usize), GgufError>)
    requires
        p <= b@.len(),
    ensures
        agrees(r, sp_u8(b@, p as int)),
{
    if p < b.len() {
        Ok((b[p], p + 1))
    } else {
        Err(GgufError::Truncated)
    }
}

fn rd_u16(b: &[u8], p: usize) -> (r: Result<(u16, usize), GgufError>)
    requires
        p <= b@.len(),
    ensures
        agrees(r, sp_u16(b@, p as int)),
{
    if b.len() - p >= 2 {
        Ok((read_u16_at(b, p), p + 2))
    } else {
        Err(GgufError::Truncated)
    }
}

fn rd_u32(b: &[u8], p: usize) -> (r: Result<(u32, usize), GgufError>)
    requires
        p <= b@.len(),
    ensures
        agrees(r, sp_u32(b@, p as int)),
{
    if b.len() - p >= 4 {
        Ok((read_u32_at(b, p), p + 4))
    } else {
        Err(GgufError::Truncated)
    }
}

fn rd_u64(b: &[u8], p: usize) -> (r: Result<(u64, usize), GgufError>)
    requires
        p <= b@.len(),
    ensures
        agrees(r, sp_u64(b@, p as int)),
{
    if b.len() - p >= 8 {
        Ok((read_u64_at(b, p), p + 8))
    } else {
        Err(GgufError::Truncated)
    }
}

fn rd_str(b: &[u8], p: usize) -> (r: Result<(String, usize), GgufError>)
    requires
        p <= b@.len(),
    ensures
        match r {
            Ok((s, q)) => sp_str(b@, p as int) == Ok::<_, GgufError>((s@, q as int)),
            Err(e) => sp_str(b@, p as int) == Err::<(Seq<char>, int), GgufError>(e),
        },
{
    let (n, q) = match rd_u64(b, p) {
        Ok(x) => x,
        Err(e) => {
            return Err(e);
        },
    };
    if n > (b.len() - q) as u64 {
        return Err(GgufError::Truncated);
    }
    let n = n as usize;
    let mut bytes: Vec<u8> = Vec::new();
    let mut i: usize = 0;
    while i < n
        invariant
            i <= n,
            q + n <= b.len(),
            bytes@ == b@.subrange(q as int, q + i),
        decreases n - i,
    {
        bytes.push(b[q + i]);
        i = i + 1;
        assert(bytes@ == b@.subrange(q as int, q + i));
    }
    match string_from_utf8(bytes) {
        Some(s) => Ok((s, q + n)),
        None => Err(GgufError::InvalidUtf8),
    }
}

/// Once a prefix of an array's elements fails to read, so does the array.
proof fn lemma_values_err(b: Seq<u8>, p: int, et: u32, i: nat, n: nat)
    requires
        i <= n,
        sp_values(b, p, et, i) is Err,
    ensures
        sp_values(b, p, et, n) == sp_values(b, p, et, i),
    decreases n - i,
{
    if i < n {
        lemma_values_err(b, p, et, i, (n - 1) as nat);
    }
}

#[verifier::rlimit(40)]
fn rd_scalar(b: &[u8], p: usize, ty: u32) -> (r: Result<(Value, usize), GgufError>)
    requires
        p <= b@.len(),
        ty != 9,
    ensures
        match r {
            Ok((v, q)) => sp_scalar(b@, p as int, ty) == Ok::<_, GgufError>((v@, q as int)) && p < q <= b@.len(),
            Err(e) => sp_scalar(b@, p as int, ty) == Err::<(ValueView, int), GgufError>(e),
        },
{
    if ty == 0 {
        match rd_u8(b, p) {
            Ok((x, q)) => Ok((Value::U8(x), q)),
            Err(e) => Err(e),
        }
    } else if ty == 1 {
        match rd_u8(b, p) {
            Ok((x, q)) => Ok((Value::I8(x as i8), q)),
            Err(e) => Err(e),
        }
    } else if ty == 2 {
        match rd_u16(b, p) {
            Ok((x, q)) => Ok((Value::U16(x), q)),
            Err(e) => Err(e),
        }
    } else if ty == 3 {
        match rd_u16(b, p) {
            Ok((x, q)) => Ok((Value::I16(x as i16), q)),
            Err(e) => Err(e),
        }
    } else if ty == 4 {
        match rd_u32(b, p) {
            Ok((x, q)) => Ok((Value::U32(x), q)),
            Err(e) => Err(e),
        }
    } else if ty == 5 {
        match rd_u32(b, p) {
            Ok((x, q)) => Ok((Value::I32(x as i32), q)),
            Err(e) => Err(e),
        }
    } else if ty == 6 {
        match rd_u32(b, p) {
            Ok((x, q)) => Ok((Value::F32(x), q)),
            Err(e) => Err(e),
        }
    } else if ty == 7 {
        match rd_u8(b, p) {
            Ok((x, q)) => Ok((Value::Bool(x != 0), q)),
            Err(e) => Err(e),
        }
    } else if ty == 8 {
        match rd_str(b, p) {
            Ok((s, q)) => Ok((Value::Str(s), q)),
            Err(e) => Err(e),
        }
    } else if ty == 10 {
        match rd_u64(b, p) {
            Ok((x, q)) => Ok((Value::U64(x), q)),
            Err(e) => Err(e),
        }
    } else if ty == 11 {
        match rd_u64(b, p) {
            Ok((x, q)) => Ok((Value::I64(x as i64), q)),
            Err(e) => Err(e),
        }
    } else if ty == 12 {
        match rd_u64(b, p) {
            Ok((x, q)) => Ok((Value::F64(x), q)),
            Err(e) => Err(e),
        }
    } else {
        Err(GgufError::UnknownValueType)
    }
}

/// A metadata value of type `ty`.
fn rd_value(b: &[u8], p: usize, ty: u32) -> (r: Result<(Value, usize), GgufError>)
    requires
        p <= b@.len(),
    ensures
        match r {
            Ok((v, q)) => sp_value(b@, p as int, ty) == Ok::<_, GgufError>((v@, q as int)) && p < q <= b@.len(),
            Err(e) => sp_value(b@, p as int, ty) == Err::<(ValueView, int), GgufError>(e),
        },
    decreases b@.len() - p, 1nat,
{
    if ty == 9 {
        rd_array(b, p)
    } else {
        rd_scalar(b, p, ty)
    }
}

/// An array: element type, element count, then the elements.
fn rd_array(b: &[u8], p: usize) -> (r: Result<(Value, usize), GgufError>)
    requires
        p <= b@.len(),
    ensures
        match r {
            Ok((v, q)) => sp_array(b@, p as int) == Ok::<_, GgufError>((v@, q as int)) && p < q <= b@.len(),
            Err(e) => sp_array(b@, p as int) == Err::<(ValueView, int), GgufError>(e),
        },
    decreases b@.len() - p, 0nat,
{
    let (et, q1) = match rd_u32(b, p) {
        Ok(x) => x,
        Err(e) => {
            return Err(e);
        },
    };
    let (n, q2) = match rd_u64(b, q1) {
        Ok(x) => x,
        Err(e) => {
            return Err(e);
        },
    };
    if (n as u128) * 8 + 1 > (b.len() - q2) as u128 {
        return Err(GgufError::ImplausibleArray);
    }
    let mut vs: Vec<Value> = Vec::new();
    let mut pos = q2;
    let mut i: u64 = 0;
    while i < n
        invariant
            i <= n,
            q2 == p + 12,
            q2 <= pos <= b@.len(),
            p <= b@.len(),
            sp_u32(b@, p as int) == Ok::<_, GgufError>((et, q1 as int)),
            sp_u64(b@, q1 as int) == Ok::<_, GgufError>((n, q2 as int)),
            n * 8 + 1 <= b@.len() - q2,
            sp_values(b@, q2 as int, et, i as nat) == Ok::<_, GgufError>((view_values(vs@), pos as int)),
        decreases n - i,
    {
        match rd_value(b, pos, et) {
            Ok((v, q)) => {
                proof {
                    assert(vs@.push(v).subrange(0, vs@.len() as int) == vs@);
                }
                vs.push(v);
                pos = q;
            },
            Err(e) => {
                proof {
                    assert(sp_values(b@, q2 as int, et, (i + 1) as nat) == Err::<(Seq<ValueView>, int), GgufError>(e));
                    lemma_values_err(b@, q2 as int, et, (i + 1) as nat, n as nat);
                }
                return Err(e);
            },
        }
        i = i + 1;
    }
    Ok((Value::Array(vs), pos))
}

proof fn lemma_kvs_err(b: Seq<u8>, p: int, i: nat, n: nat)
    requires
        i <= n,
        sp_kvs(b, p, i) is Err,
    ensures
        sp_kvs(b, p, n) == sp_kvs(b, p, i),
    decreases n - i,
{
    if i < n {
        lemma_kvs_err(b, p, i, (n - 1) as nat);
    }
}

proof fn lemma_dims_err(b: Seq<u8>, p: int, i: nat, n: nat)
    requires
        i <= n,
        sp_dims(b, p, i) is Err,
    ensures
        sp_dims(b, p, n) == sp_dims(b, p, i),
    decreases n - i,
{
    if i < n {
        lemma_dims_err(b, p, i, (n - 1) as nat);
    }
}

proof fn lemma_tensors_err(b: Seq<u8>, p: int, i: nat, n: nat)
    requires
        i <= n,
        sp_tensors(b, p, i) is Err,
    ensures
        sp_tensors(b, p, n) == sp_tensors(b, p, i),
    decreases n - i,
{
    if i < n {
        lemma_tensors_err(b, p, i, (n - 1) as nat);
    }
}

proof fn lemma_check_err(ts: Seq<TensorInfoView>, d: int, len: int, i: int)
    requires
        0 <= i <= ts.len(),
        sp_check(ts.subrange(0, i), d, len) is Err,
    ensures
        sp_check(ts, d, len) == sp_check(ts.subrange(0, i), d, len),
    decreases ts.len() - i,
{
    if i < ts.len() {
        let t1 = ts.subrange(0, i + 1);
        assert(t1.subrange(0, i) == ts.subrange(0, i));
        lemma_check_err(ts, d, len, i + 1);
    } else {
        assert(ts.subrange(0, i) == ts);
    }
}

/// `n` metadata entries starting at `p`.
fn rd_kvs(b: &[u8], p: usize, n: u64) -> (r: Result<(Vec<(String, Value)>, usize), GgufError>)
    requires
        p <= b@.len(),
    ensures
        match r {
            Ok((kv, q)) => sp_kvs(b@, p as int, n as nat) == Ok::<_, GgufError>((view_kv(kv@), q as int)) && q <= b@.len(),
            Err(e) => sp_kvs(b@, p as int, n as nat) == Err::<(Seq<(Seq<char>, ValueView)>, int), GgufError>(e),
        },
{
    let mut kv: Vec<(String, Value)> = Vec::new();
    assert(view_kv(kv@) =~= Seq::empty());
    let mut pos = p;
    let mut i: u64 = 0;
    while i < n
        invariant
            i <= n,
            pos <= b@.len(),
            sp_kvs(b@, p as int, i as nat) == Ok::<_, GgufError>((view_kv(kv@), pos as int)),
        decreases n - i,
    {
        let (key, q1) = match rd_str(b, pos) {
            Ok(x) => x,
            Err(e) => {
                proof {
                    lemma_kvs_err(b@, p as int, (i + 1) as nat, n as nat);
                }
                return Err(e);
            },
        };
        let (ty, q2) = match rd_u32(b, q1) {
            Ok(x) => x,
            Err(e) => {
                proof {
                    lemma_kvs_err(b@, p as int, (i + 1) as nat, n as nat);
                }
                return Err(e);
            },
        };
        let (v, q3) = match rd_value(b, q2, ty) {
            Ok(x) => x,
            Err(e) => {
                proof {
                    lemma_kvs_err(b@, p as int, (i + 1) as nat, n as nat);
                }
                return Err(e);
            },
        };
        proof {
            assert(view_kv(kv@.push((key, v))) =~= view_kv(kv@).push((key@, v@)));
        }
        kv.push((key, v));
        pos = q3;
        i = i + 1;
    }
    Ok((kv, pos))
}

/// `n` dimensions starting at `p`.
fn rd_dims(b: &[u8], p: usize, n: u32) -> (r: Result<(Vec<u64>, usize), GgufError>)
    requires
        p <= b@.len(),
    ensures
        match r {
            Ok((ds, q)) => sp_dims(b@, p as int, n as nat) == Ok::<_, GgufError>((ds@, q as int)) && q <= b@.len(),
            Err(e) => sp_dims(b@, p as int, n as nat) == Err::<(Seq<u64>, int), GgufError>(e),
        },
{
    let mut ds: Vec<u64> = Vec::new();
    let mut pos = p;
    let mut i: u32 = 0;
    while i < n
        invariant
            i <= n,
            pos <= b@.len(),
            sp_dims(b@, p as int, i as nat) == Ok::<_, GgufError>((ds@, pos as int)),
        decreases n - i,
    {
        let (d, q) = match rd_u64(b, pos) {
            Ok(x) => x,
            Err(e) => {
                proof {
                    lemma_dims_err(b@, p as int, (i + 1) as nat, n as nat);
                }
                return Err(e);
            },
        };
        ds.push(d);
        pos = q;
        i = i + 1;
    }
    Ok((ds, pos))
}

/// One tensor record starting at `p`.
fn rd_tensor(b: &[u8], p: usize) -> (r: Result<(TensorInfo, usize), GgufError>)
    requires
        p <= b@.len(),
    ensures
        match r {
            Ok((t, q)) => sp_tensor(b@, p as int) == Ok::<_, GgufError>((t@, q as int)) && q <= b@.len(),
            Err(e) => sp_tensor(b@, p as int) == Err::<(TensorInfoView, int), GgufError>(e),
        },
{
    let (name, q1) = match rd_str(b, p) {
        Ok(x) => x,
        Err(e) => {
            return Err(e);
        },
    };
    let (nd, q2) = match rd_u32(b, q1) {
        Ok(x) => x,
        Err(e) => {
            return Err(e);
        },
    };
    if nd == 0 || nd > 4 {
        return Err(GgufError::BadDims);
    }
    let (dims, q3) = match rd_dims(b, q2, nd) {
        Ok(x) => x,
        Err(e) => {
            return Err(e);
        },
    };
    let (ty, q4) = match rd_u32(b, q3) {
        Ok(x) => x,
        Err(e) => {
            return Err(e);
        },
    };
    let (offset, q5) = match rd_u64(b, q4) {
        Ok(x) => x,
        Err(e) => {
            return Err(e);
        },
    };
    Ok((TensorInfo { name, dims, ty, offset }, q5))
}

/// `n` tensor records starting at `p`.
fn rd_tensors(b: &[u8], p: usize, n: u64) -> (r: Result<(Vec<TensorInfo>, usize), GgufError>)
    requires
        p <= b@.len(),
    ensures
        match r {
            Ok((ts, q)) => sp_tensors(b@, p as int, n as nat) == Ok::<_, GgufError>((view_tensors(ts@), q as int)) && q <= b@.len(),
            Err(e) => sp_tensors(b@, p as int, n as nat) == Err::<(Seq<TensorInfoView>, int), GgufError>(e),
        },
{
    let mut ts: Vec<TensorInfo> = Vec::new();
    assert(view_tensors(ts@) =~= Seq::empty());
    let mut pos = p;
    let mut i: u64 = 0;
    while i < n
        invariant
            i <= n,
            pos <= b@.len(),
            sp_tensors(b@, p as int, i as nat) == Ok::<_, GgufError>((view_tensors(ts@), pos as int)),
        decreases n - i,
    {
        let (t, q) = match rd_tensor(b, pos) {
            Ok(x) => x,
            Err(e) => {
                proof {
                    lemma_tensors_err(b@, p as int, (i + 1) as nat, n as nat);
                }
                return Err(e);
            },
        };
        proof {
            assert(view_tensors(ts@.push(t)) =~= view_tensors(ts@).push(t@));
        }
        ts.push(t);
        pos = q;
        i = i + 1;
    }
    Ok((ts, pos))
}

pub proof fn lemma_product_nonneg(dims: Seq<u64>)
    ensures
        product(dims) >= 0,
    decreases dims.len(),
{
    if dims.len() > 0 {
        let p = dims.subrange(0, dims.len() - 1);
        lemma_product_nonneg(p);
        let a = product(p);
        let d = dims[dims.len() - 1] as int;
        assert(a * d >= 0) by (nonlinear_arith)
            requires
                a >= 0,
                d >= 0,
        ;
    }
}

/// A zero dimension makes the product zero.
pub proof fn lemma_product_zero(dims: Seq<u64>, k: int)
    requires
        0 <= k < dims.len(),
        dims[k] == 0,
    ensures
        product(dims) == 0,
    decreases dims.len(),
{
    let p = dims.subrange(0, dims.len() - 1);
    if k < dims.len() - 1 {
        lemma_product_zero(p, k);
    }
}

/// With every dimension at least one, a longer prefix has at least as many elements.
pub proof fn lemma_product_mono(dims: Seq<u64>, i: int, j: int)
    requires
        0 <= i <= j <= dims.len(),
        forall|k: int| 0 <= k < dims.len() ==> dims[k] >= 1,
    ensures
        product(dims.subrange(0, i)) <= product(dims.subrange(0, j)),
    decreases j - i,
{
    if i < j {
        lemma_product_mono(dims, i, j - 1);
        let pj = dims.subrange(0, j);
        assert(pj.subrange(0, j - 1) == dims.subrange(0, j - 1));
        lemma_product_nonneg(dims.subrange(0, j - 1));
        let a = product(dims.subrange(0, j - 1));
        let d = dims[j - 1] as int;
        assert(a <= a * d) by (nonlinear_arith)
            requires
                a >= 0,
                d >= 1,
        ;
    }
}

/// Whether a tensor with these dimensions and type takes at most `room` bytes.
pub(crate) fn bytes_at_most(dims: &Vec<u64>, ty: u32, room: u128) -> (r: bool)
    requires
        room <= u64::MAX as u128 + 1,
    ensures
        r == (product(dims@) * elem_bytes(ty) <= room),
{
    let mut k: usize = 0;
    while k < dims.len()
        invariant
            k <= dims@.len(),
            forall|j: int| 0 <= j < k ==> dims@[j] >= 1,
        decreases dims.len() - k,
    {
        if dims[k] == 0 {
            proof {
                lemma_product_zero(dims@, k as int);
            }
            return true;
        }
        k = k + 1;
    }
    let eb: u128 = if ty == T_F32 { 4 } else { 2 };
    if eb > room {
        proof {
            lemma_product_mono(dims@, 0, dims@.len() as int);
            assert(dims@.subrange(0, dims@.len() as int) == dims@);
            let pr = product(dims@);
            assert(pr * eb >= eb) by (nonlinear_arith)
                requires
                    pr >= 1,
                    eb >= 0,
            ;
        }
        return false;
    }
    let mut acc: u128 = eb;
    let mut i: usize = 0;
    while i < dims.len()
        invariant
            i <= dims@.len(),
            forall|j: int| 0 <= j < dims@.len() ==> dims@[j] >= 1,
            eb == elem_bytes(ty),
            acc == product(dims@.subrange(0, i as int)) * eb,
            acc <= room,
            room <= u64::MAX as u128 + 1,
        decreases dims.len() - i,
    {
        let d = dims[i] as u128;
        assert(acc * d <= (u64::MAX as u128 + 1) * (u64::MAX as u128)) by (nonlinear_arith)
            requires
                acc <= u64::MAX as u128 + 1,
                d <= u64::MAX as u128,
        ;
        let next = acc * d;
        proof {
            let s1 = dims@.subrange(0, i + 1);
            assert(s1.subrange(0, i as int) == dims@.subrange(0, i as int));
            let pp = product(dims@.subrange(0, i as int));
            assert(next == product(s1) * eb) by (nonlinear_arith)
                requires
                    next == acc * d,
                    acc == pp * eb,
                    product(s1) == pp * d,
            ;
        }
        if next > room {
            proof {
                lemma_product_mono(dims@, i + 1, dims@.len() as int);
                assert(dims@.subrange(0, dims@.len() as int) == dims@);
                let a = product(dims@.subrange(0, i + 1));
                let f = product(dims@);
                assert(a * eb <= f * eb) by (nonlinear_arith)
                    requires
                        a <= f,
                        eb >= 0,
                ;
            }
            return false;
        }
        acc = next;
        i = i + 1;
    }
    proof {
        assert(dims@.subrange(0, dims@.len() as int) == dims@);
    }
    true
}

/// The placement checks, tensor by tensor.
fn check_tensors(ts: &Vec<TensorInfo>, data_off: u64, len: usize) -> (r: Result<(), GgufError>)
    ensures
        r == sp_check(view_tensors(ts@), data_off as int, len as int),
{
    let ghost tv = view_tensors(ts@);
    let mut i: usize = 0;
    while i < ts.len()
        invariant
            i <= ts@.len(),
            tv == view_tensors(ts@),
            tv.len() == ts@.len(),
            sp_check(tv.subrange(0, i as int), data_off as int, len as int) == Ok::<(), GgufError>(()),
        decreases ts.len() - i,
    {
        let t = &ts[i];
        let ghost sub = tv.subrange(0, i + 1);
        proof {
            assert(sub.subrange(0, i as int) == tv.subrange(0, i as int));
            assert(sub[i as int] == t@);
        }
        let bad = if t.offset % ALIGNMENT != 0 {
            Some(GgufError::UnalignedOffset)
        } else if !(t.ty == T_F32 || t.ty == T_F16 || t.ty == T_BF16) {
            Some(GgufError::UnsupportedTensorType)
        } else {
            let start = data_off as u128 + t.offset as u128;
            if start > len as u128 {
                proof {
                    lemma_product_nonneg(t.dims@);
                    let pr = product(t.dims@);
                    assert(pr * elem_bytes(t.ty) >= 0) by (nonlinear_arith)
                        requires
                            pr >= 0,
                    ;
                }
                Some(GgufError::TensorOutsideFile)
            } else if !bytes_at_most(&t.dims, t.ty, len as u128 - start) {
                Some(GgufError::TensorOutsideFile)
            } else {
                None
            }
        };
        match bad {
            Some(e) => {
                proof {
                    assert(sp_check(sub, data_off as int, len as int) == Err::<(), GgufError>(e));
                    lemma_check_err(tv, data_off as int, len as int, i + 1);
                }
                return Err(e);
            },
            None => {},
        }
        i = i + 1;
    }
    proof {
        assert(tv.subrange(0, tv.len() as int) == tv);
    }
    Ok(())
}

/// Reads a GGUF file held in memory: the metadata, the tensor table, and the start of the
/// tensor data. Refuses the file with the first problem found, in file order.
pub fn read(b: &[u8]) -> (r: Result<Header, GgufError>)
    ensures
        match r {
            Ok(h) => sp_header(b@) == Ok::<_, GgufError>(h@),
            Err(e) => sp_header(b@) == Err::<HeaderView, GgufError>(e),
        },
{
    let (magic, _) = match rd_u32(b, 0) {
        Ok(x) => x,
        Err(e) => {
            return Err(e);
        },
    };
    if magic != MAGIC {
        return Err(GgufError::BadMagic);
    }
    let (version, _) = match rd_u32(b, 4) {
        Ok(x) => x,
        Err(e) => {
            return Err(e);
        },
    };
    if version != VERSION {
        return Err(GgufError::BadVersion);
    }
    let (tc, _) = match rd_u64(b, 8) {
        Ok(x) => x,
        Err(e) => {
            return Err(e);
        },
    };
    let (kc, _) = match rd_u64(b, 16) {
        Ok(x) => x,
        Err(e) => {
            return Err(e);
        },
    };
    if (tc as u128) * 64 + (kc as u128) * 16 > b.len() as u128 {
        return Err(GgufError::ImplausibleCounts);
    }
    let (kv, p1) = match rd_kvs(b, 24, kc) {
        Ok(x) => x,
        Err(e) => {
            return Err(e);
        },
    };
    let (tensors, p2) = match rd_tensors(b, p1, tc) {
        Ok(x) => x,
        Err(e) => {
            return Err(e);
        },
    };
    let aligned: u128 = p2 as u128 + (32 - p2 as u128 % 32) % 32;
    if aligned > b.len() as u128 {
        return Err(GgufError::DataPastEnd);
    }
    let data_off = aligned as u64;
    match check_tensors(&tensors, data_off, b.len()) {
        Ok(()) => {},
        Err(e) => {
            return Err(e);
        },
    }
    Ok(Header { kv, tensors, data_off })
}

} // verus!
