//! What reading gives back of what the writer wrote.
use super::error::GgufError;
use super::format::{
    HeaderView, MAGIC, TensorInfoView, VERSION, align_up_spec, elem_bytes, product, sp_array,
    sp_check, sp_dims, sp_header, sp_kvs, sp_str, sp_tensor, sp_tensors, sp_u32, sp_u64, sp_value,
    sp_values, supported_type, tensor_bytes,
};
use super::writer::{
    WriterView, data_bytes, data_offset, dims_bytes, file_bytes, file_fits, head_bytes, kv_bytes,
    kv_refusal, lemma_align_up, lemma_data_offset, tensor_entry_ok, tinfo_bytes, writer_wf, zeros,
};
use super::value::{
    ValueView, elem_type_of, enc_str, enc_value, enc_values, lemma_uniform_all, type_of, uniform,
    uniform_all,
};
use super::wire::{le16, le32, le64, lemma_get16_le16, lemma_get32_le32, lemma_get64_le64};
use vstd::prelude::*;
use vstd::utf8::{decode_utf8, encode_utf8, encode_utf8_decode_utf8, encode_utf8_valid_utf8};

verus! {

/// Every array in `v`, at every depth, passes the reader's plausibility check when the
/// encoding of `v` starts `rem` bytes before the end of the file: eight bytes per element,
/// plus one, at most the bytes that follow the array's element type and count.
pub open spec fn arrays_fit(v: ValueView, rem: int) -> bool
    decreases v, 0nat,
{
    match v {
        ValueView::Array(a) => a.len() * 8 + 1 <= rem - 12 && arrays_fit_all(a, rem - 12),
        _ => true,
    }
}

/// The same for the elements `a` of an array whose elements start `rem` bytes before the
/// end of the file, each element after the ones before it.
pub open spec fn arrays_fit_all(a: Seq<ValueView>, rem: int) -> bool
    decreases a, a.len(),
{
    if a.len() == 0 {
        true
    } else {
        let pre = a.subrange(0, a.len() - 1);
        arrays_fit_all(pre, rem) && arrays_fit(a[a.len() - 1], rem - enc_values(pre).len())
    }
}

/// The same for the values of the metadata entries `kvs`, whose section starts `rem` bytes
/// before the end of the file: each value comes after the entries before it, its key and its
/// type tag.
pub open spec fn kv_arrays_fit(kvs: Seq<(Seq<char>, ValueView)>, rem: int) -> bool
    decreases kvs.len(),
{
    if kvs.len() == 0 {
        true
    } else {
        let pre = kvs.subrange(0, kvs.len() - 1);
        let e = kvs[kvs.len() - 1];
        kv_arrays_fit(pre, rem) && arrays_fit(e.1, rem - kv_bytes(pre).len() - enc_str(e.0).len() - 4)
    }
}

/// Splitting a window of `b` that holds `x + y`.
pub proof fn lemma_split(b: Seq<u8>, p: int, x: Seq<u8>, y: Seq<u8>)
    requires
        0 <= p,
        p + x.len() + y.len() <= b.len(),
        b.subrange(p, p + x.len() + y.len()) == x + y,
    ensures
        b.subrange(p, p + x.len()) == x,
        b.subrange(p + x.len(), p + x.len() + y.len()) == y,
{
    let w = b.subrange(p, p + x.len() + y.len());
    assert forall|i: int| 0 <= i < x.len() implies b.subrange(p, p + x.len())[i] == x[i] by {
        assert(w[i] == (x + y)[i]);
    }
    assert(b.subrange(p, p + x.len()) =~= x);
    assert forall|i: int| 0 <= i < y.len() implies b.subrange(p + x.len(), p + x.len() + y.len())[i] == y[i] by {
        assert(w[x.len() + i] == (x + y)[x.len() + i]);
    }
    assert(b.subrange(p + x.len(), p + x.len() + y.len()) =~= y);
}

/// A string reads back as written.
pub proof fn lemma_parse_str(b: Seq<u8>, p: int, s: Seq<char>)
    requires
        0 <= p,
        p + enc_str(s).len() <= b.len(),
        b.subrange(p, p + enc_str(s).len()) == enc_str(s),
        encode_utf8(s).len() <= u64::MAX,
    ensures
        sp_str(b, p) == Ok::<_, super::error::GgufError>((s, p + enc_str(s).len())),
{
    let e = encode_utf8(s);
    let n = e.len();
    lemma_split(b, p, le64(n as u64), e);
    lemma_get64_le64(b, p, n as u64);
    encode_utf8_valid_utf8(s);
    encode_utf8_decode_utf8(s);
}

/// Every value takes at least one byte; an array's elements take at least one byte each.
pub proof fn lemma_enc_len(v: ValueView)
    ensures
        enc_value(v).len() >= 1,
{
}

pub proof fn lemma_enc_values_len(a: Seq<ValueView>)
    ensures
        enc_values(a).len() >= a.len(),
    decreases a.len(),
{
    if a.len() > 0 {
        lemma_enc_values_len(a.subrange(0, a.len() - 1));
        lemma_enc_len(a[a.len() - 1]);
    }
}

/// A value reads back as written, under its own type tag.
pub proof fn lemma_parse_value(b: Seq<u8>, p: int, v: ValueView)
    requires
        0 <= p,
        p + enc_value(v).len() <= b.len(),
        b.subrange(p, p + enc_value(v).len()) == enc_value(v),
        uniform(v),
        arrays_fit(v, b.len() - p),
        b.len() <= u64::MAX,
    ensures
        sp_value(b, p, type_of(v)) == Ok::<_, super::error::GgufError>((v, p + enc_value(v).len())),
    decreases v, 0nat,
{
    let e = enc_value(v);
    assert(b[p] == b.subrange(p, p + e.len())[0]);
    match v {
        ValueView::U8(x) => {},
        ValueView::I8(x) => {
            assert((x as u8) as i8 == x) by (bit_vector);
        },
        ValueView::U16(x) => {
            lemma_get16_le16(b, p, x);
        },
        ValueView::I16(x) => {
            lemma_get16_le16(b, p, x as u16);
            assert((x as u16) as i16 == x) by (bit_vector);
        },
        ValueView::U32(x) => {
            lemma_get32_le32(b, p, x);
        },
        ValueView::I32(x) => {
            lemma_get32_le32(b, p, x as u32);
            assert((x as u32) as i32 == x) by (bit_vector);
        },
        ValueView::F32(x) => {
            lemma_get32_le32(b, p, x);
        },
        ValueView::Bool(x) => {},
        ValueView::Str(s) => {
            lemma_parse_str(b, p, s);
        },
        ValueView::Array(a) => {
            let et = elem_type_of(a);
            let rest = le64(a.len() as u64) + enc_values(a);
            assert(e == le32(et) + rest);
            lemma_split(b, p, le32(et), rest);
            lemma_split(b, p + 4, le64(a.len() as u64), enc_values(a));
            lemma_get32_le32(b, p, et);
            lemma_get64_le64(b, p + 4, a.len() as u64);
            lemma_uniform_all(a, et);
            lemma_parse_values(b, p + 12, a, et);
            assert(sp_array(b, p) == Ok::<_, super::error::GgufError>((v, p + e.len())));
        },
        ValueView::U64(x) => {
            lemma_get64_le64(b, p, x);
        },
        ValueView::I64(x) => {
            lemma_get64_le64(b, p, x as u64);
            assert((x as u64) as i64 == x) by (bit_vector);
        },
        ValueView::F64(x) => {
            lemma_get64_le64(b, p, x);
        },
    }
}

/// The elements of an array read back as written.
pub proof fn lemma_parse_values(b: Seq<u8>, p: int, a: Seq<ValueView>, et: u32)
    requires
        0 <= p,
        p + enc_values(a).len() <= b.len(),
        b.subrange(p, p + enc_values(a).len()) == enc_values(a),
        forall|i: int| 0 <= i < a.len() ==> type_of(#[trigger] a[i]) == et && uniform(a[i]),
        arrays_fit_all(a, b.len() - p),
        b.len() <= u64::MAX,
    ensures
        sp_values(b, p, et, a.len()) == Ok::<_, super::error::GgufError>((a, p + enc_values(a).len())),
    decreases a, a.len(),
{
    if a.len() > 0 {
        let pre = a.subrange(0, a.len() - 1);
        let last = a[a.len() - 1];
        lemma_split(b, p, enc_values(pre), enc_value(last));
        assert forall|i: int| 0 <= i < pre.len() implies type_of(#[trigger] pre[i]) == et && uniform(pre[i]) by {
            assert(pre[i] == a[i]);
        }
        lemma_parse_values(b, p, pre, et);
        lemma_enc_values_len(pre);
        lemma_parse_value(b, p + enc_values(pre).len(), last);
        assert(pre.push(last) == a);
    } else {
        assert(a == Seq::<ValueView>::empty());
    }
}

/// Metadata that writing accepts holds only uniform values.
pub proof fn lemma_refusal_uniform(kvs: Seq<(Seq<char>, ValueView)>)
    requires
        kv_refusal(kvs) is None,
    ensures
        forall|i: int| 0 <= i < kvs.len() ==> uniform(#[trigger] kvs[i].1),
    decreases kvs.len(),
{
    if kvs.len() > 0 {
        let pre = kvs.subrange(0, kvs.len() - 1);
        lemma_refusal_uniform(pre);
        assert forall|i: int| 0 <= i < kvs.len() implies uniform(#[trigger] kvs[i].1) by {
            if i < kvs.len() - 1 {
                assert(pre[i] == kvs[i]);
            }
        }
    }
}

/// The metadata section reads back as written.
pub proof fn lemma_parse_kvs(b: Seq<u8>, p: int, kvs: Seq<(Seq<char>, ValueView)>)
    requires
        0 <= p,
        p + kv_bytes(kvs).len() <= b.len(),
        b.subrange(p, p + kv_bytes(kvs).len()) == kv_bytes(kvs),
        forall|i: int| 0 <= i < kvs.len() ==> uniform(#[trigger] kvs[i].1),
        kv_arrays_fit(kvs, b.len() - p),
        b.len() <= u64::MAX,
    ensures
        sp_kvs(b, p, kvs.len()) == Ok::<_, GgufError>((kvs, p + kv_bytes(kvs).len())),
    decreases kvs.len(),
{
    if kvs.len() > 0 {
        let pre = kvs.subrange(0, kvs.len() - 1);
        let e = kvs[kvs.len() - 1];
        assert forall|i: int| 0 <= i < pre.len() implies uniform(#[trigger] pre[i].1) by {
            assert(pre[i] == kvs[i]);
        }
        let x = kv_bytes(pre);
        let y1 = enc_str(e.0);
        let y2 = le32(type_of(e.1));
        let y3 = enc_value(e.1);
        assert(kv_bytes(kvs) == x + (y1 + (y2 + y3)));
        lemma_split(b, p, x, y1 + (y2 + y3));
        lemma_split(b, p + x.len(), y1, y2 + y3);
        lemma_split(b, p + x.len() + y1.len(), y2, y3);
        lemma_parse_kvs(b, p, pre);
        lemma_parse_str(b, p + x.len(), e.0);
        lemma_get32_le32(b, p + x.len() + y1.len(), type_of(e.1));
        lemma_parse_value(b, p + x.len() + y1.len() + 4, e.1);
        assert(pre.push(e) == kvs);
    } else {
        assert(kvs == Seq::<(Seq<char>, ValueView)>::empty());
    }
}

pub proof fn lemma_parse_dims(b: Seq<u8>, p: int, ds: Seq<u64>)
    requires
        0 <= p,
        p + dims_bytes(ds).len() <= b.len(),
        b.subrange(p, p + dims_bytes(ds).len()) == dims_bytes(ds),
    ensures
        sp_dims(b, p, ds.len()) == Ok::<_, GgufError>((ds, p + dims_bytes(ds).len())),
    decreases ds.len(),
{
    if ds.len() > 0 {
        let pre = ds.subrange(0, ds.len() - 1);
        let d = ds[ds.len() - 1];
        lemma_split(b, p, dims_bytes(pre), le64(d));
        lemma_parse_dims(b, p, pre);
        lemma_get64_le64(b, p + dims_bytes(pre).len(), d);
        assert(pre.push(d) == ds);
    } else {
        assert(ds == Seq::<u64>::empty());
    }
}

/// What the tensor table reads back as: each tensor's name, dimensions and type, with the
/// offset the writer placed its data at.
pub open spec fn read_back_tensors(ts: Seq<(Seq<char>, Seq<u64>, u32, Seq<u8>)>) -> Seq<TensorInfoView> {
    Seq::new(
        ts.len(),
        |j: int|
            TensorInfoView {
                name: ts[j].0,
                dims: ts[j].1,
                ty: ts[j].2,
                offset: data_offset(ts, j as nat) as u64,
            },
    )
}

/// The first `n` records of the tensor table read back as written.
pub proof fn lemma_parse_tensors(b: Seq<u8>, p: int, ts: Seq<(Seq<char>, Seq<u64>, u32, Seq<u8>)>, n: nat)
    requires
        0 <= p,
        n <= ts.len(),
        p + tinfo_bytes(ts, n).len() <= b.len(),
        b.subrange(p, p + tinfo_bytes(ts, n).len()) == tinfo_bytes(ts, n),
        forall|i: int| 0 <= i < ts.len() ==> tensor_entry_ok(#[trigger] ts[i]),
        b.len() <= u64::MAX,
    ensures
        sp_tensors(b, p, n) == Ok::<_, GgufError>((read_back_tensors(ts).take(n as int), p + tinfo_bytes(ts, n).len())),
    decreases n,
{
    if n > 0 {
        let t = ts[n - 1];
        let x = tinfo_bytes(ts, (n - 1) as nat);
        let off = data_offset(ts, (n - 1) as nat) as u64;
        let y1 = enc_str(t.0);
        let y2 = le32(t.1.len() as u32);
        let y3 = dims_bytes(t.1);
        let y4 = le32(t.2);
        let y5 = le64(off);
        assert(tinfo_bytes(ts, n) == x + (y1 + (y2 + (y3 + (y4 + y5)))));
        lemma_split(b, p, x, y1 + (y2 + (y3 + (y4 + y5))));
        let q = p + x.len();
        lemma_split(b, q, y1, y2 + (y3 + (y4 + y5)));
        lemma_split(b, q + y1.len(), y2, y3 + (y4 + y5));
        lemma_split(b, q + y1.len() + 4, y3, y4 + y5);
        lemma_split(b, q + y1.len() + 4 + y3.len(), y4, y5);
        lemma_parse_tensors(b, p, ts, (n - 1) as nat);
        lemma_parse_str(b, q, t.0);
        assert(tensor_entry_ok(t));
        lemma_get32_le32(b, q + y1.len(), t.1.len() as u32);
        lemma_parse_dims(b, q + y1.len() + 4, t.1);
        lemma_get32_le32(b, q + y1.len() + 4 + y3.len(), t.2);
        lemma_get64_le64(b, q + y1.len() + 8 + y3.len(), off);
        let rb = read_back_tensors(ts);
        assert(sp_tensor(b, q) == Ok::<_, GgufError>((rb[n - 1], q + (y1 + (y2 + (y3 + (y4 + y5)))).len())));
        assert(rb.take((n - 1) as int).push(rb[n - 1]) == rb.take(n as int));
    } else {
        assert(read_back_tensors(ts).take(0) == Seq::<TensorInfoView>::empty());
    }
}

/// The tensors the writer placed pass the reader's placement checks.
#[verifier::spinoff_prover]
#[verifier::rlimit(80)]
pub proof fn lemma_check_tensors(ts: Seq<(Seq<char>, Seq<u64>, u32, Seq<u8>)>, data_off: int, len: int, k: nat)
    requires
        k <= ts.len(),
        forall|i: int| 0 <= i < ts.len() ==> tensor_entry_ok(#[trigger] ts[i]),
        data_off >= 0,
        data_off % 32 == 0,
        data_off + data_offset(ts, ts.len()) <= len,
        len <= u64::MAX,
    ensures
        sp_check(read_back_tensors(ts).take(k as int), data_off, len) == Ok::<(), GgufError>(()),
    decreases k,
{
    let rb = read_back_tensors(ts);
    let rbk = rb.take(k as int);
    if k > 0 {
        assert(rbk.subrange(0, k - 1) == rb.take((k - 1) as int));
        lemma_check_tensors(ts, data_off, len, (k - 1) as nat);
        lemma_data_offset(ts, (k - 1) as nat, k);
        lemma_data_offset(ts, k, ts.len());
        let d = data_offset(ts, (k - 1) as nat);
        let n = ts[k - 1].3.len() as int;
        lemma_align_up(d + n);
        let t = rbk[k - 1];
        assert(t == rb[k - 1]);
        assert(t.offset == d);
        let e = ts[k - 1];
        assert(tensor_entry_ok(e));
        assert(t.dims == e.1 && t.ty == e.2);
        assert(tensor_bytes(t) == n);
        assert(t.offset % 32 == 0);
        assert(supported_type(t.ty));
        assert(data_off + t.offset + tensor_bytes(t) <= len);
    } else {
        assert(rbk == Seq::<TensorInfoView>::empty());
    }
}

/// The aligned data section of a written file starts where the reader expects it.
pub open spec fn written_data_off(w: WriterView) -> int {
    align_up_spec(head_bytes(w).len() as int)
}

/// The fields of a head laid out at the start of `b`.
proof fn lemma_head_fields(b: Seq<u8>, h: Seq<u8>, nt: u64, nk: u64, kvb: Seq<u8>, tib: Seq<u8>)
    requires
        h == le32(MAGIC) + (le32(VERSION) + (le64(nt) + (le64(nk) + (kvb + tib)))),
        h.len() <= b.len(),
        b.subrange(0, h.len() as int) == h,
    ensures
        h.len() == 24 + kvb.len() + tib.len(),
        b.subrange(24, 24 + kvb.len() as int) == kvb,
        b.subrange(24 + kvb.len() as int, 24 + kvb.len() + tib.len() as int) == tib,
        sp_u32(b, 0) == Ok::<_, GgufError>((MAGIC, 4int)),
        sp_u32(b, 4) == Ok::<_, GgufError>((VERSION, 8int)),
        sp_u64(b, 8) == Ok::<_, GgufError>((nt, 16int)),
        sp_u64(b, 16) == Ok::<_, GgufError>((nk, 24int)),
{
    let a1 = le32(MAGIC);
    let a2 = le32(VERSION);
    let a3 = le64(nt);
    let a4 = le64(nk);
    lemma_split(b, 0, a1, a2 + (a3 + (a4 + (kvb + tib))));
    lemma_split(b, 4, a2, a3 + (a4 + (kvb + tib)));
    lemma_split(b, 8, a3, a4 + (kvb + tib));
    lemma_split(b, 16, a4, kvb + tib);
    lemma_split(b, 24, kvb, tib);
    lemma_get32_le32(b, 0, MAGIC);
    lemma_get32_le32(b, 4, VERSION);
    lemma_get64_le64(b, 8, nt);
    lemma_get64_le64(b, 16, nk);
}

/// Where the parts of a written file lie.
#[verifier::spinoff_prover]
#[verifier::rlimit(60)]
proof fn lemma_file_layout(w: WriterView)
    requires
        file_fits(w),
    ensures
        ({
            let b = file_bytes(w);
            let kvb = kv_bytes(w.kv);
            let tib = tinfo_bytes(w.tensors, w.tensors.len());
            &&& b.len() == written_data_off(w) + data_offset(w.tensors, w.tensors.len())
            &&& b.len() <= u64::MAX
            &&& head_bytes(w).len() == 24 + kvb.len() + tib.len()
            &&& written_data_off(w) % 32 == 0
            &&& written_data_off(w) >= head_bytes(w).len()
            &&& b.subrange(24, 24 + kvb.len() as int) == kvb
            &&& b.subrange(24 + kvb.len() as int, 24 + kvb.len() + tib.len() as int) == tib
            &&& sp_u32(b, 0) == Ok::<_, GgufError>((MAGIC, 4int))
            &&& sp_u32(b, 4) == Ok::<_, GgufError>((VERSION, 8int))
            &&& sp_u64(b, 8) == Ok::<_, GgufError>((w.tensors.len() as u64, 16int))
            &&& sp_u64(b, 16) == Ok::<_, GgufError>((w.kv.len() as u64, 24int))
        }),
{
    let b = file_bytes(w);
    let h = head_bytes(w);
    let nt = w.tensors.len();
    let ts = w.tensors;
    lemma_align_up(h.len() as int);
    lemma_data_offset(ts, 0, nt);
    let pad = zeros(align_up_spec(h.len() as int) - h.len());
    let data = data_bytes(ts, nt);
    assert(b == h + (pad + data));
    assert(b.subrange(0, b.len() as int) == b);
    lemma_split(b, 0, h, pad + data);
    assert(h == le32(MAGIC) + (le32(VERSION) + (le64(nt as u64) + (le64(w.kv.len() as u64) + (kv_bytes(w.kv) + tinfo_bytes(ts, nt)))))) by {
        reveal(head_bytes);
    }
    lemma_head_fields(b, h, nt as u64, w.kv.len() as u64, kv_bytes(w.kv), tinfo_bytes(ts, nt));
}

/// Reading back what the writer wrote gives the metadata, in order and value for value,
/// each tensor's name, dimensions and type at the aligned offset the writer gave its data,
/// and the aligned start of the data section; for files that pass the reader's plausibility
/// checks on the tensor and metadata counts and on array lengths.
pub proof fn law_read_after_write(w: WriterView)
    requires
        writer_wf(w),
        kv_refusal(w.kv) is None,
        file_fits(w),
        w.tensors.len() * 64 + w.kv.len() * 16 <= file_bytes(w).len(),
        kv_arrays_fit(w.kv, file_bytes(w).len() - 24),
    ensures
        sp_header(file_bytes(w)) == Ok::<_, GgufError>(
            HeaderView {
                kv: w.kv,
                tensors: read_back_tensors(w.tensors),
                data_off: written_data_off(w) as u64,
            },
        ),
{
    let b = file_bytes(w);
    let nt = w.tensors.len();
    let ts = w.tensors;
    let kvb = kv_bytes(w.kv);
    let tib = tinfo_bytes(ts, nt);
    lemma_file_layout(w);
    lemma_refusal_uniform(w.kv);
    lemma_parse_kvs(b, 24, w.kv);
    lemma_parse_tensors(b, 24 + kvb.len() as int, ts, nt);
    assert(read_back_tensors(ts).take(nt as int) == read_back_tensors(ts));
    lemma_check_tensors(ts, written_data_off(w), b.len() as int, nt);
    assert(align_up_spec(24 + kvb.len() + tib.len() as int) == written_data_off(w));
}


/// Each tensor's data lies in the data section at the offset the writer gave it.
proof fn lemma_data_at(ts: Seq<(Seq<char>, Seq<u64>, u32, Seq<u8>)>, n: nat, k: int)
    requires
        0 <= k < n <= ts.len(),
    ensures
        data_offset(ts, k as nat) + ts[k].3.len() <= data_offset(ts, n),
        data_bytes(ts, n).subrange(data_offset(ts, k as nat), data_offset(ts, k as nat) + ts[k].3.len()) == ts[k].3,
    decreases n,
{
    let m = (n - 1) as nat;
    lemma_data_offset(ts, 0, m);
    lemma_data_offset(ts, m, n);
    let a = data_bytes(ts, m);
    let d = ts[m as int].3;
    let z = zeros(align_up_spec(d.len() as int) - d.len());
    lemma_align_up(data_offset(ts, m) + d.len());
    lemma_align_up(d.len() as int);
    assert(data_bytes(ts, n) == a + d + z);
    if k == m {
        assert(data_bytes(ts, n).subrange(a.len() as int, (a.len() + d.len()) as int) =~= d);
    } else {
        lemma_data_at(ts, m, k);
        lemma_data_offset(ts, k as nat, m);
        lemma_data_offset(ts, 0, k as nat);
        let o = data_offset(ts, k as nat);
        let len = ts[k].3.len() as int;
        assert(0 <= o);
        assert(o + len <= data_offset(ts, m));
        assert(a.len() == data_offset(ts, m));
        let whole = data_bytes(ts, n);
        assert forall|i: int| 0 <= i < len implies #[trigger] whole.subrange(o, o + len)[i] == a.subrange(o, o + len)[i] by {
            assert(whole[o + i] == a[o + i]);
        }
        assert(whole.subrange(o, o + len) =~= a.subrange(o, o + len));
    }
}

/// Reading back a written file, each tensor's data is found where its entry in the tensor
/// table points, byte for byte as the writer was given it; for files that pass the reader's
/// plausibility checks on the tensor and metadata counts and on array lengths.
#[verifier::spinoff_prover]
#[verifier::rlimit(60)]
pub proof fn law_tensor_data_read_after_write(w: WriterView, k: int)
    requires
        writer_wf(w),
        kv_refusal(w.kv) is None,
        file_fits(w),
        w.tensors.len() * 64 + w.kv.len() * 16 <= file_bytes(w).len(),
        kv_arrays_fit(w.kv, file_bytes(w).len() - 24),
        0 <= k < w.tensors.len(),
    ensures
        ({
            let b = file_bytes(w);
            let h = sp_header(b)->Ok_0;
            let t = h.tensors[k];
            let start = h.data_off + t.offset;
            &&& sp_header(b) is Ok
            &&& t.name == w.tensors[k].0
            &&& start + w.tensors[k].3.len() <= b.len()
            &&& b.subrange(start, start + w.tensors[k].3.len()) == w.tensors[k].3
        }),
{
    law_read_after_write(w);
    lemma_file_layout(w);
    let ts = w.tensors;
    let n = ts.len();
    let b = file_bytes(w);
    let hb = head_bytes(w);
    let off = written_data_off(w);
    lemma_data_at(ts, n, k);
    lemma_data_offset(ts, k as nat, n);
    lemma_data_offset(ts, 0, k as nat);
    let pad = zeros(align_up_spec(hb.len() as int) - hb.len());
    let data = data_bytes(ts, n);
    let o = data_offset(ts, k as nat);
    let len = ts[k].3.len() as int;
    assert(b == hb + pad + data);
    assert(hb.len() + pad.len() == off);
    assert(read_back_tensors(ts)[k].offset == o);
    assert(b.subrange(off + o, off + o + len) =~= data.subrange(o, o + len));
}

} // verus!