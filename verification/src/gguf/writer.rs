//! Building a GGUF file.
use super::error::GgufError;
use super::format::{
    ALIGNMENT, MAGIC, T_BF16, T_F16, T_F32, VERSION, align_up_spec, elem_bytes, product,
    supported_type,
};
use super::value::{Value, ValueView, enc_str, enc_value, lemma_view_values, type_of, uniform};
use super::wire::{le32, le64, put_u32, put_u64};
use super::read::{bytes_at_most, lemma_product_nonneg};
use super::write::{put_bytes, put_string, put_value};
use crate::text::str_eq;
use vstd::prelude::*;
use vstd::utf8::{encode_utf8, is_ascii_chars};

verus! {

/// A byte allowed inside a key segment: a lower-case ASCII letter, a digit or '_'.
pub open spec fn key_byte(b: u8) -> bool {
    (97 <= b <= 122) || (48 <= b <= 57) || b == 95
}

/// The key rules, stated over the key's UTF-8 bytes: 1 to 65535 bytes, made of non-empty
/// segments of `key_byte`s separated by single dots.
pub open spec fn key_rules(k: Seq<u8>) -> bool {
    &&& 0 < k.len() <= 65535
    &&& forall|i: int| 0 <= i < k.len() ==> key_byte(#[trigger] k[i]) || k[i] == 46
    &&& k[0] != 46
    &&& k[k.len() - 1] != 46
    &&& forall|i: int| 0 <= i < k.len() - 1 ==> !(#[trigger] k[i] == 46 && k[i + 1] == 46)
}

/// Whether `k` may be used as a metadata key.
pub fn key_ok(k: &str) -> (r: bool)
    ensures
        r == key_rules(encode_utf8(k@)),
{
    let b = k.as_bytes();
    if b.len() == 0 || b.len() > 65535 {
        return false;
    }
    let mut at_start = true;
    let mut i: usize = 0;
    while i < b.len()
        invariant
            0 < b@.len() <= 65535,
            b@ == encode_utf8(k@),
            i <= b@.len(),
            at_start <==> (i == 0 || b@[i - 1] == 46),
            forall|j: int| 0 <= j < i ==> key_byte(#[trigger] b@[j]) || b@[j] == 46,
            i > 0 ==> b@[0] != 46,
            forall|j: int| 0 <= j < i - 1 ==> !(#[trigger] b@[j] == 46 && b@[j + 1] == 46),
        decreases b.len() - i,
    {
        let c = b[i];
        if c == 46 {
            if at_start {
                return false;
            }
            at_start = true;
        } else if (97 <= c && c <= 122) || (48 <= c && c <= 57) || c == 95 {
            at_start = false;
        } else {
            return false;
        }
        i = i + 1;
    }
    !at_start
}

/// A tensor name the writer accepts: 1 to 64 ASCII characters.
pub open spec fn tensor_name_ok(s: Seq<char>) -> bool {
    0 < s.len() <= 64 && is_ascii_chars(s)
}

/// Collects metadata and tensors, then lays them out as a GGUF file.
pub struct Writer {
    kv: Vec<(String, Value)>,
    tensors: Vec<(String, Vec<u64>, u32, Vec<u8>)>,
}

pub struct WriterView {
    pub kv: Seq<(Seq<char>, ValueView)>,
    pub tensors: Seq<(Seq<char>, Seq<u64>, u32, Seq<u8>)>,
}

impl View for Writer {
    type V = WriterView;

    closed spec fn view(&self) -> WriterView {
        WriterView {
            kv: self.kv@.map_values(|p: (String, Value)| (p.0@, p.1@)),
            tensors: self.tensors@.map_values(
                |t: (String, Vec<u64>, u32, Vec<u8>)| (t.0@, t.1@, t.2, t.3@),
            ),
        }
    }
}

/// A tensor entry as the writer holds it: legal name, 1 to 4 dimensions, a supported type,
/// and data whose length the shape and type imply.
pub open spec fn tensor_entry_ok(t: (Seq<char>, Seq<u64>, u32, Seq<u8>)) -> bool {
    &&& tensor_name_ok(t.0)
    &&& 1 <= t.1.len() <= 4
    &&& supported_type(t.2)
    &&& t.3.len() == product(t.1) * elem_bytes(t.2)
}

/// What every writer holds: legal keys, legal and distinct tensors.
pub open spec fn writer_wf(w: WriterView) -> bool {
    &&& forall|i: int| 0 <= i < w.kv.len() ==> key_rules(encode_utf8(#[trigger] w.kv[i].0))
    &&& forall|i: int| 0 <= i < w.tensors.len() ==> tensor_entry_ok(#[trigger] w.tensors[i])
    &&& forall|i: int, j: int|
        0 <= i < j < w.tensors.len() ==> #[trigger] w.tensors[i].0 != #[trigger] w.tensors[j].0
}

/// Why `Writer::tensor` refuses an entry, checking in order: the name, the dimension count,
/// the type, the data length, and whether the name is already taken.
pub open spec fn tensor_refusal(
    w: WriterView,
    name: Seq<char>,
    dims: Seq<u64>,
    ty: u32,
    data: Seq<u8>,
) -> Option<GgufError> {
    if !tensor_name_ok(name) {
        Some(GgufError::IllegalTensorName)
    } else if !(1 <= dims.len() <= 4) {
        Some(GgufError::BadDims)
    } else if !supported_type(ty) {
        Some(GgufError::UnsupportedTensorType)
    } else if data.len() != product(dims) * elem_bytes(ty) {
        Some(GgufError::SizeMismatch)
    } else if exists|j: int| 0 <= j < w.tensors.len() && #[trigger] w.tensors[j].0 == name {
        Some(GgufError::DuplicateTensor)
    } else {
        None
    }
}


/// The metadata section: for each entry, its key, its type tag and its value.
pub open spec fn kv_bytes(kvs: Seq<(Seq<char>, ValueView)>) -> Seq<u8>
    decreases kvs.len(),
{
    if kvs.len() == 0 {
        Seq::empty()
    } else {
        let e = kvs[kvs.len() - 1];
        kv_bytes(kvs.subrange(0, kvs.len() - 1)) + enc_str(e.0) + le32(type_of(e.1)) + enc_value(e.1)
    }
}

/// Why writing refuses this metadata: the first entry, in order, whose key was already used
/// or whose value holds an array of mixed types.
pub open spec fn kv_refusal(kvs: Seq<(Seq<char>, ValueView)>) -> Option<GgufError>
    decreases kvs.len(),
{
    if kvs.len() == 0 {
        None
    } else {
        let p = kvs.subrange(0, kvs.len() - 1);
        let e = kvs[kvs.len() - 1];
        match kv_refusal(p) {
            Some(x) => Some(x),
            None => if exists|j: int| 0 <= j < p.len() && #[trigger] p[j].0 == e.0 {
                Some(GgufError::DuplicateKey)
            } else if !uniform(e.1) {
                Some(GgufError::MixedArray)
            } else {
                None
            },
        }
    }
}

pub open spec fn dims_bytes(ds: Seq<u64>) -> Seq<u8>
    decreases ds.len(),
{
    if ds.len() == 0 {
        Seq::empty()
    } else {
        dims_bytes(ds.subrange(0, ds.len() - 1)) + le64(ds[ds.len() - 1])
    }
}

/// Where tensor `j`'s data starts, counted from the start of the data section: each
/// tensor's data is padded to the alignment.
pub open spec fn data_offset(ts: Seq<(Seq<char>, Seq<u64>, u32, Seq<u8>)>, j: nat) -> int
    decreases j,
{
    if j == 0 {
        0
    } else {
        align_up_spec(data_offset(ts, (j - 1) as nat) + ts[j - 1].3.len())
    }
}

/// The tensor table for the first `n` tensors.
pub open spec fn tinfo_bytes(ts: Seq<(Seq<char>, Seq<u64>, u32, Seq<u8>)>, n: nat) -> Seq<u8>
    decreases n,
{
    if n == 0 {
        Seq::empty()
    } else {
        let t = ts[n - 1];
        tinfo_bytes(ts, (n - 1) as nat) + enc_str(t.0) + le32(t.1.len() as u32) + dims_bytes(t.1)
            + le32(t.2) + le64(data_offset(ts, (n - 1) as nat) as u64)
    }
}

/// Everything before the data section.
#[verifier::opaque]
pub open spec fn head_bytes(w: WriterView) -> Seq<u8> {
    le32(MAGIC) + le32(VERSION) + le64(w.tensors.len() as u64) + le64(w.kv.len() as u64) + kv_bytes(w.kv)
        + tinfo_bytes(w.tensors, w.tensors.len())
}

pub open spec fn zeros(n: int) -> Seq<u8> {
    Seq::new(n as nat, |i: int| 0u8)
}

/// The data of the first `n` tensors, each padded to the alignment.
pub open spec fn data_bytes(ts: Seq<(Seq<char>, Seq<u64>, u32, Seq<u8>)>, n: nat) -> Seq<u8>
    decreases n,
{
    if n == 0 {
        Seq::empty()
    } else {
        let d = ts[n - 1].3;
        data_bytes(ts, (n - 1) as nat) + d + zeros(align_up_spec(d.len() as int) - d.len())
    }
}

/// The whole file: head, padding to the alignment, then the tensor data.
pub open spec fn file_bytes(w: WriterView) -> Seq<u8> {
    let h = head_bytes(w);
    h + zeros(align_up_spec(h.len() as int) - h.len()) + data_bytes(w.tensors, w.tensors.len())
}

/// The file fits in memory (and its offsets in a u64).
pub open spec fn file_fits(w: WriterView) -> bool {
    align_up_spec(head_bytes(w).len() as int) + data_offset(w.tensors, w.tensors.len()) <= usize::MAX
}

pub proof fn lemma_align_up(x: int)
    requires
        x >= 0,
    ensures
        align_up_spec(x) % 32 == 0,
        x <= align_up_spec(x) < x + 32,
        x % 32 == 0 ==> align_up_spec(x) == x,
{
}

/// Padding an aligned start plus a length is the start plus the padded length.
pub proof fn lemma_align_up_shift(a: int, x: int)
    requires
        a >= 0,
        x >= 0,
        a % 32 == 0,
    ensures
        align_up_spec(a + x) == a + align_up_spec(x),
{
    assert((a + x) % 32 == x % 32) by (nonlinear_arith)
        requires
            a % 32 == 0,
            a >= 0,
            x >= 0,
    ;
}

pub proof fn lemma_data_offset(ts: Seq<(Seq<char>, Seq<u64>, u32, Seq<u8>)>, i: nat, j: nat)
    requires
        i <= j <= ts.len(),
    ensures
        data_offset(ts, i) <= data_offset(ts, j),
        data_offset(ts, j) >= 0,
        data_offset(ts, j) % 32 == 0,
        data_bytes(ts, j).len() == data_offset(ts, j),
    decreases j,
{
    if j > 0 {
        if i < j {
            lemma_data_offset(ts, i, (j - 1) as nat);
        } else {
            lemma_data_offset(ts, 0, (j - 1) as nat);
        }
        let d = data_offset(ts, (j - 1) as nat);
        let n = ts[j - 1].3.len() as int;
        lemma_align_up(d + n);
        lemma_align_up(n);
        lemma_align_up_shift(d, n);
    }
}

proof fn lemma_refusal_prefix(kvs: Seq<(Seq<char>, ValueView)>, i: int)
    requires
        0 <= i <= kvs.len(),
        kv_refusal(kvs.subrange(0, i)) is Some,
    ensures
        kv_refusal(kvs) == kv_refusal(kvs.subrange(0, i)),
    decreases kvs.len() - i,
{
    if i < kvs.len() {
        assert(kvs.subrange(0, i + 1).subrange(0, i) == kvs.subrange(0, i));
        lemma_refusal_prefix(kvs, i + 1);
    } else {
        assert(kvs.subrange(0, i) == kvs);
    }
}

/// Appends one tensor record: name, dimension count, dimensions, type, data offset.
fn put_tensor_info(head: &mut Vec<u8>, name: &str, dims: &Vec<u64>, ty: u32, off: u64)
    ensures
        final(head)@ == old(head)@ + enc_str(name@) + le32(dims@.len() as u32) + dims_bytes(dims@)
            + le32(ty) + le64(off),
{
    put_string(head, name);
    put_u32(head, dims.len() as u32);
    let ghost before_dims = head@;
    let mut d: usize = 0;
    while d < dims.len()
        invariant
            d <= dims@.len(),
            head@ == before_dims + dims_bytes(dims@.subrange(0, d as int)),
        decreases dims.len() - d,
    {
        proof {
            assert(dims@.subrange(0, d + 1).subrange(0, d as int) == dims@.subrange(0, d as int));
        }
        put_u64(head, dims[d]);
        d = d + 1;
    }
    proof {
        assert(dims@.subrange(0, dims@.len() as int) == dims@);
    }
    put_u32(head, ty);
    put_u64(head, off);
}

impl Writer {
    pub fn new() -> (w: Writer)
        ensures
            w@.kv == Seq::<(Seq<char>, ValueView)>::empty(),
            w@.tensors == Seq::<(Seq<char>, Seq<u64>, u32, Seq<u8>)>::empty(),
            writer_wf(w@),
    {
        let w = Writer { kv: Vec::new(), tensors: Vec::new() };
        proof {
            assert(w@.kv =~= Seq::empty());
            assert(w@.tensors =~= Seq::empty());
        }
        w
    }

    /// Adds a metadata entry, or refuses a key that breaks the key rules.
    pub fn kv(&mut self, key: &str, v: Value) -> (r: Result<(), GgufError>)
        ensures
            r is Ok <==> key_rules(encode_utf8(key@)),
            r is Ok ==> final(self)@.kv == old(self)@.kv.push((key@, v@)),
            r is Err ==> final(self)@.kv == old(self)@.kv,
            r matches Err(e) ==> e == GgufError::IllegalKey,
            final(self)@.tensors == old(self)@.tensors,
            writer_wf(old(self)@) ==> writer_wf(final(self)@),
    {
        if !key_ok(key) {
            return Err(GgufError::IllegalKey);
        }
        let ghost before = self@;
        let k = key.to_owned();
        proof {
            assert(self.kv@.push((k, v)).map_values(|p: (String, Value)| (p.0@, p.1@))
                =~= self@.kv.push((key@, v@)));
        }
        self.kv.push((k, v));
        proof {
            assert(self@.tensors =~= before.tensors);
        }
        Ok(())
    }

    /// Adds a tensor, or refuses it (see `tensor_refusal`).
    pub fn tensor(&mut self, name: &str, dims: &[u64], ty: u32, data: Vec<u8>) -> (r: Result<(), GgufError>)
        ensures
            r == (match tensor_refusal(old(self)@, name@, dims@, ty, data@) {
                Some(e) => Err(e),
                None => Ok(()),
            }),
            r is Ok ==> final(self)@.tensors == old(self)@.tensors.push((name@, dims@, ty, data@)),
            r is Err ==> final(self)@.tensors == old(self)@.tensors,
            final(self)@.kv == old(self)@.kv,
            writer_wf(old(self)@) ==> writer_wf(final(self)@),
    {
        proof {
            if is_ascii_chars(name@) {
                vstd::utf8::is_ascii_chars_encode_utf8(name@);
            }
        }
        let nb = name.as_bytes().len();
        if name.is_empty() || nb > 64 || !name.is_ascii() {
            return Err(GgufError::IllegalTensorName);
        }
        if dims.len() == 0 || dims.len() > 4 {
            return Err(GgufError::BadDims);
        }
        if !(ty == T_F32 || ty == T_F16 || ty == T_BF16) {
            return Err(GgufError::UnsupportedTensorType);
        }
        let mut dv: Vec<u64> = Vec::new();
        let mut i: usize = 0;
        while i < dims.len()
            invariant
                i <= dims@.len(),
                dv@ == dims@.subrange(0, i as int),
            decreases dims.len() - i,
        {
            dv.push(dims[i]);
            i = i + 1;
            assert(dv@ == dims@.subrange(0, i as int));
        }
        assert(dv@ == dims@);
        let n = data.len();
        let fits = bytes_at_most(&dv, ty, n as u128);
        let exact = fits && (n == 0 || !bytes_at_most(&dv, ty, n as u128 - 1));
        if !exact {
            return Err(GgufError::SizeMismatch);
        }
        proof {
            lemma_product_nonneg(dims@);
            let pr = product(dims@);
            let eb = elem_bytes(ty);
            assert(pr * eb >= 0) by (nonlinear_arith)
                requires
                    pr >= 0,
                    eb >= 0,
            ;
        }
        let ghost tv = self@.tensors;
        let mut j: usize = 0;
        while j < self.tensors.len()
            invariant
                j <= self.tensors@.len(),
                tv == self@.tensors,
                tv.len() == self.tensors@.len(),
                forall|k: int| 0 <= k < j ==> tv[k].0 != name@,
                tensor_name_ok(name@),
                1 <= dims@.len() <= 4,
                supported_type(ty),
                data@.len() == product(dims@) * elem_bytes(ty),
            decreases self.tensors.len() - j,
        {
            assert(tv[j as int].0 == self.tensors@[j as int].0@);
            if str_eq(self.tensors[j].0.as_str(), name) {
                return Err(GgufError::DuplicateTensor);
            }
            j = j + 1;
        }
        let ghost before = self@;
        let entry = (name.to_owned(), dv, ty, data);
        proof {
            assert(self.tensors@.push(entry).map_values(
                |t: (String, Vec<u64>, u32, Vec<u8>)| (t.0@, t.1@, t.2, t.3@),
            ) =~= self@.tensors.push((name@, dims@, ty, entry.3@)));
        }
        self.tensors.push(entry);
        proof {
            assert(self@.kv =~= before.kv);
            if writer_wf(before) {
                let w = self@;
                assert forall|a: int, c: int|
                    0 <= a < c < w.tensors.len() implies #[trigger] w.tensors[a].0 != #[trigger] w.tensors[c].0 by {
                    if c == w.tensors.len() - 1 {
                        assert(w.tensors[a] == before.tensors[a]);
                    } else {
                        assert(w.tensors[a] == before.tensors[a]);
                        assert(w.tensors[c] == before.tensors[c]);
                    }
                }
                assert forall|a: int| 0 <= a < w.tensors.len() implies tensor_entry_ok(#[trigger] w.tensors[a]) by {
                    if a < w.tensors.len() - 1 {
                        assert(w.tensors[a] == before.tensors[a]);
                    }
                }
            }
        }
        Ok(())
    }

    /// Lays the file out in memory: the header, the metadata in insertion order, the tensor
    /// table, then each tensor's data, all aligned as GGUF requires. Refuses a metadata key
    /// given twice and an array whose elements do not share one type.
    #[verifier::rlimit(40)]
    pub fn write(&self) -> (r: Result<Vec<u8>, GgufError>)
        ensures
            match kv_refusal(self@.kv) {
                Some(e) => r == Err::<Vec<u8>, GgufError>(e),
                None => if file_fits(self@) {
                    r matches Ok(bytes) && bytes@ == file_bytes(self@)
                } else {
                    r == Err::<Vec<u8>, GgufError>(GgufError::TooLarge)
                },
            },
    {
        let ghost w = self@;
        let ghost kvs = w.kv;
        let ghost ts = w.tensors;
        proof {
            assert(kvs.len() == self.kv@.len());
            assert(ts.len() == self.tensors@.len());
        }
        let mut head: Vec<u8> = Vec::new();
        put_u32(&mut head, MAGIC);
        put_u32(&mut head, VERSION);
        put_u64(&mut head, self.tensors.len() as u64);
        put_u64(&mut head, self.kv.len() as u64);
        let ghost start = head@;
        let mut i: usize = 0;
        while i < self.kv.len()
            invariant
                i <= self.kv@.len(),
                w == self@,
                kvs == w.kv,
                kvs.len() == self.kv@.len(),
                forall|k: int| 0 <= k < self.kv@.len() ==> #[trigger] kvs[k] == (self.kv@[k].0@, self.kv@[k].1@),
                kv_refusal(kvs.subrange(0, i as int)) is None,
                head@ == start + kv_bytes(kvs.subrange(0, i as int)),
            decreases self.kv.len() - i,
        {
            let ghost sub = kvs.subrange(0, i + 1);
            proof {
                assert(sub.subrange(0, i as int) == kvs.subrange(0, i as int));
                assert(sub[i as int] == kvs[i as int]);
            }
            let mut j: usize = 0;
            while j < i
                invariant
                    j <= i < self.kv@.len(),
                    kvs.len() == self.kv@.len(),
                    sub == kvs.subrange(0, i + 1),
                    w == self@,
                    kvs == w.kv,
                    kv_refusal(kvs.subrange(0, i as int)) is None,
                    forall|k: int| 0 <= k < self.kv@.len() ==> #[trigger] kvs[k] == (self.kv@[k].0@, self.kv@[k].1@),
                    forall|k: int| 0 <= k < j ==> kvs[k].0 != kvs[i as int].0,
                decreases i - j,
            {
                if str_eq(self.kv[j].0.as_str(), self.kv[i].0.as_str()) {
                    proof {
                        let p = sub.subrange(0, i as int);
                        assert(p =~= kvs.subrange(0, i as int));
                        assert(p[j as int].0 == sub[i as int].0);
                        assert(exists|q: int| 0 <= q < p.len() && #[trigger] p[q].0 == sub[sub.len() - 1].0);
                        assert(kv_refusal(sub) == Some(GgufError::DuplicateKey));
                        lemma_refusal_prefix(kvs, i + 1);
                    }
                    return Err(GgufError::DuplicateKey);
                }
                j = j + 1;
            }
            proof {
                let p = sub.subrange(0, i as int);
                assert forall|k: int| 0 <= k < p.len() implies #[trigger] p[k].0 != sub[i as int].0 by {
                    assert(p[k] == kvs[k]);
                }
            }
            put_string(&mut head, self.kv[i].0.as_str());
            put_u32(&mut head, self.kv[i].1.type_id());
            match put_value(&mut head, &self.kv[i].1) {
                Ok(()) => {},
                Err(e) => {
                    proof {
                        assert(kv_refusal(sub) == Some(GgufError::MixedArray));
                        lemma_refusal_prefix(kvs, i + 1);
                    }
                    return Err(e);
                },
            }
            i = i + 1;
        }
        proof {
            assert(kvs.subrange(0, kvs.len() as int) == kvs);
        }
        let ghost mid = head@;
        proof {
            lemma_align_up(head_bytes(w).len() as int);
            lemma_data_offset(ts, 0, ts.len());
        }
        let mut off: u64 = 0;
        let mut t: usize = 0;
        while t < self.tensors.len()
            invariant
                t <= self.tensors@.len(),
                w == self@,
                ts == w.tensors,
                ts.len() == self.tensors@.len(),
                forall|k: int| 0 <= k < self.tensors@.len() ==> #[trigger] ts[k] == (self.tensors@[k].0@, self.tensors@[k].1@, self.tensors@[k].2, self.tensors@[k].3@),
                kvs == w.kv,
                kv_refusal(kvs) is None,
                off <= usize::MAX,
                off == data_offset(ts, t as nat),
                head@ == mid + tinfo_bytes(ts, t as nat),
            decreases self.tensors.len() - t,
        {
            let entry = &self.tensors[t];
            put_tensor_info(&mut head, entry.0.as_str(), &entry.1, entry.2, off);
            proof {
                lemma_data_offset(ts, (t + 1) as nat, ts.len());
                lemma_data_offset(ts, t as nat, (t + 1) as nat);
            }
            let next: u128 = (off as u128 + entry.3.len() as u128) + (32 - (off as u128 + entry.3.len() as u128) % 32) % 32;
            assert(next == data_offset(ts, (t + 1) as nat));
            if next > usize::MAX as u128 {
                proof {
                    lemma_align_up(head_bytes(w).len() as int);
                    assert(data_offset(ts, ts.len()) >= next);
                    assert(!file_fits(w));
                }
                return Err(GgufError::TooLarge);
            }
            off = next as u64;
            t = t + 1;
        }
        proof {
            reveal(head_bytes);
            assert(head@ == head_bytes(w));
            lemma_align_up(head@.len() as int);
            lemma_data_offset(ts, 0, ts.len());
        }
        proof {
            reveal(head_bytes);
        }
        let total: u128 = head.len() as u128 + (32 - head.len() as u128 % 32) % 32 + off as u128;
        if total > usize::MAX as u128 {
            return Err(GgufError::TooLarge);
        }
        let data_off: usize = head.len() + (32 - head.len() % 32) % 32;
        let mut out = head;
        while out.len() < data_off
            invariant
                out.len() <= data_off,
                out@ == head_bytes(w) + zeros(out.len() - head_bytes(w).len()),
                head_bytes(w).len() <= out.len(),
            decreases data_off - out.len(),
        {
            out.push(0u8);
            assert(out@ =~= head_bytes(w) + zeros(out.len() - head_bytes(w).len()));
        }
        let ghost base = out@;
        let mut t: usize = 0;
        while t < self.tensors.len()
            invariant
                t <= self.tensors@.len(),
                w == self@,
                ts == w.tensors,
                ts.len() == self.tensors@.len(),
                forall|k: int| 0 <= k < self.tensors@.len() ==> #[trigger] ts[k] == (self.tensors@[k].0@, self.tensors@[k].1@, self.tensors@[k].2, self.tensors@[k].3@),
                data_offset(ts, ts.len()) <= usize::MAX,
                data_off + data_offset(ts, ts.len()) <= usize::MAX,
                base.len() == data_off,
                data_off % 32 == 0,
                data_off == align_up_spec(head_bytes(w).len() as int),
                out@ == base + data_bytes(ts, t as nat),
            decreases self.tensors.len() - t,
        {
            let entry = &self.tensors[t];
            proof {
                lemma_data_offset(ts, (t + 1) as nat, ts.len());
                lemma_data_offset(ts, t as nat, (t + 1) as nat);
                lemma_data_offset(ts, 0, t as nat);
                lemma_align_up(entry.3@.len() as int);
            }
            let ghost before = out@;
            put_bytes(&mut out, entry.3.as_slice());
            let ghost mid2 = out@;
            proof {
                lemma_align_up_shift(data_off as int, data_offset(ts, t as nat) + entry.3@.len());
                lemma_align_up_shift(data_offset(ts, t as nat), entry.3@.len() as int);
                assert(out@.len() == data_off + data_offset(ts, t as nat) + entry.3@.len());
                assert(out@.len() + (32 - out@.len() % 32) % 32 == data_off + data_offset(ts, (t + 1) as nat));
            }
            let target: usize = out.len() + (32 - out.len() % 32) % 32;
            proof {
                lemma_align_up_shift(before.len() as int, entry.3@.len() as int);
            }
            while out.len() < target
                invariant
                    mid2.len() <= out.len() <= target,
                    out@ == mid2 + zeros(out.len() - mid2.len()),
                decreases target - out.len(),
            {
                out.push(0u8);
                assert(out@ =~= mid2 + zeros(out.len() - mid2.len()));
            }
            proof {
                assert(out@ =~= base + data_bytes(ts, (t + 1) as nat));
            }
            t = t + 1;
        }
        Ok(out)
    }
}

} // verus!
