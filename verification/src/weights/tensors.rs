//! The tensor table of a model file: shapes as the graph reads them, and the check that
//! every tensor the model needs is there with the pinned shape.
use super::meta::{MetaError, MetaErrorView, ModelMeta, file_type_of, float_at, has_options_text, meta_error, pinned};
use super::options::{pair_views, sorted_by_key};
use crate::arch::views;
use crate::arch::{
    ACT_INPUT, H, HEAD_LAYERS, INTER, NLAYER, NVOCAB, QTYPES, ACT_B1, ACT_B2, ACT_HIDDEN, ACT_W1, ACT_W2, ATTN_NORM, FINAL_NORM, HD, HEAD_INTER, H_IN_BIAS, H_LIN1_B,
    H_LIN1_W, H_LIN2_B, H_LIN2_W, H_NORM1_B, H_NORM1_W, H_NORM2_B, H_NORM2_W, H_OUT_B, H_OUT_W, H_WQKV, MLP_NORM,
    ROPE_FREQ_FULL, ROPE_FREQ_SLIDING, SCORER_B, SCORER_HID, SCORER_HID_B, SCORER_OUT, SCORER_OUT_B, SCORER_W,
    TOK_EMB, TYPE_EMB, WI, WO_ATTN, WO_MLP, WQKV, transpose_names, transpose_names_spec,
};
use crate::gguf::format::{Header, HeaderView, T_BF16, T_F16, T_F32, TensorInfo, TensorInfoView, elem_bytes, product, supported_type, view_tensors};
use crate::gguf::header::{lookup_tensor, tensor_type_name, type_name_spec};
use crate::gguf::read::{bytes_at_most, lemma_product_nonneg};
use crate::gguf::tensor_data::{decode_f32, decoded, law_f32_data_round_trip, le32_all};
use crate::gguf::format::sp_header;
use crate::gguf::laws::{kv_arrays_fit, law_read_after_write, law_tensor_data_read_after_write, read_back_tensors};
use crate::gguf::writer::{WriterView, file_bytes, file_fits, kv_refusal, tensor_entry_ok, writer_wf};
use vstd::slice::slice_subrange;
use crate::text::str_eq;
use vstd::prelude::*;

verus! {

/// A shape as the graph reads it: the stored GGUF dimensions, innermost first, reversed.
pub open spec fn stored_dims_spec(t: TensorInfoView) -> Seq<usize> {
    t.dims.reverse().map_values(|x: u64| x as usize)
}

/// `f(0) + f(1) + ... + f(n - 1)`.
pub open spec fn concat_shapes(f: spec_fn(int) -> Seq<(Seq<char>, Seq<usize>)>, n: nat) -> Seq<(Seq<char>, Seq<usize>)>
    decreases n,
{
    if n == 0 {
        Seq::empty()
    } else {
        concat_shapes(f, (n - 1) as nat) + f(n - 1)
    }
}

/// The shapes of the model's global tensors, in the order they are checked.
pub open spec fn global_shapes() -> Seq<(Seq<char>, Seq<usize>)> {
    let h = H;
    seq![
        (TOK_EMB@, seq![NVOCAB, h]),
        (TYPE_EMB@, seq![QTYPES, h]),
        (FINAL_NORM@, seq![h]),
        (ROPE_FREQ_FULL@, seq![HD / 2]),
        (ROPE_FREQ_SLIDING@, seq![HD / 2]),
        (SCORER_W@, seq![h]),
        (SCORER_B@, seq![h]),
        (SCORER_HID@, seq![h, h]),
        (SCORER_HID_B@, seq![h]),
        (SCORER_OUT@, seq![1usize, h]),
        (SCORER_OUT_B@, seq![1usize]),
        (ACT_W1@, seq![ACT_HIDDEN, ACT_INPUT]),
        (ACT_B1@, seq![ACT_HIDDEN]),
        (ACT_W2@, seq![2usize, ACT_HIDDEN]),
        (ACT_B2@, seq![2usize]),
    ]
}

/// The shapes of encoder layer `i`'s tensors.
pub open spec fn layer_shapes(i: int) -> Seq<(Seq<char>, Seq<usize>)> {
    let h = H;
    seq![
        (ATTN_NORM@[i]@, seq![h]),
        (MLP_NORM@[i]@, seq![h]),
        (WQKV@[i]@, seq![(3 * H) as usize, h]),
        (WO_ATTN@[i]@, seq![h, h]),
        (WI@[i]@, seq![(2 * INTER) as usize, h]),
        (WO_MLP@[i]@, seq![h, INTER]),
    ]
}

/// The shapes of decision-head layer `i`'s tensors.
pub open spec fn head_shapes(i: int) -> Seq<(Seq<char>, Seq<usize>)> {
    let h = H;
    seq![
        (H_NORM1_W@[i]@, seq![h]),
        (H_NORM1_B@[i]@, seq![h]),
        (H_NORM2_W@[i]@, seq![h]),
        (H_NORM2_B@[i]@, seq![h]),
        (H_WQKV@[i]@, seq![(3 * H) as usize, h]),
        (H_IN_BIAS@[i]@, seq![(3 * H) as usize]),
        (H_OUT_W@[i]@, seq![h, h]),
        (H_OUT_B@[i]@, seq![h]),
        (H_LIN1_W@[i]@, seq![HEAD_INTER, h]),
        (H_LIN1_B@[i]@, seq![HEAD_INTER]),
        (H_LIN2_W@[i]@, seq![h, HEAD_INTER]),
        (H_LIN2_B@[i]@, seq![h]),
    ]
}

/// Every tensor the model needs with the stored shape it must have, in checking order.
pub open spec fn expected_shapes() -> Seq<(Seq<char>, Seq<usize>)> {
    global_shapes() + concat_shapes(|i: int| layer_shapes(i), NLAYER as nat) + concat_shapes(
        |i: int| head_shapes(i),
        HEAD_LAYERS as nat,
    )
}

/// Why a tensor table does not fit the model.
pub enum TensorsError {
    Meta(MetaError),
    NoTensor(String),
    /// A tensor's stored shape and the one this build pins.
    Shape(String, Vec<usize>, Vec<usize>),
    /// A tensor whose element type this build does not decode.
    Type(String, u32),
}

pub enum TensorsErrorView {
    Meta(MetaErrorView),
    NoTensor(Seq<char>),
    Shape(Seq<char>, Seq<usize>, Seq<usize>),
    Type(Seq<char>, u32),
}

impl View for TensorsError {
    type V = TensorsErrorView;

    open spec fn view(&self) -> TensorsErrorView {
        match self {
            TensorsError::Meta(e) => TensorsErrorView::Meta(e@),
            TensorsError::NoTensor(n) => TensorsErrorView::NoTensor(n@),
            TensorsError::Shape(n, g, w) => TensorsErrorView::Shape(n@, g@, w@),
            TensorsError::Type(n, t) => TensorsErrorView::Type(n@, *t),
        }
    }
}

/// What is wrong with one expected tensor: missing, another shape, or an element type this
/// build does not decode.
#[verifier::opaque]
pub open spec fn shape_error(ts: Seq<TensorInfoView>, name: Seq<char>, want: Seq<usize>) -> Option<TensorsErrorView> {
    match lookup_tensor(ts, name) {
        None => Some(TensorsErrorView::NoTensor(name)),
        Some(t) => if stored_dims_spec(t) != want {
            Some(TensorsErrorView::Shape(name, stored_dims_spec(t), want))
        } else if !(t.ty == T_F32 || t.ty == T_F16 || t.ty == T_BF16) {
            Some(TensorsErrorView::Type(name, t.ty))
        } else {
            None
        },
    }
}

/// The first expected tensor that is wrong.
pub open spec fn first_shape_error(ts: Seq<TensorInfoView>, es: Seq<(Seq<char>, Seq<usize>)>) -> Option<TensorsErrorView>
    decreases es.len(),
{
    if es.len() == 0 {
        None
    } else {
        match shape_error(ts, es[0].0, es[0].1) {
            Some(e) => Some(e),
            None => first_shape_error(ts, es.subrange(1, es.len() as int)),
        }
    }
}

pub open spec fn shape_views(v: Seq<(String, Vec<usize>)>) -> Seq<(Seq<char>, Seq<usize>)> {
    v.map_values(|p: (String, Vec<usize>)| (p.0@, p.1@))
}

fn push_shape(v: &mut Vec<(String, Vec<usize>)>, name: &str, dims: Vec<usize>)
    ensures
        shape_views(final(v)@) == shape_views(old(v)@).push((name@, dims@)),
{
    let e = (name.to_owned(), dims);
    v.push(e);
    assert(shape_views(v@) =~= shape_views(old(v)@).push((name@, e.1@)));
}

/// `[a]`, `[a, b]` as vectors.
fn one(a: usize) -> (r: Vec<usize>)
    ensures
        r@ == seq![a],
{
    let mut r = Vec::new();
    r.push(a);
    r
}

fn two(a: usize, b: usize) -> (r: Vec<usize>)
    ensures
        r@ == seq![a, b],
{
    let mut r = Vec::new();
    r.push(a);
    r.push(b);
    r
}

/// Every tensor the model needs with its pinned stored shape, in checking order.
fn shape_table(m: &ModelMeta) -> (r: Vec<(String, Vec<usize>)>)
    requires
        pinned(*m),
    ensures
        shape_views(r@) == expected_shapes(),
{
    let h = m.hidden;
    let mut v: Vec<(String, Vec<usize>)> = Vec::new();
    assert(shape_views(v@) =~= Seq::empty());
    push_shape(&mut v, TOK_EMB, two(m.vocab, h));
    push_shape(&mut v, TYPE_EMB, two(m.question_types, h));
    push_shape(&mut v, FINAL_NORM, one(h));
    push_shape(&mut v, ROPE_FREQ_FULL, one(HD / 2));
    push_shape(&mut v, ROPE_FREQ_SLIDING, one(HD / 2));
    push_shape(&mut v, SCORER_W, one(h));
    push_shape(&mut v, SCORER_B, one(h));
    push_shape(&mut v, SCORER_HID, two(h, h));
    push_shape(&mut v, SCORER_HID_B, one(h));
    push_shape(&mut v, SCORER_OUT, two(1, h));
    push_shape(&mut v, SCORER_OUT_B, one(1));
    push_shape(&mut v, ACT_W1, two(ACT_HIDDEN, m.act_input));
    push_shape(&mut v, ACT_B1, one(ACT_HIDDEN));
    push_shape(&mut v, ACT_W2, two(2, ACT_HIDDEN));
    push_shape(&mut v, ACT_B2, one(2));
    assert(shape_views(v@) =~= global_shapes());
    let ghost lf = |i: int| layer_shapes(i);
    let mut i: usize = 0;
    while i < m.layers
        invariant
            i <= m.layers,
            pinned(*m),
            h == m.hidden,
            shape_views(v@) == global_shapes() + concat_shapes(lf, i as nat),
            lf == (|i: int| layer_shapes(i)),
        decreases m.layers - i,
    {
        let ghost before = shape_views(v@);
        push_shape(&mut v, ATTN_NORM[i], one(h));
        push_shape(&mut v, MLP_NORM[i], one(h));
        push_shape(&mut v, WQKV[i], two(3 * h, h));
        push_shape(&mut v, WO_ATTN[i], two(h, h));
        push_shape(&mut v, WI[i], two(2 * m.inter, h));
        push_shape(&mut v, WO_MLP[i], two(h, m.inter));
        assert(shape_views(v@) =~= before + layer_shapes(i as int));
        i = i + 1;
    }
    let ghost hf = |i: int| head_shapes(i);
    let ghost mid = shape_views(v@);
    let mut i: usize = 0;
    while i < m.head_layers
        invariant
            i <= m.head_layers,
            pinned(*m),
            h == m.hidden,
            shape_views(v@) == mid + concat_shapes(hf, i as nat),
            hf == (|i: int| head_shapes(i)),
        decreases m.head_layers - i,
    {
        let ghost before = shape_views(v@);
        push_shape(&mut v, H_NORM1_W[i], one(h));
        push_shape(&mut v, H_NORM1_B[i], one(h));
        push_shape(&mut v, H_NORM2_W[i], one(h));
        push_shape(&mut v, H_NORM2_B[i], one(h));
        push_shape(&mut v, H_WQKV[i], two(3 * h, h));
        push_shape(&mut v, H_IN_BIAS[i], one(3 * h));
        push_shape(&mut v, H_OUT_W[i], two(h, h));
        push_shape(&mut v, H_OUT_B[i], one(h));
        push_shape(&mut v, H_LIN1_W[i], two(HEAD_INTER, h));
        push_shape(&mut v, H_LIN1_B[i], one(HEAD_INTER));
        push_shape(&mut v, H_LIN2_W[i], two(h, HEAD_INTER));
        push_shape(&mut v, H_LIN2_B[i], one(h));
        assert(shape_views(v@) =~= before + head_shapes(i as int));
        i = i + 1;
    }
    v
}

/// The stored dimensions of a tensor, outermost first.
fn stored_dims_of(t: &TensorInfo) -> (r: Vec<usize>)
    ensures
        r@ == stored_dims_spec(t@),
{
    let mut r: Vec<usize> = Vec::new();
    let n = t.dims.len();
    let mut i: usize = 0;
    while i < n
        invariant
            i <= n == t.dims@.len(),
            r@ == t.dims@.reverse().take(i as int).map_values(|x: u64| x as usize),
        decreases n - i,
    {
        r.push(t.dims[n - 1 - i] as usize);
        i = i + 1;
        assert(r@ =~= t.dims@.reverse().take(i as int).map_values(|x: u64| x as usize));
    }
    assert(t.dims@.reverse().take(n as int) == t.dims@.reverse());
    r
}

/// A tensor's numbers as its file stores them, by bit pattern: its data, from where the
/// header places it and as long as its shape and type make it, decoded; `None` when there is
/// no such tensor, that span passes the end of the file, or the type is not one this crate
/// reads.
pub open spec fn stored_values(h: HeaderView, file: Seq<u8>, name: Seq<char>) -> Option<Seq<u32>> {
    match lookup_tensor(h.tensors, name) {
        None => None,
        Some(t) => {
            let start = h.data_off + t.offset;
            let end = start + product(t.dims) * elem_bytes(t.ty);
            if supported_type(t.ty) && end <= file.len() {
                decoded(file.subrange(start, end), t.ty)
            } else {
                None
            }
        },
    }
}

/// Reading a written model file back, a tensor's numbers as `stored_values` finds them are
/// the data the writer was given for it, decoded by its type; for F32 data made of numbers,
/// those very numbers. For files that pass the reader's plausibility checks on the tensor and
/// metadata counts and on array lengths.
pub proof fn law_values_read_after_write(w: WriterView, k: int, bits: Seq<u32>)
    requires
        writer_wf(w),
        kv_refusal(w.kv) is None,
        file_fits(w),
        w.tensors.len() * 64 + w.kv.len() * 16 <= file_bytes(w).len(),
        kv_arrays_fit(w.kv, file_bytes(w).len() - 24),
        0 <= k < w.tensors.len(),
    ensures
        sp_header(file_bytes(w)) is Ok,
        stored_values(sp_header(file_bytes(w))->Ok_0, file_bytes(w), w.tensors[k].0) == decoded(w.tensors[k].3, w.tensors[k].2),
        w.tensors[k].2 == T_F32 && w.tensors[k].3 == le32_all(bits) ==> stored_values(
            sp_header(file_bytes(w))->Ok_0,
            file_bytes(w),
            w.tensors[k].0,
        ) == Some(bits),
{
    law_read_after_write(w);
    law_tensor_data_read_after_write(w, k);
    law_f32_data_round_trip(bits);
    let b = file_bytes(w);
    let h = sp_header(b)->Ok_0;
    let ts = h.tensors;
    let name = w.tensors[k].0;
    assert(ts == read_back_tensors(w.tensors));
    assert(ts[k].name == name);
    assert(lookup_tensor(ts, name) == Some(ts[k])) by {
        let i = choose|i: int| 0 <= i < ts.len() && #[trigger] ts[i].name == name && forall|j: int| 0 <= j < i ==> ts[j].name != name;
        assert(0 <= i < ts.len() && ts[i].name == name);
        if i != k {
            if i < k {
                assert(w.tensors[i].0 != w.tensors[k].0);
            } else {
                assert(w.tensors[k].0 != w.tensors[i].0);
            }
        }
    }
    assert(tensor_entry_ok(w.tensors[k]));
}

/// A model file's tensor table with the model's hyper-parameters; `flip` lists the
/// matrices that are stored transposed.
pub struct Tensors {
    pub header: Header,
    pub meta: ModelMeta,
    pub flip: Vec<String>,
}

impl Tensors {
    pub open spec fn wf(&self) -> bool {
        views(self.flip@) == transpose_names_spec()
    }

    /// Whether a tensor is stored transposed.
    pub open spec fn flipped(&self, name: Seq<char>) -> bool {
        views(self.flip@).contains(name)
    }

    /// Checks a header's metadata and tensor table against what this build pins;
    /// `by_options` are the entries of its per-size temperature table (see
    /// `ModelMeta::from_header`).
    pub fn new(header: Header, by_options: Vec<(String, u32)>) -> (r: Result<Tensors, TensorsError>)
        ensures
            match r {
                Ok(t) => {
                    &&& t.wf()
                    &&& t.header == header
                    &&& meta_error(header@.kv) is None
                    &&& pinned(t.meta)
                    &&& t.meta.file_type == file_type_of(header@.kv)
                    &&& float_at(header@.kv, "laya.temperature.0"@) == Some(t.meta.temperature@[0])
                    &&& float_at(header@.kv, "laya.temperature.1"@) == Some(t.meta.temperature@[1])
                    &&& float_at(header@.kv, "laya.temperature.2"@) == Some(t.meta.temperature@[2])
                    &&& pair_views(t.meta.temperature_by_options@) == (if has_options_text(header@.kv) {
                        sorted_by_key(pair_views(by_options@))
                    } else {
                        Seq::empty()
                    })
                    &&& first_shape_error(header@.tensors, expected_shapes()) is None
                },
                Err(e) => match meta_error(header@.kv) {
                    Some(me) => e@ == TensorsErrorView::Meta(me),
                    None => first_shape_error(header@.tensors, expected_shapes()) == Some(e@),
                },
            },
    {
        let meta = match ModelMeta::from_header(&header, by_options) {
            Ok(m) => m,
            Err(e) => return Err(TensorsError::Meta(e)),
        };
        let table = shape_table(&meta);
        let ghost es = expected_shapes();
        let ghost ts = header@.tensors;
        assert(es.subrange(0, es.len() as int) == es);
        let mut k: usize = 0;
        while k < table.len()
            invariant
                k <= table@.len(),
                shape_views(table@) == es,
                es == expected_shapes(),
                ts == header@.tensors,
                meta_error(header@.kv) is None,
                first_shape_error(ts, es) == first_shape_error(ts, es.subrange(k as int, es.len() as int)),
            decreases table.len() - k,
        {
            let ghost rest = es.subrange(k as int, es.len() as int);
            assert(rest[0] == es[k as int]);
            assert(rest.subrange(1, rest.len() as int) == es.subrange(k + 1, es.len() as int));
            assert(es[k as int] == (table@[k as int].0@, table@[k as int].1@));
            match check_tensor(&header, &table[k].0, &table[k].1) {
                Some(e) => {
                    assert(first_shape_error(ts, rest) == Some(e@));
                    return Err(e);
                },
                None => {},
            }
            k = k + 1;
        }
        Ok(Tensors { header, meta, flip: transpose_names() })
    }
}

/// What is wrong with one expected tensor of a header.
fn check_tensor(header: &Header, name: &String, want: &Vec<usize>) -> (r: Option<TensorsError>)
    ensures
        match r {
            Some(e) => shape_error(header@.tensors, name@, want@) == Some(e@),
            None => shape_error(header@.tensors, name@, want@) is None,
        },
{
    reveal(shape_error);
    match header.tensor(name.as_str()) {
        None => Some(TensorsError::NoTensor(name.clone())),
        Some(t) => {
            let got = stored_dims_of(t);
            if !same_dims(&got, want) {
                Some(TensorsError::Shape(name.clone(), got, want.clone()))
            } else if !(t.ty == T_F32 || t.ty == T_F16 || t.ty == T_BF16) {
                Some(TensorsError::Type(name.clone(), t.ty))
            } else {
                None
            }
        },
    }
}

/// Whether two shapes are equal.
fn same_dims(a: &Vec<usize>, b: &Vec<usize>) -> (r: bool)
    ensures
        r == (a@ == b@),
{
    if a.len() != b.len() {
        return false;
    }
    let mut i: usize = 0;
    while i < a.len()
        invariant
            i <= a@.len() == b@.len(),
            forall|j: int| 0 <= j < i ==> a@[j] == b@[j],
        decreases a.len() - i,
    {
        if a[i] != b[i] {
            return false;
        }
        i = i + 1;
    }
    assert(a@ =~= b@);
    true
}


/// A shape as the graph uses it: the stored one, with the two dimensions of a matrix that
/// is stored transposed swapped.
pub open spec fn graph_dims(d: Seq<usize>, flipped: bool) -> Seq<usize> {
    if flipped && d.len() == 2 {
        seq![d[1], d[0]]
    } else {
        d
    }
}

impl Tensors {
    /// The names of all tensors, in file order.
    pub fn names(&self) -> (r: Vec<String>)
        ensures
            views(r@) == self.header@.tensors.map_values(|t: TensorInfoView| t.name),
    {
        let ghost ts = self.header@.tensors;
        let mut r: Vec<String> = Vec::new();
        let mut i: usize = 0;
        while i < self.header.tensors.len()
            invariant
                i <= self.header.tensors@.len(),
                ts == self.header@.tensors,
                ts == view_tensors(self.header.tensors@),
                views(r@) == ts.take(i as int).map_values(|t: TensorInfoView| t.name),
            decreases self.header.tensors.len() - i,
        {
            let n = self.header.tensors[i].name.clone();
            assert(ts[i as int].name == n@);
            let ghost before = r@;
            r.push(n);
            proof {
                assert(views(r@) =~= views(before).push(n@));
                assert(ts.take(i + 1).map_values(|t: TensorInfoView| t.name) =~= ts.take(i as int).map_values(
                    |t: TensorInfoView| t.name,
                ).push(ts[i as int].name));
            }
            i = i + 1;
        }
        assert(ts.take(ts.len() as int) == ts);
        r
    }

    /// The element type name of a tensor.
    pub fn dtype_name(&self, name: &str) -> (r: Option<&'static str>)
        ensures
            match lookup_tensor(self.header@.tensors, name@) {
                Some(t) => r is Some && r->0@ == type_name_spec(t.ty),
                None => r is None,
            },
    {
        match self.header.tensor(name) {
            Some(t) => Some(tensor_type_name(t.ty)),
            None => None,
        }
    }

    /// A tensor's stored shape, outermost dimension first.
    pub fn stored_dims(&self, name: &str) -> (r: Option<Vec<usize>>)
        ensures
            match lookup_tensor(self.header@.tensors, name@) {
                Some(t) => r is Some && r->0@ == stored_dims_spec(t),
                None => r is None,
            },
    {
        match self.header.tensor(name) {
            Some(t) => Some(stored_dims_of(t)),
            None => None,
        }
    }

    /// Whether a tensor is stored transposed.
    pub fn is_flipped(&self, name: &str) -> (r: bool)
        ensures
            r == self.flipped(name@),
    {
        let mut i: usize = 0;
        while i < self.flip.len()
            invariant
                i <= self.flip@.len(),
                forall|j: int| 0 <= j < i ==> views(self.flip@)[j] != name@,
            decreases self.flip.len() - i,
        {
            if str_eq(self.flip[i].as_str(), name) {
                assert(views(self.flip@)[i as int] == name@);
                return true;
            }
            i = i + 1;
        }
        false
    }

    /// A tensor's numbers, by bit pattern, in the layout the graph computes with, read from
    /// the model file's bytes: decoded from where the header places its data, and transposed
    /// when the tensor is stored so. `None` when there is no such tensor, its data lies
    /// outside the file, its type is not one this crate reads, or a transposed tensor is not
    /// a matrix of its data's size.
    pub fn values(&self, file: &[u8], name: &str) -> (r: Option<Vec<u32>>)
        ensures
            match stored_values(self.header@, file@, name@) {
                None => r is None,
                Some(s) => if !self.flipped(name@) {
                    r is Some && r->0@ == s
                } else {
                    let d = stored_dims_spec(lookup_tensor(self.header@.tensors, name@)->0);
                    if d.len() == 2 && s.len() == d[0] * d[1] {
                        &&& r is Some
                        &&& r->0@.len() == s.len()
                        &&& forall|i: int, j: int|
                            0 <= i < d[0] && 0 <= j < d[1] ==> #[trigger] cell(r->0@, j, i, d[0] as int) == cell(s, i, j, d[1] as int)
                    } else {
                        r is None
                    }
                },
            },
    {
        let t = match self.header.tensor(name) {
            Some(t) => t,
            None => return None,
        };
        if !(t.ty == T_F32 || t.ty == T_F16 || t.ty == T_BF16) {
            return None;
        }
        proof {
            lemma_product_nonneg(t.dims@);
            assert(product(t.dims@) * elem_bytes(t.ty) >= 0) by (nonlinear_arith)
                requires
                    product(t.dims@) >= 0,
                    elem_bytes(t.ty) >= 0,
            ;
        }
        let flen: usize = file.len();
        let start = match self.header.data_off.checked_add(t.offset) {
            Some(s) => s,
            None => {
                assert(flen == file@.len());
                return None;
            },
        };
        if start > flen as u64 {
            return None;
        }
        let room = flen as u64 - start;
        if !bytes_at_most(&t.dims, t.ty, room as u128) {
            return None;
        }
        let nb = t.nbytes();
        let s = start as usize;
        let e = s + nb as usize;
        let bits = match decode_f32(slice_subrange(file, s, e), t.ty) {
            Some(b) => b,
            None => return None,
        };
        if !self.is_flipped(name) {
            return Some(bits);
        }
        let d = stored_dims_of(t);
        if d.len() != 2 {
            return None;
        }
        match d[0].checked_mul(d[1]) {
            Some(n) => {
                if n != bits.len() {
                    return None;
                }
                Some(transpose(&bits, d[0], d[1]))
            },
            None => None,
        }
    }

    /// A tensor's shape as the graph uses it.
    pub fn dims(&self, name: &str) -> (r: Option<Vec<usize>>)
        ensures
            match lookup_tensor(self.header@.tensors, name@) {
                Some(t) => r is Some && r->0@ == graph_dims(stored_dims_spec(t), self.flipped(name@)),
                None => r is None,
            },
    {
        match self.stored_dims(name) {
            Some(d) => {
                if self.is_flipped(name) && d.len() == 2 {
                    let mut s: Vec<usize> = Vec::new();
                    s.push(d[1]);
                    s.push(d[0]);
                    Some(s)
                } else {
                    Some(d)
                }
            },
            None => None,
        }
    }
}

/// The element at `row`, `col` of a row-major matrix `width` wide.
pub open spec fn cell<T>(m: Seq<T>, row: int, col: int, width: int) -> T {
    m[row * width + col]
}

/// An `a` by `c` row-major matrix transposed: the element at row `i`, column `j` moves to
/// row `j`, column `i`.
pub fn transpose<T: Copy>(v: &Vec<T>, a: usize, c: usize) -> (r: Vec<T>)
    requires
        v@.len() == a * c,
    ensures
        r@.len() == a * c,
        forall|i: int, j: int| 0 <= i < a && 0 <= j < c ==> #[trigger] cell(r@, j, i, a as int) == cell(v@, i, j, c as int),
{
    let mut r: Vec<T> = Vec::new();
    let mut j: usize = 0;
    while j < c
        invariant
            j <= c,
            v.len() == a * c,
            r@.len() == j * a,
            forall|jj: int, i: int| 0 <= jj < j && 0 <= i < a ==> #[trigger] cell(r@, jj, i, a as int) == cell(v@, i, jj, c as int),
        decreases c - j,
    {
        let mut i: usize = 0;
        while i < a
            invariant
                i <= a,
                j < c,
                v.len() == a * c,
                r@.len() == j * a + i,
                forall|jj: int, ii: int| 0 <= jj < j && 0 <= ii < a ==> #[trigger] cell(r@, jj, ii, a as int) == cell(v@, ii, jj, c as int),
                forall|ii: int| 0 <= ii < i ==> #[trigger] cell(r@, j as int, ii, a as int) == cell(v@, ii, j as int, c as int),
            decreases a - i,
        {
            proof {
                assert(i * c + j < a * c) by (nonlinear_arith)
                    requires
                        i < a,
                        j < c,
                ;
            }
            let ghost before = r@;
            r.push(v[i * c + j]);
            proof {
                assert(cell(r@, j as int, i as int, a as int) == cell(v@, i as int, j as int, c as int));
                assert forall|jj: int, ii: int| 0 <= jj < j && 0 <= ii < a implies #[trigger] cell(r@, jj, ii, a as int) == cell(v@, ii, jj, c as int) by {
                    assert(jj * a + ii < j * a) by (nonlinear_arith)
                        requires
                            jj < j,
                            ii < a,
                    ;
                    assert(cell(r@, jj, ii, a as int) == cell(before, jj, ii, a as int));
                }
                assert forall|ii: int| 0 <= ii < i + 1 implies #[trigger] cell(r@, j as int, ii, a as int) == cell(v@, ii, j as int, c as int) by {
                    if ii < i {
                        assert(cell(r@, j as int, ii, a as int) == cell(before, j as int, ii, a as int));
                    }
                }
            }
            i = i + 1;
        }
        proof {
            assert((j + 1) * a == j * a + a) by (nonlinear_arith);
            assert forall|jj: int, ii: int| 0 <= jj < j + 1 && 0 <= ii < a implies #[trigger] cell(r@, jj, ii, a as int) == cell(v@, ii, jj, c as int) by {
                if jj == j {
                    assert(cell(r@, j as int, ii, a as int) == cell(v@, ii, j as int, c as int));
                }
            }
        }
        j = j + 1;
    }
    assert(c * a == a * c) by (nonlinear_arith);
    r
}

} // verus!
