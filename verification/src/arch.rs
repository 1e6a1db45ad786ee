//! Architecture constants and the tensor names of the model.
use vstd::prelude::*;

verus! {

/// Hidden width.
pub const H: usize = 1024;

/// Attention heads.
pub const NH: usize = 16;

/// Width of one attention head.
pub const HD: usize = 64;

/// Encoder layers.
pub const NLAYER: usize = 28;

/// Width of one half of the gated MLP.
pub const INTER: usize = 2624;

/// Vocabulary size.
pub const NVOCAB: usize = 50368;

/// Half-width of the sliding attention window.
pub const WINDOW: i32 = 64;

/// Layers of the decision head.
pub const HEAD_LAYERS: usize = 2;

/// MLP width of the decision head.
pub const HEAD_INTER: usize = 4096;

/// Hidden width of the act head.
pub const ACT_HIDDEN: usize = 256;

/// Input width of the act head: the first token plus four features.
pub const ACT_INPUT: usize = H + 4;

/// Question types.
pub const QTYPES: usize = 3;

/// Every this many layers, a layer attends globally.
pub const GLOBAL_EVERY: usize = 3;

/// The attention scale, 0.35355338 as an `f32`, by its bit pattern.
pub const SCALE_BITS: u32 = 0x3eb5_04f3;

/// The layer-norm epsilon, 1e-5 as an `f32`, by its bit pattern.
pub const EPS_BITS: u32 = 0x3727_c5ac;

pub const TOK_EMB: &'static str = "encoder.embeddings.tok_embeddings.weight";

pub const TYPE_EMB: &'static str = "type_emb.weight";

pub const FINAL_NORM: &'static str = "encoder.final_norm.weight";

pub const ROPE_FREQ_FULL: &'static str = "rope.freq_full";

pub const ROPE_FREQ_SLIDING: &'static str = "rope.freq_sliding";

pub const SCORER_W: &'static str = "scorer.0.weight";

pub const SCORER_B: &'static str = "scorer.0.bias";

pub const SCORER_HID: &'static str = "scorer.1.weight";

pub const SCORER_HID_B: &'static str = "scorer.1.bias";

pub const SCORER_OUT: &'static str = "scorer.3.weight";

pub const SCORER_OUT_B: &'static str = "scorer.3.bias";

pub const ACT_W1: &'static str = "act_head.0.weight";

pub const ACT_B1: &'static str = "act_head.0.bias";

pub const ACT_W2: &'static str = "act_head.2.weight";

pub const ACT_B2: &'static str = "act_head.2.bias";

pub const ATTN_NORM: [&'static str; 28] = [
    "encoder.embeddings.norm.weight",
    "encoder.layers.1.attn_norm.weight",
    "encoder.layers.2.attn_norm.weight",
    "encoder.layers.3.attn_norm.weight",
    "encoder.layers.4.attn_norm.weight",
    "encoder.layers.5.attn_norm.weight",
    "encoder.layers.6.attn_norm.weight",
    "encoder.layers.7.attn_norm.weight",
    "encoder.layers.8.attn_norm.weight",
    "encoder.layers.9.attn_norm.weight",
    "encoder.layers.10.attn_norm.weight",
    "encoder.layers.11.attn_norm.weight",
    "encoder.layers.12.attn_norm.weight",
    "encoder.layers.13.attn_norm.weight",
    "encoder.layers.14.attn_norm.weight",
    "encoder.layers.15.attn_norm.weight",
    "encoder.layers.16.attn_norm.weight",
    "encoder.layers.17.attn_norm.weight",
    "encoder.layers.18.attn_norm.weight",
    "encoder.layers.19.attn_norm.weight",
    "encoder.layers.20.attn_norm.weight",
    "encoder.layers.21.attn_norm.weight",
    "encoder.layers.22.attn_norm.weight",
    "encoder.layers.23.attn_norm.weight",
    "encoder.layers.24.attn_norm.weight",
    "encoder.layers.25.attn_norm.weight",
    "encoder.layers.26.attn_norm.weight",
    "encoder.layers.27.attn_norm.weight",
];

pub const MLP_NORM: [&'static str; 28] = [
    "encoder.layers.0.mlp_norm.weight",
    "encoder.layers.1.mlp_norm.weight",
    "encoder.layers.2.mlp_norm.weight",
    "encoder.layers.3.mlp_norm.weight",
    "encoder.layers.4.mlp_norm.weight",
    "encoder.layers.5.mlp_norm.weight",
    "encoder.layers.6.mlp_norm.weight",
    "encoder.layers.7.mlp_norm.weight",
    "encoder.layers.8.mlp_norm.weight",
    "encoder.layers.9.mlp_norm.weight",
    "encoder.layers.10.mlp_norm.weight",
    "encoder.layers.11.mlp_norm.weight",
    "encoder.layers.12.mlp_norm.weight",
    "encoder.layers.13.mlp_norm.weight",
    "encoder.layers.14.mlp_norm.weight",
    "encoder.layers.15.mlp_norm.weight",
    "encoder.layers.16.mlp_norm.weight",
    "encoder.layers.17.mlp_norm.weight",
    "encoder.layers.18.mlp_norm.weight",
    "encoder.layers.19.mlp_norm.weight",
    "encoder.layers.20.mlp_norm.weight",
    "encoder.layers.21.mlp_norm.weight",
    "encoder.layers.22.mlp_norm.weight",
    "encoder.layers.23.mlp_norm.weight",
    "encoder.layers.24.mlp_norm.weight",
    "encoder.layers.25.mlp_norm.weight",
    "encoder.layers.26.mlp_norm.weight",
    "encoder.layers.27.mlp_norm.weight",
];

pub const WQKV: [&'static str; 28] = [
    "encoder.layers.0.attn.Wqkv.weight",
    "encoder.layers.1.attn.Wqkv.weight",
    "encoder.layers.2.attn.Wqkv.weight",
    "encoder.layers.3.attn.Wqkv.weight",
    "encoder.layers.4.attn.Wqkv.weight",
    "encoder.layers.5.attn.Wqkv.weight",
    "encoder.layers.6.attn.Wqkv.weight",
    "encoder.layers.7.attn.Wqkv.weight",
    "encoder.layers.8.attn.Wqkv.weight",
    "encoder.layers.9.attn.Wqkv.weight",
    "encoder.layers.10.attn.Wqkv.weight",
    "encoder.layers.11.attn.Wqkv.weight",
    "encoder.layers.12.attn.Wqkv.weight",
    "encoder.layers.13.attn.Wqkv.weight",
    "encoder.layers.14.attn.Wqkv.weight",
    "encoder.layers.15.attn.Wqkv.weight",
    "encoder.layers.16.attn.Wqkv.weight",
    "encoder.layers.17.attn.Wqkv.weight",
    "encoder.layers.18.attn.Wqkv.weight",
    "encoder.layers.19.attn.Wqkv.weight",
    "encoder.layers.20.attn.Wqkv.weight",
    "encoder.layers.21.attn.Wqkv.weight",
    "encoder.layers.22.attn.Wqkv.weight",
    "encoder.layers.23.attn.Wqkv.weight",
    "encoder.layers.24.attn.Wqkv.weight",
    "encoder.layers.25.attn.Wqkv.weight",
    "encoder.layers.26.attn.Wqkv.weight",
    "encoder.layers.27.attn.Wqkv.weight",
];

pub const WO_ATTN: [&'static str; 28] = [
    "encoder.layers.0.attn.Wo.weight",
    "encoder.layers.1.attn.Wo.weight",
    "encoder.layers.2.attn.Wo.weight",
    "encoder.layers.3.attn.Wo.weight",
    "encoder.layers.4.attn.Wo.weight",
    "encoder.layers.5.attn.Wo.weight",
    "encoder.layers.6.attn.Wo.weight",
    "encoder.layers.7.attn.Wo.weight",
    "encoder.layers.8.attn.Wo.weight",
    "encoder.layers.9.attn.Wo.weight",
    "encoder.layers.10.attn.Wo.weight",
    "encoder.layers.11.attn.Wo.weight",
    "encoder.layers.12.attn.Wo.weight",
    "encoder.layers.13.attn.Wo.weight",
    "encoder.layers.14.attn.Wo.weight",
    "encoder.layers.15.attn.Wo.weight",
    "encoder.layers.16.attn.Wo.weight",
    "encoder.layers.17.attn.Wo.weight",
    "encoder.layers.18.attn.Wo.weight",
    "encoder.layers.19.attn.Wo.weight",
    "encoder.layers.20.attn.Wo.weight",
    "encoder.layers.21.attn.Wo.weight",
    "encoder.layers.22.attn.Wo.weight",
    "encoder.layers.23.attn.Wo.weight",
    "encoder.layers.24.attn.Wo.weight",
    "encoder.layers.25.attn.Wo.weight",
    "encoder.layers.26.attn.Wo.weight",
    "encoder.layers.27.attn.Wo.weight",
];

pub const WI: [&'static str; 28] = [
    "encoder.layers.0.mlp.Wi.weight",
    "encoder.layers.1.mlp.Wi.weight",
    "encoder.layers.2.mlp.Wi.weight",
    "encoder.layers.3.mlp.Wi.weight",
    "encoder.layers.4.mlp.Wi.weight",
    "encoder.layers.5.mlp.Wi.weight",
    "encoder.layers.6.mlp.Wi.weight",
    "encoder.layers.7.mlp.Wi.weight",
    "encoder.layers.8.mlp.Wi.weight",
    "encoder.layers.9.mlp.Wi.weight",
    "encoder.layers.10.mlp.Wi.weight",
    "encoder.layers.11.mlp.Wi.weight",
    "encoder.layers.12.mlp.Wi.weight",
    "encoder.layers.13.mlp.Wi.weight",
    "encoder.layers.14.mlp.Wi.weight",
    "encoder.layers.15.mlp.Wi.weight",
    "encoder.layers.16.mlp.Wi.weight",
    "encoder.layers.17.mlp.Wi.weight",
    "encoder.layers.18.mlp.Wi.weight",
    "encoder.layers.19.mlp.Wi.weight",
    "encoder.layers.20.mlp.Wi.weight",
    "encoder.layers.21.mlp.Wi.weight",
    "encoder.layers.22.mlp.Wi.weight",
    "encoder.layers.23.mlp.Wi.weight",
    "encoder.layers.24.mlp.Wi.weight",
    "encoder.layers.25.mlp.Wi.weight",
    "encoder.layers.26.mlp.Wi.weight",
    "encoder.layers.27.mlp.Wi.weight",
];

pub const WO_MLP: [&'static str; 28] = [
    "encoder.layers.0.mlp.Wo.weight",
    "encoder.layers.1.mlp.Wo.weight",
    "encoder.layers.2.mlp.Wo.weight",
    "encoder.layers.3.mlp.Wo.weight",
    "encoder.layers.4.mlp.Wo.weight",
    "encoder.layers.5.mlp.Wo.weight",
    "encoder.layers.6.mlp.Wo.weight",
    "encoder.layers.7.mlp.Wo.weight",
    "encoder.layers.8.mlp.Wo.weight",
    "encoder.layers.9.mlp.Wo.weight",
    "encoder.layers.10.mlp.Wo.weight",
    "encoder.layers.11.mlp.Wo.weight",
    "encoder.layers.12.mlp.Wo.weight",
    "encoder.layers.13.mlp.Wo.weight",
    "encoder.layers.14.mlp.Wo.weight",
    "encoder.layers.15.mlp.Wo.weight",
    "encoder.layers.16.mlp.Wo.weight",
    "encoder.layers.17.mlp.Wo.weight",
    "encoder.layers.18.mlp.Wo.weight",
    "encoder.layers.19.mlp.Wo.weight",
    "encoder.layers.20.mlp.Wo.weight",
    "encoder.layers.21.mlp.Wo.weight",
    "encoder.layers.22.mlp.Wo.weight",
    "encoder.layers.23.mlp.Wo.weight",
    "encoder.layers.24.mlp.Wo.weight",
    "encoder.layers.25.mlp.Wo.weight",
    "encoder.layers.26.mlp.Wo.weight",
    "encoder.layers.27.mlp.Wo.weight",
];

pub const H_NORM1_W: [&'static str; 2] = [
    "head.layers.0.norm1.weight",
    "head.layers.1.norm1.weight",
];

pub const H_NORM1_B: [&'static str; 2] = [
    "head.layers.0.norm1.bias",
    "head.layers.1.norm1.bias",
];

pub const H_NORM2_W: [&'static str; 2] = [
    "head.layers.0.norm2.weight",
    "head.layers.1.norm2.weight",
];

pub const H_NORM2_B: [&'static str; 2] = [
    "head.layers.0.norm2.bias",
    "head.layers.1.norm2.bias",
];

pub const H_WQKV: [&'static str; 2] = [
    "head.layers.0.self_attn.in_proj_weight",
    "head.layers.1.self_attn.in_proj_weight",
];

pub const H_IN_BIAS: [&'static str; 2] = [
    "head.layers.0.self_attn.in_proj_bias",
    "head.layers.1.self_attn.in_proj_bias",
];

pub const H_OUT_W: [&'static str; 2] = [
    "head.layers.0.self_attn.out_proj.weight",
    "head.layers.1.self_attn.out_proj.weight",
];

pub const H_OUT_B: [&'static str; 2] = [
    "head.layers.0.self_attn.out_proj.bias",
    "head.layers.1.self_attn.out_proj.bias",
];

pub const H_LIN1_W: [&'static str; 2] = [
    "head.layers.0.linear1.weight",
    "head.layers.1.linear1.weight",
];

pub const H_LIN1_B: [&'static str; 2] = [
    "head.layers.0.linear1.bias",
    "head.layers.1.linear1.bias",
];

pub const H_LIN2_W: [&'static str; 2] = [
    "head.layers.0.linear2.weight",
    "head.layers.1.linear2.weight",
];

pub const H_LIN2_B: [&'static str; 2] = [
    "head.layers.0.linear2.bias",
    "head.layers.1.linear2.bias",
];

/// The names of one encoder layer's tensors, in load order.
pub open spec fn layer_names(i: int) -> Seq<Seq<char>> {
    seq![ATTN_NORM@[i]@, MLP_NORM@[i]@, WQKV@[i]@, WO_ATTN@[i]@, WI@[i]@, WO_MLP@[i]@]
}

/// The names of one decision-head layer's tensors, in load order.
pub open spec fn head_layer_names(i: int) -> Seq<Seq<char>> {
    seq![
        H_NORM1_W@[i]@,
        H_NORM1_B@[i]@,
        H_NORM2_W@[i]@,
        H_NORM2_B@[i]@,
        H_WQKV@[i]@,
        H_IN_BIAS@[i]@,
        H_OUT_W@[i]@,
        H_OUT_B@[i]@,
        H_LIN1_W@[i]@,
        H_LIN1_B@[i]@,
        H_LIN2_W@[i]@,
        H_LIN2_B@[i]@,
    ]
}

/// `f(0) + f(1) + ... + f(n - 1)`.
pub open spec fn concat_upto(f: spec_fn(int) -> Seq<Seq<char>>, n: nat) -> Seq<Seq<char>>
    decreases n,
{
    if n == 0 {
        Seq::empty()
    } else {
        concat_upto(f, (n - 1) as nat) + f(n - 1)
    }
}

/// The model's global tensors, in load order.
pub open spec fn global_names() -> Seq<Seq<char>> {
    seq![
        TOK_EMB@,
        TYPE_EMB@,
        FINAL_NORM@,
        ROPE_FREQ_FULL@,
        ROPE_FREQ_SLIDING@,
        SCORER_W@,
        SCORER_B@,
        SCORER_HID@,
        SCORER_HID_B@,
        SCORER_OUT@,
        SCORER_OUT_B@,
        ACT_W1@,
        ACT_B1@,
        ACT_W2@,
        ACT_B2@,
    ]
}

/// Every tensor of the model, in load order: the global ones, then each encoder layer's,
/// then each head layer's.
pub open spec fn weight_names_spec() -> Seq<Seq<char>> {
    global_names() + concat_upto(|i: int| layer_names(i), NLAYER as nat) + concat_upto(
        |i: int| head_layer_names(i),
        HEAD_LAYERS as nat,
    )
}

/// The weight matrices that are stored transposed relative to how the graph uses them.
pub open spec fn transpose_names_spec() -> Seq<Seq<char>> {
    concat_upto(|i: int| seq![WQKV@[i]@, WO_ATTN@[i]@, WI@[i]@, WO_MLP@[i]@], NLAYER as nat)
        + concat_upto(|i: int| seq![H_WQKV@[i]@, H_LIN1_W@[i]@, H_LIN2_W@[i]@], HEAD_LAYERS as nat)
        + seq![SCORER_HID@, SCORER_OUT@]
}

pub open spec fn views(v: Seq<String>) -> Seq<Seq<char>> {
    v.map_values(|s: String| s@)
}

proof fn lemma_views_push(v: Seq<String>, s: String)
    ensures
        views(v.push(s)) == views(v).push(s@),
{
    assert(views(v.push(s)) =~= views(v).push(s@));
}

fn push_str(v: &mut Vec<String>, s: &str)
    ensures
        views(final(v)@) == views(old(v)@).push(s@),
{
    let t = s.to_owned();
    proof {
        lemma_views_push(v@, t);
    }
    v.push(t);
}

/// Every tensor the model loads, in load order.
pub fn weight_names() -> (r: Vec<String>)
    ensures
        views(r@) == weight_names_spec(),
{
    let mut names: Vec<String> = Vec::new();
    assert(views(names@) =~= Seq::empty());
    push_str(&mut names, TOK_EMB);
    push_str(&mut names, TYPE_EMB);
    push_str(&mut names, FINAL_NORM);
    push_str(&mut names, ROPE_FREQ_FULL);
    push_str(&mut names, ROPE_FREQ_SLIDING);
    push_str(&mut names, SCORER_W);
    push_str(&mut names, SCORER_B);
    push_str(&mut names, SCORER_HID);
    push_str(&mut names, SCORER_HID_B);
    push_str(&mut names, SCORER_OUT);
    push_str(&mut names, SCORER_OUT_B);
    push_str(&mut names, ACT_W1);
    push_str(&mut names, ACT_B1);
    push_str(&mut names, ACT_W2);
    push_str(&mut names, ACT_B2);
    assert(views(names@) =~= global_names());
    let ghost lf = |i: int| layer_names(i);
    let mut i: usize = 0;
    while i < NLAYER
        invariant
            i <= NLAYER,
            views(names@) == global_names() + concat_upto(lf, i as nat),
            lf == (|i: int| layer_names(i)),
        decreases NLAYER - i,
    {
        let ghost before = views(names@);
        let a = ATTN_NORM;
        let b = MLP_NORM;
        let c = WQKV;
        let d = WO_ATTN;
        let e = WI;
        let f = WO_MLP;
        push_str(&mut names, a[i]);
        push_str(&mut names, b[i]);
        push_str(&mut names, c[i]);
        push_str(&mut names, d[i]);
        push_str(&mut names, e[i]);
        push_str(&mut names, f[i]);
        assert(views(names@) =~= before + layer_names(i as int));
        i = i + 1;
    }
    let ghost hf = |i: int| head_layer_names(i);
    let ghost mid = views(names@);
    let mut i: usize = 0;
    while i < HEAD_LAYERS
        invariant
            i <= HEAD_LAYERS,
            views(names@) == mid + concat_upto(hf, i as nat),
            hf == (|i: int| head_layer_names(i)),
        decreases HEAD_LAYERS - i,
    {
        let ghost before = views(names@);
        push_str(&mut names, H_NORM1_W[i]);
        push_str(&mut names, H_NORM1_B[i]);
        push_str(&mut names, H_NORM2_W[i]);
        push_str(&mut names, H_NORM2_B[i]);
        push_str(&mut names, H_WQKV[i]);
        push_str(&mut names, H_IN_BIAS[i]);
        push_str(&mut names, H_OUT_W[i]);
        push_str(&mut names, H_OUT_B[i]);
        push_str(&mut names, H_LIN1_W[i]);
        push_str(&mut names, H_LIN1_B[i]);
        push_str(&mut names, H_LIN2_W[i]);
        push_str(&mut names, H_LIN2_B[i]);
        assert(views(names@) =~= before + head_layer_names(i as int));
        i = i + 1;
    }
    names
}

/// The weight matrices stored transposed, in a fixed order.
pub fn transpose_names() -> (r: Vec<String>)
    ensures
        views(r@) == transpose_names_spec(),
{
    let mut names: Vec<String> = Vec::new();
    assert(views(names@) =~= Seq::empty());
    let ghost lf = |i: int| seq![WQKV@[i]@, WO_ATTN@[i]@, WI@[i]@, WO_MLP@[i]@];
    let mut i: usize = 0;
    while i < NLAYER
        invariant
            i <= NLAYER,
            views(names@) == concat_upto(lf, i as nat),
            lf == (|i: int| seq![WQKV@[i]@, WO_ATTN@[i]@, WI@[i]@, WO_MLP@[i]@]),
        decreases NLAYER - i,
    {
        let ghost before = views(names@);
        push_str(&mut names, WQKV[i]);
        push_str(&mut names, WO_ATTN[i]);
        push_str(&mut names, WI[i]);
        push_str(&mut names, WO_MLP[i]);
        assert(views(names@) =~= before + lf(i as int));
        i = i + 1;
    }
    let ghost hf = |i: int| seq![H_WQKV@[i]@, H_LIN1_W@[i]@, H_LIN2_W@[i]@];
    let ghost mid = views(names@);
    let mut i: usize = 0;
    while i < HEAD_LAYERS
        invariant
            i <= HEAD_LAYERS,
            views(names@) == mid + concat_upto(hf, i as nat),
            hf == (|i: int| seq![H_WQKV@[i]@, H_LIN1_W@[i]@, H_LIN2_W@[i]@]),
        decreases HEAD_LAYERS - i,
    {
        let ghost before = views(names@);
        push_str(&mut names, H_WQKV[i]);
        push_str(&mut names, H_LIN1_W[i]);
        push_str(&mut names, H_LIN2_W[i]);
        assert(views(names@) =~= before + hf(i as int));
        i = i + 1;
    }
    push_str(&mut names, SCORER_HID);
    push_str(&mut names, SCORER_OUT);
    assert(views(names@) =~= transpose_names_spec());
    names
}

/// Whether encoder layer `layer` attends globally (the others use the sliding window).
pub fn is_global_layer(layer: usize) -> (r: bool)
    ensures
        r == (layer % GLOBAL_EVERY == 0),
{
    layer % GLOBAL_EVERY == 0
}

} // verus!
