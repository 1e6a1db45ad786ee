//! What the loader makes of the metadata that conversion writes.
use crate::arch::{ACT_INPUT, EPS_BITS, GLOBAL_EVERY, H, HD, HEAD_LAYERS, INTER, NH, NLAYER, NVOCAB, QTYPES, SCALE_BITS, WINDOW};
use crate::convert::{
    AddedToken, AgentConfig, CheckpointConfig, SpecialIds, checked_of, general_meta, ids_of, laya_meta, metadata_spec,
    missing_special, or_default, token_id_of, tokenizer_meta,
};
use crate::gguf::header::{first_key, lookup};
use crate::gguf::format::sp_header;
use crate::gguf::laws::{kv_arrays_fit, law_read_after_write};
use crate::gguf::value::ValueView;
use crate::gguf::writer::{WriterView, file_bytes, file_fits, kv_refusal, writer_wf};
use crate::weights::meta::{
    Pin, architecture_of, file_type_of, first_pin_error, float_at, meta_error, missing_temperature, pin_error,
    pin_list,
};
use vstd::prelude::*;

verus! {

/// The keys of the first entries of a converted file's metadata, in order.
pub open spec fn leading_keys() -> Seq<Seq<char>> {
    seq![
        "general.architecture"@,
        "general.name"@,
        "general.license"@,
        "general.repo_url"@,
        "general.description"@,
        "general.file_type"@,
        "general.alignment"@,
        "laya.weight_layout"@,
        "laya.hidden_size"@,
        "laya.num_layers"@,
        "laya.num_heads"@,
        "laya.head_dim"@,
        "laya.intermediate_size"@,
        "laya.vocab_size"@,
        "laya.attention_scale"@,
        "laya.layer_norm_epsilon"@,
        "laya.sliding_window"@,
        "laya.global_layer_every"@,
        "laya.head_layers"@,
        "laya.head_intermediate_size"@,
        "laya.act_hidden_size"@,
        "laya.act_input_features"@,
        "laya.question_types"@,
        "laya.rope_theta.full"@,
        "laya.rope_theta.sliding"@,
        "laya.max_len"@,
        "laya.head_max_len"@,
        "laya.max_prefixes"@,
        "laya.temperature.0"@,
        "laya.temperature.1"@,
        "laya.temperature.2"@,
    ]
}

/// The value of the entry at `i` is what a lookup of its key finds when no earlier entry has
/// that key.
proof fn lemma_lookup_at(kv: Seq<(Seq<char>, ValueView)>, i: int)
    requires
        0 <= i < kv.len(),
        forall|j: int| 0 <= j < i ==> kv[j].0 != kv[i].0,
    ensures
        lookup(kv, kv[i].0) == Some(kv[i].1),
{
    let k = kv[i].0;
    assert(exists|x: int| 0 <= x < kv.len() && #[trigger] kv[x].0 == k);
    let c = choose|x: int| 0 <= x < kv.len() && #[trigger] kv[x].0 == k && forall|j: int| 0 <= j < x ==> kv[j].0 != k;
    assert(0 <= c < kv.len() && kv[c].0 == k && forall|j: int| 0 <= j < c ==> kv[j].0 != k);
    assert(first_key(kv, k) == Some(c));
    if c < i {
        assert(kv[c].0 != k);
    } else if c > i {
        assert(kv[i].0 != k);
    }
}

proof fn lemma_no_pin_error(kv: Seq<(Seq<char>, ValueView)>, ps: Seq<(Seq<char>, Pin)>)
    requires
        forall|i: int| 0 <= i < ps.len() ==> pin_error(kv, #[trigger] ps[i].0, ps[i].1) is None,
    ensures
        first_pin_error(kv, ps) is None,
    decreases ps.len(),
{
    if ps.len() > 0 {
        let rest = ps.subrange(1, ps.len() as int);
        assert forall|i: int| 0 <= i < rest.len() implies pin_error(kv, #[trigger] rest[i].0, rest[i].1) is None by {
            assert(rest[i] == ps[i + 1]);
        }
        lemma_no_pin_error(kv, rest);
        assert(pin_error(kv, ps[0].0, ps[0].1) is None);
    }
}

/// The keys' lengths, and where same-length keys differ: enough to tell every leading key
/// from every other.
proof fn lemma_leading_keys_distinct()
    ensures
        forall|i: int, j: int| 0 <= i < j < leading_keys().len() ==> leading_keys()[i] != leading_keys()[j],
{
    reveal_strlit("general.architecture");
    reveal_strlit("general.name");
    reveal_strlit("general.license");
    reveal_strlit("general.repo_url");
    reveal_strlit("general.description");
    reveal_strlit("general.file_type");
    reveal_strlit("general.alignment");
    reveal_strlit("laya.weight_layout");
    reveal_strlit("laya.hidden_size");
    reveal_strlit("laya.num_layers");
    reveal_strlit("laya.num_heads");
    reveal_strlit("laya.head_dim");
    reveal_strlit("laya.intermediate_size");
    reveal_strlit("laya.vocab_size");
    reveal_strlit("laya.attention_scale");
    reveal_strlit("laya.layer_norm_epsilon");
    reveal_strlit("laya.sliding_window");
    reveal_strlit("laya.global_layer_every");
    reveal_strlit("laya.head_layers");
    reveal_strlit("laya.head_intermediate_size");
    reveal_strlit("laya.act_hidden_size");
    reveal_strlit("laya.act_input_features");
    reveal_strlit("laya.question_types");
    reveal_strlit("laya.rope_theta.full");
    reveal_strlit("laya.rope_theta.sliding");
    reveal_strlit("laya.max_len");
    reveal_strlit("laya.head_max_len");
    reveal_strlit("laya.max_prefixes");
    reveal_strlit("laya.temperature.0");
    reveal_strlit("laya.temperature.1");
    reveal_strlit("laya.temperature.2");
    let k = leading_keys();
    assert(k[0].len() == 20 && k[1].len() == 12 && k[2].len() == 15 && k[3].len() == 16);
    assert(k[4].len() == 19 && k[5].len() == 17 && k[6].len() == 17 && k[7].len() == 18);
    assert(k[8].len() == 16 && k[9].len() == 15 && k[10].len() == 14 && k[11].len() == 13);
    assert(k[12].len() == 22 && k[13].len() == 15 && k[14].len() == 20 && k[15].len() == 23);
    assert(k[16].len() == 19 && k[17].len() == 23 && k[18].len() == 16 && k[19].len() == 27);
    assert(k[20].len() == 20 && k[21].len() == 23 && k[22].len() == 19 && k[23].len() == 20);
    assert(k[24].len() == 23 && k[25].len() == 12 && k[26].len() == 17 && k[27].len() == 17);
    assert(k[28].len() == 18 && k[29].len() == 18 && k[30].len() == 18);
    assert(k[0][0] == 'g' && k[1][0] == 'g' && k[2][0] == 'g' && k[3][0] == 'g');
    assert(k[4][0] == 'g' && k[5][0] == 'g' && k[6][0] == 'g' && k[7][0] == 'l');
    assert(forall|i: int| 7 <= i < 31 ==> #[trigger] k[i][0] == 'l');
    assert(k[5][8] == 'f' && k[6][8] == 'a');
    assert(k[7][5] == 'w' && k[8][5] == 'h' && k[8][6] == 'i' && k[9][5] == 'n');
    assert(k[12][5] == 'i' && k[13][5] == 'v' && k[14][5] == 'a' && k[15][5] == 'l');
    assert(k[16][5] == 's' && k[17][5] == 'g' && k[18][5] == 'h' && k[18][6] == 'e');
    assert(k[20][5] == 'a' && k[21][5] == 'a' && k[21][9] == 'i' && k[20][9] == 'h');
    assert(k[22][5] == 'q' && k[23][5] == 'r' && k[24][5] == 'r' && k[26][5] == 'h' && k[27][5] == 'm');
    assert(k[14][6] == 't' && k[20][6] == 'c');
    assert(k[29][5] == 't' && k[30][5] == 't');
    assert(k[28][5] == 't' && k[28][17] == '0' && k[29][17] == '1' && k[30][17] == '2');
}

/// In a converted file's metadata, the leading keys come first, in order, and a lookup of
/// each finds its own entry.
#[verifier::spinoff_prover]
proof fn lemma_leading_lookups(
    half: bool,
    cfg: CheckpointConfig,
    a: AgentConfig,
    temps: Seq<u32>,
    tokens: Seq<Seq<char>>,
    merges: Seq<Seq<char>>,
    types: Seq<i32>,
    ids: SpecialIds,
    text: Seq<char>,
)
    requires
        temps.len() == QTYPES,
    ensures
        ({
            let kv = metadata_spec(half, checked_of(cfg), a, temps, tokens, merges, types, ids, text);
            &&& forall|i: int| 0 <= i < leading_keys().len() ==> kv[i].0 == leading_keys()[i] && #[trigger] lookup(kv, leading_keys()[i]) == Some(kv[i].1)
            &&& forall|i: int| 8 <= i < 32 ==> #[trigger] kv[i] == laya_meta(checked_of(cfg), a, temps)[i - 8]
            &&& kv[5] == general_meta(half)[5]
        }),
{
    let kv = metadata_spec(half, checked_of(cfg), a, temps, tokens, merges, types, ids, text);
    let k = leading_keys();
    lemma_leading_keys_distinct();
    assert(general_meta(half).len() == 8);
    assert(laya_meta(checked_of(cfg), a, temps).len() == 24);
    assert forall|i: int| 8 <= i < 32 implies #[trigger] kv[i] == laya_meta(checked_of(cfg), a, temps)[i - 8] by {}
    assert forall|i: int| 0 <= i < k.len() implies #[trigger] kv[i].0 == k[i] by {
        if i < 8 {
            assert(kv[i] == general_meta(half)[i]);
        } else {
            assert(kv[i] == laya_meta(checked_of(cfg), a, temps)[i - 8]);
        }
    }
    assert forall|i: int| 0 <= i < k.len() implies kv[i].0 == k[i] && #[trigger] lookup(kv, k[i]) == Some(kv[i].1) by {
        assert forall|j: int| 0 <= j < i implies kv[j].0 != kv[i].0 by {
            assert(kv[j].0 == k[j]);
            assert(kv[i].0 == k[i]);
        }
        lemma_lookup_at(kv, i);
    }
}

/// A pinned integer that a lookup finds with its pinned value.
proof fn lemma_pin_int(kv: Seq<(Seq<char>, ValueView)>, key: Seq<char>, x: u32, want: usize)
    requires
        lookup(kv, key) == Some(ValueView::U32(x)),
        x as usize == want,
    ensures
        pin_error(kv, key, Pin::Int(want)) is None,
{
    reveal(pin_error);
}

/// A pinned number that a lookup finds with its pinned bits.
proof fn lemma_pin_float(kv: Seq<(Seq<char>, ValueView)>, key: Seq<char>, want: u32)
    requires
        lookup(kv, key) == Some(ValueView::F32(want)),
    ensures
        pin_error(kv, key, Pin::Float(want)) is None,
{
    reveal(pin_error);
}

/// The entry at index `j` of the converted metadata, `j` among the architecture entries.
proof fn lemma_laya_entry(kv: Seq<(Seq<char>, ValueView)>, cfg: CheckpointConfig, a: AgentConfig, temps: Seq<u32>, j: int)
    requires
        8 <= j < 32,
        forall|i: int| 0 <= i < leading_keys().len() ==> #[trigger] lookup(kv, leading_keys()[i]) == Some(kv[i].1),
        forall|i: int| 8 <= i < 32 ==> #[trigger] kv[i] == laya_meta(checked_of(cfg), a, temps)[i - 8],
    ensures
        j < 31 ==> lookup(kv, leading_keys()[j]) == Some(laya_meta(checked_of(cfg), a, temps)[j - 8].1),
{
    if j < 31 {
        assert(lookup(kv, leading_keys()[j]) == Some(kv[j].1));
        assert(kv[j] == laya_meta(checked_of(cfg), a, temps)[j - 8]);
    }
}

/// Every pinned key of a converted file's metadata holds its pin.
#[verifier::spinoff_prover]
#[verifier::rlimit(40)]
proof fn lemma_pins_hold(kv: Seq<(Seq<char>, ValueView)>, cfg: CheckpointConfig, a: AgentConfig, temps: Seq<u32>)
    requires
        temps.len() == QTYPES,
        or_default(a.max_len, 512) as u32 == 512,
        or_default(a.head_max_len, 192) as u32 == 192,
        or_default(a.max_prefixes, 6) as u32 == 6,
        forall|i: int| 0 <= i < leading_keys().len() ==> #[trigger] lookup(kv, leading_keys()[i]) == Some(kv[i].1),
        forall|i: int| 8 <= i < 32 ==> #[trigger] kv[i] == laya_meta(checked_of(cfg), a, temps)[i - 8],
    ensures
        forall|i: int| 0 <= i < pin_list().len() ==> pin_error(kv, #[trigger] pin_list()[i].0, pin_list()[i].1) is None,
{
    let k = leading_keys();
    let lm = laya_meta(checked_of(cfg), a, temps);
    let ps = pin_list();
    assert(ps.len() == 16);
    assert forall|i: int| 0 <= i < ps.len() implies pin_error(kv, #[trigger] ps[i].0, ps[i].1) is None by {
        if i == 0 {
            lemma_laya_entry(kv, cfg, a, temps, 8);
            lemma_pin_int(kv, k[8], 1024, H);
        } else if i == 1 {
            lemma_laya_entry(kv, cfg, a, temps, 9);
            lemma_pin_int(kv, k[9], 28, NLAYER);
        } else if i == 2 {
            lemma_laya_entry(kv, cfg, a, temps, 10);
            lemma_pin_int(kv, k[10], 16, NH);
        } else if i == 3 {
            lemma_laya_entry(kv, cfg, a, temps, 11);
            assert(checked_of(cfg).hidden == 1024 && checked_of(cfg).heads == 16);
            assert(1024usize / 16usize == 64) by (nonlinear_arith);
            assert(lm[3].1 == ValueView::U32(64));
            lemma_pin_int(kv, k[11], 64, HD);
        } else if i == 4 {
            lemma_laya_entry(kv, cfg, a, temps, 12);
            lemma_pin_int(kv, k[12], 2624, INTER);
        } else if i == 5 {
            lemma_laya_entry(kv, cfg, a, temps, 13);
            lemma_pin_int(kv, k[13], 50368, NVOCAB);
        } else if i == 6 {
            lemma_laya_entry(kv, cfg, a, temps, 14);
            lemma_pin_float(kv, k[14], SCALE_BITS);
        } else if i == 7 {
            lemma_laya_entry(kv, cfg, a, temps, 15);
            lemma_pin_float(kv, k[15], EPS_BITS);
        } else if i == 8 {
            lemma_laya_entry(kv, cfg, a, temps, 16);
            lemma_pin_int(kv, k[16], 64, WINDOW as usize);
        } else if i == 9 {
            lemma_laya_entry(kv, cfg, a, temps, 17);
            lemma_pin_int(kv, k[17], 3, GLOBAL_EVERY);
        } else if i == 10 {
            lemma_laya_entry(kv, cfg, a, temps, 18);
            lemma_pin_int(kv, k[18], 2, HEAD_LAYERS);
        } else if i == 11 {
            lemma_laya_entry(kv, cfg, a, temps, 21);
            lemma_pin_int(kv, k[21], 1028, ACT_INPUT);
        } else if i == 12 {
            lemma_laya_entry(kv, cfg, a, temps, 22);
            lemma_pin_int(kv, k[22], 3, QTYPES);
        } else if i == 13 {
            lemma_laya_entry(kv, cfg, a, temps, 25);
            lemma_pin_int(kv, k[25], 512, 512);
        } else if i == 14 {
            lemma_laya_entry(kv, cfg, a, temps, 26);
            lemma_pin_int(kv, k[26], 192, 192);
        } else {
            lemma_laya_entry(kv, cfg, a, temps, 27);
            lemma_pin_int(kv, k[27], 6, 6);
        }
    }
}

/// A model file's metadata as conversion writes it passes the loader's check: it names this
/// architecture, every pinned hyper-parameter holds its pin, and the three calibration
/// temperatures are there; the loader reads back the file type and the temperatures that
/// were written. This holds where the agent configuration gives no sequence limits or the
/// pinned ones (512, 192 and 6); conversion copies other limits, which the loader refuses.
#[verifier::spinoff_prover]
#[verifier::rlimit(80)]
pub proof fn law_converted_metadata_loads(
    half: bool,
    cfg: CheckpointConfig,
    a: AgentConfig,
    temps: Seq<u32>,
    tokens: Seq<Seq<char>>,
    merges: Seq<Seq<char>>,
    types: Seq<i32>,
    ids: SpecialIds,
    text: Seq<char>,
)
    requires
        temps.len() == QTYPES,
        or_default(a.max_len, 512) as u32 == 512,
        or_default(a.head_max_len, 192) as u32 == 192,
        or_default(a.max_prefixes, 6) as u32 == 6,
    ensures
        ({
            let kv = metadata_spec(half, checked_of(cfg), a, temps, tokens, merges, types, ids, text);
            &&& meta_error(kv) is None
            &&& file_type_of(kv) == (if half { 1u32 } else { 0u32 })
            &&& float_at(kv, "laya.temperature.0"@) == Some(temps[0])
            &&& float_at(kv, "laya.temperature.1"@) == Some(temps[1])
            &&& float_at(kv, "laya.temperature.2"@) == Some(temps[2])
        }),
{
    let kv = metadata_spec(half, checked_of(cfg), a, temps, tokens, merges, types, ids, text);
    let k = leading_keys();
    lemma_leading_lookups(half, cfg, a, temps, tokens, merges, types, ids, text);
    lemma_pins_hold(kv, cfg, a, temps);
    lemma_no_pin_error(kv, pin_list());
    assert(lookup(kv, k[0]) == Some(kv[0].1));
    assert(architecture_of(kv) == "laya"@) by {
        reveal(architecture_of);
    }
    assert(lookup(kv, k[5]) == Some(kv[5].1));
    lemma_laya_entry(kv, cfg, a, temps, 28);
    lemma_laya_entry(kv, cfg, a, temps, 29);
    lemma_laya_entry(kv, cfg, a, temps, 30);
    assert(float_at(kv, "laya.temperature.0"@) == Some(temps[0])) by {
        reveal(float_at);
    }
    assert(float_at(kv, "laya.temperature.1"@) == Some(temps[1])) by {
        reveal(float_at);
    }
    assert(float_at(kv, "laya.temperature.2"@) == Some(temps[2])) by {
        reveal(float_at);
    }
}

/// A model file that conversion builds reads back, once written, with metadata the loader
/// accepts, and with the file type and calibration temperatures that conversion wrote; for
/// files that pass the reader's plausibility checks, and agent configurations that give no
/// sequence limits or the pinned ones.
pub proof fn law_converted_file_loads(
    w: WriterView,
    half: bool,
    cfg: CheckpointConfig,
    a: AgentConfig,
    temps: Seq<u32>,
    tokens: Seq<Seq<char>>,
    merges: Seq<Seq<char>>,
    types: Seq<i32>,
    ids: SpecialIds,
    text: Seq<char>,
)
    requires
        writer_wf(w),
        kv_refusal(w.kv) is None,
        file_fits(w),
        w.tensors.len() * 64 + w.kv.len() * 16 <= file_bytes(w).len(),
        kv_arrays_fit(w.kv, file_bytes(w).len() - 24),
        w.kv == metadata_spec(half, checked_of(cfg), a, temps, tokens, merges, types, ids, text),
        temps.len() == QTYPES,
        or_default(a.max_len, 512) as u32 == 512,
        or_default(a.head_max_len, 192) as u32 == 192,
        or_default(a.max_prefixes, 6) as u32 == 6,
    ensures
        sp_header(file_bytes(w)) is Ok,
        ({
            let kv = sp_header(file_bytes(w))->Ok_0.kv;
            &&& meta_error(kv) is None
            &&& file_type_of(kv) == (if half { 1u32 } else { 0u32 })
            &&& float_at(kv, "laya.temperature.0"@) == Some(temps[0])
            &&& float_at(kv, "laya.temperature.1"@) == Some(temps[1])
            &&& float_at(kv, "laya.temperature.2"@) == Some(temps[2])
        }),
{
    law_read_after_write(w);
    law_converted_metadata_loads(half, cfg, a, temps, tokens, merges, types, ids, text);
}


/// Every leading key starts with "g" or "l" (for "general." or "laya.").
proof fn lemma_leading_first_chars()
    ensures
        forall|i: int| 0 <= i < leading_keys().len() ==> (#[trigger] leading_keys()[i]).len() > 0 && (leading_keys()[i][0] == 'g' || leading_keys()[i][0] == 'l'),
{
    reveal_strlit("general.architecture");
    reveal_strlit("general.name");
    reveal_strlit("general.license");
    reveal_strlit("general.repo_url");
    reveal_strlit("general.description");
    reveal_strlit("general.file_type");
    reveal_strlit("general.alignment");
    reveal_strlit("laya.weight_layout");
    reveal_strlit("laya.hidden_size");
    reveal_strlit("laya.num_layers");
    reveal_strlit("laya.num_heads");
    reveal_strlit("laya.head_dim");
    reveal_strlit("laya.intermediate_size");
    reveal_strlit("laya.vocab_size");
    reveal_strlit("laya.attention_scale");
    reveal_strlit("laya.layer_norm_epsilon");
    reveal_strlit("laya.sliding_window");
    reveal_strlit("laya.global_layer_every");
    reveal_strlit("laya.head_layers");
    reveal_strlit("laya.head_intermediate_size");
    reveal_strlit("laya.act_hidden_size");
    reveal_strlit("laya.act_input_features");
    reveal_strlit("laya.question_types");
    reveal_strlit("laya.rope_theta.full");
    reveal_strlit("laya.rope_theta.sliding");
    reveal_strlit("laya.max_len");
    reveal_strlit("laya.head_max_len");
    reveal_strlit("laya.max_prefixes");
    reveal_strlit("laya.temperature.0");
    reveal_strlit("laya.temperature.1");
    reveal_strlit("laya.temperature.2");
    let k = leading_keys();
    assert forall|i: int| 0 <= i < k.len() implies (#[trigger] k[i]).len() > 0 && (k[i][0] == 'g' || k[i][0] == 'l') by {
        if i == 0 {
            assert(k[0] == "general.architecture"@);
        } else if i == 1 {
            assert(k[1] == "general.name"@);
        } else if i == 2 {
            assert(k[2] == "general.license"@);
        } else if i == 3 {
            assert(k[3] == "general.repo_url"@);
        } else if i == 4 {
            assert(k[4] == "general.description"@);
        } else if i == 5 {
            assert(k[5] == "general.file_type"@);
        } else if i == 6 {
            assert(k[6] == "general.alignment"@);
        } else if i == 7 {
            assert(k[7] == "laya.weight_layout"@);
        } else if i == 8 {
            assert(k[8] == "laya.hidden_size"@);
        } else if i == 9 {
            assert(k[9] == "laya.num_layers"@);
        } else if i == 10 {
            assert(k[10] == "laya.num_heads"@);
        } else if i == 11 {
            assert(k[11] == "laya.head_dim"@);
        } else if i == 12 {
            assert(k[12] == "laya.intermediate_size"@);
        } else if i == 13 {
            assert(k[13] == "laya.vocab_size"@);
        } else if i == 14 {
            assert(k[14] == "laya.attention_scale"@);
        } else if i == 15 {
            assert(k[15] == "laya.layer_norm_epsilon"@);
        } else if i == 16 {
            assert(k[16] == "laya.sliding_window"@);
        } else if i == 17 {
            assert(k[17] == "laya.global_layer_every"@);
        } else if i == 18 {
            assert(k[18] == "laya.head_layers"@);
        } else if i == 19 {
            assert(k[19] == "laya.head_intermediate_size"@);
        } else if i == 20 {
            assert(k[20] == "laya.act_hidden_size"@);
        } else if i == 21 {
            assert(k[21] == "laya.act_input_features"@);
        } else if i == 22 {
            assert(k[22] == "laya.question_types"@);
        } else if i == 23 {
            assert(k[23] == "laya.rope_theta.full"@);
        } else if i == 24 {
            assert(k[24] == "laya.rope_theta.sliding"@);
        } else if i == 25 {
            assert(k[25] == "laya.max_len"@);
        } else if i == 26 {
            assert(k[26] == "laya.head_max_len"@);
        } else if i == 27 {
            assert(k[27] == "laya.max_prefixes"@);
        } else if i == 28 {
            assert(k[28] == "laya.temperature.0"@);
        } else if i == 29 {
            assert(k[29] == "laya.temperature.1"@);
        } else if i == 30 {
            assert(k[30] == "laya.temperature.2"@);
        }
    }
}

/// The tokenizer keys of a converted file, in order, told apart by their length and their
/// sixteenth character, and all starting with "t".
proof fn lemma_tokenizer_keys()
    ensures
        "tokenizer.ggml.model"@.len() == 20 && "tokenizer.ggml.model"@[0] == 't' && "tokenizer.ggml.model"@[15] == 'm',
        "tokenizer.ggml.tokens"@.len() == 21 && "tokenizer.ggml.tokens"@[0] == 't' && "tokenizer.ggml.tokens"@[15] == 't',
        "tokenizer.ggml.merges"@.len() == 21 && "tokenizer.ggml.merges"@[0] == 't' && "tokenizer.ggml.merges"@[15] == 'm',
        "tokenizer.ggml.token_type"@.len() == 25 && "tokenizer.ggml.token_type"@[0] == 't' && "tokenizer.ggml.token_type"@[15] == 't',
        "tokenizer.ggml.scores"@.len() == 21 && "tokenizer.ggml.scores"@[0] == 't' && "tokenizer.ggml.scores"@[15] == 's',
        "tokenizer.ggml.add_space_prefix"@.len() == 31 && "tokenizer.ggml.add_space_prefix"@[0] == 't' && "tokenizer.ggml.add_space_prefix"@[15] == 'a',
        "tokenizer.ggml.bos_token_id"@.len() == 27 && "tokenizer.ggml.bos_token_id"@[0] == 't' && "tokenizer.ggml.bos_token_id"@[15] == 'b',
        "tokenizer.ggml.eos_token_id"@.len() == 27 && "tokenizer.ggml.eos_token_id"@[0] == 't' && "tokenizer.ggml.eos_token_id"@[15] == 'e',
        "tokenizer.ggml.cls_token_id"@.len() == 27 && "tokenizer.ggml.cls_token_id"@[0] == 't' && "tokenizer.ggml.cls_token_id"@[15] == 'c',
        "tokenizer.ggml.mask_token_id"@.len() == 28 && "tokenizer.ggml.mask_token_id"@[0] == 't' && "tokenizer.ggml.mask_token_id"@[15] == 'm',
        "tokenizer.ggml.unknown_token_id"@.len() == 31 && "tokenizer.ggml.unknown_token_id"@[0] == 't' && "tokenizer.ggml.unknown_token_id"@[15] == 'u',
        "tokenizer.ggml.padding_token_id"@.len() == 31 && "tokenizer.ggml.padding_token_id"@[0] == 't' && "tokenizer.ggml.padding_token_id"@[15] == 'p',
        "tokenizer.huggingface.json"@.len() == 26 && "tokenizer.huggingface.json"@[0] == 't' && "tokenizer.huggingface.json"@[15] == 'n',
{
    reveal_strlit("tokenizer.ggml.model");
    reveal_strlit("tokenizer.ggml.tokens");
    reveal_strlit("tokenizer.ggml.merges");
    reveal_strlit("tokenizer.ggml.token_type");
    reveal_strlit("tokenizer.ggml.scores");
    reveal_strlit("tokenizer.ggml.add_space_prefix");
    reveal_strlit("tokenizer.ggml.bos_token_id");
    reveal_strlit("tokenizer.ggml.eos_token_id");
    reveal_strlit("tokenizer.ggml.cls_token_id");
    reveal_strlit("tokenizer.ggml.mask_token_id");
    reveal_strlit("tokenizer.ggml.unknown_token_id");
    reveal_strlit("tokenizer.ggml.padding_token_id");
    reveal_strlit("tokenizer.huggingface.json");
}

/// Each special-token entry of a converted file's metadata (at 38 to 43) is what a lookup of
/// its key finds: no earlier entry has that key.
proof fn lemma_special_entries(kv: Seq<(Seq<char>, ValueView)>)
    requires
        kv.len() >= 44,
        forall|i: int| 0 <= i < leading_keys().len() ==> #[trigger] kv[i].0 == leading_keys()[i],
        kv[31].0 == "laya.temperature_by_options"@,
        kv[32].0 == "tokenizer.ggml.model"@,
        kv[33].0 == "tokenizer.ggml.tokens"@,
        kv[34].0 == "tokenizer.ggml.merges"@,
        kv[35].0 == "tokenizer.ggml.token_type"@,
        kv[36].0 == "tokenizer.ggml.scores"@,
        kv[37].0 == "tokenizer.ggml.add_space_prefix"@,
        kv[38].0 == "tokenizer.ggml.bos_token_id"@,
        kv[39].0 == "tokenizer.ggml.eos_token_id"@,
        kv[40].0 == "tokenizer.ggml.cls_token_id"@,
        kv[41].0 == "tokenizer.ggml.mask_token_id"@,
        kv[42].0 == "tokenizer.ggml.unknown_token_id"@,
        kv[43].0 == "tokenizer.ggml.padding_token_id"@,
    ensures
        forall|p: int| 38 <= p <= 43 ==> #[trigger] lookup(kv, kv[p].0) == Some(kv[p].1),
{
    lemma_leading_first_chars();
    lemma_tokenizer_keys();
    reveal_strlit("laya.temperature_by_options");
    assert(leading_keys().len() == 31);
    assert forall|j: int| 0 <= j < 38 implies (#[trigger] kv[j]).0 != kv[38].0 by {
        if j < 31 {
            assert(leading_keys()[j][0] != 't');
            assert(kv[j].0[0] != kv[38].0[0]);
        } else if j == 31 {
            assert(kv[j].0[0] != kv[38].0[0]);
        } else if j == 32 {
            assert(kv[32].0.len() != kv[38].0.len() || kv[32].0[15] != kv[38].0[15]);
        } else if j == 33 {
            assert(kv[33].0.len() != kv[38].0.len() || kv[33].0[15] != kv[38].0[15]);
        } else if j == 34 {
            assert(kv[34].0.len() != kv[38].0.len() || kv[34].0[15] != kv[38].0[15]);
        } else if j == 35 {
            assert(kv[35].0.len() != kv[38].0.len() || kv[35].0[15] != kv[38].0[15]);
        } else if j == 36 {
            assert(kv[36].0.len() != kv[38].0.len() || kv[36].0[15] != kv[38].0[15]);
        } else if j == 37 {
            assert(kv[37].0.len() != kv[38].0.len() || kv[37].0[15] != kv[38].0[15]);
        }
    }
    lemma_lookup_at(kv, 38);
    assert forall|j: int| 0 <= j < 39 implies (#[trigger] kv[j]).0 != kv[39].0 by {
        if j < 31 {
            assert(leading_keys()[j][0] != 't');
            assert(kv[j].0[0] != kv[39].0[0]);
        } else if j == 31 {
            assert(kv[j].0[0] != kv[39].0[0]);
        } else if j == 32 {
            assert(kv[32].0.len() != kv[39].0.len() || kv[32].0[15] != kv[39].0[15]);
        } else if j == 33 {
            assert(kv[33].0.len() != kv[39].0.len() || kv[33].0[15] != kv[39].0[15]);
        } else if j == 34 {
            assert(kv[34].0.len() != kv[39].0.len() || kv[34].0[15] != kv[39].0[15]);
        } else if j == 35 {
            assert(kv[35].0.len() != kv[39].0.len() || kv[35].0[15] != kv[39].0[15]);
        } else if j == 36 {
            assert(kv[36].0.len() != kv[39].0.len() || kv[36].0[15] != kv[39].0[15]);
        } else if j == 37 {
            assert(kv[37].0.len() != kv[39].0.len() || kv[37].0[15] != kv[39].0[15]);
        } else if j == 38 {
            assert(kv[38].0.len() != kv[39].0.len() || kv[38].0[15] != kv[39].0[15]);
        }
    }
    lemma_lookup_at(kv, 39);
    assert forall|j: int| 0 <= j < 40 implies (#[trigger] kv[j]).0 != kv[40].0 by {
        if j < 31 {
            assert(leading_keys()[j][0] != 't');
            assert(kv[j].0[0] != kv[40].0[0]);
        } else if j == 31 {
            assert(kv[j].0[0] != kv[40].0[0]);
        } else if j == 32 {
            assert(kv[32].0.len() != kv[40].0.len() || kv[32].0[15] != kv[40].0[15]);
        } else if j == 33 {
            assert(kv[33].0.len() != kv[40].0.len() || kv[33].0[15] != kv[40].0[15]);
        } else if j == 34 {
            assert(kv[34].0.len() != kv[40].0.len() || kv[34].0[15] != kv[40].0[15]);
        } else if j == 35 {
            assert(kv[35].0.len() != kv[40].0.len() || kv[35].0[15] != kv[40].0[15]);
        } else if j == 36 {
            assert(kv[36].0.len() != kv[40].0.len() || kv[36].0[15] != kv[40].0[15]);
        } else if j == 37 {
            assert(kv[37].0.len() != kv[40].0.len() || kv[37].0[15] != kv[40].0[15]);
        } else if j == 38 {
            assert(kv[38].0.len() != kv[40].0.len() || kv[38].0[15] != kv[40].0[15]);
        } else if j == 39 {
            assert(kv[39].0.len() != kv[40].0.len() || kv[39].0[15] != kv[40].0[15]);
        }
    }
    lemma_lookup_at(kv, 40);
    assert forall|j: int| 0 <= j < 41 implies (#[trigger] kv[j]).0 != kv[41].0 by {
        if j < 31 {
            assert(leading_keys()[j][0] != 't');
            assert(kv[j].0[0] != kv[41].0[0]);
        } else if j == 31 {
            assert(kv[j].0[0] != kv[41].0[0]);
        } else if j == 32 {
            assert(kv[32].0.len() != kv[41].0.len() || kv[32].0[15] != kv[41].0[15]);
        } else if j == 33 {
            assert(kv[33].0.len() != kv[41].0.len() || kv[33].0[15] != kv[41].0[15]);
        } else if j == 34 {
            assert(kv[34].0.len() != kv[41].0.len() || kv[34].0[15] != kv[41].0[15]);
        } else if j == 35 {
            assert(kv[35].0.len() != kv[41].0.len() || kv[35].0[15] != kv[41].0[15]);
        } else if j == 36 {
            assert(kv[36].0.len() != kv[41].0.len() || kv[36].0[15] != kv[41].0[15]);
        } else if j == 37 {
            assert(kv[37].0.len() != kv[41].0.len() || kv[37].0[15] != kv[41].0[15]);
        } else if j == 38 {
            assert(kv[38].0.len() != kv[41].0.len() || kv[38].0[15] != kv[41].0[15]);
        } else if j == 39 {
            assert(kv[39].0.len() != kv[41].0.len() || kv[39].0[15] != kv[41].0[15]);
        } else if j == 40 {
            assert(kv[40].0.len() != kv[41].0.len() || kv[40].0[15] != kv[41].0[15]);
        }
    }
    lemma_lookup_at(kv, 41);
    assert forall|j: int| 0 <= j < 42 implies (#[trigger] kv[j]).0 != kv[42].0 by {
        if j < 31 {
            assert(leading_keys()[j][0] != 't');
            assert(kv[j].0[0] != kv[42].0[0]);
        } else if j == 31 {
            assert(kv[j].0[0] != kv[42].0[0]);
        } else if j == 32 {
            assert(kv[32].0.len() != kv[42].0.len() || kv[32].0[15] != kv[42].0[15]);
        } else if j == 33 {
            assert(kv[33].0.len() != kv[42].0.len() || kv[33].0[15] != kv[42].0[15]);
        } else if j == 34 {
            assert(kv[34].0.len() != kv[42].0.len() || kv[34].0[15] != kv[42].0[15]);
        } else if j == 35 {
            assert(kv[35].0.len() != kv[42].0.len() || kv[35].0[15] != kv[42].0[15]);
        } else if j == 36 {
            assert(kv[36].0.len() != kv[42].0.len() || kv[36].0[15] != kv[42].0[15]);
        } else if j == 37 {
            assert(kv[37].0.len() != kv[42].0.len() || kv[37].0[15] != kv[42].0[15]);
        } else if j == 38 {
            assert(kv[38].0.len() != kv[42].0.len() || kv[38].0[15] != kv[42].0[15]);
        } else if j == 39 {
            assert(kv[39].0.len() != kv[42].0.len() || kv[39].0[15] != kv[42].0[15]);
        } else if j == 40 {
            assert(kv[40].0.len() != kv[42].0.len() || kv[40].0[15] != kv[42].0[15]);
        } else if j == 41 {
            assert(kv[41].0.len() != kv[42].0.len() || kv[41].0[15] != kv[42].0[15]);
        }
    }
    lemma_lookup_at(kv, 42);
    assert forall|j: int| 0 <= j < 43 implies (#[trigger] kv[j]).0 != kv[43].0 by {
        if j < 31 {
            assert(leading_keys()[j][0] != 't');
            assert(kv[j].0[0] != kv[43].0[0]);
        } else if j == 31 {
            assert(kv[j].0[0] != kv[43].0[0]);
        } else if j == 32 {
            assert(kv[32].0.len() != kv[43].0.len() || kv[32].0[15] != kv[43].0[15]);
        } else if j == 33 {
            assert(kv[33].0.len() != kv[43].0.len() || kv[33].0[15] != kv[43].0[15]);
        } else if j == 34 {
            assert(kv[34].0.len() != kv[43].0.len() || kv[34].0[15] != kv[43].0[15]);
        } else if j == 35 {
            assert(kv[35].0.len() != kv[43].0.len() || kv[35].0[15] != kv[43].0[15]);
        } else if j == 36 {
            assert(kv[36].0.len() != kv[43].0.len() || kv[36].0[15] != kv[43].0[15]);
        } else if j == 37 {
            assert(kv[37].0.len() != kv[43].0.len() || kv[37].0[15] != kv[43].0[15]);
        } else if j == 38 {
            assert(kv[38].0.len() != kv[43].0.len() || kv[38].0[15] != kv[43].0[15]);
        } else if j == 39 {
            assert(kv[39].0.len() != kv[43].0.len() || kv[39].0[15] != kv[43].0[15]);
        } else if j == 40 {
            assert(kv[40].0.len() != kv[43].0.len() || kv[40].0[15] != kv[43].0[15]);
        } else if j == 41 {
            assert(kv[41].0.len() != kv[43].0.len() || kv[41].0[15] != kv[43].0[15]);
        } else if j == 42 {
            assert(kv[42].0.len() != kv[43].0.len() || kv[42].0[15] != kv[43].0[15]);
        }
    }
    lemma_lookup_at(kv, 43);
    assert forall|p: int| 38 <= p <= 43 implies #[trigger] lookup(kv, kv[p].0) == Some(kv[p].1) by {
        if p == 38 {
        } else if p == 39 {
        } else if p == 40 {
        } else if p == 41 {
        } else if p == 42 {
        } else {
        }
    }
}

/// In a converted model file each special-token entry holds the id of the added token it
/// names: bos and cls the id of [CLS], eos that of [SEP], mask of [MASK], unknown of [UNK]
/// and padding of [PAD].
#[verifier::spinoff_prover]
pub proof fn law_special_token_entries(
    half: bool,
    cfg: CheckpointConfig,
    a: AgentConfig,
    temps: Seq<u32>,
    tokens: Seq<Seq<char>>,
    merges: Seq<Seq<char>>,
    types: Seq<i32>,
    added: Seq<AddedToken>,
    text: Seq<char>,
)
    requires
        temps.len() == QTYPES,
        missing_special(added) is None,
    ensures
        ({
            let kv = metadata_spec(half, checked_of(cfg), a, temps, tokens, merges, types, ids_of(added), text);
            &&& token_id_of(added, "[CLS]"@) matches Some(x) && lookup(kv, "tokenizer.ggml.bos_token_id"@) == Some(
                ValueView::U32(x),
            ) && lookup(kv, "tokenizer.ggml.cls_token_id"@) == Some(ValueView::U32(x))
            &&& token_id_of(added, "[SEP]"@) matches Some(x) && lookup(kv, "tokenizer.ggml.eos_token_id"@) == Some(
                ValueView::U32(x),
            )
            &&& token_id_of(added, "[MASK]"@) matches Some(x) && lookup(kv, "tokenizer.ggml.mask_token_id"@) == Some(
                ValueView::U32(x),
            )
            &&& token_id_of(added, "[UNK]"@) matches Some(x) && lookup(kv, "tokenizer.ggml.unknown_token_id"@) == Some(
                ValueView::U32(x),
            )
            &&& token_id_of(added, "[PAD]"@) matches Some(x) && lookup(kv, "tokenizer.ggml.padding_token_id"@) == Some(
                ValueView::U32(x),
            )
        }),
{
    let ids = ids_of(added);
    let kv = metadata_spec(half, checked_of(cfg), a, temps, tokens, merges, types, ids, text);
    let tm = tokenizer_meta(tokens, merges, types, ids, text);
    lemma_leading_lookups(half, cfg, a, temps, tokens, merges, types, ids, text);
    assert(general_meta(half).len() == 8);
    assert(laya_meta(checked_of(cfg), a, temps).len() == 24);
    assert(tm.len() == 13);
    assert forall|t: int| 0 <= t < 13 implies #[trigger] kv[32 + t] == tm[t] by {}
    assert(kv[31] == laya_meta(checked_of(cfg), a, temps)[23]);
    lemma_special_entries(kv);
    assert(kv[38] == tm[6] && kv[39] == tm[7] && kv[40] == tm[8]);
    assert(kv[41] == tm[9] && kv[42] == tm[10] && kv[43] == tm[11]);
    assert(lookup(kv, kv[38].0) == Some(kv[38].1));
    assert(lookup(kv, kv[39].0) == Some(kv[39].1));
    assert(lookup(kv, kv[40].0) == Some(kv[40].1));
    assert(lookup(kv, kv[41].0) == Some(kv[41].1));
    assert(lookup(kv, kv[42].0) == Some(kv[42].1));
    assert(lookup(kv, kv[43].0) == Some(kv[43].1));
}

} // verus!
