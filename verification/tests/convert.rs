use laya_rust::arch;
use laya_rust::convert::{
    build_token_types, build_tokens, check_config, convert_tensor, to_gguf, token_id, write_model, AddedToken, AgentConfig,
    CheckpointConfig, ConvertError, SourceTensor, TokenizerSource,
};
use laya_rust::gguf::{self, Value, T_F16, T_F32};
use laya_rust::systemone::Json;
use laya_rust::tokenizer::MergeRule;
use laya_rust::weights::{MetaError, ModelMeta};

fn config() -> CheckpointConfig {
    CheckpointConfig {
        hidden_size: Some(1024),
        num_hidden_layers: Some(28),
        num_attention_heads: Some(16),
        intermediate_size: Some(2624),
        vocab_size: Some(50368),
        norm_eps: Some(1e-5f64.to_bits()),
        local_attention: Some(128),
        global_attn_every_n_layers: Some(3),
        has_rope_parameters: true,
        rope_theta_full: Some(160000.0f64.to_bits()),
        rope_theta_sliding: Some(10000.0f64.to_bits()),
    }
}

fn added(content: &str, id: u64, special: bool) -> AddedToken {
    AddedToken { content: Some(content.to_string()), id: Some(id), special }
}

#[test]
fn configurations_are_checked_in_order() {
    let c = check_config(&config()).ok().unwrap();
    assert_eq!((c.hidden, c.layers, c.heads, c.inter, c.vocab, c.global_every), (1024, 28, 16, 2624, 50368, 3));
    assert_eq!(c.theta_full, 160000.0f32.to_bits());
    assert_eq!(c.theta_sliding, 10000.0f32.to_bits());

    let mut k = config();
    k.vocab_size = None;
    k.hidden_size = Some(7);
    assert!(matches!(check_config(&k), Err(ConvertError::ConfigMissing("vocab_size"))));
    let mut k = config();
    k.num_attention_heads = Some(8);
    assert!(matches!(check_config(&k), Err(ConvertError::ConfigPin("num_attention_heads", 8, 16))));
    let mut k = config();
    k.local_attention = Some(64);
    assert!(matches!(check_config(&k), Err(ConvertError::LocalAttention(64))));
    let mut k = config();
    k.norm_eps = Some(1e-6f64.to_bits());
    assert!(matches!(check_config(&k), Err(ConvertError::NormEps(b)) if b == 1e-6f32.to_bits()));
    let mut k = config();
    k.has_rope_parameters = false;
    assert!(matches!(check_config(&k), Err(ConvertError::ConfigMissing("rope_parameters"))));
    let mut k = config();
    k.rope_theta_sliding = None;
    assert!(matches!(
        check_config(&k),
        Err(ConvertError::ConfigMissing("rope_parameters.sliding_attention.rope_theta"))
    ));
}

#[test]
fn token_tables() {
    let vocab = vec![("a".to_string(), Some(0)), ("b".to_string(), Some(3)), ("c".to_string(), None), ("d".to_string(), Some(3))];
    let add = vec![added("[X]", 1, true), added("[Y]", 5, false), AddedToken { content: None, id: Some(2), special: false }];
    assert_eq!(build_tokens(&vocab, &add), vec!["a", "[X]", "", "d", "", "[Y]"]);
    assert_eq!(build_tokens(&vec![], &vec![]), vec![""]);
    assert_eq!(build_token_types(&add, 4), vec![1, 3, 4, 1]);
    assert_eq!(token_id(&add, "[Y]"), Some(5));
    assert_eq!(token_id(&add, "[Z]"), None);
}

#[test]
fn tensors_are_copied_or_widened() {
    let f32s: Vec<u8> = [1.0f32, -2.0].iter().flat_map(|x| x.to_le_bytes()).collect();
    let t = SourceTensor { dtype: "F32".to_string(), dims: vec![1, 2], data: f32s.clone() };
    let c = convert_tensor("w", &t, false).ok().unwrap();
    assert!(c.copied);
    assert_eq!(c.data, f32s);
    assert_eq!(c.dims, vec![2, 1]);
    assert_eq!(c.ty, T_F32);
    let c = convert_tensor("w", &t, true).ok().unwrap();
    assert!(!c.copied);
    assert_eq!(c.data, vec![0x00, 0x3c, 0x00, 0xc0]);
    assert_eq!(c.ty, T_F16);

    let bf = SourceTensor { dtype: "BF16".to_string(), dims: vec![2], data: vec![0x80, 0x3f, 0x00, 0xc0] };
    let c = convert_tensor("b", &bf, false).ok().unwrap();
    assert_eq!(c.data, f32s);

    let bad = SourceTensor { dtype: "I8".to_string(), dims: vec![2], data: vec![1, 2] };
    assert!(matches!(convert_tensor("i", &bad, true), Err(ConvertError::TensorType(n, d)) if n == "i" && d == "I8"));
    let short = SourceTensor { dtype: "BF16".to_string(), dims: vec![3], data: vec![0; 4] };
    assert!(matches!(convert_tensor("s", &short, true), Err(ConvertError::TensorSize(n, 3, 2)) if n == "s"));
}

fn tokenizer() -> TokenizerSource {
    let mut vocab: Vec<(String, Option<u64>)> = (0..50363u64).map(|i| (format!("t{}", i), Some(i))).collect();
    vocab.push(("x".to_string(), None));
    TokenizerSource {
        vocab,
        merges: vec![MergeRule::Pair("t".to_string(), "1".to_string()), MergeRule::Joined("t 2".to_string())],
        added: vec![
            added("[UNK]", 50363, true),
            added("[CLS]", 50364, true),
            added("[SEP]", 50365, true),
            added("[PAD]", 50366, true),
            added("[MASK]", 50367, true),
        ],
        text: "{}".to_string(),
    }
}

fn agent() -> AgentConfig {
    AgentConfig {
        max_len: None,
        head_max_len: Some(100),
        max_prefixes: None,
        temperature: Some(vec![Some(1.5f64.to_bits()), None, Some(0.5f64.to_bits())]),
        by_options: Json::Object(vec![("choice:2".to_string(), Json::Number("1.2".to_string()))]),
    }
}

fn sources() -> Vec<(String, SourceTensor)> {
    arch::weight_names()
        .into_iter()
        .filter(|n| n != arch::ROPE_FREQ_FULL && n != arch::ROPE_FREQ_SLIDING)
        .map(|n| {
            // the embedding table is long enough that the tokenizer's arrays are plausible
            let count: usize = if n == arch::TOK_EMB { 120_000 } else { 2 };
            let mut data = vec![0, 0, 0x80, 0x3f, 0, 0, 0, 0x40];
            data.resize(count * 4, 0);
            (n, SourceTensor { dtype: "F32".to_string(), dims: vec![count], data })
        })
        .collect()
}

#[test]
fn a_checkpoint_converts_to_a_readable_model_file() {
    let rope: Vec<u8> = vec![0; 128];
    let (w, st) = to_gguf(&config(), &agent(), &tokenizer(), &sources(), &rope, &rope, true).ok().unwrap();
    assert_eq!(st.tensors, arch::weight_names().len());
    assert_eq!(st.copied, 0);
    assert_eq!(st.widened, st.tensors);
    assert_eq!(st.tokenizer_tokens, 50368);
    assert_eq!(st.tokenizer_merges, 2);
    let file = w.write().unwrap();
    let h = gguf::read(&file).unwrap();
    assert_eq!(h.str_or("general.architecture", ""), "laya");
    assert_eq!(h.u64_or("general.file_type", 9), 1);
    assert_eq!(h.u64_or("laya.head_dim", 0), 64);
    assert_eq!(h.u64_or("laya.max_len", 0), 512);
    assert_eq!(h.u64_or("laya.head_max_len", 0), 100);
    assert_eq!(h.str_or("laya.temperature_by_options", ""), "{\"choice:2\":1.2}");
    assert_eq!(h.u64_or("tokenizer.ggml.mask_token_id", 0), 50367);
    assert_eq!(h.u64_or("tokenizer.ggml.bos_token_id", 0), 50364);
    assert!(matches!(h.get("laya.temperature.1"), Some(Value::F32(0))));
    assert_eq!(h.get("laya.temperature.0").and_then(|v| v.as_f32_bits()), Some(1.5f32.to_bits()));
    assert_eq!(
        h.get("tokenizer.ggml.merges").map(|v| v.as_strs()),
        Some(vec!["t 1".to_string(), "t 2".to_string()])
    );
    assert_eq!(h.tensors.len(), arch::weight_names().len());
    let t = h.tensor(arch::TOK_EMB).unwrap();
    assert_eq!(t.ty, T_F16);
    let start = (h.data_off + t.offset) as usize;
    assert_eq!(&file[start..start + 4], &[0x00, 0x3c, 0x00, 0x40]);
    let r = h.tensor(arch::ROPE_FREQ_FULL).unwrap();
    assert_eq!((r.ty, r.dims.clone()), (T_F32, vec![32]));

    let (_, st) = to_gguf(&config(), &agent(), &tokenizer(), &sources(), &rope, &rope, false).ok().unwrap();
    assert_eq!(st.copied, st.tensors - 2);
}

#[test]
fn conversion_errors() {
    let rope: Vec<u8> = vec![0; 128];
    let mut a = agent();
    a.temperature = Some(vec![None]);
    assert!(matches!(to_gguf(&config(), &a, &tokenizer(), &sources(), &rope, &rope, true), Err(ConvertError::TemperatureCount(1))));
    a.temperature = None;
    assert!(matches!(to_gguf(&config(), &a, &tokenizer(), &sources(), &rope, &rope, true), Err(ConvertError::MissingTemperature)));
    let mut t = tokenizer();
    t.added.push(added("[EXTRA]", 60000, false));
    assert!(matches!(
        to_gguf(&config(), &agent(), &t, &sources(), &rope, &rope, true),
        Err(ConvertError::VocabSize(60001, 50368))
    ));
    let mut t = tokenizer();
    t.added.retain(|a| a.content.as_deref() != Some("[SEP]"));
    t.vocab.push(("sep".to_string(), Some(50365)));
    assert!(matches!(to_gguf(&config(), &agent(), &t, &sources(), &rope, &rope, true), Err(ConvertError::NoToken("[SEP]"))));
    let mut s = sources();
    s.remove(10);
    assert!(matches!(
        to_gguf(&config(), &agent(), &tokenizer(), &s, &rope, &rope, true),
        Err(ConvertError::MissingTensor(_))
    ));
    let mut s = sources();
    s[1].1.dims = vec![];
    assert!(matches!(
        to_gguf(&config(), &agent(), &tokenizer(), &s, &rope, &rope, true),
        Err(ConvertError::TensorSize(_, 1, 2))
    ));
}

#[test]
fn a_converted_model_file_passes_the_metadata_check() {
    let rope: Vec<u8> = vec![0; 128];
    let mut a = agent();
    a.head_max_len = None;
    let (w, _) = to_gguf(&config(), &a, &tokenizer(), &sources(), &rope, &rope, true).ok().unwrap();
    let h = gguf::read(&w.write().unwrap()).unwrap();
    let m = ModelMeta::from_header(&h, vec![]).ok().unwrap();
    assert_eq!(m.file_type, 1);
    assert_eq!(m.temperature, [1.5f32.to_bits(), 0, 0.5f32.to_bits()]);
    let (w, _) = to_gguf(&config(), &agent(), &tokenizer(), &sources(), &rope, &rope, true).ok().unwrap();
    let h = gguf::read(&w.write().unwrap()).unwrap();
    match ModelMeta::from_header(&h, vec![]) {
        Err(MetaError::IntPin(k, got, want)) => assert_eq!((k.as_str(), got, want), ("laya.head_max_len", 100, 192)),
        _ => panic!("a head budget other than the pinned one is refused"),
    }
}

#[test]
fn writing_the_model_counts_its_bytes() {
    let rope: Vec<u8> = vec![0; 128];
    let (w, st) = to_gguf(&config(), &agent(), &tokenizer(), &sources(), &rope, &rope, true).ok().unwrap();
    assert_eq!(st.bytes, 0);
    let file = w.write().unwrap();
    let (bytes, st) = write_model(&w, st).ok().unwrap();
    assert_eq!(bytes, file);
    assert_eq!(st.bytes, file.len() as u64);
    assert_eq!(st.tensors, arch::weight_names().len());
}
