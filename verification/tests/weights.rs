use laya_rust::arch::{self, H, HD, HEAD_INTER, INTER, NVOCAB, QTYPES};
use laya_rust::gguf::{Header, TensorInfo, Value, T_F16, T_F32};
use laya_rust::weights::meta::MetaError;
use laya_rust::weights::{narrow_bits, transpose, ModelMeta, Tensors, TensorsError};
use laya_rust::engine::DType;
use laya_rust::systemone::Json;
use laya_rust::weights::options::{sort_by_key, temperature_entries, OptionsError};

fn pinned_kv() -> Vec<(String, Value)> {
    let mut kv: Vec<(String, Value)> = vec![("general.architecture".to_string(), Value::Str("laya".into()))];
    for (k, v) in [
        ("laya.hidden_size", 1024u32),
        ("laya.num_layers", 28),
        ("laya.num_heads", 16),
        ("laya.head_dim", 64),
        ("laya.intermediate_size", 2624),
        ("laya.vocab_size", 50368),
    ] {
        kv.push((k.to_string(), Value::U32(v)));
    }
    kv.push(("laya.attention_scale".to_string(), Value::F32(0.3535533845424652f32.to_bits())));
    kv.push(("laya.layer_norm_epsilon".to_string(), Value::F64(1e-5f64.to_bits())));
    for (k, v) in [
        ("laya.sliding_window", 64u32),
        ("laya.global_layer_every", 3),
        ("laya.head_layers", 2),
        ("laya.act_input_features", 1028),
        ("laya.question_types", 3),
        ("laya.max_len", 512),
        ("laya.head_max_len", 192),
        ("laya.max_prefixes", 6),
    ] {
        kv.push((k.to_string(), Value::U32(v)));
    }
    kv.push(("general.file_type".to_string(), Value::U32(0)));
    for (i, t) in [1.5f32, 2.0, 0.75].iter().enumerate() {
        kv.push((format!("laya.temperature.{}", i), Value::F32(t.to_bits())));
    }
    kv
}

fn info(name: &str, shape: &[usize]) -> TensorInfo {
    TensorInfo { name: name.to_string(), dims: shape.iter().rev().map(|x| *x as u64).collect(), ty: T_F16, offset: 0 }
}

fn pinned_tensors() -> Vec<TensorInfo> {
    let h = H;
    let mut t = vec![
        info(arch::TOK_EMB, &[NVOCAB, h]),
        info(arch::TYPE_EMB, &[QTYPES, h]),
        info(arch::FINAL_NORM, &[h]),
        info(arch::ROPE_FREQ_FULL, &[HD / 2]),
        info(arch::ROPE_FREQ_SLIDING, &[HD / 2]),
        info(arch::SCORER_W, &[h]),
        info(arch::SCORER_B, &[h]),
        info(arch::SCORER_HID, &[h, h]),
        info(arch::SCORER_HID_B, &[h]),
        info(arch::SCORER_OUT, &[1, h]),
        info(arch::SCORER_OUT_B, &[1]),
        info(arch::ACT_W1, &[arch::ACT_HIDDEN, arch::ACT_INPUT]),
        info(arch::ACT_B1, &[arch::ACT_HIDDEN]),
        info(arch::ACT_W2, &[2, arch::ACT_HIDDEN]),
        info(arch::ACT_B2, &[2]),
    ];
    for i in 0..arch::NLAYER {
        t.push(info(arch::ATTN_NORM[i], &[h]));
        t.push(info(arch::MLP_NORM[i], &[h]));
        t.push(info(arch::WQKV[i], &[3 * h, h]));
        t.push(info(arch::WO_ATTN[i], &[h, h]));
        t.push(info(arch::WI[i], &[2 * INTER, h]));
        t.push(info(arch::WO_MLP[i], &[h, INTER]));
    }
    for i in 0..arch::HEAD_LAYERS {
        t.push(info(arch::H_NORM1_W[i], &[h]));
        t.push(info(arch::H_NORM1_B[i], &[h]));
        t.push(info(arch::H_NORM2_W[i], &[h]));
        t.push(info(arch::H_NORM2_B[i], &[h]));
        t.push(info(arch::H_WQKV[i], &[3 * h, h]));
        t.push(info(arch::H_IN_BIAS[i], &[3 * h]));
        t.push(info(arch::H_OUT_W[i], &[h, h]));
        t.push(info(arch::H_OUT_B[i], &[h]));
        t.push(info(arch::H_LIN1_W[i], &[HEAD_INTER, h]));
        t.push(info(arch::H_LIN1_B[i], &[HEAD_INTER]));
        t.push(info(arch::H_LIN2_W[i], &[h, HEAD_INTER]));
        t.push(info(arch::H_LIN2_B[i], &[h]));
    }
    t
}

fn header(kv: Vec<(String, Value)>, tensors: Vec<TensorInfo>) -> Header {
    Header { kv, tensors, data_off: 0 }
}

#[test]
fn doubles_narrow_to_the_nearest_single() {
    for v in [0.0f64, -0.0, 1.0, 1e-5, 0.1, 3.141592653589793, 1e38, -2.5e-40, 1e-50, 1e300, f64::INFINITY] {
        assert_eq!(narrow_bits(v.to_bits()), (v as f32).to_bits(), "{}", v);
    }
    assert!(f32::from_bits(narrow_bits(f64::NAN.to_bits())).is_nan());
}

#[test]
fn metadata_is_read_and_checked() {
    let m = ModelMeta::from_header(&header(pinned_kv(), vec![]), vec![]).ok().unwrap();
    assert_eq!(m.hidden, 1024);
    assert_eq!(m.file_type, 0);
    assert_eq!(m.dtype(), Some(DType::F32));
    assert_eq!(m.temperature, [1.5f32.to_bits(), 2.0f32.to_bits(), 0.75f32.to_bits()]);
    assert!(m.temperature_by_options.is_empty());
    let d = ModelMeta::defaults();
    assert_eq!(d.dtype(), Some(DType::F16));
    assert_eq!(d.temperature, [1.0f32.to_bits(); 3]);
}

#[test]
fn metadata_errors() {
    let mut kv = pinned_kv();
    kv[0].1 = Value::Str("bert".into());
    assert!(matches!(ModelMeta::from_header(&header(kv, vec![]), vec![]), Err(MetaError::Architecture(a)) if a == "bert"));

    let mut kv = pinned_kv();
    kv.retain(|e| e.0 != "laya.num_heads");
    assert!(matches!(ModelMeta::from_header(&header(kv, vec![]), vec![]), Err(MetaError::Missing(k)) if k == "laya.num_heads"));

    let mut kv = pinned_kv();
    kv[2].1 = Value::U32(29);
    assert!(matches!(
        ModelMeta::from_header(&header(kv, vec![]), vec![]),
        Err(MetaError::IntPin(k, 29, 28)) if k == "laya.num_layers"
    ));

    let mut kv = pinned_kv();
    kv[1].1 = Value::Str("1024".into());
    assert!(matches!(ModelMeta::from_header(&header(kv, vec![]), vec![]), Err(MetaError::NotInteger(k)) if k == "laya.hidden_size"));

    let mut kv = pinned_kv();
    kv[7].1 = Value::F32(0.125f32.to_bits());
    assert!(matches!(
        ModelMeta::from_header(&header(kv, vec![]), vec![]),
        Err(MetaError::FloatPin(k, g, _)) if k == "laya.attention_scale" && g == 0.125f32.to_bits()
    ));

    let mut kv = pinned_kv();
    kv[8].1 = Value::U8(1);
    assert!(matches!(ModelMeta::from_header(&header(kv, vec![]), vec![]), Err(MetaError::NotFloat(k)) if k == "laya.layer_norm_epsilon"));

    let mut kv = pinned_kv();
    kv.retain(|e| e.0 != "laya.temperature.1");
    assert!(matches!(ModelMeta::from_header(&header(kv, vec![]), vec![]), Err(MetaError::Missing(k)) if k == "laya.temperature.1"));

    let mut kv = pinned_kv();
    kv.retain(|e| e.0 != "general.file_type");
    assert_eq!(ModelMeta::from_header(&header(kv, vec![]), vec![]).ok().unwrap().file_type, 1);
}

#[test]
fn tensor_tables_are_checked() {
    let t = Tensors::new(header(pinned_kv(), pinned_tensors()), vec![]).ok().unwrap();
    assert_eq!(t.names().len(), pinned_tensors().len());
    assert_eq!(t.stored_dims(arch::WQKV[0]), Some(vec![3 * H, H]));
    assert_eq!(t.dims(arch::WQKV[0]), Some(vec![H, 3 * H]));
    assert_eq!(t.dims(arch::TOK_EMB), Some(vec![NVOCAB, H]));
    assert_eq!(t.dtype_name(arch::TOK_EMB), Some("F16"));
    assert!(t.is_flipped(arch::SCORER_OUT));
    assert!(!t.is_flipped(arch::SCORER_W));
    assert_eq!(t.stored_dims("nope"), None);

    let mut ts = pinned_tensors();
    ts.retain(|x| x.name != arch::FINAL_NORM);
    assert!(matches!(Tensors::new(header(pinned_kv(), ts), vec![]), Err(TensorsError::NoTensor(n)) if n == arch::FINAL_NORM));

    let mut ts = pinned_tensors();
    ts[1].dims = vec![H as u64, 4];
    assert!(matches!(
        Tensors::new(header(pinned_kv(), ts), vec![]),
        Err(TensorsError::Shape(n, got, want)) if n == arch::TYPE_EMB && got == vec![4, H] && want == vec![QTYPES, H]
    ));

    let mut ts = pinned_tensors();
    ts[2].ty = 8;
    assert!(matches!(Tensors::new(header(pinned_kv(), ts), vec![]), Err(TensorsError::Type(n, 8)) if n == arch::FINAL_NORM));

    let mut kv = pinned_kv();
    kv.retain(|e| e.0 != "laya.max_len");
    assert!(matches!(Tensors::new(header(kv, pinned_tensors()), vec![]), Err(TensorsError::Meta(MetaError::Missing(_)))));
    let _ = T_F32;
}

#[test]
fn matrices_transpose() {
    let v = vec![1, 2, 3, 4, 5, 6];
    assert_eq!(transpose(&v, 2, 3), vec![1, 4, 2, 5, 3, 6]);
    assert_eq!(transpose(&transpose(&v, 2, 3), 3, 2), v);
    assert_eq!(transpose(&Vec::<u8>::new(), 0, 5), Vec::<u8>::new());
}

#[test]
fn tensor_values_come_from_the_file_and_transpose_when_flipped() {
    let mut file: Vec<u8> = Vec::new();
    for x in [1.0f32, 2.0, 3.0, 4.0, 5.0, 6.0] {
        file.extend_from_slice(&x.to_le_bytes());
    }
    file.resize(32, 0);
    for h in [0x3c00u16, 0xc000] {
        file.extend_from_slice(&h.to_le_bytes());
    }
    let tensors = vec![
        TensorInfo { name: "m".to_string(), dims: vec![3, 2], ty: T_F32, offset: 0 },
        TensorInfo { name: "v".to_string(), dims: vec![2], ty: T_F16, offset: 32 },
        TensorInfo { name: "far".to_string(), dims: vec![64], ty: T_F32, offset: 32 },
    ];
    let t = Tensors {
        header: Header { kv: Vec::new(), tensors, data_off: 0 },
        meta: ModelMeta::defaults(),
        flip: vec!["m".to_string()],
    };
    let bits = |v: &[f32]| v.iter().map(|x| x.to_bits()).collect::<Vec<u32>>();
    assert_eq!(t.values(&file, "m"), Some(bits(&[1.0, 4.0, 2.0, 5.0, 3.0, 6.0])));
    assert_eq!(t.values(&file, "v"), Some(bits(&[1.0, -2.0])));
    assert_eq!(t.values(&file, "far"), None);
    assert_eq!(t.values(&file, "missing"), None);
}

#[test]
fn float_arrays_and_defaults_by_bit_pattern() {
    let a = Value::Array(vec![Value::F32(1.5f32.to_bits()), Value::U32(7), Value::F64(0.25f64.to_bits())]);
    assert_eq!(a.as_f32s_bits(), vec![1.5f32.to_bits(), 0.25f32.to_bits()]);
    assert_eq!(Value::U32(1).as_f32s_bits(), Vec::<u32>::new());
    let h = Header { kv: vec![("x".to_string(), Value::F64(2.5f64.to_bits()))], tensors: Vec::new(), data_off: 0 };
    assert_eq!(h.f32_or_bits("x", 0), 2.5f32.to_bits());
    assert_eq!(h.f32_or_bits("y", 9.0f32.to_bits()), 9.0f32.to_bits());
}

#[test]
fn per_size_temperatures_are_kept_sorted_by_key() {
    let pairs = vec![("score:3-5".to_string(), 7u32), ("choice:2".to_string(), 5), ("choice:11+".to_string(), 9)];
    let mut kv = pinned_kv();
    kv.push(("laya.temperature_by_options".to_string(), Value::Str("{}".into())));
    let m = ModelMeta::from_header(&header(kv, vec![]), pairs.clone()).ok().unwrap();
    let keys: Vec<&str> = m.temperature_by_options.iter().map(|p| p.0.as_str()).collect();
    assert_eq!(keys, vec!["choice:11+", "choice:2", "score:3-5"]);
    assert_eq!(m.temperature_by_options[1].1, 5);
    let m = ModelMeta::from_header(&header(pinned_kv(), vec![]), pairs).ok().unwrap();
    assert!(m.temperature_by_options.is_empty());
}

#[test]
fn sorting_by_key_is_stable() {
    let v = vec![("b".to_string(), 1u32), ("a".to_string(), 2), ("b".to_string(), 3), ("a".to_string(), 4)];
    let r = sort_by_key(v);
    assert_eq!(r, vec![("a".to_string(), 2), ("a".to_string(), 4), ("b".to_string(), 1), ("b".to_string(), 3)]);
}

#[test]
fn temperature_tables_must_be_objects_of_numbers() {
    let ok = Json::Object(vec![("choice:2".to_string(), Json::Number("1.2".to_string())), ("noul:2".to_string(), Json::Number("3".to_string()))]);
    let es = temperature_entries(&ok).ok().unwrap();
    assert_eq!(es, vec![("choice:2".to_string(), "1.2".to_string()), ("noul:2".to_string(), "3".to_string())]);
    assert!(matches!(temperature_entries(&Json::Array(vec![])), Err(OptionsError::NotObject)));
    let bad = Json::Object(vec![("a".to_string(), Json::Number("1".to_string())), ("b".to_string(), Json::Str("x".to_string()))]);
    assert!(matches!(temperature_entries(&bad), Err(OptionsError::NotNumber(k)) if k == "b"));
}
