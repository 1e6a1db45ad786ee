use laya_rust::gguf::{self, GgufError, Header, Value, ALIGNMENT, T_BF16, T_F16, T_F32};
use laya_rust::weights::{f2h_bits, h2f_bits};

fn f32_bytes(v: &[f32]) -> Vec<u8> {
    let bits: Vec<u32> = v.iter().map(|x| x.to_bits()).collect();
    gguf::as_f32_bytes(&bits)
}

fn f16_bytes(v: &[f32]) -> Vec<u8> {
    let bits: Vec<u32> = v.iter().map(|x| x.to_bits()).collect();
    gguf::as_f16_bytes(&bits)
}

fn decode(raw: &[u8], ty: u32) -> Vec<f32> {
    gguf::decode_f32(raw, ty).unwrap().into_iter().map(f32::from_bits).collect()
}

fn tensor_bytes<'a>(file: &'a [u8], h: &Header, name: &str) -> &'a [u8] {
    let t = h.tensor(name).unwrap();
    let start = (h.data_off + t.offset) as usize;
    &file[start..start + t.nbytes() as usize]
}

fn f2h(v: f32) -> u16 {
    f2h_bits(v.to_bits())
}

fn h2f(h: u16) -> f32 {
    f32::from_bits(h2f_bits(h))
}

fn as_f32(v: &Value) -> Option<f32> {
    v.as_f32_bits().map(f32::from_bits)
}

#[test]
fn metadata_value_types_round_trip() {
    let mut w = gguf::Writer::new();
    w.kv("general.architecture", Value::Str("laya".into())).unwrap();
    w.kv("laya.u8", Value::U8(200)).unwrap();
    w.kv("laya.i8", Value::I8(-100)).unwrap();
    w.kv("laya.u16", Value::U16(60000)).unwrap();
    w.kv("laya.i16", Value::I16(-30000)).unwrap();
    w.kv("laya.u32", Value::U32(4_000_000_000)).unwrap();
    w.kv("laya.i32", Value::I32(-2_000_000_000)).unwrap();
    w.kv("laya.f32", Value::F32(0.353_553_38f32.to_bits())).unwrap();
    w.kv("laya.bool_t", Value::Bool(true)).unwrap();
    w.kv("laya.bool_f", Value::Bool(false)).unwrap();
    w.kv("laya.u64", Value::U64(u64::MAX)).unwrap();
    w.kv("laya.i64", Value::I64(i64::MIN)).unwrap();
    w.kv("laya.f64", Value::F64(1.0e-5f64.to_bits())).unwrap();
    w.kv("laya.str", Value::Str("现代BERT · [MASK] 50284".into())).unwrap();
    w.kv("laya.arr_i32", Value::Array(vec![Value::I32(1), Value::I32(2), Value::I32(3)])).unwrap();
    w.kv(
        "laya.arr_f32",
        Value::Array(vec![Value::F32(1.5f32.to_bits()), Value::F32((-2.25f32).to_bits())]),
    )
    .unwrap();
    w.kv("laya.arr_str", Value::Array(vec![Value::Str("a b".into()), Value::Str("c d".into())]))
        .unwrap();
    w.kv(
        "laya.arr_nested",
        Value::Array(vec![
            Value::Array(vec![Value::U8(1), Value::U8(2)]),
            Value::Array(vec![Value::U8(3)]),
        ]),
    )
    .unwrap();
    let t32: Vec<f32> = (0..12).map(|i| i as f32 * 0.5).collect();
    w.tensor("t.f32", &[3, 4], T_F32, f32_bytes(&t32)).unwrap();
    w.tensor("t.f16", &[8], T_F16, f16_bytes(&[0.0, 1.0, -1.0, 0.5, 0.25, 1e-5, 1234.0, -0.0]))
        .unwrap();
    w.tensor("t.oneelem", &[1], T_F32, f32_bytes(&[42.0])).unwrap();
    let file = w.write().unwrap();

    let h = gguf::read(&file).unwrap();
    assert_eq!(h.data_off % ALIGNMENT, 0, "tensor data must be aligned");
    for t in &h.tensors {
        assert_eq!(t.offset % ALIGNMENT, 0, "tensor {} offset not aligned", t.name);
    }
    assert_eq!(h.str_or("general.architecture", "?"), "laya");
    assert_eq!(h.u64_or("laya.u8", 0), 200);
    assert_eq!(h.u64_or("laya.u32", 0), 4_000_000_000);
    assert_eq!(h.u64_or("laya.u64", 0), u64::MAX);
    assert_eq!(h.get("laya.f32").and_then(as_f32), Some(0.353_553_38));
    assert_eq!(h.get("laya.f64").and_then(as_f32), Some(1.0e-5));
    assert!(matches!(h.get("laya.bool_t"), Some(Value::Bool(true))));
    assert!(matches!(h.get("laya.bool_f"), Some(Value::Bool(false))));
    assert_eq!(h.get("laya.str").and_then(|v| v.as_str()), Some("现代BERT · [MASK] 50284"));
    let ints_as_floats: Vec<f32> = match h.get("laya.arr_i32") {
        Some(Value::Array(a)) => a.iter().filter_map(as_f32).collect(),
        _ => Vec::new(),
    };
    assert!(ints_as_floats.is_empty(), "int arrays are not float arrays");
    assert_eq!(
        h.get("laya.arr_str").map(|v| v.as_strs()),
        Some(vec!["a b".to_string(), "c d".to_string()])
    );
    let floats: Vec<f32> = match h.get("laya.arr_f32") {
        Some(Value::Array(a)) => a.iter().filter_map(as_f32).collect(),
        _ => Vec::new(),
    };
    assert_eq!(floats, vec![1.5, -2.25]);
    match h.get("laya.arr_nested") {
        Some(Value::Array(outer)) => {
            assert_eq!(outer.len(), 2);
            match &outer[0] {
                Value::Array(inner) => assert_eq!(inner.len(), 2),
                _ => panic!("expected nested array"),
            }
        }
        _ => panic!("expected nested array"),
    }
    assert_eq!(h.get("laya.i64").and_then(|v| v.as_u64()), Some(i64::MIN as u64));

    let t = h.tensor("t.f32").expect("t.f32");
    assert_eq!(t.dims, vec![3, 4]);
    assert_eq!(t.ty, T_F32);
    assert_eq!(t.nbytes(), 48);
    let back = decode(tensor_bytes(&file, &h, "t.f32"), T_F32);
    assert_eq!(back, t32);

    let t16 = h.tensor("t.f16").expect("t.f16");
    assert_eq!(t16.nbytes(), 16);
    let back = decode(tensor_bytes(&file, &h, "t.f16"), T_F16);
    assert_eq!(back[1], 1.0);
    assert_eq!(back[6], 1234.0);
    assert_eq!(back[7], 0.0);
}

#[test]
fn f16_round_trip_is_exact_for_representable_values() {
    for v in [
        0.0f32,
        1.0,
        -1.0,
        0.5,
        0.25,
        1024.0,
        -0.0,
        65504.0,
        5.960_464_5e-8,
        9.536_743_2e-7,
        -2.0,
        0.333_251_95,
    ] {
        let h = f2h(v);
        assert_eq!(h2f(h), v, "{} did not round-trip", v);
    }
    assert_eq!(f2h(1e-5), 0x00a8);
    assert_eq!(h2f(0x00a8), 168.0 * 2f32.powi(-24));
    assert_eq!(f2h(f32::INFINITY) & 0x7fff, 0x7c00);
    assert_eq!(h2f(f2h(1234.5)), 1234.0);
}

#[test]
fn f16_rounds_within_half_an_ulp() {
    let vals = [1e-5f32, 0.353_553_38, 3.14159, -2.718_28, 1234.5, 0.100_582_8, 1.636_903];
    for v in vals {
        let back = h2f(f2h(v));
        let tol = (v.abs() * 2f32.powi(-11)).max(2f32.powi(-25));
        assert!(
            (back - v).abs() <= tol,
            "{} -> {} error {} exceeds {}",
            v,
            back,
            (back - v).abs(),
            tol
        );
    }
}

#[test]
fn key_rules() {
    assert!(gguf::key_ok("laya.temperature.0"));
    assert!(gguf::key_ok("general.architecture"));
    assert!(gguf::key_ok("laya.rope_theta.full"));
    assert!(gguf::key_ok("tokenizer.ggml.mask_token_id"));
    assert!(!gguf::key_ok("Laya.temperature"));
    assert!(!gguf::key_ok("laya.temperature-by-options"));
    assert!(!gguf::key_ok("laya.temperature:2"));
    assert!(!gguf::key_ok("laya..temperature"));
    assert!(!gguf::key_ok(".laya"));
    assert!(!gguf::key_ok(""));
}

#[test]
fn tensor_count_and_types() {
    let mut w = gguf::Writer::new();
    w.kv("general.architecture", Value::Str("laya".into())).unwrap();
    w.tensor("a", &[1024], T_F32, f32_bytes(&vec![1.0; 1024])).unwrap();
    w.tensor("b", &[3072, 1024], T_F16, f16_bytes(&vec![0.5; 3072 * 1024])).unwrap();
    let file = w.write().unwrap();
    let h = gguf::read(&file).unwrap();
    assert_eq!(h.tensors.len(), 2);
    let b = h.tensor("b").unwrap();
    assert_eq!(b.dims, vec![3072, 1024]);
    assert_eq!(b.nbytes(), 3072 * 1024 * 2);
    assert_eq!(
        h.data_off + h.tensor("a").unwrap().offset,
        h.data_off,
        "first tensor starts at the data section"
    );
    assert_eq!(
        h.tensor("b").unwrap().offset,
        4096,
        "second tensor follows the 4096-byte first tensor, aligned"
    );
}

#[test]
fn read_gives_back_what_was_written() {
    let mut w = gguf::Writer::new();
    w.kv("general.name", Value::Str("x".into())).unwrap();
    w.kv("a.b", Value::U32(7)).unwrap();
    w.tensor("w", &[2, 3], T_BF16, vec![0u8; 12]).unwrap();
    w.tensor("v", &[5], T_F32, vec![1u8; 20]).unwrap();
    let file = w.write().unwrap();
    let h = gguf::read(&file).unwrap();
    assert_eq!(h.kv.len(), 2);
    assert_eq!(h.kv[0].0, "general.name");
    assert_eq!(h.kv[1].0, "a.b");
    assert_eq!(h.u64_or("a.b", 0), 7);
    assert_eq!(h.tensors[0].name, "w");
    assert_eq!(h.tensors[0].dims, vec![2, 3]);
    assert_eq!(h.tensors[0].ty, T_BF16);
    assert_eq!(h.tensors[0].offset, 0);
    assert_eq!(h.tensors[1].offset, 32);
    assert_eq!(tensor_bytes(&file, &h, "v"), &[1u8; 20][..]);
    // every tensor's data, the last one's too, is padded to the alignment
    assert_eq!(file.len() as u64, h.data_off + 32 + 32);
}

#[test]
fn writer_refusals() {
    let mut w = gguf::Writer::new();
    assert_eq!(w.kv("Bad.key", Value::U8(1)), Err(GgufError::IllegalKey));
    assert_eq!(w.tensor("", &[1], T_F32, vec![0; 4]), Err(GgufError::IllegalTensorName));
    assert_eq!(w.tensor("t", &[], T_F32, vec![]), Err(GgufError::BadDims));
    assert_eq!(w.tensor("t", &[1, 1, 1, 1, 1], T_F32, vec![0; 4]), Err(GgufError::BadDims));
    assert_eq!(w.tensor("t", &[1], 2, vec![0; 4]), Err(GgufError::UnsupportedTensorType));
    assert_eq!(w.tensor("t", &[2], T_F16, vec![0; 3]), Err(GgufError::SizeMismatch));
    assert_eq!(w.tensor("t", &[2], T_F16, vec![0; 4]), Ok(()));
    assert_eq!(w.tensor("t", &[2], T_F16, vec![0; 4]), Err(GgufError::DuplicateTensor));
    w.kv("a.b", Value::U8(1)).unwrap();
    w.kv("a.b", Value::U8(2)).unwrap();
    assert_eq!(w.write().err(), Some(GgufError::DuplicateKey));

    let mut w = gguf::Writer::new();
    w.kv("a.mixed", Value::Array(vec![Value::U8(1), Value::U16(2)])).unwrap();
    assert_eq!(w.write().err(), Some(GgufError::MixedArray));
}

#[test]
fn reader_refusals() {
    let mut w = gguf::Writer::new();
    w.kv("a.b", Value::Str("hello".into())).unwrap();
    w.tensor("t", &[4], T_F32, vec![0; 16]).unwrap();
    let good = w.write().unwrap();
    assert!(gguf::read(&good).is_ok());

    assert_eq!(gguf::read(&good[..3]).err(), Some(GgufError::Truncated));
    let mut bad = good.clone();
    bad[0] = b'X';
    assert_eq!(gguf::read(&bad).err(), Some(GgufError::BadMagic));
    let mut bad = good.clone();
    bad[4] = 2;
    assert_eq!(gguf::read(&bad).err(), Some(GgufError::BadVersion));
    // the data of the only tensor is cut off
    assert_eq!(gguf::read(&good[..good.len() - 17]).err(), Some(GgufError::TensorOutsideFile));
    // the string value's bytes are not UTF-8
    let pos = good.windows(5).position(|s| s == b"hello").unwrap();
    let mut bad = good.clone();
    bad[pos] = 0xff;
    assert_eq!(gguf::read(&bad).err(), Some(GgufError::InvalidUtf8));
    // an unknown value type tag
    let tag = pos - 8 - 4;
    let mut bad = good.clone();
    bad[tag] = 99;
    assert_eq!(gguf::read(&bad).err(), Some(GgufError::UnknownValueType));
}

#[test]
fn alignment_and_element_sizes() {
    assert_eq!(gguf::align_up(0), 0);
    assert_eq!(gguf::align_up(1), 32);
    assert_eq!(gguf::align_up(32), 32);
    assert_eq!(gguf::align_up(33), 64);
    assert_eq!(gguf::elem_size(T_F32), 4);
    assert_eq!(gguf::elem_size(T_F16), 2);
    assert_eq!(gguf::elem_size(T_BF16), 2);
    assert_eq!(gguf::tensor_type_name(T_F32), "F32");
    assert_eq!(gguf::tensor_type_name(T_F16), "F16");
    assert_eq!(gguf::tensor_type_name(T_BF16), "BF16");
    assert_eq!(gguf::tensor_type_name(7), "?");
}

#[test]
fn tensor_data_decoding() {
    assert_eq!(decode(&[0x80, 0x3f, 0x00, 0xc0], T_BF16), vec![1.0, -2.0]);
    assert_eq!(decode(&[0x00, 0x3c, 0x00], T_F16), vec![1.0]);
    assert_eq!(decode(&[0, 0, 0x80, 0x3f, 7], T_F32), vec![1.0]);
    assert!(gguf::decode_f32(&[0, 0], 2).is_none());
    assert_eq!(gguf::as_f32_bytes(&[1.0f32.to_bits()]), vec![0, 0, 0x80, 0x3f]);
    assert_eq!(gguf::as_f16_bytes(&[1.0f32.to_bits(), (-2.0f32).to_bits()]), vec![0x00, 0x3c, 0x00, 0xc0]);
}

#[test]
fn half_round_trip_for_every_non_nan_half() {
    for h in 0..=u16::MAX {
        let nan = (h >> 10) & 0x1f == 0x1f && h & 0x3ff != 0;
        if !nan {
            assert_eq!(f2h_bits(h2f_bits(h)), h, "{:#06x}", h);
        }
    }
}

#[test]
fn written_tensor_values_read_back() {
    let bits: Vec<u32> = [0.5f32, -1.25, 3.0, 1e-3, 7.0, -0.0].iter().map(|x| x.to_bits()).collect();
    let mut w = gguf::Writer::new();
    w.kv("general.architecture", Value::Str("laya".into())).unwrap();
    w.tensor("first", &[5], T_F16, f16_bytes(&[1.0, 2.0, 3.0, 4.0, 5.0])).unwrap();
    w.tensor("m", &[3, 2], T_F32, gguf::as_f32_bytes(&bits)).unwrap();
    let file = w.write().unwrap();
    let h = gguf::read(&file).unwrap();
    let t = laya_rust::weights::Tensors { header: h, meta: laya_rust::weights::ModelMeta::defaults(), flip: Vec::new() };
    assert_eq!(t.values(&file, "m"), Some(bits));
    let halves: Vec<f32> = t.values(&file, "first").unwrap().into_iter().map(f32::from_bits).collect();
    assert_eq!(halves, vec![1.0, 2.0, 3.0, 4.0, 5.0]);
}

#[test]
fn tensor_sizes_follow_dims_and_type() {
    let t = gguf::TensorInfo { name: "t".to_string(), dims: vec![3, 4], ty: T_F16, offset: 0 };
    assert_eq!(t.elems(), 12);
    assert_eq!(t.nbytes(), 24);
    let e = gguf::TensorInfo { name: "e".to_string(), dims: vec![5, 0], ty: T_F32, offset: 0 };
    assert_eq!(e.elems(), 0);
}

#[test]
fn half_rounding_error_stays_within_half_an_ulp_at_the_edges() {
    let back = |v: f32| f32::from_bits(h2f_bits(f2h_bits(v.to_bits())));
    assert_eq!(back(65504.0), 65504.0);
    assert_eq!(back(-65504.0), -65504.0);
    assert_eq!(back(2f32.powi(-24)), 2f32.powi(-24));
    for v in [65503.0f32, 1.0 + 2f32.powi(-12), 2f32.powi(-25), 3.0 * 2f32.powi(-26), 1e-30, -7.3e-6, 0.333_333_34] {
        let err = (back(v) - v).abs();
        let tol = (v.abs() * 2f32.powi(-11)).max(2f32.powi(-25));
        assert!(err <= tol, "{v}: error {err} exceeds {tol}");
        assert_eq!(back(v).is_sign_negative(), v.is_sign_negative());
    }
}

/// A file with one metadata entry, an array of `n` bytes, followed by `tail` zero bytes.
fn byte_array_file(n: u64, tail: usize) -> Vec<u8> {
    let mut b = Vec::new();
    b.extend_from_slice(b"GGUF");
    b.extend_from_slice(&3u32.to_le_bytes());
    b.extend_from_slice(&0u64.to_le_bytes());
    b.extend_from_slice(&1u64.to_le_bytes());
    b.extend_from_slice(&3u64.to_le_bytes());
    b.extend_from_slice(b"a.b");
    b.extend_from_slice(&9u32.to_le_bytes());
    b.extend_from_slice(&0u32.to_le_bytes());
    b.extend_from_slice(&n.to_le_bytes());
    b.extend(std::iter::repeat(7u8).take(n as usize));
    b.extend(std::iter::repeat(0u8).take(tail));
    b
}

#[test]
fn arrays_are_judged_against_the_bytes_that_follow_them() {
    // 4 elements need 33 bytes after the count: the file is long enough, what follows is not
    let short = byte_array_file(4, 9);
    assert!(short.len() >= 33);
    assert_eq!(gguf::read(&short).err(), Some(GgufError::ImplausibleArray));
    // with 29 bytes after the elements the same array passes
    let h = gguf::read(&byte_array_file(4, 29 + 32)).unwrap();
    assert!(matches!(h.get("a.b"), Some(Value::Array(v)) if v.len() == 4));
}
