use laya_rust::arch;
use laya_rust::backend::{self, eligible, GroupArg};
use laya_rust::cli::removed_flag;
use laya_rust::engine::{BackendId, DType};
use laya_rust::{gguf_path, model_path, model_spec};

#[test]
fn architecture_tables() {
    let names = arch::weight_names();
    assert_eq!(names.len(), 15 + 6 * arch::NLAYER + 12 * arch::HEAD_LAYERS);
    assert_eq!(names[0], arch::TOK_EMB);
    assert_eq!(names[15], arch::ATTN_NORM[0]);
    let t = arch::transpose_names();
    assert_eq!(t.len(), 4 * arch::NLAYER + 3 * arch::HEAD_LAYERS + 2);
    assert_eq!(t[t.len() - 1], arch::SCORER_OUT);
    assert!(arch::is_global_layer(0));
    assert!(!arch::is_global_layer(1));
    assert!(arch::is_global_layer(27));
    assert_eq!(arch::ACT_INPUT, arch::H + 4);
}

#[test]
fn backends() {
    assert!(backend::compiled(BackendId::Cpu));
    assert!(!backend::compiled(BackendId::Cuda));
    assert_eq!(backend::available(), vec!["cpu"]);
    assert_eq!(backend::auto_id(), BackendId::Cpu);
    assert_eq!(BackendId::parse("mlx"), Some(BackendId::Mlx));
    assert_eq!(BackendId::parse("gpu"), None);
    for id in [BackendId::Auto, BackendId::Cuda, BackendId::Mlx, BackendId::Cpu] {
        assert_eq!(BackendId::parse(id.name()), Some(id));
    }
    assert_eq!(DType::F32.name(), "fp32");
    assert_eq!(DType::F16.name(), "fp16");
    assert!(eligible(&[4, 128], 64));
    assert!(!eligible(&[4, 100], 64));
    assert!(!eligible(&[128], 64));
    assert!(!eligible(&[4, 128], 0));
    assert_eq!(GroupArg::G32.value(), 32);
    assert_eq!(GroupArg::G64.value(), 64);
    assert_eq!(GroupArg::G128.value(), 128);
}

#[test]
fn model_paths() {
    assert_eq!(gguf_path("models/laya", false), "models/laya/laya-f16.gguf");
    assert_eq!(gguf_path("models/laya//", false), "models/laya/laya-f16.gguf");
    assert_eq!(gguf_path("x/m.gguf", true), "x/m.gguf");
    let s = model_spec("m", false, BackendId::Cpu, true);
    assert_eq!(s.base, "m/laya-f16.gguf");
    assert_eq!((s.backend, s.quantized, s.quant_bits, s.quant_group), (BackendId::Cpu, true, 4, 64));
}

#[test]
fn removed_flags_are_named() {
    let args = |v: &[&str]| v.iter().map(|s| s.to_string()).collect::<Vec<String>>();
    assert_eq!(removed_flag(&args(&["test", "--model", "m"])), None);
    assert!(removed_flag(&args(&["test", "--dtype=f16"])).unwrap().starts_with("--dtype is gone"));
    assert!(removed_flag(&args(&["--gemm", "--weights-json"])).unwrap().starts_with("--gemm is gone"));
    assert_eq!(removed_flag(&args(&["--dtypes"])), None);
}

#[test]
fn the_model_argument_wins_then_the_environment_then_the_default() {
    assert_eq!(model_path(Some("m.gguf"), Some("env")), "m.gguf");
    assert_eq!(model_path(None, Some("from/env")), "from/env");
    assert_eq!(model_path(None, Some("")), "models/laya");
    assert_eq!(model_path(None, None), "models/laya");
}

#[test]
fn auto_resolves_to_a_carried_backend() {
    assert_eq!(backend::resolve_backend(BackendId::Auto), BackendId::Cpu);
    assert_eq!(backend::resolve_backend(BackendId::Mlx), BackendId::Mlx);
}
