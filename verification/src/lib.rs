pub mod arch;
pub mod backend;
pub mod batch;
pub mod cli;
pub mod convert;
pub mod engine;
pub mod gguf;
pub mod text;
pub mod tokenizer;
pub mod weights;
pub mod paths;
pub mod systemone;
pub mod scenarios;
pub mod rows;
pub mod loads;
pub mod request;
pub mod json_text;

pub use paths::{DEFAULT_MODEL, GGUF_FILE, MODEL_ENV, gguf_path, model_path, model_spec};
