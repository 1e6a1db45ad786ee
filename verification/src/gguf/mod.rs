pub mod error;
pub mod format;
pub mod header;
pub mod laws;
pub mod read;
pub mod value;
pub mod wire;
pub mod write;
pub mod writer;
pub mod tensor_data;

pub use error::GgufError;
pub use format::{ALIGNMENT, FT_ALL_F32, FT_MOSTLY_F16, Header, MAGIC, T_BF16, T_F16, T_F32, TensorInfo, VERSION};
pub use header::{align_up, elem_size, tensor_type_name};
pub use read::read;
pub use tensor_data::{as_f16_bytes, as_f32_bytes, decode_f32};
pub use value::Value;
pub use writer::{Writer, key_ok};
