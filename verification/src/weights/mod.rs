pub mod half;
pub mod half_error;
pub mod meta;
pub mod options;
pub mod tensors;

pub use half::{f2h_bits, h2f_bits, narrow_bits};
pub use meta::{MetaError, ModelMeta};
pub use tensors::{Tensors, TensorsError, transpose};
