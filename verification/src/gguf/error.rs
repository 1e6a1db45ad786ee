//! Why a GGUF file, or a GGUF writer's content, was refused.
use vstd::prelude::*;

verus! {

#[derive(Clone, Copy, Debug, PartialEq, Eq, Structural)]
pub enum GgufError {
    /// A read would pass the end of the input.
    Truncated,
    /// The file does not start with the GGUF magic.
    BadMagic,
    /// The file has a GGUF version other than 3.
    BadVersion,
    /// The header claims more tensors and metadata entries than the file can hold.
    ImplausibleCounts,
    /// A string is not valid UTF-8.
    InvalidUtf8,
    /// A metadata value has an unknown type tag.
    UnknownValueType,
    /// An array claims more elements than the rest of the file can hold.
    ImplausibleArray,
    /// A tensor has no dimensions or more than four.
    BadDims,
    /// The aligned start of the tensor data lies past the end of the file.
    DataPastEnd,
    /// A tensor's offset is not a multiple of the alignment.
    UnalignedOffset,
    /// A tensor type other than F32, F16 and BF16.
    UnsupportedTensorType,
    /// A tensor's data lies (partly) outside the file.
    TensorOutsideFile,
    /// A metadata key that breaks the key rules.
    IllegalKey,
    /// A tensor name that is empty, longer than 64 bytes or not ASCII.
    IllegalTensorName,
    /// Tensor data whose length differs from what its shape and type imply.
    SizeMismatch,
    /// A tensor name given twice.
    DuplicateTensor,
    /// A metadata key given twice.
    DuplicateKey,
    /// An array whose elements do not share one type.
    MixedArray,
    /// The file would be longer than this machine can address.
    TooLarge,
}

} // verus!
