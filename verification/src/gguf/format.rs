//! The GGUF container: constants, tensor records, headers, and what reading a file means.
use super::error::GgufError;
use super::value::{Value, ValueView};
use super::wire::{get16, get32, get64};
use vstd::prelude::*;
use vstd::utf8::{decode_utf8, valid_utf8};

verus! {

/// "GGUF" read as a little-endian u32.
pub const MAGIC: u32 = 0x4655_4747;

/// The only GGUF version this crate reads and writes.
pub const VERSION: u32 = 3;

/// Tensor data and the start of the data section are aligned to this many bytes.
pub const ALIGNMENT: u64 = 32;

pub const T_F32: u32 = 0;

pub const T_F16: u32 = 1;

pub const T_BF16: u32 = 30;

pub const FT_ALL_F32: u32 = 0;

pub const FT_MOSTLY_F16: u32 = 1;

/// One entry of the tensor table.
pub struct TensorInfo {
    pub name: String,
    pub dims: Vec<u64>,
    pub ty: u32,
    pub offset: u64,
}

pub struct TensorInfoView {
    pub name: Seq<char>,
    pub dims: Seq<u64>,
    pub ty: u32,
    pub offset: u64,
}

impl View for TensorInfo {
    type V = TensorInfoView;

    open spec fn view(&self) -> TensorInfoView {
        TensorInfoView { name: self.name@, dims: self.dims@, ty: self.ty, offset: self.offset }
    }
}

/// The parsed head of a GGUF file: metadata, tensor table, and where tensor data starts.
pub struct Header {
    pub kv: Vec<(String, Value)>,
    pub tensors: Vec<TensorInfo>,
    pub data_off: u64,
}

pub struct HeaderView {
    pub kv: Seq<(Seq<char>, ValueView)>,
    pub tensors: Seq<TensorInfoView>,
    pub data_off: u64,
}

pub open spec fn view_kv(kv: Seq<(String, Value)>) -> Seq<(Seq<char>, ValueView)> {
    kv.map_values(|p: (String, Value)| (p.0@, p.1@))
}

pub open spec fn view_tensors(ts: Seq<TensorInfo>) -> Seq<TensorInfoView> {
    ts.map_values(|t: TensorInfo| t@)
}

impl View for Header {
    type V = HeaderView;

    open spec fn view(&self) -> HeaderView {
        HeaderView { kv: view_kv(self.kv@), tensors: view_tensors(self.tensors@), data_off: self.data_off }
    }
}

/// `x` rounded up to the next multiple of the alignment.
pub open spec fn align_up_spec(x: int) -> int {
    x + (ALIGNMENT - x % (ALIGNMENT as int)) % (ALIGNMENT as int)
}

/// The tensor types this crate reads and writes.
pub open spec fn supported_type(ty: u32) -> bool {
    ty == T_F32 || ty == T_F16 || ty == T_BF16
}

pub open spec fn elem_bytes(ty: u32) -> int {
    if ty == T_F32 {
        4
    } else {
        2
    }
}

/// The number of elements of a tensor with these dimensions.
pub open spec fn product(dims: Seq<u64>) -> int
    decreases dims.len(),
{
    if dims.len() == 0 {
        1
    } else {
        product(dims.subrange(0, dims.len() - 1)) * dims[dims.len() - 1]
    }
}

pub open spec fn tensor_bytes(t: TensorInfoView) -> int {
    product(t.dims) * elem_bytes(t.ty)
}

// ---- what reading means: each function gives the value read at `p` and the position after it.

pub open spec fn sp_u8(b: Seq<u8>, p: int) -> Result<(u8, int), GgufError> {
    if 0 <= p && p + 1 <= b.len() {
        Ok((b[p], p + 1))
    } else {
        Err(GgufError::Truncated)
    }
}

pub open spec fn sp_u16(b: Seq<u8>, p: int) -> Result<(u16, int), GgufError> {
    if 0 <= p && p + 2 <= b.len() {
        Ok((get16(b, p), p + 2))
    } else {
        Err(GgufError::Truncated)
    }
}

pub open spec fn sp_u32(b: Seq<u8>, p: int) -> Result<(u32, int), GgufError> {
    if 0 <= p && p + 4 <= b.len() {
        Ok((get32(b, p), p + 4))
    } else {
        Err(GgufError::Truncated)
    }
}

pub open spec fn sp_u64(b: Seq<u8>, p: int) -> Result<(u64, int), GgufError> {
    if 0 <= p && p + 8 <= b.len() {
        Ok((get64(b, p), p + 8))
    } else {
        Err(GgufError::Truncated)
    }
}

/// A string: a u64 byte count, then that many bytes of UTF-8.
pub open spec fn sp_str(b: Seq<u8>, p: int) -> Result<(Seq<char>, int), GgufError> {
    match sp_u64(b, p) {
        Err(e) => Err(e),
        Ok((n, q)) => if q + n > b.len() {
            Err(GgufError::Truncated)
        } else if valid_utf8(b.subrange(q, q + n)) {
            Ok((decode_utf8(b.subrange(q, q + n)), q + n))
        } else {
            Err(GgufError::InvalidUtf8)
        },
    }
}

/// A metadata value of any type but array.
pub open spec fn sp_scalar(b: Seq<u8>, p: int, ty: u32) -> Result<(ValueView, int), GgufError>
{
    if ty == 0 {
        match sp_u8(b, p) {
            Ok((x, q)) => Ok((ValueView::U8(x), q)),
            Err(e) => Err(e),
        }
    } else if ty == 1 {
        match sp_u8(b, p) {
            Ok((x, q)) => Ok((ValueView::I8(x as i8), q)),
            Err(e) => Err(e),
        }
    } else if ty == 2 {
        match sp_u16(b, p) {
            Ok((x, q)) => Ok((ValueView::U16(x), q)),
            Err(e) => Err(e),
        }
    } else if ty == 3 {
        match sp_u16(b, p) {
            Ok((x, q)) => Ok((ValueView::I16(x as i16), q)),
            Err(e) => Err(e),
        }
    } else if ty == 4 {
        match sp_u32(b, p) {
            Ok((x, q)) => Ok((ValueView::U32(x), q)),
            Err(e) => Err(e),
        }
    } else if ty == 5 {
        match sp_u32(b, p) {
            Ok((x, q)) => Ok((ValueView::I32(x as i32), q)),
            Err(e) => Err(e),
        }
    } else if ty == 6 {
        match sp_u32(b, p) {
            Ok((x, q)) => Ok((ValueView::F32(x), q)),
            Err(e) => Err(e),
        }
    } else if ty == 7 {
        match sp_u8(b, p) {
            Ok((x, q)) => Ok((ValueView::Bool(x != 0), q)),
            Err(e) => Err(e),
        }
    } else if ty == 8 {
        match sp_str(b, p) {
            Ok((s, q)) => Ok((ValueView::Str(s), q)),
            Err(e) => Err(e),
        }
    } else if ty == 10 {
        match sp_u64(b, p) {
            Ok((x, q)) => Ok((ValueView::U64(x), q)),
            Err(e) => Err(e),
        }
    } else if ty == 11 {
        match sp_u64(b, p) {
            Ok((x, q)) => Ok((ValueView::I64(x as i64), q)),
            Err(e) => Err(e),
        }
    } else if ty == 12 {
        match sp_u64(b, p) {
            Ok((x, q)) => Ok((ValueView::F64(x), q)),
            Err(e) => Err(e),
        }
    } else {
        Err(GgufError::UnknownValueType)
    }
}

/// An array: element type, element count, then the elements; refused as implausible when
/// eight bytes per element, plus one, exceed the bytes that follow the count.
pub open spec fn sp_array(b: Seq<u8>, p: int) -> Result<(ValueView, int), GgufError>
    decreases b.len() - p, 0nat, 0nat,
{
    match sp_u32(b, p) {
        Err(e) => Err(e),
        Ok((et, q1)) => match sp_u64(b, q1) {
            Err(e) => Err(e),
            Ok((n, q2)) => if n * 8 + 1 > b.len() - q2 {
                Err(GgufError::ImplausibleArray)
            } else {
                match sp_values(b, q2, et, n as nat) {
                    Ok((vs, q3)) => Ok((ValueView::Array(vs), q3)),
                    Err(e) => Err(e),
                }
            },
        },
    }
}

/// A metadata value of type `ty`.
pub open spec fn sp_value(b: Seq<u8>, p: int, ty: u32) -> Result<(ValueView, int), GgufError>
    decreases b.len() - p, 1nat, 0nat,
{
    if ty == 9 {
        sp_array(b, p)
    } else {
        sp_scalar(b, p, ty)
    }
}

/// `n` values of type `et`, one after the other. (A value takes at least one byte, so the
/// position check in the step never fails; it is there to make the recursion well founded.)
pub open spec fn sp_values(b: Seq<u8>, p: int, et: u32, n: nat) -> Result<(Seq<ValueView>, int), GgufError>
    decreases b.len() - p, 2nat, n,
{
    if n == 0 {
        Ok((Seq::empty(), p))
    } else {
        match sp_values(b, p, et, (n - 1) as nat) {
            Err(e) => Err(e),
            Ok((vs, q)) => if q < p || q > b.len() {
                Err(GgufError::Truncated)
            } else {
                match sp_value(b, q, et) {
                    Err(e) => Err(e),
                    Ok((v, r)) => Ok((vs.push(v), r)),
                }
            },
        }
    }
}

/// `n` metadata entries: key, type tag, value.
pub open spec fn sp_kvs(b: Seq<u8>, p: int, n: nat) -> Result<(Seq<(Seq<char>, ValueView)>, int), GgufError>
    decreases n,
{
    if n == 0 {
        Ok((Seq::empty(), p))
    } else {
        match sp_kvs(b, p, (n - 1) as nat) {
            Err(e) => Err(e),
            Ok((kvs, q)) => match sp_str(b, q) {
                Err(e) => Err(e),
                Ok((k, q1)) => match sp_u32(b, q1) {
                    Err(e) => Err(e),
                    Ok((ty, q2)) => match sp_value(b, q2, ty) {
                        Err(e) => Err(e),
                        Ok((v, q3)) => Ok((kvs.push((k, v)), q3)),
                    },
                },
            },
        }
    }
}

/// `n` u64 dimensions.
pub open spec fn sp_dims(b: Seq<u8>, p: int, n: nat) -> Result<(Seq<u64>, int), GgufError>
    decreases n,
{
    if n == 0 {
        Ok((Seq::empty(), p))
    } else {
        match sp_dims(b, p, (n - 1) as nat) {
            Err(e) => Err(e),
            Ok((ds, q)) => match sp_u64(b, q) {
                Err(e) => Err(e),
                Ok((d, r)) => Ok((ds.push(d), r)),
            },
        }
    }
}

/// One tensor record: name, dimension count (1 to 4), dimensions, type, offset.
pub open spec fn sp_tensor(b: Seq<u8>, p: int) -> Result<(TensorInfoView, int), GgufError> {
    match sp_str(b, p) {
        Err(e) => Err(e),
        Ok((name, q1)) => match sp_u32(b, q1) {
            Err(e) => Err(e),
            Ok((nd, q2)) => if nd == 0 || nd > 4 {
                Err(GgufError::BadDims)
            } else {
                match sp_dims(b, q2, nd as nat) {
                    Err(e) => Err(e),
                    Ok((dims, q3)) => match sp_u32(b, q3) {
                        Err(e) => Err(e),
                        Ok((ty, q4)) => match sp_u64(b, q4) {
                            Err(e) => Err(e),
                            Ok((offset, q5)) => Ok(
                                (TensorInfoView { name, dims, ty, offset }, q5),
                            ),
                        },
                    },
                }
            },
        },
    }
}

pub open spec fn sp_tensors(b: Seq<u8>, p: int, n: nat) -> Result<(Seq<TensorInfoView>, int), GgufError>
    decreases n,
{
    if n == 0 {
        Ok((Seq::empty(), p))
    } else {
        match sp_tensors(b, p, (n - 1) as nat) {
            Err(e) => Err(e),
            Ok((ts, q)) => match sp_tensor(b, q) {
                Err(e) => Err(e),
                Ok((t, r)) => Ok((ts.push(t), r)),
            },
        }
    }
}

/// The placement checks on the tensor table, tensor by tensor in order.
pub open spec fn sp_check(ts: Seq<TensorInfoView>, data_off: int, len: int) -> Result<(), GgufError>
    decreases ts.len(),
{
    if ts.len() == 0 {
        Ok(())
    } else {
        match sp_check(ts.subrange(0, ts.len() - 1), data_off, len) {
            Err(e) => Err(e),
            Ok(()) => {
                let t = ts[ts.len() - 1];
                if t.offset % ALIGNMENT != 0 {
                    Err(GgufError::UnalignedOffset)
                } else if !supported_type(t.ty) {
                    Err(GgufError::UnsupportedTensorType)
                } else if data_off + t.offset + tensor_bytes(t) > len {
                    Err(GgufError::TensorOutsideFile)
                } else {
                    Ok(())
                }
            },
        }
    }
}

/// What reading the GGUF file `b` gives.
pub open spec fn sp_header(b: Seq<u8>) -> Result<HeaderView, GgufError> {
    match sp_u32(b, 0) {
        Err(e) => Err(e),
        Ok((magic, _)) => if magic != MAGIC {
            Err(GgufError::BadMagic)
        } else {
            match sp_u32(b, 4) {
                Err(e) => Err(e),
                Ok((version, _)) => if version != VERSION {
                    Err(GgufError::BadVersion)
                } else {
                    match sp_u64(b, 8) {
                        Err(e) => Err(e),
                        Ok((tc, _)) => match sp_u64(b, 16) {
                            Err(e) => Err(e),
                            Ok((kc, _)) => if tc * 64 + kc * 16 > b.len() {
                                Err(GgufError::ImplausibleCounts)
                            } else {
                                match sp_kvs(b, 24, kc as nat) {
                                    Err(e) => Err(e),
                                    Ok((kv, p1)) => match sp_tensors(b, p1, tc as nat) {
                                        Err(e) => Err(e),
                                        Ok((tensors, p2)) => {
                                            let data_off = align_up_spec(p2);
                                            if data_off > b.len() {
                                                Err(GgufError::DataPastEnd)
                                            } else {
                                                match sp_check(tensors, data_off, b.len() as int) {
                                                    Err(e) => Err(e),
                                                    Ok(()) => Ok(
                                                        HeaderView {
                                                            kv,
                                                            tensors,
                                                            data_off: data_off as u64,
                                                        },
                                                    ),
                                                }
                                            }
                                        },
                                    },
                                }
                            },
                        },
                    }
                }
            }
        },
    }
}

} // verus!
