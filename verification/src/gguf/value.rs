//! Metadata values and their wire encoding.
use super::wire::{le16, le32, le64};
use vstd::utf8::encode_utf8;
use vstd::prelude::*;

verus! {

/// A metadata value. `F32` and `F64` hold the IEEE-754 bit patterns of the numbers.
pub enum Value {
    U8(u8),
    I8(i8),
    U16(u16),
    I16(i16),
    U32(u32),
    I32(i32),
    F32(u32),
    Bool(bool),
    Str(String),
    Array(Vec<Value>),
    U64(u64),
    I64(i64),
    F64(u64),
}

/// The mathematical content of a [`Value`].
pub enum ValueView {
    U8(u8),
    I8(i8),
    U16(u16),
    I16(i16),
    U32(u32),
    I32(i32),
    F32(u32),
    Bool(bool),
    Str(Seq<char>),
    Array(Seq<ValueView>),
    U64(u64),
    I64(i64),
    F64(u64),
}

pub open spec fn view_value(v: Value) -> ValueView
    decreases v, 0nat,
{
    match v {
        Value::U8(x) => ValueView::U8(x),
        Value::I8(x) => ValueView::I8(x),
        Value::U16(x) => ValueView::U16(x),
        Value::I16(x) => ValueView::I16(x),
        Value::U32(x) => ValueView::U32(x),
        Value::I32(x) => ValueView::I32(x),
        Value::F32(x) => ValueView::F32(x),
        Value::Bool(x) => ValueView::Bool(x),
        Value::Str(s) => ValueView::Str(s@),
        Value::Array(a) => ValueView::Array(view_values(a@)),
        Value::U64(x) => ValueView::U64(x),
        Value::I64(x) => ValueView::I64(x),
        Value::F64(x) => ValueView::F64(x),
    }
}

pub open spec fn view_values(vs: Seq<Value>) -> Seq<ValueView>
    decreases vs, vs.len(),
{
    if vs.len() == 0 {
        Seq::empty()
    } else {
        view_values(vs.subrange(0, vs.len() - 1)).push(view_value(vs[vs.len() - 1]))
    }
}

impl View for Value {
    type V = ValueView;

    open spec fn view(&self) -> ValueView {
        view_value(*self)
    }
}

/// `view_values` views each element in place.
pub proof fn lemma_view_values(vs: Seq<Value>)
    ensures
        view_values(vs).len() == vs.len(),
        forall|i: int| 0 <= i < vs.len() ==> #[trigger] view_values(vs)[i] == view_value(vs[i]),
    decreases vs.len(),
{
    if vs.len() > 0 {
        lemma_view_values(vs.subrange(0, vs.len() - 1));
    }
}

/// The GGUF type tag of a value.
pub open spec fn type_of(v: ValueView) -> u32 {
    match v {
        ValueView::U8(_) => 0,
        ValueView::I8(_) => 1,
        ValueView::U16(_) => 2,
        ValueView::I16(_) => 3,
        ValueView::U32(_) => 4,
        ValueView::I32(_) => 5,
        ValueView::F32(_) => 6,
        ValueView::Bool(_) => 7,
        ValueView::Str(_) => 8,
        ValueView::Array(_) => 9,
        ValueView::U64(_) => 10,
        ValueView::I64(_) => 11,
        ValueView::F64(_) => 12,
    }
}

/// The element type written for an array: that of its first element, or 0 when it is empty.
pub open spec fn elem_type_of(a: Seq<ValueView>) -> u32 {
    if a.len() == 0 {
        0
    } else {
        type_of(a[0])
    }
}

/// Every array, at every depth, holds elements of one type.
pub open spec fn uniform(v: ValueView) -> bool
    decreases v, 0nat,
{
    match v {
        ValueView::Array(a) => uniform_all(a, elem_type_of(a)),
        _ => true,
    }
}

/// Each of `a` has type `t` and is itself uniform.
pub open spec fn uniform_all(a: Seq<ValueView>, t: u32) -> bool
    decreases a, a.len(),
{
    if a.len() == 0 {
        true
    } else {
        uniform_all(a.subrange(0, a.len() - 1), t) && type_of(a[a.len() - 1]) == t && uniform(
            a[a.len() - 1],
        )
    }
}

pub proof fn lemma_uniform_all(a: Seq<ValueView>, t: u32)
    ensures
        uniform_all(a, t) <==> forall|i: int|
            0 <= i < a.len() ==> type_of(#[trigger] a[i]) == t && uniform(a[i]),
    decreases a.len(),
{
    if a.len() > 0 {
        let p = a.subrange(0, a.len() - 1);
        lemma_uniform_all(p, t);
        assert forall|i: int| 0 <= i < p.len() implies #[trigger] p[i] == a[i] by {}
        if uniform_all(a, t) {
            assert forall|i: int| 0 <= i < a.len() implies type_of(#[trigger] a[i]) == t && uniform(a[i]) by {
                if i < a.len() - 1 {
                    assert(p[i] == a[i]);
                }
            }
        }
        if forall|i: int| 0 <= i < a.len() ==> type_of(#[trigger] a[i]) == t && uniform(a[i]) {
            assert forall|i: int| 0 <= i < p.len() implies type_of(#[trigger] p[i]) == t && uniform(p[i]) by {
                assert(p[i] == a[i]);
            }
        }
    }
}

/// The bytes of a GGUF string: its UTF-8 length as a u64, then the UTF-8 bytes.
pub open spec fn enc_str(s: Seq<char>) -> Seq<u8> {
    le64(encode_utf8(s).len() as u64) + encode_utf8(s)
}

/// The bytes that encode a value of its own type (the type tag is written separately).
pub open spec fn enc_value(v: ValueView) -> Seq<u8>
    decreases v, 0nat,
{
    match v {
        ValueView::U8(x) => seq![x],
        ValueView::I8(x) => seq![x as u8],
        ValueView::U16(x) => le16(x),
        ValueView::I16(x) => le16(x as u16),
        ValueView::U32(x) => le32(x),
        ValueView::I32(x) => le32(x as u32),
        ValueView::F32(x) => le32(x),
        ValueView::Bool(x) => seq![if x { 1u8 } else { 0u8 }],
        ValueView::Str(s) => enc_str(s),
        ValueView::Array(a) => le32(elem_type_of(a)) + le64(a.len() as u64) + enc_values(a),
        ValueView::U64(x) => le64(x),
        ValueView::I64(x) => le64(x as u64),
        ValueView::F64(x) => le64(x),
    }
}

/// The concatenated encodings of `a`, in order.
pub open spec fn enc_values(a: Seq<ValueView>) -> Seq<u8>
    decreases a, a.len(),
{
    if a.len() == 0 {
        Seq::empty()
    } else {
        enc_values(a.subrange(0, a.len() - 1)) + enc_value(a[a.len() - 1])
    }
}

impl Value {
    /// The GGUF type tag of this value.
    pub fn type_id(&self) -> (r: u32)
        ensures
            r == type_of(self@),
    {
        match self {
            Value::U8(_) => 0,
            Value::I8(_) => 1,
            Value::U16(_) => 2,
            Value::I16(_) => 3,
            Value::U32(_) => 4,
            Value::I32(_) => 5,
            Value::F32(_) => 6,
            Value::Bool(_) => 7,
            Value::Str(_) => 8,
            Value::Array(_) => 9,
            Value::U64(_) => 10,
            Value::I64(_) => 11,
            Value::F64(_) => 12,
        }
    }

    /// The string, where this value is one.
    pub fn as_str(&self) -> (r: Option<&str>)
        ensures
            match self@ {
                ValueView::Str(s) => r is Some && r->0@ == s,
                _ => r is None,
            },
    {
        match self {
            Value::Str(s) => Some(s.as_str()),
            _ => None,
        }
    }

    /// An integer value of any width, cast to u64 (signed values wrap to their two's complement).
    pub fn as_u64(&self) -> (r: Option<u64>)
        ensures
            r == as_u64_spec(self@),
    {
        match self {
            Value::U8(v) => Some(*v as u64),
            Value::U16(v) => Some(*v as u64),
            Value::U32(v) => Some(*v as u64),
            Value::U64(v) => Some(*v),
            Value::I8(v) => Some(*v as u64),
            Value::I16(v) => Some(*v as u64),
            Value::I32(v) => Some(*v as u64),
            Value::I64(v) => Some(*v as u64),
            _ => None,
        }
    }

    /// For an array, each element as a string, with "" for an element that is not one;
    /// for any other value, nothing.
    pub fn as_strs(&self) -> (r: Vec<String>)
        ensures
            r@.len() == as_strs_spec(self@).len(),
            forall|i: int| 0 <= i < r@.len() ==> #[trigger] r@[i]@ == as_strs_spec(self@)[i],
    {
        match self {
            Value::Array(a) => {
                proof {
                    lemma_view_values(a@);
                }
                let mut out: Vec<String> = Vec::new();
                let mut i: usize = 0;
                while i < a.len()
                    invariant
                        i <= a.len(),
                        self@ == ValueView::Array(view_values(a@)),
                        view_values(a@).len() == a@.len(),
                        forall|j: int| 0 <= j < a@.len() ==> #[trigger] view_values(a@)[j] == view_value(a@[j]),
                        out@.len() == i,
                        forall|j: int| 0 <= j < i ==> #[trigger] out@[j]@ == str_or_empty(view_value(a@[j])),
                    decreases a.len() - i,
                {
                    let s = match &a[i] {
                        Value::Str(s) => s.clone(),
                        _ => String::new(),
                    };
                    out.push(s);
                    i = i + 1;
                }
                out
            },
            _ => Vec::new(),
        }
    }
}

pub open spec fn as_u64_spec(v: ValueView) -> Option<u64> {
    match v {
        ValueView::U8(x) => Some(x as u64),
        ValueView::U16(x) => Some(x as u64),
        ValueView::U32(x) => Some(x as u64),
        ValueView::U64(x) => Some(x),
        ValueView::I8(x) => Some(x as u64),
        ValueView::I16(x) => Some(x as u64),
        ValueView::I32(x) => Some(x as u64),
        ValueView::I64(x) => Some(x as u64),
        _ => None,
    }
}

pub open spec fn str_or_empty(v: ValueView) -> Seq<char> {
    match v {
        ValueView::Str(s) => s,
        _ => Seq::empty(),
    }
}

pub open spec fn as_strs_spec(v: ValueView) -> Seq<Seq<char>> {
    match v {
        ValueView::Array(a) => a.map_values(|x: ValueView| str_or_empty(x)),
        _ => Seq::empty(),
    }
}

} // verus!
