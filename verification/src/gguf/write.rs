//! Encoding metadata values.
use super::error::GgufError;
use super::value::{
    Value, ValueView, enc_str, enc_value, enc_values, elem_type_of, lemma_uniform_all,
    lemma_view_values, type_of, uniform, uniform_all, view_values,
};
use super::wire::{put_u32, put_u64};
use vstd::prelude::*;

verus! {

/// Appends the bytes of `src`.
pub fn put_bytes(b: &mut Vec<u8>, src: &[u8])
    ensures
        final(b)@ == old(b)@ + src@,
{
    let mut i: usize = 0;
    while i < src.len()
        invariant
            i <= src@.len(),
            b@ == old(b)@ + src@.subrange(0, i as int),
        decreases src.len() - i,
    {
        b.push(src[i]);
        i = i + 1;
        assert(src@.subrange(0, i as int) == src@.subrange(0, i - 1).push(src@[i - 1]));
    }
    assert(src@.subrange(0, src@.len() as int) == src@);
}

/// Appends a GGUF string: its byte length, then its UTF-8 bytes.
pub fn put_string(b: &mut Vec<u8>, s: &str)
    ensures
        final(b)@ == old(b)@ + enc_str(s@),
{
    let bytes = s.as_bytes();
    put_u64(b, bytes.len() as u64);
    put_bytes(b, bytes);
    assert(old(b)@ + enc_str(s@) == b@);
}

/// Appends the encoding of `v`, or refuses an array whose elements do not share one type.
pub fn put_value(b: &mut Vec<u8>, v: &Value) -> (r: Result<(), GgufError>)
    ensures
        r is Ok <==> uniform(v@),
        r is Ok ==> final(b)@ == old(b)@ + enc_value(v@),
        r matches Err(e) ==> e == GgufError::MixedArray,
    decreases v,
{
    match v {
        Value::U8(x) => {
            b.push(*x);
        },
        Value::I8(x) => {
            b.push(*x as u8);
        },
        Value::U16(x) => {
            super::wire::put_u16(b, *x);
        },
        Value::I16(x) => {
            super::wire::put_u16(b, *x as u16);
        },
        Value::U32(x) => {
            put_u32(b, *x);
        },
        Value::I32(x) => {
            put_u32(b, *x as u32);
        },
        Value::F32(x) => {
            put_u32(b, *x);
        },
        Value::Bool(x) => {
            b.push(if *x { 1u8 } else { 0u8 });
        },
        Value::Str(s) => {
            put_string(b, s.as_str());
        },
        Value::Array(a) => {
            proof {
                lemma_view_values(a@);
            }
            let ghost av = view_values(a@);
            assert(v@ == ValueView::Array(av));
            let et: u32 = if a.len() == 0 { 0 } else { a[0].type_id() };
            assert(et == elem_type_of(av));
            let mut i: usize = 0;
            while i < a.len()
                invariant
                    i <= a@.len(),
                    *v == Value::Array(*a),
                    v@ == ValueView::Array(av),
                    av == view_values(a@),
                    et == elem_type_of(av),
                    av.len() == a@.len(),
                    forall|j: int| 0 <= j < a@.len() ==> #[trigger] av[j] == a@[j]@,
                    forall|j: int| 0 <= j < i ==> type_of(#[trigger] av[j]) == et,
                decreases a.len() - i,
            {
                if a[i].type_id() != et {
                    proof {
                        lemma_uniform_all(av, et);
                        assert(type_of(av[i as int]) != et);
                    }
                    return Err(GgufError::MixedArray);
                }
                i = i + 1;
            }
            put_u32(b, et);
            put_u64(b, a.len() as u64);
            let ghost start = b@;
            let mut i: usize = 0;
            while i < a.len()
                invariant
                    i <= a@.len(),
                    *v == Value::Array(*a),
                    v@ == ValueView::Array(av),
                    av == view_values(a@),
                    et == elem_type_of(av),
                    av.len() == a@.len(),
                    forall|j: int| 0 <= j < a@.len() ==> #[trigger] av[j] == a@[j]@,
                    forall|j: int| 0 <= j < a@.len() ==> type_of(#[trigger] av[j]) == et,
                    forall|j: int| 0 <= j < i ==> uniform(#[trigger] av[j]),
                    b@ == start + enc_values(av.subrange(0, i as int)),
                decreases a.len() - i,
            {
                let ghost before = b@;
                proof {
                    broadcast use vstd::std_specs::vec::axiom_vec_index_decreases;
                    assert(decreases_to!(*v => a));
                    assert(decreases_to!(a => a[i as int]));
                }
                let r = put_value(b, &a[i]);
                if r.is_err() {
                    proof {
                        lemma_uniform_all(av, et);
                        assert(!uniform(av[i as int]));
                    }
                    return Err(GgufError::MixedArray);
                }
                i = i + 1;
                proof {
                    assert(av.subrange(0, i as int).subrange(0, i - 1) == av.subrange(0, i - 1));
                }
            }
            proof {
                assert(av.subrange(0, a@.len() as int) == av);
                lemma_uniform_all(av, et);
                assert(uniform_all(av, et));
            }
        },
        Value::U64(x) => {
            put_u64(b, *x);
        },
        Value::I64(x) => {
            put_u64(b, *x as u64);
        },
        Value::F64(x) => {
            put_u64(b, *x);
        },
    }
    Ok(())
}

} // verus!
