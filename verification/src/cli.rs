//! Command-line rules that do not depend on the argument parser.
use crate::text::str_eq;
use crate::tokenizer::unicode::to_chars;
use vstd::prelude::*;

verus! {

/// The text of an argument before its first '='.
pub open spec fn flag_part(a: Seq<char>) -> Seq<char>
    decreases a.len(),
{
    if a.len() == 0 {
        a
    } else if a[0] == '=' {
        Seq::empty()
    } else {
        seq![a[0]] + flag_part(a.subrange(1, a.len() as int))
    }
}

/// Why a flag that older builds took is refused, if it is one of them.
pub open spec fn removed_message(flag: Seq<char>) -> Option<Seq<char>> {
    if flag == "--dtype"@ {
        Some("--dtype is gone: a GGUF declares its own tensor types. Use --quantized for mlx affine weights."@)
    } else if flag == "--weights-json"@ {
        Some("--weights-json is gone: GGUF carries its own tensor table."@)
    } else if flag == "--gemm"@ {
        Some("--gemm is gone: the f16 plugin GEMM was slower than cuBLAS and outside the logit tolerance; cuBLAS is now the only path."@)
    } else {
        None
    }
}

/// The first argument that names a removed flag, by its message.
pub open spec fn first_removed(args: Seq<Seq<char>>) -> Option<Seq<char>>
    decreases args.len(),
{
    if args.len() == 0 {
        None
    } else {
        match removed_message(flag_part(args[0])) {
            Some(m) => Some(m),
            None => first_removed(args.subrange(1, args.len() as int)),
        }
    }
}

fn flag_of(a: &str) -> (r: String)
    ensures
        r@ == flag_part(a@),
{
    let ch = to_chars(a);
    let mut end: usize = 0;
    assert(ch@.subrange(0, 0) + flag_part(ch@.subrange(0, ch@.len() as int)) =~= flag_part(ch@)) by {
        assert(ch@.subrange(0, ch@.len() as int) == ch@);
    }
    while end < ch.len() && ch[end] != '='
        invariant
            end <= ch@.len(),
            flag_part(ch@) == ch@.subrange(0, end as int) + flag_part(ch@.subrange(end as int, ch@.len() as int)),
        decreases ch.len() - end,
    {
        let ghost rest = ch@.subrange(end as int, ch@.len() as int);
        assert(rest.subrange(1, rest.len() as int) == ch@.subrange(end + 1, ch@.len() as int));
        end = end + 1;
        assert(ch@.subrange(0, end as int) == ch@.subrange(0, end - 1).push(ch@[end - 1]));
    }
    let mut r = String::new();
    let mut i: usize = 0;
    while i < end
        invariant
            i <= end <= ch@.len(),
            r@ == ch@.subrange(0, i as int),
        decreases end - i,
    {
        crate::tokenizer::unicode::push_char(&mut r, ch[i]);
        i = i + 1;
        assert(r@ == ch@.subrange(0, i as int));
    }
    proof {
        assert(ch@.subrange(0, 0) == Seq::<char>::empty());
        assert(flag_part(ch@.subrange(end as int, ch@.len() as int)) == Seq::<char>::empty());
    }
    r
}

/// The message for the first argument naming a flag that is no longer taken.
pub fn removed_flag(args: &Vec<String>) -> (r: Option<&'static str>)
    ensures
        match r {
            Some(m) => first_removed(args@.map_values(|s: String| s@)) == Some(m@),
            None => first_removed(args@.map_values(|s: String| s@)) is None,
        },
{
    let ghost av = args@.map_values(|s: String| s@);
    let mut i: usize = 0;
    assert(av.subrange(0, av.len() as int) == av);
    while i < args.len()
        invariant
            i <= args@.len(),
            av == args@.map_values(|s: String| s@),
            first_removed(av) == first_removed(av.subrange(i as int, av.len() as int)),
        decreases args.len() - i,
    {
        let ghost rest = av.subrange(i as int, av.len() as int);
        assert(rest[0] == args@[i as int]@);
        assert(rest.subrange(1, rest.len() as int) == av.subrange(i + 1, av.len() as int));
        let f = flag_of(args[i].as_str());
        if str_eq(f.as_str(), "--dtype") {
            return Some("--dtype is gone: a GGUF declares its own tensor types. Use --quantized for mlx affine weights.");
        }
        if str_eq(f.as_str(), "--weights-json") {
            return Some("--weights-json is gone: GGUF carries its own tensor table.");
        }
        if str_eq(f.as_str(), "--gemm") {
            return Some(
                "--gemm is gone: the f16 plugin GEMM was slower than cuBLAS and outside the logit tolerance; cuBLAS is now the only path.",
            );
        }
        i = i + 1;
    }
    None
}

} // verus!
