//! Splitting text into pre-tokens: contractions, runs of letters, of digits, of other
//! symbols (each optionally after one space), and runs of whitespace.
use super::unicode::{
    alphabetic, is_letter, is_number, is_space, lowercase, numeric, push_char, to_chars,
    to_lowercase, whitespace,
};
use vstd::prelude::*;

verus! {

pub const CONTRACTIONS: [&'static str; 7] = ["'s", "'t", "'re", "'ve", "'m", "'ll", "'d"];

/// Character classes: 0 letters, 1 numbers, 2 anything else but whitespace, 3 whitespace.
pub open spec fn in_class(k: int, c: char) -> bool {
    if k == 0 {
        alphabetic(c)
    } else if k == 1 {
        numeric(c)
    } else if k == 2 {
        !whitespace(c) && !alphabetic(c) && !numeric(c)
    } else {
        whitespace(c)
    }
}

/// The end of the run of class `k` that starts at `j`.
pub open spec fn run_end(ch: Seq<char>, j: int, k: int) -> int
    decreases ch.len() - j,
{
    if 0 <= j < ch.len() && in_class(k, ch[j]) {
        run_end(ch, j + 1, k)
    } else {
        j
    }
}

pub open spec fn starts_with(s: Seq<char>, p: Seq<char>) -> bool {
    p.len() <= s.len() && s.subrange(0, p.len() as int) == p
}

/// The length of the first contraction, from `k` on, that `lower` starts with.
pub open spec fn first_contraction(lower: Seq<char>, k: int) -> Option<int>
    decreases 7 - k,
{
    if k >= 7 || k < 0 {
        None
    } else if starts_with(lower, CONTRACTIONS@[k]@) {
        Some(CONTRACTIONS@[k]@.len() as int)
    } else {
        first_contraction(lower, k + 1)
    }
}

/// The contraction at `i`: the next (at most) three characters, lowercased, start with one.
pub open spec fn contraction_at(ch: Seq<char>, i: int) -> Option<int> {
    let end = if i + 3 <= ch.len() {
        i + 3
    } else {
        ch.len() as int
    };
    first_contraction(lowercase(ch.subrange(i, end)), 0)
}

/// Where the pre-token that starts at `i` ends. (A contraction that would run past the end
/// of the text is not taken; lowercasing never makes one.)
pub open spec fn piece_end(ch: Seq<char>, i: int) -> int {
    let len = ch.len() as int;
    match contraction_at(ch, i) {
        Some(l) if i + l <= len => i + l,
        _ => {
            let j = if ch[i] == ' ' {
                i + 1
            } else {
                i
            };
            if j < len && in_class(0, ch[j]) {
                run_end(ch, j, 0)
            } else if j < len && in_class(1, ch[j]) {
                run_end(ch, j, 1)
            } else if j < len && in_class(2, ch[j]) {
                run_end(ch, j, 2)
            } else if whitespace(ch[i]) {
                let k = run_end(ch, i, 3);
                if k < len && k - i > 1 {
                    k - 1
                } else {
                    k
                }
            } else {
                i + 1
            }
        },
    }
}

pub proof fn lemma_run_end(ch: Seq<char>, j: int, k: int)
    requires
        0 <= j <= ch.len(),
    ensures
        j <= run_end(ch, j, k) <= ch.len(),
        j < ch.len() && in_class(k, ch[j]) ==> run_end(ch, j, k) > j,
        forall|x: int| j <= x < run_end(ch, j, k) ==> in_class(k, #[trigger] ch[x]),
        run_end(ch, j, k) < ch.len() ==> !in_class(k, ch[run_end(ch, j, k)]),
    decreases ch.len() - j,
{
    if j < ch.len() && in_class(k, ch[j]) {
        lemma_run_end(ch, j + 1, k);
    }
}

pub proof fn lemma_first_contraction(lower: Seq<char>, k: int)
    ensures
        first_contraction(lower, k) matches Some(l) ==> 2 <= l <= 3,
    decreases 7 - k,
{
    reveal_strlit("'s");
    reveal_strlit("'t");
    reveal_strlit("'re");
    reveal_strlit("'ve");
    reveal_strlit("'m");
    reveal_strlit("'ll");
    reveal_strlit("'d");
    if 0 <= k < 7 {
        lemma_first_contraction(lower, k + 1);
    }
}

pub proof fn lemma_piece_end(ch: Seq<char>, i: int)
    requires
        0 <= i < ch.len(),
    ensures
        i < piece_end(ch, i) <= ch.len(),
{
    lemma_first_contraction(lowercase(ch.subrange(i, if i + 3 <= ch.len() { i + 3 } else { ch.len() as int })), 0);
    let j = if ch[i] == ' ' { i + 1 } else { i };
    lemma_run_end(ch, j, 0);
    lemma_run_end(ch, j, 1);
    lemma_run_end(ch, j, 2);
    lemma_run_end(ch, i, 3);
}

/// The pre-tokens of `ch` from position `i` on.
pub open spec fn pieces_from(ch: Seq<char>, i: int) -> Seq<Seq<char>>
    decreases ch.len() - i,
{
    if i < 0 || i >= ch.len() {
        Seq::empty()
    } else {
        let e = piece_end(ch, i);
        if e <= i || e > ch.len() {
            Seq::empty()
        } else {
            seq![ch.subrange(i, e)] + pieces_from(ch, e)
        }
    }
}

/// The pre-tokens of `text`, in order.
pub open spec fn pre_tokenize_spec(text: Seq<char>) -> Seq<Seq<char>> {
    pieces_from(text, 0)
}

pub(crate) fn string_of(ch: &Vec<char>, from: usize, to: usize) -> (s: String)
    requires
        from <= to <= ch@.len(),
    ensures
        s@ == ch@.subrange(from as int, to as int),
{
    let mut s = String::new();
    let mut x = from;
    while x < to
        invariant
            from <= x <= to <= ch@.len(),
            s@ == ch@.subrange(from as int, x as int),
        decreases to - x,
    {
        push_char(&mut s, ch[x]);
        x = x + 1;
        assert(s@ == ch@.subrange(from as int, x as int));
    }
    s
}

fn class_of(k: u8, c: char) -> (r: bool)
    ensures
        r == in_class(k as int, c),
{
    if k == 0 {
        is_letter(c)
    } else if k == 1 {
        is_number(c)
    } else if k == 2 {
        !is_space(c) && !is_letter(c) && !is_number(c)
    } else {
        is_space(c)
    }
}

fn run_end_exec(ch: &Vec<char>, j: usize, k: u8) -> (r: usize)
    requires
        j <= ch@.len(),
    ensures
        r == run_end(ch@, j as int, k as int),
{
    let mut x = j;
    proof {
        lemma_run_end(ch@, j as int, k as int);
    }
    while x < ch.len() && class_of(k, ch[x])
        invariant
            j <= x <= ch@.len(),
            run_end(ch@, j as int, k as int) == run_end(ch@, x as int, k as int),
        decreases ch.len() - x,
    {
        x = x + 1;
    }
    x
}

fn starts_with_exec(s: &Vec<char>, p: &Vec<char>) -> (r: bool)
    ensures
        r == starts_with(s@, p@),
{
    if p.len() > s.len() {
        return false;
    }
    let mut i: usize = 0;
    while i < p.len()
        invariant
            i <= p@.len() <= s@.len(),
            forall|j: int| 0 <= j < i ==> s@[j] == p@[j],
        decreases p.len() - i,
    {
        if s[i] != p[i] {
            assert(s@.subrange(0, p@.len() as int)[i as int] != p@[i as int]);
            return false;
        }
        i = i + 1;
    }
    assert(s@.subrange(0, p@.len() as int) =~= p@);
    true
}

fn contraction_exec(ch: &Vec<char>, i: usize) -> (r: Option<usize>)
    requires
        i < ch@.len(),
    ensures
        match r {
            Some(l) => contraction_at(ch@, i as int) == Some(l as int),
            None => contraction_at(ch@, i as int) is None,
        },
{
    let end = if ch.len() - i >= 3 { i + 3 } else { ch.len() };
    let rest = string_of(ch, i, end);
    let lower_s = to_lowercase(rest.as_str());
    let lower = to_chars(lower_s.as_str());
    let table = CONTRACTIONS;
    let mut k: usize = 0;
    while k < 7
        invariant
            k <= 7,
            table@ == CONTRACTIONS@,
            lower@ == lowercase(ch@.subrange(i as int, end as int)),
            end == (if i + 3 <= ch@.len() { i + 3 } else { ch@.len() as int }),
            first_contraction(lower@, 0) == first_contraction(lower@, k as int),
        decreases 7 - k,
    {
        let c = to_chars(table[k]);
        if starts_with_exec(&lower, &c) {
            return Some(c.len());
        }
        k = k + 1;
    }
    None
}

/// The pre-tokens of `text`, in order.
pub fn pre_tokenize(text: &str) -> (r: Vec<String>)
    ensures
        r@.map_values(|s: String| s@) == pre_tokenize_spec(text@),
{
    let ch = to_chars(text);
    let len = ch.len();
    let mut out: Vec<String> = Vec::new();
    let mut i: usize = 0;
    assert(out@.map_values(|s: String| s@) =~= Seq::empty());
    while i < len
        invariant
            i <= len == ch@.len(),
            ch@ == text@,
            out@.map_values(|s: String| s@) + pieces_from(ch@, i as int) == pieces_from(ch@, 0),
        decreases len - i,
    {
        let ghost before = out@.map_values(|s: String| s@);
        proof {
            lemma_piece_end(ch@, i as int);
        }
        let e: usize = match contraction_exec(&ch, i) {
            Some(l) if l <= len - i => i + l,
            _ => {
                let j = if ch[i] == ' ' { i + 1 } else { i };
                if j < len && class_of(0, ch[j]) {
                    run_end_exec(&ch, j, 0)
                } else if j < len && class_of(1, ch[j]) {
                    run_end_exec(&ch, j, 1)
                } else if j < len && class_of(2, ch[j]) {
                    run_end_exec(&ch, j, 2)
                } else if is_space(ch[i]) {
                    let k = run_end_exec(&ch, i, 3);
                    if k < len && k - i > 1 {
                        k - 1
                    } else {
                        k
                    }
                } else {
                    i + 1
                }
            },
        };
        assert(e == piece_end(ch@, i as int));
        let piece = string_of(&ch, i, e);
        out.push(piece);
        proof {
            assert(out@.map_values(|s: String| s@) =~= before.push(ch@.subrange(i as int, e as int)));
        }
        i = e;
    }
    out
}


/// Whether `k` is the first of the classes (letters 0, digits 1, other symbols 2,
/// whitespace 3) that `c` belongs to.
pub open spec fn first_class(k: int, c: char) -> bool {
    in_class(k, c) && forall|k2: int| 0 <= k2 < k ==> !in_class(k2, c)
}

/// Whether a contraction ("'s", "'t", "'re", "'ve", "'m", "'ll", "'d", in any case) starts at `i`.
pub open spec fn contraction_starts(ch: Seq<char>, i: int) -> bool {
    contraction_at(ch, i) matches Some(l) && i + l <= ch.len()
}

/// Where no contraction starts, a pre-token is at most one space followed by the whole run
/// of letters, of digits or of other symbols that the next character begins.
pub proof fn law_run_takes_one_space(ch: Seq<char>, i: int, k: int)
    requires
        0 <= i < ch.len(),
        !contraction_starts(ch, i),
        0 <= k <= 2,
        ({
            let j = if ch[i] == ' ' { i + 1 } else { i };
            j < ch.len() && first_class(k, ch[j])
        }),
    ensures
        ({
            let j = if ch[i] == ' ' { i + 1 } else { i };
            let e = piece_end(ch, i);
            &&& j < e <= ch.len()
            &&& forall|x: int| j <= x < e ==> in_class(k, #[trigger] ch[x])
            &&& e == ch.len() || !in_class(k, ch[e])
        }),
{
    let j = if ch[i] == ' ' { i + 1 } else { i };
    assert(0 <= j < ch.len());
    lemma_run_end(ch, j, 0);
    lemma_run_end(ch, j, 1);
    lemma_run_end(ch, j, 2);
    if k == 1 {
        assert(!in_class(0, ch[j]));
    } else if k == 2 {
        assert(!in_class(0, ch[j]) && !in_class(1, ch[j]));
    }
}

/// Where no contraction starts and no run of letters, digits or other symbols takes it (the
/// character is whitespace and nothing else, and so is the next one after a space), a
/// whitespace character begins a run of whitespace as its own pre-token; when more
/// non-whitespace follows the run, its last whitespace character is left to start the next
/// pre-token (unless the run is that one character).
pub proof fn law_whitespace_runs(ch: Seq<char>, i: int)
    requires
        0 <= i < ch.len(),
        !contraction_starts(ch, i),
        first_class(3, ch[i]),
        ch[i] == ' ' && i + 1 < ch.len() ==> first_class(3, ch[i + 1]),
    ensures
        ({
            let e = piece_end(ch, i);
            &&& i < e <= ch.len()
            &&& forall|x: int| i <= x < e ==> whitespace(#[trigger] ch[x])
            &&& e < ch.len() ==> {
                ||| e == i + 1 && !whitespace(ch[e])
                ||| e + 1 < ch.len() && whitespace(ch[e]) && !whitespace(ch[e + 1])
            }
        }),
{
    let j = if ch[i] == ' ' { i + 1 } else { i };
    lemma_run_end(ch, i, 3);
    if j < ch.len() {
        assert(first_class(3, ch[j]));
        assert(!in_class(0, ch[j]) && !in_class(1, ch[j]) && !in_class(2, ch[j]));
    }
}

/// The pieces of a list joined back together.
pub open spec fn joined(ps: Seq<Seq<char>>) -> Seq<char>
    decreases ps.len(),
{
    if ps.len() == 0 {
        Seq::empty()
    } else {
        ps[0] + joined(ps.drop_first())
    }
}

proof fn lemma_pieces_from_join(ch: Seq<char>, i: int)
    requires
        0 <= i <= ch.len(),
    ensures
        joined(pieces_from(ch, i)) == ch.subrange(i, ch.len() as int),
        forall|x: int| 0 <= x < pieces_from(ch, i).len() ==> #[trigger] pieces_from(ch, i)[x].len() > 0,
    decreases ch.len() - i,
{
    if i < ch.len() {
        lemma_piece_end(ch, i);
        let e = piece_end(ch, i);
        lemma_pieces_from_join(ch, e);
        let ps = pieces_from(ch, i);
        assert(ps == seq![ch.subrange(i, e)] + pieces_from(ch, e));
        assert(ps.drop_first() == pieces_from(ch, e));
        assert(ch.subrange(i, e) + ch.subrange(e, ch.len() as int) == ch.subrange(i, ch.len() as int));
        assert forall|x: int| 0 <= x < ps.len() implies #[trigger] ps[x].len() > 0 by {
            if x > 0 {
                assert(ps[x] == pieces_from(ch, e)[x - 1]);
            }
        }
    } else {
        assert(ch.subrange(i, ch.len() as int) == Seq::<char>::empty());
    }
}

/// Pre-tokenizing splits the text into non-empty pieces that, joined, give the text back.
pub proof fn law_pieces_join_to_text(text: Seq<char>)
    ensures
        joined(pre_tokenize_spec(text)) == text,
        forall|x: int| 0 <= x < pre_tokenize_spec(text).len() ==> #[trigger] pre_tokenize_spec(text)[x].len() > 0,
{
    lemma_pieces_from_join(text, 0);
    assert(text.subrange(0, text.len() as int) == text);
}

} // verus!
