//! Byte-level BPE: bytes mapped to printable characters, then pairwise merges by rank.
use super::unicode::{char_from_u32, push_char};
use vstd::hash_map::StringHashMap;
use vstd::prelude::*;

verus! {

/// The bytes that map to the character with the same code.
pub open spec fn printable(b: int) -> bool {
    (33 <= b <= 126) || (161 <= b <= 172) || (174 <= b <= 255)
}

/// How many bytes below `b` are not printable.
pub open spec fn unprintable_below(b: int) -> int
    decreases b,
{
    if b <= 0 {
        0
    } else {
        unprintable_below(b - 1) + if printable(b - 1) {
            0int
        } else {
            1int
        }
    }
}

/// The code of the character byte `b` maps to: itself when printable, else 256 plus the
/// number of unprintable bytes below it.
pub open spec fn byte_code(b: int) -> int {
    if printable(b) {
        b
    } else {
        256 + unprintable_below(b)
    }
}

pub open spec fn byte_char(b: u8) -> char {
    byte_code(b as int) as char
}

/// The byte-level form of a piece: its UTF-8 bytes, each mapped to its character.
pub open spec fn mapped(piece: Seq<char>) -> Seq<char> {
    encode_utf8_seq(piece).map_values(|b: u8| byte_char(b))
}

pub open spec fn encode_utf8_seq(s: Seq<char>) -> Seq<u8> {
    vstd::utf8::encode_utf8(s)
}

proof fn lemma_unprintable_below(b: int)
    requires
        0 <= b <= 256,
    ensures
        0 <= unprintable_below(b) <= b,
    decreases b,
{
    if b > 0 {
        lemma_unprintable_below(b - 1);
    }
}

/// The table of `byte_char`, indexed by byte.
pub fn byte_table() -> (t: Vec<char>)
    ensures
        t@.len() == 256,
        forall|b: int| 0 <= b < 256 ==> #[trigger] t@[b] == byte_char(b as u8),
{
    let mut t: Vec<char> = Vec::new();
    let mut n: u32 = 0;
    let mut b: u32 = 0;
    while b < 256
        invariant
            b <= 256,
            t@.len() == b,
            n == unprintable_below(b as int),
            forall|x: int| 0 <= x < b ==> #[trigger] t@[x] == byte_char(x as u8),
        decreases 256 - b,
    {
        proof {
            lemma_unprintable_below(b as int);
        }
        let p = (33 <= b && b <= 126) || (161 <= b && b <= 172) || (174 <= b && b <= 255);
        let code: u32 = if p { b } else { 256 + n };
        let c = match char_from_u32(code) {
            Some(c) => c,
            None => ' ',
        };
        proof {
            assert(c as u32 == code);
            vstd::utf8::char_u32_cast(c, code);
            assert(byte_code(b as int) == code);
        }
        t.push(c);
        if !p {
            n = n + 1;
        }
        b = b + 1;
    }
    t
}

/// The key a merge rule is stored under: the two symbols separated by a space.
pub open spec fn pair_key(a: Seq<char>, b: Seq<char>) -> Seq<char> {
    a + seq![' '] + b
}

/// The best-ranked adjacent pair among the first `n` pairs, as (rank, position); the first
/// such pair on ties.
pub open spec fn best_pair(ranks: Map<Seq<char>, i64>, syms: Seq<Seq<char>>, n: int) -> Option<(i64, int)>
    decreases n,
{
    if n <= 0 {
        None
    } else {
        let b = best_pair(ranks, syms, n - 1);
        let k = pair_key(syms[n - 1], syms[n]);
        if ranks.contains_key(k) && (match b {
            None => true,
            Some(p) => ranks[k] < p.0,
        }) {
            Some((ranks[k], n - 1))
        } else {
            b
        }
    }
}

/// `s` with every occurrence of the pair (`a`, `b`) merged, scanning from the left.
pub open spec fn merge_pairs(s: Seq<Seq<char>>, a: Seq<char>, b: Seq<char>) -> Seq<Seq<char>>
    decreases s.len(),
{
    if s.len() == 0 {
        Seq::empty()
    } else if s.len() >= 2 && s[0] == a && s[1] == b {
        seq![a + b] + merge_pairs(s.subrange(2, s.len() as int), a, b)
    } else {
        seq![s[0]] + merge_pairs(s.subrange(1, s.len() as int), a, b)
    }
}

pub proof fn lemma_merge_shorter(s: Seq<Seq<char>>, a: Seq<char>, b: Seq<char>, at: int)
    ensures
        merge_pairs(s, a, b).len() <= s.len(),
        0 <= at < s.len() - 1 && s[at] == a && s[at + 1] == b ==> merge_pairs(s, a, b).len() < s.len(),
    decreases s.len(),
{
    if s.len() == 0 {
    } else if s.len() >= 2 && s[0] == a && s[1] == b {
        lemma_merge_shorter(s.subrange(2, s.len() as int), a, b, 0);
    } else {
        let t = s.subrange(1, s.len() as int);
        if 0 < at < s.len() - 1 {
            assert(t[at - 1] == s[at] && t[at] == s[at + 1]);
        }
        lemma_merge_shorter(t, a, b, at - 1);
    }
}

/// Repeatedly merges the best-ranked adjacent pair (all of its occurrences) until no pair
/// has a rank or one symbol is left.
pub open spec fn bpe_spec(ranks: Map<Seq<char>, i64>, syms: Seq<Seq<char>>) -> Seq<Seq<char>>
    decreases syms.len(),
{
    if syms.len() < 2 {
        syms
    } else {
        match best_pair(ranks, syms, syms.len() - 1) {
            None => syms,
            Some((_, at)) => {
                let next = merge_pairs(syms, syms[at], syms[at + 1]);
                if next.len() >= syms.len() {
                    syms
                } else if next.len() == 1 {
                    next
                } else {
                    bpe_spec(ranks, next)
                }
            },
        }
    }
}

/// The symbols of a word before any merge: one per character.
pub open spec fn singles(w: Seq<char>) -> Seq<Seq<char>> {
    w.map_values(|c: char| seq![c])
}

pub open spec fn views(v: Seq<String>) -> Seq<Seq<char>> {
    v.map_values(|s: String| s@)
}

proof fn lemma_best_pair_pos(ranks: Map<Seq<char>, i64>, syms: Seq<Seq<char>>, n: int)
    ensures
        best_pair(ranks, syms, n) matches Some((_, at)) ==> 0 <= at < n,
    decreases n,
{
    if n > 0 {
        lemma_best_pair_pos(ranks, syms, n - 1);
    }
}

fn best_pair_exec(ranks: &StringHashMap<i64>, syms: &Vec<String>) -> (r: Option<(i64, usize)>)
    requires
        syms@.len() >= 2,
    ensures
        match r {
            Some((k, at)) => best_pair(ranks@, views(syms@), syms@.len() - 1) == Some((k, at as int)),
            None => best_pair(ranks@, views(syms@), syms@.len() - 1) is None,
        },
{
    let ghost sv = views(syms@);
    let mut best: Option<(i64, usize)> = None;
    let n = syms.len();
    let mut i: usize = 0;
    while i < n - 1
        invariant
            n == syms@.len(),
            syms@.len() >= 2,
            i <= syms@.len() - 1,
            sv == views(syms@),
            match best {
                Some((k, at)) => best_pair(ranks@, sv, i as int) == Some((k, at as int)),
                None => best_pair(ranks@, sv, i as int) is None,
            },
        decreases syms.len() - i,
    {
        let mut key = syms[i].clone();
        key.append(" ");
        key.append(syms[i + 1].as_str());
        proof {
            reveal_strlit(" ");
            assert(key@ == pair_key(sv[i as int], sv[i + 1]));
        }
        match ranks.get(key.as_str()) {
            Some(r) => {
                let better = match best {
                    None => true,
                    Some((b, _)) => *r < b,
                };
                if better {
                    best = Some((*r, i));
                }
            },
            None => {},
        }
        i = i + 1;
    }
    best
}

fn merge_exec(syms: &Vec<String>, at: usize) -> (r: Vec<String>)
    requires
        at + 1 < syms@.len(),
    ensures
        views(r@) == merge_pairs(views(syms@), syms@[at as int]@, syms@[at + 1]@),
{
    let ghost sv = views(syms@);
    let ghost a = syms@[at as int]@;
    let ghost b = syms@[at + 1]@;
    let n = syms.len();
    let mut merged = syms[at].clone();
    merged.append(syms[at + 1].as_str());
    let mut next: Vec<String> = Vec::new();
    let mut i: usize = 0;
    assert(sv.subrange(0, sv.len() as int) == sv);
    while i < syms.len()
        invariant
            i <= syms@.len(),
            at + 1 < syms@.len(),
            sv == views(syms@),
            a == syms@[at as int]@,
            b == syms@[at + 1]@,
            merged@ == a + b,
            views(next@) + merge_pairs(sv.subrange(i as int, sv.len() as int), a, b) == merge_pairs(sv, a, b),
        decreases syms.len() - i,
    {
        let ghost rest = sv.subrange(i as int, sv.len() as int);
        let ghost before = views(next@);
        if i + 1 < syms.len() && syms[i] == syms[at] && syms[i + 1] == syms[at + 1] {
            proof {
                assert(rest[0] == a && rest[1] == b);
                assert(rest.subrange(2, rest.len() as int) == sv.subrange(i + 2, sv.len() as int));
            }
            next.push(merged.clone());
            proof {
                assert(views(next@) == before.push(a + b));
                assert(views(next@) + merge_pairs(sv.subrange(i + 2, sv.len() as int), a, b) =~= before + merge_pairs(rest, a, b));
            }
            i = i + 2;
        } else {
            proof {
                assert(rest.subrange(1, rest.len() as int) == sv.subrange(i + 1, sv.len() as int));
                assert(rest[0] == sv[i as int]);
                if rest.len() >= 2 {
                    assert(rest[1] == sv[i + 1]);
                }
            }
            next.push(syms[i].clone());
            proof {
                assert(views(next@) == before.push(sv[i as int]));
                assert(views(next@) + merge_pairs(sv.subrange(i + 1, sv.len() as int), a, b) =~= before + merge_pairs(rest, a, b));
            }
            i = i + 1;
        }
    }
    proof {
        assert(sv.subrange(sv.len() as int, sv.len() as int) == Seq::<Seq<char>>::empty());
        assert(views(next@) =~= merge_pairs(sv, a, b));
    }
    next
}

/// Applies the merge rules to a word.
pub fn bpe(ranks: &StringHashMap<i64>, word: &Vec<char>) -> (r: Vec<String>)
    ensures
        views(r@) == bpe_spec(ranks@, singles(word@)),
{
    let mut syms: Vec<String> = Vec::new();
    let mut i: usize = 0;
    while i < word.len()
        invariant
            i <= word@.len(),
            views(syms@) == singles(word@.subrange(0, i as int)),
        decreases word.len() - i,
    {
        let mut s = String::new();
        push_char(&mut s, word[i]);
        proof {
            assert(views(syms@.push(s)) =~= views(syms@).push(s@));
        }
        syms.push(s);
        i = i + 1;
        assert(views(syms@) =~= singles(word@.subrange(0, i as int)));
    }
    assert(word@.subrange(0, word@.len() as int) == word@);
    if syms.len() < 2 {
        return syms;
    }
    let ghost goal = bpe_spec(ranks@, views(syms@));
    loop
        invariant
            syms@.len() >= 2,
            bpe_spec(ranks@, views(syms@)) == goal,
            goal == bpe_spec(ranks@, singles(word@)),
        decreases syms@.len(),
    {
        let best = best_pair_exec(ranks, &syms);
        proof {
            lemma_best_pair_pos(ranks@, views(syms@), syms@.len() - 1);
        }
        match best {
            None => {
                assert(bpe_spec(ranks@, views(syms@)) == views(syms@));
                return syms;
            },
            Some((_, at)) => {
                let next = merge_exec(&syms, at);
                proof {
                    let sv = views(syms@);
                    assert(sv[at as int] == syms@[at as int]@ && sv[at + 1] == syms@[at + 1]@);
                    lemma_merge_shorter(sv, sv[at as int], sv[at + 1], at as int);
                }
                proof {
                    let sv = views(syms@);
                    let nv = merge_pairs(sv, sv[at as int], sv[at + 1]);
                    assert(nv.len() >= 1);
                    assert(bpe_spec(ranks@, sv) == (if nv.len() == 1 { nv } else { bpe_spec(ranks@, nv) }));
                }
                if next.len() == 1 {
                    return next;
                }
                syms = next;
            },
        }
    }
}


/// Whether the adjacent pair at `i` (symbols `i` and `i + 1`) has a merge rank.
pub open spec fn ranked_at(ranks: Map<Seq<char>, i64>, syms: Seq<Seq<char>>, i: int) -> bool {
    0 <= i && i + 1 < syms.len() && ranks.contains_key(pair_key(syms[i], syms[i + 1]))
}

/// The merge rank of the adjacent pair at `i`.
pub open spec fn rank_at(ranks: Map<Seq<char>, i64>, syms: Seq<Seq<char>>, i: int) -> i64 {
    ranks[pair_key(syms[i], syms[i + 1])]
}

/// Whether the pair at `at` is the one to merge first: it has a rank, no adjacent pair has
/// a lower one, and every pair before it has a higher one.
pub open spec fn merges_first(ranks: Map<Seq<char>, i64>, syms: Seq<Seq<char>>, at: int) -> bool {
    &&& ranked_at(ranks, syms, at)
    &&& forall|i: int| #[trigger] ranked_at(ranks, syms, i) ==> rank_at(ranks, syms, at) <= rank_at(ranks, syms, i)
    &&& forall|i: int| 0 <= i < at && #[trigger] ranked_at(ranks, syms, i) ==> rank_at(ranks, syms, at) < rank_at(ranks, syms, i)
}

/// What the choice of the best pair among the first `n` pairs means: none when none of
/// them has a rank, otherwise the lowest-ranked one, leftmost among equals.
proof fn lemma_best_pair(ranks: Map<Seq<char>, i64>, syms: Seq<Seq<char>>, n: int)
    requires
        0 <= n < syms.len(),
    ensures
        best_pair(ranks, syms, n) is None <==> forall|i: int| 0 <= i < n ==> !#[trigger] ranked_at(ranks, syms, i),
        best_pair(ranks, syms, n) matches Some((r, at)) ==> {
            &&& 0 <= at < n
            &&& ranked_at(ranks, syms, at)
            &&& r == rank_at(ranks, syms, at)
            &&& forall|i: int| 0 <= i < n && #[trigger] ranked_at(ranks, syms, i) ==> r <= rank_at(ranks, syms, i)
            &&& forall|i: int| 0 <= i < at && #[trigger] ranked_at(ranks, syms, i) ==> r < rank_at(ranks, syms, i)
        },
    decreases n,
{
    if n > 0 {
        lemma_best_pair(ranks, syms, n - 1);
        assert(ranked_at(ranks, syms, n - 1) == ranks.contains_key(pair_key(syms[n - 1], syms[n])));
    }
}

/// When the pair at `at` merges first, the best pair is that one.
proof fn lemma_best_pair_is(ranks: Map<Seq<char>, i64>, syms: Seq<Seq<char>>, at: int)
    requires
        merges_first(ranks, syms, at),
    ensures
        best_pair(ranks, syms, syms.len() - 1) == Some((rank_at(ranks, syms, at), at)),
{
    let n = syms.len() - 1;
    lemma_best_pair(ranks, syms, n);
    assert(ranked_at(ranks, syms, at));
    match best_pair(ranks, syms, n) {
        None => {},
        Some((r, b)) => {
            if b < at {
                assert(rank_at(ranks, syms, at) < rank_at(ranks, syms, b));
            } else if b > at {
                assert(r < rank_at(ranks, syms, at));
            }
        },
    }
}

/// Byte-pair merging takes the lowest-ranked adjacent pair first (the leftmost of equally
/// ranked ones): merging every occurrence of that pair beforehand changes nothing.
pub proof fn law_bpe_lowest_rank_first(ranks: Map<Seq<char>, i64>, syms: Seq<Seq<char>>, at: int)
    requires
        merges_first(ranks, syms, at),
    ensures
        bpe_spec(ranks, syms) == bpe_spec(ranks, merge_pairs(syms, syms[at], syms[at + 1])),
{
    lemma_best_pair_is(ranks, syms, at);
    let next = merge_pairs(syms, syms[at], syms[at + 1]);
    lemma_merge_shorter(syms, syms[at], syms[at + 1], at);
}

/// Byte-pair merging stops only when no adjacent pair of the result has a rank.
pub proof fn law_bpe_leaves_no_ranked_pair(ranks: Map<Seq<char>, i64>, syms: Seq<Seq<char>>)
    ensures
        forall|i: int| !#[trigger] ranked_at(ranks, bpe_spec(ranks, syms), i),
    decreases syms.len(),
{
    if syms.len() >= 2 {
        let n = syms.len() - 1;
        lemma_best_pair(ranks, syms, n);
        match best_pair(ranks, syms, n) {
            None => {
                assert forall|i: int| !#[trigger] ranked_at(ranks, bpe_spec(ranks, syms), i) by {
                    if 0 <= i < n {
                    }
                }
            },
            Some((_, at)) => {
                let next = merge_pairs(syms, syms[at], syms[at + 1]);
                lemma_merge_shorter(syms, syms[at], syms[at + 1], at);
                if next.len() != 1 {
                    assert(bpe_spec(ranks, syms) == bpe_spec(ranks, next));
                    law_bpe_leaves_no_ranked_pair(ranks, next);
                } else {
                    assert(bpe_spec(ranks, syms) == next);
                }
            },
        }
    } else {
        assert(bpe_spec(ranks, syms) == syms);
    }
}


/// The symbols of a list joined into one string.
pub open spec fn concat_syms(s: Seq<Seq<char>>) -> Seq<char>
    decreases s.len(),
{
    if s.len() == 0 {
        Seq::empty()
    } else {
        s[0] + concat_syms(s.subrange(1, s.len() as int))
    }
}

/// Merging a pair keeps the text the symbols spell, makes each symbol either one it had or
/// the merged pair, and leaves no occurrence of the pair side by side.
pub proof fn law_merge_pairs(s: Seq<Seq<char>>, a: Seq<char>, b: Seq<char>)
    requires
        a.len() > 0,
        b.len() > 0,
    ensures
        concat_syms(merge_pairs(s, a, b)) == concat_syms(s),
        forall|i: int| 0 <= i < merge_pairs(s, a, b).len() ==> s.contains(#[trigger] merge_pairs(s, a, b)[i]) || merge_pairs(s, a, b)[i] == a + b,
        forall|i: int| 0 <= i && i + 1 < merge_pairs(s, a, b).len() ==> !(#[trigger] merge_pairs(s, a, b)[i] == a && merge_pairs(s, a, b)[i + 1] == b),
    decreases s.len(),
{
    let m = merge_pairs(s, a, b);
    if s.len() == 0 {
    } else if s.len() >= 2 && s[0] == a && s[1] == b {
        let t = s.subrange(2, s.len() as int);
        law_merge_pairs(t, a, b);
        let mt = merge_pairs(t, a, b);
        assert(m == seq![a + b] + mt);
        assert(m.subrange(1, m.len() as int) == mt);
        assert(s.subrange(1, s.len() as int).subrange(1, s.len() - 1) == t);
        assert(concat_syms(s) == a + (b + concat_syms(t))) by {
            assert(concat_syms(s.subrange(1, s.len() as int)) == b + concat_syms(t));
        }
        assert(concat_syms(m) == (a + b) + concat_syms(mt));
        assert forall|i: int| 0 <= i < m.len() implies s.contains(#[trigger] m[i]) || m[i] == a + b by {
            if i > 0 {
                assert(m[i] == mt[i - 1]);
                if t.contains(mt[i - 1]) {
                    let k = choose|k: int| 0 <= k < t.len() && t[k] == mt[i - 1];
                    assert(s[k + 2] == t[k]);
                }
            }
        }
        assert forall|i: int| 0 <= i && i + 1 < m.len() implies !(#[trigger] m[i] == a && m[i + 1] == b) by {
            if i == 0 {
                assert((a + b).len() > a.len());
            } else {
                assert(m[i] == mt[i - 1] && m[i + 1] == mt[i]);
            }
        }
    } else {
        let t = s.subrange(1, s.len() as int);
        law_merge_pairs(t, a, b);
        let mt = merge_pairs(t, a, b);
        assert(m == seq![s[0]] + mt);
        assert(m.subrange(1, m.len() as int) == mt);
        assert forall|i: int| 0 <= i < m.len() implies s.contains(#[trigger] m[i]) || m[i] == a + b by {
            if i == 0 {
                assert(s[0] == m[0]);
            } else {
                assert(m[i] == mt[i - 1]);
                if t.contains(mt[i - 1]) {
                    let k = choose|k: int| 0 <= k < t.len() && t[k] == mt[i - 1];
                    assert(s[k + 1] == t[k]);
                }
            }
        }
        assert forall|i: int| 0 <= i && i + 1 < m.len() implies !(#[trigger] m[i] == a && m[i + 1] == b) by {
            if i == 0 {
                if m[0] == a && m[1] == b {
                    // the next symbol of the merged rest is `b` only if the rest starts with an
                    // unmerged `b`
                    assert(mt[0] == b);
                    if t.len() >= 2 && t[0] == a && t[1] == b {
                        assert(mt[0] == a + b);
                        assert((a + b).len() > b.len());
                    } else {
                        assert(t.len() > 0);
                        assert(mt[0] == t[0]);
                        assert(s[1] == t[0]);
                    }
                }
            } else {
                assert(m[i] == mt[i - 1] && m[i + 1] == mt[i]);
            }
        }
    }
}

} // verus!
