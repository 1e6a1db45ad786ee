//! The per-size calibration temperatures: the entries a model file's JSON table gives, and
//! their order by key.
use crate::systemone::{Json, lemma_lex_irrefl, lemma_lex_total, lemma_lex_trans, lex_less, lex_lt};
use vstd::prelude::*;

verus! {

/// Pairs of key and value, the key by its text.
pub open spec fn pair_views(v: Seq<(String, u32)>) -> Seq<(Seq<char>, u32)> {
    v.map_values(|p: (String, u32)| (p.0@, p.1))
}

/// `s` with `x` placed after every entry whose key does not sort after `x`'s key, counting
/// from the end: the place a stable sort by key gives `x` in a sorted `s`.
pub open spec fn insert_by_key(s: Seq<(Seq<char>, u32)>, x: (Seq<char>, u32)) -> Seq<(Seq<char>, u32)>
    decreases s.len(),
{
    if s.len() == 0 {
        seq![x]
    } else if lex_lt(x.0, s.last().0) {
        insert_by_key(s.drop_last(), x).push(s.last())
    } else {
        s.push(x)
    }
}

/// The entries stably sorted by key: entries with equal keys keep their order.
pub open spec fn sorted_by_key(s: Seq<(Seq<char>, u32)>) -> Seq<(Seq<char>, u32)>
    decreases s.len(),
{
    if s.len() == 0 {
        Seq::empty()
    } else {
        insert_by_key(sorted_by_key(s.drop_last()), s.last())
    }
}

/// No entry's key sorts before an earlier entry's key.
pub open spec fn keys_sorted(s: Seq<(Seq<char>, u32)>) -> bool {
    forall|i: int, j: int| 0 <= i < j < s.len() ==> !lex_lt(#[trigger] s[j].0, #[trigger] s[i].0)
}

/// Inserting before a tail of larger keys leaves that tail after the insertion.
proof fn lemma_insert_tail(s: Seq<(Seq<char>, u32)>, x: (Seq<char>, u32), p: int)
    requires
        0 <= p <= s.len(),
        forall|q: int| p <= q < s.len() ==> lex_lt(x.0, #[trigger] s[q].0),
    ensures
        insert_by_key(s, x) == insert_by_key(s.take(p), x) + s.skip(p),
    decreases s.len() - p,
{
    if p == s.len() {
        assert(s.take(p) == s);
        assert(s.skip(p) =~= Seq::<(Seq<char>, u32)>::empty());
        assert(insert_by_key(s, x) + Seq::<(Seq<char>, u32)>::empty() =~= insert_by_key(s, x));
    } else {
        let d = s.drop_last();
        assert(lex_lt(x.0, s[s.len() - 1].0));
        lemma_insert_tail(d, x, p);
        assert(d.take(p) == s.take(p));
        assert(s.skip(p) =~= d.skip(p).push(s.last()));
        assert((insert_by_key(s.take(p), x) + d.skip(p)).push(s.last()) =~= insert_by_key(s.take(p), x) + s.skip(p));
    }
}

/// Inserting into a sorted sequence keeps it sorted.
proof fn lemma_insert_sorted(s: Seq<(Seq<char>, u32)>, x: (Seq<char>, u32))
    requires
        keys_sorted(s),
    ensures
        keys_sorted(insert_by_key(s, x)),
        insert_by_key(s, x).len() == s.len() + 1,
        forall|i: int| 0 <= i < insert_by_key(s, x).len() ==> #[trigger] insert_by_key(s, x)[i] == x || s.contains(insert_by_key(s, x)[i]),
    decreases s.len(),
{
    if s.len() > 0 {
        let d = s.drop_last();
        let l = s.last();
        if lex_lt(x.0, l.0) {
            lemma_insert_sorted(d, x);
            let r = insert_by_key(d, x);
            let t = r.push(l);
            assert forall|i: int| 0 <= i < r.len() implies !lex_lt(l.0, #[trigger] r[i].0) by {
                if r[i] == x {
                    if lex_lt(l.0, x.0) {
                        lemma_lex_trans(x.0, l.0, x.0);
                        lemma_lex_irrefl(x.0);
                    }
                } else {
                    let k = choose|k: int| 0 <= k < d.len() && d[k] == r[i];
                    assert(!lex_lt(s[s.len() - 1].0, s[k].0));
                }
            }
            assert forall|i: int, j: int| 0 <= i < j < t.len() implies !lex_lt(#[trigger] t[j].0, #[trigger] t[i].0) by {
                if j < r.len() {
                    assert(t[i] == r[i] && t[j] == r[j]);
                } else {
                    assert(t[j] == l && t[i] == r[i]);
                }
            }
            assert forall|i: int| 0 <= i < t.len() implies #[trigger] t[i] == x || s.contains(t[i]) by {
                if i < r.len() {
                    assert(t[i] == r[i]);
                    if r[i] != x {
                        let k = choose|k: int| 0 <= k < d.len() && d[k] == r[i];
                        assert(s[k] == d[k]);
                    }
                } else {
                    assert(s[s.len() - 1] == t[i]);
                }
            }
        } else {
            let t = s.push(x);
            assert forall|i: int, j: int| 0 <= i < j < t.len() implies !lex_lt(#[trigger] t[j].0, #[trigger] t[i].0) by {
                if j == s.len() as int {
                    if i < s.len() - 1 {
                        assert(!lex_lt(s[s.len() - 1].0, s[i].0));
                        if lex_lt(x.0, s[i].0) {
                            if s[i].0 == l.0 {
                            } else {
                                lemma_lex_total(s[i].0, l.0);
                                lemma_lex_trans(x.0, s[i].0, l.0);
                            }
                        }
                    }
                } else {
                    assert(t[i] == s[i] && t[j] == s[j]);
                }
            }
            assert forall|i: int| 0 <= i < t.len() implies #[trigger] t[i] == x || s.contains(t[i]) by {
                if i < s.len() {
                    assert(s[i] == t[i]);
                }
            }
        }
    }
}

/// The entries sorted by key are in key order.
pub proof fn lemma_sorted_by_key(s: Seq<(Seq<char>, u32)>)
    ensures
        keys_sorted(sorted_by_key(s)),
        sorted_by_key(s).len() == s.len(),
    decreases s.len(),
{
    if s.len() > 0 {
        lemma_sorted_by_key(s.drop_last());
        lemma_insert_sorted(sorted_by_key(s.drop_last()), s.last());
    }
}

/// Sorts pairs of key and value by key, keeping the order of entries with equal keys.
pub fn sort_by_key(v: Vec<(String, u32)>) -> (r: Vec<(String, u32)>)
    ensures
        pair_views(r@) == sorted_by_key(pair_views(v@)),
        keys_sorted(pair_views(r@)),
{
    let ghost vs = pair_views(v@);
    let mut out: Vec<(String, u32)> = Vec::new();
    assert(vs.take(0) =~= Seq::<(Seq<char>, u32)>::empty());
    for e in it: v.into_iter()
        invariant
            vs == pair_views(it.seq()),
            pair_views(out@) == sorted_by_key(vs.take(it.index() as int)),
    {
        let ghost k = it.index() as int;
        let ghost before = pair_views(out@);
        let ghost x = (e.0@, e.1);
        assert(vs[k] == x);
        let mut p: usize = out.len();
        while p > 0 && lex_less(e.0.as_str(), out[p - 1].0.as_str())
            invariant
                p <= out@.len(),
                before == pair_views(out@),
                x == (e.0@, e.1),
                forall|q: int| p <= q < before.len() ==> lex_lt(x.0, #[trigger] before[q].0),
            decreases p,
        {
            p = p - 1;
        }
        proof {
            lemma_insert_tail(before, x, p as int);
            let pre = before.take(p as int);
            if p > 0 {
                assert(pre.last() == before[p - 1]);
                assert(pre.drop_last() == before.take(p - 1));
                assert(!lex_lt(x.0, pre.last().0));
            }
            assert(insert_by_key(pre, x) == pre.push(x));
        }
        out.insert(p, e);
        proof {
            assert(pair_views(out@) =~= before.take(p as int).push(x) + before.skip(p as int));
            assert(vs.take(k + 1).drop_last() == vs.take(k));
            assert(vs.take(k + 1).last() == x);
        }
    }
    assert(vs.take(vs.len() as int) == vs);
    proof {
        lemma_sorted_by_key(vs);
    }
    out
}

/// Why a model file's per-size temperature table is refused.
pub enum OptionsError {
    /// The table is not a JSON object.
    NotObject,
    /// The value under this key is not a number.
    NotNumber(String),
}

/// The entries of an object, each key with the text of its value where that is a number.
pub open spec fn entry_texts(m: Seq<(String, Json)>) -> Seq<(Seq<char>, Seq<char>)> {
    m.map_values(|e: (String, Json)| (e.0@, number_text(e.1)))
}

/// The text of a number.
pub open spec fn number_text(v: Json) -> Seq<char> {
    match v {
        Json::Number(t) => t@,
        _ => Seq::empty(),
    }
}

/// The key of the first entry whose value is not a number.
pub open spec fn first_non_number(m: Seq<(String, Json)>) -> Option<Seq<char>>
    decreases m.len(),
{
    if m.len() == 0 {
        None
    } else if !(m[0].1 is Number) {
        Some(m[0].0@)
    } else {
        first_non_number(m.drop_first())
    }
}

/// The entries of a per-size temperature table as its JSON gives them: each key with its
/// number's text, in order. Refuses a table that is not an object, and names the first key
/// whose value is not a number.
pub fn temperature_entries(v: &Json) -> (r: Result<Vec<(String, String)>, OptionsError>)
    ensures
        r is Ok <==> (v is Object && first_non_number(v->Object_0@) is None),
        r matches Ok(es) ==> es@.map_values(|e: (String, String)| (e.0@, e.1@)) == entry_texts(v->Object_0@),
        r matches Err(OptionsError::NotObject) ==> !(v is Object),
        r matches Err(OptionsError::NotNumber(k)) ==> v is Object && first_non_number(v->Object_0@) == Some(k@),
{
    match v {
        Json::Object(m) => {
            let ghost mv = m@;
            let mut out: Vec<(String, String)> = Vec::new();
            let mut i: usize = 0;
            assert(mv.skip(0) == mv);
            while i < m.len()
                invariant
                    mv == m@,
                    *v == Json::Object(*m),
                    i <= mv.len(),
                    first_non_number(mv) == first_non_number(mv.skip(i as int)),
                    out@.map_values(|e: (String, String)| (e.0@, e.1@)) == mv.take(i as int).map_values(
                        |e: (String, Json)| (e.0@, number_text(e.1)),
                    ),
                decreases m.len() - i,
            {
                assert(mv.skip(i as int).drop_first() == mv.skip(i + 1));
                assert(mv.skip(i as int)[0] == mv[i as int]);
                match &m[i].1 {
                    Json::Number(t) => {
                        let ghost before = out@;
                        out.push((m[i].0.clone(), t.clone()));
                        assert(out@.map_values(|e: (String, String)| (e.0@, e.1@)) =~= before.map_values(
                            |e: (String, String)| (e.0@, e.1@),
                        ).push((mv[i as int].0@, number_text(mv[i as int].1))));
                        assert(mv.take(i + 1).map_values(|e: (String, Json)| (e.0@, number_text(e.1))) =~= mv.take(
                            i as int,
                        ).map_values(|e: (String, Json)| (e.0@, number_text(e.1))).push(
                            (mv[i as int].0@, number_text(mv[i as int].1)),
                        ));
                    },
                    _ => {
                        let k = m[i].0.clone();
                        assert(first_non_number(mv.skip(i as int)) == Some(mv[i as int].0@));
                        assert(k@ == mv[i as int].0@);
                        assert(v->Object_0@ == mv);
                        return Err(OptionsError::NotNumber(k));
                    },
                }
                i = i + 1;
            }
            assert(mv.skip(mv.len() as int) =~= Seq::<(String, Json)>::empty());
            assert(mv.take(mv.len() as int) == mv);
            Ok(out)
        },
        _ => Err(OptionsError::NotObject),
    }
}

} // verus!
