//! Packing tokenized questions into padded forward passes.
use crate::systemone::{Question, build_sequence, options_spec, render_options, sequence_spec, string_views};
use crate::tokenizer::Tokenizer;
use vstd::prelude::*;
use vstd::set_lib::{lemma_int_range, lemma_len_subset, lemma_subset_equality, set_int_range};
use vstd::seq_lib::lemma_multiset_commutative;

verus! {

/// One question's token sequence and the positions of its option markers.
pub struct Item {
    pub id: String,
    pub seq: Vec<i64>,
    pub markers: Vec<i64>,
    pub qtype: i64,
}

/// `n` sequences padded to length `l`, each with `k` marker slots, flattened row by row.
pub struct Batch {
    pub n: usize,
    pub l: usize,
    pub k: usize,
    pub ids: Vec<i64>,
    pub att: Vec<i64>,
    pub mpos: Vec<i64>,
    pub mmask: Vec<i64>,
    pub qtype: Vec<i64>,
}

pub open spec fn seq_lens(items: Seq<Item>) -> Seq<int> {
    items.map_values(|it: Item| it.seq@.len() as int)
}

/// Index `a` comes before index `b` when its sequence is shorter, or as long and earlier.
pub open spec fn before(lens: Seq<int>, a: int, b: int) -> bool {
    lens[a] < lens[b] || (lens[a] == lens[b] && a < b)
}

/// `order` lists `0..n` once each, shortest sequence first, ties in input order.
pub open spec fn sorted_order(lens: Seq<int>, order: Seq<usize>) -> bool {
    &&& order.len() == lens.len()
    &&& forall|i: int| 0 <= i < order.len() ==> #[trigger] order[i] < lens.len()
    &&& forall|i: int, j: int| 0 <= i < j < order.len() ==> before(lens, #[trigger] order[i] as int, #[trigger] order[j] as int)
}

/// The indices of `items`, shortest sequence first; a stable sort by length.
pub fn order_by_len(items: &[Item]) -> (r: Vec<usize>)
    ensures
        sorted_order(seq_lens(items@), r@),
{
    let ghost lens = seq_lens(items@);
    let mut order: Vec<usize> = Vec::new();
    let mut i: usize = 0;
    while i < items.len()
        invariant
            i <= items@.len(),
            lens == seq_lens(items@),
            lens.len() == items@.len(),
            order@.len() == i,
            forall|a: int| 0 <= a < order@.len() ==> #[trigger] order@[a] < i,
            forall|a: int, b: int| 0 <= a < b < order@.len() ==> before(lens, #[trigger] order@[a] as int, #[trigger] order@[b] as int),
        decreases items.len() - i,
    {
        let len_i = items[i].seq.len();
        assert(lens[i as int] == len_i);
        // every entry that is not longer than item i stays ahead of it
        let mut pos: usize = order.len();
        while pos > 0 && items[order[pos - 1]].seq.len() > len_i
            invariant
                pos <= order@.len(),
                lens == seq_lens(items@),
                lens.len() == items@.len(),
                i < items@.len(),
                len_i == lens[i as int],
                forall|a: int| 0 <= a < order@.len() ==> #[trigger] order@[a] < i,
                forall|a: int| pos <= a < order@.len() ==> lens[#[trigger] order@[a] as int] > len_i,
            decreases pos,
        {
            assert(lens[order@[pos - 1] as int] == items@[order@[pos - 1] as int].seq@.len());
            pos = pos - 1;
        }
        proof {
            if pos > 0 {
                assert(lens[order@[pos - 1] as int] == items@[order@[pos - 1] as int].seq@.len());
            }
        }
        let ghost old_order = order@;
        order.insert(pos, i);
        proof {
            assert forall|a: int, b: int| 0 <= a < b < order@.len() implies before(lens, #[trigger] order@[a] as int, #[trigger] order@[b] as int) by {
                if b < pos {
                    assert(order@[a] == old_order[a] && order@[b] == old_order[b]);
                } else if b == pos {
                    assert(order@[a] == old_order[a]);
                    if a < pos - 1 {
                        assert(before(lens, old_order[a] as int, old_order[pos - 1] as int));
                    }
                } else if a == pos {
                    assert(order@[b] == old_order[b - 1]);
                } else if a < pos {
                    assert(order@[a] == old_order[a] && order@[b] == old_order[b - 1]);
                } else {
                    assert(order@[a] == old_order[a - 1] && order@[b] == old_order[b - 1]);
                }
            }
            assert forall|a: int| 0 <= a < order@.len() implies #[trigger] order@[a] < i + 1 by {
                if a < pos {
                    assert(order@[a] == old_order[a]);
                } else if a > pos {
                    assert(order@[a] == old_order[a - 1]);
                }
            }
        }
        i = i + 1;
    }
    order
}

pub open spec fn flat(gs: Seq<Seq<usize>>) -> Seq<usize>
    decreases gs.len(),
{
    if gs.len() == 0 {
        Seq::empty()
    } else {
        flat(gs.drop_last()) + gs.last()
    }
}

/// The longest sequence among the items of a group.
pub open spec fn group_max(lens: Seq<int>, g: Seq<usize>) -> int
    decreases g.len(),
{
    if g.len() == 0 {
        0
    } else {
        let m = group_max(lens, g.drop_last());
        let x = lens[g.last() as int];
        if x > m {
            x
        } else {
            m
        }
    }
}

/// A group fits the token budget when it is padded to its longest sequence; a group of one
/// always fits.
pub open spec fn group_fits(lens: Seq<int>, g: Seq<usize>, max_tokens: int) -> bool {
    g.len() == 1 || group_max(lens, g) * g.len() <= max_tokens
}

/// The greedy grouping: the groups, read in order, are the items from shortest to longest;
/// every group is non-empty and fits the budget; and each group but the last would stop
/// fitting if it also took the next item.
pub open spec fn budget_groups(lens: Seq<int>, gs: Seq<Seq<usize>>, max_tokens: int) -> bool {
    &&& sorted_order(lens, flat(gs))
    &&& forall|g: int| 0 <= g < gs.len() ==> #[trigger] gs[g].len() > 0
    &&& forall|g: int| 0 <= g < gs.len() ==> group_fits(lens, #[trigger] gs[g], max_tokens)
    &&& forall|g: int|
        0 <= g < gs.len() - 1 ==> !group_fits(lens, (#[trigger] gs[g]).push(gs[g + 1][0]), max_tokens)
}

pub open spec fn group_views(gs: Seq<Vec<usize>>) -> Seq<Seq<usize>> {
    gs.map_values(|g: Vec<usize>| g@)
}

proof fn lemma_group_max_push(lens: Seq<int>, g: Seq<usize>, x: usize)
    ensures
        group_max(lens, g.push(x)) == (if lens[x as int] > group_max(lens, g) {
            lens[x as int]
        } else {
            group_max(lens, g)
        }),
{
    assert(g.push(x).drop_last() == g);
}

/// A split of the items `0..lens.len()` into groups, each item in exactly one, each group
/// fitting the budget.
pub open spec fn fitting_split(lens: Seq<int>, hs: Seq<Seq<usize>>, max_tokens: int) -> bool {
    &&& flat(hs).no_duplicates()
    &&& forall|x: usize| flat(hs).contains(x) <==> (x as int) < lens.len()
    &&& forall|k: int| 0 <= k < hs.len() ==> group_fits(lens, #[trigger] hs[k], max_tokens)
}

/// Splits the items into forward passes of at most `max_tokens` padded tokens each (a
/// single item longer than the budget gets a pass of its own), shortest items first; no
/// split of the items into groups that fit the budget has fewer passes (see
/// `law_fewest_passes`).
pub fn group_by_budget(items: &[Item], max_tokens: usize) -> (r: Vec<Vec<usize>>)
    ensures
        budget_groups(seq_lens(items@), group_views(r@), max_tokens as int),
        forall|hs: Seq<Seq<usize>>| #[trigger] fitting_split(seq_lens(items@), hs, max_tokens as int) ==> r@.len() <= hs.len(),
{
    let ghost lens = seq_lens(items@);
    let order = order_by_len(items);
    let mut groups: Vec<Vec<usize>> = Vec::new();
    let mut cur: Vec<usize> = Vec::new();
    let mut cur_max: usize = 0;
    let mut i: usize = 0;
    assert(group_views(groups@) =~= Seq::empty());
    while i < order.len()
        invariant
            i <= order@.len(),
            lens == seq_lens(items@),
            sorted_order(lens, order@),
            flat(group_views(groups@)) + cur@ == order@.take(i as int),
            i > 0 ==> cur@.len() > 0,
            i == 0 ==> cur@.len() == 0 && groups@.len() == 0,
            cur_max == group_max(lens, cur@),
            cur@.len() > 0 ==> group_fits(lens, cur@, max_tokens as int),
            forall|g: int| 0 <= g < groups@.len() ==> #[trigger] groups@[g]@.len() > 0,
            forall|g: int| 0 <= g < groups@.len() ==> group_fits(lens, #[trigger] groups@[g]@, max_tokens as int),
            forall|g: int|
                0 <= g < groups@.len() - 1 ==> !group_fits(lens, (#[trigger] groups@[g]@).push(groups@[g + 1]@[0]), max_tokens as int),
            groups@.len() > 0 ==> !group_fits(lens, groups@.last()@.push(cur@[0]), max_tokens as int),
        decreases order.len() - i,
    {
        let idx = order[i];
        let ln = items[idx].seq.len();
        assert(lens[idx as int] == ln);
        let new_max = if cur_max > ln { cur_max } else { ln };
        proof {
            lemma_group_max_push(lens, cur@, idx);
        }
        let cl = cur.len() as u128 + 1;
        assert((new_max as u128) * cl <= 0xffff_ffff_ffff_ffff_u128 * 0x1_0000_0000_0000_0000_u128) by (nonlinear_arith)
            requires
                new_max <= 0xffff_ffff_ffff_ffff_u128,
                cl <= 0x1_0000_0000_0000_0000_u128,
        ;
        if cur.len() > 0 && (new_max as u128) * cl > max_tokens as u128 {
            let ghost gv = group_views(groups@);
            let ghost done = cur@;
            let mut full: Vec<usize> = Vec::new();
            std::mem::swap(&mut full, &mut cur);
            proof {
                assert(full@ == done);
            }
            groups.push(full);
            proof {
                assert(group_views(groups@) =~= gv.push(done));
                assert(group_views(groups@).drop_last() == gv);
            }
            cur_max = 0;
            assert(cur@ =~= Seq::<usize>::empty());
        }
        let ghost before_cur = cur@;
        proof {
            lemma_group_max_push(lens, cur@, idx);
        }
        cur_max = if cur_max > ln { cur_max } else { ln };
        cur.push(idx);
        proof {
            assert(order@.take(i + 1) == order@.take(i as int).push(idx));
            if before_cur.len() > 0 {
                assert(cur@[0] == before_cur[0]);
            }
        }
        i = i + 1;
    }
    if cur.len() > 0 {
        let ghost gv = group_views(groups@);
        let ghost done = cur@;
        groups.push(cur);
        proof {
            assert(group_views(groups@) =~= gv.push(done));
            assert(group_views(groups@).drop_last() == gv);
        }
    }
    proof {
        assert(order@.take(order@.len() as int) == order@);
        let gs = group_views(groups@);
        assert forall|g: int| 0 <= g < gs.len() implies #[trigger] gs[g].len() > 0 && group_fits(lens, gs[g], max_tokens as int) by {
            assert(gs[g] == groups@[g]@);
        }
        assert forall|g: int| 0 <= g < gs.len() - 1 implies !group_fits(lens, (#[trigger] gs[g]).push(gs[g + 1][0]), max_tokens as int) by {
            assert(gs[g] == groups@[g]@);
            assert(gs[g + 1] == groups@[g + 1]@);
        }
        assert forall|hs: Seq<Seq<usize>>| #[trigger] fitting_split(lens, hs, max_tokens as int) implies groups@.len() <= hs.len() by {
            law_fewest_passes(lens, gs, hs, max_tokens as int);
        }
    }
    groups
}

/// Cell `c` of row `r` in rows of width `w`.
pub open spec fn at(r: int, c: int, w: int) -> int {
    r * w + c
}

pub open spec fn max_len(items: Seq<Item>, idxs: Seq<usize>, markers: bool) -> int
    decreases idxs.len(),
{
    if idxs.len() == 0 {
        0
    } else {
        let m = max_len(items, idxs.drop_last(), markers);
        let it = items[idxs.last() as int];
        let x = if markers {
            it.markers@.len() as int
        } else {
            it.seq@.len() as int
        };
        if x > m {
            x
        } else {
            m
        }
    }
}

proof fn lemma_max_len(items: Seq<Item>, idxs: Seq<usize>, markers: bool)
    requires
        forall|i: int| 0 <= i < idxs.len() ==> #[trigger] idxs[i] < items.len(),
    ensures
        forall|i: int|
            0 <= i < idxs.len() ==> (if markers {
                items[#[trigger] idxs[i] as int].markers@.len() as int
            } else {
                items[idxs[i] as int].seq@.len() as int
            }) <= max_len(items, idxs, markers),
        max_len(items, idxs, markers) >= 0,
    decreases idxs.len(),
{
    if idxs.len() > 0 {
        let p = idxs.drop_last();
        assert forall|i: int| 0 <= i < p.len() implies #[trigger] p[i] < items.len() by {
            assert(p[i] == idxs[i]);
        }
        lemma_max_len(items, p, markers);
        assert forall|i: int| 0 <= i < idxs.len() - 1 implies #[trigger] idxs[i] == p[i] by {}
    }
}

/// The batch holds, for row `r` (item `idxs[r]`), its tokens padded with 0 to the longest
/// sequence, attention 1 over the tokens and 0 over the padding, its marker positions padded
/// with 0 to the most markers, marker mask 1 over the markers, and its question type.
pub open spec fn batch_of(items: Seq<Item>, idxs: Seq<usize>, b: Batch) -> bool {
    &&& b.n == idxs.len()
    &&& b.l == max_len(items, idxs, false)
    &&& b.k == max_len(items, idxs, true)
    &&& b.ids@.len() == b.n * b.l
    &&& b.att@.len() == b.n * b.l
    &&& b.mpos@.len() == b.n * b.k
    &&& b.mmask@.len() == b.n * b.k
    &&& b.qtype@.len() == b.n
    &&& forall|r: int, c: int|
        0 <= r < b.n && 0 <= c < b.l ==> {
            let s = items[idxs[r] as int].seq@;
            &&& b.ids@[#[trigger] at(r, c, b.l as int)] == (if c < s.len() { s[c] } else { 0 })
            &&& b.att@[at(r, c, b.l as int)] == (if c < s.len() { 1i64 } else { 0 })
        }
    &&& forall|r: int, c: int|
        0 <= r < b.n && 0 <= c < b.k ==> {
            let m = items[idxs[r] as int].markers@;
            &&& b.mpos@[#[trigger] at(r, c, b.k as int)] == (if c < m.len() { m[c] } else { 0 })
            &&& b.mmask@[at(r, c, b.k as int)] == (if c < m.len() { 1i64 } else { 0 })
        }
    &&& forall|r: int| 0 <= r < b.n ==> b.qtype@[r] == #[trigger] items[idxs[r] as int].qtype
}

fn zeros_i64(n: usize) -> (v: Vec<i64>)
    ensures
        v@.len() == n,
        forall|i: int| 0 <= i < n ==> v@[i] == 0,
{
    let mut v: Vec<i64> = Vec::new();
    while v.len() < n
        invariant
            v@.len() <= n,
            forall|i: int| 0 <= i < v@.len() ==> v@[i] == 0,
        decreases n - v.len(),
    {
        v.push(0);
    }
    v
}

proof fn lemma_row_index(r: int, c: int, w: int, n: int)
    requires
        0 <= r < n,
        0 <= c < w,
    ensures
        0 <= r * w + c < n * w,
        r * w <= r * w + c,
{
    assert(r * w + c < n * w) by (nonlinear_arith)
        requires
            0 <= r < n,
            0 <= c < w,
    ;
    assert(0 <= r * w) by (nonlinear_arith)
        requires
            0 <= r,
            0 <= w,
    ;
}

/// Writes `src` into row `r` (of width `w`) of `dst` and marks it in `mask`; the rest of
/// the row is left as it was.
fn fill_row(dst: &mut Vec<i64>, mask: &mut Vec<i64>, r: usize, w: usize, src: &Vec<i64>)
    requires
        src@.len() <= w,
        (r + 1) * w <= old(dst)@.len(),
        old(dst)@.len() == old(mask)@.len(),
    ensures
        final(dst)@.len() == old(dst)@.len(),
        final(mask)@.len() == old(mask)@.len(),
        forall|i: int|
            0 <= i < old(dst)@.len() ==> {
                &&& #[trigger] final(dst)@[i] == (if r * w <= i < r * w + src@.len() {
                    src@[i - r * w]
                } else {
                    old(dst)@[i]
                })
                &&& final(mask)@[i] == (if r * w <= i < r * w + src@.len() {
                    1i64
                } else {
                    old(mask)@[i]
                })
            },
{
    assert(r * w + w == (r + 1) * w) by (nonlinear_arith);
    assert(old(dst)@.len() == dst.len());
    let base = r * w;
    let mut j: usize = 0;
    while j < src.len()
        invariant
            j <= src@.len() <= w,
            base == r * w,
            base + w <= old(dst)@.len(),
            dst@.len() == old(dst)@.len(),
            old(dst)@.len() == dst.len(),
            mask@.len() == old(mask)@.len(),
            old(dst)@.len() == old(mask)@.len(),
            forall|i: int|
                0 <= i < old(dst)@.len() ==> {
                    &&& #[trigger] dst@[i] == (if base <= i < base + j {
                        src@[i - base]
                    } else {
                        old(dst)@[i]
                    })
                    &&& mask@[i] == (if base <= i < base + j {
                        1i64
                    } else {
                        old(mask)@[i]
                    })
                },
        decreases src.len() - j,
    {
        dst.set(base + j, src[j]);
        mask.set(base + j, 1);
        j = j + 1;
    }
}

/// Pads the chosen items into one batch.
pub fn build_batch(items: &[Item], idxs: &[usize]) -> (b: Batch)
    requires
        idxs@.len() > 0,
        forall|i: int| 0 <= i < idxs@.len() ==> #[trigger] idxs@[i] < items@.len(),
        idxs@.len() * max_len(items@, idxs@, false) <= usize::MAX,
        idxs@.len() * max_len(items@, idxs@, true) <= usize::MAX,
    ensures
        batch_of(items@, idxs@, b),
{
    let n = idxs.len();
    let mut l: usize = 0;
    let mut k: usize = 0;
    let mut t: usize = 0;
    while t < n
        invariant
            t <= n == idxs@.len(),
            forall|i: int| 0 <= i < idxs@.len() ==> #[trigger] idxs@[i] < items@.len(),
            l == max_len(items@, idxs@.take(t as int), false),
            k == max_len(items@, idxs@.take(t as int), true),
        decreases n - t,
    {
        let it = &items[idxs[t]];
        proof {
            assert(idxs@.take(t + 1).drop_last() == idxs@.take(t as int));
        }
        if it.seq.len() > l {
            l = it.seq.len();
        }
        if it.markers.len() > k {
            k = it.markers.len();
        }
        t = t + 1;
    }
    proof {
        assert(idxs@.take(n as int) == idxs@);
        lemma_max_len(items@, idxs@, false);
        lemma_max_len(items@, idxs@, true);
    }
    let mut ids = zeros_i64(n * l);
    let mut att = zeros_i64(n * l);
    let mut mpos = zeros_i64(n * k);
    let mut mmask = zeros_i64(n * k);
    let mut qtype: Vec<i64> = Vec::new();
    proof {
        assert forall|q: int, c: int| 0 <= q < n && 0 <= c < l implies 0 <= #[trigger] at(q, c, l as int) < n * l by {
            lemma_row_index(q, c, l as int, n as int);
        }
        assert forall|q: int, c: int| 0 <= q < n && 0 <= c < k implies 0 <= #[trigger] at(q, c, k as int) < n * k by {
            lemma_row_index(q, c, k as int, n as int);
        }
    }
    let mut r: usize = 0;
    while r < n
        invariant
            r <= n == idxs@.len(),
            forall|i: int| 0 <= i < idxs@.len() ==> #[trigger] idxs@[i] < items@.len(),
            l == max_len(items@, idxs@, false),
            k == max_len(items@, idxs@, true),
            forall|i: int| 0 <= i < idxs@.len() ==> items@[#[trigger] idxs@[i] as int].seq@.len() <= l,
            forall|i: int| 0 <= i < idxs@.len() ==> items@[#[trigger] idxs@[i] as int].markers@.len() <= k,
            ids@.len() == n * l,
            att@.len() == n * l,
            mpos@.len() == n * k,
            mmask@.len() == n * k,
            qtype@.len() == r,
            forall|q: int| 0 <= q < r ==> qtype@[q] == #[trigger] items@[idxs@[q] as int].qtype,
            forall|q: int, c: int|
                0 <= q < n && 0 <= c < l ==> {
                    let s = items@[idxs@[q] as int].seq@;
                    &&& ids@[#[trigger] at(q, c, l as int)] == (if q < r && c < s.len() { s[c] } else { 0 })
                    &&& att@[at(q, c, l as int)] == (if q < r && c < s.len() { 1i64 } else { 0 })
                },
            forall|q: int, c: int|
                0 <= q < n && 0 <= c < k ==> {
                    let m = items@[idxs@[q] as int].markers@;
                    &&& mpos@[#[trigger] at(q, c, k as int)] == (if q < r && c < m.len() { m[c] } else { 0 })
                    &&& mmask@[at(q, c, k as int)] == (if q < r && c < m.len() { 1i64 } else { 0 })
                },
        decreases n - r,
    {
        let it = &items[idxs[r]];
        proof {
            assert((r + 1) * l <= n * l) by (nonlinear_arith)
                requires
                    r < n,
            ;
            assert((r + 1) * k <= n * k) by (nonlinear_arith)
                requires
                    r < n,
            ;
        }
        let ghost ids0 = ids@;
        let ghost att0 = att@;
        let ghost mpos0 = mpos@;
        let ghost mmask0 = mmask@;
        fill_row(&mut ids, &mut att, r, l, &it.seq);
        fill_row(&mut mpos, &mut mmask, r, k, &it.markers);
        qtype.push(it.qtype);
        proof {
            assert forall|q: int, c: int| 0 <= q < n && 0 <= c < l implies {
                let s = items@[idxs@[q] as int].seq@;
                &&& ids@[#[trigger] at(q, c, l as int)] == (if q < r + 1 && c < s.len() { s[c] } else { 0 })
                &&& att@[at(q, c, l as int)] == (if q < r + 1 && c < s.len() { 1i64 } else { 0 })
            } by {
                lemma_row_index(q, c, l as int, n as int);
                let ii = at(q, c, l as int);
                let src = it.seq@;
                assert(src.len() <= l);
                assert(ids@[ii] == (if r * l <= ii < r * l + src.len() { src[ii - r * l] } else { ids0[ii] }));
                assert(att@[ii] == (if r * l <= ii < r * l + src.len() { 1i64 } else { att0[ii] }));
                if q != r {
                    if q < r {
                        assert(q * l + c < r * l) by (nonlinear_arith)
                            requires
                                q < r,
                                0 <= c < l,
                        ;
                    } else {
                        assert(q * l + c >= r * l + l) by (nonlinear_arith)
                            requires
                                q > r,
                                l >= 0,
                                c >= 0,
                        ;
                    }
                }
            }
            assert forall|q: int, c: int| 0 <= q < n && 0 <= c < k implies {
                let m = items@[idxs@[q] as int].markers@;
                &&& mpos@[#[trigger] at(q, c, k as int)] == (if q < r + 1 && c < m.len() { m[c] } else { 0 })
                &&& mmask@[at(q, c, k as int)] == (if q < r + 1 && c < m.len() { 1i64 } else { 0 })
            } by {
                lemma_row_index(q, c, k as int, n as int);
                let ii = at(q, c, k as int);
                let src = it.markers@;
                assert(src.len() <= k);
                assert(mpos@[ii] == (if r * k <= ii < r * k + src.len() { src[ii - r * k] } else { mpos0[ii] }));
                assert(mmask@[ii] == (if r * k <= ii < r * k + src.len() { 1i64 } else { mmask0[ii] }));
                if q != r {
                    if q < r {
                        assert(q * k + c < r * k) by (nonlinear_arith)
                            requires
                                q < r,
                                0 <= c < k,
                        ;
                    } else {
                        assert(q * k + c >= r * k + k) by (nonlinear_arith)
                            requires
                                q > r,
                                k >= 0,
                                c >= 0,
                        ;
                    }
                }
            }
        }
        r = r + 1;
    }
    Batch { n, l, k, ids, att, mpos, mmask, qtype }
}

/// Whether a question's sequence has a marker for every one of its options.
pub open spec fn markers_fit(tok: Tokenizer, state: Seq<char>, q: Question) -> bool {
    sequence_spec(tok, state, q.ty@, q.instructions@, q.crit).1.len() == options_spec(q.ty@, q.crit).len()
}

/// The item a question is scored as.
pub open spec fn item_of(it: Item, tok: Tokenizer, state: Seq<char>, q: Question) -> bool {
    &&& it.id@ == q.id@
    &&& (it.seq@, it.markers@) == sequence_spec(tok, state, q.ty@, q.instructions@, q.crit)
    &&& it.qtype == q.qtype
}

/// The items the questions are scored as; the first question whose options do not all get a
/// marker is the error, with its id, its number of options and its number of markers.
pub fn plan_items(tok: &Tokenizer, state: &str, questions: &Vec<Question>) -> (r: Result<Vec<Item>, (String, usize, usize)>)
    ensures
        match r {
            Ok(items) => {
                &&& items@.len() == questions@.len()
                &&& forall|i: int| 0 <= i < questions@.len() ==> markers_fit(*tok, state@, #[trigger] questions@[i])
                &&& forall|i: int| 0 <= i < questions@.len() ==> item_of(#[trigger] items@[i], *tok, state@, questions@[i])
            },
            Err((id, want, got)) => exists|i: int|
                0 <= i < questions@.len() && !markers_fit(*tok, state@, #[trigger] questions@[i]) && (forall|j: int|
                    0 <= j < i ==> markers_fit(*tok, state@, #[trigger] questions@[j])) && id@ == questions@[i].id@
                    && want == options_spec(questions@[i].ty@, questions@[i].crit).len() && got
                    == sequence_spec(*tok, state@, questions@[i].ty@, questions@[i].instructions@, questions@[i].crit).1.len(),
        },
{
    let mut items: Vec<Item> = Vec::new();
    let mut i: usize = 0;
    while i < questions.len()
        invariant
            i <= questions@.len(),
                items@.len() == i,
            forall|j: int| 0 <= j < i ==> markers_fit(*tok, state@, #[trigger] questions@[j]),
            forall|j: int| 0 <= j < i ==> item_of(#[trigger] items@[j], *tok, state@, questions@[j]),
        decreases questions.len() - i,
    {
        let q = &questions[i];
        let (seq, markers) = build_sequence(tok, state, q);
        let expect = render_options(q).len();
        if markers.len() != expect {
            return Err((q.id.clone(), expect, markers.len()));
        }
        items.push(Item { id: q.id.clone(), seq, markers, qtype: q.qtype });
        i = i + 1;
    }
    Ok(items)
}

/// Grouping by budget puts every item in exactly one forward pass: read in order, the
/// groups hold each item's index once.
pub proof fn law_each_item_once(lens: Seq<int>, gs: Seq<Seq<usize>>, max_tokens: int, i: int)
    requires
        budget_groups(lens, gs, max_tokens),
        0 <= i < lens.len(),
    ensures
        exists|p: int|
            0 <= p < flat(gs).len() && flat(gs)[p] == i && forall|q: int| 0 <= q < flat(gs).len() && q != p ==> flat(gs)[q] != i,
{
    let f = flat(gs);
    let n = lens.len() as int;
    let g = f.map_values(|x: usize| x as int);
    assert(f.len() == n);
    assert forall|a: int, b: int| 0 <= a < g.len() && 0 <= b < g.len() && a != b implies g[a] != g[b] by {
        if a < b {
            assert(before(lens, f[a] as int, f[b] as int));
        } else {
            assert(before(lens, f[b] as int, f[a] as int));
        }
    }
    assert(g.no_duplicates());
    g.unique_seq_to_set();
    lemma_int_range(0, n);
    assert(g.to_set().subset_of(set_int_range(0, n))) by {
        assert forall|x: int| g.to_set().contains(x) implies set_int_range(0, n).contains(x) by {
            let k = choose|k: int| 0 <= k < g.len() && g[k] == x;
            assert(f[k] < n);
        }
    }
    lemma_subset_equality(g.to_set(), set_int_range(0, n));
    assert(set_int_range(0, n).contains(i));
    assert(g.to_set().contains(i));
    let p = choose|p: int| 0 <= p < g.len() && g[p] == i;
    assert forall|q: int| 0 <= q < f.len() && q != p implies f[q] != i by {
        assert(g[q] != g[p]);
    }
}


/// How many items the first `j` groups hold.
pub open spec fn ends(gs: Seq<Seq<usize>>, j: int) -> int {
    flat(gs.take(j)).len() as int
}

proof fn lemma_flat_take(gs: Seq<Seq<usize>>, j: int)
    requires
        0 <= j < gs.len(),
    ensures
        flat(gs.take(j + 1)) == flat(gs.take(j)) + gs[j],
{
    assert(gs.take(j + 1).drop_last() == gs.take(j));
}

/// The first `j` groups, read in order, begin the whole reading; group `j` comes next.
proof fn lemma_flat_prefix(gs: Seq<Seq<usize>>, j: int)
    requires
        0 <= j <= gs.len(),
    ensures
        ends(gs, j) <= flat(gs).len(),
        flat(gs).take(ends(gs, j)) == flat(gs.take(j)),
        j < gs.len() ==> ends(gs, j + 1) == ends(gs, j) + gs[j].len(),
        j < gs.len() ==> gs[j] == flat(gs).subrange(ends(gs, j), ends(gs, j + 1)),
    decreases gs.len() - j,
{
    if j == gs.len() {
        assert(gs.take(j) == gs);
    } else {
        lemma_flat_prefix(gs, j + 1);
        lemma_flat_take(gs, j);
        let f = flat(gs);
        let a = flat(gs.take(j));
        assert(f.take(ends(gs, j + 1)) == a + gs[j]);
        assert(f.take(ends(gs, j)) == (a + gs[j]).take(a.len() as int));
        assert((a + gs[j]).take(a.len() as int) == a);
        assert(f.subrange(ends(gs, j), ends(gs, j + 1)) == (a + gs[j]).subrange(a.len() as int, (a + gs[j]).len() as int));
        assert((a + gs[j]).subrange(a.len() as int, (a + gs[j]).len() as int) == gs[j]);
    }
}

proof fn lemma_group_max_bounds(lens: Seq<int>, g: Seq<usize>)
    requires
        forall|i: int| 0 <= i < lens.len() ==> lens[i] >= 0,
        forall|x: int| 0 <= x < g.len() ==> #[trigger] g[x] < lens.len(),
    ensures
        group_max(lens, g) >= 0,
        forall|x: int| 0 <= x < g.len() ==> lens[#[trigger] g[x] as int] <= group_max(lens, g),
    decreases g.len(),
{
    if g.len() > 0 {
        let d = g.drop_last();
        lemma_group_max_bounds(lens, d);
        assert forall|x: int| 0 <= x < g.len() implies lens[#[trigger] g[x] as int] <= group_max(lens, g) by {
            if x < g.len() - 1 {
                assert(g[x] == d[x]);
            }
        }
    }
}

proof fn lemma_group_max_at_most(lens: Seq<int>, g: Seq<usize>, m: int)
    requires
        m >= 0,
        forall|x: int| 0 <= x < g.len() ==> lens[#[trigger] g[x] as int] <= m,
    ensures
        group_max(lens, g) <= m,
    decreases g.len(),
{
    if g.len() > 0 {
        let d = g.drop_last();
        assert forall|x: int| 0 <= x < d.len() implies lens[#[trigger] d[x] as int] <= m by {
            assert(d[x] == g[x]);
        }
        lemma_group_max_at_most(lens, d, m);
    }
}

/// A stretch of a group that fits the budget fits it too.
proof fn lemma_fits_within(lens: Seq<int>, o: Seq<usize>, a: int, b: int, a2: int, b2: int, max_tokens: int)
    requires
        forall|i: int| 0 <= i < lens.len() ==> lens[i] >= 0,
        forall|x: int| 0 <= x < o.len() ==> #[trigger] o[x] < lens.len(),
        0 <= a <= a2 < b2 <= b <= o.len(),
        group_fits(lens, o.subrange(a, b), max_tokens),
    ensures
        group_fits(lens, o.subrange(a2, b2), max_tokens),
{
    let g = o.subrange(a, b);
    let g2 = o.subrange(a2, b2);
    if g2.len() != 1 {
        assert forall|x: int| 0 <= x < g.len() implies #[trigger] g[x] < lens.len() by {
            assert(g[x] == o[a + x]);
        }
        assert forall|x: int| 0 <= x < g2.len() implies #[trigger] g2[x] < lens.len() by {
            assert(g2[x] == o[a2 + x]);
        }
        lemma_group_max_bounds(lens, g);
        lemma_group_max_bounds(lens, g2);
        let m = group_max(lens, g);
        assert forall|x: int| 0 <= x < g2.len() implies lens[#[trigger] g2[x] as int] <= m by {
            assert(g2[x] == g[a2 - a + x]);
        }
        lemma_group_max_at_most(lens, g2, m);
        let m2 = group_max(lens, g2);
        assert(m2 * g2.len() <= m * g.len()) by (nonlinear_arith)
            requires
                0 <= m2 <= m,
                g2.len() <= g.len(),
        ;
    }
}

/// Each of the first `j` greedy groups ends no earlier than the first `j` groups of any
/// other split of the same reading into groups that fit.
proof fn lemma_stays_ahead(lens: Seq<int>, gs: Seq<Seq<usize>>, hs: Seq<Seq<usize>>, max_tokens: int, j: int)
    requires
        forall|i: int| 0 <= i < lens.len() ==> lens[i] >= 0,
        budget_groups(lens, gs, max_tokens),
        flat(hs) == flat(gs),
        forall|k: int| 0 <= k < hs.len() ==> group_fits(lens, #[trigger] hs[k], max_tokens),
        0 <= j <= gs.len(),
        j <= hs.len(),
    ensures
        ends(hs, j) <= ends(gs, j),
    decreases j,
{
    if j > 0 {
        lemma_stays_ahead(lens, gs, hs, max_tokens, j - 1);
        let o = flat(gs);
        lemma_flat_prefix(gs, j - 1);
        lemma_flat_prefix(gs, j);
        lemma_flat_prefix(hs, j - 1);
        lemma_flat_prefix(hs, j);
        let g0 = ends(gs, j - 1);
        let g1 = ends(gs, j);
        let h0 = ends(hs, j - 1);
        let h1 = ends(hs, j);
        if h1 > g1 {
            if j < gs.len() {
                lemma_flat_prefix(gs, j + 1);
                assert(gs[j].len() > 0);
                assert(gs[j][0] == o[g1]);
                assert(gs[j - 1].push(gs[j][0]) == o.subrange(g0, g1 + 1));
                assert(!group_fits(lens, gs[j - 1].push(gs[j][0]), max_tokens));
                assert(group_fits(lens, hs[j - 1], max_tokens));
                lemma_fits_within(lens, o, h0, h1, g0, g1 + 1, max_tokens);
            }
        }
    }
}

/// No other split of the same shortest-first reading of the items into runs that each fit
/// the budget has fewer runs than the greedy grouping.
proof fn lemma_fewest_runs(lens: Seq<int>, gs: Seq<Seq<usize>>, hs: Seq<Seq<usize>>, max_tokens: int)
    requires
        forall|i: int| 0 <= i < lens.len() ==> lens[i] >= 0,
        budget_groups(lens, gs, max_tokens),
        flat(hs) == flat(gs),
        forall|k: int| 0 <= k < hs.len() ==> group_fits(lens, #[trigger] hs[k], max_tokens),
    ensures
        gs.len() <= hs.len(),
{
    if gs.len() > hs.len() {
        let k = hs.len() as int;
        lemma_stays_ahead(lens, gs, hs, max_tokens, k);
        lemma_flat_prefix(hs, k);
        assert(hs.take(k) == hs);
        lemma_flat_prefix(gs, k);
        lemma_flat_prefix(gs, k + 1);
        assert(gs[k].len() > 0);
    }
}


/// Where index `x` stands in the order `o`.
pub open spec fn pos_in(o: Seq<usize>, x: usize) -> int {
    choose|p: int| 0 <= p < o.len() && o[p] == x
}

/// A shortest-first order lists every index exactly once.
proof fn lemma_order_positions(lens: Seq<int>, o: Seq<usize>)
    requires
        sorted_order(lens, o),
    ensures
        forall|a: int, b: int| 0 <= a < o.len() && 0 <= b < o.len() && a != b ==> o[a] != o[b],
        forall|x: usize| (x as int) < lens.len() ==> 0 <= #[trigger] pos_in(o, x) < o.len() && o[pos_in(o, x)] == x,
{
    let n = lens.len() as int;
    let g = o.map_values(|x: usize| x as int);
    assert forall|a: int, b: int| 0 <= a < o.len() && 0 <= b < o.len() && a != b implies o[a] != o[b] by {
        if a < b {
            assert(before(lens, o[a] as int, o[b] as int));
        } else {
            assert(before(lens, o[b] as int, o[a] as int));
        }
    }
    assert(g.no_duplicates()) by {
        assert forall|a: int, b: int| 0 <= a < g.len() && 0 <= b < g.len() && a != b implies g[a] != g[b] by {
            assert(o[a] != o[b]);
        }
    }
    g.unique_seq_to_set();
    lemma_int_range(0, n);
    assert(g.to_set().subset_of(set_int_range(0, n))) by {
        assert forall|x: int| g.to_set().contains(x) implies set_int_range(0, n).contains(x) by {
            let k = choose|k: int| 0 <= k < g.len() && g[k] == x;
            assert(o[k] < n);
        }
    }
    lemma_subset_equality(g.to_set(), set_int_range(0, n));
    assert forall|x: usize| (x as int) < lens.len() implies 0 <= #[trigger] pos_in(o, x) < o.len() && o[pos_in(o, x)] == x by {
        assert(set_int_range(0, n).contains(x as int));
        assert(g.to_set().contains(x as int));
        let k = choose|k: int| 0 <= k < g.len() && g[k] == x as int;
        assert(o[k] == x);
    }
}

/// The furthest position in `o` of the indices of group `g` (-1 for an empty group).
pub open spec fn max_pos(o: Seq<usize>, g: Seq<usize>) -> int
    decreases g.len(),
{
    if g.len() == 0 {
        -1
    } else {
        let m = max_pos(o, g.drop_last());
        let p = pos_in(o, g.last());
        if p > m {
            p
        } else {
            m
        }
    }
}

proof fn lemma_max_pos(o: Seq<usize>, g: Seq<usize>)
    requires
        forall|i: int| 0 <= i < g.len() ==> 0 <= pos_in(o, #[trigger] g[i]),
    ensures
        forall|i: int| 0 <= i < g.len() ==> pos_in(o, #[trigger] g[i]) <= max_pos(o, g),
        g.len() > 0 ==> exists|i: int| 0 <= i < g.len() && pos_in(o, #[trigger] g[i]) == max_pos(o, g),
        g.len() == 0 ==> max_pos(o, g) == -1,
    decreases g.len(),
{
    if g.len() > 0 {
        let d = g.drop_last();
        assert forall|i: int| 0 <= i < d.len() implies 0 <= pos_in(o, #[trigger] d[i]) by {
            assert(d[i] == g[i]);
        }
        lemma_max_pos(o, d);
        assert forall|i: int| 0 <= i < g.len() implies pos_in(o, #[trigger] g[i]) <= max_pos(o, g) by {
            if i < g.len() - 1 {
                assert(g[i] == d[i]);
            }
        }
        assert(0 <= pos_in(o, g[g.len() - 1]));
        if pos_in(o, g.last()) > max_pos(o, d) {
            assert(pos_in(o, g[g.len() - 1]) == max_pos(o, g));
        } else {
            let i = choose|i: int| 0 <= i < d.len() && pos_in(o, #[trigger] d[i]) == max_pos(o, d);
            assert(g[i] == d[i]);
        }
    }
}

/// The indices of each group are among those read from all of them.
proof fn lemma_group_in_flat(hs: Seq<Seq<usize>>, j: int, q: int)
    requires
        0 <= j < hs.len(),
        0 <= q < hs[j].len(),
    ensures
        flat(hs).contains(hs[j][q]),
{
    broadcast use vstd::multiset::group_multiset_axioms;
    broadcast use vstd::seq_lib::group_to_multiset_ensures;

    lemma_flat_remove(hs, j);
    assert(hs[j].contains(hs[j][q]));
    assert(hs[j].to_multiset().count(hs[j][q]) > 0);
    assert(flat(hs).to_multiset().count(hs[j][q]) > 0);
}

/// Among the first `k` groups, the one whose indices reach furthest in `o`.
pub open spec fn top_group(o: Seq<usize>, hs: Seq<Seq<usize>>, k: int) -> int
    decreases k,
{
    if k <= 1 {
        0
    } else {
        let t = top_group(o, hs, k - 1);
        if max_pos(o, hs[k - 1]) > max_pos(o, hs[t]) {
            k - 1
        } else {
            t
        }
    }
}

proof fn lemma_top_group(o: Seq<usize>, hs: Seq<Seq<usize>>, k: int)
    requires
        1 <= k <= hs.len(),
    ensures
        0 <= top_group(o, hs, k) < k,
        forall|j: int| 0 <= j < k ==> max_pos(o, #[trigger] hs[j]) <= max_pos(o, hs[top_group(o, hs, k)]),
    decreases k,
{
    if k > 1 {
        lemma_top_group(o, hs, k - 1);
    }
}

/// Every index read from the groups lies in one of them.
proof fn lemma_flat_member(hs: Seq<Seq<usize>>, i: int)
    requires
        0 <= i < flat(hs).len(),
    ensures
        exists|j: int, q: int| 0 <= j < hs.len() && 0 <= q < hs[j].len() && #[trigger] hs[j][q] == flat(hs)[i],
    decreases hs.len(),
{
    let d = hs.drop_last();
    let f = flat(d);
    if i < f.len() {
        lemma_flat_member(d, i);
        let (j, q) = choose|j: int, q: int| 0 <= j < d.len() && 0 <= q < d[j].len() && #[trigger] d[j][q] == f[i];
        assert(hs[j] == d[j]);
        assert(hs[j][q] == flat(hs)[i]);
    } else {
        let q = i - f.len();
        assert(hs[hs.len() - 1][q] == flat(hs)[i]);
    }
}

/// Taking a group out of a split leaves the other groups' indices.
proof fn lemma_flat_remove(hs: Seq<Seq<usize>>, t: int)
    requires
        0 <= t < hs.len(),
    ensures
        flat(hs).to_multiset() =~= flat(hs.remove(t)).to_multiset().add(hs[t].to_multiset()),
    decreases hs.len(),
{
    broadcast use vstd::multiset::group_multiset_axioms;

    let d = hs.drop_last();
    lemma_multiset_commutative(flat(d), hs.last());
    if t == hs.len() - 1 {
        assert(hs.remove(t) == d);
    } else {
        let r = hs.remove(t);
        assert(r.drop_last() == d.remove(t));
        assert(r.last() == hs.last());
        lemma_flat_remove(d, t);
        lemma_multiset_commutative(flat(d.remove(t)), hs.last());
        assert(d[t] == hs[t]);
    }
}

/// Any split of some of the indices into groups that fit the budget, each index at most
/// once, can be matched by as many runs of `o`, read from its start, that fit too.
proof fn lemma_runs_as_good(lens: Seq<int>, o: Seq<usize>, hs: Seq<Seq<usize>>, max_tokens: int) -> (r: Seq<Seq<usize>>)
    requires
        forall|i: int| 0 <= i < lens.len() ==> lens[i] >= 0,
        sorted_order(lens, o),
        flat(hs).no_duplicates(),
        forall|i: int| 0 <= i < flat(hs).len() ==> #[trigger] flat(hs)[i] < lens.len(),
        forall|j: int| 0 <= j < hs.len() ==> group_fits(lens, #[trigger] hs[j], max_tokens),
    ensures
        r.len() == hs.len(),
        flat(hs).len() <= o.len(),
        flat(r) == o.take(flat(hs).len() as int),
        forall|j: int| 0 <= j < r.len() ==> group_fits(lens, #[trigger] r[j], max_tokens),
    decreases hs.len(),
{
    broadcast use vstd::multiset::group_multiset_axioms;
    broadcast use vstd::seq_lib::group_to_multiset_ensures;

    let f = flat(hs);
    let s = f.len() as int;
    lemma_order_positions(lens, o);
    if hs.len() == 0 {
        assert(f.len() == 0);
        let r = Seq::<Seq<usize>>::empty();
        assert(o.take(0) =~= flat(r));
        return r;
    }
    let t = top_group(o, hs, hs.len() as int);
    lemma_top_group(o, hs, hs.len() as int);
    let h = hs[t];
    let c = h.len() as int;
    let rest = hs.remove(t);
    let fr = flat(rest);
    lemma_flat_remove(hs, t);
    vstd::seq_lib::to_multiset_len(f);
    vstd::seq_lib::to_multiset_len(fr);
    vstd::seq_lib::to_multiset_len(h);
    assert(fr.len() + c == s);
    f.lemma_multiset_has_no_duplicates();
    assert forall|x: usize| fr.to_multiset().contains(x) implies fr.to_multiset().count(x) == 1 by {
        assert(f.to_multiset().count(x) == fr.to_multiset().count(x) + h.to_multiset().count(x));
    }
    fr.lemma_multiset_has_no_duplicates_conv();
    assert forall|i: int| 0 <= i < fr.len() implies #[trigger] fr[i] < lens.len() by {
        assert(fr.to_multiset().count(fr[i]) > 0);
        assert(f.to_multiset().count(fr[i]) > 0);
        assert(f.contains(fr[i]));
    }
    assert forall|j: int| 0 <= j < rest.len() implies group_fits(lens, #[trigger] rest[j], max_tokens) by {
        if j < t {
            assert(rest[j] == hs[j]);
        } else {
            assert(rest[j] == hs[j + 1]);
        }
    }
    let r0 = lemma_runs_as_good(lens, o, rest, max_tokens);
    // every index in the groups stands no further than the top group reaches
    let m = max_pos(o, h);
    assert forall|j: int, q: int| 0 <= j < hs.len() && 0 <= q < hs[j].len() implies #[trigger] hs[j][q] < lens.len() by {
        lemma_group_in_flat(hs, j, q);
    }
    assert forall|j: int| 0 <= j < hs.len() implies forall|i: int| 0 <= i < (#[trigger] hs[j]).len() ==> 0 <= pos_in(o, hs[j][i]) by {
        assert forall|i: int| 0 <= i < hs[j].len() implies 0 <= pos_in(o, hs[j][i]) by {
            assert(hs[j][i] < lens.len());
        }
    }
    lemma_max_pos(o, h);
    assert forall|i: int| 0 <= i < s implies pos_in(o, #[trigger] f[i]) <= m by {
        lemma_flat_member(hs, i);
        let (j, q) = choose|j: int, q: int| 0 <= j < hs.len() && 0 <= q < hs[j].len() && #[trigger] hs[j][q] == f[i];
        lemma_max_pos(o, hs[j]);
        assert(pos_in(o, hs[j][q]) <= max_pos(o, hs[j]));
    }
    // so there are at most m + 1 of them
    let ps = Seq::new(s as nat, |i: int| pos_in(o, f[i]));
    assert(ps.no_duplicates()) by {
        assert forall|a: int, b: int| 0 <= a < ps.len() && 0 <= b < ps.len() && a != b implies ps[a] != ps[b] by {
            assert(o[pos_in(o, f[a])] == f[a]);
            assert(o[pos_in(o, f[b])] == f[b]);
            assert(f[a] != f[b]);
        }
    }
    ps.unique_seq_to_set();
    if s > 0 {
        assert(f[0] < lens.len());
        assert(0 <= pos_in(o, f[0]) <= m);
        assert(h.len() > 0);
        let qm = choose|i: int| 0 <= i < h.len() && pos_in(o, #[trigger] h[i]) == max_pos(o, h);
        assert(h[qm] < lens.len());
        assert(m < o.len());
        lemma_int_range(0, m + 1);
        assert(ps.to_set().subset_of(set_int_range(0, m + 1))) by {
            assert forall|x: int| ps.to_set().contains(x) implies set_int_range(0, m + 1).contains(x) by {
                let k = choose|k: int| 0 <= k < ps.len() && ps[k] == x;
                assert(0 <= pos_in(o, f[k]));
            }
        }
        lemma_len_subset(ps.to_set(), set_int_range(0, m + 1));
    }
    assert(s <= o.len());
    let run = o.subrange(s - c, s);
    let r = r0.push(run);
    assert(r.drop_last() == r0);
    assert(flat(r) =~= o.take(s)) by {
        assert(o.take(s - c) + run =~= o.take(s));
    }
    assert(group_fits(lens, run, max_tokens)) by {
        if c >= 2 {
            lemma_max_pos(o, h);
            let qi = choose|i: int| 0 <= i < h.len() && pos_in(o, #[trigger] h[i]) == max_pos(o, h);
            assert(h[qi] < lens.len());
            assert forall|x: int| 0 <= x < h.len() implies #[trigger] h[x] < lens.len() by {
                assert(hs[t][x] < lens.len());
            }
            lemma_group_max_bounds(lens, h);
            let top = group_max(lens, h);
            assert(lens[o[m] as int] <= top);
            assert forall|x: int| 0 <= x < run.len() implies lens[#[trigger] run[x] as int] <= top by {
                let p = s - c + x;
                assert(run[x] == o[p]);
                assert(p <= m);
                if p < m {
                    assert(before(lens, o[p] as int, o[m] as int));
                }
            }
            lemma_group_max_at_most(lens, run, top);
            let g2 = group_max(lens, run);
            assert(g2 * c <= top * c) by (nonlinear_arith)
                requires
                    g2 <= top,
                    c >= 0,
            ;
        } else if c == 0 {
            assert(run =~= h);
        }
    }
    assert forall|j: int| 0 <= j < r.len() implies group_fits(lens, #[trigger] r[j], max_tokens) by {
        if j < r0.len() {
            assert(r[j] == r0[j]);
        }
    }
    r
}

/// Grouping by budget takes the fewest forward passes the budget allows: no split of the
/// items into groups that each fit the budget, each item in exactly one, has fewer groups.
pub proof fn law_fewest_passes(lens: Seq<int>, gs: Seq<Seq<usize>>, hs: Seq<Seq<usize>>, max_tokens: int)
    requires
        lens.len() <= usize::MAX,
        forall|i: int| 0 <= i < lens.len() ==> lens[i] >= 0,
        budget_groups(lens, gs, max_tokens),
        fitting_split(lens, hs, max_tokens),
    ensures
        gs.len() <= hs.len(),
{
    let o = flat(gs);
    let f = flat(hs);
    let n = lens.len() as int;
    assert forall|i: int| 0 <= i < f.len() implies #[trigger] f[i] < lens.len() by {
        assert(f.contains(f[i]));
    }
    let r = lemma_runs_as_good(lens, o, hs, max_tokens);
    lemma_order_positions(lens, o);
    // the groups hold all n indices
    let g = f.map_values(|x: usize| x as int);
    assert(g.no_duplicates()) by {
        assert forall|a: int, b: int| 0 <= a < g.len() && 0 <= b < g.len() && a != b implies g[a] != g[b] by {
            assert(f[a] != f[b]);
        }
    }
    g.unique_seq_to_set();
    lemma_int_range(0, n);
    assert(set_int_range(0, n).subset_of(g.to_set())) by {
        assert forall|x: int| set_int_range(0, n).contains(x) implies g.to_set().contains(x) by {
            let u = x as usize;
            assert(f.contains(u));
            let k = choose|k: int| 0 <= k < f.len() && f[k] == u;
            assert(g[k] == x);
        }
    }
    lemma_len_subset(set_int_range(0, n), g.to_set());
    assert(o.len() == n);
    assert(f.len() == n);
    assert(o.take(n) == o);
    lemma_fewest_runs(lens, gs, r, max_tokens);
}

} // verus!
