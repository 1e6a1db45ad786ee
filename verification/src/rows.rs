//! The data movement of the model's tensor operations on row-major matrices, for any element
//! type: gathering rows, locating option markers, the attention key mask, and appending
//! features to a sequence's first row.
use crate::weights::tensors::cell;
use vstd::arithmetic::div_mod::lemma_fundamental_div_mod_converse;
use vstd::prelude::*;

verus! {

/// The rows of `table` (each `dim` wide) listed in `rows`, one after another.
pub fn gather_rows<T: Copy>(table: &Vec<T>, dim: usize, rows: &Vec<usize>) -> (out: Vec<T>)
    requires
        forall|r: int| 0 <= r < rows@.len() ==> (#[trigger] rows@[r]) * dim + dim <= table@.len(),
    ensures
        out@.len() == rows@.len() * dim,
        forall|r: int, c: int|
            0 <= r < rows@.len() && 0 <= c < dim ==> #[trigger] cell(out@, r, c, dim as int) == cell(table@, rows@[r] as int, c, dim as int),
{
    let tl: usize = table.len();
    let mut out: Vec<T> = Vec::new();
    let mut r: usize = 0;
    while r < rows.len()
        invariant
            tl == table@.len(),
            r <= rows@.len(),
            forall|q: int| 0 <= q < rows@.len() ==> (#[trigger] rows@[q]) * dim + dim <= table@.len(),
            out@.len() == r * dim,
            forall|rr: int, c: int|
                0 <= rr < r && 0 <= c < dim ==> #[trigger] cell(out@, rr, c, dim as int) == cell(table@, rows@[rr] as int, c, dim as int),
        decreases rows.len() - r,
    {
        assert(rows@[r as int] * dim + dim <= table@.len());
        let base = rows[r] * dim;
        let mut c: usize = 0;
        while c < dim
            invariant
                tl == table@.len(),
                c <= dim,
                r < rows@.len(),
                base == rows@[r as int] * dim,
                base + dim <= table@.len(),
                out@.len() == r * dim + c,
                forall|rr: int, cc: int|
                    0 <= rr < r && 0 <= cc < dim ==> #[trigger] cell(out@, rr, cc, dim as int) == cell(table@, rows@[rr] as int, cc, dim as int),
                forall|cc: int| 0 <= cc < c ==> #[trigger] cell(out@, r as int, cc, dim as int) == cell(table@, rows@[r as int] as int, cc, dim as int),
            decreases dim - c,
        {
            let ghost before = out@;
            out.push(table[base + c]);
            proof {
                assert forall|rr: int, cc: int|
                    0 <= rr < r && 0 <= cc < dim implies #[trigger] cell(out@, rr, cc, dim as int) == cell(table@, rows@[rr] as int, cc, dim as int) by {
                    assert(rr * dim + cc < r * dim) by (nonlinear_arith)
                        requires
                            rr < r,
                            cc < dim,
                    ;
                    assert(cell(out@, rr, cc, dim as int) == cell(before, rr, cc, dim as int));
                }
                assert forall|cc: int| 0 <= cc < c + 1 implies #[trigger] cell(out@, r as int, cc, dim as int) == cell(
                    table@,
                    rows@[r as int] as int,
                    cc,
                    dim as int,
                ) by {
                    if cc < c {
                        assert(cell(out@, r as int, cc, dim as int) == cell(before, r as int, cc, dim as int));
                    }
                }
            }
            c = c + 1;
        }
        proof {
            assert((r + 1) * dim == r * dim + dim) by (nonlinear_arith);
        }
        r = r + 1;
    }
    out
}

/// The row of a batch's flattened sequences that each marker points at: marker `r` belongs
/// to sequence `r / k`, whose rows start at `(r / k) * len`.
pub fn marker_rows(mpos: &[i64], k: usize, len: usize) -> (out: Vec<usize>)
    requires
        k > 0,
        forall|r: int| 0 <= r < mpos@.len() ==> 0 <= #[trigger] mpos@[r] && (r / k as int) * len + mpos@[r] <= usize::MAX,
    ensures
        out@.len() == mpos@.len(),
        forall|r: int| 0 <= r < mpos@.len() ==> #[trigger] out@[r] == (r / k as int) * len + mpos@[r],
{
    let mut out: Vec<usize> = Vec::new();
    let mut r: usize = 0;
    while r < mpos.len()
        invariant
            k > 0,
            r <= mpos@.len(),
            forall|q: int| 0 <= q < mpos@.len() ==> 0 <= #[trigger] mpos@[q] && (q / k as int) * len + mpos@[q] <= usize::MAX,
            out@.len() == r,
            forall|q: int| 0 <= q < r ==> #[trigger] out@[q] == (q / k as int) * len + mpos@[q],
        decreases mpos.len() - r,
    {
        assert(0 <= mpos@[r as int] && (r as int / k as int) * len + mpos@[r as int] <= usize::MAX);
        proof {
            assert((r / k) as int * len <= usize::MAX) by (nonlinear_arith)
                requires
                    (r as int / k as int) * len + mpos@[r as int] <= usize::MAX,
                    0 <= mpos@[r as int],
                    r as int / k as int == (r / k) as int,
            ;
        }
        let row = (r / k) * len + mpos[r] as usize;
        out.push(row);
        r = r + 1;
    }
    out
}

/// Whether query `s` may attend to key `t` of a sequence: the key is not padding, and within
/// the window when there is one.
pub open spec fn keeps(att: Seq<i64>, len: int, q: int, t: int, window: Option<usize>) -> bool {
    let b = q / len;
    let s = q % len;
    &&& att[b * len + t] != 0
    &&& match window {
        None => true,
        Some(w) => (if s >= t {
            s - t
        } else {
            t - s
        }) <= w,
    }
}

/// The attention key mask of `n` sequences of `len` positions: row `b * len + s` says for each
/// key `t` whether query `s` of sequence `b` attends to it.
pub fn key_mask(att: &[i64], n: usize, len: usize, window: Option<usize>) -> (m: Vec<bool>)
    requires
        att@.len() == n * len,
    ensures
        m@.len() == n * len * len,
        forall|q: int, t: int| 0 <= q < n * len && 0 <= t < len ==> #[trigger] cell(m@, q, t, len as int) == keeps(att@, len as int, q, t, window),
{
    let al: usize = att.len();
    let mut m: Vec<bool> = Vec::new();
    let mut b: usize = 0;
    while b < n
        invariant
            al == att@.len(),
            b <= n,
            att@.len() == n * len,
            m@.len() == b * len * len,
            forall|q: int, t: int| 0 <= q < b * len && 0 <= t < len ==> #[trigger] cell(m@, q, t, len as int) == keeps(att@, len as int, q, t, window),
        decreases n - b,
    {
        let mut s: usize = 0;
        while s < len
            invariant
                al == att@.len(),
                b < n,
                s <= len,
                att@.len() == n * len,
                m@.len() == (b * len + s) * len,
                forall|q: int, t: int|
                    0 <= q < b * len + s && 0 <= t < len ==> #[trigger] cell(m@, q, t, len as int) == keeps(att@, len as int, q, t, window),
            decreases len - s,
        {
            let ghost q = b * len + s;
            proof {
                lemma_fundamental_div_mod_converse(q, len as int, b as int, s as int);
                assert(b * len + len <= n * len) by (nonlinear_arith)
                    requires
                        b < n,
            ;
            }
            let mut t: usize = 0;
            while t < len
                invariant
                    al == att@.len(),
                    b < n,
                    s < len,
                    t <= len,
                    q == b * len + s,
                    q / (len as int) == b,
                    q % (len as int) == s,
                    b * len + len <= n * len,
                    att@.len() == n * len,
                    m@.len() == q * len + t,
                    forall|qq: int, tt: int|
                        0 <= qq < q && 0 <= tt < len ==> #[trigger] cell(m@, qq, tt, len as int) == keeps(att@, len as int, qq, tt, window),
                    forall|tt: int| 0 <= tt < t ==> #[trigger] cell(m@, q, tt, len as int) == keeps(att@, len as int, q, tt, window),
                decreases len - t,
            {
                let near = match window {
                    None => true,
                    Some(w) => (if s >= t {
                        s - t
                    } else {
                        t - s
                    }) <= w,
                };
                let keep = att[b * len + t] != 0 && near;
                let ghost before = m@;
                m.push(keep);
                proof {
                    assert(keep == keeps(att@, len as int, q, t as int, window));
                    assert forall|qq: int, tt: int|
                        0 <= qq < q && 0 <= tt < len implies #[trigger] cell(m@, qq, tt, len as int) == keeps(att@, len as int, qq, tt, window) by {
                        assert(qq * len + tt < q * len) by (nonlinear_arith)
                            requires
                                qq < q,
                                tt < len,
                        ;
                        assert(cell(m@, qq, tt, len as int) == cell(before, qq, tt, len as int));
                    }
                    assert forall|tt: int| 0 <= tt < t + 1 implies #[trigger] cell(m@, q, tt, len as int) == keeps(
                        att@,
                        len as int,
                        q,
                        tt,
                        window,
                    ) by {
                        if tt < t {
                            assert(cell(m@, q, tt, len as int) == cell(before, q, tt, len as int));
                        }
                    }
                }
                t = t + 1;
            }
            proof {
                assert((q + 1) * len == q * len + len) by (nonlinear_arith);
            }
            s = s + 1;
        }
        proof {
            assert((b + 1) * len == b * len + len) by (nonlinear_arith);
            assert((b + 1) * len * len == (b * len + len) * len) by (nonlinear_arith);
        }
        b = b + 1;
    }
    m
}

/// The value at column `c` of row `b` of `with_features`: the sequence's first row, then its
/// features.
pub open spec fn featured<T>(x: Seq<T>, dim: int, len: int, feats: Seq<T>, nf: int, b: int, c: int) -> T {
    if c < dim {
        cell(x, b * len, c, dim)
    } else {
        cell(feats, b, c - dim, nf)
    }
}

/// For each of `n` sequences of `len` rows `dim` wide, its first row followed by that
/// sequence's `nf` features: rows `dim + nf` wide.
pub fn with_features<T: Copy>(x: &Vec<T>, dim: usize, len: usize, feats: &Vec<T>, nf: usize, n: usize) -> (out: Vec<T>)
    requires
        n == 0 || (n - 1) * len * dim + dim <= x@.len(),
        feats@.len() == n * nf,
        dim + nf <= usize::MAX,
    ensures
        out@.len() == n * (dim + nf),
        forall|b: int, c: int|
            0 <= b < n && 0 <= c < dim + nf ==> #[trigger] cell(out@, b, c, (dim + nf) as int) == featured(
                x@,
                dim as int,
                len as int,
                feats@,
                nf as int,
                b,
                c,
            ),
{
    let w: usize = dim + nf;
    let xl: usize = x.len();
    let fl: usize = feats.len();
    let mut out: Vec<T> = Vec::new();
    let mut b: usize = 0;
    while b < n
        invariant
            xl == x@.len(),
            fl == feats@.len(),
            b <= n,
            w == dim + nf,
            n == 0 || (n - 1) * len * dim + dim <= x@.len(),
            feats@.len() == n * nf,
            out@.len() == b * w,
            forall|bb: int, c: int|
                0 <= bb < b && 0 <= c < w ==> #[trigger] cell(out@, bb, c, w as int) == featured(
                    x@,
                    dim as int,
                    len as int,
                    feats@,
                    nf as int,
                    bb,
                    c,
                ),
        decreases n - b,
    {
        proof {
            assert(b * len * dim <= (n - 1) * len * dim) by (nonlinear_arith)
                requires
                    b <= n - 1,
            ;
            assert(b * nf + nf <= n * nf) by (nonlinear_arith)
                requires
                    b < n,
            ;
        }
        proof {
            if dim >= 1 {
                assert(b * len <= b * len * dim) by (nonlinear_arith)
                    requires
                        dim >= 1,
                ;
            } else {
                assert(b * len * dim == 0) by (nonlinear_arith)
                    requires
                        dim == 0,
                ;
            }
        }
        let base = if dim == 0 {
            0
        } else {
            b * len * dim
        };
        let mut c: usize = 0;
        while c < w
            invariant
                xl == x@.len(),
                fl == feats@.len(),
                b < n,
                c <= w,
                w == dim + nf,
                base == b * len * dim,
                base + dim <= x@.len(),
                b * nf + nf <= n * nf,
                feats@.len() == n * nf,
                out@.len() == b * w + c,
                forall|bb: int, cc: int|
                    0 <= bb < b && 0 <= cc < w ==> #[trigger] cell(out@, bb, cc, w as int) == featured(
                        x@,
                        dim as int,
                        len as int,
                        feats@,
                        nf as int,
                        bb,
                        cc,
                    ),
                forall|cc: int|
                    0 <= cc < c ==> #[trigger] cell(out@, b as int, cc, w as int) == featured(
                        x@,
                        dim as int,
                        len as int,
                        feats@,
                        nf as int,
                        b as int,
                        cc,
                    ),
            decreases w - c,
        {
            let v = if c < dim {
                x[base + c]
            } else {
                feats[b * nf + (c - dim)]
            };
            let ghost before = out@;
            out.push(v);
            proof {
                assert(v == featured(x@, dim as int, len as int, feats@, nf as int, b as int, c as int));
                assert forall|bb: int, cc: int|
                    0 <= bb < b && 0 <= cc < w implies #[trigger] cell(out@, bb, cc, w as int) == featured(
                        x@,
                        dim as int,
                        len as int,
                        feats@,
                        nf as int,
                        bb,
                        cc,
                    ) by {
                    assert(bb * w + cc < b * w) by (nonlinear_arith)
                        requires
                            bb < b,
                            cc < w,
                    ;
                    assert(cell(out@, bb, cc, w as int) == cell(before, bb, cc, w as int));
                }
                assert forall|cc: int| 0 <= cc < c + 1 implies #[trigger] cell(out@, b as int, cc, w as int) == featured(
                    x@,
                    dim as int,
                    len as int,
                    feats@,
                    nf as int,
                    b as int,
                    cc,
                ) by {
                    if cc < c {
                        assert(cell(out@, b as int, cc, w as int) == cell(before, b as int, cc, w as int));
                    }
                }
            }
            c = c + 1;
        }
        proof {
            assert((b + 1) * w == b * w + w) by (nonlinear_arith);
        }
        b = b + 1;
    }
    out
}

} // verus!
