//! Grid states and the diff engine.

use crate::color::{quantize, quantize_spec, Rgb};
use vstd::arithmetic::div_mod::lemma_fundamental_div_mod_converse;
use vstd::prelude::*;

verus! {

/// An N×N matrix of cell colors, row by row.
pub type Grid = Vec<Vec<Rgb>>;

/// `g` has `n` rows of `n` cells each.
pub open spec fn is_grid(g: Seq<Vec<Rgb>>, n: nat) -> bool {
    &&& g.len() == n
    &&& forall|r: int| 0 <= r < n ==> (#[trigger] g[r])@.len() == n
}

/// The color at `(r, c)`.
pub open spec fn cell(g: Seq<Vec<Rgb>>, r: int, c: int) -> Rgb {
    g[r]@[c]
}

/// The quantized colors of `prev` and `cur` differ at `(r, c)`.
pub open spec fn changed(prev: Seq<Vec<Rgb>>, cur: Seq<Vec<Rgb>>, r: int, c: int) -> bool {
    quantize_spec(cell(prev, r, c)) != quantize_spec(cell(cur, r, c))
}

/// One changed cell: its position and its new quantized color.
#[derive(Clone, Copy, Debug, PartialEq, Eq, Structural)]
pub struct CellUpdate {
    pub row: usize,
    pub col: usize,
    pub color: Rgb,
}

/// The row-major index of an update's position in a grid of width `n`.
pub open spec fn position(u: CellUpdate, n: nat) -> int {
    u.row as int * n + u.col as int
}

/// The updates for the first `k` cells of the grid in row-major order.
pub open spec fn delta_prefix(
    prev: Seq<Vec<Rgb>>,
    cur: Seq<Vec<Rgb>>,
    n: nat,
    k: nat,
) -> Seq<CellUpdate>
    decreases k,
{
    if k == 0 || n == 0 {
        seq![]
    } else {
        let i = k - 1;
        let r = i / n as int;
        let c = i % n as int;
        let d = delta_prefix(prev, cur, n, (k - 1) as nat);
        if changed(prev, cur, r, c) {
            d.push(CellUpdate { row: r as usize, col: c as usize, color: quantize_spec(cell(cur, r, c)) })
        } else {
            d
        }
    }
}

/// The delta from `prev` to `cur`: every changed cell, in row-major order.
pub open spec fn delta(prev: Seq<Vec<Rgb>>, cur: Seq<Vec<Rgb>>) -> Seq<CellUpdate> {
    delta_prefix(prev, cur, cur.len(), cur.len() * cur.len())
}

/// The delta, where an absent previous state gives no updates.
pub open spec fn diff_spec(prev: Option<Seq<Vec<Rgb>>>, cur: Seq<Vec<Rgb>>) -> Seq<CellUpdate> {
    match prev {
        None => seq![],
        Some(p) => delta(p, cur),
    }
}

/// Some update of `d` is at `(r, c)`.
pub open spec fn in_delta(d: Seq<CellUpdate>, r: int, c: int) -> bool {
    exists|j: int| 0 <= j < d.len() && (#[trigger] d[j]).row == r && d[j].col == c
}

proof fn lemma_row_major(n: int, r: int, c: int)
    requires
        0 <= r < n,
        0 <= c < n,
    ensures
        (r * n + c) / n == r,
        (r * n + c) % n == c,
        r * n + c < n * n,
        r * n + c + 1 <= n * n,
        (r + 1) * n == r * n + n,
        0 <= r * n,
{
    lemma_fundamental_div_mod_converse(r * n + c, n, r, c);
    assert(r * n + c < n * n) by (nonlinear_arith)
        requires
            0 <= r < n,
            0 <= c < n,
    ;
    assert((r + 1) * n == r * n + n) by (nonlinear_arith);
    assert(0 <= r * n) by (nonlinear_arith)
        requires
            0 <= r,
            0 < n,
    ;
}

proof fn lemma_split_index(n: int, i: int)
    requires
        0 < n,
        0 <= i < n * n,
    ensures
        0 <= i / n < n,
        0 <= i % n < n,
        (i / n) * n + i % n == i,
{
    vstd::arithmetic::div_mod::lemma_fundamental_div_mod(i, n);
    assert(0 <= i / n < n) by (nonlinear_arith)
        requires
            0 < n,
            0 <= i < n * n,
            i == n * (i / n) + i % n,
            0 <= i % n < n,
    ;
    assert((i / n) * n == n * (i / n)) by (nonlinear_arith);
}

proof fn lemma_delta_prefix(prev: Seq<Vec<Rgb>>, cur: Seq<Vec<Rgb>>, n: nat, k: nat)
    requires
        0 < n <= usize::MAX,
        k <= n * n,
    ensures
        forall|j: int|
            0 <= j < delta_prefix(prev, cur, n, k).len() ==> {
                let u = #[trigger] delta_prefix(prev, cur, n, k)[j];
                &&& u.row < n
                &&& u.col < n
                &&& 0 <= position(u, n) < k
                &&& changed(prev, cur, u.row as int, u.col as int)
                &&& u.color == quantize_spec(cell(cur, u.row as int, u.col as int))
            },
        forall|j1: int, j2: int|
            0 <= j1 < j2 < delta_prefix(prev, cur, n, k).len() ==> position(
                #[trigger] delta_prefix(prev, cur, n, k)[j1],
                n,
            ) < position(#[trigger] delta_prefix(prev, cur, n, k)[j2], n),
        forall|i: int|
            0 <= i < k && #[trigger] changed(prev, cur, i / n as int, i % n as int) ==> exists|
                j: int,
            |
                0 <= j < delta_prefix(prev, cur, n, k).len() && position(
                    #[trigger] delta_prefix(prev, cur, n, k)[j],
                    n,
                ) == i,
    decreases k,
{
    if k > 0 {
        let i = k - 1;
        let r = i / n as int;
        let c = i % n as int;
        lemma_delta_prefix(prev, cur, n, (k - 1) as nat);
        lemma_split_index(n as int, i);
        let d0 = delta_prefix(prev, cur, n, (k - 1) as nat);
        let d = delta_prefix(prev, cur, n, k);
        if changed(prev, cur, r, c) {
            let u = CellUpdate { row: r as usize, col: c as usize, color: quantize_spec(cell(cur, r, c)) };
            assert(d == d0.push(u));
            assert(position(u, n) == i);
            assert forall|i2: int|
                0 <= i2 < k && #[trigger] changed(prev, cur, i2 / n as int, i2 % n as int) implies exists|
                    j: int,
                | 0 <= j < d.len() && position(#[trigger] d[j], n) == i2 by {
                if i2 < i {
                    let j0 = choose|j: int| 0 <= j < d0.len() && position(#[trigger] d0[j], n) == i2;
                    assert(d[j0] == d0[j0]);
                } else {
                    assert(d[d.len() - 1] == u);
                }
            }
        } else {
            assert(d == d0);
        }
    }
}

/// The delta from `prev` to `cur` holds exactly the positions whose quantized
/// colors differ, each with the new quantized color, in strictly increasing
/// row-major order; it is empty exactly when the two grids are quantized-equal
/// at every position.
pub proof fn lemma_delta_exact(prev: Seq<Vec<Rgb>>, cur: Seq<Vec<Rgb>>)
    requires
        is_grid(prev, cur.len()),
        is_grid(cur, cur.len()),
        cur.len() <= usize::MAX,
    ensures
        forall|r: int, c: int|
            0 <= r < cur.len() && 0 <= c < cur.len() ==> (#[trigger] in_delta(delta(prev, cur), r, c)
                <==> changed(prev, cur, r, c)),
        forall|j: int|
            0 <= j < delta(prev, cur).len() ==> {
                let u = #[trigger] delta(prev, cur)[j];
                &&& u.row < cur.len()
                &&& u.col < cur.len()
                &&& u.color == quantize_spec(cell(cur, u.row as int, u.col as int))
            },
        forall|j1: int, j2: int|
            0 <= j1 < j2 < delta(prev, cur).len() ==> position(#[trigger] delta(prev, cur)[j1], cur.len())
                < position(#[trigger] delta(prev, cur)[j2], cur.len()),
        delta(prev, cur).len() == 0 <==> (forall|r: int, c: int|
            0 <= r < cur.len() && 0 <= c < cur.len() ==> !#[trigger] changed(prev, cur, r, c)),
{
    let n = cur.len();
    let d = delta(prev, cur);
    if n == 0 {
        assert(d.len() == 0);
    } else {
        lemma_delta_prefix(prev, cur, n, n * n);
        assert forall|r: int, c: int| 0 <= r < n && 0 <= c < n implies (#[trigger] in_delta(d, r, c)
            <==> changed(prev, cur, r, c)) by {
            lemma_row_major(n as int, r, c);
            let i = r * n + c;
            if changed(prev, cur, r, c) {
                assert(changed(prev, cur, i / n as int, i % n as int));
                let j = choose|j: int| 0 <= j < d.len() && position(#[trigger] d[j], n) == i;
                lemma_fundamental_div_mod_converse(i, n as int, d[j].row as int, d[j].col as int);
                assert(in_delta(d, r, c));
            }
        }
        if d.len() != 0 {
            let u = d[0];
            assert(in_delta(d, u.row as int, u.col as int));
        } else {
            assert forall|r: int, c: int| 0 <= r < n && 0 <= c < n implies !#[trigger] changed(
                prev,
                cur,
                r,
                c,
            ) by {
                assert(!in_delta(d, r, c));
            }
        }
    }
}

/// The cells whose quantized color differs between `previous` and `current`,
/// in row-major order; nothing when there is no previous state.
pub fn diff(previous: Option<&Grid>, current: &Grid) -> (d: Vec<CellUpdate>)
    requires
        is_grid(current@, current@.len()),
        previous matches Some(p) ==> is_grid(p@, current@.len()),
    ensures
        d@ == diff_spec(
            match previous {
                Some(p) => Some(p@),
                None => None,
            },
            current@,
        ),
{
    let mut d: Vec<CellUpdate> = Vec::new();
    match previous {
        None => d,
        Some(prev) => {
            let n = current.len();
            let mut r: usize = 0;
            while r < n
                invariant
                    0 <= r <= n,
                    n == current@.len(),
                    is_grid(current@, n as nat),
                    is_grid(prev@, n as nat),
                    d@ == delta_prefix(prev@, current@, n as nat, (r * n) as nat),
                decreases n - r,
            {
                let row_prev = &prev[r];
                let row_cur = &current[r];
                let mut c: usize = 0;
                while c < n
                    invariant
                        0 <= r < n,
                        0 <= c <= n,
                        n == current@.len(),
                        is_grid(current@, n as nat),
                        is_grid(prev@, n as nat),
                        row_prev@ == prev@[r as int]@,
                        row_cur@ == current@[r as int]@,
                        d@ == delta_prefix(prev@, current@, n as nat, (r * n + c) as nat),
                    decreases n - c,
                {
                    proof {
                        lemma_row_major(n as int, r as int, c as int);
                    }
                    let qp = quantize(row_prev[c]);
                    let qc = quantize(row_cur[c]);
                    if qp != qc {
                        d.push(CellUpdate { row: r, col: c, color: qc });
                    }
                    c += 1;
                }
                proof {
                    lemma_row_major(n as int, r as int, 0);
                }
                r += 1;
            }
            d
        }
    }
}

} // verus!
