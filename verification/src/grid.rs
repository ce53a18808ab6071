//! The mathematical model of frames: rectangular grids of fixed-point values,
//! and the arithmetic of the regular detector lattices laid over them.

use vstd::prelude::*;
use vstd::arithmetic::div_mod::{
    lemma_div_is_ordered, lemma_fundamental_div_mod, lemma_mod_bound, lemma_mod_multiples_basic,
};
use vstd::arithmetic::mul::lemma_mul_inequality;

verus! {

/// The element-wise view of a vector of rows.
pub open spec fn rows_view<T>(g: Seq<Vec<T>>) -> Seq<Seq<T>> {
    Seq::new(g.len(), |i: int| g[i]@)
}

/// `(x, y)` is a coordinate of a `w x h` grid.
pub open spec fn in_grid(w: int, h: int, x: int, y: int) -> bool {
    0 <= x < w && 0 <= y < h
}

/// `g` is a rectangular `w x h` matrix.
pub open spec fn rect<T>(g: Seq<Seq<T>>, w: int, h: int) -> bool {
    &&& g.len() == h
    &&& forall|y: int| 0 <= y < h ==> (#[trigger] g[y]).len() == w
}

/// `g` is a rectangular `w x h` matrix of fixed-point values in `0 ..= max`.
pub open spec fn grid_wf(g: Seq<Seq<i64>>, w: int, h: int, max: int) -> bool {
    &&& rect(g, w, h)
    &&& forall|y: int, x: int|
        in_grid(w, h, x, y) ==> 0 <= #[trigger] g[y][x] <= max
}

/// Height of a grid: its number of rows.
pub open spec fn gh(g: Seq<Seq<i64>>) -> int {
    g.len() as int
}

/// Width of a grid: the length of its first row, or 0 when it has none.
pub open spec fn gw(g: Seq<Seq<i64>>) -> int {
    if g.len() > 0 {
        g[0].len() as int
    } else {
        0
    }
}

/// Height of a matrix of any element type: its number of rows.
pub open spec fn mat_h<T>(g: Seq<Seq<T>>) -> int {
    g.len() as int
}

/// Width of a matrix of any element type: the length of its first row, or 0
/// when it has none.
pub open spec fn mat_w<T>(g: Seq<Seq<T>>) -> int {
    if g.len() > 0 {
        g[0].len() as int
    } else {
        0
    }
}

/// Number of lattice points `lo, lo + step, ...` that lie in `lo ..< hi`.
pub open spec fn pos_count(lo: int, hi: int, step: int) -> int {
    if hi <= lo {
        0
    } else {
        (hi - lo - 1) / step + 1
    }
}

/// The `i`-th lattice point.
pub open spec fn pos_at(lo: int, step: int, i: int) -> int {
    lo + i * step
}

/// `x` is a lattice point of `lo, lo + step, ... ..< hi`.
pub open spec fn is_lattice(lo: int, hi: int, step: int, x: int) -> bool {
    lo <= x < hi && (x - lo) % step == 0
}

/// The index of lattice point `x`.
pub open spec fn lattice_index(lo: int, step: int, x: int) -> int {
    (x - lo) / step
}

/// A lattice inset by a nonnegative margin inside `0 ..= max` has at most
/// `max` points.
pub proof fn lemma_pos_count_bound_general(lo: int, hi: int, step: int, max: int)
    requires
        step >= 1,
        0 <= lo,
        hi <= max,
        0 <= max,
    ensures
        0 <= pos_count(lo, hi, step) <= max,
{
    if hi > lo {
        vstd::arithmetic::div_mod::lemma_div_nonincreasing(hi - lo - 1, step);
        vstd::arithmetic::div_mod::lemma_div_pos_is_pos(hi - lo - 1, step);
    }
}

/// Row-major flattening of a lattice coordinate stays inside the lattice.
pub proof fn lemma_flat_index(yi: int, xi: int, ny: int, nx: int)
    requires
        0 <= yi < ny,
        0 <= xi < nx,
    ensures
        0 <= yi * nx + xi < ny * nx,
        yi * nx + xi <= (ny - 1) * nx + (nx - 1),
{
    assert(0 <= yi * nx + xi < ny * nx && yi * nx + xi <= (ny - 1) * nx + (nx - 1))
        by (nonlinear_arith)
        requires
            0 <= yi < ny,
            0 <= xi < nx,
    ;
}

/// Every index below `pos_count` lands on a lattice point inside the range.
pub proof fn lemma_pos_at_in_range(lo: int, hi: int, step: int, i: int)
    requires
        step >= 1,
        0 <= i < pos_count(lo, hi, step),
    ensures
        is_lattice(lo, hi, step, pos_at(lo, step, i)),
        lattice_index(lo, step, pos_at(lo, step, i)) == i,
{
    let d = hi - lo - 1;
    assert(i <= d / step);
    lemma_mul_inequality(i, d / step, step);
    lemma_fundamental_div_mod(d, step);
    lemma_mod_bound(d, step);
    assert((d / step) * step <= d);
    assert(i * step <= d);
    lemma_mod_multiples_basic(i, step);
    assert((pos_at(lo, step, i) - lo) % step == 0);
    lemma_mod_multiples_basic(i, step);
    lemma_fundamental_div_mod(i * step, step);
    lemma_mod_bound(i * step, step);
    assert((i * step) / step == i) by {
        assert(i * step == step * ((i * step) / step) + (i * step) % step);
        assert((i * step) % step == 0);
        assert(i * step == step * ((i * step) / step));
        vstd::arithmetic::mul::lemma_mul_equality_converse(
            step,
            (i * step) / step,
            i,
        );
    }
}

/// Every lattice point inside the range has an index below `pos_count`.
pub proof fn lemma_lattice_index(lo: int, hi: int, step: int, x: int)
    requires
        step >= 1,
        is_lattice(lo, hi, step, x),
    ensures
        0 <= lattice_index(lo, step, x) < pos_count(lo, hi, step),
        pos_at(lo, step, lattice_index(lo, step, x)) == x,
{
    let d = x - lo;
    lemma_fundamental_div_mod(d, step);
    lemma_mod_bound(d, step);
    assert(d == step * (d / step));
    vstd::arithmetic::div_mod::lemma_div_pos_is_pos(d, step);
    lemma_div_is_ordered(d, hi - lo - 1, step);
    assert(pos_at(lo, step, d / step) == lo + (d / step) * step);
    assert((d / step) * step == step * (d / step)) by {
        vstd::arithmetic::mul::lemma_mul_is_commutative(d / step, step);
    }
}

} // verus!
