//! V4 visual cortex: shape classification over corner and contour evidence.
//!
//! A shape detector restricts the V2 response to a square window around its
//! position: it counts populated corner-map cells by junction type, the
//! contour pixels that fall inside the window, the longest single contour
//! fragment there, and the number of contours touching the window. Six
//! heuristic scorers turn those numbers into shape activations.

use vstd::prelude::*;
use crate::fixed::{MAX_DIM, SCALE, SHAPE_THRESHOLD};
use crate::grid::{
    in_grid, is_lattice, lattice_index, lemma_flat_index, lemma_lattice_index,
    lemma_pos_at_in_range, lemma_pos_count_bound_general, mat_h, mat_w, pos_at, pos_count, rect,
    rows_view,
};

use crate::v2_cortex::CornerType;
use vstd::arithmetic::div_mod::{lemma_div_multiples_vanish, lemma_mod_multiples_basic};

verus! {

/// Largest accepted number of contours handed to a shape detector.
pub const MAX_CONTOURS: usize = 67_108_864;

/// Largest accepted length of one contour handed to a shape detector.
pub const MAX_CONTOUR_LEN: usize = 201;

/// Types of shapes that V4 can detect.
#[derive(Debug, Clone, Copy, PartialEq, Eq, Hash, Structural)]
pub enum ShapeType {
    /// Smooth closed contours.
    Circle,
    /// Four corners and parallel sides.
    Rectangle,
    /// Three corners and three sides.
    Triangle,
    /// One elongated contour with few corners.
    Line,
    /// Crossing lines radiating from a junction.
    Cross,
    /// Many corners and contours fitting no simple pattern.
    Complex,
}

/// The corner-map cell selector of a window count: 0 any populated cell,
/// 1 L-junctions, 2 X-junctions, 3 Y-junctions, 4 T-junctions.
pub open spec fn csel(sel: int, c: Option<CornerType>) -> bool {
    match c {
        None => false,
        Some(t) => sel == 0 || (sel == 1 && t is LJunction) || (sel == 2 && t is XJunction) || (sel
            == 3 && t is YJunction) || (sel == 4 && t is TJunction),
    }
}

/// 1 when the corner-map cell at offset `(dx, dy)` matches selector `sel`.
pub open spec fn wcell(
    cm: Seq<Seq<Option<CornerType>>>,
    w: int,
    h: int,
    x: int,
    y: int,
    dx: int,
    dy: int,
    sel: int,
) -> int {
    if in_grid(w, h, x + dx, y + dy) && csel(sel, cm[y + dy][x + dx]) {
        1int
    } else {
        0int
    }
}

/// Selector count over the first `mm` offsets of window row `dy`.
pub open spec fn wrow(
    cm: Seq<Seq<Option<CornerType>>>,
    w: int,
    h: int,
    x: int,
    y: int,
    sel: int,
    r: int,
    dy: int,
    mm: nat,
) -> int
    decreases mm,
{
    if mm == 0 {
        0
    } else {
        wrow(cm, w, h, x, y, sel, r, dy, (mm - 1) as nat) + wcell(
            cm, w, h, x, y, -r + (mm - 1), dy, sel,
        )
    }
}

/// Selector count over the first `n` rows of the window.
pub open spec fn wcount(
    cm: Seq<Seq<Option<CornerType>>>,
    w: int,
    h: int,
    x: int,
    y: int,
    sel: int,
    r: int,
    n: nat,
) -> int
    decreases n,
{
    if n == 0 {
        0
    } else {
        wcount(cm, w, h, x, y, sel, r, (n - 1) as nat) + wrow(
            cm, w, h, x, y, sel, r, -r + (n - 1), (2 * r + 1) as nat,
        )
    }
}

/// Full selector count of the window of radius `r` around `(x, y)`.
pub open spec fn win_count(
    cm: Seq<Seq<Option<CornerType>>>,
    x: int,
    y: int,
    sel: int,
    r: int,
) -> int {
    wcount(cm, mat_w(cm), mat_h(cm), x, y, sel, r, (2 * r + 1) as nat)
}

/// Pixel `(px, py)` lies in the square window of radius `r` around `(x, y)`.
pub open spec fn in_win(x: int, y: int, r: int, px: int, py: int) -> bool {
    x - r <= px <= x + r && y - r <= py <= y + r
}

/// Number of the first `n` pixels of one contour that fall in the window.
pub open spec fn lp(c: Seq<(usize, usize)>, x: int, y: int, r: int, n: nat) -> int
    decreases n,
{
    if n == 0 {
        0
    } else {
        lp(c, x, y, r, (n - 1) as nat) + if in_win(
            x, y, r, c[n - 1].0 as int, c[n - 1].1 as int,
        ) {
            1int
        } else {
            0int
        }
    }
}

/// Window pixels of the first `k` contours, summed.
pub open spec fn cp_sum(cs: Seq<Seq<(usize, usize)>>, x: int, y: int, r: int, k: nat) -> int
    decreases k,
{
    if k == 0 {
        0
    } else {
        cp_sum(cs, x, y, r, (k - 1) as nat) + lp(cs[k - 1], x, y, r, cs[k - 1].len())
    }
}

/// Longest single-contour window fragment among the first `k` contours.
pub open spec fn lmax(cs: Seq<Seq<(usize, usize)>>, x: int, y: int, r: int, k: nat) -> int
    decreases k,
{
    if k == 0 {
        0
    } else {
        let prev = lmax(cs, x, y, r, (k - 1) as nat);
        let cur = lp(cs[k - 1], x, y, r, cs[k - 1].len());
        if cur > prev {
            cur
        } else {
            prev
        }
    }
}

/// Number of the first `k` contours that touch the window at all.
pub open spec fn seg_count(cs: Seq<Seq<(usize, usize)>>, x: int, y: int, r: int, k: nat) -> int
    decreases k,
{
    if k == 0 {
        0
    } else {
        seg_count(cs, x, y, r, (k - 1) as nat) + if lp(cs[k - 1], x, y, r, cs[k - 1].len()) > 0 {
            1int
        } else {
            0int
        }
    }
}

/// Circle score: many window contour pixels with a low corner-to-pixel
/// ratio and sufficient density; or, as a fallback, one long and mostly
/// corner-free fragment while the total pixel count stays small.
pub open spec fn circle_spec(
    cm: Seq<Seq<Option<CornerType>>>,
    cs: Seq<Seq<(usize, usize)>>,
    x: int,
    y: int,
    r: int,
) -> int {
    let cp = cp_sum(cs, x, y, r, cs.len());
    let cc = win_count(cm, x, y, 0, r);
    let lc = lmax(cs, x, y, r, cs.len());
    if cp >= 20 && 25 * cc < 2 * cp && 25 * cp > 2 * (r * r) {
        let ratio = (cc * SCALE) / cp;
        let smooth = (SCALE - ratio * 10) * 25;
        let bonus = if 20 * cp > 3 * (r * r) {
            5 * SCALE
        } else {
            0
        };
        let sc = if smooth + bonus >= 10 * SCALE {
            smooth + bonus
        } else {
            10 * SCALE
        };
        if sc <= 25 * SCALE {
            sc
        } else {
            25 * SCALE
        }
    } else if lc >= 6 && cc <= 3 && cp < 35 {
        let mcp = if cp >= 1 {
            cp
        } else {
            1
        };
        if 10 * lc > 3 * mcp {
            let sc = (lc * 3 * SCALE) / 2;
            if sc <= 18 * SCALE {
                sc
            } else {
                18 * SCALE
            }
        } else {
            0
        }
    } else {
        0
    }
}

/// Rectangle score: several L-junctions with several touching contours, or
/// X-junctions from overlapping rectangles as a fallback.
pub open spec fn rectangle_spec(
    cm: Seq<Seq<Option<CornerType>>>,
    cs: Seq<Seq<(usize, usize)>>,
    x: int,
    y: int,
    r: int,
) -> int {
    let l = win_count(cm, x, y, 1, r);
    let xj = win_count(cm, x, y, 2, r);
    let seg = seg_count(cs, x, y, r, cs.len());
    if l >= 3 && seg >= 3 {
        let sc = ((l + seg) * 3 * SCALE) / 2;
        if sc <= 25 * SCALE {
            sc
        } else {
            25 * SCALE
        }
    } else if xj >= 2 && seg >= 2 {
        let sc = (xj + seg) * SCALE;
        if sc <= 20 * SCALE {
            sc
        } else {
            20 * SCALE
        }
    } else {
        0
    }
}

/// Triangle score: exactly three L- or Y-junctions with three touching
/// contours, or an approximate form with two to four junctions.
pub open spec fn triangle_spec(
    cm: Seq<Seq<Option<CornerType>>>,
    cs: Seq<Seq<(usize, usize)>>,
    x: int,
    y: int,
    r: int,
) -> int {
    let tc = win_count(cm, x, y, 1, r) + win_count(cm, x, y, 3, r);
    let seg = seg_count(cs, x, y, r, cs.len());
    if tc == 3 && seg >= 3 {
        let sc = (tc + seg) * 2 * SCALE;
        if sc <= 20 * SCALE {
            sc
        } else {
            20 * SCALE
        }
    } else if 2 <= tc <= 4 && seg >= 2 {
        let sc = (tc + seg) * SCALE;
        if sc <= 15 * SCALE {
            sc
        } else {
            15 * SCALE
        }
    } else {
        0
    }
}

/// Line score: one long fragment with few corners, corners discounting the
/// length reward; shorter clean fragments score a reduced reward.
pub open spec fn line_spec(
    cm: Seq<Seq<Option<CornerType>>>,
    cs: Seq<Seq<(usize, usize)>>,
    x: int,
    y: int,
    r: int,
) -> int {
    let lc = lmax(cs, x, y, r, cs.len());
    let cc = win_count(cm, x, y, 0, r);
    if lc > 8 && cc <= 4 {
        let base = (lc * 9 * SCALE) / 10;
        let pen = (cc * SCALE) / 2;
        let sc = if base - pen >= 5 * SCALE {
            base - pen
        } else {
            5 * SCALE
        };
        if sc <= 20 * SCALE {
            sc
        } else {
            20 * SCALE
        }
    } else if lc > 5 && cc <= 2 {
        let sc = (lc * 7 * SCALE) / 10;
        if sc <= 15 * SCALE {
            sc
        } else {
            15 * SCALE
        }
    } else {
        0
    }
}

/// Cross score: an X-junction with several radiating contours, or several
/// T-junctions approximating one.
pub open spec fn cross_spec(
    cm: Seq<Seq<Option<CornerType>>>,
    cs: Seq<Seq<(usize, usize)>>,
    x: int,
    y: int,
    r: int,
) -> int {
    let xj = win_count(cm, x, y, 2, r);
    let tj = win_count(cm, x, y, 4, r);
    let cn = seg_count(cs, x, y, r, cs.len());
    if xj >= 1 && cn >= 3 {
        let sc = (5 * xj + cn) * SCALE;
        if sc <= 25 * SCALE {
            sc
        } else {
            25 * SCALE
        }
    } else if tj >= 2 && cn >= 3 {
        let sc = (3 * tj + cn) * SCALE;
        if sc <= 20 * SCALE {
            sc
        } else {
            20 * SCALE
        }
    } else {
        0
    }
}

/// Complex score: many corners and many contours in one window.
pub open spec fn complex_spec(
    cm: Seq<Seq<Option<CornerType>>>,
    cs: Seq<Seq<(usize, usize)>>,
    x: int,
    y: int,
    r: int,
) -> int {
    let c = win_count(cm, x, y, 0, r);
    let cn = seg_count(cs, x, y, r, cs.len());
    if c > 6 && cn > 5 {
        let sc = ((c + cn) * SCALE) / 2;
        if sc <= 20 * SCALE {
            sc
        } else {
            20 * SCALE
        }
    } else {
        0
    }
}

/// The score of a detector of the given shape type.
pub open spec fn shape_score_spec(
    kind: ShapeType,
    cm: Seq<Seq<Option<CornerType>>>,
    cs: Seq<Seq<(usize, usize)>>,
    x: int,
    y: int,
    r: int,
) -> int {
    match kind {
        ShapeType::Circle => circle_spec(cm, cs, x, y, r),
        ShapeType::Rectangle => rectangle_spec(cm, cs, x, y, r),
        ShapeType::Triangle => triangle_spec(cm, cs, x, y, r),
        ShapeType::Line => line_spec(cm, cs, x, y, r),
        ShapeType::Cross => cross_spec(cm, cs, x, y, r),
        ShapeType::Complex => complex_spec(cm, cs, x, y, r),
    }
}

/// Window row counts lie between 0 and the offsets considered.
proof fn lemma_wrow_bounds(
    cm: Seq<Seq<Option<CornerType>>>,
    w: int,
    h: int,
    x: int,
    y: int,
    sel: int,
    r: int,
    dy: int,
    mm: nat,
)
    ensures
        0 <= wrow(cm, w, h, x, y, sel, r, dy, mm) <= mm,
    decreases mm,
{
    if mm > 0 {
        lemma_wrow_bounds(cm, w, h, x, y, sel, r, dy, (mm - 1) as nat);
    }
}

/// Window counts lie between 0 and the window size.
pub proof fn lemma_wcount_bounds(
    cm: Seq<Seq<Option<CornerType>>>,
    w: int,
    h: int,
    x: int,
    y: int,
    sel: int,
    r: int,
    n: nat,
)
    requires
        r >= 0,
    ensures
        0 <= wcount(cm, w, h, x, y, sel, r, n) <= n * (2 * r + 1),
    decreases n,
{
    if n > 0 {
        lemma_wcount_bounds(cm, w, h, x, y, sel, r, (n - 1) as nat);
        lemma_wrow_bounds(cm, w, h, x, y, sel, r, -r + (n - 1), (2 * r + 1) as nat);
        assert((n - 1) * (2 * r + 1) + (2 * r + 1) == n * (2 * r + 1)) by (nonlinear_arith);
    }
}

/// A single-contour window count lies between 0 and the pixels considered.
pub proof fn lemma_lp_bounds(c: Seq<(usize, usize)>, x: int, y: int, r: int, n: nat)
    ensures
        0 <= lp(c, x, y, r, n) <= n,
    decreases n,
{
    if n > 0 {
        lemma_lp_bounds(c, x, y, r, (n - 1) as nat);
    }
}

/// Contour window statistics are bounded by the contour sizes.
pub proof fn lemma_contour_stats_bounds(
    cs: Seq<Seq<(usize, usize)>>,
    x: int,
    y: int,
    r: int,
    k: nat,
    len_cap: int,
)
    requires
        len_cap >= 0,
        k <= cs.len(),
        forall|i: int| 0 <= i < cs.len() ==> (#[trigger] cs[i]).len() <= len_cap,
    ensures
        0 <= cp_sum(cs, x, y, r, k) <= k * len_cap,
        0 <= lmax(cs, x, y, r, k) <= len_cap,
        0 <= seg_count(cs, x, y, r, k) <= k,
    decreases k,
{
    if k > 0 {
        lemma_contour_stats_bounds(cs, x, y, r, (k - 1) as nat, len_cap);
        lemma_lp_bounds(cs[k - 1], x, y, r, cs[k - 1].len());
        assert((k - 1) * len_cap + len_cap == k * len_cap) by (nonlinear_arith);
    }
}

/// The corner map and contour list of a V2 response are within the machine
/// limits of the shape layer.
pub open spec fn v2_input_wf(
    cm: Seq<Seq<Option<CornerType>>>,
    cs: Seq<Seq<(usize, usize)>>,
) -> bool {
    &&& rect(cm, mat_w(cm), mat_h(cm))
    &&& mat_w(cm) <= MAX_DIM
    &&& mat_h(cm) <= MAX_DIM
    &&& cs.len() <= MAX_CONTOURS
    &&& forall|i: int| 0 <= i < cs.len() ==> (#[trigger] cs[i]).len() <= MAX_CONTOUR_LEN
}

/// Counts the corner-map cells of all five selectors in the window of
/// radius `r` around `(x, y)`.
#[verifier::loop_isolation(false)]
fn window_counts(cm: &Vec<Vec<Option<CornerType>>>, x: usize, y: usize, r: i64) -> (res: (
    i64,
    i64,
    i64,
    i64,
    i64,
))
    requires
        rect(rows_view(cm@), mat_w(rows_view(cm@)), mat_h(rows_view(cm@))),
        mat_w(rows_view(cm@)) <= MAX_DIM,
        mat_h(rows_view(cm@)) <= MAX_DIM,
        x <= MAX_DIM,
        y <= MAX_DIM,
        0 <= r <= 102,
    ensures
        res.0 == win_count(rows_view(cm@), x as int, y as int, 0, r as int),
        res.1 == win_count(rows_view(cm@), x as int, y as int, 1, r as int),
        res.2 == win_count(rows_view(cm@), x as int, y as int, 2, r as int),
        res.3 == win_count(rows_view(cm@), x as int, y as int, 3, r as int),
        res.4 == win_count(rows_view(cm@), x as int, y as int, 4, r as int),
{
    let ghost g = rows_view(cm@);
    let h = cm.len();
    let w = if h > 0 { cm[0].len() } else { 0 };
    assert(w == mat_w(g) && h == mat_h(g));

    let x_i = x as i64;
    let y_i = y as i64;
    let mut c0: i64 = 0;
    let mut c1: i64 = 0;
    let mut c2: i64 = 0;
    let mut c3: i64 = 0;
    let mut c4: i64 = 0;

    let mut dy: i64 = -r;
    while dy <= r
        invariant
            -r <= dy <= r + 1,
            c0 == wcount(g, w as int, h as int, x as int, y as int, 0, r as int, (dy + r) as nat),
            c1 == wcount(g, w as int, h as int, x as int, y as int, 1, r as int, (dy + r) as nat),
            c2 == wcount(g, w as int, h as int, x as int, y as int, 2, r as int, (dy + r) as nat),
            c3 == wcount(g, w as int, h as int, x as int, y as int, 3, r as int, (dy + r) as nat),
            c4 == wcount(g, w as int, h as int, x as int, y as int, 4, r as int, (dy + r) as nat),
        decreases r + 1 - dy,
    {
        let ghost n0 = (dy + r) as nat;
        let mut dx: i64 = -r;
        while dx <= r
            invariant
                -r <= dx <= r + 1,
                c0 == wcount(g, w as int, h as int, x as int, y as int, 0, r as int, n0) + wrow(
                    g, w as int, h as int, x as int, y as int, 0, r as int, dy as int, (dx + r) as nat,
                ),
                c1 == wcount(g, w as int, h as int, x as int, y as int, 1, r as int, n0) + wrow(
                    g, w as int, h as int, x as int, y as int, 1, r as int, dy as int, (dx + r) as nat,
                ),
                c2 == wcount(g, w as int, h as int, x as int, y as int, 2, r as int, n0) + wrow(
                    g, w as int, h as int, x as int, y as int, 2, r as int, dy as int, (dx + r) as nat,
                ),
                c3 == wcount(g, w as int, h as int, x as int, y as int, 3, r as int, n0) + wrow(
                    g, w as int, h as int, x as int, y as int, 3, r as int, dy as int, (dx + r) as nat,
                ),
                c4 == wcount(g, w as int, h as int, x as int, y as int, 4, r as int, n0) + wrow(
                    g, w as int, h as int, x as int, y as int, 4, r as int, dy as int, (dx + r) as nat,
                ),
            decreases r + 1 - dx,
        {
            proof {
                lemma_wcount_bounds(g, w as int, h as int, x as int, y as int, 0, r as int, n0);
                lemma_wcount_bounds(g, w as int, h as int, x as int, y as int, 1, r as int, n0);
                lemma_wcount_bounds(g, w as int, h as int, x as int, y as int, 2, r as int, n0);
                lemma_wcount_bounds(g, w as int, h as int, x as int, y as int, 3, r as int, n0);
                lemma_wcount_bounds(g, w as int, h as int, x as int, y as int, 4, r as int, n0);
                lemma_wrow_bounds(g, w as int, h as int, x as int, y as int, 0, r as int, dy as int, (dx + r) as nat);
                lemma_wrow_bounds(g, w as int, h as int, x as int, y as int, 1, r as int, dy as int, (dx + r) as nat);
                lemma_wrow_bounds(g, w as int, h as int, x as int, y as int, 2, r as int, dy as int, (dx + r) as nat);
                lemma_wrow_bounds(g, w as int, h as int, x as int, y as int, 3, r as int, dy as int, (dx + r) as nat);
                lemma_wrow_bounds(g, w as int, h as int, x as int, y as int, 4, r as int, dy as int, (dx + r) as nat);
                assert(n0 * (2 * r + 1) <= 205 * 205) by (nonlinear_arith)
                    requires
                        0 <= n0 as int <= 2 * r + 1,
                        0 <= r <= 102,
                ;
            }
            let px = x_i + dx;
            let py = y_i + dy;
            if px >= 0 && py >= 0 && (px as usize) < w && (py as usize) < h {
                assert(g[py as int].len() == w as int);
                assert(g[py as int] == cm@[py as int]@);
                match cm[py as usize][px as usize] {
                    Some(CornerType::LJunction) => {
                        c0 = c0 + 1;
                        c1 = c1 + 1;
                    },
                    Some(CornerType::XJunction) => {
                        c0 = c0 + 1;
                        c2 = c2 + 1;
                    },
                    Some(CornerType::YJunction) => {
                        c0 = c0 + 1;
                        c3 = c3 + 1;
                    },
                    Some(CornerType::TJunction) => {
                        c0 = c0 + 1;
                        c4 = c4 + 1;
                    },
                    None => {},
                }
            }
            dx = dx + 1;
        }
        dy = dy + 1;
    }
    (c0, c1, c2, c3, c4)
}

/// Counts the contour pixels inside the window of radius `r` around
/// `(x, y)`, the longest single-contour fragment there, and the number of
/// contours touching the window.
#[verifier::loop_isolation(false)]
fn contour_stats(cs: &Vec<Vec<(usize, usize)>>, x: usize, y: usize, r: i64) -> (res: (
    i64,
    i64,
    i64,
))
    requires
        cs@.len() <= MAX_CONTOURS,
        forall|i: int|
            0 <= i < rows_view(cs@).len() ==> (#[trigger] rows_view(cs@)[i]).len()
                <= MAX_CONTOUR_LEN,
        x <= MAX_DIM,
        y <= MAX_DIM,
        0 <= r <= 102,
    ensures
        res.0 == cp_sum(rows_view(cs@), x as int, y as int, r as int, rows_view(cs@).len()),
        res.1 == lmax(rows_view(cs@), x as int, y as int, r as int, rows_view(cs@).len()),
        res.2 == seg_count(rows_view(cs@), x as int, y as int, r as int, rows_view(cs@).len()),
{
    let ghost g = rows_view(cs@);
    let n = cs.len();
    let mut cp: i64 = 0;
    let mut lc: i64 = 0;
    let mut seg: i64 = 0;
    let mut i: usize = 0;
    while i < n
        invariant
            i <= n,
            cp == cp_sum(g, x as int, y as int, r as int, i as nat),
            lc == lmax(g, x as int, y as int, r as int, i as nat),
            seg == seg_count(g, x as int, y as int, r as int, i as nat),
        decreases n - i,
    {
        proof {
            lemma_contour_stats_bounds(
                g, x as int, y as int, r as int, i as nat, MAX_CONTOUR_LEN as int,
            );
            assert((i as int) * 201 <= 67108864 * 201) by (nonlinear_arith)
                requires
                    0 <= i as int <= 67108864,
            ;
            assert(g[i as int] == cs@[i as int]@);
        }
        let c = &cs[i];
        let m = c.len();
        let mut local: i64 = 0;
        let mut j: usize = 0;
        while j < m
            invariant
                j <= m,
                local == lp(g[i as int], x as int, y as int, r as int, j as nat),
            decreases m - j,
        {
            proof {
                lemma_lp_bounds(g[i as int], x as int, y as int, r as int, j as nat);
            }
            let (px, py) = c[j];
            let ru = r as usize;
            let xlo = if x >= ru { x - ru } else { 0 };
            let ylo = if y >= ru { y - ru } else { 0 };
            let inside = px >= xlo && px <= x + ru && py >= ylo && py <= y + ru;
            if inside {
                local = local + 1;
            }
            j = j + 1;
        }
        proof {
            lemma_lp_bounds(g[i as int], x as int, y as int, r as int, g[i as int].len());
        }
        cp = cp + local;
        if local > lc {
            lc = local;
        }
        if local > 0 {
            seg = seg + 1;
        }
        i = i + 1;
    }
    (cp, lc, seg)
}

/// Every shape score lies in `0 ..= 25 * SCALE`.
pub proof fn lemma_shape_score_bounds(
    kind: ShapeType,
    cm: Seq<Seq<Option<CornerType>>>,
    cs: Seq<Seq<(usize, usize)>>,
    x: int,
    y: int,
    r: int,
)
    requires
        r >= 0,
    ensures
        0 <= shape_score_spec(kind, cm, cs, x, y, r) <= 25 * SCALE,
{
    lemma_wcount_bounds(cm, mat_w(cm), mat_h(cm), x, y, 0, r, (2 * r + 1) as nat);
    lemma_wcount_bounds(cm, mat_w(cm), mat_h(cm), x, y, 1, r, (2 * r + 1) as nat);
    lemma_wcount_bounds(cm, mat_w(cm), mat_h(cm), x, y, 2, r, (2 * r + 1) as nat);
    lemma_wcount_bounds(cm, mat_w(cm), mat_h(cm), x, y, 3, r, (2 * r + 1) as nat);
    lemma_wcount_bounds(cm, mat_w(cm), mat_h(cm), x, y, 4, r, (2 * r + 1) as nat);
    match kind {
        ShapeType::Circle => {
            let cp = cp_sum(cs, x, y, r, cs.len());
            let cc = win_count(cm, x, y, 0, r);
            let lc = lmax(cs, x, y, r, cs.len());
            if cp >= 20 && 25 * cc < 2 * cp && 25 * cp > 2 * (r * r) {
                let ratio = (cc * SCALE) / cp;
                vstd::arithmetic::div_mod::lemma_div_pos_is_pos(cc * SCALE, cp);
                vstd::arithmetic::mul::lemma_mul_nonnegative(cc, SCALE as int);
            } else if lc >= 6 && cc <= 3 && cp < 35 {
                vstd::arithmetic::div_mod::lemma_div_pos_is_pos(lc * 3 * SCALE, 2);
            }
        },
        ShapeType::Line => {
            let lc = lmax(cs, x, y, r, cs.len());
            let cc = win_count(cm, x, y, 0, r);
            if lc > 8 && cc <= 4 {
            } else if lc > 5 && cc <= 2 {
                vstd::arithmetic::div_mod::lemma_div_pos_is_pos(lc * 7 * SCALE, 10);
            }
        },
        ShapeType::Complex => {
            let c = win_count(cm, x, y, 0, r);
            let cn = seg_count(cs, x, y, r, cs.len());
            if c > 6 && cn > 5 {
                vstd::arithmetic::div_mod::lemma_div_pos_is_pos((c + cn) * SCALE, 2);
            }
        },
        _ => {},
    }
}

/// V4 shape detector neuron.
///
/// The geometry fields are fixed at construction; the activation is fully
/// recomputed by every [`V4ShapeDetector::compute_response`] call.
#[derive(Debug, Clone, Copy)]
pub struct V4ShapeDetector {
    /// Unique identifier.
    pub id: usize,
    /// Horizontal position in the visual field.
    pub x: usize,
    /// Vertical position in the visual field.
    pub y: usize,
    /// The shape this detector is tuned for.
    pub shape_type: ShapeType,
    /// Radius of the scored window.
    pub receptive_field_size: usize,
    /// Current activation, fixed point.
    pub activation: i64,
}

impl V4ShapeDetector {
    /// The geometry of the detector is within the machine limits.
    pub open spec fn geom_wf(self) -> bool {
        &&& self.x <= MAX_DIM
        &&& self.y <= MAX_DIM
        &&& self.receptive_field_size <= 102
    }

    /// The activation holds a value the model can produce.
    pub open spec fn state_wf(self) -> bool {
        0 <= self.activation <= 25 * SCALE
    }

    /// The activation is exactly the score of this detector on the given
    /// corner map and contour list.
    pub open spec fn responds_to(
        self,
        cm: Seq<Seq<Option<CornerType>>>,
        cs: Seq<Seq<(usize, usize)>>,
    ) -> bool {
        self.activation == shape_score_spec(
            self.shape_type, cm, cs, self.x as int, self.y as int,
            self.receptive_field_size as int,
        )
    }

    /// Creates a new V4 shape detector.
    pub fn new(id: usize, x: usize, y: usize, shape_type: ShapeType, rf_size: usize) -> (r:
        V4ShapeDetector)
        ensures
            r == (V4ShapeDetector {
                id,
                x,
                y,
                shape_type,
                receptive_field_size: rf_size,
                activation: 0i64,
            }),
            r.state_wf(),
    {
        V4ShapeDetector { id, x, y, shape_type, receptive_field_size: rf_size, activation: 0 }
    }

    /// Computes the shape score against the V2 corner and contour evidence
    /// restricted to this detector's window.
    pub fn compute_response(&mut self, v2_response: &crate::v2_cortex::V2Response)
        requires
            old(self).geom_wf(),
            v2_input_wf(
                rows_view(v2_response.corner_map@), rows_view(v2_response.contours@),
            ),
        ensures
            final(self).id == old(self).id,
            final(self).x == old(self).x,
            final(self).y == old(self).y,
            final(self).shape_type == old(self).shape_type,
            final(self).receptive_field_size == old(self).receptive_field_size,
            final(self).responds_to(
                rows_view(v2_response.corner_map@), rows_view(v2_response.contours@),
            ),
            final(self).state_wf(),
    {
        let ghost cmv = rows_view(v2_response.corner_map@);
        let ghost csv = rows_view(v2_response.contours@);
        let r = self.receptive_field_size as i64;
        let ghost xi = self.x as int;
        let ghost yi = self.y as int;

        let (cany, cl, cx, cy, ct) = window_counts(&v2_response.corner_map, self.x, self.y, r);
        let (cp, lc, seg) = contour_stats(&v2_response.contours, self.x, self.y, r);
        proof {
            lemma_wcount_bounds(cmv, mat_w(cmv), mat_h(cmv), xi, yi, 0, r as int, (2 * r + 1) as nat);
            lemma_wcount_bounds(cmv, mat_w(cmv), mat_h(cmv), xi, yi, 1, r as int, (2 * r + 1) as nat);
            lemma_wcount_bounds(cmv, mat_w(cmv), mat_h(cmv), xi, yi, 2, r as int, (2 * r + 1) as nat);
            lemma_wcount_bounds(cmv, mat_w(cmv), mat_h(cmv), xi, yi, 3, r as int, (2 * r + 1) as nat);
            lemma_wcount_bounds(cmv, mat_w(cmv), mat_h(cmv), xi, yi, 4, r as int, (2 * r + 1) as nat);
            assert(((2 * r + 1) as nat) * (2 * r + 1) <= 205 * 205) by (nonlinear_arith)
                requires
                    0 <= r <= 102,
            ;
            lemma_contour_stats_bounds(csv, xi, yi, r as int, csv.len(), MAX_CONTOUR_LEN as int);
            assert(csv.len() * 201 <= 67108864 * 201) by (nonlinear_arith)
                requires
                    0 <= csv.len() <= 67108864,
            ;
            assert(0 <= r * r <= 10404) by (nonlinear_arith)
                requires
                    0 <= r <= 102,
            ;
        }
        let rr = r * r;
        let act: i64 = match self.shape_type {
            ShapeType::Circle => {
                if cp >= 20 && 25 * cany < 2 * cp && 25 * cp > 2 * rr {
                    let ratio = (cany * SCALE) / cp;
                    proof {
                        vstd::arithmetic::div_mod::lemma_div_pos_is_pos(cany as int * SCALE as int, cp as int);
                        vstd::arithmetic::div_mod::lemma_div_nonincreasing(cany as int * SCALE as int, cp as int);
                    }
                    let smooth = (SCALE - ratio * 10) * 25;
                    let bonus: i64 = if 20 * cp > 3 * rr { 5 * SCALE } else { 0 };
                    let sc = if smooth + bonus >= 10 * SCALE { smooth + bonus } else { 10 * SCALE };
                    if sc <= 25 * SCALE { sc } else { 25 * SCALE }
                } else if lc >= 6 && cany <= 3 && cp < 35 {
                    let mcp = if cp >= 1 { cp } else { 1 };
                    if 10 * lc > 3 * mcp {
                        let sc = (lc * 3 * SCALE) / 2;
                        proof {
                            vstd::arithmetic::div_mod::lemma_div_pos_is_pos(lc as int * 3 * SCALE as int, 2);
                        }
                        if sc <= 18 * SCALE { sc } else { 18 * SCALE }
                    } else {
                        0
                    }
                } else {
                    0
                }
            },
            ShapeType::Rectangle => {
                if cl >= 3 && seg >= 3 {
                    let sc = ((cl + seg) * 3 * SCALE) / 2;
                    proof {
                        vstd::arithmetic::div_mod::lemma_div_pos_is_pos((cl as int + seg as int) * 3 * SCALE as int, 2);
                    }
                    if sc <= 25 * SCALE { sc } else { 25 * SCALE }
                } else if cx >= 2 && seg >= 2 {
                    let sc = (cx + seg) * SCALE;
                    if sc <= 20 * SCALE { sc } else { 20 * SCALE }
                } else {
                    0
                }
            },
            ShapeType::Triangle => {
                let tc = cl + cy;
                if tc == 3 && seg >= 3 {
                    let sc = (tc + seg) * 2 * SCALE;
                    if sc <= 20 * SCALE { sc } else { 20 * SCALE }
                } else if 2 <= tc && tc <= 4 && seg >= 2 {
                    let sc = (tc + seg) * SCALE;
                    if sc <= 15 * SCALE { sc } else { 15 * SCALE }
                } else {
                    0
                }
            },
            ShapeType::Line => {
                if lc > 8 && cany <= 4 {
                    let base = (lc * 9 * SCALE) / 10;
                    let pen = (cany * SCALE) / 2;
                    proof {
                        vstd::arithmetic::div_mod::lemma_div_pos_is_pos(lc as int * 9 * SCALE as int, 10);
                        vstd::arithmetic::div_mod::lemma_div_pos_is_pos(cany as int * SCALE as int, 2);
                        vstd::arithmetic::div_mod::lemma_div_nonincreasing(lc as int * 9 * SCALE as int, 10);
                        vstd::arithmetic::div_mod::lemma_div_nonincreasing(cany as int * SCALE as int, 2);
                    }
                    let sc = if base - pen >= 5 * SCALE { base - pen } else { 5 * SCALE };
                    if sc <= 20 * SCALE { sc } else { 20 * SCALE }
                } else if lc > 5 && cany <= 2 {
                    let sc = (lc * 7 * SCALE) / 10;
                    proof {
                        vstd::arithmetic::div_mod::lemma_div_pos_is_pos(lc as int * 7 * SCALE as int, 10);
                    }
                    if sc <= 15 * SCALE { sc } else { 15 * SCALE }
                } else {
                    0
                }
            },
            ShapeType::Cross => {
                if cx >= 1 && seg >= 3 {
                    let sc = (5 * cx + seg) * SCALE;
                    if sc <= 25 * SCALE { sc } else { 25 * SCALE }
                } else if ct >= 2 && seg >= 3 {
                    let sc = (3 * ct + seg) * SCALE;
                    if sc <= 20 * SCALE { sc } else { 20 * SCALE }
                } else {
                    0
                }
            },
            ShapeType::Complex => {
                if cany > 6 && seg > 5 {
                    let sc = ((cany + seg) * SCALE) / 2;
                    proof {
                        vstd::arithmetic::div_mod::lemma_div_pos_is_pos((cany as int + seg as int) * SCALE as int, 2);
                    }
                    if sc <= 20 * SCALE { sc } else { 20 * SCALE }
                } else {
                    0
                }
            },
        };
        self.activation = act;
        proof {
            lemma_shape_score_bounds(self.shape_type, cmv, csv, xi, yi, r as int);
        }
    }

    /// Returns the current activation level, fixed point.
    pub fn activation(&self) -> (r: i64)
        ensures
            r == self.activation,
    {
        self.activation
    }

    /// Returns the position of this detector.
    pub fn position(&self) -> (r: (usize, usize))
        ensures
            r == (self.x, self.y),
    {
        (self.x, self.y)
    }

    /// Returns the shape type this detector is tuned for.
    pub fn shape_type(&self) -> (r: ShapeType)
        ensures
            r == self.shape_type,
    {
        self.shape_type
    }
}

/// The shape type of detector slot `t` of a lattice point, in the fixed
/// order the layer evaluates them.
pub open spec fn shape_of(t: int) -> ShapeType {
    if t == 0 {
        ShapeType::Circle
    } else if t == 1 {
        ShapeType::Rectangle
    } else if t == 2 {
        ShapeType::Triangle
    } else if t == 3 {
        ShapeType::Line
    } else if t == 4 {
        ShapeType::Cross
    } else {
        ShapeType::Complex
    }
}

/// Detector `t` of lattice point `(xi, yi)` sits at index
/// `6 * (yi * nx + xi) + t` with the geometry the layer prescribes.
pub open spec fn sdet_ok(
    dets: Seq<V4ShapeDetector>,
    nx: int,
    sp: int,
    yi: int,
    xi: int,
    t: int,
) -> bool {
    let k = 6 * (yi * nx + xi) + t;
    &&& 0 <= k < dets.len()
    &&& dets[k].id as int == k
    &&& dets[k].x as int == pos_at(sp, sp, xi)
    &&& dets[k].y as int == pos_at(sp, sp, yi)
    &&& dets[k].shape_type == shape_of(t)
    &&& dets[k].receptive_field_size == 10
    &&& dets[k].geom_wf()
    &&& dets[k].state_wf()
}

/// The same detector holds exactly its score on the given evidence.
pub open spec fn sdet_resp_ok(
    dets: Seq<V4ShapeDetector>,
    nx: int,
    cm: Seq<Seq<Option<CornerType>>>,
    cs: Seq<Seq<(usize, usize)>>,
    yi: int,
    xi: int,
    t: int,
) -> bool {
    let k = 6 * (yi * nx + xi) + t;
    &&& 0 <= k < dets.len()
    &&& dets[k].responds_to(cm, cs)
}

/// The shape-map cell at a lattice point: the type whose detector scored
/// strictly highest among the six, earlier types in the fixed order winning
/// ties, recorded only above the shape threshold.
pub open spec fn shape_cell_spec(
    cm: Seq<Seq<Option<CornerType>>>,
    cs: Seq<Seq<(usize, usize)>>,
    x: int,
    y: int,
    r: int,
) -> Option<ShapeType> {
    let a0 = shape_score_spec(shape_of(0), cm, cs, x, y, r);
    let a1 = shape_score_spec(shape_of(1), cm, cs, x, y, r);
    let a2 = shape_score_spec(shape_of(2), cm, cs, x, y, r);
    let a3 = shape_score_spec(shape_of(3), cm, cs, x, y, r);
    let a4 = shape_score_spec(shape_of(4), cm, cs, x, y, r);
    let a5 = shape_score_spec(shape_of(5), cm, cs, x, y, r);
    let m01 = if a0 >= a1 {
        a0
    } else {
        a1
    };
    let m23 = if a2 >= a3 {
        a2
    } else {
        a3
    };
    let m45 = if a4 >= a5 {
        a4
    } else {
        a5
    };
    let m03 = if m01 >= m23 {
        m01
    } else {
        m23
    };
    let m = if m03 >= m45 {
        m03
    } else {
        m45
    };
    if m > SHAPE_THRESHOLD {
        if a0 == m {
            Some(shape_of(0))
        } else if a1 == m {
            Some(shape_of(1))
        } else if a2 == m {
            Some(shape_of(2))
        } else if a3 == m {
            Some(shape_of(3))
        } else if a4 == m {
            Some(shape_of(4))
        } else {
            Some(shape_of(5))
        }
    } else {
        None
    }
}

/// The shape map of a layer with lattice spacing `sp` and window radius `r`
/// over a `w x h` frame.
pub open spec fn shape_map_spec(
    cm: Seq<Seq<Option<CornerType>>>,
    cs: Seq<Seq<(usize, usize)>>,
    w: int,
    h: int,
    sp: int,
    r: int,
) -> Seq<Seq<Option<ShapeType>>> {
    Seq::new(
        h as nat,
        |y: int|
            Seq::new(
                w as nat,
                |x: int|
                    if is_lattice(sp, w - sp, sp, x) && is_lattice(sp, h - sp, sp, y) {
                        shape_cell_spec(cm, cs, x, y, r)
                    } else {
                        None
                    },
            ),
    )
}

/// 1 when the detector of kind `kind` at `(x, y)` fires.
pub open spec fn sfired(
    kind: ShapeType,
    cm: Seq<Seq<Option<CornerType>>>,
    cs: Seq<Seq<(usize, usize)>>,
    x: int,
    y: int,
    r: int,
) -> int {
    if shape_score_spec(kind, cm, cs, x, y, r) > SHAPE_THRESHOLD {
        1int
    } else {
        0int
    }
}

/// Firing detectors of all six kinds at `(x, y)`.
pub open spec fn sfired6(
    cm: Seq<Seq<Option<CornerType>>>,
    cs: Seq<Seq<(usize, usize)>>,
    x: int,
    y: int,
    r: int,
) -> int {
    sfired(shape_of(0), cm, cs, x, y, r) + sfired(shape_of(1), cm, cs, x, y, r) + sfired(
        shape_of(2), cm, cs, x, y, r,
    ) + sfired(shape_of(3), cm, cs, x, y, r) + sfired(shape_of(4), cm, cs, x, y, r) + sfired(
        shape_of(5), cm, cs, x, y, r,
    )
}

/// Firing detectors of kind `kind` over the first `xn` lattice columns of
/// lattice row `yi`; `kind` of `None` counts all six kinds.
pub open spec fn stc_row(
    kind: Option<ShapeType>,
    cm: Seq<Seq<Option<CornerType>>>,
    cs: Seq<Seq<(usize, usize)>>,
    sp: int,
    r: int,
    yi: int,
    xn: nat,
) -> int
    decreases xn,
{
    if xn == 0 {
        0
    } else {
        stc_row(kind, cm, cs, sp, r, yi, (xn - 1) as nat) + match kind {
            Some(k) => sfired(k, cm, cs, pos_at(sp, sp, xn - 1), pos_at(sp, sp, yi), r),
            None => sfired6(cm, cs, pos_at(sp, sp, xn - 1), pos_at(sp, sp, yi), r),
        }
    }
}

/// Firing detectors over the first `yn` lattice rows, each `nx` wide.
pub open spec fn stc_all(
    kind: Option<ShapeType>,
    cm: Seq<Seq<Option<CornerType>>>,
    cs: Seq<Seq<(usize, usize)>>,
    sp: int,
    r: int,
    nx: int,
    yn: nat,
) -> int
    decreases yn,
{
    if yn == 0 {
        0
    } else {
        stc_all(kind, cm, cs, sp, r, nx, (yn - 1) as nat) + stc_row(
            kind, cm, cs, sp, r, yn - 1, nx as nat,
        )
    }
}

/// The layer's shape instance count (`kind` of `None`) or per-type count:
/// every detector instance above threshold over the whole lattice.
pub open spec fn shape_count_spec(
    kind: Option<ShapeType>,
    cm: Seq<Seq<Option<CornerType>>>,
    cs: Seq<Seq<(usize, usize)>>,
    w: int,
    h: int,
    sp: int,
    r: int,
) -> int {
    stc_all(kind, cm, cs, sp, r, pos_count(sp, w - sp, sp), pos_count(sp, h - sp, sp) as nat)
}

/// Row counts are bounded by six per lattice point.
pub proof fn lemma_stc_row_bounds(
    kind: Option<ShapeType>,
    cm: Seq<Seq<Option<CornerType>>>,
    cs: Seq<Seq<(usize, usize)>>,
    sp: int,
    r: int,
    yi: int,
    xn: nat,
)
    ensures
        0 <= stc_row(kind, cm, cs, sp, r, yi, xn) <= 6 * xn,
    decreases xn,
{
    if xn > 0 {
        lemma_stc_row_bounds(kind, cm, cs, sp, r, yi, (xn - 1) as nat);
    }
}

/// Lattice counts are bounded by six per lattice point.
pub proof fn lemma_stc_bounds(
    kind: Option<ShapeType>,
    cm: Seq<Seq<Option<CornerType>>>,
    cs: Seq<Seq<(usize, usize)>>,
    sp: int,
    r: int,
    nx: int,
    yn: nat,
)
    requires
        nx >= 0,
    ensures
        0 <= stc_all(kind, cm, cs, sp, r, nx, yn) <= 6 * (yn * nx),
    decreases yn,
{
    if yn > 0 {
        lemma_stc_bounds(kind, cm, cs, sp, r, nx, (yn - 1) as nat);
        lemma_stc_row_bounds(kind, cm, cs, sp, r, yn - 1, nx as nat);
        assert(6 * ((yn - 1) * nx) + 6 * nx == 6 * (yn * nx)) by (nonlinear_arith);
    }
}

/// `u` is detector `c` with its activation recomputed against the evidence.
pub open spec fn sdet_recomputed(
    u: V4ShapeDetector,
    c: V4ShapeDetector,
    cm: Seq<Seq<Option<CornerType>>>,
    cs: Seq<Seq<(usize, usize)>>,
) -> bool {
    &&& u.id == c.id
    &&& u.x == c.x
    &&& u.y == c.y
    &&& u.shape_type == c.shape_type
    &&& u.receptive_field_size == c.receptive_field_size
    &&& u.responds_to(cm, cs)
    &&& u.state_wf()
}

/// Number of firing detector instances of each shape type.
#[derive(Debug, Clone, Copy, PartialEq, Eq, Structural)]
pub struct ShapeTypeCounts {
    /// Firing circle detectors.
    pub circle: usize,
    /// Firing rectangle detectors.
    pub rectangle: usize,
    /// Firing triangle detectors.
    pub triangle: usize,
    /// Firing line detectors.
    pub line: usize,
    /// Firing cross detectors.
    pub cross: usize,
    /// Firing complex detectors.
    pub complex: usize,
}

impl ShapeTypeCounts {
    /// The count recorded for one shape type.
    pub open spec fn spec_get(self, t: ShapeType) -> usize {
        match t {
            ShapeType::Circle => self.circle,
            ShapeType::Rectangle => self.rectangle,
            ShapeType::Triangle => self.triangle,
            ShapeType::Line => self.line,
            ShapeType::Cross => self.cross,
            ShapeType::Complex => self.complex,
        }
    }

    /// Returns the count recorded for one shape type.
    pub fn get(&self, t: ShapeType) -> (r: usize)
        ensures
            r == self.spec_get(t),
    {
        match t {
            ShapeType::Circle => self.circle,
            ShapeType::Rectangle => self.rectangle,
            ShapeType::Triangle => self.triangle,
            ShapeType::Line => self.line,
            ShapeType::Cross => self.cross,
            ShapeType::Complex => self.complex,
        }
    }
}

/// V4 cortex: six shape detectors at every point of a square lattice inset
/// by one spacing from the frame edges.
#[derive(Debug)]
pub struct V4Cortex {
    /// The shape detectors, row-major over the lattice, six per point in
    /// the fixed type order.
    pub shape_detectors: Vec<V4ShapeDetector>,
    /// Width of the visual field.
    pub width: usize,
    /// Height of the visual field.
    pub height: usize,
    /// Distance between neighboring lattice points, and the frame margin.
    pub spacing: usize,
}

impl V4Cortex {
    /// Number of lattice columns.
    pub open spec fn nx(self) -> int {
        pos_count(self.spacing as int, self.width - self.spacing, self.spacing as int)
    }

    /// Number of lattice rows.
    pub open spec fn ny(self) -> int {
        pos_count(self.spacing as int, self.height - self.spacing, self.spacing as int)
    }

    /// The layer configuration is within machine limits and its detector
    /// vector covers the lattice exactly, with the prescribed geometry.
    pub open spec fn wf(self) -> bool {
        &&& self.width <= MAX_DIM
        &&& self.height <= MAX_DIM
        &&& 1 <= self.spacing <= MAX_DIM
        &&& self.shape_detectors@.len() as int == 6 * (self.ny() * self.nx())
        &&& forall|yi: int, xi: int, t: int|
            0 <= yi < self.ny() && 0 <= xi < self.nx() && 0 <= t < 6 ==> #[trigger] sdet_ok(
                self.shape_detectors@, self.nx(), self.spacing as int, yi, xi, t,
            )
    }

    /// Every shape detector holds exactly its score on the given evidence.
    pub open spec fn processed(
        self,
        cm: Seq<Seq<Option<CornerType>>>,
        cs: Seq<Seq<(usize, usize)>>,
    ) -> bool {
        forall|yi: int, xi: int, t: int|
            0 <= yi < self.ny() && 0 <= xi < self.nx() && 0 <= t < 6 ==> #[trigger] sdet_resp_ok(
                self.shape_detectors@, self.nx(), cm, cs, yi, xi, t,
            )
    }

    /// Creates a new V4 cortex with shape detectors at regular intervals.
    #[verifier::loop_isolation(false)]
    pub fn new(width: usize, height: usize, spacing: usize) -> (r: V4Cortex)
        requires
            1 <= spacing <= MAX_DIM,
            width <= MAX_DIM,
            height <= MAX_DIM,
        ensures
            r.wf(),
            r.width == width,
            r.height == height,
            r.spacing == spacing,
    {
        let ghost hi_y = height - spacing;
        let ghost hi_x = width - spacing;
        let ghost ny = pos_count(spacing as int, hi_y, spacing as int);
        let ghost nx = pos_count(spacing as int, hi_x, spacing as int);
        proof {
            lemma_pos_count_bound_general(spacing as int, hi_y, spacing as int, MAX_DIM as int);
            lemma_pos_count_bound_general(spacing as int, hi_x, spacing as int, MAX_DIM as int);
        }
        let mut dets: Vec<V4ShapeDetector> = Vec::new();
        let mut id: usize = 0;
        let mut y: usize = spacing;
        let ghost mut yi: int = 0;
        while y + spacing < height
            invariant
                y <= 2 * MAX_DIM,
                0 <= yi <= ny,
                y as int == pos_at(spacing as int, spacing as int, yi),
                id == dets@.len(),
                dets@.len() as int == 6 * (yi * nx),
                forall|y2: int, x2: int, t2: int|
                    0 <= y2 < yi && 0 <= x2 < nx && 0 <= t2 < 6 ==> #[trigger] sdet_ok(
                        dets@, nx, spacing as int, y2, x2, t2,
                    ),
            decreases ny - yi,
        {
            proof {
                lemma_mod_multiples_basic(yi, spacing as int);
                lemma_lattice_index(spacing as int, hi_y, spacing as int, y as int);
                lemma_div_multiples_vanish(yi, spacing as int);
                assert(yi < ny);
            }
            let mut x: usize = spacing;
            let ghost mut xi: int = 0;
            while x + spacing < width
                invariant
                    x <= 2 * MAX_DIM,
                    0 <= xi <= nx,
                    x as int == pos_at(spacing as int, spacing as int, xi),
                    id == dets@.len(),
                    dets@.len() as int == 6 * (yi * nx + xi),
                    forall|y2: int, x2: int, t2: int|
                        0 <= y2 < yi && 0 <= x2 < nx && 0 <= t2 < 6 ==> #[trigger] sdet_ok(
                            dets@, nx, spacing as int, y2, x2, t2,
                        ),
                    forall|x2: int, t2: int|
                        0 <= x2 < xi && 0 <= t2 < 6 ==> #[trigger] sdet_ok(
                            dets@, nx, spacing as int, yi, x2, t2,
                        ),
                decreases nx - xi,
            {
                proof {
                    lemma_mod_multiples_basic(xi, spacing as int);
                    lemma_lattice_index(spacing as int, hi_x, spacing as int, x as int);
                    lemma_div_multiples_vanish(xi, spacing as int);
                    assert(xi < nx);
                    lemma_flat_index(yi, xi, ny, nx);
                    assert(yi * nx + xi <= 8192 * 8192 + 8192) by (nonlinear_arith)
                        requires
                            0 <= yi <= 8192,
                            0 <= nx <= 8192,
                            0 <= xi <= 8192,
                    ;
                }
                let ghost before = dets@;
                dets.push(V4ShapeDetector::new(id, x, y, ShapeType::Circle, 10));
                id = id + 1;
                dets.push(V4ShapeDetector::new(id, x, y, ShapeType::Rectangle, 10));
                id = id + 1;
                dets.push(V4ShapeDetector::new(id, x, y, ShapeType::Triangle, 10));
                id = id + 1;
                dets.push(V4ShapeDetector::new(id, x, y, ShapeType::Line, 10));
                id = id + 1;
                dets.push(V4ShapeDetector::new(id, x, y, ShapeType::Cross, 10));
                id = id + 1;
                dets.push(V4ShapeDetector::new(id, x, y, ShapeType::Complex, 10));
                id = id + 1;
                proof {
                    assert forall|y2: int, x2: int, t2: int|
                        0 <= y2 < yi && 0 <= x2 < nx && 0 <= t2 < 6 implies #[trigger] sdet_ok(
                        dets@, nx, spacing as int, y2, x2, t2,
                    ) by {
                        assert(sdet_ok(before, nx, spacing as int, y2, x2, t2));
                        lemma_flat_index(y2, x2, yi, nx);
                        assert(6 * (y2 * nx + x2) + t2 < before.len());
                    }
                    assert forall|x2: int, t2: int|
                        0 <= x2 < xi + 1 && 0 <= t2 < 6 implies #[trigger] sdet_ok(
                        dets@, nx, spacing as int, yi, x2, t2,
                    ) by {
                        if x2 < xi {
                            assert(sdet_ok(before, nx, spacing as int, yi, x2, t2));
                            assert(6 * (yi * nx + x2) + t2 < before.len()) by (nonlinear_arith)
                                requires
                                    0 <= x2 < xi,
                                    0 <= t2 < 6,
                                    before.len() == 6 * (yi * nx + xi),
                            ;
                        } else {
                            assert(dets@[6 * (yi * nx + xi) + t2].x as int == pos_at(
                                spacing as int, spacing as int, xi,
                            ));
                        }
                    }
                    assert((xi + 1) * spacing == xi * spacing + spacing) by (nonlinear_arith);
                    xi = xi + 1;
                }
                x = x + spacing;
            }
            proof {
                if xi < nx {
                    lemma_pos_at_in_range(spacing as int, hi_x, spacing as int, xi);
                    assert(false);
                }
                assert(6 * (yi * nx + nx) == 6 * ((yi + 1) * nx)) by (nonlinear_arith);
                assert((yi + 1) * spacing == yi * spacing + spacing) by (nonlinear_arith);
                yi = yi + 1;
            }
            y = y + spacing;
        }
        proof {
            if yi < ny {
                lemma_pos_at_in_range(spacing as int, hi_y, spacing as int, yi);
                assert(false);
            }
        }
        V4Cortex { shape_detectors: dets, width, height, spacing }
    }

    /// Returns all shape detectors.
    pub fn shape_detectors(&self) -> (r: &Vec<V4ShapeDetector>)
        ensures
            r == &self.shape_detectors,
    {
        &self.shape_detectors
    }

    /// Processes V2 output through V4: scores every shape detector on the
    /// corner and contour evidence, keeps the strongest firing type at each
    /// lattice point in the shape map, and tallies every firing detector
    /// instance, in total and per type.
    #[verifier::loop_isolation(false)]
    #[verifier::rlimit(60)]
    pub fn process(&mut self, v2_response: &crate::v2_cortex::V2Response) -> (r: V4Response)
        requires
            old(self).wf(),
            v2_input_wf(rows_view(v2_response.corner_map@), rows_view(v2_response.contours@)),
        ensures
            final(self).wf(),
            final(self).width == old(self).width,
            final(self).height == old(self).height,
            final(self).spacing == old(self).spacing,
            final(self).processed(
                rows_view(v2_response.corner_map@), rows_view(v2_response.contours@),
            ),
            rows_view(r.shape_map@) == shape_map_spec(
                rows_view(v2_response.corner_map@), rows_view(v2_response.contours@),
                old(self).width as int, old(self).height as int, old(self).spacing as int, 10,
            ),
            r.shape_count as int == shape_count_spec(
                None, rows_view(v2_response.corner_map@), rows_view(v2_response.contours@),
                old(self).width as int, old(self).height as int, old(self).spacing as int, 10,
            ),
            forall|t: ShapeType|
                (#[trigger] r.shape_type_counts.spec_get(t)) as int == shape_count_spec(
                    Some(t), rows_view(v2_response.corner_map@), rows_view(v2_response.contours@),
                    old(self).width as int, old(self).height as int, old(self).spacing as int, 10,
                ),
    {
        let ghost cmv = rows_view(v2_response.corner_map@);
        let ghost csv = rows_view(v2_response.contours@);
        let ghost orig = *self;
        let sp = self.spacing;

        // Score every shape detector.
        let mut updated: Vec<V4ShapeDetector> = Vec::new();
        let mut i: usize = 0;
        let n = self.shape_detectors.len();
        while i < n
            invariant
                i <= n,
                updated@.len() == i,
                forall|j: int|
                    0 <= j < i ==> #[trigger] sdet_recomputed(
                        updated@[j], orig.shape_detectors@[j], cmv, csv,
                    ),
            decreases n - i,
        {
            let mut det = self.shape_detectors[i];
            proof {
                lemma_sdet_index_decomposition(orig, i as int);
            }
            det.compute_response(v2_response);
            updated.push(det);
            i = i + 1;
        }
        self.shape_detectors = updated;
        let ghost dets = self.shape_detectors@;
        let ghost nxg = orig.nx();
        let ghost nyg = orig.ny();
        let ghost spg = orig.spacing as int;
        proof {
            assert forall|yi: int, xi: int, t: int|
                0 <= yi < nyg && 0 <= xi < nxg && 0 <= t < 6 implies #[trigger] sdet_ok(
                dets, nxg, spg, yi, xi, t,
            ) by {
                assert(sdet_ok(orig.shape_detectors@, orig.nx(), orig.spacing as int, yi, xi, t));
                let k = 6 * (yi * nxg + xi) + t;
                assert(0 <= k < orig.shape_detectors@.len());
                assert(sdet_recomputed(dets[k], orig.shape_detectors@[k], cmv, csv));
            }
            assert forall|yi: int, xi: int, t: int|
                0 <= yi < nyg && 0 <= xi < nxg && 0 <= t < 6 implies #[trigger] sdet_resp_ok(
                dets, nxg, cmv, csv, yi, xi, t,
            ) by {
                assert(sdet_ok(orig.shape_detectors@, orig.nx(), orig.spacing as int, yi, xi, t));
                let k = 6 * (yi * nxg + xi) + t;
                assert(0 <= k < orig.shape_detectors@.len());
                assert(sdet_recomputed(dets[k], orig.shape_detectors@[k], cmv, csv));
            }
        }

        // Build the shape map from the detector states.
        let ghost sm = shape_map_spec(
            cmv, csv, self.width as int, self.height as int, sp as int, 10,
        );
        let mut rows: Vec<Vec<Option<ShapeType>>> = Vec::new();
        let mut y: usize = 0;
        while y < self.height
            invariant
                y <= self.height,
                rows@.len() == y,
                forall|y2: int| 0 <= y2 < y ==> #[trigger] rows@[y2]@ == sm[y2],
            decreases self.height - y,
        {
            let mut row: Vec<Option<ShapeType>> = Vec::new();
            let mut x: usize = 0;
            while x < self.width
                invariant
                    x <= self.width,
                    row@.len() == x,
                    forall|x2: int| 0 <= x2 < x ==> #[trigger] row@[x2] == sm[y as int][x2],
                decreases self.width - x,
            {
                let mut v: Option<ShapeType> = None;
                if y >= sp && y + sp < self.height && (y - sp) % sp == 0 && x >= sp && x + sp
                    < self.width && (x - sp) % sp == 0 {
                    let nx = if self.width - sp <= sp {
                        0
                    } else {
                        (self.width - sp - sp - 1) / sp + 1
                    };
                    assert(nx as int == self.nx());
                    let yi = (y - sp) / sp;
                    let xi = (x - sp) / sp;
                    proof {
                        lemma_lattice_index(sp as int, self.height - sp as int, sp as int, y as int);
                        lemma_lattice_index(sp as int, self.width - sp as int, sp as int, x as int);
                        lemma_flat_index(yi as int, xi as int, self.ny(), self.nx());
                        lemma_pos_count_bound_general(
                            sp as int, self.height - sp as int, sp as int, MAX_DIM as int,
                        );
                        lemma_pos_count_bound_general(
                            sp as int, self.width - sp as int, sp as int, MAX_DIM as int,
                        );
                        assert((yi as int) * (nx as int) + (xi as int) <= 8192 * 8192 + 8192)
                            by (nonlinear_arith)
                            requires
                                0 <= yi as int <= 8192,
                                0 <= nx as int <= 8192,
                                0 <= xi as int <= 8192,
                        ;
                        assert(self.shape_detectors@ == dets);
                        assert(self.nx() == nxg && self.ny() == nyg && sp as int == spg);
                        assert(sdet_ok(dets, nxg, spg, yi as int, xi as int, 0));
                        assert(sdet_ok(dets, nxg, spg, yi as int, xi as int, 1));
                        assert(sdet_ok(dets, nxg, spg, yi as int, xi as int, 2));
                        assert(sdet_ok(dets, nxg, spg, yi as int, xi as int, 3));
                        assert(sdet_ok(dets, nxg, spg, yi as int, xi as int, 4));
                        assert(sdet_ok(dets, nxg, spg, yi as int, xi as int, 5));
                        assert(sdet_resp_ok(dets, nxg, cmv, csv, yi as int, xi as int, 0));
                        assert(sdet_resp_ok(dets, nxg, cmv, csv, yi as int, xi as int, 1));
                        assert(sdet_resp_ok(dets, nxg, cmv, csv, yi as int, xi as int, 2));
                        assert(sdet_resp_ok(dets, nxg, cmv, csv, yi as int, xi as int, 3));
                        assert(sdet_resp_ok(dets, nxg, cmv, csv, yi as int, xi as int, 4));
                        assert(sdet_resp_ok(dets, nxg, cmv, csv, yi as int, xi as int, 5));
                    }
                    let k = 6 * (yi * nx + xi);
                    let a0 = self.shape_detectors[k].activation;
                    let a1 = self.shape_detectors[k + 1].activation;
                    let a2 = self.shape_detectors[k + 2].activation;
                    let a3 = self.shape_detectors[k + 3].activation;
                    let a4 = self.shape_detectors[k + 4].activation;
                    let a5 = self.shape_detectors[k + 5].activation;
                    let m01 = if a0 >= a1 { a0 } else { a1 };
                    let m23 = if a2 >= a3 { a2 } else { a3 };
                    let m45 = if a4 >= a5 { a4 } else { a5 };
                    let m03 = if m01 >= m23 { m01 } else { m23 };
                    let m = if m03 >= m45 { m03 } else { m45 };
                    if m > SHAPE_THRESHOLD {
                        v = if a0 == m {
                            Some(ShapeType::Circle)
                        } else if a1 == m {
                            Some(ShapeType::Rectangle)
                        } else if a2 == m {
                            Some(ShapeType::Triangle)
                        } else if a3 == m {
                            Some(ShapeType::Line)
                        } else if a4 == m {
                            Some(ShapeType::Cross)
                        } else {
                            Some(ShapeType::Complex)
                        };
                    }
                } else {
                    proof {
                        if is_lattice(sp as int, self.width - sp as int, sp as int, x as int)
                            && is_lattice(sp as int, self.height - sp as int, sp as int, y as int) {
                            assert((x as int) >= (sp as int));
                            assert((x as int) + (sp as int) < (self.width as int));
                            assert(((x as int) - (sp as int)) % (sp as int) == 0);
                            assert((y as int) >= (sp as int));
                            assert((y as int) + (sp as int) < (self.height as int));
                            assert(((y as int) - (sp as int)) % (sp as int) == 0);
                        }
                    }
                }
                row.push(v);
                x = x + 1;
            }
            proof {
                assert(row@ =~= sm[y as int]);
            }
            rows.push(row);
            y = y + 1;
        }
        proof {
            assert(rows_view(rows@) =~= sm);
        }

        // Tally every firing detector instance, in total and per type.
        let mut count: usize = 0;
        let mut n_circle: usize = 0;
        let mut n_rectangle: usize = 0;
        let mut n_triangle: usize = 0;
        let mut n_line: usize = 0;
        let mut n_cross: usize = 0;
        let mut n_complex: usize = 0;
        let mut cy: usize = sp;
        let ghost mut cyi: int = 0;
        proof {
            lemma_pos_count_bound_general(
                sp as int, self.height - sp as int, sp as int, MAX_DIM as int,
            );
            lemma_pos_count_bound_general(
                sp as int, self.width - sp as int, sp as int, MAX_DIM as int,
            );
        }
        while cy + sp < self.height
            invariant
                cy <= 2 * MAX_DIM,
                0 <= cyi <= nyg,
                cy as int == pos_at(spg, spg, cyi),
                count as int == stc_all(None, cmv, csv, spg, 10, nxg, cyi as nat),
                n_circle as int == stc_all(Some(ShapeType::Circle), cmv, csv, spg, 10, nxg, cyi as nat),
                n_rectangle as int == stc_all(Some(ShapeType::Rectangle), cmv, csv, spg, 10, nxg, cyi as nat),
                n_triangle as int == stc_all(Some(ShapeType::Triangle), cmv, csv, spg, 10, nxg, cyi as nat),
                n_line as int == stc_all(Some(ShapeType::Line), cmv, csv, spg, 10, nxg, cyi as nat),
                n_cross as int == stc_all(Some(ShapeType::Cross), cmv, csv, spg, 10, nxg, cyi as nat),
                n_complex as int == stc_all(Some(ShapeType::Complex), cmv, csv, spg, 10, nxg, cyi as nat),
            decreases nyg - cyi,
        {
            proof {
                vstd::arithmetic::mul::lemma_mul_nonnegative(cyi, spg);
                lemma_mod_multiples_basic(cyi, spg);
                assert(sp as int == spg && self.height == orig.height);
                assert(is_lattice(spg, self.height - spg, spg, cy as int));
                lemma_lattice_index(spg, self.height - spg, spg, cy as int);
                lemma_div_multiples_vanish(cyi, spg);
                assert(lattice_index(spg, spg, cy as int) == (cy - sp) as int / spg);
                assert((cy - sp) as int == spg * cyi);
                assert(lattice_index(spg, spg, cy as int) == cyi);
                assert(pos_count(spg, self.height - spg, spg) == nyg);
                assert(cyi < nyg);
            }
            let mut cx: usize = sp;
            let ghost mut cxi: int = 0;
            while cx + sp < self.width
                invariant
                    cx <= 2 * MAX_DIM,
                    0 <= cxi <= nxg,
                    cx as int == pos_at(spg, spg, cxi),
                    count as int == stc_all(None, cmv, csv, spg, 10, nxg, cyi as nat) + stc_row(
                        None, cmv, csv, spg, 10, cyi, cxi as nat,
                    ),
                    n_circle as int == stc_all(Some(ShapeType::Circle), cmv, csv, spg, 10, nxg, cyi as nat)
                        + stc_row(Some(ShapeType::Circle), cmv, csv, spg, 10, cyi, cxi as nat),
                    n_rectangle as int == stc_all(Some(ShapeType::Rectangle), cmv, csv, spg, 10, nxg, cyi as nat)
                        + stc_row(Some(ShapeType::Rectangle), cmv, csv, spg, 10, cyi, cxi as nat),
                    n_triangle as int == stc_all(Some(ShapeType::Triangle), cmv, csv, spg, 10, nxg, cyi as nat)
                        + stc_row(Some(ShapeType::Triangle), cmv, csv, spg, 10, cyi, cxi as nat),
                    n_line as int == stc_all(Some(ShapeType::Line), cmv, csv, spg, 10, nxg, cyi as nat)
                        + stc_row(Some(ShapeType::Line), cmv, csv, spg, 10, cyi, cxi as nat),
                    n_cross as int == stc_all(Some(ShapeType::Cross), cmv, csv, spg, 10, nxg, cyi as nat)
                        + stc_row(Some(ShapeType::Cross), cmv, csv, spg, 10, cyi, cxi as nat),
                    n_complex as int == stc_all(Some(ShapeType::Complex), cmv, csv, spg, 10, nxg, cyi as nat)
                        + stc_row(Some(ShapeType::Complex), cmv, csv, spg, 10, cyi, cxi as nat),
                decreases nxg - cxi,
            {
                proof {
                    vstd::arithmetic::mul::lemma_mul_nonnegative(cxi, spg);
                    lemma_mod_multiples_basic(cxi, spg);
                    assert(sp as int == spg && self.width == orig.width);
                    assert(is_lattice(spg, self.width - spg, spg, cx as int));
                    lemma_lattice_index(spg, self.width - spg, spg, cx as int);
                    lemma_div_multiples_vanish(cxi, spg);
                    assert(lattice_index(spg, spg, cx as int) == (cx - sp) as int / spg);
                    assert((cx - sp) as int == spg * cxi);
                    assert(lattice_index(spg, spg, cx as int) == cxi);
                    assert(pos_count(spg, self.width - spg, spg) == nxg);
                    assert(cxi < nxg);
                    lemma_flat_index(cyi, cxi, nyg, nxg);
                    lemma_stc_bounds(None, cmv, csv, spg, 10, nxg, cyi as nat);
                    lemma_stc_row_bounds(None, cmv, csv, spg, 10, cyi, cxi as nat);
                    lemma_stc_bounds(Some(ShapeType::Circle), cmv, csv, spg, 10, nxg, cyi as nat);
                    lemma_stc_row_bounds(Some(ShapeType::Circle), cmv, csv, spg, 10, cyi, cxi as nat);
                    lemma_stc_bounds(Some(ShapeType::Rectangle), cmv, csv, spg, 10, nxg, cyi as nat);
                    lemma_stc_row_bounds(Some(ShapeType::Rectangle), cmv, csv, spg, 10, cyi, cxi as nat);
                    lemma_stc_bounds(Some(ShapeType::Triangle), cmv, csv, spg, 10, nxg, cyi as nat);
                    lemma_stc_row_bounds(Some(ShapeType::Triangle), cmv, csv, spg, 10, cyi, cxi as nat);
                    lemma_stc_bounds(Some(ShapeType::Line), cmv, csv, spg, 10, nxg, cyi as nat);
                    lemma_stc_row_bounds(Some(ShapeType::Line), cmv, csv, spg, 10, cyi, cxi as nat);
                    lemma_stc_bounds(Some(ShapeType::Cross), cmv, csv, spg, 10, nxg, cyi as nat);
                    lemma_stc_row_bounds(Some(ShapeType::Cross), cmv, csv, spg, 10, cyi, cxi as nat);
                    lemma_stc_bounds(Some(ShapeType::Complex), cmv, csv, spg, 10, nxg, cyi as nat);
                    lemma_stc_row_bounds(Some(ShapeType::Complex), cmv, csv, spg, 10, cyi, cxi as nat);
                    assert(6 * (cyi * nxg) + 6 * cxi <= 6 * (8192 * 8192 + 8192))
                        by (nonlinear_arith)
                        requires
                            0 <= cyi <= 8192,
                            0 <= nxg <= 8192,
                            0 <= cxi <= 8192,
                    ;
                    assert(sdet_ok(dets, nxg, spg, cyi, cxi, 0));
                    assert(sdet_ok(dets, nxg, spg, cyi, cxi, 1));
                    assert(sdet_ok(dets, nxg, spg, cyi, cxi, 2));
                    assert(sdet_ok(dets, nxg, spg, cyi, cxi, 3));
                    assert(sdet_ok(dets, nxg, spg, cyi, cxi, 4));
                    assert(sdet_ok(dets, nxg, spg, cyi, cxi, 5));
                    assert(sdet_resp_ok(dets, nxg, cmv, csv, cyi, cxi, 0));
                    assert(sdet_resp_ok(dets, nxg, cmv, csv, cyi, cxi, 1));
                    assert(sdet_resp_ok(dets, nxg, cmv, csv, cyi, cxi, 2));
                    assert(sdet_resp_ok(dets, nxg, cmv, csv, cyi, cxi, 3));
                    assert(sdet_resp_ok(dets, nxg, cmv, csv, cyi, cxi, 4));
                    assert(sdet_resp_ok(dets, nxg, cmv, csv, cyi, cxi, 5));
                    assert(self.shape_detectors@ == dets);
                }
                let nx_e = if self.width - sp <= sp {
                    0
                } else {
                    (self.width - sp - sp - 1) / sp + 1
                };
                assert(nx_e as int == nxg);
                let k = 6 * ((cy - sp) / sp * nx_e + (cx - sp) / sp);
                assert(k as int == 6 * (cyi * nxg + cxi));
                if self.shape_detectors[k].activation > SHAPE_THRESHOLD {
                    count = count + 1;
                    n_circle = n_circle + 1;
                }
                if self.shape_detectors[k + 1].activation > SHAPE_THRESHOLD {
                    count = count + 1;
                    n_rectangle = n_rectangle + 1;
                }
                if self.shape_detectors[k + 2].activation > SHAPE_THRESHOLD {
                    count = count + 1;
                    n_triangle = n_triangle + 1;
                }
                if self.shape_detectors[k + 3].activation > SHAPE_THRESHOLD {
                    count = count + 1;
                    n_line = n_line + 1;
                }
                if self.shape_detectors[k + 4].activation > SHAPE_THRESHOLD {
                    count = count + 1;
                    n_cross = n_cross + 1;
                }
                if self.shape_detectors[k + 5].activation > SHAPE_THRESHOLD {
                    count = count + 1;
                    n_complex = n_complex + 1;
                }
                proof {
                    assert((cxi + 1) * spg == cxi * spg + spg) by (nonlinear_arith);
                    cxi = cxi + 1;
                }
                cx = cx + sp;
            }
            proof {
                if cxi < nxg {
                    lemma_pos_at_in_range(sp as int, self.width - sp as int, sp as int, cxi);
                    assert(false);
                }
                assert((cyi + 1) * spg == cyi * spg + spg) by (nonlinear_arith);
                cyi = cyi + 1;
            }
            cy = cy + sp;
        }
        proof {
            if cyi < nyg {
                lemma_pos_at_in_range(sp as int, self.height - sp as int, sp as int, cyi);
                assert(false);
            }
            assert(self.shape_detectors@ == dets);
            assert(self.nx() == nxg && self.ny() == nyg && self.spacing as int == spg);
            assert forall|yi: int, xi: int, t: int|
                0 <= yi < self.ny() && 0 <= xi < self.nx() && 0 <= t < 6 implies #[trigger] sdet_ok(
                self.shape_detectors@, self.nx(), self.spacing as int, yi, xi, t,
            ) by {
                assert(sdet_ok(dets, nxg, spg, yi, xi, t));
            }
            assert forall|yi: int, xi: int, t: int|
                0 <= yi < self.ny() && 0 <= xi < self.nx() && 0 <= t < 6 implies #[trigger] sdet_resp_ok(
                self.shape_detectors@, self.nx(), cmv, csv, yi, xi, t,
            ) by {
                assert(sdet_resp_ok(dets, nxg, cmv, csv, yi, xi, t));
            }
        }

        V4Response {
            shape_map: rows,
            shape_count: count,
            shape_type_counts: ShapeTypeCounts {
                circle: n_circle,
                rectangle: n_rectangle,
                triangle: n_triangle,
                line: n_line,
                cross: n_cross,
                complex: n_complex,
            },
        }
    }
}

/// Decomposes a flat detector index of a well-formed layer into its lattice
/// coordinate, and carries the layer's per-detector facts to that index.
pub proof fn lemma_sdet_index_decomposition(c: V4Cortex, k: int)
    requires
        c.wf(),
        0 <= k < c.shape_detectors@.len(),
    ensures
        c.shape_detectors@[k].geom_wf(),
        c.shape_detectors@[k].state_wf(),
{
    let nx = c.nx();
    let ny = c.ny();
    lemma_pos_count_bound_general(
        c.spacing as int, c.width - c.spacing as int, c.spacing as int, MAX_DIM as int,
    );
    lemma_pos_count_bound_general(
        c.spacing as int, c.height - c.spacing as int, c.spacing as int, MAX_DIM as int,
    );
    let p = k / 6;
    let t = k % 6;
    crate::ganglion::lemma_fundamental_div_mod_pair(k, 6);
    assert(0 <= p < ny * nx) by (nonlinear_arith)
        requires
            0 <= k < 6 * (ny * nx),
            k == 6 * p + t,
            0 <= t < 6,
    ;
    assert(nx > 0) by (nonlinear_arith)
        requires
            0 <= p < ny * nx,
            0 <= ny,
    ;
    crate::ganglion::lemma_fundamental_div_mod_pair(p, nx);
    let yi = p / nx;
    let xi = p % nx;
    assert(0 <= yi < ny) by (nonlinear_arith)
        requires
            0 <= p < ny * nx,
            p == nx * yi + xi,
            0 <= xi < nx,
    ;
    assert(sdet_ok(c.shape_detectors@, nx, c.spacing as int, yi, xi, t));
    assert(6 * (yi * nx + xi) + t == k);
}

/// Response from V4 processing.
#[derive(Debug)]
pub struct V4Response {
    /// Map of detected shapes: the strongest type at each lattice point.
    pub shape_map: Vec<Vec<Option<ShapeType>>>,
    /// Number of shape detector instances above threshold.
    pub shape_count: usize,
    /// Count of firing detector instances of each shape type.
    pub shape_type_counts: ShapeTypeCounts,
}

impl V4Response {
    /// Gets the shape type with the most firing detector instances, earlier
    /// types in the order circle, rectangle, triangle, line, cross, complex
    /// winning ties; `None` when no detector fired.
    pub fn dominant_shape_type(&self) -> (r: Option<ShapeType>)
        ensures
            ({
                let c = self.shape_type_counts;
                let m = vstd::math::max(
                    vstd::math::max(
                        vstd::math::max(c.circle as int, c.rectangle as int),
                        vstd::math::max(c.triangle as int, c.line as int),
                    ),
                    vstd::math::max(c.cross as int, c.complex as int),
                );
                if m == 0 {
                    r is None
                } else if c.circle as int == m {
                    r == Some(ShapeType::Circle)
                } else if c.rectangle as int == m {
                    r == Some(ShapeType::Rectangle)
                } else if c.triangle as int == m {
                    r == Some(ShapeType::Triangle)
                } else if c.line as int == m {
                    r == Some(ShapeType::Line)
                } else if c.cross as int == m {
                    r == Some(ShapeType::Cross)
                } else {
                    r == Some(ShapeType::Complex)
                }
            }),
    {
        let c = &self.shape_type_counts;
        let m1 = if c.circle >= c.rectangle { c.circle } else { c.rectangle };
        let m2 = if c.triangle >= c.line { c.triangle } else { c.line };
        let m3 = if c.cross >= c.complex { c.cross } else { c.complex };
        let m12 = if m1 >= m2 { m1 } else { m2 };
        let m = if m12 >= m3 { m12 } else { m3 };
        if m == 0 {
            None
        } else if c.circle == m {
            Some(ShapeType::Circle)
        } else if c.rectangle == m {
            Some(ShapeType::Rectangle)
        } else if c.triangle == m {
            Some(ShapeType::Triangle)
        } else if c.line == m {
            Some(ShapeType::Line)
        } else if c.cross == m {
            Some(ShapeType::Cross)
        } else {
            Some(ShapeType::Complex)
        }
    }

    /// Counts shapes by type.
    pub fn count_by_type(&self) -> (r: &ShapeTypeCounts)
        ensures
            r == &self.shape_type_counts,
    {
        &self.shape_type_counts
    }
}

} // verus!
