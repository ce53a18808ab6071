//! Secondary visual cortex: corner junctions and traced contours.
//!
//! Corner detectors scan a window of the orientation map around their
//! position, count cells whose angle falls in the near-horizontal,
//! near-vertical and the two diagonal bands, and score four junction
//! geometries from those counts. The independent contour tracer walks the
//! edge map greedily and claims every pixel for at most one contour.

use vstd::prelude::*;
use crate::fixed::{CORNER_THRESHOLD, EDGE_MAX, MAX_DIM, SCALE, SEED_THRESHOLD, STEP_THRESHOLD};
use crate::grid::{
    gh, grid_wf, gw, in_grid, is_lattice, lemma_flat_index, lemma_lattice_index,
    lemma_pos_at_in_range, mat_h, mat_w, pos_at, pos_count, rect, rows_view,
};
use crate::grid::lemma_pos_count_bound_general;
use crate::v1_cortex::Orientation;
use vstd::arithmetic::div_mod::{lemma_div_multiples_vanish, lemma_mod_multiples_basic};

verus! {

/// Types of corner junctions detected by V2.
#[derive(Debug, Clone, Copy, PartialEq, Eq, Structural)]
pub enum CornerType {
    /// L-junction: a 90-degree angle, as at the corner of a rectangle.
    LJunction,
    /// T-junction: an occlusion boundary, one edge ending on another.
    TJunction,
    /// X-junction: two lines crossing.
    XJunction,
    /// Y-junction: a three-way intersection.
    YJunction,
}

/// The orientation band a junction detector counts: 0 near-horizontal
/// (under 22.5 or over 157.5 degrees), 1 near-vertical (67.5 to 112.5),
/// 2 near the rising diagonal (22.5 to 67.5), 3 near the falling diagonal
/// (112.5 to 157.5). Bounds are halves, so the tests double both sides.
pub open spec fn in_band(b: int, deg: int) -> bool {
    if b == 0 {
        2 * deg < 45 || 2 * deg > 315
    } else if b == 1 {
        135 <= 2 * deg <= 225
    } else if b == 2 {
        45 <= 2 * deg <= 135
    } else {
        225 <= 2 * deg <= 315
    }
}

/// 1 when the orientation-map cell at offset `(dx, dy)` holds an angle of
/// band `b`, else 0.
pub open spec fn ocell(
    m: Seq<Seq<Option<Orientation>>>,
    w: int,
    h: int,
    x: int,
    y: int,
    dx: int,
    dy: int,
    b: int,
) -> int {
    if in_grid(w, h, x + dx, y + dy) && match m[y + dy][x + dx] {
        Some(o) => in_band(b, o.degrees as int),
        None => false,
    } {
        1int
    } else {
        0int
    }
}

/// Band count over the first `mm` offsets of window row `dy`.
pub open spec fn orow(
    m: Seq<Seq<Option<Orientation>>>,
    w: int,
    h: int,
    x: int,
    y: int,
    b: int,
    r: int,
    dy: int,
    mm: nat,
) -> int
    decreases mm,
{
    if mm == 0 {
        0
    } else {
        orow(m, w, h, x, y, b, r, dy, (mm - 1) as nat) + ocell(
            m, w, h, x, y, -r + (mm - 1), dy, b,
        )
    }
}

/// Band count over the first `n` rows of the scanning window.
pub open spec fn ocount(
    m: Seq<Seq<Option<Orientation>>>,
    w: int,
    h: int,
    x: int,
    y: int,
    b: int,
    r: int,
    n: nat,
) -> int
    decreases n,
{
    if n == 0 {
        0
    } else {
        ocount(m, w, h, x, y, b, r, (n - 1) as nat) + orow(
            m, w, h, x, y, b, r, -r + (n - 1), (2 * r + 1) as nat,
        )
    }
}

/// Full band count of the window of radius `r` around `(x, y)`.
pub open spec fn band_count(
    m: Seq<Seq<Option<Orientation>>>,
    w: int,
    h: int,
    x: int,
    y: int,
    b: int,
    r: int,
) -> int {
    ocount(m, w, h, x, y, b, r, (2 * r + 1) as nat)
}

/// L-junction score: twice the smaller of the near-horizontal and
/// near-vertical counts when both are present, capped at 100; fixed point.
pub open spec fn l_score_spec(
    m: Seq<Seq<Option<Orientation>>>,
    w: int,
    h: int,
    x: int,
    y: int,
    r: int,
) -> int {
    if x >= w || y >= h {
        0
    } else {
        let hc = band_count(m, w, h, x, y, 0, r);
        let vc = band_count(m, w, h, x, y, 1, r);
        if hc >= 1 && vc >= 1 {
            let mn = if hc <= vc {
                hc
            } else {
                vc
            };
            let s = 2 * mn;
            (if s > 100 {
                100int
            } else {
                s
            }) * SCALE
        } else {
            0
        }
    }
}

/// X-junction score: the same rule over the two diagonal bands.
pub open spec fn x_score_spec(
    m: Seq<Seq<Option<Orientation>>>,
    w: int,
    h: int,
    x: int,
    y: int,
    r: int,
) -> int {
    if x >= w || y >= h {
        0
    } else {
        let c45 = band_count(m, w, h, x, y, 2, r);
        let c135 = band_count(m, w, h, x, y, 3, r);
        if c45 >= 1 && c135 >= 1 {
            let mn = if c45 <= c135 {
                c45
            } else {
                c135
            };
            let s = 2 * mn;
            (if s > 100 {
                100int
            } else {
                s
            }) * SCALE
        } else {
            0
        }
    }
}

/// T-junction score: the L-junction evidence discounted to 0.8.
pub open spec fn t_score_spec(
    m: Seq<Seq<Option<Orientation>>>,
    w: int,
    h: int,
    x: int,
    y: int,
    r: int,
) -> int {
    l_score_spec(m, w, h, x, y, r) * 4 / 5
}

/// Y-junction score: 0.7 of the average of the L and X scores.
pub open spec fn y_score_spec(
    m: Seq<Seq<Option<Orientation>>>,
    w: int,
    h: int,
    x: int,
    y: int,
    r: int,
) -> int {
    ((l_score_spec(m, w, h, x, y, r) + x_score_spec(m, w, h, x, y, r)) / 2) * 7 / 10
}

/// The score of a detector of the given junction type.
pub open spec fn corner_score_spec(
    kind: CornerType,
    m: Seq<Seq<Option<Orientation>>>,
    w: int,
    h: int,
    x: int,
    y: int,
    r: int,
) -> int {
    match kind {
        CornerType::LJunction => l_score_spec(m, w, h, x, y, r),
        CornerType::TJunction => t_score_spec(m, w, h, x, y, r),
        CornerType::XJunction => x_score_spec(m, w, h, x, y, r),
        CornerType::YJunction => y_score_spec(m, w, h, x, y, r),
    }
}

/// Band counts lie between 0 and the number of window offsets.
proof fn lemma_orow_bounds(
    m: Seq<Seq<Option<Orientation>>>,
    w: int,
    h: int,
    x: int,
    y: int,
    b: int,
    r: int,
    dy: int,
    mm: nat,
)
    ensures
        0 <= orow(m, w, h, x, y, b, r, dy, mm) <= mm,
    decreases mm,
{
    if mm > 0 {
        lemma_orow_bounds(m, w, h, x, y, b, r, dy, (mm - 1) as nat);
    }
}

/// Window-level version of the band count bounds.
pub proof fn lemma_ocount_bounds(
    m: Seq<Seq<Option<Orientation>>>,
    w: int,
    h: int,
    x: int,
    y: int,
    b: int,
    r: int,
    n: nat,
)
    requires
        r >= 0,
    ensures
        0 <= ocount(m, w, h, x, y, b, r, n) <= n * (2 * r + 1),
    decreases n,
{
    if n > 0 {
        lemma_ocount_bounds(m, w, h, x, y, b, r, (n - 1) as nat);
        lemma_orow_bounds(m, w, h, x, y, b, r, -r + (n - 1), (2 * r + 1) as nat);
        assert((n - 1) * (2 * r + 1) + (2 * r + 1) == n * (2 * r + 1)) by (nonlinear_arith);
    }
}

/// Every junction score lies in `0 ..= 100 * SCALE`.
pub proof fn lemma_corner_score_bounds(
    kind: CornerType,
    m: Seq<Seq<Option<Orientation>>>,
    w: int,
    h: int,
    x: int,
    y: int,
    r: int,
)
    requires
        r >= 0,
    ensures
        0 <= corner_score_spec(kind, m, w, h, x, y, r) <= 100 * SCALE,
{
    let l = l_score_spec(m, w, h, x, y, r);
    let xs = x_score_spec(m, w, h, x, y, r);
    if !(x >= w || y >= h) {
        lemma_ocount_bounds(m, w, h, x, y, 0, r, (2 * r + 1) as nat);
        lemma_ocount_bounds(m, w, h, x, y, 1, r, (2 * r + 1) as nat);
        lemma_ocount_bounds(m, w, h, x, y, 2, r, (2 * r + 1) as nat);
        lemma_ocount_bounds(m, w, h, x, y, 3, r, (2 * r + 1) as nat);
    }
    assert(0 <= l <= 100 * SCALE);
    assert(0 <= xs <= 100 * SCALE);
    assert(0 <= l * 4 / 5 <= 100 * SCALE) by {
        vstd::arithmetic::div_mod::lemma_div_pos_is_pos(l * 4, 5);
        vstd::arithmetic::div_mod::lemma_div_is_ordered(l * 4, 400000000, 5);
    }
    assert(0 <= ((l + xs) / 2) * 7 / 10 <= 100 * SCALE) by {
        vstd::arithmetic::div_mod::lemma_div_pos_is_pos(l + xs, 2);
        vstd::arithmetic::div_mod::lemma_div_is_ordered(l + xs, 200000000, 2);
        vstd::arithmetic::div_mod::lemma_div_pos_is_pos(((l + xs) / 2) * 7, 10);
        vstd::arithmetic::div_mod::lemma_div_is_ordered(((l + xs) / 2) * 7, 700000000, 10);
    }
}

/// Counts the orientation-map cells of all four bands in the window of
/// radius `r` around `(x, y)`.
#[verifier::loop_isolation(false)]
fn band_counts(m: &Vec<Vec<Option<Orientation>>>, x: usize, y: usize, r: i64) -> (res: (
    i64,
    i64,
    i64,
    i64,
))
    requires
        rect(rows_view(m@), mat_w(rows_view(m@)), mat_h(rows_view(m@))),
        mat_w(rows_view(m@)) <= MAX_DIM,
        mat_h(rows_view(m@)) <= MAX_DIM,
        x <= MAX_DIM,
        y <= MAX_DIM,
        0 <= r <= 102,
    ensures
        res.0 == band_count(rows_view(m@), mat_w(rows_view(m@)), mat_h(rows_view(m@)), x as int, y as int, 0, r as int),
        res.1 == band_count(rows_view(m@), mat_w(rows_view(m@)), mat_h(rows_view(m@)), x as int, y as int, 1, r as int),
        res.2 == band_count(rows_view(m@), mat_w(rows_view(m@)), mat_h(rows_view(m@)), x as int, y as int, 2, r as int),
        res.3 == band_count(rows_view(m@), mat_w(rows_view(m@)), mat_h(rows_view(m@)), x as int, y as int, 3, r as int),
{
    let ghost g = rows_view(m@);
    let h = m.len();
    let w = if h > 0 { m[0].len() } else { 0 };
    assert(w == mat_w(g) && h == mat_h(g));

    let x_i = x as i64;
    let y_i = y as i64;
    let mut c0: i64 = 0;
    let mut c1: i64 = 0;
    let mut c2: i64 = 0;
    let mut c3: i64 = 0;

    let mut dy: i64 = -r;
    while dy <= r
        invariant
            -r <= dy <= r + 1,
            c0 == ocount(g, w as int, h as int, x as int, y as int, 0, r as int, (dy + r) as nat),
            c1 == ocount(g, w as int, h as int, x as int, y as int, 1, r as int, (dy + r) as nat),
            c2 == ocount(g, w as int, h as int, x as int, y as int, 2, r as int, (dy + r) as nat),
            c3 == ocount(g, w as int, h as int, x as int, y as int, 3, r as int, (dy + r) as nat),
        decreases r + 1 - dy,
    {
        let ghost n0 = (dy + r) as nat;
        let mut dx: i64 = -r;
        while dx <= r
            invariant
                -r <= dx <= r + 1,
                c0 == ocount(g, w as int, h as int, x as int, y as int, 0, r as int, n0) + orow(
                    g, w as int, h as int, x as int, y as int, 0, r as int, dy as int, (dx + r) as nat,
                ),
                c1 == ocount(g, w as int, h as int, x as int, y as int, 1, r as int, n0) + orow(
                    g, w as int, h as int, x as int, y as int, 1, r as int, dy as int, (dx + r) as nat,
                ),
                c2 == ocount(g, w as int, h as int, x as int, y as int, 2, r as int, n0) + orow(
                    g, w as int, h as int, x as int, y as int, 2, r as int, dy as int, (dx + r) as nat,
                ),
                c3 == ocount(g, w as int, h as int, x as int, y as int, 3, r as int, n0) + orow(
                    g, w as int, h as int, x as int, y as int, 3, r as int, dy as int, (dx + r) as nat,
                ),
            decreases r + 1 - dx,
        {
            proof {
                lemma_ocount_bounds(g, w as int, h as int, x as int, y as int, 0, r as int, n0);
                lemma_ocount_bounds(g, w as int, h as int, x as int, y as int, 1, r as int, n0);
                lemma_ocount_bounds(g, w as int, h as int, x as int, y as int, 2, r as int, n0);
                lemma_ocount_bounds(g, w as int, h as int, x as int, y as int, 3, r as int, n0);
                lemma_orow_bounds(g, w as int, h as int, x as int, y as int, 0, r as int, dy as int, (dx + r) as nat);
                lemma_orow_bounds(g, w as int, h as int, x as int, y as int, 1, r as int, dy as int, (dx + r) as nat);
                lemma_orow_bounds(g, w as int, h as int, x as int, y as int, 2, r as int, dy as int, (dx + r) as nat);
                lemma_orow_bounds(g, w as int, h as int, x as int, y as int, 3, r as int, dy as int, (dx + r) as nat);
                assert(n0 * (2 * r + 1) <= 205 * 205) by (nonlinear_arith)
                    requires
                        0 <= n0 as int <= 2 * r + 1,
                        0 <= r <= 102,
                ;
            }
            let px = x_i + dx;
            let py = y_i + dy;
            if px >= 0 && py >= 0 && (px as usize) < w && (py as usize) < h {
                assert(g[py as int].len() == w as int);
                assert(g[py as int] == m@[py as int]@);
                if let Some(o) = m[py as usize][px as usize] {
                    let d2 = 2u64 * (o.degrees as u64);
                    if d2 < 45 || d2 > 315 {
                        c0 = c0 + 1;
                    } else if 135 <= d2 && d2 <= 225 {
                        c1 = c1 + 1;
                    }
                    if 45 <= d2 && d2 <= 135 {
                        c2 = c2 + 1;
                    } else if 225 <= d2 && d2 <= 315 {
                        c3 = c3 + 1;
                    }
                }
            }
            dx = dx + 1;
        }
        dy = dy + 1;
    }
    (c0, c1, c2, c3)
}

/// V2 neuron that detects corners and junctions.
///
/// The geometry fields are fixed at construction; the activation is fully
/// recomputed by every [`V2CornerDetector::compute_response`] call.
#[derive(Debug, Clone, Copy)]
pub struct V2CornerDetector {
    /// Unique identifier.
    pub id: usize,
    /// Horizontal position in the visual field.
    pub x: usize,
    /// Vertical position in the visual field.
    pub y: usize,
    /// The junction geometry this detector scores.
    pub corner_type: CornerType,
    /// Radius of the scanned window.
    pub receptive_field_size: usize,
    /// Current activation, fixed point.
    pub activation: i64,
}

impl V2CornerDetector {
    /// The geometry of the detector is within the machine limits.
    pub open spec fn geom_wf(self) -> bool {
        &&& self.x <= MAX_DIM
        &&& self.y <= MAX_DIM
        &&& self.receptive_field_size <= 102
    }

    /// The activation holds a value the model can produce.
    pub open spec fn state_wf(self) -> bool {
        0 <= self.activation <= 100 * SCALE
    }

    /// The activation is exactly the score of this detector on map `m`.
    pub open spec fn responds_to(self, m: Seq<Seq<Option<Orientation>>>) -> bool {
        self.activation == corner_score_spec(
            self.corner_type, m, mat_w(m), mat_h(m), self.x as int, self.y as int,
            self.receptive_field_size as int,
        )
    }

    /// Creates a new corner detector.
    pub fn new(id: usize, x: usize, y: usize, corner_type: CornerType, rf_size: usize) -> (r:
        V2CornerDetector)
        ensures
            r == (V2CornerDetector {
                id,
                x,
                y,
                corner_type,
                receptive_field_size: rf_size,
                activation: 0i64,
            }),
            r.state_wf(),
    {
        V2CornerDetector { id, x, y, corner_type, receptive_field_size: rf_size, activation: 0 }
    }

    /// Computes the junction score against an orientation map.
    ///
    /// The window cells are counted into orientation bands; an L-junction
    /// scores twice the smaller of the horizontal and vertical counts, a
    /// T-junction 0.8 of that, an X-junction the same rule over the two
    /// diagonal bands, and a Y-junction 0.7 of the average of the L and X
    /// scores. Scores cap at 100 before discounting.
    pub fn compute_response(&mut self, orientation_map: &Vec<Vec<Option<Orientation>>>)
        requires
            old(self).geom_wf(),
            rect(
                rows_view(orientation_map@), mat_w(rows_view(orientation_map@)),
                mat_h(rows_view(orientation_map@)),
            ),
            mat_w(rows_view(orientation_map@)) <= MAX_DIM,
            mat_h(rows_view(orientation_map@)) <= MAX_DIM,
        ensures
            final(self).id == old(self).id,
            final(self).x == old(self).x,
            final(self).y == old(self).y,
            final(self).corner_type == old(self).corner_type,
            final(self).receptive_field_size == old(self).receptive_field_size,
            final(self).responds_to(rows_view(orientation_map@)),
            final(self).state_wf(),
    {
        let ghost m = rows_view(orientation_map@);
        let h = orientation_map.len();
        let w = if h > 0 { orientation_map[0].len() } else { 0 };
        assert(w == mat_w(m) && h == mat_h(m));
        let r = self.receptive_field_size as i64;

        if self.x >= w || self.y >= h {
            self.activation = 0;
            return ;
        }
        let (c0, c1, c2, c3) = band_counts(orientation_map, self.x, self.y, r);
        proof {
            lemma_ocount_bounds(m, w as int, h as int, self.x as int, self.y as int, 0, r as int, (2 * r + 1) as nat);
            lemma_ocount_bounds(m, w as int, h as int, self.x as int, self.y as int, 1, r as int, (2 * r + 1) as nat);
            lemma_ocount_bounds(m, w as int, h as int, self.x as int, self.y as int, 2, r as int, (2 * r + 1) as nat);
            lemma_ocount_bounds(m, w as int, h as int, self.x as int, self.y as int, 3, r as int, (2 * r + 1) as nat);
            assert(((2 * r + 1) as nat) * (2 * r + 1) <= 205 * 205) by (nonlinear_arith)
                requires
                    0 <= r <= 102,
            ;
        }
        let l: i64 = if c0 >= 1 && c1 >= 1 {
            let mn = if c0 <= c1 { c0 } else { c1 };
            let s = 2 * mn;
            (if s > 100 { 100 } else { s }) * SCALE
        } else {
            0
        };
        let xs: i64 = if c2 >= 1 && c3 >= 1 {
            let mn = if c2 <= c3 { c2 } else { c3 };
            let s = 2 * mn;
            (if s > 100 { 100 } else { s }) * SCALE
        } else {
            0
        };
        self.activation = match self.corner_type {
            CornerType::LJunction => l,
            CornerType::TJunction => l * 4 / 5,
            CornerType::XJunction => xs,
            CornerType::YJunction => ((l + xs) / 2) * 7 / 10,
        };
        proof {
            lemma_corner_score_bounds(
                self.corner_type, m, w as int, h as int, self.x as int, self.y as int, r as int,
            );
        }
    }

    /// Returns the current activation, fixed point.
    pub fn activation(&self) -> (r: i64)
        ensures
            r == self.activation,
    {
        self.activation
    }

    /// Returns the position.
    pub fn position(&self) -> (r: (usize, usize))
        ensures
            r == (self.x, self.y),
    {
        (self.x, self.y)
    }

    /// Returns the corner type.
    pub fn corner_type(&self) -> (r: CornerType)
        ensures
            r == self.corner_type,
    {
        self.corner_type
    }
}

/// The larger of two fixed-point values.
pub open spec fn imax(a: int, b: int) -> int {
    if a >= b {
        a
    } else {
        b
    }
}

/// The value dilation reads at offset `(dx, dy)` of `(x, y)`: the neighbor
/// when it lies on the grid, else the center value, which leaves the
/// maximum unchanged.
pub open spec fn dval(g: Seq<Seq<i64>>, w: int, h: int, x: int, y: int, dx: int, dy: int) -> int {
    if in_grid(w, h, x + dx, y + dy) {
        g[y + dy][x + dx] as int
    } else {
        g[y][x] as int
    }
}

/// One cell of the dilated edge map: the maximum of the 3x3 neighborhood.
pub open spec fn dil_cell(g: Seq<Seq<i64>>, w: int, h: int, x: int, y: int) -> int {
    imax(
        imax(
            imax(
                imax(
                    imax(
                        imax(
                            imax(
                                imax(dval(g, w, h, x, y, -1, -1), dval(g, w, h, x, y, 0, -1)),
                                dval(g, w, h, x, y, 1, -1),
                            ),
                            dval(g, w, h, x, y, -1, 0),
                        ),
                        dval(g, w, h, x, y, 0, 0),
                    ),
                    dval(g, w, h, x, y, 1, 0),
                ),
                dval(g, w, h, x, y, -1, 1),
            ),
            dval(g, w, h, x, y, 0, 1),
        ),
        dval(g, w, h, x, y, 1, 1),
    )
}

/// The dilated edge map: every cell replaced by the maximum of its 3x3
/// neighborhood, which bridges 1-pixel gaps between edge samples.
pub open spec fn dil_map(g: Seq<Seq<i64>>, w: int, h: int) -> Seq<Seq<i64>> {
    Seq::new(
        h as nat,
        |y: int| Seq::new(w as nat, |x: int| dil_cell(g, w, h, x, y) as i64),
    )
}

/// The 8-connected neighbor offsets `(dx, dy)` in the scan order of the
/// tracer: row by row, left to right, the center left out.
pub open spec fn off8(i: int) -> (int, int) {
    if i == 0 {
        (-1int, -1int)
    } else if i == 1 {
        (0int, -1int)
    } else if i == 2 {
        (1int, -1int)
    } else if i == 3 {
        (-1int, 0int)
    } else if i == 4 {
        (1int, 0int)
    } else if i == 5 {
        (-1int, 1int)
    } else if i == 6 {
        (0int, 1int)
    } else {
        (1int, 1int)
    }
}

/// Marks `(x, y)` visited.
pub open spec fn vis_set(vis: Seq<Seq<bool>>, x: int, y: int) -> Seq<Seq<bool>> {
    vis.update(y, vis[y].update(x, true))
}

/// The best step among the first `i` neighbor offsets of `(cx, cy)`: the
/// unvisited on-grid neighbor with the largest dilated value above the step
/// threshold; ties keep the earlier offset. Returns the pick and its value.
pub open spec fn bn(
    d: Seq<Seq<i64>>,
    vis: Seq<Seq<bool>>,
    w: int,
    h: int,
    cx: int,
    cy: int,
    i: nat,
) -> (Option<(usize, usize)>, int)
    decreases i,
{
    if i == 0 {
        (None::<(usize, usize)>, 0int)
    } else {
        let prev = bn(d, vis, w, h, cx, cy, (i - 1) as nat);
        let o = off8(i - 1);
        let nx = cx + o.0;
        let ny = cy + o.1;
        if in_grid(w, h, nx, ny) && !vis[ny][nx] && d[ny][nx] > STEP_THRESHOLD && d[ny][nx]
            > prev.1 {
            (Some((nx as usize, ny as usize)), d[ny][nx] as int)
        } else {
            prev
        }
    }
}

/// The pixels a trace appends after its current pixel `(cx, cy)`, and the
/// visited set it leaves behind: repeatedly step to the best neighbor, mark
/// it, and continue from it, for at most `fuel` steps.
pub open spec fn trace_rest(
    d: Seq<Seq<i64>>,
    vis: Seq<Seq<bool>>,
    w: int,
    h: int,
    cx: int,
    cy: int,
    fuel: nat,
) -> (Seq<(usize, usize)>, Seq<Seq<bool>>)
    decreases fuel,
{
    if fuel == 0 {
        (Seq::empty(), vis)
    } else {
        match bn(d, vis, w, h, cx, cy, 8).0 {
            None => (Seq::empty(), vis),
            Some(p) => {
                let v2 = vis_set(vis, p.0 as int, p.1 as int);
                let rec = trace_rest(d, v2, w, h, p.0 as int, p.1 as int, (fuel - 1) as nat);
                (seq![p] + rec.0, rec.1)
            },
        }
    }
}

/// Contours found in row `y` up to column `xn`, and the visited set left
/// behind: every unvisited cell whose dilated value exceeds the seed
/// threshold starts a trace; the path is kept when it reaches `ml` pixels.
pub open spec fn scan_row(
    d: Seq<Seq<i64>>,
    vis: Seq<Seq<bool>>,
    w: int,
    h: int,
    ml: int,
    y: int,
    xn: nat,
) -> (Seq<Seq<(usize, usize)>>, Seq<Seq<bool>>)
    decreases xn,
{
    if xn == 0 {
        (Seq::empty(), vis)
    } else {
        let pr = scan_row(d, vis, w, h, ml, y, (xn - 1) as nat);
        let x = xn - 1;
        if d[y][x] > SEED_THRESHOLD && !pr.1[y][x] {
            let v2 = vis_set(pr.1, x, y);
            let t = trace_rest(d, v2, w, h, x, y, 200);
            let path = seq![(x as usize, y as usize)] + t.0;
            if path.len() >= ml {
                (pr.0.push(path), t.1)
            } else {
                (pr.0, t.1)
            }
        } else {
            pr
        }
    }
}

/// Contours found in the first `yn` rows, row-major, and the visited set
/// left behind.
pub open spec fn scan_rows(
    d: Seq<Seq<i64>>,
    vis: Seq<Seq<bool>>,
    w: int,
    h: int,
    ml: int,
    yn: nat,
) -> (Seq<Seq<(usize, usize)>>, Seq<Seq<bool>>)
    decreases yn,
{
    if yn == 0 {
        (Seq::empty(), vis)
    } else {
        let pr = scan_rows(d, vis, w, h, ml, (yn - 1) as nat);
        let rr = scan_row(d, pr.1, w, h, ml, yn - 1, w as nat);
        (pr.0 + rr.0, rr.1)
    }
}

/// The all-unvisited set of a `w x h` frame.
pub open spec fn vis_empty(w: int, h: int) -> Seq<Seq<bool>> {
    Seq::new(h as nat, |y: int| Seq::new(w as nat, |x: int| false))
}

/// The contours the tracer extracts from edge map `em` with minimum kept
/// length `ml`: a row-major scan of the dilated map, each seed traced
/// greedily through unvisited pixels.
pub open spec fn contours_spec(em: Seq<Seq<i64>>, w: int, h: int, ml: int) -> Seq<
    Seq<(usize, usize)>,
> {
    scan_rows(dil_map(em, w, h), vis_empty(w, h), w, h, ml, h as nat).0
}

/// What a best-neighbor pick guarantees: on the grid, unvisited, above the
/// step threshold, and carrying its own dilated value.
pub proof fn lemma_bn_props(
    d: Seq<Seq<i64>>,
    vis: Seq<Seq<bool>>,
    w: int,
    h: int,
    cx: int,
    cy: int,
    i: nat,
)
    requires
        w <= usize::MAX,
        h <= usize::MAX,
    ensures
        bn(d, vis, w, h, cx, cy, i).1 >= 0,
        bn(d, vis, w, h, cx, cy, i).0 is None ==> bn(d, vis, w, h, cx, cy, i).1 == 0,
        bn(d, vis, w, h, cx, cy, i).0 matches Some(p) ==> {
            &&& in_grid(w, h, p.0 as int, p.1 as int)
            &&& !vis[p.1 as int][p.0 as int]
            &&& d[p.1 as int][p.0 as int] > STEP_THRESHOLD
            &&& bn(d, vis, w, h, cx, cy, i).1 == d[p.1 as int][p.0 as int]
        },
    decreases i,
{
    if i > 0 {
        lemma_bn_props(d, vis, w, h, cx, cy, (i - 1) as nat);
    }
}

/// Marking one on-grid cell visited keeps the visited set rectangular.
pub proof fn lemma_vis_set_shape(vis: Seq<Seq<bool>>, w: int, h: int, x: int, y: int)
    requires
        rect(vis, w, h),
        in_grid(w, h, x, y),
    ensures
        rect(vis_set(vis, x, y), w, h),
{
    let v2 = vis_set(vis, x, y);
    assert forall|yy: int| 0 <= yy < h implies (#[trigger] v2[yy]).len() == w by {
        if yy == y {
            assert(v2[yy] == vis[y].update(x, true));
        } else {
            assert(v2[yy] == vis[yy]);
        }
    }
}

/// Tracing keeps the visited set rectangular.
pub proof fn lemma_trace_shape(
    d: Seq<Seq<i64>>,
    vis: Seq<Seq<bool>>,
    w: int,
    h: int,
    cx: int,
    cy: int,
    fuel: nat,
)
    requires
        rect(vis, w, h),
        w <= usize::MAX,
        h <= usize::MAX,
    ensures
        rect(trace_rest(d, vis, w, h, cx, cy, fuel).1, w, h),
    decreases fuel,
{
    if fuel > 0 {
        lemma_bn_props(d, vis, w, h, cx, cy, 8);
        match bn(d, vis, w, h, cx, cy, 8).0 {
            None => {},
            Some(p) => {
                lemma_vis_set_shape(vis, w, h, p.0 as int, p.1 as int);
                lemma_trace_shape(
                    d, vis_set(vis, p.0 as int, p.1 as int), w, h, p.0 as int, p.1 as int,
                    (fuel - 1) as nat,
                );
            },
        }
    }
}

/// Scanning one row keeps the visited set rectangular.
pub proof fn lemma_scan_row_shape(
    d: Seq<Seq<i64>>,
    vis: Seq<Seq<bool>>,
    w: int,
    h: int,
    ml: int,
    y: int,
    xn: nat,
)
    requires
        rect(vis, w, h),
        0 <= y < h,
        xn <= w,
        w <= usize::MAX,
        h <= usize::MAX,
    ensures
        rect(scan_row(d, vis, w, h, ml, y, xn).1, w, h),
    decreases xn,
{
    if xn > 0 {
        lemma_scan_row_shape(d, vis, w, h, ml, y, (xn - 1) as nat);
        let pr = scan_row(d, vis, w, h, ml, y, (xn - 1) as nat);
        let x = xn - 1;
        if d[y][x] > SEED_THRESHOLD && !pr.1[y][x] {
            lemma_vis_set_shape(pr.1, w, h, x, y);
            lemma_trace_shape(d, vis_set(pr.1, x, y), w, h, x, y, 200);
        }
    }
}

/// Scanning rows keeps the visited set rectangular.
pub proof fn lemma_scan_rows_shape(
    d: Seq<Seq<i64>>,
    vis: Seq<Seq<bool>>,
    w: int,
    h: int,
    ml: int,
    yn: nat,
)
    requires
        rect(vis, w, h),
        yn <= h,
        0 <= w <= usize::MAX,
        h <= usize::MAX,
    ensures
        rect(scan_rows(d, vis, w, h, ml, yn).1, w, h),
    decreases yn,
{
    if yn > 0 {
        lemma_scan_rows_shape(d, vis, w, h, ml, (yn - 1) as nat);
        lemma_scan_row_shape(
            d, scan_rows(d, vis, w, h, ml, (yn - 1) as nat).1, w, h, ml, yn - 1, w as nat,
        );
    }
}

/// A row scan keeps at most one contour per column.
pub proof fn lemma_scan_row_count(
    d: Seq<Seq<i64>>,
    vis: Seq<Seq<bool>>,
    w: int,
    h: int,
    ml: int,
    y: int,
    xn: nat,
)
    ensures
        scan_row(d, vis, w, h, ml, y, xn).0.len() <= xn,
    decreases xn,
{
    if xn > 0 {
        lemma_scan_row_count(d, vis, w, h, ml, y, (xn - 1) as nat);
    }
}

/// The scan keeps at most one contour per cell of the frame.
pub proof fn lemma_scan_rows_count(
    d: Seq<Seq<i64>>,
    vis: Seq<Seq<bool>>,
    w: int,
    h: int,
    ml: int,
    yn: nat,
)
    requires
        w >= 0,
    ensures
        scan_rows(d, vis, w, h, ml, yn).0.len() <= yn * w,
    decreases yn,
{
    if yn > 0 {
        lemma_scan_rows_count(d, vis, w, h, ml, (yn - 1) as nat);
        lemma_scan_row_count(
            d, scan_rows(d, vis, w, h, ml, (yn - 1) as nat).1, w, h, ml, yn - 1, w as nat,
        );
        assert((yn - 1) * w + w == yn * w) by (nonlinear_arith);
    }
}

/// A trace appends at most `fuel` pixels.
pub proof fn lemma_trace_len(
    d: Seq<Seq<i64>>,
    vis: Seq<Seq<bool>>,
    w: int,
    h: int,
    cx: int,
    cy: int,
    fuel: nat,
)
    ensures
        trace_rest(d, vis, w, h, cx, cy, fuel).0.len() <= fuel,
    decreases fuel,
{
    if fuel > 0 {
        match bn(d, vis, w, h, cx, cy, 8).0 {
            None => {},
            Some(p) => {
                lemma_trace_len(
                    d, vis_set(vis, p.0 as int, p.1 as int), w, h, p.0 as int, p.1 as int,
                    (fuel - 1) as nat,
                );
            },
        }
    }
}

/// Every contour a row scan keeps has between `ml` and 201 pixels.
pub proof fn lemma_scan_row_lens(
    d: Seq<Seq<i64>>,
    vis: Seq<Seq<bool>>,
    w: int,
    h: int,
    ml: int,
    y: int,
    xn: nat,
)
    ensures
        forall|i: int|
            0 <= i < scan_row(d, vis, w, h, ml, y, xn).0.len() ==> ml <= (
            #[trigger] scan_row(d, vis, w, h, ml, y, xn).0[i]).len() <= 201,
    decreases xn,
{
    if xn > 0 {
        lemma_scan_row_lens(d, vis, w, h, ml, y, (xn - 1) as nat);
        let pr = scan_row(d, vis, w, h, ml, y, (xn - 1) as nat);
        let x = xn - 1;
        if d[y][x] > SEED_THRESHOLD && !pr.1[y][x] {
            let v2 = vis_set(pr.1, x, y);
            lemma_trace_len(d, v2, w, h, x, y, 200);
        }
    }
}

/// Every contour the scan keeps has between `ml` and 201 pixels.
pub proof fn lemma_scan_rows_lens(
    d: Seq<Seq<i64>>,
    vis: Seq<Seq<bool>>,
    w: int,
    h: int,
    ml: int,
    yn: nat,
)
    ensures
        forall|i: int|
            0 <= i < scan_rows(d, vis, w, h, ml, yn).0.len() ==> ml <= (
            #[trigger] scan_rows(d, vis, w, h, ml, yn).0[i]).len() <= 201,
    decreases yn,
{
    if yn > 0 {
        lemma_scan_rows_lens(d, vis, w, h, ml, (yn - 1) as nat);
        let pr = scan_rows(d, vis, w, h, ml, (yn - 1) as nat);
        lemma_scan_row_lens(d, pr.1, w, h, ml, yn - 1, w as nat);
        assert forall|i: int|
            0 <= i < scan_rows(d, vis, w, h, ml, yn).0.len() implies ml <= (
            #[trigger] scan_rows(d, vis, w, h, ml, yn).0[i]).len() <= 201 by {
            let rr = scan_row(d, pr.1, w, h, ml, yn - 1, w as nat);
            if i < pr.0.len() {
                assert(scan_rows(d, vis, w, h, ml, yn).0[i] == pr.0[i]);
            } else {
                assert(scan_rows(d, vis, w, h, ml, yn).0[i] == rr.0[i - pr.0.len()]);
            }
        }
    }
}

/// What one greedy trace claims: it only marks cells, every pixel it
/// appends was unclaimed when the trace started and is claimed when it
/// ends, and it appends no pixel twice.
pub proof fn lemma_trace_claims(
    d: Seq<Seq<i64>>,
    vis: Seq<Seq<bool>>,
    w: int,
    h: int,
    cx: int,
    cy: int,
    fuel: nat,
)
    requires
        rect(vis, w, h),
        w <= usize::MAX,
        h <= usize::MAX,
    ensures
        ({
            let t = trace_rest(d, vis, w, h, cx, cy, fuel);
            &&& forall|px: int, py: int|
                in_grid(w, h, px, py) && vis[py][px] ==> #[trigger] t.1[py][px]
            &&& forall|i: int|
                0 <= i < t.0.len() ==> {
                    let p = #[trigger] t.0[i];
                    &&& in_grid(w, h, p.0 as int, p.1 as int)
                    &&& !vis[p.1 as int][p.0 as int]
                    &&& t.1[p.1 as int][p.0 as int]
                }
            &&& forall|i: int, j: int| 0 <= i < j < t.0.len() ==> t.0[i] != t.0[j]
        }),
    decreases fuel,
{
    let t = trace_rest(d, vis, w, h, cx, cy, fuel);
    if fuel > 0 {
        lemma_bn_props(d, vis, w, h, cx, cy, 8);
        match bn(d, vis, w, h, cx, cy, 8).0 {
            None => {},
            Some(p) => {
                let v2 = vis_set(vis, p.0 as int, p.1 as int);
                lemma_vis_set_shape(vis, w, h, p.0 as int, p.1 as int);
                lemma_trace_claims(d, v2, w, h, p.0 as int, p.1 as int, (fuel - 1) as nat);
                let rec = trace_rest(d, v2, w, h, p.0 as int, p.1 as int, (fuel - 1) as nat);
                assert(v2[p.1 as int][p.0 as int]);
                assert(t.1[p.1 as int][p.0 as int]);
                assert forall|i: int| 0 <= i < t.0.len() implies {
                    let q = #[trigger] t.0[i];
                    &&& in_grid(w, h, q.0 as int, q.1 as int)
                    &&& !vis[q.1 as int][q.0 as int]
                    &&& t.1[q.1 as int][q.0 as int]
                } by {
                    if i == 0 {
                        assert(t.0[0] == p);
                    } else {
                        assert(t.0[i] == rec.0[i - 1]);
                        let q = rec.0[i - 1];
                        assert(!v2[q.1 as int][q.0 as int]);
                        if q.1 as int == p.1 as int {
                            assert(v2[p.1 as int] == vis[p.1 as int].update(p.0 as int, true));
                        }
                    }
                }
                assert forall|i: int, j: int| 0 <= i < j < t.0.len() implies t.0[i] != t.0[j] by {
                    if i == 0 {
                        let q = rec.0[j - 1];
                        assert(!v2[q.1 as int][q.0 as int]);
                        if q == p {
                            assert(v2[p.1 as int][p.0 as int]);
                        }
                    } else {
                        assert(t.0[i] == rec.0[i - 1] && t.0[j] == rec.0[j - 1]);
                    }
                }
            },
        }
    }
}

/// What one row of the scan claims: it only marks cells, every kept
/// contour's pixels were unclaimed when the row started and are claimed
/// when it ends, no contour repeats a pixel, and no two contours share one.
pub proof fn lemma_scan_row_claims(
    d: Seq<Seq<i64>>,
    vis: Seq<Seq<bool>>,
    w: int,
    h: int,
    ml: int,
    y: int,
    xn: nat,
)
    requires
        rect(vis, w, h),
        0 <= y < h,
        xn <= w,
        w <= usize::MAX,
        h <= usize::MAX,
    ensures
        ({
            let s = scan_row(d, vis, w, h, ml, y, xn);
            &&& forall|px: int, py: int|
                in_grid(w, h, px, py) && vis[py][px] ==> #[trigger] s.1[py][px]
            &&& forall|i: int, p: int|
                0 <= i < s.0.len() && 0 <= p < s.0[i].len() ==> {
                    let q = #[trigger] s.0[i][p];
                    &&& in_grid(w, h, q.0 as int, q.1 as int)
                    &&& !vis[q.1 as int][q.0 as int]
                    &&& s.1[q.1 as int][q.0 as int]
                }
            &&& forall|i: int, p: int, q: int|
                0 <= i < s.0.len() && 0 <= p < q < s.0[i].len() ==> s.0[i][p] != s.0[i][q]
            &&& forall|i: int, j: int, p: int, q: int|
                0 <= i < j < s.0.len() && 0 <= p < s.0[i].len() && 0 <= q < s.0[j].len()
                    ==> s.0[i][p] != s.0[j][q]
        }),
    decreases xn,
{
    if xn > 0 {
        lemma_scan_row_claims(d, vis, w, h, ml, y, (xn - 1) as nat);
        lemma_scan_row_shape(d, vis, w, h, ml, y, (xn - 1) as nat);
        let pr = scan_row(d, vis, w, h, ml, y, (xn - 1) as nat);
        let x = xn - 1;
        let s = scan_row(d, vis, w, h, ml, y, xn);
        if d[y][x] > SEED_THRESHOLD && !pr.1[y][x] {
            let v2 = vis_set(pr.1, x, y);
            lemma_vis_set_shape(pr.1, w, h, x, y);
            lemma_trace_claims(d, v2, w, h, x, y, 200);
            let t = trace_rest(d, v2, w, h, x, y, 200);
            let path = seq![(x as usize, y as usize)] + t.0;
            // Every pixel of the new path is unclaimed in `pr.1`, claimed
            // in `t.1`, and the path repeats none.
            assert forall|p: int| 0 <= p < path.len() implies {
                let q = #[trigger] path[p];
                &&& in_grid(w, h, q.0 as int, q.1 as int)
                &&& !pr.1[q.1 as int][q.0 as int]
                &&& t.1[q.1 as int][q.0 as int]
            } by {
                if p == 0 {
                    assert(path[0] == (x as usize, y as usize));
                    assert(v2[y][x]);
                } else {
                    assert(path[p] == t.0[p - 1]);
                    let q = t.0[p - 1];
                    assert(!v2[q.1 as int][q.0 as int]);
                    if q.1 as int == y {
                        assert(v2[y] == pr.1[y].update(x, true));
                    }
                }
            }
            assert forall|p: int, q: int| 0 <= p < q < path.len() implies path[p] != path[q] by {
                if p == 0 {
                    let u = t.0[q - 1];
                    assert(!v2[u.1 as int][u.0 as int]);
                    if u == (x as usize, y as usize) {
                        assert(v2[y][x]);
                    }
                } else {
                    assert(path[p] == t.0[p - 1] && path[q] == t.0[q - 1]);
                }
            }
            if path.len() >= ml {
                assert(s.0 == pr.0.push(path));
                assert forall|i: int, p: int|
                    0 <= i < s.0.len() && 0 <= p < s.0[i].len() implies {
                    let q = #[trigger] s.0[i][p];
                    &&& in_grid(w, h, q.0 as int, q.1 as int)
                    &&& !vis[q.1 as int][q.0 as int]
                    &&& s.1[q.1 as int][q.0 as int]
                } by {
                    if i < pr.0.len() {
                        assert(s.0[i] == pr.0[i]);
                        let q = pr.0[i][p];
                        assert(pr.1[q.1 as int][q.0 as int]);
                        assert(v2[q.1 as int][q.0 as int]) by {
                            if q.1 as int == y {
                                assert(v2[y] == pr.1[y].update(x, true));
                            }
                        }
                    } else {
                        assert(s.0[i] == path);
                        let q = path[p];
                        assert(!pr.1[q.1 as int][q.0 as int]);
                    }
                }
                assert forall|i: int, j: int, p: int, q: int|
                    0 <= i < j < s.0.len() && 0 <= p < s.0[i].len() && 0 <= q
                    < s.0[j].len() implies s.0[i][p] != s.0[j][q] by {
                    if j < pr.0.len() {
                        assert(s.0[i] == pr.0[i] && s.0[j] == pr.0[j]);
                    } else {
                        assert(s.0[i] == pr.0[i] && s.0[j] == path);
                        let u = pr.0[i][p];
                        let v = path[q];
                        assert(pr.1[u.1 as int][u.0 as int]);
                        assert(!pr.1[v.1 as int][v.0 as int]);
                    }
                }
                assert forall|i: int, p: int, q: int|
                    0 <= i < s.0.len() && 0 <= p < q < s.0[i].len() implies s.0[i][p]
                    != s.0[i][q] by {
                    if i < pr.0.len() {
                        assert(s.0[i] == pr.0[i]);
                    } else {
                        assert(s.0[i] == path);
                    }
                }
            } else {
                assert forall|i: int, p: int|
                    0 <= i < s.0.len() && 0 <= p < s.0[i].len() implies {
                    let q = #[trigger] s.0[i][p];
                    &&& in_grid(w, h, q.0 as int, q.1 as int)
                    &&& !vis[q.1 as int][q.0 as int]
                    &&& s.1[q.1 as int][q.0 as int]
                } by {
                    assert(s.0[i] == pr.0[i]);
                    let q = pr.0[i][p];
                    assert(pr.1[q.1 as int][q.0 as int]);
                    assert(v2[q.1 as int][q.0 as int]) by {
                        if q.1 as int == y {
                            assert(v2[y] == pr.1[y].update(x, true));
                        }
                    }
                }
            }
        }
    }
}

/// What the whole scan claims: every kept contour's pixels are claimed
/// when it ends, no contour repeats a pixel, and no two contours share one.
pub proof fn lemma_scan_rows_claims(
    d: Seq<Seq<i64>>,
    vis: Seq<Seq<bool>>,
    w: int,
    h: int,
    ml: int,
    yn: nat,
)
    requires
        rect(vis, w, h),
        yn <= h,
        0 <= w <= usize::MAX,
        h <= usize::MAX,
    ensures
        ({
            let s = scan_rows(d, vis, w, h, ml, yn);
            &&& forall|px: int, py: int|
                in_grid(w, h, px, py) && vis[py][px] ==> #[trigger] s.1[py][px]
            &&& forall|i: int, p: int|
                0 <= i < s.0.len() && 0 <= p < s.0[i].len() ==> {
                    let q = #[trigger] s.0[i][p];
                    &&& in_grid(w, h, q.0 as int, q.1 as int)
                    &&& !vis[q.1 as int][q.0 as int]
                    &&& s.1[q.1 as int][q.0 as int]
                }
            &&& forall|i: int, p: int, q: int|
                0 <= i < s.0.len() && 0 <= p < q < s.0[i].len() ==> s.0[i][p] != s.0[i][q]
            &&& forall|i: int, j: int, p: int, q: int|
                0 <= i < j < s.0.len() && 0 <= p < s.0[i].len() && 0 <= q < s.0[j].len()
                    ==> s.0[i][p] != s.0[j][q]
        }),
    decreases yn,
{
    if yn > 0 {
        lemma_scan_rows_claims(d, vis, w, h, ml, (yn - 1) as nat);
        lemma_scan_rows_shape(d, vis, w, h, ml, (yn - 1) as nat);
        let pr = scan_rows(d, vis, w, h, ml, (yn - 1) as nat);
        lemma_scan_row_claims(d, pr.1, w, h, ml, yn - 1, w as nat);
        let rr = scan_row(d, pr.1, w, h, ml, yn - 1, w as nat);
        let s = scan_rows(d, vis, w, h, ml, yn);
        assert forall|i: int, p: int| 0 <= i < s.0.len() && 0 <= p < s.0[i].len() implies {
            let q = #[trigger] s.0[i][p];
            &&& in_grid(w, h, q.0 as int, q.1 as int)
            &&& !vis[q.1 as int][q.0 as int]
            &&& s.1[q.1 as int][q.0 as int]
        } by {
            if i < pr.0.len() {
                assert(s.0[i] == pr.0[i]);
                let q = pr.0[i][p];
                assert(pr.1[q.1 as int][q.0 as int]);
            } else {
                assert(s.0[i] == rr.0[i - pr.0.len()]);
            }
        }
        assert forall|i: int, p: int, q: int|
            0 <= i < s.0.len() && 0 <= p < q < s.0[i].len() implies s.0[i][p] != s.0[i][q] by {
            if i < pr.0.len() {
                assert(s.0[i] == pr.0[i]);
            } else {
                assert(s.0[i] == rr.0[i - pr.0.len()]);
            }
        }
        assert forall|i: int, j: int, p: int, q: int|
            0 <= i < j < s.0.len() && 0 <= p < s.0[i].len() && 0 <= q < s.0[j].len() implies s.0[i][p]
            != s.0[j][q] by {
            if j < pr.0.len() {
                assert(s.0[i] == pr.0[i] && s.0[j] == pr.0[j]);
            } else if i >= pr.0.len() {
                assert(s.0[i] == rr.0[i - pr.0.len()] && s.0[j] == rr.0[j - pr.0.len()]);
            } else {
                assert(s.0[i] == pr.0[i] && s.0[j] == rr.0[j - pr.0.len()]);
                let u = pr.0[i][p];
                let v = rr.0[j - pr.0.len()][q];
                assert(pr.1[u.1 as int][u.0 as int]);
                assert(!pr.1[v.1 as int][v.0 as int]);
            }
        }
    }
}

/// The contour tracer's guarantees on any edge map: every kept contour has
/// between the configured minimum and 201 pixels (the 200-step cap), all
/// pixels lie on the frame, no contour repeats a pixel, and no pixel is
/// claimed by two contours.
pub proof fn lemma_contours_claims(em: Seq<Seq<i64>>, w: int, h: int, ml: int)
    requires
        0 <= w <= MAX_DIM,
        0 <= h <= MAX_DIM,
    ensures
        ({
            let cs = contours_spec(em, w, h, ml);
            &&& forall|i: int| 0 <= i < cs.len() ==> ml <= (#[trigger] cs[i]).len() <= 201
            &&& forall|i: int, p: int|
                0 <= i < cs.len() && 0 <= p < cs[i].len() ==> in_grid(
                    w, h, (#[trigger] cs[i][p]).0 as int, cs[i][p].1 as int,
                )
            &&& forall|i: int, p: int, q: int|
                0 <= i < cs.len() && 0 <= p < q < cs[i].len() ==> cs[i][p] != cs[i][q]
            &&& forall|i: int, j: int, p: int, q: int|
                0 <= i < j < cs.len() && 0 <= p < cs[i].len() && 0 <= q < cs[j].len() ==> cs[i][p]
                    != cs[j][q]
        }),
{
    let d = dil_map(em, w, h);
    let v0 = vis_empty(w, h);
    assert(rect(v0, w, h));
    lemma_scan_rows_lens(d, v0, w, h, ml, h as nat);
    lemma_scan_rows_claims(d, v0, w, h, ml, h as nat);
}

/// Marks one cell of a visited set, keeping its rectangular shape.
fn mark_visited(visited: &mut Vec<Vec<bool>>, x: usize, y: usize)
    requires
        (y as int) < old(visited)@.len(),
        (x as int) < old(visited)@[y as int]@.len(),
    ensures
        rows_view(final(visited)@) == vis_set(rows_view(old(visited)@), x as int, y as int),
        final(visited)@.len() == old(visited)@.len(),
        forall|i: int|
            0 <= i < final(visited)@.len() ==> (#[trigger] final(visited)@[i]@).len()
                == old(visited)@[i]@.len(),
{
    let ghost oldv = rows_view(visited@);
    visited[y][x] = true;
    proof {
        assert forall|i: int| 0 <= i < rows_view(visited@).len() implies rows_view(visited@)[i]
            =~= vis_set(oldv, x as int, y as int)[i] by {
            if i == y as int {
                assert(visited@[i]@ =~= oldv[i].update(x as int, true));
            }
        }
        assert(rows_view(visited@) =~~= vis_set(oldv, x as int, y as int));
    }
}

/// V2 contour detector: follows continuous edges through the edge map.
#[derive(Debug, Clone, Copy)]
pub struct V2ContourDetector {
    /// Unique identifier.
    pub id: usize,
    /// Minimum number of pixels a traced path needs to be kept.
    pub path_length: usize,
    /// Curvature tolerance, in tenths; held as configuration.
    pub curvature_threshold_tenths: usize,
    /// Current activation, fixed point: 10 per extracted contour.
    pub activation: i64,
}

impl V2ContourDetector {
    /// Creates a new contour detector. The curvature threshold is given in
    /// tenths.
    pub fn new(id: usize, path_length: usize, curvature_threshold_tenths: usize) -> (r:
        V2ContourDetector)
        ensures
            r == (V2ContourDetector {
                id,
                path_length,
                curvature_threshold_tenths,
                activation: 0i64,
            }),
    {
        V2ContourDetector { id, path_length, curvature_threshold_tenths, activation: 0 }
    }

    /// Returns the current activation, fixed point.
    pub fn activation(&self) -> (r: i64)
        ensures
            r == self.activation,
    {
        self.activation
    }

    /// Builds the dilated copy of an edge map: every cell replaced by the
    /// maximum of its 3x3 neighborhood, bridging 1-pixel gaps.
    #[verifier::loop_isolation(false)]
    fn dilate_edge_map(&self, edge_map: &Vec<Vec<i64>>) -> (r: Vec<Vec<i64>>)
        requires
            grid_wf(
                rows_view(edge_map@), gw(rows_view(edge_map@)), gh(rows_view(edge_map@)),
                EDGE_MAX as int,
            ),
            gw(rows_view(edge_map@)) <= MAX_DIM,
            gh(rows_view(edge_map@)) <= MAX_DIM,
        ensures
            rows_view(r@) == dil_map(
                rows_view(edge_map@), gw(rows_view(edge_map@)), gh(rows_view(edge_map@)),
            ),
            grid_wf(
                rows_view(r@), gw(rows_view(edge_map@)), gh(rows_view(edge_map@)), EDGE_MAX as int,
            ),
    {
        let ghost g = rows_view(edge_map@);
        let h = edge_map.len();
        let w = if h > 0 { edge_map[0].len() } else { 0 };
        assert(w == gw(g) && h == gh(g));
        let ghost m = dil_map(g, w as int, h as int);

        let mut rows: Vec<Vec<i64>> = Vec::new();
        let mut y: usize = 0;
        while y < h
            invariant
                y <= h,
                rows@.len() == y,
                forall|y2: int| 0 <= y2 < y ==> #[trigger] rows@[y2]@ == m[y2],
            decreases h - y,
        {
            let mut row: Vec<i64> = Vec::new();
            let mut x: usize = 0;
            while x < w
                invariant
                    x <= w,
                    row@.len() == x,
                    forall|x2: int| 0 <= x2 < x ==> #[trigger] row@[x2] == m[y as int][x2],
                decreases w - x,
            {
                let ghost xi = x as int;
                let ghost yi = y as int;
                proof {
                    assert(g[yi].len() == w as int);
                    assert(g[yi] == edge_map@[yi]@);
                }
                let center = edge_map[y][x];
                // Mirror the specification's fold over the nine neighbors.
                let v0 = self.dval_at(edge_map, x, y, -1, -1, center);
                let v1 = self.dval_at(edge_map, x, y, 0, -1, center);
                let v2 = self.dval_at(edge_map, x, y, 1, -1, center);
                let v3 = self.dval_at(edge_map, x, y, -1, 0, center);
                let v4 = self.dval_at(edge_map, x, y, 0, 0, center);
                let v5 = self.dval_at(edge_map, x, y, 1, 0, center);
                let v6 = self.dval_at(edge_map, x, y, -1, 1, center);
                let v7 = self.dval_at(edge_map, x, y, 0, 1, center);
                let v8 = self.dval_at(edge_map, x, y, 1, 1, center);
                let mut acc = v0;
                if v1 > acc { acc = v1; }
                if v2 > acc { acc = v2; }
                if v3 > acc { acc = v3; }
                if v4 > acc { acc = v4; }
                if v5 > acc { acc = v5; }
                if v6 > acc { acc = v6; }
                if v7 > acc { acc = v7; }
                if v8 > acc { acc = v8; }
                assert(acc as int == dil_cell(g, w as int, h as int, xi, yi));
                row.push(acc);
                x = x + 1;
            }
            proof {
                assert(row@ =~= m[y as int]);
            }
            rows.push(row);
            y = y + 1;
        }
        proof {
            assert(rows_view(rows@) =~= m);
            assert forall|yy: int, xx: int| in_grid(w as int, h as int, xx, yy) implies 0
                <= #[trigger] m[yy][xx] <= EDGE_MAX by {
                assert(m[yy][xx] as int == dil_cell(g, w as int, h as int, xx, yy));
            }
        }
        rows
    }

    /// Reads the dilation input at offset `(dx, dy)` of `(x, y)`, falling
    /// back to the center value off the grid.
    fn dval_at(
        &self,
        edge_map: &Vec<Vec<i64>>,
        x: usize,
        y: usize,
        dx: i64,
        dy: i64,
        center: i64,
    ) -> (r: i64)
        requires
            grid_wf(
                rows_view(edge_map@), gw(rows_view(edge_map@)), gh(rows_view(edge_map@)),
                EDGE_MAX as int,
            ),
            in_grid(gw(rows_view(edge_map@)), gh(rows_view(edge_map@)), x as int, y as int),
            x <= MAX_DIM,
            y <= MAX_DIM,
            -1 <= dx <= 1,
            -1 <= dy <= 1,
            center == rows_view(edge_map@)[y as int][x as int],
        ensures
            r as int == dval(
                rows_view(edge_map@), gw(rows_view(edge_map@)), gh(rows_view(edge_map@)),
                x as int, y as int, dx as int, dy as int,
            ),
    {
        let ghost g = rows_view(edge_map@);
        let h = edge_map.len();
        let w = if h > 0 { edge_map[0].len() } else { 0 };
        assert(w == gw(g) && h == gh(g));
        let px = x as i64 + dx;
        let py = y as i64 + dy;
        if px >= 0 && py >= 0 && (px as usize) < w && (py as usize) < h {
            assert(g[py as int].len() == w as int);
            edge_map[py as usize][px as usize]
        } else {
            center
        }
    }

    /// Detects contours: scans the dilated map row-major, and from every
    /// unvisited seed above the seed threshold greedily walks to the
    /// unvisited neighbor with the largest dilated value above the step
    /// threshold, claiming every pixel for at most one contour and stopping
    /// after 200 steps. Paths shorter than the configured minimum are
    /// dropped; the activation records 10 per kept contour.
    #[verifier::loop_isolation(false)]
    #[verifier::rlimit(80)]
    pub fn detect_contours(&mut self, edge_map: &Vec<Vec<i64>>) -> (r: Vec<Vec<(usize, usize)>>)
        requires
            grid_wf(
                rows_view(edge_map@), gw(rows_view(edge_map@)), gh(rows_view(edge_map@)),
                EDGE_MAX as int,
            ),
            gw(rows_view(edge_map@)) <= MAX_DIM,
            gh(rows_view(edge_map@)) <= MAX_DIM,
        ensures
            rows_view(r@) == contours_spec(
                rows_view(edge_map@), gw(rows_view(edge_map@)), gh(rows_view(edge_map@)),
                old(self).path_length as int,
            ),
            final(self).id == old(self).id,
            final(self).path_length == old(self).path_length,
            final(self).curvature_threshold_tenths == old(self).curvature_threshold_tenths,
            final(self).activation == r@.len() * 10 * SCALE,
    {
        let ghost g = rows_view(edge_map@);
        let h = edge_map.len();
        let w = if h > 0 { edge_map[0].len() } else { 0 };
        assert(w == gw(g) && h == gh(g));
        let ml = self.path_length;

        let dilated = self.dilate_edge_map(edge_map);
        let ghost dv = rows_view(dilated@);

        let mut visited: Vec<Vec<bool>> = Vec::new();
        let mut yy: usize = 0;
        while yy < h
            invariant
                yy <= h,
                visited@.len() == yy,
                forall|i: int|
                    0 <= i < yy ==> #[trigger] visited@[i]@ =~= Seq::new(
                        w as nat,
                        |x: int| false,
                    ),
            decreases h - yy,
        {
            let mut vrow: Vec<bool> = Vec::new();
            let mut xx: usize = 0;
            while xx < w
                invariant
                    xx <= w,
                    vrow@.len() == xx,
                    forall|i: int| 0 <= i < xx ==> !(#[trigger] vrow@[i]),
                decreases w - xx,
            {
                vrow.push(false);
                xx = xx + 1;
            }
            proof {
                assert(vrow@ =~= Seq::new(w as nat, |x: int| false));
            }
            visited.push(vrow);
            yy = yy + 1;
        }
        proof {
            assert(rows_view(visited@) =~~= vis_empty(w as int, h as int));
        }

        let mut contours: Vec<Vec<(usize, usize)>> = Vec::new();
        let ghost vis0 = vis_empty(w as int, h as int);

        let mut y: usize = 0;
        while y < h
            invariant
                y <= h,
                rows_view(contours@) == scan_rows(
                    dv, vis0, w as int, h as int, ml as int, y as nat,
                ).0,
                rows_view(visited@) == scan_rows(
                    dv, vis0, w as int, h as int, ml as int, y as nat,
                ).1,
                rect(rows_view(visited@), w as int, h as int),
            decreases h - y,
        {
            let ghost row_base_vis = rows_view(visited@);
            let ghost row_base_cs = rows_view(contours@);
            let mut x: usize = 0;
            while x < w
                invariant
                    x <= w,
                    rows_view(contours@) == row_base_cs + scan_row(
                        dv, row_base_vis, w as int, h as int, ml as int, y as int, x as nat,
                    ).0,
                    rows_view(visited@) == scan_row(
                        dv, row_base_vis, w as int, h as int, ml as int, y as int, x as nat,
                    ).1,
                    rect(rows_view(visited@), w as int, h as int),
                decreases w - x,
            {
                let ghost pre_vis = rows_view(visited@);
                let ghost pre_cs = rows_view(contours@);
                proof {
                    assert(dv[y as int].len() == w as int);
                    assert(dv[y as int] == dilated@[y as int]@);
                    assert(pre_vis[y as int].len() == w as int);
                    assert(pre_vis[y as int] == visited@[y as int]@);
                }
                let seed = dilated[y][x];
                let seen = visited[y][x];
                if seed > SEED_THRESHOLD && !seen {
                    mark_visited(&mut visited, x, y);
                    proof {
                        lemma_vis_set_shape(pre_vis, w as int, h as int, x as int, y as int);
                    }
                    let ghost seeded = rows_view(visited@);
                    let ghost full = trace_rest(
                        dv, seeded, w as int, h as int, x as int, y as int, 200,
                    );
                    let mut path: Vec<(usize, usize)> = Vec::new();
                    path.push((x, y));
                    let mut cx = x;
                    let mut cy = y;
                    let mut steps: usize = 0;
                    let mut done = false;
                    while !done && steps < 200
                        invariant
                            steps <= 200,
                            in_grid(w as int, h as int, cx as int, cy as int),
                            rect(rows_view(visited@), w as int, h as int),
                            path@.len() >= 1,
                            path@[0] == (x, y),
                            !done ==> full.0 == path@.skip(1) + trace_rest(
                                dv, rows_view(visited@), w as int, h as int, cx as int, cy as int,
                                (200 - steps) as nat,
                            ).0 && full.1 == trace_rest(
                                dv, rows_view(visited@), w as int, h as int, cx as int, cy as int,
                                (200 - steps) as nat,
                            ).1,
                            done ==> full.0 == path@.skip(1) && full.1 == rows_view(visited@),
                        decreases 200 - steps,
                    {
                        let ghost loop_vis = rows_view(visited@);
                        let ghost fuel = (200 - steps) as nat;
                        let mut best: Option<(usize, usize)> = None;
                        let mut best_val: i64 = 0;
                        let mut oi: usize = 0;
                        while oi < 8
                            invariant
                                oi <= 8,
                                in_grid(w as int, h as int, cx as int, cy as int),
                                rect(rows_view(visited@), w as int, h as int),
                                rows_view(visited@) == loop_vis,
                                (best, best_val as int) == bn(
                                    dv, loop_vis, w as int, h as int, cx as int, cy as int,
                                    oi as nat,
                                ),
                            decreases 8 - oi,
                        {
                            let (dx, dy): (i64, i64) = if oi == 0 {
                                (-1, -1)
                            } else if oi == 1 {
                                (0, -1)
                            } else if oi == 2 {
                                (1, -1)
                            } else if oi == 3 {
                                (-1, 0)
                            } else if oi == 4 {
                                (1, 0)
                            } else if oi == 5 {
                                (-1, 1)
                            } else if oi == 6 {
                                (0, 1)
                            } else {
                                (1, 1)
                            };
                            assert((dx as int, dy as int) == off8(oi as int));
                            let nx = cx as i64 + dx;
                            let ny = cy as i64 + dy;
                            if nx >= 0 && ny >= 0 && (nx as usize) < w && (ny as usize) < h {
                                assert(rows_view(visited@)[ny as int].len() == w as int);
                                assert(dv[ny as int].len() == w as int);
                                let nxu = nx as usize;
                                let nyu = ny as usize;
                                if !visited[nyu][nxu] && dilated[nyu][nxu] > STEP_THRESHOLD
                                    && dilated[nyu][nxu] > best_val {
                                    best = Some((nxu, nyu));
                                    best_val = dilated[nyu][nxu];
                                }
                            }
                            oi = oi + 1;
                        }
                        if let Some((nx2, ny2)) = best {
                            proof {
                                lemma_bn_props(
                                    dv, loop_vis, w as int, h as int, cx as int, cy as int, 8,
                                );
                            }
                            let ghost pcx = cx as int;
                            let ghost pcy = cy as int;
                            let ghost old_path = path@;
                            mark_visited(&mut visited, nx2, ny2);
                            proof {
                                lemma_vis_set_shape(
                                    loop_vis, w as int, h as int, nx2 as int, ny2 as int,
                                );
                            }
                            path.push((nx2, ny2));
                            cx = nx2;
                            cy = ny2;
                            steps = steps + 1;
                            proof {
                                let rest = trace_rest(
                                    dv, rows_view(visited@), w as int, h as int, nx2 as int,
                                    ny2 as int, (fuel - 1) as nat,
                                );
                                assert(trace_rest(dv, loop_vis, w as int, h as int, pcx, pcy, fuel)
                                    == (seq![(nx2, ny2)] + rest.0, rest.1));
                                assert(path@.skip(1) =~= old_path.skip(1).push((nx2, ny2)));
                                assert(old_path.skip(1) + (seq![(nx2, ny2)] + rest.0)
                                    =~= path@.skip(1) + rest.0);
                            }
                        } else {
                            proof {
                                assert(trace_rest(
                                    dv, loop_vis, w as int, h as int, cx as int, cy as int, fuel,
                                ).0 =~= Seq::empty());
                                assert(full.0 =~= path@.skip(1));
                            }
                            done = true;
                            steps = steps + 1;
                        }
                    }
                    proof {
                        if !done {
                            assert(full.0 == path@.skip(1) + trace_rest(
                                dv, rows_view(visited@), w as int, h as int, cx as int, cy as int,
                                0,
                            ).0);
                            assert(full.0 =~= path@.skip(1));
                            assert(full.1 == rows_view(visited@));
                        }
                        assert(full.0 == path@.skip(1));
                        assert(path@ =~= seq![(x, y)] + full.0);
                    }
                    if path.len() >= ml {
                        contours.push(path);
                        proof {
                            assert(rows_view(contours@) =~= pre_cs.push(seq![(x, y)] + full.0));
                            assert(rows_view(contours@) =~= row_base_cs + scan_row(
                                dv, row_base_vis, w as int, h as int, ml as int, y as int,
                                (x + 1) as nat,
                            ).0);
                        }
                    } else {
                        proof {
                            assert(rows_view(contours@) =~= row_base_cs + scan_row(
                                dv, row_base_vis, w as int, h as int, ml as int, y as int,
                                (x + 1) as nat,
                            ).0);
                        }
                    }
                } else {
                    proof {
                        assert(rows_view(contours@) =~= row_base_cs + scan_row(
                            dv, row_base_vis, w as int, h as int, ml as int, y as int,
                            (x + 1) as nat,
                        ).0);
                    }
                }
                x = x + 1;
            }
            y = y + 1;
        }

        let n = contours.len();
        proof {
            lemma_scan_rows_count(dv, vis0, w as int, h as int, ml as int, h as nat);
            assert((h as int) * (w as int) <= 8192 * 8192) by (nonlinear_arith)
                requires
                    0 <= h as int <= 8192,
                    0 <= w as int <= 8192,
            ;
            assert((n as int) * 10 <= 8192 * 8192 * 10) by (nonlinear_arith)
                requires
                    0 <= n as int <= 8192 * 8192,
            ;
            assert((n as int) * 10 * SCALE <= 8192 * 8192 * 10 * SCALE) by (nonlinear_arith)
                requires
                    0 <= (n as int) * 10 <= 8192 * 8192 * 10,
            ;
        }
        self.activation = (n as i64) * 10 * SCALE;
        contours
    }
}

/// The junction type of detector slot `t` of a lattice point, in the fixed
/// order the layer evaluates and writes them.
pub open spec fn kind_of(t: int) -> CornerType {
    if t == 0 {
        CornerType::LJunction
    } else if t == 1 {
        CornerType::TJunction
    } else if t == 2 {
        CornerType::XJunction
    } else {
        CornerType::YJunction
    }
}

/// Detector `t` of lattice point `(xi, yi)` sits at index
/// `4 * (yi * nx + xi) + t` with the geometry the layer prescribes.
pub open spec fn det_ok(dets: Seq<V2CornerDetector>, nx: int, sp: int, yi: int, xi: int, t: int) -> bool {
    let k = 4 * (yi * nx + xi) + t;
    &&& 0 <= k < dets.len()
    &&& dets[k].id as int == k
    &&& dets[k].x as int == pos_at(sp, sp, xi)
    &&& dets[k].y as int == pos_at(sp, sp, yi)
    &&& dets[k].corner_type == kind_of(t)
    &&& dets[k].receptive_field_size == 6
    &&& dets[k].geom_wf()
    &&& dets[k].state_wf()
}

/// The same detector holds exactly its score on orientation map `m`.
pub open spec fn det_resp_ok(
    dets: Seq<V2CornerDetector>,
    nx: int,
    m: Seq<Seq<Option<Orientation>>>,
    yi: int,
    xi: int,
    t: int,
) -> bool {
    let k = 4 * (yi * nx + xi) + t;
    &&& 0 <= k < dets.len()
    &&& dets[k].responds_to(m)
}

/// The corner-map cell at a lattice point: the four junction detectors are
/// evaluated in the order L, T, X, Y and each one above the threshold
/// overwrites the cell, so the last firing type is retained.
pub open spec fn corner_cell_spec(
    m: Seq<Seq<Option<Orientation>>>,
    x: int,
    y: int,
    r: int,
) -> Option<CornerType> {
    let w = mat_w(m);
    let h = mat_h(m);
    if y_score_spec(m, w, h, x, y, r) > CORNER_THRESHOLD {
        Some(CornerType::YJunction)
    } else if x_score_spec(m, w, h, x, y, r) > CORNER_THRESHOLD {
        Some(CornerType::XJunction)
    } else if t_score_spec(m, w, h, x, y, r) > CORNER_THRESHOLD {
        Some(CornerType::TJunction)
    } else if l_score_spec(m, w, h, x, y, r) > CORNER_THRESHOLD {
        Some(CornerType::LJunction)
    } else {
        None
    }
}

/// The corner map of a layer with lattice spacing `sp` and window radius
/// `r` over a `w x h` frame, computed from orientation map `m`.
pub open spec fn corner_map_spec(
    m: Seq<Seq<Option<Orientation>>>,
    w: int,
    h: int,
    sp: int,
    r: int,
) -> Seq<Seq<Option<CornerType>>> {
    Seq::new(
        h as nat,
        |y: int|
            Seq::new(
                w as nat,
                |x: int|
                    if is_lattice(sp, w - sp, sp, x) && is_lattice(sp, h - sp, sp, y) {
                        corner_cell_spec(m, x, y, r)
                    } else {
                        None
                    },
            ),
    )
}

/// Number of the four detectors at `(x, y)` whose score exceeds the
/// corner threshold.
pub open spec fn fired4(m: Seq<Seq<Option<Orientation>>>, x: int, y: int, r: int) -> int {
    let w = mat_w(m);
    let h = mat_h(m);
    (if l_score_spec(m, w, h, x, y, r) > CORNER_THRESHOLD {
        1int
    } else {
        0int
    }) + (if t_score_spec(m, w, h, x, y, r) > CORNER_THRESHOLD {
        1int
    } else {
        0int
    }) + (if x_score_spec(m, w, h, x, y, r) > CORNER_THRESHOLD {
        1int
    } else {
        0int
    }) + (if y_score_spec(m, w, h, x, y, r) > CORNER_THRESHOLD {
        1int
    } else {
        0int
    })
}

/// Firing detectors over the first `xn` lattice columns of lattice row `yi`.
pub open spec fn cc_row(
    m: Seq<Seq<Option<Orientation>>>,
    sp: int,
    r: int,
    yi: int,
    xn: nat,
) -> int
    decreases xn,
{
    if xn == 0 {
        0
    } else {
        cc_row(m, sp, r, yi, (xn - 1) as nat) + fired4(
            m, pos_at(sp, sp, xn - 1), pos_at(sp, sp, yi), r,
        )
    }
}

/// Firing detectors over the first `yn` lattice rows, each `nx` wide.
pub open spec fn cc_all(
    m: Seq<Seq<Option<Orientation>>>,
    sp: int,
    r: int,
    nx: int,
    yn: nat,
) -> int
    decreases yn,
{
    if yn == 0 {
        0
    } else {
        cc_all(m, sp, r, nx, (yn - 1) as nat) + cc_row(m, sp, r, yn - 1, nx as nat)
    }
}

/// The layer's corner count: every detector instance above threshold,
/// across all lattice points and the four types, overwrites included.
pub open spec fn corner_count_spec(
    m: Seq<Seq<Option<Orientation>>>,
    w: int,
    h: int,
    sp: int,
    r: int,
) -> int {
    cc_all(m, sp, r, pos_count(sp, w - sp, sp), pos_count(sp, h - sp, sp) as nat)
}

/// Partial corner counts are bounded by four per lattice point.
pub proof fn lemma_cc_bounds(m: Seq<Seq<Option<Orientation>>>, sp: int, r: int, nx: int, yn: nat)
    requires
        nx >= 0,
    ensures
        0 <= cc_all(m, sp, r, nx, yn) <= 4 * (yn * nx),
    decreases yn,
{
    if yn > 0 {
        lemma_cc_bounds(m, sp, r, nx, (yn - 1) as nat);
        lemma_cc_row_bounds(m, sp, r, yn - 1, nx as nat);
        assert(4 * ((yn - 1) * nx) + 4 * nx == 4 * (yn * nx)) by (nonlinear_arith);
    }
}

/// Row-level version of the corner count bound.
pub proof fn lemma_cc_row_bounds(m: Seq<Seq<Option<Orientation>>>, sp: int, r: int, yi: int, xn: nat)
    ensures
        0 <= cc_row(m, sp, r, yi, xn) <= 4 * xn,
    decreases xn,
{
    if xn > 0 {
        lemma_cc_row_bounds(m, sp, r, yi, (xn - 1) as nat);
    }
}

/// `u` is detector `c` with its activation recomputed against map `m`.
pub open spec fn det_recomputed(
    u: V2CornerDetector,
    c: V2CornerDetector,
    m: Seq<Seq<Option<Orientation>>>,
) -> bool {
    &&& u.id == c.id
    &&& u.x == c.x
    &&& u.y == c.y
    &&& u.corner_type == c.corner_type
    &&& u.receptive_field_size == c.receptive_field_size
    &&& u.responds_to(m)
    &&& u.state_wf()
}

/// V2 cortex: four junction detectors at every point of a square lattice
/// inset by one spacing from the frame edges, and one contour tracer.
#[derive(Debug)]
pub struct V2Cortex {
    /// The corner detectors, row-major over the lattice, four per point in
    /// the fixed type order.
    pub corner_detectors: Vec<V2CornerDetector>,
    /// The contour tracer.
    pub contour_detector: V2ContourDetector,
    /// Width of the visual field.
    pub width: usize,
    /// Height of the visual field.
    pub height: usize,
    /// Distance between neighboring lattice points, and the frame margin.
    pub spacing: usize,
}

/// Response from V2 processing.
#[derive(Debug)]
pub struct V2Response {
    /// Map of detected corners.
    pub corner_map: Vec<Vec<Option<CornerType>>>,
    /// List of detected contours: paths of connected edge pixels.
    pub contours: Vec<Vec<(usize, usize)>>,
    /// Number of corner detector instances above threshold.
    pub corner_count: usize,
    /// Number of contours detected.
    pub contour_count: usize,
}

impl V2Cortex {
    /// Number of lattice columns.
    pub open spec fn nx(self) -> int {
        pos_count(self.spacing as int, self.width - self.spacing, self.spacing as int)
    }

    /// Number of lattice rows.
    pub open spec fn ny(self) -> int {
        pos_count(self.spacing as int, self.height - self.spacing, self.spacing as int)
    }

    /// The layer configuration is within machine limits and its detector
    /// vector covers the lattice exactly, with the prescribed geometry.
    pub open spec fn wf(self) -> bool {
        &&& self.width <= MAX_DIM
        &&& self.height <= MAX_DIM
        &&& 1 <= self.spacing <= MAX_DIM
        &&& self.corner_detectors@.len() as int == 4 * (self.ny() * self.nx())
        &&& forall|yi: int, xi: int, t: int|
            0 <= yi < self.ny() && 0 <= xi < self.nx() && 0 <= t < 4 ==> #[trigger] det_ok(
                self.corner_detectors@, self.nx(), self.spacing as int, yi, xi, t,
            )
    }

    /// Every corner detector holds exactly its score on map `m`.
    pub open spec fn processed(self, m: Seq<Seq<Option<Orientation>>>) -> bool {
        forall|yi: int, xi: int, t: int|
            0 <= yi < self.ny() && 0 <= xi < self.nx() && 0 <= t < 4 ==> #[trigger] det_resp_ok(
                self.corner_detectors@, self.nx(), m, yi, xi, t,
            )
    }

    /// Creates a new V2 cortex with corner detectors at regular intervals
    /// and a contour tracer keeping paths of at least 3 pixels.
    #[verifier::loop_isolation(false)]
    pub fn new(width: usize, height: usize, spacing: usize) -> (r: V2Cortex)
        requires
            1 <= spacing <= MAX_DIM,
            width <= MAX_DIM,
            height <= MAX_DIM,
        ensures
            r.wf(),
            r.width == width,
            r.height == height,
            r.spacing == spacing,
            r.contour_detector.path_length == 3,
    {
        let ghost hi_y = height - spacing;
        let ghost hi_x = width - spacing;
        let ghost ny = pos_count(spacing as int, hi_y, spacing as int);
        let ghost nx = pos_count(spacing as int, hi_x, spacing as int);
        proof {
            lemma_pos_count_bound_general(spacing as int, hi_y, spacing as int, MAX_DIM as int);
            lemma_pos_count_bound_general(spacing as int, hi_x, spacing as int, MAX_DIM as int);
        }
        let mut dets: Vec<V2CornerDetector> = Vec::new();
        let mut id: usize = 0;
        let mut y: usize = spacing;
        let ghost mut yi: int = 0;
        while y + spacing < height
            invariant
                y <= 2 * MAX_DIM,
                0 <= yi <= ny,
                y as int == pos_at(spacing as int, spacing as int, yi),
                id == dets@.len(),
                dets@.len() as int == 4 * (yi * nx),
                forall|y2: int, x2: int, t2: int|
                    0 <= y2 < yi && 0 <= x2 < nx && 0 <= t2 < 4 ==> #[trigger] det_ok(
                        dets@, nx, spacing as int, y2, x2, t2,
                    ),
            decreases ny - yi,
        {
            proof {
                lemma_mod_multiples_basic(yi, spacing as int);
                lemma_lattice_index(spacing as int, hi_y, spacing as int, y as int);
                lemma_div_multiples_vanish(yi, spacing as int);
                assert(yi < ny);
            }
            let mut x: usize = spacing;
            let ghost mut xi: int = 0;
            while x + spacing < width
                invariant
                    x <= 2 * MAX_DIM,
                    0 <= xi <= nx,
                    x as int == pos_at(spacing as int, spacing as int, xi),
                    id == dets@.len(),
                    dets@.len() as int == 4 * (yi * nx + xi),
                    forall|y2: int, x2: int, t2: int|
                        0 <= y2 < yi && 0 <= x2 < nx && 0 <= t2 < 4 ==> #[trigger] det_ok(
                            dets@, nx, spacing as int, y2, x2, t2,
                        ),
                    forall|x2: int, t2: int|
                        0 <= x2 < xi && 0 <= t2 < 4 ==> #[trigger] det_ok(
                            dets@, nx, spacing as int, yi, x2, t2,
                        ),
                decreases nx - xi,
            {
                proof {
                    lemma_mod_multiples_basic(xi, spacing as int);
                    lemma_lattice_index(spacing as int, hi_x, spacing as int, x as int);
                    lemma_div_multiples_vanish(xi, spacing as int);
                    assert(xi < nx);
                    lemma_flat_index(yi, xi, ny, nx);
                    assert(yi * nx + xi <= 8192 * 8192 + 8192) by (nonlinear_arith)
                        requires
                            0 <= yi <= 8192,
                            0 <= nx <= 8192,
                            0 <= xi <= 8192,
                    ;
                }
                let ghost before = dets@;
                dets.push(V2CornerDetector::new(id, x, y, CornerType::LJunction, 6));
                id = id + 1;
                dets.push(V2CornerDetector::new(id, x, y, CornerType::TJunction, 6));
                id = id + 1;
                dets.push(V2CornerDetector::new(id, x, y, CornerType::XJunction, 6));
                id = id + 1;
                dets.push(V2CornerDetector::new(id, x, y, CornerType::YJunction, 6));
                id = id + 1;
                proof {
                    assert forall|y2: int, x2: int, t2: int|
                        0 <= y2 < yi && 0 <= x2 < nx && 0 <= t2 < 4 implies #[trigger] det_ok(
                        dets@, nx, spacing as int, y2, x2, t2,
                    ) by {
                        assert(det_ok(before, nx, spacing as int, y2, x2, t2));
                        lemma_flat_index(y2, x2, yi, nx);
                        assert(4 * (y2 * nx + x2) + t2 < before.len());
                    }
                    assert forall|x2: int, t2: int|
                        0 <= x2 < xi + 1 && 0 <= t2 < 4 implies #[trigger] det_ok(
                        dets@, nx, spacing as int, yi, x2, t2,
                    ) by {
                        if x2 < xi {
                            assert(det_ok(before, nx, spacing as int, yi, x2, t2));
                            assert(4 * (yi * nx + x2) + t2 < before.len()) by (nonlinear_arith)
                                requires
                                    0 <= x2 < xi,
                                    0 <= t2 < 4,
                                    before.len() == 4 * (yi * nx + xi),
                            ;
                        } else {
                            assert(dets@[4 * (yi * nx + xi) + t2].x as int == pos_at(
                                spacing as int, spacing as int, xi,
                            ));
                        }
                    }
                    assert((xi + 1) * spacing == xi * spacing + spacing) by (nonlinear_arith);
                    xi = xi + 1;
                }
                x = x + spacing;
            }
            proof {
                if xi < nx {
                    lemma_pos_at_in_range(spacing as int, hi_x, spacing as int, xi);
                    assert(false);
                }
                assert(4 * (yi * nx + nx) == 4 * ((yi + 1) * nx)) by (nonlinear_arith);
                assert((yi + 1) * spacing == yi * spacing + spacing) by (nonlinear_arith);
                yi = yi + 1;
            }
            y = y + spacing;
        }
        proof {
            if yi < ny {
                lemma_pos_at_in_range(spacing as int, hi_y, spacing as int, yi);
                assert(false);
            }
        }
        V2Cortex {
            corner_detectors: dets,
            contour_detector: V2ContourDetector::new(0, 3, 5),
            width,
            height,
            spacing,
        }
    }

    /// Returns all corner detectors.
    pub fn corner_detectors(&self) -> (r: &Vec<V2CornerDetector>)
        ensures
            r == &self.corner_detectors,
    {
        &self.corner_detectors
    }

    /// Processes V1 output through V2: scores every junction detector on
    /// the orientation map, traces contours through the edge map, builds
    /// the corner map with its last-write-wins rule, and counts every
    /// detector instance above threshold.
    #[verifier::loop_isolation(false)]
    #[verifier::rlimit(60)]
    pub fn process(
        &mut self,
        orientation_map: &Vec<Vec<Option<Orientation>>>,
        edge_map: &Vec<Vec<i64>>,
    ) -> (r: V2Response)
        requires
            old(self).wf(),
            rect(
                rows_view(orientation_map@), mat_w(rows_view(orientation_map@)),
                mat_h(rows_view(orientation_map@)),
            ),
            mat_w(rows_view(orientation_map@)) <= MAX_DIM,
            mat_h(rows_view(orientation_map@)) <= MAX_DIM,
            grid_wf(
                rows_view(edge_map@), gw(rows_view(edge_map@)), gh(rows_view(edge_map@)),
                EDGE_MAX as int,
            ),
            gw(rows_view(edge_map@)) <= MAX_DIM,
            gh(rows_view(edge_map@)) <= MAX_DIM,
        ensures
            final(self).wf(),
            final(self).width == old(self).width,
            final(self).height == old(self).height,
            final(self).spacing == old(self).spacing,
            final(self).contour_detector.path_length == old(self).contour_detector.path_length,
            final(self).processed(rows_view(orientation_map@)),
            rows_view(r.corner_map@) == corner_map_spec(
                rows_view(orientation_map@), old(self).width as int, old(self).height as int,
                old(self).spacing as int, 6,
            ),
            rows_view(r.contours@) == contours_spec(
                rows_view(edge_map@), gw(rows_view(edge_map@)), gh(rows_view(edge_map@)),
                old(self).contour_detector.path_length as int,
            ),
            r.corner_count as int == corner_count_spec(
                rows_view(orientation_map@), old(self).width as int, old(self).height as int,
                old(self).spacing as int, 6,
            ),
            r.contour_count == r.contours@.len(),
    {
        let ghost m = rows_view(orientation_map@);
        let ghost orig = *self;
        let sp = self.spacing;

        // Score every corner detector.
        let mut updated: Vec<V2CornerDetector> = Vec::new();
        let mut i: usize = 0;
        let n = self.corner_detectors.len();
        while i < n
            invariant
                i <= n,
                updated@.len() == i,
                forall|j: int|
                    0 <= j < i ==> #[trigger] det_recomputed(
                        updated@[j], orig.corner_detectors@[j], m,
                    ),
            decreases n - i,
        {
            let mut det = self.corner_detectors[i];
            proof {
                lemma_det_index_decomposition(orig, i as int);
            }
            det.compute_response(orientation_map);
            updated.push(det);
            i = i + 1;
        }
        self.corner_detectors = updated;
        let ghost dets = self.corner_detectors@;
        let ghost nxg = orig.nx();
        let ghost nyg = orig.ny();
        let ghost spg = orig.spacing as int;
        proof {
            assert forall|yi: int, xi: int, t: int|
                0 <= yi < nyg && 0 <= xi < nxg && 0 <= t < 4 implies #[trigger] det_ok(
                dets, nxg, spg, yi, xi, t,
            ) by {
                assert(det_ok(orig.corner_detectors@, orig.nx(), orig.spacing as int, yi, xi, t));
                let k = 4 * (yi * nxg + xi) + t;
                assert(0 <= k < orig.corner_detectors@.len());
                assert(det_recomputed(dets[k], orig.corner_detectors@[k], m));
            }
            assert forall|yi: int, xi: int, t: int|
                0 <= yi < nyg && 0 <= xi < nxg && 0 <= t < 4 implies #[trigger] det_resp_ok(
                dets, nxg, m, yi, xi, t,
            ) by {
                assert(det_ok(orig.corner_detectors@, orig.nx(), orig.spacing as int, yi, xi, t));
                let k = 4 * (yi * nxg + xi) + t;
                assert(0 <= k < orig.corner_detectors@.len());
                assert(det_recomputed(dets[k], orig.corner_detectors@[k], m));
            }
        }

        // Trace contours through the edge map.
        let contours = self.contour_detector.detect_contours(edge_map);
        let contour_count = contours.len();

        // Build the corner map from the detector states.
        let ghost cm = corner_map_spec(
            m, self.width as int, self.height as int, sp as int, 6,
        );
        let mut rows: Vec<Vec<Option<CornerType>>> = Vec::new();
        let mut y: usize = 0;
        while y < self.height
            invariant
                y <= self.height,
                rows@.len() == y,
                forall|y2: int| 0 <= y2 < y ==> #[trigger] rows@[y2]@ == cm[y2],
            decreases self.height - y,
        {
            let mut row: Vec<Option<CornerType>> = Vec::new();
            let mut x: usize = 0;
            while x < self.width
                invariant
                    x <= self.width,
                    row@.len() == x,
                    forall|x2: int| 0 <= x2 < x ==> #[trigger] row@[x2] == cm[y as int][x2],
                decreases self.width - x,
            {
                let mut v: Option<CornerType> = None;
                if y >= sp && y + sp < self.height && (y - sp) % sp == 0 && x >= sp && x + sp
                    < self.width && (x - sp) % sp == 0 {
                    let nx = if self.width - sp <= sp {
                        0
                    } else {
                        (self.width - sp - sp - 1) / sp + 1
                    };
                    assert(nx as int == self.nx());
                    let yi = (y - sp) / sp;
                    let xi = (x - sp) / sp;
                    proof {
                        lemma_lattice_index(sp as int, self.height - sp as int, sp as int, y as int);
                        lemma_lattice_index(sp as int, self.width - sp as int, sp as int, x as int);
                        lemma_flat_index(yi as int, xi as int, self.ny(), self.nx());
                        lemma_pos_count_bound_general(
                            sp as int, self.height - sp as int, sp as int, MAX_DIM as int,
                        );
                        lemma_pos_count_bound_general(
                            sp as int, self.width - sp as int, sp as int, MAX_DIM as int,
                        );
                        assert((yi as int) * (nx as int) + (xi as int) <= 8192 * 8192 + 8192)
                            by (nonlinear_arith)
                            requires
                                0 <= yi as int <= 8192,
                                0 <= nx as int <= 8192,
                                0 <= xi as int <= 8192,
                        ;
                        assert(self.corner_detectors@ == dets);
                        assert(self.nx() == nxg && self.ny() == nyg && sp as int == spg);
                        assert(det_ok(dets, nxg, spg, yi as int, xi as int, 0));
                        assert(det_ok(dets, nxg, spg, yi as int, xi as int, 1));
                        assert(det_ok(dets, nxg, spg, yi as int, xi as int, 2));
                        assert(det_ok(dets, nxg, spg, yi as int, xi as int, 3));
                        assert(det_resp_ok(dets, nxg, m, yi as int, xi as int, 0));
                        assert(det_resp_ok(dets, nxg, m, yi as int, xi as int, 1));
                        assert(det_resp_ok(dets, nxg, m, yi as int, xi as int, 2));
                        assert(det_resp_ok(dets, nxg, m, yi as int, xi as int, 3));
                    }
                    let k = 4 * (yi * nx + xi);
                    if self.corner_detectors[k].activation > CORNER_THRESHOLD {
                        v = Some(CornerType::LJunction);
                    }
                    if self.corner_detectors[k + 1].activation > CORNER_THRESHOLD {
                        v = Some(CornerType::TJunction);
                    }
                    if self.corner_detectors[k + 2].activation > CORNER_THRESHOLD {
                        v = Some(CornerType::XJunction);
                    }
                    if self.corner_detectors[k + 3].activation > CORNER_THRESHOLD {
                        v = Some(CornerType::YJunction);
                    }
                } else {
                    proof {
                        if is_lattice(sp as int, self.width - sp as int, sp as int, x as int)
                            && is_lattice(sp as int, self.height - sp as int, sp as int, y as int) {
                            assert((x as int) >= (sp as int));
                            assert((x as int) + (sp as int) < (self.width as int));
                            assert(((x as int) - (sp as int)) % (sp as int) == 0);
                            assert((y as int) >= (sp as int));
                            assert((y as int) + (sp as int) < (self.height as int));
                            assert(((y as int) - (sp as int)) % (sp as int) == 0);
                        }
                    }
                }
                row.push(v);
                x = x + 1;
            }
            proof {
                assert(row@ =~= cm[y as int]);
            }
            rows.push(row);
            y = y + 1;
        }
        proof {
            assert(rows_view(rows@) =~= cm);
        }

        // Count every firing detector instance.
        let ghost ny_g = self.ny();
        let ghost nx_g = self.nx();
        let mut count: usize = 0;
        let mut cy: usize = sp;
        let ghost mut cyi: int = 0;
        proof {
            lemma_pos_count_bound_general(
                sp as int, self.height - sp as int, sp as int, MAX_DIM as int,
            );
            lemma_pos_count_bound_general(
                sp as int, self.width - sp as int, sp as int, MAX_DIM as int,
            );
        }
        while cy + sp < self.height
            invariant
                cy <= 2 * MAX_DIM,
                0 <= cyi <= ny_g,
                cy as int == pos_at(sp as int, sp as int, cyi),
                count as int == cc_all(m, sp as int, 6, nx_g, cyi as nat),
            decreases ny_g - cyi,
        {
            proof {
                vstd::arithmetic::mul::lemma_mul_nonnegative(cyi, sp as int);
                lemma_mod_multiples_basic(cyi, sp as int);
                lemma_lattice_index(sp as int, self.height - sp as int, sp as int, cy as int);
                lemma_div_multiples_vanish(cyi, sp as int);
                assert(cyi < ny_g);
            }
            let mut cx: usize = sp;
            let ghost mut cxi: int = 0;
            while cx + sp < self.width
                invariant
                    cx <= 2 * MAX_DIM,
                    0 <= cxi <= nx_g,
                    cx as int == pos_at(sp as int, sp as int, cxi),
                    count as int == cc_all(m, sp as int, 6, nx_g, cyi as nat) + cc_row(
                        m, sp as int, 6, cyi, cxi as nat,
                    ),
                decreases nx_g - cxi,
            {
                proof {
                    vstd::arithmetic::mul::lemma_mul_nonnegative(cxi, sp as int);
                    lemma_mod_multiples_basic(cxi, sp as int);
                    lemma_lattice_index(sp as int, self.width - sp as int, sp as int, cx as int);
                    lemma_div_multiples_vanish(cxi, sp as int);
                    assert(cxi < nx_g);
                    lemma_flat_index(cyi, cxi, ny_g, nx_g);
                    lemma_cc_bounds(m, sp as int, 6, nx_g, cyi as nat);
                    lemma_cc_row_bounds(m, sp as int, 6, cyi, cxi as nat);
                    assert(4 * (cyi * nx_g) + 4 * cxi <= 4 * (8192 * 8192 + 8192))
                        by (nonlinear_arith)
                        requires
                            0 <= cyi <= 8192,
                            0 <= nx_g <= 8192,
                            0 <= cxi <= 8192,
                    ;
                    assert(self.corner_detectors@ == dets);
                    assert(nx_g == nxg && sp as int == spg);
                    assert(det_ok(dets, nxg, spg, cyi, cxi, 0));
                    assert(det_ok(dets, nxg, spg, cyi, cxi, 1));
                    assert(det_ok(dets, nxg, spg, cyi, cxi, 2));
                    assert(det_ok(dets, nxg, spg, cyi, cxi, 3));
                    assert(det_resp_ok(dets, nxg, m, cyi, cxi, 0));
                    assert(det_resp_ok(dets, nxg, m, cyi, cxi, 1));
                    assert(det_resp_ok(dets, nxg, m, cyi, cxi, 2));
                    assert(det_resp_ok(dets, nxg, m, cyi, cxi, 3));
                }
                let nx_e = if self.width - sp <= sp {
                    0
                } else {
                    (self.width - sp - sp - 1) / sp + 1
                };
                assert(nx_e as int == nx_g);
                let k = 4 * ((cy - sp) / sp * nx_e + (cx - sp) / sp);
                assert(k as int == 4 * (cyi * nx_g + cxi));
                if self.corner_detectors[k].activation > CORNER_THRESHOLD {
                    count = count + 1;
                }
                if self.corner_detectors[k + 1].activation > CORNER_THRESHOLD {
                    count = count + 1;
                }
                if self.corner_detectors[k + 2].activation > CORNER_THRESHOLD {
                    count = count + 1;
                }
                if self.corner_detectors[k + 3].activation > CORNER_THRESHOLD {
                    count = count + 1;
                }
                proof {
                    assert((cxi + 1) * (sp as int) == cxi * (sp as int) + sp) by (nonlinear_arith);
                    cxi = cxi + 1;
                }
                cx = cx + sp;
            }
            proof {
                if cxi < nx_g {
                    lemma_pos_at_in_range(sp as int, self.width - sp as int, sp as int, cxi);
                    assert(false);
                }
                assert((cyi + 1) * (sp as int) == cyi * (sp as int) + sp) by (nonlinear_arith);
                cyi = cyi + 1;
            }
            cy = cy + sp;
        }
        proof {
            if cyi < ny_g {
                lemma_pos_at_in_range(sp as int, self.height - sp as int, sp as int, cyi);
                assert(false);
            }
            assert(self.corner_detectors@ == dets);
            assert(self.nx() == nxg && self.ny() == nyg && self.spacing as int == spg);
            assert forall|yi: int, xi: int, t: int|
                0 <= yi < self.ny() && 0 <= xi < self.nx() && 0 <= t < 4 implies #[trigger] det_ok(
                self.corner_detectors@, self.nx(), self.spacing as int, yi, xi, t,
            ) by {
                assert(det_ok(dets, nxg, spg, yi, xi, t));
            }
            assert forall|yi: int, xi: int, t: int|
                0 <= yi < self.ny() && 0 <= xi < self.nx() && 0 <= t < 4 implies #[trigger] det_resp_ok(
                self.corner_detectors@, self.nx(), m, yi, xi, t,
            ) by {
                assert(det_resp_ok(dets, nxg, m, yi, xi, t));
            }
        }

        V2Response { corner_map: rows, contours, corner_count: count, contour_count }
    }
}

/// Decomposes a flat detector index of a well-formed layer into its lattice
/// coordinate, and carries the layer's per-detector facts to that index.
pub proof fn lemma_det_index_decomposition(c: V2Cortex, k: int)
    requires
        c.wf(),
        0 <= k < c.corner_detectors@.len(),
    ensures
        c.corner_detectors@[k].geom_wf(),
        c.corner_detectors@[k].state_wf(),
{
    let nx = c.nx();
    let ny = c.ny();
    lemma_pos_count_bound_general(
        c.spacing as int, c.width - c.spacing as int, c.spacing as int, MAX_DIM as int,
    );
    lemma_pos_count_bound_general(
        c.spacing as int, c.height - c.spacing as int, c.spacing as int, MAX_DIM as int,
    );
    let p = k / 4;
    let t = k % 4;
    crate::ganglion::lemma_fundamental_div_mod_pair(k, 4);
    assert(0 <= p < ny * nx) by (nonlinear_arith)
        requires
            0 <= k < 4 * (ny * nx),
            k == 4 * p + t,
            0 <= t < 4,
    ;
    assert(nx > 0) by (nonlinear_arith)
        requires
            0 <= p < ny * nx,
            0 <= ny,
    ;
    crate::ganglion::lemma_fundamental_div_mod_pair(p, nx);
    let yi = p / nx;
    let xi = p % nx;
    assert(0 <= yi < ny) by (nonlinear_arith)
        requires
            0 <= p < ny * nx,
            p == nx * yi + xi,
            0 <= xi < nx,
    ;
    assert(det_ok(c.corner_detectors@, nx, c.spacing as int, yi, xi, t));
    assert(4 * (yi * nx + xi) + t == k);
}

impl V2Response {
    /// Gets the total feature count: corners plus contours.
    pub fn total_features(&self) -> (r: usize)
        requires
            self.corner_count + self.contour_count <= usize::MAX,
        ensures
            r == self.corner_count + self.contour_count,
    {
        self.corner_count + self.contour_count
    }

    /// Gets the corner type most often present in the corner map: the type
    /// with the largest number of populated cells, earlier types in the
    /// order L, T, X, Y winning ties; `None` on an empty map.
    #[verifier::loop_isolation(false)]
    pub fn dominant_corner_type(&self) -> (r: Option<CornerType>)
        requires
            self.corner_map@.len() <= MAX_DIM,
            forall|i: int|
                0 <= i < self.corner_map@.len() ==> (#[trigger] self.corner_map@[i]@).len()
                    <= MAX_DIM,
        ensures
            ({
                let lc = ctype_count(rows_view(self.corner_map@), CornerType::LJunction);
                let tc = ctype_count(rows_view(self.corner_map@), CornerType::TJunction);
                let xc = ctype_count(rows_view(self.corner_map@), CornerType::XJunction);
                let yc = ctype_count(rows_view(self.corner_map@), CornerType::YJunction);
                let mx = imax(imax(lc, tc), imax(xc, yc));
                if mx == 0 {
                    r is None
                } else if mx == lc {
                    r == Some(CornerType::LJunction)
                } else if mx == tc {
                    r == Some(CornerType::TJunction)
                } else if mx == xc {
                    r == Some(CornerType::XJunction)
                } else {
                    r == Some(CornerType::YJunction)
                }
            }),
    {
        let ghost mview = rows_view(self.corner_map@);
        let mut lc: usize = 0;
        let mut tc: usize = 0;
        let mut xc: usize = 0;
        let mut yc: usize = 0;
        let mut y: usize = 0;
        let n = self.corner_map.len();
        while y < n
            invariant
                y <= n,
                n == mview.len(),
                lc as int == ctype_rows(mview, CornerType::LJunction, y as nat),
                tc as int == ctype_rows(mview, CornerType::TJunction, y as nat),
                xc as int == ctype_rows(mview, CornerType::XJunction, y as nat),
                yc as int == ctype_rows(mview, CornerType::YJunction, y as nat),
            decreases n - y,
        {
            proof {
                lemma_ctype_rows_bounds(mview, CornerType::LJunction, y as nat);
                lemma_ctype_rows_bounds(mview, CornerType::TJunction, y as nat);
                lemma_ctype_rows_bounds(mview, CornerType::XJunction, y as nat);
                lemma_ctype_rows_bounds(mview, CornerType::YJunction, y as nat);
            }
            let row_len = self.corner_map[y].len();
            let mut x: usize = 0;
            while x < row_len
                invariant
                    x <= row_len,
                    row_len == mview[y as int].len(),
                    lc as int == ctype_rows(mview, CornerType::LJunction, y as nat) + ctype_row(
                        mview[y as int], CornerType::LJunction, x as nat,
                    ),
                    tc as int == ctype_rows(mview, CornerType::TJunction, y as nat) + ctype_row(
                        mview[y as int], CornerType::TJunction, x as nat,
                    ),
                    xc as int == ctype_rows(mview, CornerType::XJunction, y as nat) + ctype_row(
                        mview[y as int], CornerType::XJunction, x as nat,
                    ),
                    yc as int == ctype_rows(mview, CornerType::YJunction, y as nat) + ctype_row(
                        mview[y as int], CornerType::YJunction, x as nat,
                    ),
                decreases row_len - x,
            {
                proof {
                    lemma_ctype_rows_bounds(mview, CornerType::LJunction, y as nat);
                    lemma_ctype_rows_bounds(mview, CornerType::TJunction, y as nat);
                    lemma_ctype_rows_bounds(mview, CornerType::XJunction, y as nat);
                    lemma_ctype_rows_bounds(mview, CornerType::YJunction, y as nat);
                    lemma_ctype_row_bounds(mview[y as int], CornerType::LJunction, x as nat);
                    lemma_ctype_row_bounds(mview[y as int], CornerType::TJunction, x as nat);
                    lemma_ctype_row_bounds(mview[y as int], CornerType::XJunction, x as nat);
                    lemma_ctype_row_bounds(mview[y as int], CornerType::YJunction, x as nat);
                    assert(mview[y as int] == self.corner_map@[y as int]@);
                }
                match self.corner_map[y][x] {
                    Some(CornerType::LJunction) => { lc = lc + 1; },
                    Some(CornerType::TJunction) => { tc = tc + 1; },
                    Some(CornerType::XJunction) => { xc = xc + 1; },
                    Some(CornerType::YJunction) => { yc = yc + 1; },
                    None => {},
                }
                x = x + 1;
            }
            y = y + 1;
        }
        let m1 = if lc >= tc { lc } else { tc };
        let m2 = if xc >= yc { xc } else { yc };
        let mx = if m1 >= m2 { m1 } else { m2 };
        if mx == 0 {
            None
        } else if mx == lc {
            Some(CornerType::LJunction)
        } else if mx == tc {
            Some(CornerType::TJunction)
        } else if mx == xc {
            Some(CornerType::XJunction)
        } else {
            Some(CornerType::YJunction)
        }
    }
}

/// Once the orientation map shows a near-horizontal and a near-vertical
/// cell within a detector's window, the L-junction detector there fires
/// with a score of at least 2, so the corner map populates that position;
/// the instance count registers at least the L and T detectors.
pub proof fn lemma_l_junction_populates(m: Seq<Seq<Option<Orientation>>>, x: int, y: int)
    requires
        0 <= x < mat_w(m),
        0 <= y < mat_h(m),
        band_count(m, mat_w(m), mat_h(m), x, y, 0, 6) >= 1,
        band_count(m, mat_w(m), mat_h(m), x, y, 1, 6) >= 1,
    ensures
        l_score_spec(m, mat_w(m), mat_h(m), x, y, 6) >= 2 * SCALE,
        corner_cell_spec(m, x, y, 6) is Some,
        fired4(m, x, y, 6) >= 2,
{
    let w = mat_w(m);
    let h = mat_h(m);
    let l = l_score_spec(m, w, h, x, y, 6);
    assert(l >= 2 * SCALE);
    vstd::arithmetic::div_mod::lemma_div_is_ordered(8 * SCALE, l * 4, 5);
    assert((8 * SCALE) / 5 == 1600000);
    assert(t_score_spec(m, w, h, x, y, 6) >= 1600000);
}

/// Cells of the first `xn` columns of one corner-map row holding type `t`.
pub open spec fn ctype_row(row: Seq<Option<CornerType>>, t: CornerType, xn: nat) -> int
    decreases xn,
{
    if xn == 0 {
        0
    } else {
        ctype_row(row, t, (xn - 1) as nat) + if row[xn - 1] == Some(t) {
            1int
        } else {
            0int
        }
    }
}

/// Cells of the first `yn` full rows of a corner map holding type `t`.
pub open spec fn ctype_rows(m: Seq<Seq<Option<CornerType>>>, t: CornerType, yn: nat) -> int
    decreases yn,
{
    if yn == 0 {
        0
    } else {
        ctype_rows(m, t, (yn - 1) as nat) + ctype_row(m[yn - 1], t, m[yn - 1].len())
    }
}

/// Number of populated cells of one type across the whole corner map.
pub open spec fn ctype_count(m: Seq<Seq<Option<CornerType>>>, t: CornerType) -> int {
    ctype_rows(m, t, m.len())
}

/// Row counts lie between 0 and the number of columns considered.
pub proof fn lemma_ctype_row_bounds(row: Seq<Option<CornerType>>, t: CornerType, xn: nat)
    ensures
        0 <= ctype_row(row, t, xn) <= xn,
    decreases xn,
{
    if xn > 0 {
        lemma_ctype_row_bounds(row, t, (xn - 1) as nat);
    }
}

/// Map counts lie between 0 and the total cells of the rows considered.
pub proof fn lemma_ctype_rows_bounds(m: Seq<Seq<Option<CornerType>>>, t: CornerType, yn: nat)
    requires
        yn <= m.len(),
        forall|i: int| 0 <= i < m.len() ==> (#[trigger] m[i]).len() <= MAX_DIM,
    ensures
        0 <= ctype_rows(m, t, yn) <= yn * (MAX_DIM as int),
    decreases yn,
{
    if yn > 0 {
        lemma_ctype_rows_bounds(m, t, (yn - 1) as nat);
        lemma_ctype_row_bounds(m[yn - 1], t, m[yn - 1].len());
        assert((yn - 1) * (MAX_DIM as int) + (MAX_DIM as int) == yn * (MAX_DIM as int))
            by (nonlinear_arith);
    }
}

} // verus!
