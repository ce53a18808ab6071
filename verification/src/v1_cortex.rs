//! Primary visual cortex: orientation-selective filter columns.
//!
//! A neuron prefers one of the four canonical orientations (0, 45, 90,
//! 135 degrees). For every offset of its circular receptive field it
//! decomposes the offset into components parallel and perpendicular to the
//! preferred axis; a sample contributes the edge value under a Gaussian
//! weight of the perpendicular component when it lies in a narrow band along
//! the axis, and nothing otherwise. The activation is the accumulated
//! weighted response averaged over all sampled offsets. Complex neurons pool
//! over a slightly larger field and boost the result by a factor of 1.2.

use vstd::prelude::*;
use crate::fixed::{
    EDGE_MAX, GAUSS_Q0, GAUSS_Q2, GAUSS_Q4, GAUSS_Q8, MAX_DIM, MAX_RF, ORIENT_THRESHOLD, SCALE,
};
use crate::grid::{
    gh, grid_wf, gw, in_grid, is_lattice, lattice_index, lemma_flat_index, lemma_lattice_index,
    lemma_pos_at_in_range, lemma_pos_count_bound_general, pos_at, pos_count, rows_view,
};
use vstd::arithmetic::div_mod::{
    lemma_div_is_ordered, lemma_div_multiples_vanish, lemma_div_pos_is_pos,
    lemma_mod_multiples_basic,
};

verus! {

/// Largest activation a V1 neuron can report: `1.2 * 100 * SCALE * 2`.
pub const V1_ACT_MAX: i64 = 240_000_000;

/// Largest term of the weighted response sum: `EDGE_MAX * SCALE`.
pub const V1_TERM_MAX: i64 = 200_000_000_000_000;

/// Orientation preference of a V1 neuron, in whole degrees within `0 ..< 180`.
#[derive(Debug, Clone, Copy, PartialEq, Eq, Structural)]
pub struct Orientation {
    /// The angle in degrees.
    pub degrees: u32,
}

impl Orientation {
    /// Creates a new orientation, reduced modulo 180 degrees.
    pub fn new(degrees: u32) -> (r: Orientation)
        ensures
            r.degrees == degrees % 180,
    {
        Orientation { degrees: degrees % 180 }
    }

    /// Returns the orientation in degrees.
    pub fn degrees(&self) -> (r: u32)
        ensures
            r == self.degrees,
    {
        self.degrees
    }

    /// The horizontal orientation.
    pub fn horizontal() -> (r: Orientation)
        ensures
            r.degrees == 0,
    {
        Orientation { degrees: 0 }
    }

    /// The vertical orientation.
    pub fn vertical() -> (r: Orientation)
        ensures
            r.degrees == 90,
    {
        Orientation { degrees: 90 }
    }

    /// The rising diagonal orientation.
    pub fn diagonal_right() -> (r: Orientation)
        ensures
            r.degrees == 45,
    {
        Orientation { degrees: 45 }
    }

    /// The falling diagonal orientation.
    pub fn diagonal_left() -> (r: Orientation)
        ensures
            r.degrees == 135,
    {
        Orientation { degrees: 135 }
    }
}

/// Type of V1 neuron.
#[derive(Debug, Clone, Copy, PartialEq, Eq, Structural)]
pub enum V1NeuronType {
    /// Simple cells: respond to a specific position and orientation.
    Simple,
    /// Complex cells: respond to orientation over a broader field.
    Complex,
}

/// The Gaussian cross-orientation weight `exp(-q / 8)` in fixed point, where
/// `q` is four times the squared perpendicular distance from the preferred
/// axis. Only the values `q` can take under the band condition are mapped.
pub open spec fn gauss_weight(q: int) -> int {
    if q == 0 {
        GAUSS_Q0 as int
    } else if q == 2 {
        GAUSS_Q2 as int
    } else if q == 4 {
        GAUSS_Q4 as int
    } else if q == 8 {
        GAUSS_Q8 as int
    } else {
        0
    }
}

/// The orientation weight of offset `(dx, dy)` for preferred angle `deg` and
/// receptive-field radius `r`: the Gaussian of the perpendicular component
/// when that component is under 2 pixels and the parallel component is within
/// the radius, else 0. The four canonical angles carry the filter bank; any
/// other angle weighs nothing.
pub open spec fn orient_weight(deg: int, dx: int, dy: int, r: int) -> int {
    if deg == 0 {
        if 4 * (dy * dy) < 16 && dx * dx <= r * r {
            gauss_weight(4 * (dy * dy))
        } else {
            0
        }
    } else if deg == 90 {
        if 4 * (dx * dx) < 16 && dy * dy <= r * r {
            gauss_weight(4 * (dx * dx))
        } else {
            0
        }
    } else if deg == 45 {
        if 2 * ((dx - dy) * (dx - dy)) < 16 && (dx + dy) * (dx + dy) <= 2 * (r * r) {
            gauss_weight(2 * ((dx - dy) * (dx - dy)))
        } else {
            0
        }
    } else if deg == 135 {
        if 2 * ((dx + dy) * (dx + dy)) < 16 && (dx - dy) * (dx - dy) <= 2 * (r * r) {
            gauss_weight(2 * ((dx + dy) * (dx + dy)))
        } else {
            0
        }
    } else {
        0
    }
}

/// Weighted edge contribution of offset `(dx, dy)`: 0 outside the grid or
/// the circular receptive field.
pub open spec fn v1_term(
    g: Seq<Seq<i64>>,
    w: int,
    h: int,
    x: int,
    y: int,
    deg: int,
    r: int,
    dx: int,
    dy: int,
) -> int {
    if in_grid(w, h, x + dx, y + dy) && dx * dx + dy * dy <= r * r {
        g[y + dy][x + dx] * orient_weight(deg, dx, dy, r)
    } else {
        0
    }
}

/// 1 when offset `(dx, dy)` is sampled (in grid, within the radius), else 0;
/// sampled offsets count toward the average whatever their weight.
pub open spec fn v1_term_count(
    g: Seq<Seq<i64>>,
    w: int,
    h: int,
    x: int,
    y: int,
    r: int,
    dx: int,
    dy: int,
) -> int {
    if in_grid(w, h, x + dx, y + dy) && dx * dx + dy * dy <= r * r {
        1int
    } else {
        0int
    }
}

/// Weighted sum over the first `m` offsets of row `dy`.
pub open spec fn v1_row_sum(
    g: Seq<Seq<i64>>,
    w: int,
    h: int,
    x: int,
    y: int,
    deg: int,
    r: int,
    dy: int,
    m: nat,
) -> int
    decreases m,
{
    if m == 0 {
        0
    } else {
        v1_row_sum(g, w, h, x, y, deg, r, dy, (m - 1) as nat) + v1_term(
            g, w, h, x, y, deg, r, -r + (m - 1), dy,
        )
    }
}

/// Sampled-offset count over the first `m` offsets of row `dy`.
pub open spec fn v1_row_count(
    g: Seq<Seq<i64>>,
    w: int,
    h: int,
    x: int,
    y: int,
    r: int,
    dy: int,
    m: nat,
) -> int
    decreases m,
{
    if m == 0 {
        0
    } else {
        v1_row_count(g, w, h, x, y, r, dy, (m - 1) as nat) + v1_term_count(
            g, w, h, x, y, r, -r + (m - 1), dy,
        )
    }
}

/// Weighted sum over the first `n` rows of the sampling box.
pub open spec fn v1_sum(
    g: Seq<Seq<i64>>,
    w: int,
    h: int,
    x: int,
    y: int,
    deg: int,
    r: int,
    n: nat,
) -> int
    decreases n,
{
    if n == 0 {
        0
    } else {
        v1_sum(g, w, h, x, y, deg, r, (n - 1) as nat) + v1_row_sum(
            g, w, h, x, y, deg, r, -r + (n - 1), (2 * r + 1) as nat,
        )
    }
}

/// Sampled-offset count over the first `n` rows of the sampling box.
pub open spec fn v1_count(
    g: Seq<Seq<i64>>,
    w: int,
    h: int,
    x: int,
    y: int,
    r: int,
    n: nat,
) -> int
    decreases n,
{
    if n == 0 {
        0
    } else {
        v1_count(g, w, h, x, y, r, (n - 1) as nat) + v1_row_count(
            g, w, h, x, y, r, -r + (n - 1), (2 * r + 1) as nat,
        )
    }
}

/// Raw activation: accumulated weighted response divided by the number of
/// sampled offsets, rectified; 0 when nothing was sampled.
pub open spec fn v1_raw_activation(
    g: Seq<Seq<i64>>,
    w: int,
    h: int,
    x: int,
    y: int,
    deg: int,
    r: int,
) -> int {
    let n = (2 * r + 1) as nat;
    let s = v1_sum(g, w, h, x, y, deg, r, n);
    let c = v1_count(g, w, h, x, y, r, n);
    if c > 0 {
        let a = s / (c * SCALE);
        if a > 0 {
            a
        } else {
            0
        }
    } else {
        0
    }
}

/// Activation of a neuron of the given type: complex neurons boost the raw
/// activation by the factor 1.2.
pub open spec fn v1_activation_spec(
    g: Seq<Seq<i64>>,
    w: int,
    h: int,
    x: int,
    y: int,
    deg: int,
    r: int,
    kind: V1NeuronType,
) -> int {
    let a = v1_raw_activation(g, w, h, x, y, deg, r);
    if kind is Complex {
        (a * 6) / 5
    } else {
        a
    }
}

/// Every Gaussian weight lies in `0 ..= SCALE`.
pub proof fn lemma_weight_bounds(deg: int, dx: int, dy: int, r: int)
    ensures
        0 <= orient_weight(deg, dx, dy, r) <= SCALE,
{
}

/// Row and box sums are between 0 and `V1_TERM_MAX` per sampled offset.
proof fn lemma_v1_row_sum_bounds(
    g: Seq<Seq<i64>>,
    w: int,
    h: int,
    x: int,
    y: int,
    deg: int,
    r: int,
    dy: int,
    m: nat,
)
    requires
        grid_wf(g, w, h, EDGE_MAX as int),
    ensures
        0 <= v1_row_count(g, w, h, x, y, r, dy, m) <= m,
        0 <= v1_row_sum(g, w, h, x, y, deg, r, dy, m) <= V1_TERM_MAX * v1_row_count(
            g, w, h, x, y, r, dy, m,
        ),
    decreases m,
{
    if m > 0 {
        lemma_v1_row_sum_bounds(g, w, h, x, y, deg, r, dy, (m - 1) as nat);
        let dx = -r + (m - 1);
        lemma_weight_bounds(deg, dx, dy, r);
        if in_grid(w, h, x + dx, y + dy) && dx * dx + dy * dy <= r * r {
            vstd::arithmetic::mul::lemma_mul_upper_bound(
                g[y + dy][x + dx] as int, EDGE_MAX as int, orient_weight(deg, dx, dy, r),
                SCALE as int,
            );
            vstd::arithmetic::mul::lemma_mul_nonnegative(
                g[y + dy][x + dx] as int, orient_weight(deg, dx, dy, r),
            );
        }
    }
}

/// Box-level bounds of the weighted sum and the sample count.
pub proof fn lemma_v1_sum_bounds(
    g: Seq<Seq<i64>>,
    w: int,
    h: int,
    x: int,
    y: int,
    deg: int,
    r: int,
    n: nat,
)
    requires
        grid_wf(g, w, h, EDGE_MAX as int),
        r >= 0,
    ensures
        0 <= v1_count(g, w, h, x, y, r, n) <= n * (2 * r + 1),
        0 <= v1_sum(g, w, h, x, y, deg, r, n) <= V1_TERM_MAX * v1_count(g, w, h, x, y, r, n),
    decreases n,
{
    if n > 0 {
        lemma_v1_sum_bounds(g, w, h, x, y, deg, r, (n - 1) as nat);
        lemma_v1_row_sum_bounds(g, w, h, x, y, deg, r, -r + (n - 1), (2 * r + 1) as nat);
        assert((n - 1) * (2 * r + 1) + (2 * r + 1) == n * (2 * r + 1)) by (nonlinear_arith);
    }
}

/// Numeric cap on a partially accumulated sample count of a sampling box
/// with at most 205 rows and columns.
proof fn lemma_v1_partial_cap(c: int, n: int, m: int, b: int)
    requires
        0 <= c,
        c <= n * b + m,
        0 <= n <= b,
        0 <= m <= b,
        b <= 205,
    ensures
        c <= 42230,
{
    assert(n * b <= 205 * 205) by (nonlinear_arith)
        requires
            0 <= n <= b <= 205,
    ;
}

/// The raw activation lies in `0 ..= EDGE_MAX`.
pub proof fn lemma_v1_raw_bounds(
    g: Seq<Seq<i64>>,
    w: int,
    h: int,
    x: int,
    y: int,
    deg: int,
    r: int,
)
    requires
        grid_wf(g, w, h, EDGE_MAX as int),
        r >= 0,
    ensures
        0 <= v1_raw_activation(g, w, h, x, y, deg, r) <= EDGE_MAX,
{
    let n = (2 * r + 1) as nat;
    let s = v1_sum(g, w, h, x, y, deg, r, n);
    let c = v1_count(g, w, h, x, y, r, n);
    lemma_v1_sum_bounds(g, w, h, x, y, deg, r, n);
    if c > 0 {
        let d = c * SCALE;
        assert(c * 1000000 > 0 && 200000000000000 * c == (c * 1000000) * 200000000)
            by (nonlinear_arith)
            requires
                c > 0,
        ;
        assert(d == c * 1000000 && d > 0 && V1_TERM_MAX * c == d * EDGE_MAX);
        lemma_div_pos_is_pos(s, d);
        lemma_div_is_ordered(s, d * EDGE_MAX, d);
        lemma_div_multiples_vanish(EDGE_MAX as int, d);
    }
}

/// V1 neuron with orientation selectivity.
///
/// The geometry fields are fixed at construction; the activation is fully
/// recomputed by every [`V1Neuron::compute_response`] call.
#[derive(Debug, Clone, Copy)]
pub struct V1Neuron {
    /// Unique identifier.
    pub id: usize,
    /// Simple or complex.
    pub neuron_type: V1NeuronType,
    /// Horizontal position in the visual field.
    pub x: usize,
    /// Vertical position in the visual field.
    pub y: usize,
    /// The preferred orientation.
    pub preferred_orientation: Orientation,
    /// Receptive-field radius in pixels.
    pub receptive_field_size: usize,
    /// Current activation, fixed point.
    pub activation: i64,
}

impl V1Neuron {
    /// The geometry of the neuron is within the machine limits of the model.
    pub open spec fn geom_wf(self) -> bool {
        &&& self.x <= MAX_DIM
        &&& self.y <= MAX_DIM
        &&& self.receptive_field_size <= MAX_RF + 2
    }

    /// The activation holds a value the model can produce.
    pub open spec fn state_wf(self) -> bool {
        0 <= self.activation <= V1_ACT_MAX
    }

    /// The activation is exactly the response of this neuron to `g`.
    pub open spec fn responds_to(self, g: Seq<Seq<i64>>) -> bool {
        self.activation == v1_activation_spec(
            g, gw(g), gh(g), self.x as int, self.y as int,
            self.preferred_orientation.degrees as int, self.receptive_field_size as int,
            self.neuron_type,
        )
    }

    /// Creates a new V1 neuron.
    pub fn new(
        id: usize,
        neuron_type: V1NeuronType,
        x: usize,
        y: usize,
        preferred_orientation: Orientation,
        receptive_field_size: usize,
    ) -> (r: V1Neuron)
        ensures
            r == (V1Neuron {
                id,
                neuron_type,
                x,
                y,
                preferred_orientation,
                receptive_field_size,
                activation: 0i64,
            }),
            r.state_wf(),
    {
        V1Neuron { id, neuron_type, x, y, preferred_orientation, receptive_field_size, activation: 0 }
    }

    /// Returns the neuron ID.
    pub fn id(&self) -> (r: usize)
        ensures
            r == self.id,
    {
        self.id
    }

    /// Returns the neuron type.
    pub fn neuron_type(&self) -> (r: V1NeuronType)
        ensures
            r == self.neuron_type,
    {
        self.neuron_type
    }

    /// Returns the preferred orientation.
    pub fn preferred_orientation(&self) -> (r: Orientation)
        ensures
            r == self.preferred_orientation,
    {
        self.preferred_orientation
    }

    /// Returns the current activation, fixed point.
    pub fn activation(&self) -> (r: i64)
        ensures
            r == self.activation,
    {
        self.activation
    }

    /// Returns whether this neuron is significantly activated, that is,
    /// strictly above the fixed-point threshold.
    pub fn is_active(&self, threshold: i64) -> (r: bool)
        ensures
            r == (self.activation > threshold),
    {
        self.activation > threshold
    }

    /// Computes the oriented filter response to an edge map.
    ///
    /// Every offset within the circular receptive field that lies on the
    /// grid is sampled; a sample contributes its edge value weighted by the
    /// Gaussian of its perpendicular distance from the preferred axis, and 0
    /// when it leaves the narrow band along that axis. The activation is the
    /// rectified average over all sampled offsets, boosted by 1.2 for
    /// complex neurons.
    #[verifier::loop_isolation(false)]
    pub fn compute_response(&mut self, edge_map: &Vec<Vec<i64>>)
        requires
            old(self).geom_wf(),
            grid_wf(
                rows_view(edge_map@), gw(rows_view(edge_map@)), gh(rows_view(edge_map@)),
                EDGE_MAX as int,
            ),
            gw(rows_view(edge_map@)) <= MAX_DIM,
            gh(rows_view(edge_map@)) <= MAX_DIM,
        ensures
            final(self).id == old(self).id,
            final(self).neuron_type == old(self).neuron_type,
            final(self).x == old(self).x,
            final(self).y == old(self).y,
            final(self).preferred_orientation == old(self).preferred_orientation,
            final(self).receptive_field_size == old(self).receptive_field_size,
            final(self).responds_to(rows_view(edge_map@)),
            final(self).state_wf(),
    {
        let ghost g = rows_view(edge_map@);
        let h = edge_map.len();
        let w = if h > 0 { edge_map[0].len() } else { 0 };
        assert(w == gw(g) && h == gh(g));

        let r = self.receptive_field_size as i64;
        assert(0 <= r <= 102);
        assert(0 <= r * r <= 10404) by (nonlinear_arith)
            requires
                0 <= r <= 102,
        ;
        let deg = self.preferred_orientation.degrees;
        let x = self.x as i64;
        let y = self.y as i64;

        let mut sum: i64 = 0;
        let mut cnt: i64 = 0;

        let mut dy: i64 = -r;
        while dy <= r
            invariant
                -r <= dy <= r + 1,
                cnt == v1_count(g, w as int, h as int, x as int, y as int, r as int, (dy + r) as nat),
                sum == v1_sum(g, w as int, h as int, x as int, y as int, deg as int, r as int, (dy + r) as nat),
            decreases r + 1 - dy,
        {
            let ghost n0 = (dy + r) as nat;
            let mut dx: i64 = -r;
            while dx <= r
                invariant
                    -r <= dx <= r + 1,
                    cnt == v1_count(g, w as int, h as int, x as int, y as int, r as int, n0)
                        + v1_row_count(g, w as int, h as int, x as int, y as int, r as int, dy as int, (dx + r) as nat),
                    sum == v1_sum(g, w as int, h as int, x as int, y as int, deg as int, r as int, n0)
                        + v1_row_sum(g, w as int, h as int, x as int, y as int, deg as int, r as int, dy as int, (dx + r) as nat),
                decreases r + 1 - dx,
            {
                proof {
                    lemma_v1_sum_bounds(g, w as int, h as int, x as int, y as int, deg as int, r as int, n0);
                    lemma_v1_row_sum_bounds(g, w as int, h as int, x as int, y as int, deg as int, r as int, dy as int, (dx + r) as nat);
                    lemma_v1_partial_cap(cnt as int, n0 as int, (dx + r) as int, 2 * r + 1);
                    assert(sum <= V1_TERM_MAX * cnt);
                }
                let px = x + dx;
                let py = y + dy;
                if px >= 0 && py >= 0 && (px as usize) < w && (py as usize) < h {
                    assert(g[py as int].len() == w as int);
                    assert(g[py as int] == edge_map@[py as int]@);
                    assert(0 <= dx * dx <= 10404 && 0 <= dy * dy <= 10404) by (nonlinear_arith)
                        requires
                            -102 <= dx <= 102,
                            -102 <= dy <= 102,
                    ;
                    let d2 = dx * dx + dy * dy;
                    if d2 <= r * r {
                        cnt = cnt + 1;
                        let v = edge_map[py as usize][px as usize];
                        let wgt = orientation_weight(deg, dx, dy, r);
                        proof {
                            vstd::arithmetic::mul::lemma_mul_upper_bound(
                                v as int, EDGE_MAX as int, wgt as int, SCALE as int,
                            );
                            vstd::arithmetic::mul::lemma_mul_nonnegative(v as int, wgt as int);
                        }
                        sum = sum + v * wgt;
                    }
                }
                dx = dx + 1;
            }
            dy = dy + 1;
        }

        proof {
            lemma_v1_sum_bounds(
                g, w as int, h as int, x as int, y as int, deg as int, r as int, (2 * r + 1) as nat,
            );
            lemma_v1_raw_bounds(g, w as int, h as int, x as int, y as int, deg as int, r as int);
        }
        assert(cnt <= 42230) by (nonlinear_arith)
            requires
                cnt <= (2 * r + 1) * (2 * r + 1),
                0 <= r <= 102,
        ;
        let raw: i64;
        if cnt > 0 {
            let a = sum / (cnt * SCALE);
            proof {
                lemma_div_pos_is_pos(sum as int, cnt as int * SCALE as int);
            }
            raw = if a > 0 { a } else { 0 };
        } else {
            raw = 0;
        }
        self.activation = match self.neuron_type {
            V1NeuronType::Simple => raw,
            V1NeuronType::Complex => (raw * 6) / 5,
        };
        proof {
            if self.neuron_type is Complex {
                lemma_div_pos_is_pos(raw as int * 6, 5);
                lemma_div_is_ordered(raw as int * 6, EDGE_MAX as int * 6, 5);
            }
        }
    }
}

/// The executable orientation weight: the table of Gaussian factors behind
/// [`orient_weight`].
pub fn orientation_weight(deg: u32, dx: i64, dy: i64, r: i64) -> (w: i64)
    requires
        -110 <= dx <= 110,
        -110 <= dy <= 110,
        0 <= r <= 110,
    ensures
        w as int == orient_weight(deg as int, dx as int, dy as int, r as int),
        0 <= w <= SCALE,
{
    proof {
        assert(0 <= dx * dx <= 48400 && 0 <= dy * dy <= 48400 && 0 <= r * r <= 48400 && 0 <= (dx
            - dy) * (dx - dy) <= 48400 && 0 <= (dx + dy) * (dx + dy) <= 48400) by (nonlinear_arith)
            requires
                -110 <= dx <= 110,
                -110 <= dy <= 110,
                0 <= r <= 110,
        ;
    }
    if deg == 0 {
        if 4 * (dy * dy) < 16 && dx * dx <= r * r {
            gauss_table(4 * (dy * dy))
        } else {
            0
        }
    } else if deg == 90 {
        if 4 * (dx * dx) < 16 && dy * dy <= r * r {
            gauss_table(4 * (dx * dx))
        } else {
            0
        }
    } else if deg == 45 {
        if 2 * ((dx - dy) * (dx - dy)) < 16 && (dx + dy) * (dx + dy) <= 2 * (r * r) {
            gauss_table(2 * ((dx - dy) * (dx - dy)))
        } else {
            0
        }
    } else if deg == 135 {
        if 2 * ((dx + dy) * (dx + dy)) < 16 && (dx - dy) * (dx - dy) <= 2 * (r * r) {
            gauss_table(2 * ((dx + dy) * (dx + dy)))
        } else {
            0
        }
    } else {
        0
    }
}

/// The executable Gaussian table behind [`gauss_weight`].
fn gauss_table(q: i64) -> (w: i64)
    ensures
        w as int == gauss_weight(q as int),
        0 <= w <= SCALE,
{
    if q == 0 {
        GAUSS_Q0
    } else if q == 2 {
        GAUSS_Q2
    } else if q == 4 {
        GAUSS_Q4
    } else if q == 8 {
        GAUSS_Q8
    } else {
        0
    }
}

/// The preferred angle of orientation slot `o` of a column group, in the
/// fixed order the layer evaluates them.
pub open spec fn deg_of(o: int) -> int {
    if o == 0 {
        0
    } else if o == 1 {
        45
    } else if o == 2 {
        90
    } else {
        135
    }
}

/// Activation of a whole column against grid `g`: the larger of its simple
/// and complex neuron responses.
pub open spec fn col_activation_spec(
    g: Seq<Seq<i64>>,
    w: int,
    h: int,
    x: int,
    y: int,
    deg: int,
    rf: int,
) -> int {
    let s = v1_activation_spec(g, w, h, x, y, deg, rf, V1NeuronType::Simple);
    let c = v1_activation_spec(g, w, h, x, y, deg, rf + 2, V1NeuronType::Complex);
    if s >= c {
        s
    } else {
        c
    }
}

/// V1 cortical column: a simple and a complex neuron sharing one position
/// and preferred orientation; the complex neuron pools over a field larger
/// by 2 pixels.
#[derive(Debug, Clone, Copy)]
pub struct V1Column {
    /// The simple neuron of the column.
    pub simple: V1Neuron,
    /// The complex neuron of the column.
    pub complex: V1Neuron,
    /// The shared preferred orientation.
    pub orientation: Orientation,
}

/// The column sits at `(x, y)` with angle `deg` and simple radius `rf`.
pub open spec fn col_wf(col: V1Column, x: int, y: int, deg: int, rf: int) -> bool {
    &&& col.simple.neuron_type is Simple
    &&& col.simple.x as int == x
    &&& col.simple.y as int == y
    &&& col.simple.preferred_orientation.degrees as int == deg
    &&& col.simple.receptive_field_size as int == rf
    &&& col.complex.neuron_type is Complex
    &&& col.complex.x as int == x
    &&& col.complex.y as int == y
    &&& col.complex.preferred_orientation.degrees as int == deg
    &&& col.complex.receptive_field_size as int == rf + 2
    &&& col.orientation.degrees as int == deg
    &&& col.simple.geom_wf()
    &&& col.complex.geom_wf()
    &&& col.simple.state_wf()
    &&& col.complex.state_wf()
}

/// Both neurons of the column hold their response to grid `g`.
pub open spec fn col_responds(col: V1Column, g: Seq<Seq<i64>>) -> bool {
    col.simple.responds_to(g) && col.complex.responds_to(g)
}

/// The column activation read off the stored neuron states.
pub open spec fn col_max_state(col: V1Column) -> int {
    if col.simple.activation >= col.complex.activation {
        col.simple.activation as int
    } else {
        col.complex.activation as int
    }
}

impl V1Column {
    /// Creates a new column: a simple neuron with the given radius and a
    /// complex one with radius larger by 2, both at `(x, y)`.
    pub fn new(start_id: usize, x: usize, y: usize, orientation: Orientation, rf_size: usize) -> (r:
        V1Column)
        requires
            x <= MAX_DIM,
            y <= MAX_DIM,
            rf_size <= MAX_RF,
            start_id < usize::MAX,
        ensures
            col_wf(r, x as int, y as int, orientation.degrees as int, rf_size as int),
            r.simple.id == start_id,
            r.complex.id == start_id + 1,
            r.simple.activation == 0,
            r.complex.activation == 0,
    {
        V1Column {
            simple: V1Neuron::new(start_id, V1NeuronType::Simple, x, y, orientation, rf_size),
            complex: V1Neuron::new(
                start_id + 1,
                V1NeuronType::Complex,
                x,
                y,
                orientation,
                rf_size + 2,
            ),
            orientation,
        }
    }

    /// Processes an edge map through both neurons of this column.
    pub fn process(&mut self, edge_map: &Vec<Vec<i64>>)
        requires
            old(self).simple.geom_wf(),
            old(self).complex.geom_wf(),
            grid_wf(
                rows_view(edge_map@), gw(rows_view(edge_map@)), gh(rows_view(edge_map@)),
                EDGE_MAX as int,
            ),
            gw(rows_view(edge_map@)) <= MAX_DIM,
            gh(rows_view(edge_map@)) <= MAX_DIM,
        ensures
            final(self).simple.id == old(self).simple.id,
            final(self).complex.id == old(self).complex.id,
            final(self).simple.neuron_type == old(self).simple.neuron_type,
            final(self).complex.neuron_type == old(self).complex.neuron_type,
            final(self).simple.x == old(self).simple.x,
            final(self).simple.y == old(self).simple.y,
            final(self).complex.x == old(self).complex.x,
            final(self).complex.y == old(self).complex.y,
            final(self).simple.preferred_orientation == old(self).simple.preferred_orientation,
            final(self).complex.preferred_orientation == old(self).complex.preferred_orientation,
            final(self).simple.receptive_field_size == old(self).simple.receptive_field_size,
            final(self).complex.receptive_field_size == old(self).complex.receptive_field_size,
            final(self).orientation == old(self).orientation,
            col_responds(*final(self), rows_view(edge_map@)),
            final(self).simple.state_wf(),
            final(self).complex.state_wf(),
    {
        self.simple.compute_response(edge_map);
        self.complex.compute_response(edge_map);
    }

    /// Returns the larger of the two neuron activations, fixed point.
    pub fn max_activation(&self) -> (r: i64)
        requires
            self.simple.state_wf(),
            self.complex.state_wf(),
        ensures
            r as int == col_max_state(*self),
            0 <= r <= V1_ACT_MAX,
    {
        if self.simple.activation >= self.complex.activation {
            self.simple.activation
        } else {
            self.complex.activation
        }
    }

    /// Returns the preferred orientation of this column.
    pub fn orientation(&self) -> (r: Orientation)
        ensures
            r == self.orientation,
    {
        self.orientation
    }
}

/// Column `o` of lattice point `(xi, yi)` sits at index
/// `4 * (yi * nx + xi) + o` with the geometry the cortex prescribes.
pub open spec fn col_ok(
    cols: Seq<V1Column>,
    nx: int,
    sp: int,
    rf: int,
    yi: int,
    xi: int,
    o: int,
) -> bool {
    let k = 4 * (yi * nx + xi) + o;
    &&& 0 <= k < cols.len()
    &&& col_wf(cols[k], pos_at(rf, sp, xi), pos_at(rf, sp, yi), deg_of(o), rf)
}

/// The same column holds exactly its response to grid `g`.
pub open spec fn col_resp_ok(
    cols: Seq<V1Column>,
    nx: int,
    g: Seq<Seq<i64>>,
    yi: int,
    xi: int,
    o: int,
) -> bool {
    let k = 4 * (yi * nx + xi) + o;
    &&& 0 <= k < cols.len()
    &&& col_responds(cols[k], g)
}

/// The largest of the four column activations at one lattice point.
pub open spec fn max4(a0: int, a1: int, a2: int, a3: int) -> int {
    let m01 = if a0 >= a1 {
        a0
    } else {
        a1
    };
    let m23 = if a2 >= a3 {
        a2
    } else {
        a3
    };
    if m01 >= m23 {
        m01
    } else {
        m23
    }
}

/// The orientation slot whose column wins at one lattice point: the highest
/// activation, ties resolved toward the slot evaluated last.
pub open spec fn dominant_slot(a0: int, a1: int, a2: int, a3: int) -> int {
    let m = max4(a0, a1, a2, a3);
    if a3 == m {
        3
    } else if a2 == m {
        2
    } else if a1 == m {
        1
    } else {
        0
    }
}

/// The orientation-map cell for four column activations: the winning
/// column's orientation, provided its activation exceeds the threshold.
pub open spec fn orient_cell(a0: int, a1: int, a2: int, a3: int) -> Option<Orientation> {
    let m = max4(a0, a1, a2, a3);
    if m > ORIENT_THRESHOLD {
        Some(Orientation { degrees: deg_of(dominant_slot(a0, a1, a2, a3)) as u32 })
    } else {
        None
    }
}

/// The orientation map a V1 cortex with the given lattice produces from
/// edge map `g`: empty off the lattice, the dominant orientation on it.
pub open spec fn orient_map_spec(
    g: Seq<Seq<i64>>,
    w: int,
    h: int,
    sp: int,
    rf: int,
) -> Seq<Seq<Option<Orientation>>> {
    Seq::new(
        h as nat,
        |y: int|
            Seq::new(
                w as nat,
                |x: int|
                    if is_lattice(rf, w - rf, sp, x) && is_lattice(rf, h - rf, sp, y) {
                        orient_cell(
                            col_activation_spec(g, w, h, x, y, deg_of(0), rf),
                            col_activation_spec(g, w, h, x, y, deg_of(1), rf),
                            col_activation_spec(g, w, h, x, y, deg_of(2), rf),
                            col_activation_spec(g, w, h, x, y, deg_of(3), rf),
                        )
                    } else {
                        None
                    },
            ),
    )
}

/// V1 cortex: columns of all four orientations at every point of a square
/// lattice inset by the receptive-field radius from the frame edges.
#[derive(Debug)]
pub struct V1Cortex {
    /// The columns, row-major over the lattice, four per point in the fixed
    /// orientation order.
    pub columns: Vec<V1Column>,
    /// Width of the visual field.
    pub width: usize,
    /// Height of the visual field.
    pub height: usize,
    /// Distance between neighboring lattice points.
    pub spacing: usize,
    /// Simple-cell receptive-field radius.
    pub rf_size: usize,
}

impl V1Cortex {
    /// Number of lattice columns.
    pub open spec fn nx(self) -> int {
        pos_count(self.rf_size as int, self.width - self.rf_size, self.spacing as int)
    }

    /// Number of lattice rows.
    pub open spec fn ny(self) -> int {
        pos_count(self.rf_size as int, self.height - self.rf_size, self.spacing as int)
    }

    /// The cortex configuration is within machine limits and its column
    /// vector covers the lattice exactly, with the prescribed geometry.
    pub open spec fn wf(self) -> bool {
        &&& self.width <= MAX_DIM
        &&& self.height <= MAX_DIM
        &&& 1 <= self.spacing <= MAX_DIM
        &&& self.rf_size <= MAX_RF
        &&& self.columns@.len() as int == 4 * (self.ny() * self.nx())
        &&& forall|yi: int, xi: int, o: int|
            0 <= yi < self.ny() && 0 <= xi < self.nx() && 0 <= o < 4 ==> #[trigger] col_ok(
                self.columns@, self.nx(), self.spacing as int, self.rf_size as int, yi, xi, o,
            )
    }

    /// Every column holds exactly its response to grid `g`.
    pub open spec fn processed(self, g: Seq<Seq<i64>>) -> bool {
        forall|yi: int, xi: int, o: int|
            0 <= yi < self.ny() && 0 <= xi < self.nx() && 0 <= o < 4 ==> #[trigger] col_resp_ok(
                self.columns@, self.nx(), g, yi, xi, o,
            )
    }

    /// The orientation map read off the stored column states.
    pub open spec fn state_orient_map(self) -> Seq<Seq<Option<Orientation>>> {
        let w = self.width as int;
        let h = self.height as int;
        let sp = self.spacing as int;
        let rf = self.rf_size as int;
        Seq::new(
            h as nat,
            |y: int|
                Seq::new(
                    w as nat,
                    |x: int|
                        if is_lattice(rf, w - rf, sp, x) && is_lattice(rf, h - rf, sp, y) {
                            let yi = lattice_index(rf, sp, y);
                            let xi = lattice_index(rf, sp, x);
                            let k = 4 * (yi * self.nx() + xi);
                            orient_cell(
                                col_max_state(self.columns@[k]),
                                col_max_state(self.columns@[k + 1]),
                                col_max_state(self.columns@[k + 2]),
                                col_max_state(self.columns@[k + 3]),
                            )
                        } else {
                            None
                        },
                ),
        )
    }

    /// Creates a new V1 cortex with columns at regular intervals, every
    /// position carrying all four orientations.
    #[verifier::loop_isolation(false)]
    pub fn new(width: usize, height: usize, spacing: usize, rf_size: usize) -> (r: V1Cortex)
        requires
            1 <= spacing <= MAX_DIM,
            width <= MAX_DIM,
            height <= MAX_DIM,
            rf_size <= MAX_RF,
        ensures
            r.wf(),
            r.width == width,
            r.height == height,
            r.spacing == spacing,
            r.rf_size == rf_size,
    {
        let ghost hi_y = height - rf_size;
        let ghost hi_x = width - rf_size;
        let ghost ny = pos_count(rf_size as int, hi_y, spacing as int);
        let ghost nx = pos_count(rf_size as int, hi_x, spacing as int);
        proof {
            lemma_pos_count_bound_general(rf_size as int, hi_y, spacing as int, MAX_DIM as int);
            lemma_pos_count_bound_general(rf_size as int, hi_x, spacing as int, MAX_DIM as int);
        }
        let mut columns: Vec<V1Column> = Vec::new();
        let mut id: usize = 0;
        let mut y: usize = rf_size;
        let ghost mut yi: int = 0;
        while y + rf_size < height
            invariant
                y <= 2 * MAX_DIM,
                0 <= yi <= ny,
                y as int == pos_at(rf_size as int, spacing as int, yi),
                id == 10 * columns@.len(),
                columns@.len() as int == 4 * (yi * nx),
                forall|y2: int, x2: int, o2: int|
                    0 <= y2 < yi && 0 <= x2 < nx && 0 <= o2 < 4 ==> #[trigger] col_ok(
                        columns@, nx, spacing as int, rf_size as int, y2, x2, o2,
                    ),
            decreases ny - yi,
        {
            proof {
                lemma_mod_multiples_basic(yi, spacing as int);
                lemma_lattice_index(rf_size as int, hi_y, spacing as int, y as int);
                lemma_div_multiples_vanish(yi, spacing as int);
                assert(yi < ny);
            }
            let mut x: usize = rf_size;
            let ghost mut xi: int = 0;
            while x + rf_size < width
                invariant
                    x <= 2 * MAX_DIM,
                    0 <= xi <= nx,
                    x as int == pos_at(rf_size as int, spacing as int, xi),
                    id == 10 * columns@.len(),
                    columns@.len() as int == 4 * (yi * nx + xi),
                    forall|y2: int, x2: int, o2: int|
                        0 <= y2 < yi && 0 <= x2 < nx && 0 <= o2 < 4 ==> #[trigger] col_ok(
                            columns@, nx, spacing as int, rf_size as int, y2, x2, o2,
                        ),
                    forall|x2: int, o2: int|
                        0 <= x2 < xi && 0 <= o2 < 4 ==> #[trigger] col_ok(
                            columns@, nx, spacing as int, rf_size as int, yi, x2, o2,
                        ),
                decreases nx - xi,
            {
                proof {
                    lemma_mod_multiples_basic(xi, spacing as int);
                    lemma_lattice_index(rf_size as int, hi_x, spacing as int, x as int);
                    lemma_div_multiples_vanish(xi, spacing as int);
                    assert(xi < nx);
                    lemma_flat_index(yi, xi, ny, nx);
                    assert(ny * nx <= MAX_DIM * MAX_DIM) by (nonlinear_arith)
                        requires
                            0 <= ny <= MAX_DIM,
                            0 <= nx <= MAX_DIM,
                    ;
                    assert(yi * nx + xi <= 8192 * 8192 + 8192) by (nonlinear_arith)
                        requires
                            0 <= yi <= 8192,
                            0 <= nx <= 8192,
                            0 <= xi <= 8192,
                    ;
                }
                let ghost before = columns@;
                columns.push(V1Column::new(id, x, y, Orientation::horizontal(), rf_size));
                id = id + 10;
                columns.push(V1Column::new(id, x, y, Orientation::diagonal_right(), rf_size));
                id = id + 10;
                columns.push(V1Column::new(id, x, y, Orientation::vertical(), rf_size));
                id = id + 10;
                columns.push(V1Column::new(id, x, y, Orientation::diagonal_left(), rf_size));
                id = id + 10;
                proof {
                    assert forall|y2: int, x2: int, o2: int|
                        0 <= y2 < yi && 0 <= x2 < nx && 0 <= o2 < 4 implies #[trigger] col_ok(
                        columns@, nx, spacing as int, rf_size as int, y2, x2, o2,
                    ) by {
                        assert(col_ok(before, nx, spacing as int, rf_size as int, y2, x2, o2));
                        lemma_flat_index(y2, x2, yi, nx);
                        assert(4 * (y2 * nx + x2) + o2 < before.len());
                    }
                    assert forall|x2: int, o2: int|
                        0 <= x2 < xi + 1 && 0 <= o2 < 4 implies #[trigger] col_ok(
                        columns@, nx, spacing as int, rf_size as int, yi, x2, o2,
                    ) by {
                        if x2 < xi {
                            assert(col_ok(before, nx, spacing as int, rf_size as int, yi, x2, o2));
                            assert(4 * (yi * nx + x2) + o2 < before.len()) by (nonlinear_arith)
                                requires
                                    0 <= x2 < xi,
                                    0 <= o2 < 4,
                                    before.len() == 4 * (yi * nx + xi),
                            ;
                        } else {
                            assert(columns@[4 * (yi * nx + xi) + o2].orientation.degrees as int
                                == deg_of(o2));
                        }
                    }
                    assert((xi + 1) * spacing == xi * spacing + spacing) by (nonlinear_arith);
                    xi = xi + 1;
                }
                x = x + spacing;
            }
            proof {
                if xi < nx {
                    lemma_pos_at_in_range(rf_size as int, hi_x, spacing as int, xi);
                    assert(false);
                }
                assert(4 * (yi * nx + nx) == 4 * ((yi + 1) * nx)) by (nonlinear_arith);
                assert((yi + 1) * spacing == yi * spacing + spacing) by (nonlinear_arith);
                yi = yi + 1;
            }
            y = y + spacing;
        }
        proof {
            if yi < ny {
                lemma_pos_at_in_range(rf_size as int, hi_y, spacing as int, yi);
                assert(false);
            }
        }
        V1Cortex { columns, width, height, spacing, rf_size }
    }

    /// Processes the entire edge map through every column.
    #[verifier::loop_isolation(false)]
    pub fn process_edges(&mut self, edge_map: &Vec<Vec<i64>>)
        requires
            old(self).wf(),
            grid_wf(
                rows_view(edge_map@), gw(rows_view(edge_map@)), gh(rows_view(edge_map@)),
                EDGE_MAX as int,
            ),
            gw(rows_view(edge_map@)) <= MAX_DIM,
            gh(rows_view(edge_map@)) <= MAX_DIM,
        ensures
            final(self).wf(),
            final(self).width == old(self).width,
            final(self).height == old(self).height,
            final(self).spacing == old(self).spacing,
            final(self).rf_size == old(self).rf_size,
            final(self).columns@.len() == old(self).columns@.len(),
            final(self).processed(rows_view(edge_map@)),
    {
        let ghost g = rows_view(edge_map@);
        let ghost orig = *self;
        let mut updated: Vec<V1Column> = Vec::new();
        let mut i: usize = 0;
        let n = self.columns.len();
        while i < n
            invariant
                i <= n,
                updated@.len() == i,
                forall|j: int|
                    0 <= j < i ==> #[trigger] col_recomputed(updated@[j], orig.columns@[j], g),
            decreases n - i,
        {
            let mut col = self.columns[i];
            proof {
                lemma_col_index_decomposition(orig, i as int);
            }
            col.process(edge_map);
            updated.push(col);
            i = i + 1;
        }
        self.columns = updated;
        proof {
            assert forall|yi: int, xi: int, o: int|
                0 <= yi < self.ny() && 0 <= xi < self.nx() && 0 <= o < 4 implies #[trigger] col_ok(
                self.columns@, self.nx(), self.spacing as int, self.rf_size as int, yi, xi, o,
            ) by {
                assert(col_ok(
                    orig.columns@, orig.nx(), orig.spacing as int, orig.rf_size as int, yi, xi, o,
                ));
                let k = 4 * (yi * self.nx() + xi) + o;
                assert(0 <= k < orig.columns@.len());
                assert(col_recomputed(self.columns@[k], orig.columns@[k], g));
            }
            assert forall|yi: int, xi: int, o: int|
                0 <= yi < self.ny() && 0 <= xi < self.nx() && 0 <= o < 4 implies #[trigger] col_resp_ok(
                self.columns@, self.nx(), g, yi, xi, o,
            ) by {
                assert(col_ok(
                    orig.columns@, orig.nx(), orig.spacing as int, orig.rf_size as int, yi, xi, o,
                ));
                let k = 4 * (yi * self.nx() + xi) + o;
                assert(0 <= k < orig.columns@.len());
                assert(col_recomputed(self.columns@[k], orig.columns@[k], g));
            }
        }
    }

    /// Returns all columns.
    pub fn columns(&self) -> (r: &Vec<V1Column>)
        ensures
            r == &self.columns,
    {
        &self.columns
    }

    /// Builds the dominant-orientation map from the stored column states: at
    /// every lattice point, the orientation of the most active of the four
    /// columns there, ties resolved toward the orientation evaluated last,
    /// recorded only above the activation threshold.
    #[verifier::loop_isolation(false)]
    pub fn orientation_map(&self) -> (r: Vec<Vec<Option<Orientation>>>)
        requires
            self.wf(),
        ensures
            rows_view(r@) == self.state_orient_map(),
    {
        let ghost m = self.state_orient_map();
        let sp = self.spacing;
        let rf = self.rf_size;
        let mut rows: Vec<Vec<Option<Orientation>>> = Vec::new();
        let mut y: usize = 0;
        while y < self.height
            invariant
                y <= self.height,
                rows@.len() == y,
                forall|y2: int| 0 <= y2 < y ==> #[trigger] rows@[y2]@ == m[y2],
            decreases self.height - y,
        {
            let mut row: Vec<Option<Orientation>> = Vec::new();
            let mut x: usize = 0;
            while x < self.width
                invariant
                    x <= self.width,
                    row@.len() == x,
                    forall|x2: int| 0 <= x2 < x ==> #[trigger] row@[x2] == m[y as int][x2],
                decreases self.width - x,
            {
                let mut v: Option<Orientation> = None;
                if y >= rf && y + rf < self.height && (y - rf) % sp == 0 && x >= rf && x + rf
                    < self.width && (x - rf) % sp == 0 {
                    let nx = if self.width - rf <= rf {
                        0
                    } else {
                        (self.width - rf - rf - 1) / sp + 1
                    };
                    assert(nx as int == self.nx());
                    let yi = (y - rf) / sp;
                    let xi = (x - rf) / sp;
                    proof {
                        lemma_lattice_index(
                            rf as int, self.height - rf as int, sp as int, y as int,
                        );
                        lemma_lattice_index(rf as int, self.width - rf as int, sp as int, x as int);
                        lemma_flat_index(yi as int, xi as int, self.ny(), self.nx());
                        lemma_pos_count_bound_general(
                            rf as int, self.height - rf as int, sp as int, MAX_DIM as int,
                        );
                        lemma_pos_count_bound_general(
                            rf as int, self.width - rf as int, sp as int, MAX_DIM as int,
                        );
                        assert((yi as int) * (nx as int) + (xi as int) <= 16384 * 16384 + 16384)
                            by (nonlinear_arith)
                            requires
                                0 <= yi as int <= 16384,
                                0 <= nx as int <= 16384,
                                0 <= xi as int <= 16384,
                        ;
                        assert(col_ok(
                            self.columns@, self.nx(), sp as int, rf as int, yi as int, xi as int, 0,
                        ));
                        assert(col_ok(
                            self.columns@, self.nx(), sp as int, rf as int, yi as int, xi as int, 1,
                        ));
                        assert(col_ok(
                            self.columns@, self.nx(), sp as int, rf as int, yi as int, xi as int, 2,
                        ));
                        assert(col_ok(
                            self.columns@, self.nx(), sp as int, rf as int, yi as int, xi as int, 3,
                        ));
                    }
                    let k = 4 * (yi * nx + xi);
                    let a0 = self.columns[k].max_activation();
                    let a1 = self.columns[k + 1].max_activation();
                    let a2 = self.columns[k + 2].max_activation();
                    let a3 = self.columns[k + 3].max_activation();
                    let m01 = if a0 >= a1 { a0 } else { a1 };
                    let m23 = if a2 >= a3 { a2 } else { a3 };
                    let best = if m01 >= m23 { m01 } else { m23 };
                    if best > ORIENT_THRESHOLD {
                        let deg: u32 = if a3 == best {
                            135
                        } else if a2 == best {
                            90
                        } else if a1 == best {
                            45
                        } else {
                            0
                        };
                        v = Some(Orientation { degrees: deg });
                    }
                } else {
                    proof {
                        if is_lattice(rf as int, self.width - rf as int, sp as int, x as int)
                            && is_lattice(
                            rf as int, self.height - rf as int, sp as int, y as int,
                        ) {
                            assert((y as int) >= (rf as int));
                            assert((y as int) + (rf as int) < (self.height as int));
                            assert(((y as int) - (rf as int)) % (sp as int) == 0);
                            assert((x as int) >= (rf as int));
                            assert((x as int) + (rf as int) < (self.width as int));
                            assert(((x as int) - (rf as int)) % (sp as int) == 0);
                        }
                    }
                }
                row.push(v);
                x = x + 1;
            }
            proof {
                assert(row@ =~= m[y as int]);
            }
            rows.push(row);
            y = y + 1;
        }
        proof {
            assert(rows_view(rows@) =~= m);
        }
        rows
    }

    /// On a cortex processed against an edge map of its own dimensions, the
    /// orientation map read off the column states is exactly the orientation
    /// map of that edge map.
    pub proof fn lemma_orient_map_is_spec(self, g: Seq<Seq<i64>>)
        requires
            self.wf(),
            self.processed(g),
            gw(g) == self.width as int,
            gh(g) == self.height as int,
        ensures
            self.state_orient_map() == orient_map_spec(
                g, self.width as int, self.height as int, self.spacing as int, self.rf_size as int,
            ),
    {
        let w = self.width as int;
        let h = self.height as int;
        let sp = self.spacing as int;
        let rf = self.rf_size as int;
        let m1 = self.state_orient_map();
        let m2 = orient_map_spec(g, w, h, sp, rf);
        assert forall|y: int| 0 <= y < h implies m1[y] =~= m2[y] by {
            assert forall|x: int| 0 <= x < w implies m1[y][x] == m2[y][x] by {
                if is_lattice(rf, w - rf, sp, x) && is_lattice(rf, h - rf, sp, y) {
                    lemma_lattice_index(rf, h - rf, sp, y);
                    lemma_lattice_index(rf, w - rf, sp, x);
                    let yi = lattice_index(rf, sp, y);
                    let xi = lattice_index(rf, sp, x);
                    lemma_flat_index(yi, xi, self.ny(), self.nx());
                    assert(col_ok(self.columns@, self.nx(), sp, rf, yi, xi, 0));
                    assert(col_ok(self.columns@, self.nx(), sp, rf, yi, xi, 1));
                    assert(col_ok(self.columns@, self.nx(), sp, rf, yi, xi, 2));
                    assert(col_ok(self.columns@, self.nx(), sp, rf, yi, xi, 3));
                    assert(col_resp_ok(self.columns@, self.nx(), g, yi, xi, 0));
                    assert(col_resp_ok(self.columns@, self.nx(), g, yi, xi, 1));
                    assert(col_resp_ok(self.columns@, self.nx(), g, yi, xi, 2));
                    assert(col_resp_ok(self.columns@, self.nx(), g, yi, xi, 3));
                }
            }
        }
        assert(m1 =~= m2);
    }
}

/// `u` is column `c` with both neuron activations recomputed against `g`.
pub open spec fn col_recomputed(u: V1Column, c: V1Column, g: Seq<Seq<i64>>) -> bool {
    &&& u.simple.id == c.simple.id
    &&& u.complex.id == c.complex.id
    &&& u.simple.neuron_type == c.simple.neuron_type
    &&& u.complex.neuron_type == c.complex.neuron_type
    &&& u.simple.x == c.simple.x
    &&& u.simple.y == c.simple.y
    &&& u.complex.x == c.complex.x
    &&& u.complex.y == c.complex.y
    &&& u.simple.preferred_orientation == c.simple.preferred_orientation
    &&& u.complex.preferred_orientation == c.complex.preferred_orientation
    &&& u.simple.receptive_field_size == c.simple.receptive_field_size
    &&& u.complex.receptive_field_size == c.complex.receptive_field_size
    &&& u.orientation == c.orientation
    &&& col_responds(u, g)
    &&& u.simple.state_wf()
    &&& u.complex.state_wf()
}

/// Decomposes a flat column index of a well-formed cortex into its lattice
/// coordinate, and carries the cortex's per-column facts to that index.
pub proof fn lemma_col_index_decomposition(c: V1Cortex, k: int)
    requires
        c.wf(),
        0 <= k < c.columns@.len(),
    ensures
        c.columns@[k].simple.geom_wf(),
        c.columns@[k].complex.geom_wf(),
        c.columns@[k].simple.state_wf(),
        c.columns@[k].complex.state_wf(),
{
    let nx = c.nx();
    let ny = c.ny();
    lemma_pos_count_bound_general(
        c.rf_size as int, c.width - c.rf_size as int, c.spacing as int, MAX_DIM as int,
    );
    lemma_pos_count_bound_general(
        c.rf_size as int, c.height - c.rf_size as int, c.spacing as int, MAX_DIM as int,
    );
    let p = k / 4;
    let o = k % 4;
    crate::ganglion::lemma_fundamental_div_mod_pair(k, 4);
    assert(0 <= p < ny * nx) by (nonlinear_arith)
        requires
            0 <= k < 4 * (ny * nx),
            k == 4 * p + o,
            0 <= o < 4,
    ;
    assert(nx > 0) by (nonlinear_arith)
        requires
            0 <= p < ny * nx,
            0 <= ny,
    ;
    crate::ganglion::lemma_fundamental_div_mod_pair(p, nx);
    let yi = p / nx;
    let xi = p % nx;
    assert(0 <= yi < ny) by (nonlinear_arith)
        requires
            0 <= p < ny * nx,
            p == nx * yi + xi,
            0 <= xi < nx,
    ;
    assert(col_ok(c.columns@, nx, c.spacing as int, c.rf_size as int, yi, xi, o));
    assert(4 * (yi * nx + xi) + o == k);
}

} // verus!
