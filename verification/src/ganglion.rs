//! Ganglion cells: edge and contrast detection through center-surround
//! receptive fields.
//!
//! A cell sits at a fixed pixel and samples every offset within its surround
//! radius, splitting the samples by Euclidean distance into a center bucket
//! and a surround annulus. Its firing rate is the rectified, 100-fold scaled
//! difference of the two bucket averages. A layer places an ON-center and an
//! OFF-center cell at every point of a square lattice and assembles the dense
//! edge map from their rates.

use vstd::prelude::*;
use crate::fixed::{EDGE_MAX, MAX_DIM, MAX_RADIUS_TENTHS, SCALE};
use crate::grid::{
    gh, grid_wf, gw, in_grid, is_lattice, lattice_index, lemma_flat_index, lemma_lattice_index,
    lemma_pos_at_in_range, lemma_pos_count_bound_general, pos_at, pos_count, rows_view,
};
use vstd::arithmetic::div_mod::lemma_div_is_ordered;
use vstd::arithmetic::div_mod::lemma_div_multiples_vanish;
use vstd::arithmetic::div_mod::lemma_mod_multiples_basic;

verus! {

/// Type of ganglion cell response.
#[derive(Debug, Clone, Copy, PartialEq, Eq, Structural)]
pub enum GanglionType {
    /// ON-center: responds to light in the center, inhibited by light in the surround.
    OnCenter,
    /// OFF-center: responds to dark in the center, inhibited by dark in the surround.
    OffCenter,
}

/// Offset `(dx, dy)` falls in the annulus whose bounds are given as squared
/// radii in tenths of a pixel: strictly beyond `losq`, within `hisq`. A disk
/// is the annulus with `losq == -1`.
pub open spec fn in_ring(dx: int, dy: int, losq: int, hisq: int) -> bool {
    losq < 100 * (dx * dx + dy * dy) <= hisq
}

/// Intensity contributed by offset `(dx, dy)` of the ring, 0 when the sample
/// leaves the grid or the ring.
pub open spec fn ring_cell(
    g: Seq<Seq<i64>>,
    w: int,
    h: int,
    x: int,
    y: int,
    dx: int,
    dy: int,
    lo: int,
    hi: int,
) -> int {
    if in_grid(w, h, x + dx, y + dy) && in_ring(dx, dy, lo, hi) {
        g[y + dy][x + dx] as int
    } else {
        0
    }
}

/// 1 when offset `(dx, dy)` is sampled by the ring, else 0.
pub open spec fn ring_cell_count(
    g: Seq<Seq<i64>>,
    w: int,
    h: int,
    x: int,
    y: int,
    dx: int,
    dy: int,
    lo: int,
    hi: int,
) -> int {
    if in_grid(w, h, x + dx, y + dy) && in_ring(dx, dy, lo, hi) {
        1int
    } else {
        0int
    }
}

/// Sum of the first `m` samples of row `dy`, offsets `-r, -r + 1, ...`.
pub open spec fn ring_row_sum(
    g: Seq<Seq<i64>>,
    w: int,
    h: int,
    x: int,
    y: int,
    r: int,
    lo: int,
    hi: int,
    dy: int,
    m: nat,
) -> int
    decreases m,
{
    if m == 0 {
        0
    } else {
        ring_row_sum(g, w, h, x, y, r, lo, hi, dy, (m - 1) as nat) + ring_cell(
            g, w, h, x, y, -r + (m - 1), dy, lo, hi,
        )
    }
}

/// Number of sampled offsets among the first `m` of row `dy`.
pub open spec fn ring_row_count(
    g: Seq<Seq<i64>>,
    w: int,
    h: int,
    x: int,
    y: int,
    r: int,
    lo: int,
    hi: int,
    dy: int,
    m: nat,
) -> int
    decreases m,
{
    if m == 0 {
        0
    } else {
        ring_row_count(g, w, h, x, y, r, lo, hi, dy, (m - 1) as nat) + ring_cell_count(
            g, w, h, x, y, -r + (m - 1), dy, lo, hi,
        )
    }
}

/// Sum over the first `n` rows of the sampling box, rows `-r, -r + 1, ...`.
pub open spec fn ring_sum(
    g: Seq<Seq<i64>>,
    w: int,
    h: int,
    x: int,
    y: int,
    r: int,
    lo: int,
    hi: int,
    n: nat,
) -> int
    decreases n,
{
    if n == 0 {
        0
    } else {
        ring_sum(g, w, h, x, y, r, lo, hi, (n - 1) as nat) + ring_row_sum(
            g, w, h, x, y, r, lo, hi, -r + (n - 1), (2 * r + 1) as nat,
        )
    }
}

/// Number of sampled offsets over the first `n` rows of the sampling box.
pub open spec fn ring_count(
    g: Seq<Seq<i64>>,
    w: int,
    h: int,
    x: int,
    y: int,
    r: int,
    lo: int,
    hi: int,
    n: nat,
) -> int
    decreases n,
{
    if n == 0 {
        0
    } else {
        ring_count(g, w, h, x, y, r, lo, hi, (n - 1) as nat) + ring_row_count(
            g, w, h, x, y, r, lo, hi, -r + (n - 1), (2 * r + 1) as nat,
        )
    }
}

/// Average of a bucket: 0 when the bucket sampled nothing.
pub open spec fn bucket_avg(sum: int, count: int) -> int {
    if count > 0 {
        sum / count
    } else {
        0
    }
}

/// The center bucket average of a cell at `(x, y)` with center radius `ct`
/// and surround radius `st`, both in tenths of a pixel.
pub open spec fn center_avg_spec(
    g: Seq<Seq<i64>>,
    w: int,
    h: int,
    x: int,
    y: int,
    ct: int,
    st: int,
) -> int {
    let r = st / 10;
    let n = (2 * r + 1) as nat;
    bucket_avg(
        ring_sum(g, w, h, x, y, r, -1, ct * ct, n),
        ring_count(g, w, h, x, y, r, -1, ct * ct, n),
    )
}

/// The surround annulus average of the same cell.
pub open spec fn surround_avg_spec(
    g: Seq<Seq<i64>>,
    w: int,
    h: int,
    x: int,
    y: int,
    ct: int,
    st: int,
) -> int {
    let r = st / 10;
    let n = (2 * r + 1) as nat;
    bucket_avg(
        ring_sum(g, w, h, x, y, r, ct * ct, st * st, n),
        ring_count(g, w, h, x, y, r, ct * ct, st * st, n),
    )
}

/// Rectified, 100-fold scaled center-surround difference: the firing rate.
pub open spec fn rate_spec(kind: GanglionType, c: int, s: int) -> int {
    let resp = if kind is OnCenter {
        c - s
    } else {
        s - c
    };
    if resp > 0 {
        100 * resp
    } else {
        0
    }
}

/// Every ring sum is between 0 and `SCALE` times the matching ring count.
proof fn lemma_ring_row_sum_bounds(
    g: Seq<Seq<i64>>,
    w: int,
    h: int,
    x: int,
    y: int,
    r: int,
    lo: int,
    hi: int,
    dy: int,
    m: nat,
)
    requires
        grid_wf(g, w, h, SCALE as int),
    ensures
        0 <= ring_row_count(g, w, h, x, y, r, lo, hi, dy, m) <= m,
        0 <= ring_row_sum(g, w, h, x, y, r, lo, hi, dy, m) <= SCALE * ring_row_count(
            g, w, h, x, y, r, lo, hi, dy, m,
        ),
    decreases m,
{
    if m > 0 {
        lemma_ring_row_sum_bounds(g, w, h, x, y, r, lo, hi, dy, (m - 1) as nat);
    }
}

/// Box-level version of the sum and count bounds.
pub proof fn lemma_ring_sum_bounds(
    g: Seq<Seq<i64>>,
    w: int,
    h: int,
    x: int,
    y: int,
    r: int,
    lo: int,
    hi: int,
    n: nat,
)
    requires
        grid_wf(g, w, h, SCALE as int),
        r >= 0,
    ensures
        0 <= ring_count(g, w, h, x, y, r, lo, hi, n) <= n * (2 * r + 1),
        0 <= ring_sum(g, w, h, x, y, r, lo, hi, n) <= SCALE * ring_count(
            g, w, h, x, y, r, lo, hi, n,
        ),
    decreases n,
{
    if n > 0 {
        lemma_ring_sum_bounds(g, w, h, x, y, r, lo, hi, (n - 1) as nat);
        lemma_ring_row_sum_bounds(g, w, h, x, y, r, lo, hi, -r + (n - 1), (2 * r + 1) as nat);
        assert((n - 1) * (2 * r + 1) + (2 * r + 1) == n * (2 * r + 1)) by (nonlinear_arith);
    }
}

/// Numeric cap on a partially accumulated bucket count of a sampling box
/// with at most 201 rows and columns.
proof fn lemma_box_partial_cap(c: int, n: int, m: int, b: int)
    requires
        0 <= c,
        c <= n * b + m,
        0 <= n <= b,
        0 <= m <= b,
        b <= 201,
    ensures
        c <= 40602,
{
    assert(n * b <= 201 * 201) by (nonlinear_arith)
        requires
            0 <= n <= b <= 201,
    ;
}

/// A bucket average lies in `0 ..= SCALE`.
pub proof fn lemma_avg_in_range(sum: int, count: int)
    requires
        0 <= sum <= SCALE * count,
    ensures
        0 <= bucket_avg(sum, count) <= SCALE,
{
    if count > 0 {
        lemma_div_is_ordered(0, sum, count);
        lemma_div_is_ordered(sum, SCALE * count, count);
        lemma_div_multiples_vanish(SCALE as int, count);
        assert(SCALE * count == count * SCALE);
    }
}

/// Ganglion cell with a center-surround receptive field.
///
/// The geometry fields are fixed at construction; the activation fields are
/// fully recomputed by every [`GanglionCell::compute_response`] call.
#[derive(Debug, Clone, Copy)]
pub struct GanglionCell {
    /// Unique identifier.
    pub id: usize,
    /// ON-center or OFF-center.
    pub cell_type: GanglionType,
    /// Horizontal position in the visual field.
    pub x: usize,
    /// Vertical position in the visual field.
    pub y: usize,
    /// Radius of the center region, in tenths of a pixel.
    pub center_radius_tenths: usize,
    /// Radius of the surround region, in tenths of a pixel.
    pub surround_radius_tenths: usize,
    /// Average intensity of the center bucket, fixed point.
    pub center_activation: i64,
    /// Average intensity of the surround bucket, fixed point.
    pub surround_activation: i64,
    /// Firing rate, fixed point; at most `100 * SCALE`.
    pub output_rate: i64,
}

impl GanglionCell {
    /// The geometry of the cell is within the machine limits of the model.
    pub open spec fn geom_wf(self) -> bool {
        &&& self.x <= MAX_DIM
        &&& self.y <= MAX_DIM
        &&& self.surround_radius_tenths <= MAX_RADIUS_TENTHS
        &&& self.center_radius_tenths <= MAX_RADIUS_TENTHS
    }

    /// The activation fields hold values the model can produce.
    pub open spec fn state_wf(self) -> bool {
        &&& 0 <= self.center_activation <= SCALE
        &&& 0 <= self.surround_activation <= SCALE
        &&& 0 <= self.output_rate <= 100 * SCALE
    }

    /// The activation fields are exactly the response of this cell to `g`.
    pub open spec fn responds_to(self, g: Seq<Seq<i64>>) -> bool {
        &&& self.center_activation == center_avg_spec(
            g, gw(g), gh(g), self.x as int, self.y as int,
            self.center_radius_tenths as int, self.surround_radius_tenths as int,
        )
        &&& self.surround_activation == surround_avg_spec(
            g, gw(g), gh(g), self.x as int, self.y as int,
            self.center_radius_tenths as int, self.surround_radius_tenths as int,
        )
        &&& self.output_rate == rate_spec(
            self.cell_type, self.center_activation as int, self.surround_activation as int,
        )
    }

    /// Creates a new ganglion cell at `(x, y)` with the given receptive-field
    /// radii, given in tenths of a pixel.
    pub fn new(
        id: usize,
        cell_type: GanglionType,
        x: usize,
        y: usize,
        center_radius_tenths: usize,
        surround_radius_tenths: usize,
    ) -> (r: GanglionCell)
        ensures
            r == (GanglionCell {
                id,
                cell_type,
                x,
                y,
                center_radius_tenths,
                surround_radius_tenths,
                center_activation: 0i64,
                surround_activation: 0i64,
                output_rate: 0i64,
            }),
            r.state_wf(),
    {
        GanglionCell {
            id,
            cell_type,
            x,
            y,
            center_radius_tenths,
            surround_radius_tenths,
            center_activation: 0,
            surround_activation: 0,
            output_rate: 0,
        }
    }

    /// Returns the cell ID.
    pub fn id(&self) -> (r: usize)
        ensures
            r == self.id,
    {
        self.id
    }

    /// Returns the cell type.
    pub fn cell_type(&self) -> (r: GanglionType)
        ensures
            r == self.cell_type,
    {
        self.cell_type
    }

    /// Returns the position.
    pub fn position(&self) -> (r: (usize, usize))
        ensures
            r == (self.x, self.y),
    {
        (self.x, self.y)
    }

    /// Returns the current firing rate, fixed point.
    pub fn firing_rate(&self) -> (r: i64)
        ensures
            r == self.output_rate,
    {
        self.output_rate
    }

    /// Computes the response to an input intensity grid.
    ///
    /// Samples every offset within the surround radius, splits the samples by
    /// distance into center and surround buckets, averages each bucket, and
    /// rectifies and scales the antagonistic difference into a firing rate:
    /// center minus surround for ON-center cells, the opposite for
    /// OFF-center cells.
    #[verifier::loop_isolation(false)]
    pub fn compute_response(&mut self, image: &Vec<Vec<i64>>)
        requires
            old(self).geom_wf(),
            grid_wf(rows_view(image@), gw(rows_view(image@)), gh(rows_view(image@)), SCALE as int),
            gw(rows_view(image@)) <= MAX_DIM,
            gh(rows_view(image@)) <= MAX_DIM,
        ensures
            final(self).id == old(self).id,
            final(self).cell_type == old(self).cell_type,
            final(self).x == old(self).x,
            final(self).y == old(self).y,
            final(self).center_radius_tenths == old(self).center_radius_tenths,
            final(self).surround_radius_tenths == old(self).surround_radius_tenths,
            final(self).responds_to(rows_view(image@)),
            final(self).state_wf(),
    {
        let ghost g = rows_view(image@);
        let h = image.len();
        let w = if h > 0 { image[0].len() } else { 0 };
        assert(w == gw(g) && h == gh(g));

        let ct = self.center_radius_tenths as i64;
        let st = self.surround_radius_tenths as i64;
        assert(0 <= ct <= MAX_RADIUS_TENTHS && 0 <= st <= MAX_RADIUS_TENTHS);
        proof {
            vstd::arithmetic::mul::lemma_mul_upper_bound(
                ct as int, MAX_RADIUS_TENTHS as int, ct as int, MAX_RADIUS_TENTHS as int,
            );
            vstd::arithmetic::mul::lemma_mul_upper_bound(
                st as int, MAX_RADIUS_TENTHS as int, st as int, MAX_RADIUS_TENTHS as int,
            );
            vstd::arithmetic::mul::lemma_mul_nonnegative(ct as int, ct as int);
            vstd::arithmetic::mul::lemma_mul_nonnegative(st as int, st as int);
        }
        let r = st / 10;
        proof {
            lemma_div_is_ordered(st as int, MAX_RADIUS_TENTHS as int, 10);
        }
        assert(0 <= r <= 100);
        let ct2 = ct * ct;
        let st2 = st * st;
        let x = self.x as i64;
        let y = self.y as i64;

        let mut c_sum: i64 = 0;
        let mut c_cnt: i64 = 0;
        let mut s_sum: i64 = 0;
        let mut s_cnt: i64 = 0;

        let mut dy: i64 = -r;
        while dy <= r
            invariant
                -r <= dy <= r + 1,
                c_cnt == ring_count(g, w as int, h as int, x as int, y as int, r as int, -1, ct2 as int, (dy + r) as nat),
                c_sum == ring_sum(g, w as int, h as int, x as int, y as int, r as int, -1, ct2 as int, (dy + r) as nat),
                s_cnt == ring_count(g, w as int, h as int, x as int, y as int, r as int, ct2 as int, st2 as int, (dy + r) as nat),
                s_sum == ring_sum(g, w as int, h as int, x as int, y as int, r as int, ct2 as int, st2 as int, (dy + r) as nat),
            decreases r + 1 - dy,
        {
            let ghost n0 = (dy + r) as nat;
            proof {
                lemma_ring_sum_bounds(g, w as int, h as int, x as int, y as int, r as int, -1, ct2 as int, n0);
                lemma_ring_sum_bounds(g, w as int, h as int, x as int, y as int, r as int, ct2 as int, st2 as int, n0);
            }
            let mut dx: i64 = -r;
            while dx <= r
                invariant
                    -r <= dx <= r + 1,
                    c_cnt == ring_count(g, w as int, h as int, x as int, y as int, r as int, -1, ct2 as int, n0)
                        + ring_row_count(g, w as int, h as int, x as int, y as int, r as int, -1, ct2 as int, dy as int, (dx + r) as nat),
                    c_sum == ring_sum(g, w as int, h as int, x as int, y as int, r as int, -1, ct2 as int, n0)
                        + ring_row_sum(g, w as int, h as int, x as int, y as int, r as int, -1, ct2 as int, dy as int, (dx + r) as nat),
                    s_cnt == ring_count(g, w as int, h as int, x as int, y as int, r as int, ct2 as int, st2 as int, n0)
                        + ring_row_count(g, w as int, h as int, x as int, y as int, r as int, ct2 as int, st2 as int, dy as int, (dx + r) as nat),
                    s_sum == ring_sum(g, w as int, h as int, x as int, y as int, r as int, ct2 as int, st2 as int, n0)
                        + ring_row_sum(g, w as int, h as int, x as int, y as int, r as int, ct2 as int, st2 as int, dy as int, (dx + r) as nat),
                decreases r + 1 - dx,
            {
                proof {
                    lemma_ring_sum_bounds(g, w as int, h as int, x as int, y as int, r as int, -1, ct2 as int, n0);
                    lemma_ring_row_sum_bounds(g, w as int, h as int, x as int, y as int, r as int, -1, ct2 as int, dy as int, (dx + r) as nat);
                    lemma_ring_sum_bounds(g, w as int, h as int, x as int, y as int, r as int, ct2 as int, st2 as int, n0);
                    lemma_ring_row_sum_bounds(g, w as int, h as int, x as int, y as int, r as int, ct2 as int, st2 as int, dy as int, (dx + r) as nat);
                    lemma_box_partial_cap(c_cnt as int, n0 as int, (dx + r) as int, 2 * r + 1);
                    lemma_box_partial_cap(s_cnt as int, n0 as int, (dx + r) as int, 2 * r + 1);
                    assert(c_sum <= SCALE * c_cnt && s_sum <= SCALE * s_cnt);
                }
                let px = x + dx;
                let py = y + dy;
                if px >= 0 && py >= 0 && (px as usize) < w && (py as usize) < h {
                    assert(g[py as int].len() == w as int);
                    assert(g[py as int] == image@[py as int]@);
                    assert(0 <= dx * dx <= 10000 && 0 <= dy * dy <= 10000) by (nonlinear_arith)
                        requires
                            -100 <= dx <= 100,
                            -100 <= dy <= 100,
                    ;
                    let d2 = dx * dx + dy * dy;
                    let hund = 100 * d2;
                    let v = image[py as usize][px as usize];
                    assert(v == g[py as int][px as int]);
                    if hund <= ct2 {
                        c_sum = c_sum + v;
                        c_cnt = c_cnt + 1;
                    } else if hund <= st2 {
                        s_sum = s_sum + v;
                        s_cnt = s_cnt + 1;
                    }
                }
                dx = dx + 1;
            }
            dy = dy + 1;
        }

        proof {
            lemma_ring_sum_bounds(g, w as int, h as int, x as int, y as int, r as int, -1, ct2 as int, (2 * r + 1) as nat);
            lemma_ring_sum_bounds(g, w as int, h as int, x as int, y as int, r as int, ct2 as int, st2 as int, (2 * r + 1) as nat);
            lemma_avg_in_range(c_sum as int, c_cnt as int);
            lemma_avg_in_range(s_sum as int, s_cnt as int);
        }

        self.center_activation = if c_cnt > 0 { c_sum / c_cnt } else { 0 };
        self.surround_activation = if s_cnt > 0 { s_sum / s_cnt } else { 0 };

        let resp = match self.cell_type {
            GanglionType::OnCenter => self.center_activation - self.surround_activation,
            GanglionType::OffCenter => self.surround_activation - self.center_activation,
        };
        self.output_rate = if resp > 0 { 100 * resp } else { 0 };
    }

    /// Returns the center-surround difference (positive = active), fixed point.
    pub fn response_strength(&self) -> (r: i64)
        requires
            self.state_wf(),
        ensures
            self.cell_type is OnCenter ==> r == self.center_activation - self.surround_activation,
            self.cell_type is OffCenter ==> r == self.surround_activation - self.center_activation,
    {
        match self.cell_type {
            GanglionType::OnCenter => self.center_activation - self.surround_activation,
            GanglionType::OffCenter => self.surround_activation - self.center_activation,
        }
    }
}

/// Cell `b` (0 = ON, 1 = OFF) of lattice point `(xi, yi)` sits at index
/// `2 * (yi * nx + xi) + b` and has the geometry the layer prescribes.
pub open spec fn cell_geom_ok(
    cells: Seq<GanglionCell>,
    nx: int,
    sp: int,
    ct: int,
    st: int,
    yi: int,
    xi: int,
    b: int,
) -> bool {
    let k = 2 * (yi * nx + xi) + b;
    &&& 0 <= k < cells.len()
    &&& cells[k].id as int == k
    &&& cells[k].cell_type == (if b == 0 {
        GanglionType::OnCenter
    } else {
        GanglionType::OffCenter
    })
    &&& cells[k].x as int == pos_at(0, sp, xi)
    &&& cells[k].y as int == pos_at(0, sp, yi)
    &&& cells[k].center_radius_tenths as int == ct
    &&& cells[k].surround_radius_tenths as int == st
    &&& cells[k].geom_wf()
    &&& cells[k].state_wf()
}

/// `u` is `c` with its activation fields recomputed against grid `g`.
pub open spec fn recomputed_from(u: GanglionCell, c: GanglionCell, g: Seq<Seq<i64>>) -> bool {
    &&& u.id == c.id
    &&& u.cell_type == c.cell_type
    &&& u.x == c.x
    &&& u.y == c.y
    &&& u.center_radius_tenths == c.center_radius_tenths
    &&& u.surround_radius_tenths == c.surround_radius_tenths
    &&& u.responds_to(g)
    &&& u.state_wf()
}

/// The same cell holds exactly the response to grid `g`.
pub open spec fn cell_resp_ok(
    cells: Seq<GanglionCell>,
    nx: int,
    g: Seq<Seq<i64>>,
    yi: int,
    xi: int,
    b: int,
) -> bool {
    let k = 2 * (yi * nx + xi) + b;
    &&& 0 <= k < cells.len()
    &&& cells[k].responds_to(g)
}

/// The dense edge map of a grid: zero everywhere except at the lattice
/// points, where the ON and OFF firing rates of that point accumulate.
pub open spec fn edge_cell_spec(
    g: Seq<Seq<i64>>,
    w: int,
    h: int,
    x: int,
    y: int,
    ct: int,
    st: int,
) -> i64 {
    let c = center_avg_spec(g, w, h, x, y, ct, st);
    let s = surround_avg_spec(g, w, h, x, y, ct, st);
    (rate_spec(GanglionType::OnCenter, c, s) + rate_spec(GanglionType::OffCenter, c, s)) as i64
}

/// The edge map that a ganglion layer with the given lattice and radii
/// produces from grid `g`.
pub open spec fn edge_map_spec(
    g: Seq<Seq<i64>>,
    w: int,
    h: int,
    sp: int,
    ct: int,
    st: int,
) -> Seq<Seq<i64>> {
    Seq::new(
        h as nat,
        |y: int|
            Seq::new(
                w as nat,
                |x: int|
                    if is_lattice(0, w, sp, x) && is_lattice(0, h, sp, y) {
                        edge_cell_spec(g, w, h, x, y, ct, st)
                    } else {
                        0i64
                    },
            ),
    )
}

/// Layer of ganglion cells covering a visual field: one ON and one OFF cell
/// at every point of a square lattice with the configured spacing.
#[derive(Debug)]
pub struct GanglionLayer {
    /// The cells, row-major over the lattice, ON before OFF at each point.
    pub cells: Vec<GanglionCell>,
    /// Width of the visual field.
    pub width: usize,
    /// Height of the visual field.
    pub height: usize,
    /// Distance between neighboring lattice points.
    pub spacing: usize,
    /// Center radius of every cell, in tenths of a pixel.
    pub center_radius_tenths: usize,
    /// Surround radius of every cell, in tenths of a pixel.
    pub surround_radius_tenths: usize,
}

impl GanglionLayer {
    /// Number of lattice columns.
    pub open spec fn nx(self) -> int {
        pos_count(0, self.width as int, self.spacing as int)
    }

    /// Number of lattice rows.
    pub open spec fn ny(self) -> int {
        pos_count(0, self.height as int, self.spacing as int)
    }

    /// The layer's configuration is within machine limits and its cell vector
    /// covers the lattice exactly, with the prescribed geometry.
    pub open spec fn wf(self) -> bool {
        &&& self.width <= MAX_DIM
        &&& self.height <= MAX_DIM
        &&& 1 <= self.spacing <= MAX_DIM
        &&& self.center_radius_tenths <= MAX_RADIUS_TENTHS
        &&& self.surround_radius_tenths <= MAX_RADIUS_TENTHS
        &&& self.cells@.len() as int == 2 * (self.ny() * self.nx())
        &&& forall|yi: int, xi: int, b: int|
            0 <= yi < self.ny() && 0 <= xi < self.nx() && 0 <= b < 2 ==> #[trigger] cell_geom_ok(
                self.cells@,
                self.nx(),
                self.spacing as int,
                self.center_radius_tenths as int,
                self.surround_radius_tenths as int,
                yi,
                xi,
                b,
            )
    }

    /// Every cell holds exactly its response to grid `g`.
    pub open spec fn processed(self, g: Seq<Seq<i64>>) -> bool {
        forall|yi: int, xi: int, b: int|
            0 <= yi < self.ny() && 0 <= xi < self.nx() && 0 <= b < 2 ==> #[trigger] cell_resp_ok(
                self.cells@,
                self.nx(),
                g,
                yi,
                xi,
                b,
            )
    }

    /// The two configuration-independent views of the edge map agree: the map
    /// read off the cell states of a processed layer is the edge map of the
    /// grid itself.
    pub open spec fn state_edge_map(self) -> Seq<Seq<i64>> {
        Seq::new(
            self.height as nat,
            |y: int|
                Seq::new(
                    self.width as nat,
                    |x: int|
                        if is_lattice(0, self.width as int, self.spacing as int, x) && is_lattice(
                            0,
                            self.height as int,
                            self.spacing as int,
                            y,
                        ) {
                            let nx = self.nx();
                            let yi = lattice_index(0, self.spacing as int, y);
                            let xi = lattice_index(0, self.spacing as int, x);
                            let k = 2 * (yi * nx + xi);
                            (self.cells@[k].output_rate + self.cells@[k + 1].output_rate) as i64
                        } else {
                            0i64
                        },
                ),
        )
    }

    /// The edge map read off a well-formed layer is a well-formed grid of
    /// the layer's dimensions with values bounded by `EDGE_MAX`.
    pub proof fn lemma_state_edge_map_wf(self)
        requires
            self.wf(),
        ensures
            grid_wf(self.state_edge_map(), self.width as int, self.height as int, EDGE_MAX as int),
            gh(self.state_edge_map()) == self.height,
            self.height > 0 ==> gw(self.state_edge_map()) == self.width,
    {
        let m = self.state_edge_map();
        let w = self.width as int;
        let h = self.height as int;
        let sp = self.spacing as int;
        assert forall|y: int, x: int| in_grid(w, h, x, y) implies 0 <= #[trigger] m[y][x]
            <= EDGE_MAX by {
            if is_lattice(0, w, sp, x) && is_lattice(0, h, sp, y) {
                lemma_lattice_index(0, h, sp, y);
                lemma_lattice_index(0, w, sp, x);
                let yi = lattice_index(0, sp, y);
                let xi = lattice_index(0, sp, x);
                lemma_flat_index(yi, xi, self.ny(), self.nx());
                assert(cell_geom_ok(
                    self.cells@, self.nx(), sp, self.center_radius_tenths as int,
                    self.surround_radius_tenths as int, yi, xi, 0,
                ));
                assert(cell_geom_ok(
                    self.cells@, self.nx(), sp, self.center_radius_tenths as int,
                    self.surround_radius_tenths as int, yi, xi, 1,
                ));
            }
        }
    }

    /// On a layer processed against grid `g` of its own dimensions, the map
    /// read off the cell states is exactly the edge map of `g`: the stored
    /// per-cell responses carry no information beyond the input frame.
    pub proof fn lemma_edge_map_is_spec(self, g: Seq<Seq<i64>>)
        requires
            self.wf(),
            self.processed(g),
            gw(g) == self.width as int,
            gh(g) == self.height as int,
        ensures
            self.state_edge_map() == edge_map_spec(
                g, self.width as int, self.height as int, self.spacing as int,
                self.center_radius_tenths as int, self.surround_radius_tenths as int,
            ),
    {
        let w = self.width as int;
        let h = self.height as int;
        let sp = self.spacing as int;
        let ct = self.center_radius_tenths as int;
        let st = self.surround_radius_tenths as int;
        let m1 = self.state_edge_map();
        let m2 = edge_map_spec(g, w, h, sp, ct, st);
        assert forall|y: int| 0 <= y < h implies m1[y] =~= m2[y] by {
            assert forall|x: int| 0 <= x < w implies m1[y][x] == m2[y][x] by {
                if is_lattice(0, w, sp, x) && is_lattice(0, h, sp, y) {
                    lemma_lattice_index(0, h, sp, y);
                    lemma_lattice_index(0, w, sp, x);
                    let yi = lattice_index(0, sp, y);
                    let xi = lattice_index(0, sp, x);
                    lemma_flat_index(yi, xi, self.ny(), self.nx());
                    assert(cell_geom_ok(self.cells@, self.nx(), sp, ct, st, yi, xi, 0));
                    assert(cell_geom_ok(self.cells@, self.nx(), sp, ct, st, yi, xi, 1));
                    assert(cell_resp_ok(self.cells@, self.nx(), g, yi, xi, 0));
                    assert(cell_resp_ok(self.cells@, self.nx(), g, yi, xi, 1));
                }
            }
        }
        assert(m1 =~= m2);
    }

    /// Creates a new layer of ganglion cells. Radii are in tenths of a pixel.
    #[verifier::loop_isolation(false)]
    pub fn new(
        width: usize,
        height: usize,
        spacing: usize,
        center_radius_tenths: usize,
        surround_radius_tenths: usize,
    ) -> (r: GanglionLayer)
        requires
            1 <= spacing <= MAX_DIM,
            width <= MAX_DIM,
            height <= MAX_DIM,
            center_radius_tenths <= MAX_RADIUS_TENTHS,
            surround_radius_tenths <= MAX_RADIUS_TENTHS,
        ensures
            r.wf(),
            r.width == width,
            r.height == height,
            r.spacing == spacing,
            r.center_radius_tenths == center_radius_tenths,
            r.surround_radius_tenths == surround_radius_tenths,
    {
        let ghost ny = pos_count(0, height as int, spacing as int);
        let ghost nx = pos_count(0, width as int, spacing as int);
        proof {
            lemma_pos_count_bound_general(0, height as int, spacing as int, MAX_DIM as int);
            lemma_pos_count_bound_general(0, width as int, spacing as int, MAX_DIM as int);
        }
        let mut cells: Vec<GanglionCell> = Vec::new();
        let mut id: usize = 0;
        let mut y: usize = 0;
        let ghost mut yi: int = 0;
        while y < height
            invariant
                0 <= yi <= ny,
                y as int == yi * spacing,
                id == cells@.len(),
                cells@.len() as int == 2 * (yi * nx),
                forall|y2: int, x2: int, b2: int|
                    0 <= y2 < yi && 0 <= x2 < nx && 0 <= b2 < 2 ==> #[trigger] cell_geom_ok(
                        cells@, nx, spacing as int, center_radius_tenths as int,
                        surround_radius_tenths as int, y2, x2, b2,
                    ),
            decreases ny - yi,
        {
            proof {
                lemma_mod_multiples_basic(yi, spacing as int);
                lemma_lattice_index(0, height as int, spacing as int, y as int);
                lemma_div_multiples_vanish(yi, spacing as int);
                assert(lattice_index(0, spacing as int, y as int) == yi);
                assert(yi < ny);
            }
            let mut x: usize = 0;
            let ghost mut xi: int = 0;
            while x < width
                invariant
                    0 <= xi <= nx,
                    x as int == xi * spacing,
                    id == cells@.len(),
                    cells@.len() as int == 2 * (yi * nx + xi),
                    forall|y2: int, x2: int, b2: int|
                        0 <= y2 < yi && 0 <= x2 < nx && 0 <= b2 < 2 ==> #[trigger] cell_geom_ok(
                            cells@, nx, spacing as int, center_radius_tenths as int,
                            surround_radius_tenths as int, y2, x2, b2,
                        ),
                    forall|x2: int, b2: int|
                        0 <= x2 < xi && 0 <= b2 < 2 ==> #[trigger] cell_geom_ok(
                            cells@, nx, spacing as int, center_radius_tenths as int,
                            surround_radius_tenths as int, yi, x2, b2,
                        ),
                decreases nx - xi,
            {
                proof {
                    lemma_mod_multiples_basic(xi, spacing as int);
                    lemma_lattice_index(0, width as int, spacing as int, x as int);
                    lemma_div_multiples_vanish(xi, spacing as int);
                    assert(xi < nx);
                    lemma_flat_index(yi, xi, ny, nx);
                    assert(ny * nx <= MAX_DIM * MAX_DIM) by (nonlinear_arith)
                        requires
                            0 <= ny <= MAX_DIM,
                            0 <= nx <= MAX_DIM,
                    ;
                }
                let ghost before = cells@;
                cells.push(
                    GanglionCell::new(
                        id, GanglionType::OnCenter, x, y, center_radius_tenths,
                        surround_radius_tenths,
                    ),
                );
                id = id + 1;
                cells.push(
                    GanglionCell::new(
                        id, GanglionType::OffCenter, x, y, center_radius_tenths,
                        surround_radius_tenths,
                    ),
                );
                id = id + 1;
                proof {
                    assert forall|y2: int, x2: int, b2: int|
                        0 <= y2 < yi && 0 <= x2 < nx && 0 <= b2 < 2 implies #[trigger] cell_geom_ok(
                        cells@, nx, spacing as int, center_radius_tenths as int,
                        surround_radius_tenths as int, y2, x2, b2,
                    ) by {
                        assert(cell_geom_ok(
                            before, nx, spacing as int, center_radius_tenths as int,
                            surround_radius_tenths as int, y2, x2, b2,
                        ));
                        lemma_flat_index(y2, x2, yi, nx);
                        assert(2 * (y2 * nx + x2) + b2 < before.len());
                    }
                    assert forall|x2: int, b2: int|
                        0 <= x2 < xi + 1 && 0 <= b2 < 2 implies #[trigger] cell_geom_ok(
                        cells@, nx, spacing as int, center_radius_tenths as int,
                        surround_radius_tenths as int, yi, x2, b2,
                    ) by {
                        if x2 < xi {
                            assert(cell_geom_ok(
                                before, nx, spacing as int, center_radius_tenths as int,
                                surround_radius_tenths as int, yi, x2, b2,
                            ));
                            assert(2 * (yi * nx + x2) + b2 < before.len()) by (nonlinear_arith)
                                requires
                                    0 <= x2 < xi,
                                    0 <= b2 < 2,
                                    before.len() == 2 * (yi * nx + xi),
                            ;
                        } else {
                            assert(cells@[2 * (yi * nx + xi) + b2].x as int == xi * spacing);
                        }
                    }
                    assert((xi + 1) * spacing == xi * spacing + spacing) by (nonlinear_arith);
                    xi = xi + 1;
                }
                x = x + spacing;
            }
            proof {
                if xi < nx {
                    lemma_pos_at_in_range(0, width as int, spacing as int, xi);
                    assert(false);
                }
                assert(2 * (yi * nx + nx) == 2 * ((yi + 1) * nx)) by (nonlinear_arith);
                assert((yi + 1) * spacing == yi * spacing + spacing) by (nonlinear_arith);
                yi = yi + 1;
            }
            y = y + spacing;
        }
        proof {
            if yi < ny {
                lemma_pos_at_in_range(0, height as int, spacing as int, yi);
                assert(false);
            }
        }
        GanglionLayer {
            cells,
            width,
            height,
            spacing,
            center_radius_tenths,
            surround_radius_tenths,
        }
    }

    /// Processes an entire intensity grid through all ganglion cells.
    #[verifier::loop_isolation(false)]
    pub fn process_image(&mut self, image: &Vec<Vec<i64>>)
        requires
            old(self).wf(),
            grid_wf(rows_view(image@), gw(rows_view(image@)), gh(rows_view(image@)), SCALE as int),
            gw(rows_view(image@)) <= MAX_DIM,
            gh(rows_view(image@)) <= MAX_DIM,
        ensures
            final(self).wf(),
            final(self).width == old(self).width,
            final(self).height == old(self).height,
            final(self).spacing == old(self).spacing,
            final(self).center_radius_tenths == old(self).center_radius_tenths,
            final(self).surround_radius_tenths == old(self).surround_radius_tenths,
            final(self).cells@.len() == old(self).cells@.len(),
            final(self).processed(rows_view(image@)),
    {
        let ghost g = rows_view(image@);
        let ghost orig = *self;
        let mut updated: Vec<GanglionCell> = Vec::new();
        let mut i: usize = 0;
        let n = self.cells.len();
        while i < n
            invariant
                i <= n,
                updated@.len() == i,
                forall|j: int|
                    0 <= j < i ==> #[trigger] recomputed_from(updated@[j], orig.cells@[j], g),
            decreases n - i,
        {
            let mut c = self.cells[i];
            proof {
                lemma_cell_index_decomposition(orig, i as int);
            }
            c.compute_response(image);
            updated.push(c);
            i = i + 1;
        }
        self.cells = updated;
        proof {
            assert forall|yi: int, xi: int, b: int|
                0 <= yi < self.ny() && 0 <= xi < self.nx() && 0 <= b < 2 implies #[trigger] cell_geom_ok(
                self.cells@, self.nx(), self.spacing as int, self.center_radius_tenths as int,
                self.surround_radius_tenths as int, yi, xi, b,
            ) by {
                assert(cell_geom_ok(
                    orig.cells@, orig.nx(), orig.spacing as int,
                    orig.center_radius_tenths as int, orig.surround_radius_tenths as int, yi, xi, b,
                ));
                let k = 2 * (yi * self.nx() + xi) + b;
                assert(0 <= k < orig.cells@.len());
                assert(recomputed_from(self.cells@[k], orig.cells@[k], g));
            }
            assert forall|yi: int, xi: int, b: int|
                0 <= yi < self.ny() && 0 <= xi < self.nx() && 0 <= b < 2 implies #[trigger] cell_resp_ok(
                self.cells@, self.nx(), g, yi, xi, b,
            ) by {
                assert(cell_geom_ok(
                    orig.cells@, orig.nx(), orig.spacing as int,
                    orig.center_radius_tenths as int, orig.surround_radius_tenths as int, yi, xi, b,
                ));
                let k = 2 * (yi * self.nx() + xi) + b;
                assert(0 <= k < orig.cells@.len());
                assert(recomputed_from(self.cells@[k], orig.cells@[k], g));
            }
        }
    }

    /// Returns all cells.
    pub fn cells(&self) -> (r: &Vec<GanglionCell>)
        ensures
            r == &self.cells,
    {
        &self.cells
    }

    /// Returns copies of the cells of a specific type, in layer order.
    #[verifier::loop_isolation(false)]
    pub fn cells_by_type(&self, cell_type: GanglionType) -> (r: Vec<GanglionCell>)
        ensures
            r@ == self.cells@.filter(|c: GanglionCell| c.cell_type == cell_type),
    {
        let mut r: Vec<GanglionCell> = Vec::new();
        let mut i: usize = 0;
        let n = self.cells.len();
        while i < n
            invariant
                i <= n,
                r@ == self.cells@.take(i as int).filter(
                    |c: GanglionCell| c.cell_type == cell_type,
                ),
            decreases n - i,
        {
            let c = self.cells[i];
            if c.cell_type == cell_type {
                r.push(c);
            }
            proof {
                reveal(Seq::filter);
                assert(self.cells@.take(i as int + 1).drop_last() =~= self.cells@.take(i as int));
                assert(self.cells@.take(i as int + 1).last() == self.cells@[i as int]);
            }
            i = i + 1;
        }
        proof {
            assert(self.cells@.take(n as int) =~= self.cells@);
        }
        r
    }

    /// Creates the dense edge map from the stored ganglion responses: every
    /// lattice point holds the sum of its ON and OFF firing rates, every
    /// other cell stays 0.
    #[verifier::loop_isolation(false)]
    pub fn create_edge_map(&self) -> (r: Vec<Vec<i64>>)
        requires
            self.wf(),
        ensures
            rows_view(r@) == self.state_edge_map(),
            grid_wf(rows_view(r@), self.width as int, self.height as int, EDGE_MAX as int),
            gw(rows_view(r@)) == self.width || self.height == 0,
            gh(rows_view(r@)) == self.height,
    {
        let ghost m = self.state_edge_map();
        let sp = self.spacing;
        let mut rows: Vec<Vec<i64>> = Vec::new();
        let mut y: usize = 0;
        while y < self.height
            invariant
                y <= self.height,
                rows@.len() == y,
                forall|y2: int| 0 <= y2 < y ==> #[trigger] rows@[y2]@ == m[y2],
            decreases self.height - y,
        {
            let mut row: Vec<i64> = Vec::new();
            let mut x: usize = 0;
            while x < self.width
                invariant
                    x <= self.width,
                    row@.len() == x,
                    forall|x2: int| 0 <= x2 < x ==> #[trigger] row@[x2] == m[y as int][x2],
                decreases self.width - x,
            {
                let v: i64;
                if y % sp == 0 && x % sp == 0 {
                    let nx = if self.width == 0 {
                        0
                    } else {
                        (self.width - 1) / sp + 1
                    };
                    assert(nx as int == self.nx());
                    let yi = y / sp;
                    let xi = x / sp;
                    proof {
                        lemma_lattice_index(0, self.height as int, sp as int, y as int);
                        lemma_lattice_index(0, self.width as int, sp as int, x as int);
                        lemma_flat_index(yi as int, xi as int, self.ny(), self.nx());
                        assert(cell_geom_ok(
                            self.cells@, self.nx(), sp as int, self.center_radius_tenths as int,
                            self.surround_radius_tenths as int, yi as int, xi as int, 0,
                        ));
                        assert(cell_geom_ok(
                            self.cells@, self.nx(), sp as int, self.center_radius_tenths as int,
                            self.surround_radius_tenths as int, yi as int, xi as int, 1,
                        ));
                    }
                    let k = 2 * (yi * nx + xi);
                    v = self.cells[k].output_rate + self.cells[k + 1].output_rate;
                } else {
                    v = 0;
                    proof {
                        if is_lattice(0, self.width as int, sp as int, x as int) && is_lattice(
                            0, self.height as int, sp as int, y as int,
                        ) {
                            assert(y % sp == 0 && x % sp == 0);
                        }
                    }
                }
                row.push(v);
                x = x + 1;
            }
            proof {
                assert(row@ =~= m[y as int]);
            }
            rows.push(row);
            y = y + 1;
        }
        proof {
            assert(rows_view(rows@) =~= m);
            self.lemma_state_edge_map_wf();
        }
        rows
    }
}

/// On a uniform frame, a ring sums to the common value times its count.
proof fn lemma_ring_row_sum_uniform(
    g: Seq<Seq<i64>>,
    w: int,
    h: int,
    x: int,
    y: int,
    r: int,
    lo: int,
    hi: int,
    dy: int,
    m: nat,
    v: int,
)
    requires
        forall|yy: int, xx: int| in_grid(w, h, xx, yy) ==> #[trigger] g[yy][xx] == v,
    ensures
        ring_row_sum(g, w, h, x, y, r, lo, hi, dy, m) == v * ring_row_count(
            g, w, h, x, y, r, lo, hi, dy, m,
        ),
    decreases m,
{
    if m > 0 {
        lemma_ring_row_sum_uniform(g, w, h, x, y, r, lo, hi, dy, (m - 1) as nat, v);
        let c = ring_row_count(g, w, h, x, y, r, lo, hi, dy, (m - 1) as nat);
        assert(v * (c + 1) == v * c + v) by (nonlinear_arith);
    }
}

/// Box-level version of the uniform ring sum.
proof fn lemma_ring_sum_uniform(
    g: Seq<Seq<i64>>,
    w: int,
    h: int,
    x: int,
    y: int,
    r: int,
    lo: int,
    hi: int,
    n: nat,
    v: int,
)
    requires
        forall|yy: int, xx: int| in_grid(w, h, xx, yy) ==> #[trigger] g[yy][xx] == v,
    ensures
        ring_sum(g, w, h, x, y, r, lo, hi, n) == v * ring_count(g, w, h, x, y, r, lo, hi, n),
    decreases n,
{
    if n > 0 {
        lemma_ring_sum_uniform(g, w, h, x, y, r, lo, hi, (n - 1) as nat, v);
        lemma_ring_row_sum_uniform(g, w, h, x, y, r, lo, hi, -r + (n - 1), (2 * r + 1) as nat, v);
        let a = ring_count(g, w, h, x, y, r, lo, hi, (n - 1) as nat);
        let b = ring_row_count(g, w, h, x, y, r, lo, hi, -r + (n - 1), (2 * r + 1) as nat);
        assert(v * (a + b) == v * a + v * b) by (nonlinear_arith);
    }
}

/// A row count is at least the contribution of any one of its offsets.
proof fn lemma_ring_row_count_at_least(
    g: Seq<Seq<i64>>,
    w: int,
    h: int,
    x: int,
    y: int,
    r: int,
    lo: int,
    hi: int,
    dy: int,
    j: int,
    m: nat,
)
    requires
        0 <= j < m,
    ensures
        ring_row_count(g, w, h, x, y, r, lo, hi, dy, m) >= ring_cell_count(
            g, w, h, x, y, -r + j, dy, lo, hi,
        ),
    decreases m,
{
    if j < m - 1 {
        lemma_ring_row_count_at_least(g, w, h, x, y, r, lo, hi, dy, j, (m - 1) as nat);
    } else {
        lemma_row_count_nonneg(g, w, h, x, y, r, lo, hi, dy, (m - 1) as nat);
    }
}

/// A box count is at least the contribution of any one of its offsets.
proof fn lemma_ring_count_at_least(
    g: Seq<Seq<i64>>,
    w: int,
    h: int,
    x: int,
    y: int,
    r: int,
    lo: int,
    hi: int,
    i: int,
    j: int,
    n: nat,
)
    requires
        0 <= i < n,
        0 <= j < 2 * r + 1,
    ensures
        ring_count(g, w, h, x, y, r, lo, hi, n) >= ring_cell_count(
            g, w, h, x, y, -r + j, -r + i, lo, hi,
        ),
    decreases n,
{
    if i < n - 1 {
        lemma_ring_count_at_least(g, w, h, x, y, r, lo, hi, i, j, (n - 1) as nat);
        lemma_row_count_nonneg(g, w, h, x, y, r, lo, hi, -r + (n - 1), (2 * r + 1) as nat);
    } else {
        lemma_ring_row_count_at_least(g, w, h, x, y, r, lo, hi, -r + i, j, (2 * r + 1) as nat);
        lemma_count_nonneg(g, w, h, x, y, r, lo, hi, (n - 1) as nat);
    }
}

/// Row counts are nonnegative.
proof fn lemma_row_count_nonneg(
    g: Seq<Seq<i64>>,
    w: int,
    h: int,
    x: int,
    y: int,
    r: int,
    lo: int,
    hi: int,
    dy: int,
    m: nat,
)
    ensures
        ring_row_count(g, w, h, x, y, r, lo, hi, dy, m) >= 0,
    decreases m,
{
    if m > 0 {
        lemma_row_count_nonneg(g, w, h, x, y, r, lo, hi, dy, (m - 1) as nat);
    }
}

/// Box counts are nonnegative.
proof fn lemma_count_nonneg(
    g: Seq<Seq<i64>>,
    w: int,
    h: int,
    x: int,
    y: int,
    r: int,
    lo: int,
    hi: int,
    n: nat,
)
    ensures
        ring_count(g, w, h, x, y, r, lo, hi, n) >= 0,
    decreases n,
{
    if n > 0 {
        lemma_count_nonneg(g, w, h, x, y, r, lo, hi, (n - 1) as nat);
        lemma_row_count_nonneg(g, w, h, x, y, r, lo, hi, -r + (n - 1), (2 * r + 1) as nat);
    }
}

/// On a uniform frame with a side of at least 3 pixels, every cell of the
/// edge map with the pathway's default geometry is exactly 0: every
/// detector's center and surround averages both equal the common intensity,
/// so the antagonistic difference vanishes.
pub proof fn lemma_uniform_frame_edge_silent(g: Seq<Seq<i64>>, w: int, h: int, v: i64)
    requires
        grid_wf(g, w, h, SCALE as int),
        forall|yy: int, xx: int| in_grid(w, h, xx, yy) ==> #[trigger] g[yy][xx] == v as int,
        w >= 3 || h >= 3,
    ensures
        forall|yy: int, xx: int|
            in_grid(w, h, xx, yy) ==> #[trigger] edge_map_spec(g, w, h, 4, 15, 40)[yy][xx] == 0,
{
    assert forall|yy: int, xx: int|
        in_grid(w, h, xx, yy) implies #[trigger] edge_map_spec(g, w, h, 4, 15, 40)[yy][xx]
        == 0 by {
        if is_lattice(0, w, 4, xx) && is_lattice(0, h, 4, yy) {
            let r = 4int;
            let n = (2 * r + 1) as nat;
            lemma_ring_sum_uniform(g, w, h, xx, yy, r, -1, 225, n, v as int);
            lemma_ring_sum_uniform(g, w, h, xx, yy, r, 225, 1600, n, v as int);
            // The center bucket holds at least the origin offset.
            assert(ring_cell_count(g, w, h, xx, yy, 0, 0, -1, 225) == 1);
            lemma_ring_count_at_least(g, w, h, xx, yy, r, -1, 225, 4, 4, n);
            let cc = ring_count(g, w, h, xx, yy, r, -1, 225, n);
            assert(cc >= 1);
            lemma_div_multiples_vanish(v as int, cc);
            assert(bucket_avg(v as int * cc, cc) == v as int);
            // The surround annulus holds an offset two pixels along the
            // longer side.
            if w >= 3 {
                if xx == 0 {
                    assert(in_grid(w, h, xx + 2, yy));
                    assert(ring_cell_count(g, w, h, xx, yy, 2, 0, 225, 1600) == 1);
                    lemma_ring_count_at_least(g, w, h, xx, yy, r, 225, 1600, 4, 6, n);
                } else {
                    lemma_fundamental_div_mod_pair(xx, 4);
                    assert(xx >= 4) by (nonlinear_arith)
                        requires
                            xx == 4 * (xx / 4) + xx % 4,
                            xx % 4 == 0,
                            xx > 0,
                            xx / 4 >= 0,
                    ;
                    assert(in_grid(w, h, xx + (-2), yy));
                    assert(ring_cell_count(g, w, h, xx, yy, -2, 0, 225, 1600) == 1);
                    lemma_ring_count_at_least(g, w, h, xx, yy, r, 225, 1600, 4, 2, n);
                }
            } else {
                if yy == 0 {
                    assert(in_grid(w, h, xx, yy + 2));
                    assert(ring_cell_count(g, w, h, xx, yy, 0, 2, 225, 1600) == 1);
                    lemma_ring_count_at_least(g, w, h, xx, yy, r, 225, 1600, 6, 4, n);
                } else {
                    lemma_fundamental_div_mod_pair(yy, 4);
                    assert(yy >= 4) by (nonlinear_arith)
                        requires
                            yy == 4 * (yy / 4) + yy % 4,
                            yy % 4 == 0,
                            yy > 0,
                            yy / 4 >= 0,
                    ;
                    assert(in_grid(w, h, xx, yy + (-2)));
                    assert(ring_cell_count(g, w, h, xx, yy, 0, -2, 225, 1600) == 1);
                    lemma_ring_count_at_least(g, w, h, xx, yy, r, 225, 1600, 2, 4, n);
                }
            }
            let sc = ring_count(g, w, h, xx, yy, r, 225, 1600, n);
            assert(sc >= 1);
            lemma_div_multiples_vanish(v as int, sc);
            assert((sc * (v as int)) / sc == v as int);
            assert(v as int * sc == sc * (v as int)) by (nonlinear_arith);
            assert(bucket_avg(v as int * sc, sc) == v as int);
            assert(center_avg_spec(g, w, h, xx, yy, 15, 40) == v as int);
            assert(surround_avg_spec(g, w, h, xx, yy, 15, 40) == v as int);
            assert(edge_cell_spec(g, w, h, xx, yy, 15, 40) == 0);
        }
    }
}

/// Decomposes a flat cell index of a well-formed layer into its lattice
/// coordinate, and carries the layer's per-cell facts to that index.
pub proof fn lemma_cell_index_decomposition(l: GanglionLayer, k: int)
    requires
        l.wf(),
        0 <= k < l.cells@.len(),
    ensures
        l.cells@[k].geom_wf(),
        l.cells@[k].state_wf(),
        cell_geom_ok(
            l.cells@, l.nx(), l.spacing as int, l.center_radius_tenths as int,
            l.surround_radius_tenths as int, (k / 2) / l.nx(), (k / 2) % l.nx(), k % 2,
        ),
        2 * (((k / 2) / l.nx()) * l.nx() + (k / 2) % l.nx()) + k % 2 == k,
{
    let nx = l.nx();
    let ny = l.ny();
    lemma_pos_count_bound_general(0, l.width as int, l.spacing as int, MAX_DIM as int);
    lemma_pos_count_bound_general(0, l.height as int, l.spacing as int, MAX_DIM as int);
    let p = k / 2;
    let b = k % 2;
    lemma_fundamental_div_mod_pair(k, 2);
    assert(0 <= p < ny * nx) by (nonlinear_arith)
        requires
            0 <= k < 2 * (ny * nx),
            k == 2 * p + b,
            0 <= b < 2,
    ;
    assert(nx > 0) by (nonlinear_arith)
        requires
            0 <= p < ny * nx,
            0 <= ny,
    ;
    lemma_fundamental_div_mod_pair(p, nx);
    let yi = p / nx;
    let xi = p % nx;
    assert(0 <= yi < ny) by (nonlinear_arith)
        requires
            0 <= p < ny * nx,
            p == nx * yi + xi,
            0 <= xi < nx,
    ;
    assert(cell_geom_ok(
        l.cells@, nx, l.spacing as int, l.center_radius_tenths as int,
        l.surround_radius_tenths as int, yi, xi, b,
    ));
    assert(2 * (yi * nx + xi) + b == k);
}

/// The fundamental division identity with its bounds, for a positive divisor.
pub proof fn lemma_fundamental_div_mod_pair(x: int, d: int)
    requires
        0 <= x,
        0 < d,
    ensures
        x == d * (x / d) + x % d,
        0 <= x % d < d,
        0 <= x / d,
{
    vstd::arithmetic::div_mod::lemma_fundamental_div_mod(x, d);
    vstd::arithmetic::div_mod::lemma_mod_bound(x, d);
    vstd::arithmetic::div_mod::lemma_div_pos_is_pos(x, d);
}

} // verus!
