//! The complete visual pathway: edge detection, oriented filters, corner
//! and contour extraction, and shape classification, invoked strictly in
//! that order on one fixed frame size, plus the derived scalar features.
//!
//! A pathway instance holds only fixed detector geometry between calls:
//! every [`VisualPathway::process`] call recomputes all activations from its
//! input frame alone, so repeated calls on the same frame give identical
//! responses.

use vstd::prelude::*;
use crate::fixed::{MAX_DIM, SCALE};
use crate::ganglion::{edge_map_spec, GanglionLayer};
use crate::grid::{gh, grid_wf, gw, in_grid, rect, rows_view};
use crate::v1_cortex::{
    col_max_state, lemma_col_index_decomposition, orient_map_spec, V1Column, V1Cortex, V1_ACT_MAX,
};
use crate::v2_cortex::{
    contours_spec, corner_count_spec, corner_map_spec, lemma_scan_rows_count,
    lemma_scan_rows_lens, CornerType, V2Cortex, V2Response,
};
use crate::v1_cortex::Orientation;
use crate::v4_cortex::{
    shape_count_spec, shape_map_spec, v2_input_wf, ShapeType, V4Cortex, V4Response,
};

verus! {

/// Largest value a summed orientation strength can reach.
pub const FEAT_MAX: i64 = 70_000_000_000_000_000;

/// The edge map the pathway's ganglion layer produces from frame `g`:
/// lattice spacing 4, center radius 1.5, surround radius 4.
pub open spec fn edge_stage(g: Seq<Seq<i64>>, w: int, h: int) -> Seq<Seq<i64>> {
    edge_map_spec(g, w, h, 4, 15, 40)
}

/// The orientation map of the pathway: V1 lattice spacing 8, simple-cell
/// radius 5, over the edge map of `g`.
pub open spec fn orient_stage(g: Seq<Seq<i64>>, w: int, h: int) -> Seq<Seq<Option<Orientation>>> {
    orient_map_spec(edge_stage(g, w, h), w, h, 8, 5)
}

/// The corner map of the pathway: V2 lattice spacing 4, window radius 6,
/// over the orientation map of `g`.
pub open spec fn corner_stage(g: Seq<Seq<i64>>, w: int, h: int) -> Seq<Seq<Option<CornerType>>> {
    corner_map_spec(orient_stage(g, w, h), w, h, 4, 6)
}

/// The contours of the pathway: traced through the edge map of `g`, paths
/// of at least 3 pixels kept.
pub open spec fn contour_stage(g: Seq<Seq<i64>>, w: int, h: int) -> Seq<Seq<(usize, usize)>> {
    contours_spec(edge_stage(g, w, h), w, h, 3)
}

/// The shape map of the pathway: V4 lattice spacing 8, window radius 10,
/// over the corner map and contours of `g`.
pub open spec fn shape_stage(g: Seq<Seq<i64>>, w: int, h: int) -> Seq<Seq<Option<ShapeType>>> {
    shape_map_spec(corner_stage(g, w, h), contour_stage(g, w, h), w, h, 8, 10)
}

/// The accumulated orientation strengths over the first `k` V1 columns:
/// vertical-structure, horizontal-structure and diagonal buckets, and the
/// total activation. A column preferring angles near 0 detects vertical
/// structure, near 90 horizontal structure, the diagonals the rest.
pub open spec fn feats(cols: Seq<V1Column>, k: nat) -> (int, int, int, int)
    decreases k,
{
    if k == 0 {
        (0int, 0int, 0int, 0int)
    } else {
        let p = feats(cols, (k - 1) as nat);
        let c = cols[k - 1];
        let a = col_max_state(c);
        let d2 = 2 * (c.orientation.degrees as int);
        if d2 < 45 || d2 > 315 {
            (p.0, p.1 + a, p.2, p.3 + a)
        } else if 135 <= d2 <= 225 {
            (p.0 + a, p.1, p.2, p.3 + a)
        } else {
            (p.0, p.1, p.2 + a, p.3 + a)
        }
    }
}

/// The scalar features read off a V1 column bank: the three bucket sums,
/// the diagonal bucket normalized by 2.25 for covering two orientations,
/// and the total activation.
pub open spec fn features_state(cols: Seq<V1Column>) -> (int, int, int, int) {
    let f = feats(cols, cols.len());
    (f.0, f.1, (f.2 * 4) / 9, f.3)
}

/// High-level visual features extracted from the V1 column bank.
#[derive(Debug, Clone, Copy, PartialEq, Eq, Structural)]
pub struct VisualFeatures {
    /// Strength of horizontal structure, fixed point.
    pub horizontal_strength: i64,
    /// Strength of vertical structure, fixed point.
    pub vertical_strength: i64,
    /// Strength of diagonal structure, normalized, fixed point.
    pub diagonal_strength: i64,
    /// Total activation over all columns, fixed point.
    pub total_activation: i64,
}

impl VisualFeatures {
    /// The fields hold values the model can produce.
    pub open spec fn wf(self) -> bool {
        &&& 0 <= self.horizontal_strength <= FEAT_MAX
        &&& 0 <= self.vertical_strength <= FEAT_MAX
        &&& 0 <= self.diagonal_strength <= FEAT_MAX
        &&& 0 <= self.total_activation <= FEAT_MAX
    }

    /// Determines the dominant orientation of the scene. Horizontal and
    /// vertical receive a 6 percent advantage over diagonal to resolve
    /// near-ties.
    pub fn dominant_orientation(&self) -> (r: &'static str)
        requires
            self.wf(),
        ensures
            ({
                let hs = self.horizontal_strength as int;
                let vs = self.vertical_strength as int;
                let ds = self.diagonal_strength as int;
                if hs > vs && hs * 106 > ds * 100 {
                    r@ == "Horizontal"@
                } else if vs * 106 > hs * 100 && vs * 106 > ds * 100 {
                    r@ == "Vertical"@
                } else {
                    r@ == "Diagonal"@
                }
            }),
    {
        let hs = self.horizontal_strength;
        let vs = self.vertical_strength;
        let ds = self.diagonal_strength;
        if hs > vs && hs * 106 > ds * 100 {
            "Horizontal"
        } else if vs * 106 > hs * 100 && vs * 106 > ds * 100 {
            "Vertical"
        } else {
            "Diagonal"
        }
    }

    /// Returns the overall edge strength: the sum of the three buckets.
    pub fn edge_strength(&self) -> (r: i64)
        requires
            self.wf(),
        ensures
            r == self.horizontal_strength + self.vertical_strength + self.diagonal_strength,
    {
        self.horizontal_strength + self.vertical_strength + self.diagonal_strength
    }
}

/// Response of the visual pathway to one frame.
#[derive(Debug)]
pub struct VisualResponse {
    /// Edge map from the ganglion layer.
    pub edge_map: Vec<Vec<i64>>,
    /// Dominant orientation at each lattice point, if any.
    pub orientation_map: Vec<Vec<Option<Orientation>>>,
    /// V2 features: corners and contours.
    pub v2_features: V2Response,
    /// V4 features: classified shapes.
    pub v4_features: V4Response,
    /// High-level extracted features.
    pub features: VisualFeatures,
}

/// Complete visual pathway for one fixed frame size.
#[derive(Debug)]
pub struct VisualPathway {
    /// Center-surround edge detection.
    pub ganglion_layer: GanglionLayer,
    /// Oriented filter columns.
    pub v1_cortex: V1Cortex,
    /// Corner junctions and contours.
    pub v2_cortex: V2Cortex,
    /// Shape classification.
    pub v4_cortex: V4Cortex,
    /// Width of the visual field.
    pub width: usize,
    /// Height of the visual field.
    pub height: usize,
}

impl VisualPathway {
    /// All four layers are well formed, sized to the pathway's frame, and
    /// carry the pathway's fixed default geometry.
    pub open spec fn wf(self) -> bool {
        &&& self.width <= MAX_DIM
        &&& self.height <= MAX_DIM
        &&& self.ganglion_layer.wf()
        &&& self.ganglion_layer.width == self.width
        &&& self.ganglion_layer.height == self.height
        &&& self.ganglion_layer.spacing == 4
        &&& self.ganglion_layer.center_radius_tenths == 15
        &&& self.ganglion_layer.surround_radius_tenths == 40
        &&& self.v1_cortex.wf()
        &&& self.v1_cortex.width == self.width
        &&& self.v1_cortex.height == self.height
        &&& self.v1_cortex.spacing == 8
        &&& self.v1_cortex.rf_size == 5
        &&& self.v2_cortex.wf()
        &&& self.v2_cortex.width == self.width
        &&& self.v2_cortex.height == self.height
        &&& self.v2_cortex.spacing == 4
        &&& self.v2_cortex.contour_detector.path_length == 3
        &&& self.v4_cortex.wf()
        &&& self.v4_cortex.width == self.width
        &&& self.v4_cortex.height == self.height
        &&& self.v4_cortex.spacing == 8
    }

    /// Creates a new visual pathway for a `width x height` frame, with the
    /// default layer geometry.
    pub fn new(width: usize, height: usize) -> (r: VisualPathway)
        requires
            width <= MAX_DIM,
            height <= MAX_DIM,
        ensures
            r.wf(),
            r.width == width,
            r.height == height,
    {
        VisualPathway {
            ganglion_layer: GanglionLayer::new(width, height, 4, 15, 40),
            v1_cortex: V1Cortex::new(width, height, 8, 5),
            v2_cortex: V2Cortex::new(width, height, 4),
            v4_cortex: V4Cortex::new(width, height, 8),
            width,
            height,
        }
    }

    /// Returns the dimensions of the visual field.
    pub fn dimensions(&self) -> (r: (usize, usize))
        ensures
            r == (self.width, self.height),
    {
        (self.width, self.height)
    }

    /// Extracts the scalar orientation features from the V1 column states.
    #[verifier::loop_isolation(false)]
    pub fn extract_features(&self) -> (r: VisualFeatures)
        requires
            self.v1_cortex.wf(),
        ensures
            ({
                let f = features_state(self.v1_cortex.columns@);
                r.horizontal_strength as int == f.0 && r.vertical_strength as int == f.1
                    && r.diagonal_strength as int == f.2 && r.total_activation as int == f.3
            }),
            r.wf(),
    {
        let ghost cols = self.v1_cortex.columns@;
        let n = self.v1_cortex.columns.len();
        proof {
            lemma_feats_bounds(self.v1_cortex, n as nat);
        }
        let mut hs: i64 = 0;
        let mut vs: i64 = 0;
        let mut ds: i64 = 0;
        let mut tot: i64 = 0;
        let mut i: usize = 0;
        while i < n
            invariant
                i <= n,
                hs as int == feats(cols, i as nat).0,
                vs as int == feats(cols, i as nat).1,
                ds as int == feats(cols, i as nat).2,
                tot as int == feats(cols, i as nat).3,
            decreases n - i,
        {
            proof {
                lemma_col_index_decomposition(self.v1_cortex, i as int);
                lemma_feats_bounds(self.v1_cortex, i as nat);
                lemma_feats_bounds(self.v1_cortex, (i + 1) as nat);
            }
            let col = &self.v1_cortex.columns[i];
            let a = col.max_activation();
            let d2 = 2u64 * (col.orientation.degrees as u64);
            if d2 < 45 || d2 > 315 {
                vs = vs + a;
            } else if 135 <= d2 && d2 <= 225 {
                hs = hs + a;
            } else {
                ds = ds + a;
            }
            tot = tot + a;
            i = i + 1;
        }
        proof {
            vstd::arithmetic::div_mod::lemma_div_pos_is_pos(ds as int * 4, 9);
            vstd::arithmetic::div_mod::lemma_div_is_ordered(ds as int * 4, FEAT_MAX as int * 4, 9);
        }
        VisualFeatures {
            horizontal_strength: hs,
            vertical_strength: vs,
            diagonal_strength: (ds * 4) / 9,
            total_activation: tot,
        }
    }

    /// Processes one activation grid through the entire pathway, strictly
    /// in the order edge detection, orientation filtering, corner and
    /// contour extraction, shape classification; then derives the scalar
    /// features. Every per-call activation is recomputed from the frame, so
    /// the response is a function of the frame and the fixed geometry
    /// alone.
    ///
    /// The frame must be rectangular at the pathway's own dimensions with
    /// intensities in `0 ..= SCALE`; this is the precondition below, not a
    /// runtime check.
    pub fn process(&mut self, activation_grid: &Vec<Vec<i64>>) -> (r: VisualResponse)
        requires
            old(self).wf(),
            grid_wf(
                rows_view(activation_grid@), old(self).width as int, old(self).height as int,
                SCALE as int,
            ),
        ensures
            final(self).wf(),
            final(self).width == old(self).width,
            final(self).height == old(self).height,
            ({
                let g = rows_view(activation_grid@);
                let w = old(self).width as int;
                let h = old(self).height as int;
                &&& rows_view(r.edge_map@) == edge_stage(g, w, h)
                &&& rows_view(r.orientation_map@) == orient_stage(g, w, h)
                &&& rows_view(r.v2_features.corner_map@) == corner_stage(g, w, h)
                &&& rows_view(r.v2_features.contours@) == contour_stage(g, w, h)
                &&& r.v2_features.corner_count as int == corner_count_spec(
                    orient_stage(g, w, h), w, h, 4, 6,
                )
                &&& r.v2_features.contour_count == r.v2_features.contours@.len()
                &&& rows_view(r.v4_features.shape_map@) == shape_stage(g, w, h)
                &&& r.v4_features.shape_count as int == shape_count_spec(
                    None, corner_stage(g, w, h), contour_stage(g, w, h), w, h, 8, 10,
                )
                &&& forall|t: ShapeType|
                    (#[trigger] r.v4_features.shape_type_counts.spec_get(t)) as int
                        == shape_count_spec(
                        Some(t), corner_stage(g, w, h), contour_stage(g, w, h), w, h, 8, 10,
                    )
                &&& final(self).v1_cortex.processed(edge_stage(g, w, h))
                &&& ({
                    let f = features_state(final(self).v1_cortex.columns@);
                    r.features.horizontal_strength as int == f.0
                        && r.features.vertical_strength as int == f.1
                        && r.features.diagonal_strength as int == f.2
                        && r.features.total_activation as int == f.3
                })
                &&& r.features.wf()
            }),
    {
        let ghost g = rows_view(activation_grid@);
        let ghost w = self.width as int;
        let ghost h = self.height as int;
        proof {
            assert(gh(g) == h);
            if h > 0 {
                assert(gw(g) == w);
            }
        }

        // Stage 1: ganglion cells detect edges and contrasts.
        self.ganglion_layer.process_image(activation_grid);
        let edge_map = self.ganglion_layer.create_edge_map();
        proof {
            if h == 0 {
                assert(self.ganglion_layer.state_edge_map() =~~= edge_stage(g, w, h));
            } else {
                self.ganglion_layer.lemma_edge_map_is_spec(g);
            }
            assert(rows_view(edge_map@) == edge_stage(g, w, h));
            assert(gh(rows_view(edge_map@)) == h);
            if h > 0 {
                assert(gw(rows_view(edge_map@)) == w);
            }
        }

        // Stage 2: V1 extracts oriented features.
        self.v1_cortex.process_edges(&edge_map);
        let orientation_map = self.v1_cortex.orientation_map();
        proof {
            if h == 0 {
                assert(self.v1_cortex.state_orient_map() =~~= orient_stage(g, w, h));
            } else {
                self.v1_cortex.lemma_orient_map_is_spec(rows_view(edge_map@));
            }
            assert(rows_view(orientation_map@) == orient_stage(g, w, h));
            let om = rows_view(orientation_map@);
            assert(rect(om, crate::grid::mat_w(om), crate::grid::mat_h(om)) && crate::grid::mat_w(om) <= MAX_DIM && crate::grid::mat_h(om)
                <= MAX_DIM) by {
                assert(om.len() == h);
                if h > 0 {
                    assert(om[0].len() == w);
                }
                assert forall|y: int| 0 <= y < om.len() implies (#[trigger] om[y]).len()
                    == crate::grid::mat_w(om) by {
                    assert(om[y].len() == w);
                }
            }
        }

        // Stage 3: V2 detects corners and traces contours.
        let v2_features = self.v2_cortex.process(&orientation_map, &edge_map);
        proof {
            assert(rows_view(v2_features.corner_map@) == corner_stage(g, w, h));
            let emv = rows_view(edge_map@);
            assert(rows_view(v2_features.contours@) == contours_spec(emv, gw(emv), gh(emv), 3));
            if h == 0 {
                assert(contours_spec(emv, gw(emv), gh(emv), 3) =~~= contour_stage(g, w, h));
            }
            assert(rows_view(v2_features.contours@) == contour_stage(g, w, h));
        }

        // Stage 4: V4 classifies shapes.
        proof {
            let cmv = rows_view(v2_features.corner_map@);
            let csv = rows_view(v2_features.contours@);
            assert(v2_input_wf(cmv, csv)) by {
                assert(cmv.len() == h);
                if h > 0 {
                    assert(cmv[0].len() == w);
                }
                assert forall|y: int| 0 <= y < cmv.len() implies (#[trigger] cmv[y]).len()
                    == crate::grid::mat_w(cmv) by {
                    assert(cmv[y].len() == w);
                }
                let emv = rows_view(edge_map@);
                lemma_scan_rows_count(
                    crate::v2_cortex::dil_map(emv, w, h),
                    crate::v2_cortex::vis_empty(w, h), w, h, 3, h as nat,
                );
                assert(h * w <= 8192 * 8192) by (nonlinear_arith)
                    requires
                        0 <= h <= 8192,
                        0 <= w <= 8192,
                ;
                lemma_scan_rows_lens(
                    crate::v2_cortex::dil_map(emv, w, h),
                    crate::v2_cortex::vis_empty(w, h), w, h, 3, h as nat,
                );
            }
        }
        let v4_features = self.v4_cortex.process(&v2_features);

        // Stage 5: derive the scalar features.
        let features = self.extract_features();

        VisualResponse { edge_map, orientation_map, v2_features, v4_features, features }
    }
}

/// On a zero-sized frame every stage of the pathway is empty: all maps
/// hold no populated cell, no contour exists, and every count is 0.
pub proof fn lemma_empty_frame(g: Seq<Seq<i64>>, w: int, h: int)
    requires
        w == 0 || h == 0,
        0 <= w <= MAX_DIM,
        0 <= h <= MAX_DIM,
    ensures
        forall|y: int, x: int| in_grid(w, h, x, y) ==> #[trigger] edge_stage(g, w, h)[y][x] == 0,
        forall|y: int, x: int|
            in_grid(w, h, x, y) ==> #[trigger] orient_stage(g, w, h)[y][x] is None,
        forall|y: int, x: int|
            in_grid(w, h, x, y) ==> #[trigger] corner_stage(g, w, h)[y][x] is None,
        forall|y: int, x: int|
            in_grid(w, h, x, y) ==> #[trigger] shape_stage(g, w, h)[y][x] is None,
        contour_stage(g, w, h).len() == 0,
        corner_count_spec(orient_stage(g, w, h), w, h, 4, 6) == 0,
        forall|kind: Option<ShapeType>|
            #[trigger] shape_count_spec(
                kind, corner_stage(g, w, h), contour_stage(g, w, h), w, h, 8, 10,
            ) == 0,
{
    let emv = edge_stage(g, w, h);
    lemma_scan_rows_count(
        crate::v2_cortex::dil_map(emv, w, h), crate::v2_cortex::vis_empty(w, h), w, h, 3, h as nat,
    );
    assert(h * w <= 0) by (nonlinear_arith)
        requires
            w == 0 || h == 0,
            0 <= w,
            0 <= h,
    ;
    let cny = crate::grid::pos_count(4, h - 4, 4);
    let cnx = crate::grid::pos_count(4, w - 4, 4);
    crate::v2_cortex::lemma_cc_bounds(orient_stage(g, w, h), 4, 6, cnx, cny as nat);
    assert(4 * (cny * cnx) == 0) by (nonlinear_arith)
        requires
            cny == 0 || cnx == 0,
    ;
    let sny = crate::grid::pos_count(8, h - 8, 8);
    let snx = crate::grid::pos_count(8, w - 8, 8);
    assert forall|kind: Option<ShapeType>|
        #[trigger] shape_count_spec(
            kind, corner_stage(g, w, h), contour_stage(g, w, h), w, h, 8, 10,
        ) == 0 by {
        crate::v4_cortex::lemma_stc_bounds(
            kind, corner_stage(g, w, h), contour_stage(g, w, h), 8, 10, snx, sny as nat,
        );
        assert(6 * (sny * snx) == 0) by (nonlinear_arith)
            requires
                sny == 0 || snx == 0,
        ;
    }
}

/// Bucket sums over a well-formed V1 column bank stay within the model's
/// numeric range.
pub proof fn lemma_feats_bounds(c: V1Cortex, k: nat)
    requires
        c.wf(),
        k <= c.columns@.len(),
    ensures
        0 <= feats(c.columns@, k).0 <= k * V1_ACT_MAX,
        0 <= feats(c.columns@, k).1 <= k * V1_ACT_MAX,
        0 <= feats(c.columns@, k).2 <= k * V1_ACT_MAX,
        0 <= feats(c.columns@, k).3 <= k * V1_ACT_MAX,
        k * V1_ACT_MAX <= FEAT_MAX,
    decreases k,
{
    assert(c.columns@.len() as int * V1_ACT_MAX <= FEAT_MAX) by {
        crate::grid::lemma_pos_count_bound_general(
            c.rf_size as int, c.width - c.rf_size as int, c.spacing as int, MAX_DIM as int,
        );
        crate::grid::lemma_pos_count_bound_general(
            c.rf_size as int, c.height - c.rf_size as int, c.spacing as int, MAX_DIM as int,
        );
        assert(c.ny() * c.nx() <= 8192 * 8192) by (nonlinear_arith)
            requires
                0 <= c.ny() <= 8192,
                0 <= c.nx() <= 8192,
        ;
        assert(4 * (8192 * 8192) * V1_ACT_MAX <= FEAT_MAX) by (nonlinear_arith);
    }
    if k > 0 {
        lemma_feats_bounds(c, (k - 1) as nat);
        lemma_col_index_decomposition(c, k - 1);
        assert((k - 1) * V1_ACT_MAX + V1_ACT_MAX == k * V1_ACT_MAX) by (nonlinear_arith);
        assert(k * V1_ACT_MAX <= c.columns@.len() as int * V1_ACT_MAX) by (nonlinear_arith)
            requires
                k <= c.columns@.len(),
                V1_ACT_MAX > 0,
        ;
    }
}

/// Two identically configured V1 column banks processed against the same
/// edge map accumulate identical feature buckets: the scalar features are a
/// function of the frame and the fixed geometry alone.
pub proof fn lemma_features_determined(c1: V1Cortex, c2: V1Cortex, g: Seq<Seq<i64>>, k: nat)
    requires
        c1.wf(),
        c2.wf(),
        c1.processed(g),
        c2.processed(g),
        c1.width == c2.width,
        c1.height == c2.height,
        c1.spacing == c2.spacing,
        c1.rf_size == c2.rf_size,
        k <= c1.columns@.len(),
    ensures
        c1.columns@.len() == c2.columns@.len(),
        feats(c1.columns@, k) == feats(c2.columns@, k),
    decreases k,
{
    if k > 0 {
        lemma_features_determined(c1, c2, g, (k - 1) as nat);
        lemma_cols_agree(c1, c2, g, k - 1);
    }
}

/// Column `j` of two identically configured, processed V1 banks has the
/// same orientation and the same activation in both.
proof fn lemma_cols_agree(c1: V1Cortex, c2: V1Cortex, g: Seq<Seq<i64>>, j: int)
    requires
        c1.wf(),
        c2.wf(),
        c1.processed(g),
        c2.processed(g),
        c1.width == c2.width,
        c1.height == c2.height,
        c1.spacing == c2.spacing,
        c1.rf_size == c2.rf_size,
        0 <= j < c1.columns@.len(),
    ensures
        c1.columns@.len() == c2.columns@.len(),
        c1.columns@[j].orientation == c2.columns@[j].orientation,
        col_max_state(c1.columns@[j]) == col_max_state(c2.columns@[j]),
{
    let nx = c1.nx();
    let ny = c1.ny();
    crate::grid::lemma_pos_count_bound_general(
        c1.rf_size as int, c1.width - c1.rf_size as int, c1.spacing as int, MAX_DIM as int,
    );
    crate::grid::lemma_pos_count_bound_general(
        c1.rf_size as int, c1.height - c1.rf_size as int, c1.spacing as int, MAX_DIM as int,
    );
    let p = j / 4;
    let o = j % 4;
    crate::ganglion::lemma_fundamental_div_mod_pair(j, 4);
    assert(0 <= p < ny * nx) by (nonlinear_arith)
        requires
            0 <= j < 4 * (ny * nx),
            j == 4 * p + o,
            0 <= o < 4,
    ;
    assert(nx > 0) by (nonlinear_arith)
        requires
            0 <= p < ny * nx,
            0 <= ny,
    ;
    crate::ganglion::lemma_fundamental_div_mod_pair(p, nx);
    let yi = p / nx;
    let xi = p % nx;
    assert(0 <= yi < ny) by (nonlinear_arith)
        requires
            0 <= p < ny * nx,
            p == nx * yi + xi,
            0 <= xi < nx,
    ;
    assert(crate::v1_cortex::col_ok(c1.columns@, nx, c1.spacing as int, c1.rf_size as int, yi, xi, o));
    assert(crate::v1_cortex::col_ok(c2.columns@, nx, c2.spacing as int, c2.rf_size as int, yi, xi, o));
    assert(crate::v1_cortex::col_resp_ok(c1.columns@, nx, g, yi, xi, o));
    assert(crate::v1_cortex::col_resp_ok(c2.columns@, nx, g, yi, xi, o));
    assert(4 * (yi * nx + xi) + o == j);
}

} // verus!
