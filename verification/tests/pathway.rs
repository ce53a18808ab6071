//! Tests for the whole pathway: stage order, the derived features, and the
//! pathway-level properties on empty, uniform and bar frames.

use neuron::fixed::SCALE;
use neuron::test_patterns::{cross, horizontal_bar, vertical_bar};
use neuron::VisualPathway;

#[test]
fn test_visual_pathway_creation() {
    let pathway = VisualPathway::new(32, 32);
    assert_eq!(pathway.dimensions(), (32, 32));
}

#[test]
fn test_vertical_bar_detection() {
    let mut pathway = VisualPathway::new(32, 32);
    let image = vertical_bar(32, 32);
    let response = pathway.process(&image);

    // A vertical bar activates the visual system.
    assert!(response.features.edge_strength() > 0);
}

#[test]
fn test_horizontal_bar_detection() {
    let mut pathway = VisualPathway::new(32, 32);
    let image = horizontal_bar(32, 32);
    let response = pathway.process(&image);

    assert!(response.features.edge_strength() > 0);
}

#[test]
fn test_cross_pattern() {
    let mut pathway = VisualPathway::new(32, 32);
    let image = cross(32, 32);
    let response = pathway.process(&image);

    // A cross activates both the horizontal and the vertical bucket.
    assert!(response.features.horizontal_strength > 0);
    assert!(response.features.vertical_strength > 0);
    assert!(response.features.edge_strength() > 0);
}

#[test]
fn test_empty_frame_all_stages_empty() {
    // A zero-sized frame yields empty maps and zero counts at every stage.
    let mut pathway = VisualPathway::new(0, 0);
    let grid: Vec<Vec<i64>> = Vec::new();
    let response = pathway.process(&grid);

    assert!(response.edge_map.is_empty());
    assert!(response.orientation_map.is_empty());
    assert!(response.v2_features.corner_map.is_empty());
    assert!(response.v2_features.contours.is_empty());
    assert_eq!(response.v2_features.corner_count, 0);
    assert_eq!(response.v2_features.contour_count, 0);
    assert!(response.v4_features.shape_map.is_empty());
    assert_eq!(response.v4_features.shape_count, 0);
    assert_eq!(response.features.total_activation, 0);
}

#[test]
fn test_uniform_frame_edge_map_silent() {
    // On a uniform frame every edge-map cell is exactly 0: every detector
    // sees the same center and surround average.
    let mut pathway = VisualPathway::new(24, 24);
    let grid = vec![vec![SCALE / 2; 24]; 24];
    let response = pathway.process(&grid);

    for row in &response.edge_map {
        for &v in row {
            assert_eq!(v, 0);
        }
    }
    assert_eq!(response.features.total_activation, 0);
}

#[test]
fn test_vertical_bar_dominance() {
    // A single vertical high-contrast bar on an otherwise dark 64x64 frame
    // yields stronger vertical than horizontal structure.
    let mut pathway = VisualPathway::new(64, 64);
    let image = vertical_bar(64, 64);
    let response = pathway.process(&image);

    assert!(response.features.vertical_strength > response.features.horizontal_strength);
    assert_eq!(response.features.dominant_orientation(), "Vertical");
    assert_eq!(response.features.vertical_strength, 1_854_979);
    assert_eq!(response.features.horizontal_strength, 545_785);
    assert_eq!(response.features.diagonal_strength, 1_502_907);
    assert_eq!(response.features.total_activation, 5_782_305);
}

#[test]
fn test_horizontal_bar_dominance() {
    // The symmetric frame gives the symmetric result.
    let mut pathway = VisualPathway::new(64, 64);
    let image = horizontal_bar(64, 64);
    let response = pathway.process(&image);

    assert!(response.features.horizontal_strength > response.features.vertical_strength);
    assert_eq!(response.features.dominant_orientation(), "Horizontal");
    assert_eq!(response.features.horizontal_strength, 1_854_979);
    assert_eq!(response.features.vertical_strength, 545_785);
}

#[test]
fn test_process_idempotent() {
    // Two calls with the identical frame on one pathway produce
    // bit-identical responses: no state leaks between calls.
    let mut pathway = VisualPathway::new(48, 48);
    let image = vertical_bar(48, 48);
    let first = pathway.process(&image);
    let second = pathway.process(&image);

    assert_eq!(first.edge_map, second.edge_map);
    assert_eq!(first.orientation_map, second.orientation_map);
    assert_eq!(first.v2_features.corner_map, second.v2_features.corner_map);
    assert_eq!(first.v2_features.contours, second.v2_features.contours);
    assert_eq!(first.v2_features.corner_count, second.v2_features.corner_count);
    assert_eq!(first.v2_features.contour_count, second.v2_features.contour_count);
    assert_eq!(first.v4_features.shape_map, second.v4_features.shape_map);
    assert_eq!(first.v4_features.shape_count, second.v4_features.shape_count);
    assert_eq!(first.v4_features.shape_type_counts, second.v4_features.shape_type_counts);
    assert_eq!(first.features, second.features);
}

#[test]
fn test_fresh_pathway_matches_reused_pathway() {
    // A freshly constructed pathway gives the same response as one that
    // already processed a different frame: detector state is per call.
    let image = horizontal_bar(40, 40);
    let other = cross(40, 40);

    let mut fresh = VisualPathway::new(40, 40);
    let expected = fresh.process(&image);

    let mut reused = VisualPathway::new(40, 40);
    let _ = reused.process(&other);
    let got = reused.process(&image);

    assert_eq!(expected.edge_map, got.edge_map);
    assert_eq!(expected.features, got.features);
    assert_eq!(expected.v4_features.shape_count, got.v4_features.shape_count);
}
