//! Tests for the V2 layer: corner junctions and the contour tracer.

use std::collections::HashSet;

use neuron::fixed::SCALE;
use neuron::v2_cortex::V2ContourDetector;
use neuron::{CornerType, V2Cortex};

#[test]
fn test_v2_creation() {
    let v2 = V2Cortex::new(64, 64, 8);
    assert!(v2.corner_detectors().len() > 0);
}

#[test]
fn test_corner_detector_creation() {
    let detector = neuron::v2_cortex::V2CornerDetector::new(0, 10, 10, CornerType::LJunction, 3);
    assert_eq!(detector.position(), (10, 10));
    assert_eq!(detector.corner_type(), CornerType::LJunction);
}

#[test]
fn test_contour_detection() {
    // Create a simple edge map with a horizontal line.
    let mut edge_map = vec![vec![0; 20]; 20];
    for x in 5..15 {
        edge_map[10][x] = 5 * SCALE;
    }

    let mut detector = V2ContourDetector::new(0, 3, 5);
    let contours = detector.detect_contours(&edge_map);

    assert!(contours.len() > 0);
    assert!(detector.activation() > 0);
    // The dilated band around the line is walked as one 36-pixel path.
    assert_eq!(contours.len(), 1);
    assert_eq!(contours[0].len(), 36);
}

#[test]
fn test_right_angle_populates_corner_map() {
    // Two perpendicular 3-pixel-thick bars meeting at (16, 16): once the
    // orientation map shows both near-horizontal and near-vertical cells in
    // a detector window, a corner-map cell near the intersection populates.
    let mut grid = vec![vec![0i64; 64]; 64];
    for x in 16..48 {
        for t in 0..3 {
            grid[15 + t][x] = SCALE;
        }
    }
    for y in 16..48 {
        for t in 0..3 {
            grid[y][15 + t] = SCALE;
        }
    }
    let mut pathway = neuron::VisualPathway::new(64, 64);
    let response = pathway.process(&grid);

    assert!(response.v2_features.corner_count > 0);
    assert_eq!(response.v2_features.corner_count, 7);
    // The cell at the intersection itself is populated; with the
    // last-write-wins rule the surviving type there is the X-junction.
    assert_eq!(response.v2_features.corner_map[16][16], Some(CornerType::XJunction));
}

#[test]
fn test_saturated_map_tracer_caps_and_never_revisits() {
    // An adversarial fully saturated edge map: every pixel seeds a trace.
    // Every path stops within 200 steps (at most 201 pixels) and no pixel
    // is claimed by two contours.
    let edge_map = vec![vec![5 * SCALE; 40]; 40];
    let mut detector = V2ContourDetector::new(0, 3, 5);
    let contours = detector.detect_contours(&edge_map);

    assert!(contours.len() > 0);
    let mut seen: HashSet<(usize, usize)> = HashSet::new();
    let mut total = 0;
    for c in &contours {
        assert!(c.len() >= 3);
        assert!(c.len() <= 201);
        for &p in c {
            assert!(p.0 < 40 && p.1 < 40);
            assert!(seen.insert(p), "pixel claimed twice");
            total += 1;
        }
    }
    assert!(total <= 40 * 40);
}

#[test]
fn test_total_features() {
    let mut edge_map = vec![vec![0; 20]; 20];
    for x in 5..15 {
        edge_map[10][x] = 5 * SCALE;
    }
    let orientation_map = vec![vec![None; 20]; 20];
    let mut v2 = V2Cortex::new(20, 20, 4);
    let response = v2.process(&orientation_map, &edge_map);
    assert_eq!(
        response.total_features(),
        response.corner_count + response.contour_count
    );
    assert_eq!(response.contour_count, 1);
}

#[test]
fn test_dominant_corner_type_prefers_most_frequent() {
    let mut corner_map: Vec<Vec<Option<CornerType>>> = vec![vec![None; 8]; 8];
    corner_map[1][1] = Some(CornerType::TJunction);
    corner_map[2][5] = Some(CornerType::TJunction);
    corner_map[6][3] = Some(CornerType::XJunction);
    let response = neuron::V2Response {
        corner_map,
        contours: Vec::new(),
        corner_count: 3,
        contour_count: 0,
    };
    assert_eq!(response.dominant_corner_type(), Some(CornerType::TJunction));

    let empty = neuron::V2Response {
        corner_map: vec![vec![None; 8]; 8],
        contours: Vec::new(),
        corner_count: 0,
        contour_count: 0,
    };
    assert_eq!(empty.dominant_corner_type(), None);
}
