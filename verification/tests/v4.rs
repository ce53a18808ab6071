//! Tests for the V4 shape layer.

use neuron::fixed::SCALE;
use neuron::v4_cortex::{V4Cortex, V4ShapeDetector};
use neuron::{ShapeType, V4Response};

#[test]
fn test_v4_cortex_creation() {
    let v4 = V4Cortex::new(64, 64, 8);
    assert!(v4.shape_detectors().len() > 0);
}

#[test]
fn test_shape_detector_creation() {
    let detector = V4ShapeDetector::new(0, 10, 10, ShapeType::Circle, 5);
    assert_eq!(detector.position(), (10, 10));
    assert_eq!(detector.shape_type(), ShapeType::Circle);
}

#[test]
fn test_circle_ring_yields_circle_cells() {
    // A rasterized circle outline of radius 12 around the frame center:
    // enough smooth contour pixels with a low corner ratio, so the shape
    // map populates Circle cells within the ring's bounding window.
    let mut grid = vec![vec![0i64; 64]; 64];
    for y in 0..64i64 {
        for x in 0..64i64 {
            let dx = (x - 32) as f64;
            let dy = (y - 32) as f64;
            let d = (dx * dx + dy * dy).sqrt();
            if (d - 12.0).abs() <= 1.0 {
                grid[y as usize][x as usize] = SCALE;
            }
        }
    }
    let mut pathway = neuron::VisualPathway::new(64, 64);
    let response = pathway.process(&grid);

    assert_eq!(response.v4_features.shape_map[24][24], Some(ShapeType::Circle));
    assert_eq!(response.v4_features.shape_map[24][32], Some(ShapeType::Circle));
    assert!(response.v4_features.shape_type_counts.circle > 0);
    assert_eq!(response.v4_features.shape_type_counts.circle, 31);
    assert_eq!(response.v4_features.shape_count, 75);
    // The instance count tallies co-qualifying detectors, so it exceeds
    // the circle count alone.
    assert!(response.v4_features.shape_count > response.v4_features.shape_type_counts.circle);
}

#[test]
fn test_dominant_shape_type_and_counts() {
    let counts = neuron::v4_cortex::ShapeTypeCounts {
        circle: 2,
        rectangle: 5,
        triangle: 0,
        line: 5,
        cross: 1,
        complex: 0,
    };
    let response = V4Response { shape_map: Vec::new(), shape_count: 13, shape_type_counts: counts };
    // Ties go to the type evaluated first in the fixed order.
    assert_eq!(response.dominant_shape_type(), Some(ShapeType::Rectangle));
    assert_eq!(response.count_by_type().get(ShapeType::Line), 5);
    assert_eq!(response.count_by_type().get(ShapeType::Triangle), 0);

    let empty = V4Response {
        shape_map: Vec::new(),
        shape_count: 0,
        shape_type_counts: neuron::v4_cortex::ShapeTypeCounts {
            circle: 0,
            rectangle: 0,
            triangle: 0,
            line: 0,
            cross: 0,
            complex: 0,
        },
    };
    assert_eq!(empty.dominant_shape_type(), None);
}
