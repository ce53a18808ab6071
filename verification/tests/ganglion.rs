//! Tests for the ganglion (edge detection) layer. Intensities are fixed
//! point: the real value 1.0 is `SCALE`, radii are given in tenths.

use neuron::fixed::SCALE;
use neuron::{GanglionCell, GanglionLayer, GanglionType};

fn create_test_image(width: usize, height: usize) -> Vec<Vec<i64>> {
    vec![vec![SCALE / 2; width]; height]
}

fn create_edge_image(width: usize, height: usize) -> Vec<Vec<i64>> {
    let mut image = vec![vec![0; width]; height];
    for y in 0..height {
        for x in 0..width {
            image[y][x] = if x < width / 2 { 0 } else { SCALE };
        }
    }
    image
}

#[test]
fn test_ganglion_creation() {
    let cell = GanglionCell::new(0, GanglionType::OnCenter, 10, 10, 20, 50);
    assert_eq!(cell.id(), 0);
    assert_eq!(cell.cell_type(), GanglionType::OnCenter);
    assert_eq!(cell.position(), (10, 10));
}

#[test]
fn test_uniform_image_no_response() {
    let mut cell = GanglionCell::new(0, GanglionType::OnCenter, 5, 5, 20, 50);
    let image = create_test_image(10, 10);

    cell.compute_response(&image);

    // A uniform image produces no response (center equals surround); with
    // integer averaging the difference is exactly 0, well under 0.01.
    assert!(cell.response_strength().abs() < 10_000);
    assert_eq!(cell.response_strength(), 0);
}

#[test]
fn test_on_center_bright_spot() {
    let mut cell = GanglionCell::new(0, GanglionType::OnCenter, 5, 5, 20, 50);
    let mut image = vec![vec![0; 10]; 10];

    // Create a bright spot in the center.
    image[5][5] = SCALE;

    cell.compute_response(&image);

    // An ON-center cell responds positively to a bright center.
    assert!(cell.response_strength() > 0);
    // 13 center samples, one bright: the average is 1/13.
    assert_eq!(cell.response_strength(), 76_923);
}

#[test]
fn test_off_center_dark_spot() {
    let mut cell = GanglionCell::new(0, GanglionType::OffCenter, 5, 5, 20, 50);
    let mut image = vec![vec![SCALE; 10]; 10];

    // Create a dark spot in the center.
    image[5][5] = 0;

    cell.compute_response(&image);

    // An OFF-center cell responds positively to a dark center.
    assert!(cell.response_strength() > 0);
    assert_eq!(cell.response_strength(), 76_924);
}

#[test]
fn test_ganglion_layer_creation() {
    let layer = GanglionLayer::new(20, 20, 5, 20, 50);
    assert!(!layer.cells().is_empty());

    let on_cells = layer.cells_by_type(GanglionType::OnCenter);
    let off_cells = layer.cells_by_type(GanglionType::OffCenter);

    assert_eq!(on_cells.len(), off_cells.len());
}

#[test]
fn test_edge_detection() {
    let mut layer = GanglionLayer::new(20, 20, 3, 15, 40);
    let edge_image = create_edge_image(20, 20);

    layer.process_image(&edge_image);
    let edge_map = layer.create_edge_map();

    // The edge map has some response.
    let total_response: i64 = edge_map.iter().flatten().sum();
    assert!(total_response > 0);
    assert_eq!(total_response, 200_089_500);
}

#[test]
fn test_firing_rate_matches_strength() {
    let mut cell = GanglionCell::new(3, GanglionType::OnCenter, 5, 5, 20, 50);
    let mut image = vec![vec![0; 10]; 10];
    image[5][5] = SCALE;
    cell.compute_response(&image);
    // The firing rate is the rectified response scaled by 100.
    assert_eq!(cell.firing_rate(), 100 * cell.response_strength());
}
