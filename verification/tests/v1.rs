//! Tests for the V1 orientation layer.

use neuron::fixed::SCALE;
use neuron::{Orientation, V1Cortex, V1Neuron, V1NeuronType};

#[test]
fn test_orientation_creation() {
    let h = Orientation::horizontal();
    assert_eq!(h.degrees(), 0);

    let v = Orientation::vertical();
    assert_eq!(v.degrees(), 90);
}

#[test]
fn test_v1_neuron_creation() {
    let neuron = V1Neuron::new(0, V1NeuronType::Simple, 10, 10, Orientation::horizontal(), 5);

    assert_eq!(neuron.id(), 0);
    assert_eq!(neuron.neuron_type(), V1NeuronType::Simple);
}

#[test]
fn test_horizontal_edge_detection() {
    let mut neuron = V1Neuron::new(0, V1NeuronType::Simple, 10, 10, Orientation::horizontal(), 5);

    // Create a horizontal edge.
    let mut edge_map = vec![vec![0; 20]; 20];
    for x in 0..20 {
        edge_map[10][x] = SCALE;
    }

    neuron.compute_response(&edge_map);
    assert!(neuron.activation() > 0);
    assert_eq!(neuron.activation(), 135_802);
}

#[test]
fn test_v1_cortex_creation() {
    let cortex = V1Cortex::new(50, 50, 10, 5);
    assert!(!cortex.columns().is_empty());
}

#[test]
fn test_orientation_wraps_at_180() {
    assert_eq!(Orientation::new(200).degrees(), 20);
    assert_eq!(Orientation::new(45).degrees(), 45);
}

#[test]
fn test_off_axis_band_gives_no_weight() {
    // A neuron preferring the vertical axis ignores an edge far from it.
    let mut neuron = V1Neuron::new(0, V1NeuronType::Simple, 10, 10, Orientation::vertical(), 5);
    let mut edge_map = vec![vec![0; 20]; 20];
    for x in 0..20 {
        if !(8..=12).contains(&x) {
            edge_map[10][x] = SCALE;
        }
    }
    neuron.compute_response(&edge_map);
    assert_eq!(neuron.activation(), 0);
}

#[test]
fn test_is_active_threshold() {
    let mut neuron = V1Neuron::new(0, V1NeuronType::Simple, 10, 10, Orientation::horizontal(), 5);
    let mut edge_map = vec![vec![0; 20]; 20];
    for x in 0..20 {
        edge_map[10][x] = SCALE;
    }
    neuron.compute_response(&edge_map);
    assert!(neuron.is_active(100_000));
    assert!(!neuron.is_active(200_000));
}
