//! Tests for the neurotransmitter classification.

use neuron::Neurotransmitter;

#[test]
fn test_glutamate_is_excitatory() {
    assert!(Neurotransmitter::Glutamate.is_excitatory());
    assert!(!Neurotransmitter::Glutamate.is_inhibitory());
}

#[test]
fn test_gaba_is_inhibitory() {
    assert!(Neurotransmitter::GABA.is_inhibitory());
    assert!(!Neurotransmitter::GABA.is_excitatory());
}

#[test]
fn test_modulatory_types_are_excitatory() {
    assert!(Neurotransmitter::Dopamine.is_excitatory());
    assert!(Neurotransmitter::Serotonin.is_excitatory());
    assert!(!Neurotransmitter::Dopamine.is_inhibitory());
}

#[test]
fn test_cone_type_names() {
    assert_eq!(neuron::ConeType::S.name(), "S-cone (Blue)");
    assert_eq!(neuron::ConeType::M.name(), "M-cone (Green)");
    assert_eq!(neuron::ConeType::L.name(), "L-cone (Red)");
}
