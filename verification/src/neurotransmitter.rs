//! Neurotransmitter types and their excitatory or inhibitory character.

use vstd::prelude::*;

verus! {

/// Types of neurotransmitters that can be released at synapses.
#[derive(Debug, Clone, Copy, PartialEq, Eq, Structural)]
pub enum Neurotransmitter {
    /// Excitatory neurotransmitter - increases likelihood of an action potential.
    Glutamate,
    /// Inhibitory neurotransmitter - decreases likelihood of an action potential.
    GABA,
    /// Modulatory neurotransmitter - reward and motivation.
    Dopamine,
    /// Modulatory neurotransmitter - mood and cognition.
    Serotonin,
}

impl Neurotransmitter {
    /// Returns whether this neurotransmitter is primarily excitatory.
    pub fn is_excitatory(&self) -> (r: bool)
        ensures
            r == (*self is Glutamate || *self is Dopamine || *self is Serotonin),
    {
        matches!(self, Self::Glutamate | Self::Dopamine | Self::Serotonin)
    }

    /// Returns whether this neurotransmitter is primarily inhibitory.
    pub fn is_inhibitory(&self) -> (r: bool)
        ensures
            r == (*self is GABA),
    {
        matches!(self, Self::GABA)
    }
}

} // verus!
