//! Cone photopigment classes of the retinal mosaic.
//!
//! The phototransduction model itself is an external collaborator of the
//! pipeline; the pipeline only needs the class of each cone.

use vstd::prelude::*;

verus! {

/// Types of cone photopigments with different spectral sensitivities.
#[derive(Debug, Clone, Copy, PartialEq, Eq, Structural)]
pub enum ConeType {
    /// S-cones: short wavelength sensitive (~420 nm, blue).
    S,
    /// M-cones: medium wavelength sensitive (~530 nm, green).
    M,
    /// L-cones: long wavelength sensitive (~560 nm, red).
    L,
}

impl ConeType {
    /// Returns the name of the cone type.
    pub fn name(&self) -> (r: &'static str)
        ensures
            *self is S ==> r@ == "S-cone (Blue)"@,
            *self is M ==> r@ == "M-cone (Green)"@,
            *self is L ==> r@ == "L-cone (Red)"@,
    {
        match self {
            Self::S => "S-cone (Blue)",
            Self::M => "M-cone (Green)",
            Self::L => "L-cone (Red)",
        }
    }
}

} // verus!
