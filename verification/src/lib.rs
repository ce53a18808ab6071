//! A feed-forward model of the early visual pathway.
//!
//! An input frame is a width x height grid of light intensities. The pipeline
//! refines it in four strictly ordered stages: center-surround edge detection
//! (ganglion layer), oriented filter columns (V1), corner junctions and traced
//! contours (V2), and heuristic shape classification (V4). A pathway object
//! owns all four layers for a fixed frame size and derives scalar summary
//! features from the column responses.
//!
//! All signal values are fixed-point integers: the real number `v` is stored
//! as `v * SCALE` (see [`fixed`]). Intensities occupy `0 ..= SCALE`; edge and
//! detector activations are bounded multiples of `SCALE`.

pub mod fixed;
pub mod ganglion;
pub mod grid;
pub mod neurotransmitter;
pub mod photopigment;
pub mod test_patterns;
pub mod v1_cortex;
pub mod v2_cortex;
pub mod v4_cortex;
pub mod visual_pathway;

pub use ganglion::{GanglionCell, GanglionLayer, GanglionType};
pub use neurotransmitter::Neurotransmitter;
pub use photopigment::ConeType;
pub use v1_cortex::{Orientation, V1Cortex, V1Neuron, V1NeuronType};
pub use v2_cortex::{CornerType, V2Cortex, V2Response};
pub use v4_cortex::{ShapeType, V4Cortex, V4Response};
pub use visual_pathway::VisualPathway;
