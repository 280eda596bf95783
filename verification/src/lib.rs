//! Decision logic of a pan-tilt-zoom camera tracker.

pub mod arithmetic;
pub mod camera;
pub mod clock;
pub mod meter;
pub mod order;
pub mod pipeline;
pub mod preview;
pub mod scalar;
pub mod startup;
pub mod text;
pub mod tracking;
pub mod vision;
pub mod whole;
