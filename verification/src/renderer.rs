//! The drawers and the state that runs them frame by frame.

pub mod bounding_sphere;
pub mod debug;
pub mod device;
pub mod layout;
pub mod model;
pub mod render;
