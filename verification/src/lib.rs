//! Funnel-structured face detection: verified integer core.
//!
//! The crate holds the exactly specified parts of the detector pipeline:
//! element-wise math kernels, integral-image planes, the LAB and SURF
//! feature maps, the feature pool over the canonical 40x40 sample, the
//! binary model reader, and the window geometry helpers used by the
//! cascade driver.

pub mod arith;
pub mod common;
pub mod feat;
pub mod lab;
pub mod math;
pub mod model;
pub mod plane;
pub mod surf;
pub mod window;

pub use common::ImageData;
pub use common::Rectangle;
pub use model::Model;
pub use model::read_model;
