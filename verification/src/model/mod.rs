//! Domain model shared across probes, the diagnosis engine, and the UI.

pub mod path;
pub mod reading;
pub mod status;

pub use path::{Fault, Hop, HopId, Layer, Metric, Path};
pub use reading::{Loss, Millis};
pub use status::Status;
