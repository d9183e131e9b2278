//! The live dashboard.

pub mod dashboard;

pub use dashboard::App;
