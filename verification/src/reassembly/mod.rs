//! Fragment reassembly and sliding-window stream buffering.

pub mod engine;
pub mod policy;
pub mod tracker;
pub mod window;

pub use engine::Reassembler;
pub use policy::{OverlapPolicy, Resolution, Span};
pub use tracker::CoverageTracker;
pub use window::Window;
