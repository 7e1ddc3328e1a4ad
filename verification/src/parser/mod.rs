//! Wire framing and message decoding.

pub mod builder;
pub mod frame;
pub mod message;

pub use builder::StreamBuilder;
pub use frame::{FrameConfig, FrameParser};
pub use message::{Message, MessageTag};
