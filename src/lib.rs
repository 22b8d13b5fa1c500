//! Adapts a synthesis engine that computes audio in blocks of a fixed number
//! of frames to an audio device whose callback asks for any number of frames.
use vstd::prelude::*;

pub mod bridge;
pub mod carry;
pub mod frames;
pub mod signal;
pub mod source;

pub use bridge::{block_fits, StreamBridge};
pub use carry::CarryBuffer;
pub use frames::copy_frames;
pub use signal::engine_error;
pub use source::BlockLog;

verus! {

/// The number of frames the synthesis engine computes per block.
pub const BLOCK_SIZE: usize = 128;

} // verus!
