//! Audio buffers of packed PCM samples, and the framing and pacing rules of a
//! streaming audio device.
//!
//! Samples are handled as integer levels: a level `q` at a bit depth `d` stands
//! for the normalized amplitude `q / limit(d)`.

pub mod codec;
pub mod pool;
pub mod buffer;
pub mod frame;
pub mod device;
