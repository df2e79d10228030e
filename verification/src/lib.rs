//! Verified core of a GoldSrc-style reverb/echo effect chain: the circular
//! delay lines with their read-head crossfades and modulation timers, the
//! room presets' index and names, the output clip modes, and the splitting of
//! interleaved frames into stereo tracks.

pub mod delay_line;
pub mod frames;
pub mod modulation;
pub mod reverb;

pub use delay_line::DelayLine;
pub use reverb::{preset_index, ClipMode, PRESET_COUNT, ROOM_NAMES};
