//! Live tile-grid update pipeline: color quantization, grid diffing, frame
//! sources, a subscriber broadcaster and the per-tick scheduler state machine.

pub mod color;
pub mod grid;
pub mod broadcast;
pub mod source;
pub mod scheduler;
pub mod frame;
