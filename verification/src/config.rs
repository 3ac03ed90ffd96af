//! Tuning constants shared by the world layout and the scheduler.
use vstd::prelude::*;

verus! {

/// Side length of a world chunk, in blocks.
pub const WCHUNK_SIZE: usize = 16;

/// Side length of a scheduling chunk, in world chunks.
pub const SCHUNK_SIZE: usize = 16;

/// Upper bound on the number of chunk-server threads running at once.
pub const MAX_THREAD_COUNT: usize = 64;

/// The decay level a scheduling chunk is reset to whenever it is used.
pub const MAX_SCHUNK_DECAY_RATE: u8 = 255u8;

} // verus!
