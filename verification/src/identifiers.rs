//! Tags to which the container format itself gives a meaning.

use vstd::prelude::*;

verus! {

/// Tag of the "INFO" list chunk, which holds metadata.
pub const INFO: [u8; 4] = [73, 78, 70, 79];

/// Tag of the "LIST" chunk, which holds sub-chunks.
pub const LIST: [u8; 4] = [76, 73, 83, 84];

/// Tag of the "RIFF" chunk, which stands for a whole file.
pub const RIFF: [u8; 4] = [82, 73, 70, 70];

} // verus!
