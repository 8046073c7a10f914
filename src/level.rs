use vstd::prelude::*;

verus! {

/// Half-width of the playing field: columns run from `-LEVEL_SIZE_X` to `LEVEL_SIZE_X`.
pub const LEVEL_SIZE_X: i32 = 15;

/// Half-height of the playing field: rows run from `-LEVEL_SIZE_Y` to `LEVEL_SIZE_Y`.
pub const LEVEL_SIZE_Y: i32 = 11;

} // verus!
