use vstd::prelude::*;

verus! {

/// The word of the sample zero: the value of an empty sum.
pub const ZERO: u32 = 0;

/// The word of the sample 255, the largest intensity: the alpha of every
/// pixel.
pub const OPAQUE: u32 = 0x437F_0000;

} // verus!
