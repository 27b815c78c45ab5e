//! Handle by which game code names a loaded sound. Playback itself is done by
//! the platform layer; the core only decides *which* sound to trigger.

use vstd::prelude::*;

verus! {

/// Identity of a loaded sound, an index into the platform layer's sound list.
#[derive(Copy, Clone, PartialEq, Eq, Structural, Hash, Debug)]
pub struct SoundID(pub usize);

} // verus!
