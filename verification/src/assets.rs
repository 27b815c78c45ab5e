//! Handles by which game code refers to loaded assets. The asset store itself
//! (file loading, GPU upload) lives with the platform layer; the core only
//! passes these opaque indices around, most importantly as the keys of the
//! render-batching collection.

use vstd::prelude::*;

verus! {

/// Identity of a loaded model, used as the grouping key for instanced draws.
#[derive(Copy, Clone, PartialEq, Eq, Structural, Hash, Debug)]
pub struct ModelRef(usize);

/// Identity of a loaded skeletal rig.
#[derive(Copy, Clone, PartialEq, Eq, Structural, Hash, Debug)]
pub struct RigRef(usize);

/// Identity of a loaded animation clip.
#[derive(Copy, Clone, PartialEq, Eq, Structural, Hash, Debug)]
pub struct AnimRef(usize);

impl ModelRef {
    pub fn new(index: usize) -> (r: Self)
        ensures
            r.index() == index,
    {
        ModelRef(index)
    }

    pub closed spec fn index(self) -> usize {
        self.0
    }
}

impl RigRef {
    pub fn new(index: usize) -> (r: Self)
        ensures
            r.index() == index,
    {
        RigRef(index)
    }

    pub closed spec fn index(self) -> usize {
        self.0
    }
}

impl AnimRef {
    pub fn new(index: usize) -> (r: Self)
        ensures
            r.index() == index,
    {
        AnimRef(index)
    }

    pub closed spec fn index(self) -> usize {
        self.0
    }
}

} // verus!
