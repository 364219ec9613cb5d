//! The source of the rays that sound is traced along.

use vstd::prelude::*;

verus! {

/// Casts rays; each is followed through this many bounces.
#[derive(Clone, Copy, Debug, PartialEq, Eq, Structural)]
pub struct Raycaster {
    pub bounces: usize,
}

/// The ray caster that sound starts with: three bounces a ray.
pub fn sound_plugin() -> (caster: Raycaster)
    ensures
        caster.bounces == 3,
{
    Raycaster { bounces: 3 }
}

} // verus!
