use vstd::prelude::*;

verus! {

/// What a board port provides to the kernel: its set-up.
pub trait BspTrait {
    fn init(&self);
}

/// What a board provides to the kernel: its set-up.
pub trait BoardTrait {
    fn init(&self);
}

} // verus!
