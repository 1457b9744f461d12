//! What the parts of a graphics context can be asked for.

use vstd::prelude::*;

verus! {

/// A context that knows the queue family its commands go to.
pub trait HasQueueFamilyIndex {
    fn queue_family_index(&self) -> u32;
}

} // verus!
