//! What the program is built to ask of an instance and a device.

use vstd::prelude::*;

verus! {

/// The lowest API version a device must offer: version 1.1, packed as
/// variant, major, minor and patch.
pub const API_VERSION: u32 = (1 << 22) | (1 << 12);

/// The layers an instance must offer.
pub const REQUIRED_INSTANCE_LAYERS: [&'static str; 1] = ["VK_LAYER_KHRONOS_validation"];

/// The layers a device must offer.
pub const REQUIRED_DEVICE_LAYERS: [&'static str; 1] = ["VK_LAYER_KHRONOS_validation"];

/// The extensions a device must offer.
pub const REQUIRED_DEVICE_EXTENSIONS: [&'static str; 2] = [
    "VK_EXT_memory_budget",
    "VK_KHR_swapchain",
];

/// The extensions an instance must offer.
pub const REQUIRED_INSTANCE_EXTENSIONS: [&'static str; 2] = [
    "VK_KHR_surface",
    "VK_EXT_debug_utils",
];

/// How long a wait on a fence may take, in milliseconds.
pub const FENCE_TIMEOUT_MS: u64 = 9999;

/// The same wait in nanoseconds, as the device counts it.
pub const FENCE_TIMEOUT_NS: u64 = 9999 * 1000 * 1000;

/// The uses for which the program allocates device memory.
#[derive(Clone, Copy, Debug, PartialEq, Eq, Structural)]
pub enum MemoryKind {
    Buffer1,
    Image1,
}

/// Every memory kind, in the order of declaration.
pub fn memory_kinds() -> (kinds: [MemoryKind; 2])
    ensures
        kinds@ == seq![MemoryKind::Buffer1, MemoryKind::Image1],
        forall|kind: MemoryKind| kinds@.contains(kind),
{
    let kinds = [MemoryKind::Buffer1, MemoryKind::Image1];
    proof {
        assert(kinds@[0] == MemoryKind::Buffer1);
        assert(kinds@[1] == MemoryKind::Image1);
        assert(kinds@ =~= seq![MemoryKind::Buffer1, MemoryKind::Image1]);
        assert forall|kind: MemoryKind| kinds@.contains(kind) by {
            match kind {
                MemoryKind::Buffer1 => assert(kinds@[0] == kind),
                MemoryKind::Image1 => assert(kinds@[1] == kind),
            }
        }
    }
    kinds
}

} // verus!
