//! Which physical device, queue family and surface format the program takes.
//!
//! The caller asks the driver and hands over what it answered; the rules
//! that judge the answers are here.

use vstd::prelude::*;
use crate::constants::{
    MemoryKind, API_VERSION, REQUIRED_DEVICE_EXTENSIONS, REQUIRED_DEVICE_LAYERS,
};
use crate::memory::{
    contains_flags, flags_contain, get_if_physical_device_supports_all_memory_requirements,
    supports_kind, MemoryType,
};
use crate::names::{all_offered, all_supported, names_of};

verus! {

/// A queue of the family takes graphics commands.
pub const QUEUE_GRAPHICS: u32 = 0x1;

/// A queue of the family takes compute commands.
pub const QUEUE_COMPUTE: u32 = 0x2;

/// A queue of the family takes transfer commands.
pub const QUEUE_TRANSFER: u32 = 0x4;

/// Images of the format can be sampled.
pub const FORMAT_FEATURE_SAMPLED_IMAGE: u32 = 0x1;

/// An image can be the destination of a transfer.
pub const IMAGE_USAGE_TRANSFER_DST: u32 = 0x2;

/// An image can be a colour attachment.
pub const IMAGE_USAGE_COLOR_ATTACHMENT: u32 = 0x10;

/// Four 8-bit channels, red first, unsigned normalised.
pub const FORMAT_R8G8B8A8_UNORM: i32 = 37;

/// Four 8-bit channels, blue first, unsigned normalised.
pub const FORMAT_B8G8R8A8_UNORM: i32 = 44;

/// What a device can do with images of one format, by tiling.
#[derive(Clone, Copy, Debug, PartialEq, Eq, Structural)]
pub struct FormatProperties {
    pub linear_tiling_features: u32,
    pub optimal_tiling_features: u32,
}

/// What a physical device answered when asked about itself.
/// `format_properties` holds one entry for each image format the program
/// uses.
#[derive(Debug)]
pub struct PhysicalDeviceProfile {
    pub max_memory_allocation_count: u32,
    pub api_version: u32,
    pub memory_types: Vec<MemoryType>,
    pub format_properties: Vec<FormatProperties>,
    pub layers: Vec<String>,
    pub extensions: Vec<String>,
}

/// Images of a format with these properties can be sampled, whichever
/// tiling they have.
pub open spec fn format_is_usable(properties: FormatProperties) -> bool {
    &&& flags_contain(properties.linear_tiling_features, FORMAT_FEATURE_SAMPLED_IMAGE)
    &&& flags_contain(properties.optimal_tiling_features, FORMAT_FEATURE_SAMPLED_IMAGE)
}

/// The device allows an allocation, backs every kind of memory, can sample
/// every format asked about, is recent enough, and offers the required
/// layers and extensions.
pub open spec fn device_is_adequate(profile: PhysicalDeviceProfile) -> bool {
    &&& profile.max_memory_allocation_count >= 1
    &&& forall|kind: MemoryKind| supports_kind(profile.memory_types@, kind)
    &&& forall|i: int|
        0 <= i < profile.format_properties@.len() ==> format_is_usable(
            #[trigger] profile.format_properties@[i],
        )
    &&& profile.api_version >= API_VERSION
    &&& all_offered(names_of(REQUIRED_DEVICE_LAYERS@), profile.layers.deep_view())
    &&& all_offered(names_of(REQUIRED_DEVICE_EXTENSIONS@), profile.extensions.deep_view())
}

/// Whether every format of `properties` can be sampled in both tilings.
fn all_formats_usable(properties: &[FormatProperties]) -> (usable: bool)
    ensures
        usable == forall|i: int|
            0 <= i < properties@.len() ==> format_is_usable(#[trigger] properties@[i]),
{
    let mut i: usize = 0;
    while i < properties.len()
        invariant
            i <= properties@.len(),
            forall|m: int| 0 <= m < i ==> format_is_usable(#[trigger] properties@[m]),
        decreases properties@.len() - i,
    {
        let pass_linear = contains_flags(
            properties[i].linear_tiling_features,
            FORMAT_FEATURE_SAMPLED_IMAGE,
        );
        let pass_optimal = contains_flags(
            properties[i].optimal_tiling_features,
            FORMAT_FEATURE_SAMPLED_IMAGE,
        );
        if !(pass_linear && pass_optimal) {
            return false;
        }
        i += 1;
    }
    true
}

/// Whether the program can run on the device.
pub fn is_device_suitable(profile: &PhysicalDeviceProfile) -> (adequate: bool)
    ensures
        adequate == device_is_adequate(*profile),
{
    if profile.max_memory_allocation_count < 1 {
        return false;
    }
    if !get_if_physical_device_supports_all_memory_requirements(profile.memory_types.as_slice()) {
        return false;
    }
    if !all_formats_usable(profile.format_properties.as_slice()) {
        return false;
    }
    if profile.api_version < API_VERSION {
        return false;
    }
    if !all_supported(&REQUIRED_DEVICE_LAYERS, profile.layers.as_slice()) {
        return false;
    }
    if !all_supported(&REQUIRED_DEVICE_EXTENSIONS, profile.extensions.as_slice()) {
        return false;
    }
    true
}

/// `chosen` is the position of the first adequate device, or nothing where
/// none is adequate.
pub open spec fn is_first_adequate_device(
    profiles: Seq<PhysicalDeviceProfile>,
    chosen: Option<usize>,
) -> bool {
    match chosen {
        Some(i) => {
            &&& i < profiles.len()
            &&& device_is_adequate(profiles[i as int])
            &&& forall|j: int| 0 <= j < i ==> !device_is_adequate(#[trigger] profiles[j])
        },
        None => forall|j: int| 0 <= j < profiles.len() ==> !device_is_adequate(#[trigger] profiles[j]),
    }
}

/// The first device the program can run on.
pub fn select_physical_device(profiles: &[PhysicalDeviceProfile]) -> (chosen: Option<usize>)
    ensures
        is_first_adequate_device(profiles@, chosen),
{
    let mut i: usize = 0;
    while i < profiles.len()
        invariant
            i <= profiles@.len(),
            forall|j: int| 0 <= j < i ==> !device_is_adequate(#[trigger] profiles@[j]),
        decreases profiles@.len() - i,
    {
        if is_device_suitable(&profiles[i]) {
            return Some(i);
        }
        i += 1;
    }
    None
}

/// What a device answered about one of its queue families, and whether
/// the family can present to the window's surface.
#[derive(Clone, Copy, Debug, PartialEq, Eq, Structural)]
pub struct QueueFamilyProfile {
    pub queue_count: u32,
    pub queue_flags: u32,
    pub supports_surface: bool,
}

/// The family has a queue, and its queues take graphics, compute and
/// transfer commands.
pub open spec fn has_required_queues(queue_count: u32, queue_flags: u32) -> bool {
    &&& queue_count >= 1
    &&& flags_contain(queue_flags, QUEUE_GRAPHICS)
    &&& flags_contain(queue_flags, QUEUE_COMPUTE)
    &&& flags_contain(queue_flags, QUEUE_TRANSFER)
}

/// The family has the required queues and can present to the surface.
pub open spec fn queue_family_is_adequate(family: QueueFamilyProfile) -> bool {
    has_required_queues(family.queue_count, family.queue_flags) && family.supports_surface
}

/// Whether a family has the queues the program needs. Only of such a
/// family is it worth asking whether it can present.
pub fn queue_family_has_required_queues(queue_count: u32, queue_flags: u32) -> (held: bool)
    ensures
        held == has_required_queues(queue_count, queue_flags),
{
    if queue_count < 1 {
        return false;
    }
    let req_flags: [u32; 3] = [QUEUE_GRAPHICS, QUEUE_COMPUTE, QUEUE_TRANSFER];
    let mut k: usize = 0;
    while k < 3
        invariant
            k <= 3,
            req_flags@ == seq![QUEUE_GRAPHICS, QUEUE_COMPUTE, QUEUE_TRANSFER],
            forall|m: int| 0 <= m < k ==> flags_contain(queue_flags, #[trigger] req_flags@[m]),
        decreases 3 - k,
    {
        if !contains_flags(queue_flags, req_flags[k]) {
            return false;
        }
        k += 1;
    }
    assert(flags_contain(queue_flags, req_flags@[0]));
    assert(flags_contain(queue_flags, req_flags@[1]));
    assert(flags_contain(queue_flags, req_flags@[2]));
    true
}

/// `chosen` is the position of the first adequate family, or nothing where
/// none is adequate.
pub open spec fn is_first_adequate_family(
    families: Seq<QueueFamilyProfile>,
    chosen: Option<usize>,
) -> bool {
    match chosen {
        Some(i) => {
            &&& i < families.len()
            &&& queue_family_is_adequate(families[i as int])
            &&& forall|j: int| 0 <= j < i ==> !queue_family_is_adequate(#[trigger] families[j])
        },
        None => forall|j: int|
            0 <= j < families.len() ==> !queue_family_is_adequate(#[trigger] families[j]),
    }
}

/// The first queue family that has the required queues and can present.
pub fn select_queue_family(families: &[QueueFamilyProfile]) -> (chosen: Option<usize>)
    ensures
        is_first_adequate_family(families@, chosen),
{
    let mut i: usize = 0;
    while i < families.len()
        invariant
            i <= families@.len(),
            forall|j: int| 0 <= j < i ==> !queue_family_is_adequate(#[trigger] families@[j]),
        decreases families@.len() - i,
    {
        let family = families[i];
        if queue_family_has_required_queues(family.queue_count, family.queue_flags)
            && family.supports_surface {
            return Some(i);
        }
        i += 1;
    }
    None
}

/// The surface formats the program can draw in, the preferred one first.
pub open spec fn preferred_surface_formats() -> Seq<i32> {
    seq![FORMAT_R8G8B8A8_UNORM, FORMAT_B8G8R8A8_UNORM]
}

/// `chosen` is the first preferred format that `formats` holds, or nothing
/// where it holds none of them.
pub open spec fn is_target_surface_format(formats: Seq<i32>, chosen: Option<i32>) -> bool {
    let preferences = preferred_surface_formats();
    match chosen {
        Some(format) => exists|p: int|
            {
                &&& 0 <= p < preferences.len()
                &&& #[trigger] preferences[p] == format
                &&& formats.contains(format)
                &&& forall|q: int| 0 <= q < p ==> !formats.contains(#[trigger] preferences[q])
            },
        None => forall|p: int|
            0 <= p < preferences.len() ==> !formats.contains(#[trigger] preferences[p]),
    }
}

/// Whether `format` is one of `formats`.
fn offers_format(formats: &[i32], format: i32) -> (offered: bool)
    ensures
        offered == formats@.contains(format),
{
    let mut i: usize = 0;
    while i < formats.len()
        invariant
            i <= formats@.len(),
            forall|m: int| 0 <= m < i ==> formats@[m] != format,
        decreases formats@.len() - i,
    {
        if formats[i] == format {
            return true;
        }
        i += 1;
    }
    false
}

/// The format to draw in, of those the surface supports.
pub fn get_target_surface_format(formats: &[i32]) -> (chosen: Option<i32>)
    ensures
        is_target_surface_format(formats@, chosen),
{
    let preferences: [i32; 2] = [FORMAT_R8G8B8A8_UNORM, FORMAT_B8G8R8A8_UNORM];
    assert(preferences@ =~= preferred_surface_formats());
    let mut p: usize = 0;
    while p < 2
        invariant
            p <= 2,
            preferences@ == preferred_surface_formats(),
            forall|q: int| 0 <= q < p ==> !formats@.contains(#[trigger] preferences@[q]),
        decreases 2 - p,
    {
        if offers_format(formats, preferences[p]) {
            return Some(preferences[p]);
        }
        p += 1;
    }
    None
}

/// What the images of the swapchain are used for.
pub const SWAPCHAIN_IMAGE_USAGE: u32 = IMAGE_USAGE_COLOR_ATTACHMENT | IMAGE_USAGE_TRANSFER_DST;

/// Whether a surface that supports the uses `supported_usage_flags` can
/// give the swapchain its images.
pub fn supports_swapchain_usage(supported_usage_flags: u32) -> (held: bool)
    ensures
        held == flags_contain(supported_usage_flags, SWAPCHAIN_IMAGE_USAGE),
{
    contains_flags(supported_usage_flags, SWAPCHAIN_IMAGE_USAGE)
}

} // verus!
