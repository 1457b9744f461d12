use gfx_core::constants::{
    API_VERSION, FENCE_TIMEOUT_MS, FENCE_TIMEOUT_NS, REQUIRED_DEVICE_EXTENSIONS,
    REQUIRED_DEVICE_LAYERS, REQUIRED_INSTANCE_EXTENSIONS, REQUIRED_INSTANCE_LAYERS,
};
use gfx_core::device::{
    get_target_surface_format, is_device_suitable, queue_family_has_required_queues,
    select_physical_device, select_queue_family, supports_swapchain_usage, FormatProperties,
    PhysicalDeviceProfile, QueueFamilyProfile, FORMAT_B8G8R8A8_UNORM, FORMAT_FEATURE_SAMPLED_IMAGE,
    FORMAT_R8G8B8A8_UNORM, IMAGE_USAGE_COLOR_ATTACHMENT, IMAGE_USAGE_TRANSFER_DST, QUEUE_COMPUTE,
    QUEUE_GRAPHICS, QUEUE_TRANSFER, SWAPCHAIN_IMAGE_USAGE,
};
use gfx_core::gfx_traits::HasQueueFamilyIndex;
use gfx_core::memory::{MemoryType, DEVICE_LOCAL, HOST_VISIBLE};

fn strings(names: &[&str]) -> Vec<String> {
    names.iter().map(|n| n.to_string()).collect()
}

fn good_device() -> PhysicalDeviceProfile {
    PhysicalDeviceProfile {
        max_memory_allocation_count: 4096,
        api_version: API_VERSION,
        memory_types: vec![
            MemoryType { property_flags: DEVICE_LOCAL, heap_index: 0 },
            MemoryType { property_flags: HOST_VISIBLE, heap_index: 1 },
        ],
        format_properties: vec![FormatProperties {
            linear_tiling_features: FORMAT_FEATURE_SAMPLED_IMAGE | 0x400,
            optimal_tiling_features: FORMAT_FEATURE_SAMPLED_IMAGE,
        }],
        layers: strings(&["VK_LAYER_other", "VK_LAYER_KHRONOS_validation"]),
        extensions: strings(&["VK_KHR_swapchain", "VK_EXT_other", "VK_EXT_memory_budget"]),
    }
}

#[test]
fn constants_are_those_of_the_bindings() {
    assert_eq!(API_VERSION, ash::vk::API_VERSION_1_1);
    assert_eq!(API_VERSION, 4198400);
    assert_eq!(QUEUE_GRAPHICS, ash::vk::QueueFlags::GRAPHICS.as_raw());
    assert_eq!(QUEUE_COMPUTE, ash::vk::QueueFlags::COMPUTE.as_raw());
    assert_eq!(QUEUE_TRANSFER, ash::vk::QueueFlags::TRANSFER.as_raw());
    assert_eq!(FORMAT_FEATURE_SAMPLED_IMAGE, ash::vk::FormatFeatureFlags::SAMPLED_IMAGE.as_raw());
    assert_eq!(IMAGE_USAGE_TRANSFER_DST, ash::vk::ImageUsageFlags::TRANSFER_DST.as_raw());
    assert_eq!(IMAGE_USAGE_COLOR_ATTACHMENT, ash::vk::ImageUsageFlags::COLOR_ATTACHMENT.as_raw());
    assert_eq!(
        SWAPCHAIN_IMAGE_USAGE,
        (ash::vk::ImageUsageFlags::COLOR_ATTACHMENT | ash::vk::ImageUsageFlags::TRANSFER_DST).as_raw()
    );
    assert_eq!(FORMAT_R8G8B8A8_UNORM, ash::vk::Format::R8G8B8A8_UNORM.as_raw());
    assert_eq!(FORMAT_B8G8R8A8_UNORM, ash::vk::Format::B8G8R8A8_UNORM.as_raw());
}

#[test]
fn required_names_are_fixed() {
    assert_eq!(REQUIRED_INSTANCE_LAYERS, ["VK_LAYER_KHRONOS_validation"]);
    assert_eq!(REQUIRED_DEVICE_LAYERS, ["VK_LAYER_KHRONOS_validation"]);
    assert_eq!(REQUIRED_DEVICE_EXTENSIONS, ["VK_EXT_memory_budget", "VK_KHR_swapchain"]);
    assert_eq!(REQUIRED_INSTANCE_EXTENSIONS, ["VK_KHR_surface", "VK_EXT_debug_utils"]);
}

#[test]
fn fence_timeout_in_nanoseconds() {
    assert_eq!(FENCE_TIMEOUT_MS, 9999);
    assert_eq!(FENCE_TIMEOUT_NS, 9_999_000_000);
    assert_eq!(FENCE_TIMEOUT_NS, FENCE_TIMEOUT_MS * 1000 * 1000);
}

#[test]
fn an_adequate_device_is_suitable() {
    assert!(is_device_suitable(&good_device()));
}

#[test]
fn a_device_without_allocations_is_unsuitable() {
    let mut device = good_device();
    device.max_memory_allocation_count = 0;
    assert!(!is_device_suitable(&device));
}

#[test]
fn a_device_without_host_visible_memory_is_unsuitable() {
    let mut device = good_device();
    device.memory_types = vec![MemoryType { property_flags: DEVICE_LOCAL, heap_index: 0 }];
    assert!(!is_device_suitable(&device));
}

#[test]
fn a_device_that_cannot_sample_is_unsuitable() {
    let mut device = good_device();
    device.format_properties[0].optimal_tiling_features = 0x2;
    assert!(!is_device_suitable(&device));
    let mut device = good_device();
    device.format_properties[0].linear_tiling_features = 0;
    assert!(!is_device_suitable(&device));
    let mut device = good_device();
    device.format_properties = vec![];
    assert!(is_device_suitable(&device));
}

#[test]
fn an_old_device_is_unsuitable() {
    let mut device = good_device();
    device.api_version = API_VERSION - 1;
    assert!(!is_device_suitable(&device));
    device.api_version = ash::vk::API_VERSION_1_0;
    assert!(!is_device_suitable(&device));
    device.api_version = ash::vk::API_VERSION_1_3;
    assert!(is_device_suitable(&device));
}

#[test]
fn a_device_without_the_layer_or_an_extension_is_unsuitable() {
    let mut device = good_device();
    device.layers = strings(&["VK_LAYER_other"]);
    assert!(!is_device_suitable(&device));
    let mut device = good_device();
    device.extensions = strings(&["VK_KHR_swapchain"]);
    assert!(!is_device_suitable(&device));
}

#[test]
fn the_first_suitable_device_is_selected() {
    let mut old = good_device();
    old.api_version = 0;
    assert_eq!(select_physical_device(&[]), None);
    assert_eq!(select_physical_device(&[good_device()]), Some(0));
    let devices = vec![old, good_device(), good_device()];
    assert_eq!(select_physical_device(&devices), Some(1));
    assert_eq!(select_physical_device(&devices[..1]), None);
}

#[test]
fn a_family_needs_a_queue_of_every_required_kind() {
    assert!(queue_family_has_required_queues(1, 0b0111));
    assert!(queue_family_has_required_queues(16, 0b1111));
    assert!(!queue_family_has_required_queues(0, 0b0111));
    assert!(!queue_family_has_required_queues(1, 0b0110));
    assert!(!queue_family_has_required_queues(1, 0b0101));
    assert!(!queue_family_has_required_queues(1, 0b0011));
    assert!(!queue_family_has_required_queues(1, 0));
}

#[test]
fn the_first_adequate_family_is_selected() {
    let transfer_only = QueueFamilyProfile { queue_count: 2, queue_flags: QUEUE_TRANSFER, supports_surface: false };
    let headless = QueueFamilyProfile { queue_count: 1, queue_flags: 0b111, supports_surface: false };
    let empty = QueueFamilyProfile { queue_count: 0, queue_flags: 0b111, supports_surface: true };
    let full = QueueFamilyProfile { queue_count: 1, queue_flags: 0b1111, supports_surface: true };
    assert_eq!(select_queue_family(&[transfer_only, headless, empty, full, full]), Some(3));
    assert_eq!(select_queue_family(&[full]), Some(0));
    assert_eq!(select_queue_family(&[transfer_only, headless, empty]), None);
    assert_eq!(select_queue_family(&[]), None);
}

#[test]
fn the_preferred_surface_format_wins() {
    assert_eq!(get_target_surface_format(&[44, 37]), Some(37));
    assert_eq!(get_target_surface_format(&[37]), Some(37));
    assert_eq!(get_target_surface_format(&[50, 44, 43]), Some(44));
    assert_eq!(get_target_surface_format(&[50, 43]), None);
    assert_eq!(get_target_surface_format(&[]), None);
}

#[test]
fn swapchain_images_need_both_uses() {
    assert!(supports_swapchain_usage(0x12));
    assert!(supports_swapchain_usage(0xff));
    assert!(!supports_swapchain_usage(0x10));
    assert!(!supports_swapchain_usage(0x02));
    assert!(!supports_swapchain_usage(0));
}

struct Headless {
    main_queue_family_index: u32,
}

impl HasQueueFamilyIndex for Headless {
    fn queue_family_index(&self) -> u32 {
        self.main_queue_family_index
    }
}

#[test]
fn a_context_hands_out_its_queue_family() {
    let context = Headless { main_queue_family_index: 3 };
    assert_eq!(context.queue_family_index(), 3);
}
