use gfx_core::constants::{memory_kinds, MemoryKind};
use gfx_core::memory::{
    contains_flags, get_heap_index, get_if_physical_device_supports_all_memory_requirements,
    get_memory_flags_from_kind, get_memory_flags_raw, get_memory_type_flags_from_index,
    get_memory_type_from_index, get_memory_type_index, get_memory_type_index_raw, split_flags,
    MemoryType, DEVICE_LOCAL, HOST_CACHED, HOST_COHERENT, HOST_VISIBLE, LAZILY_ALLOCATED,
};

fn table(flags: &[u32]) -> Vec<MemoryType> {
    flags.iter().map(|f| MemoryType { property_flags: *f, heap_index: 0 }).collect()
}

#[test]
fn test_split_flags() {
    let flags =
        ash::vk::MemoryPropertyFlags::DEVICE_LOCAL | ash::vk::MemoryPropertyFlags::HOST_VISIBLE;
    let res = split_flags(flags.as_raw());
    assert!(res.len() == 2);
    assert!(res.contains(&ash::vk::MemoryPropertyFlags::DEVICE_LOCAL.as_raw()));
    assert!(res.contains(&ash::vk::MemoryPropertyFlags::HOST_VISIBLE.as_raw()));
}

#[test]
fn flag_constants_are_those_of_the_bindings() {
    assert_eq!(DEVICE_LOCAL, ash::vk::MemoryPropertyFlags::DEVICE_LOCAL.as_raw());
    assert_eq!(HOST_VISIBLE, ash::vk::MemoryPropertyFlags::HOST_VISIBLE.as_raw());
    assert_eq!(HOST_COHERENT, ash::vk::MemoryPropertyFlags::HOST_COHERENT.as_raw());
    assert_eq!(HOST_CACHED, ash::vk::MemoryPropertyFlags::HOST_CACHED.as_raw());
    assert_eq!(LAZILY_ALLOCATED, ash::vk::MemoryPropertyFlags::LAZILY_ALLOCATED.as_raw());
}

#[test]
fn contains_flags_agrees_with_the_bindings() {
    let pairs: [(u32, u32); 6] = [(0, 0), (3, 1), (1, 3), (6, 6), (0xffff_ffff, 0x8000_0001), (4, 0)];
    for (flags, required) in pairs {
        let expected = ash::vk::MemoryPropertyFlags::from_raw(flags)
            .contains(ash::vk::MemoryPropertyFlags::from_raw(required));
        assert_eq!(contains_flags(flags, required), expected);
    }
}

#[test]
fn split_flags_lists_the_highest_bit_first() {
    assert_eq!(split_flags(0b1_0110), vec![0b1_0000, 0b100, 0b10]);
    assert_eq!(split_flags(0), Vec::<u32>::new());
    assert_eq!(split_flags(0x8000_0000), vec![0x8000_0000]);
}

#[test]
fn split_flags_round_trips_through_or() {
    let inputs: [u32; 7] = [0, 1, 0b1010_1010, 0x8000_0000, 0x1234_5678, 0xdead_beef, 0xffff_ffff];
    for flags in inputs {
        let parts = split_flags(flags);
        assert_eq!(parts.len() as u32, flags.count_ones());
        for part in parts.iter() {
            assert_eq!(part.count_ones(), 1);
        }
        assert_eq!(get_memory_flags_raw(&parts), flags);
    }
}

#[test]
fn memory_flags_raw_ors_every_flag() {
    assert_eq!(get_memory_flags_raw(&[]), 0);
    assert_eq!(get_memory_flags_raw(&[HOST_VISIBLE]), 2);
    assert_eq!(get_memory_flags_raw(&[DEVICE_LOCAL, HOST_COHERENT, DEVICE_LOCAL]), 5);
}

#[test]
fn selects_lowest_candidate_when_nothing_is_required() {
    let types = table(&[DEVICE_LOCAL, HOST_VISIBLE, 0, HOST_CACHED]);
    assert_eq!(get_memory_type_index_raw(&types, 0, 0b1100), Some(2));
    assert_eq!(get_memory_type_index_raw(&types, 0, 0b0001), Some(0));
    assert_eq!(get_memory_type_index_raw(&types, 0, 0b1010), Some(1));
}

#[test]
fn selects_device_local_at_index_one() {
    let types = table(&[HOST_VISIBLE, DEVICE_LOCAL]);
    assert_eq!(get_memory_type_index_raw(&types, DEVICE_LOCAL, 0b11), Some(1));
}

#[test]
fn selects_nothing_when_no_entry_has_the_flags() {
    let types = table(&[HOST_VISIBLE, HOST_VISIBLE | HOST_COHERENT]);
    for mask in [0u32, 0b1, 0b10, 0b11, 0xffff_ffff] {
        assert_eq!(get_memory_type_index_raw(&types, DEVICE_LOCAL, mask), None);
    }
}

#[test]
fn selects_nothing_when_the_mask_excludes_the_match() {
    let types = table(&[DEVICE_LOCAL]);
    assert_eq!(get_memory_type_index_raw(&types, DEVICE_LOCAL, 0b0), None);
    let types = table(&[HOST_VISIBLE, DEVICE_LOCAL, HOST_VISIBLE]);
    assert_eq!(get_memory_type_index_raw(&types, DEVICE_LOCAL, 0b101), None);
}

#[test]
fn selecting_twice_gives_the_same_result() {
    let types = table(&[HOST_VISIBLE, DEVICE_LOCAL | HOST_VISIBLE, DEVICE_LOCAL]);
    for mask in [0u32, 0b1, 0b110, 0b100, 0xffff_ffff] {
        for required in [0u32, DEVICE_LOCAL, HOST_VISIBLE, DEVICE_LOCAL | HOST_VISIBLE, HOST_CACHED] {
            let first = get_memory_type_index_raw(&types, required, mask);
            let second = get_memory_type_index_raw(&types, required, mask);
            assert_eq!(first, second);
        }
    }
}

#[test]
fn selection_needs_both_the_bit_and_the_flags() {
    let types = table(&[HOST_VISIBLE, DEVICE_LOCAL | HOST_VISIBLE, DEVICE_LOCAL, DEVICE_LOCAL | HOST_VISIBLE]);
    assert_eq!(get_memory_type_index_raw(&types, DEVICE_LOCAL | HOST_VISIBLE, 0b1111), Some(1));
    assert_eq!(get_memory_type_index_raw(&types, DEVICE_LOCAL | HOST_VISIBLE, 0b1101), Some(3));
    assert_eq!(get_memory_type_index_raw(&types, DEVICE_LOCAL, 0b1100), Some(2));
}

#[test]
fn candidate_bits_beyond_the_table_select_nothing() {
    let types = table(&[DEVICE_LOCAL]);
    assert_eq!(get_memory_type_index_raw(&types, 0, 0b10), None);
    assert_eq!(get_memory_type_index_raw(&types, 0, 0x8000_0000), None);
    assert_eq!(get_memory_type_index_raw(&[], 0, 0xffff_ffff), None);
}

#[test]
fn selects_the_last_of_thirty_two_types() {
    let mut flags = vec![HOST_VISIBLE; 32];
    flags[31] = DEVICE_LOCAL;
    let types = table(&flags);
    assert_eq!(get_memory_type_index_raw(&types, DEVICE_LOCAL, 0xffff_ffff), Some(31));
    assert_eq!(get_memory_type_index_raw(&types, DEVICE_LOCAL, 0x7fff_ffff), None);
}

#[test]
fn first_type_with_every_required_flag() {
    let types = table(&[HOST_VISIBLE, DEVICE_LOCAL, DEVICE_LOCAL | HOST_VISIBLE]);
    assert_eq!(get_memory_type_index(&types, &[DEVICE_LOCAL, HOST_VISIBLE]), Some(2));
    assert_eq!(get_memory_type_index(&types, &[DEVICE_LOCAL]), Some(1));
    assert_eq!(get_memory_type_index(&types, &[]), Some(0));
    assert_eq!(get_memory_type_index(&types, &[HOST_CACHED]), None);
    assert_eq!(get_memory_type_index(&[], &[]), None);
}

#[test]
fn every_memory_kind_asks_for_host_visible() {
    assert_eq!(get_memory_flags_from_kind(MemoryKind::Buffer1), vec![HOST_VISIBLE]);
    assert_eq!(get_memory_flags_from_kind(MemoryKind::Image1), vec![HOST_VISIBLE]);
    assert_eq!(memory_kinds(), [MemoryKind::Buffer1, MemoryKind::Image1]);
}

#[test]
fn device_memory_must_back_every_kind() {
    assert!(get_if_physical_device_supports_all_memory_requirements(&table(&[
        DEVICE_LOCAL,
        HOST_VISIBLE | HOST_COHERENT
    ])));
    assert!(!get_if_physical_device_supports_all_memory_requirements(&table(&[
        DEVICE_LOCAL,
        HOST_CACHED
    ])));
    assert!(!get_if_physical_device_supports_all_memory_requirements(&[]));
}

#[test]
fn entries_are_read_by_index() {
    let types = vec![
        MemoryType { property_flags: DEVICE_LOCAL, heap_index: 0 },
        MemoryType { property_flags: HOST_VISIBLE | HOST_COHERENT, heap_index: 1 },
    ];
    assert_eq!(get_heap_index(&types, 1), 1);
    assert_eq!(get_heap_index(&types, 0), 0);
    assert_eq!(get_memory_type_from_index(&types, 1), types[1]);
    assert_eq!(get_memory_type_flags_from_index(&types, 1), 6);
}
