//! Choosing the memory type that backs a resource.
//!
//! A device reports a table of memory types once; every function here takes
//! that table as a plain slice and never asks the device again.

use vstd::prelude::*;
use crate::bits::{
    bit_at, bit_masks_msb_first, bits_msb_first, is_set_bit_of, lemma_bit_at, lemma_or_all_push,
    lemma_set_bit_values_members, lemma_set_bit_values_or, or_all, set_bit_values, split_bits,
};
use crate::constants::{memory_kinds, MemoryKind};

verus! {

/// Memory of this type is local to the device.
pub const DEVICE_LOCAL: u32 = 0x1;

/// Memory of this type can be mapped by the host.
pub const HOST_VISIBLE: u32 = 0x2;

/// Host writes and device reads need no explicit flush.
pub const HOST_COHERENT: u32 = 0x4;

/// Memory of this type is cached by the host.
pub const HOST_CACHED: u32 = 0x8;

/// The driver may allocate memory of this type when it is first needed.
pub const LAZILY_ALLOCATED: u32 = 0x10;

/// One entry of a device's memory type table: what the memory can do, and
/// the heap it is taken from. The entry's index in the table is its name.
#[derive(Clone, Copy, Debug, PartialEq, Eq, Structural)]
pub struct MemoryType {
    pub property_flags: u32,
    pub heap_index: u32,
}

/// Every bit of `required` is set in `flags`.
pub open spec fn flags_contain(flags: u32, required: u32) -> bool {
    flags & required == required
}

/// Whether `flags` has every bit of `required`.
pub fn contains_flags(flags: u32, required: u32) -> (held: bool)
    ensures
        held == flags_contain(flags, required),
{
    flags & required == required
}

/// Index `i` names an entry of `types` that a resource with candidate mask
/// `candidates` may use and whose properties include all of `required`.
pub open spec fn qualifies(types: Seq<MemoryType>, required: u32, candidates: u32, i: int) -> bool {
    &&& 0 <= i < types.len()
    &&& i < 32
    &&& bit_at(candidates, i as u32) == 1
    &&& flags_contain(types[i].property_flags, required)
}

/// `found` is what selecting from `types` gives: the lowest qualifying index,
/// or nothing where no index qualifies.
pub open spec fn is_selection(
    types: Seq<MemoryType>,
    required: u32,
    candidates: u32,
    found: Option<u32>,
) -> bool {
    match found {
        Some(i) => {
            &&& qualifies(types, required, candidates, i as int)
            &&& forall|j: int| 0 <= j < i ==> !qualifies(types, required, candidates, j)
        },
        None => forall|j: int| !qualifies(types, required, candidates, j),
    }
}

/// The positions of the set bits of `mask`, in ascending order.
fn set_bit_positions(mask: u32) -> (positions: Vec<u32>)
    ensures
        forall|k: int| 0 <= k < positions@.len() ==> positions@[k] < 32 && bit_at(
            mask,
            #[trigger] positions@[k],
        ) == 1,
        forall|k: int, l: int| 0 <= k < l < positions@.len() ==> positions@[k] < positions@[l],
        forall|i: u32| i < 32 && bit_at(mask, i) == 1 ==> positions@.contains(i),
{
    let split = split_bits(mask);
    let mut positions: Vec<u32> = Vec::new();
    let mut i: u32 = 0;
    while i < 32
        invariant
            i <= 32,
            split@ == bits_msb_first(mask),
            forall|k: int| 0 <= k < positions@.len() ==> positions@[k] < i && bit_at(
                mask,
                #[trigger] positions@[k],
            ) == 1,
            forall|k: int, l: int| 0 <= k < l < positions@.len() ==> positions@[k] < positions@[l],
            forall|b: u32| b < i && bit_at(mask, b) == 1 ==> positions@.contains(b),
        decreases 32 - i,
    {
        let bit: u32 = split[(31 - i) as usize];
        assert(bit == bit_at(mask, i));
        if bit == 1 {
            let ghost before = positions@;
            positions.push(i);
            assert(positions@[before.len() as int] == i);
            assert forall|b: u32| b < i + 1 && bit_at(mask, b) == 1 implies positions@.contains(
                b,
            ) by {
                if b < i {
                    let k = choose|k: int| 0 <= k < before.len() && before[k] == b;
                    assert(positions@[k] == b);
                }
            }
        }
        i += 1;
    }
    positions
}

/// Selects the memory type for a resource: the lowest index that is set in
/// `memory_type_bits` and whose entry in `memory_types` has all of
/// `required_flags`. Bits that name no entry of the table select nothing.
pub fn get_memory_type_index_raw(
    memory_types: &[MemoryType],
    required_flags: u32,
    memory_type_bits: u32,
) -> (found: Option<u32>)
    ensures
        is_selection(memory_types@, required_flags, memory_type_bits, found),
{
    let allowed = set_bit_positions(memory_type_bits);
    let mut k: usize = 0;
    while k < allowed.len()
        invariant
            k <= allowed@.len(),
            forall|m: int| 0 <= m < allowed@.len() ==> allowed@[m] < 32 && bit_at(
                memory_type_bits,
                #[trigger] allowed@[m],
            ) == 1,
            forall|m: int, l: int| 0 <= m < l < allowed@.len() ==> allowed@[m] < allowed@[l],
            forall|i: u32| i < 32 && bit_at(memory_type_bits, i) == 1 ==> allowed@.contains(i),
            forall|m: int|
                0 <= m < k ==> !qualifies(
                    memory_types@,
                    required_flags,
                    memory_type_bits,
                    #[trigger] allowed@[m] as int,
                ),
        decreases allowed@.len() - k,
    {
        let index: u32 = allowed[k];
        if (index as usize) < memory_types.len() {
            let flags: u32 = memory_types[index as usize].property_flags;
            if flags & required_flags == required_flags {
                proof {
                    assert forall|j: int| 0 <= j < index implies !qualifies(
                        memory_types@,
                        required_flags,
                        memory_type_bits,
                        j,
                    ) by {
                        if qualifies(memory_types@, required_flags, memory_type_bits, j) {
                            let m = choose|m: int|
                                0 <= m < allowed@.len() && allowed@[m] == j as u32;
                            assert(allowed@[m] == j as u32);
                        }
                    }
                }
                return Some(index);
            }
        }
        k += 1;
    }
    proof {
        assert forall|j: int| !qualifies(memory_types@, required_flags, memory_type_bits, j) by {
            if qualifies(memory_types@, required_flags, memory_type_bits, j) {
                let m = choose|m: int| 0 <= m < allowed@.len() && allowed@[m] == j as u32;
                assert(allowed@[m] == j as u32);
            }
        }
    }
    None
}

/// `flags` has every bit of every word of `required`.
pub open spec fn has_all_flags(flags: u32, required: Seq<u32>) -> bool {
    forall|k: int| 0 <= k < required.len() ==> flags_contain(flags, #[trigger] required[k])
}

/// `found` is the lowest index of `types` whose entry has all the flags of
/// `required`, or nothing where no entry has them.
pub open spec fn is_first_with_flags(
    types: Seq<MemoryType>,
    required: Seq<u32>,
    found: Option<u32>,
) -> bool {
    match found {
        Some(i) => {
            &&& i < types.len()
            &&& has_all_flags(types[i as int].property_flags, required)
            &&& forall|j: int|
                0 <= j < i ==> !has_all_flags(#[trigger] types[j].property_flags, required)
        },
        None => forall|j: int|
            0 <= j < types.len() ==> !has_all_flags(#[trigger] types[j].property_flags, required),
    }
}

/// Whether `flags` has every flag listed in `required`.
fn has_required_flags(flags: u32, required: &[u32]) -> (held: bool)
    ensures
        held == has_all_flags(flags, required@),
{
    let mut k: usize = 0;
    while k < required.len()
        invariant
            k <= required@.len(),
            forall|m: int| 0 <= m < k ==> flags_contain(flags, #[trigger] required@[m]),
        decreases required@.len() - k,
    {
        if !contains_flags(flags, required[k]) {
            return false;
        }
        k += 1;
    }
    true
}

/// The position of the first entry that has every one of `required`.
fn first_index_with_flags(memory_types: &[MemoryType], required: &[u32]) -> (found: Option<usize>)
    ensures
        match found {
            Some(i) => {
                &&& i < memory_types@.len()
                &&& has_all_flags(memory_types@[i as int].property_flags, required@)
                &&& forall|j: int|
                    0 <= j < i ==> !has_all_flags(
                        #[trigger] memory_types@[j].property_flags,
                        required@,
                    )
            },
            None => forall|j: int|
                0 <= j < memory_types@.len() ==> !has_all_flags(
                    #[trigger] memory_types@[j].property_flags,
                    required@,
                ),
        },
{
    let mut i: usize = 0;
    while i < memory_types.len()
        invariant
            i <= memory_types@.len(),
            forall|j: int|
                0 <= j < i ==> !has_all_flags(#[trigger] memory_types@[j].property_flags, required@),
        decreases memory_types@.len() - i,
    {
        if has_required_flags(memory_types[i].property_flags, required) {
            return Some(i);
        }
        i += 1;
    }
    None
}

/// The first memory type that has every one of `required_flags`, whatever
/// resource it is for. The table must be short enough for its indices to be
/// 32-bit numbers.
pub fn get_memory_type_index(memory_types: &[MemoryType], required_flags: &[u32]) -> (found:
    Option<u32>)
    requires
        memory_types@.len() <= u32::MAX,
    ensures
        is_first_with_flags(memory_types@, required_flags@, found),
{
    match first_index_with_flags(memory_types, required_flags) {
        Some(i) => Some(i as u32),
        None => None,
    }
}

/// Splits a flag word into its set flags, each a word with one bit, the
/// most significant first.
pub fn split_flags(flags: u32) -> (parts: Vec<u32>)
    ensures
        parts@ == set_bit_values(flags),
        forall|v: u32| parts@.contains(v) <==> is_set_bit_of(flags, v),
        or_all(parts@) == flags,
{
    let bits = split_bits(flags);
    let mut parts: Vec<u32> = Vec::new();
    let mut i: usize = 0;
    let ghost masks = bit_masks_msb_first(flags);
    let ghost nonzero = |v: u32| v != 0;
    proof {
        reveal(Seq::filter);
        assert(masks.take(0) =~= Seq::<u32>::empty());
    }
    while i < 32
        invariant
            i <= 32,
            bits@ == bits_msb_first(flags),
            masks == bit_masks_msb_first(flags),
            nonzero == |v: u32| v != 0,
            parts@ == masks.take(i as int).filter(nonzero),
        decreases 32 - i,
    {
        let shift: u32 = 31 - i as u32;
        let value: u32 = 1u32 << shift;
        proof {
            lemma_bit_at(flags, shift);
            reveal(Seq::filter);
            assert(masks.take(i + 1).drop_last() =~= masks.take(i as int));
            assert(masks.take(i + 1).last() == flags & value);
        }
        if bits[i] == 1 {
            parts.push(value);
        }
        i += 1;
    }
    proof {
        assert(masks.take(32) =~= masks);
        lemma_set_bit_values_or(flags);
        assert forall|v: u32| set_bit_values(flags).contains(v) <==> is_set_bit_of(flags, v) by {
            lemma_set_bit_values_members(flags, v);
        }
    }
    parts
}

/// The flags of `flags` combined into one word.
pub fn get_memory_flags_raw(flags: &[u32]) -> (raw_flags: u32)
    ensures
        raw_flags == or_all(flags@),
{
    let mut raw_flags: u32 = 0;
    let mut i: usize = 0;
    while i < flags.len()
        invariant
            i <= flags@.len(),
            raw_flags == or_all(flags@.take(i as int)),
        decreases flags@.len() - i,
    {
        proof {
            assert(flags@.take(i + 1) =~= flags@.take(i as int).push(flags@[i as int]));
            lemma_or_all_push(flags@.take(i as int), flags@[i as int]);
        }
        raw_flags |= flags[i];
        i += 1;
    }
    proof {
        assert(flags@.take(flags@.len() as int) =~= flags@);
    }
    raw_flags
}

/// The flags that memory of a kind must have.
pub open spec fn memory_flags_of(kind: MemoryKind) -> Seq<u32> {
    match kind {
        MemoryKind::Buffer1 => seq![HOST_VISIBLE],
        MemoryKind::Image1 => seq![HOST_VISIBLE],
    }
}

/// The flags that memory of `kind` must have.
pub fn get_memory_flags_from_kind(kind: MemoryKind) -> (flags: Vec<u32>)
    ensures
        flags@ == memory_flags_of(kind),
{
    let mut flags: Vec<u32> = Vec::new();
    match kind {
        MemoryKind::Buffer1 => {
            flags.push(HOST_VISIBLE);
        },
        MemoryKind::Image1 => {
            flags.push(HOST_VISIBLE);
        },
    }
    assert(flags@ =~= seq![HOST_VISIBLE]);
    flags
}

/// Some entry of `types` has all the flags that `kind` asks for.
pub open spec fn supports_kind(types: Seq<MemoryType>, kind: MemoryKind) -> bool {
    exists|i: int|
        0 <= i < types.len() && has_all_flags(
            #[trigger] types[i].property_flags,
            memory_flags_of(kind),
        )
}

/// Whether a device with these memory types can back every kind of
/// memory the program allocates.
pub fn get_if_physical_device_supports_all_memory_requirements(memory_types: &[MemoryType]) -> (ok:
    bool)
    ensures
        ok == forall|kind: MemoryKind| supports_kind(memory_types@, kind),
{
    let kinds = memory_kinds();
    let mut k: usize = 0;
    while k < 2
        invariant
            k <= 2,
            kinds@ == seq![MemoryKind::Buffer1, MemoryKind::Image1],
            forall|kind: MemoryKind| kinds@.contains(kind),
            forall|m: int| 0 <= m < k ==> supports_kind(memory_types@, #[trigger] kinds@[m]),
        decreases 2 - k,
    {
        let kind = kinds[k];
        let flags = get_memory_flags_from_kind(kind);
        let memory_type_index = first_index_with_flags(memory_types, flags.as_slice());
        match memory_type_index {
            Some(i) => {
                assert(has_all_flags(memory_types@[i as int].property_flags, memory_flags_of(kind)));
            },
            None => {
                assert(!supports_kind(memory_types@, kind));
                return false;
            },
        }
        k += 1;
    }
    proof {
        assert forall|kind: MemoryKind| supports_kind(memory_types@, kind) by {
            let m = choose|m: int| 0 <= m < kinds@.len() && kinds@[m] == kind;
            assert(supports_kind(memory_types@, kinds@[m]));
        }
    }
    true
}

/// The entry of the table at `index`.
pub fn get_memory_type_from_index(memory_types: &[MemoryType], index: u32) -> (memory_type:
    MemoryType)
    requires
        index < memory_types@.len(),
    ensures
        memory_type == memory_types@[index as int],
{
    memory_types[index as usize]
}

/// The property flags of the memory type at `index`.
pub fn get_memory_type_flags_from_index(memory_types: &[MemoryType], index: u32) -> (flags: u32)
    requires
        index < memory_types@.len(),
    ensures
        flags == memory_types@[index as int].property_flags,
{
    let memory_type = get_memory_type_from_index(memory_types, index);
    memory_type.property_flags
}

/// The heap from which memory of the type at `index` is taken.
pub fn get_heap_index(memory_types: &[MemoryType], index: u32) -> (heap_index: u32)
    requires
        index < memory_types@.len(),
    ensures
        heap_index == memory_types@[index as int].heap_index,
{
    memory_types[index as usize].heap_index
}

/// A selection is determined by the table and the two masks: whatever
/// meets the selector's contract on the same inputs is the same result.
pub proof fn lemma_selection_unique(
    types: Seq<MemoryType>,
    required: u32,
    candidates: u32,
    first: Option<u32>,
    second: Option<u32>,
)
    requires
        is_selection(types, required, candidates, first),
        is_selection(types, required, candidates, second),
    ensures
        first == second,
{
    match (first, second) {
        (Some(a), Some(b)) => {
            if a < b {
                assert(!qualifies(types, required, candidates, a as int));
            } else if b < a {
                assert(!qualifies(types, required, candidates, b as int));
            }
        },
        (Some(a), None) => {
            assert(!qualifies(types, required, candidates, a as int));
        },
        (None, Some(b)) => {
            assert(!qualifies(types, required, candidates, b as int));
        },
        (None, None) => {},
    }
}

/// With nothing required, the selection is the lowest index set in the
/// candidate mask, provided that index names an entry of the table.
pub proof fn lemma_nothing_required_selects_lowest_candidate(
    types: Seq<MemoryType>,
    candidates: u32,
    lowest: u32,
    found: Option<u32>,
)
    requires
        is_selection(types, 0, candidates, found),
        lowest < 32,
        lowest < types.len(),
        bit_at(candidates, lowest) == 1,
        forall|j: u32| j < lowest ==> bit_at(candidates, j) != 1,
    ensures
        found == Some(lowest),
{
    let flags = types[lowest as int].property_flags;
    assert(flags & 0u32 == 0u32) by (bit_vector);
    assert(qualifies(types, 0, candidates, lowest as int));
    assert forall|j: int| 0 <= j < lowest implies !qualifies(types, 0, candidates, j) by {
        assert(bit_at(candidates, j as u32) != 1);
    }
    assert(is_selection(types, 0, candidates, Some(lowest)));
    lemma_selection_unique(types, 0, candidates, found, Some(lowest));
}

/// Where no entry of the table has all the required flags, nothing is
/// selected, whatever the candidate mask.
pub proof fn lemma_no_entry_has_flags_selects_nothing(
    types: Seq<MemoryType>,
    required: u32,
    candidates: u32,
    found: Option<u32>,
)
    requires
        is_selection(types, required, candidates, found),
        forall|i: int| 0 <= i < types.len() ==> !flags_contain(types[i].property_flags, required),
    ensures
        found is None,
{
}

/// An empty candidate mask selects nothing.
pub proof fn lemma_empty_mask_selects_nothing(
    types: Seq<MemoryType>,
    required: u32,
    found: Option<u32>,
)
    requires
        is_selection(types, required, 0, found),
    ensures
        found is None,
{
    if let Some(i) = found {
        assert((0u32 >> i) & 1 != 1) by (bit_vector);
    }
}

/// Where the candidate mask leaves out every index whose entry has the
/// required flags, nothing is selected.
pub proof fn lemma_candidates_exclude_matches_selects_nothing(
    types: Seq<MemoryType>,
    required: u32,
    candidates: u32,
    found: Option<u32>,
)
    requires
        is_selection(types, required, candidates, found),
        forall|i: int|
            0 <= i < types.len() && i < 32 && flags_contain(types[i].property_flags, required)
                ==> bit_at(candidates, i as u32) != 1,
    ensures
        found is None,
{
}

} // verus!
