use ash::vk;
use vkallocator::mem_type_assignment::{
    assign_memory_type_indexes_to_objects_for_allocation, MemoryAssignmentError,
    UnassignedToMemoryObjectsData,
};
use vkallocator::vulkan::{MemoryPropertyFlags, MemoryRequirements, MemoryType};

const DEVICE_LOCAL: u32 = 0x1;
const HOST_VISIBLE: u32 = 0x2;
const HOST_COHERENT: u32 = 0x4;

fn flags(bits: u32) -> MemoryPropertyFlags {
    MemoryPropertyFlags { bits }
}

fn mem_type(bits: u32) -> MemoryType {
    MemoryType { property_flags: flags(bits), heap_index: 0 }
}

fn req(memory_type_bits: u32) -> MemoryRequirements {
    MemoryRequirements { size: 64, alignment: 16, memory_type_bits }
}

fn assign<const P: usize, const S: usize>(
    mem_types: &[MemoryType],
    mem_props: [u32; P],
    type_bits: [u32; S],
) -> Result<([usize; S], usize), MemoryAssignmentError> {
    assign_memory_type_indexes_to_objects_for_allocation(UnassignedToMemoryObjectsData {
        mem_types,
        mem_props: mem_props.map(flags),
        obj_reqs: type_bits.map(req),
    })
}

#[test]
fn flags_contain_subsets_only() {
    assert!(flags(0x7).contains(flags(0x5)));
    assert!(flags(0x5).contains(flags(0)));
    assert!(!flags(0x5).contains(flags(0x7)));
    assert!(!flags(0x5).contains(flags(0x2)));
    for a in 0..16u32 {
        for b in 0..16u32 {
            let expected = vk::MemoryPropertyFlags::from_raw(a)
                .contains(vk::MemoryPropertyFlags::from_raw(b));
            assert_eq!(flags(a).contains(flags(b)), expected);
        }
    }
}

#[test]
fn single_object_gets_the_only_matching_type() {
    let types = [mem_type(DEVICE_LOCAL), mem_type(HOST_VISIBLE)];
    assert_eq!(assign(&types, [HOST_VISIBLE], [0b11]), Ok(([1], 1)));
}

#[test]
fn earliest_property_set_wins() {
    let types = [mem_type(HOST_VISIBLE), mem_type(HOST_VISIBLE | HOST_COHERENT)];
    let props = [HOST_VISIBLE | HOST_COHERENT, HOST_VISIBLE];
    // the first object can have the preferred set, the second one only the other
    assert_eq!(assign(&types, props, [0b11, 0b01]), Ok(([1, 0], 2)));
}

#[test]
fn unsupported_first_set_falls_back() {
    let types = [mem_type(HOST_VISIBLE)];
    assert_eq!(assign(&types, [DEVICE_LOCAL, HOST_VISIBLE], [0b1]), Ok(([0], 1)));
}

#[test]
fn objects_stay_together_on_a_common_type() {
    let types = [mem_type(DEVICE_LOCAL), mem_type(DEVICE_LOCAL), mem_type(DEVICE_LOCAL)];
    // type 2 is the only one that all objects share
    assert_eq!(assign(&types, [DEVICE_LOCAL], [0b101, 0b110, 0b100]), Ok(([2, 2, 2], 1)));
}

#[test]
fn ties_go_to_the_lowest_index() {
    let types = [mem_type(0), mem_type(DEVICE_LOCAL), mem_type(DEVICE_LOCAL)];
    assert_eq!(assign(&types, [DEVICE_LOCAL], [0b110, 0b110]), Ok(([1, 1], 1)));
}

#[test]
fn only_types_that_hold_objects_are_counted() {
    let types = [mem_type(DEVICE_LOCAL), mem_type(DEVICE_LOCAL), mem_type(DEVICE_LOCAL)];
    // types 0 and 1 suit the same two objects, so one of them stays empty
    assert_eq!(assign(&types, [DEVICE_LOCAL], [0b011, 0b011, 0b100]), Ok(([0, 0, 2], 2)));
}

#[test]
fn same_requirements_get_the_same_type() {
    let types = [mem_type(DEVICE_LOCAL), mem_type(DEVICE_LOCAL)];
    let (assigned, count) = assign(&types, [DEVICE_LOCAL], [0b11, 0b10, 0b11]).unwrap();
    assert_eq!(assigned, [1, 1, 1]);
    assert_eq!(count, 1);
}

#[test]
fn no_supported_property_set() {
    let types = [mem_type(DEVICE_LOCAL), mem_type(HOST_VISIBLE)];
    assert_eq!(
        assign(&types, [HOST_COHERENT, DEVICE_LOCAL | HOST_VISIBLE], [0b11]),
        Err(MemoryAssignmentError::AllPropertiesUnsupported)
    );
    assert_eq!(
        assign(&types, [], [0b11]),
        Err(MemoryAssignmentError::AllPropertiesUnsupported)
    );
}

#[test]
fn first_incompatible_object_is_named() {
    let types = [mem_type(DEVICE_LOCAL), mem_type(HOST_VISIBLE)];
    assert_eq!(
        assign(&types, [DEVICE_LOCAL], [0b01, 0b10, 0b00]),
        Err(MemoryAssignmentError::ObjectIncompatibleWithAllProperties(1))
    );
}

#[test]
fn bits_beyond_the_last_type_do_not_count() {
    let types = [mem_type(DEVICE_LOCAL)];
    assert_eq!(
        assign(&types, [DEVICE_LOCAL], [0b10]),
        Err(MemoryAssignmentError::ObjectIncompatibleWithAllProperties(0))
    );
    assert_eq!(assign(&types, [DEVICE_LOCAL], [u32::MAX]), Ok(([0], 1)));
}

#[test]
fn all_memory_types_can_be_used() {
    let types = [mem_type(DEVICE_LOCAL); 32];
    let mut bits = [0u32; 32];
    for (i, b) in bits.iter_mut().enumerate() {
        *b = 1 << (31 - i);
    }
    let (assigned, count) = assign(&types, [DEVICE_LOCAL], bits).unwrap();
    for (i, t) in assigned.iter().enumerate() {
        assert_eq!(*t, 31 - i);
    }
    assert_eq!(count, 32);
}

#[test]
fn no_objects_need_no_types() {
    let types = [mem_type(DEVICE_LOCAL)];
    assert_eq!(assign(&types, [DEVICE_LOCAL], []), Ok(([], 0)));
}

#[test]
fn reordered_objects_keep_their_types() {
    let types = [mem_type(DEVICE_LOCAL), mem_type(DEVICE_LOCAL), mem_type(HOST_VISIBLE)];
    let props = [DEVICE_LOCAL, HOST_VISIBLE];
    let bits = [0b011u32, 0b010, 0b100];
    assert_eq!(assign(&types, props, bits), Ok(([1, 1, 2], 2)));
    for order in [[0usize, 2, 1], [1, 0, 2], [1, 2, 0], [2, 0, 1], [2, 1, 0]] {
        let (assigned, count) = assign(&types, props, order.map(|i| bits[i])).unwrap();
        assert_eq!(count, 2);
        assert_eq!(assigned, order.map(|i| [1, 1, 2][i]));
    }
}

#[test]
fn appended_property_sets_change_no_type() {
    let types = [mem_type(HOST_VISIBLE), mem_type(DEVICE_LOCAL), mem_type(HOST_COHERENT)];
    let bits = [0b111u32, 0b011, 0b001];
    let assigned = assign(&types, [DEVICE_LOCAL, HOST_VISIBLE], bits);
    assert_eq!(assigned, Ok(([1, 1, 0], 2)));
    assert_eq!(assign(&types, [DEVICE_LOCAL, HOST_VISIBLE, HOST_COHERENT], bits), assigned);
    assert_eq!(assign(&types, [DEVICE_LOCAL, HOST_VISIBLE, 0, DEVICE_LOCAL], bits), assigned);
}

#[test]
fn heaps_sizes_and_alignments_are_not_consulted() {
    let types = [mem_type(DEVICE_LOCAL), mem_type(HOST_VISIBLE)];
    let other_heaps = types.map(|t| MemoryType { heap_index: 7, ..t });
    for bits in [[0b01u32, 0b10], [0b11, 0b11], [0b01, 0b00]] {
        let other_reqs = bits.map(|memory_type_bits| MemoryRequirements {
            size: 5,
            alignment: 1,
            memory_type_bits,
        });
        let other = assign_memory_type_indexes_to_objects_for_allocation(
            UnassignedToMemoryObjectsData {
                mem_types: &other_heaps,
                mem_props: [flags(DEVICE_LOCAL), flags(HOST_VISIBLE)],
                obj_reqs: other_reqs,
            },
        );
        assert_eq!(other, assign(&types, [DEVICE_LOCAL, HOST_VISIBLE], bits));
    }
}
