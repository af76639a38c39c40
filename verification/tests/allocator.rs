use libkernel::allocator::{HeapError, LinkedAllocatorNode, LinkedListAllocator, HEADER_SIZE};

/// Address of the regions of these tests; not a multiple of 32, so that an
/// allocation aligned to 32 leaves a gap behind it.
const BASE: usize = 0x1_0008;

fn create_node(size: usize) -> LinkedAllocatorNode {
    LinkedAllocatorNode::new(size)
}

fn create_heap(address: usize, size: usize) -> LinkedListAllocator {
    let mut allocator = LinkedListAllocator::new();
    allocator.init(address, create_node(size)).unwrap();
    allocator
}

fn nodes(allocator: &LinkedListAllocator) -> Vec<LinkedAllocatorNode> {
    let mut all = Vec::new();
    if let Some(head) = allocator.nodes_mut() {
        let mut iter = head.as_iter();
        while let Some(node) = iter.next(allocator) {
            all.push(node);
        }
    }
    all
}

fn node(address: usize, size: usize, free: bool, next: Option<usize>) -> LinkedAllocatorNode {
    let mut node = LinkedAllocatorNode::new(HEADER_SIZE + size);
    node.address = address;
    node.free = free;
    node.next = next;
    node
}

#[test]
fn should_initialize_allocator_once() {
    const SIZE: usize = 256;
    let mut allocator = LinkedListAllocator::new();
    allocator.init(BASE, create_node(SIZE)).unwrap();

    let ptr = allocator.allocate(32, 1).unwrap();
    allocator.deallocate(ptr, 32, 1).unwrap();
}

#[test]
#[should_panic]
fn should_fail_double_initing() {
    const SIZE: usize = 256;
    let mut allocator = LinkedListAllocator::new();
    allocator.init(BASE, create_node(SIZE)).unwrap();
    allocator.init(BASE + 0x1000, create_node(SIZE)).unwrap();
}

#[test]
#[should_panic]
fn should_fail_not_initialized() {
    let mut allocator = LinkedListAllocator::new();
    allocator.allocate(32, 1).unwrap();
}

#[test]
fn should_merge_with_previous_node() {
    const SIZE: usize = 256;
    let mut allocator = create_heap(BASE, SIZE);

    let ptr = allocator.allocate(32, 1).unwrap();
    allocator.deallocate(ptr, 32, 1).unwrap();

    let node = allocator.nodes_mut().unwrap();
    assert!(node.free);
    assert_eq!(node.size, SIZE - HEADER_SIZE);
    assert_eq!(node.next, None);
}

#[test]
fn should_merge_with_next_node() {
    const SIZE: usize = 256;
    let mut allocator = create_heap(BASE, SIZE);

    let ptr1 = allocator.allocate(32, 32).unwrap();
    let _ptr2 = allocator.allocate(5, 1).unwrap();

    // Start, ptr2, ptr1, reserved
    assert_eq!(nodes(&allocator).len(), 4);

    allocator.deallocate(ptr1, 32, 32).unwrap();

    // Start, ptr2, free
    assert_eq!(nodes(&allocator).len(), 3);
}

#[test]
fn should_merge_with_next_and_previous_node() {
    const SIZE: usize = 256;
    let mut allocator = create_heap(BASE, SIZE);

    let ptr1 = allocator.allocate(32, 32).unwrap();
    let ptr2 = allocator.allocate(5, 1).unwrap();

    // Start, ptr2, ptr1, reserved
    assert_eq!(nodes(&allocator).len(), 4);

    allocator.deallocate(ptr1, 32, 32).unwrap();

    // Start, ptr2, free
    assert_eq!(nodes(&allocator).len(), 3);

    allocator.deallocate(ptr2, 5, 1).unwrap();

    // free
    let node = allocator.nodes_mut().unwrap();
    assert!(node.free);
    assert_eq!(node.size, SIZE - HEADER_SIZE);
    assert_eq!(node.next, None);
}

#[test]
fn should_merge_after_multiple_allocations() {
    const SIZE: usize = 512;
    let mut allocator = create_heap(BASE, SIZE);

    let ptr1 = allocator.allocate(32, 32).unwrap();
    let ptr2 = allocator.allocate(5, 1).unwrap();
    let ptr3 = allocator.allocate(16, 2).unwrap();
    let ptr4 = allocator.allocate(5, 1).unwrap();
    let ptr5 = allocator.allocate(32, 32).unwrap();

    allocator.deallocate(ptr1, 32, 32).unwrap();
    allocator.deallocate(ptr3, 16, 2).unwrap();
    allocator.deallocate(ptr2, 5, 1).unwrap();
    allocator.deallocate(ptr5, 32, 32).unwrap();
    allocator.deallocate(ptr4, 5, 1).unwrap();

    // free
    let node = allocator.nodes_mut().unwrap();
    assert!(node.free);
    assert_eq!(node.size, SIZE - HEADER_SIZE);
    assert_eq!(node.next, None);
}

#[test]
#[should_panic]
fn should_fail_allocating_too_big_chunk() {
    const SIZE: usize = 64;
    let mut allocator = create_heap(BASE, SIZE);
    let _ptr1 = allocator.allocate(256, 2).unwrap();
}

#[test]
fn should_allocate_exact_size() {
    const SIZE: usize = HEADER_SIZE + 8;
    let mut allocator = create_heap(BASE, SIZE);

    // The header of the allocation would have to lie on the header of the
    // only node: the node has no room for it.
    let ptr1 = allocator.allocate(8, 2);
    assert_eq!(ptr1, Err(HeapError::OutOfMemory));
    if let Ok(ptr1) = ptr1 {
        allocator.deallocate(ptr1, 8, 2).unwrap();
    }

    let node = allocator.nodes_mut().unwrap();
    assert!(node.free);
    assert_eq!(node.size, SIZE - HEADER_SIZE);
    assert_eq!(node.next, None);
}

#[test]
fn new_node_is_free_and_unplaced() {
    let node = LinkedAllocatorNode::new(256);
    assert_eq!(node.size, 224);
    assert!(node.free);
    assert_eq!(node.next, None);
    assert_eq!(node.address, 0);
    assert_eq!(node.start_address(), 32);
    assert_eq!(node.end_address(), 255);
}

#[test]
fn node_addresses_follow_header() {
    let placed = node(0x2000, 100, true, None);
    assert_eq!(placed.start_address(), 0x2020);
    assert_eq!(placed.end_address(), 0x2083);
    let empty = node(0x2000, 0, true, None);
    assert_eq!(empty.start_address(), 0x2020);
    assert_eq!(empty.end_address(), 0x201f);
}

#[test]
fn init_places_the_node() {
    let allocator = create_heap(BASE, 256);
    assert_eq!(nodes(&allocator), vec![node(BASE, 224, true, None)]);
    assert_eq!(allocator.node_count(), 1);
    assert_eq!(allocator.node_at(BASE), Some(node(BASE, 224, true, None)));
    assert_eq!(allocator.node_at(BASE + 1), None);
}

#[test]
fn init_twice_is_refused() {
    let mut allocator = create_heap(BASE, 256);
    assert_eq!(allocator.init(BASE + 0x1000, create_node(256)), Err(HeapError::AlreadyInitialized));
    assert_eq!(nodes(&allocator), vec![node(BASE, 224, true, None)]);
}

#[test]
fn init_refuses_a_linked_node() {
    let mut allocator = LinkedListAllocator::new();
    let linked = node(0, 224, true, Some(0x4000));
    assert_eq!(allocator.init(BASE, linked), Err(HeapError::InvalidRegion));
    assert_eq!(allocator.nodes_mut(), None);
}

#[test]
fn init_refuses_a_region_past_the_address_space() {
    let mut allocator = LinkedListAllocator::new();
    assert_eq!(allocator.init(usize::MAX - 100, create_node(256)), Err(HeapError::InvalidRegion));
    assert_eq!(allocator.node_count(), 0);
}

#[test]
fn unused_heap_refuses_both_calls() {
    let mut allocator = LinkedListAllocator::new();
    assert_eq!(allocator.allocate(32, 1), Err(HeapError::NotInitialized));
    assert_eq!(allocator.deallocate(BASE + 32, 32, 1), Err(HeapError::NotInitialized));
}

#[test]
fn zero_alignment_is_refused() {
    let mut allocator = create_heap(BASE, 256);
    assert_eq!(allocator.allocate(8, 0), Err(HeapError::ZeroAlignment));
    assert_eq!(nodes(&allocator), vec![node(BASE, 224, true, None)]);
}

#[test]
fn too_big_chunk_is_out_of_memory() {
    let mut allocator = create_heap(BASE, 64);
    assert_eq!(allocator.allocate(256, 2), Err(HeapError::OutOfMemory));
    assert_eq!(nodes(&allocator), vec![node(BASE, 32, true, None)]);
}

#[test]
fn unknown_pointer_is_refused() {
    let mut allocator = create_heap(BASE, 256);
    let ptr = allocator.allocate(32, 1).unwrap();
    assert_eq!(allocator.deallocate(ptr + 1, 32, 1), Err(HeapError::UnknownPointer));
    assert_eq!(nodes(&allocator).len(), 2);
}

#[test]
fn flush_allocation_sits_at_the_end() {
    let mut allocator = create_heap(BASE, 256);
    let ptr = allocator.allocate(32, 1).unwrap();
    assert_eq!(ptr, BASE + 224);
    assert_eq!(
        nodes(&allocator),
        vec![node(BASE, 160, true, Some(BASE + 192)), node(BASE + 192, 32, false, None)]
    );
}

#[test]
fn aligned_allocation_leaves_a_gap_node() {
    let mut allocator = create_heap(BASE, 256);
    let ptr = allocator.allocate(32, 32).unwrap();
    assert_eq!(ptr, 0x1_00c0);
    assert_eq!(ptr % 32, 0);
    assert_eq!(
        nodes(&allocator),
        vec![
            node(0x1_0008, 120, true, Some(0x1_00a0)),
            node(0x1_00a0, 32, false, Some(0x1_00e0)),
            node(0x1_00e0, 8, true, None),
        ]
    );
}

#[test]
fn second_allocation_comes_from_the_first_node() {
    let mut allocator = create_heap(BASE, 256);
    let _ptr1 = allocator.allocate(32, 32).unwrap();
    let ptr2 = allocator.allocate(5, 1).unwrap();
    // The first node ends at 0x1_00a0; 5 bytes and a header fit flush.
    assert_eq!(ptr2, 0x1_009b);
    assert_eq!(
        nodes(&allocator),
        vec![
            node(0x1_0008, 83, true, Some(0x1_007b)),
            node(0x1_007b, 5, false, Some(0x1_00a0)),
            node(0x1_00a0, 32, false, Some(0x1_00e0)),
            node(0x1_00e0, 8, true, None),
        ]
    );
}

#[test]
fn node_shrinks_to_nothing() {
    // 32 bytes of header, then room for exactly one header and 8 bytes.
    let mut allocator = create_heap(0x1_0000, 32 + 32 + 8);
    let ptr = allocator.allocate(8, 8).unwrap();
    assert_eq!(ptr, 0x1_0040);
    assert_eq!(
        nodes(&allocator),
        vec![node(0x1_0000, 0, true, Some(0x1_0020)), node(0x1_0020, 8, false, None)]
    );
    // The empty node takes nothing more.
    assert_eq!(allocator.allocate(1, 1), Err(HeapError::OutOfMemory));
    allocator.deallocate(ptr, 8, 8).unwrap();
    assert_eq!(nodes(&allocator), vec![node(0x1_0000, 40, true, None)]);
}

#[test]
fn allocation_adds_at_most_two_nodes() {
    let mut allocator = create_heap(BASE, 512);
    let requests: [(usize, usize); 5] = [(32, 32), (5, 1), (16, 2), (5, 1), (32, 32)];
    for (size, align) in requests {
        let before = allocator.node_count();
        let ptr = allocator.allocate(size, align).unwrap();
        let after = allocator.node_count();
        assert!(after == before + 1 || after == before + 2);
        assert_eq!(ptr % align, 0);
    }
}

#[test]
fn allocation_lies_in_a_free_node() {
    let mut allocator = create_heap(BASE, 512);
    let _first = allocator.allocate(40, 16).unwrap();
    let before = nodes(&allocator);
    let ptr = allocator.allocate(24, 8).unwrap();
    let host = before
        .iter()
        .find(|n| n.start_address() <= ptr && ptr + 24 <= n.end_address() + 1)
        .unwrap();
    assert!(host.free);
}

#[test]
fn freeing_in_any_order_restores_the_heap() {
    let orders: [[usize; 3]; 6] = [[0, 1, 2], [0, 2, 1], [1, 0, 2], [1, 2, 0], [2, 0, 1], [2, 1, 0]];
    for order in orders {
        let mut allocator = create_heap(BASE, 512);
        let requests: [(usize, usize); 3] = [(32, 32), (5, 1), (16, 2)];
        let mut pointers = Vec::new();
        for (size, align) in requests {
            pointers.push(allocator.allocate(size, align).unwrap());
        }
        for index in order {
            let (size, align) = requests[index];
            allocator.deallocate(pointers[index], size, align).unwrap();
        }
        assert_eq!(nodes(&allocator), vec![node(BASE, 512 - HEADER_SIZE, true, None)]);
    }
}

#[test]
fn node_count_returns_after_a_balanced_run() {
    let mut allocator = create_heap(BASE, 512);
    let kept = allocator.allocate(32, 32).unwrap();
    let before = nodes(&allocator);
    let a = allocator.allocate(7, 1).unwrap();
    let b = allocator.allocate(16, 16).unwrap();
    allocator.deallocate(a, 7, 1).unwrap();
    let c = allocator.allocate(3, 1).unwrap();
    allocator.deallocate(c, 3, 1).unwrap();
    allocator.deallocate(b, 16, 16).unwrap();
    assert_eq!(nodes(&allocator), before);
    allocator.deallocate(kept, 32, 32).unwrap();
    assert_eq!(allocator.node_count(), 1);
}

#[test]
fn freeing_a_free_node_changes_nothing() {
    let mut allocator = create_heap(BASE, 256);
    let ptr = allocator.allocate(32, 32).unwrap();
    let before = nodes(&allocator);
    // The gap node behind the allocation is free; its first byte follows
    // its header.
    assert_eq!(allocator.deallocate(0x1_00e0 + HEADER_SIZE, 8, 1), Ok(()));
    assert_eq!(nodes(&allocator), before);
    allocator.deallocate(ptr, 32, 32).unwrap();
}

#[test]
fn freeing_the_first_node_merges_forward_only() {
    let mut allocator = LinkedListAllocator::new();
    let mut first = create_node(256);
    first.free = false;
    allocator.init(BASE, first).unwrap();
    assert_eq!(allocator.allocate(8, 1), Err(HeapError::OutOfMemory));
    allocator.deallocate(BASE + HEADER_SIZE, 224, 1).unwrap();
    assert_eq!(nodes(&allocator), vec![node(BASE, 224, true, None)]);
}

#[test]
fn place_gives_the_header_address() {
    let host = node(0x1_0008, 224, true, None);
    assert_eq!(host.place(32, 1), Some(0x1_00c8));
    assert_eq!(host.place(32, 32), Some(0x1_00a0));
    assert_eq!(host.place(224, 1), None);
    assert_eq!(host.place(192, 1), Some(0x1_0028));
    assert_eq!(host.place(193, 1), None);
    let used = node(0x1_0008, 224, false, None);
    assert_eq!(used.place(8, 1), None);
}

#[test]
fn cursor_walks_the_chain() {
    let mut allocator = create_heap(BASE, 256);
    let _ptr = allocator.allocate(32, 32).unwrap();
    let head = allocator.nodes_mut().unwrap();
    let mut iter = head.as_iter();
    assert_eq!(iter.next(&allocator).map(|n| n.address), Some(0x1_0008));
    assert_eq!(iter.next(&allocator).map(|n| n.address), Some(0x1_00a0));
    assert_eq!(iter.next(&allocator).map(|n| n.address), Some(0x1_00e0));
    assert_eq!(iter.next(&allocator), None);
    assert_eq!(iter.next(&allocator), None);
}
