use kernel::mem::{align, align_down, SmallMem, SystemHeapAllocator};
use kernel::system::System;

#[test]
fn align_rounds_to_eight() {
    assert_eq!(align(0), 0);
    assert_eq!(align(1), 8);
    assert_eq!(align(8), 8);
    assert_eq!(align(13), 16);
    assert_eq!(align_down(13), 8);
    assert_eq!(align_down(16), 16);
}

#[test]
fn first_fit_hands_out_blocks_in_heap_order() {
    let mut m = SmallMem::new(0x1000, 0x1000);
    let a = m.malloc(100).unwrap();
    let b = m.malloc(100).unwrap();
    assert_eq!(a, 0x1018 + 16);
    assert_eq!(b, a + 104 + 16);
}

#[test]
fn freeing_makes_the_block_available_again() {
    let mut m = SmallMem::new(0x1000, 0x1000);
    let a = m.malloc(100).unwrap();
    let b = m.malloc(50).unwrap();
    m.free(a);
    let c = m.malloc(60).unwrap();
    assert_eq!(c, a);
    m.free(b);
    m.free(c);
    let whole = m.malloc(4040).unwrap();
    assert_eq!(whole, a);
}

#[test]
fn free_after_malloc_leaves_the_heap_as_it_was() {
    let mut m = SmallMem::new(0x1000, 0x1000);
    let a = m.malloc(200).unwrap();
    m.free(a);
    assert_eq!(m.malloc(4040), Some(a));
}

#[test]
fn malloc_gives_none_without_room() {
    let mut m = SmallMem::new(0x1000, 0x1000);
    let a = m.malloc(4040);
    assert!(a.is_some());
    assert_eq!(m.malloc(8), None);
}

#[test]
fn aligned_allocations_are_aligned_and_freed() {
    let mut m = SmallMem::new(0x1000, 0x1000);
    let p = m.malloc_align(10, 64);
    assert_eq!(p % 64, 0);
    assert!(p > 0x1018);
    let q = m.malloc_align(100, 16);
    assert_eq!(q % 16, 0);
    m.free_align(p);
    m.free_align(q);
    assert_eq!(m.malloc(4040), Some(0x1018 + 16));
}

#[test]
fn the_system_allocator_uses_the_kernel_heap() {
    let mut sys = System::new();
    sys.set_heap(SmallMem::new(0x1000, 0x1000));
    let a = SystemHeapAllocator;
    let p = a.allocate(&mut sys, 32, 8);
    assert_eq!(p % 8, 0);
    a.deallocate(&mut sys, p);
    assert_eq!(sys.heap().malloc(4040), Some(0x1018 + 16));
}
