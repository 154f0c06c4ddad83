//! The heap allocator: splitting, alignment padding, coalescing, errors.

use kcore::heap::{align_down, align_up, AllocErr, Heap, Layout};

#[test]
fn align_up_and_down_values() {
    assert_eq!(align_down(0x1234, 0x1000), 0x1000);
    assert_eq!(align_down(0x1000, 0x1000), 0x1000);
    assert_eq!(align_down(0xFFF, 0x1000), 0);
    assert_eq!(align_down(77, 0), 77);
    assert_eq!(align_up(0x1001, 0x1000), 0x2000);
    assert_eq!(align_up(0x1000, 0x1000), 0x1000);
    assert_eq!(align_up(0, 8), 0);
    assert_eq!(align_up(1, 8), 8);
}

#[test]
fn align_round_trip() {
    for x in [0u64, 1, 7, 8, 9, 4095, 4096, 4097, 0x12345] {
        for a in [1u64, 2, 8, 64, 4096] {
            let d = align_down(x, a);
            assert_eq!(align_up(d, a), d);
            assert!(align_up(x, a) >= x);
        }
    }
}

#[test]
fn layout_rejects_bad_alignment() {
    assert!(Layout::from_size_align(16, 8).is_some());
    assert!(Layout::from_size_align(16, 0).is_none());
    assert!(Layout::from_size_align(16, 3).is_none());
    assert!(Layout::from_size_align(16, 12).is_none());
}

#[test]
fn heap_split_and_merge() {
    let mut heap = Heap::new(0x100000, 0x100);
    let l = Layout { size: 16, align: 8 };
    let a = heap.alloc_first_fit(&l).unwrap();
    assert_eq!(a, 0x100000);
    let b = heap.alloc_first_fit(&l).unwrap();
    assert_eq!(b, 0x100010);
    heap.dealloc(a, &l);
    heap.dealloc(b, &l);
    assert_eq!(heap.hole_count(), 1);
    assert_eq!(heap.hole_at(0).a, 0x100000);
    assert_eq!(heap.hole_at(0).s, 0x100);
}

#[test]
fn heap_alignment_padding() {
    let mut heap = Heap::new(0x100000, 0x100);
    let l = Layout { size: 16, align: 64 };
    let a = heap.alloc_first_fit(&l).unwrap();
    assert_eq!(a, 0x100000);
    let b = heap.alloc_first_fit(&l).unwrap();
    assert_eq!(b, 0x100040);
    // the front padding between the first block and the second is a hole
    assert_eq!(heap.hole_at(0).a, 0x100010);
    assert_eq!(heap.hole_at(0).s, 0x30);
}

#[test]
fn heap_fifo_coalesce() {
    let mut heap = Heap::new(0x200000, 0x1000);
    let l = Layout { size: 32, align: 8 };
    let a = heap.alloc_first_fit(&l).unwrap();
    let b = heap.alloc_first_fit(&l).unwrap();
    heap.dealloc(a, &l);
    heap.dealloc(b, &l);
    assert_eq!(heap.hole_count(), 1);
    assert_eq!(heap.hole_at(0).a, 0x200000);
    assert_eq!(heap.hole_at(0).s, 0x1000);
}

#[test]
fn heap_exhaustion_is_reported() {
    let mut heap = Heap::new(0x300000, 0x40);
    let l = Layout { size: 0x80, align: 8 };
    assert_eq!(heap.alloc_first_fit(&l), Err(AllocErr::Exhausted));
    // a failed allocation leaves the heap unchanged
    assert_eq!(heap.hole_count(), 1);
    assert_eq!(heap.hole_at(0).s, 0x40);
}

#[test]
fn heap_small_sizes_are_normalized() {
    let mut heap = Heap::new(0x400000, 0x100);
    let l = Layout { size: 1, align: 1 };
    let a = heap.alloc_first_fit(&l).unwrap();
    assert_eq!(a, 0x400000);
    let b = heap.alloc_first_fit(&l).unwrap();
    // one byte still consumes the sixteen-byte minimum block
    assert_eq!(b, 0x400010);
}

#[test]
fn heap_extend_grows_the_free_space() {
    let mut heap = Heap::new(0x500000, 0x100);
    assert_eq!(heap.top(), 0x500100);
    heap.extend(0x100);
    assert_eq!(heap.size(), 0x200);
    assert_eq!(heap.hole_count(), 1);
    assert_eq!(heap.hole_at(0).s, 0x200);
}

#[test]
fn heap_accounting_identity() {
    let mut heap = Heap::new(0x700000, 0x1000);
    let sum = |h: &Heap| -> u64 {
        let mut s = 0;
        for i in 0..h.hole_count() {
            s += h.hole_at(i).s;
        }
        s
    };
    assert_eq!(sum(&heap), 0x1000);
    let l = Layout { size: 0x100, align: 8 };
    let a = heap.alloc_first_fit(&l).unwrap();
    assert_eq!(sum(&heap), 0x1000 - 0x100);
    let l2 = Layout { size: 0x40, align: 16 };
    let b = heap.alloc_first_fit(&l2).unwrap();
    assert_eq!(sum(&heap), 0x1000 - 0x100 - 0x40);
    heap.dealloc(a, &l);
    assert_eq!(sum(&heap), 0x1000 - 0x40);
    heap.dealloc(b, &l2);
    assert_eq!(sum(&heap), 0x1000);
}

#[test]
fn heap_blank_and_init() {
    let mut heap = Heap::blank();
    assert_eq!(heap.size(), 0);
    heap.init(0x600000, 0x80);
    assert_eq!(heap.bottom(), 0x600000);
    assert_eq!(heap.size(), 0x80);
}
