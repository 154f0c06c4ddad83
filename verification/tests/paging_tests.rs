//! Page tables: translation, identity mapping, unmapping, the recursive
//! slot, the frame allocators, and the stack allocator's guard page.

use kcore::boot::mmap::{MMapTag, MemArea};
use kcore::frame::{AreaAllocator, Frame, FrameAllocator, TAllocator};
use kcore::paging::entry::{EFlags, Entry, PRESENT, WRITABLE};
use kcore::paging::mapper::{ActivePTable, InactivePTable};
use kcore::paging::page::{Page, PageIter, TempPage};
use kcore::stack::StackAllocator;

fn area_allocator(base: u64, len: u64) -> AreaAllocator {
    let tag = MMapTag { esize: 24, ever: 0, areas: vec![MemArea { base, len, typ: 1 }] };
    AreaAllocator::new(0, 0, 0, 0, tag.memo())
}

fn fresh_active(p4_frame: u64) -> ActivePTable {
    ActivePTable::new(InactivePTable::new(Frame { i: p4_frame }).map)
}

#[test]
fn page_index_decomposition() {
    let p = Page { i: (1 << 27) + (2 << 18) + (3 << 9) + 4 };
    assert_eq!(p.p4_idx(), 1);
    assert_eq!(p.p3_idx(), 2);
    assert_eq!(p.p2_idx(), 3);
    assert_eq!(p.p1_idx(), 4);
    assert_eq!(Page::caddr(0xB8ABC).i, 0xB8);
}

#[test]
fn entry_roundtrip() {
    let mut e = Entry(0);
    assert!(e.is_unused());
    assert!(e.pointed_frame().is_none());
    e.set(&Frame { i: 0xB8 }, EFlags(WRITABLE).with(PRESENT));
    assert_eq!(e.pointed_frame().unwrap().i, 0xB8);
    assert!(e.flags().contains(PRESENT));
    assert!(e.flags().contains(WRITABLE));
    e.set_unused();
    assert!(e.is_unused());
}

#[test]
fn identity_map_translates_to_itself() {
    let mut a = area_allocator(0x100000, 0x100000);
    let mut at = fresh_active(0x50);
    at.map.idmap(&Frame { i: 0xB8 }, EFlags(WRITABLE), &mut a);
    assert_eq!(at.map.translate_vtop(0xB8000), Some(0xB8000));
    assert_eq!(at.map.translate_vtop(0xB8ABC), Some(0xB8ABC));
    assert_eq!(at.map.translate_vtop(0xB9000), None);
}

#[test]
fn map_then_unmap_translates_to_none() {
    let mut a = area_allocator(0x100000, 0x100000);
    let mut at = fresh_active(0x50);
    let p = Page::caddr(0x4000_0000);
    at.map.map_to(p, &Frame { i: 0x77 }, EFlags(WRITABLE), &mut a);
    assert_eq!(at.map.translate_vtop(0x4000_0000), Some(0x77000));
    at.map.unmap(p, &mut a);
    assert_eq!(at.map.translate_vtop(0x4000_0000), None);
}

#[test]
fn recursive_slot_points_to_the_table_itself() {
    let t = InactivePTable::new(Frame { i: 0x123 });
    let e = t.map.p4.es[511];
    assert_eq!(e.pointed_frame().unwrap().i, 0x123);
    assert!(e.flags().contains(PRESENT));
    assert!(e.flags().contains(WRITABLE));
    // following the recursive slot from the table's own address stays there
    let v = t.map.p4.next_taddr(0xFFFF_FFFF_FFFF_F000, 511).unwrap();
    assert_eq!(v, 0xFFFF_FFFF_FFFF_F000);
}

#[test]
fn switch_returns_the_old_hierarchy() {
    let mut at = fresh_active(0x10);
    let new_t = InactivePTable::new(Frame { i: 0x20 });
    let old_t = at.switch(new_t);
    assert_eq!(old_t.p4_frame().i, 0x10);
    assert_eq!(at.map.p4_fr, 0x20);
}

#[test]
fn area_allocator_skips_kernel_and_boot() {
    let tag = MMapTag {
        esize: 24,
        ever: 0,
        areas: vec![MemArea { base: 0, len: 0x100000, typ: 1 }],
    };
    // the kernel occupies [0x10000, 0x20000), the boot record
    // [0x30000, 0x30100): both ends exclusive
    let mut a = AreaAllocator::new(0x10000, 0x20000, 0x30000, 0x30100, tag.memo());
    for k in 0..16u64 {
        assert_eq!(a.allocate().unwrap().i, k);
    }
    // the kernel image occupies frames 0x10 to 0x1F: skipped entirely
    assert_eq!(a.allocate().unwrap().i, 0x20);
    for k in 0x21..0x30u64 {
        assert_eq!(a.allocate().unwrap().i, k);
    }
    // the boot record occupies frame 0x30: skipped as well
    assert_eq!(a.allocate().unwrap().i, 0x31);
}

#[test]
fn area_allocator_moves_between_areas() {
    let tag = MMapTag {
        esize: 24,
        ever: 0,
        areas: vec![
            MemArea { base: 0x2000, len: 0x2000, typ: 1 },
            MemArea { base: 0x9000, len: 0x1000, typ: 1 },
        ],
    };
    let mut a = AreaAllocator::new(0, 0, 0, 0, tag.memo());
    assert_eq!(a.allocate().unwrap().i, 2);
    assert_eq!(a.allocate().unwrap().i, 3);
    assert_eq!(a.allocate().unwrap().i, 9);
    assert!(a.allocate().is_none());
}

#[test]
fn tiny_allocator_hands_out_three_frames() {
    let mut backing = area_allocator(0x5000, 0x10000);
    let mut t = TAllocator::new(&mut backing);
    let f1 = t.allocate().unwrap();
    let f2 = t.allocate().unwrap();
    let f3 = t.allocate().unwrap();
    assert!(f1.i != f2.i && f2.i != f3.i && f1.i != f3.i);
    assert!(t.allocate().is_none());
    t.dealloc(f2);
    assert!(t.allocate().is_some());
}

#[test]
fn temp_page_maps_and_unmaps() {
    let mut backing = area_allocator(0x100000, 0x100000);
    let mut at = fresh_active(0x50);
    let mut tp = TempPage::new(Page { i: 0xCACABA }, &mut backing);
    let addr = tp.map(&Frame { i: 0x99 }, &mut at);
    assert_eq!(addr, 0xCACABA * 4096);
    assert_eq!(at.map.translate_vtop(addr), Some(0x99000));
    tp.unmap(&mut at);
    assert_eq!(at.map.translate_vtop(addr), None);
}

#[test]
fn stack_allocator_leaves_a_guard_page() {
    let mut a = area_allocator(0x100000, 0x400000);
    let mut at = fresh_active(0x50);
    let range = Page::range_inclusive(Page { i: 0x1000 }, Page { i: 0x1064 });
    let mut st = StackAllocator::new(range);
    let stack = st.allocate(&mut at, &mut a, 2).unwrap();
    assert_eq!(stack.bottom(), 0x1001 * 4096);
    assert_eq!(stack.top(), 0x1003 * 4096);
    // the page below the stack bottom is the guard: left unmapped
    assert_eq!(at.map.translate_vtop(0x1000 * 4096), None);
    assert!(at.map.translate_vtop(stack.bottom()).is_some());
    assert!(at.map.translate_vtop(stack.top() - 4096).is_some());
    // a second stack begins past the first, with its own guard
    let stack2 = st.allocate(&mut at, &mut a, 1).unwrap();
    assert_eq!(stack2.bottom(), 0x1004 * 4096);
    assert_eq!(at.map.translate_vtop(0x1003 * 4096), None);
}

#[test]
fn stack_allocator_rejects_zero_and_exhaustion() {
    let mut a = area_allocator(0x100000, 0x400000);
    let mut at = fresh_active(0x50);
    let range = Page::range_inclusive(Page { i: 0x2000 }, Page { i: 0x2002 });
    let mut st = StackAllocator::new(range);
    assert!(st.allocate(&mut at, &mut a, 0).is_none());
    assert!(st.allocate(&mut at, &mut a, 5).is_none());
    assert!(st.allocate(&mut at, &mut a, 2).is_some());
}

#[test]
fn page_iter_walks_inclusive() {
    let mut it = PageIter { s: Page { i: 3 }, e: Page { i: 5 } };
    assert_eq!(it.next().unwrap().i, 3);
    assert_eq!(it.next().unwrap().i, 4);
    assert_eq!(it.next().unwrap().i, 5);
    assert!(it.next().is_none());
}

#[test]
fn frame_range_walks_inclusive() {
    let mut it = Frame::range_inclusive(Frame { i: 7 }, Frame { i: 8 });
    assert_eq!(it.next().unwrap().i, 7);
    assert_eq!(it.next().unwrap().i, 8);
    assert!(it.next().is_none());
}
