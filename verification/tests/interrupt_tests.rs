//! The descriptor table, the TSS descriptor's bit layout, the interrupt
//! setup, and the console writer.

use kcore::boot::mmap::{MMapTag, MemArea};
use kcore::control::MemoryController;
use kcore::frame::{AreaAllocator, Frame};
use kcore::gdt::{Descriptor, SegmentSelector, GDT};
use kcore::idt::{init, Handlers, DOUBLE_FAULT_IST_IDX};
use kcore::paging::mapper::{ActivePTable, InactivePTable};
use kcore::paging::page::Page;
use kcore::stack::StackAllocator;
use kcore::vga::{Color, VGAColor, VGAConfig, Writer};

#[test]
fn selector_packs_index_and_privilege() {
    assert_eq!(SegmentSelector::new(1, 0).bits, 8);
    assert_eq!(SegmentSelector::new(2, 3).bits, 19);
}

#[test]
fn kernel_code_segment_flags() {
    match Descriptor::kernel_code_segment() {
        Descriptor::UserSegment(v) => assert_eq!(v, 0x0020_9800_0000_0000),
        Descriptor::SystemSegment(_, _) => panic!("expected a single-entry descriptor"),
    }
}

#[test]
fn tss_descriptor_bit_layout() {
    let base: u64 = 0x1234_5678_9ABC_DEF0;
    match Descriptor::tss_segment(base) {
        Descriptor::SystemSegment(l, h) => {
            assert_eq!(l & 0xFFFF, 103);
            assert_eq!((l >> 16) & 0xFF_FFFF, base & 0xFF_FFFF);
            assert_eq!((l >> 56) & 0xFF, (base >> 24) & 0xFF);
            assert_eq!((l >> 40) & 0xF, 0b1001);
            assert_eq!((l >> 47) & 1, 1);
            assert_eq!(h & 0xFFFF_FFFF, base >> 32);
        },
        Descriptor::UserSegment(_) => panic!("expected a two-entry descriptor"),
    }
}

#[test]
fn gdt_places_descriptors_in_order() {
    let mut gdt = GDT::new();
    let code = gdt.add_entry(&Descriptor::kernel_code_segment());
    let tss = gdt.add_entry(&Descriptor::tss_segment(0x1000));
    assert_eq!(code.bits, 8);
    assert_eq!(tss.bits, 16);
    assert_eq!(gdt.entry(0), 0);
    assert_eq!(gdt.entry(1), 0x0020_9800_0000_0000);
    assert!(gdt.entry(2) != 0);
}

fn controller() -> MemoryController {
    let tag = MMapTag {
        esize: 24,
        ever: 0,
        areas: vec![MemArea { base: 0x100000, len: 0x100000, typ: 1 }],
    };
    let fr_a = AreaAllocator::new(0, 0, 0, 0, tag.memo());
    let at = ActivePTable::new(InactivePTable::new(Frame { i: 0x10 }).map);
    let st_a = StackAllocator::new(Page::range_inclusive(Page { i: 0x1000 }, Page { i: 0x1064 }));
    MemoryController { _at: at, _fr_a: fr_a, _st_a: st_a }
}

#[test]
fn controller_hands_out_stacks() {
    let mut mc = controller();
    let st = mc.allocate(3).unwrap();
    assert_eq!(st.bottom(), 0x1001 * 4096);
    assert_eq!(st.top(), 0x1004 * 4096);
}

#[test]
fn interrupt_init_builds_the_whole_setup() {
    let mut mc = controller();
    let h = Handlers {
        divide_by_zero: 0x1000,
        breakpoint: 0x2000,
        invalid_opcode: 0x3000,
        page_fault: 0x4000,
        double_fault: 0x5000,
    };
    let s = init(&mut mc, 0xAB_CDEF, &h).unwrap();
    // the double-fault stack's top sits in the first interrupt-stack slot
    assert_eq!(s.tss.ist[DOUBLE_FAULT_IST_IDX], s.double_fault_stack.top());
    assert_eq!(s.double_fault_stack.top(), 0x1002 * 4096);
    assert_eq!(s.code_selector.bits, 8);
    assert_eq!(s.tss_selector.bits, 16);
    // the five handlers are installed; only the double fault runs on the
    // dedicated stack
    assert!(s.idt.breakpoint.present && s.idt.breakpoint.handler == 0x2000);
    assert!(s.idt.breakpoint.ist_index.is_none());
    assert!(s.idt.divide_by_zero.present);
    assert!(s.idt.invalid_opcode.present);
    assert!(s.idt.page_fault.present);
    assert!(s.idt.double_fault.present && s.idt.double_fault.handler == 0x5000);
    assert_eq!(s.idt.double_fault.ist_index, Some(DOUBLE_FAULT_IST_IDX as u8));
}

#[test]
fn writer_places_bytes_on_the_bottom_row() {
    let mut w = Writer::new(VGAConfig::new());
    w.write_byte(b'h');
    w.write_byte(b'i');
    assert_eq!(w.cell_at(24, 0).ch, b'h');
    assert_eq!(w.cell_at(24, 1).ch, b'i');
    assert_eq!(w.column(), 2);
}

#[test]
fn writer_newline_scrolls_upward() {
    let mut w = Writer::new(VGAConfig::new());
    w.write_byte(b'x');
    w.write_byte(b'\n');
    assert_eq!(w.cell_at(23, 0).ch, b'x');
    assert_eq!(w.cell_at(24, 0).ch, b' ');
    assert_eq!(w.column(), 0);
}

#[test]
fn writer_wraps_a_full_row() {
    let mut w = Writer::new(VGAConfig::new());
    for _ in 0..80 {
        w.write_byte(b'a');
    }
    assert_eq!(w.column(), 80);
    w.write_byte(b'b');
    // the full row scrolled up and the byte landed at the start
    assert_eq!(w.cell_at(23, 79).ch, b'a');
    assert_eq!(w.cell_at(24, 0).ch, b'b');
    assert_eq!(w.column(), 1);
}

#[test]
fn writer_tab_advances_to_the_next_stop() {
    let mut w = Writer::new(VGAConfig::new());
    w.write_byte(b'\t');
    assert_eq!(w.column(), 5);
    w.write_byte(b'a');
    w.write_byte(b'x');
    w.write_byte(b'\t');
    // from column seven the next multiple of five is ten
    assert_eq!(w.column(), 10);
    assert_eq!(w.cell_at(24, 5).ch, b'a');
    assert_eq!(w.cell_at(24, 7).ch, b' ');
    w.write_byte(b'b');
    assert_eq!(w.cell_at(24, 10).ch, b'b');
}

#[test]
fn writer_write_str() {
    let mut w = Writer::new(VGAConfig::new());
    w.write_str(b"ok");
    assert_eq!(w.cell_at(24, 0).ch, b'o');
    assert_eq!(w.cell_at(24, 1).ch, b'k');
}

#[test]
fn color_attribute_packs_background_high() {
    let c = VGAColor::new(Color::LightGray, Color::Black);
    assert_eq!(c.0, 7);
    let c2 = VGAColor::new(Color::Blue, Color::Red);
    assert_eq!(c2.0, (4 << 4) | 1);
}
