//! The boot-record reader: the tag walk, the memory map, the ELF sections,
//! and the kernel remap over a synthetic record.

use kcore::boot::bi::{load, BootInfo};
use kcore::boot::elf::{ELFSTable, ElfSectionHeader, ELF_SECTION_ALLOCATED};
use kcore::boot::mmap::{MMapTag, MemArea};
use kcore::boot::bytes::{read_u16, read_u32, read_u64};
use kcore::control::kernel_remap;
use kcore::frame::{AreaAllocator, Frame};
use kcore::paging::mapper::{ActivePTable, InactivePTable};

fn push_u16(v: &mut Vec<u8>, x: u16) {
    v.extend_from_slice(&x.to_le_bytes());
}

fn push_u32(v: &mut Vec<u8>, x: u32) {
    v.extend_from_slice(&x.to_le_bytes());
}

fn push_u64(v: &mut Vec<u8>, x: u64) {
    v.extend_from_slice(&x.to_le_bytes());
}

/// A record with one memory-map section of one available area and the
/// sentinel: 8 header bytes, a 40-byte memory-map section, 8 sentinel
/// bytes.
fn mmap_record() -> Vec<u8> {
    let mut v = Vec::new();
    push_u32(&mut v, 56);  // total_size
    push_u32(&mut v, 0);  // reserved
    push_u32(&mut v, 6);  // memory-map section
    push_u32(&mut v, 40);  // its size
    push_u32(&mut v, 24);  // entry size
    push_u32(&mut v, 0);  // entry version
    push_u64(&mut v, 0);  // base
    push_u64(&mut v, 0x9FC00);  // length
    push_u32(&mut v, 1);  // available
    push_u32(&mut v, 0);  // padding
    push_u32(&mut v, 0);  // sentinel
    push_u32(&mut v, 8);
    v
}

#[test]
fn byte_readers_decode_little_endian() {
    let v = vec![0x78, 0x56, 0x34, 0x12, 0xEF, 0xCD, 0xAB, 0x89];
    assert_eq!(read_u16(&v, 0), 0x5678);
    assert_eq!(read_u32(&v, 0), 0x12345678);
    assert_eq!(read_u64(&v, 0), 0x89ABCDEF12345678);
}

#[test]
fn load_checks_the_sentinel() {
    assert!(load(0x30000, mmap_record()).is_some());
    let mut bad = mmap_record();
    bad[48] = 7;
    assert!(load(0x30000, bad).is_none());
    let mut short = mmap_record();
    short[0] = 57;
    assert!(load(0x30000, short).is_none());
}

#[test]
fn boot_walk_yields_one_area() {
    let b = load(0x30000, mmap_record()).unwrap();
    assert_eq!(b.start_addr(), 0x30000);
    assert_eq!(b.end_addr(), 0x30038);
    let tag = b.memory_map_tag().unwrap();
    let mut it = tag.memo();
    let a = it.next().unwrap();
    assert_eq!(a.base, 0);
    assert_eq!(a.len, 0x9FC00);
    assert!(it.next().is_none());
}

#[test]
fn missing_sections_are_not_found() {
    let b = load(0x30000, mmap_record()).unwrap();
    assert!(b.elf_sections_tag().is_none());
    assert!(b.module_tag().is_none());
    assert!(b.boot_loader_name_tag().is_none());
}

#[test]
fn memory_map_iteration_skips_reserved_areas() {
    let tag = MMapTag {
        esize: 24,
        ever: 0,
        areas: vec![
            MemArea { base: 0, len: 0x1000, typ: 2 },
            MemArea { base: 0x1000, len: 0x1000, typ: 1 },
            MemArea { base: 0x2000, len: 0x1000, typ: 3 },
            MemArea { base: 0x3000, len: 0x1000, typ: 1 },
        ],
    };
    let mut it = tag.memo();
    assert_eq!(it.next().unwrap().base, 0x1000);
    assert_eq!(it.next().unwrap().base, 0x3000);
    assert!(it.next().is_none());
}

fn header(addr: u64, size: u64, sh_type: u32, flags: u64) -> ElfSectionHeader {
    ElfSectionHeader {
        sh_name: 0,
        sh_type,
        sh_link: 0,
        sh_info: 0,
        sh_size: size,
        sh_addr: addr,
        sh_flags: flags,
        sh_offset: 0,
        sh_entsize: 0,
        sh_addralign: 0,
    }
}

fn push_header(v: &mut Vec<u8>, h: &ElfSectionHeader) {
    push_u32(v, h.sh_name);
    push_u32(v, h.sh_type);
    push_u32(v, h.sh_link);
    push_u32(v, h.sh_info);
    push_u64(v, h.sh_size);
    push_u64(v, h.sh_addr);
    push_u64(v, h.sh_flags);
    push_u64(v, h.sh_offset);
    push_u64(v, h.sh_entsize);
    push_u64(v, h.sh_addralign);
}

/// A record with an ELF-sections section of three headers (one unused), a
/// memory map, and the sentinel.
fn full_record() -> Vec<u8> {
    let mut v = Vec::new();
    let total = 8 + (20 + 3 * 64 + 4) + 40 + 8;
    push_u32(&mut v, total as u32);
    push_u32(&mut v, 0);
    // ELF sections: header 20 bytes + 3 * 64, padded by 4 to an 8-byte
    // boundary
    push_u32(&mut v, 9);
    push_u32(&mut v, (20 + 3 * 64) as u32);
    push_u32(&mut v, 3);  // number of headers
    push_u32(&mut v, 64);  // header size
    push_u16(&mut v, 0);  // reserved
    push_u16(&mut v, 0);  // string table index
    push_header(&mut v, &header(0, 0, 0, 0));  // unused
    push_header(&mut v, &header(0x10000, 0x2000, 1, ELF_SECTION_ALLOCATED));
    push_header(&mut v, &header(0x20000, 0x1000, 1, ELF_SECTION_ALLOCATED | 0x1));
    push_u32(&mut v, 0);  // padding to the next 8-byte boundary
    // memory map
    push_u32(&mut v, 6);
    push_u32(&mut v, 40);
    push_u32(&mut v, 24);
    push_u32(&mut v, 0);
    push_u64(&mut v, 0x100000);
    push_u64(&mut v, 0x100000);
    push_u32(&mut v, 1);
    push_u32(&mut v, 0);
    // sentinel
    push_u32(&mut v, 0);
    push_u32(&mut v, 8);
    v
}

#[test]
fn elf_sections_skip_unused_entries() {
    let b = load(0x30000, full_record()).unwrap();
    let tag = b.elf_sections_tag().unwrap();
    assert_eq!(tag.section_count(), 3);
    let mut it = tag.elf_sections();
    let s1 = it.next().unwrap();
    assert_eq!(s1.start_addr(), 0x10000);
    assert_eq!(s1.end_addr(), 0x12000);
    assert!(s1.is_allocated());
    let s2 = it.next().unwrap();
    assert_eq!(s2.start_addr(), 0x20000);
    assert!(it.next().is_none());
}

#[test]
fn section_names_stop_at_the_nul() {
    let table = ELFSTable { data: b"\0.text\0.bss\0".to_vec() };
    let s = header(0, 0, 1, 0);
    let mut named = s;
    named.sh_name = 1;
    assert_eq!(table.section_name(&named), b".text".to_vec());
    named.sh_name = 7;
    assert_eq!(table.section_name(&named), b".bss".to_vec());
    named.sh_name = 0;
    assert_eq!(table.section_name(&named), Vec::<u8>::new());
}

#[test]
fn remap_covers_sections_and_leaves_the_guard() {
    let b = load(0x30000, full_record()).unwrap();
    let tag = MMapTag {
        esize: 24,
        ever: 0,
        areas: vec![MemArea { base: 0x100000, len: 0x100000, typ: 1 }],
    };
    let mut a = AreaAllocator::new(0, 0, 0, 0, tag.memo());
    // the loader's top-level table sits in the first kernel section
    let at = ActivePTable::new(InactivePTable::new(Frame { i: 0x10 }).map);
    let mut at = kernel_remap(&mut a, &b, at);
    // the old top-level frame's page became the guard below the stack
    assert_eq!(at.map.translate_vtop(0x10000), None);
    // the rest of the kernel sections are identity mapped
    assert_eq!(at.map.translate_vtop(0x11000), Some(0x11000));
    assert_eq!(at.map.translate_vtop(0x20000), Some(0x20000));
    // so are the console frame and the boot record
    assert_eq!(at.map.translate_vtop(0xB8000), Some(0xB8000));
    assert_eq!(at.map.translate_vtop(0x30000), Some(0x30000));
    assert_eq!(at.map.translate_vtop(0x30037), Some(0x30037));
    // and nothing else is mapped
    assert_eq!(at.map.translate_vtop(0x50000), None);
    assert_eq!(at.map.translate_vtop(0x13000), None);
}

#[test]
fn kernel_bounds_over_the_sections() {
    let b = load(0x30000, full_record()).unwrap();
    let tag = b.elf_sections_tag().unwrap();
    let (lo, hi) = kcore::control::kernel_bounds(&tag).unwrap();
    assert_eq!(lo, 0x10000);
    assert_eq!(hi, 0x21000);
}

#[test]
fn heap_region_gets_mapped() {
    let tag = MMapTag {
        esize: 24,
        ever: 0,
        areas: vec![MemArea { base: 0x100000, len: 0x100000, typ: 1 }],
    };
    let mut a = AreaAllocator::new(0, 0, 0, 0, tag.memo());
    let mut at = ActivePTable::new(InactivePTable::new(Frame { i: 0x10 }).map);
    kcore::control::map_heap(&mut at, &mut a);
    // the whole heap region translates, page by page
    assert!(at.map.translate_vtop(kcore::globals::HEAP_START).is_some());
    assert!(at.map.translate_vtop(kcore::globals::HEAP_START + kcore::globals::HEAP_SIZE - 1).is_some());
    // the page past the region does not
    assert_eq!(at.map.translate_vtop(kcore::globals::HEAP_START + kcore::globals::HEAP_SIZE), None);
}

#[test]
fn module_and_loader_name_decode() {
    let mut v = Vec::new();
    push_u32(&mut v, 56);  // total_size
    push_u32(&mut v, 0);
    push_u32(&mut v, 2);  // loader-name section at offset 8
    push_u32(&mut v, 12);  // 8 header bytes + "gru\0"
    v.extend_from_slice(b"gru\0");
    push_u32(&mut v, 0);  // padding to the next 8-byte boundary
    push_u32(&mut v, 3);  // module section at offset 24
    push_u32(&mut v, 20);  // 16 header bytes + "m0\0\0"
    push_u32(&mut v, 0x5000);
    push_u32(&mut v, 0x6000);
    v.extend_from_slice(b"m0\0\0");
    push_u32(&mut v, 0);  // padding to the next 8-byte boundary
    push_u32(&mut v, 0);  // sentinel at offset 48
    push_u32(&mut v, 8);
    let b = load(0x40000, v).unwrap();
    let name = b.boot_loader_name_tag().unwrap();
    assert_eq!(name.name(), &b"gru\0".to_vec());
    let module = b.module_tag().unwrap();
    assert_eq!(module.start_addr(), 0x5000);
    assert_eq!(module.end_addr(), 0x6000);
    assert_eq!(module.name(), &b"m0\0\0".to_vec());
}
