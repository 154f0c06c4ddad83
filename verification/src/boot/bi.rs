//! The boot record itself: a byte buffer the loader placed in memory,
//! walked as 8-byte-aligned tagged sections terminated by a sentinel.

use vstd::prelude::*;

use crate::boot::bytes::{le32, le64, read_u16, read_u32, read_u64};
use crate::boot::elf::{ElfSectionHeader, ElfSectionTag};
use crate::boot::mmap::{MMapTag, MemArea};
use crate::boot::tags::{BootNameTag, ModuleTag};

verus! {

/// The next tag starts at the 8-byte boundary after the current tag's
/// bytes.
pub open spec fn align8(x: int) -> int {
    ((x + 7) / 8) * 8
}

/// The offset of the first tag of the given type at or after `off`, walking
/// the record: the walk ends at the sentinel tag, at a malformed size, or
/// past the end of the buffer.
pub open spec fn spec_find(b: Seq<u8>, off: int, typ: int) -> Option<int>
    decreases b.len() - off,
{
    if off < 0 || off + 8 > b.len() {
        None
    } else if le32(b, off) == 0 && le32(b, off + 4) == 8 {
        None
    } else if le32(b, off + 4) < 8 {
        None
    } else if le32(b, off) == typ {
        Some(off)
    } else {
        let next = align8(off + le32(b, off + 4));
        if next <= off || next > b.len() {
            None
        } else {
            spec_find(b, next, typ)
        }
    }
}

/// A boot record: its physical address and its bytes.
pub struct BootInfo {
    pub base: u64,
    pub bytes: Vec<u8>,
}

impl BootInfo {
    /// The record announces its own length, is long enough for its header
    /// and the sentinel, and ends with the sentinel tag `{0, 8}`.
    pub open spec fn wf(&self) -> bool {
        &&& self.bytes@.len() == le32(self.bytes@, 0)
        &&& self.bytes@.len() >= 16
        &&& le32(self.bytes@, self.bytes@.len() - 8) == 0
        &&& le32(self.bytes@, self.bytes@.len() - 4) == 8
        &&& self.base + self.bytes@.len() <= u64::MAX
    }

    /// The record's physical address.
    pub fn start_addr(&self) -> (r: u64)
        ensures
            r == self.base,
    {
        self.base
    }

    /// One past the record's last byte.
    pub fn end_addr(&self) -> (r: u64)
        requires
            self.wf(),
        ensures
            r == self.base + self.bytes@.len(),
    {
        self.base + self.bytes.len() as u64
    }

    /// The record's total size in bytes.
    pub fn total_size(&self) -> (r: u32)
        requires
            self.wf(),
        ensures
            r == self.bytes@.len(),
    {
        read_u32(&self.bytes, 0)
    }

    /// Walk the record's tags.
    pub fn tags(&self) -> (r: TagIter)
        ensures
            r.off == 8,
    {
        TagIter { off: 8 }
    }

    /// The offset of the first tag of the given type, if the walk reaches
    /// one.
    pub fn get_tag(&self, typ: u32) -> (r: Option<usize>)
        requires
            self.wf(),
        ensures
            match r {
                Some(off) => spec_find(self.bytes@, 8, typ as int) == Some(off as int) && off
                    + 8 <= self.bytes@.len() && le32(self.bytes@, off as int) == typ && le32(
                    self.bytes@,
                    off + 4,
                ) >= 8,
                None => spec_find(self.bytes@, 8, typ as int) is None,
            },
    {
        let mut it = self.tags();
        loop
            invariant
                self.wf(),
                8 <= it.off,
                spec_find(self.bytes@, 8, typ as int) == spec_find(
                    self.bytes@,
                    it.off as int,
                    typ as int,
                ),
            decreases self.bytes@.len() - it.off,
        {
            if it.off > self.bytes.len() || self.bytes.len() - it.off < 8 {
                return None;
            }
            let t = read_u32(&self.bytes, it.off);
            let sz = read_u32(&self.bytes, it.off + 4);
            if t == 0 && sz == 8 {
                return None;
            }
            if sz < 8 {
                return None;
            }
            if t == typ {
                return Some(it.off);
            }
            let ghost off0 = it.off as int;
            let next64: u64 = ((it.off as u64) + (sz as u64) + 7) / 8 * 8;
            proof {
                assert(align8(off0 + sz as int) == next64) by (nonlinear_arith)
                    requires
                        next64 == ((off0 + sz as int + 7) / 8) * 8,
                        align8(off0 + sz as int) == ((off0 + sz as int + 7) / 8) * 8,
                ;
                assert(next64 >= off0 + 8) by (nonlinear_arith)
                    requires
                        next64 == ((off0 + sz as int + 7) / 8) * 8,
                        sz >= 8,
                        off0 >= 0,
                ;
            }
            if next64 > self.bytes.len() as u64 {
                return None;
            }
            it.off = (next64) as usize;
        }
    }

    /// The memory-map section, decoded, if the record carries one.
    pub fn memory_map_tag(&self) -> (r: Option<MMapTag>)
        requires
            self.wf(),
        ensures
            r is Some <==> spec_find(self.bytes@, 8, 6) is Some,
            match r {
                Some(tag) => ({
                    let off = spec_find(self.bytes@, 8, 6).unwrap();
                    tag.areas@ == spec_mmap_areas(
                        self.bytes@,
                        off + 16,
                        off + le32(self.bytes@, off + 4),
                        le32(self.bytes@, off + 8),
                    )
                }),
                None => true,
            },
    {
        let off = match self.get_tag(6) {
            Some(o) => o,
            None => {
                return None;
            },
        };
        let size = read_u32(&self.bytes, off + 4);
        if self.bytes.len() - off < 16 {
            proof {
                assert(spec_mmap_areas(
                    self.bytes@,
                    off + 16,
                    off + size as int,
                    le32(self.bytes@, off + 8),
                ) =~= Seq::<MemArea>::empty());
            }
            return Some(MMapTag { esize: 0, ever: 0, areas: Vec::new() });
        }
        if size < 16 {
            proof {
                assert(spec_mmap_areas(
                    self.bytes@,
                    off + 16,
                    off + size as int,
                    le32(self.bytes@, off + 8),
                ) =~= Seq::<MemArea>::empty());
            }
            return Some(MMapTag { esize: 0, ever: 0, areas: Vec::new() });
        }
        let esize = read_u32(&self.bytes, off + 8);
        let ever = read_u32(&self.bytes, off + 12);
        let ghost endo = off + size as int;
        proof {
            assert(self.bytes@.len() < 0x1_0000_0000);
        }
        let mut areas: Vec<MemArea> = Vec::new();
        let mut cur: u64 = (off as u64) + 16;
        while esize >= 24 && cur + 24 <= (off as u64) + (size as u64) && cur + 24 <= (
        self.bytes.len() as u64)
            invariant
                self.wf(),
                off + 16 <= cur,
                cur <= endo + esize,
                off + 16 <= self.bytes@.len(),
                self.bytes@.len() < 0x1_0000_0000,
                endo == off + size as int,
                off + size >= 16,
                spec_mmap_areas(self.bytes@, off + 16, endo, esize as int) == areas@
                    + spec_mmap_areas(self.bytes@, cur as int, endo, esize as int),
            decreases endo + esize - cur,
        {
            let cu = cur as usize;
            proof {
                assert(cu == cur);
            }
            let base = read_u64(&self.bytes, cu);
            let len = read_u64(&self.bytes, cu + 8);
            let typ = read_u32(&self.bytes, cu + 16);
            let ghost pre_areas = areas@;
            areas.push(MemArea { base, len, typ });
            proof {
                assert(spec_mmap_areas(self.bytes@, cur as int, endo, esize as int) == seq![
                    MemArea {
                        base: le64(self.bytes@, cur as int) as u64,
                        len: le64(self.bytes@, cur + 8) as u64,
                        typ: le32(self.bytes@, cur + 16) as u32,
                    },
                ] + spec_mmap_areas(self.bytes@, cur + esize, endo, esize as int));
                assert(areas@ + spec_mmap_areas(self.bytes@, cur + esize, endo, esize as int)
                    =~= pre_areas + spec_mmap_areas(self.bytes@, cur as int, endo, esize as int));
            }
            cur = cur + esize as u64;
        }
        proof {
            assert(spec_mmap_areas(self.bytes@, cur as int, endo, esize as int)
                =~= Seq::<MemArea>::empty());
            assert(areas@ =~= spec_mmap_areas(self.bytes@, off + 16, endo, esize as int));
        }
        Some(MMapTag { esize, ever, areas })
    }
}

/// The section header whose bytes start at `cur`, with the field layout
/// the kernel reads.
pub open spec fn spec_elf_header(b: Seq<u8>, cur: int) -> ElfSectionHeader {
    ElfSectionHeader {
        sh_name: le32(b, cur) as u32,
        sh_type: le32(b, cur + 4) as u32,
        sh_link: le32(b, cur + 8) as u32,
        sh_info: le32(b, cur + 12) as u32,
        sh_size: le64(b, cur + 16) as u64,
        sh_addr: le64(b, cur + 24) as u64,
        sh_flags: le64(b, cur + 32) as u64,
        sh_offset: le64(b, cur + 40) as u64,
        sh_entsize: le64(b, cur + 48) as u64,
        sh_addralign: le64(b, cur + 56) as u64,
    }
}

/// The `n` section headers from `cur` with stride `esize`; the decode stops
/// at a malformed stride or at the end of the buffer.
pub open spec fn spec_elf_headers(b: Seq<u8>, cur: int, n: int, esize: int) -> Seq<
    ElfSectionHeader,
>
    decreases n,
{
    if n <= 0 || esize < 64 || cur < 0 || cur + 64 > b.len() {
        Seq::empty()
    } else {
        seq![spec_elf_header(b, cur)] + spec_elf_headers(b, cur + esize, n - 1, esize)
    }
}

impl BootInfo {
    /// The ELF-sections section, decoded, if the record carries one.
    pub fn elf_sections_tag(&self) -> (r: Option<ElfSectionTag>)
        requires
            self.wf(),
        ensures
            r is Some <==> spec_find(self.bytes@, 8, 9) is Some,
            match r {
                Some(tag) => ({
                    let off = spec_find(self.bytes@, 8, 9).unwrap();
                    tag.sections@ == spec_elf_headers(
                        self.bytes@,
                        off + 20,
                        le32(self.bytes@, off + 8),
                        le32(self.bytes@, off + 12),
                    )
                }),
                None => true,
            },
    {
        let off = match self.get_tag(9) {
            Some(o) => o,
            None => {
                return None;
            },
        };
        proof {
            assert(self.bytes@.len() < 0x1_0000_0000);
        }
        if self.bytes.len() - off < 20 {
            proof {
                assert(spec_elf_headers(
                    self.bytes@,
                    off + 20,
                    le32(self.bytes@, off + 8),
                    le32(self.bytes@, off + 12),
                ) =~= Seq::<ElfSectionHeader>::empty());
            }
            return Some(
                ElfSectionTag {
                    size: read_u32(&self.bytes, off + 4),
                    esize: 0,
                    shndx: 0,
                    sections: Vec::new(),
                },
            );
        }
        let size = read_u32(&self.bytes, off + 4);
        let num = read_u32(&self.bytes, off + 8);
        let esize = read_u32(&self.bytes, off + 12);
        let shndx = read_u16(&self.bytes, off + 18);
        let mut sections: Vec<ElfSectionHeader> = Vec::new();
        let mut cur: u64 = (off as u64) + 20;
        let mut k: u32 = 0;
        while k < num && esize >= 64 && cur + 64 <= (self.bytes.len() as u64)
            invariant
                self.wf(),
                self.bytes@.len() < 0x1_0000_0000,
                off + 20 <= cur,
                cur <= 0x2_0000_0000,
                k <= num,
                cur == off + 20 + k * esize,
                spec_elf_headers(self.bytes@, off + 20, num as int, esize as int) == sections@
                    + spec_elf_headers(self.bytes@, cur as int, num - k, esize as int),
            decreases num - k,
        {
            let cu = cur as usize;
            let h = ElfSectionHeader {
                sh_name: read_u32(&self.bytes, cu),
                sh_type: read_u32(&self.bytes, cu + 4),
                sh_link: read_u32(&self.bytes, cu + 8),
                sh_info: read_u32(&self.bytes, cu + 12),
                sh_size: read_u64(&self.bytes, cu + 16),
                sh_addr: read_u64(&self.bytes, cu + 24),
                sh_flags: read_u64(&self.bytes, cu + 32),
                sh_offset: read_u64(&self.bytes, cu + 40),
                sh_entsize: read_u64(&self.bytes, cu + 48),
                sh_addralign: read_u64(&self.bytes, cu + 56),
            };
            let ghost pre = sections@;
            sections.push(h);
            proof {
                assert(h == spec_elf_header(self.bytes@, cur as int));
                assert(spec_elf_headers(self.bytes@, cur as int, num - k, esize as int) == seq![
                    spec_elf_header(self.bytes@, cur as int),
                ] + spec_elf_headers(self.bytes@, cur + esize, num - k - 1, esize as int));
                assert(sections@ + spec_elf_headers(
                    self.bytes@,
                    cur + esize,
                    num - k - 1,
                    esize as int,
                ) =~= pre + spec_elf_headers(self.bytes@, cur as int, num - k, esize as int));
                assert(cur + esize == off + 20 + (k + 1) * esize) by (nonlinear_arith)
                    requires
                        cur == off + 20 + k * esize,
                ;

            }
            cur = cur + esize as u64;
            k = k + 1;
        }
        proof {
            assert(spec_elf_headers(self.bytes@, cur as int, num - k, esize as int)
                =~= Seq::<ElfSectionHeader>::empty());
            assert(sections@ =~= spec_elf_headers(
                self.bytes@,
                off + 20,
                num as int,
                esize as int,
            ));
        }
        Some(ElfSectionTag { size, esize, shndx, sections })
    }

    /// The module section, if the record carries one: the module's range
    /// and its name bytes.
    pub fn module_tag(&self) -> (r: Option<ModuleTag>)
        requires
            self.wf(),
        ensures
            r is Some <==> spec_find(self.bytes@, 8, 3) is Some,
            match r {
                Some(t) => ({
                    let off = spec_find(self.bytes@, 8, 3).unwrap();
                    let sz = le32(self.bytes@, off + 4);
                    let blen = self.bytes@.len() as int;
                    &&& (blen - off >= 16 ==> t.start == le32(self.bytes@, off + 8) && t.end
                        == le32(self.bytes@, off + 12) && t.size == sz)
                    &&& (blen - off >= 16 && sz >= 16 && off + 16 < blen
                        ==> t.name_bytes@ == self.bytes@.subrange(
                        off + 16,
                        off + 16 + (if sz - 16 < blen - (off + 16) {
                            sz - 16
                        } else {
                            blen - (off + 16)
                        }),
                    ))
                    &&& (blen - off >= 16 && (sz < 16 || off + 16 >= blen)
                        ==> t.name_bytes@ == Seq::<u8>::empty())
                    &&& (blen - off < 16 ==> t.name_bytes@ == Seq::<u8>::empty())
                }),
                None => true,
            },
    {
        let off = match self.get_tag(3) {
            Some(o) => o,
            None => {
                return None;
            },
        };
        proof {
            assert(self.bytes@.len() < 0x1_0000_0000);
        }
        if self.bytes.len() - off < 16 {
            return Some(
                ModuleTag {
                    typ: 3,
                    size: read_u32(&self.bytes, off + 4),
                    start: 0,
                    end: 0,
                    name_bytes: Vec::new(),
                },
            );
        }
        let size = read_u32(&self.bytes, off + 4);
        let start = read_u32(&self.bytes, off + 8);
        let end = read_u32(&self.bytes, off + 12);
        let name_bytes = self.copy_range(off + 16, size as usize, 16);
        Some(ModuleTag { typ: 3, size, start, end, name_bytes })
    }

    /// The loader-name section, if the record carries one.
    pub fn boot_loader_name_tag(&self) -> (r: Option<BootNameTag>)
        requires
            self.wf(),
        ensures
            r is Some <==> spec_find(self.bytes@, 8, 2) is Some,
            match r {
                Some(t) => ({
                    let off = spec_find(self.bytes@, 8, 2).unwrap();
                    let sz = le32(self.bytes@, off + 4);
                    let blen = self.bytes@.len() as int;
                    &&& t.size == sz
                    &&& (sz >= 8 && off + 8 < blen ==> t.name_bytes@ == self.bytes@.subrange(
                        off + 8,
                        off + 8 + (if sz - 8 < blen - (off + 8) {
                            sz - 8
                        } else {
                            blen - (off + 8)
                        }),
                    ))
                    &&& (sz < 8 || off + 8 >= blen ==> t.name_bytes@ == Seq::<u8>::empty())
                }),
                None => true,
            },
    {
        let off = match self.get_tag(2) {
            Some(o) => o,
            None => {
                return None;
            },
        };
        let size = read_u32(&self.bytes, off + 4);
        let name_bytes = self.copy_range(off + 8, size as usize, 8);
        Some(BootNameTag { typ: 2, size, name_bytes })
    }

    /// Copy the `size - hdr` payload bytes of the tag at `start`, stopping
    /// at the end of the buffer.
    fn copy_range(&self, start: usize, size: usize, hdr: usize) -> (r: Vec<u8>)
        requires
            self.wf(),
        ensures
            size >= hdr && start < self.bytes@.len() ==> r@ == self.bytes@.subrange(
                start as int,
                start + if size - hdr < self.bytes@.len() - start {
                    (size - hdr) as int
                } else {
                    self.bytes@.len() - start
                },
            ),
            size < hdr || start >= self.bytes@.len() ==> r@ == Seq::<u8>::empty(),
    {
        let mut r: Vec<u8> = Vec::new();
        if size < hdr {
            proof {
                assert(r@ =~= Seq::<u8>::empty());
            }
            return r;
        }
        let want = size - hdr;
        if start >= self.bytes.len() {
            proof {
                assert(r@ =~= Seq::<u8>::empty());
            }
            return r;
        }
        let room = self.bytes.len() - start;
        let count = if want < room {
            want
        } else {
            room
        };
        let mut k: usize = 0;
        while k < count
            invariant
                k <= count,
                start + count <= self.bytes.len(),
                r@ == self.bytes@.subrange(start as int, start + k),
            decreases count - k,
        {
            r.push(self.bytes[start + k]);
            proof {
                assert(r@ =~= self.bytes@.subrange(start as int, start + k + 1));
            }
            k = k + 1;
        }
        r
    }
}

/// The memory-map entries from `cur` to `endo` with stride `esize`.
pub open spec fn spec_mmap_areas(b: Seq<u8>, cur: int, endo: int, esize: int) -> Seq<MemArea>
    decreases endo + esize - cur,
{
    if esize < 24 || cur > endo - 24 || cur + 24 > b.len() || cur < 0 {
        Seq::empty()
    } else {
        seq![
            MemArea {
                base: le64(b, cur) as u64,
                len: le64(b, cur + 8) as u64,
                typ: le32(b, cur + 16) as u32,
            },
        ] + spec_mmap_areas(b, cur + esize, endo, esize)
    }
}

/// Walks the record's tags by offset.
pub struct TagIter {
    pub off: usize,
}

/// Check that the record carries its sentinel and take it as a boot record.
pub fn load(addr: u64, bytes: Vec<u8>) -> (r: Option<BootInfo>)
    requires
        addr + bytes@.len() <= u64::MAX,
    ensures
        match r {
            Some(b) => b.wf() && b.base == addr && b.bytes@ == bytes@,
            None => !(BootInfo { base: addr, bytes }).wf(),
        },
{
    if bytes.len() < 16 {
        return None;
    }
    let total = read_u32(&bytes, 0);
    if total as usize != bytes.len() {
        return None;
    }
    let et = read_u32(&bytes, bytes.len() - 8);
    let es = read_u32(&bytes, bytes.len() - 4);
    if et == 0 && es == 8 {
        Some(BootInfo { base: addr, bytes })
    } else {
        None
    }
}

} // verus!
