//! The ELF-sections section of the boot record: the kernel image's section
//! headers, which drive the permissions of the kernel remap.

use vstd::prelude::*;

verus! {

/// The section occupies memory at run time.
pub const ELF_SECTION_WRITABLE: u64 = 0x1;

/// The section is loaded.
pub const ELF_SECTION_ALLOCATED: u64 = 0x2;

/// The section holds executable code.
pub const ELF_SECTION_EXECUTABLE: u64 = 0x4;

/// The size of one section header in the boot record.
pub const ELF_SECTION_HEADER_SIZE: u64 = 64;

/// The defined kinds of ELF sections; only `Unused` matters to the walk,
/// which skips such entries.
#[derive(Clone, Copy, PartialEq, Eq, Structural, Debug)]
pub enum ElfSectionType {
    Unused,
    ProgramSection,
    LinkerSymbolTable,
    StringTable,
    RelaRelocation,
    SymbolHashTable,
    DynamicLinkingTable,
    Note,
    Uninitialized,
    RelRelocation,
    Reserved,
    DynamicLoaderSymbolTable,
}

/// One ELF64 section header, as laid out in the boot record.
#[derive(Clone, Copy, PartialEq, Eq, Structural, Debug)]
pub struct ElfSectionHeader {
    pub sh_name: u32,
    pub sh_type: u32,
    pub sh_link: u32,
    pub sh_info: u32,
    pub sh_size: u64,
    pub sh_addr: u64,
    pub sh_flags: u64,
    pub sh_offset: u64,
    pub sh_entsize: u64,
    pub sh_addralign: u64,
}

impl ElfSectionHeader {
    /// The section's type number.
    pub fn section_type(&self) -> (r: u32)
        ensures
            r == self.sh_type,
    {
        self.sh_type
    }

    /// The first address of the section.
    pub fn start_addr(&self) -> (r: u64)
        ensures
            r == self.sh_addr,
    {
        self.sh_addr
    }

    /// One past the last address of the section.
    pub fn end_addr(&self) -> (r: u64)
        requires
            self.sh_addr + self.sh_size <= u64::MAX,
        ensures
            r == self.sh_addr + self.sh_size,
    {
        self.sh_addr + self.sh_size
    }

    /// The section's size in bytes.
    pub fn size(&self) -> (r: u64)
        ensures
            r == self.sh_size,
    {
        self.sh_size
    }

    /// The size of one entry, for table-like sections.
    pub fn entry_size(&self) -> (r: u64)
        ensures
            r == self.sh_entsize,
    {
        self.sh_entsize
    }

    /// The raw flag word.
    pub fn fflg(&self) -> (r: u64)
        ensures
            r == self.sh_flags,
    {
        self.sh_flags
    }

    /// The flag word, for mask tests.
    pub fn flags(&self) -> (r: ElfSectionFlags)
        ensures
            r.0 == self.sh_flags,
    {
        ElfSectionFlags(self.sh_flags)
    }

    /// The section occupies memory at run time.
    pub fn is_allocated(&self) -> (r: bool)
        ensures
            r == (self.sh_flags & ELF_SECTION_ALLOCATED == ELF_SECTION_ALLOCATED),
    {
        self.flags().contains(ELF_SECTION_ALLOCATED)
    }
}

/// The flag word of a section, tested bit by bit.
#[derive(Clone, Copy, PartialEq, Eq, Structural, Debug)]
pub struct ElfSectionFlags(pub u64);

impl ElfSectionFlags {
    /// All bits of `m` are set.
    pub fn contains(&self, m: u64) -> (r: bool)
        ensures
            r == (self.0 & m == m),
    {
        self.0 & m == m
    }
}

/// The used section headers of a list: those whose type is not `Unused`.
pub open spec fn used_sections(hs: Seq<ElfSectionHeader>) -> Seq<ElfSectionHeader>
    decreases hs.len(),
{
    if hs.len() == 0 {
        Seq::empty()
    } else if hs[0].sh_type != 0 {
        seq![hs[0]] + used_sections(hs.skip(1))
    } else {
        used_sections(hs.skip(1))
    }
}

/// Every used section is one of the listed sections.
pub proof fn lemma_used_sections_sub(hs: Seq<ElfSectionHeader>, i: int)
    requires
        0 <= i < used_sections(hs).len(),
    ensures
        exists|k: int| 0 <= k < hs.len() && hs[k] == used_sections(hs)[i],
    decreases hs.len(),
{
    if hs.len() > 0 {
        if hs[0].sh_type != 0 {
            if i == 0 {
                assert(hs[0] == used_sections(hs)[0]);
            } else {
                lemma_used_sections_sub(hs.skip(1), i - 1);
                let k = choose|k: int|
                    0 <= k < hs.skip(1).len() && hs.skip(1)[k] == used_sections(hs.skip(1))[i
                        - 1];
                assert(hs[k + 1] == used_sections(hs)[i]);
            }
        } else {
            lemma_used_sections_sub(hs.skip(1), i);
            let k = choose|k: int|
                0 <= k < hs.skip(1).len() && hs.skip(1)[k] == used_sections(hs.skip(1))[i];
            assert(hs[k + 1] == used_sections(hs)[i]);
        }
    }
}

/// The ELF-sections section: the counts the loader wrote and the decoded
/// section headers.
pub struct ElfSectionTag {
    pub size: u32,
    pub esize: u32,
    pub shndx: u16,
    pub sections: Vec<ElfSectionHeader>,
}

impl ElfSectionTag {
    /// Iterate over the used section headers.
    pub fn elf_sections(&self) -> (r: ElfSectionIter)
        ensures
            r.sections@ == self.sections@,
            r.pos == 0,
            r.wf(),
    {
        let mut v: Vec<ElfSectionHeader> = Vec::new();
        let mut i: usize = 0;
        while i < self.sections.len()
            invariant
                i <= self.sections@.len(),
                v@ == self.sections@.subrange(0, i as int),
            decreases self.sections@.len() - i,
        {
            v.push(self.sections[i]);
            proof {
                assert(v@ =~= self.sections@.subrange(0, i + 1));
            }
            i = i + 1;
        }
        proof {
            assert(v@ =~= self.sections@);
        }
        ElfSectionIter { sections: v, pos: 0 }
    }

    /// How many section headers the record holds.
    pub fn section_count(&self) -> (r: usize)
        ensures
            r == self.sections@.len(),
    {
        self.sections.len()
    }

    /// The record's size in bytes.
    pub fn size(&self) -> (r: u32)
        ensures
            r == self.size,
    {
        self.size
    }

    /// The size of one section header as the loader wrote it.
    pub fn esize(&self) -> (r: u32)
        ensures
            r == self.esize,
    {
        self.esize
    }

    /// Which section holds the section-name string table.
    pub fn string_table_index(&self) -> (r: u16)
        ensures
            r == self.shndx,
    {
        self.shndx
    }
}

/// Walks the section headers, yielding only the used ones.
pub struct ElfSectionIter {
    pub sections: Vec<ElfSectionHeader>,
    pub pos: usize,
}

impl ElfSectionIter {
    /// The cursor never passes the end of the list.
    pub open spec fn wf(&self) -> bool {
        self.pos <= self.sections@.len()
    }

    /// The used sections this iterator has yet to yield.
    pub open spec fn remaining(&self) -> Seq<ElfSectionHeader> {
        used_sections(self.sections@.skip(self.pos as int))
    }

    /// The next used section header, skipping unused entries.
    pub fn next(&mut self) -> (r: Option<ElfSectionHeader>)
        requires
            old(self).wf(),
        ensures
            final(self).wf(),
            final(self).sections@ == old(self).sections@,
            match r {
                Some(s) => old(self).remaining().len() > 0 && s == old(self).remaining()[0]
                    && final(self).remaining() == old(self).remaining().skip(1),
                None => old(self).remaining().len() == 0 && final(self).remaining() == old(
                    self,
                ).remaining(),
            },
    {
        while self.pos < self.sections.len() && self.sections[self.pos].sh_type == 0
            invariant
                self.sections@ == old(self).sections@,
                old(self).pos <= self.pos <= self.sections@.len(),
                used_sections(self.sections@.skip(self.pos as int)) == old(self).remaining(),
            decreases self.sections@.len() - self.pos,
        {
            proof {
                let t = self.sections@.skip(self.pos as int);
                assert(t[0] == self.sections@[self.pos as int]);
                assert(t.skip(1) =~= self.sections@.skip(self.pos + 1));
            }
            self.pos = self.pos + 1;
        }
        if self.pos < self.sections.len() {
            let s = self.sections[self.pos];
            proof {
                let t = self.sections@.skip(self.pos as int);
                assert(t[0] == s);
                assert(t.skip(1) =~= self.sections@.skip(self.pos + 1));
                assert((seq![s] + used_sections(self.sections@.skip(self.pos + 1))).skip(1)
                    =~= used_sections(self.sections@.skip(self.pos + 1)));
            }
            self.pos = self.pos + 1;
            Some(s)
        } else {
            proof {
                assert(self.sections@.skip(self.pos as int) =~= Seq::<ElfSectionHeader>::empty());
            }
            None
        }
    }
}

/// The section-name string table: NUL-terminated names packed into one
/// section's bytes.
pub struct ELFSTable {
    pub data: Vec<u8>,
}

/// The length of the name starting at `off`: the distance to the first NUL
/// byte, or to the end of the table when none follows.
pub open spec fn name_len(data: Seq<u8>, off: int, n: nat) -> int
    decreases n,
{
    if n == 0 || off >= data.len() {
        0
    } else if data[off] == 0 {
        0
    } else {
        1 + name_len(data, off + 1, (n - 1) as nat)
    }
}

impl ELFSTable {
    /// The name of the given section: the bytes from its name offset up to
    /// the first NUL.
    pub fn section_name(&self, s: &ElfSectionHeader) -> (r: Vec<u8>)
        requires
            s.sh_name <= self.data.len(),
        ensures
            r@.len() == name_len(self.data@, s.sh_name as int, (self.data@.len()
                - s.sh_name) as nat),
            r@ == self.data@.subrange(s.sh_name as int, s.sh_name + r@.len()),
            forall|k: int| 0 <= k < r@.len() ==> r@[k] != 0,
    {
        let start = s.sh_name as usize;
        let mut len: usize = 0;
        while start + len < self.data.len() && self.data[start + len] != 0
            invariant
                start == s.sh_name,
                start <= self.data.len(),
                start + len <= self.data.len(),
                name_len(self.data@, start as int, (self.data@.len() - start) as nat) == len
                    + name_len(
                    self.data@,
                    start + len,
                    (self.data@.len() - start - len) as nat,
                ),
                forall|k: int| start <= k < start + len ==> self.data@[k] != 0,
            decreases self.data@.len() - start - len,
        {
            len = len + 1;
        }
        let mut r: Vec<u8> = Vec::new();
        let mut k: usize = 0;
        while k < len
            invariant
                k <= len,
                start + len <= self.data.len(),
                r@ == self.data@.subrange(start as int, start + k),
            decreases len - k,
        {
            r.push(self.data[start + k]);
            proof {
                assert(r@ =~= self.data@.subrange(start as int, start + k + 1));
            }
            k = k + 1;
        }
        proof {
            assert(name_len(self.data@, start + len, (self.data@.len() - start - len) as nat)
                == 0);
        }
        r
    }
}

} // verus!
