//! A page-table entry: 64 bits carrying a frame base and the architecture's
//! flag bits.

use vstd::prelude::*;

use crate::boot::elf::{
    ElfSectionHeader, ELF_SECTION_ALLOCATED, ELF_SECTION_EXECUTABLE, ELF_SECTION_WRITABLE,
};
use crate::frame::{Frame, MAX_FRAME};
use crate::globals::PAGE_SIZE;

verus! {

/// The entry maps something.
pub const PRESENT: u64 = 0x1;

/// The mapped page is writable.
pub const WRITABLE: u64 = 0x2;

/// The mapped page is reachable from user mode.
pub const USER_ACCESSIBLE: u64 = 0x4;

/// Writes go straight to memory.
pub const WRITE_THROUGH: u64 = 0x8;

/// No cache is used for the page.
pub const NO_CACHE: u64 = 0x10;

/// The CPU has read through this entry.
pub const ACCESSED: u64 = 0x20;

/// The CPU has written through this entry.
pub const DIRTY: u64 = 0x40;

/// The entry maps a large page directly.
pub const HUGE_PAGE: u64 = 0x80;

/// The mapping survives address-space switches.
pub const GLOBAL: u64 = 0x100;

/// Code in the mapped page may not be executed.
pub const NO_EXECUTE: u64 = 0x8000_0000_0000_0000;

/// All flag bits an entry may carry.
pub const FLAG_BITS: u64 = 0x8000_0000_0000_01FF;

/// The bits of an entry that carry the frame base.
pub const ADDR_MASK: u64 = 0x000F_FFFF_FFFF_F000;

/// The entry's present bit is set.
pub open spec fn e_present(e: u64) -> bool {
    e & PRESENT == PRESENT
}

/// The entry's huge-page bit is set.
pub open spec fn e_huge(e: u64) -> bool {
    e & HUGE_PAGE == HUGE_PAGE
}

/// The entry's writable bit is set.
pub open spec fn e_writable(e: u64) -> bool {
    e & WRITABLE == WRITABLE
}

/// The frame index an entry points to.
pub open spec fn e_frame(e: u64) -> int {
    (e & ADDR_MASK) as int / PAGE_SIZE as int
}

/// Packing a frame base and flags into an entry keeps both readable: the
/// address mask returns exactly the base, and every flag bit comes from the
/// flag word alone.
pub proof fn lemma_entry_pack(fi: u64, fl: u64)
    requires
        fi < MAX_FRAME,
        fl & ADDR_MASK == 0,
    ensures
        fi * PAGE_SIZE == (fi << 12u64),
        ((fi << 12u64) | fl) & ADDR_MASK == (fi << 12u64),
        e_frame((fi << 12u64) | fl) == fi,
        ((fi << 12u64) | fl) & PRESENT == fl & PRESENT,
        ((fi << 12u64) | fl) & HUGE_PAGE == fl & HUGE_PAGE,
        ((fi << 12u64) | fl) & WRITABLE == fl & WRITABLE,
        ((fi << 12u64) | fl) & FLAG_BITS == fl & FLAG_BITS,
        ((fi << 12u64) | fl) != 0 || fl & PRESENT != PRESENT,
{
    assert(fi * 4096 == (fi << 12u64)) by (bit_vector)
        requires
            fi < 0x100_0000_0000,
    ;
    assert(((fi << 12u64) | fl) & 0x000F_FFFF_FFFF_F000 == (fi << 12u64) && ((fi << 12u64) | fl)
        & 0x1 == fl & 0x1 && ((fi << 12u64) | fl) & 0x80 == fl & 0x80 && ((fi << 12u64) | fl)
        & 0x2 == fl & 0x2 && ((fi << 12u64) | fl) & 0x8000_0000_0000_01FF == fl
        & 0x8000_0000_0000_01FF && ((fi << 12u64) & 0x000F_FFFF_FFFF_F000) / 4096 == fi && (((fi
        << 12u64) | fl) == 0 ==> fl & 0x1 != 0x1)) by (bit_vector)
        requires
            fi < 0x100_0000_0000,
            fl & 0x000F_FFFF_FFFF_F000 == 0,
    ;
}

/// The entry flags a kernel section asks for, as a function of its flag
/// word: present when loaded, writable when writable, no-execute unless
/// executable.
pub open spec fn spec_section_flags(sh_flags: u64) -> u64 {
    (if sh_flags & ELF_SECTION_ALLOCATED == ELF_SECTION_ALLOCATED {
        PRESENT
    } else {
        0
    }) | (if sh_flags & ELF_SECTION_WRITABLE == ELF_SECTION_WRITABLE {
        WRITABLE
    } else {
        0
    }) | (if sh_flags & ELF_SECTION_EXECUTABLE == ELF_SECTION_EXECUTABLE {
        0
    } else {
        NO_EXECUTE
    })
}

/// The flags of a page-table entry, as a bit set drawn from the flag
/// constants of this module.
#[derive(Clone, Copy, PartialEq, Eq, Structural, Debug)]
pub struct EFlags(pub u64);

impl EFlags {
    /// No flag set.
    pub fn empty() -> (r: EFlags)
        ensures
            r.0 == 0,
    {
        EFlags(0)
    }

    /// Keep only the known flag bits of a raw word.
    pub fn from_bits_truncate(b: u64) -> (r: EFlags)
        ensures
            r.0 == b & FLAG_BITS,
    {
        EFlags(b & FLAG_BITS)
    }

    /// The raw bits.
    pub fn bits(&self) -> (r: u64)
        ensures
            r == self.0,
    {
        self.0
    }

    /// All bits of `m` are set.
    pub fn contains(&self, m: u64) -> (r: bool)
        ensures
            r == (self.0 & m == m),
    {
        self.0 & m == m
    }

    /// The flags with the bits of `m` also set.
    pub fn with(self, m: u64) -> (r: EFlags)
        ensures
            r.0 == self.0 | m,
    {
        EFlags(self.0 | m)
    }

    /// The entry flags a kernel section asks for: present when the section
    /// is loaded, writable when it is writable, and no-execute unless it
    /// holds code.
    pub fn from_elf_section_flags(section: &ElfSectionHeader) -> (r: EFlags)
        ensures
            r.0 == spec_section_flags(section.sh_flags),
            r.0 & ADDR_MASK == 0,
            !e_huge(r.0),
            e_present(r.0) == (section.sh_flags & ELF_SECTION_ALLOCATED
                == ELF_SECTION_ALLOCATED),
            e_writable(r.0) == (section.sh_flags & ELF_SECTION_WRITABLE
                == ELF_SECTION_WRITABLE),
    {
        let p: u64 = if section.flags().contains(ELF_SECTION_ALLOCATED) {
            PRESENT
        } else {
            0
        };
        let w: u64 = if section.flags().contains(ELF_SECTION_WRITABLE) {
            WRITABLE
        } else {
            0
        };
        let x: u64 = if section.flags().contains(ELF_SECTION_EXECUTABLE) {
            0
        } else {
            NO_EXECUTE
        };
        let b = p | w | x;
        proof {
            assert((p | w | x) & 0x000F_FFFF_FFFF_F000 == 0 && ((p | w | x) & 0x1 == 0x1) == (p
                == 0x1) && ((p | w | x) & 0x2 == 0x2) == (w == 0x2) && !((p | w | x) & 0x80
                == 0x80)) by (bit_vector)
                requires
                    p == 0x1u64 || p == 0u64,
                    w == 0x2u64 || w == 0u64,
                    x == 0x8000_0000_0000_0000u64 || x == 0u64,
            ;
        }
        EFlags(b)
    }
}

/// One page-table entry.
#[derive(Clone, Copy, PartialEq, Eq, Structural, Debug)]
pub struct Entry(pub u64);

impl Entry {
    /// The entry maps nothing and carries no stale bits.
    pub fn is_unused(&self) -> (r: bool)
        ensures
            r == (self.0 == 0),
    {
        self.0 == 0
    }

    /// Clear the entry entirely.
    pub fn set_unused(&mut self)
        ensures
            final(self).0 == 0,
    {
        self.0 = 0;
    }

    /// The flag bits of the entry.
    pub fn flags(&self) -> (r: EFlags)
        ensures
            r.0 == self.0 & FLAG_BITS,
    {
        EFlags::from_bits_truncate(self.0)
    }

    /// The entry's present bit.
    pub fn is_present(&self) -> (r: bool)
        ensures
            r == e_present(self.0),
    {
        self.0 & PRESENT == PRESENT
    }

    /// The entry's huge-page bit.
    pub fn is_huge(&self) -> (r: bool)
        ensures
            r == e_huge(self.0),
    {
        self.0 & HUGE_PAGE == HUGE_PAGE
    }

    /// The frame the entry points to, when it is present.
    pub fn pointed_frame(&self) -> (r: Option<Frame>)
        ensures
            match r {
                Some(f) => e_present(self.0) && f.i == e_frame(self.0),
                None => !e_present(self.0),
            },
    {
        if self.flags().contains(PRESENT) {
            proof {
                let e = self.0;
                assert((e & FLAG_BITS) & PRESENT == PRESENT ==> e & PRESENT == PRESENT)
                    by (bit_vector);
                assert(e & PRESENT == PRESENT ==> (e & FLAG_BITS) & PRESENT == PRESENT)
                    by (bit_vector);
            }
            return Some(Frame::caddr(self.0 & ADDR_MASK));
        }
        proof {
            let e = self.0;
            assert((e & FLAG_BITS) & PRESENT != PRESENT ==> e & PRESENT != PRESENT)
                by (bit_vector);
        }
        None
    }

    /// Point the entry at a frame with the given flags.
    pub fn set(&mut self, fr: &Frame, fl: EFlags)
        requires
            fr.i < MAX_FRAME,
            fl.0 & ADDR_MASK == 0,
        ensures
            final(self).0 == ((fr.i << 12u64) | fl.0),
            e_frame(final(self).0) == fr.i,
            final(self).0 & FLAG_BITS == fl.0 & FLAG_BITS,
            e_present(final(self).0) == e_present(fl.0),
            e_huge(final(self).0) == e_huge(fl.0),
            e_writable(final(self).0) == e_writable(fl.0),
    {
        proof {
            lemma_entry_pack(fr.i, fl.0);
        }
        self.0 = fr.addr_ptr() | fl.0;
    }
}

} // verus!
