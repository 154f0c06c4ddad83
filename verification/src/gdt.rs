//! The Global Descriptor Table: an eight-entry table filled with a kernel
//! code segment and a two-entry TSS descriptor, whose bit layout is put
//! together with the bit-range operations of the support crate.

use vstd::prelude::*;

verus! {

/// A descriptor's executable bit.
pub const DESC_EXECUTABLE: u64 = 0x800_0000_0000;

/// The descriptor describes a code or data segment.
pub const DESC_USER_SEGMENT: u64 = 0x1000_0000_0000;

/// The descriptor is valid.
pub const DESC_PRESENT: u64 = 0x8000_0000_0000;

/// The segment runs 64-bit code.
pub const DESC_LONG_MODE: u64 = 0x20_0000_0000_0000;

/// The mask with the low `n` bits set, for bit-range arithmetic.
pub open spec fn bits_mask(n: int) -> u64 {
    if n >= 64 {
        0xFFFF_FFFF_FFFF_FFFFu64
    } else if n < 0 {
        0
    } else {
        (((1u64 << (n as u64)) as u64) - 1) as u64
    }
}

/// Relies on `bit_field`'s `BitField::get_bits` on `u64`: it returns the
/// bits of the half-open range, shifted down to the low end.
#[verifier::external_body]
fn get_bits_u64(v: u64, lo: usize, hi: usize) -> (r: u64)
    requires
        lo < hi <= 64,
    ensures
        r == (v >> (lo as u64)) & bits_mask(hi - lo),
{
    bit_field::BitField::get_bits(&v, lo..hi)
}

/// Relies on `bit_field`'s `BitField::set_bits` on `u64`: it replaces the
/// bits of the half-open range with the given value, which must fit.
#[verifier::external_body]
fn set_bits_u64(v: u64, lo: usize, hi: usize, val: u64) -> (r: u64)
    requires
        lo < hi <= 64,
        val <= bits_mask(hi - lo),
    ensures
        r == (v & !((bits_mask(hi - lo) as u64) << (lo as u64))) | (val << (lo as u64)),
{
    let mut x = v;
    bit_field::BitField::set_bits(&mut x, lo..hi, val);
    x
}

/// A segment selector: a table index with a requested privilege level in
/// the low two bits.
#[derive(Clone, Copy, PartialEq, Eq, Structural, Debug)]
pub struct SegmentSelector {
    pub bits: u16,
}

impl SegmentSelector {
    /// Build a selector from a table index and a privilege level.
    pub fn new(index: u16, rpl: u16) -> (r: SegmentSelector)
        requires
            index < 0x2000,
            rpl <= 3,
        ensures
            r.bits == index * 8 + rpl,
    {
        proof {
            assert((index << 3u16) | rpl == index * 8 + rpl) by (bit_vector)
                requires
                    index < 0x2000,
                    rpl <= 3u16,
            ;
        }
        SegmentSelector { bits: (index << 3) | rpl }
    }
}

/// A descriptor to be placed in the table: one entry for a code or data
/// segment, two entries for a system segment such as the TSS descriptor.
#[derive(Clone, Copy, PartialEq, Eq, Structural, Debug)]
pub enum Descriptor {
    UserSegment(u64),
    SystemSegment(u64, u64),
}

impl Descriptor {
    /// The descriptor of the kernel's code segment: executable, a user
    /// segment, present, long mode.
    pub fn kernel_code_segment() -> (r: Descriptor)
        ensures
            r == Descriptor::UserSegment(0x0020_9800_0000_0000),
    {
        proof {
            assert(0x800_0000_0000u64 | 0x1000_0000_0000 | 0x8000_0000_0000 | 0x20_0000_0000_0000
                == 0x0020_9800_0000_0000) by (bit_vector);
        }
        let flags = DESC_EXECUTABLE | DESC_USER_SEGMENT | DESC_PRESENT | DESC_LONG_MODE;
        Descriptor::UserSegment(flags)
    }

    /// The two-entry TSS descriptor for a task-state segment of 104 bytes
    /// at the given address: the low word carries the limit, the low base
    /// bits, the available-TSS type and the present bit; the high word
    /// carries the upper base bits.
    pub fn tss_segment(tss_base: u64) -> (r: Descriptor)
        ensures
            ({
                match r {
                    Descriptor::SystemSegment(l, h) => {
                        &&& l & 0xFFFF == 103
                        &&& (l >> 16u64) & 0xFF_FFFF == tss_base & 0xFF_FFFF
                        &&& (l >> 56u64) & 0xFF == (tss_base >> 24u64) & 0xFF
                        &&& (l >> 40u64) & 0xF == 9
                        &&& (l >> 44u64) & 1 == 0
                        &&& (l >> 47u64) & 1 == 1
                        &&& h & 0xFFFF_FFFF == tss_base >> 32u64
                        &&& h >> 32u64 == 0
                    },
                    Descriptor::UserSegment(_) => false,
                }
            }),
    {
        let mut l = DESC_PRESENT;
        proof {
            assert(((1u64 << 16u64) - 1) as u64 == 0xFFFFu64 && ((1u64 << 24u64) - 1) as u64
                == 0xFF_FFFFu64 && ((1u64 << 8u64) - 1) as u64 == 0xFFu64 && ((1u64 << 4u64)
                - 1) as u64 == 0xFu64 && ((1u64 << 32u64) - 1) as u64 == 0xFFFF_FFFFu64)
                by (bit_vector);
            assert(103u64 <= 0xFFFFu64 && 9u64 <= 0xFu64);
            let b = tss_base;
            assert((b >> 0u64) & 0xFF_FFFF <= 0xFF_FFFFu64 && (b >> 24u64) & 0xFF <= 0xFFu64
                && (b >> 32u64) & 0xFFFF_FFFF <= 0xFFFF_FFFFu64) by (bit_vector);
        }
        l = set_bits_u64(l, 0, 16, 103);
        l = set_bits_u64(l, 16, 40, get_bits_u64(tss_base, 0, 24));
        l = set_bits_u64(l, 56, 64, get_bits_u64(tss_base, 24, 32));
        l = set_bits_u64(l, 40, 44, 0b1001);
        let mut h: u64 = 0;
        h = set_bits_u64(h, 0, 32, get_bits_u64(tss_base, 32, 64));
        proof {
            let b = tss_base;
            let l0 = 0x8000_0000_0000u64;
            let l1 = (l0 & !(0xFFFFu64 << 0u64)) | (103u64 << 0u64);
            let l2 = (l1 & !(0xFF_FFFFu64 << 16u64)) | (((b >> 0u64) & 0xFF_FFFF) << 16u64);
            let l3 = (l2 & !(0xFFu64 << 56u64)) | (((b >> 24u64) & 0xFF) << 56u64);
            let l4 = (l3 & !(0xFu64 << 40u64)) | (9u64 << 40u64);
            let h1 = (0u64 & !(0xFFFF_FFFFu64 << 0u64)) | (((b >> 32u64) & 0xFFFF_FFFF)
                << 0u64);
            assert(l4 & 0xFFFF == 103 && (l4 >> 16u64) & 0xFF_FFFF == b & 0xFF_FFFF && (l4
                >> 56u64) & 0xFF == (b >> 24u64) & 0xFF && (l4 >> 40u64) & 0xF == 9 && (l4
                >> 44u64) & 1 == 0 && (l4 >> 47u64) & 1 == 1 && h1 & 0xFFFF_FFFF == b >> 32u64
                && h1 >> 32u64 == 0) by (bit_vector)
                requires
                    l1 == (0x8000_0000_0000u64 & !(0xFFFFu64 << 0u64)) | (103u64 << 0u64),
                    l2 == (l1 & !(0xFF_FFFFu64 << 16u64)) | (((b >> 0u64) & 0xFF_FFFF)
                        << 16u64),
                    l3 == (l2 & !(0xFFu64 << 56u64)) | (((b >> 24u64) & 0xFF) << 56u64),
                    l4 == (l3 & !(0xFu64 << 40u64)) | (9u64 << 40u64),
                    h1 == (0u64 & !(0xFFFF_FFFFu64 << 0u64)) | (((b >> 32u64) & 0xFFFF_FFFF)
                        << 0u64),
            ;
            assert(l == l4 && h == h1);
        }
        Descriptor::SystemSegment(l, h)
    }
}

/// The Global Descriptor Table: eight entry words, the first reserved as
/// the null descriptor, and a cursor to the next free entry.
pub struct GDT {
    t: Vec<u64>,
    n: usize,
}

impl GDT {
    /// The table's entry words.
    pub closed spec fn table(&self) -> Seq<u64> {
        self.t@
    }

    /// The next free entry.
    pub closed spec fn next_free(&self) -> int {
        self.n as int
    }

    /// Eight entries, cursor past the null descriptor and within bounds.
    pub open spec fn wf(&self) -> bool {
        self.table().len() == 8 && 1 <= self.next_free() <= 8
    }

    /// A fresh table: all null, cursor at the first free entry.
    pub fn new() -> (r: GDT)
        ensures
            r.wf(),
            r.next_free() == 1,
            forall|i: int| 0 <= i < 8 ==> r.table()[i] == 0,
    {
        let mut t: Vec<u64> = Vec::new();
        let mut k: usize = 0;
        while k < 8
            invariant
                k <= 8,
                t@.len() == k,
                forall|i: int| 0 <= i < k ==> t@[i] == 0,
            decreases 8 - k,
        {
            t.push(0);
            k = k + 1;
        }
        GDT { t, n: 1 }
    }

    /// Place one entry word at the cursor and return its index.
    fn push(&mut self, v: u64) -> (i: usize)
        requires
            old(self).wf(),
            old(self).next_free() < 8,
        ensures
            final(self).wf(),
            i == old(self).next_free(),
            final(self).next_free() == old(self).next_free() + 1,
            final(self).table() == old(self).table().update(i as int, v),
    {
        let i = self.n;
        let e = &mut self.t[i];
        *e = v;
        self.n = self.n + 1;
        i
    }

    /// Add a descriptor to the table and return a selector for it, at
    /// privilege level zero.
    pub fn add_entry(&mut self, e: &Descriptor) -> (r: SegmentSelector)
        requires
            old(self).wf(),
            match *e {
                Descriptor::UserSegment(_) => old(self).next_free() <= 7,
                Descriptor::SystemSegment(_, _) => old(self).next_free() <= 6,
            },
        ensures
            final(self).wf(),
            r.bits == old(self).next_free() * 8,
            match *e {
                Descriptor::UserSegment(v) => final(self).table() == old(self).table().update(
                    old(self).next_free(),
                    v,
                ) && final(self).next_free() == old(self).next_free() + 1,
                Descriptor::SystemSegment(l, h) => final(self).table() == old(
                    self,
                ).table().update(old(self).next_free(), l).update(
                    old(self).next_free() + 1,
                    h,
                ) && final(self).next_free() == old(self).next_free() + 2,
            },
    {
        let i = match *e {
            Descriptor::UserSegment(v) => self.push(v),
            Descriptor::SystemSegment(l, h) => {
                let i = self.push(l);
                self.push(h);
                i
            },
        };
        SegmentSelector::new(i as u16, 0)
    }

    /// The entry word at an index.
    pub fn entry(&self, i: usize) -> (r: u64)
        requires
            self.wf(),
            i < 8,
        ensures
            r == self.table()[i as int],
    {
        self.t[i]
    }
}

} // verus!
