//! Virtual pages: 4 KiB units of the virtual address space, with the four
//! table-index decompositions of their index.

use vstd::prelude::*;

use crate::frame::{Frame, FrameAllocator, TAllocator};
use crate::globals::{PAGE_SIZE, VirtualAddress};

verus! {

/// The table slot a page index selects at each level of the hierarchy.
pub open spec fn slot_of(i: u64, level: nat) -> int {
    if level == 4 {
        ((i >> 27u64) & 0x1FF) as int
    } else if level == 3 {
        ((i >> 18u64) & 0x1FF) as int
    } else if level == 2 {
        ((i >> 9u64) & 0x1FF) as int
    } else {
        (i & 0x1FF) as int
    }
}

/// Each slot is a nine-bit value.
pub proof fn lemma_slot_bounds(i: u64)
    ensures
        0 <= slot_of(i, 4) < 512,
        0 <= slot_of(i, 3) < 512,
        0 <= slot_of(i, 2) < 512,
        0 <= slot_of(i, 1) < 512,
{
    assert((i >> 27u64) & 0x1FF < 512 && (i >> 18u64) & 0x1FF < 512 && (i >> 9u64) & 0x1FF < 512
        && i & 0x1FF < 512) by (bit_vector);
}

/// A page index is canonical when its address lies in one of the two
/// canonical halves of the address space.
pub open spec fn page_ok(i: u64) -> bool {
    i < 0x8_0000_0000 || (0x10_0000_0000_0000 - 0x8_0000_0000 <= i < 0x10_0000_0000_0000)
}

/// Two canonical page indices with the same four slots are the same page.
pub proof fn lemma_slots_injective(a: u64, b: u64)
    requires
        page_ok(a),
        page_ok(b),
        slot_of(a, 4) == slot_of(b, 4),
        slot_of(a, 3) == slot_of(b, 3),
        slot_of(a, 2) == slot_of(b, 2),
        slot_of(a, 1) == slot_of(b, 1),
    ensures
        a == b,
{
    assert(a == b) by (bit_vector)
        requires
            a < 0x8_0000_0000 || (0x10_0000_0000_0000 - 0x8_0000_0000 <= a
                < 0x10_0000_0000_0000),
            b < 0x8_0000_0000 || (0x10_0000_0000_0000 - 0x8_0000_0000 <= b
                < 0x10_0000_0000_0000),
            (a >> 27u64) & 0x1FF == (b >> 27u64) & 0x1FF,
            (a >> 18u64) & 0x1FF == (b >> 18u64) & 0x1FF,
            (a >> 9u64) & 0x1FF == (b >> 9u64) & 0x1FF,
            a & 0x1FF == b & 0x1FF,
    ;
}

/// A virtual page, identified by its index: its start address is
/// `i * PAGE_SIZE`.
#[derive(Clone, Copy, PartialEq, Eq, Structural, PartialOrd, Ord, Debug)]
pub struct Page {
    pub i: u64,
}

impl Page {
    /// The first address of the page.
    pub fn start_addr(&self) -> (r: u64)
        requires
            self.i * PAGE_SIZE <= u64::MAX,
        ensures
            r == self.i * PAGE_SIZE,
    {
        self.i * PAGE_SIZE
    }

    /// The slot this page selects in the top-level table.
    pub fn p4_idx(&self) -> (r: usize)
        ensures
            r == slot_of(self.i, 4),
            r < 512,
    {
        proof {
            lemma_slot_bounds(self.i);
        }
        ((self.i >> 27) & 0x1FF) as usize
    }

    /// The slot this page selects at the third level.
    pub fn p3_idx(&self) -> (r: usize)
        ensures
            r == slot_of(self.i, 3),
            r < 512,
    {
        proof {
            lemma_slot_bounds(self.i);
        }
        ((self.i >> 18) & 0x1FF) as usize
    }

    /// The slot this page selects at the second level.
    pub fn p2_idx(&self) -> (r: usize)
        ensures
            r == slot_of(self.i, 2),
            r < 512,
    {
        proof {
            lemma_slot_bounds(self.i);
        }
        ((self.i >> 9) & 0x1FF) as usize
    }

    /// The slot this page selects at the first level.
    pub fn p1_idx(&self) -> (r: usize)
        ensures
            r == slot_of(self.i, 1),
            r < 512,
    {
        proof {
            lemma_slot_bounds(self.i);
        }
        (self.i & 0x1FF) as usize
    }

    /// The page containing the given virtual address, which must be
    /// canonical.
    pub fn caddr(addr: VirtualAddress) -> (r: Page)
        requires
            addr < 0x0000_8000_0000_0000 || addr >= 0xFFFF_8000_0000_0000,
        ensures
            r.i == addr / PAGE_SIZE,
            page_ok(r.i),
    {
        proof {
            assert(addr < 0x0000_8000_0000_0000 ==> addr / 4096 < 0x8_0000_0000)
                by (bit_vector);
            assert(addr >= 0xFFFF_8000_0000_0000 ==> (0x10_0000_0000_0000 - 0x8_0000_0000 <= addr
                / 4096 < 0x10_0000_0000_0000)) by (bit_vector);
        }
        Page { i: addr / PAGE_SIZE }
    }

    /// The pages from `s` up to and including `e`.
    pub fn range_inclusive(s: Page, e: Page) -> (r: PageIter)
        ensures
            r.s == s,
            r.e == e,
    {
        PageIter { s, e }
    }

    /// The page `n` pages above this one.
    pub fn offset(self, n: u64) -> (r: Page)
        requires
            self.i + n <= u64::MAX,
        ensures
            r.i == self.i + n,
    {
        Page { i: self.i + n }
    }
}

/// Walks an inclusive range of pages.
#[derive(Clone, Copy)]
pub struct PageIter {
    pub s: Page,
    pub e: Page,
}

impl PageIter {
    /// The next page of the range, if any is left.
    pub fn next(&mut self) -> (r: Option<Page>)
        requires
            old(self).e.i < u64::MAX,
        ensures
            final(self).e == old(self).e,
            match r {
                Some(p) => old(self).s.i <= old(self).e.i && p == old(self).s
                    && final(self).s.i == old(self).s.i + 1,
                None => old(self).s.i > old(self).e.i && final(self).s == old(self).s,
            },
    {
        if self.s.i <= self.e.i {
            let p = self.s;
            self.s.i = self.s.i + 1;
            return Some(p);
        }
        None
    }
}

/// A temporary page at a fixed free virtual address, with its own tiny
/// frame allocator so that mapping it can never exhaust the system.
pub struct TempPage {
    pub p: Page,
    pub a: TAllocator,
}

impl TempPage {
    /// Reserve the page and drain a tiny allocator from `a`.
    pub fn new<A: FrameAllocator>(p: Page, a: &mut A) -> (r: TempPage)
        requires
            old(a).wf(),
        ensures
            final(a).wf(),
            r.p == p,
            r.a.wf(),
            r.a.avail().subset_of(old(a).avail()),
            final(a).avail() == old(a).avail().difference(r.a.avail()),
            old(a).avail().len() >= 3 && old(a).avail().finite() ==> r.a.avail().len() == 3,
    {
        TempPage { a: TAllocator::new(a), p }
    }

    /// Map the temporary page to the given frame, writable, drawing any
    /// intermediate tables from the page's own tiny allocator.  Returns the
    /// page's virtual address.
    pub fn map(&mut self, fr: &Frame, at: &mut crate::paging::mapper::ActivePTable) -> (r: u64)
        requires
            crate::paging::mapper::mapper_wf(old(at).map),
            page_ok(old(self).p.i),
            slot_of(old(self).p.i, 4) != 511,
            crate::paging::mapper::m_tr(old(at).map, old(self).p.i) is None,
            fr.i < crate::frame::MAX_FRAME,
            old(self).a.wf(),
            old(self).a.avail().len() >= 3,
        ensures
            final(self).p == old(self).p,
            final(self).a.wf(),
            crate::paging::mapper::mapper_wf(final(at).map),
            final(at).map.p4_fr == old(at).map.p4_fr,
            crate::paging::mapper::m_tr(final(at).map, old(self).p.i) == Some(fr.i as int),
            crate::paging::mapper::m_mapped(final(at).map, old(self).p.i),
            crate::paging::mapper::m_leaf(final(at).map, old(self).p.i) == Some(
                (fr.i << 12u64) | (crate::paging::entry::WRITABLE | crate::paging::entry::PRESENT),
            ),
            forall|q: u64|
                page_ok(q) && q != old(self).p.i ==> #[trigger] crate::paging::mapper::m_tr(
                    final(at).map,
                    q,
                ) == crate::paging::mapper::m_tr(old(at).map, q),
            r == old(self).p.i * PAGE_SIZE,
    {
        proof {
            assert(self.a.avail().finite()) by {
                broadcast use vstd::set_lib::group_set_properties;

            }
            assert(0x2u64 & 0x000F_FFFF_FFFF_F000 == 0 && !(0x2u64 & 0x80 == 0x80))
                by (bit_vector);
        }
        let p = self.p;
        at.map.map_to(p, fr, crate::paging::entry::EFlags(crate::paging::entry::WRITABLE),
            &mut self.a);
        p.start_addr()
    }

    /// Unmap the temporary page again.
    pub fn unmap(&mut self, at: &mut crate::paging::mapper::ActivePTable)
        requires
            crate::paging::mapper::mapper_wf(old(at).map),
            page_ok(old(self).p.i),
            slot_of(old(self).p.i, 4) != 511,
            crate::paging::mapper::m_mapped(old(at).map, old(self).p.i),
        ensures
            final(self).p == old(self).p,
            crate::paging::mapper::mapper_wf(final(at).map),
            final(at).map.p4_fr == old(at).map.p4_fr,
            crate::paging::mapper::m_tr(final(at).map, old(self).p.i) is None,
            forall|q: u64|
                page_ok(q) && q != old(self).p.i ==> #[trigger] crate::paging::mapper::m_tr(
                    final(at).map,
                    q,
                ) == crate::paging::mapper::m_tr(old(at).map, q),
    {
        let p = self.p;
        at.map.unmap(p, &mut self.a)
    }
}

} // verus!
