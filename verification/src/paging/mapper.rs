//! The mapper: the handle over a four-level table hierarchy, with the
//! recursive self-slot invariant, translation, mapping and unmapping, and
//! the active/inactive table pair used to build a fresh address space.

use vstd::prelude::*;

use crate::frame::{Frame, FrameAllocator, MAX_FRAME};
use crate::globals::{PhysicalAddress, VirtualAddress, PAGE_SIZE};
use crate::paging::entry::{e_huge, e_present, EFlags, ADDR_MASK, PRESENT, WRITABLE};
use crate::paging::page::{lemma_slots_injective, page_ok, slot_of, Page};
use crate::paging::table::{slot_max, slot_wf, slots_eq, tbl_leaf, tbl_mapped, tbl_tr, tbl_wf,
    Table};

verus! {

/// A four-level hierarchy with its root frame.
pub struct Mapper {
    pub p4: Table,
    pub p4_fr: u64,
}

/// The recursive slot: entry 511 of the top-level table points back at the
/// table's own frame, present and writable, and links no owned child.
pub open spec fn rec_slot_ok(m: Mapper) -> bool {
    &&& m.p4.es@[511].0 == ((m.p4_fr << 12u64) | 0x3)
    &&& m.p4.ch@[511] is None
    &&& m.p4_fr < MAX_FRAME
}

/// The mapper's invariant: a well-formed hierarchy carrying its recursive
/// self-reference.
pub open spec fn mapper_wf(m: Mapper) -> bool {
    &&& tbl_wf(m.p4, 4)
    &&& rec_slot_ok(m)
}

/// The mapping the hierarchy defines, by page index.
pub open spec fn m_tr(m: Mapper, i: u64) -> Option<int> {
    tbl_tr(m.p4, 4, i)
}

/// The page is mapped by an ordinary 4 KiB mapping.
pub open spec fn m_mapped(m: Mapper, i: u64) -> bool {
    tbl_mapped(m.p4, 4, i)
}

/// The leaf entry word behind a page's 4 KiB mapping: its frame together
/// with its permission flags.
pub open spec fn m_leaf(m: Mapper, i: u64) -> Option<u64> {
    tbl_leaf(m.p4, 4, i)
}

/// A page equals itself slot by slot.
pub proof fn lemma_slots_eq_refl(i: u64)
    ensures
        slots_eq(4, i, i),
{
    assert(slots_eq(1, i, i));
    assert(slots_eq(2, i, i));
    assert(slots_eq(3, i, i));
    assert(slots_eq(4, i, i));
}

/// For canonical pages, selecting the same slots at all four levels means
/// being the same page.
pub proof fn lemma_slots_eq_canon(q: u64, i: u64)
    requires
        page_ok(q),
        page_ok(i),
    ensures
        slots_eq(4, q, i) <==> q == i,
{
    reveal_with_fuel(slots_eq, 5);
    if slots_eq(4, q, i) {
        assert(slots_eq(3, q, i));
        assert(slots_eq(2, q, i));
        assert(slots_eq(1, q, i));
        lemma_slots_injective(q, i);
    }
    if q == i {
        lemma_slots_eq_refl(i);
    }
}

/// The virtual address of the active top-level table under the recursive
/// mapping.
pub const P4_ADDR: u64 = 0xFFFF_FFFF_FFFF_F000;

/// The recursive slot resolves to the table itself: following slot 511
/// from the top-level table's own address yields that same address, so the
/// table is reachable through its own last entry.
pub proof fn lemma_recursive_taddr()
    ensures
        ((P4_ADDR << 9u64) | (511u64 << 12u64)) == P4_ADDR,
{
    assert(((0xFFFF_FFFF_FFFF_F000u64 << 9u64) | (511u64 << 12u64)) == 0xFFFF_FFFF_FFFF_F000u64)
        by (bit_vector);
}

impl Mapper {
    /// The top-level table.
    pub fn p4(&self) -> (r: &Table)
        ensures
            r == &self.p4,
    {
        &self.p4
    }

    /// Walk the tables for the page and return the frame it maps to.
    pub fn translate_page(&self, p: Page) -> (r: Option<Frame>)
        requires
            mapper_wf(*self),
        ensures
            match r {
                Some(f) => m_tr(*self, p.i) == Some(f.i as int) && f.i < 0x200_0000_0000,
                None => m_tr(*self, p.i) is None,
            },
    {
        self.p4.lookup(4, p)
    }

    /// Translate a virtual address: the mapped frame's base plus the
    /// offset within the page.
    pub fn translate_vtop(&self, vaddr: VirtualAddress) -> (r: Option<PhysicalAddress>)
        requires
            mapper_wf(*self),
            vaddr < 0x0000_8000_0000_0000 || vaddr >= 0xFFFF_8000_0000_0000,
        ensures
            match m_tr(*self, (vaddr / PAGE_SIZE) as u64) {
                Some(f) => r == Some((f * PAGE_SIZE + vaddr % PAGE_SIZE) as u64),
                None => r is None,
            },
    {
        let p = Page::caddr(vaddr);
        match self.translate_page(p) {
            Some(f) => Some(f.i * PAGE_SIZE + vaddr % PAGE_SIZE),
            None => None,
        }
    }

    /// Map the page to the frame with the given flags (plus present),
    /// creating intermediate tables as needed.  Every other page keeps its
    /// mapping, and the recursive slot stays.
    pub fn map_to<A: FrameAllocator>(&mut self, p: Page, fr: &Frame, fl: EFlags, a: &mut A)
        requires
            mapper_wf(*old(self)),
            page_ok(p.i),
            slot_of(p.i, 4) != 511,
            m_tr(*old(self), p.i) is None,
            fr.i < MAX_FRAME,
            fl.0 & ADDR_MASK == 0,
            !e_huge(fl.0),
            old(a).wf(),
            old(a).avail().finite(),
            old(a).avail().len() >= 3,
        ensures
            mapper_wf(*final(self)),
            final(self).p4_fr == old(self).p4_fr,
            final(a).wf(),
            final(a).avail().finite(),
            final(a).avail().subset_of(old(a).avail()),
            final(a).avail().len() + 3 >= old(a).avail().len(),
            m_tr(*final(self), p.i) == Some(fr.i as int),
            m_mapped(*final(self), p.i),
            m_leaf(*final(self), p.i) == Some((fr.i << 12u64) | (fl.0 | PRESENT)),
            forall|q: u64|
                page_ok(q) && q != p.i ==> #[trigger] m_tr(*final(self), q) == m_tr(
                    *old(self),
                    q,
                ),
            forall|q: u64|
                page_ok(q) && q != p.i ==> #[trigger] m_mapped(*final(self), q) == m_mapped(
                    *old(self),
                    q,
                ),
            forall|q: u64|
                page_ok(q) && q != p.i ==> #[trigger] m_leaf(*final(self), q) == m_leaf(
                    *old(self),
                    q,
                ),
    {
        let fl2 = fl.with(PRESENT);
        proof {
            let b = fl.0;
            assert((b | 0x1) & 0x1 == 0x1 && ((b | 0x1) & 0x80 == 0x80) == (b & 0x80 == 0x80)
                && (b & 0x000F_FFFF_FFFF_F000 == 0 ==> (b | 0x1) & 0x000F_FFFF_FFFF_F000 == 0))
                by (bit_vector);
        }
        self.p4.map_at(4, p.i, fr, fl2, a);
        proof {
            lemma_slots_eq_refl(p.i);
            assert forall|q: u64| page_ok(q) && q != p.i implies #[trigger] m_tr(*self, q)
                == m_tr(*old(self), q) by {
                lemma_slots_eq_canon(q, p.i);
            }
            assert forall|q: u64| page_ok(q) && q != p.i implies #[trigger] m_mapped(*self, q)
                == m_mapped(*old(self), q) by {
                lemma_slots_eq_canon(q, p.i);
            }
            assert forall|q: u64| page_ok(q) && q != p.i implies #[trigger] m_leaf(*self, q)
                == m_leaf(*old(self), q) by {
                lemma_slots_eq_canon(q, p.i);
            }
        }
    }

    /// Map the frame to the page at its own address: afterwards the
    /// frame's base translates to itself.
    pub fn idmap<A: FrameAllocator>(&mut self, fr: &Frame, fl: EFlags, a: &mut A)
        requires
            mapper_wf(*old(self)),
            fr.i < 0x8_0000_0000,
            m_tr(*old(self), fr.i) is None,
            fl.0 & ADDR_MASK == 0,
            !e_huge(fl.0),
            old(a).wf(),
            old(a).avail().finite(),
            old(a).avail().len() >= 3,
        ensures
            mapper_wf(*final(self)),
            final(self).p4_fr == old(self).p4_fr,
            final(a).wf(),
            final(a).avail().finite(),
            final(a).avail().subset_of(old(a).avail()),
            final(a).avail().len() + 3 >= old(a).avail().len(),
            m_tr(*final(self), fr.i) == Some(fr.i as int),
            m_mapped(*final(self), fr.i),
            m_leaf(*final(self), fr.i) == Some((fr.i << 12u64) | (fl.0 | PRESENT)),
            forall|q: u64|
                page_ok(q) && q != fr.i ==> #[trigger] m_tr(*final(self), q) == m_tr(
                    *old(self),
                    q,
                ),
            forall|q: u64|
                page_ok(q) && q != fr.i ==> #[trigger] m_mapped(*final(self), q) == m_mapped(
                    *old(self),
                    q,
                ),
            forall|q: u64|
                page_ok(q) && q != fr.i ==> #[trigger] m_leaf(*final(self), q) == m_leaf(
                    *old(self),
                    q,
                ),
    {
        let p = Page::caddr(fr.addr_ptr());
        proof {
            assert(fr.i * 4096 / 4096 == fr.i) by (nonlinear_arith)
                requires
                    fr.i < 0x8_0000_0000,
            ;
            let i = fr.i;
            assert(i < 0x8_0000_0000 ==> (i >> 27u64) & 0x1FF != 511 || i >= 0x8_0000_0000)
                by (bit_vector);
        }
        self.map_to(p, fr, fl, a)
    }

    /// Map the page to a freshly allocated frame.
    pub fn map<A: FrameAllocator>(&mut self, p: Page, fl: EFlags, a: &mut A)
        requires
            mapper_wf(*old(self)),
            page_ok(p.i),
            slot_of(p.i, 4) != 511,
            m_tr(*old(self), p.i) is None,
            fl.0 & ADDR_MASK == 0,
            !e_huge(fl.0),
            old(a).wf(),
            old(a).avail().finite(),
            old(a).avail().len() >= 4,
        ensures
            mapper_wf(*final(self)),
            final(self).p4_fr == old(self).p4_fr,
            final(a).wf(),
            final(a).avail().finite(),
            final(a).avail().subset_of(old(a).avail()),
            final(a).avail().len() + 4 >= old(a).avail().len(),
            m_mapped(*final(self), p.i),
            ({
                // the mapped frame is the one drawn first from the allocator
                exists|fi: u64|
                    {
                        &&& old(a).avail().contains(fi as int)
                        &&& fi < MAX_FRAME
                        &&& #[trigger] m_tr(*final(self), p.i) == Some(fi as int)
                        &&& m_leaf(*final(self), p.i) == Some((fi << 12u64) | (fl.0 | PRESENT))
                        &&& final(a).avail().subset_of(old(a).avail().remove(fi as int))
                    }
            }),
            forall|q: u64|
                page_ok(q) && q != p.i ==> #[trigger] m_tr(*final(self), q) == m_tr(
                    *old(self),
                    q,
                ),
            forall|q: u64|
                page_ok(q) && q != p.i ==> #[trigger] m_mapped(*final(self), q) == m_mapped(
                    *old(self),
                    q,
                ),
            forall|q: u64|
                page_ok(q) && q != p.i ==> #[trigger] m_leaf(*final(self), q) == m_leaf(
                    *old(self),
                    q,
                ),
    {
        let fr = match a.allocate() {
            Some(f) => f,
            None => {
                proof {
                    assert(false);
                }
                Frame { i: 0 }
            },
        };
        proof {
            broadcast use vstd::set_lib::group_set_properties;

            assert(a.avail().len() == old(a).avail().len() - 1);
        }
        self.map_to(p, &fr, fl, a)
    }

    /// Remove the page's 4 KiB mapping: afterwards the page translates to
    /// nothing.  Every other page keeps its mapping.  (The allocator
    /// parameter mirrors the mapping calls; nothing is drawn from it.)
    pub fn unmap<A: FrameAllocator>(&mut self, p: Page, _a: &mut A)
        requires
            mapper_wf(*old(self)),
            page_ok(p.i),
            slot_of(p.i, 4) != 511,
            m_mapped(*old(self), p.i),
        ensures
            mapper_wf(*final(self)),
            final(self).p4_fr == old(self).p4_fr,
            *final(_a) == *old(_a),
            m_tr(*final(self), p.i) is None,
            m_leaf(*final(self), p.i) is None,
            forall|q: u64|
                page_ok(q) && q != p.i ==> #[trigger] m_tr(*final(self), q) == m_tr(
                    *old(self),
                    q,
                ),
            forall|q: u64|
                page_ok(q) && q != p.i ==> #[trigger] m_mapped(*final(self), q) == m_mapped(
                    *old(self),
                    q,
                ),
            forall|q: u64|
                page_ok(q) && q != p.i ==> #[trigger] m_leaf(*final(self), q) == m_leaf(
                    *old(self),
                    q,
                ),
    {
        self.p4.unmap_at(4, p.i);
        proof {
            lemma_slots_eq_refl(p.i);
            assert forall|q: u64| page_ok(q) && q != p.i implies #[trigger] m_tr(*self, q)
                == m_tr(*old(self), q) by {
                lemma_slots_eq_canon(q, p.i);
            }
            assert forall|q: u64| page_ok(q) && q != p.i implies #[trigger] m_mapped(*self, q)
                == m_mapped(*old(self), q) by {
                lemma_slots_eq_canon(q, p.i);
            }
            assert forall|q: u64| page_ok(q) && q != p.i implies #[trigger] m_leaf(*self, q)
                == m_leaf(*old(self), q) by {
                lemma_slots_eq_canon(q, p.i);
            }
        }
    }
}

/// The handle over the hierarchy the CPU is walking.  Holding it stands for
/// owning the control register that points at the hierarchy.
pub struct ActivePTable {
    pub map: Mapper,
}

impl ActivePTable {
    /// Take ownership of a hierarchy as the active one.
    pub fn new(m: Mapper) -> (r: ActivePTable)
        requires
            mapper_wf(m),
        ensures
            r.map == m,
    {
        ActivePTable { map: m }
    }

    /// Replace the active hierarchy: the new tables take over, and the old
    /// hierarchy comes back as an inactive table.  Both keep their
    /// recursive slots.
    pub fn switch(&mut self, new_t: InactivePTable) -> (old_t: InactivePTable)
        requires
            mapper_wf(old(self).map),
            mapper_wf(new_t.map),
        ensures
            final(self).map == new_t.map,
            old_t.map == old(self).map,
            mapper_wf(final(self).map),
            mapper_wf(old_t.map),
    {
        let mut tmp = new_t;
        core::mem::swap(&mut self.map, &mut tmp.map);
        tmp
    }
}

/// A hierarchy that is not the one the CPU walks; it can be filled and
/// then switched to.
pub struct InactivePTable {
    pub map: Mapper,
}

impl InactivePTable {
    /// Build a fresh hierarchy in the given frame: zeroed, with the
    /// recursive slot pointing at the frame itself, so the invariant holds
    /// before the hierarchy ever becomes active.
    pub fn new(fr: Frame) -> (r: InactivePTable)
        requires
            fr.i < MAX_FRAME,
        ensures
            mapper_wf(r.map),
            r.map.p4_fr == fr.i,
            forall|s: int| 0 <= s < 511 ==> (#[trigger] r.map.p4.es@[s]).0 == 0,
            forall|q: u64| #[trigger] m_tr(r.map, q) is None,
            forall|q: u64| !#[trigger] m_mapped(r.map, q),
            forall|q: u64| #[trigger] m_leaf(r.map, q) is None,
    {
        let mut t = Table::new();
        let ghost z = t;
        let fl = EFlags::empty().with(PRESENT).with(WRITABLE);
        proof {
            assert((0u64 | 0x1 | 0x2) == 0x3 && 0x3u64 & 0x000F_FFFF_FFFF_F000 == 0 && 0x3u64
                & 0x1 == 0x1 && !(0x3u64 & 0x80 == 0x80) && !e_present(0)) by (bit_vector);
        }
        {
            let e = &mut t.es[511];
            e.set(&fr, fl);
        }
        let m = Mapper { p4: t, p4_fr: fr.i };
        proof {
            assert forall|s: int| 0 <= s < slot_max(4) implies #[trigger] slot_wf(m.p4, 4, s) by {
                assert(m.p4.es@[s].0 == 0);
            }
            assert forall|q: u64| #[trigger] m_tr(m, q) is None by {
                crate::paging::page::lemma_slot_bounds(q);
                let sq = slot_of(q, 4);
                if sq == 511 {
                    assert(m.p4.ch@[sq] is None);
                } else {
                    assert(m.p4.es@[sq].0 == 0);
                }
            }
            assert forall|q: u64| !#[trigger] m_mapped(m, q) by {
                crate::paging::page::lemma_slot_bounds(q);
                let sq = slot_of(q, 4);
                if sq == 511 {
                    assert(m.p4.ch@[sq] is None);
                } else {
                    assert(m.p4.es@[sq].0 == 0);
                }
            }
            assert forall|q: u64| #[trigger] m_leaf(m, q) is None by {
                crate::paging::page::lemma_slot_bounds(q);
                let sq = slot_of(q, 4);
                if sq == 511 {
                    assert(m.p4.ch@[sq] is None);
                } else {
                    assert(m.p4.es@[sq].0 == 0);
                }
            }
        }
        InactivePTable { map: m }
    }

    /// The frame holding the hierarchy's top-level table.
    pub fn p4_frame(&self) -> (r: Frame)
        ensures
            r.i == self.map.p4_fr,
    {
        Frame { i: self.map.p4_fr }
    }
}

} // verus!
