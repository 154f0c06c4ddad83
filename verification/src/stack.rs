//! The stack allocator: leases page ranges from a reserved virtual region,
//! maps them writable, and leaves one unmapped guard page below every
//! stack.

use vstd::prelude::*;

use crate::frame::FrameAllocator;
use crate::globals::PAGE_SIZE;
use crate::paging::entry::{e_present, e_writable, EFlags, WRITABLE};
use crate::paging::mapper::{m_leaf, m_mapped, m_tr, mapper_wf, ActivePTable};
use crate::paging::page::{page_ok, slot_of, Page, PageIter};

verus! {

/// A kernel stack: its top and bottom addresses, with the page below the
/// bottom left unmapped as a guard.
#[derive(Clone, Copy, PartialEq, Eq, Structural, Debug)]
pub struct Stack {
    pub t: u64,
    pub b: u64,
}

impl Stack {
    /// Stacks grow downward from `t` to `b`.
    pub fn new(t: u64, b: u64) -> (r: Stack)
        requires
            t > b,
        ensures
            r.t == t,
            r.b == b,
    {
        Stack { t, b }
    }

    /// The first address above the stack.
    pub fn top(&self) -> (r: u64)
        ensures
            r == self.t,
    {
        self.t
    }

    /// The lowest address of the stack.
    pub fn bottom(&self) -> (r: u64)
        ensures
            r == self.b,
    {
        self.b
    }
}

/// The page carries a present, writable 4 KiB mapping.
pub open spec fn leaf_writable(m: crate::paging::mapper::Mapper, j: u64) -> bool {
    match m_leaf(m, j) {
        Some(e) => e_present(e) && e_writable(e),
        None => false,
    }
}

/// Leases page ranges from a reserved virtual region.
pub struct StackAllocator {
    pub r: PageIter,
}

/// The reservation is usable: every page of it is canonical, avoids the
/// recursive slot, and is unmapped in the given hierarchy.
pub open spec fn range_free(it: PageIter, m: crate::paging::mapper::Mapper) -> bool {
    forall|j: u64|
        it.s.i <= j <= it.e.i ==> page_ok(j) && slot_of(j, 4) != 511 && (#[trigger] m_tr(m, j))
            is None
}

impl StackAllocator {
    /// A stack allocator over the given page range.
    pub fn new(r: PageIter) -> (a: StackAllocator)
        ensures
            a.r == r,
    {
        StackAllocator { r }
    }

    /// Lease a stack of `size` pages: one page of the reservation becomes
    /// the unmapped guard, the next `size` pages are mapped writable, and
    /// the cursor moves past them.  Nothing is handed out when the
    /// reservation cannot provide `1 + size` pages or `size` is zero.
    pub fn allocate<A: FrameAllocator>(
        &mut self,
        at: &mut ActivePTable,
        fr_a: &mut A,
        size: u64,
    ) -> (r: Option<Stack>)
        requires
            mapper_wf(old(at).map),
            range_free(old(self).r, old(at).map),
            old(self).r.e.i < 0xF_FFFF_FFFF_FFFF,
            old(fr_a).wf(),
            old(fr_a).avail().finite(),
            old(fr_a).avail().len() >= 4 * size,
        ensures
            mapper_wf(final(at).map),
            final(at).map.p4_fr == old(at).map.p4_fr,
            final(fr_a).wf(),
            final(fr_a).avail().finite(),
            final(fr_a).avail().subset_of(old(fr_a).avail()),
            final(self).r.e == old(self).r.e,
            match r {
                Some(st) => {
                    let g = old(self).r.s.i;
                    &&& size >= 1
                    &&& g + size <= old(self).r.e.i
                    &&& st.b == (g + 1) * PAGE_SIZE
                    &&& st.t == (g + 1 + size) * PAGE_SIZE
                    &&& final(self).r.s.i == g + 1 + size
                    &&& m_tr(final(at).map, g) is None
                    &&& (forall|j: u64|
                        g + 1 <= j <= g + size ==> #[trigger] m_mapped(final(at).map, j))
                    &&& (forall|j: u64|
                        g + 1 <= j <= g + size ==> #[trigger] leaf_writable(final(at).map, j))
                    &&& (forall|q: u64|
                        page_ok(q) && !(g + 1 <= q <= g + size) ==> #[trigger] m_tr(
                            final(at).map,
                            q,
                        ) == m_tr(old(at).map, q))
                    &&& range_free(final(self).r, final(at).map)
                },
                None => {
                    &&& (size == 0 || old(self).r.s.i + size > old(self).r.e.i)
                    &&& final(at).map == old(at).map
                    &&& final(self).r == old(self).r
                },
            },
    {
        if size == 0 {
            return None;
        }
        let g = self.r.s;
        let e = self.r.e;
        if size > e.i {
            return None;
        }
        if g.i > e.i - size {
            return None;
        }
        proof {
            assert forall|j: u64| g.i <= j <= e.i implies page_ok(j) && slot_of(j, 4) != 511 by {
                assert(m_tr(old(at).map, j) is None);
            }
        }
        let mut k: u64 = 1;
        while k <= size
            invariant
                1 <= k <= size + 1,
                forall|j: u64| g.i <= j <= e.i ==> page_ok(j) && #[trigger] slot_of(j, 4) != 511,
                g.i + size <= e.i,
                e.i < u64::MAX,
                size >= 1,
                g == old(self).r.s,
                e == old(self).r.e,
                self.r == old(self).r,
                mapper_wf(at.map),
                at.map.p4_fr == old(at).map.p4_fr,
                fr_a.wf(),
                fr_a.avail().finite(),
                fr_a.avail().subset_of(old(fr_a).avail()),
                fr_a.avail().len() + 4 * (k - 1) >= 4 * size,
                forall|j: u64| g.i + k <= j <= e.i ==> page_ok(j) && slot_of(j, 4) != 511 && (
                #[trigger] m_tr(at.map, j)) is None,
                forall|j: u64| g.i + 1 <= j <= g.i + k - 1 ==> #[trigger] m_mapped(at.map, j),
                forall|j: u64|
                    g.i + 1 <= j <= g.i + k - 1 ==> #[trigger] leaf_writable(at.map, j),
                forall|q: u64|
                    page_ok(q) && !(g.i + 1 <= q <= g.i + k - 1) ==> #[trigger] m_tr(
                        at.map,
                        q,
                    ) == m_tr(old(at).map, q),
                m_tr(at.map, g.i) is None,
            decreases size + 1 - k,
        {
            let p = Page { i: g.i + k };
            proof {
                assert(page_ok(p.i) && slot_of(p.i, 4) != 511 && m_tr(at.map, p.i) is None);
                assert(0x2u64 & 0x000F_FFFF_FFFF_F000 == 0 && !(0x2u64 & 0x80 == 0x80))
                    by (bit_vector);
            }
            let ghost pre_at = *at;
            at.map.map(p, EFlags(WRITABLE), fr_a);
            proof {
                assert forall|j: u64| g.i + k + 1 <= j <= e.i implies page_ok(j) && slot_of(
                    j,
                    4,
                ) != 511 && (#[trigger] m_tr(at.map, j)) is None by {
                    assert(m_tr(at.map, j) == m_tr(pre_at.map, j));
                }
                assert forall|j: u64| g.i + 1 <= j <= g.i + k implies #[trigger] m_mapped(
                    at.map,
                    j,
                ) by {
                    if j < g.i + k {
                        assert(m_mapped(pre_at.map, j));
                        assert(page_ok(j) && j != g.i + k);
                        assert(m_mapped(at.map, j) == m_mapped(pre_at.map, j));
                    }
                }
                assert forall|j: u64| g.i + 1 <= j <= g.i + k implies #[trigger] leaf_writable(
                    at.map,
                    j,
                ) by {
                    if j < g.i + k {
                        assert(leaf_writable(pre_at.map, j));
                        assert(page_ok(j) && j != g.i + k);
                        assert(m_leaf(at.map, j) == m_leaf(pre_at.map, j));
                    } else {
                        let fi = choose|fi: u64|
                            {
                                &&& #[trigger] m_tr(at.map, p.i) == Some(fi as int)
                                &&& m_leaf(at.map, p.i) == Some(
                                    (fi << 12u64) | (0x2u64 | 0x1u64),
                                )
                            };
                        assert(((fi << 12u64) | (0x2u64 | 0x1u64)) & 0x2 == 0x2 && ((fi
                            << 12u64) | (0x2u64 | 0x1u64)) & 0x1 == 0x1) by (bit_vector);
                    }
                }
                assert(page_ok(g.i) && g.i != g.i + k);
                assert(m_tr(at.map, g.i) == m_tr(pre_at.map, g.i));
                assert forall|q: u64|
                    page_ok(q) && !(g.i + 1 <= q <= g.i + k) implies #[trigger] m_tr(
                    at.map,
                    q,
                ) == m_tr(old(at).map, q) by {
                    assert(m_tr(at.map, q) == m_tr(pre_at.map, q));
                }
            }
            k = k + 1;
        }
        self.r.s = Page { i: g.i + size + 1 };
        proof {
            assert((g.i + size) * PAGE_SIZE + PAGE_SIZE == (g.i + 1 + size) * PAGE_SIZE)
                by (nonlinear_arith)
                requires
                    PAGE_SIZE == 4096,
                    g.i + size < u64::MAX,
            ;
            assert((g.i + 1) * PAGE_SIZE < (g.i + 1 + size) * PAGE_SIZE) by (nonlinear_arith)
                requires
                    PAGE_SIZE == 4096,
                    size >= 1,
                    g.i + 1 + size <= u64::MAX,
            ;
        }
        let stack_top = (g.i + size) * PAGE_SIZE + PAGE_SIZE;
        let stack_bottom = (g.i + 1) * PAGE_SIZE;
        Some(Stack::new(stack_top, stack_bottom))
    }
}

} // verus!
