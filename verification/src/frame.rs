//! Physical frames and the allocators that hand them out: the area-based
//! boot allocator drawing from the loader's memory map, and the tiny fixed
//! three-slot allocator used during page-table surgery.

use vstd::prelude::*;

use crate::boot::mmap::MemArea;
use crate::globals::PAGE_SIZE;

verus! {

/// Frames handed out by the area allocator fit the frame field of a
/// page-table entry: their index stays below 2^40.
pub const MAX_FRAME: u64 = 0x100_0000_0000;

/// No frame index of any physical address goes beyond 2^52.
pub const FRAME_CEIL: u64 = 0x10_0000_0000_0000;

/// A physical page, identified by its index: its base address is
/// `i * PAGE_SIZE`.
#[derive(Debug, PartialEq, Eq, Structural, PartialOrd, Ord, Hash)]
pub struct Frame {
    pub i: u64,
}

impl Frame {
    /// The frame containing the given physical address.
    pub fn caddr(addr: u64) -> (r: Frame)
        ensures
            r.i == addr / PAGE_SIZE,
            r.i < FRAME_CEIL,
    {
        Frame { i: addr / PAGE_SIZE }
    }

    /// The base address of the frame.
    pub fn addr_ptr(&self) -> (r: u64)
        requires
            self.i * PAGE_SIZE <= u64::MAX,
        ensures
            r == self.i * PAGE_SIZE,
    {
        self.i * PAGE_SIZE
    }

    /// An explicit copy: frames are otherwise moved, since holding one
    /// stands for owning the physical page.
    pub fn clone(&self) -> (r: Frame)
        ensures
            r.i == self.i,
    {
        Frame { i: self.i }
    }

    /// The frames from `s` up to and including `e`.
    pub fn range_inclusive(s: Frame, e: Frame) -> (r: FrameIter)
        ensures
            r.s.i == s.i,
            r.e.i == e.i,
    {
        FrameIter { s, e }
    }
}

/// Walks an inclusive range of frames.
pub struct FrameIter {
    pub s: Frame,
    pub e: Frame,
}

impl FrameIter {
    /// The next frame of the range, if any is left.
    pub fn next(&mut self) -> (r: Option<Frame>)
        requires
            old(self).e.i < u64::MAX,
        ensures
            final(self).e == old(self).e,
            match r {
                Some(f) => old(self).s.i <= old(self).e.i && f.i == old(self).s.i
                    && final(self).s.i == old(self).s.i + 1,
                None => old(self).s.i > old(self).e.i && final(self).s == old(self).s,
            },
    {
        if self.s.i <= self.e.i {
            let fr = self.s.clone();
            self.s.i = self.s.i + 1;
            return Some(fr);
        }
        None
    }
}

/// A source of physical frames.  `avail` is the set of frame indices the
/// allocator may still hand out: every allocation comes from it and removes
/// it, so no frame is ever handed out twice.
pub trait FrameAllocator: Sized {
    /// The allocator's invariant.
    spec fn wf(&self) -> bool;

    /// The frame indices this allocator may still hand out.
    spec fn avail(&self) -> Set<int>;

    /// Whether the allocator hands frames out in ascending order.
    spec fn ordered(&self) -> bool;

    /// Whether a frame can be taken back.
    spec fn can_dealloc(&self, fr: Frame) -> bool;

    /// Hand out one frame, or nothing when the allocator is exhausted.  An
    /// ordered allocator hands out the lowest available frame.
    fn allocate(&mut self) -> (r: Option<Frame>)
        requires
            old(self).wf(),
        ensures
            final(self).wf(),
            final(self).ordered() == old(self).ordered(),
            match r {
                Some(f) => old(self).avail().contains(f.i as int) && final(self).avail()
                    == old(self).avail().remove(f.i as int) && f.i < MAX_FRAME && (old(
                    self,
                ).ordered() ==> forall|g: int|
                    #[trigger] old(self).avail().contains(g) ==> f.i <= g),
                None => old(self).avail().is_empty() && final(self).avail() == old(
                    self,
                ).avail(),
            },
    ;

    /// Take a frame back.
    fn dealloc(&mut self, fr: Frame)
        requires
            old(self).wf(),
            old(self).can_dealloc(fr),
        ensures
            final(self).wf(),
            final(self).ordered() == old(self).ordered(),
            final(self).avail() == old(self).avail().insert(fr.i as int),
    ;
}

/// The first frame of an area.
pub open spec fn area_first(a: MemArea) -> int {
    a.base as int / PAGE_SIZE as int
}

/// The last frame of an area (meaningful only when the area is nonempty).
pub open spec fn area_last(a: MemArea) -> int {
    (a.base + a.len - 1) / PAGE_SIZE as int
}

/// A nonempty area covers the frame.
pub open spec fn area_covers(a: MemArea, f: int) -> bool {
    a.len > 0 && area_first(a) <= f <= area_last(a)
}

/// Some area of the list covers the frame.
pub open spec fn frame_in_areas(areas: Seq<MemArea>, f: int) -> bool {
    exists|k: int| 0 <= k < areas.len() && area_covers(#[trigger] areas[k], f)
}

/// Every area is nonempty and stays below the entry-field bound, so every
/// handed-out frame fits a page-table entry.
pub open spec fn areas_wf(areas: Seq<MemArea>) -> bool {
    forall|k: int|
        0 <= k < areas.len() ==> (#[trigger] areas[k]).len > 0 && areas[k].base + areas[k].len
            <= MAX_FRAME * PAGE_SIZE
}

/// Hands out the frames of the memory map's available areas, skipping the
/// kernel image and the boot record.
pub struct AreaAllocator {
    area: Vec<MemArea>,
    curr: Option<usize>,
    next: Frame,
    kn_start: Frame,
    kn_end: Frame,
    mb_start: Frame,
    mb_end: Frame,
}

impl AreaAllocator {
    /// The areas the allocator draws from.
    pub closed spec fn areas(&self) -> Seq<MemArea> {
        self.area@
    }

    /// The allocation cursor: no frame below it is handed out again.
    pub closed spec fn cursor(&self) -> int {
        self.next.i as int
    }

    /// First frame of the excluded kernel image.
    pub closed spec fn kernel_start(&self) -> int {
        self.kn_start.i as int
    }

    /// Last frame of the excluded kernel image.
    pub closed spec fn kernel_end(&self) -> int {
        self.kn_end.i as int
    }

    /// First frame of the excluded boot record.
    pub closed spec fn mb_first(&self) -> int {
        self.mb_start.i as int
    }

    /// Last frame of the excluded boot record.
    pub closed spec fn mb_last(&self) -> int {
        self.mb_end.i as int
    }

    /// The frame lies in the kernel image or in the boot record.
    pub open spec fn excluded(&self, f: int) -> bool {
        (self.kernel_start() <= f <= self.kernel_end()) || (self.mb_first() <= f
            <= self.mb_last())
    }

    /// The frame may still be handed out: at or past the cursor, inside an
    /// available area, and not excluded.
    pub open spec fn eligible(&self, f: int) -> bool {
        &&& self.cursor() <= f
        &&& exists|k: int|
            0 <= k < self.areas().len() && area_covers(#[trigger] self.areas()[k], f)
        &&& !self.excluded(f)
    }

    /// The frames the allocator can still hand out.
    pub closed spec fn avail_set(&self) -> Set<int> {
        match self.curr {
            None => Set::empty(),
            Some(_) => Set::new(|f: int| self.eligible(f)),
        }
    }

    /// The allocator's invariant: areas are bounded, the cursor and the
    /// excluded ranges stay below the frame ceiling, and when no area is
    /// selected nothing is left, while a selected area is valid and begins
    /// at or before the cursor.
    pub closed spec fn inv(&self) -> bool {
        &&& areas_wf(self.area@)
        &&& self.kn_end.i < FRAME_CEIL
        &&& self.mb_end.i < FRAME_CEIL
        &&& self.next.i <= FRAME_CEIL
        &&& match self.curr {
            None => forall|f: int| !self.eligible(f),
            Some(c) => c < self.area@.len() && area_first(self.area@[c as int])
                <= self.cursor(),
        }
    }
}

/// A fresh allocator's budget is demonstrable: when a whole frame range
/// lies inside the memory map's areas and outside the excluded ranges, the
/// available set holds at least that many frames.
pub proof fn lemma_avail_at_least(a: &AreaAllocator, lo: int, hi: int)
    requires
        a.avail_set().finite(),
        forall|f: int|
            frame_in_areas(a.areas(), f) && !a.excluded(f) ==> #[trigger] a.avail_set()
                .contains(f),
        lo <= hi,
        forall|f: int|
            lo <= f < hi ==> #[trigger] frame_in_areas(a.areas(), f) && !a.excluded(f),
    ensures
        a.avail_set().len() >= hi - lo,
{
    vstd::set_lib::lemma_int_range(lo, hi);
    assert(vstd::set_lib::set_int_range(lo, hi).subset_of(a.avail_set())) by {
        assert forall|f: int|
            vstd::set_lib::set_int_range(lo, hi).contains(f) implies a.avail_set().contains(
            f,
        ) by {
            assert(lo <= f < hi);
            assert(frame_in_areas(a.areas(), f) && !a.excluded(f));
        }
    }
    vstd::set_lib::lemma_len_subset(vstd::set_lib::set_int_range(lo, hi), a.avail_set());
}

/// Moving only the cursor changes eligibility in no other way: below either
/// cursor nothing is eligible, and above both the two states agree.
proof fn lemma_eligible_shift(a: AreaAllocator, b: AreaAllocator, f: int)
    requires
        a.areas() == b.areas(),
        a.kernel_start() == b.kernel_start(),
        a.kernel_end() == b.kernel_end(),
        a.mb_first() == b.mb_first(),
        a.mb_last() == b.mb_last(),
    ensures
        f < a.cursor() ==> !a.eligible(f),
        f < b.cursor() ==> !b.eligible(f),
        a.cursor() <= f && b.cursor() <= f ==> a.eligible(f) == b.eligible(f),
{
    if a.cursor() <= f && b.cursor() <= f {
        if a.eligible(f) {
            let k = choose|k: int|
                0 <= k < a.areas().len() && area_covers(#[trigger] a.areas()[k], f);
            assert(area_covers(b.areas()[k], f));
            assert(b.eligible(f));
        }
        if b.eligible(f) {
            let k = choose|k: int|
                0 <= k < b.areas().len() && area_covers(#[trigger] b.areas()[k], f);
            assert(area_covers(a.areas()[k], f));
            assert(a.eligible(f));
        }
    }
}

impl FrameAllocator for AreaAllocator {
    /// The allocator's invariant.
    open spec fn wf(&self) -> bool {
        self.inv()
    }

    /// Exactly the eligible frames, and nothing once the areas are spent.
    open spec fn avail(&self) -> Set<int> {
        self.avail_set()
    }

    /// The cursor walk hands frames out in ascending order.
    open spec fn ordered(&self) -> bool {
        true
    }

    /// This allocator is monotonic: frames never come back.
    open spec fn can_dealloc(&self, fr: Frame) -> bool {
        false
    }

    /// Hand out the next frame: skip to the next area when the current one
    /// is spent, and jump over the kernel image and the boot record.
    fn allocate(&mut self) -> (r: Option<Frame>)
    {
        loop
            invariant
                self.wf(),
                self.avail() == old(self).avail(),
                self.area@ == old(self).area@,
                self.kn_start == old(self).kn_start,
                self.kn_end == old(self).kn_end,
                self.mb_start == old(self).mb_start,
                self.mb_end == old(self).mb_end,
            decreases
                    FRAME_CEIL + 1 - self.next.i,
                    (match self.curr {
                        None => 0int,
                        Some(c) => if self.next.i <= area_last(self.area@[c as int]) {
                            0int
                        } else {
                            1int
                        },
                    }),
        {
            let c = match self.curr {
                None => {
                    proof {
                        assert(self.avail() =~= Set::<int>::empty());
                    }
                    return None;
                },
                Some(c) => c,
            };
            let a = self.area[c];
            let fr_i = self.next.i;
            let cur_last = (a.base + a.len - 1) / PAGE_SIZE;
            if fr_i > cur_last {
                self.next_area();
            } else if fr_i >= self.kn_start.i && fr_i <= self.kn_end.i {
                let ghost pre = *self;
                self.next = Frame { i: self.kn_end.i + 1 };
                proof {
                    assert forall|f: int| self.eligible(f) == pre.eligible(f) by {
                        lemma_eligible_shift(pre, *self, f);
                        if pre.eligible(f) && f < self.cursor() {
                            assert(pre.kernel_start() <= f <= pre.kernel_end());
                        }
                    }
                    assert(self.avail() =~= pre.avail());
                }
            } else if fr_i >= self.mb_start.i && fr_i <= self.mb_end.i {
                let ghost pre = *self;
                self.next = Frame { i: self.mb_end.i + 1 };
                proof {
                    assert forall|f: int| self.eligible(f) == pre.eligible(f) by {
                        lemma_eligible_shift(pre, *self, f);
                        if pre.eligible(f) && f < self.cursor() {
                            assert(pre.mb_first() <= f <= pre.mb_last());
                        }
                    }
                    assert(self.avail() =~= pre.avail());
                }
            } else {
                let ghost pre = *self;
                self.next = Frame { i: fr_i + 1 };
                proof {
                    assert(pre.area@[c as int].len > 0);
                    assert(area_first(pre.area@[c as int]) <= fr_i);
                    assert(fr_i <= area_last(pre.area@[c as int]));
                    assert(area_covers(pre.areas()[c as int], fr_i as int));
                    assert(!pre.excluded(fr_i as int));
                    assert(pre.eligible(fr_i as int));
                    assert(pre.avail().contains(fr_i as int));
                    assert forall|f: int| self.eligible(f) == (pre.eligible(f) && f != fr_i)
                        by {
                        lemma_eligible_shift(pre, *self, f);
                    }
                    assert(self.avail() =~= pre.avail().remove(fr_i as int));
                    assert(fr_i < MAX_FRAME) by {
                        assert(pre.area@[c as int].base + pre.area@[c as int].len <= MAX_FRAME
                            * PAGE_SIZE);
                        assert(area_last(pre.area@[c as int]) < MAX_FRAME) by (nonlinear_arith)
                            requires
                                pre.area@[c as int].base + pre.area@[c as int].len <= MAX_FRAME
                                    * PAGE_SIZE,
                                pre.area@[c as int].len > 0,
                                PAGE_SIZE == 4096,
                                MAX_FRAME == 0x100_0000_0000,
                        ;
                    }
                }
                return Some(Frame { i: fr_i });
            }
        }
    }

    /// Deallocation is not supported: this allocator is monotonic.
    fn dealloc(&mut self, fr: Frame) {
    }
}

impl AreaAllocator {
    /// Build the allocator: collect the available areas of the memory map,
    /// record the two excluded half-open address ranges by their frames,
    /// and select the first area.  Afterwards the available set is exactly
    /// the frames of the map's areas outside the two excluded ranges.
    pub fn new(
        kn_start: u64,
        kn_end: u64,
        mb_start: u64,
        mb_end: u64,
        mem_area: crate::boot::mmap::MemAreaIter,
    ) -> (r: AreaAllocator)
        requires
            mem_area.wf(),
            areas_wf(mem_area.remaining()),
        ensures
            r.wf(),
            r.ordered(),
            r.areas() == mem_area.remaining(),
            kn_start < kn_end ==> r.kernel_start() == kn_start / PAGE_SIZE && r.kernel_end()
                == (kn_end - 1) / PAGE_SIZE as int,
            kn_start >= kn_end ==> r.kernel_start() > r.kernel_end(),
            mb_start < mb_end ==> r.mb_first() == mb_start / PAGE_SIZE && r.mb_last() == (
            mb_end - 1) / PAGE_SIZE as int,
            mb_start >= mb_end ==> r.mb_first() > r.mb_last(),
            r.cursor() >= 0,
            r.avail_set().finite(),
            forall|f: int|
                #[trigger] r.avail_set().contains(f) ==> frame_in_areas(r.areas(), f)
                    && !r.excluded(f) && r.cursor() <= f,
            forall|f: int|
                frame_in_areas(r.areas(), f) && !r.excluded(f) ==> #[trigger] r.avail_set()
                    .contains(f),
    {
        let ghost orig = mem_area.remaining();
        let mut it = mem_area;
        let mut areas: Vec<MemArea> = Vec::new();
        loop
            invariant
                it.wf(),
                areas@ + it.remaining() == orig,
                areas_wf(orig),
            ensures
                it.remaining().len() == 0,
                areas@ + it.remaining() == orig,
            decreases it.remaining().len(),
        {
            match it.next() {
                Some(a) => {
                    areas.push(a);
                    proof {
                        assert(areas@ + it.remaining() =~= orig);
                    }
                },
                None => {
                    break;
                },
            }
        }
        proof {
            assert(areas@ =~= orig);
        }
        let kn_range = if kn_start < kn_end {
            (Frame::caddr(kn_start), Frame::caddr(kn_end - 1))
        } else {
            (Frame { i: 1 }, Frame { i: 0 })
        };
        let mb_range = if mb_start < mb_end {
            (Frame::caddr(mb_start), Frame::caddr(mb_end - 1))
        } else {
            (Frame { i: 1 }, Frame { i: 0 })
        };
        let mut a = AreaAllocator {
            area: areas,
            curr: None,
            next: Frame::caddr(0),
            kn_start: kn_range.0,
            kn_end: kn_range.1,
            mb_start: mb_range.0,
            mb_end: mb_range.1,
        };
        proof {
            assert(a.next.i == 0);
        }
        let ghost pre = a;
        a.next_area();
        proof {
            assert forall|f: int| #[trigger] a.avail_set().contains(f) implies frame_in_areas(
                a.areas(),
                f,
            ) && !a.excluded(f) && a.cursor() <= f by {
                assert(a.eligible(f));
            }
            assert forall|f: int|
                frame_in_areas(a.areas(), f) && !a.excluded(f) implies #[trigger] a.avail_set()
                .contains(f) by {
                let k = choose|k: int|
                    0 <= k < a.areas().len() && area_covers(#[trigger] a.areas()[k], f);
                assert(area_covers(pre.areas()[k], f));
                assert(f >= 0);
                assert(pre.eligible(f));
                assert(a.eligible(f));
                if a.curr is None {
                    assert(!a.eligible(f));
                }
            }
            vstd::set_lib::lemma_int_range(0, MAX_FRAME as int);
            assert(a.avail_set().subset_of(vstd::set_lib::set_int_range(0, MAX_FRAME as int)))
                by {
                assert forall|f: int| #[trigger] a.avail_set().contains(f) implies 0 <= f
                    < MAX_FRAME by {
                    assert(a.eligible(f));
                    let k = choose|k: int|
                        0 <= k < a.areas().len() && area_covers(#[trigger] a.areas()[k], f);
                    assert(area_last(a.areas()[k]) < MAX_FRAME) by (nonlinear_arith)
                        requires
                            a.areas()[k].base + a.areas()[k].len <= MAX_FRAME * PAGE_SIZE,
                            a.areas()[k].len > 0,
                            PAGE_SIZE == 4096,
                            MAX_FRAME == 0x100_0000_0000,
                            area_last(a.areas()[k]) == (a.areas()[k].base + a.areas()[k].len
                                - 1) / 4096,
                    ;
                }
            }
            vstd::set_lib::lemma_len_subset(
                a.avail_set(),
                vstd::set_lib::set_int_range(0, MAX_FRAME as int),
            );
        }
        a
    }

    /// Select the lowest-based area whose last frame is at or past the
    /// cursor, and snap the cursor to its start.  The set of frames the
    /// allocator can still hand out does not change.
    fn next_area(&mut self)
        requires
            areas_wf(old(self).area@),
            old(self).kn_end.i < FRAME_CEIL,
            old(self).mb_end.i < FRAME_CEIL,
            old(self).next.i <= FRAME_CEIL,
        ensures
            final(self).wf(),
            final(self).avail() == Set::new(|f: int| old(self).eligible(f)),
            final(self).area@ == old(self).area@,
            final(self).kn_start == old(self).kn_start,
            final(self).kn_end == old(self).kn_end,
            final(self).mb_start == old(self).mb_start,
            final(self).mb_end == old(self).mb_end,
            final(self).next.i >= old(self).next.i,
            forall|f: int| final(self).eligible(f) == old(self).eligible(f),
            final(self).curr is Some ==> area_last(
                final(self).area@[final(self).curr.unwrap() as int],
            ) >= final(self).cursor(),
    {
        let n = self.area.len();
        let mut best: Option<usize> = None;
        let mut k: usize = 0;
        while k < n
            invariant
                n == self.area@.len(),
                k <= n,
                areas_wf(self.area@),
                self.next.i <= FRAME_CEIL,
                match best {
                    None => forall|j: int|
                        0 <= j < k ==> area_last(#[trigger] self.area@[j]) < self.next.i,
                    Some(b) => b < k && area_last(self.area@[b as int]) >= self.next.i && (
                    forall|j: int|
                        0 <= j < k && area_last(#[trigger] self.area@[j]) >= self.next.i
                            ==> self.area@[b as int].base <= self.area@[j].base) && (forall|
                        j: int,
                    |
                        0 <= j < b ==> area_last(#[trigger] self.area@[j]) < self.next.i
                            || self.area@[j].base > self.area@[b as int].base),
                },
            decreases n - k,
        {
            let a = self.area[k];
            let last = (a.base + a.len - 1) / PAGE_SIZE;
            if last >= self.next.i {
                match best {
                    None => {
                        best = Some(k);
                    },
                    Some(b) => {
                        let ab = self.area[b];
                        if a.base < ab.base {
                            best = Some(k);
                        }
                    },
                }
            }
            k = k + 1;
        }
        let ghost pre = *self;
        self.curr = best;
        match best {
            None => {
                proof {
                    assert forall|f: int| !self.eligible(f) by {
                        if self.eligible(f) {
                            let j = choose|j: int|
                                0 <= j < self.areas().len() && area_covers(
                                    #[trigger] self.areas()[j],
                                    f,
                                );
                            assert(area_last(self.area@[j]) < self.next.i);
                        }
                    }
                    assert forall|f: int| self.eligible(f) == pre.eligible(f) by {}
                    assert(self.avail() =~= Set::new(|f: int| pre.eligible(f))) by {
                        assert forall|f: int| !pre.eligible(f) by {
                            if pre.eligible(f) {
                                assert(self.eligible(f));
                            }
                        }
                        assert(Set::new(|f: int| pre.eligible(f)) =~= Set::<int>::empty());
                    }
                }
            },
            Some(b) => {
                let ab = self.area[b];
                let sfr = Frame::caddr(ab.base);
                let ghost mid = *self;
                if self.next.i < sfr.i {
                    self.next = sfr;
                }
                proof {
                    assert(area_first(self.area@[b as int]) <= self.cursor());
                    assert(area_last(self.area@[b as int]) >= self.cursor()) by {
                        assert(area_first(ab) <= area_last(ab)) by (nonlinear_arith)
                            requires
                                ab.len > 0,
                                ab.base + ab.len <= MAX_FRAME * PAGE_SIZE,
                                area_first(ab) == ab.base as int / PAGE_SIZE as int,
                                area_last(ab) == (ab.base + ab.len - 1) / PAGE_SIZE as int,
                                PAGE_SIZE == 4096,
                        ;
                    }
                    assert forall|f: int| self.eligible(f) == pre.eligible(f) by {
                        if pre.eligible(f) && f < self.cursor() {
                            let j = choose|j: int|
                                0 <= j < pre.areas().len() && area_covers(
                                    #[trigger] pre.areas()[j],
                                    f,
                                );
                            assert(area_last(pre.area@[j]) >= f >= pre.next.i);
                            assert(pre.area@[b as int].base <= pre.area@[j].base);
                            assert(area_first(pre.area@[b as int]) <= area_first(pre.area@[j]))
                                by (nonlinear_arith)
                                requires
                                    pre.area@[b as int].base <= pre.area@[j].base,
                                    area_first(pre.area@[b as int]) == pre.area@[b as int].base
                                        as int / PAGE_SIZE as int,
                                    area_first(pre.area@[j]) == pre.area@[j].base as int
                                        / PAGE_SIZE as int,
                                    PAGE_SIZE == 4096,
                            ;
                            assert(area_first(pre.area@[j]) <= f);
                            assert(false);
                        }
                    }
                    assert(self.avail() =~= Set::new(|f: int| pre.eligible(f)));
                    assert(self.next.i <= FRAME_CEIL);
                }
            },
        }
    }
}

/// A fixed three-slot allocator, filled by draining three frames from a
/// backing allocator; it serves the bounded needs of page-table surgery.
pub struct TAllocator {
    pub s0: Option<Frame>,
    pub s1: Option<Frame>,
    pub s2: Option<Frame>,
}

impl TAllocator {
    /// The index held by a slot, if any.
    pub open spec fn slot_set(s: Option<Frame>) -> Set<int> {
        match s {
            Some(f) => Set::empty().insert(f.i as int),
            None => Set::empty(),
        }
    }

    /// Drain up to three frames from the backing allocator.
    pub fn new<A: FrameAllocator>(a: &mut A) -> (r: TAllocator)
        requires
            old(a).wf(),
        ensures
            final(a).wf(),
            r.wf(),
            r.avail().subset_of(old(a).avail()),
            final(a).avail() == old(a).avail().difference(r.avail()),
            forall|j: int| r.avail().contains(j) ==> 0 <= j < MAX_FRAME,
            old(a).avail().len() >= 3 && old(a).avail().finite() ==> r.avail().len() == 3,
    {
        let f0 = a.allocate();
        let f1 = a.allocate();
        let f2 = a.allocate();
        let r = TAllocator { s0: f0, s1: f1, s2: f2 };
        proof {
            assert(r.avail() =~= Self::slot_set(f0) + Self::slot_set(f1) + Self::slot_set(f2));
            assert(a.avail() =~= old(a).avail().difference(r.avail()));
            if old(a).avail().len() >= 3 && old(a).avail().finite() {
                let v0 = f0.unwrap();
                broadcast use vstd::set_lib::group_set_properties;

                assert(r.avail().len() == 3) by {
                    let x0 = v0.i as int;
                    let x1 = f1.unwrap().i as int;
                    let x2 = f2.unwrap().i as int;
                    assert(r.avail() =~= Set::empty().insert(x0).insert(x1).insert(x2));
                }
            }
        }
        r
    }
}

impl FrameAllocator for TAllocator {
    /// Slots hold pairwise distinct frames.
    open spec fn wf(&self) -> bool {
        &&& (self.s0 is Some && self.s1 is Some ==> self.s0.unwrap().i != self.s1.unwrap().i)
        &&& (self.s0 is Some && self.s2 is Some ==> self.s0.unwrap().i != self.s2.unwrap().i)
        &&& (self.s1 is Some && self.s2 is Some ==> self.s1.unwrap().i != self.s2.unwrap().i)
        &&& (self.s0 is Some ==> self.s0.unwrap().i < MAX_FRAME)
        &&& (self.s1 is Some ==> self.s1.unwrap().i < MAX_FRAME)
        &&& (self.s2 is Some ==> self.s2.unwrap().i < MAX_FRAME)
    }

    /// The frames currently held in the slots.
    open spec fn avail(&self) -> Set<int> {
        Self::slot_set(self.s0) + Self::slot_set(self.s1) + Self::slot_set(self.s2)
    }

    /// The slots come back in slot order, not frame order.
    open spec fn ordered(&self) -> bool {
        false
    }

    /// A frame can come back while a slot is empty and it is not already
    /// held.
    open spec fn can_dealloc(&self, fr: Frame) -> bool {
        (self.s0 is None || self.s1 is None || self.s2 is None) && !self.avail().contains(
            fr.i as int,
        ) && fr.i < MAX_FRAME
    }

    /// Hand out the first held frame.
    fn allocate(&mut self) -> (r: Option<Frame>)
    {
        if self.s0.is_some() {
            let f = self.s0.take();
            proof {
                assert(self.avail() =~= old(self).avail().remove(f.unwrap().i as int));
            }
            return f;
        }
        if self.s1.is_some() {
            let f = self.s1.take();
            proof {
                assert(self.avail() =~= old(self).avail().remove(f.unwrap().i as int));
            }
            return f;
        }
        if self.s2.is_some() {
            let f = self.s2.take();
            proof {
                assert(self.avail() =~= old(self).avail().remove(f.unwrap().i as int));
            }
            return f;
        }
        proof {
            assert(self.avail() =~= Set::<int>::empty());
        }
        None
    }

    /// Put a frame back into the first empty slot.
    fn dealloc(&mut self, fr: Frame) {
        if self.s0.is_none() {
            self.s0 = Some(fr);
            proof {
                assert(self.avail() =~= old(self).avail().insert(fr.i as int));
            }
            return;
        }
        if self.s1.is_none() {
            self.s1 = Some(fr);
            proof {
                assert(self.avail() =~= old(self).avail().insert(fr.i as int));
            }
            return;
        }
        self.s2 = Some(fr);
        proof {
            assert(self.avail() =~= old(self).avail().insert(fr.i as int));
        }
    }
}

} // verus!
