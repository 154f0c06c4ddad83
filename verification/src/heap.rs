//! The kernel heap: a fixed virtual region managed by a first-fit hole list,
//! together with the address-alignment helpers the allocators share.
//!
//! Addresses and sizes are 64-bit values throughout the library.

use vstd::prelude::*;

use crate::hole::{
    block_free, holes_in_range, holes_sum, holes_wf, spec_alloc, spec_dealloc, Hole, Holes,
    MAX_ALIGN, MAX_HOLE_END, MIN_SIZE,
};

verus! {

/// A request for a block of memory: a size and a power-of-two alignment.
#[derive(Clone, Copy, PartialEq, Eq, Structural, Debug)]
pub struct Layout {
    pub size: u64,
    pub align: u64,
}

impl Layout {
    /// A layout is usable when its alignment is a power of two.
    pub open spec fn wf(self) -> bool {
        is_pow2(self.align)
    }

    /// Build a layout, rejecting alignments that are not powers of two.
    pub fn from_size_align(size: u64, align: u64) -> (r: Option<Layout>)
        ensures
            r is Some <==> is_pow2(align),
            r is Some ==> r->0 == (Layout { size, align }),
    {
        if align != 0 && align & (align - 1) == 0 {
            Some(Layout { size, align })
        } else {
            None
        }
    }

    /// The requested size in bytes.
    pub fn size(&self) -> (r: u64)
        ensures
            r == self.size,
    {
        self.size
    }

    /// The requested alignment in bytes.
    pub fn align(&self) -> (r: u64)
        ensures
            r == self.align,
    {
        self.align
    }
}

/// Failure of an allocation request.
#[derive(Clone, Copy, PartialEq, Eq, Structural, Debug)]
pub enum AllocErr {
    /// No hole can hold a block of the requested layout.
    Exhausted,
}

/// Requested sizes are first normalized: at least the minimum block size,
/// then rounded up to the hole alignment of eight bytes.
pub open spec fn norm_size(sz: int) -> int {
    spec_align_up(
        if sz < MIN_SIZE {
            MIN_SIZE as int
        } else {
            sz
        },
        8,
    )
}

/// Sizes beyond this bound are rejected before normalization.
pub const MAX_REQUEST: u64 = 0x4000_0000_0000_0000;

/// The kernel heap: a fixed virtual region `[bottom, bottom + size)` whose
/// free blocks form a sorted hole list.
pub struct Heap {
    b: u64,
    s: u64,
    h: Holes,
}

impl Heap {
    /// The free holes of the heap, in address order.
    pub closed spec fn holes(&self) -> Seq<Hole> {
        self.h@
    }

    /// Bottom of the heap region.
    pub closed spec fn bottom_spec(&self) -> u64 {
        self.b
    }

    /// Size of the heap region in bytes.
    pub closed spec fn size_spec(&self) -> u64 {
        self.s
    }

    /// The hole list is well formed and lies inside the heap region, which
    /// stays in the lower half of the address space.
    pub open spec fn wf(&self) -> bool {
        &&& holes_wf(self.holes())
        &&& holes_in_range(self.holes(), self.bottom_spec() as int, self.bottom_spec() + self.size_spec())
        &&& self.bottom_spec() + self.size_spec() <= MAX_HOLE_END
    }

    /// Create a new instance of an empty heap.
    pub fn blank() -> (r: Heap)
        ensures
            r.wf(),
            r.holes() == Seq::<Hole>::empty(),
            r.bottom_spec() == 0,
            r.size_spec() == 0,
    {
        Heap { b: 0, s: 0, h: Holes::blank() }
    }

    /// Initialize an empty heap over the region `[b, b + s)`.
    pub fn init(&mut self, b: u64, s: u64)
        requires
            s >= MIN_SIZE,
            b + s <= MAX_HOLE_END,
        ensures
            final(self).wf(),
            final(self).bottom_spec() == b,
            final(self).size_spec() == s,
            final(self).holes() == seq![Hole { a: b, s }],
    {
        self.h = Holes::new(b, s);
        self.b = b;
        self.s = s;
    }

    /// A fresh heap over the region `[b, b + s)`, entirely free.
    pub fn new(b: u64, s: u64) -> (r: Heap)
        requires
            s >= MIN_SIZE,
            b + s <= MAX_HOLE_END,
        ensures
            r.wf(),
            r.bottom_spec() == b,
            r.size_spec() == s,
            r.holes() == seq![Hole { a: b, s }],
    {
        Heap { h: Holes::new(b, s), b, s }
    }

    /// Bottom of the heap region.
    pub fn bottom(&self) -> (r: u64)
        ensures
            r == self.bottom_spec(),
    {
        self.b
    }

    /// Size of the heap region in bytes.
    pub fn size(&self) -> (r: u64)
        ensures
            r == self.size_spec(),
    {
        self.s
    }

    /// Address one past the heap region.
    pub fn top(&self) -> (r: u64)
        requires
            self.wf(),
        ensures
            r == self.bottom_spec() + self.size_spec(),
    {
        self.b + self.s
    }

    /// Number of free holes.
    pub fn hole_count(&self) -> (r: usize)
        ensures
            r == self.holes().len(),
    {
        self.h.count()
    }

    /// The free hole at the given position, in address order.
    pub fn hole_at(&self, i: usize) -> (r: Hole)
        requires
            i < self.holes().len(),
        ensures
            r == self.holes()[i as int],
    {
        self.h.get(i)
    }

    /// Grow the heap by `n` bytes past its top; the new bytes join the hole
    /// list as one freed block.
    pub fn extend(&mut self, n: u64)
        requires
            old(self).wf(),
            n >= MIN_SIZE,
            old(self).bottom_spec() + old(self).size_spec() + n <= MAX_HOLE_END,
        ensures
            final(self).wf(),
            final(self).bottom_spec() == old(self).bottom_spec(),
            final(self).size_spec() == old(self).size_spec() + n,
            final(self).holes() == spec_dealloc(
                old(self).holes(),
                (old(self).bottom_spec() + old(self).size_spec()) as u64,
                n,
            ),
            holes_sum(final(self).holes()) == holes_sum(old(self).holes()) + n,
    {
        let top = self.top();
        self.h.dealloc(top, &Layout { size: n, align: 1 });
        proof {
            crate::hole::lemma_dealloc_in_range(
                old(self).holes(),
                top,
                n,
                self.b as int,
                self.b + self.s + n,
            );
        }
        self.s = self.s + n;
    }

    /// Allocate a block: the size is normalized, then the first hole that
    /// fits provides the block.
    pub fn alloc_first_fit(&mut self, l: &Layout) -> (r: Result<u64, AllocErr>)
        requires
            old(self).wf(),
            l.wf(),
            l.size <= MAX_REQUEST,
            l.align <= MAX_ALIGN,
        ensures
            final(self).wf(),
            final(self).bottom_spec() == old(self).bottom_spec(),
            final(self).size_spec() == old(self).size_spec(),
            match r {
                Ok(addr) => spec_alloc(
                    old(self).holes(),
                    norm_size(l.size as int),
                    l.align as int,
                ) == Some((addr, final(self).holes())) && holes_sum(final(self).holes())
                    == holes_sum(old(self).holes()) - norm_size(l.size as int) && addr as int % (
                l.align as int) == 0 && old(self).bottom_spec() <= addr,
                Err(_) => spec_alloc(
                    old(self).holes(),
                    norm_size(l.size as int),
                    l.align as int,
                ) is None && final(self).holes() == old(self).holes(),
            },
    {
        let nl = normalize(l);
        let r = self.h.alloc_first_fit(nl);
        proof {
            if r is Ok {
                crate::hole::lemma_alloc_full(
                    old(self).holes(),
                    norm_size(l.size as int),
                    l.align as int,
                    self.b as int,
                    self.b + self.s,
                );
            }
        }
        r
    }

    /// Return the block at `ptr` to the heap; the layout must be the one the
    /// block was allocated with, so the same normalization applies.
    pub fn dealloc(&mut self, ptr: u64, l: &Layout)
        requires
            old(self).wf(),
            l.wf(),
            l.size <= MAX_REQUEST,
            old(self).bottom_spec() <= ptr,
            ptr + norm_size(l.size as int) <= old(self).bottom_spec() + old(self).size_spec(),
            block_free(old(self).holes(), ptr, norm_size(l.size as int) as u64),
        ensures
            final(self).wf(),
            final(self).bottom_spec() == old(self).bottom_spec(),
            final(self).size_spec() == old(self).size_spec(),
            final(self).holes() == spec_dealloc(
                old(self).holes(),
                ptr,
                norm_size(l.size as int) as u64,
            ),
            holes_sum(final(self).holes()) == holes_sum(old(self).holes()) + norm_size(
                l.size as int,
            ),
    {
        let nl = normalize(l);
        self.h.dealloc(ptr, &nl);
        proof {
            crate::hole::lemma_dealloc_in_range(
                old(self).holes(),
                ptr,
                nl.size,
                self.b as int,
                self.b + self.s,
            );
        }
    }
}

/// Normalize a layout: sizes below the minimum block grow to it, and the
/// size is rounded up to the eight-byte hole alignment.
fn normalize(l: &Layout) -> (r: Layout)
    requires
        l.size <= MAX_REQUEST,
    ensures
        r.size == norm_size(l.size as int),
        r.align == l.align,
        r.size >= MIN_SIZE,
        r.size <= MAX_HOLE_END,
{
    let s0 = if l.size < Holes::min_size() {
        Holes::min_size()
    } else {
        l.size
    };
    proof {
        assert(8u64 & 7u64 == 0) by (bit_vector);
    }
    let s1 = align_up(s0, 8);
    Layout { size: s1, align: l.align }
}

/// `a` is a power of two (and hence a usable alignment).
pub open spec fn is_pow2(a: u64) -> bool {
    a != 0 && a & ((a - 1) as u64) == 0
}

/// A nonzero value whose predecessor shares no bits with it is a power of two.
proof fn lemma_pow2_exponent(a: u64) -> (k: nat)
    requires
        is_pow2(a),
    ensures
        k < 64,
        vstd::arithmetic::power2::pow2(k) == a,
    decreases a,
{
    if a == 1 {
        assert(vstd::arithmetic::power2::pow2(0) == 1) by {
            vstd::arithmetic::power2::lemma2_to64();
        }
        0
    } else {
        assert(a % 2 == 0 && a >> 1u64 == a / 2 && a / 2 != 0 && (a / 2) & (((a / 2) - 1) as u64)
            == 0) by (bit_vector)
            requires
                a != 0 && a != 1 && a & ((a - 1) as u64) == 0,
        ;
        let k1 = lemma_pow2_exponent(a / 2);
        assert(vstd::arithmetic::power2::pow2(k1 + 1) == 2 * vstd::arithmetic::power2::pow2(k1))
            by {
            vstd::arithmetic::power2::lemma_pow2_unfold(k1 + 1);
        }
        if k1 + 1 >= 64 {
            vstd::arithmetic::power2::lemma_pow2_strictly_increases(63, k1 + 1);
            assert(vstd::arithmetic::power2::pow2(63) == 0x8000000000000000) by {
                vstd::arithmetic::power2::lemma2_to64_rest();
            }
        }
        k1 + 1
    }
}

/// Round `addr` down to the next multiple of `align`.
///
/// A zero alignment leaves the address unchanged; a non-power-of-two
/// alignment is a fatal error in the kernel and is excluded here.
#[verifier::rlimit(60)]
pub fn align_down(addr: u64, align: u64) -> (r: u64)
    requires
        align == 0 || is_pow2(align),
    ensures
        align == 0 ==> r == addr,
        align != 0 ==> r == addr - addr % align,
{
    if align == 0 {
        return addr;
    }
    let r = addr & !(align - 1);
    proof {
        let k = lemma_pow2_exponent(align);
        vstd::bits::lemma_u64_low_bits_mask_is_mod(addr, k);
        assert(r + (addr & ((align - 1) as u64)) == addr) by (bit_vector)
            requires
                align != 0,
                r == addr & !((align - 1) as u64),
        ;
    }
    r
}

/// The least multiple of `a` that is at least `x`.
pub open spec fn spec_align_up(x: int, a: int) -> int {
    x + ((a - x % a) % a)
}

/// The defining properties of `spec_align_up`: it yields the one multiple of
/// `a` in the window `[x, x + a)`.
pub proof fn lemma_spec_align_up(x: int, a: int)
    requires
        a > 0,
    ensures
        spec_align_up(x, a) % a == 0,
        x <= spec_align_up(x, a) < x + a,
{
    assert(spec_align_up(x, a) % a == 0 && x <= spec_align_up(x, a) < x + a) by (nonlinear_arith)
        requires
            a > 0,
    ;
}

/// Round `addr` up to the next multiple of `align`, a power of two.
///
/// The result `addr + align - 1` must fit in 64 bits.
pub fn align_up(addr: u64, align: u64) -> (r: u64)
    requires
        is_pow2(align),
        addr + align - 1 <= u64::MAX,
    ensures
        r % align == 0,
        addr <= r < addr + align,
        r == spec_align_up(addr as int, align as int),
{
    if addr == 0 {
        proof {
            assert(spec_align_up(0, align as int) == 0) by (nonlinear_arith)
                requires
                    align > 0,
            ;
        }
        return 0;
    }
    let d = align_down(addr - 1 + align, align);
    proof {
        lemma_mod_range((addr - 1 + align) as u64, align);
        lemma_spec_align_up(addr as int, align as int);
        let su = spec_align_up(addr as int, align as int);
        assert(d == su) by (nonlinear_arith)
            requires
                align > 0,
                d as int % (align as int) == 0,
                su % (align as int) == 0,
                addr <= d < addr + align,
                addr <= su < addr + align,
        ;
    }
    d
}

proof fn lemma_mod_range(x: u64, a: u64)
    requires
        a != 0,
    ensures
        0 <= x % a < a,
        (x - x % a) % (a as int) == 0,
{
    assert(0 <= x % a < a) by (nonlinear_arith)
        requires
            a != 0,
    ;
    assert((x - x % a) % (a as int) == 0) by (nonlinear_arith)
        requires
            a != 0,
    ;
}

/// Rounding up after rounding down changes nothing: `align_down` yields a
/// multiple of the alignment, and `align_up` of a multiple is itself, so
/// `align_up(align_down(x, a), a) == align_down(x, a)`.
pub proof fn lemma_align_up_down(x: u64, a: u64)
    requires
        is_pow2(a),
    ensures
        spec_align_up(x - x % a, a as int) == x - x % a,
{
    lemma_mod_range(x, a);
    let d = x - x % a;
    lemma_spec_align_up(d, a as int);
    assert(spec_align_up(d, a as int) == d) by (nonlinear_arith)
        requires
            a > 0,
            d % (a as int) == 0,
            spec_align_up(d, a as int) % (a as int) == 0,
            d <= spec_align_up(d, a as int) < d + a,
    ;
}

/// An aligned address is a fixed point of `align_up`: the only multiple of
/// `a` in `[x, x + a)` is `x` itself, so in particular
/// `align_up(align_down(y, a), a) == align_down(y, a)`.
pub proof fn lemma_align_up_of_aligned(x: u64, a: u64, r: u64)
    requires
        is_pow2(a),
        x % a == 0,
        r % a == 0,
        x <= r < x + a,
    ensures
        r == x,
{
    assert(r == x) by (nonlinear_arith)
        requires
            a != 0,
            r % a == 0,
            x % a == 0,
            x <= r < x + a,
    ;
}

} // verus!
