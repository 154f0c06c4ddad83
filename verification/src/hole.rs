//! The sorted list of free holes backing the kernel heap.
//!
//! The kernel keeps its free blocks as an intrusive singly-linked list written
//! into the free memory itself; here the same list is held as a vector of
//! `{address, size}` pairs, address-sorted, with no two holes overlapping or
//! touching.  First-fit allocation and coalescing deallocation follow the
//! kernel's walk exactly, and their contracts give the resulting list in full.

use vstd::prelude::*;

use crate::heap::{align_up, lemma_spec_align_up, spec_align_up, AllocErr, Layout};

verus! {

/// The minimum size of a hole and of an allocation: two machine words.
pub const MIN_SIZE: u64 = 16;

/// Holes never extend beyond this address: the model keeps the heap inside
/// the lower half of the 64-bit space so that padding arithmetic cannot wrap.
pub const MAX_HOLE_END: u64 = 0x8000_0000_0000_0000;

/// Alignments above this bound are rejected by the allocation walk.
pub const MAX_ALIGN: u64 = 0x1000_0000_0000_0000;

/// A free block: its address and its size in bytes.
#[derive(Clone, Copy, PartialEq, Eq, Structural, Debug)]
pub struct Hole {
    pub a: u64,
    pub s: u64,
}

impl Hole {
    /// Address one past the block.
    pub open spec fn end(self) -> int {
        self.a + self.s
    }
}

/// A successful split of a hole: the allocated block and the fragments that
/// remain in front of and behind it.
#[derive(Clone, Copy, PartialEq, Eq, Structural, Debug)]
pub struct Alloc {
    pub info: Hole,
    pub fr_p: Option<Hole>,
    pub ba_p: Option<Hole>,
}

/// The hole list is address-sorted, every hole is at least `MIN_SIZE` bytes,
/// stays below `MAX_HOLE_END`, and no two holes overlap or touch.
pub open spec fn holes_wf(hs: Seq<Hole>) -> bool {
    &&& (forall|i: int| 0 <= i < hs.len() ==> (#[trigger] hs[i]).s >= MIN_SIZE)
    &&& (forall|i: int| 0 <= i < hs.len() ==> (#[trigger] hs[i]).end() <= MAX_HOLE_END)
    &&& (forall|i: int, j: int|
        0 <= i < j < hs.len() ==> (#[trigger] hs[i]).end() < (#[trigger] hs[j]).a)
}

/// Total number of free bytes in the list.
pub open spec fn holes_sum(hs: Seq<Hole>) -> int
    decreases hs.len(),
{
    if hs.len() == 0 {
        0
    } else {
        hs[0].s + holes_sum(hs.skip(1))
    }
}

/// The block `[a, a + s)` overlaps no hole of the list (touching is fine).
pub open spec fn block_free(hs: Seq<Hole>, a: u64, s: u64) -> bool {
    forall|i: int| 0 <= i < hs.len() ==> (#[trigger] hs[i]).end() <= a || a + s <= hs[i].a
}

/// What `split_hole` yields on a hole: the aligned block address and the
/// front and back fragments, or nothing when the hole cannot hold the block.
pub open spec fn spec_split_hole(h: Hole, size: int, align: int) -> Option<(
    u64,
    Option<Hole>,
    Option<Hole>,
)> {
    let (aligned, fr_p): (int, Option<Hole>) = if h.a == spec_align_up(h.a as int, align) {
        (h.a as int, None)
    } else {
        let al = spec_align_up(h.a + MIN_SIZE, align);
        (al, Some(Hole { a: h.a, s: (al - h.a) as u64 }))
    };
    if aligned + size > h.end() {
        None
    } else {
        let rest = h.end() - (aligned + size);
        if rest == 0 {
            Some(((aligned as u64), fr_p, None))
        } else if rest < MIN_SIZE {
            None
        } else {
            Some(
                (
                    (aligned as u64),
                    fr_p,
                    Some(Hole { a: (aligned + size) as u64, s: rest as u64 }),
                ),
            )
        }
    }
}

/// The list after the block `[a, a + s)` returns to it: the kernel's walk
/// finds the insertion point and coalesces with either neighbour.
pub open spec fn spec_dealloc(hs: Seq<Hole>, a: u64, s: u64) -> Seq<Hole>
    decreases hs.len(),
{
    if hs.len() == 0 {
        seq![Hole { a, s }]
    } else {
        let h0 = hs[0];
        if h0.a > a {
            if a + s == h0.a {
                seq![Hole { a, s: (s + h0.s) as u64 }] + hs.skip(1)
            } else {
                seq![Hole { a, s }] + hs
            }
        } else if h0.end() == a {
            if hs.len() > 1 && a + s == hs[1].a {
                seq![Hole { a: h0.a, s: (h0.s + s + hs[1].s) as u64 }] + hs.skip(2)
            } else {
                seq![Hole { a: h0.a, s: (h0.s + s) as u64 }] + hs.skip(1)
            }
        } else {
            seq![h0] + spec_dealloc(hs.skip(1), a, s)
        }
    }
}

/// Deallocate an optional padding fragment.
pub open spec fn spec_dealloc_opt(hs: Seq<Hole>, p: Option<Hole>) -> Seq<Hole> {
    match p {
        Some(h) => spec_dealloc(hs, h.a, h.s),
        None => hs,
    }
}

/// First-fit allocation over the list: the first hole that splits provides
/// the block, and its padding fragments rejoin the list.
pub open spec fn spec_alloc(hs: Seq<Hole>, size: int, align: int) -> Option<(u64, Seq<Hole>)>
    decreases hs.len(),
{
    if hs.len() == 0 {
        None
    } else {
        match spec_split_hole(hs[0], size, align) {
            Some((addr, fr_p, ba_p)) => Some(
                (addr, spec_dealloc_opt(spec_dealloc_opt(hs.skip(1), fr_p), ba_p)),
            ),
            None => match spec_alloc(hs.skip(1), size, align) {
                Some((addr, t)) => Some((addr, seq![hs[0]] + t)),
                None => None,
            },
        }
    }
}

proof fn lemma_wf_cons(x: Hole, t: Seq<Hole>)
    requires
        holes_wf(t),
        x.s >= MIN_SIZE,
        x.end() <= MAX_HOLE_END,
        t.len() > 0 ==> x.end() < t[0].a,
    ensures
        holes_wf(seq![x] + t),
{
    let r = seq![x] + t;
    assert forall|i: int, j: int| 0 <= i < j < r.len() implies (#[trigger] r[i]).end() < (
    #[trigger] r[j]).a by {
        if i == 0 {
            if j > 1 {
                assert(t[0].end() < t[j - 1].a);
            }
        } else {
            assert(t[i - 1].end() < t[j - 1].a);
        }
    }
    assert forall|i: int| 0 <= i < r.len() implies (#[trigger] r[i]).s >= MIN_SIZE && r[i].end()
        <= MAX_HOLE_END by {
        if i > 0 {
            assert(t[i - 1].s >= MIN_SIZE);
        }
    }
}

proof fn lemma_sum_cons(x: Hole, t: Seq<Hole>)
    ensures
        holes_sum(seq![x] + t) == x.s + holes_sum(t),
{
    let r = seq![x] + t;
    assert(r.len() > 0 && r[0] == x);
    assert(r.skip(1) =~= t);
}

/// Returning a disjoint block to the list keeps it well formed and grows the
/// free total by exactly the block's size; the first hole never moves below
/// the lower of the old first hole and the block.
proof fn lemma_dealloc_props(hs: Seq<Hole>, a: u64, s: u64)
    requires
        holes_wf(hs),
        s >= MIN_SIZE,
        a + s <= MAX_HOLE_END,
        block_free(hs, a, s),
    ensures
        holes_wf(spec_dealloc(hs, a, s)),
        holes_sum(spec_dealloc(hs, a, s)) == holes_sum(hs) + s,
        spec_dealloc(hs, a, s).len() > 0,
        spec_dealloc(hs, a, s)[0].a == if hs.len() == 0 || a < hs[0].a {
            a as int
        } else {
            hs[0].a as int
        },
    decreases hs.len(),
{
    let r = spec_dealloc(hs, a, s);
    let b = Hole { a, s };
    if hs.len() == 0 {
        assert(r =~= seq![b] + Seq::<Hole>::empty());
        lemma_wf_cons(b, Seq::<Hole>::empty());
        lemma_sum_cons(b, Seq::<Hole>::empty());
    } else {
        let h0 = hs[0];
        assert(h0.end() <= a || a + s <= h0.a);
        if h0.a > a {
            if a + s == h0.a {
                let m = Hole { a, s: (s + h0.s) as u64 };
                assert(r == seq![m] + hs.skip(1));
                assert(holes_wf(hs.skip(1)));
                lemma_wf_cons(m, hs.skip(1));
                lemma_sum_cons(m, hs.skip(1));
                lemma_sum_cons(h0, hs.skip(1));
                assert(seq![h0] + hs.skip(1) =~= hs);
            } else {
                assert(r == seq![b] + hs);
                lemma_wf_cons(b, hs);
                lemma_sum_cons(b, hs);
            }
        } else if h0.end() == a {
            if hs.len() > 1 && a + s == hs[1].a {
                let m = Hole { a: h0.a, s: (h0.s + s + hs[1].s) as u64 };
                assert(r == seq![m] + hs.skip(2));
                assert(holes_wf(hs.skip(2)));
                assert(hs.len() > 2 ==> hs[1].end() < hs[2].a);
                lemma_wf_cons(m, hs.skip(2));
                lemma_sum_cons(m, hs.skip(2));
                lemma_sum_cons(h0, hs.skip(1));
                lemma_sum_cons(hs[1], hs.skip(2));
                assert(hs.skip(1).skip(1) =~= hs.skip(2));
                assert(seq![hs[1]] + hs.skip(2) =~= hs.skip(1));
            } else {
                let m = Hole { a: h0.a, s: (h0.s + s) as u64 };
                assert(r == seq![m] + hs.skip(1));
                assert(hs.len() > 1 ==> a + s <= hs[1].a && a + s != hs[1].a);
                lemma_wf_cons(m, hs.skip(1));
                lemma_sum_cons(m, hs.skip(1));
                lemma_sum_cons(h0, hs.skip(1));
            }
        } else {
            assert(h0.end() < a);
            assert(block_free(hs.skip(1), a, s)) by {
                assert(forall|i: int|
                    0 <= i < hs.skip(1).len() ==> hs.skip(1)[i] == hs[i + 1]);
            }
            lemma_dealloc_props(hs.skip(1), a, s);
            let t = spec_dealloc(hs.skip(1), a, s);
            assert(r == seq![h0] + t);
            assert(t.len() > 0 && h0.end() < t[0].a) by {
                if hs.len() > 1 {
                    assert(h0.end() < hs[1].a);
                }
            }
            lemma_wf_cons(h0, t);
            lemma_sum_cons(h0, t);
            lemma_sum_cons(h0, hs.skip(1));
            assert(seq![h0] + hs.skip(1) =~= hs);
        }
    }
}

/// A block disjoint from the list and from the deallocated block stays
/// disjoint from the resulting list.
proof fn lemma_dealloc_keeps_free(hs: Seq<Hole>, a: u64, s: u64, ba: u64, bs: u64)
    requires
        block_free(hs, ba, bs),
        a + s <= ba || ba + bs <= a,
        a + s <= MAX_HOLE_END,
        s >= 1,
        bs >= 1,
    ensures
        block_free(spec_dealloc(hs, a, s), ba, bs),
    decreases hs.len(),
{
    let r = spec_dealloc(hs, a, s);
    if hs.len() == 0 {
        assert forall|i: int| 0 <= i < r.len() implies (#[trigger] r[i]).end() <= ba || ba + bs
            <= r[i].a by {
            assert(r[i] == Hole { a, s });
        }
    } else {
        let h0 = hs[0];
        assert(h0.end() <= ba || ba + bs <= h0.a);
        if h0.a > a || h0.end() == a {
            // One merged hole spanning within [min(a, h0.a), max(a + s, hole ends)],
            // followed by untouched holes of the list.
            assert forall|i: int| 0 <= i < r.len() implies (#[trigger] r[i]).end() <= ba || ba
                + bs <= r[i].a by {
                if h0.a > a {
                    if a + s == h0.a {
                        if i == 0 {
                            assert(r[i] == Hole { a, s: (s + h0.s) as u64 });
                        } else {
                            assert(r[i] == hs[i]);
                        }
                    } else {
                        if i == 0 {
                            assert(r[i] == Hole { a, s });
                        } else {
                            assert(r[i] == hs[i - 1]);
                        }
                    }
                } else {
                    if hs.len() > 1 && a + s == hs[1].a {
                        if i == 0 {
                            assert(r[i] == Hole { a: h0.a, s: (h0.s + s + hs[1].s) as u64 });
                            assert(hs[1].end() <= ba || ba + bs <= hs[1].a);
                        } else {
                            assert(r[i] == hs[i + 1]);
                        }
                    } else {
                        if i == 0 {
                            assert(r[i] == Hole { a: h0.a, s: (h0.s + s) as u64 });
                        } else {
                            assert(r[i] == hs[i]);
                        }
                    }
                }
            }
        } else {
            assert(forall|i: int| 0 <= i < hs.skip(1).len() ==> hs.skip(1)[i] == hs[i + 1]);
            lemma_dealloc_keeps_free(hs.skip(1), a, s, ba, bs);
            let t = spec_dealloc(hs.skip(1), a, s);
            assert forall|i: int| 0 <= i < r.len() implies (#[trigger] r[i]).end() <= ba || ba
                + bs <= r[i].a by {
                if i == 0 {
                    assert(r[i] == h0);
                } else {
                    assert(r[i] == t[i - 1]);
                }
            }
        }
    }
}

proof fn lemma_sum_concat(p: Seq<Hole>, t: Seq<Hole>)
    ensures
        holes_sum(p + t) == holes_sum(p) + holes_sum(t),
    decreases p.len(),
{
    if p.len() == 0 {
        assert(p + t =~= t);
    } else {
        lemma_sum_concat(p.skip(1), t);
        assert((p + t).skip(1) =~= p.skip(1) + t);
        assert((p + t)[0] == p[0]);
    }
}

/// Properties of a successful split: the block is aligned and lies inside
/// the hole, the paddings are the exact remainders in front and behind, and
/// the three parts account for the whole hole.
proof fn lemma_split_props(h: Hole, size: int, align: int)
    requires
        MIN_SIZE <= size,
        align >= 1,
        h.s >= MIN_SIZE,
        h.end() <= MAX_HOLE_END,
        spec_split_hole(h, size, align) is Some,
    ensures
        ({
            let (addr, fr, ba) = spec_split_hole(h, size, align).unwrap();
            &&& addr as int % align == 0
            &&& h.a <= addr
            &&& addr + size <= h.end()
            &&& (fr is Some ==> fr.unwrap().a == h.a && fr.unwrap().end() == addr
                && fr.unwrap().s >= MIN_SIZE)
            &&& (fr is None ==> addr == h.a)
            &&& (ba is Some ==> ba.unwrap().a == addr + size && ba.unwrap().end() == h.end()
                && ba.unwrap().s >= MIN_SIZE)
            &&& (ba is None ==> addr + size == h.end())
            &&& (match fr {
                Some(f) => f.s as int,
                None => 0,
            }) + size + (match ba {
                Some(b) => b.s as int,
                None => 0,
            }) == h.s
        }),
{
    lemma_spec_align_up(h.a as int, align);
    lemma_spec_align_up(h.a + MIN_SIZE, align);
}

/// The first-fit walk leaves the holes before the chosen one alone.
proof fn lemma_alloc_split_at(hs: Seq<Hole>, size: int, align: int, i: int)
    requires
        0 <= i <= hs.len(),
        forall|j: int| 0 <= j < i ==> spec_split_hole(#[trigger] hs[j], size, align) is None,
    ensures
        spec_alloc(hs, size, align) == match spec_alloc(hs.skip(i), size, align) {
            Some((addr, t)) => Some((addr, hs.subrange(0, i) + t)),
            None => None::<(u64, Seq<Hole>)>,
        },
    decreases i,
{
    if i == 0 {
        assert(hs.skip(0) =~= hs);
        if spec_alloc(hs, size, align) is Some {
            let (addr, t) = spec_alloc(hs, size, align).unwrap();
            assert(hs.subrange(0, 0) + t =~= t);
        }
    } else {
        lemma_alloc_split_at(hs, size, align, i - 1);
        let t = hs.skip(i - 1);
        assert(t[0] == hs[i - 1]);
        assert(spec_split_hole(t[0], size, align) is None);
        assert(t.skip(1) =~= hs.skip(i));
        if spec_alloc(hs.skip(i), size, align) is Some {
            let (addr, t2) = spec_alloc(hs.skip(i), size, align).unwrap();
            assert(spec_alloc(t, size, align) == Some((addr, seq![t[0]] + t2)));
            assert(hs.subrange(0, i - 1) + (seq![t[0]] + t2) =~= hs.subrange(0, i) + t2);
        }
    }
}

/// Every hole lies inside `[lo, hi]`.
pub open spec fn holes_in_range(hs: Seq<Hole>, lo: int, hi: int) -> bool {
    forall|i: int| 0 <= i < hs.len() ==> lo <= (#[trigger] hs[i]).a && hs[i].end() <= hi
}

/// Deallocating a block inside `[lo, hi]` keeps every hole inside `[lo, hi]`.
pub proof fn lemma_dealloc_in_range(hs: Seq<Hole>, a: u64, s: u64, lo: int, hi: int)
    requires
        holes_in_range(hs, lo, hi),
        lo <= a,
        a + s <= hi,
        a + s <= MAX_HOLE_END,
    ensures
        holes_in_range(spec_dealloc(hs, a, s), lo, hi),
    decreases hs.len(),
{
    let r = spec_dealloc(hs, a, s);
    if hs.len() == 0 {
        assert(r[0] == Hole { a, s });
    } else {
        let h0 = hs[0];
        if h0.a > a {
            assert forall|i: int| 0 <= i < r.len() implies lo <= (#[trigger] r[i]).a && r[i]
                .end() <= hi by {
                if i > 0 {
                    if a + s == h0.a {
                        assert(r[i] == hs[i]);
                    } else {
                        assert(r[i] == hs[i - 1]);
                    }
                }
            }
        } else if h0.end() == a {
            assert forall|i: int| 0 <= i < r.len() implies lo <= (#[trigger] r[i]).a && r[i]
                .end() <= hi by {
                if hs.len() > 1 && a + s == hs[1].a {
                    if i == 0 {
                        assert(hs[1].end() <= hi);
                    } else {
                        assert(r[i] == hs[i + 1]);
                    }
                } else {
                    if i > 0 {
                        assert(r[i] == hs[i]);
                    }
                }
            }
        } else {
            assert(forall|i: int| 0 <= i < hs.skip(1).len() ==> hs.skip(1)[i] == hs[i + 1]);
            lemma_dealloc_in_range(hs.skip(1), a, s, lo, hi);
            let t = spec_dealloc(hs.skip(1), a, s);
            assert forall|i: int| 0 <= i < r.len() implies lo <= (#[trigger] r[i]).a && r[i]
                .end() <= hi by {
                if i == 0 {
                    assert(r[i] == h0);
                } else {
                    assert(r[i] == t[i - 1]);
                }
            }
        }
    }
}

/// The free bytes of a well-formed list inside `[lo, hi]` never exceed the
/// span, and with two or more holes they fall strictly short of it.
proof fn lemma_sum_le_span(hs: Seq<Hole>, lo: int, hi: int)
    requires
        holes_wf(hs),
        holes_in_range(hs, lo, hi),
        lo <= hi,
    ensures
        holes_sum(hs) <= hi - lo,
        hs.len() >= 2 ==> holes_sum(hs) < hi - lo,
    decreases hs.len(),
{
    if hs.len() == 0 {
    } else {
        let h0 = hs[0];
        let rest = hs.skip(1);
        assert(forall|i: int| 0 <= i < rest.len() ==> rest[i] == hs[i + 1]);
        assert(holes_wf(rest));
        assert(lo <= h0.a && h0.end() <= hi);
        assert(holes_sum(hs) == h0.s + holes_sum(rest));
        if rest.len() > 0 {
            assert(h0.end() < hs[1].a);
            assert(holes_in_range(rest, hs[1].a as int, hi));
            lemma_sum_le_span(rest, hs[1].a as int, hi);
            assert(holes_sum(rest) <= hi - hs[1].a);
            assert(h0.s <= hs[1].a - 1 - lo);
        } else {
            assert(holes_sum(rest) == 0);
        }
    }
}

/// A well-formed list inside `[lo, lo + s)` whose free bytes total `s` is
/// the single hole covering the whole range.
proof fn lemma_full_interval(hs: Seq<Hole>, lo: u64, s: u64)
    requires
        holes_wf(hs),
        holes_in_range(hs, lo as int, lo + s),
        holes_sum(hs) == s,
        s >= 1,
    ensures
        hs =~= seq![Hole { a: lo, s }],
{
    lemma_sum_le_span(hs, lo as int, lo + s);
    assert(hs.len() == 1);
    let h0 = hs[0];
    assert(holes_sum(hs.skip(1)) == 0) by {
        assert(hs.skip(1) =~= Seq::<Hole>::empty());
    }
    assert(h0.s == s);
    assert(h0.a == lo);
}

/// A block handed out by the first-fit walk never lies below the first hole.
proof fn lemma_alloc_addr_lb(hs: Seq<Hole>, size: int, align: int)
    requires
        holes_wf(hs),
        MIN_SIZE <= size,
        align >= 1,
        spec_alloc(hs, size, align) is Some,
    ensures
        spec_alloc(hs, size, align).unwrap().0 >= hs[0].a,
    decreases hs.len(),
{
    let h0 = hs[0];
    if spec_split_hole(h0, size, align) is Some {
        lemma_split_props(h0, size, align);
    } else {
        assert(holes_wf(hs.skip(1)));
        lemma_alloc_addr_lb(hs.skip(1), size, align);
        assert(hs.skip(1)[0] == hs[1]);
        assert(h0.end() < hs[1].a);
    }
}

/// What a successful first-fit allocation guarantees, stated over the list
/// itself: the resulting list is well formed and stays in range, the handed
/// out block is aligned, was carved from one of the holes, and overlaps no
/// remaining hole, and the free total drops by exactly the block's size.
pub proof fn lemma_alloc_full(hs: Seq<Hole>, size: int, align: int, lo: int, hi: int)
    requires
        holes_wf(hs),
        holes_in_range(hs, lo, hi),
        lo >= 0,
        MIN_SIZE <= size,
        align >= 1,
        spec_alloc(hs, size, align) is Some,
    ensures
        ({
            let (addr, t) = spec_alloc(hs, size, align).unwrap();
            &&& holes_wf(t)
            &&& holes_in_range(t, lo, hi)
            &&& holes_sum(t) == holes_sum(hs) - size
            &&& block_free(t, addr, size as u64)
            &&& addr as int % align == 0
            &&& (exists|i: int|
                0 <= i < hs.len() && (#[trigger] hs[i]).a <= addr && addr + size <= hs[i].end())
            &&& (t.len() > 0 ==> t[0].a >= hs[0].a)
        }),
    decreases hs.len(),
{
    let (addr, t) = spec_alloc(hs, size, align).unwrap();
    let h0 = hs[0];
    let rest = hs.skip(1);
    assert(forall|i: int| 0 <= i < rest.len() ==> rest[i] == hs[i + 1]);
    assert(holes_wf(rest));
    assert(holes_in_range(rest, lo, hi));
    assert(lo <= h0.a && h0.end() <= hi);
    assert(holes_sum(hs) == h0.s + holes_sum(rest));
    if spec_split_hole(h0, size, align) is Some {
        lemma_split_props(h0, size, align);
        let (a2, fr, ba) = spec_split_hole(h0, size, align).unwrap();
        assert(a2 == addr);
        assert(hs[0].a <= addr && addr + size <= hs[0].end());
        assert(rest.len() > 0 ==> h0.end() < rest[0].a);
        let t1 = spec_dealloc_opt(rest, fr);
        if let Some(f) = fr {
            assert(block_free(rest, f.a, f.s)) by {
                assert(forall|k: int|
                    0 <= k < rest.len() ==> f.a + f.s <= (#[trigger] rest[k]).a);
            }
            lemma_dealloc_props(rest, f.a, f.s);
            lemma_dealloc_in_range(rest, f.a, f.s, lo, hi);
            lemma_dealloc_keeps_free(rest, f.a, f.s, addr, size as u64);
        } else {
            assert(block_free(rest, addr, size as u64)) by {
                assert(forall|k: int|
                    0 <= k < rest.len() ==> addr + size <= (#[trigger] rest[k]).a);
            }
        }
        assert(holes_wf(t1));
        assert(holes_in_range(t1, lo, hi));
        assert(block_free(t1, addr, size as u64));
        assert(t1.len() > 0 ==> t1[0].a >= h0.a);
        if let Some(b) = ba {
            assert(block_free(t1, b.a, b.s)) by {
                if let Some(f) = fr {
                    lemma_dealloc_keeps_free(rest, f.a, f.s, b.a, b.s);
                } else {
                    assert(forall|k: int|
                        0 <= k < rest.len() ==> b.a + b.s <= (#[trigger] rest[k]).a);
                }
            }
            lemma_dealloc_props(t1, b.a, b.s);
            lemma_dealloc_in_range(t1, b.a, b.s, lo, hi);
            lemma_dealloc_keeps_free(t1, b.a, b.s, addr, size as u64);
        }
        assert(holes_wf(t));
        assert(holes_in_range(t, lo, hi));
        assert(block_free(t, addr, size as u64));
        assert(holes_sum(t) == holes_sum(hs) - size);
        assert(t.len() > 0 ==> t[0].a >= h0.a);
    } else {
        lemma_alloc_full(rest, size, align, lo, hi);
        lemma_alloc_addr_lb(rest, size, align);
        let (a2, t2) = spec_alloc(rest, size, align).unwrap();
        assert(a2 == addr);
        assert(t == seq![h0] + t2);
        assert(addr >= rest[0].a);
        assert(h0.end() < addr);
        lemma_wf_cons(h0, t2);
        lemma_sum_cons(h0, t2);
        assert(block_free(t, addr, size as u64)) by {
            assert(forall|k: int| 0 <= k < t.len() && k > 0 ==> t[k] == t2[k - 1]);
            assert(t[0] == h0);
        }
        assert(holes_in_range(t, lo, hi)) by {
            assert(forall|k: int| 0 <= k < t.len() && k > 0 ==> t[k] == t2[k - 1]);
            assert(t[0] == h0);
        }
        assert(exists|i: int|
            0 <= i < hs.len() && (#[trigger] hs[i]).a <= addr && addr + size <= hs[i].end())
            by {
            let i0 = choose|i: int|
                0 <= i < rest.len() && (#[trigger] rest[i]).a <= addr && addr + size
                    <= rest[i].end();
            assert(hs[i0 + 1].a <= addr && addr + size <= hs[i0 + 1].end());
        }
    }
}

/// A block that overlaps no hole still overlaps none after an allocation.
proof fn lemma_alloc_keeps_free(hs: Seq<Hole>, size: int, align: int, fa: u64, fs: u64)
    requires
        holes_wf(hs),
        MIN_SIZE <= size,
        align >= 1,
        spec_alloc(hs, size, align) is Some,
        block_free(hs, fa, fs),
        fs >= 1,
    ensures
        block_free(spec_alloc(hs, size, align).unwrap().1, fa, fs),
    decreases hs.len(),
{
    let (addr, t) = spec_alloc(hs, size, align).unwrap();
    let h0 = hs[0];
    let rest = hs.skip(1);
    assert(forall|i: int| 0 <= i < rest.len() ==> rest[i] == hs[i + 1]);
    assert(holes_wf(rest));
    assert(h0.end() <= fa || fa + fs <= h0.a);
    if spec_split_hole(h0, size, align) is Some {
        lemma_split_props(h0, size, align);
        let (a2, fr, ba) = spec_split_hole(h0, size, align).unwrap();
        let t1 = spec_dealloc_opt(rest, fr);
        if let Some(f) = fr {
            lemma_dealloc_keeps_free(rest, f.a, f.s, fa, fs);
        }
        if let Some(b) = ba {
            lemma_dealloc_keeps_free(t1, b.a, b.s, fa, fs);
        }
    } else {
        lemma_alloc_keeps_free(rest, size, align, fa, fs);
        let (a2, t2) = spec_alloc(rest, size, align).unwrap();
        assert(t == seq![h0] + t2);
        assert forall|k: int| 0 <= k < t.len() implies (#[trigger] t[k]).end() <= fa || fa + fs
            <= t[k].a by {
            if k == 0 {
                assert(t[k] == h0);
            } else {
                assert(t[k] == t2[k - 1]);
            }
        }
    }
}

/// Two allocations from a heap that is one free region, then freeing both in
/// allocation order, coalesce everything back into the single region.
pub proof fn lemma_fifo_coalesce(b: u64, s: u64, sa: int, aa: int, sb: int, ab: int)
    requires
        MIN_SIZE <= s,
        b + s <= MAX_HOLE_END,
        MIN_SIZE <= sa,
        aa >= 1,
        MIN_SIZE <= sb,
        ab >= 1,
        spec_alloc(seq![Hole { a: b, s }], sa, aa) is Some,
        spec_alloc(spec_alloc(seq![Hole { a: b, s }], sa, aa).unwrap().1, sb, ab) is Some,
    ensures
        ({
            let (a1, t1) = spec_alloc(seq![Hole { a: b, s }], sa, aa).unwrap();
            let (a2, t2) = spec_alloc(t1, sb, ab).unwrap();
            spec_dealloc(spec_dealloc(t2, a1, sa as u64), a2, sb as u64) == seq![Hole {
                a: b,
                s,
            }]
        }),
{
    let hs = seq![Hole { a: b, s }];
    assert(holes_wf(hs));
    assert(holes_in_range(hs, b as int, b + s));
    assert(holes_sum(hs) == s + holes_sum(hs.skip(1)));
    assert(hs.skip(1) =~= Seq::<Hole>::empty());
    let (a1, t1) = spec_alloc(hs, sa, aa).unwrap();
    lemma_alloc_full(hs, sa, aa, b as int, b + s);
    assert(b <= a1 && a1 + sa <= b + s) by {
        let i = choose|i: int|
            0 <= i < hs.len() && (#[trigger] hs[i]).a <= a1 && a1 + sa <= hs[i].end();
        assert(hs[i] == Hole { a: b, s });
    }
    let (a2, t2) = spec_alloc(t1, sb, ab).unwrap();
    lemma_alloc_full(t1, sb, ab, b as int, b + s);
    let hb = choose|i: int|
        0 <= i < t1.len() && (#[trigger] t1[i]).a <= a2 && a2 + sb <= t1[i].end();
    assert(t1[hb].a <= a2 && a2 + sb <= t1[hb].end());
    assert(t1[hb].end() <= a1 || a1 + sa <= t1[hb].a);
    assert(a1 + sa <= a2 || a2 + sb <= a1);
    lemma_alloc_keeps_free(t1, sb, ab, a1, sa as u64);
    let d1 = spec_dealloc(t2, a1, sa as u64);
    lemma_dealloc_props(t2, a1, sa as u64);
    lemma_dealloc_in_range(t2, a1, sa as u64, b as int, b + s);
    lemma_dealloc_keeps_free(t2, a1, sa as u64, a2, sb as u64);
    let d2 = spec_dealloc(d1, a2, sb as u64);
    assert(b <= a2 && a2 + sb <= b + s);
    lemma_dealloc_props(d1, a2, sb as u64);
    lemma_dealloc_in_range(d1, a2, sb as u64, b as int, b + s);
    assert(holes_sum(d2) == s);
    lemma_full_interval(d2, b, s);
}

/// Returning a just-allocated block to the list restores the hole list
/// exactly: the block coalesces with the padding fragments its allocation
/// left behind, rebuilding the hole it was carved from.
pub proof fn lemma_alloc_dealloc_roundtrip(hs: Seq<Hole>, size: int, align: int)
    requires
        holes_wf(hs),
        MIN_SIZE <= size,
        align >= 1,
        spec_alloc(hs, size, align) is Some,
    ensures
        ({
            let (addr, t) = spec_alloc(hs, size, align).unwrap();
            spec_dealloc(t, addr, size as u64) == hs
        }),
    decreases hs.len(),
{
    let (addr, t) = spec_alloc(hs, size, align).unwrap();
    let h0 = hs[0];
    let rest = hs.skip(1);
    assert(holes_wf(rest));
    if spec_split_hole(h0, size, align) is Some {
        lemma_split_props(h0, size, align);
        let (a2, fr, ba) = spec_split_hole(h0, size, align).unwrap();
        assert(a2 == addr);
        assert(size == addr + size - addr);
        let sz64 = size as u64;
        assert(rest.len() > 0 ==> h0.end() < rest[0].a);
        match (fr, ba) {
            (Some(f), Some(b)) => {
                assert(spec_dealloc(rest, f.a, f.s) == seq![f] + rest);
                let t1 = seq![f] + rest;
                assert(t1[0] == f);
                assert(t1.skip(1) =~= rest);
                assert(spec_dealloc(t1, b.a, b.s) == seq![f] + spec_dealloc(rest, b.a, b.s));
                assert(spec_dealloc(rest, b.a, b.s) == seq![b] + rest);
                assert(t =~= seq![f] + (seq![b] + rest));
                assert(t[0] == f && t[1] == b);
                assert(t.skip(2) =~= rest);
                assert(spec_dealloc(t, addr, sz64) == seq![Hole {
                    a: f.a,
                    s: (f.s + sz64 + b.s) as u64,
                }] + rest);
                assert(Hole { a: f.a, s: (f.s + sz64 + b.s) as u64 } == h0);
                assert(seq![h0] + rest =~= hs);
            },
            (Some(f), None) => {
                assert(spec_dealloc(rest, f.a, f.s) == seq![f] + rest);
                assert(t =~= seq![f] + rest);
                assert(t[0] == f);
                assert(t.len() > 1 ==> t[1] == rest[0]);
                assert(t.len() > 1 ==> addr + sz64 < t[1].a);
                assert(t.skip(1) =~= rest);
                assert(spec_dealloc(t, addr, sz64) == seq![Hole {
                    a: f.a,
                    s: (f.s + sz64) as u64,
                }] + rest);
                assert(Hole { a: f.a, s: (f.s + sz64) as u64 } == h0);
                assert(seq![h0] + rest =~= hs);
            },
            (None, Some(b)) => {
                assert(spec_dealloc(rest, b.a, b.s) == seq![b] + rest);
                assert(t =~= seq![b] + rest);
                assert(t[0] == b);
                assert(b.a > addr && addr + sz64 == b.a);
                assert(t.skip(1) =~= rest);
                assert(spec_dealloc(t, addr, sz64) == seq![Hole {
                    a: addr,
                    s: (sz64 + b.s) as u64,
                }] + rest);
                assert(Hole { a: addr, s: (sz64 + b.s) as u64 } == h0);
                assert(seq![h0] + rest =~= hs);
            },
            (None, None) => {
                assert(t =~= rest);
                if rest.len() == 0 {
                    assert(spec_dealloc(t, addr, sz64) == seq![Hole { a: addr, s: sz64 }]);
                } else {
                    assert(rest[0].a > addr && addr + sz64 < rest[0].a);
                    assert(spec_dealloc(t, addr, sz64) == seq![Hole { a: addr, s: sz64 }]
                        + rest);
                }
                assert(Hole { a: addr, s: sz64 } == h0);
                assert(seq![h0] + rest =~= hs);
            },
        }
    } else {
        lemma_alloc_dealloc_roundtrip(rest, size, align);
        lemma_alloc_addr_lb(rest, size, align);
        let (a2, t2) = spec_alloc(rest, size, align).unwrap();
        assert(a2 == addr);
        assert(t =~= seq![h0] + t2);
        assert(rest.len() > 0 && addr >= rest[0].a);
        assert(h0.end() < addr);
        assert(t[0] == h0);
        assert(t.skip(1) =~= t2);
        assert(spec_dealloc(t, addr, size as u64) == seq![h0] + spec_dealloc(
            t2,
            addr,
            size as u64,
        ));
        assert(seq![h0] + rest =~= hs);
    }
}

/// The deallocation walk leaves the holes before the insertion point alone.
proof fn lemma_dealloc_split_at(hs: Seq<Hole>, a: u64, s: u64, i: int)
    requires
        0 <= i <= hs.len(),
        forall|j: int| 0 <= j < i ==> (#[trigger] hs[j]).a <= a && hs[j].end() < a,
    ensures
        spec_dealloc(hs, a, s) == hs.subrange(0, i) + spec_dealloc(hs.skip(i), a, s),
    decreases i,
{
    if i == 0 {
        assert(hs.skip(0) =~= hs);
        assert(hs.subrange(0, 0) + spec_dealloc(hs, a, s) =~= spec_dealloc(hs, a, s));
    } else {
        lemma_dealloc_split_at(hs, a, s, i - 1);
        let t = hs.skip(i - 1);
        assert(t[0] == hs[i - 1]);
        assert(spec_dealloc(t, a, s) == seq![t[0]] + spec_dealloc(t.skip(1), a, s));
        assert(t.skip(1) =~= hs.skip(i));
        assert(hs.subrange(0, i - 1) + (seq![t[0]] + spec_dealloc(hs.skip(i), a, s)) =~= hs
            .subrange(0, i) + spec_dealloc(hs.skip(i), a, s));
    }
}

/// Try to carve a block of the given layout out of one hole: find the first
/// aligned address usable for the block, and return it together with the
/// fragments left in front of and behind it, or nothing when the hole is too
/// small or would leave an unusably small remainder.
fn split_hole(h: Hole, l: &Layout) -> (r: Option<Alloc>)
    requires
        l.wf(),
        l.size >= MIN_SIZE,
        l.align <= MAX_ALIGN,
        h.end() <= MAX_HOLE_END,
    ensures
        match r {
            Some(al) => spec_split_hole(h, l.size as int, l.align as int) == Some(
                (al.info.a, al.fr_p, al.ba_p),
            ) && al.info.s == l.size,
            None => spec_split_hole(h, l.size as int, l.align as int) is None,
        },
{
    let req_s = l.size;
    let req_a = l.align;
    let au = align_up(h.a, req_a);
    let (aligned, fr_p): (u64, Option<Hole>) = if h.a == au {
        (h.a, None)
    } else {
        let aa = align_up(h.a + MIN_SIZE, req_a);
        (aa, Some(Hole { a: h.a, s: aa - h.a }))
    };
    if aligned > h.a + h.s {
        return None;
    }
    let hole_rest = h.a + h.s - aligned;
    if req_s > hole_rest {
        return None;
    }
    let info = Hole { a: aligned, s: req_s };
    if hole_rest == req_s {
        Some(Alloc { info, fr_p, ba_p: None })
    } else if hole_rest - req_s < MIN_SIZE {
        None
    } else {
        Some(Alloc { info, fr_p, ba_p: Some(Hole { a: aligned + req_s, s: hole_rest - req_s }) })
    }
}

/// Sorted list of holes.
pub struct Holes {
    l: Vec<Hole>,
}

impl Holes {
    /// The free blocks, in address order.
    pub closed spec fn view(&self) -> Seq<Hole> {
        self.l@
    }

    /// Return a blank list of holes.
    pub fn blank() -> (r: Holes)
        ensures
            r@ == Seq::<Hole>::empty(),
    {
        Holes { l: Vec::new() }
    }

    /// Create a list of holes that contains the given hole.
    pub fn new(h_addr: u64, h_size: u64) -> (r: Holes)
        requires
            h_size >= MIN_SIZE,
            h_addr + h_size <= MAX_HOLE_END,
        ensures
            r@ == seq![Hole { a: h_addr, s: h_size }],
            holes_wf(r@),
    {
        let mut l: Vec<Hole> = Vec::new();
        l.push(Hole { a: h_addr, s: h_size });
        Holes { l }
    }

    /// Return the minimal allocation size.
    pub fn min_size() -> (r: u64)
        ensures
            r == MIN_SIZE,
    {
        MIN_SIZE
    }

    /// Number of holes in the list.
    pub fn count(&self) -> (r: usize)
        ensures
            r == self@.len(),
    {
        self.l.len()
    }

    /// The hole at the given position.
    pub fn get(&self, i: usize) -> (r: Hole)
        requires
            i < self@.len(),
        ensures
            r == self@[i as int],
    {
        self.l[i]
    }

    /// Remove the hole at `i`, which the given split was computed from, and
    /// return its padding fragments to the list.
    #[verifier::rlimit(100)]
    fn remove_and_repad(&mut self, i: usize, al: Alloc, l: &Layout) -> (addr: u64)
        requires
            holes_wf(old(self)@),
            i < old(self)@.len(),
            l.wf(),
            l.size >= MIN_SIZE,
            l.align <= MAX_ALIGN,
            spec_split_hole(old(self)@[i as int], l.size as int, l.align as int) == Some(
                (al.info.a, al.fr_p, al.ba_p),
            ),
            al.info.s == l.size,
        ensures
            holes_wf(final(self)@),
            final(self)@ == old(self)@.subrange(0, i as int) + spec_dealloc_opt(
                spec_dealloc_opt(old(self)@.skip(i + 1), al.fr_p),
                al.ba_p,
            ),
            holes_sum(final(self)@) == holes_sum(old(self)@) - l.size,
            addr == al.info.a,
    {
        let ghost hs0 = self.l@;
        let ghost h = hs0[i as int];
        let ghost pre = hs0.subrange(0, i as int);
        let ghost post = hs0.skip(i + 1);
        let ghost sz = l.size as int;
        let ghost alg = l.align as int;
        proof {
            lemma_split_props(h, sz, alg);
            assert(hs0 =~= pre + (seq![h] + post));
            lemma_sum_concat(pre, seq![h] + post);
            lemma_sum_cons(h, post);
        }
        self.l.remove(i);
        proof {
            assert(self.l@ =~= pre + post);
            assert forall|k: int, j: int| 0 <= k < j < self.l@.len() implies (
            #[trigger] self.l@[k]).end() < (#[trigger] self.l@[j]).a by {
                let k0 = if k < i { k } else { k + 1 };
                let j0 = if j < i { j } else { j + 1 };
                assert(self.l@[k] == hs0[k0] && self.l@[j] == hs0[j0]);
                assert(hs0[k0].end() < hs0[j0].a);
            }
            assert forall|k: int| 0 <= k < self.l@.len() implies (#[trigger] self.l@[k]).s
                >= MIN_SIZE && self.l@[k].end() <= MAX_HOLE_END by {
                let k0 = if k < i { k } else { k + 1 };
                assert(self.l@[k] == hs0[k0]);
                assert(hs0[k0].s >= MIN_SIZE && hs0[k0].end() <= MAX_HOLE_END);
            }
            lemma_sum_concat(pre, post);
        }
        if let Some(f) = al.fr_p {
            proof {
                assert forall|k: int| 0 <= k < self.l@.len() implies (
                #[trigger] self.l@[k]).end() <= f.a || f.a + f.s <= self.l@[k].a by {
                    let k0 = if k < i { k } else { k + 1 };
                    assert(self.l@[k] == hs0[k0]);
                    if k0 < i {
                        assert(hs0[k0].end() < h.a);
                    } else {
                        assert(h.end() < hs0[k0].a);
                    }
                }
            }
            self.dealloc(f.a, &Layout { size: f.s, align: 1 });
            proof {
                assert forall|j: int| 0 <= j < i implies ((pre + post)[j]).a <= f.a && ((pre
                    + post)[j]).end() < f.a by {
                    assert((pre + post)[j] == hs0[j]);
                    assert(hs0[j].end() < h.a);
                }
                lemma_dealloc_split_at(pre + post, f.a, f.s, i as int);
                assert((pre + post).subrange(0, i as int) =~= pre);
                assert((pre + post).skip(i as int) =~= post);
            }
        }
        let ghost mid = spec_dealloc_opt(post, al.fr_p);
        proof {
            assert(self.l@ == pre + mid);
        }
        if let Some(b) = al.ba_p {
            proof {
                assert forall|k: int| 0 <= k < post.len() implies ((#[trigger] post[k]).end()
                    <= b.a || b.a + b.s <= post[k].a) by {
                    assert(post[k] == hs0[k + i + 1]);
                    assert(h.end() < hs0[k + i + 1].a);
                }
                if al.fr_p is Some {
                    let f = al.fr_p.unwrap();
                    lemma_dealloc_keeps_free(post, f.a, f.s, b.a, b.s);
                }
                assert forall|k: int| 0 <= k < self.l@.len() implies (
                #[trigger] self.l@[k]).end() <= b.a || b.a + b.s <= self.l@[k].a by {
                    if k < i {
                        assert(self.l@[k] == hs0[k]);
                        assert(hs0[k].end() < h.a);
                    } else {
                        assert(self.l@[k] == mid[k - i]);
                    }
                }
            }
            self.dealloc(b.a, &Layout { size: b.s, align: 1 });
            proof {
                assert forall|j: int| 0 <= j < i implies ((pre + mid)[j]).a <= b.a && ((pre
                    + mid)[j]).end() < b.a by {
                    assert((pre + mid)[j] == hs0[j]);
                    assert(hs0[j].end() < h.a);
                }
                lemma_dealloc_split_at(pre + mid, b.a, b.s, i as int);
                assert((pre + mid).subrange(0, i as int) =~= pre);
                assert((pre + mid).skip(i as int) =~= mid);
            }
        }
        al.info.a
    }

    /// Searches the list for a big enough hole with the first-fit strategy:
    /// the first hole that can hold the block provides it.  Returns the
    /// block's address, or exhaustion when no hole fits.
    pub fn alloc_first_fit(&mut self, l: Layout) -> (r: Result<u64, AllocErr>)
        requires
            holes_wf(old(self)@),
            l.wf(),
            l.size >= MIN_SIZE,
            l.align <= MAX_ALIGN,
        ensures
            holes_wf(final(self)@),
            match r {
                Ok(addr) => spec_alloc(old(self)@, l.size as int, l.align as int) == Some(
                    (addr, final(self)@),
                ) && holes_sum(final(self)@) == holes_sum(old(self)@) - l.size && addr as int
                    % l.align as int == 0,
                Err(_) => spec_alloc(old(self)@, l.size as int, l.align as int) is None
                    && final(self)@ == old(self)@,
            },
    {
        let ghost hs0 = self.l@;
        let ghost sz = l.size as int;
        let ghost alg = l.align as int;
        let mut i: usize = 0;
        while i < self.l.len()
            invariant
                self.l@ == hs0,
                old(self)@ == hs0,
                holes_wf(hs0),
                l.wf(),
                l.size >= MIN_SIZE,
                l.align <= MAX_ALIGN,
                sz == l.size as int,
                alg == l.align as int,
                i <= hs0.len(),
                forall|j: int|
                    0 <= j < i ==> spec_split_hole(#[trigger] hs0[j], sz, alg) is None,
            decreases hs0.len() - i,
        {
            let h = self.l[i];
            if let Some(al) = split_hole(h, &l) {
                let addr = self.remove_and_repad(i, al, &l);
                proof {
                    lemma_alloc_split_at(hs0, sz, alg, i as int);
                    let t = hs0.skip(i as int);
                    assert(t[0] == hs0[i as int]);
                    assert(t.skip(1) =~= hs0.skip(i + 1));
                    lemma_split_props(hs0[i as int], sz, alg);
                    assert(spec_alloc(t, sz, alg) == Some(
                        (
                            al.info.a,
                            spec_dealloc_opt(
                                spec_dealloc_opt(hs0.skip(i + 1), al.fr_p),
                                al.ba_p,
                            ),
                        ),
                    ));
                    assert(spec_alloc(hs0, sz, alg) == Some((addr, self.l@)));
                }
                return Ok(addr);
            }
            i = i + 1;
        }
        proof {
            lemma_alloc_split_at(hs0, sz, alg, hs0.len() as int);
            assert(hs0.skip(hs0.len() as int) =~= Seq::<Hole>::empty());
        }
        Err(AllocErr::Exhausted)
    }

    /// Frees the block at `p` whose size the layout gives.  The kernel walks
    /// the list to the insertion point and coalesces with either neighbour;
    /// freeing memory that overlaps a hole is a double free and is excluded.
    #[verifier::rlimit(100)]
    pub fn dealloc(&mut self, p: u64, l: &Layout)
        requires
            holes_wf(old(self)@),
            l.size >= MIN_SIZE,
            p + l.size <= MAX_HOLE_END,
            block_free(old(self)@, p, l.size),
        ensures
            final(self)@ == spec_dealloc(old(self)@, p, l.size),
            holes_wf(final(self)@),
            holes_sum(final(self)@) == holes_sum(old(self)@) + l.size,
    {
        let ghost hs0 = self.l@;
        let s = l.size;
        proof {
            lemma_dealloc_props(hs0, p, s);
        }
        let mut i: usize = 0;
        while i < self.l.len() && self.l[i].a <= p && self.l[i].a + self.l[i].s < p
            invariant
                self.l@ == hs0,
                holes_wf(hs0),
                i <= hs0.len(),
                forall|j: int| 0 <= j < i ==> (#[trigger] hs0[j]).a <= p && hs0[j].end() < p,
            decreases hs0.len() - i,
        {
            i = i + 1;
        }
        proof {
            lemma_dealloc_split_at(hs0, p, s, i as int);
        }
        let ghost tail = hs0.skip(i as int);
        if i == self.l.len() {
            assert(tail =~= Seq::<Hole>::empty());
            self.l.push(Hole { a: p, s });
            proof {
                assert(spec_dealloc(tail, p, s) == seq![Hole { a: p, s }]);
                assert(self.l@ =~= hs0.subrange(0, i as int) + spec_dealloc(tail, p, s));
            }
        } else {
            let h = self.l[i];
            proof {
                assert(h == tail[0]);
            }
            if h.a > p {
                if p + s == h.a {
                    let m = Hole { a: p, s: s + h.s };
                    let e = &mut self.l[i];
                    *e = m;
                    proof {
                        assert(spec_dealloc(tail, p, s) == seq![m] + tail.skip(1));
                        assert(self.l@ =~= hs0.subrange(0, i as int) + (seq![m] + tail.skip(
                            1,
                        )));
                    }
                } else {
                    self.l.insert(i, Hole { a: p, s });
                    proof {
                        assert(spec_dealloc(tail, p, s) == seq![Hole { a: p, s }] + tail);
                        assert(self.l@ =~= hs0.subrange(0, i as int) + (seq![Hole { a: p, s }]
                            + tail));
                    }
                }
            } else {
                proof {
                    assert(h.end() <= p || p + s <= h.a);
                    assert(h.end() == p);
                }
                if i + 1 < self.l.len() && p + s == self.l[i + 1].a {
                    let hn = self.l[i + 1];
                    proof {
                        assert(hn == tail[1]);
                        assert(hn.end() <= MAX_HOLE_END);
                    }
                    let m = Hole { a: h.a, s: h.s + s + hn.s };
                    let e = &mut self.l[i];
                    *e = m;
                    self.l.remove(i + 1);
                    proof {
                        assert(spec_dealloc(tail, p, s) == seq![m] + tail.skip(2));
                        assert(self.l@ =~= hs0.subrange(0, i as int) + (seq![m] + tail.skip(
                            2,
                        )));
                    }
                } else {
                    let m = Hole { a: h.a, s: h.s + s };
                    let e = &mut self.l[i];
                    *e = m;
                    proof {
                        assert(tail.len() > 1 ==> p + s != tail[1].a);
                        assert(spec_dealloc(tail, p, s) == seq![m] + tail.skip(1));
                        assert(self.l@ =~= hs0.subrange(0, i as int) + (seq![m] + tail.skip(
                            1,
                        )));
                    }
                }
            }
        }
    }
}

} // verus!
