//! Owned page tables.  The hardware walks tables by physical frame; the
//! model lets every table own its next-level tables outright, so the tree
//! shape that the kernel maintains by discipline is guaranteed by ownership.
//! Entry words still carry the frame bases the hardware would see.

use vstd::prelude::*;

use crate::frame::{Frame, FrameAllocator, MAX_FRAME};
use crate::paging::entry::{e_frame, e_huge, e_present, e_writable, EFlags, Entry, ADDR_MASK,
    HUGE_PAGE, PRESENT, WRITABLE};
use crate::paging::page::{slot_of, Page};

verus! {

/// One page table: 512 entry words, and the owned next-level table behind
/// each entry that links one.
pub struct Table {
    pub es: Vec<Entry>,
    pub ch: Vec<Option<Table>>,
}

/// How many slots of a table the well-formedness conditions cover: all of
/// them, except that the top-level table's last slot is reserved for the
/// recursive self-reference and is governed by the mapper instead.
pub open spec fn slot_max(level: nat) -> int {
    if level == 4 {
        511
    } else {
        512
    }
}

/// One slot is well formed: absent entries are fully zero and link no
/// table, present non-huge entries link a well-formed next-level table
/// (none at the first level), and huge entries appear only at the two
/// middle levels with a suitably aligned frame.
pub open spec fn slot_wf(t: Table, level: nat, s: int) -> bool
    decreases level, 0nat,
{
    let e = t.es@[s].0;
    &&& (!e_present(e) ==> e == 0 && t.ch@[s] is None)
    &&& (e_present(e) ==> e_frame(e) < MAX_FRAME)
    &&& (level == 1 ==> t.ch@[s] is None && !(e_present(e) && e_huge(e)))
    &&& (level >= 2 && e_present(e) && !e_huge(e) ==> t.ch@[s] is Some && tbl_wf(
        t.ch@[s].unwrap(),
        (level - 1) as nat,
    ))
    &&& (level >= 2 && e_present(e) && e_huge(e) ==> t.ch@[s] is None && level <= 3 && (level
        == 3 ==> e_frame(e) % 0x40000 == 0) && (level == 2 ==> e_frame(e) % 512 == 0))
}

/// A table is well formed down to its leaves.
pub open spec fn tbl_wf(t: Table, level: nat) -> bool
    decreases level, 1nat,
{
    &&& t.es@.len() == 512
    &&& t.ch@.len() == 512
    &&& (forall|s: int|
        #![trigger slot_wf(t, level, s)]
        #![trigger t.es@[s]]
        0 <= s < slot_max(level) ==> slot_wf(t, level, s))
}

/// Where a table subtree maps a page: the walk the hardware would make,
/// including large pages at the two middle levels.
pub open spec fn tbl_tr(t: Table, level: nat, i: u64) -> Option<int>
    decreases level,
{
    let s = slot_of(i, level);
    let e = t.es@[s].0;
    if !e_present(e) {
        None
    } else if level <= 1 {
        Some(e_frame(e))
    } else if e_huge(e) {
        if level == 3 {
            Some(e_frame(e) + slot_of(i, 2) * 512 + slot_of(i, 1))
        } else if level == 2 {
            Some(e_frame(e) + slot_of(i, 1))
        } else {
            None
        }
    } else {
        match t.ch@[s] {
            Some(c) => tbl_tr(c, (level - 1) as nat, i),
            None => None,
        }
    }
}

/// The page is mapped by an ordinary 4 KiB mapping: present non-huge
/// entries all the way down to a present leaf.
pub open spec fn tbl_mapped(t: Table, level: nat, i: u64) -> bool
    decreases level,
{
    let s = slot_of(i, level);
    let e = t.es@[s].0;
    &&& e_present(e)
    &&& !e_huge(e)
    &&& (level >= 2 ==> t.ch@[s] is Some && tbl_mapped(t.ch@[s].unwrap(), (level - 1) as nat, i))
}

/// The leaf entry word behind a page's 4 KiB mapping: the word of the
/// first-level entry the walk reaches through present non-huge links, which
/// carries the mapping's frame and its permission flags.
pub open spec fn tbl_leaf(t: Table, level: nat, i: u64) -> Option<u64>
    decreases level,
{
    let s = slot_of(i, level);
    let e = t.es@[s].0;
    if level <= 1 {
        if e_present(e) {
            Some(e)
        } else {
            None
        }
    } else if e_present(e) && !e_huge(e) {
        match t.ch@[s] {
            Some(c) => tbl_leaf(c, (level - 1) as nat, i),
            None => None,
        }
    } else {
        None
    }
}

/// The two pages select the same slots at every level down to `level` 1.
pub open spec fn slots_eq(level: nat, a: u64, b: u64) -> bool
    decreases level,
{
    slot_of(a, level) == slot_of(b, level) && (level >= 2 ==> slots_eq((level - 1) as nat, a, b))
}

/// A table whose entries are all zero and which links nothing.
pub open spec fn tbl_zeroed(t: Table) -> bool {
    &&& t.es@.len() == 512
    &&& t.ch@.len() == 512
    &&& (forall|s: int| 0 <= s < 512 ==> (#[trigger] t.es@[s]).0 == 0)
    &&& (forall|s: int| 0 <= s < 512 ==> (#[trigger] t.ch@[s]) is None)
}

/// A zeroed table is well formed at every level and maps nothing.
pub proof fn lemma_zeroed(t: Table, level: nat)
    requires
        tbl_zeroed(t),
        1 <= level <= 4,
    ensures
        tbl_wf(t, level),
        forall|i: u64| tbl_tr(t, level, i) is None,
        forall|i: u64| !tbl_mapped(t, level, i),
        forall|i: u64| tbl_leaf(t, level, i) is None,
{
    assert(!e_present(0)) by {
        assert(0u64 & 0x1 != 0x1) by (bit_vector);
    }
    assert forall|s: int| 0 <= s < slot_max(level) implies #[trigger] slot_wf(t, level, s) by {
        assert(t.es@[s].0 == 0);
    }
    assert forall|i: u64| tbl_tr(t, level, i) is None by {
        crate::paging::page::lemma_slot_bounds(i);
        assert(t.es@[slot_of(i, level)].0 == 0);
        assert(!e_present(t.es@[slot_of(i, level)].0));
    }
    assert forall|i: u64| !tbl_mapped(t, level, i) by {
        crate::paging::page::lemma_slot_bounds(i);
        assert(t.es@[slot_of(i, level)].0 == 0);
        assert(!e_present(t.es@[slot_of(i, level)].0));
    }
    assert forall|i: u64| tbl_leaf(t, level, i) is None by {
        crate::paging::page::lemma_slot_bounds(i);
        assert(t.es@[slot_of(i, level)].0 == 0);
        assert(!e_present(t.es@[slot_of(i, level)].0));
    }
}

/// Slot well-formedness looks only at one slot and its subtree.
pub proof fn lemma_slot_wf_same(t1: Table, t2: Table, level: nat, s: int)
    requires
        t1.es@[s] == t2.es@[s],
        t1.ch@[s] == t2.ch@[s],
        slot_wf(t1, level, s),
    ensures
        slot_wf(t2, level, s),
{
}

/// The walk looks only at the selected slot of each level.
pub proof fn lemma_tr_same(t1: Table, t2: Table, level: nat, i: u64)
    requires
        t1.es@[slot_of(i, level)] == t2.es@[slot_of(i, level)],
        t1.ch@[slot_of(i, level)] == t2.ch@[slot_of(i, level)],
    ensures
        tbl_tr(t1, level, i) == tbl_tr(t2, level, i),
        tbl_mapped(t1, level, i) == tbl_mapped(t2, level, i),
        tbl_leaf(t1, level, i) == tbl_leaf(t2, level, i),
{
}

impl Table {
    /// A fresh zeroed table.
    pub fn new() -> (r: Table)
        ensures
            tbl_zeroed(r),
    {
        let mut es: Vec<Entry> = Vec::new();
        let mut ch: Vec<Option<Table>> = Vec::new();
        let mut k: usize = 0;
        while k < 512
            invariant
                k <= 512,
                es@.len() == k,
                ch@.len() == k,
                forall|s: int| 0 <= s < k ==> (#[trigger] es@[s]).0 == 0,
                forall|s: int| 0 <= s < k ==> (#[trigger] ch@[s]) is None,
            decreases 512 - k,
        {
            es.push(Entry(0));
            ch.push(None);
            k = k + 1;
        }
        Table { es, ch }
    }

    /// Clear the table entirely.
    pub fn zero(&mut self)
        ensures
            tbl_zeroed(*final(self)),
    {
        let t = Table::new();
        *self = t;
    }

    /// The virtual address at which the next-level table behind slot `i`
    /// appears under the recursive mapping, when this table sits at
    /// virtual address `taddr`: shift the address up by one level and
    /// select the slot.  Nothing is returned for entries that link no
    /// table.
    pub fn next_taddr(&self, taddr: u64, i: usize) -> (r: Option<u64>)
        requires
            i < self.es@.len(),
        ensures
            match r {
                Some(v) => e_present(self.es@[i as int].0) && !e_huge(self.es@[i as int].0) && v
                    == ((taddr << 9u64) | ((i as u64) << 12u64)),
                None => !(e_present(self.es@[i as int].0) && !e_huge(self.es@[i as int].0)),
            },
    {
        let eflags = self.es[i].flags();
        proof {
            let e = self.es@[i as int].0;
            assert(((e & 0x8000_0000_0000_01FFu64) & 0x1 == 0x1) == (e & 0x1 == 0x1) && ((e
                & 0x8000_0000_0000_01FFu64) & 0x80 == 0x80) == (e & 0x80 == 0x80))
                by (bit_vector);
        }
        if eflags.contains(PRESENT) && !eflags.contains(HUGE_PAGE) {
            return Some((taddr << 9) | ((i as u64) << 12));
        }
        None
    }

    /// Create the next-level table behind slot `s` if the entry is unused:
    /// draw a frame, link it present and writable, and hand over a zeroed
    /// table.  An existing link is left alone.  What the subtree maps does
    /// not change.
    pub fn next_table_create<A: FrameAllocator>(&mut self, level: u8, s: usize, a: &mut A)
        requires
            tbl_wf(*old(self), level as nat),
            2 <= level <= 4,
            s < slot_max(level as nat),
            !(e_present(old(self).es@[s as int].0) && e_huge(old(self).es@[s as int].0)),
            old(a).wf(),
            !old(a).avail().is_empty(),
        ensures
            final(a).wf(),
            final(a).avail().subset_of(old(a).avail()),
            old(a).avail().finite() ==> final(a).avail().finite() && final(a).avail().len() + 1
                >= old(a).avail().len(),
            tbl_wf(*final(self), level as nat),
            forall|s2: int|
                0 <= s2 < 512 && s2 != s ==> final(self).es@[s2] == old(self).es@[s2]
                    && final(self).ch@[s2] == old(self).ch@[s2],
            e_present(final(self).es@[s as int].0) && !e_huge(final(self).es@[s as int].0),
            final(self).ch@[s as int] is Some,
            tbl_wf(final(self).ch@[s as int].unwrap(), (level - 1) as nat),
            forall|q: u64|
                tbl_tr(*final(self), level as nat, q) == tbl_tr(*old(self), level as nat, q),
            forall|q: u64|
                tbl_mapped(*final(self), level as nat, q) == tbl_mapped(
                    *old(self),
                    level as nat,
                    q,
                ),
            forall|q: u64|
                tbl_leaf(*final(self), level as nat, q) == tbl_leaf(*old(self), level as nat, q),
            !e_present(old(self).es@[s as int].0) ==> tbl_zeroed(
                final(self).ch@[s as int].unwrap(),
            ) && e_writable(final(self).es@[s as int].0),
            e_present(old(self).es@[s as int].0) ==> final(self).ch@[s as int]
                == old(self).ch@[s as int] && final(self).es@[s as int] == old(self).es@[s as int],
    {
        proof {
            assert(slot_wf(*old(self), level as nat, s as int));
        }
        if !self.es[s].is_present() {
            let fr = match a.allocate() {
                Some(f) => f,
                None => {
                    proof {
                        assert(false);
                    }
                    Frame { i: 0 }
                },
            };
            let ghost pre = *self;
            let fl = EFlags::empty().with(PRESENT).with(WRITABLE);
            proof {
                assert((0u64 | 0x1 | 0x2) & 0x000F_FFFF_FFFF_F000 == 0 && ((0u64 | 0x1 | 0x2)
                    & 0x1 == 0x1) && ((0u64 | 0x1 | 0x2) & 0x2 == 0x2) && !((0u64 | 0x1 | 0x2)
                    & 0x80 == 0x80)) by (bit_vector);
            }
            {
                let e = &mut self.es[s];
                e.set(&fr, fl);
            }
            {
                let c = &mut self.ch[s];
                *c = Some(Table::new());
            }
            proof {
                let fin = *self;
                let child = fin.ch@[s as int].unwrap();
                lemma_zeroed(child, (level - 1) as nat);
                assert forall|s2: int| 0 <= s2 < slot_max(level as nat) implies
                    #[trigger] slot_wf(fin, level as nat, s2) by {
                    if s2 != s {
                        assert(slot_wf(pre, level as nat, s2));
                        lemma_slot_wf_same(pre, fin, level as nat, s2);
                    } else {
                        assert(e_frame(fin.es@[s2].0) == fr.i);
                    }
                }
                assert forall|q: u64|
                    tbl_tr(fin, level as nat, q) == tbl_tr(pre, level as nat, q) && tbl_mapped(
                        fin,
                        level as nat,
                        q,
                    ) == tbl_mapped(pre, level as nat, q) && tbl_leaf(fin, level as nat, q)
                    == tbl_leaf(pre, level as nat, q) by {
                    crate::paging::page::lemma_slot_bounds(q);
                    let sq = slot_of(q, level as nat);
                    if sq != s {
                        lemma_tr_same(pre, fin, level as nat, q);
                    } else {
                        assert(!e_present(pre.es@[sq].0));
                        assert(tbl_tr(pre, level as nat, q) is None);
                        assert(tbl_tr(fin, level as nat, q) == tbl_tr(
                            child,
                            (level - 1) as nat,
                            q,
                        ));
                        assert(!tbl_mapped(pre, level as nat, q));
                        assert(tbl_mapped(fin, level as nat, q) == tbl_mapped(
                            child,
                            (level - 1) as nat,
                            q,
                        ));
                        assert(tbl_leaf(pre, level as nat, q) is None);
                        assert(tbl_leaf(fin, level as nat, q) == tbl_leaf(
                            child,
                            (level - 1) as nat,
                            q,
                        ));
                    }
                }
            }
        }
    }

    /// Map the page with index `i` to `fr` with the given flags, creating
    /// the intermediate tables the path needs.  Every other page keeps its
    /// mapping.
    pub fn map_at<A: FrameAllocator>(&mut self, level: u8, i: u64, fr: &Frame, fl: EFlags, a:
        &mut A)
        requires
            tbl_wf(*old(self), level as nat),
            1 <= level <= 4,
            level == 4 ==> slot_of(i, 4) != 511,
            tbl_tr(*old(self), level as nat, i) is None,
            fr.i < MAX_FRAME,
            fl.0 & ADDR_MASK == 0,
            !e_huge(fl.0),
            e_present(fl.0),
            old(a).wf(),
            old(a).avail().finite(),
            old(a).avail().len() + 1 >= level,
        ensures
            final(a).wf(),
            final(a).avail().finite(),
            final(a).avail().subset_of(old(a).avail()),
            final(a).avail().len() + level >= old(a).avail().len() + 1,
            tbl_wf(*final(self), level as nat),
            forall|s2: int|
                0 <= s2 < 512 && s2 != slot_of(i, level as nat)
                    ==> final(self).es@[s2] == old(self).es@[s2]
                    && final(self).ch@[s2] == old(self).ch@[s2],
            forall|q: u64|
                #[trigger] tbl_tr(*final(self), level as nat, q) == (if slots_eq(
                    level as nat,
                    q,
                    i,
                ) {
                    Some(fr.i as int)
                } else {
                    tbl_tr(*old(self), level as nat, q)
                }),
            forall|q: u64|
                #[trigger] tbl_mapped(*final(self), level as nat, q) == (if slots_eq(
                    level as nat,
                    q,
                    i,
                ) {
                    true
                } else {
                    tbl_mapped(*old(self), level as nat, q)
                }),
            forall|q: u64|
                #[trigger] tbl_leaf(*final(self), level as nat, q) == (if slots_eq(
                    level as nat,
                    q,
                    i,
                ) {
                    Some((fr.i << 12u64) | fl.0)
                } else {
                    tbl_leaf(*old(self), level as nat, q)
                }),
        decreases level,
    {
        let s: usize = slot_idx(level, i);
        if level == 1 {
            let ghost pre = *self;
            {
                let e = &mut self.es[s];
                e.set(fr, fl);
            }
            proof {
                let fin = *self;
                assert(!e_present(pre.es@[s as int].0));
                assert forall|s2: int| 0 <= s2 < slot_max(1) implies #[trigger] slot_wf(
                    fin,
                    1,
                    s2,
                ) by {
                    if s2 != s {
                        assert(slot_wf(pre, 1, s2));
                        lemma_slot_wf_same(pre, fin, 1, s2);
                    } else {
                        assert(slot_wf(pre, 1, s2));
                        assert(fin.ch@[s2] is None);
                    }
                }
                assert forall|q: u64|
                    #[trigger] tbl_tr(fin, 1, q) == (if slots_eq(1, q, i) {
                        Some(fr.i as int)
                    } else {
                        tbl_tr(pre, 1, q)
                    }) by {
                    crate::paging::page::lemma_slot_bounds(q);
                    let sq = slot_of(q, 1);
                    if sq != s {
                        lemma_tr_same(pre, fin, 1, q);
                    }
                }
                assert forall|q: u64|
                    #[trigger] tbl_mapped(fin, 1, q) == (if slots_eq(1, q, i) {
                        true
                    } else {
                        tbl_mapped(pre, 1, q)
                    }) by {
                    crate::paging::page::lemma_slot_bounds(q);
                    let sq = slot_of(q, 1);
                    if sq != s {
                        lemma_tr_same(pre, fin, 1, q);
                    }
                }
                assert forall|q: u64|
                    #[trigger] tbl_leaf(fin, 1, q) == (if slots_eq(1, q, i) {
                        Some((fr.i << 12u64) | fl.0)
                    } else {
                        tbl_leaf(pre, 1, q)
                    }) by {
                    crate::paging::page::lemma_slot_bounds(q);
                    let sq = slot_of(q, 1);
                    if sq != s {
                        lemma_tr_same(pre, fin, 1, q);
                    }
                }
            }
        } else {
            self.next_table_create(level, s, a);
            let ghost mid = *self;
            let ghost amid = a.avail();
            proof {
                assert(tbl_tr(mid, level as nat, i) == tbl_tr(
                    mid.ch@[s as int].unwrap(),
                    (level - 1) as nat,
                    i,
                ));
            }
            let c = &mut self.ch[s];
            match c {
                Some(ct) => {
                    ct.map_at(level - 1, i, fr, fl, a);
                },
                None => {
                    proof {
                        assert(false);
                    }
                },
            }
            proof {
                let fin = *self;
                let ghost cm = mid.ch@[s as int].unwrap();
                let ghost cf = fin.ch@[s as int].unwrap();
                assert(fin.es@ == mid.es@);
                assert(fin.ch@ == mid.ch@.update(s as int, fin.ch@[s as int]));
                assert forall|s2: int| 0 <= s2 < slot_max(level as nat) implies
                    #[trigger] slot_wf(fin, level as nat, s2) by {
                    if s2 != s {
                        assert(slot_wf(mid, level as nat, s2));
                        lemma_slot_wf_same(mid, fin, level as nat, s2);
                    } else {
                        assert(slot_wf(mid, level as nat, s2));
                        assert(e_frame(fin.es@[s2].0) == e_frame(mid.es@[s2].0));
                    }
                }
                assert forall|q: u64|
                    #[trigger] tbl_tr(fin, level as nat, q) == (if slots_eq(level as nat, q, i) {
                        Some(fr.i as int)
                    } else {
                        tbl_tr(*old(self), level as nat, q)
                    }) by {
                    crate::paging::page::lemma_slot_bounds(q);
                    let sq = slot_of(q, level as nat);
                    if sq != s {
                        lemma_tr_same(*old(self), fin, level as nat, q);
                    } else {
                        assert(tbl_tr(fin, level as nat, q) == tbl_tr(
                            cf,
                            (level - 1) as nat,
                            q,
                        ));
                        assert(tbl_tr(mid, level as nat, q) == tbl_tr(
                            cm,
                            (level - 1) as nat,
                            q,
                        ));
                        assert(tbl_tr(mid, level as nat, q) == tbl_tr(
                            *old(self),
                            level as nat,
                            q,
                        ));
                        assert(tbl_tr(cf, (level - 1) as nat, q) == (if slots_eq(
                            (level - 1) as nat,
                            q,
                            i,
                        ) {
                            Some(fr.i as int)
                        } else {
                            tbl_tr(cm, (level - 1) as nat, q)
                        }));
                    }
                }
                assert forall|q: u64|
                    #[trigger] tbl_leaf(fin, level as nat, q) == (if slots_eq(
                        level as nat,
                        q,
                        i,
                    ) {
                        Some((fr.i << 12u64) | fl.0)
                    } else {
                        tbl_leaf(*old(self), level as nat, q)
                    }) by {
                    crate::paging::page::lemma_slot_bounds(q);
                    let sq = slot_of(q, level as nat);
                    if sq != s {
                        lemma_tr_same(*old(self), fin, level as nat, q);
                    } else {
                        assert(tbl_leaf(fin, level as nat, q) == tbl_leaf(
                            cf,
                            (level - 1) as nat,
                            q,
                        ));
                        assert(tbl_leaf(mid, level as nat, q) == tbl_leaf(
                            cm,
                            (level - 1) as nat,
                            q,
                        ));
                        assert(tbl_leaf(mid, level as nat, q) == tbl_leaf(
                            *old(self),
                            level as nat,
                            q,
                        ));
                    }
                }
                assert forall|q: u64|
                    #[trigger] tbl_mapped(fin, level as nat, q) == (if slots_eq(
                        level as nat,
                        q,
                        i,
                    ) {
                        true
                    } else {
                        tbl_mapped(*old(self), level as nat, q)
                    }) by {
                    crate::paging::page::lemma_slot_bounds(q);
                    let sq = slot_of(q, level as nat);
                    if sq != s {
                        lemma_tr_same(*old(self), fin, level as nat, q);
                    } else {
                        assert(tbl_tr(fin, level as nat, q) == tbl_tr(
                            cf,
                            (level - 1) as nat,
                            q,
                        ));
                        assert(tbl_tr(mid, level as nat, q) == tbl_tr(
                            cm,
                            (level - 1) as nat,
                            q,
                        ));
                        assert(tbl_tr(mid, level as nat, q) == tbl_tr(
                            *old(self),
                            level as nat,
                            q,
                        ));
                        assert(tbl_tr(cf, (level - 1) as nat, q) == (if slots_eq(
                            (level - 1) as nat,
                            q,
                            i,
                        ) {
                            Some(fr.i as int)
                        } else {
                            tbl_tr(cm, (level - 1) as nat, q)
                        }));
                        assert(tbl_mapped(fin, level as nat, q) == tbl_mapped(
                            cf,
                            (level - 1) as nat,
                            q,
                        ));
                        assert(tbl_mapped(mid, level as nat, q) == tbl_mapped(
                            cm,
                            (level - 1) as nat,
                            q,
                        ));
                        assert(tbl_mapped(mid, level as nat, q) == tbl_mapped(
                            *old(self),
                            level as nat,
                            q,
                        ));
                    }
                }
            }
        }
    }

    /// Remove the 4 KiB mapping of the page with index `i`: the leaf entry
    /// is cleared; the intermediate tables stay.  Every other page keeps
    /// its mapping.
    pub fn unmap_at(&mut self, level: u8, i: u64)
        requires
            tbl_wf(*old(self), level as nat),
            1 <= level <= 4,
            level == 4 ==> slot_of(i, 4) != 511,
            tbl_mapped(*old(self), level as nat, i),
        ensures
            tbl_wf(*final(self), level as nat),
            forall|s2: int|
                0 <= s2 < 512 && s2 != slot_of(i, level as nat)
                    ==> final(self).es@[s2] == old(self).es@[s2]
                    && final(self).ch@[s2] == old(self).ch@[s2],
            forall|q: u64|
                #[trigger] tbl_tr(*final(self), level as nat, q) == (if slots_eq(
                    level as nat,
                    q,
                    i,
                ) {
                    None
                } else {
                    tbl_tr(*old(self), level as nat, q)
                }),
            forall|q: u64|
                #[trigger] tbl_mapped(*final(self), level as nat, q) == (if slots_eq(
                    level as nat,
                    q,
                    i,
                ) {
                    false
                } else {
                    tbl_mapped(*old(self), level as nat, q)
                }),
            forall|q: u64|
                #[trigger] tbl_leaf(*final(self), level as nat, q) == (if slots_eq(
                    level as nat,
                    q,
                    i,
                ) {
                    None
                } else {
                    tbl_leaf(*old(self), level as nat, q)
                }),
        decreases level,
    {
        let s: usize = slot_idx(level, i);
        if level == 1 {
            let ghost pre = *self;
            {
                let e = &mut self.es[s];
                e.set_unused();
            }
            proof {
                let fin = *self;
                assert(!e_present(0)) by {
                    assert(0u64 & 0x1 != 0x1) by (bit_vector);
                }
                assert forall|s2: int| 0 <= s2 < slot_max(1) implies #[trigger] slot_wf(
                    fin,
                    1,
                    s2,
                ) by {
                    if s2 != s {
                        assert(slot_wf(pre, 1, s2));
                        lemma_slot_wf_same(pre, fin, 1, s2);
                    } else {
                        assert(slot_wf(pre, 1, s2));
                    }
                }
                assert forall|q: u64|
                    #[trigger] tbl_tr(fin, 1, q) == (if slots_eq(1, q, i) {
                        None
                    } else {
                        tbl_tr(pre, 1, q)
                    }) by {
                    crate::paging::page::lemma_slot_bounds(q);
                    let sq = slot_of(q, 1);
                    if sq != s {
                        lemma_tr_same(pre, fin, 1, q);
                    }
                }
                assert forall|q: u64|
                    #[trigger] tbl_mapped(fin, 1, q) == (if slots_eq(1, q, i) {
                        false
                    } else {
                        tbl_mapped(pre, 1, q)
                    }) by {
                    crate::paging::page::lemma_slot_bounds(q);
                    let sq = slot_of(q, 1);
                    if sq != s {
                        lemma_tr_same(pre, fin, 1, q);
                    }
                }
                assert forall|q: u64|
                    #[trigger] tbl_leaf(fin, 1, q) == (if slots_eq(1, q, i) {
                        None
                    } else {
                        tbl_leaf(pre, 1, q)
                    }) by {
                    crate::paging::page::lemma_slot_bounds(q);
                    let sq = slot_of(q, 1);
                    if sq != s {
                        lemma_tr_same(pre, fin, 1, q);
                    }
                }
            }
        } else {
            let ghost pre = *self;
            let c = &mut self.ch[s];
            match c {
                Some(ct) => {
                    ct.unmap_at(level - 1, i);
                },
                None => {
                    proof {
                        assert(false);
                    }
                },
            }
            proof {
                let fin = *self;
                let ghost cm = pre.ch@[s as int].unwrap();
                let ghost cf = fin.ch@[s as int].unwrap();
                assert(fin.es@ == pre.es@);
                assert(slot_wf(pre, level as nat, s as int));
                assert forall|s2: int| 0 <= s2 < slot_max(level as nat) implies
                    #[trigger] slot_wf(fin, level as nat, s2) by {
                    if s2 != s {
                        assert(slot_wf(pre, level as nat, s2));
                        lemma_slot_wf_same(pre, fin, level as nat, s2);
                    } else {
                        assert(e_frame(fin.es@[s2].0) == e_frame(pre.es@[s2].0));
                    }
                }
                assert forall|q: u64|
                    #[trigger] tbl_tr(fin, level as nat, q) == (if slots_eq(level as nat, q, i) {
                        None
                    } else {
                        tbl_tr(pre, level as nat, q)
                    }) by {
                    crate::paging::page::lemma_slot_bounds(q);
                    let sq = slot_of(q, level as nat);
                    if sq != s {
                        lemma_tr_same(pre, fin, level as nat, q);
                    } else {
                        assert(tbl_tr(fin, level as nat, q) == tbl_tr(
                            cf,
                            (level - 1) as nat,
                            q,
                        ));
                        assert(tbl_tr(pre, level as nat, q) == tbl_tr(
                            cm,
                            (level - 1) as nat,
                            q,
                        ));
                    }
                }
                assert forall|q: u64|
                    #[trigger] tbl_mapped(fin, level as nat, q) == (if slots_eq(
                        level as nat,
                        q,
                        i,
                    ) {
                        false
                    } else {
                        tbl_mapped(pre, level as nat, q)
                    }) by {
                    crate::paging::page::lemma_slot_bounds(q);
                    let sq = slot_of(q, level as nat);
                    if sq != s {
                        lemma_tr_same(pre, fin, level as nat, q);
                    } else {
                        assert(tbl_mapped(fin, level as nat, q) == tbl_mapped(
                            cf,
                            (level - 1) as nat,
                            q,
                        ));
                        assert(tbl_mapped(pre, level as nat, q) == tbl_mapped(
                            cm,
                            (level - 1) as nat,
                            q,
                        ));
                    }
                }
                assert forall|q: u64|
                    #[trigger] tbl_leaf(fin, level as nat, q) == (if slots_eq(
                        level as nat,
                        q,
                        i,
                    ) {
                        None
                    } else {
                        tbl_leaf(pre, level as nat, q)
                    }) by {
                    crate::paging::page::lemma_slot_bounds(q);
                    let sq = slot_of(q, level as nat);
                    if sq != s {
                        lemma_tr_same(pre, fin, level as nat, q);
                    } else {
                        assert(tbl_leaf(fin, level as nat, q) == tbl_leaf(
                            cf,
                            (level - 1) as nat,
                            q,
                        ));
                        assert(tbl_leaf(pre, level as nat, q) == tbl_leaf(
                            cm,
                            (level - 1) as nat,
                            q,
                        ));
                    }
                }
            }
        }
    }

    /// Follow the walk for the page `p` and return the frame it maps to,
    /// if any, handling large pages at the two middle levels.
    pub fn lookup(&self, level: u8, p: Page) -> (r: Option<Frame>)
        requires
            tbl_wf(*self, level as nat),
            1 <= level <= 4,
            level == 4 ==> self.ch@[511] is None,
        ensures
            match r {
                Some(f) => tbl_tr(*self, level as nat, p.i) == Some(f.i as int) && f.i
                    < 0x200_0000_0000,
                None => tbl_tr(*self, level as nat, p.i) is None,
            },
        decreases level,
    {
        let s: usize = slot_idx(level, p.i);
        let e = self.es[s];
        if !e.is_present() {
            return None;
        }
        if level == 1 {
            proof {
                assert(slot_wf(*self, 1, s as int));
            }
            match e.pointed_frame() {
                Some(f) => {
                    return Some(f);
                },
                None => {
                    proof {
                        assert(false);
                    }
                    return None;
                },
            }
        }
        if e.is_huge() {
            if level == 3 {
                proof {
                    assert(slot_wf(*self, 3, s as int));
                }
                match e.pointed_frame() {
                    Some(f) => {
                        return Some(
                            Frame { i: f.i + (p.p2_idx() as u64) * 512 + (p.p1_idx() as u64) },
                        );
                    },
                    None => {
                        proof {
                            assert(false);
                        }
                        return None;
                    },
                }
            } else if level == 2 {
                proof {
                    assert(slot_wf(*self, 2, s as int));
                }
                match e.pointed_frame() {
                    Some(f) => {
                        return Some(Frame { i: f.i + (p.p1_idx() as u64) });
                    },
                    None => {
                        proof {
                            assert(false);
                        }
                        return None;
                    },
                }
            } else {
                return None;
            }
        }
        proof {
            if !(level == 4 && s == 511) {
                assert(slot_wf(*self, level as nat, s as int));
            }
        }
        match &self.ch[s] {
            Some(c) => c.lookup(level - 1, p),
            None => None,
        }
    }
}

/// The table slot the page index selects at the given level, as a vector
/// index.
fn slot_idx(level: u8, i: u64) -> (r: usize)
    requires
        1 <= level <= 4,
    ensures
        r == slot_of(i, level as nat),
        r < 512,
{
    proof {
        crate::paging::page::lemma_slot_bounds(i);
    }
    if level == 4 {
        ((i >> 27) & 0x1FF) as usize
    } else if level == 3 {
        ((i >> 18) & 0x1FF) as usize
    } else if level == 2 {
        ((i >> 9) & 0x1FF) as usize
    } else {
        (i & 0x1FF) as usize
    }
}

} // verus!
