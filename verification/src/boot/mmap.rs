//! The memory-map section of the boot record: the physical areas the loader
//! reports, of which only those marked available feed the frame allocator.

use vstd::prelude::*;

verus! {

/// One physical memory area: base address, length in bytes, and the
/// loader's area type, where `1` means available RAM.
#[derive(Clone, Copy, PartialEq, Eq, Structural, Debug)]
pub struct MemArea {
    pub base: u64,
    pub len: u64,
    pub typ: u32,
}

/// The available areas of a list, in order: those with area type `1`.
pub open spec fn avail_areas(areas: Seq<MemArea>) -> Seq<MemArea>
    decreases areas.len(),
{
    if areas.len() == 0 {
        Seq::empty()
    } else if areas[0].typ == 1 {
        seq![areas[0]] + avail_areas(areas.skip(1))
    } else {
        avail_areas(areas.skip(1))
    }
}

/// The memory-map section: its entry size and version as the loader wrote
/// them, and the decoded areas.
pub struct MMapTag {
    pub esize: u32,
    pub ever: u32,
    pub areas: Vec<MemArea>,
}

impl MMapTag {
    /// Iterate over the available memory areas.
    pub fn memo(&self) -> (r: MemAreaIter)
        ensures
            r.areas@ == self.areas@,
            r.pos == 0,
            r.wf(),
    {
        let mut v: Vec<MemArea> = Vec::new();
        let mut i: usize = 0;
        while i < self.areas.len()
            invariant
                i <= self.areas@.len(),
                v@ == self.areas@.subrange(0, i as int),
            decreases self.areas@.len() - i,
        {
            v.push(self.areas[i]);
            proof {
                assert(v@ =~= self.areas@.subrange(0, i + 1));
            }
            i = i + 1;
        }
        proof {
            assert(v@ =~= self.areas@);
        }
        MemAreaIter { areas: v, pos: 0 }
    }
}

/// Walks a list of memory areas, yielding only the available ones.
pub struct MemAreaIter {
    pub areas: Vec<MemArea>,
    pub pos: usize,
}

impl MemAreaIter {
    /// The available areas this iterator has yet to yield.
    pub open spec fn remaining(&self) -> Seq<MemArea> {
        avail_areas(self.areas@.skip(self.pos as int))
    }

    /// The cursor never passes the end of the list.
    pub open spec fn wf(&self) -> bool {
        self.pos <= self.areas@.len()
    }

    /// The next available area, skipping areas of other types.
    pub fn next(&mut self) -> (r: Option<MemArea>)
        requires
            old(self).wf(),
        ensures
            final(self).wf(),
            final(self).areas@ == old(self).areas@,
            match r {
                Some(a) => old(self).remaining().len() > 0 && a == old(self).remaining()[0]
                    && final(self).remaining() == old(self).remaining().skip(1),
                None => old(self).remaining().len() == 0 && final(self).remaining() == old(
                    self,
                ).remaining(),
            },
    {
        while self.pos < self.areas.len() && self.areas[self.pos].typ != 1
            invariant
                self.areas@ == old(self).areas@,
                old(self).pos <= self.pos <= self.areas@.len(),
                avail_areas(self.areas@.skip(self.pos as int)) == old(self).remaining(),
            decreases self.areas@.len() - self.pos,
        {
            proof {
                let t = self.areas@.skip(self.pos as int);
                assert(t[0] == self.areas@[self.pos as int]);
                assert(t.skip(1) =~= self.areas@.skip(self.pos + 1));
            }
            self.pos = self.pos + 1;
        }
        if self.pos < self.areas.len() {
            let a = self.areas[self.pos];
            proof {
                let t = self.areas@.skip(self.pos as int);
                assert(t[0] == a);
                assert(t.skip(1) =~= self.areas@.skip(self.pos + 1));
                assert((seq![a] + avail_areas(self.areas@.skip(self.pos + 1))).skip(1)
                    =~= avail_areas(self.areas@.skip(self.pos + 1)));
            }
            self.pos = self.pos + 1;
            Some(a)
        } else {
            proof {
                assert(self.areas@.skip(self.pos as int) =~= Seq::<MemArea>::empty());
            }
            None
        }
    }
}

} // verus!
