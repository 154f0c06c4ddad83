//! The one-shot transition from the loader's address space to a fresh
//! hierarchy with per-section permissions, and the memory controller that
//! owns the allocators afterwards.

use vstd::prelude::*;

use crate::boot::bi::{spec_elf_headers, spec_find, BootInfo};
use crate::boot::elf::{used_sections, ElfSectionHeader, ELF_SECTION_ALLOCATED};
use crate::frame::{AreaAllocator, Frame, FrameAllocator};
use crate::globals::PAGE_SIZE;
use crate::paging::entry::{spec_section_flags, EFlags, PRESENT, WRITABLE};
use crate::paging::mapper::{m_leaf, m_mapped, m_tr, mapper_wf, ActivePTable, InactivePTable};
use crate::paging::page::{page_ok, slot_of, Page, TempPage};
use crate::stack::{Stack, StackAllocator};

verus! {

/// The first frame of a section.
pub open spec fn sec_first(s: ElfSectionHeader) -> int {
    s.sh_addr as int / PAGE_SIZE as int
}

/// The last frame of a section.
pub open spec fn sec_last(s: ElfSectionHeader) -> int {
    (s.sh_addr + s.sh_size - 1) / PAGE_SIZE as int
}

/// The section is loaded into memory.
pub open spec fn sec_alloc(s: ElfSectionHeader) -> bool {
    s.sh_flags & ELF_SECTION_ALLOCATED == ELF_SECTION_ALLOCATED
}

/// The frame belongs to some loaded section.
pub open spec fn in_sections(ss: Seq<ElfSectionHeader>, q: int) -> bool {
    exists|i: int|
        0 <= i < ss.len() && sec_alloc(#[trigger] ss[i]) && sec_first(ss[i]) <= q <= sec_last(
            ss[i],
        )
}

/// The frame of the text console.
pub const VGA_FRAME: u64 = 0xB8;

/// The frame is identity-mapped by the kernel remap: it belongs to a loaded
/// section, to the console, or to the boot record.
pub open spec fn target_frame(ss: Seq<ElfSectionHeader>, mb_s: int, mb_e: int, q: int) -> bool {
    in_sections(ss, q) || q == VGA_FRAME || (mb_s <= q <= mb_e)
}

/// The boot layout is usable: loaded sections are page-aligned, nonempty,
/// low, and pairwise frame-disjoint; the console frame and the boot record
/// stand apart from them and from each other.
pub open spec fn layout_ok(ss: Seq<ElfSectionHeader>, mb_s: int, mb_e: int) -> bool {
    &&& (forall|i: int|
        0 <= i < ss.len() && sec_alloc(#[trigger] ss[i]) ==> ss[i].sh_addr % 4096 == 0
            && ss[i].sh_addr + ss[i].sh_size < 0x8000_0000_0000)
    &&& (forall|i: int, j: int|
        0 <= i < j < ss.len() && sec_alloc(#[trigger] ss[i]) && sec_alloc(#[trigger] ss[j])
            ==> sec_last(ss[i]) < sec_first(ss[j]) || sec_last(ss[j]) < sec_first(ss[i]))
    &&& (forall|i: int|
        0 <= i < ss.len() && sec_alloc(#[trigger] ss[i]) ==> !(sec_first(ss[i]) <= VGA_FRAME
            <= sec_last(ss[i])))
    &&& (forall|i: int|
        0 <= i < ss.len() && sec_alloc(#[trigger] ss[i]) ==> sec_last(ss[i]) < mb_s || mb_e
            < sec_first(ss[i]))
    &&& !(mb_s <= VGA_FRAME <= mb_e)
    &&& 0 <= mb_s <= mb_e < 0x8_0000_0000
}

/// The number of frames the loaded sections cover.
pub open spec fn frames_count(ss: Seq<ElfSectionHeader>) -> int
    decreases ss.len(),
{
    if ss.len() == 0 {
        0
    } else {
        (if sec_alloc(ss[0]) {
            sec_last(ss[0]) - sec_first(ss[0]) + 1
        } else {
            0
        }) + frames_count(ss.skip(1))
    }
}

/// The sections the boot record carries, as the walk yields them.
pub open spec fn boot_sections(b: BootInfo) -> Seq<ElfSectionHeader> {
    let off = spec_find(b.bytes@, 8, 9).unwrap();
    used_sections(
        spec_elf_headers(
            b.bytes@,
            off + 20,
            crate::boot::bytes::le32(b.bytes@, off + 8),
            crate::boot::bytes::le32(b.bytes@, off + 12),
        ),
    )
}

/// First frame of the boot record.
pub open spec fn mb_first_frame(b: BootInfo) -> int {
    b.base as int / PAGE_SIZE as int
}

/// Last frame of the boot record.
pub open spec fn mb_last_frame(b: BootInfo) -> int {
    (b.base + b.bytes@.len() - 1) / PAGE_SIZE as int
}

/// Identity-map every frame from `first` to `last` inclusive.
fn idmap_range<A: FrameAllocator>(
    m: &mut crate::paging::mapper::Mapper,
    first: u64,
    last: u64,
    fl: EFlags,
    a: &mut A,
)
    requires
        mapper_wf(*old(m)),
        first <= last,
        last < 0x8_0000_0000,
        fl.0 & crate::paging::entry::ADDR_MASK == 0,
        !crate::paging::entry::e_huge(fl.0),
        forall|q: u64| first <= q <= last ==> (#[trigger] m_tr(*old(m), q)) is None,
        old(a).wf(),
        old(a).avail().finite(),
        old(a).avail().len() >= 4 * (last - first + 1),
    ensures
        mapper_wf(*final(m)),
        final(m).p4_fr == old(m).p4_fr,
        final(a).wf(),
        final(a).avail().finite(),
        final(a).avail().subset_of(old(a).avail()),
        final(a).avail().len() + 4 * (last - first + 1) >= old(a).avail().len(),
        forall|q: u64| first <= q <= last ==> #[trigger] m_tr(*final(m), q) == Some(q as int),
        forall|q: u64| first <= q <= last ==> #[trigger] m_mapped(*final(m), q),
        forall|q: u64|
            first <= q <= last ==> #[trigger] m_leaf(*final(m), q) == Some(
                (q << 12u64) | (fl.0 | PRESENT),
            ),
        forall|q: u64|
            page_ok(q) && !(first <= q <= last) ==> #[trigger] m_tr(*final(m), q) == m_tr(
                *old(m),
                q,
            ),
        forall|q: u64|
            page_ok(q) && !(first <= q <= last) ==> #[trigger] m_mapped(*final(m), q)
                == m_mapped(*old(m), q),
        forall|q: u64|
            page_ok(q) && !(first <= q <= last) ==> #[trigger] m_leaf(*final(m), q) == m_leaf(
                *old(m),
                q,
            ),
{
    let mut cur = first;
    while cur <= last
        invariant
            first <= cur,
            cur <= last + 1,
            last < 0x8_0000_0000,
            mapper_wf(*m),
            m.p4_fr == old(m).p4_fr,
            fl.0 & crate::paging::entry::ADDR_MASK == 0,
            !crate::paging::entry::e_huge(fl.0),
            a.wf(),
            a.avail().finite(),
            a.avail().subset_of(old(a).avail()),
            a.avail().len() + 4 * (cur - first) >= old(a).avail().len(),
            old(a).avail().len() >= 4 * (last - first + 1),
            forall|q: u64| cur <= q <= last ==> (#[trigger] m_tr(*m, q)) is None,
            forall|q: u64| first <= q <= cur - 1 ==> #[trigger] m_tr(*m, q) == Some(q as int),
            forall|q: u64| first <= q <= cur - 1 ==> #[trigger] m_mapped(*m, q),
            forall|q: u64|
                first <= q <= cur - 1 ==> #[trigger] m_leaf(*m, q) == Some(
                    (q << 12u64) | (fl.0 | PRESENT),
                ),
            forall|q: u64|
                page_ok(q) && !(first <= q <= cur - 1) ==> #[trigger] m_tr(*m, q) == m_tr(
                    *old(m),
                    q,
                ),
            forall|q: u64|
                page_ok(q) && !(first <= q <= cur - 1) ==> #[trigger] m_mapped(*m, q)
                    == m_mapped(*old(m), q),
            forall|q: u64|
                page_ok(q) && !(first <= q <= cur - 1) ==> #[trigger] m_leaf(*m, q) == m_leaf(
                    *old(m),
                    q,
                ),
        decreases last + 1 - cur,
    {
        let fr = Frame { i: cur };
        let ghost pre = *m;
        m.idmap(&fr, fl, a);
        proof {
            assert forall|q: u64| cur + 1 <= q <= last implies (#[trigger] m_tr(*m, q))
                is None by {
                assert(page_ok(q));
                assert(m_tr(*m, q) == m_tr(pre, q));
            }
            assert forall|q: u64| first <= q <= cur implies #[trigger] m_tr(*m, q) == Some(
                q as int,
            ) && #[trigger] m_mapped(*m, q) by {
                if q < cur {
                    assert(page_ok(q));
                    assert(m_tr(*m, q) == m_tr(pre, q));
                    assert(m_mapped(*m, q) == m_mapped(pre, q));
                }
            }
            assert forall|q: u64|
                page_ok(q) && !(first <= q <= cur) implies #[trigger] m_mapped(*m, q)
                == m_mapped(*old(m), q) && #[trigger] m_tr(*m, q) == m_tr(*old(m), q)
                && #[trigger] m_leaf(*m, q) == m_leaf(*old(m), q) by {
                assert(m_mapped(*m, q) == m_mapped(pre, q));
                assert(m_tr(*m, q) == m_tr(pre, q));
                assert(m_leaf(*m, q) == m_leaf(pre, q));
            }
            assert forall|q: u64| first <= q <= cur implies #[trigger] m_leaf(*m, q) == Some(
                (q << 12u64) | (fl.0 | PRESENT),
            ) by {
                if q < cur {
                    assert(page_ok(q));
                    assert(m_leaf(*m, q) == m_leaf(pre, q));
                }
            }
        }
        cur = cur + 1;
    }
}

/// The frame of an address below 2^47 is below 2^35, and frames respect
/// address order.
proof fn lemma_frame_bound(x: int)
    requires
        0 <= x < 0x8000_0000_0000,
    ensures
        0 <= x / 4096 < 0x8_0000_0000,
{
    vstd::arithmetic::div_mod::lemma_div_pos_is_pos(x, 4096);
    assert((4096 as int) * (0x8_0000_0000 as int) == 0x8000_0000_0000) by (nonlinear_arith);
    vstd::arithmetic::div_mod::lemma_multiply_divide_lt(x, 4096, 0x8_0000_0000);
}

proof fn lemma_frame_order(x: int, y: int)
    requires
        0 <= x <= y,
    ensures
        x / 4096 <= y / 4096,
{
    vstd::arithmetic::div_mod::lemma_div_is_ordered(x, y, 4096);
}

/// A page-aligned empty section covers no frame: its last frame lies below
/// its first.
proof fn lemma_empty_section(addr: u64)
    requires
        addr % 4096 == 0,
    ensures
        (addr - 1) / 4096 < addr as int / 4096,
{
    vstd::arithmetic::div_mod::lemma_fundamental_div_mod(addr as int, 4096);
    let d = addr as int / 4096;
    assert(addr == d * 4096) by {
        vstd::arithmetic::mul::lemma_mul_is_commutative(d, 4096);
    }
    assert(addr - 1 == (d - 1) * 4096 + 4095) by (nonlinear_arith)
        requires
            addr == d * 4096,
    ;
    vstd::arithmetic::div_mod::lemma_fundamental_div_mod_converse(addr - 1, 4096, d - 1, 4095);
}

proof fn lemma_frames_count_nonneg(ss: Seq<ElfSectionHeader>)
    requires
        forall|i: int|
            0 <= i < ss.len() && sec_alloc(#[trigger] ss[i]) ==> ss[i].sh_addr % 4096 == 0
                && ss[i].sh_addr + ss[i].sh_size < 0x8000_0000_0000,
    ensures
        frames_count(ss) >= 0,
    decreases ss.len(),
{
    if ss.len() > 0 {
        assert(forall|i: int| 0 <= i < ss.skip(1).len() ==> ss.skip(1)[i] == ss[i + 1]);
        lemma_frames_count_nonneg(ss.skip(1));
        if sec_alloc(ss[0]) {
            if ss[0].sh_size >= 1 {
                lemma_frame_order(ss[0].sh_addr as int, ss[0].sh_addr + ss[0].sh_size - 1);
            } else {
                lemma_empty_section(ss[0].sh_addr);
            }
        }
    }
}

/// Build a fresh address space: identity-map every loaded kernel section
/// with its own permissions, the console frame, and the boot record; switch
/// to it; then unmap the page at the old top-level table's address, leaving
/// a guard page below the loader's stack.
#[verifier::rlimit(100)]
pub fn kernel_remap<A: FrameAllocator>(a: &mut A, b: &BootInfo, at: ActivePTable) -> (r:
    ActivePTable)
    requires
        b.wf(),
        spec_find(b.bytes@, 8, 9) is Some,
        mapper_wf(at.map),
        layout_ok(boot_sections(*b), mb_first_frame(*b), mb_last_frame(*b)),
        in_sections(boot_sections(*b), at.map.p4_fr as int),
        old(a).wf(),
        old(a).avail().finite(),
        old(a).avail().len() >= 4 + 4 * (frames_count(boot_sections(*b)) + 1 + (mb_last_frame(
            *b,
        ) - mb_first_frame(*b) + 1)),
    ensures
        mapper_wf(r.map),
        final(a).wf(),
        final(a).avail().finite(),
        final(a).avail().subset_of(old(a).avail()),
        m_tr(r.map, at.map.p4_fr) is None,
        forall|q: u64|
            page_ok(q) && target_frame(
                boot_sections(*b),
                mb_first_frame(*b),
                mb_last_frame(*b),
                q as int,
            ) && q != at.map.p4_fr ==> #[trigger] m_tr(r.map, q) == Some(q as int),
        forall|q: u64|
            page_ok(q) && !target_frame(
                boot_sections(*b),
                mb_first_frame(*b),
                mb_last_frame(*b),
                q as int,
            ) ==> #[trigger] m_tr(r.map, q) is None,
        forall|q: u64, i: int|
            #![trigger m_leaf(r.map, q), boot_sections(*b)[i]]
            page_ok(q) && 0 <= i < boot_sections(*b).len() && sec_alloc(boot_sections(*b)[i])
                && sec_first(boot_sections(*b)[i]) <= q as int <= sec_last(boot_sections(*b)[i])
                && q != at.map.p4_fr ==> m_leaf(r.map, q) == Some(
                (q << 12u64) | (spec_section_flags(boot_sections(*b)[i].sh_flags) | PRESENT),
            ),
        m_leaf(r.map, VGA_FRAME) == Some((VGA_FRAME << 12u64) | (WRITABLE | PRESENT)),
        forall|q: u64|
            mb_first_frame(*b) <= q as int <= mb_last_frame(*b) ==> #[trigger] m_leaf(
                r.map,
                q,
            ) == Some((q << 12u64) | (PRESENT | PRESENT)),
{
    let ghost ss = boot_sections(*b);
    let ghost mb_s = mb_first_frame(*b);
    let ghost mb_e = mb_last_frame(*b);
    proof {
        lemma_frames_count_nonneg(ss);
    }
    let mut p = TempPage::new(Page { i: 0xCACABA }, a);
    let mut at = at;
    proof {
        broadcast use vstd::set_lib::group_set_properties;

        let d = a.avail();
        let taken = p.a.avail();
        vstd::set_lib::lemma_len_subset(d, old(a).avail());
        assert(old(a).avail().subset_of(d.union(taken))) by {
            assert forall|x: int| old(a).avail().contains(x) implies d.union(taken).contains(
                x,
            ) by {}
        }
        vstd::set_lib::lemma_len_subset(taken, old(a).avail());
        vstd::set_lib::lemma_len_union(d, taken);
        vstd::set_lib::lemma_len_subset(old(a).avail(), d.union(taken));
        assert(a.avail().len() + 3 >= old(a).avail().len());
    }
    let fr = match a.allocate() {
        Some(f) => f,
        None => {
            proof {
                broadcast use vstd::set_lib::group_set_properties;

                assert(a.avail().len() == 0);
                assert(false);
            }
            Frame { i: 0 }
        },
    };
    proof {
        broadcast use vstd::set_lib::group_set_properties;

        assert(a.avail().len() >= 4 * (frames_count(ss) + 1 + (mb_e - mb_s + 1)));
    }
    let mut new_t = InactivePTable::new(fr);
    let tag = match b.elf_sections_tag() {
        Some(t) => t,
        None => {
            proof {
                assert(false);
            }
            crate::boot::elf::ElfSectionTag { size: 0, esize: 0, shndx: 0, sections: Vec::new() }
        },
    };
    let mut it = tag.elf_sections();
    let ghost mut j: int = 0;
    proof {
        assert(it.sections@.skip(0) =~= it.sections@);
        assert(it.remaining() == used_sections(it.sections@));
        assert(it.remaining() == ss);
        assert(ss.skip(0) =~= ss);
    }
    loop
        invariant
            b.wf(),
            it.wf(),
            0 <= j <= ss.len(),
            it.remaining() == ss.skip(j),
            layout_ok(ss, mb_s, mb_e),
            mapper_wf(new_t.map),
            new_t.map.p4_fr == fr.i,
            a.wf(),
            a.avail().finite(),
            a.avail().subset_of(old(a).avail()),
            a.avail().len() >= 4 * (frames_count(ss.skip(j)) + 1 + (mb_e - mb_s + 1)),
            forall|q: u64|
                page_ok(q) && in_sections(ss.take(j), q as int) ==> #[trigger] m_tr(
                    new_t.map,
                    q,
                ) == Some(q as int) && m_mapped(new_t.map, q),
            forall|q: u64|
                page_ok(q) && !in_sections(ss.take(j), q as int) ==> #[trigger] m_tr(
                    new_t.map,
                    q,
                ) is None,
            forall|q: u64|
                page_ok(q) && !in_sections(ss.take(j), q as int) ==> #[trigger] m_leaf(
                    new_t.map,
                    q,
                ) is None,
            forall|q: u64, i: int|
                #![trigger m_leaf(new_t.map, q), ss.take(j)[i]]
                page_ok(q) && 0 <= i < j && sec_alloc(ss.take(j)[i]) && sec_first(ss.take(j)[i])
                    <= q as int <= sec_last(ss.take(j)[i]) ==> m_leaf(new_t.map, q) == Some(
                    (q << 12u64) | (spec_section_flags(ss.take(j)[i].sh_flags) | PRESENT),
                ),
        ensures
            mapper_wf(new_t.map),
            new_t.map.p4_fr == fr.i,
            a.wf(),
            a.avail().finite(),
            a.avail().subset_of(old(a).avail()),
            a.avail().len() >= 4 * (1 + (mb_e - mb_s + 1)),
            forall|q: u64|
                page_ok(q) && in_sections(ss, q as int) ==> #[trigger] m_tr(new_t.map, q)
                    == Some(q as int) && m_mapped(new_t.map, q),
            forall|q: u64|
                page_ok(q) && !in_sections(ss, q as int) ==> #[trigger] m_tr(new_t.map, q)
                    is None,
            forall|q: u64|
                page_ok(q) && !in_sections(ss, q as int) ==> #[trigger] m_leaf(new_t.map, q)
                    is None,
            forall|q: u64, i: int|
                #![trigger m_leaf(new_t.map, q), ss[i]]
                page_ok(q) && 0 <= i < ss.len() && sec_alloc(ss[i]) && sec_first(ss[i])
                    <= q as int <= sec_last(ss[i]) ==> m_leaf(new_t.map, q) == Some(
                    (q << 12u64) | (spec_section_flags(ss[i].sh_flags) | PRESENT),
                ),
        decreases ss.len() - j,
    {
        let s = match it.next() {
            Some(s) => s,
            None => {
                proof {
                    assert(ss.skip(j).len() == 0);
                    assert(ss.skip(j) =~= Seq::<ElfSectionHeader>::empty());
                    assert(j == ss.len());
                    assert(ss.take(j) =~= ss);
                    assert(frames_count(ss.skip(j)) == 0);
                    assert forall|q: u64, i: int|
                        #![trigger m_leaf(new_t.map, q), ss[i]]
                        page_ok(q) && 0 <= i < ss.len() && sec_alloc(ss[i]) && sec_first(ss[i])
                            <= q as int <= sec_last(ss[i]) implies m_leaf(new_t.map, q) == Some(
                        (q << 12u64) | (spec_section_flags(ss[i].sh_flags) | PRESENT),
                    ) by {
                        assert(ss.take(j)[i] == ss[i]);
                    }
                }
                break ;
            },
        };
        proof {
            assert(s == ss.skip(j)[0]);
            assert(s == ss[j]);
            assert(it.remaining() =~= ss.skip(j + 1));
            assert(frames_count(ss.skip(j)) == (if sec_alloc(s) {
                sec_last(s) - sec_first(s) + 1
            } else {
                0
            }) + frames_count(ss.skip(j + 1))) by {
                assert(ss.skip(j)[0] == s);
                assert(ss.skip(j).skip(1) =~= ss.skip(j + 1));
            }
            assert(forall|i: int|
                0 <= i < ss.skip(j + 1).len() ==> (#[trigger] ss.skip(j + 1)[i]) == ss[i + j
                    + 1]);
            lemma_frames_count_nonneg(ss.skip(j + 1));
        }
        if !s.is_allocated() || s.size() == 0 {
            proof {
                if sec_alloc(s) {
                    lemma_empty_section(s.sh_addr);
                }
                j = j + 1;
                assert forall|q: u64|
                    page_ok(q) && in_sections(ss.take(j), q as int) implies #[trigger] m_tr(
                    new_t.map,
                    q,
                ) == Some(q as int) && m_mapped(new_t.map, q) by {
                    let i = choose|i: int|
                        0 <= i < ss.take(j).len() && sec_alloc(#[trigger] ss.take(j)[i])
                            && sec_first(ss.take(j)[i]) <= q as int <= sec_last(ss.take(j)[i]);
                    assert(ss.take(j)[i] == ss[i]);
                    assert(i < j - 1 || !sec_alloc(ss[i]));
                    assert(ss.take(j - 1)[i] == ss[i]);
                    assert(in_sections(ss.take(j - 1), q as int));
                }
                assert forall|q: u64|
                    page_ok(q) && !in_sections(ss.take(j), q as int) implies #[trigger] m_tr(
                    new_t.map,
                    q,
                ) is None by {
                    if in_sections(ss.take(j - 1), q as int) {
                        let i = choose|i: int|
                            0 <= i < ss.take(j - 1).len() && sec_alloc(
                                #[trigger] ss.take(j - 1)[i],
                            ) && sec_first(ss.take(j - 1)[i]) <= q as int <= sec_last(
                                ss.take(j - 1)[i],
                            );
                        assert(ss.take(j)[i] == ss[i]);
                        assert(in_sections(ss.take(j), q as int));
                    }
                }
                assert forall|q: u64|
                    page_ok(q) && !in_sections(ss.take(j), q as int) implies #[trigger] m_leaf(
                    new_t.map,
                    q,
                ) is None by {
                    if in_sections(ss.take(j - 1), q as int) {
                        let i = choose|i: int|
                            0 <= i < ss.take(j - 1).len() && sec_alloc(
                                #[trigger] ss.take(j - 1)[i],
                            ) && sec_first(ss.take(j - 1)[i]) <= q as int <= sec_last(
                                ss.take(j - 1)[i],
                            );
                        assert(ss.take(j)[i] == ss[i]);
                        assert(in_sections(ss.take(j), q as int));
                    }
                }
                assert forall|q: u64, i: int|
                    #![trigger m_leaf(new_t.map, q), ss.take(j)[i]]
                    page_ok(q) && 0 <= i < j && sec_alloc(ss.take(j)[i]) && sec_first(
                        ss.take(j)[i],
                    ) <= q as int <= sec_last(ss.take(j)[i]) implies m_leaf(new_t.map, q)
                    == Some(
                    (q << 12u64) | (spec_section_flags(ss.take(j)[i].sh_flags) | PRESENT),
                ) by {
                    assert(ss.take(j)[i] == ss[i]);
                    assert(i < j - 1 || !sec_alloc(ss[i]));
                    assert(ss.take(j - 1)[i] == ss[i]);
                }
            }
            continue ;
        }
        let start = s.start_addr();
        let endp = s.end_addr();
        let fl = EFlags::from_elf_section_flags(&s);
        let first = Frame::caddr(start);
        let last = Frame::caddr(endp - 1);
        proof {
            assert(sec_alloc(ss[j]));
            assert(ss[j].sh_addr % 4096 == 0 && ss[j].sh_size >= 1 && ss[j].sh_addr
                + ss[j].sh_size < 0x8000_0000_0000);
            assert(first.i == sec_first(s) && last.i == sec_last(s));
            lemma_frame_order(s.sh_addr as int, s.sh_addr + s.sh_size - 1);
            lemma_frame_bound(s.sh_addr + s.sh_size - 1);
            assert(first.i <= last.i);
            assert(last.i < 0x8_0000_0000);
            assert forall|q: u64| first.i <= q <= last.i implies (#[trigger] m_tr(
                new_t.map,
                q,
            )) is None by {
                assert(page_ok(q));
                if in_sections(ss.take(j), q as int) {
                    let i = choose|i: int|
                        0 <= i < ss.take(j).len() && sec_alloc(#[trigger] ss.take(j)[i])
                            && sec_first(ss.take(j)[i]) <= q as int <= sec_last(ss.take(j)[i]);
                    assert(ss.take(j)[i] == ss[i]);
                    assert(sec_last(ss[i]) < sec_first(ss[j]) || sec_last(ss[j]) < sec_first(
                        ss[i],
                    ));
                    assert(false);
                }
            }
        }
        let ghost pre_map = new_t.map;
        idmap_range(&mut new_t.map, first.i, last.i, fl, a);
        proof {
            j = j + 1;
            assert forall|q: u64|
                page_ok(q) && in_sections(ss.take(j), q as int) implies #[trigger] m_tr(
                new_t.map,
                q,
            ) == Some(q as int) && m_mapped(new_t.map, q) by {
                let i = choose|i: int|
                    0 <= i < ss.take(j).len() && sec_alloc(#[trigger] ss.take(j)[i])
                        && sec_first(ss.take(j)[i]) <= q as int <= sec_last(ss.take(j)[i]);
                assert(ss.take(j)[i] == ss[i]);
                if i == j - 1 {
                    assert(first.i <= q <= last.i);
                } else {
                    assert(ss.take(j - 1)[i] == ss[i]);
                    assert(in_sections(ss.take(j - 1), q as int));
                    assert(!(first.i <= q <= last.i)) by {
                        assert(sec_last(ss[i]) < sec_first(ss[j - 1]) || sec_last(ss[j - 1])
                            < sec_first(ss[i]));
                    }
                }
            }
            assert forall|q: u64|
                page_ok(q) && !in_sections(ss.take(j), q as int) implies #[trigger] m_tr(
                new_t.map,
                q,
            ) is None by {
                assert(!(first.i <= q <= last.i)) by {
                    if first.i <= q <= last.i {
                        assert(ss.take(j)[j - 1] == ss[j - 1]);
                        assert(in_sections(ss.take(j), q as int));
                    }
                }
                if in_sections(ss.take(j - 1), q as int) {
                    let i = choose|i: int|
                        0 <= i < ss.take(j - 1).len() && sec_alloc(#[trigger] ss.take(j - 1)[i])
                            && sec_first(ss.take(j - 1)[i]) <= q as int <= sec_last(
                            ss.take(j - 1)[i],
                        );
                    assert(ss.take(j)[i] == ss[i]);
                    assert(in_sections(ss.take(j), q as int));
                }
            }
            assert forall|q: u64|
                page_ok(q) && !in_sections(ss.take(j), q as int) implies #[trigger] m_leaf(
                new_t.map,
                q,
            ) is None by {
                assert(!(first.i <= q <= last.i)) by {
                    if first.i <= q <= last.i {
                        assert(ss.take(j)[j - 1] == ss[j - 1]);
                        assert(in_sections(ss.take(j), q as int));
                    }
                }
                if in_sections(ss.take(j - 1), q as int) {
                    let i = choose|i: int|
                        0 <= i < ss.take(j - 1).len() && sec_alloc(#[trigger] ss.take(j - 1)[i])
                            && sec_first(ss.take(j - 1)[i]) <= q as int <= sec_last(
                            ss.take(j - 1)[i],
                        );
                    assert(ss.take(j)[i] == ss[i]);
                    assert(in_sections(ss.take(j), q as int));
                }
                assert(m_leaf(new_t.map, q) == m_leaf(pre_map, q));
            }
            assert forall|q: u64, i: int|
                #![trigger m_leaf(new_t.map, q), ss.take(j)[i]]
                page_ok(q) && 0 <= i < j && sec_alloc(ss.take(j)[i]) && sec_first(ss.take(j)[i])
                    <= q as int <= sec_last(ss.take(j)[i]) implies m_leaf(new_t.map, q) == Some(
                (q << 12u64) | (spec_section_flags(ss.take(j)[i].sh_flags) | PRESENT),
            ) by {
                assert(ss.take(j)[i] == ss[i]);
                if i == j - 1 {
                    assert(first.i <= q <= last.i);
                    assert(fl.0 == spec_section_flags(ss[i].sh_flags));
                } else {
                    assert(ss.take(j - 1)[i] == ss[i]);
                    assert(in_sections(ss.take(j - 1), q as int));
                    assert(!(first.i <= q <= last.i)) by {
                        assert(sec_last(ss[i]) < sec_first(ss[j - 1]) || sec_last(ss[j - 1])
                            < sec_first(ss[i]));
                    }
                    assert(m_leaf(new_t.map, q) == m_leaf(pre_map, q));
                }
            }
        }
    }
    proof {
        assert(!in_sections(ss, VGA_FRAME as int)) by {
            if in_sections(ss, VGA_FRAME as int) {
                let i = choose|i: int|
                    0 <= i < ss.len() && sec_alloc(#[trigger] ss[i]) && sec_first(ss[i])
                        <= VGA_FRAME as int <= sec_last(ss[i]);
            }
        }
    }
    let vga_buf = Frame::caddr(0xB8000);
    let ghost pre_vga = new_t.map;
    proof {
        assert(0x2u64 & 0x000F_FFFF_FFFF_F000 == 0 && !(0x2u64 & 0x80 == 0x80)) by (bit_vector);
        assert(0x1u64 & 0x000F_FFFF_FFFF_F000 == 0 && !(0x1u64 & 0x80 == 0x80)) by (bit_vector);
    }
    new_t.map.idmap(&vga_buf, EFlags(WRITABLE), a);
    let mb_start = Frame::caddr(b.start_addr());
    let mb_end = Frame::caddr(b.end_addr() - 1);
    proof {
        assert(mb_start.i == mb_s && mb_end.i == mb_e);
        assert forall|q: u64| mb_start.i <= q <= mb_end.i implies (#[trigger] m_tr(
            new_t.map,
            q,
        )) is None by {
            assert(page_ok(q));
            assert(m_tr(new_t.map, q) == m_tr(pre_vga, q));
            if in_sections(ss, q as int) {
                let i = choose|i: int|
                    0 <= i < ss.len() && sec_alloc(#[trigger] ss[i]) && sec_first(ss[i])
                        <= q as int <= sec_last(ss[i]);
            }
        }
    }
    let ghost pre_mb = new_t.map;
    idmap_range(&mut new_t.map, mb_start.i, mb_end.i, EFlags(PRESENT), a);
    let old_t = at.switch(new_t);
    let old_fr = old_t.p4_frame();
    proof {
        assert(in_sections(ss, old_fr.i as int));
        let i0 = choose|i: int|
            0 <= i < ss.len() && sec_alloc(#[trigger] ss[i]) && sec_first(ss[i])
                <= old_fr.i as int <= sec_last(ss[i]);
        assert(old_fr.i <= sec_last(ss[i0]));
        lemma_frame_bound(ss[i0].sh_addr + ss[i0].sh_size - 1);
        assert(old_fr.i < 0x8_0000_0000);
    }
    let old_p4_p = Page::caddr(old_fr.addr_ptr());
    proof {
        vstd::arithmetic::div_mod::lemma_div_multiples_vanish(old_fr.i as int, 4096);
        assert(old_p4_p.i == old_fr.i);
        let i = old_fr.i;
        assert(i < 0x8_0000_0000 ==> (i >> 27u64) & 0x1FF != 511 || i >= 0x8_0000_0000)
            by (bit_vector);
        assert(m_mapped(at.map, old_fr.i)) by {
            assert(old_fr.i != VGA_FRAME as u64);
            assert(page_ok(old_fr.i));
            assert(m_tr(pre_vga, old_fr.i) == Some(old_fr.i as int));
            assert(m_mapped(pre_vga, old_fr.i));
            assert(m_mapped(pre_mb, old_fr.i));
            assert(!(mb_s <= old_fr.i as int <= mb_e));
            assert(m_mapped(at.map, old_fr.i) == m_mapped(pre_mb, old_fr.i));
        }
    }
    let ghost pre_guard = at.map;
    at.map.unmap(old_p4_p, a);
    proof {
        assert forall|q: u64|
            page_ok(q) && target_frame(ss, mb_s, mb_e, q as int) && q != old_fr.i implies
            #[trigger] m_tr(at.map, q) == Some(q as int) by {
            assert(m_tr(at.map, q) == m_tr(pre_guard, q));
            if in_sections(ss, q as int) {
                assert(q as int != VGA_FRAME && !(mb_s <= q as int <= mb_e)) by {
                    let i = choose|i: int|
                        0 <= i < ss.len() && sec_alloc(#[trigger] ss[i]) && sec_first(ss[i])
                            <= q as int <= sec_last(ss[i]);
                }
                assert(m_tr(pre_vga, q) == Some(q as int));
                assert(m_tr(pre_mb, q) == m_tr(pre_vga, q));
                assert(m_tr(pre_guard, q) == m_tr(pre_mb, q));
            } else if q as int == VGA_FRAME {
                assert(m_tr(pre_mb, q) == Some(q as int));
                assert(m_tr(pre_guard, q) == m_tr(pre_mb, q));
            } else {
                assert(m_tr(pre_guard, q) == Some(q as int));
            }
        }
        assert forall|q: u64|
            page_ok(q) && !target_frame(ss, mb_s, mb_e, q as int) implies #[trigger] m_tr(
            at.map,
            q,
        ) is None by {
            assert(q != old_fr.i);
            assert(m_tr(at.map, q) == m_tr(pre_guard, q));
            assert(m_tr(pre_vga, q) is None);
            assert(m_tr(pre_mb, q) == m_tr(pre_vga, q));
            assert(m_tr(pre_guard, q) == m_tr(pre_mb, q));
        }
    }
    at
}

/// First page of the heap's virtual region.
pub open spec fn heap_first_page() -> int {
    crate::globals::HEAP_START as int / PAGE_SIZE as int
}

/// Last page of the heap's virtual region.
pub open spec fn heap_last_page() -> int {
    (crate::globals::HEAP_START + crate::globals::HEAP_SIZE - 1) / PAGE_SIZE as int
}

/// Map the heap's virtual region `[HEAP_START, HEAP_START + HEAP_SIZE)`
/// writable, page by page, with frames drawn from the allocator; the heap
/// itself then manages the region.
pub fn map_heap<A: FrameAllocator>(at: &mut ActivePTable, a: &mut A)
    requires
        mapper_wf(old(at).map),
        forall|q: u64|
            heap_first_page() <= q as int <= heap_last_page() ==> (#[trigger] m_tr(
                old(at).map,
                q,
            )) is None,
        old(a).wf(),
        old(a).avail().finite(),
        old(a).avail().len() >= 4 * (heap_last_page() - heap_first_page() + 1),
    ensures
        mapper_wf(final(at).map),
        final(at).map.p4_fr == old(at).map.p4_fr,
        final(a).wf(),
        final(a).avail().finite(),
        final(a).avail().subset_of(old(a).avail()),
        forall|q: u64|
            heap_first_page() <= q as int <= heap_last_page() ==> #[trigger] m_mapped(
                final(at).map,
                q,
            ),
        forall|q: u64|
            heap_first_page() <= q as int <= heap_last_page()
                ==> #[trigger] crate::stack::leaf_writable(final(at).map, q),
        forall|q: u64|
            page_ok(q) && !(heap_first_page() <= q as int <= heap_last_page())
                ==> #[trigger] m_tr(final(at).map, q) == m_tr(old(at).map, q),
{
    let first: u64 = crate::globals::HEAP_START / PAGE_SIZE;
    let last: u64 = (crate::globals::HEAP_START + crate::globals::HEAP_SIZE - 1) / PAGE_SIZE;
    proof {
        assert(first == heap_first_page() && last == heap_last_page());
        assert forall|q: u64| first <= q <= last implies page_ok(q) && slot_of(q, 4) != 511 by {
            assert(q < 0x8_0000_0000 && (q >> 27u64) & 0x1FF != 511) by (bit_vector)
                requires
                    q <= 0x40018u64,
            ;
        }
    }
    let mut cur = first;
    while cur <= last
        invariant
            first == heap_first_page(),
            last == heap_last_page(),
            first <= cur,
            cur <= last + 1,
            mapper_wf(at.map),
            at.map.p4_fr == old(at).map.p4_fr,
            a.wf(),
            a.avail().finite(),
            a.avail().subset_of(old(a).avail()),
            a.avail().len() + 4 * (cur - first) >= old(a).avail().len(),
            old(a).avail().len() >= 4 * (last - first + 1),
            forall|q: u64| first <= q <= last ==> page_ok(q) && #[trigger] slot_of(q, 4) != 511,
            forall|q: u64| cur <= q <= last ==> (#[trigger] m_tr(at.map, q)) is None,
            forall|q: u64| first <= q <= cur - 1 ==> #[trigger] m_mapped(at.map, q),
            forall|q: u64|
                first <= q <= cur - 1 ==> #[trigger] crate::stack::leaf_writable(at.map, q),
            forall|q: u64|
                page_ok(q) && !(first <= q <= cur - 1) ==> #[trigger] m_tr(at.map, q) == m_tr(
                    old(at).map,
                    q,
                ),
        decreases last + 1 - cur,
    {
        let p = Page { i: cur };
        proof {
            assert(page_ok(p.i) && slot_of(p.i, 4) != 511 && m_tr(at.map, p.i) is None);
            assert(0x2u64 & 0x000F_FFFF_FFFF_F000 == 0 && !(0x2u64 & 0x80 == 0x80))
                by (bit_vector);
        }
        let ghost pre_at = *at;
        at.map.map(p, EFlags(WRITABLE), a);
        proof {
            assert forall|q: u64| cur + 1 <= q <= last implies (#[trigger] m_tr(at.map, q))
                is None by {
                assert(m_tr(at.map, q) == m_tr(pre_at.map, q));
            }
            assert forall|q: u64| first <= q <= cur implies #[trigger] m_mapped(at.map, q) by {
                if q < cur {
                    assert(m_mapped(pre_at.map, q));
                    assert(m_mapped(at.map, q) == m_mapped(pre_at.map, q));
                }
            }
            assert forall|q: u64|
                first <= q <= cur implies #[trigger] crate::stack::leaf_writable(at.map, q) by {
                if q < cur {
                    assert(crate::stack::leaf_writable(pre_at.map, q));
                    assert(m_leaf(at.map, q) == m_leaf(pre_at.map, q));
                } else {
                    let fi = choose|fi: u64|
                        {
                            &&& #[trigger] m_tr(at.map, p.i) == Some(fi as int)
                            &&& m_leaf(at.map, p.i) == Some((fi << 12u64) | (0x2u64 | 0x1u64))
                        };
                    assert(((fi << 12u64) | (0x2u64 | 0x1u64)) & 0x2 == 0x2 && ((fi << 12u64)
                        | (0x2u64 | 0x1u64)) & 0x1 == 0x1) by (bit_vector);
                }
            }
            assert forall|q: u64|
                page_ok(q) && !(first <= q <= cur) implies #[trigger] m_tr(at.map, q) == m_tr(
                old(at).map,
                q,
            ) by {
                assert(m_tr(at.map, q) == m_tr(pre_at.map, q));
            }
        }
        cur = cur + 1;
    }
}

/// The lowest start and highest end over the loaded kernel sections, or
/// nothing when the record lists no loaded section.
pub fn kernel_bounds(tag: &crate::boot::elf::ElfSectionTag) -> (r: Option<(u64, u64)>)
    requires
        forall|i: int|
            0 <= i < tag.sections@.len() ==> (#[trigger] tag.sections@[i]).sh_addr
                + tag.sections@[i].sh_size <= u64::MAX,
    ensures
        ({
            let ss = used_sections(tag.sections@);
            match r {
                Some(b) => {
                    &&& (exists|i: int|
                        0 <= i < ss.len() && sec_alloc(#[trigger] ss[i]) && ss[i].sh_addr
                            == b.0)
                    &&& (forall|i: int|
                        0 <= i < ss.len() && sec_alloc(#[trigger] ss[i]) ==> b.0
                            <= ss[i].sh_addr)
                    &&& (exists|i: int|
                        0 <= i < ss.len() && sec_alloc(#[trigger] ss[i]) && ss[i].sh_addr
                            + ss[i].sh_size == b.1)
                    &&& (forall|i: int|
                        0 <= i < ss.len() && sec_alloc(#[trigger] ss[i]) ==> ss[i].sh_addr
                            + ss[i].sh_size <= b.1)
                },
                None => forall|i: int|
                    0 <= i < ss.len() ==> !sec_alloc(#[trigger] ss[i]),
            }
        }),
{
    let ghost ss = used_sections(tag.sections@);
    let mut it = tag.elf_sections();
    let ghost mut j: int = 0;
    proof {
        assert(it.sections@.skip(0) =~= it.sections@);
        assert(it.remaining() == ss);
        assert(ss.skip(0) =~= ss);
        assert forall|i: int|
            0 <= i < ss.len() implies (#[trigger] ss[i]).sh_addr + ss[i].sh_size
            <= u64::MAX by {
            crate::boot::elf::lemma_used_sections_sub(tag.sections@, i);
            let k = choose|k: int|
                0 <= k < tag.sections@.len() && tag.sections@[k] == ss[i];
            assert(tag.sections@[k].sh_addr + tag.sections@[k].sh_size <= u64::MAX);
        }
    }
    let mut acc: Option<(u64, u64)> = None;
    loop
        invariant
            it.wf(),
            0 <= j <= ss.len(),
            it.remaining() == ss.skip(j),
            forall|i: int|
                0 <= i < ss.len() ==> (#[trigger] ss[i]).sh_addr + ss[i].sh_size <= u64::MAX,
            match acc {
                Some(b) => {
                    &&& (exists|i: int|
                        0 <= i < j && sec_alloc(#[trigger] ss[i]) && ss[i].sh_addr == b.0)
                    &&& (forall|i: int|
                        0 <= i < j && sec_alloc(#[trigger] ss[i]) ==> b.0 <= ss[i].sh_addr)
                    &&& (exists|i: int|
                        0 <= i < j && sec_alloc(#[trigger] ss[i]) && ss[i].sh_addr
                            + ss[i].sh_size == b.1)
                    &&& (forall|i: int|
                        0 <= i < j && sec_alloc(#[trigger] ss[i]) ==> ss[i].sh_addr
                            + ss[i].sh_size <= b.1)
                },
                None => forall|i: int| 0 <= i < j ==> !sec_alloc(#[trigger] ss[i]),
            },
        ensures
            j == ss.len(),
            it.remaining().len() == 0,
        decreases ss.len() - j,
    {
        let sct = match it.next() {
            Some(sct) => sct,
            None => {
                proof {
                    assert(ss.skip(j).len() == 0);
                    assert(ss.skip(j) =~= Seq::<ElfSectionHeader>::empty());
                    assert(j == ss.len());
                }
                break ;
            },
        };
        proof {
            assert(sct == ss.skip(j)[0]);
            assert(sct == ss[j]);
            assert(it.remaining() =~= ss.skip(j + 1));
        }
        if sct.is_allocated() {
            let start = sct.start_addr();
            let endp = sct.end_addr();
            acc = match acc {
                None => Some((start, endp)),
                Some(b) => Some(
                    (
                        if start < b.0 {
                            start
                        } else {
                            b.0
                        },
                        if endp > b.1 {
                            endp
                        } else {
                            b.1
                        },
                    ),
                ),
            };
        }
        proof {
            j = j + 1;
        }
    }
    acc
}

/// The aggregate that owns the active table, the frame allocator, and the
/// stack allocator after boot.
pub struct MemoryController {
    pub _at: ActivePTable,
    pub _fr_a: AreaAllocator,
    pub _st_a: StackAllocator,
}

impl MemoryController {
    /// The controller's invariant: a well-formed hierarchy and a stack
    /// reservation that is canonical and unmapped.
    pub open spec fn wf(&self) -> bool {
        &&& mapper_wf(self._at.map)
        &&& self._fr_a.inv()
        &&& crate::stack::range_free(self._st_a.r, self._at.map)
        &&& self._st_a.r.e.i < 0xF_FFFF_FFFF_FFFF
    }

    /// Lease a kernel stack of `size` pages from the stack allocator,
    /// drawing frames from the controller's own frame allocator.
    pub fn allocate(&mut self, size: u64) -> (r: Option<Stack>)
        requires
            old(self).wf(),
            old(self)._fr_a.avail_set().finite(),
            old(self)._fr_a.avail_set().len() >= 4 * size,
        ensures
            final(self).wf(),
            final(self)._fr_a.avail_set().finite(),
            match r {
                Some(st) => {
                    let g = old(self)._st_a.r.s.i;
                    &&& size >= 1
                    &&& g + size <= old(self)._st_a.r.e.i
                    &&& st.b == (g + 1) * PAGE_SIZE
                    &&& st.t == (g + 1 + size) * PAGE_SIZE
                    &&& m_tr(final(self)._at.map, g) is None
                    &&& (forall|j: u64|
                        g + 1 <= j <= g + size ==> #[trigger] m_mapped(final(self)._at.map, j))
                },
                None => size == 0 || old(self)._st_a.r.s.i + size > old(self)._st_a.r.e.i,
            },
    {
        let MemoryController { _at, _fr_a, _st_a } = self;
        _st_a.allocate(_at, _fr_a, size)
    }
}

} // verus!
