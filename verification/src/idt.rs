//! The interrupt subsystem's configuration: the task-state segment with its
//! interrupt-stack table, the exception handler table, and the boot-time
//! sequence that puts both together with the descriptor table.  Loading the
//! built structures into the CPU stays outside the library.

use vstd::prelude::*;

use crate::control::MemoryController;
use crate::gdt::{Descriptor, SegmentSelector, GDT};
use crate::stack::Stack;

verus! {

/// The interrupt-stack-table slot reserved for the double-fault handler.
pub const DOUBLE_FAULT_IST_IDX: usize = 0;

/// The task-state segment: seven interrupt stacks, three privilege stacks,
/// and the I/O-map base.
pub struct TaskStateSegment {
    pub ist: Vec<u64>,
    pub pst: Vec<u64>,
    pub iomap_base: u16,
}

impl TaskStateSegment {
    /// A fresh segment with every stack pointer zero.
    pub fn new() -> (r: TaskStateSegment)
        ensures
            r.ist@.len() == 7,
            r.pst@.len() == 3,
            forall|i: int| 0 <= i < 7 ==> r.ist@[i] == 0,
            forall|i: int| 0 <= i < 3 ==> r.pst@[i] == 0,
    {
        let mut ist: Vec<u64> = Vec::new();
        let mut k: usize = 0;
        while k < 7
            invariant
                k <= 7,
                ist@.len() == k,
                forall|i: int| 0 <= i < k ==> ist@[i] == 0,
            decreases 7 - k,
        {
            ist.push(0);
            k = k + 1;
        }
        let mut pst: Vec<u64> = Vec::new();
        let mut k2: usize = 0;
        while k2 < 3
            invariant
                k2 <= 3,
                pst@.len() == k2,
                forall|i: int| 0 <= i < k2 ==> pst@[i] == 0,
            decreases 3 - k2,
        {
            pst.push(0);
            k2 = k2 + 1;
        }
        TaskStateSegment { ist, pst, iomap_base: 0 }
    }

    /// Set one interrupt-stack-table slot.
    pub fn set_ist(&mut self, i: usize, top: u64)
        requires
            i < old(self).ist@.len(),
        ensures
            final(self).ist@ == old(self).ist@.update(i as int, top),
            final(self).pst@ == old(self).pst@,
            final(self).iomap_base == old(self).iomap_base,
    {
        let e = &mut self.ist[i];
        *e = top;
    }
}

/// One entry of the exception table: a handler's address, whether the
/// entry is installed, and the interrupt-stack slot it runs on, if any.
#[derive(Clone, Copy, PartialEq, Eq, Structural, Debug)]
pub struct IdtEntry {
    pub handler: u64,
    pub present: bool,
    pub ist_index: Option<u8>,
}

impl IdtEntry {
    /// An absent entry.
    pub fn missing() -> (r: IdtEntry)
        ensures
            r == (IdtEntry { handler: 0, present: false, ist_index: None }),
    {
        IdtEntry { handler: 0, present: false, ist_index: None }
    }
}

/// The exception table: the handled vectors of this kernel.
pub struct Idt {
    pub divide_by_zero: IdtEntry,
    pub breakpoint: IdtEntry,
    pub invalid_opcode: IdtEntry,
    pub page_fault: IdtEntry,
    pub double_fault: IdtEntry,
}

impl Idt {
    /// A fresh table with no handler installed.
    pub fn new() -> (r: Idt)
        ensures
            !r.divide_by_zero.present,
            !r.breakpoint.present,
            !r.invalid_opcode.present,
            !r.page_fault.present,
            !r.double_fault.present,
    {
        Idt {
            divide_by_zero: IdtEntry::missing(),
            breakpoint: IdtEntry::missing(),
            invalid_opcode: IdtEntry::missing(),
            page_fault: IdtEntry::missing(),
            double_fault: IdtEntry::missing(),
        }
    }
}

/// The handler addresses the kernel installs, as the hardware glue
/// provides them.
#[derive(Clone, Copy, PartialEq, Eq, Structural, Debug)]
pub struct Handlers {
    pub divide_by_zero: u64,
    pub breakpoint: u64,
    pub invalid_opcode: u64,
    pub page_fault: u64,
    pub double_fault: u64,
}

/// Everything the boot sequence builds for the interrupt subsystem: the
/// loader of these structures reads them from here.
pub struct InterruptSetup {
    pub tss: TaskStateSegment,
    pub gdt: GDT,
    pub code_selector: SegmentSelector,
    pub tss_selector: SegmentSelector,
    pub idt: Idt,
    pub double_fault_stack: Stack,
}

/// The boot sequence of the interrupt subsystem: allocate the dedicated
/// double-fault stack, point the first interrupt-stack slot at its top,
/// build the descriptor table with the kernel code segment and the TSS
/// descriptor, and install the five exception handlers, the double fault
/// on the dedicated stack.  Nothing is handed back when the stack cannot
/// be allocated.
pub fn init(mc: &mut MemoryController, tss_base: u64, h: &Handlers) -> (r: Option<
    InterruptSetup,
>)
    requires
        old(mc).wf(),
        old(mc)._fr_a.avail_set().finite(),
        old(mc)._fr_a.avail_set().len() >= 4,
    ensures
        final(mc).wf(),
        r is Some <==> old(mc)._st_a.r.s.i + 1 <= old(mc)._st_a.r.e.i,
        match r {
            Some(s) => {
                &&& s.tss.ist@.len() == 7
                &&& s.tss.ist@[DOUBLE_FAULT_IST_IDX as int] == s.double_fault_stack.t
                // the page below the double-fault stack stays unmapped: the
                // stack's own guard
                &&& crate::paging::mapper::m_tr(
                    final(mc)._at.map,
                    old(mc)._st_a.r.s.i,
                ) is None
                &&& s.double_fault_stack.b == (old(mc)._st_a.r.s.i + 1)
                    * crate::globals::PAGE_SIZE
                &&& s.double_fault_stack.t == (old(mc)._st_a.r.s.i + 2)
                    * crate::globals::PAGE_SIZE
                &&& s.code_selector.bits == 8
                &&& s.tss_selector.bits == 16
                &&& s.gdt.table()[1] == 0x0020_9800_0000_0000
                &&& s.idt.breakpoint.present && s.idt.breakpoint.handler == h.breakpoint
                    && s.idt.breakpoint.ist_index is None
                &&& s.idt.divide_by_zero.present && s.idt.divide_by_zero.handler
                    == h.divide_by_zero
                &&& s.idt.invalid_opcode.present && s.idt.invalid_opcode.handler
                    == h.invalid_opcode
                &&& s.idt.page_fault.present && s.idt.page_fault.handler == h.page_fault
                &&& s.idt.double_fault.present && s.idt.double_fault.handler == h.double_fault
                    && s.idt.double_fault.ist_index == Some(DOUBLE_FAULT_IST_IDX as u8)
            },
            None => true,
        },
{
    let double_fault_stack = match mc.allocate(1) {
        Some(s) => s,
        None => {
            return None;
        },
    };
    let mut tss = TaskStateSegment::new();
    tss.set_ist(DOUBLE_FAULT_IST_IDX, double_fault_stack.top());
    let mut gdt = GDT::new();
    let code_selector = gdt.add_entry(&Descriptor::kernel_code_segment());
    let tss_selector = gdt.add_entry(&Descriptor::tss_segment(tss_base));
    let mut idt = Idt::new();
    idt.divide_by_zero = IdtEntry { handler: h.divide_by_zero, present: true, ist_index: None };
    idt.breakpoint = IdtEntry { handler: h.breakpoint, present: true, ist_index: None };
    idt.invalid_opcode = IdtEntry { handler: h.invalid_opcode, present: true, ist_index: None };
    idt.page_fault = IdtEntry { handler: h.page_fault, present: true, ist_index: None };
    idt.double_fault = IdtEntry {
        handler: h.double_fault,
        present: true,
        ist_index: Some(DOUBLE_FAULT_IST_IDX as u8),
    };
    Some(InterruptSetup { tss, gdt, code_selector, tss_selector, idt, double_fault_stack })
}

} // verus!
