//! Core of a minimal x86_64 long-mode kernel, modelled as a verified library.
//!
//! The memory subsystem (boot-information reader, physical frame allocator,
//! four-level page tables with a recursive self-slot, first-fit hole-list heap,
//! stack allocator) and the interrupt subsystem (GDT, TSS descriptor, IDT
//! configuration) are written over plain values: page tables are an owned tree
//! of tables, the heap's hole list is an address-sorted vector of free blocks,
//! and the boot record is a byte buffer.  The hardware edge (privileged
//! instructions, the live framebuffer, CR3) stays outside the library.

pub mod boot;
pub mod control;
pub mod frame;
pub mod gdt;
pub mod idt;
pub mod globals;
pub mod heap;
pub mod hole;
pub mod paging;
pub mod stack;
pub mod vga;
