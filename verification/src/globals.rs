//! Fixed layout constants of the kernel's address space.

use vstd::prelude::*;

verus! {

/// A physical address, in bytes.
pub type PhysicalAddress = u64;

/// A virtual address, in bytes.
pub type VirtualAddress = u64;

/// Size of a page and of a frame, in bytes.
pub const PAGE_SIZE: u64 = 4096;

/// Number of entries in a page table.
pub const ENTRY_COUNT: u64 = 512;

/// Bottom of the kernel heap's virtual region.
pub const HEAP_START: u64 = 0o0_000_010_000_000_000;

/// Size of the kernel heap's virtual region, in bytes.
pub const HEAP_SIZE: u64 = 100 * 1024;

/// Number of pages reserved for the stack allocator.
pub const STACK_ALLOCATOR_SIZE: u64 = 100;

} // verus!
