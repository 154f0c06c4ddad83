//! The boot-information reader: a view over the record the loader hands to
//! the kernel, with typed lookups for its tagged sections.

pub mod bi;
pub mod bytes;
pub mod elf;
pub mod mmap;
pub mod tags;
