//! The four-level page tables: entries, pages, owned tables with a
//! recursive self-slot, and the mapper that walks them.

pub mod entry;
pub mod mapper;
pub mod page;
pub mod table;
