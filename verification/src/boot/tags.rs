//! The module and loader-name sections of the boot record.

use vstd::prelude::*;

verus! {

/// A module the loader placed in memory: its physical range and its name
/// bytes.
pub struct ModuleTag {
    pub typ: u32,
    pub size: u32,
    pub start: u32,
    pub end: u32,
    pub name_bytes: Vec<u8>,
}

impl ModuleTag {
    /// The module's name bytes.
    pub fn name(&self) -> (r: &Vec<u8>)
        ensures
            r@ == self.name_bytes@,
    {
        &self.name_bytes
    }

    /// The module's first physical address.
    pub fn start_addr(&self) -> (r: u32)
        ensures
            r == self.start,
    {
        self.start
    }

    /// One past the module's last physical address.
    pub fn end_addr(&self) -> (r: u32)
        ensures
            r == self.end,
    {
        self.end
    }
}

/// The loader's name section.
pub struct BootNameTag {
    pub typ: u32,
    pub size: u32,
    pub name_bytes: Vec<u8>,
}

impl BootNameTag {
    /// The loader's name bytes.
    pub fn name(&self) -> (r: &Vec<u8>)
        ensures
            r@ == self.name_bytes@,
    {
        &self.name_bytes
    }
}

} // verus!
