//! Integer-backed handles for the entities that a compilation database owns.
//!
//! A handle says nothing of what it stands for; it is only handed back to the
//! database that issued it.

use vstd::prelude::*;

verus! {

/// A top-level compilation unit.
#[derive(Clone, Copy, PartialEq, Eq, Structural, Debug, Hash)]
pub struct CrateHandle {
    pub raw: u32,
}

/// A unit of source text, on disk or generated.
#[derive(Clone, Copy, PartialEq, Eq, Structural, Debug, Hash)]
pub struct FileHandle {
    pub raw: u32,
}

/// A namespace scope: the root of a crate, or a module declared below it.
#[derive(Clone, Copy, PartialEq, Eq, Structural, Debug, Hash)]
pub enum ModuleHandle {
    CrateRoot(CrateHandle),
    Submodule(u32),
}

/// Any of the three, for statements that hold of all kinds of handle.
pub enum Handle {
    Crate(CrateHandle),
    Module(ModuleHandle),
    File(FileHandle),
}

/// One more than the largest key of a module.
pub const MODULE_KEYS: u64 = 0x2_0000_0000;

/// A number that stands for the module and for no other: crate roots take the
/// keys below 2^32, submodules those from 2^32 on.
pub open spec fn module_key(m: ModuleHandle) -> u64 {
    match m {
        ModuleHandle::CrateRoot(c) => c.raw as u64,
        ModuleHandle::Submodule(raw) => (0x1_0000_0000 + raw) as u64,
    }
}

impl ModuleHandle {
    /// The key of the module.
    pub fn key(self) -> (k: u64)
        ensures
            k == module_key(self),
            k < MODULE_KEYS,
    {
        match self {
            ModuleHandle::CrateRoot(c) => c.raw as u64,
            ModuleHandle::Submodule(raw) => 0x1_0000_0000u64 + raw as u64,
        }
    }
}

} // verus!
