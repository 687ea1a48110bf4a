//! Small value types shared across the project model: file handles,
//! crate identities, editions, and macro-plugin expansion handles.

use vstd::prelude::*;

verus! {

/// Stable numeric handle for a root file, as assigned by the caller's
/// file-interning loader callback. The library never inspects it.
#[derive(Clone, Copy, PartialEq, Eq, Structural, Debug)]
pub struct FileId(pub u32);

/// Identity of a source root holding generated files.
#[derive(Clone, Copy, PartialEq, Eq, Structural, Debug)]
pub struct ExternSourceId(pub u32);

/// Identity of a compilation unit in a [`crate::crate_graph::CrateGraph`]:
/// its insertion index. Identities are never reused.
#[derive(Clone, Copy, PartialEq, Eq, Structural, Debug)]
pub struct CrateId(pub usize);

/// Language edition of a compilation unit.
#[derive(Clone, Copy, PartialEq, Eq, Structural, Debug)]
pub enum Edition {
    Edition2015,
    Edition2018,
}

/// Handle to one expansion entry point of a compiled macro-plugin binary,
/// as resolved by the caller's macro resolver.
#[derive(Clone, Copy, PartialEq, Eq, Structural, Debug)]
pub struct ProcMacroHandle(pub u64);

} // verus!
