//! Model of a manually authored project descriptor: an ordered list of unit
//! declarations plus numeric-id dependency declarations. Reading and
//! deserializing the descriptor file is the caller's business; the library
//! consumes the already-typed value.

use vstd::prelude::*;

use crate::base::Edition;

verus! {

/// One source root listed by the descriptor.
pub struct JsonRoot {
    pub path: String,
    /// Whether the root belongs to the workspace being edited. Descriptor
    /// roots are members unless declared otherwise.
    pub is_member: bool,
}

/// A dependency declaration: the declaring unit sees unit `krate` (an index
/// into the descriptor's crate list) under `name`.
pub struct JsonDep {
    pub krate: usize,
    pub name: String,
}

/// One unit declaration of the descriptor.
pub struct JsonCrate {
    pub root_module: String,
    pub edition: Edition,
    pub deps: Vec<JsonDep>,
    pub atom_cfgs: Vec<String>,
    pub key_value_cfgs: Vec<(String, String)>,
    pub out_dir: Option<String>,
    pub proc_macro_dylib_path: Option<String>,
}

/// A manually authored project descriptor.
pub struct JsonProject {
    pub roots: Vec<JsonRoot>,
    pub crates: Vec<JsonCrate>,
}

impl JsonProject {
    /// Dependency names must be valid visibility names (no dashes); a
    /// descriptor that breaks this is refused by the loading side.
    pub open spec fn wf(&self) -> bool {
        forall|i: int, j: int|
            0 <= i < self.crates@.len() && 0 <= j < self.crates@[i].deps@.len() ==> !(
            #[trigger] self.crates@[i].deps@[j]).name@.contains('-')
    }
}

} // verus!
