//! Model of a workspace as reported by the build tool's metadata command:
//! packages owning targets, plus package-level dependency declarations.
//! Invoking and parsing the build tool is the caller's business; the library
//! consumes the already-typed package/target list.

use vstd::prelude::*;

use crate::base::Edition;

verus! {

/// Kind of one buildable target of a package.
#[derive(Clone, Copy, PartialEq, Eq, Structural, Debug)]
pub enum TargetKind {
    Bin,
    /// Any kind of library: the package's externally visible unit.
    Lib,
    Example,
    Test,
    Bench,
    Other,
}

/// One buildable target of a package.
pub struct TargetData {
    pub name: String,
    /// Path to the target's root module.
    pub root: String,
    pub kind: TargetKind,
    pub is_proc_macro: bool,
}

/// A dependency of one package on another, under a visibility name.
pub struct PackageDependency {
    /// Index of the provided package in the workspace's package list.
    pub pkg: usize,
    pub name: String,
}

/// One package of the workspace.
pub struct PackageData {
    pub name: String,
    /// Path to the package's root folder.
    pub root: String,
    pub edition: Edition,
    pub features: Vec<String>,
    /// Whether the package is a member of the workspace being edited.
    pub is_member: bool,
    pub targets: Vec<TargetData>,
    pub dependencies: Vec<PackageDependency>,
    pub out_dir: Option<String>,
    pub proc_macro_dylib_path: Option<String>,
}

/// A workspace read from build-tool metadata.
pub struct CargoWorkspace {
    pub packages: Vec<PackageData>,
    pub workspace_root: String,
}

impl CargoWorkspace {
    /// Dependency declarations point at existing packages under valid
    /// visibility names (no dashes); metadata that breaks this is refused by
    /// the loading side.
    pub open spec fn wf(&self) -> bool {
        forall|i: int, j: int|
            0 <= i < self.packages@.len() && 0 <= j < self.packages@[i].dependencies@.len() ==> {
                let d = #[trigger] self.packages@[i].dependencies@[j];
                d.pkg < self.packages@.len() && !d.name@.contains('-')
            }
    }

    pub fn n_packages(&self) -> (r: usize)
        ensures
            r == self.packages@.len(),
    {
        self.packages.len()
    }

    /// The root folder of the workspace, used to test whether an arbitrary
    /// path belongs to it.
    pub fn workspace_root(&self) -> (r: &String)
        ensures
            r@ == self.workspace_root@,
    {
        &self.workspace_root
    }
}

} // verus!
