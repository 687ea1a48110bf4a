//! Model of the standard-library root set: named roots plus their declared
//! inter-dependencies. Discovering the set on disk is the caller's business;
//! the library consumes the already-typed list.

use vstd::prelude::*;

use crate::strutil::str_eq;

verus! {

/// One standard-library root.
pub struct SysrootCrateData {
    pub name: String,
    /// Path to the root module file.
    pub root: String,
    /// Path to the root's folder.
    pub root_dir: String,
    /// Indices of the roots this one depends on.
    pub deps: Vec<usize>,
}

/// The externally supplied standard-library root set.
pub struct Sysroot {
    pub crates: Vec<SysrootCrateData>,
}

/// Index of the first root named `name`, if any.
pub open spec fn spec_find_by_name(crates: Seq<SysrootCrateData>, name: Seq<char>) -> Option<int>
    decreases crates.len(),
{
    if crates.len() == 0 {
        None
    } else if crates.first().name@ == name {
        Some(0)
    } else {
        match spec_find_by_name(crates.drop_first(), name) {
            Some(i) => Some(i + 1),
            None => None,
        }
    }
}

proof fn lemma_find_by_name_take(crates: Seq<SysrootCrateData>, name: Seq<char>, i: int)
    requires
        0 <= i <= crates.len(),
        forall|j: int| 0 <= j < i ==> crates[j].name@ != name,
    ensures
        spec_find_by_name(crates, name) == if i < crates.len() && crates[i].name@ == name {
            Some(i)
        } else if i < crates.len() {
            spec_find_by_name(crates, name)
        } else {
            None::<int>
        },
        i == crates.len() ==> spec_find_by_name(crates, name) is None,
        i < crates.len() && crates[i].name@ == name ==> spec_find_by_name(crates, name) == Some(i),
    decreases i,
{
    if i > 0 {
        assert(crates.len() > 0);
        assert(crates.first().name@ != name);
        assert forall|j: int| 0 <= j < i - 1 implies crates.drop_first()[j].name@ != name by {
            assert(crates.drop_first()[j] == crates[j + 1]);
        }
        lemma_find_by_name_take(crates.drop_first(), name, i - 1);
        if i < crates.len() && crates[i].name@ == name {
            assert(crates.drop_first()[i - 1] == crates[i]);
        }
    }
}

impl Sysroot {
    /// Declared dependencies point at existing roots, and root names are
    /// valid visibility names (no dashes); a set that breaks this is refused
    /// by the loading side.
    pub open spec fn wf(&self) -> bool {
        (forall|i: int, j: int|
            0 <= i < self.crates@.len() && 0 <= j < self.crates@[i].deps@.len() ==> (
            #[trigger] self.crates@[i].deps@[j]) < self.crates@.len()) && (forall|i: int|
            0 <= i < self.crates@.len() ==> !(#[trigger] self.crates@[i]).name@.contains('-'))
    }

    /// An empty root set, for loads that skip standard-library discovery.
    pub fn empty() -> (r: Sysroot)
        ensures
            r.crates@.len() == 0,
            r.wf(),
    {
        Sysroot { crates: Vec::new() }
    }

    pub fn n_crates(&self) -> (r: usize)
        ensures
            r == self.crates@.len(),
    {
        self.crates.len()
    }

    /// Index of the first root named `name`, if any.
    pub fn by_name(&self, name: &str) -> (r: Option<usize>)
        ensures
            match r {
                Some(i) => spec_find_by_name(self.crates@, name@) == Some(i as int) && i
                    < self.crates@.len() && self.crates@[i as int].name@ == name@,
                None => spec_find_by_name(self.crates@, name@) is None,
            },
    {
        let n = self.crates.len();
        let mut i: usize = 0;
        while i < n
            invariant
                0 <= i <= n,
                n == self.crates@.len(),
                forall|j: int| 0 <= j < i ==> (#[trigger] self.crates@[j]).name@ != name@,
            decreases n - i,
        {
            if str_eq(self.crates[i].name.as_str(), name) {
                proof {
                    lemma_find_by_name_take(self.crates@, name@, i as int);
                }
                return Some(i);
            }
            i += 1;
        }
        proof {
            lemma_find_by_name_take(self.crates@, name@, n as int);
        }
        None
    }

    pub fn core_root(&self) -> (r: Option<usize>)
        ensures
            match r {
                Some(i) => spec_find_by_name(self.crates@, "core"@) == Some(i as int) && i
                    < self.crates@.len() && self.crates@[i as int].name@ == "core"@,
                None => spec_find_by_name(self.crates@, "core"@) is None,
            },
    {
        self.by_name("core")
    }

    pub fn alloc_root(&self) -> (r: Option<usize>)
        ensures
            match r {
                Some(i) => spec_find_by_name(self.crates@, "alloc"@) == Some(i as int) && i
                    < self.crates@.len() && self.crates@[i as int].name@ == "alloc"@,
                None => spec_find_by_name(self.crates@, "alloc"@) is None,
            },
    {
        self.by_name("alloc")
    }

    pub fn std_root(&self) -> (r: Option<usize>)
        ensures
            match r {
                Some(i) => spec_find_by_name(self.crates@, "std"@) == Some(i as int) && i
                    < self.crates@.len() && self.crates@[i as int].name@ == "std"@,
                None => spec_find_by_name(self.crates@, "std"@) is None,
            },
    {
        self.by_name("std")
    }

    pub fn proc_macro(&self) -> (r: Option<usize>)
        ensures
            match r {
                Some(i) => spec_find_by_name(self.crates@, "proc_macro"@) == Some(i as int) && i
                    < self.crates@.len() && self.crates@[i as int].name@ == "proc_macro"@,
                None => spec_find_by_name(self.crates@, "proc_macro"@) is None,
            },
    {
        self.by_name("proc_macro")
    }
}

} // verus!
