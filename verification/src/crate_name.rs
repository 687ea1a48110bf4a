//! Visibility names of compilation units. Build-tool manifests permit dashes
//! in package names; unit names and dependency names must not contain them.

use vstd::prelude::*;

use crate::strutil::{push_char, str_contains_char};

verus! {

/// A dash-free name under which one unit is visible to another.
pub struct CrateName {
    pub name: String,
}

/// `s` with every dash replaced by an underscore.
pub open spec fn spec_normalize_dashes(s: Seq<char>) -> Seq<char> {
    Seq::new(
        s.len(),
        |i: int|
            if s[i] == '-' {
                '_'
            } else {
                s[i]
            },
    )
}

impl CrateName {
    /// The name is valid exactly when it contains no dash.
    pub open spec fn wf(&self) -> bool {
        !self.name@.contains('-')
    }

    /// Accepts `name` as it stands; a name containing a dash is refused.
    pub fn new(name: &str) -> (r: Result<CrateName, ()>)
        ensures
            r is Ok <==> !name@.contains('-'),
            r matches Ok(c) ==> c.name@ == name@ && c.wf(),
    {
        if str_contains_char(name, '-') {
            Err(())
        } else {
            Ok(CrateName { name: name.to_owned() })
        }
    }

    /// Converts every dash in `name` to an underscore.
    pub fn normalize_dashes(name: &str) -> (r: CrateName)
        ensures
            r.name@ == spec_normalize_dashes(name@),
            r.wf(),
    {
        let n = name.unicode_len();
        let mut out = String::new();
        let mut i: usize = 0;
        while i < n
            invariant
                0 <= i <= n,
                n == name@.len(),
                out@ == spec_normalize_dashes(name@).take(i as int),
            decreases n - i,
        {
            let c = name.get_char(i);
            if c == '-' {
                push_char(&mut out, '_');
            } else {
                push_char(&mut out, c);
            }
            proof {
                assert(out@ =~= spec_normalize_dashes(name@).take(i + 1));
            }
            i += 1;
        }
        proof {
            assert(spec_normalize_dashes(name@).take(n as int) =~= spec_normalize_dashes(name@));
            assert forall|j: int| 0 <= j < n implies spec_normalize_dashes(name@)[j] != '-' by {
                assert(spec_normalize_dashes(name@)[j] == if name@[j] == '-' {
                    '_'
                } else {
                    name@[j]
                });
            }
            assert(!spec_normalize_dashes(name@).contains('-'));
        }
        CrateName { name: out }
    }

    /// A fresh `CrateName` with the same characters.
    pub fn duplicate(&self) -> (r: CrateName)
        ensures
            r.name@ == self.name@,
    {
        CrateName { name: self.name.clone() }
    }
}

} // verus!
