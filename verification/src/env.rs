//! Environment-variable overlays and generated-file source mappings
//! attached to each compilation unit.

use vstd::prelude::*;

use crate::base::ExternSourceId;
use crate::strutil::str_eq;

verus! {

/// `entries` with the first binding of `k` replaced by `(k, v)`, or with
/// `(k, v)` appended when `k` is unbound.
pub open spec fn spec_assoc_set(
    entries: Seq<(Seq<char>, Seq<char>)>,
    k: Seq<char>,
    v: Seq<char>,
) -> Seq<(Seq<char>, Seq<char>)>
    decreases entries.len(),
{
    if entries.len() == 0 {
        seq![(k, v)]
    } else if entries.first().0 == k {
        seq![(k, v)] + entries.drop_first()
    } else {
        seq![entries.first()] + spec_assoc_set(entries.drop_first(), k, v)
    }
}

/// Environment-variable overlay of one compilation unit.
pub struct Env {
    pub entries: Vec<(String, String)>,
}

impl Env {
    pub open spec fn entries_view(&self) -> Seq<(Seq<char>, Seq<char>)> {
        self.entries.deep_view()
    }

    pub fn new() -> (r: Env)
        ensures
            r.entries_view() == Seq::<(Seq<char>, Seq<char>)>::empty(),
    {
        let r = Env { entries: Vec::new() };
        proof {
            assert(r.entries_view() =~= Seq::<(Seq<char>, Seq<char>)>::empty());
        }
        r
    }

    /// Binds `k` to `v`, replacing any earlier binding of `k`.
    pub fn set(&mut self, k: &str, v: String)
        ensures
            final(self).entries_view() == spec_assoc_set(old(self).entries_view(), k@, v@),
    {
        let ghost vv = v@;
        let mut i: usize = 0;
        while i < self.entries.len()
            invariant
                0 <= i <= self.entries.len(),
                self == old(self),
                forall|j: int| 0 <= j < i ==> self.entries.deep_view()[j].0 != k@,
            decreases self.entries.len() - i,
        {
            if str_eq(self.entries[i].0.as_str(), k) {
                assert(self.entries.deep_view()[i as int].0 == k@);
                self.entries[i].1 = v;
                proof {
                    lemma_assoc_set_at(old(self).entries_view(), k@, vv, i as int);
                    assert(self.entries.deep_view() =~= spec_assoc_set(
                        old(self).entries_view(),
                        k@,
                        vv,
                    ));
                }
                return ;
            }
            i += 1;
        }
        self.entries.push((k.to_owned(), v));
        proof {
            lemma_assoc_set_absent(old(self).entries_view(), k@, vv);
            assert(self.entries.deep_view() =~= old(self).entries_view().push((k@, vv)));
        }
    }
}

/// When no entry binds `k`, setting `k` appends a binding at the end.
proof fn lemma_assoc_set_absent(entries: Seq<(Seq<char>, Seq<char>)>, k: Seq<char>, v: Seq<char>)
    requires
        forall|j: int| 0 <= j < entries.len() ==> entries[j].0 != k,
    ensures
        spec_assoc_set(entries, k, v) == entries.push((k, v)),
    decreases entries.len(),
{
    if entries.len() == 0 {
        assert(spec_assoc_set(entries, k, v) =~= entries.push((k, v)));
    } else {
        lemma_assoc_set_absent(entries.drop_first(), k, v);
        assert(spec_assoc_set(entries, k, v) =~= entries.push((k, v)));
    }
}

/// When the first binding of `k` stands at index `i`, setting `k` replaces
/// exactly that entry.
proof fn lemma_assoc_set_at(
    entries: Seq<(Seq<char>, Seq<char>)>,
    k: Seq<char>,
    v: Seq<char>,
    i: int,
)
    requires
        0 <= i < entries.len(),
        entries[i].0 == k,
        forall|j: int| 0 <= j < i ==> entries[j].0 != k,
    ensures
        spec_assoc_set(entries, k, v) == entries.update(i, (k, v)),
    decreases i,
{
    if i == 0 {
        assert(spec_assoc_set(entries, k, v) =~= entries.update(0, (k, v)));
    } else {
        assert(entries.drop_first()[i - 1].0 == k);
        assert(forall|j: int| 0 <= j < i - 1 ==> entries.drop_first()[j].0 != k);
        lemma_assoc_set_at(entries.drop_first(), k, v, i - 1);
        assert(spec_assoc_set(entries, k, v) =~= entries.update(i, (k, v)));
    }
}

/// Mapping from generated-source directories to their source-root identity.
pub struct ExternSource {
    pub extern_paths: Vec<(String, ExternSourceId)>,
}

impl ExternSource {
    pub open spec fn paths_view(&self) -> Seq<(Seq<char>, ExternSourceId)> {
        Seq::new(self.extern_paths@.len(), |i: int| (self.extern_paths@[i].0@, self.extern_paths@[i].1))
    }

    pub fn new() -> (r: ExternSource)
        ensures
            r.paths_view() == Seq::<(Seq<char>, ExternSourceId)>::empty(),
    {
        let r = ExternSource { extern_paths: Vec::new() };
        proof {
            assert(r.paths_view() =~= Seq::<(Seq<char>, ExternSourceId)>::empty());
        }
        r
    }

    /// Records that files under `path` belong to the source root `id`.
    pub fn set_extern_path(&mut self, path: &str, id: ExternSourceId)
        ensures
            final(self).paths_view() == old(self).paths_view().push((path@, id)),
    {
        self.extern_paths.push((path.to_owned(), id));
        proof {
            assert(self.paths_view() =~= old(self).paths_view().push((path@, id)));
        }
    }
}

} // verus!
