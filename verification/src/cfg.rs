//! Conditional-compilation flag sets attached to each compilation unit.

use vstd::prelude::*;
use vstd::seq_lib::group_seq_properties;

use crate::strutil::{push_char, str_eq};

verus! {

broadcast use group_seq_properties;

/// A set of bare atoms plus a set of key/value flags.
pub struct CfgOptions {
    pub atoms: Vec<String>,
    pub key_values: Vec<(String, String)>,
}

/// `atoms` with `a` appended unless already present.
pub open spec fn spec_atom_insert(atoms: Seq<Seq<char>>, a: Seq<char>) -> Seq<Seq<char>> {
    if atoms.contains(a) {
        atoms
    } else {
        atoms.push(a)
    }
}

/// `kvs` with `(k, v)` appended unless already present.
pub open spec fn spec_kv_insert(
    kvs: Seq<(Seq<char>, Seq<char>)>,
    k: Seq<char>,
    v: Seq<char>,
) -> Seq<(Seq<char>, Seq<char>)> {
    if kvs.contains((k, v)) {
        kvs
    } else {
        kvs.push((k, v))
    }
}

/// `kvs` after inserting `feature = f` for every feature `f`, in order.
pub open spec fn spec_insert_features(
    kvs: Seq<(Seq<char>, Seq<char>)>,
    feats: Seq<Seq<char>>,
) -> Seq<(Seq<char>, Seq<char>)>
    decreases feats.len(),
{
    if feats.len() == 0 {
        kvs
    } else {
        spec_kv_insert(spec_insert_features(kvs, feats.drop_last()), "feature"@, feats.last())
    }
}


/// `atoms` after inserting each element of `new`, in order.
pub open spec fn spec_insert_atoms(atoms: Seq<Seq<char>>, new: Seq<Seq<char>>) -> Seq<Seq<char>>
    decreases new.len(),
{
    if new.len() == 0 {
        atoms
    } else {
        spec_atom_insert(spec_insert_atoms(atoms, new.drop_last()), new.last())
    }
}

/// `kvs` after inserting each pair of `new`, in order.
pub open spec fn spec_insert_kvs(
    kvs: Seq<(Seq<char>, Seq<char>)>,
    new: Seq<(Seq<char>, Seq<char>)>,
) -> Seq<(Seq<char>, Seq<char>)>
    decreases new.len(),
{
    if new.len() == 0 {
        kvs
    } else {
        let prev = spec_insert_kvs(kvs, new.drop_last());
        spec_kv_insert(prev, new.last().0, new.last().1)
    }
}

impl CfgOptions {
    /// The atoms, in insertion order, as character sequences.
    pub open spec fn atoms_view(&self) -> Seq<Seq<char>> {
        self.atoms.deep_view()
    }

    /// The key/value flags, in insertion order, as character sequences.
    pub open spec fn kv_view(&self) -> Seq<(Seq<char>, Seq<char>)> {
        self.key_values.deep_view()
    }

    pub open spec fn has_atom(&self, a: Seq<char>) -> bool {
        self.atoms_view().contains(a)
    }

    pub open spec fn has_key_value(&self, k: Seq<char>, v: Seq<char>) -> bool {
        self.kv_view().contains((k, v))
    }

    pub fn new() -> (r: CfgOptions)
        ensures
            r.atoms_view() == Seq::<Seq<char>>::empty(),
            r.kv_view() == Seq::<(Seq<char>, Seq<char>)>::empty(),
    {
        let r = CfgOptions { atoms: Vec::new(), key_values: Vec::new() };
        proof {
            assert(r.atoms_view() =~= Seq::<Seq<char>>::empty());
            assert(r.kv_view() =~= Seq::<(Seq<char>, Seq<char>)>::empty());
        }
        r
    }

    /// A fresh flag set with the same contents.
    pub fn duplicate(&self) -> (r: CfgOptions)
        ensures
            r.atoms_view() == self.atoms_view(),
            r.kv_view() == self.kv_view(),
    {
        let mut atoms: Vec<String> = Vec::new();
        let mut i: usize = 0;
        while i < self.atoms.len()
            invariant
                0 <= i <= self.atoms.len(),
                atoms.deep_view() == self.atoms.deep_view().take(i as int),
            decreases self.atoms.len() - i,
        {
            atoms.push(self.atoms[i].clone());
            proof {
                assert(atoms.deep_view() =~= self.atoms.deep_view().take(i + 1));
            }
            i += 1;
        }
        let mut key_values: Vec<(String, String)> = Vec::new();
        let mut j: usize = 0;
        while j < self.key_values.len()
            invariant
                0 <= j <= self.key_values.len(),
                key_values.deep_view() == self.key_values.deep_view().take(j as int),
            decreases self.key_values.len() - j,
        {
            key_values.push((self.key_values[j].0.clone(), self.key_values[j].1.clone()));
            proof {
                assert(key_values.deep_view() =~= self.key_values.deep_view().take(j + 1));
            }
            j += 1;
        }
        let r = CfgOptions { atoms, key_values };
        proof {
            assert(self.atoms.deep_view().take(self.atoms.len() as int) =~= self.atoms.deep_view());
            assert(self.key_values.deep_view().take(self.key_values.len() as int)
                =~= self.key_values.deep_view());
        }
        r
    }

    fn contains_atom(&self, a: &str) -> (r: bool)
        ensures
            r == self.has_atom(a@),
    {
        let mut i: usize = 0;
        while i < self.atoms.len()
            invariant
                0 <= i <= self.atoms.len(),
                forall|j: int| 0 <= j < i ==> self.atoms.deep_view()[j] != a@,
            decreases self.atoms.len() - i,
        {
            if str_eq(self.atoms[i].as_str(), a) {
                assert(self.atoms_view()[i as int] == a@);
                return true;
            }
            i += 1;
        }
        false
    }

    fn contains_key_value(&self, k: &str, v: &str) -> (r: bool)
        ensures
            r == self.has_key_value(k@, v@),
    {
        let mut i: usize = 0;
        while i < self.key_values.len()
            invariant
                0 <= i <= self.key_values.len(),
                forall|j: int| 0 <= j < i ==> self.key_values.deep_view()[j] != (k@, v@),
            decreases self.key_values.len() - i,
        {
            if str_eq(self.key_values[i].0.as_str(), k) && str_eq(
                self.key_values[i].1.as_str(),
                v,
            ) {
                assert(self.kv_view()[i as int] == (k@, v@));
                return true;
            }
            i += 1;
        }
        false
    }

    /// Adds the bare atom `a` unless it is already present.
    pub fn insert_atom(&mut self, a: String)
        ensures
            final(self).kv_view() == old(self).kv_view(),
            final(self).atoms_view() == spec_atom_insert(old(self).atoms_view(), a@),
    {
        let ghost av = a@;
        if !self.contains_atom(a.as_str()) {
            let ghost prior = self.atoms.deep_view();
            self.atoms.push(a);
            proof {
                assert(self.atoms.deep_view() =~= prior.push(av));
            }
        }
    }

    /// Adds the key/value flag `k = v` unless it is already present.
    pub fn insert_key_value(&mut self, k: String, v: String)
        ensures
            final(self).atoms_view() == old(self).atoms_view(),
            final(self).kv_view() == spec_kv_insert(old(self).kv_view(), k@, v@),
    {
        let ghost kv = (k@, v@);
        if !self.contains_key_value(k.as_str(), v.as_str()) {
            let ghost prior = self.key_values.deep_view();
            self.key_values.push((k, v));
            proof {
                assert(self.key_values.deep_view() =~= prior.push(kv));
            }
        }
    }

    /// Removes every occurrence of the bare atom `a`.
    pub fn remove_atom(&mut self, a: &str)
        ensures
            final(self).kv_view() == old(self).kv_view(),
            final(self).atoms_view() == old(self).atoms_view().filter(|x: Seq<char>| x != a@),
            !final(self).has_atom(a@),
    {
        let mut kept: Vec<String> = Vec::new();
        let mut i: usize = 0;
        while i < self.atoms.len()
            invariant
                0 <= i <= self.atoms.len(),
                kept.deep_view() == self.atoms.deep_view().take(i as int).filter(
                    |x: Seq<char>| x != a@,
                ),
            decreases self.atoms.len() - i,
        {
            let ghost prior = kept.deep_view();
            let ghost cur = self.atoms.deep_view()[i as int];
            let keep = !str_eq(self.atoms[i].as_str(), a);
            if keep {
                kept.push(self.atoms[i].clone());
            }
            proof {
                let pred = |x: Seq<char>| x != a@;
                let upto = self.atoms.deep_view().take(i + 1);
                assert(upto.drop_last() =~= self.atoms.deep_view().take(i as int));
                assert(upto.last() == cur);
                reveal(Seq::filter);
                if keep {
                    assert(kept.deep_view() =~= prior.push(cur));
                }
                assert(kept.deep_view() =~= upto.filter(pred));
            }
            i += 1;
        }
        proof {
            assert(self.atoms.deep_view().take(self.atoms.len() as int) =~= self.atoms.deep_view());
        }
        self.atoms = kept;
        proof {
            let pred = |x: Seq<char>| x != a@;
            let source = old(self).atoms_view();
            let filtered = source.filter(pred);
            assert forall|j: int| 0 <= j < filtered.len() implies filtered[j] != a@ by {
                source.lemma_filter_pred(pred, j);
            }
        }
    }


    /// Adds every atom of `atoms`, in order.
    pub fn insert_atoms(&mut self, atoms: &Vec<String>)
        ensures
            final(self).kv_view() == old(self).kv_view(),
            final(self).atoms_view() == spec_insert_atoms(old(self).atoms_view(), atoms.deep_view()),
    {
        let ghost new = atoms.deep_view();
        let mut i: usize = 0;
        while i < atoms.len()
            invariant
                0 <= i <= atoms.len(),
                self.kv_view() == old(self).kv_view(),
                self.atoms_view() == spec_insert_atoms(old(self).atoms_view(), new.take(i as int)),
            decreases atoms.len() - i,
        {
            self.insert_atom(atoms[i].clone());
            proof {
                let upto = new.take(i + 1);
                assert(upto.drop_last() =~= new.take(i as int));
                assert(upto.last() == new[i as int]);
            }
            i += 1;
        }
        proof {
            assert(new.take(atoms.len() as int) =~= new);
        }
    }

    /// Adds every key/value pair of `kvs`, in order.
    pub fn insert_key_values(&mut self, kvs: &Vec<(String, String)>)
        ensures
            final(self).atoms_view() == old(self).atoms_view(),
            final(self).kv_view() == spec_insert_kvs(old(self).kv_view(), kvs.deep_view()),
    {
        let ghost new = kvs.deep_view();
        let mut i: usize = 0;
        while i < kvs.len()
            invariant
                0 <= i <= kvs.len(),
                self.atoms_view() == old(self).atoms_view(),
                self.kv_view() == spec_insert_kvs(old(self).kv_view(), new.take(i as int)),
            decreases kvs.len() - i,
        {
            self.insert_key_value(kvs[i].0.clone(), kvs[i].1.clone());
            proof {
                let upto = new.take(i + 1);
                assert(upto.drop_last() =~= new.take(i as int));
                assert(upto.last() == new[i as int]);
            }
            i += 1;
        }
        proof {
            assert(new.take(kvs.len() as int) =~= new);
        }
    }

    /// Adds the flag `feature = f` for every declared feature `f`, in order.
    pub fn insert_features(&mut self, features: &Vec<String>)
        ensures
            final(self).atoms_view() == old(self).atoms_view(),
            final(self).kv_view() == spec_insert_features(old(self).kv_view(), features.deep_view()),
    {
        let ghost feats = features.deep_view();
        let mut i: usize = 0;
        while i < features.len()
            invariant
                0 <= i <= features.len(),
                self.atoms_view() == old(self).atoms_view(),
                self.kv_view() == spec_insert_features(old(self).kv_view(), feats.take(i as int)),
            decreases features.len() - i,
        {
            self.insert_key_value(String::from_str("feature"), features[i].clone());
            proof {
                let upto = feats.take(i + 1);
                assert(upto.drop_last() =~= feats.take(i as int));
                assert(upto.last() == feats[i as int]);
            }
            i += 1;
        }
        proof {
            assert(feats.take(features.len() as int) =~= feats);
        }
    }
}

/// Index of the first occurrence of `c` in `s`, if any.
pub open spec fn spec_find_char(s: Seq<char>, c: char) -> Option<int>
    decreases s.len(),
{
    if s.len() == 0 {
        None
    } else if s.first() == c {
        Some(0)
    } else {
        match spec_find_char(s.drop_first(), c) {
            Some(i) => Some(i + 1),
            None => None,
        }
    }
}

/// `s` without one trailing carriage return, if it carries one.
pub open spec fn spec_strip_cr(s: Seq<char>) -> Seq<char> {
    if s.len() > 0 && s.last() == '\r' {
        s.drop_last()
    } else {
        s
    }
}

/// `s` split at newlines, each line without a trailing carriage return.
pub open spec fn spec_lines(s: Seq<char>) -> Seq<Seq<char>>
    decreases s.len(),
{
    if s.len() == 0 {
        Seq::empty()
    } else {
        match spec_find_char(s, '\n') {
            None => seq![spec_strip_cr(s)],
            Some(i) => if 0 <= i < s.len() {
                seq![spec_strip_cr(s.take(i))] + spec_lines(s.skip(i + 1))
            } else {
                seq![spec_strip_cr(s)]
            },
        }
    }
}

/// `s` with every leading and trailing double quote removed.
pub open spec fn spec_trim_quotes(s: Seq<char>) -> Seq<char>
    decreases s.len(),
{
    if s.len() > 0 && s.first() == '"' {
        spec_trim_quotes(s.drop_first())
    } else if s.len() > 0 && s.last() == '"' {
        spec_trim_quotes(s.drop_last())
    } else {
        s
    }
}

/// The atoms after reading the first `i` flag lines: a line without `=` is
/// a bare atom.
pub open spec fn spec_lines_atoms(atoms0: Seq<Seq<char>>, lines: Seq<Seq<char>>, i: int) -> Seq<
    Seq<char>,
>
    decreases i,
{
    if i <= 0 {
        atoms0
    } else {
        let prev = spec_lines_atoms(atoms0, lines, i - 1);
        match spec_find_char(lines[i - 1], '=') {
            None => spec_atom_insert(prev, lines[i - 1]),
            Some(_) => prev,
        }
    }
}

/// The key/value flags after reading the first `i` flag lines: a line
/// `key=value` binds `key` to `value` with surrounding quotes removed.
pub open spec fn spec_lines_kvs(
    kvs0: Seq<(Seq<char>, Seq<char>)>,
    lines: Seq<Seq<char>>,
    i: int,
) -> Seq<(Seq<char>, Seq<char>)>
    decreases i,
{
    if i <= 0 {
        kvs0
    } else {
        let prev = spec_lines_kvs(kvs0, lines, i - 1);
        let line = lines[i - 1];
        match spec_find_char(line, '=') {
            None => prev,
            Some(pos) => spec_kv_insert(
                prev,
                line.take(pos),
                spec_trim_quotes(line.skip(pos + 1)),
            ),
        }
    }
}

/// Index of the first occurrence of `c` in `s`, if any.
fn find_char(s: &str, c: char) -> (r: Option<usize>)
    ensures
        match r {
            Some(i) => spec_find_char(s@, c) == Some(i as int) && i < s@.len(),
            None => spec_find_char(s@, c) is None,
        },
    decreases s@.len(),
{
    let n = s.unicode_len();
    if n == 0 {
        return None;
    }
    if s.get_char(0) == c {
        return Some(0);
    }
    let rest = s.substring_char(1, n);
    proof {
        assert(rest@ =~= s@.drop_first());
    }
    match find_char(rest, c) {
        Some(i) => Some(i + 1),
        None => None,
    }
}

/// A copy of `s` without one trailing carriage return.
fn strip_cr(s: &str) -> (r: String)
    ensures
        r@ == spec_strip_cr(s@),
{
    let n = s.unicode_len();
    if n > 0 && s.get_char(n - 1) == '\r' {
        let r = s.substring_char(0, n - 1).to_owned();
        proof {
            assert(r@ =~= s@.drop_last());
        }
        r
    } else {
        s.to_owned()
    }
}

/// `s` split at newlines, each line without a trailing carriage return.
#[verifier::spinoff_prover]
#[verifier::rlimit(100)]
fn split_lines(s: &str) -> (r: Vec<String>)
    ensures
        r.deep_view() == spec_lines(s@),
    decreases s@.len(),
{
    let n = s.unicode_len();
    let mut r: Vec<String> = Vec::new();
    if n == 0 {
        proof {
            assert(r.deep_view() =~= spec_lines(s@));
        }
        return r;
    }
    match find_char(s, '\n') {
        None => {
            r.push(strip_cr(s));
            proof {
                assert(r.deep_view() =~= seq![spec_strip_cr(s@)]);
            }
            r
        },
        Some(i) => {
            let head = s.substring_char(0, i);
            proof {
                assert(head@ =~= s@.take(i as int));
            }
            let head = strip_cr(head);
            let tail = s.substring_char(i + 1, n);
            proof {
                assert(tail@ =~= s@.skip(i + 1));
            }
            let mut rest = split_lines(tail);
            r.push(head);
            r.append(&mut rest);
            proof {
                assert(r.deep_view() =~= seq![spec_strip_cr(s@.take(i as int))] + spec_lines(
                    s@.skip(i + 1),
                ));
            }
            r
        },
    }
}

/// A copy of `s` with every leading and trailing double quote removed.
fn trim_quotes(s: &str) -> (r: String)
    ensures
        r@ == spec_trim_quotes(s@),
    decreases s@.len(),
{
    let n = s.unicode_len();
    if n > 0 && s.get_char(0) == '"' {
        let rest = s.substring_char(1, n);
        proof {
            assert(rest@ =~= s@.drop_first());
        }
        trim_quotes(rest)
    } else if n > 0 && s.get_char(n - 1) == '"' {
        let rest = s.substring_char(0, n - 1);
        proof {
            assert(rest@ =~= s@.drop_last());
        }
        trim_quotes(rest)
    } else {
        s.to_owned()
    }
}

/// Baseline conditional-compilation flags.
///
/// Starts from the fixed nightly-only flags the standard library needs, then
/// reads the reference toolchain's printed flag list, one flag per line:
/// `key=quoted-value` or a bare atom. `None` stands for a failed toolchain
/// invocation and degrades to the fixed flags alone.
pub fn get_rustc_cfg_options(rustc_output: Option<&String>) -> (r: CfgOptions)
    ensures
        ({
            let atoms0 = spec_atom_insert(Seq::empty(), "target_thread_local"@);
            let kvs0 = spec_base_has_atomic_kvs();
            match rustc_output {
                None => r.atoms_view() == atoms0 && r.kv_view() == kvs0,
                Some(out) => {
                    let lines = spec_lines(out@);
                    r.atoms_view() == spec_lines_atoms(atoms0, lines, lines.len() as int)
                        && r.kv_view() == spec_lines_kvs(kvs0, lines, lines.len() as int)
                },
            }
        }),
{
    let mut opts = CfgOptions::new();
    opts.insert_atom(String::from_str("target_thread_local"));
    insert_has_atomic(&mut opts, "8");
    insert_has_atomic(&mut opts, "16");
    insert_has_atomic(&mut opts, "32");
    insert_has_atomic(&mut opts, "64");
    insert_has_atomic(&mut opts, "cas");
    insert_has_atomic(&mut opts, "ptr");
    proof {
        assert(opts.kv_view() == spec_base_has_atomic_kvs());
    }
    if let Some(out) = rustc_output {
        let ghost atoms0 = opts.atoms_view();
        let ghost kvs0 = opts.kv_view();
        let lines = split_lines(out.as_str());
        let ghost linesv = lines.deep_view();
        let mut i: usize = 0;
        while i < lines.len()
            invariant
                0 <= i <= lines@.len(),
                linesv == lines.deep_view(),
                linesv.len() == lines@.len(),
                opts.atoms_view() == spec_lines_atoms(atoms0, linesv, i as int),
                opts.kv_view() == spec_lines_kvs(kvs0, linesv, i as int),
            decreases lines@.len() - i,
        {
            let line = &lines[i];
            proof {
                assert(linesv[i as int] == line@);
            }
            match find_char(line.as_str(), '=') {
                None => {
                    opts.insert_atom(line.clone());
                },
                Some(pos) => {
                    let ln = line.as_str().unicode_len();
                    assert(pos < ln);
                    let key = line.as_str().substring_char(0, pos).to_owned();
                    let val_raw = line.as_str().substring_char(pos + 1, ln);
                    proof {
                        assert(key@ =~= line@.take(pos as int));
                        assert(val_raw@ =~= line@.skip(pos + 1));
                    }
                    let value = trim_quotes(val_raw);
                    opts.insert_key_value(key, value);
                },
            }
            i += 1;
        }
    }
    opts
}

/// The fixed `target_has_atomic` and `target_has_atomic_load_store` flags
/// the standard library expects, built up in insertion order.
pub open spec fn spec_base_has_atomic_kvs() -> Seq<(Seq<char>, Seq<char>)> {
    spec_has_atomic_step(
        spec_has_atomic_step(
            spec_has_atomic_step(
                spec_has_atomic_step(
                    spec_has_atomic_step(
                        spec_has_atomic_step(Seq::empty(), "8"@),
                        "16"@,
                    ),
                    "32"@,
                ),
                "64"@,
            ),
            "cas"@,
        ),
        "ptr"@,
    )
}

/// One width's pair of atomic-support flags.
pub open spec fn spec_has_atomic_step(
    kvs: Seq<(Seq<char>, Seq<char>)>,
    w: Seq<char>,
) -> Seq<(Seq<char>, Seq<char>)> {
    spec_kv_insert(
        spec_kv_insert(kvs, "target_has_atomic"@, w),
        "target_has_atomic_load_store"@,
        w,
    )
}

/// Adds the pair of atomic-support flags for one width.
fn insert_has_atomic(opts: &mut CfgOptions, w: &str)
    ensures
        final(opts).atoms_view() == old(opts).atoms_view(),
        final(opts).kv_view() == spec_has_atomic_step(old(opts).kv_view(), w@),
{
    opts.insert_key_value(String::from_str("target_has_atomic"), w.to_owned());
    opts.insert_key_value(String::from_str("target_has_atomic_load_store"), w.to_owned());
}

} // verus!
