//! A small model of filesystem paths as plain strings.
//!
//! Paths are slash-separated and expected without a trailing separator. The
//! empty string stands for the current directory, as the anchor of relative
//! paths, and `/` for the filesystem root.

use vstd::prelude::*;

use crate::strutil::{spec_is_prefix, spec_is_suffix, str_ends_with, str_eq, str_starts_with};

verus! {

/// Index of the last slash at or before position `i`, if any.
pub open spec fn spec_last_slash_upto(s: Seq<char>, i: int) -> Option<int>
    decreases i + 1,
{
    if i < 0 || i >= s.len() {
        None
    } else if s[i] == '/' {
        Some(i)
    } else {
        spec_last_slash_upto(s, i - 1)
    }
}

/// Index of the last slash of `s`, if any.
pub open spec fn spec_last_slash(s: Seq<char>) -> Option<int> {
    spec_last_slash_upto(s, s.len() - 1)
}

/// The parent of a path: everything before its last component.
///
/// The root `/` and the empty path have no parent; a single relative
/// component has the empty path as its parent; `/name` has parent `/`.
pub open spec fn spec_parent(s: Seq<char>) -> Option<Seq<char>> {
    if s.len() == 0 {
        None
    } else {
        match spec_last_slash(s) {
            None => Some(Seq::empty()),
            Some(k) => if s.len() == 1 {
                None
            } else if k == 0 {
                Some(seq!['/'])
            } else {
                Some(s.subrange(0, k))
            },
        }
    }
}

/// `base` extended by the component `name`.
pub open spec fn spec_join(base: Seq<char>, name: Seq<char>) -> Seq<char> {
    if base.len() == 0 {
        name
    } else if base[base.len() - 1] == '/' {
        base + name
    } else {
        base + seq!['/'] + name
    }
}

/// The path's final component is exactly `name`.
pub open spec fn spec_ends_with_component(s: Seq<char>, name: Seq<char>) -> bool {
    s == name || (s.len() > name.len() && spec_is_suffix(s, name) && s[s.len() - name.len() - 1]
        == '/')
}

/// `pre` names a directory at or above `s` (component-wise prefix).
pub open spec fn spec_path_starts_with(s: Seq<char>, pre: Seq<char>) -> bool {
    spec_is_prefix(s, pre) && (s.len() == pre.len() || pre.len() == 0 || s[pre.len() as int] == '/'
        || pre[pre.len() - 1] == '/')
}

/// Index of the last slash of `path`, if any.
pub fn last_slash_index(path: &str) -> (r: Option<usize>)
    ensures
        match r {
            Some(k) => spec_last_slash(path@) == Some(k as int) && k < path@.len() && path@[k as int]
                == '/',
            None => spec_last_slash(path@) is None,
        },
{
    let n = path.unicode_len();
    let mut i: usize = n;
    while i > 0
        invariant
            0 <= i <= n,
            n == path@.len(),
            spec_last_slash(path@) == spec_last_slash_upto(path@, i - 1),
        decreases i,
    {
        i -= 1;
        if path.get_char(i) == '/' {
            return Some(i);
        }
    }
    None
}

/// The parent of `path`, by the model of [`spec_parent`].
pub fn parent_path(path: &str) -> (r: Option<String>)
    ensures
        match r {
            Some(p) => spec_parent(path@) == Some(p@),
            None => spec_parent(path@) is None,
        },
{
    let n = path.unicode_len();
    if n == 0 {
        return None;
    }
    match last_slash_index(path) {
        None => Some(String::new()),
        Some(k) => {
            if n == 1 {
                None
            } else if k == 0 {
                let r = "/".to_owned();
                proof {
                    reveal_strlit("/");
                    assert(r@ =~= seq!['/']);
                }
                Some(r)
            } else {
                Some(path.substring_char(0, k).to_owned())
            }
        },
    }
}

/// `base` extended by the component `name`, by the model of [`spec_join`].
pub fn join_path(base: &str, name: &str) -> (r: String)
    ensures
        r@ == spec_join(base@, name@),
{
    let n = base.unicode_len();
    if n == 0 {
        return name.to_owned();
    }
    if base.get_char(n - 1) == '/' {
        let r = base.to_owned().concat(name);
        proof {
            assert(r@ =~= base@ + name@);
        }
        r
    } else {
        let r = base.to_owned().concat("/").concat(name);
        proof {
            reveal_strlit("/");
            assert("/"@ =~= seq!['/']);
            assert(r@ =~= base@ + seq!['/'] + name@);
        }
        r
    }
}

/// Whether the final component of `path` is exactly `name`.
pub fn ends_with_component(path: &str, name: &str) -> (r: bool)
    ensures
        r == spec_ends_with_component(path@, name@),
{
    let n = path.unicode_len();
    let m = name.unicode_len();
    if str_eq(path, name) {
        return true;
    }
    if n > m && str_ends_with(path, name) {
        if path.get_char(n - m - 1) == '/' {
            return true;
        }
    }
    false
}

/// Whether `pre` names a directory at or above `path`, by the model of
/// [`spec_path_starts_with`].
pub fn path_starts_with(path: &str, pre: &str) -> (r: bool)
    ensures
        r == spec_path_starts_with(path@, pre@),
{
    let n = path.unicode_len();
    let m = pre.unicode_len();
    if !str_starts_with(path, pre) {
        return false;
    }
    if n == m || m == 0 {
        return true;
    }
    if path.get_char(m) == '/' {
        return true;
    }
    if pre.get_char(m - 1) == '/' {
        return true;
    }
    false
}

/// Bound on the index returned by [`spec_last_slash_upto`].
proof fn lemma_last_slash_upto_bound(s: Seq<char>, i: int)
    ensures
        spec_last_slash_upto(s, i) matches Some(k) ==> 0 <= k <= i && k < s.len() && s[k] == '/',
    decreases i + 1,
{
    if 0 <= i && i < s.len() && s[i] != '/' {
        lemma_last_slash_upto_bound(s, i - 1);
    }
}

/// A path's parent is strictly shorter than the path.
pub proof fn lemma_parent_shorter(s: Seq<char>)
    ensures
        spec_parent(s) matches Some(p) ==> p.len() < s.len(),
{
    lemma_last_slash_upto_bound(s, s.len() - 1);
}

/// Joining a component onto a base path yields a path whose final component
/// is that component.
pub proof fn lemma_join_ends_with(base: Seq<char>, name: Seq<char>)
    ensures
        spec_ends_with_component(spec_join(base, name), name),
{
    let s = spec_join(base, name);
    if base.len() == 0 {
        assert(s == name);
    } else if base[base.len() - 1] == '/' {
        assert(s == base + name);
        assert(s.len() > name.len());
        assert(s.subrange(s.len() - name.len(), s.len() as int) =~= name);
        assert(s[s.len() - name.len() - 1] == base[base.len() - 1]);
    } else {
        assert(s == base + seq!['/'] + name);
        assert(s.len() == base.len() + 1 + name.len());
        assert(s.subrange(s.len() - name.len(), s.len() as int) =~= name);
        assert(s[s.len() - name.len() - 1] == '/');
    }
}

} // verus!
