//! The dependency graph of compilation units.
//!
//! Nodes are compilation units; edges are named, directed dependencies.
//! An edge whose insertion would close a cycle is refused, so the graph is
//! acyclic at all times.

use vstd::prelude::*;

use crate::base::{CrateId, Edition, ExternSourceId, FileId, ProcMacroHandle};
use crate::cfg::CfgOptions;
use crate::crate_name::CrateName;
use crate::env::{Env, ExternSource};

verus! {

/// A directed dependency: the owning unit may refer to `crate_id` under `name`.
pub struct Dependency {
    pub crate_id: CrateId,
    pub name: CrateName,
}

/// One compilation unit of the graph.
pub struct CrateData {
    pub file_id: FileId,
    pub edition: Edition,
    pub display_name: Option<CrateName>,
    pub cfg_options: CfgOptions,
    pub env: Env,
    pub extern_source: ExternSource,
    pub proc_macro: Vec<ProcMacroHandle>,
    pub dependencies: Vec<Dependency>,
}

/// Mathematical model of one dependency edge.
#[verifier::ext_equal]
pub struct DepView {
    pub to: int,
    pub name: Seq<char>,
}

/// Mathematical model of one compilation unit.
#[verifier::ext_equal]
pub struct UnitView {
    pub file_id: FileId,
    pub edition: Edition,
    pub display_name: Option<Seq<char>>,
    pub atoms: Seq<Seq<char>>,
    pub kvs: Seq<(Seq<char>, Seq<char>)>,
    pub env: Seq<(Seq<char>, Seq<char>)>,
    pub extern_paths: Seq<(Seq<char>, ExternSourceId)>,
    pub proc_macro: Seq<ProcMacroHandle>,
    pub deps: Seq<DepView>,
}

impl View for CrateData {
    type V = UnitView;

    open spec fn view(&self) -> UnitView {
        UnitView {
            file_id: self.file_id,
            edition: self.edition,
            display_name: match self.display_name {
                Some(n) => Some(n.name@),
                None => None,
            },
            atoms: self.cfg_options.atoms_view(),
            kvs: self.cfg_options.kv_view(),
            env: self.env.entries_view(),
            extern_paths: self.extern_source.paths_view(),
            proc_macro: self.proc_macro@,
            deps: Seq::new(
                self.dependencies@.len(),
                |i: int|
                    DepView {
                        to: self.dependencies@[i].crate_id.0 as int,
                        name: self.dependencies@[i].name.name@,
                    },
            ),
        }
    }
}

/// There is an edge from unit `a` to unit `b`.
pub open spec fn gedge(g: Seq<UnitView>, a: int, b: int) -> bool {
    0 <= a < g.len() && exists|j: int| 0 <= j < g[a].deps.len() && (#[trigger] g[a].deps[j]).to == b
}

/// Every edge targets an existing unit.
pub open spec fn graph_wf(g: Seq<UnitView>) -> bool {
    forall|a: int, j: int|
        0 <= a < g.len() && 0 <= j < g[a].deps.len() ==> 0 <= (#[trigger] g[a].deps[j]).to
            < g.len()
}

/// No unit name and no edge name contains a dash.
pub open spec fn names_wf(g: Seq<UnitView>) -> bool {
    (forall|a: int, j: int|
        0 <= a < g.len() && 0 <= j < g[a].deps.len() ==> !(#[trigger] g[a].deps[j]).name.contains(
            '-',
        )) && (forall|a: int|
        0 <= a < g.len() ==> match #[trigger] g[a].display_name {
            Some(n) => !n.contains('-'),
            None => true,
        })
}

/// `p` walks the graph along edges.
pub open spec fn path_ok(g: Seq<UnitView>, p: Seq<int>) -> bool {
    p.len() >= 1 && (forall|i: int| 0 <= i < p.len() - 1 ==> #[trigger] gedge(g, p[i], p[i + 1]))
}

/// There is a (possibly empty) walk from `a` to `b`.
pub open spec fn reaches(g: Seq<UnitView>, a: int, b: int) -> bool {
    exists|p: Seq<int>| path_ok(g, p) && p.first() == a && p.last() == b
}

/// There is a walk of at least one edge from `a` to `b`.
pub open spec fn reaches_plus(g: Seq<UnitView>, a: int, b: int) -> bool {
    exists|p: Seq<int>| path_ok(g, p) && p.len() >= 2 && p.first() == a && p.last() == b
}

/// No walk of at least one edge returns to its start.
pub open spec fn acyclic(g: Seq<UnitView>) -> bool {
    forall|p: Seq<int>| #[trigger] path_ok(g, p) && p.len() >= 2 ==> p.first() != p.last()
}

/// `u` with the edge `d` appended.
pub open spec fn unit_with_dep(u: UnitView, d: DepView) -> UnitView {
    UnitView { deps: u.deps.push(d), ..u }
}

/// `g` with an edge from `f` to `t` named `name` appended (unchanged when
/// `f` is no unit of `g`).
pub open spec fn spec_add_dep(g: Seq<UnitView>, f: int, name: Seq<char>, t: int) -> Seq<UnitView> {
    if 0 <= f < g.len() {
        g.update(f, unit_with_dep(g[f], DepView { to: t, name }))
    } else {
        g
    }
}

/// Extracts one edge of a walk, in the exact shape of `path_ok`'s trigger.
pub proof fn lemma_path_edge(g: Seq<UnitView>, p: Seq<int>, i: int)
    requires
        path_ok(g, p),
        0 <= i < p.len() - 1,
    ensures
        gedge(g, p[i], p[i + 1]),
{
}

pub proof fn lemma_reaches_self(g: Seq<UnitView>, a: int)
    ensures
        reaches(g, a, a),
{
    let p = seq![a];
    assert(path_ok(g, p) && p.first() == a && p.last() == a);
}

pub proof fn lemma_plus_weaken(g: Seq<UnitView>, a: int, b: int)
    requires
        reaches_plus(g, a, b),
    ensures
        reaches(g, a, b),
{
    let p = choose|p: Seq<int>| path_ok(g, p) && p.len() >= 2 && p.first() == a && p.last() == b;
    assert(path_ok(g, p) && p.first() == a && p.last() == b);
}

/// An edge followed by a walk is a walk of at least one edge.
pub proof fn lemma_edge_then_reaches(g: Seq<UnitView>, a: int, b: int, c: int)
    requires
        gedge(g, a, b),
        reaches(g, b, c),
    ensures
        reaches_plus(g, a, c),
{
    let p = choose|p: Seq<int>| path_ok(g, p) && p.first() == b && p.last() == c;
    let q = seq![a] + p;
    assert(q.len() == 1 + p.len());
    assert(q.first() == a);
    assert(q.last() == p.last());
    assert forall|i: int| 0 <= i < q.len() - 1 implies #[trigger] gedge(g, q[i], q[i + 1]) by {
        if i == 0 {
            assert(q[0] == a && q[1] == p[0]);
            assert(p[0] == b);
        } else {
            assert(q[i] == p[i - 1] && q[i + 1] == p[i]);
            lemma_path_edge(g, p, i - 1);
        }
    }
    assert(path_ok(g, q) && q.len() >= 2 && q.first() == a && q.last() == c);
}

/// Walks compose.
pub proof fn lemma_reaches_concat(g: Seq<UnitView>, a: int, b: int, c: int)
    requires
        reaches(g, a, b),
        reaches(g, b, c),
    ensures
        reaches(g, a, c),
{
    let p1 = choose|p: Seq<int>| path_ok(g, p) && p.first() == a && p.last() == b;
    let p2 = choose|p: Seq<int>| path_ok(g, p) && p.first() == b && p.last() == c;
    if p2.len() == 1 {
        assert(p1.last() == c);
        assert(path_ok(g, p1) && p1.first() == a && p1.last() == c);
    } else {
        let q = p1 + p2.drop_first();
        assert(q.len() == p1.len() + p2.len() - 1);
        assert(q.first() == a);
        assert(q.last() == p2.drop_first().last());
        assert(p2.drop_first().last() == p2.last());
        assert forall|i: int| 0 <= i < q.len() - 1 implies #[trigger] gedge(g, q[i], q[i + 1]) by {
            if i < p1.len() - 1 {
                assert(q[i] == p1[i] && q[i + 1] == p1[i + 1]);
                lemma_path_edge(g, p1, i);
            } else if i == p1.len() - 1 {
                assert(q[i] == p1[i]);
                assert(p1[i] == b);
                assert(q[i + 1] == p2.drop_first()[0]);
                assert(p2.drop_first()[0] == p2[1]);
                lemma_path_edge(g, p2, 0);
            } else {
                let k = i - p1.len();
                assert(q[i] == p2.drop_first()[k]);
                assert(q[i + 1] == p2.drop_first()[k + 1]);
                assert(p2.drop_first()[k] == p2[k + 1]);
                assert(p2.drop_first()[k + 1] == p2[k + 2]);
                lemma_path_edge(g, p2, k + 1);
            }
        }
        assert(path_ok(g, q) && q.first() == a && q.last() == c);
    }
}

/// In an acyclic graph, no unit reaches itself through one or more edges.
pub proof fn lemma_acyclic_no_self_reach(g: Seq<UnitView>)
    requires
        acyclic(g),
    ensures
        forall|a: int| !reaches_plus(g, a, a),
{
    assert forall|a: int| !reaches_plus(g, a, a) by {
        if reaches_plus(g, a, a) {
            let p = choose|p: Seq<int>|
                path_ok(g, p) && p.len() >= 2 && p.first() == a && p.last() == a;
            assert(path_ok(g, p) && p.len() >= 2);
            assert(p.first() != p.last());
        }
    }
}

/// A walk in a graph extended by one edge from `f` to `t` either witnesses a
/// nontrivial walk of the old graph, or splits into an old walk to `f` and an
/// old walk from `t`.
proof fn lemma_new_edge_path(g: Seq<UnitView>, g2: Seq<UnitView>, f: int, t: int, p: Seq<int>)
    requires
        forall|a: int, b: int| #[trigger]
            gedge(g2, a, b) <==> gedge(g, a, b) || (a == f && b == t),
        path_ok(g2, p),
        p.len() >= 2,
    ensures
        reaches_plus(g, p.first(), p.last()) || (reaches(g, p.first(), f) && reaches(
            g,
            t,
            p.last(),
        )),
    decreases p.len(),
{
    lemma_path_edge(g2, p, 0);
    assert(gedge(g2, p[0], p[1]));
    if p.len() == 2 {
        if gedge(g, p[0], p[1]) {
            assert(path_ok(g, p)) by {
                assert forall|i: int| 0 <= i < p.len() - 1 implies #[trigger] gedge(g, p[i], p[i + 1]) by {
                    assert(i == 0);
                }
            }
            assert(reaches_plus(g, p.first(), p.last()));
        } else {
            assert(p[0] == f && p[1] == t);
            lemma_reaches_self(g, f);
            lemma_reaches_self(g, t);
        }
    } else {
        let q = p.drop_first();
        assert forall|i: int| 0 <= i < q.len() - 1 implies #[trigger] gedge(g2, q[i], q[i + 1]) by {
            assert(q[i] == p[i + 1] && q[i + 1] == p[i + 2]);
            lemma_path_edge(g2, p, i + 1);
        }
        assert(path_ok(g2, q));
        assert(q.first() == p[1] && q.last() == p.last());
        lemma_new_edge_path(g, g2, f, t, q);
        if gedge(g, p[0], p[1]) {
            if reaches_plus(g, p[1], p.last()) {
                lemma_plus_weaken(g, p[1], p.last());
                lemma_edge_then_reaches(g, p[0], p[1], p.last());
            } else {
                lemma_edge_then_reaches(g, p[0], p[1], f);
                lemma_plus_weaken(g, p[0], f);
            }
        } else {
            assert(p[0] == f && p[1] == t);
            lemma_reaches_self(g, f);
            if reaches_plus(g, t, p.last()) {
                lemma_plus_weaken(g, t, p.last());
            }
        }
    }
}

/// Adding an edge from `f` to `t` keeps the graph acyclic, provided `t`
/// cannot already reach `f`.
proof fn lemma_add_edge_keeps_acyclic(g: Seq<UnitView>, g2: Seq<UnitView>, f: int, t: int)
    requires
        acyclic(g),
        !reaches(g, t, f),
        forall|a: int, b: int| #[trigger]
            gedge(g2, a, b) <==> gedge(g, a, b) || (a == f && b == t),
    ensures
        acyclic(g2),
{
    assert forall|p: Seq<int>| #[trigger] path_ok(g2, p) && p.len() >= 2 implies p.first()
        != p.last() by {
        if p.first() == p.last() {
            lemma_new_edge_path(g, g2, f, t, p);
            if reaches_plus(g, p.first(), p.last()) {
                let w = choose|w: Seq<int>|
                    path_ok(g, w) && w.len() >= 2 && w.first() == p.first() && w.last() == p.last();
                assert(path_ok(g, w) && w.len() >= 2);
                assert(w.first() != w.last());
                assert(false);
            } else {
                lemma_reaches_concat(g, t, p.last(), f);
                assert(false);
            }
        }
    }
}

/// The edges of `spec_add_dep(g, f, _, t)` are those of `g` plus `f -> t`.
proof fn lemma_add_dep_edges(g: Seq<UnitView>, f: int, name: Seq<char>, t: int)
    requires
        0 <= f < g.len(),
    ensures
        forall|a: int, b: int| #[trigger]
            gedge(spec_add_dep(g, f, name, t), a, b) <==> gedge(g, a, b) || (a == f && b == t),
{
    let g2 = spec_add_dep(g, f, name, t);
    assert(g2.len() == g.len());
    assert forall|a: int, b: int| #[trigger] gedge(g2, a, b) <==> gedge(g, a, b) || (a == f && b
        == t) by {
        if a == f {
            assert(g2[a].deps == g[a].deps.push(DepView { to: t, name }));
            if gedge(g2, a, b) {
                let j = choose|j: int|
                    0 <= j < g2[a].deps.len() && (#[trigger] g2[a].deps[j]).to == b;
                if j < g[a].deps.len() {
                    assert(g[a].deps[j].to == b);
                    assert(gedge(g, a, b));
                } else {
                    assert(b == t);
                }
            }
            if gedge(g, a, b) {
                let j = choose|j: int| 0 <= j < g[a].deps.len() && (#[trigger] g[a].deps[j]).to == b;
                assert(g2[a].deps[j].to == b);
                assert(gedge(g2, a, b));
            }
            if b == t {
                assert(g2[a].deps[g[a].deps.len() as int].to == t);
                assert(gedge(g2, a, t));
            }
        } else {
            if 0 <= a < g.len() {
                assert(g2[a] == g[a]);
            }
        }
    }
}

/// Appending a unit with no edges leaves the edge relation unchanged.
proof fn lemma_push_unit_edges(g: Seq<UnitView>, u: UnitView)
    requires
        u.deps.len() == 0,
    ensures
        forall|a: int, b: int| #[trigger] gedge(g.push(u), a, b) <==> gedge(g, a, b),
{
    let g2 = g.push(u);
    assert forall|a: int, b: int| #[trigger] gedge(g2, a, b) <==> gedge(g, a, b) by {
        if 0 <= a < g.len() {
            assert(g2[a] == g[a]);
        } else if a == g.len() {
            assert(g2[a].deps.len() == 0);
        }
    }
}

/// Two graphs with the same edge relation have the same walks.
proof fn lemma_same_edges_acyclic(g: Seq<UnitView>, g2: Seq<UnitView>)
    requires
        acyclic(g),
        forall|a: int, b: int| #[trigger] gedge(g2, a, b) <==> gedge(g, a, b),
    ensures
        acyclic(g2),
{
    assert forall|p: Seq<int>| #[trigger] path_ok(g2, p) && p.len() >= 2 implies p.first()
        != p.last() by {
        if p.first() == p.last() {
            assert forall|i: int| 0 <= i < p.len() - 1 implies #[trigger] gedge(g, p[i], p[i + 1]) by {
                assert(gedge(g2, p[i], p[i + 1]));
            }
            assert(path_ok(g, p));
            assert(p.first() != p.last());
            assert(false);
        }
    }
}

/// Number of `true` entries.
pub closed spec fn count_trues(s: Seq<bool>) -> nat
    decreases s.len(),
{
    if s.len() == 0 {
        0
    } else {
        count_trues(s.drop_last()) + if s.last() {
            1nat
        } else {
            0nat
        }
    }
}

proof fn lemma_count_trues_le(s: Seq<bool>)
    ensures
        count_trues(s) <= s.len(),
    decreases s.len(),
{
    if s.len() > 0 {
        lemma_count_trues_le(s.drop_last());
    }
}

proof fn lemma_count_trues_update(s: Seq<bool>, i: int)
    requires
        0 <= i < s.len(),
        !s[i],
    ensures
        count_trues(s.update(i, true)) == count_trues(s) + 1,
    decreases s.len(),
{
    let s2 = s.update(i, true);
    if i == s.len() - 1 {
        assert(s2.drop_last() =~= s.drop_last());
        assert(s2.last());
    } else {
        assert(s2.drop_last() =~= s.drop_last().update(i, true));
        lemma_count_trues_update(s.drop_last(), i);
        assert(s2.last() == s.last());
    }
}

/// Any walk that starts in a set of units closed under edges ends in it.
proof fn lemma_path_visits(g: Seq<UnitView>, vis: Seq<bool>, p: Seq<int>)
    requires
        graph_wf(g),
        vis.len() == g.len(),
        path_ok(g, p),
        0 <= p.first() < g.len(),
        vis[p.first()],
        forall|x: int, y: int|
            0 <= x < g.len() && vis[x] && #[trigger] gedge(g, x, y) ==> 0 <= y < g.len() && vis[y],
    ensures
        0 <= p.last() < g.len() && vis[p.last()],
    decreases p.len(),
{
    if p.len() > 1 {
        lemma_path_edge(g, p, 0);
        assert(gedge(g, p[0], p[1]));
        let q = p.drop_first();
        assert forall|i: int| 0 <= i < q.len() - 1 implies #[trigger] gedge(g, q[i], q[i + 1]) by {
            assert(q[i] == p[i + 1] && q[i + 1] == p[i + 2]);
            lemma_path_edge(g, p, i + 1);
        }
        assert(path_ok(g, q));
        assert(q.first() == p[1]);
        lemma_path_visits(g, vis, q);
    }
}

/// Refused when inserting the edge would close a cycle.
#[derive(Clone, Copy, PartialEq, Eq, Structural, Debug)]
pub struct CycleError {
    pub from: CrateId,
    pub to: CrateId,
}

/// The dependency graph. All public operations preserve `inv`.
pub struct CrateGraph {
    pub crates: Vec<CrateData>,
}

impl View for CrateGraph {
    type V = Seq<UnitView>;

    open spec fn view(&self) -> Seq<UnitView> {
        Seq::new(self.crates@.len(), |i: int| self.crates@[i]@)
    }
}

impl CrateGraph {
    /// Well-formedness: edges target existing units, the graph is acyclic,
    /// and no name contains a dash.
    pub open spec fn inv(&self) -> bool {
        graph_wf(self@) && acyclic(self@) && names_wf(self@)
    }

    pub fn new() -> (r: CrateGraph)
        ensures
            r.inv(),
            r@.len() == 0,
    {
        let r = CrateGraph { crates: Vec::new() };
        proof {
            assert forall|p: Seq<int>| #[trigger] path_ok(r@, p) && p.len() >= 2 implies p.first()
                != p.last() by {
                lemma_path_edge(r@, p, 0);
                assert(false);
            }
        }
        r
    }

    pub fn len(&self) -> (r: usize)
        ensures
            r == self@.len(),
    {
        self.crates.len()
    }

    /// Read access to the unit with identity `id`.
    pub fn crate_data(&self, id: CrateId) -> (r: &CrateData)
        requires
            id.0 < self@.len(),
        ensures
            r@ == self@[id.0 as int],
    {
        &self.crates[id.0]
    }

    /// Adds a compilation unit; its identity is the next sequential index.
    /// The unit starts with no dependencies.
    pub fn add_crate_root(
        &mut self,
        file_id: FileId,
        edition: Edition,
        display_name: Option<CrateName>,
        cfg_options: CfgOptions,
        env: Env,
        extern_source: ExternSource,
        proc_macro: Vec<ProcMacroHandle>,
    ) -> (id: CrateId)
        requires
            old(self).inv(),
            match display_name {
                Some(n) => n.wf(),
                None => true,
            },
        ensures
            final(self).inv(),
            id.0 == old(self)@.len(),
            final(self)@ == old(self)@.push(
                UnitView {
                    file_id,
                    edition,
                    display_name: match display_name {
                        Some(n) => Some(n.name@),
                        None => None,
                    },
                    atoms: cfg_options.atoms_view(),
                    kvs: cfg_options.kv_view(),
                    env: env.entries_view(),
                    extern_paths: extern_source.paths_view(),
                    proc_macro: proc_macro@,
                    deps: Seq::<DepView>::empty(),
                },
            ),
    {
        let id = self.crates.len();
        let data = CrateData {
            file_id,
            edition,
            display_name,
            cfg_options,
            env,
            extern_source,
            proc_macro,
            dependencies: Vec::new(),
        };
        let ghost u = data@;
        self.crates.push(data);
        proof {
            assert(self@ =~= old(self)@.push(u));
            assert(u.deps =~= Seq::<DepView>::empty());
            lemma_push_unit_edges(old(self)@, u);
            lemma_same_edges_acyclic(old(self)@, self@);
            assert forall|a: int, j: int|
                0 <= a < self@.len() && 0 <= j < self@[a].deps.len() implies 0 <= (
            #[trigger] self@[a].deps[j]).to < self@.len() by {
                if a < old(self)@.len() {
                    assert(self@[a] == old(self)@[a]);
                    assert(0 <= old(self)@[a].deps[j].to < old(self)@.len());
                }
            }
        }
        CrateId(id)
    }

    /// Whether unit `dst` is reachable from unit `src` along zero or more edges.
    pub fn can_reach(&self, src: usize, dst: usize) -> (r: bool)
        requires
            graph_wf(self@),
            src < self@.len(),
            dst < self@.len(),
        ensures
            r == reaches(self@, src as int, dst as int),
    {
        let n = self.crates.len();
        let mut visited: Vec<bool> = Vec::new();
        let mut k: usize = 0;
        while k < n
            invariant
                0 <= k <= n,
                visited@.len() == k,
                forall|i: int| 0 <= i < k ==> !visited@[i],
            decreases n - k,
        {
            visited.push(false);
            k += 1;
        }
        let mut stack: Vec<usize> = Vec::new();
        visited.set(src, true);
        stack.push(src);
        proof {
            lemma_count_trues_le(visited@);
            lemma_reaches_self(self@, src as int);
            assert(stack@[0] == src);
            assert(stack@.contains(src));
        }
        loop
            invariant
                n == self@.len(),
                visited@.len() == n,
                src < n,
                dst < n,
                visited@[src as int],
                forall|i: int| 0 <= i < stack@.len() ==> #[trigger] stack@[i] < n,
                forall|i: int| 0 <= i < stack@.len() ==> visited@[#[trigger] stack@[i] as int],
                forall|x: int| 0 <= x < n && visited@[x] ==> reaches(self@, src as int, x),
                forall|x: int|
                    0 <= x < n && visited@[x] && !stack@.contains(x as usize) ==> x != dst,
                forall|x: int, y: int|
                    0 <= x < n && visited@[x] && !stack@.contains(x as usize) && #[trigger] gedge(
                        self@,
                        x,
                        y,
                    ) ==> 0 <= y < n && visited@[y],
            decreases n - count_trues(visited@), stack@.len(),
        {
            proof {
                lemma_count_trues_le(visited@);
            }
            if stack.len() == 0 {
                break ;
            }
            let ghost pre_stack = stack@;
            let x = stack.pop().unwrap();
            if x == dst {
                return true;
            }
            let ghost mid_visited = visited@;
            proof {
                // Popping removed only the last element, which is `x`: every
                // other unit still on the old stack is on the new stack.
                assert(pre_stack.last() == x);
                assert(stack@ =~= pre_stack.drop_last());
                assert forall|z: usize| z != x && pre_stack.contains(z) implies stack@.contains(
                    z,
                ) by {
                    let idx = choose|idx: int| 0 <= idx < pre_stack.len() && pre_stack[idx] == z;
                    assert(idx < pre_stack.len() - 1);
                    assert(stack@[idx] == z);
                }
                assert(visited@[x as int]);
            }
            let deps_len = self.crates[x].dependencies.len();
            assert(deps_len == self@[x as int].deps.len());
            let mut j: usize = 0;
            while j < deps_len
                invariant
                    n == self@.len(),
                    visited@.len() == n,
                    src < n,
                    dst < n,
                    x < n,
                    x != dst,
                    visited@[src as int],
                    visited@[x as int],
                    deps_len == self@[x as int].deps.len(),
                    0 <= j <= deps_len,
                    graph_wf(self@),
                    forall|i: int| 0 <= i < stack@.len() ==> #[trigger] stack@[i] < n,
                    forall|i: int| 0 <= i < stack@.len() ==> visited@[#[trigger] stack@[i] as int],
                    forall|i: int| 0 <= i < n && mid_visited[i] ==> visited@[i],
                    count_trues(visited@) >= count_trues(mid_visited),
                    visited@ == mid_visited ==> stack@.len() == pre_stack.len() - 1,
                    visited@ == mid_visited || count_trues(visited@) > count_trues(mid_visited),
                    forall|x2: int| 0 <= x2 < n && visited@[x2] ==> reaches(self@, src as int, x2),
                    forall|x2: int|
                        0 <= x2 < n && visited@[x2] && !stack@.contains(x2 as usize) ==> x2 != dst,
                    forall|jj: int|
                        0 <= jj < j ==> {
                            let y = (#[trigger] self@[x as int].deps[jj]).to;
                            0 <= y < n && visited@[y]
                        },
                    forall|x2: int, y: int|
                        0 <= x2 < n && x2 != x && visited@[x2] && !stack@.contains(x2 as usize)
                            && #[trigger] gedge(self@, x2, y) ==> 0 <= y < n && visited@[y],
                decreases deps_len - j,
            {
                let y = self.crates[x].dependencies[j].crate_id.0;
                assert(self@[x as int].deps[j as int].to == y as int);
                assert(0 <= y < n) by {
                    assert(0 <= (self@[x as int].deps[j as int]).to < self@.len());
                }
                if !visited[y] {
                    let ghost before = visited@;
                    let ghost stk0 = stack@;
                    visited.set(y, true);
                    stack.push(y);
                    proof {
                        lemma_count_trues_update(before, y as int);
                        assert(gedge(self@, x as int, y as int));
                        lemma_reaches_self(self@, y as int);
                        lemma_edge_then_reaches(self@, x as int, y as int, y as int);
                        lemma_plus_weaken(self@, x as int, y as int);
                        lemma_reaches_concat(self@, src as int, x as int, y as int);
                        assert(stack@ =~= stk0.push(y));
                        assert(stack@[stack@.len() - 1] == y);
                        assert(stack@.contains(y));
                        assert forall|z: usize| stk0.contains(z) implies stack@.contains(z) by {
                            let idx = choose|idx: int| 0 <= idx < stk0.len() && stk0[idx] == z;
                            assert(stack@[idx] == z);
                        }
                        assert forall|x2: int|
                            0 <= x2 < n && visited@[x2] && !stack@.contains(x2 as usize) implies x2
                            != dst by {
                            assert(x2 != y as int);
                            assert(before[x2]);
                            assert(!stk0.contains(x2 as usize));
                        }
                        assert forall|x2: int, y2: int|
                            0 <= x2 < n && x2 != x && visited@[x2] && !stack@.contains(x2 as usize)
                                && #[trigger] gedge(self@, x2, y2) implies 0 <= y2 < n
                            && visited@[y2] by {
                            assert(x2 != y as int);
                            assert(before[x2]);
                            assert(!stk0.contains(x2 as usize));
                            assert(0 <= y2 < n && before[y2]);
                        }
                    }
                }
                j += 1;
            }
            proof {
                // After expanding x, every unit that is visited and off the
                // stack has all its successors visited.
                assert forall|x2: int, y: int|
                    0 <= x2 < n && visited@[x2] && !stack@.contains(x2 as usize) && #[trigger] gedge(
                        self@,
                        x2,
                        y,
                    ) implies 0 <= y < n && visited@[y] by {
                    if x2 == x as int {
                        let jj = choose|jj: int|
                            0 <= jj < self@[x2].deps.len() && (#[trigger] self@[x2].deps[jj]).to
                                == y;
                        assert(0 <= y < n && visited@[y]);
                    }
                }
                lemma_count_trues_le(visited@);
            }
        }
        proof {
            if reaches(self@, src as int, dst as int) {
                let p = choose|p: Seq<int>|
                    path_ok(self@, p) && p.first() == src as int && p.last() == dst as int;
                lemma_path_visits(self@, visited@, p);
                assert(visited@[dst as int]);
                assert(!stack@.contains(dst));
                assert(false);
            }
        }
        false
    }

    /// Inserts a dependency edge from `from` to `to` under `name`.
    ///
    /// The edge is refused, and the graph left unchanged, exactly when `to`
    /// can already reach `from` (including `from == to`): committing it would
    /// close a cycle.
    pub fn add_dep(&mut self, from: CrateId, name: CrateName, to: CrateId) -> (r: Result<
        (),
        CycleError,
    >)
        requires
            old(self).inv(),
            from.0 < old(self)@.len(),
            to.0 < old(self)@.len(),
            name.wf(),
        ensures
            final(self).inv(),
            final(self)@.len() == old(self)@.len(),
            reaches(old(self)@, to.0 as int, from.0 as int) ==> r == Result::<(), CycleError>::Err(
                CycleError { from, to },
            ) && *final(self) == *old(self),
            !reaches(old(self)@, to.0 as int, from.0 as int) ==> r is Ok && final(self)@
                == spec_add_dep(old(self)@, from.0 as int, name.name@, to.0 as int),
    {
        if self.can_reach(to.0, from.0) {
            return Err(CycleError { from, to });
        }
        let ghost g = self@;
        let ghost namev = name.name@;
        let dep = Dependency { crate_id: to, name };
        self.crates[from.0].dependencies.push(dep);
        proof {
            let g2 = spec_add_dep(g, from.0 as int, namev, to.0 as int);
            assert(self@[from.0 as int].deps =~= g[from.0 as int].deps.push(
                DepView { to: to.0 as int, name: namev },
            ));
            assert(self@[from.0 as int] == g2[from.0 as int]);
            assert forall|i: int| 0 <= i < g.len() && i != from.0 as int implies self@[i] == g2[i] by {
                assert(self.crates@[i] == old(self).crates@[i]);
            }
            assert(self@ =~= g2);
            lemma_add_dep_edges(g, from.0 as int, namev, to.0 as int);
            lemma_add_edge_keeps_acyclic(g, self@, from.0 as int, to.0 as int);
            assert forall|a: int, j: int|
                0 <= a < self@.len() && 0 <= j < self@[a].deps.len() implies 0 <= (
            #[trigger] self@[a].deps[j]).to < self@.len() by {
                if a != from.0 as int || j < g[a].deps.len() {
                    assert(0 <= (g[a].deps[j]).to < g.len());
                }
            }
            assert forall|a: int, j: int|
                0 <= a < self@.len() && 0 <= j < self@[a].deps.len() implies !(
            #[trigger] self@[a].deps[j]).name.contains('-') by {
                if a != from.0 as int || j < g[a].deps.len() {
                    assert(!(g[a].deps[j]).name.contains('-'));
                }
            }
            assert forall|a: int| 0 <= a < self@.len() implies match #[trigger] self@[a].display_name {
                Some(n) => !n.contains('-'),
                None => true,
            } by {
                assert(self@[a].display_name == g[a].display_name);
            }
        }
        Ok(())
    }
}

} // verus!
