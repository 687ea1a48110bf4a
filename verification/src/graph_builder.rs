//! Construction of the dependency graph from a workspace model.
//!
//! Building is split in three exactly specified stages. First the injected
//! collaborators (file loader, macro resolver) are consulted once per target
//! or unit root. Their answers, as plain data, determine a *plan*: the exact
//! sequence of unit insertions and edge attempts, computed by a pure
//! function. Executing the plan against an empty graph yields the final
//! graph, with every cycle-closing edge refused and reported.

use vstd::prelude::*;

use crate::base::{CrateId, Edition, ExternSourceId, FileId, ProcMacroHandle};
use crate::cfg::{spec_insert_atoms, spec_insert_kvs, CfgOptions};
use crate::crate_graph::{reaches, spec_add_dep, unit_with_dep, CrateData, CrateGraph, DepView, UnitView};
use crate::env::{Env, ExternSource};
use crate::cargo_workspace::{CargoWorkspace, PackageData, TargetData, TargetKind};
use crate::crate_name::{spec_normalize_dashes, CrateName};
use crate::json_project::{JsonCrate, JsonDep, JsonProject};
use crate::sysroot::{spec_find_by_name, Sysroot, SysrootCrateData};
use crate::ProjectWorkspace;
use crate::strutil::str_eq;

verus! {

/// Maps a root-file path to a stable file handle; `None` means the target is
/// unavailable and produces no unit. Implementations may perform blocking
/// I/O and may be stateful.
pub trait FileLoader {
    fn load(&mut self, path: &String) -> Option<FileId>;
}

/// Resolves a compiled macro-plugin binary path into its expansion handles.
pub trait MacroResolver {
    fn by_dylib_path(&self, path: &String) -> Vec<ProcMacroHandle>;
}

/// A soft failure of graph construction: the affected unit or edge is
/// omitted and the rest of the graph is built.
pub enum BuildDiagnostic {
    /// An edge was refused because committing it would close a cycle.
    CyclicDependency { from: CrateId, to: CrateId },
    /// A root file was rejected by the loader; its target produced no unit.
    MissingTargetRoot { path: String },
}

/// Mathematical model of one diagnostic.
#[verifier::ext_equal]
pub enum DiagView {
    Cycle { from: int, to: int },
    MissingRoot { path: Seq<char> },
}

impl View for BuildDiagnostic {
    type V = DiagView;

    open spec fn view(&self) -> DiagView {
        match self {
            BuildDiagnostic::CyclicDependency { from, to } => DiagView::Cycle {
                from: from.0 as int,
                to: to.0 as int,
            },
            BuildDiagnostic::MissingTargetRoot { path } => DiagView::MissingRoot { path: path@ },
        }
    }
}

/// One step of a build plan.
pub enum BuildStep {
    /// Insert a compilation unit (its dependency list must be empty).
    AddUnit(CrateData),
    /// Attempt an edge between the units inserted as the `from`-th and
    /// `to`-th steps.
    TryDep { from: usize, name: CrateName, to: usize },
}

/// Mathematical model of one build step.
#[verifier::ext_equal]
pub enum StepView {
    AddUnit(UnitView),
    TryDep { from: int, name: Seq<char>, to: int },
}

impl View for BuildStep {
    type V = StepView;

    open spec fn view(&self) -> StepView {
        match self {
            BuildStep::AddUnit(d) => StepView::AddUnit(d@),
            BuildStep::TryDep { from, name, to } => StepView::TryDep {
                from: from as int,
                name: name.name@,
                to: to as int,
            },
        }
    }
}

pub open spec fn steps_view(steps: Seq<BuildStep>) -> Seq<StepView> {
    Seq::new(steps.len(), |i: int| steps[i]@)
}

pub open spec fn diags_view(diags: Seq<BuildDiagnostic>) -> Seq<DiagView> {
    Seq::new(diags.len(), |i: int| diags[i]@)
}

/// Number of unit insertions in a plan.
pub open spec fn count_units(steps: Seq<StepView>) -> nat
    decreases steps.len(),
{
    if steps.len() == 0 {
        0
    } else {
        count_units(steps.drop_last()) + match steps.last() {
            StepView::AddUnit(_) => 1nat,
            StepView::TryDep { .. } => 0nat,
        }
    }
}

/// A plan is well-formed when every inserted unit starts without edges and
/// carries a dash-free name, and every edge attempt points at units already
/// inserted, under a dash-free name.
pub open spec fn plan_wf(steps: Seq<StepView>) -> bool {
    forall|i: int|
        0 <= i < steps.len() ==> match #[trigger] steps[i] {
            StepView::AddUnit(u) => u.deps.len() == 0 && match u.display_name {
                Some(n) => !n.contains('-'),
                None => true,
            },
            StepView::TryDep { from, name, to } => 0 <= from < count_units(steps.take(i)) && 0 <= to
                < count_units(steps.take(i)) && !name.contains('-'),
        }
}

/// The graph after applying a plan to `g0`: each unit insertion appends a
/// node; each edge attempt appends the edge exactly when the target cannot
/// already reach the source, and is dropped otherwise.
pub open spec fn apply_steps(g0: Seq<UnitView>, steps: Seq<StepView>) -> Seq<UnitView>
    decreases steps.len(),
{
    if steps.len() == 0 {
        g0
    } else {
        let g = apply_steps(g0, steps.drop_last());
        match steps.last() {
            StepView::AddUnit(u) => g.push(u),
            StepView::TryDep { from, name, to } => if reaches(g, to, from) {
                g
            } else {
                spec_add_dep(g, from, name, to)
            },
        }
    }
}

/// The cycle diagnostics produced by applying a plan to `g0`, in order.
pub open spec fn apply_steps_cycles(g0: Seq<UnitView>, steps: Seq<StepView>) -> Seq<DiagView>
    decreases steps.len(),
{
    if steps.len() == 0 {
        Seq::empty()
    } else {
        let g = apply_steps(g0, steps.drop_last());
        let prev = apply_steps_cycles(g0, steps.drop_last());
        match steps.last() {
            StepView::AddUnit(_) => prev,
            StepView::TryDep { from, name, to } => if reaches(g, to, from) {
                prev.push(DiagView::Cycle { from, to })
            } else {
                prev
            },
        }
    }
}

/// Applying a plan grows the graph by exactly the number of inserted units.
pub proof fn lemma_apply_steps_len(g0: Seq<UnitView>, steps: Seq<StepView>)
    ensures
        apply_steps(g0, steps).len() == g0.len() + count_units(steps),
    decreases steps.len(),
{
    if steps.len() > 0 {
        lemma_apply_steps_len(g0, steps.drop_last());
        let g = apply_steps(g0, steps.drop_last());
        match steps.last() {
            StepView::AddUnit(u) => {
                assert(apply_steps(g0, steps) == g.push(u));
            },
            StepView::TryDep { from, name, to } => {
                if reaches(g, to, from) {
                    assert(apply_steps(g0, steps) == g);
                } else {
                    assert(apply_steps(g0, steps) == spec_add_dep(g, from, name, to));
                    assert(spec_add_dep(g, from, name, to).len() == g.len());
                }
            },
        }
    }
}

/// Executes a well-formed plan against an empty graph.
///
/// The resulting graph is exactly the plan's fold, hence acyclic; each
/// refused edge is reported, in order, as a cycle diagnostic.
#[verifier::rlimit(50)]
pub fn execute_plan(steps: Vec<BuildStep>) -> (r: (CrateGraph, Vec<BuildDiagnostic>))
    requires
        plan_wf(steps_view(steps@)),
    ensures
        r.0.inv(),
        r.0@ == apply_steps(Seq::empty(), steps_view(steps@)),
        diags_view(r.1@) == apply_steps_cycles(Seq::empty(), steps_view(steps@)),
{
    let ghost all = steps_view(steps@);
    let mut graph = CrateGraph::new();
    let mut diags: Vec<BuildDiagnostic> = Vec::new();
    let mut rest = steps;
    proof {
        assert(graph@ =~= apply_steps(Seq::empty(), all.take(0)));
        assert(diags_view(diags@) =~= apply_steps_cycles(Seq::empty(), all.take(0)));
        assert(count_units(all.take(0)) == 0);
    }
    while rest.len() > 0
        invariant
            plan_wf(all),
            rest@.len() <= all.len(),
            steps_view(rest@) == all.skip(all.len() - rest@.len()),
            graph.inv(),
            graph@ == apply_steps(Seq::empty(), all.take(all.len() - rest@.len())),
            graph@.len() == count_units(all.take(all.len() - rest@.len())),
            diags_view(diags@) == apply_steps_cycles(Seq::empty(), all.take(all.len() - rest@.len())),
        decreases rest@.len(),
    {
        let ghost k = all.len() - rest@.len();
        let ghost old_rest = rest@;
        let step = rest.remove(0);
        proof {
            assert(step == old_rest[0]);
            assert(steps_view(old_rest)[0] == all.skip(k)[0]);
            assert(all.skip(k)[0] == all[k]);
            assert(step@ == all[k]);
            assert forall|i: int| 0 <= i < rest@.len() implies steps_view(rest@)[i] == all.skip(
                k + 1,
            )[i] by {
                assert(rest@[i] == old_rest[i + 1]);
                assert(steps_view(old_rest)[i + 1] == all.skip(k)[i + 1]);
                assert(all.skip(k)[i + 1] == all[k + 1 + i]);
                assert(all.skip(k + 1)[i] == all[k + 1 + i]);
            }
            assert(steps_view(rest@) =~= all.skip(k + 1));
            assert(all.take(k + 1).drop_last() =~= all.take(k));
            assert(all.take(k + 1).last() == all[k]);
        }
        match step {
            BuildStep::AddUnit(d) => {
                let ghost u = d@;
                proof {
                    assert(plan_wf(all));
                    assert(all[k] == StepView::AddUnit(u));
                    assert(u.deps.len() == 0);
                }
                let CrateData {
                    file_id,
                    edition,
                    display_name,
                    cfg_options,
                    env,
                    extern_source,
                    proc_macro,
                    dependencies: _,
                } = d;
                let ghost pre = graph@;
                let _ = graph.add_crate_root(
                    file_id,
                    edition,
                    display_name,
                    cfg_options,
                    env,
                    extern_source,
                    proc_macro,
                );
                proof {
                    assert(graph@.last() =~= u);
                    assert(graph@ =~= pre.push(u));
                    assert(graph@ == apply_steps(Seq::empty(), all.take(k + 1)));
                }
            },
            BuildStep::TryDep { from, name, to } => {
                proof {
                    assert(all[k] == StepView::TryDep {
                        from: from as int,
                        name: name.name@,
                        to: to as int,
                    });
                    assert(from < count_units(all.take(k)));
                    assert(to < count_units(all.take(k)));
                }
                let res = graph.add_dep(CrateId(from), name, CrateId(to));
                if let Err(e) = res {
                    let ghost prediags = diags_view(diags@);
                    diags.push(
                        BuildDiagnostic::CyclicDependency { from: e.from, to: e.to },
                    );
                    proof {
                        assert(diags_view(diags@) =~= prediags.push(
                            DiagView::Cycle { from: from as int, to: to as int },
                        ));
                    }
                }
            },
        }
        proof {
            assert(graph@ == apply_steps(Seq::empty(), all.take(k + 1)));
            assert(diags_view(diags@) == apply_steps_cycles(Seq::empty(), all.take(k + 1)));
            lemma_apply_steps_len(Seq::empty(), all.take(k + 1));
        }
    }
    proof {
        assert(all.take(all.len() as int) =~= all);
    }
    (graph, diags)
}

/// Number of accepted roots among `loaded`.
pub open spec fn count_some(loaded: Seq<Option<FileId>>) -> nat
    decreases loaded.len(),
{
    if loaded.len() == 0 {
        0
    } else {
        count_some(loaded.drop_last()) + if loaded.last() is Some {
            1nat
        } else {
            0nat
        }
    }
}

/// The identity the `i`-th declaration's unit gets, when it gets one: the
/// number of accepted declarations before it.
pub open spec fn unit_rank(loaded: Seq<Option<FileId>>, i: int) -> int {
    count_some(loaded.take(i)) as int
}

pub proof fn lemma_count_some_take_step(loaded: Seq<Option<FileId>>, i: int)
    requires
        0 <= i < loaded.len(),
    ensures
        count_some(loaded.take(i + 1)) == count_some(loaded.take(i)) + if loaded[i] is Some {
            1nat
        } else {
            0nat
        },
{
    assert(loaded.take(i + 1).drop_last() =~= loaded.take(i));
    assert(loaded.take(i + 1).last() == loaded[i]);
}

pub proof fn lemma_count_some_take_le(loaded: Seq<Option<FileId>>, i: int, j: int)
    requires
        0 <= i <= j <= loaded.len(),
    ensures
        count_some(loaded.take(i)) <= count_some(loaded.take(j)),
    decreases j - i,
{
    if i < j {
        lemma_count_some_take_step(loaded, j - 1);
        lemma_count_some_take_le(loaded, i, j - 1);
    }
}

pub proof fn lemma_count_some_le(loaded: Seq<Option<FileId>>, i: int)
    requires
        0 <= i <= loaded.len(),
    ensures
        count_some(loaded.take(i)) <= i,
    decreases i,
{
    if i > 0 {
        lemma_count_some_take_step(loaded, i - 1);
        lemma_count_some_le(loaded, i - 1);
    }
}

/// An accepted declaration's rank lies below the total number of accepted
/// declarations.
pub proof fn lemma_rank_lt(loaded: Seq<Option<FileId>>, i: int)
    requires
        0 <= i < loaded.len(),
        loaded[i] is Some,
    ensures
        0 <= unit_rank(loaded, i) < count_some(loaded),
{
    lemma_count_some_take_step(loaded, i);
    lemma_count_some_take_le(loaded, i + 1, loaded.len() as int);
    assert(loaded.take(loaded.len() as int) =~= loaded);
}

/// `count_units` distributes over concatenation.
pub proof fn lemma_count_units_concat(a: Seq<StepView>, b: Seq<StepView>)
    ensures
        count_units(a + b) == count_units(a) + count_units(b),
    decreases b.len(),
{
    if b.len() == 0 {
        assert(a + b =~= a);
    } else {
        assert((a + b).drop_last() =~= a + b.drop_last());
        assert((a + b).last() == b.last());
        lemma_count_units_concat(a, b.drop_last());
    }
}

/// A plan without unit insertions inserts no units.
pub proof fn lemma_count_units_all_trydep(s: Seq<StepView>)
    requires
        forall|i: int| 0 <= i < s.len() ==> (#[trigger] s[i]) is TryDep,
    ensures
        count_units(s) == 0,
    decreases s.len(),
{
    if s.len() > 0 {
        lemma_count_units_all_trydep(s.drop_last());
    }
}

/// The number of accepted roots among the `loaded` slots, as exec data.
pub fn rank_of(loaded: &Vec<Option<FileId>>, k: usize) -> (r: usize)
    requires
        k <= loaded@.len(),
    ensures
        r == count_some(loaded@.take(k as int)),
{
    let mut r: usize = 0;
    let mut i: usize = 0;
    while i < k
        invariant
            0 <= i <= k <= loaded@.len(),
            r == count_some(loaded@.take(i as int)),
            r <= i,
        decreases k - i,
    {
        proof {
            lemma_count_some_take_step(loaded@, i as int);
        }
        if loaded[i].is_some() {
            r += 1;
        }
        i += 1;
    }
    r
}

/// First mapping of the generated-source directory `d`, if any.
pub open spec fn spec_ext_lookup(
    ext: Seq<(Seq<char>, ExternSourceId)>,
    d: Seq<char>,
) -> Option<ExternSourceId>
    decreases ext.len(),
{
    if ext.len() == 0 {
        None
    } else if ext.first().0 == d {
        Some(ext.first().1)
    } else {
        spec_ext_lookup(ext.drop_first(), d)
    }
}

/// The extern-source table, as character sequences.
pub open spec fn ext_roots_view(ext: Seq<(String, ExternSourceId)>) -> Seq<
    (Seq<char>, ExternSourceId),
> {
    Seq::new(ext.len(), |i: int| (ext[i].0@, ext[i].1))
}

proof fn lemma_ext_lookup_at(ext: Seq<(Seq<char>, ExternSourceId)>, d: Seq<char>, i: int)
    requires
        0 <= i <= ext.len(),
        forall|j: int| 0 <= j < i ==> (#[trigger] ext[j]).0 != d,
    ensures
        i == ext.len() ==> spec_ext_lookup(ext, d) is None,
        i < ext.len() && ext[i].0 == d ==> spec_ext_lookup(ext, d) == Some(ext[i].1),
    decreases i,
{
    if i > 0 {
        assert(ext.first().0 != d);
        assert forall|j: int| 0 <= j < i - 1 implies (#[trigger] ext.drop_first()[j]).0 != d by {
            assert(ext.drop_first()[j] == ext[j + 1]);
        }
        lemma_ext_lookup_at(ext.drop_first(), d, i - 1);
        if i < ext.len() && ext[i].0 == d {
            assert(ext.drop_first()[i - 1] == ext[i]);
        }
    }
}

/// Looks `d` up in the extern-source table.
fn ext_lookup(ext: &Vec<(String, ExternSourceId)>, d: &String) -> (r: Option<ExternSourceId>)
    ensures
        r == spec_ext_lookup(ext_roots_view(ext@), d@),
{
    let ghost extv = ext_roots_view(ext@);
    let mut i: usize = 0;
    while i < ext.len()
        invariant
            0 <= i <= ext@.len(),
            extv == ext_roots_view(ext@),
            forall|j: int| 0 <= j < i ==> (#[trigger] extv[j]).0 != d@,
        decreases ext@.len() - i,
    {
        if str_eq(ext[i].0.as_str(), d.as_str()) {
            assert(extv[i as int].0 == d@);
            proof {
                lemma_ext_lookup_at(extv, d@, i as int);
            }
            return Some(ext[i].1);
        }
        i += 1;
    }
    proof {
        lemma_ext_lookup_at(extv, d@, ext@.len() as int);
    }
    None
}

/// A fresh copy of a list of expansion handles.
fn clone_handles(v: &Vec<ProcMacroHandle>) -> (r: Vec<ProcMacroHandle>)
    ensures
        r@ == v@,
{
    let mut r: Vec<ProcMacroHandle> = Vec::new();
    let mut i: usize = 0;
    while i < v.len()
        invariant
            0 <= i <= v@.len(),
            r@ == v@.take(i as int),
        decreases v@.len() - i,
    {
        r.push(v[i]);
        proof {
            assert(r@ =~= v@.take(i + 1));
        }
        i += 1;
    }
    proof {
        assert(v@.take(v@.len() as int) =~= v@);
    }
    r
}

/// The per-list views of resolved expansion handles.
pub open spec fn macros_view(m: Seq<Vec<ProcMacroHandle>>) -> Seq<Seq<ProcMacroHandle>> {
    Seq::new(m.len(), |i: int| m[i]@)
}

/// The root-module paths of the descriptor's entries.
pub open spec fn json_root_paths(crates: Seq<JsonCrate>) -> Seq<Seq<char>> {
    Seq::new(crates.len(), |i: int| crates[i].root_module@)
}

/// One missing-root diagnostic for each rejected root, in order.
pub open spec fn spec_missing_diags(paths: Seq<Seq<char>>, loaded: Seq<Option<FileId>>, i: int) -> Seq<
    DiagView,
>
    decreases i,
{
    if i <= 0 {
        Seq::empty()
    } else {
        spec_missing_diags(paths, loaded, i - 1) + if loaded[i - 1] is None {
            seq![DiagView::MissingRoot { path: paths[i - 1] }]
        } else {
            Seq::empty()
        }
    }
}

/// The unit a descriptor entry becomes: edition as declared, no name, the
/// default flags plus the declared atoms and key/value flags, the
/// environment overlay carrying the output directory under the conventional
/// key, the extern-source entry when the output directory is a known
/// generated-source root, and the resolved expansion handles.
pub open spec fn spec_json_unit(
    c: JsonCrate,
    fid: FileId,
    atoms0: Seq<Seq<char>>,
    kvs0: Seq<(Seq<char>, Seq<char>)>,
    ext: Seq<(Seq<char>, ExternSourceId)>,
    macs: Seq<ProcMacroHandle>,
) -> UnitView {
    UnitView {
        file_id: fid,
        edition: c.edition,
        display_name: None,
        atoms: spec_insert_atoms(atoms0, c.atom_cfgs.deep_view()),
        kvs: spec_insert_kvs(kvs0, c.key_value_cfgs.deep_view()),
        env: match c.out_dir {
            Some(d) => seq![("OUT_DIR"@, d@)],
            None => Seq::empty(),
        },
        extern_paths: match c.out_dir {
            Some(d) => match spec_ext_lookup(ext, d@) {
                Some(id) => seq![(d@, id)],
                None => Seq::empty(),
            },
            None => Seq::empty(),
        },
        proc_macro: macs,
        deps: Seq::empty(),
    }
}

/// The unit-insertion steps of the first `i` descriptor entries.
pub open spec fn spec_json_units(
    crates: Seq<JsonCrate>,
    loaded: Seq<Option<FileId>>,
    atoms0: Seq<Seq<char>>,
    kvs0: Seq<(Seq<char>, Seq<char>)>,
    ext: Seq<(Seq<char>, ExternSourceId)>,
    macros: Seq<Seq<ProcMacroHandle>>,
    i: int,
) -> Seq<StepView>
    decreases i,
{
    if i <= 0 {
        Seq::empty()
    } else {
        spec_json_units(crates, loaded, atoms0, kvs0, ext, macros, i - 1) + match loaded[i - 1] {
            Some(fid) => seq![
                StepView::AddUnit(spec_json_unit(crates[i - 1], fid, atoms0, kvs0, ext, macros[i - 1])),
            ],
            None => Seq::empty(),
        }
    }
}

/// The edge attempts declared by one entry's first `j` dependencies: one per
/// declared dependency whose endpoints both produced a unit.
pub open spec fn spec_json_dep_steps(
    deps: Seq<JsonDep>,
    from_id: int,
    loaded: Seq<Option<FileId>>,
    j: int,
) -> Seq<StepView>
    decreases j,
{
    if j <= 0 {
        Seq::empty()
    } else {
        spec_json_dep_steps(deps, from_id, loaded, j - 1) + {
            let d = deps[j - 1];
            if d.krate < loaded.len() && loaded[d.krate as int] is Some {
                seq![
                    StepView::TryDep {
                        from: from_id,
                        name: d.name@,
                        to: unit_rank(loaded, d.krate as int),
                    },
                ]
            } else {
                Seq::empty()
            }
        }
    }
}

/// The edge attempts of the first `i` descriptor entries.
pub open spec fn spec_json_deps(
    crates: Seq<JsonCrate>,
    loaded: Seq<Option<FileId>>,
    i: int,
) -> Seq<StepView>
    decreases i,
{
    if i <= 0 {
        Seq::empty()
    } else {
        spec_json_deps(crates, loaded, i - 1) + if loaded[i - 1] is Some {
            spec_json_dep_steps(
                crates[i - 1].deps@,
                unit_rank(loaded, i - 1),
                loaded,
                crates[i - 1].deps@.len() as int,
            )
        } else {
            Seq::empty()
        }
    }
}

/// The whole build plan of a descriptor: all units, then all declared edges.
pub open spec fn spec_json_plan(
    crates: Seq<JsonCrate>,
    loaded: Seq<Option<FileId>>,
    atoms0: Seq<Seq<char>>,
    kvs0: Seq<(Seq<char>, Seq<char>)>,
    ext: Seq<(Seq<char>, ExternSourceId)>,
    macros: Seq<Seq<ProcMacroHandle>>,
) -> Seq<StepView> {
    spec_json_units(crates, loaded, atoms0, kvs0, ext, macros, crates.len() as int)
        + spec_json_deps(crates, loaded, crates.len() as int)
}

/// Builds the unit of one descriptor entry.
fn build_json_unit(
    c: &JsonCrate,
    fid: FileId,
    default_cfg: &CfgOptions,
    extern_source_roots: &Vec<(String, ExternSourceId)>,
    macs: Vec<ProcMacroHandle>,
) -> (r: CrateData)
    ensures
        r@ == spec_json_unit(
            *c,
            fid,
            default_cfg.atoms_view(),
            default_cfg.kv_view(),
            ext_roots_view(extern_source_roots@),
            macs@,
        ),
{
    let mut cfg_options = default_cfg.duplicate();
    cfg_options.insert_atoms(&c.atom_cfgs);
    cfg_options.insert_key_values(&c.key_value_cfgs);
    let mut env = Env::new();
    let mut extern_source = ExternSource::new();
    if let Some(d) = &c.out_dir {
        env.set("OUT_DIR", d.clone());
        if let Some(id) = ext_lookup(extern_source_roots, d) {
            extern_source.set_extern_path(d.as_str(), id);
        }
    }
    let r = CrateData {
        file_id: fid,
        edition: c.edition,
        display_name: None,
        cfg_options,
        env,
        extern_source,
        proc_macro: macs,
        dependencies: Vec::new(),
    };
    proof {
        let u = spec_json_unit(
            *c,
            fid,
            default_cfg.atoms_view(),
            default_cfg.kv_view(),
            ext_roots_view(extern_source_roots@),
            macs@,
        );
        assert(r@.env =~= u.env);
        assert(r@.extern_paths =~= u.extern_paths);
        assert(r@.deps =~= u.deps);
        assert(r@ =~= u);
    }
    r
}

/// Consults the loader once per descriptor entry, in declaration order, and
/// the macro resolver once per loaded entry that declares a plugin path.
/// Returns the loader's answers, the resolved handles, and one missing-root
/// diagnostic per rejected entry.
pub fn load_json_roots<L: FileLoader, M: MacroResolver>(
    project: &JsonProject,
    proc_macro_client: &M,
    load: &mut L,
) -> (r: (Vec<Option<FileId>>, Vec<Vec<ProcMacroHandle>>, Vec<BuildDiagnostic>))
    ensures
        r.0@.len() == project.crates@.len(),
        r.1@.len() == project.crates@.len(),
        forall|i: int|
            0 <= i < project.crates@.len() && (#[trigger] project.crates@[i]).proc_macro_dylib_path
                is None ==> macros_view(r.1@)[i] == Seq::<ProcMacroHandle>::empty(),
        diags_view(r.2@) == spec_missing_diags(
            json_root_paths(project.crates@),
            r.0@,
            project.crates@.len() as int,
        ),
{
    let ghost paths = json_root_paths(project.crates@);
    let mut loaded: Vec<Option<FileId>> = Vec::new();
    let mut macros: Vec<Vec<ProcMacroHandle>> = Vec::new();
    let mut diags: Vec<BuildDiagnostic> = Vec::new();
    let mut i: usize = 0;
    while i < project.crates.len()
        invariant
            0 <= i <= project.crates@.len(),
            paths == json_root_paths(project.crates@),
            loaded@.len() == i,
            macros@.len() == i,
            forall|j: int|
                0 <= j < i && (#[trigger] project.crates@[j]).proc_macro_dylib_path is None
                    ==> macros_view(macros@)[j] == Seq::<ProcMacroHandle>::empty(),
            diags_view(diags@) == spec_missing_diags(paths, loaded@, i as int),
        decreases project.crates@.len() - i,
    {
        let ghost prev_loaded = loaded@;
        let ghost prev_diags = diags_view(diags@);
        let krate = &project.crates[i];
        let fid = load.load(&krate.root_module);
        loaded.push(fid);
        let mut macs: Vec<ProcMacroHandle> = Vec::new();
        match (&fid, &krate.proc_macro_dylib_path) {
            (Some(_), Some(p)) => {
                macs = proc_macro_client.by_dylib_path(p);
            },
            _ => {},
        }
        macros.push(macs);
        if fid.is_none() {
            diags.push(BuildDiagnostic::MissingTargetRoot { path: krate.root_module.clone() });
        }
        proof {
            if project.crates@[i as int].proc_macro_dylib_path is None {
                assert(macros_view(macros@)[i as int] =~= Seq::<ProcMacroHandle>::empty());
            }
            assert(loaded@ =~= prev_loaded.push(fid));
            lemma_missing_diags_grow(paths, prev_loaded, loaded@, i as int);
            if fid is None {
                assert(diags_view(diags@) =~= prev_diags.push(
                    DiagView::MissingRoot { path: paths[i as int] },
                ));
            }
            assert(diags_view(diags@) == spec_missing_diags(paths, loaded@, i + 1));
        }
        i += 1;
    }
    (loaded, macros, diags)
}

/// Extending `loaded` beyond `i` does not change the first `i` diagnostics.
proof fn lemma_missing_diags_grow(
    paths: Seq<Seq<char>>,
    prev: Seq<Option<FileId>>,
    cur: Seq<Option<FileId>>,
    i: int,
)
    requires
        0 <= i <= prev.len(),
        prev.len() <= cur.len(),
        forall|j: int| 0 <= j < prev.len() ==> prev[j] == cur[j],
    ensures
        spec_missing_diags(paths, prev, i) == spec_missing_diags(paths, cur, i),
    decreases i,
{
    if i > 0 {
        lemma_missing_diags_grow(paths, prev, cur, i - 1);
    }
}

proof fn lemma_json_units_elems(
    crates: Seq<JsonCrate>,
    loaded: Seq<Option<FileId>>,
    atoms0: Seq<Seq<char>>,
    kvs0: Seq<(Seq<char>, Seq<char>)>,
    ext: Seq<(Seq<char>, ExternSourceId)>,
    macros: Seq<Seq<ProcMacroHandle>>,
    i: int,
)
    requires
        0 <= i <= crates.len(),
        loaded.len() == crates.len(),
    ensures
        spec_json_units(crates, loaded, atoms0, kvs0, ext, macros, i).len() == count_some(
            loaded.take(i),
        ),
        count_units(spec_json_units(crates, loaded, atoms0, kvs0, ext, macros, i)) == count_some(
            loaded.take(i),
        ),
        forall|k: int|
            0 <= k < spec_json_units(crates, loaded, atoms0, kvs0, ext, macros, i).len()
                ==> match #[trigger] spec_json_units(crates, loaded, atoms0, kvs0, ext, macros, i)[k] {
                StepView::AddUnit(u) => u.deps.len() == 0 && u.display_name is None,
                StepView::TryDep { .. } => false,
            },
    decreases i,
{
    if i > 0 {
        lemma_json_units_elems(crates, loaded, atoms0, kvs0, ext, macros, i - 1);
        lemma_count_some_take_step(loaded, i - 1);
        let prev = spec_json_units(crates, loaded, atoms0, kvs0, ext, macros, i - 1);
        let cur = spec_json_units(crates, loaded, atoms0, kvs0, ext, macros, i);
        match loaded[i - 1] {
            Some(fid) => {
                let u = spec_json_unit(crates[i - 1], fid, atoms0, kvs0, ext, macros[i - 1]);
                assert(cur =~= prev.push(StepView::AddUnit(u)));
                assert(cur.drop_last() =~= prev);
                assert(count_units(cur) == count_units(prev) + 1);
            },
            None => {
                assert(cur =~= prev);
            },
        }
    }
}

proof fn lemma_json_dep_steps_elems(
    deps: Seq<JsonDep>,
    from_id: int,
    loaded: Seq<Option<FileId>>,
    j: int,
)
    requires
        0 <= j <= deps.len(),
        forall|k: int| 0 <= k < deps.len() ==> !(#[trigger] deps[k]).name@.contains('-'),
    ensures
        forall|k: int|
            0 <= k < spec_json_dep_steps(deps, from_id, loaded, j).len()
                ==> match #[trigger] spec_json_dep_steps(deps, from_id, loaded, j)[k] {
                StepView::TryDep { from, name, to } => from == from_id && 0 <= to < count_some(
                    loaded,
                ) && !name.contains('-'),
                StepView::AddUnit(_) => false,
            },
    decreases j,
{
    if j > 0 {
        lemma_json_dep_steps_elems(deps, from_id, loaded, j - 1);
        let prev = spec_json_dep_steps(deps, from_id, loaded, j - 1);
        let cur = spec_json_dep_steps(deps, from_id, loaded, j);
        let d = deps[j - 1];
        if d.krate < loaded.len() && loaded[d.krate as int] is Some {
            lemma_rank_lt(loaded, d.krate as int);
            assert(cur =~= prev.push(
                StepView::TryDep {
                    from: from_id,
                    name: d.name@,
                    to: unit_rank(loaded, d.krate as int),
                },
            ));
        } else {
            assert(cur =~= prev);
        }
    }
}

proof fn lemma_json_deps_elems(crates: Seq<JsonCrate>, loaded: Seq<Option<FileId>>, i: int)
    requires
        0 <= i <= crates.len(),
        loaded.len() == crates.len(),
        forall|a: int, b: int|
            0 <= a < crates.len() && 0 <= b < crates[a].deps@.len() ==> !(
            #[trigger] crates[a].deps@[b]).name@.contains('-'),
    ensures
        forall|k: int|
            0 <= k < spec_json_deps(crates, loaded, i).len() ==> match #[trigger] spec_json_deps(
                crates,
                loaded,
                i,
            )[k] {
                StepView::TryDep { from, name, to } => 0 <= from < count_some(loaded) && 0 <= to
                    < count_some(loaded) && !name.contains('-'),
                StepView::AddUnit(_) => false,
            },
    decreases i,
{
    if i > 0 {
        lemma_json_deps_elems(crates, loaded, i - 1);
        let prev = spec_json_deps(crates, loaded, i - 1);
        let cur = spec_json_deps(crates, loaded, i);
        if loaded[i - 1] is Some {
            lemma_rank_lt(loaded, i - 1);
            assert(forall|b: int|
                0 <= b < crates[i - 1].deps@.len() ==> !(#[trigger] crates[i - 1].deps@[b]).name@.contains(
                    '-',
                ));
            lemma_json_dep_steps_elems(
                crates[i - 1].deps@,
                unit_rank(loaded, i - 1),
                loaded,
                crates[i - 1].deps@.len() as int,
            );
            let tail = spec_json_dep_steps(
                crates[i - 1].deps@,
                unit_rank(loaded, i - 1),
                loaded,
                crates[i - 1].deps@.len() as int,
            );
            assert forall|k: int| 0 <= k < cur.len() implies match #[trigger] cur[k] {
                StepView::TryDep { from, name, to } => 0 <= from < count_some(loaded) && 0 <= to
                    < count_some(loaded) && !name.contains('-'),
                StepView::AddUnit(_) => false,
            } by {
                if k < prev.len() {
                    assert(cur[k] == prev[k]);
                } else {
                    assert(cur[k] == tail[k - prev.len()]);
                }
            }
        } else {
            assert(cur =~= prev);
        }
    }
}

/// A descriptor's plan is well-formed.
proof fn lemma_json_plan_wf(
    crates: Seq<JsonCrate>,
    loaded: Seq<Option<FileId>>,
    atoms0: Seq<Seq<char>>,
    kvs0: Seq<(Seq<char>, Seq<char>)>,
    ext: Seq<(Seq<char>, ExternSourceId)>,
    macros: Seq<Seq<ProcMacroHandle>>,
)
    requires
        loaded.len() == crates.len(),
        forall|a: int, b: int|
            0 <= a < crates.len() && 0 <= b < crates[a].deps@.len() ==> !(
            #[trigger] crates[a].deps@[b]).name@.contains('-'),
    ensures
        plan_wf(spec_json_plan(crates, loaded, atoms0, kvs0, ext, macros)),
{
    let n = crates.len() as int;
    let units = spec_json_units(crates, loaded, atoms0, kvs0, ext, macros, n);
    let deps = spec_json_deps(crates, loaded, n);
    let plan = units + deps;
    lemma_json_units_elems(crates, loaded, atoms0, kvs0, ext, macros, n);
    lemma_json_deps_elems(crates, loaded, n);
    assert(loaded.take(n) =~= loaded);
    assert forall|i: int| 0 <= i < plan.len() implies match #[trigger] plan[i] {
        StepView::AddUnit(u) => u.deps.len() == 0 && match u.display_name {
            Some(nm) => !nm.contains('-'),
            None => true,
        },
        StepView::TryDep { from, name, to } => 0 <= from < count_units(plan.take(i)) && 0 <= to
            < count_units(plan.take(i)) && !name.contains('-'),
    } by {
        if i < units.len() {
            assert(plan[i] == units[i]);
        } else {
            assert(plan[i] == deps[i - units.len()]);
            let dtail = deps.take(i - units.len());
            assert(plan.take(i) =~= units + dtail);
            lemma_count_units_concat(units, dtail);
            assert forall|k: int| 0 <= k < dtail.len() implies (#[trigger] dtail[k]) is TryDep by {
                assert(dtail[k] == deps[k]);
            }
            lemma_count_units_all_trydep(dtail);
            assert(count_units(plan.take(i)) == count_some(loaded));
        }
    }
}

/// Computes the build plan of a descriptor from the loader's and resolver's
/// answers: one unit insertion per accepted entry, in order, then one edge
/// attempt per declared dependency whose endpoints both produced a unit.
pub fn plan_json(
    project: &JsonProject,
    default_cfg: &CfgOptions,
    extern_source_roots: &Vec<(String, ExternSourceId)>,
    loaded: &Vec<Option<FileId>>,
    macros: &Vec<Vec<ProcMacroHandle>>,
) -> (steps: Vec<BuildStep>)
    requires
        project.wf(),
        loaded@.len() == project.crates@.len(),
        macros@.len() == project.crates@.len(),
    ensures
        steps_view(steps@) == spec_json_plan(
            project.crates@,
            loaded@,
            default_cfg.atoms_view(),
            default_cfg.kv_view(),
            ext_roots_view(extern_source_roots@),
            macros_view(macros@),
        ),
        plan_wf(steps_view(steps@)),
{
    let ghost crates = project.crates@;
    let ghost atoms0 = default_cfg.atoms_view();
    let ghost kvs0 = default_cfg.kv_view();
    let ghost ext = ext_roots_view(extern_source_roots@);
    let ghost macs_v = macros_view(macros@);
    let n = project.crates.len();
    let mut steps: Vec<BuildStep> = Vec::new();
    let mut i: usize = 0;
    while i < n
        invariant
            0 <= i <= n,
            n == crates.len(),
            crates == project.crates@,
            loaded@.len() == n,
            macros@.len() == n,
            atoms0 == default_cfg.atoms_view(),
            kvs0 == default_cfg.kv_view(),
            ext == ext_roots_view(extern_source_roots@),
            macs_v == macros_view(macros@),
            steps_view(steps@) == spec_json_units(crates, loaded@, atoms0, kvs0, ext, macs_v, i as int),
        decreases n - i,
    {
        let ghost prev = steps_view(steps@);
        if let Some(fid) = loaded[i] {
            let macs = clone_handles(&macros[i]);
            let data = build_json_unit(
                &project.crates[i],
                fid,
                default_cfg,
                extern_source_roots,
                macs,
            );
            steps.push(BuildStep::AddUnit(data));
            proof {
                assert(steps_view(steps@) =~= prev.push(
                    StepView::AddUnit(spec_json_unit(crates[i as int], fid, atoms0, kvs0, ext, macs_v[i as int])),
                ));
            }
        }
        proof {
            assert(steps_view(steps@) =~= spec_json_units(
                crates,
                loaded@,
                atoms0,
                kvs0,
                ext,
                macs_v,
                i + 1,
            ));
        }
        i += 1;
    }
    let ghost units_full = spec_json_units(crates, loaded@, atoms0, kvs0, ext, macs_v, n as int);
    let mut from_rank: usize = 0;
    proof {
        assert(steps_view(steps@) =~= units_full + spec_json_deps(crates, loaded@, 0));
    }
    let mut i: usize = 0;
    while i < n
        invariant
            0 <= i <= n,
            n == crates.len(),
            crates == project.crates@,
            project.wf(),
            loaded@.len() == n,
            from_rank == count_some(loaded@.take(i as int)),
            steps_view(steps@) == units_full + spec_json_deps(crates, loaded@, i as int),
        decreases n - i,
    {
        let ghost deps_prev = spec_json_deps(crates, loaded@, i as int);
        if loaded[i].is_some() {
            let ghost dl = crates[i as int].deps@;
            let m = project.crates[i].deps.len();
            let mut j: usize = 0;
            while j < m
                invariant
                    0 <= j <= m,
                    n == crates.len(),
                    crates == project.crates@,
                    project.wf(),
                    0 <= i < n,
                    loaded@.len() == n,
                    loaded@[i as int] is Some,
                    dl == crates[i as int].deps@,
                    m == dl.len(),
                    from_rank == count_some(loaded@.take(i as int)),
                    steps_view(steps@) == units_full + deps_prev + spec_json_dep_steps(
                        dl,
                        from_rank as int,
                        loaded@,
                        j as int,
                    ),
                decreases m - j,
            {
                let ghost prev = steps_view(steps@);
                let d_krate = project.crates[i].deps[j].krate;
                if d_krate < loaded.len() && loaded[d_krate].is_some() {
                    let to = rank_of(loaded, d_krate);
                    let name = match CrateName::new(project.crates[i].deps[j].name.as_str()) {
                        Ok(nm) => nm,
                        Err(_) => {
                            proof {
                                assert(!dl[j as int].name@.contains('-'));
                            }
                            vstd::pervasive::unreached()
                        },
                    };
                    steps.push(BuildStep::TryDep { from: from_rank, name, to });
                    proof {
                        assert(steps_view(steps@) =~= prev.push(
                            StepView::TryDep {
                                from: from_rank as int,
                                name: dl[j as int].name@,
                                to: unit_rank(loaded@, d_krate as int),
                            },
                        ));
                        assert(steps_view(steps@) =~= units_full + deps_prev
                            + spec_json_dep_steps(dl, from_rank as int, loaded@, j + 1));
                    }
                } else {
                    proof {
                        assert(spec_json_dep_steps(dl, from_rank as int, loaded@, j + 1)
                            =~= spec_json_dep_steps(dl, from_rank as int, loaded@, j as int));
                    }
                }
                j += 1;
            }
        }
        proof {
            lemma_count_some_take_step(loaded@, i as int);
            lemma_count_some_le(loaded@, i + 1);
            if loaded@[i as int] is Some {
                assert(spec_json_deps(crates, loaded@, i + 1) =~= deps_prev + spec_json_dep_steps(
                    crates[i as int].deps@,
                    unit_rank(loaded@, i as int),
                    loaded@,
                    crates[i as int].deps@.len() as int,
                ));
                assert(steps_view(steps@) =~= units_full + spec_json_deps(crates, loaded@, i + 1));
            } else {
                assert(spec_json_deps(crates, loaded@, i + 1) =~= deps_prev);
            }
        }
        if loaded[i].is_some() {
            from_rank += 1;
        }
        i += 1;
    }
    proof {
        assert(steps_view(steps@) == spec_json_plan(crates, loaded@, atoms0, kvs0, ext, macs_v));
        lemma_json_plan_wf(crates, loaded@, atoms0, kvs0, ext, macs_v);
    }
    steps
}

pub proof fn lemma_count_units_le(s: Seq<StepView>)
    ensures
        count_units(s) <= s.len(),
    decreases s.len(),
{
    if s.len() > 0 {
        lemma_count_units_le(s.drop_last());
    }
}

/// Appending a well-formed step keeps a plan well-formed.
pub proof fn lemma_plan_wf_push(s: Seq<StepView>, x: StepView)
    requires
        plan_wf(s),
        match x {
            StepView::AddUnit(u) => u.deps.len() == 0 && match u.display_name {
                Some(n) => !n.contains('-'),
                None => true,
            },
            StepView::TryDep { from, name, to } => 0 <= from < count_units(s) && 0 <= to
                < count_units(s) && !name.contains('-'),
        },
    ensures
        plan_wf(s.push(x)),
        count_units(s.push(x)) == count_units(s) + match x {
            StepView::AddUnit(_) => 1nat,
            StepView::TryDep { .. } => 0nat,
        },
{
    let s2 = s.push(x);
    assert(s2.drop_last() =~= s);
    assert forall|i: int| 0 <= i < s2.len() implies match #[trigger] s2[i] {
        StepView::AddUnit(u) => u.deps.len() == 0 && match u.display_name {
            Some(n) => !n.contains('-'),
            None => true,
        },
        StepView::TryDep { from, name, to } => 0 <= from < count_units(s2.take(i)) && 0 <= to
            < count_units(s2.take(i)) && !name.contains('-'),
    } by {
        assert(s2.take(i) =~= s.take(i));
        if i < s.len() {
            assert(s2[i] == s[i]);
        } else {
            assert(s2[i] == x);
            assert(s.take(i) =~= s);
        }
    }
}

/// The literal names wired by the builder are valid visibility names.
proof fn lemma_fixed_names_dash_free()
    ensures
        !"core"@.contains('-'),
        !"alloc"@.contains('-'),
        !"std"@.contains('-'),
        !"proc_macro"@.contains('-'),
{
    reveal_strlit("core");
    reveal_strlit("alloc");
    reveal_strlit("std");
    reveal_strlit("proc_macro");
    assert forall|j: int| 0 <= j < "core"@.len() implies "core"@[j] != '-' by {}
    assert forall|j: int| 0 <= j < "alloc"@.len() implies "alloc"@[j] != '-' by {}
    assert forall|j: int| 0 <= j < "std"@.len() implies "std"@[j] != '-' by {}
    assert forall|j: int| 0 <= j < "proc_macro"@.len() implies "proc_macro"@[j] != '-' by {}
}

/// The root-module paths of the standard-library roots.
pub open spec fn sysroot_root_paths(crates: Seq<SysrootCrateData>) -> Seq<Seq<char>> {
    Seq::new(crates.len(), |i: int| crates[i].root@)
}

/// The per-package loader answers, one list per package in target order.
pub open spec fn tls_view(tls: Seq<Vec<Option<FileId>>>) -> Seq<Seq<Option<FileId>>> {
    Seq::new(tls.len(), |i: int| tls[i]@)
}

/// The unit a standard-library root becomes: fixed edition, its own name,
/// the default flags with the test-mode atom removed, no environment, no
/// extern source, no macro handles.
pub open spec fn spec_sysroot_unit(
    c: SysrootCrateData,
    fid: FileId,
    atoms0: Seq<Seq<char>>,
    kvs0: Seq<(Seq<char>, Seq<char>)>,
) -> UnitView {
    UnitView {
        file_id: fid,
        edition: Edition::Edition2018,
        display_name: Some(c.name@),
        atoms: atoms0.filter(|x: Seq<char>| x != "test"@),
        kvs: kvs0,
        env: Seq::empty(),
        extern_paths: Seq::empty(),
        proc_macro: Seq::empty(),
        deps: Seq::empty(),
    }
}

/// The unit-insertion steps of the first `i` standard-library roots.
pub open spec fn spec_sysroot_units(
    crates: Seq<SysrootCrateData>,
    loaded: Seq<Option<FileId>>,
    atoms0: Seq<Seq<char>>,
    kvs0: Seq<(Seq<char>, Seq<char>)>,
    i: int,
) -> Seq<StepView>
    decreases i,
{
    if i <= 0 {
        Seq::empty()
    } else {
        spec_sysroot_units(crates, loaded, atoms0, kvs0, i - 1) + match loaded[i - 1] {
            Some(fid) => seq![StepView::AddUnit(spec_sysroot_unit(crates[i - 1], fid, atoms0, kvs0))],
            None => Seq::empty(),
        }
    }
}

/// The edge attempts of one root's first `j` declared dependencies.
pub open spec fn spec_sysroot_dep_steps(
    crates: Seq<SysrootCrateData>,
    loaded: Seq<Option<FileId>>,
    from_id: int,
    deps: Seq<usize>,
    j: int,
) -> Seq<StepView>
    decreases j,
{
    if j <= 0 {
        Seq::empty()
    } else {
        spec_sysroot_dep_steps(crates, loaded, from_id, deps, j - 1) + {
            let d = deps[j - 1] as int;
            if 0 <= d < loaded.len() && loaded[d] is Some {
                seq![
                    StepView::TryDep {
                        from: from_id,
                        name: crates[d].name@,
                        to: unit_rank(loaded, d),
                    },
                ]
            } else {
                Seq::empty()
            }
        }
    }
}

/// The edge attempts declared among the first `i` standard-library roots.
pub open spec fn spec_sysroot_deps(
    crates: Seq<SysrootCrateData>,
    loaded: Seq<Option<FileId>>,
    i: int,
) -> Seq<StepView>
    decreases i,
{
    if i <= 0 {
        Seq::empty()
    } else {
        spec_sysroot_deps(crates, loaded, i - 1) + if loaded[i - 1] is Some {
            spec_sysroot_dep_steps(
                crates,
                loaded,
                unit_rank(loaded, i - 1),
                crates[i - 1].deps@,
                crates[i - 1].deps@.len() as int,
            )
        } else {
            Seq::empty()
        }
    }
}

/// The unit identity of the standard-library root named `name`, when that
/// root exists and its root file was accepted.
pub open spec fn sys_unit_id(
    crates: Seq<SysrootCrateData>,
    loaded: Seq<Option<FileId>>,
    name: Seq<char>,
) -> Option<int> {
    match spec_find_by_name(crates, name) {
        Some(k) => if 0 <= k < loaded.len() && loaded[k] is Some {
            Some(unit_rank(loaded, k))
        } else {
            None
        },
        None => None,
    }
}

/// Units produced by the packages before package `p`, in package-major order.
pub open spec fn units_before_pkg(tls: Seq<Seq<Option<FileId>>>, p: int) -> nat
    decreases p,
{
    if p <= 0 {
        0
    } else {
        units_before_pkg(tls, p - 1) + count_some(tls[p - 1])
    }
}

/// The unit a package target becomes: the package's edition and normalized
/// name, the default flags plus one `feature` flag per declared feature, the
/// environment overlay carrying the output directory under the conventional
/// key, the extern-source entry when the output directory is a known
/// generated-source root, and the package's resolved expansion handles.
pub open spec fn spec_cargo_unit(
    pkg: PackageData,
    fid: FileId,
    atoms0: Seq<Seq<char>>,
    kvs0: Seq<(Seq<char>, Seq<char>)>,
    ext: Seq<(Seq<char>, ExternSourceId)>,
    macs: Seq<ProcMacroHandle>,
) -> UnitView {
    UnitView {
        file_id: fid,
        edition: pkg.edition,
        display_name: Some(spec_normalize_dashes(pkg.name@)),
        atoms: atoms0,
        kvs: crate::cfg::spec_insert_features(kvs0, pkg.features.deep_view()),
        env: match pkg.out_dir {
            Some(d) => seq![("OUT_DIR"@, d@)],
            None => Seq::empty(),
        },
        extern_paths: match pkg.out_dir {
            Some(d) => match spec_ext_lookup(ext, d@) {
                Some(id) => seq![(d@, id)],
                None => Seq::empty(),
            },
            None => Seq::empty(),
        },
        proc_macro: macs,
        deps: Seq::empty(),
    }
}

/// Index of the package's library target: the last target flagged library
/// whose root file was accepted, among the first `t` targets.
pub open spec fn spec_lib_target(
    targets: Seq<TargetData>,
    loaded_p: Seq<Option<FileId>>,
    t: int,
) -> Option<int>
    decreases t,
{
    if t <= 0 {
        None
    } else if loaded_p[t - 1] is Some && targets[t - 1].kind == TargetKind::Lib {
        Some(t - 1)
    } else {
        spec_lib_target(targets, loaded_p, t - 1)
    }
}

/// The edges one unit of a package receives: the package-internal edge to
/// the library unit (unless the unit is the library itself), then edges to
/// the core, alloc and std roots, in that fixed order, skipping any absent
/// root. The order matters: later edges shadow earlier ones downstream.
pub open spec fn spec_pkg_edge_block(
    from: int,
    lib: Option<(int, Seq<char>)>,
    core_id: Option<int>,
    alloc_id: Option<int>,
    std_id: Option<int>,
) -> Seq<StepView> {
    (match lib {
        Some(l) => if from != l.0 {
            seq![StepView::TryDep { from, name: spec_normalize_dashes(l.1), to: l.0 }]
        } else {
            Seq::empty()
        },
        None => Seq::empty(),
    }) + (match core_id {
        Some(c) => seq![StepView::TryDep { from, name: "core"@, to: c }],
        None => Seq::empty(),
    }) + (match alloc_id {
        Some(c) => seq![StepView::TryDep { from, name: "alloc"@, to: c }],
        None => Seq::empty(),
    }) + (match std_id {
        Some(c) => seq![StepView::TryDep { from, name: "std"@, to: c }],
        None => Seq::empty(),
    })
}

/// The identity of a package's library unit, if it has one, paired with the
/// package's raw name: intra-package edges are named after the package.
pub open spec fn pkg_lib_info(
    pkg: PackageData,
    loaded_p: Seq<Option<FileId>>,
    base: int,
) -> Option<(int, Seq<char>)> {
    match spec_lib_target(pkg.targets@, loaded_p, pkg.targets@.len() as int) {
        Some(lt) => Some((base + unit_rank(loaded_p, lt), pkg.name@)),
        None => None,
    }
}

/// The unit insertions of a package's first `t` targets, each followed by
/// its implicit edge to the macro-support root when the target is itself a
/// macro plugin.
pub open spec fn spec_pkg_target_steps(
    pkg: PackageData,
    loaded_p: Seq<Option<FileId>>,
    base: int,
    pm: Option<int>,
    atoms0: Seq<Seq<char>>,
    kvs0: Seq<(Seq<char>, Seq<char>)>,
    ext: Seq<(Seq<char>, ExternSourceId)>,
    macs: Seq<ProcMacroHandle>,
    t: int,
) -> Seq<StepView>
    decreases t,
{
    if t <= 0 {
        Seq::empty()
    } else {
        spec_pkg_target_steps(pkg, loaded_p, base, pm, atoms0, kvs0, ext, macs, t - 1)
            + match loaded_p[t - 1] {
            Some(fid) => seq![StepView::AddUnit(spec_cargo_unit(pkg, fid, atoms0, kvs0, ext, macs))]
                + (if pkg.targets@[t - 1].is_proc_macro && pm is Some {
                seq![
                    StepView::TryDep {
                        from: base + unit_rank(loaded_p, t - 1),
                        name: "proc_macro"@,
                        to: pm.unwrap(),
                    },
                ]
            } else {
                Seq::empty()
            }),
            None => Seq::empty(),
        }
    }
}

/// The per-unit edge blocks of a package's first `t` targets.
pub open spec fn spec_pkg_edges(
    pkg: PackageData,
    loaded_p: Seq<Option<FileId>>,
    base: int,
    core_id: Option<int>,
    alloc_id: Option<int>,
    std_id: Option<int>,
    t: int,
) -> Seq<StepView>
    decreases t,
{
    if t <= 0 {
        Seq::empty()
    } else {
        spec_pkg_edges(pkg, loaded_p, base, core_id, alloc_id, std_id, t - 1) + if loaded_p[t
            - 1] is Some {
            spec_pkg_edge_block(
                base + unit_rank(loaded_p, t - 1),
                pkg_lib_info(pkg, loaded_p, base),
                core_id,
                alloc_id,
                std_id,
            )
        } else {
            Seq::empty()
        }
    }
}

/// The per-package phase over the first `p` packages: each package's units
/// and implicit macro-support edges, then its library and standard-library
/// edges.
#[verifier::opaque]
pub open spec fn spec_cargo_pkg_steps(
    pkgs: Seq<PackageData>,
    tls: Seq<Seq<Option<FileId>>>,
    macs: Seq<Seq<ProcMacroHandle>>,
    s_count: int,
    pm: Option<int>,
    core_id: Option<int>,
    alloc_id: Option<int>,
    std_id: Option<int>,
    atoms0: Seq<Seq<char>>,
    kvs0: Seq<(Seq<char>, Seq<char>)>,
    ext: Seq<(Seq<char>, ExternSourceId)>,
    p: int,
) -> Seq<StepView>
    decreases p,
{
    if p <= 0 {
        Seq::empty()
    } else {
        let base = s_count + units_before_pkg(tls, p - 1);
        spec_cargo_pkg_steps(pkgs, tls, macs, s_count, pm, core_id, alloc_id, std_id, atoms0, kvs0, ext, p - 1)
            + spec_pkg_target_steps(
            pkgs[p - 1],
            tls[p - 1],
            base,
            pm,
            atoms0,
            kvs0,
            ext,
            macs[p - 1],
            tls[p - 1].len() as int,
        ) + spec_pkg_edges(
            pkgs[p - 1],
            tls[p - 1],
            base,
            core_id,
            alloc_id,
            std_id,
            tls[p - 1].len() as int,
        )
    }
}

/// The identity of package `q`'s library unit, if it has one.
pub open spec fn lib_unit_of(
    pkgs: Seq<PackageData>,
    tls: Seq<Seq<Option<FileId>>>,
    s_count: int,
    q: int,
) -> Option<int> {
    match spec_lib_target(pkgs[q].targets@, tls[q], tls[q].len() as int) {
        Some(lt) => Some(s_count + units_before_pkg(tls, q) + unit_rank(tls[q], lt)),
        None => None,
    }
}

/// One edge named `name` from every unit of a package to `to`.
pub open spec fn spec_fan_out(
    loaded_p: Seq<Option<FileId>>,
    base: int,
    name: Seq<char>,
    to: int,
    t: int,
) -> Seq<StepView>
    decreases t,
{
    if t <= 0 {
        Seq::empty()
    } else {
        spec_fan_out(loaded_p, base, name, to, t - 1) + if loaded_p[t - 1] is Some {
            seq![StepView::TryDep { from: base + unit_rank(loaded_p, t - 1), name, to }]
        } else {
            Seq::empty()
        }
    }
}

/// The cross-package edges of one package's first `j` declared dependencies:
/// a dependency on a package with no library unit is silently inert.
pub open spec fn spec_cross_dep_steps(
    pkgs: Seq<PackageData>,
    tls: Seq<Seq<Option<FileId>>>,
    s_count: int,
    p: int,
    deps: Seq<crate::cargo_workspace::PackageDependency>,
    j: int,
) -> Seq<StepView>
    decreases j,
{
    if j <= 0 {
        Seq::empty()
    } else {
        spec_cross_dep_steps(pkgs, tls, s_count, p, deps, j - 1) + {
            let d = deps[j - 1];
            match lib_unit_of(pkgs, tls, s_count, d.pkg as int) {
                Some(lu) => spec_fan_out(
                    tls[p],
                    s_count + units_before_pkg(tls, p),
                    d.name@,
                    lu,
                    tls[p].len() as int,
                ),
                None => Seq::empty(),
            }
        }
    }
}

/// The cross-package phase over the first `p` packages.
pub open spec fn spec_cross_deps(
    pkgs: Seq<PackageData>,
    tls: Seq<Seq<Option<FileId>>>,
    s_count: int,
    p: int,
) -> Seq<StepView>
    decreases p,
{
    if p <= 0 {
        Seq::empty()
    } else {
        spec_cross_deps(pkgs, tls, s_count, p - 1) + spec_cross_dep_steps(
            pkgs,
            tls,
            s_count,
            p - 1,
            pkgs[p - 1].dependencies@,
            pkgs[p - 1].dependencies@.len() as int,
        )
    }
}

/// The whole build plan of a build-tool workspace: the standard-library
/// units, their declared inter-dependencies, then per package its target
/// units with implicit edges, and finally the declared package-to-package
/// edges, each ending at the provider's library unit.
pub open spec fn spec_cargo_plan(
    cargo: CargoWorkspace,
    sysroot: Sysroot,
    sys_loaded: Seq<Option<FileId>>,
    tls: Seq<Seq<Option<FileId>>>,
    macs: Seq<Seq<ProcMacroHandle>>,
    atoms0: Seq<Seq<char>>,
    kvs0: Seq<(Seq<char>, Seq<char>)>,
    ext: Seq<(Seq<char>, ExternSourceId)>,
) -> Seq<StepView> {
    let s_count = count_some(sys_loaded) as int;
    let pm = sys_unit_id(sysroot.crates@, sys_loaded, "proc_macro"@);
    let core_id = sys_unit_id(sysroot.crates@, sys_loaded, "core"@);
    let alloc_id = sys_unit_id(sysroot.crates@, sys_loaded, "alloc"@);
    let std_id = sys_unit_id(sysroot.crates@, sys_loaded, "std"@);
    spec_sysroot_units(sysroot.crates@, sys_loaded, atoms0, kvs0, sysroot.crates@.len() as int)
        + spec_sysroot_deps(sysroot.crates@, sys_loaded, sysroot.crates@.len() as int)
        + spec_cargo_pkg_steps(
        cargo.packages@,
        tls,
        macs,
        s_count,
        pm,
        core_id,
        alloc_id,
        std_id,
        atoms0,
        kvs0,
        ext,
        cargo.packages@.len() as int,
    ) + spec_cross_deps(cargo.packages@, tls, s_count, cargo.packages@.len() as int)
}

/// Builds the unit of one standard-library root.
fn build_sysroot_unit(c: &SysrootCrateData, fid: FileId, default_cfg: &CfgOptions) -> (r: CrateData)
    requires
        !c.name@.contains('-'),
    ensures
        r@ == spec_sysroot_unit(*c, fid, default_cfg.atoms_view(), default_cfg.kv_view()),
{
    let mut cfg_options = default_cfg.duplicate();
    cfg_options.remove_atom("test");
    let crate_name = match CrateName::new(c.name.as_str()) {
        Ok(nm) => nm,
        Err(_) => vstd::pervasive::unreached(),
    };
    let r = CrateData {
        file_id: fid,
        edition: Edition::Edition2018,
        display_name: Some(crate_name),
        cfg_options,
        env: Env::new(),
        extern_source: ExternSource::new(),
        proc_macro: Vec::new(),
        dependencies: Vec::new(),
    };
    proof {
        let u = spec_sysroot_unit(*c, fid, default_cfg.atoms_view(), default_cfg.kv_view());
        assert(r@.deps =~= u.deps);
        assert(r@.proc_macro =~= u.proc_macro);
        assert(r@ =~= u);
    }
    r
}

/// Builds the unit of one package target.
fn build_cargo_unit(
    pkg: &PackageData,
    fid: FileId,
    default_cfg: &CfgOptions,
    extern_source_roots: &Vec<(String, ExternSourceId)>,
    macs: Vec<ProcMacroHandle>,
) -> (r: CrateData)
    ensures
        r@ == spec_cargo_unit(
            *pkg,
            fid,
            default_cfg.atoms_view(),
            default_cfg.kv_view(),
            ext_roots_view(extern_source_roots@),
            macs@,
        ),
{
    let mut cfg_options = default_cfg.duplicate();
    cfg_options.insert_features(&pkg.features);
    let mut env = Env::new();
    let mut extern_source = ExternSource::new();
    if let Some(d) = &pkg.out_dir {
        env.set("OUT_DIR", d.clone());
        if let Some(id) = ext_lookup(extern_source_roots, d) {
            extern_source.set_extern_path(d.as_str(), id);
        }
    }
    let r = CrateData {
        file_id: fid,
        edition: pkg.edition,
        display_name: Some(CrateName::normalize_dashes(pkg.name.as_str())),
        cfg_options,
        env,
        extern_source,
        proc_macro: macs,
        dependencies: Vec::new(),
    };
    proof {
        let u = spec_cargo_unit(
            *pkg,
            fid,
            default_cfg.atoms_view(),
            default_cfg.kv_view(),
            ext_roots_view(extern_source_roots@),
            macs@,
        );
        assert(r@.env =~= u.env);
        assert(r@.extern_paths =~= u.extern_paths);
        assert(r@.deps =~= u.deps);
        assert(r@ =~= u);
    }
    r
}

/// Finds the package's library target: the last library target whose root
/// file was accepted.
fn pkg_lib_target(targets: &Vec<TargetData>, loaded_p: &Vec<Option<FileId>>) -> (r: Option<usize>)
    requires
        targets@.len() == loaded_p@.len(),
    ensures
        match r {
            Some(t) => spec_lib_target(targets@, loaded_p@, targets@.len() as int) == Some(t as int)
                && t < targets@.len() && loaded_p@[t as int] is Some,
            None => spec_lib_target(targets@, loaded_p@, targets@.len() as int) is None,
        },
{
    let n = targets.len();
    let mut t: usize = n;
    while t > 0
        invariant
            0 <= t <= n,
            n == targets@.len(),
            n == loaded_p@.len(),
            spec_lib_target(targets@, loaded_p@, n as int) == spec_lib_target(
                targets@,
                loaded_p@,
                t as int,
            ),
        decreases t,
    {
        t -= 1;
        if loaded_p[t].is_some() && targets[t].kind == TargetKind::Lib {
            return Some(t);
        }
    }
    None
}

/// The root paths of a package's targets.
pub open spec fn pkg_target_paths(targets: Seq<TargetData>) -> Seq<Seq<char>> {
    Seq::new(targets.len(), |i: int| targets[i].root@)
}

/// The missing-root diagnostics of the first `p` packages.
pub open spec fn spec_cargo_missing(
    pkgs: Seq<PackageData>,
    tls: Seq<Seq<Option<FileId>>>,
    p: int,
) -> Seq<DiagView>
    decreases p,
{
    if p <= 0 {
        Seq::empty()
    } else {
        spec_cargo_missing(pkgs, tls, p - 1) + spec_missing_diags(
            pkg_target_paths(pkgs[p - 1].targets@),
            tls[p - 1],
            tls[p - 1].len() as int,
        )
    }
}

/// Consults the loader once per standard-library root and once per package
/// target, in order, and the macro resolver once per package that declares a
/// plugin path. Returns the loader's answers and one missing-root diagnostic
/// per rejected root.
pub fn load_cargo_roots<L: FileLoader, M: MacroResolver>(
    cargo: &CargoWorkspace,
    sysroot: &Sysroot,
    proc_macro_client: &M,
    load: &mut L,
) -> (r: (Vec<Option<FileId>>, Vec<Vec<Option<FileId>>>, Vec<Vec<ProcMacroHandle>>, Vec<
    BuildDiagnostic,
>))
    ensures
        r.0@.len() == sysroot.crates@.len(),
        r.1@.len() == cargo.packages@.len(),
        forall|p: int|
            0 <= p < cargo.packages@.len() ==> (#[trigger] r.1@[p])@.len()
                == cargo.packages@[p].targets@.len(),
        r.2@.len() == cargo.packages@.len(),
        forall|p: int|
            0 <= p < cargo.packages@.len() && (#[trigger] cargo.packages@[p]).proc_macro_dylib_path
                is None ==> macros_view(r.2@)[p] == Seq::<ProcMacroHandle>::empty(),
        diags_view(r.3@) == spec_missing_diags(
            sysroot_root_paths(sysroot.crates@),
            r.0@,
            sysroot.crates@.len() as int,
        ) + spec_cargo_missing(cargo.packages@, tls_view(r.1@), cargo.packages@.len() as int),
{
    let ghost sys_paths = sysroot_root_paths(sysroot.crates@);
    let mut sys_loaded: Vec<Option<FileId>> = Vec::new();
    let mut diags: Vec<BuildDiagnostic> = Vec::new();
    let mut i: usize = 0;
    while i < sysroot.crates.len()
        invariant
            0 <= i <= sysroot.crates@.len(),
            sys_paths == sysroot_root_paths(sysroot.crates@),
            sys_loaded@.len() == i,
            diags_view(diags@) == spec_missing_diags(sys_paths, sys_loaded@, i as int),
        decreases sysroot.crates@.len() - i,
    {
        let ghost prev_loaded = sys_loaded@;
        let ghost prev_diags = diags_view(diags@);
        let fid = load.load(&sysroot.crates[i].root);
        sys_loaded.push(fid);
        if fid.is_none() {
            diags.push(
                BuildDiagnostic::MissingTargetRoot { path: sysroot.crates[i].root.clone() },
            );
        }
        proof {
            assert(sys_loaded@ =~= prev_loaded.push(fid));
            lemma_missing_diags_grow(sys_paths, prev_loaded, sys_loaded@, i as int);
            if fid is None {
                assert(diags_view(diags@) =~= prev_diags.push(
                    DiagView::MissingRoot { path: sys_paths[i as int] },
                ));
            }
            assert(diags_view(diags@) == spec_missing_diags(sys_paths, sys_loaded@, i + 1));
        }
        i += 1;
    }
    let ghost sys_diags = diags_view(diags@);
    let mut tls: Vec<Vec<Option<FileId>>> = Vec::new();
    let mut macros: Vec<Vec<ProcMacroHandle>> = Vec::new();
    let mut p: usize = 0;
    while p < cargo.packages.len()
        invariant
            0 <= p <= cargo.packages@.len(),
            tls@.len() == p,
            macros@.len() == p,
            forall|q: int|
                0 <= q < p ==> (#[trigger] tls@[q])@.len() == cargo.packages@[q].targets@.len(),
            forall|q: int|
                0 <= q < p && (#[trigger] cargo.packages@[q]).proc_macro_dylib_path is None
                    ==> macros_view(macros@)[q] == Seq::<ProcMacroHandle>::empty(),
            diags_view(diags@) == sys_diags + spec_cargo_missing(
                cargo.packages@,
                tls_view(tls@),
                p as int,
            ),
        decreases cargo.packages@.len() - p,
    {
        let ghost prev_tls = tls_view(tls@);
        let pkg = &cargo.packages[p];
        let ghost tgt_paths = pkg_target_paths(pkg.targets@);
        let mut loaded_p: Vec<Option<FileId>> = Vec::new();
        let ghost diags_before = diags_view(diags@);
        let mut t: usize = 0;
        while t < pkg.targets.len()
            invariant
                0 <= t <= pkg.targets@.len(),
                tgt_paths == pkg_target_paths(pkg.targets@),
                loaded_p@.len() == t,
                diags_view(diags@) == diags_before + spec_missing_diags(
                    tgt_paths,
                    loaded_p@,
                    t as int,
                ),
            decreases pkg.targets@.len() - t,
        {
            let ghost prev_loaded = loaded_p@;
            let ghost prev_diags = diags_view(diags@);
            let fid = load.load(&pkg.targets[t].root);
            loaded_p.push(fid);
            if fid.is_none() {
                diags.push(
                    BuildDiagnostic::MissingTargetRoot { path: pkg.targets[t].root.clone() },
                );
            }
            proof {
                assert(loaded_p@ =~= prev_loaded.push(fid));
                lemma_missing_diags_grow(tgt_paths, prev_loaded, loaded_p@, t as int);
                if fid is None {
                    assert(diags_view(diags@) =~= prev_diags.push(
                        DiagView::MissingRoot { path: tgt_paths[t as int] },
                    ));
                    assert(diags_view(diags@) =~= diags_before + spec_missing_diags(
                        tgt_paths,
                        loaded_p@,
                        t + 1,
                    ));
                } else {
                    assert(diags_view(diags@) =~= diags_before + spec_missing_diags(
                        tgt_paths,
                        loaded_p@,
                        t + 1,
                    ));
                }
            }
            t += 1;
        }
        let mut macs: Vec<ProcMacroHandle> = Vec::new();
        if let Some(dylib) = &pkg.proc_macro_dylib_path {
            macs = proc_macro_client.by_dylib_path(dylib);
        }
        tls.push(loaded_p);
        macros.push(macs);
        proof {
            if cargo.packages@[p as int].proc_macro_dylib_path is None {
                assert(macros_view(macros@)[p as int] =~= Seq::<ProcMacroHandle>::empty());
            }
            assert(tls_view(tls@) =~= prev_tls.push(tls@[p as int]@));
            assert forall|q: int| 0 <= q < p + 1 implies spec_cargo_missing(
                cargo.packages@,
                tls_view(tls@),
                q,
            ) == spec_cargo_missing(cargo.packages@, prev_tls, q) by {
                lemma_cargo_missing_grow(cargo.packages@, prev_tls, tls_view(tls@), q);
            }
            assert(diags_view(diags@) =~= sys_diags + spec_cargo_missing(
                cargo.packages@,
                tls_view(tls@),
                p + 1,
            ));
        }
        p += 1;
    }
    (sys_loaded, tls, macros, diags)
}

/// Extending the per-package table beyond `p` does not change the first `p`
/// packages' diagnostics.
proof fn lemma_cargo_missing_grow(
    pkgs: Seq<PackageData>,
    prev: Seq<Seq<Option<FileId>>>,
    cur: Seq<Seq<Option<FileId>>>,
    p: int,
)
    requires
        0 <= p <= prev.len(),
        prev.len() <= cur.len(),
        forall|j: int| 0 <= j < prev.len() ==> prev[j] == cur[j],
    ensures
        spec_cargo_missing(pkgs, prev, p) == spec_cargo_missing(pkgs, cur, p),
    decreases p,
{
    if p > 0 {
        lemma_cargo_missing_grow(pkgs, prev, cur, p - 1);
    }
}

/// Conversion of an exec unit identity to its model.
pub open spec fn opt_id(o: Option<usize>) -> Option<int> {
    match o {
        Some(v) => Some(v as int),
        None => None,
    }
}

pub proof fn lemma_units_before_mono(tls: Seq<Seq<Option<FileId>>>, i: int, j: int)
    requires
        0 <= i <= j <= tls.len(),
    ensures
        units_before_pkg(tls, i) <= units_before_pkg(tls, j),
    decreases j - i,
{
    if i < j {
        lemma_units_before_mono(tls, i, j - 1);
    }
}

/// Plans the standard-library units: one per accepted root, in order.
#[verifier::spinoff_prover]
fn plan_sysroot_units(
    sysroot: &Sysroot,
    default_cfg: &CfgOptions,
    sys_loaded: &Vec<Option<FileId>>,
) -> (steps: Vec<BuildStep>)
    requires
        sysroot.wf(),
        sys_loaded@.len() == sysroot.crates@.len(),
    ensures
        steps_view(steps@) == spec_sysroot_units(
            sysroot.crates@,
            sys_loaded@,
            default_cfg.atoms_view(),
            default_cfg.kv_view(),
            sysroot.crates@.len() as int,
        ),
        plan_wf(steps_view(steps@)),
        count_units(steps_view(steps@)) == count_some(sys_loaded@),
{
    let ghost scrates = sysroot.crates@;
    let ghost slv = sys_loaded@;
    let ghost atoms0 = default_cfg.atoms_view();
    let ghost kvs0 = default_cfg.kv_view();
    let n = sysroot.crates.len();
    let mut steps: Vec<BuildStep> = Vec::new();
    let mut i: usize = 0;
    proof {
        assert(steps_view(steps@) =~= spec_sysroot_units(scrates, slv, atoms0, kvs0, 0));
    }
    while i < n
        invariant
            0 <= i <= n,
            n == scrates.len(),
            scrates == sysroot.crates@,
            slv == sys_loaded@,
            slv.len() == n,
            sysroot.wf(),
            atoms0 == default_cfg.atoms_view(),
            kvs0 == default_cfg.kv_view(),
            steps_view(steps@) == spec_sysroot_units(scrates, slv, atoms0, kvs0, i as int),
            plan_wf(steps_view(steps@)),
            count_units(steps_view(steps@)) == count_some(slv.take(i as int)),
        decreases n - i,
    {
        let ghost prev = steps_view(steps@);
        proof {
            lemma_count_some_take_step(slv, i as int);
        }
        if let Some(fid) = sys_loaded[i] {
            assert(!scrates[i as int].name@.contains('-'));
            let data = build_sysroot_unit(&sysroot.crates[i], fid, default_cfg);
            let ghost u = data@;
            proof {
                lemma_plan_wf_push(prev, StepView::AddUnit(u));
            }
            steps.push(BuildStep::AddUnit(data));
            proof {
                assert(steps_view(steps@) =~= prev.push(StepView::AddUnit(u)));
            }
        }
        proof {
            assert(steps_view(steps@) =~= spec_sysroot_units(scrates, slv, atoms0, kvs0, i + 1));
        }
        i += 1;
    }
    proof {
        assert(slv.take(n as int) =~= slv);
    }
    steps
}

/// Appends the standard-library set's declared inter-dependencies to a plan
/// that already holds exactly the standard-library units.
#[verifier::spinoff_prover]
fn plan_sysroot_deps(
    sysroot: &Sysroot,
    sys_loaded: &Vec<Option<FileId>>,
    steps: Vec<BuildStep>,
) -> (r: Vec<BuildStep>)
    requires
        sysroot.wf(),
        sys_loaded@.len() == sysroot.crates@.len(),
        plan_wf(steps_view(steps@)),
        count_units(steps_view(steps@)) == count_some(sys_loaded@),
    ensures
        steps_view(r@) == steps_view(steps@) + spec_sysroot_deps(
            sysroot.crates@,
            sys_loaded@,
            sysroot.crates@.len() as int,
        ),
        plan_wf(steps_view(r@)),
        count_units(steps_view(r@)) == count_some(sys_loaded@),
{
    let ghost scrates = sysroot.crates@;
    let ghost slv = sys_loaded@;
    let ghost head = steps_view(steps@);
    let ghost s_count = count_some(slv);
    let n = sysroot.crates.len();
    let mut steps = steps;
    let mut from_rank: usize = 0;
    let mut k: usize = 0;
    proof {
        assert(steps_view(steps@) =~= head + spec_sysroot_deps(scrates, slv, 0));
    }
    while k < n
        invariant
            0 <= k <= n,
            n == scrates.len(),
            scrates == sysroot.crates@,
            slv == sys_loaded@,
            slv.len() == n,
            sysroot.wf(),
            from_rank == count_some(slv.take(k as int)),
            steps_view(steps@) == head + spec_sysroot_deps(scrates, slv, k as int),
            plan_wf(steps_view(steps@)),
            count_units(steps_view(steps@)) == s_count,
        decreases n - k,
    {
        let ghost deps_prev = spec_sysroot_deps(scrates, slv, k as int);
        if sys_loaded[k].is_some() {
            proof {
                lemma_rank_lt(slv, k as int);
            }
            let ghost dl = scrates[k as int].deps@;
            let m = sysroot.crates[k].deps.len();
            let mut j: usize = 0;
            while j < m
                invariant
                    0 <= j <= m,
                    n == scrates.len(),
                    scrates == sysroot.crates@,
                    slv == sys_loaded@,
                    slv.len() == n,
                    sysroot.wf(),
                    0 <= k < n,
                    slv[k as int] is Some,
                    dl == scrates[k as int].deps@,
                    m == dl.len(),
                    from_rank == count_some(slv.take(k as int)),
                    from_rank < s_count,
                    steps_view(steps@) == head + deps_prev + spec_sysroot_dep_steps(
                        scrates,
                        slv,
                        from_rank as int,
                        dl,
                        j as int,
                    ),
                    plan_wf(steps_view(steps@)),
                    count_units(steps_view(steps@)) == s_count,
                decreases m - j,
            {
                let ghost prev = steps_view(steps@);
                let d = sysroot.crates[k].deps[j];
                assert(d < n);
                if sys_loaded[d].is_some() {
                    let to = rank_of(sys_loaded, d);
                    proof {
                        lemma_rank_lt(slv, d as int);
                    }
                    assert(!scrates[d as int].name@.contains('-'));
                    let name = match CrateName::new(sysroot.crates[d].name.as_str()) {
                        Ok(nm) => nm,
                        Err(_) => vstd::pervasive::unreached(),
                    };
                    let ghost x = StepView::TryDep {
                        from: from_rank as int,
                        name: scrates[d as int].name@,
                        to: unit_rank(slv, d as int),
                    };
                    proof {
                        lemma_plan_wf_push(prev, x);
                    }
                    steps.push(BuildStep::TryDep { from: from_rank, name, to });
                    proof {
                        assert(steps_view(steps@) =~= prev.push(x));
                        assert(steps_view(steps@) =~= head + deps_prev + spec_sysroot_dep_steps(
                            scrates,
                            slv,
                            from_rank as int,
                            dl,
                            j + 1,
                        ));
                    }
                } else {
                    proof {
                        assert(spec_sysroot_dep_steps(scrates, slv, from_rank as int, dl, j + 1)
                            =~= spec_sysroot_dep_steps(
                            scrates,
                            slv,
                            from_rank as int,
                            dl,
                            j as int,
                        ));
                    }
                }
                j += 1;
            }
        }
        proof {
            lemma_count_some_take_step(slv, k as int);
            lemma_count_some_le(slv, k + 1);
            if slv[k as int] is Some {
                assert(spec_sysroot_deps(scrates, slv, k + 1) =~= deps_prev
                    + spec_sysroot_dep_steps(
                    scrates,
                    slv,
                    unit_rank(slv, k as int),
                    scrates[k as int].deps@,
                    scrates[k as int].deps@.len() as int,
                ));
                assert(steps_view(steps@) =~= head + spec_sysroot_deps(scrates, slv, k + 1));
            } else {
                assert(spec_sysroot_deps(scrates, slv, k + 1) =~= deps_prev);
            }
        }
        if sys_loaded[k].is_some() {
            from_rank += 1;
        }
        k += 1;
    }
    steps
}

/// Appends one unit per accepted target of one package, each macro-plugin
/// target followed by its implicit edge to the macro-support root.
#[verifier::spinoff_prover]
#[verifier::rlimit(100)]
fn plan_pkg_targets(
    pkg: &PackageData,
    default_cfg: &CfgOptions,
    extern_source_roots: &Vec<(String, ExternSourceId)>,
    tls_p: &Vec<Option<FileId>>,
    macros_p: &Vec<ProcMacroHandle>,
    base: usize,
    pm_id: Option<usize>,
    steps: Vec<BuildStep>,
) -> (r: Vec<BuildStep>)
    requires
        tls_p@.len() == pkg.targets@.len(),
        plan_wf(steps_view(steps@)),
        count_units(steps_view(steps@)) == base,
        pm_id matches Some(v) ==> v < base,
    ensures
        steps_view(r@) == steps_view(steps@) + spec_pkg_target_steps(
            *pkg,
            tls_p@,
            base as int,
            opt_id(pm_id),
            default_cfg.atoms_view(),
            default_cfg.kv_view(),
            ext_roots_view(extern_source_roots@),
            macros_p@,
            tls_p@.len() as int,
        ),
        plan_wf(steps_view(r@)),
        count_units(steps_view(r@)) == base + count_some(tls_p@),
{
    let ghost lp = tls_p@;
    let ghost atoms0 = default_cfg.atoms_view();
    let ghost kvs0 = default_cfg.kv_view();
    let ghost ext = ext_roots_view(extern_source_roots@);
    let ghost pm_s = opt_id(pm_id);
    let ghost head = steps_view(steps@);
    let nt = tls_p.len();
    let mut steps = steps;
    let mut next_id: usize = base;
    let mut t: usize = 0;
    proof {
        assert(steps_view(steps@) =~= head + spec_pkg_target_steps(
            *pkg, lp, base as int, pm_s, atoms0, kvs0, ext, macros_p@, 0,
        ));
    }
    while t < nt
        invariant
            0 <= t <= nt,
            lp == tls_p@,
            lp.len() == nt,
            nt == pkg.targets@.len(),
            atoms0 == default_cfg.atoms_view(),
            kvs0 == default_cfg.kv_view(),
            ext == ext_roots_view(extern_source_roots@),
            pm_s == opt_id(pm_id),
            pm_id matches Some(v) ==> v < base,
            steps_view(steps@) == head + spec_pkg_target_steps(
                *pkg, lp, base as int, pm_s, atoms0, kvs0, ext, macros_p@, t as int,
            ),
            plan_wf(steps_view(steps@)),
            count_units(steps_view(steps@)) == next_id,
            next_id == base + count_some(lp.take(t as int)),
        decreases nt - t,
    {
        let ghost prev = steps_view(steps@);
        proof {
            lemma_count_some_take_step(lp, t as int);
        }
        if let Some(fid) = tls_p[t] {
            let macs = clone_handles(macros_p);
            let data = build_cargo_unit(pkg, fid, default_cfg, extern_source_roots, macs);
            let ghost u = data@;
            proof {
                lemma_plan_wf_push(prev, StepView::AddUnit(u));
            }
            steps.push(BuildStep::AddUnit(data));
            proof {
                assert(steps_view(steps@) =~= prev.push(StepView::AddUnit(u)));
            }
            if pkg.targets[t].is_proc_macro {
                if let Some(pm) = pm_id {
                    proof {
                        lemma_fixed_names_dash_free();
                    }
                    let name = match CrateName::new("proc_macro") {
                        Ok(nm) => nm,
                        Err(_) => vstd::pervasive::unreached(),
                    };
                    let ghost x = StepView::TryDep {
                        from: next_id as int,
                        name: "proc_macro"@,
                        to: pm as int,
                    };
                    proof {
                        lemma_plan_wf_push(steps_view(steps@), x);
                    }
                    steps.push(BuildStep::TryDep { from: next_id, name, to: pm });
                    proof {
                        assert(steps_view(steps@) =~= prev.push(StepView::AddUnit(u)).push(x));
                    }
                }
            }
            proof {
                let tail = seq![StepView::AddUnit(spec_cargo_unit(*pkg, fid, atoms0, kvs0, ext, macros_p@))]
                    + (if pkg.targets@[t as int].is_proc_macro && pm_s is Some {
                    seq![
                        StepView::TryDep {
                            from: base + unit_rank(lp, t as int),
                            name: "proc_macro"@,
                            to: pm_s.unwrap(),
                        },
                    ]
                } else {
                    Seq::empty()
                });
                assert(steps_view(steps@) =~= prev + tail);
                assert(steps_view(steps@) =~= head + spec_pkg_target_steps(
                    *pkg, lp, base as int, pm_s, atoms0, kvs0, ext, macros_p@, t + 1,
                ));
                lemma_count_units_le(steps_view(steps@));
            }
            let cur_len = steps.len();
            assert(next_id < cur_len);
            next_id += 1;
        } else {
            proof {
                assert(spec_pkg_target_steps(
                    *pkg, lp, base as int, pm_s, atoms0, kvs0, ext, macros_p@, t + 1,
                ) =~= spec_pkg_target_steps(
                    *pkg, lp, base as int, pm_s, atoms0, kvs0, ext, macros_p@, t as int,
                ));
            }
        }
        t += 1;
    }
    proof {
        assert(lp.take(nt as int) =~= lp);
    }
    steps
}

/// Appends the edge block of one unit: its edge to the package's library
/// unit (unless the unit is the library itself), then to the core, alloc and
/// std roots, in that fixed order.
#[verifier::spinoff_prover]
#[verifier::rlimit(100)]
fn plan_unit_edges(
    pkg: &PackageData,
    tls_p: &Vec<Option<FileId>>,
    base: usize,
    from_t: usize,
    lib_t: Option<usize>,
    core_id: Option<usize>,
    alloc_id: Option<usize>,
    std_id: Option<usize>,
    steps: Vec<BuildStep>,
) -> (r: Vec<BuildStep>)
    requires
        tls_p@.len() == pkg.targets@.len(),
        from_t < tls_p@.len(),
        tls_p@[from_t as int] is Some,
        match lib_t {
            Some(lt) => lt < tls_p@.len() && tls_p@[lt as int] is Some && spec_lib_target(
                pkg.targets@,
                tls_p@,
                tls_p@.len() as int,
            ) == Some(lt as int),
            None => spec_lib_target(pkg.targets@, tls_p@, tls_p@.len() as int) is None,
        },
        plan_wf(steps_view(steps@)),
        count_units(steps_view(steps@)) == base + count_some(tls_p@),
        core_id matches Some(v) ==> v < base,
        alloc_id matches Some(v) ==> v < base,
        std_id matches Some(v) ==> v < base,
    ensures
        steps_view(r@) == steps_view(steps@) + spec_pkg_edge_block(
            base + unit_rank(tls_p@, from_t as int),
            pkg_lib_info(*pkg, tls_p@, base as int),
            opt_id(core_id),
            opt_id(alloc_id),
            opt_id(std_id),
        ),
        plan_wf(steps_view(r@)),
        count_units(steps_view(r@)) == count_units(steps_view(steps@)),
{
    let ghost lp = tls_p@;
    let ghost core_s = opt_id(core_id);
    let ghost alloc_s = opt_id(alloc_id);
    let ghost std_s = opt_id(std_id);
    let ghost prev = steps_view(steps@);
    let ghost lib_info = pkg_lib_info(*pkg, lp, base as int);
    let ghost total = count_units(steps_view(steps@));
    let mut steps = steps;
    let sl = steps.len();
    proof {
        lemma_count_units_le(steps_view(steps@));
        assert(base + count_some(lp) <= sl);
        lemma_rank_lt(lp, from_t as int);
        lemma_fixed_names_dash_free();
        lemma_count_some_take_le(lp, from_t as int, lp.len() as int);
        assert(lp.take(lp.len() as int) =~= lp);
        assert(base + count_some(lp.take(from_t as int)) <= sl);
    }
    let from = base + rank_of(tls_p, from_t);
    let ghost fromv = from as int;
    if let Some(lt) = lib_t {
        proof {
            lemma_rank_lt(lp, lt as int);
            lemma_count_some_take_le(lp, lt as int, lp.len() as int);
            assert(base + count_some(lp.take(lt as int)) <= sl);
        }
        let lib_id = base + rank_of(tls_p, lt);
        if from != lib_id {
            let name = CrateName::normalize_dashes(pkg.name.as_str());
            let ghost x = StepView::TryDep {
                from: fromv,
                name: spec_normalize_dashes(pkg.name@),
                to: lib_id as int,
            };
            proof {
                lemma_plan_wf_push(steps_view(steps@), x);
            }
            steps.push(BuildStep::TryDep { from, name, to: lib_id });
            proof {
                assert(steps_view(steps@) =~= prev.push(x));
            }
        }
    }
    let ghost after_lib = steps_view(steps@);
    if let Some(c) = core_id {
        let name = match CrateName::new("core") {
            Ok(nm) => nm,
            Err(_) => vstd::pervasive::unreached(),
        };
        let ghost x = StepView::TryDep { from: fromv, name: "core"@, to: c as int };
        proof {
            lemma_plan_wf_push(steps_view(steps@), x);
        }
        steps.push(BuildStep::TryDep { from, name, to: c });
        proof {
            assert(steps_view(steps@) =~= after_lib.push(x));
        }
    }
    let ghost after_core = steps_view(steps@);
    if let Some(c) = alloc_id {
        let name = match CrateName::new("alloc") {
            Ok(nm) => nm,
            Err(_) => vstd::pervasive::unreached(),
        };
        let ghost x = StepView::TryDep { from: fromv, name: "alloc"@, to: c as int };
        proof {
            lemma_plan_wf_push(steps_view(steps@), x);
        }
        steps.push(BuildStep::TryDep { from, name, to: c });
        proof {
            assert(steps_view(steps@) =~= after_core.push(x));
        }
    }
    let ghost after_alloc = steps_view(steps@);
    if let Some(c) = std_id {
        let name = match CrateName::new("std") {
            Ok(nm) => nm,
            Err(_) => vstd::pervasive::unreached(),
        };
        let ghost x = StepView::TryDep { from: fromv, name: "std"@, to: c as int };
        proof {
            lemma_plan_wf_push(steps_view(steps@), x);
        }
        steps.push(BuildStep::TryDep { from, name, to: c });
        proof {
            assert(steps_view(steps@) =~= after_alloc.push(x));
        }
    }
    proof {
        assert(steps_view(steps@) =~= prev + spec_pkg_edge_block(
            fromv,
            lib_info,
            core_s,
            alloc_s,
            std_s,
        ));
    }
    steps
}

/// Appends the edge blocks of all of one package's units.
#[verifier::spinoff_prover]
#[verifier::rlimit(100)]
fn plan_pkg_edges(
    pkg: &PackageData,
    tls_p: &Vec<Option<FileId>>,
    base: usize,
    core_id: Option<usize>,
    alloc_id: Option<usize>,
    std_id: Option<usize>,
    steps: Vec<BuildStep>,
) -> (r: Vec<BuildStep>)
    requires
        tls_p@.len() == pkg.targets@.len(),
        plan_wf(steps_view(steps@)),
        count_units(steps_view(steps@)) == base + count_some(tls_p@),
        core_id matches Some(v) ==> v < base,
        alloc_id matches Some(v) ==> v < base,
        std_id matches Some(v) ==> v < base,
    ensures
        steps_view(r@) == steps_view(steps@) + spec_pkg_edges(
            *pkg,
            tls_p@,
            base as int,
            opt_id(core_id),
            opt_id(alloc_id),
            opt_id(std_id),
            tls_p@.len() as int,
        ),
        plan_wf(steps_view(r@)),
        count_units(steps_view(r@)) == count_units(steps_view(steps@)),
{
    let ghost lp = tls_p@;
    let ghost core_s = opt_id(core_id);
    let ghost alloc_s = opt_id(alloc_id);
    let ghost std_s = opt_id(std_id);
    let ghost head = steps_view(steps@);
    let ghost total = count_units(steps_view(steps@));
    let nt = tls_p.len();
    let mut steps = steps;
    let lib_t = pkg_lib_target(&pkg.targets, tls_p);
    let mut t: usize = 0;
    proof {
        assert(steps_view(steps@) =~= head + spec_pkg_edges(
            *pkg, lp, base as int, core_s, alloc_s, std_s, 0,
        ));
    }
    while t < nt
        invariant
            0 <= t <= nt,
            lp == tls_p@,
            lp.len() == nt,
            nt == pkg.targets@.len(),
            core_s == opt_id(core_id),
            alloc_s == opt_id(alloc_id),
            std_s == opt_id(std_id),
            core_id matches Some(v) ==> v < base,
            alloc_id matches Some(v) ==> v < base,
            std_id matches Some(v) ==> v < base,
            total == base + count_some(lp),
            match lib_t {
                Some(lt) => lt < nt && lp[lt as int] is Some && spec_lib_target(
                    pkg.targets@,
                    lp,
                    lp.len() as int,
                ) == Some(lt as int),
                None => spec_lib_target(pkg.targets@, lp, lp.len() as int) is None,
            },
            steps_view(steps@) == head + spec_pkg_edges(
                *pkg, lp, base as int, core_s, alloc_s, std_s, t as int,
            ),
            plan_wf(steps_view(steps@)),
            count_units(steps_view(steps@)) == total,
        decreases nt - t,
    {
        let ghost prev = steps_view(steps@);
        if tls_p[t].is_some() {
            steps = plan_unit_edges(
                pkg, tls_p, base, t, lib_t, core_id, alloc_id, std_id, steps,
            );
            proof {
                assert(steps_view(steps@) =~= head + spec_pkg_edges(
                    *pkg, lp, base as int, core_s, alloc_s, std_s, t + 1,
                ));
            }
        } else {
            proof {
                assert(spec_pkg_edges(*pkg, lp, base as int, core_s, alloc_s, std_s, t + 1)
                    =~= spec_pkg_edges(*pkg, lp, base as int, core_s, alloc_s, std_s, t as int));
            }
        }
        t += 1;
    }
    steps
}

/// One unfolding of the per-package phase.
proof fn lemma_cargo_pkg_steps_unfold(
    pkgs: Seq<PackageData>,
    tls: Seq<Seq<Option<FileId>>>,
    macs: Seq<Seq<ProcMacroHandle>>,
    s_count: int,
    pm: Option<int>,
    core_id: Option<int>,
    alloc_id: Option<int>,
    std_id: Option<int>,
    atoms0: Seq<Seq<char>>,
    kvs0: Seq<(Seq<char>, Seq<char>)>,
    ext: Seq<(Seq<char>, ExternSourceId)>,
    p: int,
)
    requires
        0 <= p < pkgs.len(),
    ensures
        spec_cargo_pkg_steps(pkgs, tls, macs, s_count, pm, core_id, alloc_id, std_id, atoms0, kvs0, ext, p + 1)
            == spec_cargo_pkg_steps(pkgs, tls, macs, s_count, pm, core_id, alloc_id, std_id, atoms0, kvs0, ext, p)
            + spec_pkg_target_steps(
            pkgs[p],
            tls[p],
            s_count + units_before_pkg(tls, p),
            pm,
            atoms0,
            kvs0,
            ext,
            macs[p],
            tls[p].len() as int,
        ) + spec_pkg_edges(
            pkgs[p],
            tls[p],
            s_count + units_before_pkg(tls, p),
            core_id,
            alloc_id,
            std_id,
            tls[p].len() as int,
        ),
{
    reveal(spec_cargo_pkg_steps);
    assert(spec_cargo_pkg_steps(pkgs, tls, macs, s_count, pm, core_id, alloc_id, std_id, atoms0, kvs0, ext, p + 1)
        =~= spec_cargo_pkg_steps(pkgs, tls, macs, s_count, pm, core_id, alloc_id, std_id, atoms0, kvs0, ext, p)
        + spec_pkg_target_steps(
        pkgs[p],
        tls[p],
        s_count + units_before_pkg(tls, p),
        pm,
        atoms0,
        kvs0,
        ext,
        macs[p],
        tls[p].len() as int,
    ) + spec_pkg_edges(
        pkgs[p],
        tls[p],
        s_count + units_before_pkg(tls, p),
        core_id,
        alloc_id,
        std_id,
        tls[p].len() as int,
    ));
}

/// Appends, for each package in order, one unit per accepted target (each
/// macro-plugin target followed by its implicit edge to the macro-support
/// root), then the package's library and standard-library edges.
#[verifier::spinoff_prover]
#[verifier::rlimit(100)]
#[verifier::loop_isolation(true)]
fn plan_cargo_pkgs(
    cargo: &CargoWorkspace,
    default_cfg: &CfgOptions,
    extern_source_roots: &Vec<(String, ExternSourceId)>,
    tls: &Vec<Vec<Option<FileId>>>,
    macros: &Vec<Vec<ProcMacroHandle>>,
    s_count: usize,
    pm_id: Option<usize>,
    core_id: Option<usize>,
    alloc_id: Option<usize>,
    std_id: Option<usize>,
    steps: Vec<BuildStep>,
) -> (r: (Vec<BuildStep>, Vec<usize>))
    requires
        cargo.wf(),
        tls@.len() == cargo.packages@.len(),
        forall|q: int|
            0 <= q < tls@.len() ==> (#[trigger] tls@[q])@.len()
                == cargo.packages@[q].targets@.len(),
        macros@.len() == cargo.packages@.len(),
        plan_wf(steps_view(steps@)),
        count_units(steps_view(steps@)) == s_count,
        pm_id matches Some(v) ==> v < s_count,
        core_id matches Some(v) ==> v < s_count,
        alloc_id matches Some(v) ==> v < s_count,
        std_id matches Some(v) ==> v < s_count,
    ensures
        steps_view(r.0@) == steps_view(steps@) + spec_cargo_pkg_steps(
            cargo.packages@,
            tls_view(tls@),
            macros_view(macros@),
            s_count as int,
            opt_id(pm_id),
            opt_id(core_id),
            opt_id(alloc_id),
            opt_id(std_id),
            default_cfg.atoms_view(),
            default_cfg.kv_view(),
            ext_roots_view(extern_source_roots@),
            cargo.packages@.len() as int,
        ),
        plan_wf(steps_view(r.0@)),
        count_units(steps_view(r.0@)) == s_count + units_before_pkg(
            tls_view(tls@),
            tls@.len() as int,
        ),
        r.1@.len() == cargo.packages@.len(),
        forall|q: int|
            0 <= q < r.1@.len() ==> #[trigger] r.1@[q] == s_count + units_before_pkg(
                tls_view(tls@),
                q,
            ),
{
    let ghost pkgs = cargo.packages@;
    let ghost tlsv = tls_view(tls@);
    let ghost macsv = macros_view(macros@);
    let ghost atoms0 = default_cfg.atoms_view();
    let ghost kvs0 = default_cfg.kv_view();
    let ghost ext = ext_roots_view(extern_source_roots@);
    let ghost head = steps_view(steps@);
    let ghost pm_s = opt_id(pm_id);
    let ghost core_s = opt_id(core_id);
    let ghost alloc_s = opt_id(alloc_id);
    let ghost std_s = opt_id(std_id);
    let npkg = cargo.packages.len();
    let mut steps = steps;
    let mut bases: Vec<usize> = Vec::new();
    let mut next_id: usize = s_count;
    let mut p: usize = 0;
    proof {
        reveal(spec_cargo_pkg_steps);
        assert(steps_view(steps@) =~= head + spec_cargo_pkg_steps(
            pkgs, tlsv, macsv, s_count as int, pm_s, core_s, alloc_s, std_s, atoms0, kvs0, ext, 0,
        ));
    }
    while p < npkg
        invariant
            0 <= p <= npkg,
            npkg == pkgs.len(),
            pkgs == cargo.packages@,
            tlsv == tls_view(tls@),
            macsv == macros_view(macros@),
            atoms0 == default_cfg.atoms_view(),
            kvs0 == default_cfg.kv_view(),
            ext == ext_roots_view(extern_source_roots@),
            cargo.wf(),
            tls@.len() == npkg,
            macros@.len() == npkg,
            forall|q: int|
                0 <= q < npkg ==> (#[trigger] tlsv[q]).len() == pkgs[q].targets@.len(),
            pm_s == opt_id(pm_id),
            core_s == opt_id(core_id),
            alloc_s == opt_id(alloc_id),
            std_s == opt_id(std_id),
            pm_id matches Some(v) ==> v < s_count,
            core_id matches Some(v) ==> v < s_count,
            alloc_id matches Some(v) ==> v < s_count,
            std_id matches Some(v) ==> v < s_count,
            steps_view(steps@) == head + spec_cargo_pkg_steps(
                pkgs, tlsv, macsv, s_count as int, pm_s, core_s, alloc_s, std_s, atoms0, kvs0, ext, p as int,
            ),
            plan_wf(steps_view(steps@)),
            count_units(steps_view(steps@)) == next_id,
            next_id == s_count + units_before_pkg(tlsv, p as int),
            bases@.len() == p,
            forall|q: int|
                0 <= q < p ==> #[trigger] bases@[q] == s_count + units_before_pkg(tlsv, q),
        decreases npkg - p,
    {
        let ghost part_prev = steps_view(steps@);
        let base = next_id;
        bases.push(base);
        proof {
            assert(tlsv[p as int] == tls@[p as int]@);
            assert(macsv[p as int] == macros@[p as int]@);
        }
        let steps1 = plan_pkg_targets(
            &cargo.packages[p],
            default_cfg,
            extern_source_roots,
            &tls[p],
            &macros[p],
            base,
            pm_id,
            steps,
        );
        steps = plan_pkg_edges(
            &cargo.packages[p],
            &tls[p],
            base,
            core_id,
            alloc_id,
            std_id,
            steps1,
        );
        let sl = steps.len();
        proof {
            lemma_count_units_le(steps_view(steps@));
            assert(tlsv[p as int].take(tlsv[p as int].len() as int) =~= tlsv[p as int]);
            assert(base + count_some(tlsv[p as int]) <= sl);
        }
        next_id = base + rank_of(&tls[p], tls[p].len());
        proof {
            let a = spec_cargo_pkg_steps(
                pkgs, tlsv, macsv, s_count as int, pm_s, core_s, alloc_s, std_s, atoms0, kvs0, ext, p as int,
            );
            let b = spec_pkg_target_steps(
                pkgs[p as int], tlsv[p as int], base as int, pm_s, atoms0, kvs0, ext, macsv[p as int], tlsv[p as int].len() as int,
            );
            let c = spec_pkg_edges(
                pkgs[p as int], tlsv[p as int], base as int, core_s, alloc_s, std_s, tlsv[p as int].len() as int,
            );
            lemma_cargo_pkg_steps_unfold(
                pkgs, tlsv, macsv, s_count as int, pm_s, core_s, alloc_s, std_s, atoms0, kvs0, ext, p as int,
            );
            assert(steps_view(steps@) == ((head + a) + b) + c);
            vstd::seq_lib::lemma_concat_associative(head, a, b);
            assert((head + a) + b == head + (a + b));
            vstd::seq_lib::lemma_concat_associative(head, a + b, c);
            assert((head + (a + b)) + c == head + ((a + b) + c));
            assert(spec_cargo_pkg_steps(
                pkgs, tlsv, macsv, s_count as int, pm_s, core_s, alloc_s, std_s, atoms0, kvs0, ext, p + 1,
            ) == (a + b) + c);
            assert(steps_view(steps@) == head + spec_cargo_pkg_steps(
                pkgs, tlsv, macsv, s_count as int, pm_s, core_s, alloc_s, std_s, atoms0, kvs0, ext, p + 1,
            ));
        }
        p += 1;
    }
    (steps, bases)
}

/// Appends one edge from every unit of package `p` to `to`, named `name`.
#[verifier::spinoff_prover]
#[verifier::rlimit(100)]
fn plan_fan_out(
    tls_p: &Vec<Option<FileId>>,
    base_p: usize,
    dep_name: &String,
    to: usize,
    steps: Vec<BuildStep>,
) -> (r: Vec<BuildStep>)
    requires
        !dep_name@.contains('-'),
        plan_wf(steps_view(steps@)),
        base_p + count_some(tls_p@) <= count_units(steps_view(steps@)),
        to < count_units(steps_view(steps@)),
    ensures
        steps_view(r@) == steps_view(steps@) + spec_fan_out(
            tls_p@,
            base_p as int,
            dep_name@,
            to as int,
            tls_p@.len() as int,
        ),
        plan_wf(steps_view(r@)),
        count_units(steps_view(r@)) == count_units(steps_view(steps@)),
{
    let ghost lp = tls_p@;
    let ghost head = steps_view(steps@);
    let ghost total = count_units(steps_view(steps@));
    let nt = tls_p.len();
    let mut steps = steps;
    let mut t: usize = 0;
    proof {
        assert(steps_view(steps@) =~= head + spec_fan_out(lp, base_p as int, dep_name@, to as int, 0));
    }
    while t < nt
        invariant
            0 <= t <= nt,
            lp == tls_p@,
            lp.len() == nt,
            !dep_name@.contains('-'),
            base_p + count_some(lp) <= total,
            to < total,
            steps_view(steps@) == head + spec_fan_out(lp, base_p as int, dep_name@, to as int, t as int),
            plan_wf(steps_view(steps@)),
            count_units(steps_view(steps@)) == total,
        decreases nt - t,
    {
        let ghost prev = steps_view(steps@);
        let sl = steps.len();
        if tls_p[t].is_some() {
            proof {
                lemma_count_units_le(steps_view(steps@));
                lemma_rank_lt(lp, t as int);
                lemma_count_some_take_le(lp, t as int, lp.len() as int);
                assert(lp.take(lp.len() as int) =~= lp);
                assert(base_p + count_some(lp.take(t as int)) <= sl);
            }
            let from = base_p + rank_of(tls_p, t);
            let name = match CrateName::new(dep_name.as_str()) {
                Ok(nm) => nm,
                Err(_) => vstd::pervasive::unreached(),
            };
            let ghost x = StepView::TryDep { from: from as int, name: dep_name@, to: to as int };
            proof {
                lemma_plan_wf_push(steps_view(steps@), x);
            }
            steps.push(BuildStep::TryDep { from, name, to });
            proof {
                assert(steps_view(steps@) =~= prev.push(x));
                assert(steps_view(steps@) =~= head + spec_fan_out(
                    lp, base_p as int, dep_name@, to as int, t + 1,
                ));
            }
        } else {
            proof {
                assert(spec_fan_out(lp, base_p as int, dep_name@, to as int, t + 1) =~= spec_fan_out(
                    lp, base_p as int, dep_name@, to as int, t as int,
                ));
            }
        }
        t += 1;
    }
    steps
}

/// Appends the cross-package edges: for every declared dependency of every
/// package, one edge from each of the consumer's units to the provider's
/// library unit; dependencies on packages with no library unit are inert.
#[verifier::spinoff_prover]
#[verifier::rlimit(100)]
#[verifier::loop_isolation(true)]
fn plan_cross(
    cargo: &CargoWorkspace,
    tls: &Vec<Vec<Option<FileId>>>,
    s_count: usize,
    bases: &Vec<usize>,
    steps: Vec<BuildStep>,
) -> (r: Vec<BuildStep>)
    requires
        cargo.wf(),
        tls@.len() == cargo.packages@.len(),
        forall|q: int|
            0 <= q < tls@.len() ==> (#[trigger] tls@[q])@.len()
                == cargo.packages@[q].targets@.len(),
        bases@.len() == cargo.packages@.len(),
        forall|q: int|
            0 <= q < bases@.len() ==> #[trigger] bases@[q] == s_count + units_before_pkg(
                tls_view(tls@),
                q,
            ),
        plan_wf(steps_view(steps@)),
        count_units(steps_view(steps@)) == s_count + units_before_pkg(
            tls_view(tls@),
            tls@.len() as int,
        ),
    ensures
        steps_view(r@) == steps_view(steps@) + spec_cross_deps(
            cargo.packages@,
            tls_view(tls@),
            s_count as int,
            cargo.packages@.len() as int,
        ),
        plan_wf(steps_view(r@)),
        count_units(steps_view(r@)) == count_units(steps_view(steps@)),
{
    let ghost pkgs = cargo.packages@;
    let ghost tlsv = tls_view(tls@);
    let ghost head = steps_view(steps@);
    let ghost total = count_units(steps_view(steps@));
    let npkg = cargo.packages.len();
    let mut steps = steps;
    let mut p: usize = 0;
    proof {
        assert(steps_view(steps@) =~= head + spec_cross_deps(pkgs, tlsv, s_count as int, 0));
    }
    while p < npkg
        invariant
            0 <= p <= npkg,
            npkg == pkgs.len(),
            pkgs == cargo.packages@,
            tlsv == tls_view(tls@),
            cargo.wf(),
            tls@.len() == npkg,
            forall|q: int|
                0 <= q < npkg ==> (#[trigger] tlsv[q]).len() == pkgs[q].targets@.len(),
            bases@.len() == npkg,
            forall|q: int|
                0 <= q < npkg ==> #[trigger] bases@[q] == s_count + units_before_pkg(tlsv, q),
            total == s_count + units_before_pkg(tlsv, npkg as int),
            steps_view(steps@) == head + spec_cross_deps(pkgs, tlsv, s_count as int, p as int),
            plan_wf(steps_view(steps@)),
            count_units(steps_view(steps@)) == total,
        decreases npkg - p,
    {
        let ghost cross_prev = spec_cross_deps(pkgs, tlsv, s_count as int, p as int);
        let ghost dl = pkgs[p as int].dependencies@;
        let nd = cargo.packages[p].dependencies.len();
        let mut j: usize = 0;
        while j < nd
            invariant
                0 <= j <= nd,
                npkg == pkgs.len(),
                pkgs == cargo.packages@,
                tlsv == tls_view(tls@),
                cargo.wf(),
                tls@.len() == npkg,
                forall|q: int|
                    0 <= q < npkg ==> (#[trigger] tlsv[q]).len() == pkgs[q].targets@.len(),
                bases@.len() == npkg,
                forall|q: int|
                    0 <= q < npkg ==> #[trigger] bases@[q] == s_count + units_before_pkg(tlsv, q),
                total == s_count + units_before_pkg(tlsv, npkg as int),
                0 <= p < npkg,
                dl == pkgs[p as int].dependencies@,
                nd == dl.len(),
                steps_view(steps@) == head + cross_prev + spec_cross_dep_steps(
                    pkgs, tlsv, s_count as int, p as int, dl, j as int,
                ),
                plan_wf(steps_view(steps@)),
                count_units(steps_view(steps@)) == total,
            decreases nd - j,
        {
            let ghost prev = steps_view(steps@);
            let dq = cargo.packages[p].dependencies[j].pkg;
            assert(dq < npkg);
            proof {
                assert(tlsv[dq as int] == tls@[dq as int]@);
                assert((#[trigger] tlsv[dq as int]).len() == pkgs[dq as int].targets@.len());
            }
            let lib_t = pkg_lib_target(&cargo.packages[dq].targets, &tls[dq]);
            let sl = steps.len();
            if let Some(lt) = lib_t {
                proof {
                    lemma_count_units_le(steps_view(steps@));
                    lemma_rank_lt(tlsv[dq as int], lt as int);
                    lemma_count_some_take_le(tlsv[dq as int], lt as int, tlsv[dq as int].len() as int);
                    assert(tlsv[dq as int].take(tlsv[dq as int].len() as int) =~= tlsv[dq as int]);
                    lemma_units_before_mono(tlsv, dq + 1, npkg as int);
                    assert(units_before_pkg(tlsv, dq + 1) == units_before_pkg(tlsv, dq as int)
                        + count_some(tlsv[dq as int]));
                    assert(bases@[dq as int] + count_some(tlsv[dq as int]) <= total);
                    assert(bases@[dq as int] + count_some(tlsv[dq as int]) <= sl);
                }
                let to = bases[dq] + rank_of(&tls[dq], lt);
                proof {
                    assert(to < total);
                    lemma_units_before_mono(tlsv, p + 1, npkg as int);
                    assert(units_before_pkg(tlsv, p + 1) == units_before_pkg(tlsv, p as int)
                        + count_some(tlsv[p as int]));
                    assert(bases@[p as int] + count_some(tlsv[p as int]) <= total);
                    assert(tlsv[p as int] == tls@[p as int]@);
                }
                steps = plan_fan_out(
                    &tls[p],
                    bases[p],
                    &cargo.packages[p].dependencies[j].name,
                    to,
                    steps,
                );
                proof {
                    assert(steps_view(steps@) =~= head + cross_prev + spec_cross_dep_steps(
                        pkgs, tlsv, s_count as int, p as int, dl, j + 1,
                    ));
                }
            } else {
                proof {
                    assert(spec_cross_dep_steps(pkgs, tlsv, s_count as int, p as int, dl, j + 1)
                        =~= spec_cross_dep_steps(pkgs, tlsv, s_count as int, p as int, dl, j as int));
                }
            }
            j += 1;
        }
        proof {
            assert(spec_cross_deps(pkgs, tlsv, s_count as int, p + 1) =~= cross_prev
                + spec_cross_dep_steps(
                pkgs,
                tlsv,
                s_count as int,
                p as int,
                pkgs[p as int].dependencies@,
                pkgs[p as int].dependencies@.len() as int,
            ));
            assert(steps_view(steps@) =~= head + spec_cross_deps(pkgs, tlsv, s_count as int, p + 1));
        }
        p += 1;
    }
    steps
}

/// Computes the whole build plan of a build-tool workspace from the
/// loader's and resolver's answers.
#[verifier::spinoff_prover]
#[verifier::rlimit(100)]
pub fn plan_cargo(
    cargo: &CargoWorkspace,
    sysroot: &Sysroot,
    default_cfg: &CfgOptions,
    extern_source_roots: &Vec<(String, ExternSourceId)>,
    sys_loaded: &Vec<Option<FileId>>,
    tls: &Vec<Vec<Option<FileId>>>,
    macros: &Vec<Vec<ProcMacroHandle>>,
) -> (steps: Vec<BuildStep>)
    requires
        cargo.wf(),
        sysroot.wf(),
        sys_loaded@.len() == sysroot.crates@.len(),
        tls@.len() == cargo.packages@.len(),
        forall|q: int|
            0 <= q < tls@.len() ==> (#[trigger] tls@[q])@.len()
                == cargo.packages@[q].targets@.len(),
        macros@.len() == cargo.packages@.len(),
    ensures
        steps_view(steps@) == spec_cargo_plan(
            *cargo,
            *sysroot,
            sys_loaded@,
            tls_view(tls@),
            macros_view(macros@),
            default_cfg.atoms_view(),
            default_cfg.kv_view(),
            ext_roots_view(extern_source_roots@),
        ),
        plan_wf(steps_view(steps@)),
{
    let ghost scrates = sysroot.crates@;
    let ghost slv = sys_loaded@;
    let steps = plan_sysroot_units(sysroot, default_cfg, sys_loaded);
    let steps = plan_sysroot_deps(sysroot, sys_loaded, steps);
    let s_count = rank_of(sys_loaded, sys_loaded.len());
    proof {
        assert(slv.take(slv.len() as int) =~= slv);
    }
    let pm_id: Option<usize> = match sysroot.proc_macro() {
        Some(k) => if sys_loaded[k].is_some() {
            proof {
                lemma_rank_lt(slv, k as int);
            }
            Some(rank_of(sys_loaded, k))
        } else {
            None
        },
        None => None,
    };
    let core_id: Option<usize> = match sysroot.core_root() {
        Some(k) => if sys_loaded[k].is_some() {
            proof {
                lemma_rank_lt(slv, k as int);
            }
            Some(rank_of(sys_loaded, k))
        } else {
            None
        },
        None => None,
    };
    let alloc_id: Option<usize> = match sysroot.alloc_root() {
        Some(k) => if sys_loaded[k].is_some() {
            proof {
                lemma_rank_lt(slv, k as int);
            }
            Some(rank_of(sys_loaded, k))
        } else {
            None
        },
        None => None,
    };
    let std_id: Option<usize> = match sysroot.std_root() {
        Some(k) => if sys_loaded[k].is_some() {
            proof {
                lemma_rank_lt(slv, k as int);
            }
            Some(rank_of(sys_loaded, k))
        } else {
            None
        },
        None => None,
    };
    proof {
        assert(opt_id(pm_id) == sys_unit_id(scrates, slv, "proc_macro"@));
        assert(opt_id(core_id) == sys_unit_id(scrates, slv, "core"@));
        assert(opt_id(alloc_id) == sys_unit_id(scrates, slv, "alloc"@));
        assert(opt_id(std_id) == sys_unit_id(scrates, slv, "std"@));
    }
    let r = plan_cargo_pkgs(
        cargo,
        default_cfg,
        extern_source_roots,
        tls,
        macros,
        s_count,
        pm_id,
        core_id,
        alloc_id,
        std_id,
        steps,
    );
    let steps = r.0;
    let bases = r.1;
    let steps = plan_cross(cargo, tls, s_count, &bases, steps);
    steps
}

/// What one call of the builder on a descriptor amounts to: the loader's
/// and resolver's recorded answers determine the plan, and the result is
/// exactly that plan's fold, with the rejected roots reported first and the
/// refused edges after them.
pub open spec fn json_build_outcome(
    project: JsonProject,
    atoms0: Seq<Seq<char>>,
    kvs0: Seq<(Seq<char>, Seq<char>)>,
    ext: Seq<(Seq<char>, ExternSourceId)>,
    loaded: Seq<Option<FileId>>,
    macs: Seq<Seq<ProcMacroHandle>>,
    g: Seq<UnitView>,
    d: Seq<DiagView>,
) -> bool {
    let plan = spec_json_plan(project.crates@, loaded, atoms0, kvs0, ext, macs);
    &&& loaded.len() == project.crates@.len()
    &&& macs.len() == project.crates@.len()
    &&& (forall|i: int|
        0 <= i < project.crates@.len() && (#[trigger] project.crates@[i]).proc_macro_dylib_path
            is None ==> macs[i] == Seq::<ProcMacroHandle>::empty())
    &&& g == apply_steps(Seq::empty(), plan)
    &&& d == spec_missing_diags(json_root_paths(project.crates@), loaded, project.crates@.len() as int)
        + apply_steps_cycles(Seq::empty(), plan)
}

/// What one call of the builder on a build-tool workspace amounts to.
pub open spec fn cargo_build_outcome(
    cargo: CargoWorkspace,
    sysroot: Sysroot,
    atoms0: Seq<Seq<char>>,
    kvs0: Seq<(Seq<char>, Seq<char>)>,
    ext: Seq<(Seq<char>, ExternSourceId)>,
    sys_loaded: Seq<Option<FileId>>,
    tls: Seq<Seq<Option<FileId>>>,
    macs: Seq<Seq<ProcMacroHandle>>,
    g: Seq<UnitView>,
    d: Seq<DiagView>,
) -> bool {
    let plan = spec_cargo_plan(cargo, sysroot, sys_loaded, tls, macs, atoms0, kvs0, ext);
    &&& sys_loaded.len() == sysroot.crates@.len()
    &&& tls.len() == cargo.packages@.len()
    &&& (forall|q: int| 0 <= q < tls.len() ==> (#[trigger] tls[q]).len() == cargo.packages@[q].targets@.len())
    &&& macs.len() == cargo.packages@.len()
    &&& (forall|p: int|
        0 <= p < cargo.packages@.len() && (#[trigger] cargo.packages@[p]).proc_macro_dylib_path
            is None ==> macs[p] == Seq::<ProcMacroHandle>::empty())
    &&& g == apply_steps(Seq::empty(), plan)
    &&& d == spec_missing_diags(sysroot_root_paths(sysroot.crates@), sys_loaded, sysroot.crates@.len() as int)
        + spec_cargo_missing(cargo.packages@, tls, cargo.packages@.len() as int)
        + apply_steps_cycles(Seq::empty(), plan)
}

impl ProjectWorkspace {
    /// Compiles the workspace model into the dependency graph of compilation
    /// units, consulting `load` once per unit root and `proc_macro_client`
    /// once per declared plugin path.
    ///
    /// The graph is acyclic; rejected roots and refused edges are reported
    /// as diagnostics rather than failing the build. For some record of the
    /// collaborators' answers, the result is exactly the fold of the plan
    /// those answers determine.
    #[verifier::spinoff_prover]
    #[verifier::rlimit(100)]
    pub fn to_crate_graph<M: MacroResolver, L: FileLoader>(
        &self,
        default_cfg_options: &CfgOptions,
        extern_source_roots: &Vec<(String, ExternSourceId)>,
        proc_macro_client: &M,
        load: &mut L,
    ) -> (r: (CrateGraph, Vec<BuildDiagnostic>))
        requires
            self.wf(),
        ensures
            r.0.inv(),
            match self {
                ProjectWorkspace::Json { project } => exists|
                    loaded: Seq<Option<FileId>>,
                    macs: Seq<Seq<ProcMacroHandle>>,
                |
                    #[trigger] json_build_outcome(
                        *project,
                        default_cfg_options.atoms_view(),
                        default_cfg_options.kv_view(),
                        ext_roots_view(extern_source_roots@),
                        loaded,
                        macs,
                        r.0@,
                        diags_view(r.1@),
                    ),
                ProjectWorkspace::Cargo { cargo, sysroot } => exists|
                    sys_loaded: Seq<Option<FileId>>,
                    tls: Seq<Seq<Option<FileId>>>,
                    macs: Seq<Seq<ProcMacroHandle>>,
                |
                    #[trigger] cargo_build_outcome(
                        *cargo,
                        *sysroot,
                        default_cfg_options.atoms_view(),
                        default_cfg_options.kv_view(),
                        ext_roots_view(extern_source_roots@),
                        sys_loaded,
                        tls,
                        macs,
                        r.0@,
                        diags_view(r.1@),
                    ),
            },
    {
        match self {
            ProjectWorkspace::Json { project } => {
                let collected = load_json_roots(project, proc_macro_client, load);
                let loaded = collected.0;
                let macros = collected.1;
                let mut diags = collected.2;
                let ghost missing = diags_view(diags@);
                let steps = plan_json(
                    project,
                    default_cfg_options,
                    extern_source_roots,
                    &loaded,
                    &macros,
                );
                let built = execute_plan(steps);
                let graph = built.0;
                let mut cycles = built.1;
                let ghost cyclesv = diags_view(cycles@);
                diags.append(&mut cycles);
                let result = (graph, diags);
                proof {
                    assert(diags_view(result.1@) =~= missing + cyclesv);
                    assert(json_build_outcome(
                        *project,
                        default_cfg_options.atoms_view(),
                        default_cfg_options.kv_view(),
                        ext_roots_view(extern_source_roots@),
                        loaded@,
                        macros_view(macros@),
                        result.0@,
                        diags_view(result.1@),
                    ));
                }
                result
            },
            ProjectWorkspace::Cargo { cargo, sysroot } => {
                let collected = load_cargo_roots(cargo, sysroot, proc_macro_client, load);
                let sys_loaded = collected.0;
                let tls = collected.1;
                let macros = collected.2;
                let mut diags = collected.3;
                let ghost missing = diags_view(diags@);
                let steps = plan_cargo(
                    cargo,
                    sysroot,
                    default_cfg_options,
                    extern_source_roots,
                    &sys_loaded,
                    &tls,
                    &macros,
                );
                let built = execute_plan(steps);
                let graph = built.0;
                let mut cycles = built.1;
                let ghost cyclesv = diags_view(cycles@);
                diags.append(&mut cycles);
                let result = (graph, diags);
                proof {
                    assert(diags_view(result.1@) =~= missing + cyclesv);
                    assert(cargo_build_outcome(
                        *cargo,
                        *sysroot,
                        default_cfg_options.atoms_view(),
                        default_cfg_options.kv_view(),
                        ext_roots_view(extern_source_roots@),
                        sys_loaded@,
                        tls_view(tls@),
                        macros_view(macros@),
                        result.0@,
                        diags_view(result.1@),
                    ));
                }
                result
            },
        }
    }
}

/// All fields of two unit models agree but possibly their edges.
pub open spec fn same_unit_attrs(a: UnitView, b: UnitView) -> bool {
    &&& a.file_id == b.file_id
    &&& a.edition == b.edition
    &&& a.display_name == b.display_name
    &&& a.atoms == b.atoms
    &&& a.kvs == b.kvs
    &&& a.env == b.env
    &&& a.extern_paths == b.extern_paths
    &&& a.proc_macro == b.proc_macro
}

/// Applying a plan in two halves equals applying their concatenation.
pub proof fn lemma_apply_steps_concat(g0: Seq<UnitView>, a: Seq<StepView>, b: Seq<StepView>)
    ensures
        apply_steps(g0, a + b) == apply_steps(apply_steps(g0, a), b),
        apply_steps_cycles(g0, a + b) == apply_steps_cycles(g0, a) + apply_steps_cycles(
            apply_steps(g0, a),
            b,
        ),
    decreases b.len(),
{
    if b.len() == 0 {
        assert(a + b =~= a);
        assert(apply_steps_cycles(g0, a) + apply_steps_cycles(apply_steps(g0, a), b)
            =~= apply_steps_cycles(g0, a));
    } else {
        lemma_apply_steps_concat(g0, a, b.drop_last());
        assert((a + b).drop_last() =~= a + b.drop_last());
        assert((a + b).last() == b.last());
        assert(apply_steps_cycles(g0, a + b) =~= apply_steps_cycles(g0, a) + apply_steps_cycles(
            apply_steps(g0, a),
            b,
        ));
    }
}

/// Applying a plan leaves every prior unit's attributes unchanged: edge
/// attempts only ever extend a unit's dependency list.
pub proof fn lemma_apply_steps_keeps_attrs(g0: Seq<UnitView>, steps: Seq<StepView>)
    ensures
        apply_steps(g0, steps).len() >= g0.len(),
        forall|j: int|
            0 <= j < g0.len() ==> same_unit_attrs(
                #[trigger] apply_steps(g0, steps)[j],
                g0[j],
            ),
    decreases steps.len(),
{
    if steps.len() > 0 {
        lemma_apply_steps_keeps_attrs(g0, steps.drop_last());
        let g = apply_steps(g0, steps.drop_last());
        let g2 = apply_steps(g0, steps);
        match steps.last() {
            StepView::AddUnit(u) => {
                assert(forall|j: int| 0 <= j < g.len() ==> #[trigger] g2[j] == g[j]);
            },
            StepView::TryDep { from, name, to } => {
                if reaches(g, to, from) {
                } else {
                    assert forall|j: int| 0 <= j < g0.len() implies same_unit_attrs(
                        #[trigger] g2[j],
                        g0[j],
                    ) by {
                        if j == from {
                            assert(g2[j] == unit_with_dep(g[j], DepView { to, name }));
                        } else {
                            assert(g2[j] == g[j]);
                        }
                    }
                }
            },
        }
    }
}

/// Applying a plan of unit insertions alone appends exactly those units.
pub proof fn lemma_apply_addunits(g0: Seq<UnitView>, steps: Seq<StepView>)
    requires
        forall|i: int| 0 <= i < steps.len() ==> (#[trigger] steps[i]) is AddUnit,
    ensures
        apply_steps(g0, steps).len() == g0.len() + steps.len(),
        forall|k: int|
            0 <= k < steps.len() ==> #[trigger] apply_steps(g0, steps)[g0.len() + k]
                == steps[k]->AddUnit_0,
        forall|j: int| 0 <= j < g0.len() ==> #[trigger] apply_steps(g0, steps)[j] == g0[j],
    decreases steps.len(),
{
    if steps.len() > 0 {
        lemma_apply_addunits(g0, steps.drop_last());
        assert(steps.last() is AddUnit);
    }
}

/// The elements of the standard-library unit phase: one insertion per
/// accepted root, each with the test-mode atom filtered out of its flags.
proof fn lemma_sysroot_units_elems(
    crates: Seq<SysrootCrateData>,
    loaded: Seq<Option<FileId>>,
    atoms0: Seq<Seq<char>>,
    kvs0: Seq<(Seq<char>, Seq<char>)>,
    i: int,
)
    requires
        0 <= i <= crates.len(),
        loaded.len() == crates.len(),
    ensures
        spec_sysroot_units(crates, loaded, atoms0, kvs0, i).len() == count_some(loaded.take(i)),
        count_units(spec_sysroot_units(crates, loaded, atoms0, kvs0, i)) == count_some(
            loaded.take(i),
        ),
        forall|k: int|
            0 <= k < spec_sysroot_units(crates, loaded, atoms0, kvs0, i).len()
                ==> match #[trigger] spec_sysroot_units(crates, loaded, atoms0, kvs0, i)[k] {
                StepView::AddUnit(u) => u.atoms == atoms0.filter(|x: Seq<char>| x != "test"@),
                StepView::TryDep { .. } => false,
            },
    decreases i,
{
    if i > 0 {
        lemma_sysroot_units_elems(crates, loaded, atoms0, kvs0, i - 1);
        lemma_count_some_take_step(loaded, i - 1);
        let prev = spec_sysroot_units(crates, loaded, atoms0, kvs0, i - 1);
        let cur = spec_sysroot_units(crates, loaded, atoms0, kvs0, i);
        match loaded[i - 1] {
            Some(fid) => {
                let u = spec_sysroot_unit(crates[i - 1], fid, atoms0, kvs0);
                assert(cur =~= prev.push(StepView::AddUnit(u)));
                assert(cur.drop_last() =~= prev);
            },
            None => {
                assert(cur =~= prev);
            },
        }
    }
}

/// Law: a root rejected by the loader produces no unit. A descriptor build
/// holds exactly one unit per accepted entry; together with the graph's
/// well-formedness, nothing can depend on a rejected entry.
pub proof fn lemma_json_rejected_roots_absent(
    crates: Seq<JsonCrate>,
    loaded: Seq<Option<FileId>>,
    atoms0: Seq<Seq<char>>,
    kvs0: Seq<(Seq<char>, Seq<char>)>,
    ext: Seq<(Seq<char>, ExternSourceId)>,
    macs: Seq<Seq<ProcMacroHandle>>,
)
    requires
        loaded.len() == crates.len(),
        forall|a: int, b: int|
            0 <= a < crates.len() && 0 <= b < crates[a].deps@.len() ==> !(
            #[trigger] crates[a].deps@[b]).name@.contains('-'),
    ensures
        apply_steps(Seq::empty(), spec_json_plan(crates, loaded, atoms0, kvs0, ext, macs)).len()
            == count_some(loaded),
{
    let n = crates.len() as int;
    let units = spec_json_units(crates, loaded, atoms0, kvs0, ext, macs, n);
    let deps = spec_json_deps(crates, loaded, n);
    lemma_json_units_elems(crates, loaded, atoms0, kvs0, ext, macs, n);
    lemma_json_deps_elems(crates, loaded, n);
    assert forall|k: int| 0 <= k < deps.len() implies (#[trigger] deps[k]) is TryDep by {}
    lemma_count_units_all_trydep(deps);
    lemma_count_units_concat(units, deps);
    lemma_apply_steps_len(Seq::empty(), units + deps);
    assert(loaded.take(n) =~= loaded);
}

/// Law: every standard-library unit of a build-tool build has its test-mode
/// conditional flag absent, whatever the default flag set holds. The
/// standard-library units stand first in the graph, one per accepted root.
pub proof fn lemma_sysroot_units_test_free(
    cargo: CargoWorkspace,
    sysroot: Sysroot,
    sys_loaded: Seq<Option<FileId>>,
    tls: Seq<Seq<Option<FileId>>>,
    macs: Seq<Seq<ProcMacroHandle>>,
    atoms0: Seq<Seq<char>>,
    kvs0: Seq<(Seq<char>, Seq<char>)>,
    ext: Seq<(Seq<char>, ExternSourceId)>,
)
    requires
        sys_loaded.len() == sysroot.crates@.len(),
    ensures
        forall|j: int|
            0 <= j < count_some(sys_loaded) ==> !(#[trigger] apply_steps(
                Seq::empty(),
                spec_cargo_plan(cargo, sysroot, sys_loaded, tls, macs, atoms0, kvs0, ext),
            )[j]).atoms.contains("test"@),
{
    let n = sysroot.crates@.len() as int;
    let s_count = count_some(sys_loaded) as int;
    let pm = sys_unit_id(sysroot.crates@, sys_loaded, "proc_macro"@);
    let core_id = sys_unit_id(sysroot.crates@, sys_loaded, "core"@);
    let alloc_id = sys_unit_id(sysroot.crates@, sys_loaded, "alloc"@);
    let std_id = sys_unit_id(sysroot.crates@, sys_loaded, "std"@);
    let units = spec_sysroot_units(sysroot.crates@, sys_loaded, atoms0, kvs0, n);
    let d = spec_sysroot_deps(sysroot.crates@, sys_loaded, n);
    let pk = spec_cargo_pkg_steps(
        cargo.packages@, tls, macs, s_count, pm, core_id, alloc_id, std_id, atoms0, kvs0, ext,
        cargo.packages@.len() as int,
    );
    let x = spec_cross_deps(cargo.packages@, tls, s_count, cargo.packages@.len() as int);
    let plan = units + d + pk + x;
    let rest = d + pk + x;
    assert(plan =~= units + rest) by {
        assert(((units + d) + pk) + x =~= units + ((d + pk) + x));
    }
    lemma_apply_steps_concat(Seq::empty(), units, rest);
    let g1 = apply_steps(Seq::empty(), units);
    lemma_sysroot_units_elems(sysroot.crates@, sys_loaded, atoms0, kvs0, n);
    assert(sys_loaded.take(n) =~= sys_loaded);
    assert forall|k: int| 0 <= k < units.len() implies (#[trigger] units[k]) is AddUnit by {}
    lemma_apply_addunits(Seq::empty(), units);
    let filtered = atoms0.filter(|y: Seq<char>| y != "test"@);
    assert forall|j: int| 0 <= j < count_some(sys_loaded) implies !(#[trigger] g1[j]).atoms.contains(
        "test"@,
    ) by {
        assert(g1[0 + j] == units[j]->AddUnit_0);
        assert(g1[j].atoms == filtered);
        if filtered.contains("test"@) {
            let idx = choose|idx: int| 0 <= idx < filtered.len() && filtered[idx] == "test"@;
            atoms0.lemma_filter_pred(|y: Seq<char>| y != "test"@, idx);
            assert(false);
        }
    }
    lemma_apply_steps_keeps_attrs(g1, rest);
    assert forall|j: int| 0 <= j < count_some(sys_loaded) implies !(#[trigger] apply_steps(
        Seq::empty(),
        plan,
    )[j]).atoms.contains("test"@) by {
        assert(apply_steps(Seq::empty(), plan) == apply_steps(g1, rest));
        assert(same_unit_attrs(apply_steps(g1, rest)[j], g1[j]));
    }
}

/// Every element of one unit's edge block is an edge attempt.
proof fn lemma_edge_block_all_trydep(
    from: int,
    lib: Option<(int, Seq<char>)>,
    core_id: Option<int>,
    alloc_id: Option<int>,
    std_id: Option<int>,
)
    ensures
        forall|k: int|
            0 <= k < spec_pkg_edge_block(from, lib, core_id, alloc_id, std_id).len() ==> (
            #[trigger] spec_pkg_edge_block(from, lib, core_id, alloc_id, std_id)[k]) is TryDep,
{
}

/// Every element of the per-package edge phase is an edge attempt.
proof fn lemma_pkg_edges_all_trydep(
    pkg: PackageData,
    loaded_p: Seq<Option<FileId>>,
    base: int,
    core_id: Option<int>,
    alloc_id: Option<int>,
    std_id: Option<int>,
    t: int,
)
    requires
        0 <= t,
    ensures
        forall|k: int|
            0 <= k < spec_pkg_edges(pkg, loaded_p, base, core_id, alloc_id, std_id, t).len() ==> (
            #[trigger] spec_pkg_edges(pkg, loaded_p, base, core_id, alloc_id, std_id, t)[k]) is TryDep,
    decreases t,
{
    if t > 0 {
        lemma_pkg_edges_all_trydep(pkg, loaded_p, base, core_id, alloc_id, std_id, t - 1);
        if loaded_p[t - 1] is Some {
            lemma_edge_block_all_trydep(
                base + unit_rank(loaded_p, t - 1),
                pkg_lib_info(pkg, loaded_p, base),
                core_id,
                alloc_id,
                std_id,
            );
        }
    }
}

/// The unit insertions of one package's target phase: one per accepted
/// target.
proof fn lemma_pkg_target_steps_count(
    pkg: PackageData,
    loaded_p: Seq<Option<FileId>>,
    base: int,
    pm: Option<int>,
    atoms0: Seq<Seq<char>>,
    kvs0: Seq<(Seq<char>, Seq<char>)>,
    ext: Seq<(Seq<char>, ExternSourceId)>,
    macs: Seq<ProcMacroHandle>,
    t: int,
)
    requires
        0 <= t <= loaded_p.len(),
        loaded_p.len() == pkg.targets@.len(),
    ensures
        count_units(spec_pkg_target_steps(pkg, loaded_p, base, pm, atoms0, kvs0, ext, macs, t))
            == count_some(loaded_p.take(t)),
    decreases t,
{
    if t > 0 {
        lemma_pkg_target_steps_count(pkg, loaded_p, base, pm, atoms0, kvs0, ext, macs, t - 1);
        lemma_count_some_take_step(loaded_p, t - 1);
        let prev = spec_pkg_target_steps(pkg, loaded_p, base, pm, atoms0, kvs0, ext, macs, t - 1);
        let cur = spec_pkg_target_steps(pkg, loaded_p, base, pm, atoms0, kvs0, ext, macs, t);
        match loaded_p[t - 1] {
            Some(fid) => {
                let u = StepView::AddUnit(spec_cargo_unit(pkg, fid, atoms0, kvs0, ext, macs));
                let tail = seq![u] + (if pkg.targets@[t - 1].is_proc_macro && pm is Some {
                    seq![
                        StepView::TryDep {
                            from: base + unit_rank(loaded_p, t - 1),
                            name: "proc_macro"@,
                            to: pm.unwrap(),
                        },
                    ]
                } else {
                    Seq::empty()
                });
                assert(cur == prev + tail);
                lemma_count_units_concat(prev, tail);
                reveal_with_fuel(count_units, 4);
                if pkg.targets@[t - 1].is_proc_macro && pm is Some {
                    let e = StepView::TryDep {
                        from: base + unit_rank(loaded_p, t - 1),
                        name: "proc_macro"@,
                        to: pm.unwrap(),
                    };
                    assert(tail =~= seq![u].push(e));
                    assert(tail.drop_last() =~= seq![u]);
                    assert(seq![u].drop_last() =~= Seq::<StepView>::empty());
                    assert(count_units(tail) == 1);
                } else {
                    assert(tail =~= seq![u]);
                    assert(seq![u].drop_last() =~= Seq::<StepView>::empty());
                    assert(count_units(tail) == 1);
                }
            },
            None => {
                assert(cur =~= prev);
            },
        }
    }
}

/// The unit insertions of the per-package phase: one per accepted target of
/// the first `p` packages.
proof fn lemma_cargo_pkg_steps_count(
    pkgs: Seq<PackageData>,
    tls: Seq<Seq<Option<FileId>>>,
    macs: Seq<Seq<ProcMacroHandle>>,
    s_count: int,
    pm: Option<int>,
    core_id: Option<int>,
    alloc_id: Option<int>,
    std_id: Option<int>,
    atoms0: Seq<Seq<char>>,
    kvs0: Seq<(Seq<char>, Seq<char>)>,
    ext: Seq<(Seq<char>, ExternSourceId)>,
    p: int,
)
    requires
        0 <= p <= pkgs.len(),
        tls.len() == pkgs.len(),
        forall|q: int| 0 <= q < pkgs.len() ==> (#[trigger] tls[q]).len() == pkgs[q].targets@.len(),
    ensures
        count_units(
            spec_cargo_pkg_steps(pkgs, tls, macs, s_count, pm, core_id, alloc_id, std_id, atoms0, kvs0, ext, p),
        ) == units_before_pkg(tls, p),
    decreases p,
{
    reveal(spec_cargo_pkg_steps);
    if p > 0 {
        lemma_cargo_pkg_steps_count(
            pkgs, tls, macs, s_count, pm, core_id, alloc_id, std_id, atoms0, kvs0, ext, p - 1,
        );
        let base = s_count + units_before_pkg(tls, p - 1);
        let prev = spec_cargo_pkg_steps(
            pkgs, tls, macs, s_count, pm, core_id, alloc_id, std_id, atoms0, kvs0, ext, p - 1,
        );
        let tgt = spec_pkg_target_steps(
            pkgs[p - 1], tls[p - 1], base, pm, atoms0, kvs0, ext, macs[p - 1], tls[p - 1].len() as int,
        );
        let edges = spec_pkg_edges(
            pkgs[p - 1], tls[p - 1], base, core_id, alloc_id, std_id, tls[p - 1].len() as int,
        );
        lemma_pkg_target_steps_count(
            pkgs[p - 1], tls[p - 1], base, pm, atoms0, kvs0, ext, macs[p - 1], tls[p - 1].len() as int,
        );
        assert(tls[p - 1].take(tls[p - 1].len() as int) =~= tls[p - 1]);
        lemma_pkg_edges_all_trydep(
            pkgs[p - 1], tls[p - 1], base, core_id, alloc_id, std_id, tls[p - 1].len() as int,
        );
        lemma_count_units_all_trydep(edges);
        lemma_count_units_concat(prev, tgt);
        lemma_count_units_concat(prev + tgt, edges);
    }
}

/// Every element of the cross-package phase is an edge attempt.
proof fn lemma_fan_out_all_trydep(
    loaded_p: Seq<Option<FileId>>,
    base: int,
    name: Seq<char>,
    to: int,
    t: int,
)
    requires
        0 <= t,
    ensures
        forall|k: int|
            0 <= k < spec_fan_out(loaded_p, base, name, to, t).len() ==> (#[trigger] spec_fan_out(
                loaded_p,
                base,
                name,
                to,
                t,
            )[k]) is TryDep,
    decreases t,
{
    if t > 0 {
        lemma_fan_out_all_trydep(loaded_p, base, name, to, t - 1);
    }
}

proof fn lemma_cross_dep_steps_all_trydep(
    pkgs: Seq<PackageData>,
    tls: Seq<Seq<Option<FileId>>>,
    s_count: int,
    p: int,
    deps: Seq<crate::cargo_workspace::PackageDependency>,
    j: int,
)
    requires
        0 <= j,
        0 <= p < tls.len(),
    ensures
        forall|k: int|
            0 <= k < spec_cross_dep_steps(pkgs, tls, s_count, p, deps, j).len() ==> (
            #[trigger] spec_cross_dep_steps(pkgs, tls, s_count, p, deps, j)[k]) is TryDep,
    decreases j,
{
    if j > 0 {
        lemma_cross_dep_steps_all_trydep(pkgs, tls, s_count, p, deps, j - 1);
        let d = deps[j - 1];
        match lib_unit_of(pkgs, tls, s_count, d.pkg as int) {
            Some(lu) => {
                lemma_fan_out_all_trydep(
                    tls[p],
                    s_count + units_before_pkg(tls, p),
                    d.name@,
                    lu,
                    tls[p].len() as int,
                );
            },
            None => {},
        }
    }
}

proof fn lemma_cross_deps_all_trydep(
    pkgs: Seq<PackageData>,
    tls: Seq<Seq<Option<FileId>>>,
    s_count: int,
    p: int,
)
    requires
        0 <= p <= tls.len(),
        tls.len() == pkgs.len(),
    ensures
        forall|k: int|
            0 <= k < spec_cross_deps(pkgs, tls, s_count, p).len() ==> (#[trigger] spec_cross_deps(
                pkgs,
                tls,
                s_count,
                p,
            )[k]) is TryDep,
    decreases p,
{
    if p > 0 {
        lemma_cross_deps_all_trydep(pkgs, tls, s_count, p - 1);
        lemma_cross_dep_steps_all_trydep(
            pkgs,
            tls,
            s_count,
            p - 1,
            pkgs[p - 1].dependencies@,
            pkgs[p - 1].dependencies@.len() as int,
        );
    }
}

proof fn lemma_sysroot_deps_all_trydep(
    crates: Seq<SysrootCrateData>,
    loaded: Seq<Option<FileId>>,
    i: int,
)
    requires
        0 <= i,
    ensures
        forall|k: int|
            0 <= k < spec_sysroot_deps(crates, loaded, i).len() ==> (#[trigger] spec_sysroot_deps(
                crates,
                loaded,
                i,
            )[k]) is TryDep,
    decreases i,
{
    if i > 0 {
        lemma_sysroot_deps_all_trydep(crates, loaded, i - 1);
        if loaded[i - 1] is Some {
            lemma_sysroot_dep_steps_all_trydep(
                crates,
                loaded,
                unit_rank(loaded, i - 1),
                crates[i - 1].deps@,
                crates[i - 1].deps@.len() as int,
            );
        }
    }
}

proof fn lemma_sysroot_dep_steps_all_trydep(
    crates: Seq<SysrootCrateData>,
    loaded: Seq<Option<FileId>>,
    from_id: int,
    deps: Seq<usize>,
    j: int,
)
    requires
        0 <= j,
    ensures
        forall|k: int|
            0 <= k < spec_sysroot_dep_steps(crates, loaded, from_id, deps, j).len() ==> (
            #[trigger] spec_sysroot_dep_steps(crates, loaded, from_id, deps, j)[k]) is TryDep,
    decreases j,
{
    if j > 0 {
        lemma_sysroot_dep_steps_all_trydep(crates, loaded, from_id, deps, j - 1);
    }
}

/// Law: a root rejected by the loader produces no unit, in build-tool mode
/// too. The graph holds exactly one unit per accepted standard-library root
/// plus one per accepted package target; together with the graph's
/// well-formedness, nothing can depend on a rejected root.
pub proof fn lemma_cargo_rejected_roots_absent(
    cargo: CargoWorkspace,
    sysroot: Sysroot,
    sys_loaded: Seq<Option<FileId>>,
    tls: Seq<Seq<Option<FileId>>>,
    macs: Seq<Seq<ProcMacroHandle>>,
    atoms0: Seq<Seq<char>>,
    kvs0: Seq<(Seq<char>, Seq<char>)>,
    ext: Seq<(Seq<char>, ExternSourceId)>,
)
    requires
        sys_loaded.len() == sysroot.crates@.len(),
        tls.len() == cargo.packages@.len(),
        forall|q: int|
            0 <= q < tls.len() ==> (#[trigger] tls[q]).len() == cargo.packages@[q].targets@.len(),
    ensures
        apply_steps(
            Seq::empty(),
            spec_cargo_plan(cargo, sysroot, sys_loaded, tls, macs, atoms0, kvs0, ext),
        ).len() == count_some(sys_loaded) + units_before_pkg(tls, tls.len() as int),
{
    let n = sysroot.crates@.len() as int;
    let s_count = count_some(sys_loaded) as int;
    let pm = sys_unit_id(sysroot.crates@, sys_loaded, "proc_macro"@);
    let core_id = sys_unit_id(sysroot.crates@, sys_loaded, "core"@);
    let alloc_id = sys_unit_id(sysroot.crates@, sys_loaded, "alloc"@);
    let std_id = sys_unit_id(sysroot.crates@, sys_loaded, "std"@);
    let units = spec_sysroot_units(sysroot.crates@, sys_loaded, atoms0, kvs0, n);
    let d = spec_sysroot_deps(sysroot.crates@, sys_loaded, n);
    let npkg = cargo.packages@.len() as int;
    let pk = spec_cargo_pkg_steps(
        cargo.packages@, tls, macs, s_count, pm, core_id, alloc_id, std_id, atoms0, kvs0, ext, npkg,
    );
    let x = spec_cross_deps(cargo.packages@, tls, s_count, npkg);
    lemma_sysroot_units_elems(sysroot.crates@, sys_loaded, atoms0, kvs0, n);
    assert(sys_loaded.take(n) =~= sys_loaded);
    lemma_sysroot_deps_all_trydep(sysroot.crates@, sys_loaded, n);
    lemma_count_units_all_trydep(d);
    lemma_cargo_pkg_steps_count(
        cargo.packages@, tls, macs, s_count, pm, core_id, alloc_id, std_id, atoms0, kvs0, ext, npkg,
    );
    lemma_cross_deps_all_trydep(cargo.packages@, tls, s_count, npkg);
    lemma_count_units_all_trydep(x);
    lemma_count_units_concat(units, d);
    lemma_count_units_concat(units + d, pk);
    lemma_count_units_concat(units + d + pk, x);
    lemma_apply_steps_len(Seq::empty(), units + d + pk + x);
}

/// The payload of the `k`-th unit insertion of a plan.
pub open spec fn unit_at(steps: Seq<StepView>, k: int) -> UnitView
    decreases steps.len(),
{
    if steps.len() == 0 {
        vstd::pervasive::arbitrary()
    } else {
        match steps.last() {
            StepView::AddUnit(u) => if k == count_units(steps.drop_last()) {
                u
            } else {
                unit_at(steps.drop_last(), k)
            },
            StepView::TryDep { .. } => unit_at(steps.drop_last(), k),
        }
    }
}

/// Applying a plan puts the `k`-th inserted unit at slot `g0.len() + k`,
/// with all its attributes intact (edge attempts only extend dependency
/// lists).
pub proof fn lemma_apply_steps_units_at(g0: Seq<UnitView>, steps: Seq<StepView>)
    ensures
        forall|k: int|
            0 <= k < count_units(steps) ==> same_unit_attrs(
                #[trigger] apply_steps(g0, steps)[g0.len() + k],
                unit_at(steps, k),
            ),
    decreases steps.len(),
{
    if steps.len() > 0 {
        lemma_apply_steps_units_at(g0, steps.drop_last());
        lemma_apply_steps_len(g0, steps.drop_last());
        let g = apply_steps(g0, steps.drop_last());
        let g2 = apply_steps(g0, steps);
        match steps.last() {
            StepView::AddUnit(u) => {
                assert forall|k: int| 0 <= k < count_units(steps) implies same_unit_attrs(
                    #[trigger] g2[g0.len() + k],
                    unit_at(steps, k),
                ) by {
                    if k == count_units(steps.drop_last()) {
                        assert(g2[g0.len() + k] == u);
                        assert(unit_at(steps, k) == u);
                    } else {
                        assert(g2[g0.len() + k] == g[g0.len() + k]);
                        assert(unit_at(steps, k) == unit_at(steps.drop_last(), k));
                    }
                }
            },
            StepView::TryDep { from, name, to } => {
                assert(count_units(steps) == count_units(steps.drop_last()));
                assert forall|k: int| 0 <= k < count_units(steps) implies same_unit_attrs(
                    #[trigger] g2[g0.len() + k],
                    unit_at(steps, k),
                ) by {
                    assert(unit_at(steps, k) == unit_at(steps.drop_last(), k));
                    if reaches(g, to, from) {
                        assert(g2 == g);
                    } else {
                        assert(g2 == spec_add_dep(g, from, name, to));
                        if 0 <= from < g.len() && from == g0.len() + k {
                            assert(g2[g0.len() + k] == unit_with_dep(
                                g[from],
                                DepView { to, name },
                            ));
                            assert(same_unit_attrs(g2[g0.len() + k], g[g0.len() + k]));
                        } else {
                            assert(g2[g0.len() + k] == g[g0.len() + k]);
                        }
                    }
                }
            },
        }
    }
}

/// `unit_at` distributes over concatenation.
pub proof fn lemma_unit_at_concat(a: Seq<StepView>, b: Seq<StepView>, k: int)
    ensures
        0 <= k < count_units(a) ==> unit_at(a + b, k) == unit_at(a, k),
        count_units(a) <= k < count_units(a) + count_units(b) ==> unit_at(a + b, k) == unit_at(
            b,
            k - count_units(a),
        ),
    decreases b.len(),
{
    lemma_count_units_concat(a, b);
    if b.len() == 0 {
        assert(a + b =~= a);
    } else {
        lemma_unit_at_concat(a, b.drop_last(), k);
        lemma_count_units_concat(a, b.drop_last());
        assert((a + b).drop_last() =~= a + b.drop_last());
        assert((a + b).last() == b.last());
    }
}

/// Every unit inserted by one package's target phase is named after the
/// package, dash-normalized.
proof fn lemma_tgt_units_named(
    pkg: PackageData,
    loaded_p: Seq<Option<FileId>>,
    base: int,
    pm: Option<int>,
    atoms0: Seq<Seq<char>>,
    kvs0: Seq<(Seq<char>, Seq<char>)>,
    ext: Seq<(Seq<char>, ExternSourceId)>,
    macs: Seq<ProcMacroHandle>,
    t: int,
)
    requires
        0 <= t <= loaded_p.len(),
        loaded_p.len() == pkg.targets@.len(),
    ensures
        forall|k: int|
            0 <= k < count_some(loaded_p.take(t)) ==> (#[trigger] unit_at(
                spec_pkg_target_steps(pkg, loaded_p, base, pm, atoms0, kvs0, ext, macs, t),
                k,
            )).display_name == Some(spec_normalize_dashes(pkg.name@)),
    decreases t,
{
    if t > 0 {
        lemma_tgt_units_named(pkg, loaded_p, base, pm, atoms0, kvs0, ext, macs, t - 1);
        lemma_pkg_target_steps_count(pkg, loaded_p, base, pm, atoms0, kvs0, ext, macs, t - 1);
        lemma_count_some_take_step(loaded_p, t - 1);
        let prev = spec_pkg_target_steps(pkg, loaded_p, base, pm, atoms0, kvs0, ext, macs, t - 1);
        let cur = spec_pkg_target_steps(pkg, loaded_p, base, pm, atoms0, kvs0, ext, macs, t);
        match loaded_p[t - 1] {
            Some(fid) => {
                let u = StepView::AddUnit(spec_cargo_unit(pkg, fid, atoms0, kvs0, ext, macs));
                let tail = seq![u] + (if pkg.targets@[t - 1].is_proc_macro && pm is Some {
                    seq![
                        StepView::TryDep {
                            from: base + unit_rank(loaded_p, t - 1),
                            name: "proc_macro"@,
                            to: pm.unwrap(),
                        },
                    ]
                } else {
                    Seq::empty()
                });
                assert(cur == prev + tail);
                reveal_with_fuel(count_units, 4);
                reveal_with_fuel(unit_at, 4);
                assert(seq![u].drop_last() =~= Seq::<StepView>::empty());
                assert(count_units(tail) == 1) by {
                    if pkg.targets@[t - 1].is_proc_macro && pm is Some {
                        assert(tail.drop_last() =~= seq![u]);
                    } else {
                        assert(tail =~= seq![u]);
                    }
                }
                assert(unit_at(tail, 0) == spec_cargo_unit(pkg, fid, atoms0, kvs0, ext, macs)) by {
                    if pkg.targets@[t - 1].is_proc_macro && pm is Some {
                        assert(tail.drop_last() =~= seq![u]);
                        assert(tail.last() is TryDep);
                    } else {
                        assert(tail =~= seq![u]);
                    }
                }
                assert forall|k: int| 0 <= k < count_some(loaded_p.take(t)) implies (
                #[trigger] unit_at(cur, k)).display_name == Some(
                    spec_normalize_dashes(pkg.name@),
                ) by {
                    lemma_unit_at_concat(prev, tail, k);
                    if k < count_units(prev) {
                        assert(unit_at(cur, k) == unit_at(prev, k));
                    } else {
                        assert(unit_at(cur, k) == unit_at(tail, 0));
                    }
                }
            },
            None => {
                assert(cur =~= prev);
            },
        }
    }
}

/// Every unit inserted by the per-package phase carries its own package's
/// dash-normalized name, at its package-relative position.
proof fn lemma_pkg_phase_units_named(
    pkgs: Seq<PackageData>,
    tls: Seq<Seq<Option<FileId>>>,
    macs: Seq<Seq<ProcMacroHandle>>,
    s_count: int,
    pm: Option<int>,
    core_id: Option<int>,
    alloc_id: Option<int>,
    std_id: Option<int>,
    atoms0: Seq<Seq<char>>,
    kvs0: Seq<(Seq<char>, Seq<char>)>,
    ext: Seq<(Seq<char>, ExternSourceId)>,
    p: int,
)
    requires
        0 <= p <= pkgs.len(),
        tls.len() == pkgs.len(),
        forall|q: int| 0 <= q < pkgs.len() ==> (#[trigger] tls[q]).len() == pkgs[q].targets@.len(),
    ensures
        forall|q: int, k: int|
            0 <= q < p && 0 <= k < count_some(tls[q]) ==> (#[trigger] unit_at(
                spec_cargo_pkg_steps(pkgs, tls, macs, s_count, pm, core_id, alloc_id, std_id, atoms0, kvs0, ext, p),
                units_before_pkg(tls, q) + k,
            )).display_name == Some(spec_normalize_dashes(pkgs[q].name@)),
    decreases p,
{
    reveal(spec_cargo_pkg_steps);
    if p > 0 {
        lemma_pkg_phase_units_named(
            pkgs, tls, macs, s_count, pm, core_id, alloc_id, std_id, atoms0, kvs0, ext, p - 1,
        );
        lemma_cargo_pkg_steps_count(
            pkgs, tls, macs, s_count, pm, core_id, alloc_id, std_id, atoms0, kvs0, ext, p - 1,
        );
        let base = s_count + units_before_pkg(tls, p - 1);
        let prev = spec_cargo_pkg_steps(
            pkgs, tls, macs, s_count, pm, core_id, alloc_id, std_id, atoms0, kvs0, ext, p - 1,
        );
        let tgt = spec_pkg_target_steps(
            pkgs[p - 1], tls[p - 1], base, pm, atoms0, kvs0, ext, macs[p - 1], tls[p - 1].len() as int,
        );
        let edges = spec_pkg_edges(
            pkgs[p - 1], tls[p - 1], base, core_id, alloc_id, std_id, tls[p - 1].len() as int,
        );
        let cur = spec_cargo_pkg_steps(
            pkgs, tls, macs, s_count, pm, core_id, alloc_id, std_id, atoms0, kvs0, ext, p,
        );
        assert(cur == prev + tgt + edges);
        lemma_pkg_target_steps_count(
            pkgs[p - 1], tls[p - 1], base, pm, atoms0, kvs0, ext, macs[p - 1], tls[p - 1].len() as int,
        );
        assert(tls[p - 1].take(tls[p - 1].len() as int) =~= tls[p - 1]);
        lemma_pkg_edges_all_trydep(
            pkgs[p - 1], tls[p - 1], base, core_id, alloc_id, std_id, tls[p - 1].len() as int,
        );
        lemma_count_units_all_trydep(edges);
        lemma_count_units_concat(prev, tgt);
        lemma_tgt_units_named(
            pkgs[p - 1], tls[p - 1], base, pm, atoms0, kvs0, ext, macs[p - 1], tls[p - 1].len() as int,
        );
        assert forall|q: int, k: int|
            0 <= q < p && 0 <= k < count_some(tls[q]) implies (#[trigger] unit_at(
            cur,
            units_before_pkg(tls, q) + k,
        )).display_name == Some(spec_normalize_dashes(pkgs[q].name@)) by {
            let pos = units_before_pkg(tls, q) + k;
            lemma_unit_at_concat(prev + tgt, edges, pos);
            lemma_unit_at_concat(prev, tgt, pos);
            if q < p - 1 {
                lemma_units_before_mono(tls, q + 1, p - 1);
                assert(units_before_pkg(tls, q + 1) == units_before_pkg(tls, q) + count_some(
                    tls[q],
                ));
                assert(pos < count_units(prev));
                assert(unit_at(cur, pos) == unit_at(prev, pos));
            } else {
                assert(count_units(prev) <= pos < count_units(prev) + count_units(tgt));
                assert(unit_at(cur, pos) == unit_at(tgt, k));
            }
        }
    }
}

/// Law: in a build-tool workspace, the units a package's targets produce
/// carry the package's name with every dash replaced by an underscore. Each
/// such unit stands at the graph slot its package-relative rank determines,
/// after the standard-library units. Together with the graph invariant,
/// which keeps every unit and edge name dash-free, a dashed package name
/// appears in the graph only in normalized form.
pub proof fn lemma_package_units_normalized(
    cargo: CargoWorkspace,
    sysroot: Sysroot,
    sys_loaded: Seq<Option<FileId>>,
    tls: Seq<Seq<Option<FileId>>>,
    macs: Seq<Seq<ProcMacroHandle>>,
    atoms0: Seq<Seq<char>>,
    kvs0: Seq<(Seq<char>, Seq<char>)>,
    ext: Seq<(Seq<char>, ExternSourceId)>,
)
    requires
        sys_loaded.len() == sysroot.crates@.len(),
        tls.len() == cargo.packages@.len(),
        forall|q: int|
            0 <= q < tls.len() ==> (#[trigger] tls[q]).len() == cargo.packages@[q].targets@.len(),
    ensures
        forall|p: int, k: int|
            0 <= p < cargo.packages@.len() && 0 <= k < count_some(tls[p]) ==> (#[trigger] apply_steps(
                Seq::empty(),
                spec_cargo_plan(cargo, sysroot, sys_loaded, tls, macs, atoms0, kvs0, ext),
            )[count_some(sys_loaded) + units_before_pkg(tls, p) + k]).display_name == Some(
                spec_normalize_dashes(cargo.packages@[p].name@),
            ),
{
    let n = sysroot.crates@.len() as int;
    let s_count = count_some(sys_loaded) as int;
    let pm = sys_unit_id(sysroot.crates@, sys_loaded, "proc_macro"@);
    let core_id = sys_unit_id(sysroot.crates@, sys_loaded, "core"@);
    let alloc_id = sys_unit_id(sysroot.crates@, sys_loaded, "alloc"@);
    let std_id = sys_unit_id(sysroot.crates@, sys_loaded, "std"@);
    let npkg = cargo.packages@.len() as int;
    let units = spec_sysroot_units(sysroot.crates@, sys_loaded, atoms0, kvs0, n);
    let d = spec_sysroot_deps(sysroot.crates@, sys_loaded, n);
    let pk = spec_cargo_pkg_steps(
        cargo.packages@, tls, macs, s_count, pm, core_id, alloc_id, std_id, atoms0, kvs0, ext, npkg,
    );
    let x = spec_cross_deps(cargo.packages@, tls, s_count, npkg);
    let plan = units + d + pk + x;
    lemma_sysroot_units_elems(sysroot.crates@, sys_loaded, atoms0, kvs0, n);
    assert(sys_loaded.take(n) =~= sys_loaded);
    lemma_sysroot_deps_all_trydep(sysroot.crates@, sys_loaded, n);
    lemma_count_units_all_trydep(d);
    lemma_cargo_pkg_steps_count(
        cargo.packages@, tls, macs, s_count, pm, core_id, alloc_id, std_id, atoms0, kvs0, ext, npkg,
    );
    lemma_cross_deps_all_trydep(cargo.packages@, tls, s_count, npkg);
    lemma_count_units_all_trydep(x);
    lemma_count_units_concat(units, d);
    lemma_count_units_concat(units + d, pk);
    lemma_count_units_concat(units + d + pk, x);
    lemma_apply_steps_units_at(Seq::empty(), plan);
    lemma_pkg_phase_units_named(
        cargo.packages@, tls, macs, s_count, pm, core_id, alloc_id, std_id, atoms0, kvs0, ext, npkg,
    );
    assert forall|p: int, k: int|
        0 <= p < npkg && 0 <= k < count_some(tls[p]) implies (#[trigger] apply_steps(
        Seq::empty(),
        plan,
    )[s_count + units_before_pkg(tls, p) + k]).display_name == Some(
        spec_normalize_dashes(cargo.packages@[p].name@),
    ) by {
        let pos = s_count + units_before_pkg(tls, p) + k;
        lemma_units_before_mono(tls, p + 1, npkg);
        assert(units_before_pkg(tls, p + 1) == units_before_pkg(tls, p) + count_some(tls[p]));
        assert(pos < s_count + units_before_pkg(tls, npkg));
        assert(0 <= pos < count_units(plan));
        lemma_unit_at_concat(units + d + pk, x, pos);
        lemma_unit_at_concat(units + d, pk, pos);
        assert(unit_at(plan, pos) == unit_at(pk, units_before_pkg(tls, p) + k));
        let g0: Seq<UnitView> = Seq::empty();
        lemma_apply_steps_len(g0, plan);
        assert(same_unit_attrs(apply_steps(g0, plan)[g0.len() + pos], unit_at(plan, pos)));
        assert(g0.len() + pos == pos);
    }
}

} // verus!
