//! Project-model layer for a language-tooling backend.
//!
//! Given a starting path, the library locates the governing project root,
//! models the workspace metadata loaded from that root (either build-tool
//! metadata plus a standard-library root set, or a manually authored
//! descriptor), and compiles the metadata into a dependency graph of
//! compilation units with an insertion-time acyclicity guarantee.
#![verifier::loop_isolation(false)]

pub mod base;
pub mod graph_builder;
pub mod cargo_workspace;
pub mod cfg;
pub mod env;
pub mod json_project;
pub mod crate_graph;
pub mod crate_name;
pub mod paths;
pub mod strutil;
pub mod sysroot;

use vstd::prelude::*;

use crate::cargo_workspace::{CargoWorkspace, PackageData};
use crate::json_project::{JsonCrate, JsonProject, JsonRoot};
use crate::paths::{
    ends_with_component, join_path, parent_path, path_starts_with, spec_ends_with_component,
    spec_join, spec_parent, spec_path_starts_with,
};
use crate::sysroot::Sysroot;

verus! {

/// An error of project discovery or description.
#[derive(Debug, Clone, PartialEq, Eq)]
pub enum ProjectError {
    /// The given path names neither manifest kind.
    NotManifest(String),
    /// Discovery found no candidate project.
    NoProjects,
    /// Discovery found several candidate projects and refuses to pick one.
    MoreThanOneProject,
    /// The directory to scan for child manifests could not be read.
    DirUnreadable(String),
}

impl ProjectError {
    /// A human-readable description of the error.
    pub fn message(&self) -> (r: String)
        ensures
            match self {
                ProjectError::NotManifest(p) => r@
                    == "project root must point to Cargo.toml or rust-project.json: "@ + p@,
                ProjectError::NoProjects => r@ == "no projects"@,
                ProjectError::MoreThanOneProject => r@ == "more than one project"@,
                ProjectError::DirUnreadable(p) => r@ == "failed to read directory: "@ + p@,
            },
    {
        match self {
            ProjectError::NotManifest(p) => String::from_str(
                "project root must point to Cargo.toml or rust-project.json: ",
            ).concat(p.as_str()),
            ProjectError::NoProjects => String::from_str("no projects"),
            ProjectError::MoreThanOneProject => String::from_str("more than one project"),
            ProjectError::DirUnreadable(p) => String::from_str(
                "failed to read directory: ",
            ).concat(p.as_str()),
        }
    }
}

/// A package root folder: either a member of the workspace being edited or
/// an external dependency, which decides indexing scope.
pub struct PackageRoot {
    pub path: String,
    pub is_member: bool,
}

impl PackageRoot {
    pub fn new_member(path: String) -> (r: PackageRoot)
        ensures
            r.path@ == path@,
            r.is_member,
    {
        PackageRoot { path, is_member: true }
    }

    pub fn new_non_member(path: String) -> (r: PackageRoot)
        ensures
            r.path@ == path@,
            !r.is_member,
    {
        PackageRoot { path, is_member: false }
    }

    pub fn path(&self) -> (r: &String)
        ensures
            r@ == self.path@,
    {
        &self.path
    }

    pub fn is_member(&self) -> (r: bool)
        ensures
            r == self.is_member,
    {
        self.is_member
    }
}

/// The manifest that governs a project: a manually authored descriptor file
/// or the build tool's manifest. A descriptor always takes priority.
#[derive(Debug, Clone, PartialEq, Eq, Hash)]
pub enum ProjectRoot {
    ProjectJson(String),
    CargoToml(String),
}

/// The candidate's path ends with the manifest file name of its kind.
pub open spec fn candidate_wf(c: ProjectRoot) -> bool {
    match c {
        ProjectRoot::ProjectJson(p) => spec_ends_with_component(p@, "rust-project.json"@),
        ProjectRoot::CargoToml(p) => spec_ends_with_component(p@, "Cargo.toml"@),
    }
}

/// Read-only filesystem queries used by project discovery. Implementations
/// perform the real blocking filesystem traversal.
pub trait FsProbe {
    /// Whether a file exists at `path`.
    fn file_exists(&self, path: &String) -> bool;

    /// The full paths of the entries of the directory `path`, or `None` when
    /// the directory cannot be read.
    fn read_dir_entries(&self, path: &String) -> Option<Vec<String>>;
}

/// Mathematical model of one candidate project root.
pub enum RootView {
    ProjectJson(Seq<char>),
    CargoToml(Seq<char>),
}

impl View for ProjectRoot {
    type V = RootView;

    open spec fn view(&self) -> RootView {
        match self {
            ProjectRoot::ProjectJson(p) => RootView::ProjectJson(p@),
            ProjectRoot::CargoToml(p) => RootView::CargoToml(p@),
        }
    }
}

pub open spec fn roots_view(v: Seq<ProjectRoot>) -> Seq<RootView> {
    Seq::new(v.len(), |i: int| v[i]@)
}

/// The result of an upward walk, as a function of the probe's recorded
/// answers: starting at `curr`, each answer in `ans` says whether the file
/// `name` exists in the directory walked at that step; the first hit wins,
/// and the walk ends at the root of the path.
pub open spec fn spec_walk_upward(curr: Seq<char>, name: Seq<char>, ans: Seq<bool>) -> Option<
    Seq<char>,
>
    decreases ans.len(),
{
    if ans.len() == 0 {
        None
    } else if ans.first() {
        Some(spec_join(curr, name))
    } else {
        match spec_parent(curr) {
            Some(p) => spec_walk_upward(p, name, ans.drop_first()),
            None => None,
        }
    }
}

/// The candidates of the one-level child scan, as a function of the probe's
/// recorded answers: one manifest per listed entry whose answer was yes,
/// in listing order.
pub open spec fn spec_child_scan(entries: Seq<Seq<char>>, ans: Seq<bool>, i: int) -> Seq<RootView>
    decreases i,
{
    if i <= 0 {
        Seq::empty()
    } else {
        spec_child_scan(entries, ans, i - 1) + if ans[i - 1] {
            seq![RootView::CargoToml(spec_join(entries[i - 1], "Cargo.toml"@))]
        } else {
            Seq::empty()
        }
    }
}

/// The whole candidate list, as a function of the probe's recorded answers:
/// the descriptor name wins outright at `path` or on the upward walk; else
/// the build tool's manifest at `path` or on the upward walk is the sole
/// candidate; else the immediate children are scanned, one level only;
/// `None` stands for an unreadable directory.
pub open spec fn spec_discover(
    path: Seq<char>,
    json_ans: Seq<bool>,
    cargo_ans: Seq<bool>,
    listing: Option<Seq<Seq<char>>>,
    child_ans: Seq<bool>,
) -> Option<Seq<RootView>> {
    if spec_ends_with_component(path, "rust-project.json"@) {
        Some(seq![RootView::ProjectJson(path)])
    } else {
        match spec_walk_upward(path, "rust-project.json"@, json_ans) {
            Some(p) => Some(seq![RootView::ProjectJson(p)]),
            None => if spec_ends_with_component(path, "Cargo.toml"@) {
                Some(seq![RootView::CargoToml(path)])
            } else {
                match spec_walk_upward(path, "Cargo.toml"@, cargo_ans) {
                    Some(p) => Some(seq![RootView::CargoToml(p)]),
                    None => match listing {
                        None => None,
                        Some(es) => Some(spec_child_scan(es, child_ans, es.len() as int)),
                    },
                }
            },
        }
    }
}

/// What one discovery call amounts to: for the recorded probe answers, the
/// result is exactly the candidate list those answers determine, and an
/// unreadable directory is the one error.
pub open spec fn discover_outcome(
    path: Seq<char>,
    json_ans: Seq<bool>,
    cargo_ans: Seq<bool>,
    listing: Option<Seq<Seq<char>>>,
    child_ans: Seq<bool>,
    r: Result<Vec<ProjectRoot>, ProjectError>,
) -> bool {
    &&& (listing matches Some(es) ==> child_ans.len() == es.len())
    &&& match spec_discover(path, json_ans, cargo_ans, listing, child_ans) {
        Some(cands) => r matches Ok(v) && roots_view(v@) == cands,
        None => r matches Err(e) && (e matches ProjectError::DirUnreadable(p) && p@ == path),
    }
}

/// What one single-root discovery call amounts to: the candidate list the
/// recorded probe answers determine is reduced by [`ProjectRoot::pick_single`],
/// with no automatic disambiguation.
pub open spec fn discover_single_outcome(
    path: Seq<char>,
    json_ans: Seq<bool>,
    cargo_ans: Seq<bool>,
    listing: Option<Seq<Seq<char>>>,
    child_ans: Seq<bool>,
    r: Result<ProjectRoot, ProjectError>,
) -> bool {
    &&& (listing matches Some(es) ==> child_ans.len() == es.len())
    &&& match spec_discover(path, json_ans, cargo_ans, listing, child_ans) {
        Some(cands) => if cands.len() == 0 {
            r matches Err(e) && e == ProjectError::NoProjects
        } else if cands.len() == 1 {
            r matches Ok(c) && c@ == cands[0]
        } else {
            r matches Err(e) && e == ProjectError::MoreThanOneProject
        },
        None => r matches Err(e) && (e matches ProjectError::DirUnreadable(p) && p@ == path),
    }
}

/// A prefix of the child-scan answers fixes a prefix of the scan.
proof fn lemma_child_scan_grow(entries: Seq<Seq<char>>, a1: Seq<bool>, a2: Seq<bool>, i: int)
    requires
        0 <= i <= a1.len(),
        a1.len() <= a2.len(),
        forall|j: int| 0 <= j < a1.len() ==> a1[j] == a2[j],
    ensures
        spec_child_scan(entries, a1, i) == spec_child_scan(entries, a2, i),
    decreases i,
{
    if i > 0 {
        lemma_child_scan_grow(entries, a1, a2, i - 1);
    }
}

/// Walks upward from `curr` through every ancestor, looking for a directory
/// that holds a file named `name`; returns the file's path if one is found,
/// together with the record of the probe's answers, in walk order.
fn find_upward<F: FsProbe>(curr: &String, name: &str, fs: &F) -> (r: (
    Option<String>,
    Ghost<Seq<bool>>,
))
    ensures
        match spec_walk_upward(curr@, name@, r.1@) {
            Some(p) => r.0 matches Some(q) && q@ == p,
            None => r.0 is None,
        },
        r.0 matches Some(p) ==> spec_ends_with_component(p@, name@),
    decreases curr@.len(),
{
    let cand = join_path(curr.as_str(), name);
    proof {
        paths::lemma_join_ends_with(curr@, name@);
    }
    if fs.file_exists(&cand) {
        let ghost ans = seq![true];
        proof {
            assert(spec_walk_upward(curr@, name@, ans) == Some(spec_join(curr@, name@)));
        }
        return (Some(cand), Ghost(ans));
    }
    match parent_path(curr.as_str()) {
        Some(p) => {
            proof {
                paths::lemma_parent_shorter(curr@);
            }
            let rec = find_upward(&p, name, fs);
            let ghost ans = seq![false] + rec.1@;
            proof {
                assert(ans.first() == false);
                assert(ans.drop_first() =~= rec.1@);
            }
            (rec.0, Ghost(ans))
        },
        None => {
            let ghost ans = seq![false];
            proof {
                assert(ans.drop_first() =~= Seq::<bool>::empty());
            }
            (None, Ghost(ans))
        },
    }
}

impl ProjectRoot {
    /// Classifies an explicitly given manifest path by its file name.
    pub fn from_manifest_file(path: String) -> (r: Result<ProjectRoot, ProjectError>)
        ensures
            spec_ends_with_component(path@, "rust-project.json"@) ==> (r matches Ok(c) && c
                == ProjectRoot::ProjectJson(path)),
            !spec_ends_with_component(path@, "rust-project.json"@)
                && spec_ends_with_component(path@, "Cargo.toml"@) ==> (r matches Ok(c) && c
                == ProjectRoot::CargoToml(path)),
            !spec_ends_with_component(path@, "rust-project.json"@)
                && !spec_ends_with_component(path@, "Cargo.toml"@) ==> (r matches Err(e) && e
                == ProjectError::NotManifest(path)),
            r matches Ok(c) ==> candidate_wf(c),
    {
        if ends_with_component(path.as_str(), "rust-project.json") {
            return Ok(ProjectRoot::ProjectJson(path));
        }
        if ends_with_component(path.as_str(), "Cargo.toml") {
            return Ok(ProjectRoot::CargoToml(path));
        }
        Err(ProjectError::NotManifest(path))
    }

    /// Finds every candidate project root that governs `path`.
    ///
    /// A manually authored descriptor found at `path` or above wins outright.
    /// Otherwise the build tool's manifest is looked for at `path`, then
    /// upward through every ancestor, and failing that in the immediate child
    /// directories of `path` (one level only, to bound the scan). For the
    /// recorded probe answers, the result is exactly what [`spec_discover`]
    /// determines.
    pub fn discover<F: FsProbe>(path: &String, fs: &F) -> (r: Result<
        Vec<ProjectRoot>,
        ProjectError,
    >)
        ensures
            r matches Ok(v) ==> forall|i: int| 0 <= i < v@.len() ==> candidate_wf(#[trigger] v@[i]),
            spec_ends_with_component(path@, "rust-project.json"@) ==> (r matches Ok(v) && v@.len()
                == 1 && v@[0] == ProjectRoot::ProjectJson(*path)),
            r matches Err(e) ==> (e matches ProjectError::DirUnreadable(p) && p@ == path@),
            exists|
                json_ans: Seq<bool>,
                cargo_ans: Seq<bool>,
                listing: Option<Seq<Seq<char>>>,
                child_ans: Seq<bool>,
            |
                #[trigger] discover_outcome(path@, json_ans, cargo_ans, listing, child_ans, r),
    {
        if ends_with_component(path.as_str(), "rust-project.json") {
            let mut v: Vec<ProjectRoot> = Vec::new();
            v.push(ProjectRoot::ProjectJson(path.clone()));
            let result = Ok(v);
            proof {
                assert(result matches Ok(v) && roots_view(v@) =~= seq![
                    RootView::ProjectJson(path@),
                ]);
                assert(discover_outcome(
                    path@,
                    Seq::<bool>::empty(),
                    Seq::<bool>::empty(),
                    None,
                    Seq::<bool>::empty(),
                    result,
                ));
            }
            return result;
        }
        let ju = find_upward(path, "rust-project.json", fs);
        let ghost json_ans = ju.1@;
        if let Some(p) = ju.0 {
            let mut v: Vec<ProjectRoot> = Vec::new();
            v.push(ProjectRoot::ProjectJson(p));
            let result = Ok(v);
            proof {
                assert(result matches Ok(v) && roots_view(v@) =~= seq![
                    RootView::ProjectJson(spec_walk_upward(path@, "rust-project.json"@, json_ans)->Some_0),
                ]);
                assert(discover_outcome(
                    path@,
                    json_ans,
                    Seq::<bool>::empty(),
                    None,
                    Seq::<bool>::empty(),
                    result,
                ));
            }
            return result;
        }
        if ends_with_component(path.as_str(), "Cargo.toml") {
            let mut v: Vec<ProjectRoot> = Vec::new();
            v.push(ProjectRoot::CargoToml(path.clone()));
            let result = Ok(v);
            proof {
                assert(result matches Ok(v) && roots_view(v@) =~= seq![
                    RootView::CargoToml(path@),
                ]);
                assert(discover_outcome(
                    path@,
                    json_ans,
                    Seq::<bool>::empty(),
                    None,
                    Seq::<bool>::empty(),
                    result,
                ));
            }
            return result;
        }
        let cu = find_upward(path, "Cargo.toml", fs);
        let ghost cargo_ans = cu.1@;
        if let Some(p) = cu.0 {
            let mut v: Vec<ProjectRoot> = Vec::new();
            v.push(ProjectRoot::CargoToml(p));
            let result = Ok(v);
            proof {
                assert(result matches Ok(v) && roots_view(v@) =~= seq![
                    RootView::CargoToml(spec_walk_upward(path@, "Cargo.toml"@, cargo_ans)->Some_0),
                ]);
                assert(discover_outcome(
                    path@,
                    json_ans,
                    cargo_ans,
                    None,
                    Seq::<bool>::empty(),
                    result,
                ));
            }
            return result;
        }
        match fs.read_dir_entries(path) {
            None => {
                let result = Err(ProjectError::DirUnreadable(path.clone()));
                proof {
                    assert(discover_outcome(
                        path@,
                        json_ans,
                        cargo_ans,
                        None,
                        Seq::<bool>::empty(),
                        result,
                    ));
                }
                result
            },
            Some(entries) => {
                let ghost entriesv = entries.deep_view();
                let ghost mut child_ans: Seq<bool> = Seq::empty();
                let mut found: Vec<ProjectRoot> = Vec::new();
                let mut i: usize = 0;
                proof {
                    assert(roots_view(found@) =~= spec_child_scan(entriesv, child_ans, 0));
                }
                while i < entries.len()
                    invariant
                        0 <= i <= entries@.len(),
                        entriesv == entries.deep_view(),
                        child_ans.len() == i,
                        roots_view(found@) == spec_child_scan(entriesv, child_ans, i as int),
                        forall|k: int| 0 <= k < found@.len() ==> candidate_wf(#[trigger] found@[k]),
                    decreases entries@.len() - i,
                {
                    let cand = join_path(entries[i].as_str(), "Cargo.toml");
                    proof {
                        paths::lemma_join_ends_with(entries@[i as int]@, "Cargo.toml"@);
                    }
                    let ghost prev_found = roots_view(found@);
                    let ghost prev_ans = child_ans;
                    let e = fs.file_exists(&cand);
                    proof {
                        child_ans = child_ans.push(e);
                    }
                    if e {
                        found.push(ProjectRoot::CargoToml(cand));
                        proof {
                            assert(roots_view(found@) =~= prev_found.push(
                                RootView::CargoToml(spec_join(entriesv[i as int], "Cargo.toml"@)),
                            ));
                        }
                    }
                    proof {
                        lemma_child_scan_grow(entriesv, prev_ans, child_ans, i as int);
                        assert(roots_view(found@) =~= spec_child_scan(entriesv, child_ans, i + 1));
                    }
                    i += 1;
                }
                let result = Ok(found);
                proof {
                    assert(discover_outcome(
                        path@,
                        json_ans,
                        cargo_ans,
                        Some(entriesv),
                        child_ans,
                        result,
                    ));
                }
                result
            },
        }
    }

    /// Reduces a candidate list to the single governing root: no candidate
    /// is a "no projects" error, several are a "more than one project"
    /// error, and exactly one is returned unchanged — no automatic
    /// disambiguation is attempted.
    pub fn pick_single(candidates: Vec<ProjectRoot>) -> (r: Result<ProjectRoot, ProjectError>)
        ensures
            candidates@.len() == 0 ==> (r matches Err(e) && e == ProjectError::NoProjects),
            candidates@.len() == 1 ==> (r matches Ok(c) && c == candidates@[0]),
            candidates@.len() > 1 ==> (r matches Err(e) && e == ProjectError::MoreThanOneProject),
    {
        let mut candidates = candidates;
        let res = match candidates.pop() {
            None => {
                return Err(ProjectError::NoProjects);
            },
            Some(it) => it,
        };
        if candidates.len() > 0 {
            return Err(ProjectError::MoreThanOneProject);
        }
        Ok(res)
    }

    /// Like [`ProjectRoot::discover`], but demands exactly one candidate,
    /// through [`ProjectRoot::pick_single`]: for the recorded probe answers,
    /// no candidate yields the "no projects" error and several yield the
    /// "more than one project" error.
    pub fn discover_single<F: FsProbe>(path: &String, fs: &F) -> (r: Result<
        ProjectRoot,
        ProjectError,
    >)
        ensures
            r matches Ok(c) ==> candidate_wf(c),
            r matches Err(e) ==> !(e matches ProjectError::NotManifest(_)),
            spec_ends_with_component(path@, "rust-project.json"@) ==> (r matches Ok(c) && c
                == ProjectRoot::ProjectJson(*path)),
            exists|
                json_ans: Seq<bool>,
                cargo_ans: Seq<bool>,
                listing: Option<Seq<Seq<char>>>,
                child_ans: Seq<bool>,
            |
                #[trigger] discover_single_outcome(
                    path@,
                    json_ans,
                    cargo_ans,
                    listing,
                    child_ans,
                    r,
                ),
    {
        let dis = ProjectRoot::discover(path, fs);
        let ghost disv = dis;
        let ghost wit: (Seq<bool>, Seq<bool>, Option<Seq<Seq<char>>>, Seq<bool>) = choose|
            json_ans: Seq<bool>,
            cargo_ans: Seq<bool>,
            listing: Option<Seq<Seq<char>>>,
            child_ans: Seq<bool>,
        |
            discover_outcome(path@, json_ans, cargo_ans, listing, child_ans, disv);
        let candidates = match dis {
            Ok(v) => v,
            Err(e) => {
                let result = Err(e);
                proof {
                    assert(discover_single_outcome(
                        path@,
                        wit.0,
                        wit.1,
                        wit.2,
                        wit.3,
                        result,
                    ));
                }
                return result;
            },
        };
        let ghost candsv = candidates@;
        let result = ProjectRoot::pick_single(candidates);
        proof {
            assert(discover_outcome(path@, wit.0, wit.1, wit.2, wit.3, disv));
            assert(roots_view(candsv) == spec_discover(path@, wit.0, wit.1, wit.2, wit.3)->Some_0);
            assert(discover_single_outcome(path@, wit.0, wit.1, wit.2, wit.3, result));
        }
        result
    }
}

/// The workspace model: a tagged union over the two metadata sources.
pub enum ProjectWorkspace {
    /// Discovered from the build tool's metadata plus a standard-library
    /// root set.
    Cargo { cargo: CargoWorkspace, sysroot: Sysroot },
    /// Manually specified by a descriptor file.
    Json { project: JsonProject },
}

/// The output directories declared by descriptor entries, in order.
pub open spec fn spec_json_out_dirs(crates: Seq<JsonCrate>) -> Seq<Seq<char>>
    decreases crates.len(),
{
    if crates.len() == 0 {
        Seq::empty()
    } else {
        spec_json_out_dirs(crates.drop_last()) + match crates.last().out_dir {
            Some(d) => seq![d@],
            None => Seq::empty(),
        }
    }
}

/// The output directories declared by packages, in order.
pub open spec fn spec_cargo_out_dirs(pkgs: Seq<PackageData>) -> Seq<Seq<char>>
    decreases pkgs.len(),
{
    if pkgs.len() == 0 {
        Seq::empty()
    } else {
        spec_cargo_out_dirs(pkgs.drop_last()) + match pkgs.last().out_dir {
            Some(d) => seq![d@],
            None => Seq::empty(),
        }
    }
}

/// The macro-plugin binary paths declared by descriptor entries, in order.
pub open spec fn spec_json_dylib_paths(crates: Seq<JsonCrate>) -> Seq<Seq<char>>
    decreases crates.len(),
{
    if crates.len() == 0 {
        Seq::empty()
    } else {
        spec_json_dylib_paths(crates.drop_last()) + match crates.last().proc_macro_dylib_path {
            Some(d) => seq![d@],
            None => Seq::empty(),
        }
    }
}

/// The macro-plugin binary paths declared by packages, in order.
pub open spec fn spec_cargo_dylib_paths(pkgs: Seq<PackageData>) -> Seq<Seq<char>>
    decreases pkgs.len(),
{
    if pkgs.len() == 0 {
        Seq::empty()
    } else {
        spec_cargo_dylib_paths(pkgs.drop_last()) + match pkgs.last().proc_macro_dylib_path {
            Some(d) => seq![d@],
            None => Seq::empty(),
        }
    }
}

/// Index of the first descriptor root that lies at or above `path`.
pub open spec fn spec_first_containing_root(roots: Seq<JsonRoot>, path: Seq<char>) -> Option<int>
    decreases roots.len(),
{
    if roots.len() == 0 {
        None
    } else if spec_path_starts_with(path, roots.first().path@) {
        Some(0)
    } else {
        match spec_first_containing_root(roots.drop_first(), path) {
            Some(i) => Some(i + 1),
            None => None,
        }
    }
}

proof fn lemma_first_containing_root(roots: Seq<JsonRoot>, path: Seq<char>, i: int)
    requires
        0 <= i <= roots.len(),
        forall|j: int| 0 <= j < i ==> !spec_path_starts_with(path, (#[trigger] roots[j]).path@),
    ensures
        i == roots.len() ==> spec_first_containing_root(roots, path) is None,
        i < roots.len() && spec_path_starts_with(path, roots[i].path@)
            ==> spec_first_containing_root(roots, path) == Some(i),
    decreases i,
{
    if i > 0 {
        assert(!spec_path_starts_with(path, roots.first().path@));
        assert forall|j: int| 0 <= j < i - 1 implies !spec_path_starts_with(
            path,
            (#[trigger] roots.drop_first()[j]).path@,
        ) by {
            assert(roots.drop_first()[j] == roots[j + 1]);
        }
        lemma_first_containing_root(roots.drop_first(), path, i - 1);
        if i < roots.len() && spec_path_starts_with(path, roots[i].path@) {
            assert(roots.drop_first()[i - 1] == roots[i]);
        }
    }
}

impl ProjectWorkspace {
    /// Both metadata sources were delivered well-formed.
    pub open spec fn wf(&self) -> bool {
        match self {
            ProjectWorkspace::Cargo { cargo, sysroot } => cargo.wf() && sysroot.wf(),
            ProjectWorkspace::Json { project } => project.wf(),
        }
    }

    /// The package roots of the workspace: every descriptor root, or every
    /// package root followed by every standard-library root folder (the
    /// latter never members).
    pub fn to_roots(&self) -> (r: Vec<PackageRoot>)
        ensures
            match self {
                ProjectWorkspace::Json { project } => r@.len() == project.roots@.len() && (forall|
                    i: int,
                |
                    0 <= i < r@.len() ==> (#[trigger] r@[i]).path@ == project.roots@[i].path@
                        && r@[i].is_member == project.roots@[i].is_member),
                ProjectWorkspace::Cargo { cargo, sysroot } => {
                    &&& r@.len() == cargo.packages@.len() + sysroot.crates@.len()
                    &&& forall|i: int|
                        0 <= i < cargo.packages@.len() ==> (#[trigger] r@[i]).path@
                            == cargo.packages@[i].root@ && r@[i].is_member
                            == cargo.packages@[i].is_member
                    &&& forall|i: int|
                        cargo.packages@.len() <= i < r@.len() ==> (#[trigger] r@[i]).path@
                            == sysroot.crates@[i - cargo.packages@.len()].root_dir@
                            && !r@[i].is_member
                },
            },
    {
        match self {
            ProjectWorkspace::Json { project } => {
                let mut r: Vec<PackageRoot> = Vec::new();
                let mut i: usize = 0;
                while i < project.roots.len()
                    invariant
                        0 <= i <= project.roots@.len(),
                        r@.len() == i,
                        forall|k: int|
                            0 <= k < i ==> (#[trigger] r@[k]).path@ == project.roots@[k].path@
                                && r@[k].is_member == project.roots@[k].is_member,
                    decreases project.roots@.len() - i,
                {
                    let root = &project.roots[i];
                    r.push(PackageRoot { path: root.path.clone(), is_member: root.is_member });
                    i += 1;
                }
                r
            },
            ProjectWorkspace::Cargo { cargo, sysroot } => {
                let mut r: Vec<PackageRoot> = Vec::new();
                let mut i: usize = 0;
                while i < cargo.packages.len()
                    invariant
                        0 <= i <= cargo.packages@.len(),
                        r@.len() == i,
                        forall|k: int|
                            0 <= k < i ==> (#[trigger] r@[k]).path@ == cargo.packages@[k].root@
                                && r@[k].is_member == cargo.packages@[k].is_member,
                    decreases cargo.packages@.len() - i,
                {
                    let pkg = &cargo.packages[i];
                    r.push(PackageRoot { path: pkg.root.clone(), is_member: pkg.is_member });
                    i += 1;
                }
                let np = cargo.packages.len();
                let mut j: usize = 0;
                while j < sysroot.crates.len()
                    invariant
                        0 <= j <= sysroot.crates@.len(),
                        np == cargo.packages@.len(),
                        r@.len() == np + j,
                        forall|k: int|
                            0 <= k < np ==> (#[trigger] r@[k]).path@ == cargo.packages@[k].root@
                                && r@[k].is_member == cargo.packages@[k].is_member,
                        forall|k: int|
                            np <= k < r@.len() ==> (#[trigger] r@[k]).path@ == sysroot.crates@[k
                                - np].root_dir@ && !r@[k].is_member,
                    decreases sysroot.crates@.len() - j,
                {
                    let krate = &sysroot.crates[j];
                    r.push(PackageRoot { path: krate.root_dir.clone(), is_member: false });
                    j += 1;
                }
                r
            },
        }
    }

    /// Every declared output directory, in declaration order.
    pub fn out_dirs(&self) -> (r: Vec<String>)
        ensures
            match self {
                ProjectWorkspace::Json { project } => r.deep_view() == spec_json_out_dirs(
                    project.crates@,
                ),
                ProjectWorkspace::Cargo { cargo, sysroot: _ } => r.deep_view()
                    == spec_cargo_out_dirs(cargo.packages@),
            },
    {
        let mut r: Vec<String> = Vec::new();
        match self {
            ProjectWorkspace::Json { project } => {
                let mut i: usize = 0;
                while i < project.crates.len()
                    invariant
                        0 <= i <= project.crates@.len(),
                        r.deep_view() == spec_json_out_dirs(project.crates@.take(i as int)),
                    decreases project.crates@.len() - i,
                {
                    let ghost pre = r.deep_view();
                    if let Some(d) = &project.crates[i].out_dir {
                        r.push(d.clone());
                    }
                    proof {
                        let upto = project.crates@.take(i + 1);
                        assert(upto.drop_last() =~= project.crates@.take(i as int));
                        assert(upto.last() == project.crates@[i as int]);
                        match project.crates@[i as int].out_dir {
                            Some(d) => {
                                assert(r.deep_view() =~= pre.push(d@));
                                assert(r.deep_view() =~= spec_json_out_dirs(upto));
                            },
                            None => {
                                assert(r.deep_view() =~= spec_json_out_dirs(upto));
                            },
                        }
                    }
                    i += 1;
                }
                proof {
                    assert(project.crates@.take(project.crates@.len() as int) =~= project.crates@);
                }
            },
            ProjectWorkspace::Cargo { cargo, sysroot: _ } => {
                let mut i: usize = 0;
                while i < cargo.packages.len()
                    invariant
                        0 <= i <= cargo.packages@.len(),
                        r.deep_view() == spec_cargo_out_dirs(cargo.packages@.take(i as int)),
                    decreases cargo.packages@.len() - i,
                {
                    let ghost pre = r.deep_view();
                    if let Some(d) = &cargo.packages[i].out_dir {
                        r.push(d.clone());
                    }
                    proof {
                        let upto = cargo.packages@.take(i + 1);
                        assert(upto.drop_last() =~= cargo.packages@.take(i as int));
                        assert(upto.last() == cargo.packages@[i as int]);
                        match cargo.packages@[i as int].out_dir {
                            Some(d) => {
                                assert(r.deep_view() =~= pre.push(d@));
                                assert(r.deep_view() =~= spec_cargo_out_dirs(upto));
                            },
                            None => {
                                assert(r.deep_view() =~= spec_cargo_out_dirs(upto));
                            },
                        }
                    }
                    i += 1;
                }
                proof {
                    assert(cargo.packages@.take(cargo.packages@.len() as int) =~= cargo.packages@);
                }
            },
        }
        r
    }

    /// Every declared macro-plugin binary path, in declaration order.
    pub fn proc_macro_dylib_paths(&self) -> (r: Vec<String>)
        ensures
            match self {
                ProjectWorkspace::Json { project } => r.deep_view() == spec_json_dylib_paths(
                    project.crates@,
                ),
                ProjectWorkspace::Cargo { cargo, sysroot: _ } => r.deep_view()
                    == spec_cargo_dylib_paths(cargo.packages@),
            },
    {
        let mut r: Vec<String> = Vec::new();
        match self {
            ProjectWorkspace::Json { project } => {
                let mut i: usize = 0;
                while i < project.crates.len()
                    invariant
                        0 <= i <= project.crates@.len(),
                        r.deep_view() == spec_json_dylib_paths(project.crates@.take(i as int)),
                    decreases project.crates@.len() - i,
                {
                    let ghost pre = r.deep_view();
                    if let Some(d) = &project.crates[i].proc_macro_dylib_path {
                        r.push(d.clone());
                    }
                    proof {
                        let upto = project.crates@.take(i + 1);
                        assert(upto.drop_last() =~= project.crates@.take(i as int));
                        assert(upto.last() == project.crates@[i as int]);
                        match project.crates@[i as int].proc_macro_dylib_path {
                            Some(d) => {
                                assert(r.deep_view() =~= pre.push(d@));
                                assert(r.deep_view() =~= spec_json_dylib_paths(upto));
                            },
                            None => {
                                assert(r.deep_view() =~= spec_json_dylib_paths(upto));
                            },
                        }
                    }
                    i += 1;
                }
                proof {
                    assert(project.crates@.take(project.crates@.len() as int) =~= project.crates@);
                }
            },
            ProjectWorkspace::Cargo { cargo, sysroot: _ } => {
                let mut i: usize = 0;
                while i < cargo.packages.len()
                    invariant
                        0 <= i <= cargo.packages@.len(),
                        r.deep_view() == spec_cargo_dylib_paths(cargo.packages@.take(i as int)),
                    decreases cargo.packages@.len() - i,
                {
                    let ghost pre = r.deep_view();
                    if let Some(d) = &cargo.packages[i].proc_macro_dylib_path {
                        r.push(d.clone());
                    }
                    proof {
                        let upto = cargo.packages@.take(i + 1);
                        assert(upto.drop_last() =~= cargo.packages@.take(i as int));
                        assert(upto.last() == cargo.packages@[i as int]);
                        match cargo.packages@[i as int].proc_macro_dylib_path {
                            Some(d) => {
                                assert(r.deep_view() =~= pre.push(d@));
                                assert(r.deep_view() =~= spec_cargo_dylib_paths(upto));
                            },
                            None => {
                                assert(r.deep_view() =~= spec_cargo_dylib_paths(upto));
                            },
                        }
                    }
                    i += 1;
                }
                proof {
                    assert(cargo.packages@.take(cargo.packages@.len() as int) =~= cargo.packages@);
                }
            },
        }
        r
    }

    /// The number of constituent units the workspace describes.
    pub fn n_packages(&self) -> (r: usize)
        requires
            match self {
                ProjectWorkspace::Cargo { cargo, sysroot } => cargo.packages@.len()
                    + sysroot.crates@.len() <= usize::MAX,
                ProjectWorkspace::Json { .. } => true,
            },
        ensures
            match self {
                ProjectWorkspace::Json { project } => r == project.crates@.len(),
                ProjectWorkspace::Cargo { cargo, sysroot } => r == cargo.packages@.len()
                    + sysroot.crates@.len(),
            },
    {
        match self {
            ProjectWorkspace::Json { project } => project.crates.len(),
            ProjectWorkspace::Cargo { cargo, sysroot } => cargo.packages.len()
                + sysroot.crates.len(),
        }
    }

    /// The workspace root that contains `path`, if any: the build-tool
    /// workspace root, or the first descriptor root at or above `path`.
    pub fn workspace_root_for<'a>(&'a self, path: &String) -> (r: Option<&'a String>)
        ensures
            match self {
                ProjectWorkspace::Cargo { cargo, sysroot: _ } => {
                    &&& r is Some <==> spec_path_starts_with(path@, cargo.workspace_root@)
                    &&& (r matches Some(p) ==> p@ == cargo.workspace_root@)
                },
                ProjectWorkspace::Json { project } => match spec_first_containing_root(
                    project.roots@,
                    path@,
                ) {
                    Some(i) => (r matches Some(p) && p@ == project.roots@[i].path@),
                    None => r is None,
                },
            },
    {
        match self {
            ProjectWorkspace::Cargo { cargo, sysroot: _ } => {
                if path_starts_with(path.as_str(), cargo.workspace_root.as_str()) {
                    Some(&cargo.workspace_root)
                } else {
                    None
                }
            },
            ProjectWorkspace::Json { project } => {
                let n = project.roots.len();
                let mut i: usize = 0;
                while i < n
                    invariant
                        0 <= i <= n,
                        n == project.roots@.len(),
                        forall|j: int|
                            0 <= j < i ==> !spec_path_starts_with(
                                path@,
                                (#[trigger] project.roots@[j]).path@,
                            ),
                    decreases n - i,
                {
                    if path_starts_with(path.as_str(), project.roots[i].path.as_str()) {
                        proof {
                            lemma_first_containing_root(project.roots@, path@, i as int);
                        }
                        return Some(&project.roots[i].path);
                    }
                    i += 1;
                }
                proof {
                    lemma_first_containing_root(project.roots@, path@, n as int);
                }
                None
            },
        }
    }
}

} // verus!
