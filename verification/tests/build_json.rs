use project_model::base::{CrateId, Edition, FileId, ProcMacroHandle};
use project_model::cfg::CfgOptions;
use project_model::graph_builder::{BuildDiagnostic, FileLoader, MacroResolver};
use project_model::json_project::{JsonCrate, JsonDep, JsonProject};
use project_model::ProjectWorkspace;

/// Interns paths from a fixed table; everything else is rejected.
struct TableLoader {
    table: Vec<(String, u32)>,
}

impl FileLoader for TableLoader {
    fn load(&mut self, path: &String) -> Option<FileId> {
        self.table.iter().find(|(p, _)| p == path).map(|(_, id)| FileId(*id))
    }
}

/// Resolves every plugin path to one fixed handle.
struct OneHandle;

impl MacroResolver for OneHandle {
    fn by_dylib_path(&self, _path: &String) -> Vec<ProcMacroHandle> {
        vec![ProcMacroHandle(7)]
    }
}

fn s(x: &str) -> String {
    x.to_string()
}

fn crate_decl(root: &str, deps: Vec<JsonDep>) -> JsonCrate {
    JsonCrate {
        root_module: s(root),
        edition: Edition::Edition2018,
        deps,
        atom_cfgs: Vec::new(),
        key_value_cfgs: Vec::new(),
        out_dir: None,
        proc_macro_dylib_path: None,
    }
}

fn empty_cfg() -> CfgOptions {
    CfgOptions { atoms: Vec::new(), key_values: Vec::new() }
}

#[test]
fn mutual_dependency_commits_exactly_one_edge() {
    // Two entries declaring a mutual dependency: 0 -> 1 and 1 -> 0.
    let project = JsonProject {
        roots: Vec::new(),
        crates: vec![
            crate_decl("/p/zero.rs", vec![JsonDep { krate: 1, name: s("one") }]),
            crate_decl("/p/one.rs", vec![JsonDep { krate: 0, name: s("zero") }]),
        ],
    };
    let ws = ProjectWorkspace::Json { project };
    let mut loader = TableLoader { table: vec![(s("/p/zero.rs"), 10), (s("/p/one.rs"), 11)] };
    let (graph, diags) = ws.to_crate_graph(&empty_cfg(), &Vec::new(), &OneHandle, &mut loader);
    assert_eq!(graph.len(), 2);
    let d0 = graph.crate_data(CrateId(0));
    let d1 = graph.crate_data(CrateId(1));
    // Exactly one of the two declared edges is committed: the first.
    assert_eq!(d0.dependencies.len(), 1);
    assert_eq!(d0.dependencies[0].crate_id, CrateId(1));
    assert_eq!(d0.dependencies[0].name.name, "one");
    assert_eq!(d1.dependencies.len(), 0);
    // The second is rejected as a cycle and reported.
    assert_eq!(diags.len(), 1);
    match &diags[0] {
        BuildDiagnostic::CyclicDependency { from, to } => {
            assert_eq!(*from, CrateId(1));
            assert_eq!(*to, CrateId(0));
        }
        other => panic!("unexpected diagnostic: {:?}", kind_of(other)),
    }
}

#[test]
fn rejected_root_produces_no_unit() {
    let project = JsonProject {
        roots: Vec::new(),
        crates: vec![
            crate_decl("/p/kept.rs", vec![JsonDep { krate: 1, name: s("gone") }]),
            crate_decl("/p/gone.rs", Vec::new()),
        ],
    };
    let ws = ProjectWorkspace::Json { project };
    // The loader rejects the second root.
    let mut loader = TableLoader { table: vec![(s("/p/kept.rs"), 1)] };
    let (graph, diags) = ws.to_crate_graph(&empty_cfg(), &Vec::new(), &OneHandle, &mut loader);
    assert_eq!(graph.len(), 1);
    // The dependency on the rejected entry is silently inert.
    assert_eq!(graph.crate_data(CrateId(0)).dependencies.len(), 0);
    assert_eq!(graph.crate_data(CrateId(0)).file_id, FileId(1));
    // The rejected root is reported.
    assert_eq!(diags.len(), 1);
    match &diags[0] {
        BuildDiagnostic::MissingTargetRoot { path } => assert_eq!(path, "/p/gone.rs"),
        other => panic!("unexpected diagnostic: {:?}", kind_of(other)),
    }
}

#[test]
fn descriptor_unit_attributes() {
    let mut krate = crate_decl("/p/a.rs", Vec::new());
    krate.edition = Edition::Edition2015;
    krate.atom_cfgs = vec![s("feat_x")];
    krate.key_value_cfgs = vec![(s("k"), s("v"))];
    krate.out_dir = Some(s("/out/a"));
    krate.proc_macro_dylib_path = Some(s("/lib/a.so"));
    let project = JsonProject { roots: Vec::new(), crates: vec![krate] };
    let ws = ProjectWorkspace::Json { project };
    let mut loader = TableLoader { table: vec![(s("/p/a.rs"), 5)] };
    let ext_roots = vec![(s("/out/a"), project_model::base::ExternSourceId(9))];
    let (graph, diags) = ws.to_crate_graph(&empty_cfg(), &ext_roots, &OneHandle, &mut loader);
    assert_eq!(diags.len(), 0);
    let d = graph.crate_data(CrateId(0));
    assert_eq!(d.file_id, FileId(5));
    assert_eq!(d.edition, Edition::Edition2015);
    // Descriptor-sourced units carry no inferred name.
    assert!(d.display_name.is_none());
    assert!(d.cfg_options.atoms.iter().any(|a| a == "feat_x"));
    assert!(d.cfg_options.key_values.iter().any(|(k, v)| k == "k" && v == "v"));
    // The output directory lands in the environment overlay.
    assert_eq!(d.env.entries, vec![(s("OUT_DIR"), s("/out/a"))]);
    assert_eq!(d.extern_source.extern_paths.len(), 1);
    assert_eq!(d.extern_source.extern_paths[0].0, "/out/a");
    assert_eq!(d.proc_macro, vec![ProcMacroHandle(7)]);
}

fn kind_of(d: &BuildDiagnostic) -> &'static str {
    match d {
        BuildDiagnostic::CyclicDependency { .. } => "cycle",
        BuildDiagnostic::MissingTargetRoot { .. } => "missing root",
    }
}
