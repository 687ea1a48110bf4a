use project_model::base::{CrateId, Edition, FileId, ProcMacroHandle};
use project_model::cargo_workspace::{
    CargoWorkspace, PackageData, PackageDependency, TargetData, TargetKind,
};
use project_model::cfg::CfgOptions;
use project_model::graph_builder::{FileLoader, MacroResolver};
use project_model::sysroot::{Sysroot, SysrootCrateData};
use project_model::ProjectWorkspace;

/// Accepts every root, numbering them in call order.
struct CountingLoader {
    next: u32,
}

impl FileLoader for CountingLoader {
    fn load(&mut self, _path: &String) -> Option<FileId> {
        let id = FileId(self.next);
        self.next += 1;
        Some(id)
    }
}

struct NoMacros;

impl MacroResolver for NoMacros {
    fn by_dylib_path(&self, _path: &String) -> Vec<ProcMacroHandle> {
        Vec::new()
    }
}

fn s(x: &str) -> String {
    x.to_string()
}

fn package(name: &str, targets: Vec<TargetData>, deps: Vec<PackageDependency>) -> PackageData {
    PackageData {
        name: s(name),
        root: s("/ws"),
        edition: Edition::Edition2018,
        features: Vec::new(),
        is_member: true,
        targets,
        dependencies: deps,
        out_dir: None,
        proc_macro_dylib_path: None,
    }
}

fn lib_target(name: &str, root: &str) -> TargetData {
    TargetData { name: s(name), root: s(root), kind: TargetKind::Lib, is_proc_macro: false }
}

fn bin_target(name: &str, root: &str) -> TargetData {
    TargetData { name: s(name), root: s(root), kind: TargetKind::Bin, is_proc_macro: false }
}

fn core_only_sysroot() -> Sysroot {
    Sysroot {
        crates: vec![SysrootCrateData {
            name: s("core"),
            root: s("/sysroot/core/lib.rs"),
            root_dir: s("/sysroot/core"),
            deps: Vec::new(),
        }],
    }
}

fn empty_cfg() -> CfgOptions {
    CfgOptions { atoms: Vec::new(), key_values: Vec::new() }
}

#[test]
fn two_package_workspace_end_to_end() {
    // Package a (library) is a dependency of package b (binary).
    let cargo = CargoWorkspace {
        packages: vec![
            package("a", vec![lib_target("a", "/ws/a/lib.rs")], Vec::new()),
            package(
                "b",
                vec![bin_target("b", "/ws/b/main.rs")],
                vec![PackageDependency { pkg: 0, name: s("a") }],
            ),
        ],
        workspace_root: s("/ws"),
    };
    let ws = ProjectWorkspace::Cargo { cargo, sysroot: core_only_sysroot() };
    let mut loader = CountingLoader { next: 0 };
    let (graph, diags) = ws.to_crate_graph(&empty_cfg(), &Vec::new(), &NoMacros, &mut loader);
    assert_eq!(diags.len(), 0);
    // Units: core, a's library target, b's binary target.
    assert_eq!(graph.len(), 3);
    let core = graph.crate_data(CrateId(0));
    let a = graph.crate_data(CrateId(1));
    let b = graph.crate_data(CrateId(2));
    assert_eq!(core.display_name.as_ref().unwrap().name, "core");
    assert_eq!(a.display_name.as_ref().unwrap().name, "a");
    assert_eq!(b.display_name.as_ref().unwrap().name, "b");
    // Both ordinary units gain an implicit edge to core, named "core".
    assert_eq!(a.dependencies.len(), 1);
    assert_eq!(a.dependencies[0].name.name, "core");
    assert_eq!(a.dependencies[0].crate_id, CrateId(0));
    // b additionally gains exactly one edge to a's library unit, named "a".
    assert_eq!(b.dependencies.len(), 2);
    assert_eq!(b.dependencies[0].name.name, "core");
    assert_eq!(b.dependencies[0].crate_id, CrateId(0));
    assert_eq!(b.dependencies[1].name.name, "a");
    assert_eq!(b.dependencies[1].crate_id, CrateId(1));
    // The standard-library unit receives no implicit edges here.
    assert_eq!(core.dependencies.len(), 0);
}

#[test]
fn sysroot_unit_loses_test_atom() {
    let cargo = CargoWorkspace {
        packages: vec![package("a", vec![lib_target("a", "/ws/a/lib.rs")], Vec::new())],
        workspace_root: s("/ws"),
    };
    let ws = ProjectWorkspace::Cargo { cargo, sysroot: core_only_sysroot() };
    let mut loader = CountingLoader { next: 0 };
    // The default flag set carries the test-mode atom.
    let default_cfg = CfgOptions { atoms: vec![s("test"), s("unix")], key_values: Vec::new() };
    let (graph, _) = ws.to_crate_graph(&default_cfg, &Vec::new(), &NoMacros, &mut loader);
    let core = graph.crate_data(CrateId(0));
    // The standard-library unit has it stripped, other flags kept.
    assert!(!core.cfg_options.atoms.iter().any(|a| a == "test"));
    assert!(core.cfg_options.atoms.iter().any(|a| a == "unix"));
    // The package unit keeps the default flags as they came.
    let a = graph.crate_data(CrateId(1));
    assert!(a.cfg_options.atoms.iter().any(|a| a == "test"));
}

#[test]
fn dashed_package_name_is_normalized_everywhere() {
    // One package named with dashes, whose binary depends on its own library.
    let cargo = CargoWorkspace {
        packages: vec![package(
            "my-pkg",
            vec![lib_target("my-pkg", "/ws/lib.rs"), bin_target("cli", "/ws/main.rs")],
            Vec::new(),
        )],
        workspace_root: s("/ws"),
    };
    let ws = ProjectWorkspace::Cargo { cargo, sysroot: Sysroot { crates: Vec::new() } };
    let mut loader = CountingLoader { next: 0 };
    let (graph, diags) = ws.to_crate_graph(&empty_cfg(), &Vec::new(), &NoMacros, &mut loader);
    assert_eq!(diags.len(), 0);
    assert_eq!(graph.len(), 2);
    let lib = graph.crate_data(CrateId(0));
    let bin = graph.crate_data(CrateId(1));
    // The dashed name appears only with dashes replaced by underscores,
    // both as the unit name and as the dependency visibility name.
    assert_eq!(lib.display_name.as_ref().unwrap().name, "my_pkg");
    assert_eq!(bin.display_name.as_ref().unwrap().name, "my_pkg");
    assert_eq!(bin.dependencies.len(), 1);
    assert_eq!(bin.dependencies[0].name.name, "my_pkg");
    assert_eq!(bin.dependencies[0].crate_id, CrateId(0));
    // The library unit does not depend on itself.
    assert_eq!(lib.dependencies.len(), 0);
}

#[test]
fn missing_target_root_is_reported_and_skipped() {
    struct RejectMain;
    impl FileLoader for RejectMain {
        fn load(&mut self, path: &String) -> Option<FileId> {
            if path.ends_with("main.rs") {
                None
            } else {
                Some(FileId(1))
            }
        }
    }
    let cargo = CargoWorkspace {
        packages: vec![package(
            "a",
            vec![lib_target("a", "/ws/lib.rs"), bin_target("cli", "/ws/main.rs")],
            Vec::new(),
        )],
        workspace_root: s("/ws"),
    };
    let ws = ProjectWorkspace::Cargo { cargo, sysroot: Sysroot { crates: Vec::new() } };
    let mut loader = RejectMain;
    let (graph, diags) = ws.to_crate_graph(&empty_cfg(), &Vec::new(), &NoMacros, &mut loader);
    assert_eq!(graph.len(), 1);
    assert_eq!(diags.len(), 1);
    match &diags[0] {
        project_model::graph_builder::BuildDiagnostic::MissingTargetRoot { path } => {
            assert_eq!(path, "/ws/main.rs");
        }
        _ => panic!("expected a missing-root diagnostic"),
    }
}

#[test]
fn proc_macro_target_links_to_macro_support_root() {
    let mut pkg = package(
        "m",
        vec![TargetData {
            name: s("m"),
            root: s("/ws/m/lib.rs"),
            kind: TargetKind::Lib,
            is_proc_macro: true,
        }],
        Vec::new(),
    );
    pkg.proc_macro_dylib_path = Some(s("/target/libm.so"));
    let sysroot = Sysroot {
        crates: vec![
            SysrootCrateData {
                name: s("core"),
                root: s("/sysroot/core/lib.rs"),
                root_dir: s("/sysroot/core"),
                deps: Vec::new(),
            },
            SysrootCrateData {
                name: s("proc_macro"),
                root: s("/sysroot/proc_macro/lib.rs"),
                root_dir: s("/sysroot/proc_macro"),
                deps: vec![0],
            },
        ],
    };
    let cargo = CargoWorkspace { packages: vec![pkg], workspace_root: s("/ws") };
    let ws = ProjectWorkspace::Cargo { cargo, sysroot };
    let mut loader = CountingLoader { next: 0 };
    struct TwoHandles;
    impl MacroResolver for TwoHandles {
        fn by_dylib_path(&self, _path: &String) -> Vec<ProcMacroHandle> {
            vec![ProcMacroHandle(1), ProcMacroHandle(2)]
        }
    }
    let (graph, diags) = ws.to_crate_graph(&empty_cfg(), &Vec::new(), &TwoHandles, &mut loader);
    assert_eq!(diags.len(), 0);
    // Units: core, proc_macro, the plugin's library.
    assert_eq!(graph.len(), 3);
    // The sysroot's own declared dependency proc_macro -> core is wired.
    let pm = graph.crate_data(CrateId(1));
    assert_eq!(pm.dependencies.len(), 1);
    assert_eq!(pm.dependencies[0].name.name, "core");
    // The plugin unit carries its handles and the implicit proc_macro edge.
    let m = graph.crate_data(CrateId(2));
    assert_eq!(m.proc_macro, vec![ProcMacroHandle(1), ProcMacroHandle(2)]);
    assert!(m.dependencies.iter().any(|d| d.name.name == "proc_macro" && d.crate_id == CrateId(1)));
    assert!(m.dependencies.iter().any(|d| d.name.name == "core" && d.crate_id == CrateId(0)));
}

#[test]
fn intra_package_edge_named_after_package() {
    // The library target carries its own name; the intra-package edge is
    // still named after the package, dash-normalized.
    let cargo = CargoWorkspace {
        packages: vec![package(
            "pkg-one",
            vec![lib_target("renamed_lib", "/ws/lib.rs"), bin_target("cli", "/ws/main.rs")],
            Vec::new(),
        )],
        workspace_root: s("/ws"),
    };
    let ws = ProjectWorkspace::Cargo { cargo, sysroot: Sysroot { crates: Vec::new() } };
    let mut loader = CountingLoader { next: 0 };
    let (graph, diags) = ws.to_crate_graph(&empty_cfg(), &Vec::new(), &NoMacros, &mut loader);
    assert_eq!(diags.len(), 0);
    let bin = graph.crate_data(CrateId(1));
    assert_eq!(bin.dependencies.len(), 1);
    assert_eq!(bin.dependencies[0].name.name, "pkg_one");
    assert_eq!(bin.dependencies[0].crate_id, CrateId(0));
}
