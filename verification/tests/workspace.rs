use project_model::base::Edition;
use project_model::cargo_workspace::{CargoWorkspace, PackageData, TargetData, TargetKind};
use project_model::cfg::{get_rustc_cfg_options, CfgOptions};
use project_model::json_project::{JsonCrate, JsonProject, JsonRoot};
use project_model::sysroot::{Sysroot, SysrootCrateData};
use project_model::{PackageRoot, ProjectWorkspace};

fn s(x: &str) -> String {
    x.to_string()
}

fn json_crate(root: &str, out_dir: Option<&str>, dylib: Option<&str>) -> JsonCrate {
    JsonCrate {
        root_module: s(root),
        edition: Edition::Edition2018,
        deps: Vec::new(),
        atom_cfgs: Vec::new(),
        key_value_cfgs: Vec::new(),
        out_dir: out_dir.map(s),
        proc_macro_dylib_path: dylib.map(s),
    }
}

fn pkg(name: &str, root: &str, member: bool, out_dir: Option<&str>) -> PackageData {
    PackageData {
        name: s(name),
        root: s(root),
        edition: Edition::Edition2018,
        features: Vec::new(),
        is_member: member,
        targets: vec![TargetData {
            name: s(name),
            root: s("/x/lib.rs"),
            kind: TargetKind::Lib,
            is_proc_macro: false,
        }],
        dependencies: Vec::new(),
        out_dir: out_dir.map(s),
        proc_macro_dylib_path: None,
    }
}

fn sys_crate(name: &str, dir: &str) -> SysrootCrateData {
    SysrootCrateData {
        name: s(name),
        root: s(&format!("{}/lib.rs", dir)),
        root_dir: s(dir),
        deps: Vec::new(),
    }
}

#[test]
fn json_roots_and_counts() {
    let ws = ProjectWorkspace::Json {
        project: JsonProject {
            roots: vec![
                JsonRoot { path: s("/r/a"), is_member: true },
                JsonRoot { path: s("/r/dep"), is_member: false },
            ],
            crates: vec![
                json_crate("/r/a/lib.rs", Some("/out"), None),
                json_crate("/r/dep/lib.rs", None, Some("/plug.so")),
            ],
        },
    };
    let roots = ws.to_roots();
    assert_eq!(roots.len(), 2);
    assert_eq!(roots[0].path(), "/r/a");
    assert!(roots[0].is_member());
    assert_eq!(roots[1].path(), "/r/dep");
    assert!(!roots[1].is_member());
    assert_eq!(ws.n_packages(), 2);
    assert_eq!(ws.out_dirs(), vec![s("/out")]);
    assert_eq!(ws.proc_macro_dylib_paths(), vec![s("/plug.so")]);
}

#[test]
fn cargo_roots_and_counts() {
    let ws = ProjectWorkspace::Cargo {
        cargo: CargoWorkspace {
            packages: vec![
                pkg("a", "/ws/a", true, Some("/target/out-a")),
                pkg("dep", "/reg/dep", false, None),
            ],
            workspace_root: s("/ws"),
        },
        sysroot: Sysroot { crates: vec![sys_crate("core", "/sysroot/core")] },
    };
    let roots = ws.to_roots();
    assert_eq!(roots.len(), 3);
    assert_eq!(roots[0].path(), "/ws/a");
    assert!(roots[0].is_member());
    assert_eq!(roots[1].path(), "/reg/dep");
    assert!(!roots[1].is_member());
    // Standard-library roots come last and are never members.
    assert_eq!(roots[2].path(), "/sysroot/core");
    assert!(!roots[2].is_member());
    assert_eq!(ws.n_packages(), 3);
    assert_eq!(ws.out_dirs(), vec![s("/target/out-a")]);
    assert_eq!(ws.proc_macro_dylib_paths(), Vec::<String>::new());
}

#[test]
fn workspace_root_for_paths() {
    let ws = ProjectWorkspace::Cargo {
        cargo: CargoWorkspace { packages: Vec::new(), workspace_root: s("/ws/app") },
        sysroot: Sysroot { crates: Vec::new() },
    };
    assert_eq!(ws.workspace_root_for(&s("/ws/app/src/main.rs")), Some(&s("/ws/app")));
    assert_eq!(ws.workspace_root_for(&s("/ws/app")), Some(&s("/ws/app")));
    // Component-wise containment: "/ws/application" is not under "/ws/app".
    assert_eq!(ws.workspace_root_for(&s("/ws/application")), None);
    assert_eq!(ws.workspace_root_for(&s("/elsewhere")), None);

    let ws = ProjectWorkspace::Json {
        project: JsonProject {
            roots: vec![
                JsonRoot { path: s("/r/one"), is_member: true },
                JsonRoot { path: s("/r"), is_member: true },
            ],
            crates: Vec::new(),
        },
    };
    // The first containing root wins.
    assert_eq!(ws.workspace_root_for(&s("/r/one/src")), Some(&s("/r/one")));
    assert_eq!(ws.workspace_root_for(&s("/r/two")), Some(&s("/r")));
    assert_eq!(ws.workspace_root_for(&s("/q")), None);
}

#[test]
fn package_root_constructors() {
    let m = PackageRoot::new_member(s("/a"));
    assert_eq!(m.path(), "/a");
    assert!(m.is_member());
    let n = PackageRoot::new_non_member(s("/b"));
    assert_eq!(n.path(), "/b");
    assert!(!n.is_member());
}

#[test]
fn baseline_flags_without_toolchain_output() {
    let opts = get_rustc_cfg_options(None);
    assert!(opts.atoms.iter().any(|a| a == "target_thread_local"));
    assert!(opts.key_values.iter().any(|(k, v)| k == "target_has_atomic" && v == "64"));
    assert!(
        opts.key_values.iter().any(|(k, v)| k == "target_has_atomic_load_store" && v == "ptr")
    );
    assert_eq!(opts.atoms.len(), 1);
    assert_eq!(opts.key_values.len(), 12);
}

#[test]
fn baseline_flags_parse_toolchain_output() {
    let out = s("debug_assertions\ntarget_os=\"linux\"\nunix\ntarget_pointer_width=\"64\"\n");
    let opts = get_rustc_cfg_options(Some(&out));
    assert!(opts.atoms.iter().any(|a| a == "debug_assertions"));
    assert!(opts.atoms.iter().any(|a| a == "unix"));
    // Quoted values are stored with the quotes removed.
    assert!(opts.key_values.iter().any(|(k, v)| k == "target_os" && v == "linux"));
    assert!(opts.key_values.iter().any(|(k, v)| k == "target_pointer_width" && v == "64"));
    // No flag named after the empty trailing line appears.
    assert!(!opts.atoms.iter().any(|a| a.is_empty()));
}

#[test]
fn cfg_insert_and_remove() {
    let mut opts = CfgOptions { atoms: Vec::new(), key_values: Vec::new() };
    opts.insert_atom(s("test"));
    opts.insert_atom(s("unix"));
    opts.insert_atom(s("test"));
    assert_eq!(opts.atoms, vec![s("test"), s("unix")]);
    opts.remove_atom("test");
    assert_eq!(opts.atoms, vec![s("unix")]);
    opts.insert_key_value(s("feature"), s("x"));
    opts.insert_key_value(s("feature"), s("x"));
    assert_eq!(opts.key_values.len(), 1);
}
