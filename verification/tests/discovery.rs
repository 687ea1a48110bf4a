use project_model::{FsProbe, ProjectError, ProjectRoot};

/// A filesystem stand-in: a list of existing files plus directory listings.
struct FakeFs {
    files: Vec<String>,
    dirs: Vec<(String, Vec<String>)>,
}

impl FsProbe for FakeFs {
    fn file_exists(&self, path: &String) -> bool {
        self.files.iter().any(|f| f == path)
    }

    fn read_dir_entries(&self, path: &String) -> Option<Vec<String>> {
        self.dirs.iter().find(|(d, _)| d == path).map(|(_, es)| es.clone())
    }
}

fn s(x: &str) -> String {
    x.to_string()
}

#[test]
fn discover_single_no_projects() {
    let fs = FakeFs { files: vec![], dirs: vec![(s("/work"), vec![])] };
    let err = ProjectRoot::discover_single(&s("/work"), &fs).unwrap_err();
    assert_eq!(err, ProjectError::NoProjects);
    assert_eq!(err.message(), "no projects");
}

#[test]
fn discover_single_ambiguous() {
    let fs = FakeFs {
        files: vec![s("/work/a/Cargo.toml"), s("/work/b/Cargo.toml")],
        dirs: vec![(s("/work"), vec![s("/work/a"), s("/work/b")])],
    };
    let err = ProjectRoot::discover_single(&s("/work"), &fs).unwrap_err();
    assert_eq!(err, ProjectError::MoreThanOneProject);
    assert_eq!(err.message(), "more than one project");
}

#[test]
fn discover_single_unique_child() {
    let fs = FakeFs {
        files: vec![s("/work/a/Cargo.toml")],
        dirs: vec![(s("/work"), vec![s("/work/a"), s("/work/b")])],
    };
    let root = ProjectRoot::discover_single(&s("/work"), &fs).unwrap();
    assert_eq!(root, ProjectRoot::CargoToml(s("/work/a/Cargo.toml")));
}

#[test]
fn discover_manifest_in_ancestor() {
    let fs = FakeFs { files: vec![s("/repo/Cargo.toml")], dirs: vec![] };
    let roots = ProjectRoot::discover(&s("/repo/src/nested"), &fs).unwrap();
    assert_eq!(roots, vec![ProjectRoot::CargoToml(s("/repo/Cargo.toml"))]);
}

#[test]
fn descriptor_preempts_manifest() {
    // Both manifests exist; the manually authored descriptor wins outright.
    let fs = FakeFs {
        files: vec![s("/repo/Cargo.toml"), s("/repo/rust-project.json")],
        dirs: vec![],
    };
    let roots = ProjectRoot::discover(&s("/repo/src"), &fs).unwrap();
    assert_eq!(roots, vec![ProjectRoot::ProjectJson(s("/repo/rust-project.json"))]);
}

#[test]
fn discover_path_is_manifest_itself() {
    let fs = FakeFs { files: vec![], dirs: vec![] };
    let roots = ProjectRoot::discover(&s("/x/Cargo.toml"), &fs).unwrap();
    assert_eq!(roots, vec![ProjectRoot::CargoToml(s("/x/Cargo.toml"))]);
    let roots = ProjectRoot::discover(&s("/x/rust-project.json"), &fs).unwrap();
    assert_eq!(roots, vec![ProjectRoot::ProjectJson(s("/x/rust-project.json"))]);
}

#[test]
fn discover_unreadable_dir_is_error() {
    let fs = FakeFs { files: vec![], dirs: vec![] };
    let err = ProjectRoot::discover(&s("/nowhere"), &fs).unwrap_err();
    assert_eq!(err, ProjectError::DirUnreadable(s("/nowhere")));
    assert_eq!(err.message(), "failed to read directory: /nowhere");
}

#[test]
fn from_manifest_file_classifies() {
    let r = ProjectRoot::from_manifest_file(s("/p/Cargo.toml")).unwrap();
    assert_eq!(r, ProjectRoot::CargoToml(s("/p/Cargo.toml")));
    let r = ProjectRoot::from_manifest_file(s("/p/rust-project.json")).unwrap();
    assert_eq!(r, ProjectRoot::ProjectJson(s("/p/rust-project.json")));
    let err = ProjectRoot::from_manifest_file(s("/p/other.txt")).unwrap_err();
    assert_eq!(err, ProjectError::NotManifest(s("/p/other.txt")));
    assert_eq!(
        err.message(),
        "project root must point to Cargo.toml or rust-project.json: /p/other.txt"
    );
    // The file name must stand as a whole component.
    assert!(ProjectRoot::from_manifest_file(s("/p/xCargo.toml")).is_err());
}

#[test]
fn pick_single_cases() {
    assert_eq!(
        ProjectRoot::pick_single(vec![]).unwrap_err(),
        ProjectError::NoProjects
    );
    let one = vec![ProjectRoot::CargoToml(s("/a/Cargo.toml"))];
    assert_eq!(
        ProjectRoot::pick_single(one).unwrap(),
        ProjectRoot::CargoToml(s("/a/Cargo.toml"))
    );
    let two = vec![
        ProjectRoot::CargoToml(s("/a/Cargo.toml")),
        ProjectRoot::CargoToml(s("/b/Cargo.toml")),
    ];
    assert_eq!(
        ProjectRoot::pick_single(two).unwrap_err(),
        ProjectError::MoreThanOneProject
    );
}
