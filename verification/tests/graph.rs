use project_model::base::{CrateId, Edition, FileId};
use project_model::cfg::CfgOptions;
use project_model::crate_graph::CrateGraph;
use project_model::crate_name::CrateName;
use project_model::env::{Env, ExternSource};

fn empty_cfg() -> CfgOptions {
    CfgOptions { atoms: Vec::new(), key_values: Vec::new() }
}

fn add_unit(g: &mut CrateGraph, file: u32, name: Option<&str>) -> CrateId {
    let display_name = name.map(|n| CrateName::new(n).unwrap());
    g.add_crate_root(
        FileId(file),
        Edition::Edition2018,
        display_name,
        empty_cfg(),
        Env { entries: Vec::new() },
        ExternSource { extern_paths: Vec::new() },
        Vec::new(),
    )
}

fn n_deps(g: &CrateGraph, id: CrateId) -> usize {
    g.crate_data(id).dependencies.len()
}

#[test]
fn sequential_identities() {
    let mut g = CrateGraph::new();
    let a = add_unit(&mut g, 1, Some("a"));
    let b = add_unit(&mut g, 2, Some("b"));
    let c = add_unit(&mut g, 3, None);
    assert_eq!(a.0, 0);
    assert_eq!(b.0, 1);
    assert_eq!(c.0, 2);
    assert_eq!(g.len(), 3);
}

#[test]
fn edge_committed_and_visible() {
    let mut g = CrateGraph::new();
    let a = add_unit(&mut g, 1, Some("a"));
    let b = add_unit(&mut g, 2, Some("b"));
    let name = CrateName::new("b").unwrap();
    assert!(g.add_dep(a, name, b).is_ok());
    assert_eq!(n_deps(&g, a), 1);
    assert_eq!(g.crate_data(a).dependencies[0].crate_id, b);
    assert_eq!(g.crate_data(a).dependencies[0].name.name, "b");
}

#[test]
fn cycle_refused_leaves_graph_unchanged() {
    let mut g = CrateGraph::new();
    let a = add_unit(&mut g, 1, Some("a"));
    let b = add_unit(&mut g, 2, Some("b"));
    let c = add_unit(&mut g, 3, Some("c"));
    assert!(g.add_dep(a, CrateName::new("b").unwrap(), b).is_ok());
    assert!(g.add_dep(b, CrateName::new("c").unwrap(), c).is_ok());
    let units_before = g.len();
    let edges_before = n_deps(&g, a) + n_deps(&g, b) + n_deps(&g, c);
    // Closing the cycle c -> a must be refused.
    let err = g.add_dep(c, CrateName::new("a").unwrap(), a).unwrap_err();
    assert_eq!(err.from, c);
    assert_eq!(err.to, a);
    // Unit count and prior edge count are unchanged.
    assert_eq!(g.len(), units_before);
    assert_eq!(n_deps(&g, a) + n_deps(&g, b) + n_deps(&g, c), edges_before);
}

#[test]
fn self_edge_refused() {
    let mut g = CrateGraph::new();
    let a = add_unit(&mut g, 1, Some("a"));
    assert!(g.add_dep(a, CrateName::new("a").unwrap(), a).is_err());
    assert_eq!(n_deps(&g, a), 0);
}

#[test]
fn long_chain_cycle_refused() {
    let mut g = CrateGraph::new();
    let mut ids = Vec::new();
    for i in 0..6u32 {
        ids.push(add_unit(&mut g, i, None));
    }
    for w in 0..5usize {
        assert!(g.add_dep(ids[w], CrateName::new("next").unwrap(), ids[w + 1]).is_ok());
    }
    // Any back edge would close a cycle.
    assert!(g.add_dep(ids[5], CrateName::new("back").unwrap(), ids[0]).is_err());
    assert!(g.add_dep(ids[3], CrateName::new("back").unwrap(), ids[1]).is_err());
    // A second forward edge between the same pair, under another name, is fine.
    assert!(g.add_dep(ids[0], CrateName::new("again").unwrap(), ids[1]).is_ok());
    assert_eq!(n_deps(&g, ids[0]), 2);
}

#[test]
fn crate_name_rejects_dashes() {
    assert!(CrateName::new("foo-bar").is_err());
    assert!(CrateName::new("foo_bar").is_ok());
    let n = CrateName::normalize_dashes("foo-bar-baz");
    assert_eq!(n.name, "foo_bar_baz");
}
