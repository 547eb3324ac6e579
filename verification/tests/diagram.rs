use easy_release::diagram::DiagramEdge;
use easy_release::graph::CrateGraph;
use easy_release::ident::PackageId;
use easy_release::metadata::{Dependency, DependencyKind, Metadata, Package, Version};

fn box_id(name: &str) -> PackageId {
    PackageId::new(&format!("{name} (ws)"))
}

fn boxed(name: &str, minor: u64, deps: &[&str], publish: Option<Vec<String>>) -> Package {
    Package {
        id: box_id(name),
        name: name.to_string(),
        version: Version { major: 0, minor, patch: 1, pre: String::new(), build: String::new() },
        manifest_path: String::new(),
        dependencies: deps
            .iter()
            .map(|d| Dependency {
                name: d.to_string(),
                req: "*".to_string(),
                kind: DependencyKind::Normal,
                source: None,
                path: None,
            })
            .collect(),
        keywords: vec![],
        authors: vec![],
        license: None,
        description: None,
        edition: "2021".to_string(),
        publish,
    }
}

fn arrow(from: usize, to: usize, label: &str) -> DiagramEdge {
    DiagramEdge { from, to, label: label.to_string() }
}

#[test]
fn boxes_run_against_the_rank_and_arrows_with_it() {
    let meta = Metadata {
        workspace_members: vec![box_id("c"), box_id("hidden"), box_id("b"), box_id("a")],
        packages: vec![
            boxed("a", 1, &[], None),
            boxed("b", 2, &["a"], None),
            boxed("hidden", 5, &["a"], Some(vec![])),
            boxed("c", 3, &["hidden", "b", "a"], Some(vec!["mine".to_string()])),
        ],
        workspace_root: String::new(),
        target_directory: String::new(),
    };
    let graph = CrateGraph::new(meta).unwrap();
    let diagram = graph.diagram();
    let nodes: Vec<(String, String)> =
        diagram.nodes.iter().map(|n| (n.id.as_str().to_string(), n.label.clone())).collect();
    assert_eq!(
        nodes,
        vec![
            ("c (ws)".to_string(), "c\nv0.3.1".to_string()),
            ("b (ws)".to_string(), "b\nv0.2.1".to_string()),
            ("a (ws)".to_string(), "a\nv0.1.1".to_string()),
        ]
    );
    assert_eq!(diagram.edges, vec![arrow(2, 1, "0.1.1"), arrow(2, 0, "0.1.1"), arrow(1, 0, "0.2.1")]);
}

#[test]
fn workspace_of_hidden_members_has_an_empty_picture() {
    let meta = Metadata {
        workspace_members: vec![box_id("x"), box_id("y")],
        packages: vec![boxed("x", 1, &[], Some(vec![])), boxed("y", 1, &["x"], Some(vec![]))],
        workspace_root: String::new(),
        target_directory: String::new(),
    };
    let diagram = CrateGraph::new(meta).unwrap().diagram();
    assert!(diagram.nodes.is_empty());
    assert!(diagram.edges.is_empty());
}
