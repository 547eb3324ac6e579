use easy_release::graph::CrateGraph;
use easy_release::ident::PackageId;
use easy_release::metadata::{Dependency, DependencyKind, Metadata, Package, Version};
use easy_release::rows::{shown_order, RequirementRow};

fn row_id(name: &str) -> PackageId {
    PackageId::new(&format!("{name} 0.0.0 (here)"))
}

fn need(name: &str, req: &str, kind: DependencyKind) -> Dependency {
    Dependency { name: name.to_string(), req: req.to_string(), kind, source: None, path: None }
}

fn unit(name: &str, minor: u64, deps: Vec<Dependency>) -> Package {
    Package {
        id: row_id(name),
        name: name.to_string(),
        version: Version { major: 0, minor, patch: 0, pre: String::new(), build: String::new() },
        manifest_path: format!("{name}/Cargo.toml"),
        dependencies: deps,
        keywords: vec![],
        authors: vec![],
        license: None,
        description: None,
        edition: "2021".to_string(),
        publish: None,
    }
}

fn rows_of(rows: &[RequirementRow]) -> Vec<(String, String, String)> {
    rows.iter().map(|r| (r.name.clone(), r.version.to_text(), r.req.clone())).collect()
}

fn row(name: &str, version: &str, req: &str) -> (String, String, String) {
    (name.to_string(), version.to_string(), req.to_string())
}

fn blank_row(req: &str) -> RequirementRow {
    RequirementRow {
        name: String::new(),
        version: Version { major: 0, minor: 0, patch: 0, pre: String::new(), build: String::new() },
        req: req.to_string(),
    }
}

#[test]
fn rows_are_ordered_by_requirement() {
    let normal = DependencyKind::Normal;
    let meta = Metadata {
        workspace_members: vec![row_id("w"), row_id("x"), row_id("y"), row_id("z"), row_id("top")],
        packages: vec![
            unit("w", 1, vec![]),
            unit("x", 2, vec![]),
            unit("y", 3, vec![]),
            unit("z", 4, vec![]),
            unit(
                "top",
                9,
                vec![
                    need("regex", "^1", normal),
                    need("z", "^0.4", normal),
                    need("w", "^0.4", normal),
                    need("y", "*", normal),
                    need("x", "=0.2.0", DependencyKind::Development),
                    need("x", "^0.2", normal),
                ],
            ),
        ],
        workspace_root: String::new(),
        target_directory: String::new(),
    };
    let graph = CrateGraph::new(meta).unwrap();
    let rows = graph.collect_package_versions_from_manifest(&row_id("top")).unwrap();
    assert_eq!(
        rows_of(&rows),
        vec![
            row("y", "0.3.0", "*"),
            row("x", "0.2.0", "=0.2.0"),
            row("w", "0.1.0", "^0.4"),
            row("z", "0.4.0", "^0.4"),
        ]
    );
    assert!(graph.collect_package_versions_from_manifest(&row_id("w")).unwrap().is_empty());
    assert!(graph.collect_package_versions_from_manifest(&row_id("regex")).is_none());
}

#[test]
fn shown_order_keeps_equal_requirements_in_place() {
    let rows: Vec<RequirementRow> =
        ["b", "a", "b", "", "a", "c", "a"].iter().map(|r| blank_row(r)).collect();
    assert_eq!(shown_order(&rows), vec![3, 1, 4, 6, 0, 2, 5]);
    assert_eq!(shown_order(&Vec::new()), Vec::<usize>::new());
}
