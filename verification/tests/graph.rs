use easy_release::graph::CrateGraph;
use easy_release::ident::PackageId;
use easy_release::metadata::{Dependency, DependencyKind, Metadata, Package, Version};
use easy_release::workspace::MalformedWorkspace;

fn id_of(name: &str) -> PackageId {
    PackageId::new(&format!("{name} 0.1.0 (path+file:///ws/{name})"))
}

fn text_of(name: &str) -> String {
    id_of(name).as_str().to_string()
}

fn dep(name: &str, kind: DependencyKind) -> Dependency {
    Dependency {
        name: name.to_string(),
        req: "^0.1.0".to_string(),
        kind,
        source: None,
        path: Some(format!("/ws/{name}")),
    }
}

fn normal(name: &str) -> Dependency {
    dep(name, DependencyKind::Normal)
}

fn package(name: &str, deps: Vec<Dependency>) -> Package {
    Package {
        id: id_of(name),
        name: name.to_string(),
        version: Version { major: 0, minor: 1, patch: 0, pre: String::new(), build: String::new() },
        manifest_path: format!("/ws/{name}/Cargo.toml"),
        dependencies: deps,
        keywords: vec![],
        authors: vec![],
        license: None,
        description: None,
        edition: "2021".to_string(),
        publish: None,
    }
}

fn snapshot(members: &[&str], packages: Vec<Package>) -> Metadata {
    Metadata {
        workspace_members: members.iter().map(|m| id_of(m)).collect(),
        packages,
        workspace_root: "/ws".to_string(),
        target_directory: "/ws/target".to_string(),
    }
}

fn ranked(graph: &CrateGraph) -> Vec<(String, usize)> {
    graph.sorted.iter().map(|(id, w)| (id.as_str().to_string(), *w)).collect()
}

fn texts(ids: &[PackageId]) -> Vec<String> {
    ids.iter().map(|id| id.as_str().to_string()).collect()
}

fn chain_of_three(members: &[&str]) -> Metadata {
    snapshot(
        members,
        vec![
            package("c", vec![normal("b"), normal("a")]),
            package("a", vec![]),
            package("b", vec![normal("a")]),
        ],
    )
}

#[test]
fn chain_of_three_is_ranked_by_weight() {
    let graph = CrateGraph::new(chain_of_three(&["c", "a", "b"])).unwrap();
    assert_eq!(ranked(&graph), vec![(text_of("a"), 0), (text_of("b"), 1), (text_of("c"), 3)]);
    assert_eq!(
        texts(&graph.publish_sequence()),
        vec![text_of("a"), text_of("b"), text_of("c")]
    );
}

#[test]
fn ranking_does_not_depend_on_member_order() {
    let first = CrateGraph::new(chain_of_three(&["c", "a", "b"])).unwrap();
    let second = CrateGraph::new(chain_of_three(&["b", "c", "a"])).unwrap();
    let again = CrateGraph::new(chain_of_three(&["c", "a", "b"])).unwrap();
    assert_eq!(ranked(&first), ranked(&second));
    assert_eq!(ranked(&first), ranked(&again));
}

#[test]
fn cycle_is_reported() {
    let meta = snapshot(
        &["a", "b"],
        vec![package("a", vec![normal("b")]), package("b", vec![normal("a")])],
    );
    assert_eq!(CrateGraph::new(meta).err(), Some(MalformedWorkspace::DependencyCycle));
}

#[test]
fn longer_cycle_behind_a_sound_member_is_reported() {
    let meta = snapshot(
        &["root", "a", "b", "c"],
        vec![
            package("root", vec![]),
            package("a", vec![normal("root"), normal("b")]),
            package("b", vec![normal("c")]),
            package("c", vec![normal("a")]),
        ],
    );
    assert_eq!(CrateGraph::new(meta).err(), Some(MalformedWorkspace::DependencyCycle));
}

#[test]
fn dependency_on_itself_is_a_cycle() {
    let meta = snapshot(&["a"], vec![package("a", vec![normal("a")])]);
    assert_eq!(CrateGraph::new(meta).err(), Some(MalformedWorkspace::DependencyCycle));
}

#[test]
fn cycle_through_dev_dependency_is_none() {
    let meta = snapshot(
        &["a", "b"],
        vec![
            package("a", vec![dep("b", DependencyKind::Development)]),
            package("b", vec![normal("a")]),
        ],
    );
    let graph = CrateGraph::new(meta).unwrap();
    assert_eq!(ranked(&graph), vec![(text_of("a"), 0), (text_of("b"), 1)]);
}

#[test]
fn missing_member_is_reported() {
    let meta = snapshot(&["a", "ghost"], vec![package("a", vec![])]);
    assert_eq!(CrateGraph::new(meta).err(), Some(MalformedWorkspace::MissingMember));
}

#[test]
fn missing_member_comes_before_other_findings() {
    let mut twin = package("b", vec![normal("a")]);
    twin.name = "a".to_string();
    let meta = snapshot(&["a", "b", "ghost"], vec![package("a", vec![normal("a")]), twin]);
    assert_eq!(CrateGraph::new(meta).err(), Some(MalformedWorkspace::MissingMember));
}

#[test]
fn two_members_of_one_name_are_reported() {
    let mut twin = package("b", vec![]);
    twin.name = "a".to_string();
    let meta = snapshot(&["a", "b"], vec![package("a", vec![]), twin]);
    assert_eq!(CrateGraph::new(meta).err(), Some(MalformedWorkspace::AmbiguousName));
}

#[test]
fn outside_package_of_a_member_name_is_no_ambiguity() {
    let mut outside = package("x", vec![]);
    outside.name = "a".to_string();
    let meta = snapshot(&["a", "b"], vec![outside, package("a", vec![]), package("b", vec![normal("a")])]);
    let graph = CrateGraph::new(meta).unwrap();
    assert_eq!(texts(&graph.dependencies(&id_of("b")).unwrap()), vec![text_of("a")]);
}

#[test]
fn dependencies_stay_inside_the_workspace() {
    let meta = snapshot(
        &["a", "b"],
        vec![
            package("a", vec![normal("serde")]),
            package(
                "b",
                vec![
                    normal("serde"),
                    normal("a"),
                    dep("a", DependencyKind::Development),
                    dep("tool", DependencyKind::Build),
                ],
            ),
            package("serde", vec![]),
            package("tool", vec![normal("a")]),
        ],
    );
    let graph = CrateGraph::new(meta).unwrap();
    assert_eq!(texts(&graph.crates), vec![text_of("a"), text_of("b")]);
    assert_eq!(graph.ws_deps, vec![vec![], vec![0]]);
    assert!(graph.dependencies(&id_of("a")).unwrap().is_empty());
    assert_eq!(texts(&graph.dependencies(&id_of("b")).unwrap()), vec![text_of("a")]);
    assert!(graph.dependencies(&id_of("serde")).is_none());
    for list in &graph.ws_deps {
        for place in list {
            assert!(*place < graph.crates.len());
        }
    }
}

#[test]
fn member_listed_twice_counts_once() {
    let meta = snapshot(&["a", "b", "a"], vec![package("a", vec![]), package("b", vec![normal("a")])]);
    let graph = CrateGraph::new(meta).unwrap();
    assert_eq!(texts(&graph.crates), vec![text_of("a"), text_of("b")]);
    assert_eq!(ranked(&graph), vec![(text_of("a"), 0), (text_of("b"), 1)]);
}

#[test]
fn dependency_named_twice_counts_once() {
    let meta = snapshot(
        &["a", "b"],
        vec![package("a", vec![]), package("b", vec![normal("a"), normal("a")])],
    );
    let graph = CrateGraph::new(meta).unwrap();
    assert_eq!(graph.ws_deps, vec![vec![], vec![0]]);
    assert_eq!(ranked(&graph), vec![(text_of("a"), 0), (text_of("b"), 1)]);
}

#[test]
fn empty_workspace_has_an_empty_graph() {
    let graph = CrateGraph::new(snapshot(&[], vec![package("x", vec![])])).unwrap();
    assert!(graph.crates.is_empty());
    assert!(graph.sorted.is_empty());
    assert!(graph.publish_sequence().is_empty());
}

#[test]
fn equal_weights_are_ordered_by_identity() {
    let meta = snapshot(
        &["zeta", "alpha", "mid", "top"],
        vec![
            package("zeta", vec![]),
            package("alpha", vec![]),
            package("mid", vec![]),
            package("top", vec![normal("zeta"), normal("alpha")]),
        ],
    );
    let graph = CrateGraph::new(meta).unwrap();
    assert_eq!(
        ranked(&graph),
        vec![(text_of("alpha"), 0), (text_of("mid"), 0), (text_of("zeta"), 0), (text_of("top"), 2)]
    );
}

#[test]
fn diamond_counts_shared_dependency_on_each_path() {
    let meta = snapshot(
        &["d", "c", "b", "a"],
        vec![
            package("a", vec![]),
            package("b", vec![normal("a")]),
            package("c", vec![normal("a")]),
            package("d", vec![normal("b"), normal("c")]),
        ],
    );
    let graph = CrateGraph::new(meta).unwrap();
    assert_eq!(
        ranked(&graph),
        vec![(text_of("a"), 0), (text_of("b"), 1), (text_of("c"), 1), (text_of("d"), 4)]
    );
}

#[test]
fn chain_of_five_counts_three_levels_down() {
    let meta = snapshot(
        &["e", "d", "c", "b", "a"],
        vec![
            package("a", vec![]),
            package("b", vec![normal("a")]),
            package("c", vec![normal("b")]),
            package("d", vec![normal("c")]),
            package("e", vec![normal("d")]),
        ],
    );
    let graph = CrateGraph::new(meta).unwrap();
    assert_eq!(
        ranked(&graph),
        vec![
            (text_of("a"), 0),
            (text_of("b"), 1),
            (text_of("c"), 2),
            (text_of("d"), 3),
            (text_of("e"), 4),
        ]
    );
}

fn deep_fan() -> Metadata {
    let leaves: Vec<String> = (0..10).map(|k| format!("h{k}")).collect();
    let mut packages = vec![
        package("p", vec![normal("d")]),
        package("d", vec![normal("e")]),
        package("e", vec![normal("f")]),
        package("f", vec![normal("g")]),
        package("g", leaves.iter().map(|h| normal(h)).collect()),
    ];
    let mut members = vec!["p", "d", "e", "f", "g"];
    for leaf in &leaves {
        packages.push(package(leaf, vec![]));
        members.push(leaf);
    }
    snapshot(&members, packages)
}

#[test]
fn deep_nesting_can_rank_a_dependent_first() {
    let graph = CrateGraph::new(deep_fan()).unwrap();
    let ranks = ranked(&graph);
    let weight = |name: &str| ranks.iter().find(|(id, _)| *id == text_of(name)).unwrap().1;
    assert_eq!(weight("g"), 10);
    assert_eq!(weight("f"), 11);
    assert_eq!(weight("e"), 12);
    assert_eq!(weight("d"), 13);
    assert_eq!(weight("p"), 4);
    let rank = |name: &str| ranks.iter().position(|(id, _)| *id == text_of(name)).unwrap();
    assert!(rank("p") < rank("d"));
}

#[test]
fn publish_sequence_puts_every_dependency_first() {
    let graph = CrateGraph::new(deep_fan()).unwrap();
    let sequence = texts(&graph.publish_sequence());
    assert_eq!(sequence.len(), graph.crates.len());
    let at = |id: &PackageId| sequence.iter().position(|s| s == id.as_str()).unwrap();
    for member in &graph.crates {
        for dependency in graph.dependencies(member).unwrap() {
            assert!(at(&dependency) < at(member));
        }
    }
    let mut seen = sequence.clone();
    seen.sort();
    seen.dedup();
    assert_eq!(seen.len(), sequence.len());
}

#[test]
fn publish_sequence_takes_the_first_ready_member() {
    let meta = snapshot(
        &["d", "c", "b", "a"],
        vec![
            package("a", vec![]),
            package("b", vec![normal("a")]),
            package("c", vec![normal("a")]),
            package("d", vec![normal("b"), normal("c")]),
        ],
    );
    let graph = CrateGraph::new(meta).unwrap();
    assert_eq!(graph.publish_order, vec![3, 1, 2, 0]);
    assert_eq!(
        texts(&graph.publish_sequence()),
        vec![text_of("a"), text_of("c"), text_of("b"), text_of("d")]
    );
}

#[test]
fn dependent_places_ascend() {
    let graph = CrateGraph::new(chain_of_three(&["c", "a", "b"])).unwrap();
    assert_eq!(graph.dependent_places(1), vec![0, 2]);
    assert_eq!(graph.dependent_places(2), vec![0]);
    assert_eq!(graph.dependent_places(0), Vec::<usize>::new());
    assert_eq!(graph.dependent_places(9), Vec::<usize>::new());
}

#[test]
fn dependents_are_the_members_that_depend_directly() {
    let graph = CrateGraph::new(chain_of_three(&["c", "a", "b"])).unwrap();
    assert_eq!(texts(&graph.dependents(&id_of("a"))), vec![text_of("c"), text_of("b")]);
    assert_eq!(texts(&graph.dependents(&id_of("b"))), vec![text_of("c")]);
    assert!(graph.dependents(&id_of("c")).is_empty());
    assert!(graph.dependents(&id_of("nobody")).is_empty());
}

#[test]
fn packages_are_found_by_identity() {
    let graph = CrateGraph::new(chain_of_three(&["c", "a", "b"])).unwrap();
    assert_eq!(graph.get_crate(&id_of("b")).name, "b");
    assert_eq!(graph.find_crate(&id_of("a")).unwrap().manifest_path, "/ws/a/Cargo.toml");
    assert!(graph.find_crate(&id_of("x")).is_none());
    assert!(graph.contains(&id_of("c")));
    assert!(!graph.contains(&id_of("x")));
    assert_eq!(graph.meta.get_manifest_path(&id_of("c")), "/ws/c/Cargo.toml");
    assert_eq!(graph.meta.find(&id_of("a")), Some(1));
    assert_eq!(graph.meta.find(&id_of("x")), None);
}

#[test]
fn first_package_of_an_identity_is_taken() {
    let mut second = package("a", vec![]);
    second.manifest_path = "/elsewhere/Cargo.toml".to_string();
    let graph = CrateGraph::new(snapshot(&["a"], vec![package("a", vec![]), second])).unwrap();
    assert_eq!(graph.get_crate(&id_of("a")).manifest_path, "/ws/a/Cargo.toml");
}
