use easy_release::graph::CrateGraph;
use easy_release::ident::PackageId;
use easy_release::metadata::{Dependency, DependencyKind, Metadata, Package, Version};
use easy_release::session::{Command, Effect, ReleaseState, Status};

fn member_id(name: &str) -> PackageId {
    PackageId::new(&format!("{name} 1.0.0 (path+file:///w/{name})"))
}

fn member(name: &str, deps: &[&str], publish: Option<Vec<String>>) -> Package {
    Package {
        id: member_id(name),
        name: name.to_string(),
        version: Version { major: 1, minor: 0, patch: 0, pre: String::new(), build: String::new() },
        manifest_path: format!("/w/{name}/Cargo.toml"),
        dependencies: deps
            .iter()
            .map(|d| Dependency {
                name: d.to_string(),
                req: "^1".to_string(),
                kind: DependencyKind::Normal,
                source: None,
                path: None,
            })
            .collect(),
        keywords: vec![],
        authors: vec![],
        license: None,
        description: None,
        edition: "2021".to_string(),
        publish,
    }
}

fn workspace() -> CrateGraph {
    let mut outside = member("outside", &[], Some(vec![]));
    outside.id = PackageId::new("outside 3.0.0 (registry)");
    let meta = Metadata {
        workspace_members: vec![
            member_id("app"),
            member_id("core"),
            member_id("docs"),
            member_id("private"),
        ],
        packages: vec![
            member("app", &["core"], None),
            member("core", &[], None),
            member("docs", &[], Some(vec![])),
            member("private", &[], Some(vec!["internal".to_string()])),
            outside,
        ],
        workspace_root: "/w".to_string(),
        target_directory: "/w/target".to_string(),
    };
    CrateGraph::new(meta).unwrap()
}

fn names(list: &[PackageId]) -> Vec<String> {
    let mut out: Vec<String> = list.iter().map(|id| id.as_str().to_string()).collect();
    out.sort();
    out
}

fn only(name: &str) -> Vec<String> {
    vec![member_id(name).as_str().to_string()]
}

fn memberships(state: &ReleaseState, id: &PackageId) -> usize {
    [&state.released, &state.ignored, &state.unreleased]
        .iter()
        .map(|list| list.iter().filter(|x| x.same(id)).count())
        .sum()
}

#[test]
fn never_published_members_start_ignored() {
    let state = ReleaseState::new(&workspace());
    assert_eq!(names(&state.ignored), only("docs"));
    assert_eq!(
        names(&state.unreleased),
        names(&[member_id("app"), member_id("core"), member_id("private")])
    );
    assert!(state.released.is_empty());
    assert!(state.publishing.is_empty());
    assert_eq!(state.status(&member_id("docs")), Some(Status::Ignored));
    assert_eq!(state.status(&member_id("private")), Some(Status::Unreleased));
    assert_eq!(state.status(&PackageId::new("outside 3.0.0 (registry)")), None);
    assert_eq!(memberships(&state, &member_id("docs")), 1);
}

#[test]
fn ignoring_twice_is_ignoring_once() {
    let mut state = ReleaseState::new(&workspace());
    assert!(matches!(state.apply(Command::Ignore(member_id("core"))), Effect::Nothing));
    let once = (names(&state.ignored), names(&state.unreleased), names(&state.released));
    assert!(matches!(state.apply(Command::Ignore(member_id("core"))), Effect::Nothing));
    let twice = (names(&state.ignored), names(&state.unreleased), names(&state.released));
    assert_eq!(once, twice);
    assert_eq!(state.status(&member_id("core")), Some(Status::Ignored));
    assert_eq!(memberships(&state, &member_id("core")), 1);
    assert_eq!(state.ignored.len(), 2);
}

#[test]
fn release_asks_for_one_publish_and_ends_released() {
    let mut state = ReleaseState::new(&workspace());
    match state.apply(Command::Release(member_id("core"))) {
        Effect::Publish(id) => assert!(id.same(&member_id("core"))),
        other => panic!("{other:?}"),
    }
    assert!(state.is_publishing(&member_id("core")));
    assert_eq!(state.status(&member_id("core")), Some(Status::Unreleased));
    assert!(matches!(state.apply(Command::Release(member_id("core"))), Effect::Nothing));
    assert!(matches!(state.apply(Command::Ignore(member_id("core"))), Effect::Nothing));
    assert_eq!(state.status(&member_id("core")), Some(Status::Unreleased));
    assert!(matches!(
        state.apply(Command::PublishDone(member_id("core"), true)),
        Effect::Nothing
    ));
    assert_eq!(state.status(&member_id("core")), Some(Status::Released));
    assert!(!state.is_publishing(&member_id("core")));
    assert_eq!(memberships(&state, &member_id("core")), 1);
    assert!(matches!(state.apply(Command::Release(member_id("core"))), Effect::Nothing));
    assert!(matches!(state.apply(Command::Ignore(member_id("core"))), Effect::Nothing));
    assert_eq!(state.status(&member_id("core")), Some(Status::Released));
}

#[test]
fn failed_publish_leaves_the_package_unreleased() {
    let mut state = ReleaseState::new(&workspace());
    assert!(matches!(state.apply(Command::Release(member_id("app"))), Effect::Publish(_)));
    assert!(matches!(
        state.apply(Command::PublishDone(member_id("app"), false)),
        Effect::Nothing
    ));
    assert_eq!(state.status(&member_id("app")), Some(Status::Unreleased));
    assert!(!state.is_publishing(&member_id("app")));
    assert!(matches!(state.apply(Command::Release(member_id("app"))), Effect::Publish(_)));
}

#[test]
fn publish_report_without_a_release_changes_nothing() {
    let mut state = ReleaseState::new(&workspace());
    assert!(matches!(
        state.apply(Command::PublishDone(member_id("app"), true)),
        Effect::Nothing
    ));
    assert_eq!(state.status(&member_id("app")), Some(Status::Unreleased));
    assert!(state.released.is_empty());
}

#[test]
fn ignored_package_is_not_released() {
    let mut state = ReleaseState::new(&workspace());
    assert!(matches!(state.apply(Command::Release(member_id("docs"))), Effect::Nothing));
    assert_eq!(state.status(&member_id("docs")), Some(Status::Ignored));
    assert!(state.publishing.is_empty());
}

#[test]
fn commands_on_unknown_packages_change_nothing() {
    let mut state = ReleaseState::new(&workspace());
    let stranger = PackageId::new("stranger 0.0.1 (nowhere)");
    assert!(matches!(state.apply(Command::Ignore(stranger.duplicate())), Effect::Nothing));
    assert!(matches!(state.apply(Command::Release(stranger.duplicate())), Effect::Nothing));
    assert!(matches!(state.apply(Command::BumpMinor(stranger.duplicate())), Effect::Nothing));
    assert_eq!(state.status(&stranger), None);
    assert_eq!(state.ignored.len(), 1);
    assert_eq!(state.unreleased.len(), 3);
}

#[test]
fn bump_is_handed_on_for_known_packages() {
    let mut state = ReleaseState::new(&workspace());
    match state.apply(Command::BumpMinor(member_id("docs"))) {
        Effect::Bump(id) => assert!(id.same(&member_id("docs"))),
        other => panic!("{other:?}"),
    }
    assert_eq!(state.status(&member_id("docs")), Some(Status::Ignored));
}

#[test]
fn active_rows_follow_the_rank_without_the_ignored() {
    let graph = workspace();
    let mut state = ReleaseState::new(&graph);
    let rows: Vec<String> =
        state.active_rows(&graph.sorted).iter().map(|id| id.as_str().to_string()).collect();
    assert_eq!(
        rows,
        vec![
            member_id("core").as_str().to_string(),
            member_id("private").as_str().to_string(),
            member_id("app").as_str().to_string(),
        ]
    );
    state.apply(Command::Ignore(member_id("private")));
    let rows: Vec<String> =
        state.active_rows(&graph.sorted).iter().map(|id| id.as_str().to_string()).collect();
    assert_eq!(
        rows,
        vec![member_id("core").as_str().to_string(), member_id("app").as_str().to_string()]
    );
}
