use easy_release::bump::{BumpError, ManifestWrite};
use easy_release::graph::CrateGraph;
use easy_release::ident::PackageId;
use easy_release::metadata::{Dependency, DependencyKind, Metadata, Package, Version};
use easy_release::version::BumpStrategy;

fn pkg_id(name: &str) -> PackageId {
    PackageId::new(&format!("{name} 1.2.3 (path+file:///repo/{name})"))
}

fn pkg(name: &str, deps: &[&str]) -> Package {
    Package {
        id: pkg_id(name),
        name: name.to_string(),
        version: Version { major: 1, minor: 2, patch: 3, pre: String::new(), build: String::new() },
        manifest_path: format!("/repo/{name}/Cargo.toml"),
        dependencies: deps
            .iter()
            .map(|d| Dependency {
                name: d.to_string(),
                req: "^1.2.0".to_string(),
                kind: DependencyKind::Normal,
                source: None,
                path: Some(format!("/repo/{d}")),
            })
            .collect(),
        keywords: vec![],
        authors: vec![],
        license: None,
        description: None,
        edition: "2021".to_string(),
        publish: None,
    }
}

fn repo() -> CrateGraph {
    let meta = Metadata {
        workspace_members: vec![pkg_id("b"), pkg_id("a"), pkg_id("c"), pkg_id("lone")],
        packages: vec![pkg("a", &[]), pkg("b", &["a"]), pkg("c", &["b", "a"]), pkg("lone", &[])],
        workspace_root: "/repo".to_string(),
        target_directory: "/repo/target".to_string(),
    };
    CrateGraph::new(meta).unwrap()
}

const A: &str = "[package]\nname = \"a\"\nversion = \"1.2.3\" # current\nedition = \"2021\"\n";
const B: &str = "[package]\nname = \"b\"\nversion = \"0.1.0\"\n\n[dependencies]\n# the core\na = \"^1.2.0\"\nserde = \"1\"\n";
const C: &str = "[package]\nname = \"c\"\nversion = \"0.7.0\"\n\n[dependencies]\nb = { path = \"../b\", version = \"0.1\" }\n\n[dependencies.a]\npath = \"../a\"\nversion = \"^1.2.0\"\n";

fn write(path: &str, contents: String) -> ManifestWrite {
    ManifestWrite { path: path.to_string(), contents }
}

fn some(text: &str) -> Option<String> {
    Some(text.to_string())
}

#[test]
fn targets_are_the_package_and_its_dependents() {
    let graph = repo();
    assert_eq!(
        graph.bump_targets(&pkg_id("a")),
        Some(vec![
            "/repo/a/Cargo.toml".to_string(),
            "/repo/b/Cargo.toml".to_string(),
            "/repo/c/Cargo.toml".to_string(),
        ])
    );
    assert_eq!(
        graph.bump_targets(&pkg_id("b")),
        Some(vec!["/repo/b/Cargo.toml".to_string(), "/repo/c/Cargo.toml".to_string()])
    );
    assert_eq!(graph.bump_targets(&pkg_id("lone")), Some(vec!["/repo/lone/Cargo.toml".to_string()]));
    assert_eq!(graph.bump_targets(&pkg_id("nobody")), None);
}

#[test]
fn bump_rewrites_version_and_requirements_only() {
    let plan = repo()
        .bump_minor(&pkg_id("a"), &vec![some(A), some(B), some(C)], BumpStrategy::ResetPatch)
        .unwrap();
    assert_eq!(
        plan,
        vec![
            write("/repo/a/Cargo.toml", A.replace("\"1.2.3\"", "\"1.3.0\"")),
            write("/repo/b/Cargo.toml", B.replace("a = \"^1.2.0\"", "a = \"^1.3.0\"")),
            write("/repo/c/Cargo.toml", C.replace("version = \"^1.2.0\"", "version = \"^1.3.0\"")),
        ]
    );
}

#[test]
fn bump_that_keeps_the_patch_pins_dependents_to_it() {
    let plan = repo()
        .bump_minor(&pkg_id("a"), &vec![some(A), some(B), some(C)], BumpStrategy::KeepPatch)
        .unwrap();
    assert_eq!(plan[0].contents, A.replace("\"1.2.3\"", "\"1.3.3\""));
    assert_eq!(plan[1].contents, B.replace("a = \"^1.2.0\"", "a = \"^1.3.3\""));
}

#[test]
fn version_comes_from_the_manifest_not_the_snapshot() {
    let newer = A.replace("1.2.3", "4.0.9");
    let plan = repo()
        .bump_minor(&pkg_id("a"), &vec![Some(newer), some(B), some(C)], BumpStrategy::ResetPatch)
        .unwrap();
    assert_eq!(plan[1].contents, B.replace("a = \"^1.2.0\"", "a = \"^4.1.0\""));
}

#[test]
fn package_without_dependents_has_one_write() {
    let lone = "[package]\nname = \"lone\"\nversion = \"0.9.9\"\n";
    let plan = repo().bump_minor(&pkg_id("lone"), &vec![some(lone)], BumpStrategy::ResetPatch).unwrap();
    assert_eq!(plan, vec![write("/repo/lone/Cargo.toml", lone.replace("0.9.9", "0.10.0"))]);
}

#[test]
fn unknown_package_is_refused() {
    assert_eq!(
        repo().bump_minor(&pkg_id("nobody"), &vec![some(A)], BumpStrategy::ResetPatch),
        Err(BumpError::UnknownPackage)
    );
}

#[test]
fn unread_manifest_stops_the_plan() {
    let graph = repo();
    assert_eq!(
        graph.bump_minor(&pkg_id("a"), &vec![None, some(B), some(C)], BumpStrategy::ResetPatch),
        Err(BumpError::ManifestReadError("/repo/a/Cargo.toml".to_string()))
    );
    assert_eq!(
        graph.bump_minor(&pkg_id("a"), &vec![some(A), some(B), None], BumpStrategy::ResetPatch),
        Err(BumpError::ManifestReadError("/repo/c/Cargo.toml".to_string()))
    );
    assert_eq!(
        graph.bump_minor(&pkg_id("a"), &vec![some(A), some(B)], BumpStrategy::ResetPatch),
        Err(BumpError::ManifestReadError("/repo/c/Cargo.toml".to_string()))
    );
    assert_eq!(
        graph.bump_minor(&pkg_id("a"), &vec![], BumpStrategy::ResetPatch),
        Err(BumpError::ManifestReadError("/repo/a/Cargo.toml".to_string()))
    );
}

#[test]
fn malformed_manifest_stops_the_plan() {
    let graph = repo();
    assert_eq!(
        graph.bump_minor(&pkg_id("a"), &vec![some("version ="), some(B), some(C)], BumpStrategy::ResetPatch),
        Err(BumpError::ManifestParseError("/repo/a/Cargo.toml".to_string()))
    );
    assert_eq!(
        graph.bump_minor(
            &pkg_id("a"),
            &vec![some(A), some("[dependencies]\nserde = \"1\"\n"), some(C)],
            BumpStrategy::ResetPatch
        ),
        Err(BumpError::ManifestParseError("/repo/b/Cargo.toml".to_string()))
    );
    assert_eq!(
        graph.bump_minor(
            &pkg_id("a"),
            &vec![some(A), some(B), some("[dependencies]\na = 5\n")],
            BumpStrategy::ResetPatch
        ),
        Err(BumpError::ManifestParseError("/repo/c/Cargo.toml".to_string()))
    );
}

#[test]
fn first_failing_target_is_reported() {
    assert_eq!(
        repo().bump_minor(&pkg_id("a"), &vec![some(A), some("]["), None], BumpStrategy::ResetPatch),
        Err(BumpError::ManifestParseError("/repo/b/Cargo.toml".to_string()))
    );
}

#[test]
fn version_that_cannot_grow_is_reported() {
    let top = A.replace("1.2.3", "1.18446744073709551615.3");
    assert_eq!(
        repo().bump_minor(&pkg_id("a"), &vec![Some(top), some(B), some(C)], BumpStrategy::KeepPatch),
        Err(BumpError::VersionOverflow)
    );
}

#[test]
fn members_are_reached_by_place() {
    let graph = repo();
    assert_eq!(graph.member(0).name, "b");
    assert_eq!(graph.member(3).name, "lone");
}
