use easy_release::bump::{entry_text, requirement_place, RequirementPlace};
use easy_release::ident::PackageId;
use easy_release::manifest::Entry;
use easy_release::metadata::{Dependency, DependencyKind, Package, Version};
use easy_release::workspace::{declares_dependency, position};

fn holder(deps: Vec<(&str, DependencyKind)>, publish: Option<Vec<String>>) -> Package {
    Package {
        id: PackageId::new("holder"),
        name: "holder".to_string(),
        version: Version { major: 0, minor: 0, patch: 0, pre: String::new(), build: String::new() },
        manifest_path: String::new(),
        dependencies: deps
            .into_iter()
            .map(|(name, kind)| Dependency {
                name: name.to_string(),
                req: "*".to_string(),
                kind,
                source: None,
                path: None,
            })
            .collect(),
        keywords: vec![],
        authors: vec![],
        license: None,
        description: None,
        edition: String::new(),
        publish,
    }
}

#[test]
fn only_normal_dependencies_are_declared() {
    let package = holder(
        vec![
            ("dev", DependencyKind::Development),
            ("build", DependencyKind::Build),
            ("odd", DependencyKind::Unknown),
            ("both", DependencyKind::Development),
            ("both", DependencyKind::Normal),
            ("plain", DependencyKind::Normal),
        ],
        None,
    );
    assert!(declares_dependency(&package, &"plain".to_string()));
    assert!(declares_dependency(&package, &"both".to_string()));
    assert!(!declares_dependency(&package, &"dev".to_string()));
    assert!(!declares_dependency(&package, &"build".to_string()));
    assert!(!declares_dependency(&package, &"odd".to_string()));
    assert!(!declares_dependency(&package, &"absent".to_string()));
    assert!(!declares_dependency(&holder(vec![], None), &"plain".to_string()));
}

#[test]
fn position_is_the_first_place_of_an_identity() {
    let ids: Vec<PackageId> = ["x", "y", "x", "z"].iter().map(|s| PackageId::new(s)).collect();
    assert_eq!(position(&ids, &PackageId::new("x")), Some(0));
    assert_eq!(position(&ids, &PackageId::new("z")), Some(3));
    assert_eq!(position(&ids, &PackageId::new("w")), None);
    assert_eq!(position(&Vec::new(), &PackageId::new("x")), None);
}

#[test]
fn never_published_means_an_empty_list() {
    assert!(holder(vec![], Some(vec![])).is_never_published());
    assert!(!holder(vec![], None).is_never_published());
    assert!(!holder(vec![], Some(vec!["private-registry".to_string()])).is_never_published());
}

#[test]
fn only_text_entries_hold_a_text() {
    assert_eq!(entry_text(&Entry::Text("1.0.0".to_string())), Some(&"1.0.0".to_string()));
    assert_eq!(entry_text(&Entry::Missing), None);
    assert_eq!(entry_text(&Entry::Table), None);
    assert_eq!(entry_text(&Entry::Other), None);
}

#[test]
fn requirement_stands_in_the_entry_or_its_version_field() {
    let text = || Entry::Text("1".to_string());
    assert_eq!(requirement_place(&text(), &Entry::Missing), RequirementPlace::Entry);
    assert_eq!(requirement_place(&text(), &text()), RequirementPlace::Entry);
    assert_eq!(requirement_place(&Entry::Table, &text()), RequirementPlace::Field);
    assert_eq!(requirement_place(&Entry::Table, &Entry::Missing), RequirementPlace::Unstated);
    assert_eq!(requirement_place(&Entry::Table, &Entry::Table), RequirementPlace::Malformed);
    assert_eq!(requirement_place(&Entry::Table, &Entry::Other), RequirementPlace::Malformed);
    assert_eq!(requirement_place(&Entry::Missing, &Entry::Missing), RequirementPlace::Malformed);
    assert_eq!(requirement_place(&Entry::Other, &text()), RequirementPlace::Malformed);
}
