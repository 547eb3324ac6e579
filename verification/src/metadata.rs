//! The snapshot of a workspace that a session starts from: every package
//! with its declared dependencies, and the list of workspace members.

use crate::ident::PackageId;
use vstd::prelude::*;

verus! {

/// What a dependency is needed for.
#[derive(Debug, Clone, Copy, PartialEq, Eq, Structural)]
pub enum DependencyKind {
    Normal,
    Development,
    Build,
    Unknown,
}

/// One declared dependency of a package.
#[derive(Debug, Clone, PartialEq, Eq)]
pub struct Dependency {
    pub name: String,
    /// The version requirement as text; `*` when none was declared.
    pub req: String,
    pub kind: DependencyKind,
    /// Where the dependency comes from, when it is not the default registry.
    pub source: Option<String>,
    /// The directory of a dependency given by path.
    pub path: Option<String>,
}

/// A semantic version.
#[derive(Debug, Clone, PartialEq, Eq)]
pub struct Version {
    pub major: u64,
    pub minor: u64,
    pub patch: u64,
    /// Pre-release identifiers, empty when there are none.
    pub pre: String,
    /// Build metadata, empty when there is none.
    pub build: String,
}

/// One package of the snapshot.
#[derive(Debug, Clone, PartialEq, Eq)]
pub struct Package {
    pub id: PackageId,
    pub name: String,
    pub version: Version,
    pub manifest_path: String,
    pub dependencies: Vec<Dependency>,
    pub keywords: Vec<String>,
    pub authors: Vec<String>,
    pub license: Option<String>,
    pub description: Option<String>,
    pub edition: String,
    /// `None`: no restriction. `Some` of an empty list: never published.
    pub publish: Option<Vec<String>>,
}

/// The snapshot itself.
#[derive(Debug, Clone, PartialEq, Eq)]
pub struct Metadata {
    pub workspace_members: Vec<PackageId>,
    pub packages: Vec<Package>,
    pub workspace_root: String,
    pub target_directory: String,
}

/// `k` is the place of the first package with identity `id`.
pub open spec fn is_first_match(pkgs: Seq<Package>, id: Seq<char>, k: int) -> bool {
    &&& 0 <= k < pkgs.len()
    &&& pkgs[k].id@ == id
    &&& forall|j: int| 0 <= j < k ==> pkgs[j].id@ != id
}

/// Some package has identity `id`.
pub open spec fn has_package(pkgs: Seq<Package>, id: Seq<char>) -> bool {
    exists|k: int| 0 <= k < pkgs.len() && #[trigger] pkgs[k].id@ == id
}

/// The place of the first package with identity `id`, where there is one.
pub open spec fn package_index(pkgs: Seq<Package>, id: Seq<char>) -> int {
    choose|k: int| is_first_match(pkgs, id, k)
}

/// The package that `id` identifies, where there is one.
pub open spec fn package_of(pkgs: Seq<Package>, id: Seq<char>) -> Package {
    pkgs[package_index(pkgs, id)]
}

/// A package is publish-restricted when its list of registries is present
/// and empty.
pub open spec fn never_published(p: Package) -> bool {
    p.publish matches Some(list) && list@.len() == 0
}

/// The first match is the only first match.
pub proof fn lemma_first_match_unique(pkgs: Seq<Package>, id: Seq<char>, k: int)
    requires
        is_first_match(pkgs, id, k),
    ensures
        package_index(pkgs, id) == k,
        package_of(pkgs, id) == pkgs[k],
{
    let c = package_index(pkgs, id);
    assert(is_first_match(pkgs, id, c));
    if c < k {
        assert(pkgs[c].id@ != id);
    } else if k < c {
        assert(pkgs[k].id@ != id);
    }
}

fn first_unmatched(pkgs: &Vec<Package>, id: &PackageId, from: usize) -> (k: usize)
    requires
        from <= pkgs.len(),
        forall|j: int| 0 <= j < from ==> pkgs@[j].id@ != id@,
    ensures
        from <= k <= pkgs.len(),
        forall|j: int| 0 <= j < k ==> pkgs@[j].id@ != id@,
        k < pkgs.len() ==> pkgs@[k as int].id@ == id@,
{
    let mut k: usize = from;
    while k < pkgs.len()
        invariant
            from <= k <= pkgs.len(),
            forall|j: int| 0 <= j < k ==> pkgs@[j].id@ != id@,
        decreases pkgs.len() - k,
    {
        if pkgs[k].id.same(id) {
            return k;
        }
        k += 1;
    }
    k
}

impl Metadata {
    /// The place in `packages` of the first package identified by `id`.
    pub fn find(&self, id: &PackageId) -> (r: Option<usize>)
        ensures
            r is Some <==> has_package(self.packages@, id@),
            r matches Some(k) ==> is_first_match(self.packages@, id@, k as int)
                && package_index(self.packages@, id@) == k,
    {
        let k: usize = first_unmatched(&self.packages, id, 0);
        if k < self.packages.len() {
            proof {
                lemma_first_match_unique(self.packages@, id@, k as int);
            }
            Some(k)
        } else {
            None
        }
    }

    /// The manifest path of the package identified by `id`.
    pub fn get_manifest_path(&self, id: &PackageId) -> (path: &String)
        requires
            has_package(self.packages@, id@),
        ensures
            *path == package_of(self.packages@, id@).manifest_path,
    {
        match self.find(id) {
            Some(k) => &self.packages[k].manifest_path,
            None => vstd::pervasive::unreached(),
        }
    }
}

impl Package {
    /// Whether the package is marked as never to be published.
    pub fn is_never_published(&self) -> (r: bool)
        ensures
            r == never_published(*self),
    {
        match &self.publish {
            Some(list) => list.len() == 0,
            None => false,
        }
    }
}

} // verus!
