//! What a snapshot says about its workspace: which packages are members,
//! which member depends on which, and when the snapshot is malformed.

use crate::ident::PackageId;
use crate::metadata::{has_package, package_of, DependencyKind, Metadata, Package};
use vstd::prelude::*;

verus! {

/// Why a snapshot does not describe a workspace that can be released.
#[derive(Debug, Clone, Copy, PartialEq, Eq, Structural)]
pub enum MalformedWorkspace {
    /// A workspace member has no package in the snapshot.
    MissingMember,
    /// Two workspace members have the same name, so that a dependency on
    /// that name does not resolve to one member.
    AmbiguousName,
    /// A workspace member depends, directly or through others, on itself.
    DependencyCycle,
}

/// `id` is the identity of one of `ids`.
pub open spec fn listed(ids: Seq<PackageId>, id: Seq<char>) -> bool {
    exists|i: int| 0 <= i < ids.len() && (#[trigger] ids[i])@ == id
}

/// The identities in `list`, in order.
pub open spec fn id_views(list: Seq<PackageId>) -> Seq<Seq<char>> {
    Seq::new(list.len(), |k: int| list[k]@)
}

/// The identities of the first `bound` of `members`, each where it occurs
/// first.
pub open spec fn distinct_upto(members: Seq<PackageId>, bound: nat) -> Seq<Seq<char>>
    decreases bound,
{
    if bound == 0 {
        Seq::empty()
    } else {
        let rest = distinct_upto(members, (bound - 1) as nat);
        let id = members[bound - 1]@;
        if rest.contains(id) {
            rest
        } else {
            rest.push(id)
        }
    }
}

/// `id` is a workspace member.
pub open spec fn is_member(meta: &Metadata, id: Seq<char>) -> bool {
    listed(meta.workspace_members@, id)
}

/// Every workspace member has a package in the snapshot.
pub open spec fn members_present(meta: &Metadata) -> bool {
    forall|id: Seq<char>| #[trigger] is_member(meta, id) ==> has_package(meta.packages@, id)
}

/// The name of the package that `id` identifies.
pub open spec fn name_of(meta: &Metadata, id: Seq<char>) -> Seq<char> {
    package_of(meta.packages@, id).name@
}

/// No two workspace members have the same name.
pub open spec fn names_unique(meta: &Metadata) -> bool {
    forall|a: Seq<char>, b: Seq<char>|
        #[trigger] is_member(meta, a) && #[trigger] is_member(meta, b) && a != b ==> name_of(meta, a)
            != name_of(meta, b)
}

/// Package `p` declares a normal dependency on a package called `name`.
pub open spec fn declares(p: Package, name: Seq<char>) -> bool {
    exists|d: int|
        0 <= d < p.dependencies@.len() && (#[trigger] p.dependencies@[d]).kind
            == DependencyKind::Normal && p.dependencies@[d].name@ == name
}

/// Member `a` has member `b` as a direct, normal dependency.
pub open spec fn depends_on(meta: &Metadata, a: Seq<char>, b: Seq<char>) -> bool {
    declares(package_of(meta.packages@, a), name_of(meta, b))
}

/// `path` leads from a member along direct dependencies back to it.
pub open spec fn is_dependency_cycle(meta: &Metadata, path: Seq<Seq<char>>) -> bool {
    &&& path.len() >= 2
    &&& path.first() == path.last()
    &&& forall|k: int| 0 <= k < path.len() ==> is_member(meta, #[trigger] path[k])
    &&& forall|k: int| 0 <= k < path.len() - 1 ==> depends_on(meta, #[trigger] path[k], path[k + 1])
}

/// Some member depends, directly or through other members, on itself.
pub open spec fn has_dependency_cycle(meta: &Metadata) -> bool {
    exists|path: Seq<Seq<char>>| is_dependency_cycle(meta, path)
}

/// The snapshot describes a workspace that a graph can be built from.
pub open spec fn well_formed(meta: &Metadata) -> bool {
    &&& members_present(meta)
    &&& names_unique(meta)
    &&& !has_dependency_cycle(meta)
}

/// The error that a malformed snapshot is reported with: a missing member
/// before an ambiguous name, and that before a cycle.
pub open spec fn malformation(meta: &Metadata) -> Option<MalformedWorkspace> {
    if !members_present(meta) {
        Some(MalformedWorkspace::MissingMember)
    } else if !names_unique(meta) {
        Some(MalformedWorkspace::AmbiguousName)
    } else if has_dependency_cycle(meta) {
        Some(MalformedWorkspace::DependencyCycle)
    } else {
        None
    }
}

/// Whether package `p` declares a normal dependency on `name`.
pub fn declares_dependency(p: &Package, name: &String) -> (r: bool)
    ensures
        r == declares(*p, name@),
{
    let mut d: usize = 0;
    while d < p.dependencies.len()
        invariant
            d <= p.dependencies@.len(),
            forall|e: int|
                0 <= e < d ==> !((#[trigger] p.dependencies@[e]).kind == DependencyKind::Normal
                    && p.dependencies@[e].name@ == name@),
        decreases p.dependencies.len() - d,
    {
        let dep = &p.dependencies[d];
        let normal = match dep.kind {
            DependencyKind::Normal => true,
            _ => false,
        };
        if normal && dep.name == *name {
            return true;
        }
        d += 1;
    }
    false
}

/// The place of `id` in `ids`.
pub fn position(ids: &Vec<PackageId>, id: &PackageId) -> (r: Option<usize>)
    ensures
        r is Some <==> listed(ids@, id@),
        r matches Some(i) ==> i < ids@.len() && ids@[i as int]@ == id@ && forall|j: int|
            0 <= j < i ==> (#[trigger] ids@[j])@ != id@,
{
    let mut i: usize = 0;
    while i < ids.len()
        invariant
            i <= ids@.len(),
            forall|j: int| 0 <= j < i ==> (#[trigger] ids@[j])@ != id@,
        decreases ids.len() - i,
    {
        if ids[i].same(id) {
            return Some(i);
        }
        i += 1;
    }
    None
}

} // verus!
