//! The workspace graph: the members of a workspace, the direct in-workspace
//! dependencies of each, and the orders derived from them.

use crate::ident::PackageId;
use crate::metadata::{
    has_package, is_first_match, lemma_first_match_unique, package_of, Metadata, Package,
};
use crate::rank::{build_crate_graph, distinct_ids, is_rank_of, rank_keys};
use crate::topo::{cyclic, is_cycle, is_edge, is_publish_order, topological_order};
use crate::weight::well_indexed;
use crate::workspace::{
    declares, declares_dependency, depends_on, distinct_upto, has_dependency_cycle, id_views,
    is_dependency_cycle, is_member, listed, malformation, members_present, name_of, names_unique,
    position, well_formed, MalformedWorkspace,
};
use vstd::prelude::*;

verus! {

/// The graph of one workspace.
#[derive(Debug, Clone)]
pub struct CrateGraph {
    /// The snapshot that the graph was built from.
    pub meta: Metadata,
    /// The workspace members, each once.
    pub crates: Vec<PackageId>,
    /// For each member, by its place in `crates`, the places of the members
    /// that it depends on directly.
    pub ws_deps: Vec<Vec<usize>>,
    /// The members with their weights, in rank order.
    pub sorted: Vec<(PackageId, usize)>,
    /// The places of the members in an order in which every member comes
    /// after all of its dependencies.
    pub publish_order: Vec<usize>,
}

/// `list` is strictly ascending.
pub open spec fn ascending(list: Seq<usize>) -> bool {
    forall|x: int, y: int| 0 <= x < y < list.len() ==> list[x] < list[y]
}

/// `crates` holds exactly the workspace members, each once, in the order
/// in which the snapshot names them first.
pub open spec fn lists_members(meta: &Metadata, crates: Seq<PackageId>) -> bool {
    &&& distinct_ids(crates)
    &&& forall|id: Seq<char>| #[trigger] listed(crates, id) <==> is_member(meta, id)
    &&& id_views(crates) == distinct_upto(meta.workspace_members@, meta.workspace_members@.len())
}

/// `adj` holds, for each member, exactly its direct dependencies among the
/// members.
pub open spec fn lists_dependencies(
    meta: &Metadata,
    crates: Seq<PackageId>,
    adj: Seq<Vec<usize>>,
) -> bool {
    &&& adj.len() == crates.len()
    &&& well_indexed(adj)
    &&& forall|i: int| 0 <= i < adj.len() ==> ascending(#[trigger] adj[i]@)
    &&& forall|i: int, j: int|
        0 <= i < crates.len() && 0 <= j < crates.len() ==> (#[trigger] is_edge(adj, i, j)
            <==> depends_on(meta, crates[i]@, crates[j]@))
}

fn distinct_members(members: &Vec<PackageId>) -> (crates: Vec<PackageId>)
    ensures
        distinct_ids(crates@),
        forall|id: Seq<char>| #[trigger] listed(crates@, id) <==> listed(members@, id),
        id_views(crates@) == distinct_upto(members@, members@.len()),
{
    let mut crates: Vec<PackageId> = Vec::new();
    let mut m: usize = 0;
    while m < members.len()
        invariant
            m <= members@.len(),
            distinct_ids(crates@),
            id_views(crates@) == distinct_upto(members@, m as nat),
            forall|id: Seq<char>| #[trigger]
                listed(crates@, id) <==> listed(members@.take(m as int), id),
        decreases members.len() - m,
    {
        let ghost before = crates@;
        let ghost seen = members@.take(m as int);
        let ghost next = members@.take(m + 1);
        let found = position(&crates, &members[m]);
        proof {
            let had = id_views(before);
            let id0 = members@[m as int]@;
            if listed(before, id0) {
                let i = choose|i: int| 0 <= i < before.len() && (#[trigger] before[i])@ == id0;
                assert(had[i] == id0);
            }
            if had.contains(id0) {
                let i = choose|i: int| 0 <= i < had.len() && had[i] == id0;
                assert(before[i]@ == id0);
            }
            assert(found is Some <==> had.contains(id0));
        }
        if found.is_none() {
            crates.push(members[m].duplicate());
            assert(id_views(crates@) =~= id_views(before).push(members@[m as int]@));
        }
        proof {
            let id0 = members@[m as int]@;
            assert(next[m as int]@ == id0);
            assert forall|id: Seq<char>| #[trigger]
                listed(crates@, id) <==> listed(next, id) by {
                if listed(crates@, id) {
                    let i = choose|i: int| 0 <= i < crates@.len() && (#[trigger] crates@[i])@ == id;
                    if i < before.len() {
                        assert(before[i]@ == id);
                        assert(listed(before, id));
                        let k = choose|k: int| 0 <= k < seen.len() && (#[trigger] seen[k])@ == id;
                        assert(next[k]@ == id);
                    }
                }
                if listed(next, id) {
                    let k = choose|k: int| 0 <= k < next.len() && (#[trigger] next[k])@ == id;
                    if k < m {
                        assert(seen[k]@ == id);
                        assert(listed(before, id));
                        let i = choose|i: int| 0 <= i < before.len() && (#[trigger] before[i])@ == id;
                        assert(crates@[i]@ == id);
                    } else if found is None {
                        assert(crates@[before.len() as int]@ == id);
                    } else {
                        assert(listed(before, id));
                    }
                }
            }
            assert(distinct_ids(crates@)) by {
                assert forall|i: int, j: int|
                    0 <= i < crates@.len() && 0 <= j < crates@.len() && i != j implies crates@[i]@
                    != crates@[j]@ by {
                    if i < before.len() && j < before.len() {
                        assert(before[i]@ != before[j]@);
                    } else if i < before.len() {
                        assert(before[i]@ != id0);
                    } else {
                        assert(before[j]@ != id0);
                    }
                }
            }
        }
        m += 1;
    }
    proof {
        assert(members@.take(m as int) =~= members@);
    }
    crates
}

fn member_packages(meta: &Metadata, crates: &Vec<PackageId>) -> (r: Option<Vec<usize>>)
    ensures
        match r {
            Some(pkg) => pkg@.len() == crates@.len() && forall|i: int|
                0 <= i < crates@.len() ==> is_first_match(
                    meta.packages@,
                    crates@[i]@,
                    #[trigger] pkg@[i] as int,
                ),
            None => exists|i: int|
                0 <= i < crates@.len() && !has_package(meta.packages@, (#[trigger] crates@[i])@),
        },
{
    let mut pkg: Vec<usize> = Vec::new();
    let mut i: usize = 0;
    while i < crates.len()
        invariant
            i <= crates@.len(),
            pkg@.len() == i,
            forall|j: int|
                0 <= j < i ==> is_first_match(meta.packages@, crates@[j]@, #[trigger] pkg@[j] as int),
        decreases crates.len() - i,
    {
        match meta.find(&crates[i]) {
            Some(k) => {
                pkg.push(k);
            },
            None => {
                return None;
            },
        }
        i += 1;
    }
    Some(pkg)
}

/// The names of the packages at `pkg` are pairwise different.
spec fn names_differ(pkgs: Seq<Package>, pkg: Seq<usize>) -> bool {
    forall|a: int, b: int|
        0 <= a < b < pkg.len() ==> pkgs[pkg[a] as int].name@ != pkgs[pkg[b] as int].name@
}

fn names_are_unique(meta: &Metadata, pkg: &Vec<usize>) -> (r: bool)
    requires
        forall|i: int| 0 <= i < pkg@.len() ==> (#[trigger] pkg@[i]) < meta.packages@.len(),
    ensures
        r == names_differ(meta.packages@, pkg@),
{
    let mut b: usize = 0;
    while b < pkg.len()
        invariant
            b <= pkg@.len(),
            forall|i: int| 0 <= i < pkg@.len() ==> (#[trigger] pkg@[i]) < meta.packages@.len(),
            forall|x: int, y: int|
                0 <= x < y < b ==> meta.packages@[pkg@[x] as int].name@
                    != meta.packages@[pkg@[y] as int].name@,
        decreases pkg.len() - b,
    {
        let mut a: usize = 0;
        while a < b
            invariant
                a <= b < pkg@.len(),
                forall|i: int| 0 <= i < pkg@.len() ==> (#[trigger] pkg@[i]) < meta.packages@.len(),
                forall|x: int|
                    0 <= x < a ==> meta.packages@[pkg@[x] as int].name@
                        != meta.packages@[pkg@[b as int] as int].name@,
            decreases b - a,
        {
            if meta.packages[pkg[a]].name == meta.packages[pkg[b]].name {
                return false;
            }
            a += 1;
        }
        b += 1;
    }
    true
}

fn dependency_list(meta: &Metadata, pkg: &Vec<usize>, i: usize) -> (list: Vec<usize>)
    requires
        i < pkg@.len(),
        forall|k: int| 0 <= k < pkg@.len() ==> (#[trigger] pkg@[k]) < meta.packages@.len(),
    ensures
        ascending(list@),
        forall|k: int| 0 <= k < list@.len() ==> (#[trigger] list@[k]) < pkg@.len(),
        forall|j: int|
            0 <= j < pkg@.len() ==> (list@.contains(j as usize) <==> declares(
                meta.packages@[pkg@[i as int] as int],
                #[trigger] meta.packages@[pkg@[j] as int].name@,
            )),
{
    let package = &meta.packages[pkg[i]];
    let mut list: Vec<usize> = Vec::new();
    let mut j: usize = 0;
    while j < pkg.len()
        invariant
            j <= pkg@.len(),
            i < pkg@.len(),
            *package == meta.packages@[pkg@[i as int] as int],
            forall|k: int| 0 <= k < pkg@.len() ==> (#[trigger] pkg@[k]) < meta.packages@.len(),
            ascending(list@),
            forall|k: int| 0 <= k < list@.len() ==> (#[trigger] list@[k]) < j,
            forall|x: int|
                0 <= x < j ==> (list@.contains(x as usize) <==> declares(
                    *package,
                    #[trigger] meta.packages@[pkg@[x] as int].name@,
                )),
        decreases pkg.len() - j,
    {
        let ghost before = list@;
        let hit = declares_dependency(package, &meta.packages[pkg[j]].name);
        if hit {
            list.push(j);
        }
        proof {
            assert forall|x: int| 0 <= x < j + 1 implies (list@.contains(x as usize) <==> declares(
                *package,
                #[trigger] meta.packages@[pkg@[x] as int].name@,
            )) by {
                if list@.contains(x as usize) {
                    let k = choose|k: int| 0 <= k < list@.len() && list@[k] == x as usize;
                    if k < before.len() {
                        assert(before[k] == x as usize);
                        assert(before.contains(x as usize));
                    }
                }
                if x < j && before.contains(x as usize) {
                    let k = choose|k: int| 0 <= k < before.len() && before[k] == x as usize;
                    assert(list@[k] == x as usize);
                }
                if x == j && hit {
                    assert(list@[before.len() as int] == j);
                }
            }
        }
        j += 1;
    }
    list
}

fn dependency_lists(meta: &Metadata, pkg: &Vec<usize>) -> (adj: Vec<Vec<usize>>)
    requires
        forall|k: int| 0 <= k < pkg@.len() ==> (#[trigger] pkg@[k]) < meta.packages@.len(),
    ensures
        adj@.len() == pkg@.len(),
        well_indexed(adj@),
        forall|i: int| 0 <= i < adj@.len() ==> ascending(#[trigger] adj@[i]@),
        forall|i: int, j: int|
            0 <= i < pkg@.len() && 0 <= j < pkg@.len() ==> (#[trigger] is_edge(adj@, i, j)
                <==> declares(
                meta.packages@[pkg@[i] as int],
                meta.packages@[pkg@[j] as int].name@,
            )),
{
    let mut adj: Vec<Vec<usize>> = Vec::new();
    let mut i: usize = 0;
    while i < pkg.len()
        invariant
            i <= pkg@.len(),
            adj@.len() == i,
            forall|k: int| 0 <= k < pkg@.len() ==> (#[trigger] pkg@[k]) < meta.packages@.len(),
            forall|a: int, k: int|
                0 <= a < adj@.len() && 0 <= k < adj@[a]@.len() ==> (#[trigger] adj@[a]@[k])
                    < pkg@.len(),
            forall|a: int| 0 <= a < adj@.len() ==> ascending(#[trigger] adj@[a]@),
            forall|a: int, j: int|
                0 <= a < i && 0 <= j < pkg@.len() ==> (adj@[a]@.contains(j as usize) <==> declares(
                    #[trigger] meta.packages@[pkg@[a] as int],
                    #[trigger] meta.packages@[pkg@[j] as int].name@,
                )),
        decreases pkg.len() - i,
    {
        let list = dependency_list(meta, pkg, i);
        adj.push(list);
        i += 1;
    }
    proof {
        assert forall|a: int, j: int| 0 <= a < pkg@.len() && 0 <= j < pkg@.len() implies (
        #[trigger] is_edge(adj@, a, j) <==> declares(
            meta.packages@[pkg@[a] as int],
            meta.packages@[pkg@[j] as int].name@,
        )) by {
            let p = meta.packages@[pkg@[a] as int];
            let nm = meta.packages@[pkg@[j] as int].name@;
            assert(adj@[a]@.contains(j as usize) <==> declares(p, nm));
            if is_edge(adj@, a, j) {
                let k = choose|k: int| 0 <= k < adj@[a]@.len() && #[trigger] adj@[a]@[k] == j;
                assert(adj@[a]@[k] == j as usize);
            }
            if adj@[a]@.contains(j as usize) {
                let k = choose|k: int| 0 <= k < adj@[a]@.len() && adj@[a]@[k] == j as usize;
                assert(adj@[a]@[k] == j);
            }
        }
    }
    adj
}

/// The place in `crates` of the member with identity `id`.
pub open spec fn place_of(crates: Seq<PackageId>, id: Seq<char>) -> int {
    choose|i: int| 0 <= i < crates.len() && (#[trigger] crates[i])@ == id
}

proof fn lemma_walk_in_range(adj: Seq<Vec<usize>>, path: Seq<int>, k: int)
    requires
        well_indexed(adj),
        is_cycle(adj, path),
        0 <= k < path.len(),
    ensures
        0 <= path[k] < adj.len(),
{
    if k < path.len() - 1 {
        assert(is_edge(adj, path[k], path[k + 1]));
    } else {
        let j = k - 1;
        assert(is_edge(adj, path[j], path[j + 1]));
    }
}

/// The lists of places have a cycle exactly when the members have one.
pub proof fn lemma_cycle_of_members(meta: &Metadata, crates: Seq<PackageId>, adj: Seq<Vec<usize>>)
    requires
        lists_members(meta, crates),
        lists_dependencies(meta, crates, adj),
    ensures
        cyclic(adj) <==> has_dependency_cycle(meta),
{
    if cyclic(adj) {
        let path = choose|path: Seq<int>| is_cycle(adj, path);
        let ids = Seq::new(path.len(), |k: int| crates[path[k]]@);
        assert forall|k: int| 0 <= k < ids.len() implies is_member(meta, #[trigger] ids[k]) by {
            lemma_walk_in_range(adj, path, k);
            assert(listed(crates, crates[path[k]]@));
        }
        assert forall|k: int| 0 <= k < ids.len() - 1 implies depends_on(
            meta,
            #[trigger] ids[k],
            ids[k + 1],
        ) by {
            lemma_walk_in_range(adj, path, k);
            lemma_walk_in_range(adj, path, k + 1);
            assert(is_edge(adj, path[k], path[k + 1]));
        }
        assert(is_dependency_cycle(meta, ids));
    }
    if has_dependency_cycle(meta) {
        let ids = choose|ids: Seq<Seq<char>>| is_dependency_cycle(meta, ids);
        let path = Seq::new(ids.len(), |k: int| place_of(crates, ids[k]));
        assert forall|k: int| 0 <= k < ids.len() implies 0 <= #[trigger] path[k] < crates.len()
            && crates[path[k]]@ == ids[k] by {
            assert(is_member(meta, ids[k]));
            assert(listed(crates, ids[k]));
        }
        assert forall|k: int| 0 <= k < path.len() - 1 implies #[trigger] is_edge(
            adj,
            path[k],
            path[k + 1],
        ) by {
            assert(depends_on(meta, ids[k], ids[k + 1]));
            assert(crates[path[k]]@ == ids[k]);
            assert(crates[path[k + 1]]@ == ids[k + 1]);
        }
        assert(is_cycle(adj, path));
    }
}

proof fn lemma_members_resolved(meta: &Metadata, crates: Seq<PackageId>, pkg: Seq<usize>)
    requires
        lists_members(meta, crates),
        pkg.len() == crates.len(),
        forall|i: int|
            0 <= i < crates.len() ==> is_first_match(meta.packages@, crates[i]@, #[trigger] pkg[i] as int),
    ensures
        members_present(meta),
        forall|i: int|
            0 <= i < crates.len() ==> #[trigger] package_of(meta.packages@, crates[i]@)
                == meta.packages@[pkg[i] as int],
        names_unique(meta) <==> names_differ(meta.packages@, pkg),
{
    assert forall|i: int| 0 <= i < crates.len() implies #[trigger] package_of(
        meta.packages@,
        crates[i]@,
    ) == meta.packages@[pkg[i] as int] by {
        assert(is_first_match(meta.packages@, crates[i]@, pkg[i] as int));
        lemma_first_match_unique(meta.packages@, crates[i]@, pkg[i] as int);
    }
    assert forall|id: Seq<char>| #[trigger] is_member(meta, id) implies has_package(
        meta.packages@,
        id,
    ) by {
        assert(listed(crates, id));
        let i = place_of(crates, id);
        assert(is_first_match(meta.packages@, crates[i]@, pkg[i] as int));
    }
    if names_unique(meta) {
        assert forall|a: int, b: int| 0 <= a < b < pkg.len() implies meta.packages@[pkg[a] as int].name@
            != meta.packages@[pkg[b] as int].name@ by {
            assert(listed(crates, crates[a]@));
            assert(listed(crates, crates[b]@));
            assert(is_member(meta, crates[a]@) && is_member(meta, crates[b]@));
            assert(package_of(meta.packages@, crates[a]@) == meta.packages@[pkg[a] as int]);
            assert(package_of(meta.packages@, crates[b]@) == meta.packages@[pkg[b] as int]);
        }
    }
    if names_differ(meta.packages@, pkg) {
        assert forall|a: Seq<char>, b: Seq<char>| #[trigger]
            is_member(meta, a) && #[trigger] is_member(meta, b) && a != b implies name_of(meta, a)
            != name_of(meta, b) by {
            assert(listed(crates, a) && listed(crates, b));
            let i = place_of(crates, a);
            let j = place_of(crates, b);
            assert(package_of(meta.packages@, crates[i]@) == meta.packages@[pkg[i] as int]);
            assert(package_of(meta.packages@, crates[j]@) == meta.packages@[pkg[j] as int]);
            if i < j {
                assert(meta.packages@[pkg[i] as int].name@ != meta.packages@[pkg[j] as int].name@);
            } else {
                assert(meta.packages@[pkg[j] as int].name@ != meta.packages@[pkg[i] as int].name@);
            }
        }
    }
}

impl CrateGraph {
    /// The graph is the graph of its snapshot.
    pub open spec fn wf(&self) -> bool {
        &&& well_formed(&self.meta)
        &&& lists_members(&self.meta, self.crates@)
        &&& lists_dependencies(&self.meta, self.crates@, self.ws_deps@)
        &&& is_rank_of(self.crates@, self.ws_deps@, rank_keys(self.sorted@))
        &&& is_publish_order(self.ws_deps@, self.publish_order@)
    }

    /// Builds the graph of a snapshot, or reports why the snapshot is
    /// malformed.
    pub fn new(meta: Metadata) -> (r: Result<CrateGraph, MalformedWorkspace>)
        ensures
            match r {
                Ok(g) => g.meta == meta && g.wf() && malformation(&meta) is None,
                Err(e) => malformation(&meta) == Some(e),
            },
    {
        let crates = distinct_members(&meta.workspace_members);
        assert(lists_members(&meta, crates@));
        let pkg = match member_packages(&meta, &crates) {
            Some(pkg) => pkg,
            None => {
                proof {
                    let i = choose|i: int|
                        0 <= i < crates@.len() && !has_package(
                            meta.packages@,
                            (#[trigger] crates@[i])@,
                        );
                    assert(listed(crates@, crates@[i]@));
                    assert(is_member(&meta, crates@[i]@));
                }
                return Err(MalformedWorkspace::MissingMember);
            },
        };
        proof {
            lemma_members_resolved(&meta, crates@, pkg@);
        }
        if !names_are_unique(&meta, &pkg) {
            return Err(MalformedWorkspace::AmbiguousName);
        }
        let ws_deps = dependency_lists(&meta, &pkg);
        proof {
            assert forall|i: int, j: int|
                0 <= i < crates@.len() && 0 <= j < crates@.len() implies (#[trigger] is_edge(
                ws_deps@,
                i,
                j,
            ) <==> depends_on(&meta, crates@[i]@, crates@[j]@)) by {
                assert(package_of(meta.packages@, crates@[i]@) == meta.packages@[pkg@[i] as int]);
                assert(package_of(meta.packages@, crates@[j]@) == meta.packages@[pkg@[j] as int]);
            }
            assert(lists_dependencies(&meta, crates@, ws_deps@));
            lemma_cycle_of_members(&meta, crates@, ws_deps@);
        }
        let publish_order = match topological_order(&ws_deps) {
            Some(order) => order,
            None => {
                return Err(MalformedWorkspace::DependencyCycle);
            },
        };
        let sorted = build_crate_graph(&crates, &ws_deps);
        Ok(CrateGraph { meta, crates, ws_deps, sorted, publish_order })
    }
}

} // verus!
