//! Questions to a workspace graph: the package of a member, what a member
//! depends on, and what depends on it.

use crate::graph::{ascending, place_of, CrateGraph};
use crate::ident::PackageId;
use crate::metadata::{has_package, package_of, Package};
use crate::rank::distinct_ids;
use crate::topo::{is_edge, lemma_permutation_covers, stands_before};
use crate::weight::well_indexed;
use crate::workspace::{depends_on, id_views, is_member, listed, position};
use vstd::prelude::*;

verus! {

/// The places, in ascending order, of the members below `bound` that
/// list member `i` as a dependency.
pub open spec fn dependents_upto(adj: Seq<Vec<usize>>, i: int, bound: nat) -> Seq<usize>
    decreases bound,
{
    if bound == 0 {
        Seq::empty()
    } else {
        let rest = dependents_upto(adj, i, (bound - 1) as nat);
        if is_edge(adj, bound - 1, i) {
            rest.push((bound - 1) as usize)
        } else {
            rest
        }
    }
}

/// The dependents listed are the members that depend on `i`, each once.
pub proof fn lemma_dependents_upto(adj: Seq<Vec<usize>>, i: int, bound: nat)
    requires
        bound <= adj.len(),
        adj.len() <= usize::MAX,
    ensures
        dependents_upto(adj, i, bound).len() <= bound,
        forall|k: int|
            0 <= k < dependents_upto(adj, i, bound).len() ==> (#[trigger] dependents_upto(
                adj,
                i,
                bound,
            )[k]) < bound && is_edge(adj, dependents_upto(adj, i, bound)[k] as int, i),
        forall|j: int|
            0 <= j < bound && is_edge(adj, j, i) ==> dependents_upto(adj, i, bound).contains(
                j as usize,
            ),
        (forall|j: int| 0 <= j < bound ==> !is_edge(adj, j, i)) ==> dependents_upto(adj, i, bound).len()
            == 0,
    decreases bound,
{
    if bound > 0 {
        let rest = dependents_upto(adj, i, (bound - 1) as nat);
        lemma_dependents_upto(adj, i, (bound - 1) as nat);
        let full = dependents_upto(adj, i, bound);
        assert forall|j: int| 0 <= j < bound && is_edge(adj, j, i) implies full.contains(
            j as usize,
        ) by {
            if j < bound - 1 {
                assert(rest.contains(j as usize));
                let k = choose|k: int| 0 <= k < rest.len() && rest[k] == j as usize;
                assert(full[k] == j as usize);
            } else {
                assert(full[rest.len() as int] == j as usize);
            }
        }
    }
}

/// The identities of the members at `places`.
pub open spec fn ids_at(crates: Seq<PackageId>, places: Seq<usize>) -> Seq<Seq<char>> {
    Seq::new(places.len(), |k: int| crates[places[k] as int]@)
}

/// The package of the member at `place`.
pub open spec fn member_package(graph: &CrateGraph, place: int) -> Package {
    package_of(graph.meta.packages@, graph.crates@[place]@)
}

/// Whether `list` names place `j`.
pub(crate) fn names_place(list: &Vec<usize>, j: usize) -> (r: bool)
    ensures
        r == exists|k: int| 0 <= k < list@.len() && #[trigger] list@[k] == j,
{
    let mut k: usize = 0;
    while k < list.len()
        invariant
            k <= list@.len(),
            forall|m: int| 0 <= m < k ==> #[trigger] list@[m] != j,
        decreases list.len() - k,
    {
        if list[k] == j {
            return true;
        }
        k += 1;
    }
    false
}

impl CrateGraph {
    /// The identities of the workspace members.
    pub open spec fn crate_set(&self) -> Set<Seq<char>> {
        Set::new(|id: Seq<char>| listed(self.crates@, id))
    }

    /// The identities that the member at place `i` lists as dependencies.
    pub open spec fn dep_ids(&self, i: int) -> Seq<Seq<char>> {
        Seq::new(self.ws_deps@[i]@.len(), |k: int| self.crates@[self.ws_deps@[i]@[k] as int]@)
    }

    /// The direct in-workspace dependencies of `id`.
    pub open spec fn deps_of(&self, id: Seq<char>) -> Set<Seq<char>> {
        if listed(self.crates@, id) {
            self.dep_ids(place_of(self.crates@, id)).to_set()
        } else {
            Set::empty()
        }
    }

    /// The dependencies of every member, by identity.
    pub open spec fn ws_deps_map(&self) -> Map<Seq<char>, Set<Seq<char>>> {
        Map::new(|id: Seq<char>| listed(self.crates@, id), |id: Seq<char>| self.deps_of(id))
    }

    /// The dependencies of every member are defined, hold members only,
    /// and are the members that its package declares as normal
    /// dependencies.
    pub proof fn lemma_deps_within_workspace(&self)
        requires
            self.wf(),
        ensures
            self.ws_deps_map().dom() == self.crate_set(),
            forall|id: Seq<char>, d: Seq<char>|
                self.crate_set().contains(id) && #[trigger] self.ws_deps_map()[id].contains(d)
                    ==> self.crate_set().contains(d),
            forall|id: Seq<char>, d: Seq<char>|
                self.crate_set().contains(id) ==> (#[trigger] self.deps_of(id).contains(d)
                    <==> is_member(&self.meta, d) && depends_on(&self.meta, id, d)),
    {
        assert(self.ws_deps_map().dom() =~= self.crate_set());
        assert forall|id: Seq<char>, d: Seq<char>| self.crate_set().contains(id) implies (
        #[trigger] self.deps_of(id).contains(d) <==> is_member(&self.meta, d) && depends_on(
            &self.meta,
            id,
            d,
        )) by {
            let i = place_of(self.crates@, id);
            let ids = self.dep_ids(i);
            if ids.contains(d) {
                let k = choose|k: int| 0 <= k < ids.len() && ids[k] == d;
                let j = self.ws_deps@[i]@[k];
                assert(j < self.crates@.len());
                assert(listed(self.crates@, self.crates@[j as int]@));
                assert(is_edge(self.ws_deps@, i, j as int));
            }
            if is_member(&self.meta, d) && depends_on(&self.meta, id, d) {
                assert(listed(self.crates@, d));
                let j = place_of(self.crates@, d);
                assert(is_edge(self.ws_deps@, i, j));
                let k = choose|k: int|
                    0 <= k < self.ws_deps@[i]@.len() && #[trigger] self.ws_deps@[i]@[k] == j;
                assert(ids[k] == d);
            }
        }
        assert forall|id: Seq<char>, d: Seq<char>|
            self.crate_set().contains(id) && #[trigger] self.ws_deps_map()[id].contains(
                d,
            ) implies self.crate_set().contains(d) by {
            assert(self.deps_of(id).contains(d));
            assert(listed(self.crates@, d));
        }
    }

    /// The package that `id` identifies.
    pub fn get_crate(&self, id: &PackageId) -> (p: &Package)
        requires
            has_package(self.meta.packages@, id@),
        ensures
            *p == package_of(self.meta.packages@, id@),
    {
        match self.meta.find(id) {
            Some(k) => &self.meta.packages[k],
            None => vstd::pervasive::unreached(),
        }
    }

    /// The package that `id` identifies, where the snapshot has one.
    pub fn find_crate(&self, id: &PackageId) -> (r: Option<&Package>)
        ensures
            r is Some <==> has_package(self.meta.packages@, id@),
            r matches Some(p) ==> *p == package_of(self.meta.packages@, id@),
    {
        match self.meta.find(id) {
            Some(k) => Some(&self.meta.packages[k]),
            None => None,
        }
    }

    /// The package of the member at `place`.
    pub fn member(&self, place: usize) -> (p: &Package)
        requires
            self.wf(),
            place < self.crates@.len(),
        ensures
            *p == member_package(self, place as int),
    {
        proof {
            assert(listed(self.crates@, self.crates@[place as int]@));
        }
        self.get_crate(&self.crates[place])
    }

    /// Whether `id` is a workspace member.
    pub fn contains(&self, id: &PackageId) -> (r: bool)
        ensures
            r == self.crate_set().contains(id@),
    {
        position(&self.crates, id).is_some()
    }

    /// The direct in-workspace dependencies of `id`, or `None` where `id`
    /// is no workspace member.
    pub fn dependencies(&self, id: &PackageId) -> (r: Option<Vec<PackageId>>)
        requires
            self.wf(),
        ensures
            r is Some <==> self.crate_set().contains(id@),
            r matches Some(list) ==> id_views(list@) == self.dep_ids(place_of(self.crates@, id@))
                && distinct_ids(list@) && forall|d: Seq<char>| #[trigger]
                listed(list@, d) <==> self.deps_of(id@).contains(d),
    {
        let i: usize = match position(&self.crates, id) {
            Some(i) => i,
            None => {
                return None;
            },
        };
        let places = &self.ws_deps[i];
        let mut list: Vec<PackageId> = Vec::new();
        let mut k: usize = 0;
        proof {
            assert(place_of(self.crates@, id@) == i);
            assert(ascending(self.ws_deps@[i as int]@));
        }
        while k < places.len()
            invariant
                k <= places@.len(),
                i < self.crates@.len(),
                places@ == self.ws_deps@[i as int]@,
                well_indexed(self.ws_deps@),
                self.ws_deps@.len() == self.crates@.len(),
                list@.len() == k,
                forall|m: int| 0 <= m < k ==> (#[trigger] list@[m])@ == self.dep_ids(i as int)[m],
            decreases places.len() - k,
        {
            let j: usize = places[k];
            assert(j < self.crates@.len());
            list.push(self.crates[j].duplicate());
            k += 1;
        }
        proof {
            let ids = self.dep_ids(i as int);
            assert(id_views(list@) =~= ids);
            assert forall|d: Seq<char>| #[trigger] listed(list@, d) <==> ids.to_set().contains(
                d,
            ) by {
                if listed(list@, d) {
                    let m = choose|m: int| 0 <= m < list@.len() && (#[trigger] list@[m])@ == d;
                    assert(ids[m] == d);
                }
                if ids.contains(d) {
                    let m = choose|m: int| 0 <= m < ids.len() && ids[m] == d;
                    assert(list@[m]@ == d);
                }
            }
            assert forall|x: int, y: int|
                0 <= x < list@.len() && 0 <= y < list@.len() && x != y implies list@[x]@
                != list@[y]@ by {
                assert(list@[x]@ == ids[x] && list@[y]@ == ids[y]);
                let a = places@[x];
                let b = places@[y];
                assert(a < self.crates@.len() && b < self.crates@.len());
                if x < y {
                    assert(a < b);
                } else {
                    assert(b < a);
                }
            }
        }
        Some(list)
    }

    /// The places, in ascending order, of the members that list member
    /// `i` as a dependency.
    pub fn dependent_places(&self, i: usize) -> (places: Vec<usize>)
        requires
            self.ws_deps@.len() == self.crates@.len(),
        ensures
            places@ == dependents_upto(self.ws_deps@, i as int, self.ws_deps@.len()),
    {
        let mut places: Vec<usize> = Vec::new();
        let mut j: usize = 0;
        while j < self.ws_deps.len()
            invariant
                j <= self.ws_deps@.len(),
                places@ == dependents_upto(self.ws_deps@, i as int, j as nat),
            decreases self.ws_deps.len() - j,
        {
            let hit = names_place(&self.ws_deps[j], i);
            assert(hit == is_edge(self.ws_deps@, j as int, i as int));
            if hit {
                places.push(j);
            }
            j += 1;
        }
        places
    }

    /// The workspace members that have `id` as a direct dependency, in
    /// the order of the members. There are none where `id` is no member.
    pub fn dependents(&self, id: &PackageId) -> (list: Vec<PackageId>)
        requires
            self.wf(),
        ensures
            self.crate_set().contains(id@) ==> id_views(list@) == ids_at(
                self.crates@,
                dependents_upto(
                    self.ws_deps@,
                    place_of(self.crates@, id@),
                    self.ws_deps@.len(),
                ),
            ),
            !self.crate_set().contains(id@) ==> list@.len() == 0,
    {
        let mut list: Vec<PackageId> = Vec::new();
        let i: usize = match position(&self.crates, id) {
            Some(i) => i,
            None => {
                return list;
            },
        };
        assert(place_of(self.crates@, id@) == i);
        let places = self.dependent_places(i);
        let n: usize = self.ws_deps.len();
        proof {
            lemma_dependents_upto(self.ws_deps@, i as int, n as nat);
        }
        let mut k: usize = 0;
        while k < places.len()
            invariant
                k <= places@.len(),
                self.ws_deps@.len() == self.crates@.len(),
                forall|m: int| 0 <= m < places@.len() ==> (#[trigger] places@[m]) < self.crates@.len(),
                list@.len() == k,
                forall|m: int|
                    0 <= m < k ==> (#[trigger] list@[m])@ == self.crates@[places@[m] as int]@,
            decreases places.len() - k,
        {
            let j: usize = places[k];
            list.push(self.crates[j].duplicate());
            k += 1;
        }
        assert(id_views(list@) =~= ids_at(self.crates@, places@));
        list
    }

    /// The dependents of a member are the members whose dependencies hold
    /// it.
    pub proof fn lemma_dependents(&self, id: Seq<char>, d: Seq<char>)
        requires
            self.wf(),
            self.crate_set().contains(id),
        ensures
            ids_at(
                self.crates@,
                dependents_upto(self.ws_deps@, place_of(self.crates@, id), self.ws_deps@.len()),
            ).contains(d) <==> self.crate_set().contains(d) && self.deps_of(d).contains(id),
    {
        let i = place_of(self.crates@, id);
        let places = dependents_upto(self.ws_deps@, i, self.ws_deps@.len());
        let ids = ids_at(self.crates@, places);
        assert(self.ws_deps@.len() == self.ws_deps.len());
        lemma_dependents_upto(self.ws_deps@, i, self.ws_deps@.len());
        if ids.contains(d) {
            let k = choose|k: int| 0 <= k < ids.len() && ids[k] == d;
            let j = places[k] as int;
            assert(listed(self.crates@, self.crates@[j]@));
            assert(place_of(self.crates@, d) == j);
            let m = choose|m: int|
                0 <= m < self.ws_deps@[j]@.len() && #[trigger] self.ws_deps@[j]@[m] == i;
            assert(self.dep_ids(j)[m] == id);
        }
        if self.crate_set().contains(d) && self.deps_of(d).contains(id) {
            let j = place_of(self.crates@, d);
            assert(listed(self.crates@, d));
            assert(0 <= j < self.crates@.len() && self.crates@[j]@ == d);
            let held = self.dep_ids(j);
            let m = choose|m: int| 0 <= m < held.len() && held[m] == id;
            let to = self.ws_deps@[j]@[m];
            assert(to < self.crates@.len());
            assert(to == i);
            assert(is_edge(self.ws_deps@, j, i));
            assert(places.contains(j as usize));
            let k = choose|k: int| 0 <= k < places.len() && places[k] == j as usize;
            assert(ids[k] == d);
        }
    }

    /// In the publish order every member stands once, after all of its
    /// dependencies.
    pub proof fn lemma_publish_order_sound(&self)
        requires
            self.wf(),
        ensures
            self.publish_order@.len() == self.crates@.len(),
            forall|id: Seq<char>|
                self.crate_set().contains(id) ==> ids_at(self.crates@, self.publish_order@).contains(
                    id,
                ),
            ids_at(self.crates@, self.publish_order@).no_duplicates(),
            forall|a: int, d: Seq<char>|
                0 <= a < self.publish_order@.len() && #[trigger] self.deps_of(
                    ids_at(self.crates@, self.publish_order@)[a],
                ).contains(d) ==> exists|b: int|
                    0 <= b < a && ids_at(self.crates@, self.publish_order@)[b] == d,
    {
        let order = self.publish_order@;
        let ids = ids_at(self.crates@, order);
        assert forall|id: Seq<char>| self.crate_set().contains(id) implies ids.contains(id) by {
            let i = place_of(self.crates@, id);
            lemma_permutation_covers(order, self.ws_deps@.len(), i);
            let b = choose|b: int| 0 <= b < order.len() && order[b] == i;
            assert(ids[b] == id);
        }
        assert forall|x: int, y: int|
            0 <= x < ids.len() && 0 <= y < ids.len() && x != y implies ids[x] != ids[y] by {
            assert(order[x] != order[y]);
            assert(order[x] < self.crates@.len() && order[y] < self.crates@.len());
        }
        assert forall|a: int, d: Seq<char>|
            0 <= a < order.len() && #[trigger] self.deps_of(ids[a]).contains(d) implies exists|
            b: int,
        | 0 <= b < a && ids[b] == d by {
            let i = order[a] as int;
            assert(0 <= i < self.crates@.len());
            assert(listed(self.crates@, self.crates@[i]@));
            assert(place_of(self.crates@, ids[a]) == i);
            let held = self.dep_ids(i);
            let k = choose|k: int| 0 <= k < held.len() && held[k] == d;
            assert(stands_before(order, a, self.ws_deps@[order[a] as int]@[k] as int));
            let b = choose|b: int|
                0 <= b < a && b < order.len() && #[trigger] order[b] == self.ws_deps@[i]@[k];
            assert(ids[b] == d);
        }
    }

    /// The workspace members in the order in which they can be published:
    /// each after all of its dependencies.
    pub fn publish_sequence(&self) -> (list: Vec<PackageId>)
        requires
            self.wf(),
        ensures
            id_views(list@) == ids_at(self.crates@, self.publish_order@),
    {
        let mut list: Vec<PackageId> = Vec::new();
        let mut k: usize = 0;
        while k < self.publish_order.len()
            invariant
                k <= self.publish_order@.len(),
                self.wf(),
                list@.len() == k,
                forall|m: int|
                    0 <= m < k ==> (#[trigger] list@[m])@
                        == self.crates@[self.publish_order@[m] as int]@,
            decreases self.publish_order.len() - k,
        {
            let j: usize = self.publish_order[k];
            list.push(self.crates[j].duplicate());
            k += 1;
        }
        assert(id_views(list@) =~= ids_at(self.crates@, self.publish_order@));
        list
    }
}

} // verus!
