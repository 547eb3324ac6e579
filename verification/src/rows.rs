//! The requirements of one workspace member on the members it depends on,
//! as they are listed beside the member.

use crate::graph::{place_of, CrateGraph};
use crate::query::member_package;
use crate::ident::{bytes_precede, id_lt, lemma_id_lt_strict_total, PackageId};
use crate::metadata::{Dependency, Package, Version};
use crate::topo::{is_edge, is_permutation};
use crate::version::VersionParts;
use crate::workspace::{declares, depends_on, listed, position};
use vstd::prelude::*;

verus! {

/// One requirement of a member: the member depended on, the version it
/// has, and the requirement declared on it.
#[derive(Debug, Clone, PartialEq, Eq)]
pub struct RequirementRow {
    pub name: String,
    pub version: Version,
    pub req: String,
}

/// A row as plain values.
pub type RowView = (Seq<char>, VersionParts, Seq<char>);

impl View for RequirementRow {
    type V = RowView;

    open spec fn view(&self) -> RowView {
        (self.name@, self.version@, self.req@)
    }
}

/// `k` is the place of the first dependency called `name`.
pub open spec fn is_first_named(deps: Seq<Dependency>, name: Seq<char>, k: int) -> bool {
    &&& 0 <= k < deps.len()
    &&& deps[k].name@ == name
    &&& forall|m: int| 0 <= m < k ==> (#[trigger] deps[m]).name@ != name
}

/// The requirement that package `p` declares first on a package called
/// `name`.
pub open spec fn declared_req(p: Package, name: Seq<char>) -> Seq<char> {
    p.dependencies@[choose|k: int| is_first_named(p.dependencies@, name, k)].req@
}

/// The row of member `i` for the `k`-th member it depends on.
pub open spec fn row_of(graph: &CrateGraph, i: int, k: int) -> RowView {
    let dep = member_package(graph, graph.ws_deps@[i]@[k] as int);
    (dep.name@, dep.version@, declared_req(member_package(graph, i), dep.name@))
}

/// Row `a` is listed before row `b`: by requirement, rows with the same
/// requirement in the order of the dependencies.
pub open spec fn row_lt(reqs: Seq<Seq<char>>, a: int, b: int) -> bool {
    id_lt(reqs[a], reqs[b]) || (reqs[a] == reqs[b] && a < b)
}

/// `order` lists the rows with requirements `reqs` as they are shown.
pub open spec fn is_row_order(reqs: Seq<Seq<char>>, order: Seq<usize>) -> bool {
    &&& is_permutation(order, reqs.len())
    &&& forall|x: int, y: int|
        0 <= x < y < order.len() ==> row_lt(reqs, #[trigger] order[x] as int, #[trigger] order[y] as int)
}

/// The requirements of the rows of member `i`, in the order of its
/// dependencies.
pub open spec fn row_reqs(graph: &CrateGraph, i: int) -> Seq<Seq<char>> {
    Seq::new(graph.ws_deps@[i]@.len(), |k: int| row_of(graph, i, k).2)
}

/// `rows` are the rows of member `i` as they are shown.
pub open spec fn is_row_list(graph: &CrateGraph, i: int, rows: Seq<RequirementRow>) -> bool {
    exists|order: Seq<usize>|
        #![trigger is_row_order(row_reqs(graph, i), order)]
        {
            &&& is_row_order(row_reqs(graph, i), order)
            &&& rows.len() == order.len()
            &&& forall|k: int| 0 <= k < rows.len() ==> (#[trigger] rows[k])@ == row_of(graph, i, order[k] as int)
        }
}

/// The texts of the requirements of `rows`.
pub open spec fn req_texts(rows: Seq<RequirementRow>) -> Seq<Seq<char>> {
    Seq::new(rows.len(), |k: int| rows[k].req@)
}

fn first_named(deps: &Vec<Dependency>, name: &String) -> (r: Option<usize>)
    ensures
        match r {
            Some(k) => is_first_named(deps@, name@, k as int),
            None => forall|m: int| 0 <= m < deps@.len() ==> (#[trigger] deps@[m]).name@ != name@,
        },
{
    let mut k: usize = 0;
    while k < deps.len()
        invariant
            k <= deps@.len(),
            forall|m: int| 0 <= m < k ==> (#[trigger] deps@[m]).name@ != name@,
        decreases deps.len() - k,
    {
        if deps[k].name == *name {
            return Some(k);
        }
        k += 1;
    }
    None
}

proof fn lemma_first_named_unique(deps: Seq<Dependency>, name: Seq<char>, k: int)
    requires
        is_first_named(deps, name, k),
    ensures
        (choose|c: int| is_first_named(deps, name, c)) == k,
{
    let c = choose|c: int| is_first_named(deps, name, c);
    if c < k {
        assert(deps[c].name@ != name);
    } else if k < c {
        assert(deps[k].name@ != name);
    }
}

fn req_before(a: &String, b: &String) -> (r: bool)
    ensures
        r == id_lt(a@, b@),
{
    bytes_precede(a.as_str().as_bytes(), b.as_str().as_bytes())
}

/// The order in which `rows` are shown: by requirement, rows with the
/// same requirement as they stand.
pub fn shown_order(rows: &Vec<RequirementRow>) -> (order: Vec<usize>)
    ensures
        is_row_order(req_texts(rows@), order@),
{
    let ghost reqs = req_texts(rows@);
    let mut order: Vec<usize> = Vec::new();
    let mut a: usize = 0;
    while a < rows.len()
        invariant
            a <= rows@.len(),
            reqs == req_texts(rows@),
            order@.len() == a,
            order@.no_duplicates(),
            forall|k: int| 0 <= k < order@.len() ==> (#[trigger] order@[k]) < a,
            forall|x: int, y: int|
                0 <= x < y < order@.len() ==> row_lt(
                    reqs,
                    #[trigger] order@[x] as int,
                    #[trigger] order@[y] as int,
                ),
        decreases rows.len() - a,
    {
        let mut p: usize = 0;
        while p < order.len() && !req_before(&rows[a].req, &rows[order[p]].req)
            invariant
                p <= order@.len(),
                a < rows@.len(),
                reqs == req_texts(rows@),
                forall|k: int| 0 <= k < order@.len() ==> (#[trigger] order@[k]) < a,
                forall|q: int| 0 <= q < p ==> row_lt(reqs, #[trigger] order@[q] as int, a as int),
            decreases order.len() - p,
        {
            proof {
                let b = order@[p as int] as int;
                lemma_id_lt_strict_total(reqs[b], reqs[a as int], reqs[b]);
            }
            p += 1;
        }
        let ghost before = order@;
        order.insert(p, a);
        proof {
            let after = order@;
            assert(after =~= before.insert(p as int, a));
            assert forall|x: int, y: int| 0 <= x < y < after.len() implies row_lt(
                reqs,
                #[trigger] after[x] as int,
                #[trigger] after[y] as int,
            ) by {
                if y < p {
                    assert(row_lt(reqs, before[x] as int, before[y] as int));
                } else if y == p {
                    assert(row_lt(reqs, before[x] as int, a as int));
                } else if x < p {
                    assert(row_lt(reqs, before[x] as int, before[y - 1] as int));
                } else if x == p {
                    let first = before[p as int] as int;
                    let later = before[y - 1] as int;
                    assert(id_lt(reqs[a as int], reqs[first]));
                    if y - 1 > p {
                        assert(row_lt(reqs, first, later));
                        lemma_id_lt_strict_total(reqs[a as int], reqs[first], reqs[later]);
                    }
                } else {
                    assert(row_lt(reqs, before[x - 1] as int, before[y - 1] as int));
                }
            }
            assert forall|x: int, y: int|
                0 <= x < after.len() && 0 <= y < after.len() && x != y implies after[x]
                != after[y] by {
                let x0 = if x < p {
                    x
                } else {
                    x - 1
                };
                let y0 = if y < p {
                    y
                } else {
                    y - 1
                };
                if x != p && y != p {
                    assert(before[x0] != before[y0]);
                } else if x == p {
                    assert(before[y0] < a);
                } else {
                    assert(before[x0] < a);
                }
            }
            assert forall|k: int| 0 <= k < after.len() implies (#[trigger] after[k]) < a + 1 by {
                if k < p {
                    assert(after[k] == before[k]);
                } else if k > p {
                    assert(after[k] == before[k - 1]);
                }
            }
        }
        a += 1;
    }
    order
}

impl CrateGraph {
    /// The requirements of `id` on the workspace members it depends on:
    /// for each, its name, its version, and the requirement that the
    /// manifest of `id` declares on it. The rows are ordered by
    /// requirement. The result is `None` where `id` is no workspace
    /// member.
    pub fn collect_package_versions_from_manifest(&self, id: &PackageId) -> (r: Option<
        Vec<RequirementRow>,
    >)
        requires
            self.wf(),
        ensures
            r is Some <==> self.crate_set().contains(id@),
            r matches Some(rows) ==> is_row_list(self, place_of(self.crates@, id@), rows@),
    {
        let i: usize = match position(&self.crates, id) {
            Some(i) => i,
            None => {
                return None;
            },
        };
        assert(place_of(self.crates@, id@) == i);
        let package = self.member(i);
        let places = &self.ws_deps[i];
        let mut found: Vec<RequirementRow> = Vec::new();
        let mut k: usize = 0;
        while k < places.len()
            invariant
                k <= places@.len(),
                self.wf(),
                i < self.crates@.len(),
                places@ == self.ws_deps@[i as int]@,
                *package == member_package(self, i as int),
                found@.len() == k,
                forall|m: int| 0 <= m < k ==> (#[trigger] found@[m])@ == row_of(self, i as int, m),
            decreases places.len() - k,
        {
            let j: usize = places[k];
            assert(j < self.crates@.len());
            let dep = self.member(j);
            proof {
                assert(is_edge(self.ws_deps@, i as int, j as int));
                assert(depends_on(&self.meta, self.crates@[i as int]@, self.crates@[j as int]@));
                assert(declares(*package, dep.name@));
            }
            let req = match first_named(&package.dependencies, &dep.name) {
                Some(d) => {
                    proof {
                        lemma_first_named_unique(package.dependencies@, dep.name@, d as int);
                    }
                    package.dependencies[d].req.clone()
                },
                None => {
                    proof {
                        let d = choose|d: int|
                            0 <= d < package.dependencies@.len() && (
                            #[trigger] package.dependencies@[d]).kind
                                == crate::metadata::DependencyKind::Normal
                                && package.dependencies@[d].name@ == dep.name@;
                        assert(package.dependencies@[d].name@ != dep.name@);
                    }
                    vstd::pervasive::unreached()
                },
            };
            found.push(
                RequirementRow { name: dep.name.clone(), version: dep.version.duplicate(), req },
            );
            k += 1;
        }
        let order = shown_order(&found);
        proof {
            assert(req_texts(found@) =~= row_reqs(self, i as int));
        }
        let mut rows: Vec<RequirementRow> = Vec::new();
        let mut n: usize = 0;
        while n < order.len()
            invariant
                n <= order@.len(),
                is_row_order(row_reqs(self, i as int), order@),
                found@.len() == row_reqs(self, i as int).len(),
                forall|m: int|
                    0 <= m < found@.len() ==> (#[trigger] found@[m])@ == row_of(self, i as int, m),
                rows@.len() == n,
                forall|m: int|
                    0 <= m < n ==> (#[trigger] rows@[m])@ == row_of(self, i as int, order@[m] as int),
            decreases order.len() - n,
        {
            let from: usize = order[n];
            let row = &found[from];
            rows.push(
                RequirementRow {
                    name: row.name.clone(),
                    version: row.version.duplicate(),
                    req: row.req.clone(),
                },
            );
            n += 1;
        }
        Some(rows)
    }
}

} // verus!
