//! Exact ordering of a dependency graph: every member after all of its
//! dependencies, or the finding that the graph has a cycle.

use crate::weight::well_indexed;
use vstd::set_lib::set_int_range;
use vstd::prelude::*;

verus! {

/// Member `from` lists member `to` as a dependency.
pub open spec fn is_edge(adj: Seq<Vec<usize>>, from: int, to: int) -> bool {
    &&& 0 <= from < adj.len()
    &&& exists|k: int| 0 <= k < adj[from]@.len() && #[trigger] adj[from]@[k] == to
}

/// Each member of `path` lists the next one as a dependency.
pub open spec fn is_walk(adj: Seq<Vec<usize>>, path: Seq<int>) -> bool {
    forall|k: int| 0 <= k < path.len() - 1 ==> #[trigger] is_edge(adj, path[k], path[k + 1])
}

/// `path` leads from a member along dependencies back to that member.
pub open spec fn is_cycle(adj: Seq<Vec<usize>>, path: Seq<int>) -> bool {
    &&& path.len() >= 2
    &&& path.first() == path.last()
    &&& is_walk(adj, path)
}

/// Some member depends, directly or through others, on itself.
pub open spec fn cyclic(adj: Seq<Vec<usize>>) -> bool {
    exists|path: Seq<int>| is_cycle(adj, path)
}

/// `order` lists each of the `n` members exactly once.
pub open spec fn is_permutation(order: Seq<usize>, n: nat) -> bool {
    &&& order.len() == n
    &&& order.no_duplicates()
    &&& forall|k: int| 0 <= k < order.len() ==> (#[trigger] order[k]) < n
}

/// Member `d` stands in `order` before place `a`.
pub open spec fn stands_before(order: Seq<usize>, a: int, d: int) -> bool {
    exists|b: int| 0 <= b < a && b < order.len() && #[trigger] order[b] == d
}

/// In `order`, every dependency of a member stands before that member.
pub open spec fn dependencies_first(adj: Seq<Vec<usize>>, order: Seq<usize>) -> bool {
    forall|a: int, k: int|
        0 <= a < order.len() && 0 <= order[a] < adj.len() && 0 <= k < adj[order[a] as int]@.len()
            ==> #[trigger] stands_before(order, a, adj[order[a] as int]@[k] as int)
}

/// `order` is a publish order of the whole graph.
pub open spec fn is_topological(adj: Seq<Vec<usize>>, order: Seq<usize>) -> bool {
    &&& is_permutation(order, adj.len())
    &&& dependencies_first(adj, order)
}

/// Member `j` could stand at place `k` of `order`: it does not stand
/// before, and all of its dependencies do.
pub open spec fn ready_at(adj: Seq<Vec<usize>>, order: Seq<usize>, k: int, j: int) -> bool {
    &&& 0 <= j < adj.len()
    &&& !stands_before(order, k, j)
    &&& forall|m: int|
        0 <= m < adj[j]@.len() ==> stands_before(order, k, (#[trigger] adj[j]@[m]) as int)
}

/// At every place of `order` stands the least member that could stand
/// there.
pub open spec fn least_first(adj: Seq<Vec<usize>>, order: Seq<usize>) -> bool {
    forall|k: int, j: int|
        0 <= k < order.len() && 0 <= j < order[k] ==> !#[trigger] ready_at(adj, order, k, j)
}

/// `order` is the publish order of the graph in which, among the members
/// that could come next, the one first in the graph always does.
pub open spec fn is_publish_order(adj: Seq<Vec<usize>>, order: Seq<usize>) -> bool {
    &&& is_topological(adj, order)
    &&& least_first(adj, order)
}

/// Distinct numbers below `n` are at most `n` many, and `n` of them are all.
pub proof fn lemma_distinct_below(s: Seq<int>, n: nat)
    requires
        s.no_duplicates(),
        forall|k: int| 0 <= k < s.len() ==> 0 <= #[trigger] s[k] < n,
    ensures
        s.len() <= n,
        s.len() == n ==> forall|j: int| 0 <= j < n ==> s.contains(j),
{
    let range = set_int_range(0, n as int);
    s.unique_seq_to_set();
    vstd::set_lib::lemma_int_range(0, n as int);
    assert(s.to_set().subset_of(range));
    vstd::set_lib::lemma_len_subset(s.to_set(), range);
    if s.len() == n {
        vstd::set_lib::lemma_subset_equality(s.to_set(), range);
        assert forall|j: int| 0 <= j < n implies s.contains(j) by {
            assert(range.contains(j));
        }
    }
}

/// A permutation names every member.
pub proof fn lemma_permutation_covers(order: Seq<usize>, n: nat, j: int)
    requires
        is_permutation(order, n),
        0 <= j < n,
    ensures
        exists|b: int| 0 <= b < order.len() && order[b] == j,
{
    let s = Seq::new(order.len(), |k: int| order[k] as int);
    lemma_distinct_below(s, n);
    assert(s.contains(j));
    let b = choose|b: int| 0 <= b < s.len() && s[b] == j;
    assert(order[b] == j);
}

proof fn lemma_walk_descends(adj: Seq<Vec<usize>>, order: Seq<usize>, path: Seq<int>, m: int) -> (r:
    (int, int))
    requires
        is_topological(adj, order),
        is_walk(adj, path),
        0 <= m < path.len() - 1,
    ensures
        0 <= r.1 <= r.0 - m - 1,
        r.0 < order.len(),
        order[r.0] == path[0],
        order[r.1] == path[m + 1],
    decreases m,
{
    assert(is_edge(adj, path[m], path[m + 1]));
    let (a, mid) = if m == 0 {
        lemma_permutation_covers(order, adj.len(), path[0]);
        let a = choose|a: int| 0 <= a < order.len() && order[a] == path[0];
        (a, a)
    } else {
        lemma_walk_descends(adj, order, path, m - 1)
    };
    let k = choose|k: int| 0 <= k < adj[path[m]]@.len() && #[trigger] adj[path[m]]@[k] == path[m + 1];
    assert(stands_before(order, mid, adj[order[mid] as int]@[k] as int));
    let b = choose|b: int| 0 <= b < mid && b < order.len() && #[trigger] order[b] == path[m + 1];
    (a, b)
}

/// A graph that has a publish order has no cycle.
pub proof fn lemma_topological_acyclic(adj: Seq<Vec<usize>>, order: Seq<usize>)
    requires
        is_topological(adj, order),
    ensures
        !cyclic(adj),
{
    if cyclic(adj) {
        let path = choose|path: Seq<int>| is_cycle(adj, path);
        let (a, b) = lemma_walk_descends(adj, order, path, path.len() - 2);
        assert(order[a] == order[b]);
        assert(a != b);
    }
}

/// Every dependency of member `i` is marked in `placed`.
pub open spec fn is_ready(adj: Seq<Vec<usize>>, placed: Seq<bool>, i: int) -> bool {
    forall|k: int| 0 <= k < adj[i]@.len() ==> placed[(#[trigger] adj[i]@[k]) as int]
}

/// No unmarked member is ready, so each has an unmarked dependency.
pub open spec fn is_stuck(adj: Seq<Vec<usize>>, placed: Seq<bool>) -> bool {
    &&& placed.len() == adj.len()
    &&& forall|j: int| 0 <= j < adj.len() && !placed[j] ==> !is_ready(adj, placed, j)
}

spec fn unplaced_dependency(adj: Seq<Vec<usize>>, placed: Seq<bool>, j: int) -> int {
    let k = choose|k: int| 0 <= k < adj[j]@.len() && !placed[(#[trigger] adj[j]@[k]) as int];
    adj[j]@[k] as int
}

proof fn lemma_stuck_walk(adj: Seq<Vec<usize>>, placed: Seq<bool>, start: int, steps: nat) -> (w:
    Seq<int>)
    requires
        well_indexed(adj),
        is_stuck(adj, placed),
        0 <= start < adj.len(),
        !placed[start],
    ensures
        w.len() == steps + 1,
        is_walk(adj, w),
        forall|k: int| 0 <= k <= steps ==> 0 <= #[trigger] w[k] < adj.len() && !placed[w[k]],
    decreases steps,
{
    if steps == 0 {
        seq![start]
    } else {
        let w = lemma_stuck_walk(adj, placed, start, (steps - 1) as nat);
        let j = w[steps - 1];
        assert(!is_ready(adj, placed, j));
        let next = unplaced_dependency(adj, placed, j);
        assert(is_edge(adj, j, next));
        let full = w.push(next);
        assert forall|m: int| 0 <= m < full.len() - 1 implies #[trigger] is_edge(
            adj,
            full[m],
            full[m + 1],
        ) by {
            if m < steps - 1 {
                assert(is_edge(adj, w[m], w[m + 1]));
            }
        }
        full
    }
}

/// Where no unmarked member is ready and one is left, the graph has a cycle.
pub proof fn lemma_stuck_cyclic(adj: Seq<Vec<usize>>, placed: Seq<bool>, start: int)
    requires
        well_indexed(adj),
        is_stuck(adj, placed),
        0 <= start < adj.len(),
        !placed[start],
    ensures
        cyclic(adj),
{
    let n = adj.len();
    let w = lemma_stuck_walk(adj, placed, start, n);
    if w.no_duplicates() {
        lemma_distinct_below(w, n);
    }
    let (i, j) = choose|i: int, j: int|
        0 <= i < w.len() && 0 <= j < w.len() && i != j && w[i] == w[j];
    let (lo, hi) = if i < j {
        (i, j)
    } else {
        (j, i)
    };
    let path = w.subrange(lo, hi + 1);
    assert forall|m: int| 0 <= m < path.len() - 1 implies #[trigger] is_edge(
        adj,
        path[m],
        path[m + 1],
    ) by {
        assert(is_edge(adj, w[lo + m], w[lo + m + 1]));
    }
    assert(is_cycle(adj, path));
}

fn check_ready(adj: &Vec<Vec<usize>>, placed: &Vec<bool>, i: usize) -> (r: bool)
    requires
        well_indexed(adj@),
        placed@.len() == adj@.len(),
        i < adj@.len(),
    ensures
        r == is_ready(adj@, placed@, i as int),
{
    let list = &adj[i];
    let mut k: usize = 0;
    while k < list.len()
        invariant
            k <= list@.len(),
            list@ == adj@[i as int]@,
            i < adj@.len(),
            well_indexed(adj@),
            placed@.len() == adj@.len(),
            forall|m: int| 0 <= m < k ==> placed@[(#[trigger] list@[m]) as int],
        decreases list.len() - k,
    {
        let d: usize = list[k];
        assert(d < adj@.len());
        if !placed[d] {
            return false;
        }
        k += 1;
    }
    true
}

fn next_ready(adj: &Vec<Vec<usize>>, placed: &Vec<bool>) -> (r: Option<usize>)
    requires
        well_indexed(adj@),
        placed@.len() == adj@.len(),
    ensures
        match r {
            Some(i) => i < adj@.len() && !placed@[i as int] && is_ready(adj@, placed@, i as int)
                && forall|j: int| 0 <= j < i && !placed@[j] ==> !is_ready(adj@, placed@, j),
            None => is_stuck(adj@, placed@),
        },
{
    let mut i: usize = 0;
    while i < adj.len()
        invariant
            i <= adj@.len(),
            well_indexed(adj@),
            placed@.len() == adj@.len(),
            forall|j: int| 0 <= j < i && !placed@[j] ==> !is_ready(adj@, placed@, j),
        decreases adj.len() - i,
    {
        if !placed[i] && check_ready(adj, placed, i) {
            return Some(i);
        }
        i += 1;
    }
    None
}

fn all_unplaced(n: usize) -> (placed: Vec<bool>)
    ensures
        placed@.len() == n,
        forall|j: int| 0 <= j < n ==> !placed@[j],
{
    let mut placed: Vec<bool> = Vec::new();
    let mut i: usize = 0;
    while i < n
        invariant
            i <= n,
            placed@.len() == i,
            forall|j: int| 0 <= j < i ==> !placed@[j],
        decreases n - i,
    {
        placed.push(false);
        i += 1;
    }
    placed
}

/// Orders the members so that dependencies come first, or finds that the
/// graph has a cycle.
pub fn topological_order(adj: &Vec<Vec<usize>>) -> (r: Option<Vec<usize>>)
    requires
        well_indexed(adj@),
    ensures
        r is None <==> cyclic(adj@),
        r matches Some(order) ==> is_publish_order(adj@, order@),
{
    let n: usize = adj.len();
    let mut placed = all_unplaced(n);
    let mut order: Vec<usize> = Vec::new();
    while order.len() < n
        invariant
            n == adj@.len(),
            well_indexed(adj@),
            placed@.len() == n,
            order@.len() <= n,
            order@.no_duplicates(),
            forall|k: int| 0 <= k < order@.len() ==> (#[trigger] order@[k]) < n,
            forall|j: int| 0 <= j < n ==> #[trigger] placed@[j] == stands_before(order@, n as int, j),
            dependencies_first(adj@, order@),
            least_first(adj@, order@),
        decreases n - order@.len(),
    {
        match next_ready(adj, &placed) {
            None => {
                proof {
                    let s = Seq::new(order@.len(), |k: int| order@[k] as int);
                    if forall|j: int| 0 <= j < n ==> #[trigger] placed@[j] {
                        assert forall|j: int| 0 <= j < n implies s.contains(j) by {
                            assert(placed@[j]);
                            let b = choose|b: int|
                                0 <= b < n && b < order@.len() && #[trigger] order@[b] == j;
                            assert(s[b] == j);
                        }
                        lemma_covering_long(s, n as nat);
                    }
                    let start = choose|j: int| 0 <= j < n && !#[trigger] placed@[j];
                    lemma_stuck_cyclic(adj@, placed@, start);
                }
                return None;
            },
            Some(i) => {
                proof {
                    let grown = order@.push(i);
                    assert(!placed@[i as int]);
                    assert(grown.no_duplicates()) by {
                        assert forall|x: int, y: int|
                            0 <= x < grown.len() && 0 <= y < grown.len() && x != y implies grown[x]
                            != grown[y] by {
                            if x == order@.len() {
                                assert(order@[y] == grown[y]);
                            } else if y == order@.len() {
                                assert(order@[x] == grown[x]);
                            }
                        }
                    }
                    let s = Seq::new(grown.len(), |k: int| grown[k] as int);
                    lemma_distinct_below(s, n as nat);
                    assert forall|a: int, k: int|
                        0 <= a < grown.len() && 0 <= grown[a] < adj@.len() && 0 <= k
                            < adj@[grown[a] as int]@.len() implies #[trigger] stands_before(
                        grown,
                        a,
                        adj@[grown[a] as int]@[k] as int,
                    ) by {
                        let d = adj@[grown[a] as int]@[k] as int;
                        if a < order@.len() {
                            assert(grown[a] == order@[a]);
                            assert(stands_before(order@, a, adj@[order@[a] as int]@[k] as int));
                            let b = choose|b: int|
                                0 <= b < a && b < order@.len() && #[trigger] order@[b] == d;
                            assert(grown[b] == d);
                        } else {
                            assert(grown[a] == i);
                            assert(placed@[adj@[i as int]@[k] as int]);
                            let b = choose|b: int|
                                0 <= b < n && b < order@.len() && #[trigger] order@[b] == d;
                            assert(grown[b] == d);
                        }
                    }
                    assert forall|k: int, j: int|
                        0 <= k < grown.len() && 0 <= j < grown[k] implies !#[trigger] ready_at(
                        adj@,
                        grown,
                        k,
                        j,
                    ) by {
                        assert forall|x: int| stands_before(grown, k, x) == stands_before(
                            order@,
                            k,
                            x,
                        ) by {
                            if stands_before(grown, k, x) {
                                let b = choose|b: int|
                                    0 <= b < k && b < grown.len() && #[trigger] grown[b] == x;
                                assert(order@[b] == x);
                            }
                            if stands_before(order@, k, x) {
                                let b = choose|b: int|
                                    0 <= b < k && b < order@.len() && #[trigger] order@[b] == x;
                                assert(grown[b] == x);
                            }
                        }
                        if k < order@.len() {
                            assert(grown[k] == order@[k]);
                            if ready_at(adj@, grown, k, j) {
                                assert(ready_at(adj@, order@, k, j));
                            }
                        } else if ready_at(adj@, grown, k, j) {
                            assert forall|x: int| 0 <= x < n implies #[trigger] placed@[x]
                                == stands_before(order@, k, x) by {
                                if placed@[x] {
                                    let b = choose|b: int|
                                        0 <= b < n && b < order@.len() && #[trigger] order@[b] == x;
                                    assert(order@[b] == x);
                                }
                            }
                            assert(!placed@[j]);
                            assert forall|m: int| 0 <= m < adj@[j]@.len() implies placed@[(
                            #[trigger] adj@[j]@[m]) as int] by {
                                assert(stands_before(order@, k, adj@[j]@[m] as int));
                            }
                            assert(is_ready(adj@, placed@, j));
                        }
                    }
                    assert forall|j: int| 0 <= j < n implies #[trigger] placed@.update(
                        i as int,
                        true,
                    )[j] == stands_before(grown, n as int, j) by {
                        if j == i {
                            assert(grown[order@.len() as int] == i);
                        } else if placed@[j] {
                            let b = choose|b: int|
                                0 <= b < n && b < order@.len() && #[trigger] order@[b] == j;
                            assert(grown[b] == j);
                        } else if stands_before(grown, n as int, j) {
                            let b = choose|b: int|
                                0 <= b < n && b < grown.len() && #[trigger] grown[b] == j;
                            assert(order@[b] == j);
                        }
                    }
                }
                placed.set(i, true);
                order.push(i);
            },
        }
    }
    proof {
        lemma_topological_acyclic(adj@, order@);
    }
    Some(order)
}

/// A sequence that names every number below `n` has at least `n` entries.
proof fn lemma_covering_long(s: Seq<int>, n: nat)
    requires
        forall|j: int| 0 <= j < n ==> s.contains(j),
    ensures
        s.len() >= n,
{
    let range = set_int_range(0, n as int);
    vstd::set_lib::lemma_int_range(0, n as int);
    vstd::seq_lib::seq_to_set_is_finite(s);
    assert(range.subset_of(s.to_set()));
    vstd::set_lib::lemma_len_subset(range, s.to_set());
    s.lemma_cardinality_of_set();
}

proof fn lemma_same_before(a: Seq<usize>, b: Seq<usize>, k: int, x: int)
    requires
        0 <= k <= a.len(),
        k <= b.len(),
        forall|m: int| 0 <= m < k ==> a[m] == b[m],
    ensures
        stands_before(a, k, x) == stands_before(b, k, x),
{
    if stands_before(a, k, x) {
        let m = choose|m: int| 0 <= m < k && m < a.len() && #[trigger] a[m] == x;
        assert(b[m] == x);
    }
    if stands_before(b, k, x) {
        let m = choose|m: int| 0 <= m < k && m < b.len() && #[trigger] b[m] == x;
        assert(a[m] == x);
    }
}

proof fn lemma_own_place_ready(adj: Seq<Vec<usize>>, order: Seq<usize>, k: int)
    requires
        is_topological(adj, order),
        0 <= k < order.len(),
    ensures
        ready_at(adj, order, k, order[k] as int),
{
    if stands_before(order, k, order[k] as int) {
        let b = choose|b: int| 0 <= b < k && b < order.len() && #[trigger] order[b] == order[k];
        assert(order[b] != order[k]);
    }
    assert forall|m: int| 0 <= m < adj[order[k] as int]@.len() implies stands_before(
        order,
        k,
        (#[trigger] adj[order[k] as int]@[m]) as int,
    ) by {
        assert(stands_before(order, k, adj[order[k] as int]@[m] as int));
    }
}

proof fn lemma_publish_order_prefix(adj: Seq<Vec<usize>>, a: Seq<usize>, b: Seq<usize>, k: int)
    requires
        is_publish_order(adj, a),
        is_publish_order(adj, b),
        0 <= k <= a.len(),
    ensures
        forall|m: int| 0 <= m < k ==> a[m] == b[m],
    decreases k,
{
    if k > 0 {
        lemma_publish_order_prefix(adj, a, b, k - 1);
        let at = k - 1;
        lemma_own_place_ready(adj, a, at);
        lemma_own_place_ready(adj, b, at);
        assert forall|x: int| stands_before(a, at, x) == stands_before(b, at, x) by {
            lemma_same_before(a, b, at, x);
        }
        assert(ready_at(adj, b, at, a[at] as int));
        assert(ready_at(adj, a, at, b[at] as int));
    }
}

/// A graph has at most one publish order of this kind.
pub proof fn lemma_publish_order_unique(adj: Seq<Vec<usize>>, a: Seq<usize>, b: Seq<usize>)
    requires
        is_publish_order(adj, a),
        is_publish_order(adj, b),
    ensures
        a == b,
{
    lemma_publish_order_prefix(adj, a, b, a.len() as int);
    assert(a =~= b);
}

} // verus!
