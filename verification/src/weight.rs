//! The weight by which workspace members are ranked: the number of direct
//! dependencies, plus the same count for the dependencies, unrolled over a
//! fixed number of levels.

use vstd::prelude::*;

verus! {

/// How many levels below the direct dependencies are counted.
pub const RANK_DEPTH: usize = 3;

/// Every listed dependency is a member of the graph.
pub open spec fn well_indexed(adj: Seq<Vec<usize>>) -> bool {
    forall|i: int, k: int|
        0 <= i < adj.len() && 0 <= k < adj[i]@.len() ==> (#[trigger] adj[i]@[k]) < adj.len()
}

/// The sum of the weights, at `depth`, of the members in `list`.
pub open spec fn level_sum(adj: Seq<Vec<usize>>, list: Seq<usize>, depth: nat) -> nat
    decreases depth, 1 + list.len(),
{
    if list.len() == 0 {
        0
    } else {
        level_sum(adj, list.drop_last(), depth) + weight(adj, list.last() as int, depth)
    }
}

/// The weight of member `node` when `depth` levels below its direct
/// dependencies are counted.
pub open spec fn weight(adj: Seq<Vec<usize>>, node: int, depth: nat) -> nat
    decreases depth, 0nat,
{
    if 0 <= node < adj.len() {
        if depth == 0 {
            adj[node]@.len()
        } else {
            adj[node]@.len() + level_sum(adj, adj[node]@, (depth - 1) as nat)
        }
    } else {
        0
    }
}

/// A weight as it is stored: capped at the largest machine integer.
pub open spec fn capped(n: nat) -> usize {
    if n > usize::MAX {
        usize::MAX
    } else {
        n as usize
    }
}

/// The stored weight of every member at `depth`.
pub open spec fn is_weight_table(adj: Seq<Vec<usize>>, table: Seq<usize>, depth: nat) -> bool {
    &&& table.len() == adj.len()
    &&& forall|i: int| 0 <= i < adj.len() ==> #[trigger] table[i] == capped(weight(adj, i, depth))
}

fn capped_sum(a: usize, b: usize) -> (r: usize)
    ensures
        r == capped((a + b) as nat),
{
    if a > usize::MAX - b {
        usize::MAX
    } else {
        a + b
    }
}

fn direct_counts(adj: &Vec<Vec<usize>>) -> (table: Vec<usize>)
    ensures
        is_weight_table(adj@, table@, 0),
{
    let mut table: Vec<usize> = Vec::new();
    let mut i: usize = 0;
    while i < adj.len()
        invariant
            i <= adj.len(),
            table@.len() == i,
            forall|j: int| 0 <= j < i ==> #[trigger] table@[j] == capped(weight(adj@, j, 0)),
        decreases adj.len() - i,
    {
        table.push(adj[i].len());
        i += 1;
    }
    table
}

fn next_level(adj: &Vec<Vec<usize>>, prev: &Vec<usize>, Ghost(depth): Ghost<nat>) -> (table: Vec<
    usize,
>)
    requires
        well_indexed(adj@),
        is_weight_table(adj@, prev@, depth),
    ensures
        is_weight_table(adj@, table@, depth + 1),
{
    let mut table: Vec<usize> = Vec::new();
    let mut i: usize = 0;
    while i < adj.len()
        invariant
            i <= adj.len(),
            well_indexed(adj@),
            is_weight_table(adj@, prev@, depth),
            table@.len() == i,
            forall|j: int|
                0 <= j < i ==> #[trigger] table@[j] == capped(weight(adj@, j, depth + 1)),
        decreases adj.len() - i,
    {
        let list = &adj[i];
        let mut acc: usize = list.len();
        let mut k: usize = 0;
        while k < list.len()
            invariant
                k <= list@.len(),
                i < adj.len(),
                list@ == adj@[i as int]@,
                well_indexed(adj@),
                is_weight_table(adj@, prev@, depth),
                acc == capped(list@.len() + level_sum(adj@, list@.take(k as int), depth)),
            decreases list.len() - k,
        {
            let d: usize = list[k];
            proof {
                assert(list@.take(k + 1).drop_last() =~= list@.take(k as int));
                assert(list@.take(k + 1).last() == d);
                assert(d < adj@.len());
                assert(prev@[d as int] == capped(weight(adj@, d as int, depth)));
            }
            acc = capped_sum(acc, prev[d]);
            k += 1;
        }
        proof {
            assert(list@.take(k as int) =~= list@);
        }
        table.push(acc);
        i += 1;
    }
    table
}

/// The stored weight of every member, in the order of `adj`.
pub fn weights(adj: &Vec<Vec<usize>>) -> (table: Vec<usize>)
    requires
        well_indexed(adj@),
    ensures
        is_weight_table(adj@, table@, RANK_DEPTH as nat),
{
    let mut table = direct_counts(adj);
    let mut depth: usize = 0;
    while depth < RANK_DEPTH
        invariant
            depth <= RANK_DEPTH,
            well_indexed(adj@),
            is_weight_table(adj@, table@, depth as nat),
        decreases RANK_DEPTH - depth,
    {
        table = next_level(adj, &table, Ghost(depth as nat));
        depth += 1;
    }
    table
}

proof fn lemma_level_sum_holds_each(adj: Seq<Vec<usize>>, list: Seq<usize>, depth: nat, m: int)
    requires
        0 <= m < list.len(),
    ensures
        level_sum(adj, list, depth) >= weight(adj, list[m] as int, depth),
    decreases list.len(),
{
    if m < list.len() - 1 {
        lemma_level_sum_holds_each(adj, list.drop_last(), depth, m);
    }
}

/// A member weighs more than each of its dependencies whose own weight
/// is already reached one level earlier: where the dependencies of a
/// member nest no deeper than the levels counted, the member is ranked
/// after them.
pub proof fn lemma_shallow_dependency_weighs_less(adj: Seq<Vec<usize>>, node: int, m: int)
    requires
        0 <= node < adj.len(),
        0 <= m < adj[node]@.len(),
        weight(adj, adj[node]@[m] as int, RANK_DEPTH as nat) == weight(
            adj,
            adj[node]@[m] as int,
            (RANK_DEPTH - 1) as nat,
        ),
    ensures
        weight(adj, adj[node]@[m] as int, RANK_DEPTH as nat) < weight(adj, node, RANK_DEPTH as nat),
{
    lemma_level_sum_holds_each(adj, adj[node]@, (RANK_DEPTH - 1) as nat, m);
}

} // verus!
