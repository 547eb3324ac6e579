//! The ranked list of workspace members: ascending by weight, ties broken
//! by the canonical form of the identity.

use crate::ident::{id_lt, lemma_id_lt_strict_total, PackageId};
use crate::weight::{capped, is_weight_table, weight, weights, well_indexed, RANK_DEPTH};
use vstd::prelude::*;

verus! {

/// One line of the ranked list as plain values: identity and weight.
pub type RankKey = (Seq<char>, usize);

/// `a` is ranked before `b`.
pub open spec fn key_lt(a: RankKey, b: RankKey) -> bool {
    a.1 < b.1 || (a.1 == b.1 && id_lt(a.0, b.0))
}

/// Each line is ranked before every later line.
pub open spec fn strictly_ranked(s: Seq<RankKey>) -> bool {
    forall|x: int, y: int| 0 <= x < y < s.len() ==> key_lt(#[trigger] s[x], #[trigger] s[y])
}

/// The ranked list as plain values.
pub open spec fn rank_keys(list: Seq<(PackageId, usize)>) -> Seq<RankKey> {
    Seq::new(list.len(), |k: int| (list[k].0@, list[k].1))
}

/// The line that member `i` contributes.
pub open spec fn member_key(crates: Seq<PackageId>, adj: Seq<Vec<usize>>, i: int) -> RankKey {
    (crates[i]@, capped(weight(adj, i, RANK_DEPTH as nat)))
}

/// `key` is the line of one of the first `bound` members.
pub open spec fn is_member_key(
    crates: Seq<PackageId>,
    adj: Seq<Vec<usize>>,
    bound: nat,
    key: RankKey,
) -> bool {
    exists|i: int| 0 <= i < bound && i < crates.len() && key == #[trigger] member_key(crates, adj, i)
}

/// `keys` is the ranked list of the members `crates` with dependencies
/// `adj`: one line for each member, in rank order.
pub open spec fn is_rank_of(crates: Seq<PackageId>, adj: Seq<Vec<usize>>, keys: Seq<RankKey>) -> bool {
    &&& keys.len() == crates.len()
    &&& strictly_ranked(keys)
    &&& forall|i: int| 0 <= i < crates.len() ==> keys.contains(#[trigger] member_key(crates, adj, i))
    &&& forall|k: int| 0 <= k < keys.len() ==> is_member_key(crates, adj, crates.len(), #[trigger] keys[k])
}

/// No two members have the same identity.
pub open spec fn distinct_ids(crates: Seq<PackageId>) -> bool {
    forall|i: int, j: int|
        0 <= i < crates.len() && 0 <= j < crates.len() && i != j ==> crates[i]@ != crates[j]@
}

/// The rank order is a strict total order on lines.
pub proof fn lemma_key_lt_strict_total(a: RankKey, b: RankKey, c: RankKey)
    ensures
        !key_lt(a, a),
        key_lt(a, b) && key_lt(b, c) ==> key_lt(a, c),
        a != b ==> key_lt(a, b) || key_lt(b, a),
        !(key_lt(a, b) && key_lt(b, a)),
{
    lemma_id_lt_strict_total(a.0, b.0, c.0);
    lemma_id_lt_strict_total(b.0, a.0, a.0);
    if a != b && a.1 == b.1 {
        assert(a.0 != b.0);
    }
}

proof fn lemma_last_is_greatest(s: Seq<RankKey>, e: RankKey)
    requires
        strictly_ranked(s),
        s.len() > 0,
        s.contains(e),
    ensures
        e == s.last() || key_lt(e, s.last()),
{
    let k = choose|k: int| 0 <= k < s.len() && s[k] == e;
    if k < s.len() - 1 {
        assert(key_lt(s[k], s[s.len() - 1]));
    }
}

/// Two ranked lists with the same lines are the same list.
pub proof fn lemma_ranked_unique(s1: Seq<RankKey>, s2: Seq<RankKey>)
    requires
        strictly_ranked(s1),
        strictly_ranked(s2),
        forall|e: RankKey| s1.contains(e) <==> s2.contains(e),
    ensures
        s1 == s2,
    decreases s1.len(),
{
    if s1.len() == 0 {
        if s2.len() > 0 {
            assert(s2.contains(s2[0]));
        }
        assert(s1 =~= s2);
    } else {
        assert(s1.contains(s1.last()));
        assert(s2.contains(s1.last()));
        assert(s2.contains(s2.last()));
        lemma_last_is_greatest(s1, s2.last());
        lemma_last_is_greatest(s2, s1.last());
        lemma_key_lt_strict_total(s1.last(), s2.last(), s1.last());
        assert(s1.last() == s2.last());
        let t1 = s1.drop_last();
        let t2 = s2.drop_last();
        assert forall|e: RankKey| t1.contains(e) <==> t2.contains(e) by {
            lemma_key_lt_strict_total(e, e, e);
            if t1.contains(e) {
                let k = choose|k: int| 0 <= k < t1.len() && t1[k] == e;
                assert(key_lt(s1[k], s1[s1.len() - 1]));
                assert(s1.contains(e));
                let m = choose|m: int| 0 <= m < s2.len() && s2[m] == e;
                assert(t2[m] == e);
            }
            if t2.contains(e) {
                let k = choose|k: int| 0 <= k < t2.len() && t2[k] == e;
                assert(key_lt(s2[k], s2[s2.len() - 1]));
                assert(s2.contains(e));
                let m = choose|m: int| 0 <= m < s1.len() && s1[m] == e;
                assert(t1[m] == e);
            }
        }
        lemma_ranked_unique(t1, t2);
        assert(s1 =~= t1.push(s1.last()));
        assert(s2 =~= t2.push(s2.last()));
    }
}

/// Ranking the same members with the same dependencies gives the same
/// list, line for line, however often it is done.
pub proof fn lemma_rank_deterministic(
    crates: Seq<PackageId>,
    adj: Seq<Vec<usize>>,
    first: Seq<RankKey>,
    second: Seq<RankKey>,
)
    requires
        is_rank_of(crates, adj, first),
        is_rank_of(crates, adj, second),
    ensures
        first == second,
{
    assert forall|e: RankKey| first.contains(e) <==> second.contains(e) by {
        if first.contains(e) {
            let k = choose|k: int| 0 <= k < first.len() && first[k] == e;
            assert(is_member_key(crates, adj, crates.len(), first[k]));
            let i = choose|i: int|
                0 <= i < crates.len() && first[k] == #[trigger] member_key(crates, adj, i);
            assert(second.contains(member_key(crates, adj, i)));
        }
        if second.contains(e) {
            let k = choose|k: int| 0 <= k < second.len() && second[k] == e;
            assert(is_member_key(crates, adj, crates.len(), second[k]));
            let i = choose|i: int|
                0 <= i < crates.len() && second[k] == #[trigger] member_key(crates, adj, i);
            assert(first.contains(member_key(crates, adj, i)));
        }
    }
    lemma_ranked_unique(first, second);
}

fn ranks_before(a_id: &PackageId, a_weight: usize, b_id: &PackageId, b_weight: usize) -> (r: bool)
    ensures
        r == key_lt((a_id@, a_weight), (b_id@, b_weight)),
{
    a_weight < b_weight || (a_weight == b_weight && a_id.precedes(b_id))
}

fn insertion_point(list: &Vec<(PackageId, usize)>, id: &PackageId, w: usize) -> (p: usize)
    requires
        strictly_ranked(rank_keys(list@)),
        forall|k: int| 0 <= k < list@.len() ==> (#[trigger] list@[k]).0@ != id@,
    ensures
        p <= list@.len(),
        forall|q: int| 0 <= q < p ==> key_lt(#[trigger] rank_keys(list@)[q], (id@, w)),
        forall|q: int| p <= q < list@.len() ==> key_lt((id@, w), #[trigger] rank_keys(list@)[q]),
{
    let ghost keys = rank_keys(list@);
    let mut p: usize = 0;
    while p < list.len()
        invariant
            p <= list@.len(),
            keys == rank_keys(list@),
            strictly_ranked(keys),
            forall|k: int| 0 <= k < list@.len() ==> (#[trigger] list@[k]).0@ != id@,
            forall|q: int| 0 <= q < p ==> key_lt(#[trigger] keys[q], (id@, w)),
        decreases list.len() - p,
    {
        if ranks_before(id, w, &list[p].0, list[p].1) {
            proof {
                assert forall|q: int| p <= q < list@.len() implies key_lt(
                    (id@, w),
                    #[trigger] keys[q],
                ) by {
                    if q > p {
                        assert(key_lt(keys[p as int], keys[q]));
                        lemma_key_lt_strict_total((id@, w), keys[p as int], keys[q]);
                    }
                }
            }
            return p;
        }
        proof {
            assert(list@[p as int].0@ != id@);
            lemma_key_lt_strict_total(keys[p as int], (id@, w), keys[p as int]);
        }
        p += 1;
    }
    p
}

/// Ranks the members: ascending by weight, ties by identity.
pub fn build_crate_graph(crates: &Vec<PackageId>, adj: &Vec<Vec<usize>>) -> (sorted: Vec<
    (PackageId, usize),
>)
    requires
        adj@.len() == crates@.len(),
        well_indexed(adj@),
        distinct_ids(crates@),
    ensures
        is_rank_of(crates@, adj@, rank_keys(sorted@)),
{
    let table = weights(adj);
    let mut sorted: Vec<(PackageId, usize)> = Vec::new();
    let mut i: usize = 0;
    while i < crates.len()
        invariant
            i <= crates@.len(),
            adj@.len() == crates@.len(),
            distinct_ids(crates@),
            is_weight_table(adj@, table@, RANK_DEPTH as nat),
            sorted@.len() == i,
            strictly_ranked(rank_keys(sorted@)),
            forall|j: int|
                0 <= j < i ==> rank_keys(sorted@).contains(#[trigger] member_key(crates@, adj@, j)),
            forall|k: int|
                0 <= k < sorted@.len() ==> is_member_key(
                    crates@,
                    adj@,
                    i as nat,
                    #[trigger] rank_keys(sorted@)[k],
                ),
        decreases crates.len() - i,
    {
        let id = crates[i].duplicate();
        let w: usize = table[i];
        let ghost before = rank_keys(sorted@);
        let ghost fresh: RankKey = (id@, w);
        proof {
            assert(fresh == member_key(crates@, adj@, i as int));
            assert forall|k: int| 0 <= k < sorted@.len() implies (#[trigger] sorted@[k]).0@
                != id@ by {
                assert(is_member_key(crates@, adj@, i as nat, before[k]));
                let j = choose|j: int|
                    0 <= j < i && before[k] == #[trigger] member_key(crates@, adj@, j);
                assert(before[k].0 == sorted@[k].0@);
            }
        }
        let p: usize = insertion_point(&sorted, &id, w);
        sorted.insert(p, (id, w));
        proof {
            let after = rank_keys(sorted@);
            assert(after =~= before.insert(p as int, fresh));
            assert forall|x: int, y: int| 0 <= x < y < after.len() implies key_lt(
                #[trigger] after[x],
                #[trigger] after[y],
            ) by {
                if y < p {
                    assert(key_lt(before[x], before[y]));
                } else if y == p {
                    assert(key_lt(before[x], fresh));
                } else if x < p {
                    assert(key_lt(before[x], before[y - 1]));
                } else if x == p {
                    assert(key_lt(fresh, before[y - 1]));
                } else {
                    assert(key_lt(before[x - 1], before[y - 1]));
                }
            }
            assert forall|j: int| 0 <= j < i + 1 implies after.contains(
                #[trigger] member_key(crates@, adj@, j),
            ) by {
                if j == i {
                    assert(after[p as int] == fresh);
                } else {
                    let k = choose|k: int|
                        0 <= k < before.len() && before[k] == member_key(crates@, adj@, j);
                    if k < p {
                        assert(after[k] == before[k]);
                    } else {
                        assert(after[k + 1] == before[k]);
                    }
                }
            }
            assert forall|k: int| 0 <= k < after.len() implies is_member_key(
                crates@,
                adj@,
                (i + 1) as nat,
                #[trigger] after[k],
            ) by {
                if k == p {
                    assert(after[k] == member_key(crates@, adj@, i as int));
                } else {
                    let k0 = if k < p {
                        k
                    } else {
                        k - 1
                    };
                    assert(after[k] == before[k0]);
                    assert(is_member_key(crates@, adj@, i as nat, before[k0]));
                    let j = choose|j: int|
                        0 <= j < i && before[k0] == #[trigger] member_key(crates@, adj@, j);
                    assert(after[k] == member_key(crates@, adj@, j));
                }
            }
        }
        i += 1;
    }
    sorted
}

} // verus!
