use easy_release::ident::PackageId;
use easy_release::rank::build_crate_graph;
use easy_release::topo::topological_order;
use easy_release::weight::{weights, RANK_DEPTH};

fn is_publish_order(adj: &Vec<Vec<usize>>, order: &[usize]) -> bool {
    let mut seen = vec![false; adj.len()];
    for &node in order {
        if node >= adj.len() || seen[node] || adj[node].iter().any(|&d| !seen[d]) {
            return false;
        }
        seen[node] = true;
    }
    seen.iter().all(|&s| s)
}

#[test]
fn weights_count_three_levels_below_the_direct_ones() {
    assert_eq!(RANK_DEPTH, 3);
    assert_eq!(weights(&vec![]), Vec::<usize>::new());
    assert_eq!(weights(&vec![vec![], vec![0], vec![1, 0]]), vec![0, 1, 3]);
    let chain: Vec<Vec<usize>> = (0..7).map(|k: usize| if k == 0 { vec![] } else { vec![k - 1] }).collect();
    assert_eq!(weights(&chain), vec![0, 1, 2, 3, 4, 4, 4]);
}

#[test]
fn weights_count_a_member_named_twice_twice() {
    assert_eq!(weights(&vec![vec![], vec![0, 0], vec![1, 1]]), vec![0, 2, 6]);
}

#[test]
fn weights_of_a_cycle_stay_bounded() {
    assert_eq!(weights(&vec![vec![1], vec![0]]), vec![4, 4]);
    assert_eq!(weights(&vec![vec![0]]), vec![4]);
}

#[test]
fn weights_are_capped_at_the_largest_number() {
    let wide: usize = 70000;
    let mut adj: Vec<Vec<usize>> = vec![vec![]];
    adj.push(vec![0; wide]);
    adj.push(vec![1; wide]);
    adj.push(vec![2; wide]);
    adj.push(vec![3; wide]);
    let table = weights(&adj);
    assert_eq!(table[1], wide);
    assert_eq!(table[2], wide + wide * wide);
    assert_eq!(table[3], wide + wide * wide + wide * wide * wide);
    assert_eq!(table[4], usize::MAX);
}

#[test]
fn graphs_without_a_cycle_are_ordered() {
    let graphs: Vec<Vec<Vec<usize>>> = vec![
        vec![],
        vec![vec![]],
        vec![vec![1], vec![2], vec![]],
        vec![vec![], vec![0], vec![0, 1], vec![2, 0]],
        vec![vec![3, 4], vec![], vec![1], vec![2, 1], vec![1]],
        vec![vec![1, 1], vec![]],
    ];
    for adj in graphs {
        let order = topological_order(&adj).unwrap();
        assert!(is_publish_order(&adj, &order), "{adj:?} {order:?}");
    }
}

#[test]
fn least_ready_member_comes_next() {
    assert_eq!(topological_order(&vec![vec![1], vec![2], vec![]]), Some(vec![2, 1, 0]));
    assert_eq!(
        topological_order(&vec![vec![], vec![0], vec![0, 1], vec![2, 0]]),
        Some(vec![0, 1, 2, 3])
    );
    assert_eq!(
        topological_order(&vec![vec![1, 2], vec![3], vec![3], vec![], vec![]]),
        Some(vec![3, 1, 2, 0, 4])
    );
    assert_eq!(topological_order(&vec![vec![], vec![], vec![]]), Some(vec![0, 1, 2]));
}

#[test]
fn graphs_with_a_cycle_have_no_order() {
    let graphs: Vec<Vec<Vec<usize>>> = vec![
        vec![vec![0]],
        vec![vec![1], vec![0]],
        vec![vec![], vec![2], vec![3], vec![1]],
        vec![vec![1], vec![2], vec![0], vec![]],
        vec![vec![], vec![0], vec![1, 2]],
    ];
    for adj in graphs {
        assert_eq!(topological_order(&adj), None, "{adj:?}");
    }
}

#[test]
fn rank_is_by_weight_then_identity() {
    let crates: Vec<PackageId> = ["m", "b", "a", "z"].iter().map(|s| PackageId::new(s)).collect();
    let adj = vec![vec![1, 2], vec![], vec![], vec![0]];
    let sorted: Vec<(String, usize)> = build_crate_graph(&crates, &adj)
        .iter()
        .map(|(id, w)| (id.as_str().to_string(), *w))
        .collect();
    assert_eq!(
        sorted,
        vec![
            ("a".to_string(), 0),
            ("b".to_string(), 0),
            ("m".to_string(), 2),
            ("z".to_string(), 3),
        ]
    );
}
