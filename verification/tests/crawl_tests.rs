use peer_crawler::addr::PeerAddress;
use peer_crawler::crawl::{
    merge_round_result, run_crawl, seed_crawl, select_output, should_continue, take_round_batch,
};

fn a(n: u8) -> PeerAddress {
    PeerAddress::new(n, 0, 0, 1, 8333)
}

fn assert_no_duplicates(v: &[PeerAddress]) {
    for i in 0..v.len() {
        for j in 0..v.len() {
            if i != j {
                assert_ne!(v[i], v[j]);
            }
        }
    }
}

#[test]
fn crawl_terminates_without_duplicates_on_a_cyclic_graph() {
    // A finite peer graph with a cycle: the crawl must terminate and
    // visit nothing twice.
    let graph = vec![
        (a(1), vec![a(2), a(3)]),
        (a(2), vec![a(3), a(1)]),
        (a(3), vec![a(1), a(4)]),
        (a(4), vec![a(4)]),
    ];
    let seed = vec![a(1)];
    let out = run_crawl(&graph, &seed, 100);
    assert_no_duplicates(&out);
    let mut sorted: Vec<u8> = out.iter().map(|p| p.ip0).collect();
    sorted.sort();
    assert_eq!(sorted, vec![1, 2, 3, 4]);
}

#[test]
fn zero_limit_yields_empty_output() {
    let graph = vec![(a(1), vec![a(2)])];
    let seed = vec![a(1)];
    let out = run_crawl(&graph, &seed, 0);
    assert!(out.is_empty());
}

#[test]
fn limit_two_of_three_seed_addresses() {
    // The seed returns {A, B, C}; with a limit of two the output holds
    // exactly two of them.
    let seed = vec![a(1), a(2), a(3)];
    let graph: Vec<(PeerAddress, Vec<PeerAddress>)> = Vec::new();
    let out = run_crawl(&graph, &seed, 2);
    assert_eq!(out.len(), 2);
    assert_no_duplicates(&out);
    for p in &out {
        assert!(seed.contains(p));
    }
}

#[test]
fn unreachable_peer_does_not_stop_the_round() {
    // B is not a node of the graph (unreachable); the round still folds
    // in what A returned.
    let graph = vec![(a(1), vec![a(3), a(4)])];
    let seed = vec![a(1), a(2)];
    let out = run_crawl(&graph, &seed, 100);
    assert!(out.contains(&a(3)));
    assert!(out.contains(&a(4)));
    assert!(out.contains(&a(1)));
    assert!(out.contains(&a(2)));
    assert_no_duplicates(&out);
}

#[test]
fn crawl_state_round_bookkeeping() {
    let seed = vec![a(1), a(2)];
    let mut st = seed_crawl(&seed);
    assert!(should_continue(&st, 10));
    assert!(!should_continue(&st, 2));

    let batch = take_round_batch(&mut st);
    assert_eq!(batch, vec![a(1), a(2)]);
    assert!(!should_continue(&st, 10));

    // One failing session contributes an empty result; the other's
    // addresses are all folded in regardless.
    merge_round_result(&mut st, &Vec::new());
    merge_round_result(&mut st, &vec![a(2), a(3)]);
    assert_eq!(st.visited, vec![a(1), a(2), a(3)]);
    assert_eq!(st.frontier, vec![a(3)]);

    let out = select_output(&st, 2);
    assert_eq!(out, vec![a(1), a(2)]);
    let all = select_output(&st, 10);
    assert_eq!(all, vec![a(1), a(2), a(3)]);
}
