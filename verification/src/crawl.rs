//! The crawl bookkeeping and the round-based breadth-first discovery it
//! drives: a visited set that only grows and never holds a duplicate, a
//! frontier of discovered-but-uncrawled endpoints, and a pure crawl over
//! an explicit peer graph that is proved to terminate. The networked
//! orchestrator drives the same state through the same functions, one
//! session result at a time.

use vstd::prelude::*;

use crate::addr::PeerAddress;
use crate::session::{contains_addr, lemma_merge_dedup, merge_dedup};
use vstd::slice::{slice_subrange, slice_to_vec};

verus! {

/// The crawl's global state: every endpoint ever discovered, and those
/// not yet crawled. The frontier is always part of the visited set.
#[derive(Debug)]
pub struct CrawlState {
    pub visited: Vec<PeerAddress>,
    pub frontier: Vec<PeerAddress>,
}

impl CrawlState {
    /// Visited holds no duplicates, and every frontier member is visited.
    pub open spec fn wf(self) -> bool {
        &&& self.visited@.no_duplicates()
        &&& (forall|x: PeerAddress| self.frontier@.contains(x) ==> self.visited@.contains(x))
    }
}

/// Seeds the crawl: the seed session's result becomes both the visited
/// set and the first frontier.
pub fn seed_crawl(initial: &Vec<PeerAddress>) -> (st: CrawlState)
    requires
        initial@.no_duplicates(),
    ensures
        st.visited@ == initial@,
        st.frontier@ == initial@,
        st.wf(),
{
    CrawlState {
        visited: slice_to_vec(initial.as_slice()),
        frontier: slice_to_vec(initial.as_slice()),
    }
}

/// Whether another round is due: the limit is not yet met and there is
/// something left to crawl. The limit is checked only between rounds.
pub fn should_continue(st: &CrawlState, limit: usize) -> (r: bool)
    ensures
        r == (st.visited@.len() < limit && st.frontier@.len() > 0),
{
    st.visited.len() < limit && st.frontier.len() > 0
}

/// Drains the whole frontier into one round's batch.
pub fn take_round_batch(st: &mut CrawlState) -> (batch: Vec<PeerAddress>)
    requires
        old(st).wf(),
    ensures
        batch@ == old(st).frontier@,
        final(st).frontier@ == Seq::<PeerAddress>::empty(),
        final(st).visited@ == old(st).visited@,
        final(st).wf(),
{
    let batch = st.frontier.split_off(0);
    proof {
        assert(st.frontier@ =~= Seq::<PeerAddress>::empty());
        assert(batch@ =~= old(st).frontier@);
    }
    batch
}

/// Folds one session's result into the crawl state: every address not
/// already visited is appended to both the visited set and the frontier;
/// addresses already known change nothing. No result is ever lost: every
/// address of the result is visited afterwards, whatever the other
/// sessions of the round returned.
pub fn merge_round_result(st: &mut CrawlState, result: &Vec<PeerAddress>)
    requires
        old(st).wf(),
    ensures
        final(st).wf(),
        final(st).visited@ == merge_dedup(old(st).visited@, result@),
        old(st).visited@.len() <= final(st).visited@.len(),
        final(st).visited@.subrange(0, old(st).visited@.len() as int) == old(st).visited@,
        final(st).frontier@ == old(st).frontier@ + final(st).visited@.subrange(
            old(st).visited@.len() as int,
            final(st).visited@.len() as int,
        ),
        forall|x: PeerAddress| #[trigger]
            final(st).visited@.contains(x) <==> old(st).visited@.contains(x) || result@.contains(
                x,
            ),
{
    let ghost orig_v = st.visited@;
    let ghost orig_f = st.frontier@;
    let ghost all = result@;
    proof {
        lemma_merge_dedup(orig_v, all);
        assert(all.subrange(0, all.len() as int) =~= all);
        assert(orig_v.subrange(orig_v.len() as int, orig_v.len() as int) =~= Seq::<
            PeerAddress,
        >::empty());
        assert(orig_f + Seq::<PeerAddress>::empty() =~= orig_f);
    }
    let mut k: usize = 0;
    while k < result.len()
        invariant
            k <= all.len(),
            all == result@,
            st.visited@.no_duplicates(),
            orig_v.len() <= st.visited@.len(),
            st.visited@.subrange(0, orig_v.len() as int) == orig_v,
            merge_dedup(orig_v, all) == merge_dedup(
                st.visited@,
                all.subrange(k as int, all.len() as int),
            ),
            st.frontier@ == orig_f + st.visited@.subrange(
                orig_v.len() as int,
                st.visited@.len() as int,
            ),
            forall|x: PeerAddress| #[trigger]
                st.visited@.contains(x) <==> orig_v.contains(x) || all.subrange(
                    0,
                    k as int,
                ).contains(x),
        decreases all.len() - k,
    {
        let ghost pre_v = st.visited@;
        let ghost suffix = all.subrange(k as int, all.len() as int);
        let a = result[k];
        let already = contains_addr(&st.visited, &a);
        if !already {
            st.visited.push(a);
            st.frontier.push(a);
            proof {
                assert forall|i: int, j: int|
                    0 <= i < st.visited@.len() && 0 <= j < st.visited@.len() && i != j implies st
                    .visited@[i] != st.visited@[j] by {
                    if j == pre_v.len() {
                        if st.visited@[i] == a {
                            assert(pre_v.contains(a));
                        }
                    } else if i == pre_v.len() {
                        if st.visited@[j] == a {
                            assert(pre_v.contains(a));
                        }
                    }
                }
                assert(st.visited@.subrange(0, orig_v.len() as int) =~= pre_v.subrange(
                    0,
                    orig_v.len() as int,
                ));
                assert(st.visited@.subrange(orig_v.len() as int, st.visited@.len() as int)
                    =~= pre_v.subrange(orig_v.len() as int, pre_v.len() as int) + seq![a]);
                assert(st.frontier@ =~= orig_f + st.visited@.subrange(
                    orig_v.len() as int,
                    st.visited@.len() as int,
                ));
                assert(st.visited@.contains(a)) by {
                    assert(st.visited@[pre_v.len() as int] == a);
                }
                assert forall|x: PeerAddress| #[trigger] st.visited@.contains(x) implies pre_v
                    .contains(x) || x == a by {
                    let i = choose|i: int| 0 <= i < st.visited@.len() && st.visited@[i] == x;
                    if i < pre_v.len() {
                        assert(pre_v[i] == x);
                    }
                }
            }
        }
        k = k + 1;
        proof {
            assert(suffix[0] == all[k - 1]);
            assert(suffix.subrange(1, suffix.len() as int) =~= all.subrange(
                k as int,
                all.len() as int,
            ));
            let prefix_k = all.subrange(0, k as int);
            let prefix_k1 = all.subrange(0, (k - 1) as int);
            assert(prefix_k.contains(all[k - 1])) by {
                assert(prefix_k[k - 1] == all[k - 1]);
            }
            assert forall|x: PeerAddress| #[trigger] prefix_k.contains(x) implies prefix_k1
                .contains(x) || x == all[k - 1] by {
                let i = choose|i: int| 0 <= i < k && prefix_k[i] == x;
                if i < k - 1 {
                    assert(prefix_k1[i] == x);
                }
            }
            assert forall|x: PeerAddress| #[trigger] prefix_k1.contains(x) implies prefix_k
                .contains(x) by {
                let i = choose|i: int| 0 <= i < k - 1 && prefix_k1[i] == x;
                assert(prefix_k[i] == x);
            }
            assert forall|x: PeerAddress| #[trigger] st.visited@.contains(x) implies orig_v
                .contains(x) || prefix_k.contains(x) by {
                if pre_v.contains(x) {
                    assert(prefix_k1.contains(x) ==> prefix_k.contains(x));
                } else {
                    let i = choose|i: int| 0 <= i < st.visited@.len() && st.visited@[i] == x;
                    if i < pre_v.len() {
                        assert(pre_v[i] == x);
                    }
                    assert(x == a);
                }
            }
            assert forall|x: PeerAddress|
                orig_v.contains(x) || prefix_k.contains(x) implies #[trigger] st.visited@.contains(
                x,
            ) by {
                if orig_v.contains(x) || prefix_k1.contains(x) {
                    assert(pre_v.contains(x));
                    let i = choose|i: int| 0 <= i < pre_v.len() && pre_v[i] == x;
                    assert(st.visited@[i] == x);
                } else {
                    assert(x == a);
                    if already {
                        let i = choose|i: int| 0 <= i < pre_v.len() && pre_v[i] == a;
                        assert(st.visited@[i] == a);
                    } else {
                        assert(st.visited@[pre_v.len() as int] == a);
                    }
                }
            }
        }
    }
    proof {
        assert(all.subrange(0, all.len() as int) =~= all);
        assert(all.subrange(all.len() as int, all.len() as int) =~= Seq::<PeerAddress>::empty());
        assert(merge_dedup(st.visited@, Seq::<PeerAddress>::empty()) == st.visited@);
        assert forall|x: PeerAddress| st.frontier@.contains(x) implies st.visited@.contains(x) by {
            let novel = st.visited@.subrange(orig_v.len() as int, st.visited@.len() as int);
            let i = choose|i: int| 0 <= i < st.frontier@.len() && st.frontier@[i] == x;
            if i < orig_f.len() {
                assert(orig_f[i] == x);
            } else {
                assert(novel[i - orig_f.len()] == x);
                assert(st.visited@[i - orig_f.len() + orig_v.len()] == x);
            }
        }
    }
}

/// Emits up to `limit` of the visited endpoints: exactly `limit` of them
/// when at least that many were discovered, and all of them otherwise.
pub fn select_output(st: &CrawlState, limit: usize) -> (out: Vec<PeerAddress>)
    requires
        st.wf(),
    ensures
        out@.no_duplicates(),
        out@.len() <= limit,
        forall|x: PeerAddress| out@.contains(x) ==> st.visited@.contains(x),
        st.visited@.len() >= limit ==> out@.len() == limit,
        st.visited@.len() < limit ==> out@ == st.visited@,
{
    let n = if limit < st.visited.len() {
        limit
    } else {
        st.visited.len()
    };
    let out = slice_to_vec(slice_subrange(st.visited.as_slice(), 0, n));
    proof {
        assert forall|x: PeerAddress| out@.contains(x) implies st.visited@.contains(x) by {
            let i = choose|i: int| 0 <= i < out@.len() && out@[i] == x;
            assert(st.visited@[i] == x);
        }
        if st.visited@.len() < limit {
            assert(out@ =~= st.visited@);
        }
    }
    out
}

/// All endpoints a peer graph mentions: each node and each of its
/// advertised neighbors.
pub open spec fn graph_addrs(g: Seq<(PeerAddress, Vec<PeerAddress>)>) -> Seq<PeerAddress>
    decreases g.len(),
{
    if g.len() == 0 {
        Seq::empty()
    } else {
        (seq![g[0].0] + g[0].1@) + graph_addrs(g.subrange(1, g.len() as int))
    }
}

/// Every node and every advertised neighbor is among the graph's
/// endpoints.
pub proof fn lemma_graph_addrs_cover(g: Seq<(PeerAddress, Vec<PeerAddress>)>, i: int)
    requires
        0 <= i < g.len(),
    ensures
        graph_addrs(g).contains(g[i].0),
        forall|x: PeerAddress| g[i].1@.contains(x) ==> graph_addrs(g).contains(x),
    decreases g.len(),
{
    let head = seq![g[0].0] + g[0].1@;
    let rest = g.subrange(1, g.len() as int);
    assert(graph_addrs(g) == head + graph_addrs(rest));
    if i == 0 {
        assert(graph_addrs(g)[0] == g[0].0);
        assert(graph_addrs(g).contains(g[0].0));
        assert forall|x: PeerAddress| g[0].1@.contains(x) implies graph_addrs(g).contains(x) by {
            let j = choose|j: int| 0 <= j < g[0].1@.len() && g[0].1@[j] == x;
            assert(graph_addrs(g)[1 + j] == x);
        }
    } else {
        lemma_graph_addrs_cover(rest, i - 1);
        assert(rest[i - 1] == g[i]);
        assert forall|x: PeerAddress| graph_addrs(rest).contains(x) implies graph_addrs(
            g,
        ).contains(x) by {
            let j = choose|j: int| 0 <= j < graph_addrs(rest).len() && graph_addrs(rest)[j] == x;
            assert(graph_addrs(g)[head.len() + j] == x);
        }
    }
}

/// Looks an endpoint up in the peer graph; an endpoint that is not a
/// node of the graph is unreachable and yields nothing.
pub fn lookup_neighbors(graph: &Vec<(PeerAddress, Vec<PeerAddress>)>, a: &PeerAddress) -> (r:
    Option<Vec<PeerAddress>>)
    ensures
        match r {
            Some(v) => exists|i: int|
                0 <= i < graph@.len() && graph@[i].0 == *a && v@ == graph@[i].1@,
            None => forall|i: int| 0 <= i < graph@.len() ==> graph@[i].0 != *a,
        },
{
    let mut i: usize = 0;
    while i < graph.len()
        invariant
            i <= graph@.len(),
            forall|j: int| 0 <= j < i ==> graph@[j].0 != *a,
        decreases graph@.len() - i,
    {
        let entry = &graph[i];
        if entry.0 == *a {
            return Some(slice_to_vec(entry.1.as_slice()));
        }
        i = i + 1;
    }
    None
}

/// Every element of `xs` is an element of `ys`.
pub open spec fn all_in(xs: Seq<PeerAddress>, ys: Seq<PeerAddress>) -> bool {
    forall|k: int| 0 <= k < xs.len() ==> ys.contains(#[trigger] xs[k])
}

/// Every node of the graph that is visited but no longer on the frontier
/// has been crawled: all its neighbors are visited too.
pub open spec fn crawled_closed(
    g: Seq<(PeerAddress, Vec<PeerAddress>)>,
    visited: Seq<PeerAddress>,
    pending: Seq<PeerAddress>,
) -> bool {
    forall|i: int|
        0 <= i < g.len() && visited.contains(#[trigger] g[i].0) && !pending.contains(g[i].0)
            ==> all_in(g[i].1@, visited)
}

/// The round-based breadth-first crawl over an explicit, finite peer
/// graph, seeded with one session result. Every round drains the whole
/// frontier, asks the graph for each batch member's neighbors (an absent
/// member is an unreachable peer and contributes nothing, without
/// stopping the round), and folds every answer in. The crawl provably
/// terminates; its output holds no duplicate, never exceeds the limit,
/// reaches the limit exactly whenever the seed alone meets it, is empty
/// when the limit is zero, and mentions only endpoints of the seed
/// result or of the graph. An output short of the limit is the whole
/// discovery: it holds every seed endpoint and, for every reachable
/// member, every neighbor that member advertised.
pub fn run_crawl(
    graph: &Vec<(PeerAddress, Vec<PeerAddress>)>,
    seed_result: &Vec<PeerAddress>,
    limit: usize,
) -> (out: Vec<PeerAddress>)
    requires
        seed_result@.no_duplicates(),
        forall|i: int, j: int| 0 <= i < j < graph@.len() ==> graph@[i].0 != graph@[j].0,
    ensures
        out@.no_duplicates(),
        out@.len() <= limit,
        limit == 0 ==> out@.len() == 0,
        seed_result@.len() >= limit ==> out@.len() == limit,
        forall|x: PeerAddress| #[trigger]
            out@.contains(x) ==> seed_result@.contains(x) || graph_addrs(graph@).contains(x),
        out@.len() < limit ==> all_in(seed_result@, out@),
        out@.len() < limit ==> crawled_closed(graph@, out@, Seq::<PeerAddress>::empty()),
{
    let mut st = seed_crawl(seed_result);
    let ghost uni = seed_result@ + graph_addrs(graph@);
    proof {
        assert forall|x: PeerAddress| #[trigger] st.visited@.contains(x) implies seed_result@
            .contains(x) || graph_addrs(graph@).contains(x) by {}
    }
    loop
        invariant
            st.wf(),
            seed_result@.len() <= st.visited@.len(),
            uni == seed_result@ + graph_addrs(graph@),
            forall|x: PeerAddress| #[trigger]
                st.visited@.contains(x) ==> seed_result@.contains(x) || graph_addrs(
                    graph@,
                ).contains(x),
            all_in(seed_result@, st.visited@),
            crawled_closed(graph@, st.visited@, st.frontier@),
            forall|i: int, j: int| 0 <= i < j < graph@.len() ==> graph@[i].0 != graph@[j].0,
        ensures
            st.wf(),
            seed_result@.len() <= st.visited@.len(),
            forall|x: PeerAddress| #[trigger]
                st.visited@.contains(x) ==> seed_result@.contains(x) || graph_addrs(
                    graph@,
                ).contains(x),
            all_in(seed_result@, st.visited@),
            crawled_closed(graph@, st.visited@, st.frontier@),
            st.visited@.len() >= limit || st.frontier@.len() == 0,
        decreases uni.to_set().len() - st.visited@.len(), st.frontier@.len(),
    {
        proof {
            lemma_visited_bounded(st.visited@, uni, seed_result@, graph_addrs(graph@));
        }
        if !(st.visited.len() < limit && st.frontier.len() > 0) {
            break ;
        }
        let ghost v0 = st.visited@;
        let batch = take_round_batch(&mut st);
        proof {
            assert(st.visited@.subrange(v0.len() as int, st.visited@.len() as int) =~= Seq::<
                PeerAddress,
            >::empty());
            assert(batch@.subrange(0, batch@.len() as int) =~= batch@);
        }
        let mut bi: usize = 0;
        while bi < batch.len()
            invariant
                st.wf(),
                seed_result@.len() <= st.visited@.len(),
                uni == seed_result@ + graph_addrs(graph@),
                forall|x: PeerAddress| #[trigger]
                    st.visited@.contains(x) ==> seed_result@.contains(x) || graph_addrs(
                        graph@,
                    ).contains(x),
                all_in(seed_result@, st.visited@),
                v0.len() <= st.visited@.len(),
                st.frontier@.len() == st.visited@.len() - v0.len(),
                bi <= batch@.len(),
                crawled_closed(
                    graph@,
                    st.visited@,
                    st.frontier@ + batch@.subrange(bi as int, batch@.len() as int),
                ),
                forall|i: int, j: int| 0 <= i < j < graph@.len() ==> graph@[i].0 != graph@[j].0,
            decreases batch@.len() - bi,
        {
            let ghost pre_v = st.visited@;
            let ghost pre_f = st.frontier@;
            let ghost pending = st.frontier@ + batch@.subrange(bi as int, batch@.len() as int);
            let ghost pending_next = st.frontier@ + batch@.subrange(
                bi + 1,
                batch@.len() as int,
            );
            let node = batch[bi];
            proof {
                assert forall|x: PeerAddress| #[trigger]
                    pending.contains(x) implies x == batch@[bi as int] || pending_next.contains(
                    x,
                ) by {
                    let k = choose|k: int| 0 <= k < pending.len() && pending[k] == x;
                    if k < pre_f.len() {
                        assert(pending_next[k] == x);
                    } else if k > pre_f.len() {
                        assert(pending_next[k - 1] == x);
                    }
                }
            }
            match lookup_neighbors(graph, &node) {
                Some(neighbors) => {
                    let ghost gi = choose|i: int|
                        0 <= i < graph@.len() && graph@[i].0 == batch@[bi as int] && neighbors@
                            == graph@[i].1@;
                    proof {
                        lemma_graph_addrs_cover(graph@, gi);
                    }
                    merge_round_result(&mut st, &neighbors);
                    proof {
                        assert forall|x: PeerAddress| #[trigger]
                            st.visited@.contains(x) implies seed_result@.contains(x)
                            || graph_addrs(graph@).contains(x) by {
                            if !pre_v.contains(x) {
                                assert(neighbors@.contains(x));
                            }
                        }
                        // A newly visited endpoint stands on the frontier.
                        assert forall|x: PeerAddress|
                            st.visited@.contains(x) && !pre_v.contains(x) implies #[trigger] st
                            .frontier@.contains(x) by {
                            let k = choose|k: int|
                                0 <= k < st.visited@.len() && st.visited@[k] == x;
                            if k < pre_v.len() {
                                assert(pre_v[k] == x);
                            } else {
                                let novel = st.visited@.subrange(
                                    pre_v.len() as int,
                                    st.visited@.len() as int,
                                );
                                assert(novel[k - pre_v.len()] == x);
                                assert(st.frontier@[pre_f.len() + k - pre_v.len()] == x);
                            }
                        }
                        assert forall|x: PeerAddress| #[trigger]
                            pre_f.contains(x) implies st.frontier@.contains(x) by {
                            let k = choose|k: int| 0 <= k < pre_f.len() && pre_f[k] == x;
                            assert(st.frontier@[k] == x);
                        }
                        assert forall|i: int|
                            0 <= i < graph@.len() && st.visited@.contains(#[trigger] graph@[i].0)
                                && !(st.frontier@ + batch@.subrange(
                            bi + 1,
                            batch@.len() as int,
                        )).contains(graph@[i].0) implies all_in(graph@[i].1@, st.visited@) by {
                            let next_pending = st.frontier@ + batch@.subrange(
                                bi + 1,
                                batch@.len() as int,
                            );
                            let g0 = graph@[i].0;
                            assert forall|x: PeerAddress| #[trigger]
                                pending_next.contains(x) implies next_pending.contains(x) by {
                                let k = choose|k: int|
                                    0 <= k < pending_next.len() && pending_next[k] == x;
                                if k < pre_f.len() {
                                    assert(pre_f[k] == x);
                                    assert(st.frontier@[k] == x);
                                    assert(next_pending[k] == x);
                                } else {
                                    assert(next_pending[st.frontier@.len() + k - pre_f.len()]
                                        == x);
                                }
                            }
                            if g0 == batch@[bi as int] {
                                assert(gi == i);
                                assert forall|k: int|
                                    0 <= k < graph@[i].1@.len() implies st.visited@.contains(
                                    #[trigger] graph@[i].1@[k],
                                ) by {
                                    assert(neighbors@.contains(neighbors@[k]));
                                }
                            } else if pre_v.contains(g0) {
                                assert(!pending.contains(g0));
                                assert(all_in(graph@[i].1@, pre_v));
                                assert forall|k: int|
                                    0 <= k < graph@[i].1@.len() implies st.visited@.contains(
                                    #[trigger] graph@[i].1@[k],
                                ) by {
                                    assert(pre_v.contains(graph@[i].1@[k]));
                                }
                            } else {
                                assert(st.frontier@.contains(g0));
                                assert(next_pending.contains(g0)) by {
                                    let k = choose|k: int|
                                        0 <= k < st.frontier@.len() && st.frontier@[k] == g0;
                                    assert(next_pending[k] == g0);
                                }
                            }
                        }
                    }
                },
                None => {
                    proof {
                        assert forall|i: int|
                            0 <= i < graph@.len() && st.visited@.contains(#[trigger] graph@[i].0)
                                && !(st.frontier@ + batch@.subrange(
                            bi + 1,
                            batch@.len() as int,
                        )).contains(graph@[i].0) implies all_in(graph@[i].1@, st.visited@) by {
                            let g0 = graph@[i].0;
                            assert(g0 != batch@[bi as int]);
                            assert(!pending.contains(g0));
                        }
                    }
                },
            }
            bi = bi + 1;
        }
        proof {
            lemma_visited_bounded(st.visited@, uni, seed_result@, graph_addrs(graph@));
            assert(batch@.subrange(batch@.len() as int, batch@.len() as int) =~= Seq::<
                PeerAddress,
            >::empty());
            assert(st.frontier@ + Seq::<PeerAddress>::empty() =~= st.frontier@);
        }
    }
    let out = select_output(&st, limit);
    proof {
        if out@.len() < limit {
            assert(st.visited@.len() < limit);
            assert(out@ == st.visited@);
            assert(st.frontier@.len() == 0);
            assert forall|i: int|
                0 <= i < graph@.len() && out@.contains(#[trigger] graph@[i].0) && !Seq::<
                    PeerAddress,
                >::empty().contains(graph@[i].0) implies all_in(graph@[i].1@, out@) by {
                assert(!st.frontier@.contains(graph@[i].0));
            }
        }
    }
    out
}

/// A duplicate-free visited set drawn from the crawl universe is no
/// larger than the universe.
proof fn lemma_visited_bounded(
    visited: Seq<PeerAddress>,
    uni: Seq<PeerAddress>,
    seed: Seq<PeerAddress>,
    ga: Seq<PeerAddress>,
)
    requires
        visited.no_duplicates(),
        uni == seed + ga,
        forall|x: PeerAddress| #[trigger] visited.contains(x) ==> seed.contains(x) || ga.contains(
            x,
        ),
    ensures
        visited.len() <= uni.to_set().len(),
        uni.to_set().finite(),
{
    broadcast use vstd::seq_lib::seq_to_set_is_finite;
    broadcast use vstd::set::group_set_axioms;

    visited.unique_seq_to_set();
    assert forall|x: PeerAddress| visited.to_set().contains(x) implies uni.to_set().contains(
        x,
    ) by {
        assert(visited.contains(x));
        if seed.contains(x) {
            let i = choose|i: int| 0 <= i < seed.len() && seed[i] == x;
            assert(uni[i] == x);
        } else {
            let i = choose|i: int| 0 <= i < ga.len() && ga[i] == x;
            assert(uni[seed.len() + i] == x);
        }
        assert(uni.contains(x));
    }
    assert(visited.to_set().subset_of(uni.to_set()));
    vstd::set_lib::lemma_len_subset(visited.to_set(), uni.to_set());
}

} // verus!
