//! Least connections: route to a server currently serving the fewest
//! requests; ties are resolved by the run's tie-break source.

use vstd::prelude::*;

use crate::algorithms::{
    candidates_of, lemma_candidates_nonempty, lemma_min_key_le, lemma_tied_at_none,
    lemma_tied_at_props, min_key, spec_select, tied_at, Selection, SelectionV, StrategyV,
};
use crate::models::{ServerState, ServerV};
use crate::tie::TieSource;

verus! {

/// The metric this strategy minimizes: current active connections.
pub open spec fn lc_key() -> spec_fn(ServerV) -> int {
    |s: ServerV| s.active_connections
}

/// Scans all servers once, collects every server tied at the minimum
/// number of active connections, and draws among them only when more than
/// one candidate remains.
pub struct LeastConnectionsStrategy;

impl Default for LeastConnectionsStrategy {
    fn default() -> (s: LeastConnectionsStrategy) {
        LeastConnectionsStrategy
    }
}

impl LeastConnectionsStrategy {
    /// Chooses a server whose `active_connections` is minimal over the
    /// whole list; with a single minimum no randomness is consulted.
    pub fn select(&mut self, servers: &Vec<ServerState>, source: &mut TieSource) -> (sel:
        Selection)
        requires
            servers@.len() > 0,
        ensures
            ({
                let (selv, strat2, hist2) = spec_select(
                    StrategyV::LeastConnections,
                    servers.deep_view(),
                    old(source).tie_break(),
                    old(source).history(),
                );
                &&& sel@ == selv
                &&& final(source).tie_break() == old(source).tie_break()
                &&& final(source).history() == hist2
            }),
    {
        let ghost sv = servers.deep_view();
        let ghost key = lc_key();
        let n = servers.len();

        let mut min_count: u64 = servers[0].active_connections;
        let mut candidates: Vec<usize> = Vec::new();
        candidates.push(0);
        proof {
            let t1 = sv.take(1);
            assert(t1.drop_last() =~= Seq::<ServerV>::empty());
            assert(t1.last() == sv[0]);
            assert(t1[0] == sv[0]);
            assert(key(sv[0]) == sv[0].active_connections);
            assert(min_count as int == key(sv[0]));
            assert(min_key(t1, key) == key(sv[0]));
            assert(tied_at(Seq::<ServerV>::empty(), key, min_count as int) == Seq::<
                int,
            >::empty());
            assert(tied_at(t1, key, min_count as int) == Seq::<int>::empty().push(0));
            assert(candidates@.map_values(|x: usize| x as int) =~= Seq::<int>::empty().push(0));
        }

        let mut i: usize = 1;
        while i < n
            invariant
                1 <= i <= n,
                n == sv.len(),
                sv == servers.deep_view(),
                key == lc_key(),
                min_count as int == min_key(sv.take(i as int), key),
                candidates@.map_values(|x: usize| x as int) == tied_at(
                    sv.take(i as int),
                    key,
                    min_count as int,
                ),
                forall|t: int|
                    0 <= t < candidates@.len() ==> #[trigger] candidates@[t] < i,
            decreases n - i,
        {
            let a = servers[i].active_connections;
            proof {
                assert(sv.take(i as int + 1).drop_last() =~= sv.take(i as int));
                assert(sv.take(i as int + 1).last() == sv[i as int]);
                assert(sv[i as int] == servers@[i as int]@);
                assert(sv[i as int].active_connections == a as int);
                assert(key(sv[i as int]) == a as int);
            }
            if a < min_count {
                proof {
                    lemma_min_key_le(sv.take(i as int), key);
                    lemma_tied_at_none(sv.take(i as int), key, a as int);
                }
                min_count = a;
                candidates.clear();
                candidates.push(i);
                proof {
                    assert(candidates@.map_values(|x: usize| x as int) =~= tied_at(
                        sv.take(i as int + 1),
                        key,
                        min_count as int,
                    ));
                }
            } else if a == min_count {
                let ghost prev = candidates@.map_values(|x: usize| x as int);
                candidates.push(i);
                proof {
                    assert(candidates@.map_values(|x: usize| x as int) =~= prev.push(i as int));
                }
            } else {
                proof {
                    assert(candidates@.map_values(|x: usize| x as int) =~= tied_at(
                        sv.take(i as int + 1),
                        key,
                        min_count as int,
                    ));
                }
            }
            i = i + 1;
        }
        proof {
            assert(sv.take(n as int) =~= sv);
            lemma_candidates_nonempty(sv, key);
            lemma_tied_at_props(sv, key, min_count as int);
            assert(candidates@.len() == candidates_of(sv, key).len());
        }

        let choice: usize = if candidates.len() == 1 {
            candidates[0]
        } else {
            let bound = candidates.len() as u64;
            let d = source.draw(bound);
            candidates[d as usize]
        };

        Selection { server_id: choice, score: None }
    }
}

} // verus!
