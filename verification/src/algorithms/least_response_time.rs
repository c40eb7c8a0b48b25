//! Least response time: route to the server with the smallest estimated
//! completion delay for a request landing on it now.  The estimate is the
//! base latency inflated by current load, `base_latency_ms ×
//! (active_connections + 1)`; the winning estimate is reported as the
//! decision's score.

use vstd::prelude::*;

use crate::algorithms::{
    candidates_of, lemma_candidates_nonempty, lemma_min_key_le, lemma_tied_at_none,
    lemma_tied_at_props, min_key, spec_select, tied_at, Selection, SelectionV, StrategyV,
};
use crate::models::{ServerState, ServerV};
use crate::tie::TieSource;

verus! {

/// The metric this strategy minimizes: base latency inflated by current
/// load.
pub open spec fn lrt_key() -> spec_fn(ServerV) -> int {
    |s: ServerV| s.base_latency_ms * (s.active_connections + 1)
}

/// The bounds under which every server's estimated delay fits a `u64`.
pub open spec fn lrt_fits(servers: Seq<ServerV>) -> bool {
    forall|k: int|
        0 <= k < servers.len() ==> {
            &&& (#[trigger] servers[k]).active_connections + 1 <= u64::MAX
            &&& servers[k].base_latency_ms * (servers[k].active_connections + 1) <= u64::MAX
        }
}

/// Scans all servers once, collects every server tied at the minimum
/// estimated delay, and draws among them only when more than one
/// candidate remains.
pub struct LeastResponseTimeStrategy;

impl Default for LeastResponseTimeStrategy {
    fn default() -> (s: LeastResponseTimeStrategy) {
        LeastResponseTimeStrategy
    }
}

impl LeastResponseTimeStrategy {
    /// Chooses a server whose estimated delay is minimal over the whole
    /// list and reports that delay; with a single minimum no randomness is
    /// consulted.
    pub fn select(&mut self, servers: &Vec<ServerState>, source: &mut TieSource) -> (sel:
        Selection)
        requires
            servers@.len() > 0,
            lrt_fits(servers.deep_view()),
        ensures
            ({
                let (selv, strat2, hist2) = spec_select(
                    StrategyV::LeastResponseTime,
                    servers.deep_view(),
                    old(source).tie_break(),
                    old(source).history(),
                );
                &&& sel@ == selv
                &&& final(source).tie_break() == old(source).tie_break()
                &&& final(source).history() == hist2
            }),
    {
        let ghost sv = servers.deep_view();
        let ghost key = lrt_key();
        let n = servers.len();

        proof {
            assert(sv[0].active_connections + 1 <= u64::MAX);
            assert(sv[0].base_latency_ms * (sv[0].active_connections + 1) <= u64::MAX);
        }
        let first = &servers[0];
        let mut best: u64 = first.base_latency_ms * (first.active_connections + 1);
        let mut candidates: Vec<usize> = Vec::new();
        candidates.push(0);
        proof {
            let t1 = sv.take(1);
            assert(t1.drop_last() =~= Seq::<ServerV>::empty());
            assert(t1.last() == sv[0]);
            assert(t1[0] == sv[0]);
            assert(key(sv[0]) == sv[0].base_latency_ms * (sv[0].active_connections + 1));
            assert(best as int == key(sv[0]));
            assert(min_key(t1, key) == key(sv[0]));
            assert(tied_at(Seq::<ServerV>::empty(), key, best as int) == Seq::<int>::empty());
            assert(tied_at(t1, key, best as int) == Seq::<int>::empty().push(0));
            assert(candidates@.map_values(|x: usize| x as int) =~= Seq::<int>::empty().push(0));
        }

        let mut i: usize = 1;
        while i < n
            invariant
                1 <= i <= n,
                n == sv.len(),
                sv == servers.deep_view(),
                key == lrt_key(),
                lrt_fits(sv),
                best as int == min_key(sv.take(i as int), key),
                candidates@.map_values(|x: usize| x as int) == tied_at(
                    sv.take(i as int),
                    key,
                    best as int,
                ),
                forall|t: int|
                    0 <= t < candidates@.len() ==> #[trigger] candidates@[t] < i,
            decreases n - i,
        {
            proof {
                assert(sv[i as int].active_connections + 1 <= u64::MAX);
                assert(sv[i as int].base_latency_ms * (sv[i as int].active_connections + 1)
                    <= u64::MAX);
            }
            let s = &servers[i];
            let score = s.base_latency_ms * (s.active_connections + 1);
            proof {
                assert(sv.take(i as int + 1).drop_last() =~= sv.take(i as int));
                assert(sv.take(i as int + 1).last() == sv[i as int]);
                assert(sv[i as int] == servers@[i as int]@);
                assert(sv[i as int].base_latency_ms == s.base_latency_ms as int);
                assert(sv[i as int].active_connections == s.active_connections as int);
                assert(key(sv[i as int]) == score as int);
            }
            if score < best {
                proof {
                    lemma_min_key_le(sv.take(i as int), key);
                    lemma_tied_at_none(sv.take(i as int), key, score as int);
                }
                best = score;
                candidates.clear();
                candidates.push(i);
                proof {
                    assert(candidates@.map_values(|x: usize| x as int) =~= tied_at(
                        sv.take(i as int + 1),
                        key,
                        best as int,
                    ));
                }
            } else if score == best {
                let ghost prev = candidates@.map_values(|x: usize| x as int);
                candidates.push(i);
                proof {
                    assert(candidates@.map_values(|x: usize| x as int) =~= prev.push(i as int));
                }
            } else {
                proof {
                    assert(candidates@.map_values(|x: usize| x as int) =~= tied_at(
                        sv.take(i as int + 1),
                        key,
                        best as int,
                    ));
                }
            }
            i = i + 1;
        }
        proof {
            assert(sv.take(n as int) =~= sv);
            lemma_candidates_nonempty(sv, key);
            lemma_tied_at_props(sv, key, best as int);
            assert(candidates@.len() == candidates_of(sv, key).len());
        }

        let choice: usize = if candidates.len() == 1 {
            candidates[0]
        } else {
            let bound = candidates.len() as u64;
            let d = source.draw(bound);
            candidates[d as usize]
        };

        Selection { server_id: choice, score: Some(best) }
    }
}

} // verus!
