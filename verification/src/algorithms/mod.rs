//! The pluggable request-selection strategies.
//!
//! Each strategy, given the current server states and a tie-break source,
//! returns the index of the chosen server and, where meaningful, the score
//! behind the decision.  Strategies never mutate server state; only the
//! engine does, after receiving the decision.

use vstd::prelude::*;

use crate::models::{Algorithm, ServerState, ServerV, TieBreak};
use crate::tie::{draw_index, TieSource};

pub mod least_connections;
pub mod least_response_time;
pub mod round_robin;
pub mod weighted_round_robin;

pub use least_connections::LeastConnectionsStrategy;
pub use least_response_time::LeastResponseTimeStrategy;
pub use round_robin::RoundRobinStrategy;
pub use weighted_round_robin::WeightedRoundRobinStrategy;

use least_connections::lc_key;
use least_response_time::lrt_key;
use round_robin::rr_step;
use weighted_round_robin::wrr_step;

verus! {

/// A strategy's decision: the index of the chosen server and, for
/// score-based strategies, the decision metric.
pub struct Selection {
    pub server_id: usize,
    pub score: Option<u64>,
}

/// Mathematical view of a [`Selection`].
#[verifier::ext_equal]
pub ghost struct SelectionV {
    pub server_id: int,
    pub score: Option<int>,
}

impl View for Selection {
    type V = SelectionV;

    open spec fn view(&self) -> SelectionV {
        SelectionV {
            server_id: self.server_id as int,
            score: match self.score {
                Some(s) => Some(s as int),
                None => None,
            },
        }
    }
}

/// Mathematical view of a [`Strategy`]: the algorithm together with its
/// cross-call state.
pub ghost enum StrategyV {
    RoundRobin { next_idx: int },
    WeightedRoundRobin { cursor: int },
    LeastConnections,
    LeastResponseTime,
}

/// The smallest value `key` takes over a non-empty server list.
pub open spec fn min_key(servers: Seq<ServerV>, key: spec_fn(ServerV) -> int) -> int
    decreases servers.len(),
{
    if servers.len() <= 1 {
        key(servers[0])
    } else {
        let m = min_key(servers.drop_last(), key);
        let k = key(servers.last());
        if k < m {
            k
        } else {
            m
        }
    }
}

/// The indices whose server has `key` equal to `m`, in ascending order.
pub open spec fn tied_at(servers: Seq<ServerV>, key: spec_fn(ServerV) -> int, m: int) -> Seq<
    int,
>
    decreases servers.len(),
{
    if servers.len() == 0 {
        Seq::empty()
    } else {
        let p = tied_at(servers.drop_last(), key, m);
        if key(servers.last()) == m {
            p.push(servers.len() - 1)
        } else {
            p
        }
    }
}

/// The candidate set of a minimizing strategy: every index tied at the
/// minimum key.
pub open spec fn candidates_of(servers: Seq<ServerV>, key: spec_fn(ServerV) -> int) -> Seq<
    int,
> {
    tied_at(servers, key, min_key(servers, key))
}

/// `min_key` is a lower bound of `key` over the list.
pub proof fn lemma_min_key_le(servers: Seq<ServerV>, key: spec_fn(ServerV) -> int)
    requires
        servers.len() > 0,
    ensures
        forall|j: int|
            0 <= j < servers.len() ==> min_key(servers, key) <= key(#[trigger] servers[j]),
    decreases servers.len(),
{
    if servers.len() > 1 {
        let dl = servers.drop_last();
        lemma_min_key_le(dl, key);
        assert forall|j: int|
            0 <= j < servers.len() implies min_key(servers, key) <= key(servers[j]) by {
            if j < servers.len() - 1 {
                assert(dl[j] == servers[j]);
                assert(min_key(dl, key) <= key(dl[j]));
            } else {
                assert(servers[j] == servers.last());
            }
        }
    }
}

/// Every tied index is in range and its key is exactly `m`.
pub proof fn lemma_tied_at_props(servers: Seq<ServerV>, key: spec_fn(ServerV) -> int, m: int)
    ensures
        forall|t: int|
            0 <= t < tied_at(servers, key, m).len() ==> {
                &&& 0 <= #[trigger] tied_at(servers, key, m)[t] < servers.len()
                &&& key(servers[tied_at(servers, key, m)[t]]) == m
            },
    decreases servers.len(),
{
    if servers.len() > 0 {
        let dl = servers.drop_last();
        let p = tied_at(dl, key, m);
        let c = tied_at(servers, key, m);
        lemma_tied_at_props(dl, key, m);
        assert forall|t: int|
            0 <= t < c.len() implies {
                &&& 0 <= c[t] < servers.len()
                &&& key(servers[c[t]]) == m
            } by {
            if t < p.len() {
                assert(c[t] == p[t]);
                assert(0 <= p[t] < dl.len());
                assert(dl[p[t]] == servers[p[t]]);
            } else {
                assert(key(servers.last()) == m);
                assert(c[t] == servers.len() - 1);
                assert(servers[c[t]] == servers.last());
            }
        }
    }
}

/// No index is tied at a value the list never takes.
pub proof fn lemma_tied_at_none(servers: Seq<ServerV>, key: spec_fn(ServerV) -> int, m: int)
    requires
        forall|j: int| 0 <= j < servers.len() ==> key(#[trigger] servers[j]) != m,
    ensures
        tied_at(servers, key, m) == Seq::<int>::empty(),
    decreases servers.len(),
{
    if servers.len() > 0 {
        let dl = servers.drop_last();
        assert forall|j: int| 0 <= j < dl.len() implies key(dl[j]) != m by {
            assert(dl[j] == servers[j]);
        }
        lemma_tied_at_none(dl, key, m);
        assert(key(servers.last()) != m);
    }
}

/// At least one index attains the minimum key.
pub proof fn lemma_candidates_nonempty(servers: Seq<ServerV>, key: spec_fn(ServerV) -> int)
    requires
        servers.len() > 0,
    ensures
        candidates_of(servers, key).len() >= 1,
    decreases servers.len(),
{
    let m = min_key(servers, key);
    if servers.len() == 1 {
        assert(servers.last() == servers[0]);
        assert(m == key(servers[0]));
        assert(servers.drop_last() =~= Seq::<ServerV>::empty());
        assert(tied_at(Seq::<ServerV>::empty(), key, m) == Seq::<int>::empty());
    } else {
        let dl = servers.drop_last();
        let mp = min_key(dl, key);
        if key(servers.last()) == m {
        } else {
            assert(m == mp);
            lemma_candidates_nonempty(dl, key);
        }
    }
}

/// How a strategy resolves a tie over its candidate set: a single candidate
/// is taken as is; otherwise one bounded index is drawn.
pub open spec fn tie_pick(cands: Seq<int>, mode: TieBreak, hist: Seq<u64>) -> (int, Seq<u64>) {
    if cands.len() == 1 {
        (cands[0], hist)
    } else {
        let bound = cands.len() as u64;
        let d = draw_index(mode, hist, bound);
        (cands[d as int], hist.push(bound))
    }
}

/// One strategy invocation, as a mathematical function: the decision, the
/// strategy state after the call, and the draw history after the call.
pub open spec fn spec_select(
    s: StrategyV,
    servers: Seq<ServerV>,
    mode: TieBreak,
    hist: Seq<u64>,
) -> (SelectionV, StrategyV, Seq<u64>) {
    match s {
        StrategyV::RoundRobin { next_idx } => {
            let (pick, next2) = rr_step(next_idx, servers.len() as int);
            (
                SelectionV { server_id: pick, score: None },
                StrategyV::RoundRobin { next_idx: next2 },
                hist,
            )
        },
        StrategyV::WeightedRoundRobin { cursor } => {
            let (pick, cursor2) = wrr_step(servers, cursor);
            (
                SelectionV { server_id: pick, score: None },
                StrategyV::WeightedRoundRobin { cursor: cursor2 },
                hist,
            )
        },
        StrategyV::LeastConnections => {
            let (pick, hist2) = tie_pick(candidates_of(servers, lc_key()), mode, hist);
            (SelectionV { server_id: pick, score: None }, s, hist2)
        },
        StrategyV::LeastResponseTime => {
            let (pick, hist2) = tie_pick(candidates_of(servers, lrt_key()), mode, hist);
            (
                SelectionV { server_id: pick, score: Some(min_key(servers, lrt_key())) },
                s,
                hist2,
            )
        },
    }
}

/// The chosen index is always in range.
pub proof fn lemma_spec_select_in_range(
    s: StrategyV,
    servers: Seq<ServerV>,
    mode: TieBreak,
    hist: Seq<u64>,
)
    requires
        servers.len() > 0,
        s is WeightedRoundRobin ==> weighted_round_robin::weights_positive(servers),
    ensures
        0 <= spec_select(s, servers, mode, hist).0.server_id < servers.len(),
{
    match s {
        StrategyV::RoundRobin { next_idx } => {
            round_robin::lemma_rr_step_in_range(next_idx, servers.len() as int);
        },
        StrategyV::WeightedRoundRobin { cursor } => {
            weighted_round_robin::lemma_wrr_step_in_range(servers, cursor);
        },
        StrategyV::LeastConnections => {
            lemma_tie_pick_in_range(servers, lc_key(), mode, hist);
        },
        StrategyV::LeastResponseTime => {
            lemma_tie_pick_in_range(servers, lrt_key(), mode, hist);
        },
    }
}

/// A tie over the minimizing candidates resolves to an index in range whose
/// key is the minimum.
pub proof fn lemma_tie_pick_in_range(
    servers: Seq<ServerV>,
    key: spec_fn(ServerV) -> int,
    mode: TieBreak,
    hist: Seq<u64>,
)
    requires
        servers.len() > 0,
    ensures
        ({
            let pick = tie_pick(candidates_of(servers, key), mode, hist).0;
            &&& 0 <= pick < servers.len()
            &&& key(servers[pick]) == min_key(servers, key)
        }),
{
    let cands = candidates_of(servers, key);
    lemma_candidates_nonempty(servers, key);
    lemma_tied_at_props(servers, key, min_key(servers, key));
    if cands.len() != 1 {
        let bound = cands.len() as u64;
        let d = draw_index(mode, hist, bound);
        assert((d as int) < cands.len());
    }
}

/// The state machine form of the four strategies, dispatched as a closed
/// sum type.
pub enum Strategy {
    RoundRobin(RoundRobinStrategy),
    WeightedRoundRobin(WeightedRoundRobinStrategy),
    LeastConnections(LeastConnectionsStrategy),
    LeastResponseTime(LeastResponseTimeStrategy),
}

impl View for Strategy {
    type V = StrategyV;

    open spec fn view(&self) -> StrategyV {
        match self {
            Strategy::RoundRobin(s) => StrategyV::RoundRobin { next_idx: s.next_idx as int },
            Strategy::WeightedRoundRobin(s) => StrategyV::WeightedRoundRobin {
                cursor: s.cursor as int,
            },
            Strategy::LeastConnections(_) => StrategyV::LeastConnections,
            Strategy::LeastResponseTime(_) => StrategyV::LeastResponseTime,
        }
    }
}

/// The state a strategy starts a run with.
pub open spec fn initial_strategy(algo: Algorithm) -> StrategyV {
    match algo {
        Algorithm::RoundRobin => StrategyV::RoundRobin { next_idx: 0 },
        Algorithm::WeightedRoundRobin => StrategyV::WeightedRoundRobin { cursor: 0 },
        Algorithm::LeastConnections => StrategyV::LeastConnections,
        Algorithm::LeastResponseTime => StrategyV::LeastResponseTime,
    }
}

/// A fresh strategy instance for the given algorithm.
pub fn build_strategy(algo: Algorithm) -> (s: Strategy)
    ensures
        s@ == initial_strategy(algo),
{
    match algo {
        Algorithm::RoundRobin => Strategy::RoundRobin(RoundRobinStrategy { next_idx: 0 }),
        Algorithm::WeightedRoundRobin => Strategy::WeightedRoundRobin(
            WeightedRoundRobinStrategy { cursor: 0 },
        ),
        Algorithm::LeastConnections => Strategy::LeastConnections(LeastConnectionsStrategy),
        Algorithm::LeastResponseTime => Strategy::LeastResponseTime(LeastResponseTimeStrategy),
    }
}

/// The overflow bounds a strategy invocation needs from its caller.
pub open spec fn select_fits(s: StrategyV, servers: Seq<ServerV>) -> bool {
    match s {
        StrategyV::WeightedRoundRobin { .. } => {
            &&& weighted_round_robin::total_weight(servers) <= u64::MAX
            &&& weighted_round_robin::weights_positive(servers)
        },
        StrategyV::LeastResponseTime { .. } => least_response_time::lrt_fits(servers),
        _ => true,
    }
}

impl Strategy {
    /// Consult the strategy once: the returned selection, the strategy's
    /// state change and the draws made are exactly those of
    /// [`spec_select`] on the current server states.
    pub fn select(&mut self, servers: &Vec<ServerState>, source: &mut TieSource) -> (sel:
        Selection)
        requires
            servers@.len() > 0,
            select_fits(old(self)@, servers.deep_view()),
        ensures
            ({
                let (selv, strat2, hist2) = spec_select(
                    old(self)@,
                    servers.deep_view(),
                    old(source).tie_break(),
                    old(source).history(),
                );
                &&& sel@ == selv
                &&& final(self)@ == strat2
                &&& final(source).tie_break() == old(source).tie_break()
                &&& final(source).history() == hist2
                &&& 0 <= selv.server_id < servers@.len()
            }),
    {
        proof {
            lemma_spec_select_in_range(
                self@,
                servers.deep_view(),
                source.tie_break(),
                source.history(),
            );
        }
        match *self {
            Strategy::RoundRobin(RoundRobinStrategy { next_idx }) => {
                let mut s = RoundRobinStrategy { next_idx };
                let sel = s.select(servers, source);
                *self = Strategy::RoundRobin(s);
                sel
            },
            Strategy::WeightedRoundRobin(WeightedRoundRobinStrategy { cursor }) => {
                let mut s = WeightedRoundRobinStrategy { cursor };
                let sel = s.select(servers, source);
                *self = Strategy::WeightedRoundRobin(s);
                sel
            },
            Strategy::LeastConnections(_) => {
                let mut s = LeastConnectionsStrategy;
                let sel = s.select(servers, source);
                sel
            },
            Strategy::LeastResponseTime(_) => {
                let mut s = LeastResponseTimeStrategy;
                let sel = s.select(servers, source);
                sel
            },
        }
    }
}

} // verus!
