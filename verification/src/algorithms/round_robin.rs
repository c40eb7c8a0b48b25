//! Round robin: servers take turns in input order, one request each.

use vstd::prelude::*;

use crate::algorithms::{spec_select, Selection, SelectionV, StrategyV};
use crate::models::ServerState;
use crate::tie::TieSource;

verus! {

/// One round-robin step: the chosen index and the cursor after the call.
pub open spec fn rr_step(next_idx: int, n: int) -> (int, int)
    recommends
        n > 0,
{
    let pick = next_idx % n;
    (pick, (pick + 1) % n)
}

pub proof fn lemma_rr_step_in_range(next_idx: int, n: int)
    requires
        n > 0,
    ensures
        0 <= rr_step(next_idx, n).0 < n,
{
}

/// Cycles through the servers in input order.  No ties arise, no
/// randomness is consulted, no score is reported.
pub struct RoundRobinStrategy {
    /// Cursor over the server indices; always below the server count once
    /// the strategy has been consulted.
    pub next_idx: usize,
}

impl Default for RoundRobinStrategy {
    fn default() -> (s: RoundRobinStrategy)
        ensures
            s.next_idx == 0,
    {
        RoundRobinStrategy { next_idx: 0 }
    }
}

impl RoundRobinStrategy {
    /// Chooses `next_idx % n`, then advances the cursor by one modulo `n`.
    pub fn select(&mut self, servers: &Vec<ServerState>, source: &mut TieSource) -> (sel:
        Selection)
        requires
            servers@.len() > 0,
        ensures
            ({
                let (selv, strat2, hist2) = spec_select(
                    StrategyV::RoundRobin { next_idx: old(self).next_idx as int },
                    servers.deep_view(),
                    old(source).tie_break(),
                    old(source).history(),
                );
                &&& sel@ == selv
                &&& StrategyV::RoundRobin { next_idx: final(self).next_idx as int } == strat2
                &&& final(source).tie_break() == old(source).tie_break()
                &&& final(source).history() == hist2
            }),
    {
        let n = servers.len();
        let idx = self.next_idx % n;
        self.next_idx = (idx + 1) % n;
        Selection { server_id: idx, score: None }
    }
}

} // verus!
