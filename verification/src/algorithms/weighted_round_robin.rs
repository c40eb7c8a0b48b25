//! Weighted round robin: a cursor walks the total weight space one step
//! per call, and the chosen server is the one whose cumulative weight
//! interval contains the cursor.  Over one full cycle of `total weight`
//! calls each server is chosen exactly `weight` times, evenly interleaved.

use vstd::prelude::*;

use crate::algorithms::{spec_select, Selection, SelectionV, StrategyV};
use crate::models::{ServerState, ServerV};
use crate::tie::TieSource;

verus! {

/// Sum of all server weights.
pub open spec fn total_weight(servers: Seq<ServerV>) -> int
    decreases servers.len(),
{
    if servers.len() == 0 {
        0
    } else {
        total_weight(servers.drop_last()) + servers.last().weight
    }
}

/// Weight mass of the first `i` servers.
pub open spec fn prefix_weight(servers: Seq<ServerV>, i: int) -> int {
    total_weight(servers.take(i))
}

/// Every server has a positive weight, as the input contract demands.
pub open spec fn weights_positive(servers: Seq<ServerV>) -> bool {
    forall|k: int| 0 <= k < servers.len() ==> (#[trigger] servers[k]).weight >= 1
}

/// The index owning the cursor position `target`, scanned from `from`:
/// the first index at or past `from` whose cumulative weight interval
/// reaches beyond `target`.
pub open spec fn wrr_index_from(servers: Seq<ServerV>, target: int, from: int) -> int
    decreases servers.len() - from,
{
    if from < 0 || from >= servers.len() {
        0
    } else if target < prefix_weight(servers, from + 1) {
        from
    } else {
        wrr_index_from(servers, target, from + 1)
    }
}

/// One weighted-round-robin step: the chosen index and the cursor after
/// the call.
pub open spec fn wrr_step(servers: Seq<ServerV>, cursor: int) -> (int, int)
    recommends
        total_weight(servers) > 0,
{
    let total = total_weight(servers);
    let target = cursor % total;
    (wrr_index_from(servers, target, 0), (target + 1) % total)
}

/// Prefix weights grow by one server's weight at a time.
pub proof fn lemma_prefix_weight_unfold(servers: Seq<ServerV>, i: int)
    requires
        0 <= i < servers.len(),
    ensures
        prefix_weight(servers, i + 1) == prefix_weight(servers, i) + servers[i].weight,
{
    assert(servers.take(i + 1).drop_last() =~= servers.take(i));
    assert(servers.take(i + 1).last() == servers[i]);
}

/// The whole list's prefix weight is the total weight.
pub proof fn lemma_prefix_weight_total(servers: Seq<ServerV>)
    ensures
        prefix_weight(servers, servers.len() as int) == total_weight(servers),
{
    assert(servers.take(servers.len() as int) =~= servers);
}

/// With positive weights, prefix weights are monotone.
pub proof fn lemma_prefix_weight_mono(servers: Seq<ServerV>, i: int, j: int)
    requires
        weights_positive(servers),
        0 <= i <= j <= servers.len(),
    ensures
        prefix_weight(servers, i) <= prefix_weight(servers, j),
    decreases j - i,
{
    if i < j {
        lemma_prefix_weight_unfold(servers, j - 1);
        lemma_prefix_weight_mono(servers, i, j - 1);
    }
}

/// A target inside the weight space is owned by an index in range.
pub proof fn lemma_wrr_index_from_in_range(servers: Seq<ServerV>, target: int, from: int)
    requires
        0 <= from <= servers.len(),
        prefix_weight(servers, from) <= target < total_weight(servers),
    ensures
        from <= wrr_index_from(servers, target, from) < servers.len(),
    decreases servers.len() - from,
{
    lemma_prefix_weight_total(servers);
    if from < servers.len() {
        if target < prefix_weight(servers, from + 1) {
        } else {
            lemma_wrr_index_from_in_range(servers, target, from + 1);
        }
    }
}

/// The total weight depends on the weights alone.
pub proof fn lemma_total_weight_pointwise(a: Seq<ServerV>, b: Seq<ServerV>)
    requires
        a.len() == b.len(),
        forall|i: int| 0 <= i < a.len() ==> (#[trigger] a[i]).weight == b[i].weight,
    ensures
        total_weight(a) == total_weight(b),
    decreases a.len(),
{
    if a.len() > 0 {
        let da = a.drop_last();
        let db = b.drop_last();
        assert forall|i: int| 0 <= i < da.len() implies da[i].weight == db[i].weight by {
            assert(da[i] == a[i]);
            assert(db[i] == b[i]);
        }
        lemma_total_weight_pointwise(da, db);
        assert(a.last() == a[a.len() - 1]);
        assert(b.last() == b[b.len() - 1]);
    }
}

/// With positive weights the weight space is non-empty.
pub proof fn lemma_total_weight_positive(servers: Seq<ServerV>)
    requires
        servers.len() > 0,
        weights_positive(servers),
    ensures
        total_weight(servers) >= 1,
{
    lemma_prefix_weight_total(servers);
    lemma_prefix_weight_unfold(servers, 0);
    assert(servers.take(0) =~= Seq::<ServerV>::empty());
    assert(prefix_weight(servers, 0) == 0);
    assert(servers[0].weight >= 1);
    lemma_prefix_weight_mono(servers, 1, servers.len() as int);
}

pub proof fn lemma_wrr_step_in_range(servers: Seq<ServerV>, cursor: int)
    requires
        servers.len() > 0,
        weights_positive(servers),
    ensures
        0 <= wrr_step(servers, cursor).0 < servers.len(),
{
    let total = total_weight(servers);
    lemma_total_weight_positive(servers);
    assert(servers.take(0) =~= Seq::<ServerV>::empty());
    assert(prefix_weight(servers, 0) == 0);
    lemma_wrr_index_from_in_range(servers, cursor % total, 0);
}

/// Walks the cumulative weight intervals; the interval boundaries are
/// taken in input order.  No randomness is consulted, no score reported.
pub struct WeightedRoundRobinStrategy {
    /// Cursor over `[0, total weight)`; always inside that range once the
    /// strategy has been consulted.
    pub cursor: u64,
}

impl Default for WeightedRoundRobinStrategy {
    fn default() -> (s: WeightedRoundRobinStrategy)
        ensures
            s.cursor == 0,
    {
        WeightedRoundRobinStrategy { cursor: 0 }
    }
}

impl WeightedRoundRobinStrategy {
    /// Chooses the server whose weight interval contains the cursor, then
    /// advances the cursor by one modulo the total weight.
    pub fn select(&mut self, servers: &Vec<ServerState>, source: &mut TieSource) -> (sel:
        Selection)
        requires
            servers@.len() > 0,
            total_weight(servers.deep_view()) <= u64::MAX,
            weights_positive(servers.deep_view()),
        ensures
            ({
                let (selv, strat2, hist2) = spec_select(
                    StrategyV::WeightedRoundRobin { cursor: old(self).cursor as int },
                    servers.deep_view(),
                    old(source).tie_break(),
                    old(source).history(),
                );
                &&& sel@ == selv
                &&& StrategyV::WeightedRoundRobin { cursor: final(self).cursor as int } == strat2
                &&& final(source).tie_break() == old(source).tie_break()
                &&& final(source).history() == hist2
            }),
    {
        let ghost sv = servers.deep_view();
        let n = servers.len();

        let mut total: u64 = 0;
        let mut i: usize = 0;
        while i < n
            invariant
                0 <= i <= n,
                n == sv.len(),
                sv == servers.deep_view(),
                total == prefix_weight(sv, i as int),
                total_weight(sv) <= u64::MAX,
                weights_positive(sv),
            decreases n - i,
        {
            proof {
                lemma_prefix_weight_unfold(sv, i as int);
                lemma_prefix_weight_mono(sv, i as int + 1, sv.len() as int);
                lemma_prefix_weight_total(sv);
            }
            total = total + servers[i].weight;
            i = i + 1;
        }
        proof {
            lemma_prefix_weight_total(sv);
            lemma_total_weight_positive(sv);
        }

        let target = self.cursor % total;
        self.cursor = (target + 1) % total;

        let mut cumulative: u64 = 0;
        let mut selected: usize = 0;
        let mut found = false;
        let mut idx: usize = 0;
        while idx < n
            invariant
                0 <= idx <= n,
                n == sv.len(),
                sv == servers.deep_view(),
                total == total_weight(sv),
                target < total,
                weights_positive(sv),
                !found ==> {
                    &&& cumulative == prefix_weight(sv, idx as int)
                    &&& cumulative <= target
                    &&& wrr_index_from(sv, target as int, 0) == wrr_index_from(
                        sv,
                        target as int,
                        idx as int,
                    )
                },
                found ==> selected as int == wrr_index_from(sv, target as int, 0),
                found ==> selected < n,
            decreases n - idx,
        {
            if !found {
                proof {
                    lemma_prefix_weight_unfold(sv, idx as int);
                    lemma_prefix_weight_mono(sv, idx as int + 1, sv.len() as int);
                    lemma_prefix_weight_total(sv);
                }
                cumulative = cumulative + servers[idx].weight;
                if target < cumulative {
                    selected = idx;
                    found = true;
                }
            }
            idx = idx + 1;
        }
        proof {
            if !found {
                lemma_prefix_weight_total(sv);
            }
        }

        Selection { server_id: selected, score: None }
    }
}

} // verus!
