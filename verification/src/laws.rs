//! System-wide guarantees, proved over the run specification.
//!
//! [`crate::engine::SimulationEngine::run`] returns exactly
//! [`crate::engine::spec_run`] on its configuration and initial strategy
//! state, so everything proved here of `spec_run` holds of every
//! successful run.

use vstd::prelude::*;

use crate::algorithms::least_connections::lc_key;
use crate::algorithms::{
    lemma_min_key_le, lemma_tie_pick_in_range, spec_select, StrategyV,
};
use crate::engine::{
    drain, ids_distinct, init_state, inv_state, lemma_init_state_inv, lemma_step_measure,
    lemma_step_preserves_inv, measure, spec_run, step, wf_servers, StateV,
};
use crate::models::{AssignmentV, ConfigV, ServerSummaryV, ServerV, SimulationResultV, TieBreak};

verus! {

/// Determinism: with the stable tie-break, any two results that satisfy
/// the run contract for the same configuration and initial strategy state
/// have identical assignments and summaries.  The content lies in the run
/// contract itself: a result equals `spec_run`, a function of the
/// configuration and strategy state alone.
pub proof fn lemma_stable_determinism(
    c: ConfigV,
    s0: StrategyV,
    r1: SimulationResultV,
    r2: SimulationResultV,
)
    requires
        c.tie_break is Stable,
        r1 == spec_run(c, s0),
        r2 == spec_run(c, s0),
    ensures
        r1.assignments == r2.assignments,
        r1.totals == r2.totals,
{
}

/// Seed reproducibility: with a seeded tie-break, two runs of the same
/// configuration — hence the same seed — and the same initial strategy
/// state produce identical assignments.
pub proof fn lemma_seed_reproducibility(
    c: ConfigV,
    s0: StrategyV,
    seed: u64,
    r1: SimulationResultV,
    r2: SimulationResultV,
)
    requires
        c.tie_break == TieBreak::Seeded(seed),
        r1 == spec_run(c, s0),
        r2 == spec_run(c, s0),
    ensures
        r1.assignments == r2.assignments,
{
}

/// Draining preserves the run invariant and empties the queue.
pub proof fn lemma_drain_inv(c: ConfigV, st: StateV)
    requires
        inv_state(c, st),
    ensures
        inv_state(c, drain(st)),
        drain(st).queue.len() == 0,
    decreases measure(st),
{
    crate::engine::lemma_arrivals_in_nonneg(st.queue);
    if st.queue.len() > 0 {
        lemma_step_preserves_inv(c, st);
        lemma_step_measure(st);
        lemma_drain_inv(c, step(st));
    }
}

// ---------------------------------------------------------------------------
// Conservation
// ---------------------------------------------------------------------------

/// Sum of the summaries' request counters.
pub open spec fn sum_requests(totals: Seq<ServerSummaryV>) -> int
    decreases totals.len(),
{
    if totals.len() == 0 {
        0
    } else {
        sum_requests(totals.drop_last()) + totals.last().requests
    }
}

/// Sum, over the servers, of the assignments counted towards each.
pub open spec fn sum_counts(servers: Seq<ServerV>, assignments: Seq<AssignmentV>) -> int
    decreases servers.len(),
{
    if servers.len() == 0 {
        0
    } else {
        sum_counts(servers.drop_last(), assignments) + crate::engine::count_assigned(
            assignments,
            servers.last().id,
        )
    }
}

/// How many servers carry the given id.
pub open spec fn occurrences(servers: Seq<ServerV>, id: int) -> int
    decreases servers.len(),
{
    if servers.len() == 0 {
        0
    } else {
        occurrences(servers.drop_last(), id) + if servers.last().id == id {
            1int
        } else {
            0int
        }
    }
}

proof fn lemma_occurrences_none(servers: Seq<ServerV>, id: int)
    requires
        forall|j: int| 0 <= j < servers.len() ==> (#[trigger] servers[j]).id != id,
    ensures
        occurrences(servers, id) == 0,
    decreases servers.len(),
{
    if servers.len() > 0 {
        let dl = servers.drop_last();
        assert forall|j: int| 0 <= j < dl.len() implies dl[j].id != id by {
            assert(dl[j] == servers[j]);
        }
        lemma_occurrences_none(dl, id);
        assert(servers.last() == servers[servers.len() - 1]);
    }
}

proof fn lemma_occurrences_unique(servers: Seq<ServerV>, id: int)
    requires
        ids_distinct(servers),
        exists|i: int| 0 <= i < servers.len() && (#[trigger] servers[i]).id == id,
    ensures
        occurrences(servers, id) == 1,
    decreases servers.len(),
{
    let i = choose|i: int| 0 <= i < servers.len() && (#[trigger] servers[i]).id == id;
    let dl = servers.drop_last();
    if servers.last().id == id {
        assert forall|j: int| 0 <= j < dl.len() implies dl[j].id != id by {
            assert(dl[j] == servers[j]);
            assert(servers[j].id != servers[servers.len() - 1].id);
        }
        lemma_occurrences_none(dl, id);
    } else {
        assert(i < servers.len() - 1);
        assert(dl[i] == servers[i]);
        assert(ids_distinct(dl)) by {
            assert forall|a: int, b: int|
                0 <= a < b < dl.len() implies dl[a].id != dl[b].id by {
                assert(dl[a] == servers[a]);
                assert(dl[b] == servers[b]);
            }
        }
        lemma_occurrences_unique(dl, id);
        assert(servers.last() == servers[servers.len() - 1]);
    }
}

proof fn lemma_sum_counts_empty(servers: Seq<ServerV>)
    ensures
        sum_counts(servers, Seq::<AssignmentV>::empty()) == 0,
    decreases servers.len(),
{
    if servers.len() > 0 {
        lemma_sum_counts_empty(servers.drop_last());
    }
}

proof fn lemma_sum_counts_push(servers: Seq<ServerV>, assignments: Seq<AssignmentV>, a: AssignmentV)
    ensures
        sum_counts(servers, assignments.push(a)) == sum_counts(servers, assignments)
            + occurrences(servers, a.server_id),
    decreases servers.len(),
{
    assert(assignments.push(a).drop_last() =~= assignments);
    if servers.len() > 0 {
        lemma_sum_counts_push(servers.drop_last(), assignments, a);
    }
}

/// With pairwise distinct ids and every assignment naming a configured
/// server, the per-server counts partition the assignment list.
proof fn lemma_count_partition(servers: Seq<ServerV>, assignments: Seq<AssignmentV>)
    requires
        ids_distinct(servers),
        forall|k: int|
            0 <= k < assignments.len() ==> exists|i: int|
                0 <= i < servers.len() && (#[trigger] assignments[k]).server_id == (
                #[trigger] servers[i]).id,
    ensures
        sum_counts(servers, assignments) == assignments.len(),
    decreases assignments.len(),
{
    if assignments.len() == 0 {
        assert(assignments =~= Seq::<AssignmentV>::empty());
        lemma_sum_counts_empty(servers);
    } else {
        let p = assignments.drop_last();
        let a = assignments.last();
        assert forall|k: int|
            0 <= k < p.len() implies exists|i: int|
                0 <= i < servers.len() && (#[trigger] p[k]).server_id == (
                #[trigger] servers[i]).id by {
            assert(p[k] == assignments[k]);
        }
        lemma_count_partition(servers, p);
        assert(assignments =~= p.push(a));
        lemma_sum_counts_push(servers, p, a);
        assert(exists|i: int|
            0 <= i < servers.len() && (#[trigger] servers[i]).id == a.server_id) by {
            let i = choose|i: int|
                0 <= i < servers.len() && (#[trigger] assignments[assignments.len() - 1]).server_id
                    == (#[trigger] servers[i]).id;
            assert(servers[i].id == a.server_id);
        }
        lemma_occurrences_unique(servers, a.server_id);
    }
}

/// The summaries' counters sum like the per-server counts.
proof fn lemma_sum_requests_of_summaries(servers: Seq<ServerV>, assignments: Seq<AssignmentV>)
    ensures
        sum_requests(crate::engine::summaries_of(servers, assignments)) == sum_counts(
            servers,
            assignments,
        ),
    decreases servers.len(),
{
    let s = crate::engine::summaries_of(servers, assignments);
    if servers.len() > 0 {
        let dl = servers.drop_last();
        assert(s.drop_last() =~= crate::engine::summaries_of(dl, assignments));
        assert(s.last().requests == crate::engine::count_assigned(
            assignments,
            servers.last().id,
        )) by {
            assert(servers.last() == servers[servers.len() - 1]);
        }
        lemma_sum_requests_of_summaries(dl, assignments);
    }
}

/// Conservation: over every algorithm and valid configuration, the
/// per-server request counters of the summaries sum to the request count.
pub proof fn lemma_conservation(c: ConfigV, s0: StrategyV)
    requires
        c.servers.len() >= 1,
        c.requests >= 1,
        wf_servers(c.servers),
        ids_distinct(c.servers),
    ensures
        sum_requests(spec_run(c, s0).totals) == c.requests,
        spec_run(c, s0).assignments.len() == c.requests,
{
    lemma_init_state_inv(c, s0);
    lemma_drain_inv(c, init_state(c, s0));
    let fin = drain(init_state(c, s0));
    assert(fin.assignments.len() == c.requests);
    assert(ids_distinct(fin.servers)) by {
        assert forall|a: int, b: int|
            0 <= a < b < fin.servers.len() implies fin.servers[a].id != fin.servers[b].id by {
            assert(fin.servers[a].id == c.servers[a].id);
            assert(fin.servers[b].id == c.servers[b].id);
        }
    }
    assert forall|k: int|
        0 <= k < fin.assignments.len() implies exists|i: int|
            0 <= i < fin.servers.len() && (#[trigger] fin.assignments[k]).server_id == (
            #[trigger] fin.servers[i]).id by {
        assert(crate::engine::assigned_id_ok(c, fin.assignments[k]));
        let i = choose|i: int|
            0 <= i < c.servers.len() && fin.assignments[k].server_id == (
            #[trigger] c.servers[i]).id;
        assert(fin.servers[i].id == c.servers[i].id);
    }
    lemma_count_partition(fin.servers, fin.assignments);
    lemma_sum_requests_of_summaries(fin.servers, fin.assignments);
}

// ---------------------------------------------------------------------------
// Round-robin fairness
// ---------------------------------------------------------------------------

/// What stays true throughout a round-robin run started on a fresh
/// cursor: the cursor equals the number of routed requests modulo the
/// server count, and the recorded assignments cycle through the servers
/// in input order.
pub open spec fn rr_inv(c: ConfigV, st: StateV) -> bool {
    let n = c.servers.len() as int;
    &&& st.strategy == StrategyV::RoundRobin { next_idx: st.assignments.len() as int % n }
    &&& forall|k: int|
        0 <= k < st.assignments.len() ==> (#[trigger] st.assignments[k]).server_id == c.servers[k
            % n].id
}

proof fn lemma_step_preserves_rr(c: ConfigV, st: StateV)
    requires
        inv_state(c, st),
        rr_inv(c, st),
        st.queue.len() > 0,
    ensures
        rr_inv(c, step(st)),
{
    let n = c.servers.len() as int;
    crate::events::lemma_earliest_index(st.queue);
    let k = crate::events::earliest_index(st.queue);
    let ev = st.queue[k];
    match ev.event {
        crate::events::Event::RequestComplete { .. } => {
        },
        crate::events::Event::RequestArrival(req) => {
            let a = st.assignments.len() as int;
            vstd::arithmetic::div_mod::lemma_mod_twice(a, n);
            vstd::arithmetic::div_mod::lemma_add_mod_noop_right(1, a, n);
            let st2 = step(st);
            assert(st2.assignments.drop_last() =~= st.assignments);
            assert((a % n + 1) % n == (a + 1) % n);
            assert forall|kk: int|
                0 <= kk < st2.assignments.len() implies (
            #[trigger] st2.assignments[kk]).server_id == c.servers[kk % n].id by {
                if kk < a {
                    assert(st2.assignments[kk] == st.assignments[kk]);
                } else {
                    assert(st2.assignments[kk] == st2.assignments.last());
                    assert(0 <= a % n < n);
                }
            }
        },
    }
}

proof fn lemma_drain_rr(c: ConfigV, st: StateV)
    requires
        inv_state(c, st),
        rr_inv(c, st),
    ensures
        inv_state(c, drain(st)),
        rr_inv(c, drain(st)),
        drain(st).queue.len() == 0,
    decreases measure(st),
{
    crate::engine::lemma_arrivals_in_nonneg(st.queue);
    if st.queue.len() > 0 {
        lemma_step_preserves_inv(c, st);
        lemma_step_preserves_rr(c, st);
        lemma_step_measure(st);
        lemma_drain_rr(c, step(st));
    }
}

/// How many of the first `r` cycling assignments land on index `i`.
pub open spec fn mod_count(r: int, n: int, i: int) -> int
    decreases r,
{
    if r <= 0 {
        0
    } else {
        mod_count(r - 1, n, i) + if (r - 1) % n == i {
            1int
        } else {
            0int
        }
    }
}

proof fn lemma_count_mod(assignments: Seq<AssignmentV>, servers: Seq<ServerV>, i: int)
    requires
        servers.len() >= 1,
        ids_distinct(servers),
        0 <= i < servers.len(),
        forall|k: int|
            0 <= k < assignments.len() ==> (#[trigger] assignments[k]).server_id == servers[k
                % servers.len() as int].id,
    ensures
        crate::engine::count_assigned(assignments, servers[i].id) == mod_count(
            assignments.len() as int,
            servers.len() as int,
            i,
        ),
    decreases assignments.len(),
{
    let n = servers.len() as int;
    if assignments.len() > 0 {
        let p = assignments.drop_last();
        assert forall|k: int|
            0 <= k < p.len() implies (#[trigger] p[k]).server_id == servers[k % n].id by {
            assert(p[k] == assignments[k]);
        }
        lemma_count_mod(p, servers, i);
        let last = assignments.last();
        let r = assignments.len() as int;
        assert(last == assignments[r - 1]);
        assert(last.server_id == servers[(r - 1) % n].id);
        assert(0 <= (r - 1) % n < n);
        if (r - 1) % n == i {
            assert(last.server_id == servers[i].id);
        } else {
            assert(servers[(r - 1) % n].id != servers[i].id);
        }
    }
}

proof fn lemma_mod_count_formula(r: int, n: int, i: int)
    requires
        r >= 0,
        n >= 1,
        0 <= i < n,
    ensures
        mod_count(r, n, i) == r / n + if i < r % n {
            1int
        } else {
            0int
        },
    decreases r,
{
    if r == 0 {
        vstd::arithmetic::div_mod::lemma_fundamental_div_mod_converse(0, n, 0, 0);
    } else {
        lemma_mod_count_formula(r - 1, n, i);
        vstd::arithmetic::div_mod::lemma_fundamental_div_mod(r - 1, n);
        let q = (r - 1) / n;
        let m = (r - 1) % n;
        assert(r - 1 == q * n + m);
        assert(0 <= m < n);
        if m + 1 < n {
            vstd::arithmetic::div_mod::lemma_fundamental_div_mod_converse(r, n, q, m + 1);
            assert(r / n == q);
            assert(r % n == m + 1);
        } else {
            assert(m == n - 1);
            assert((q + 1) * n == q * n + n) by {
                vstd::arithmetic::mul::lemma_mul_is_distributive_add_other_way(n, q, 1);
            }
            vstd::arithmetic::div_mod::lemma_fundamental_div_mod_converse(r, n, q + 1, 0);
            assert(r / n == q + 1);
            assert(r % n == 0);
        }
    }
}

/// Round-robin fairness: on a fresh round-robin strategy the assignments
/// cycle through the servers in input order, and every server's request
/// counter is `⌊requests / n⌋` or `⌈requests / n⌉` — exactly one more for
/// the first `requests mod n` servers.
pub proof fn lemma_round_robin_fairness(c: ConfigV)
    requires
        c.servers.len() >= 1,
        c.requests >= 1,
        wf_servers(c.servers),
        ids_distinct(c.servers),
    ensures
        ({
            let res = spec_run(c, StrategyV::RoundRobin { next_idx: 0 });
            let n = c.servers.len() as int;
            &&& res.assignments.len() == c.requests
            &&& forall|k: int|
                0 <= k < res.assignments.len() ==> (#[trigger] res.assignments[k]).server_id
                    == c.servers[k % n].id
            &&& forall|i: int|
                0 <= i < n ==> (#[trigger] res.totals[i]).requests == c.requests / n + if i
                    < c.requests % n {
                    1int
                } else {
                    0int
                }
        }),
{
    let s0 = StrategyV::RoundRobin { next_idx: 0 };
    let n = c.servers.len() as int;
    let st0 = init_state(c, s0);
    lemma_init_state_inv(c, s0);
    vstd::arithmetic::div_mod::lemma_fundamental_div_mod_converse(0, n, 0, 0);
    assert(rr_inv(c, st0));
    lemma_drain_rr(c, st0);
    let fin = drain(st0);
    let res = spec_run(c, s0);
    assert(res.assignments == fin.assignments);
    assert(fin.assignments.len() == c.requests);
    assert(ids_distinct(fin.servers)) by {
        assert forall|a: int, b: int|
            0 <= a < b < fin.servers.len() implies fin.servers[a].id != fin.servers[b].id by {
            assert(fin.servers[a].id == c.servers[a].id);
            assert(fin.servers[b].id == c.servers[b].id);
        }
    }
    assert forall|i: int|
        0 <= i < n implies (#[trigger] res.totals[i]).requests == c.requests / n + if i
        < c.requests % n {
        1int
    } else {
        0int
    } by {
        assert(res.totals[i].requests == crate::engine::count_assigned(
            fin.assignments,
            fin.servers[i].id,
        ));
        assert(fin.servers[i].id == c.servers[i].id);
        assert forall|k: int|
            0 <= k < fin.assignments.len() implies (
        #[trigger] fin.assignments[k]).server_id == fin.servers[k % n].id by {
            assert(fin.assignments[k].server_id == c.servers[k % n].id);
            assert(0 <= k % n < n);
            assert(fin.servers[k % n].id == c.servers[k % n].id);
        }
        lemma_count_mod(fin.assignments, fin.servers, i);
        lemma_mod_count_formula(c.requests, n, i);
    }
}

// ---------------------------------------------------------------------------
// Least-connections minimality
// ---------------------------------------------------------------------------

/// Least-connections minimality: at every consultation — hence at every
/// arrival of a run — the chosen server's active-connection count, before
/// the engine increments it, is the minimum across all servers.
pub proof fn lemma_least_connections_minimal(
    servers: Seq<ServerV>,
    mode: TieBreak,
    hist: Seq<u64>,
)
    requires
        servers.len() > 0,
    ensures
        ({
            let (selv, _, _) = spec_select(StrategyV::LeastConnections, servers, mode, hist);
            &&& 0 <= selv.server_id < servers.len()
            &&& forall|j: int|
                0 <= j < servers.len() ==> servers[selv.server_id].active_connections <= (
                #[trigger] servers[j]).active_connections
        }),
{
    lemma_tie_pick_in_range(servers, lc_key(), mode, hist);
    lemma_min_key_le(servers, lc_key());
    let (selv, _, _) = spec_select(StrategyV::LeastConnections, servers, mode, hist);
    assert forall|j: int|
        0 <= j < servers.len() implies servers[selv.server_id].active_connections <= (
    #[trigger] servers[j]).active_connections by {
        assert(lc_key()(servers[j]) == servers[j].active_connections);
        assert(lc_key()(servers[selv.server_id]) == servers[selv.server_id].active_connections);
    }
}

} // verus!
