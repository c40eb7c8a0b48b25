//! The discrete-event simulation engine.
//!
//! The engine validates its configuration, seeds the event queue with one
//! arrival per request, drains the queue — consulting the strategy on each
//! arrival and mutating server state on both arrivals and completions —
//! and aggregates the assignments into per-server summaries.
//!
//! The whole run is specified as a mathematical state machine
//! ([`init_state`], [`step`], [`drain`], [`spec_run`]); [`SimulationEngine::run`]
//! returns exactly its value, which is what makes runs reproducible: the
//! result is a function of the configuration and the initial strategy
//! state alone.

use vstd::prelude::*;

use crate::algorithms::{
    lemma_spec_select_in_range, select_fits, spec_select, Strategy, StrategyV,
};
use crate::algorithms::least_response_time::lrt_fits;
use crate::algorithms::weighted_round_robin::{total_weight, weights_positive};
use crate::error::{SimError, SimResult};
use crate::events::{
    earliest_index, lemma_earliest_index, Event, EventQueue, Request, ScheduledEvent,
};
use crate::models::{
    Algorithm, Assignment, AssignmentV, ConfigV, EngineState, ServerState, ServerSummary, ServerSummaryV,
    ServerV, SimConfig, SimulationResult, SimulationResultV, TieBreak,
};
use crate::tie::TieSource;
use vstd::arithmetic::mul::{lemma_mul_inequality, lemma_mul_is_distributive_add, lemma_mul_upper_bound};

verus! {

// ---------------------------------------------------------------------------
// Configuration validity
// ---------------------------------------------------------------------------

/// The input contract on the server pool: positive latencies and weights.
pub open spec fn wf_servers(servers: Seq<ServerV>) -> bool {
    forall|i: int|
        0 <= i < servers.len() ==> {
            &&& (#[trigger] servers[i]).base_latency_ms >= 1
            &&& servers[i].weight >= 1
        }
}

/// Server ids are pairwise distinct.
pub open spec fn ids_distinct(servers: Seq<ServerV>) -> bool {
    forall|i: int, j: int|
        0 <= i < j < servers.len() ==> (#[trigger] servers[i]).id != (#[trigger] servers[j]).id
}

/// Index `j` carries an id already seen at a smaller index.
pub open spec fn dup_at(servers: Seq<ServerV>, j: int) -> bool {
    exists|i: int| 0 <= i < j && (#[trigger] servers[i]).id == servers[j].id
}

/// The first index at or past `from` that repeats an earlier id, or the
/// length when there is none.
pub open spec fn first_dup_from(servers: Seq<ServerV>, from: int) -> int
    decreases servers.len() - from,
{
    if from < 0 || from >= servers.len() {
        servers.len() as int
    } else if dup_at(servers, from) {
        from
    } else {
        first_dup_from(servers, from + 1)
    }
}

/// The first index that repeats an earlier id, or the length when ids are
/// pairwise distinct.
pub open spec fn first_dup(servers: Seq<ServerV>) -> int {
    first_dup_from(servers, 0)
}

/// Skipping over duplicate-free indices does not move the first duplicate.
pub proof fn lemma_first_dup_skip(servers: Seq<ServerV>, j: int)
    requires
        0 <= j <= servers.len(),
        forall|k: int| 0 <= k < j ==> !dup_at(servers, k),
    ensures
        first_dup(servers) == first_dup_from(servers, j),
    decreases j,
{
    if j > 0 {
        lemma_first_dup_skip(servers, j - 1);
    }
}

/// `first_dup` characterizes `ids_distinct`.
pub proof fn lemma_first_dup_distinct(servers: Seq<ServerV>)
    requires
        forall|k: int| 0 <= k < servers.len() ==> !dup_at(servers, k),
    ensures
        ids_distinct(servers),
{
    assert forall|i: int, j: int|
        0 <= i < j < servers.len() implies servers[i].id != servers[j].id by {
        assert(!dup_at(servers, j));
    }
}

/// A duplicate index refutes distinctness.
pub proof fn lemma_dup_not_distinct(servers: Seq<ServerV>, j: int)
    requires
        0 <= j < servers.len(),
        dup_at(servers, j),
    ensures
        !ids_distinct(servers),
{
    let i = choose|i: int| 0 <= i < j && (#[trigger] servers[i]).id == servers[j].id;
    assert(servers[i].id == servers[j].id);
}

/// The largest base latency of the pool.
pub open spec fn max_latency(servers: Seq<ServerV>) -> int
    decreases servers.len(),
{
    if servers.len() == 0 {
        0
    } else {
        let m = max_latency(servers.drop_last());
        if servers.last().base_latency_ms > m {
            servers.last().base_latency_ms
        } else {
            m
        }
    }
}

pub proof fn lemma_max_latency_le(servers: Seq<ServerV>)
    ensures
        max_latency(servers) >= 0,
        forall|j: int|
            0 <= j < servers.len() ==> (#[trigger] servers[j]).base_latency_ms <= max_latency(
                servers,
            ),
    decreases servers.len(),
{
    if servers.len() > 0 {
        let dl = servers.drop_last();
        lemma_max_latency_le(dl);
        assert forall|j: int|
            0 <= j < servers.len() implies servers[j].base_latency_ms <= max_latency(
            servers,
        ) by {
            if j < servers.len() - 1 {
                assert(dl[j] == servers[j]);
                assert(dl[j].base_latency_ms <= max_latency(dl));
            } else {
                assert(servers[j] == servers.last());
            }
        }
    }
}

/// The machine bounds under which a run cannot overflow a `u64`: every
/// intermediate time, score, total and sequence number stays below
/// `(1 + requests) × (1 + max latency)`, and the weight space fits.
pub open spec fn config_fits(c: ConfigV) -> bool {
    &&& wf_servers(c.servers)
    &&& (1 + c.requests) * (1 + max_latency(c.servers)) <= u64::MAX
    &&& total_weight(c.servers) <= u64::MAX
}

// ---------------------------------------------------------------------------
// The specification state machine
// ---------------------------------------------------------------------------

/// The mathematical state of a run in flight.
#[verifier::ext_equal]
pub ghost struct StateV {
    pub servers: Seq<ServerV>,
    pub strategy: StrategyV,
    pub tie_break: TieBreak,
    /// Bounds of the tie-break draws made so far.
    pub history: Seq<u64>,
    /// Pending events, in insertion order.
    pub queue: Seq<ScheduledEvent>,
    /// Insertion index of the next scheduled event.
    pub next_seq: int,
    pub assignments: Seq<AssignmentV>,
    pub time_ms: int,
}

/// A server with its load counters replaced.
pub open spec fn set_load(s: ServerV, active: int, picks: int) -> ServerV {
    ServerV {
        id: s.id,
        name: s.name,
        base_latency_ms: s.base_latency_ms,
        weight: s.weight,
        active_connections: active,
        pick_count: picks,
    }
}

/// The arrival events a run starts with: request `r` (1-based) arrives at
/// time `r`, with insertion index `r - 1`.
pub open spec fn init_queue(requests: int) -> Seq<ScheduledEvent> {
    Seq::new(
        requests as nat,
        |i: int|
            ScheduledEvent {
                time_ms: (i + 1) as u64,
                seq: i as u64,
                event: Event::RequestArrival(
                    Request { id: (i + 1) as usize, arrival_time_ms: (i + 1) as u64 },
                ),
            },
    )
}

/// The pool with every load counter zeroed.
pub open spec fn reset_servers(servers: Seq<ServerV>) -> Seq<ServerV> {
    Seq::new(servers.len(), |i: int| set_load(servers[i], 0, 0))
}

/// The state a run starts in: load counters zeroed regardless of the
/// input, no draws made, all arrivals pending.
pub open spec fn init_state(c: ConfigV, s0: StrategyV) -> StateV {
    StateV {
        servers: reset_servers(c.servers),
        strategy: s0,
        tie_break: c.tie_break,
        history: Seq::empty(),
        queue: init_queue(c.requests),
        next_seq: c.requests,
        assignments: Seq::empty(),
        time_ms: 0,
    }
}

/// A completion releases one connection of its server, floored at zero.
pub open spec fn complete_step(st: StateV, server_idx: int) -> StateV {
    if 0 <= server_idx < st.servers.len() {
        let s = st.servers[server_idx];
        let dec = if s.active_connections >= 1 {
            s.active_connections - 1
        } else {
            0
        };
        StateV { servers: st.servers.update(server_idx, set_load(s, dec, s.pick_count)), ..st }
    } else {
        st
    }
}

/// An arrival consults the strategy, loads the chosen server, schedules
/// the completion and records the assignment.
pub open spec fn arrival_step(st: StateV, req: Request) -> StateV {
    let (selv, strat2, hist2) = spec_select(st.strategy, st.servers, st.tie_break, st.history);
    let i = selv.server_id;
    let srv = st.servers[i];
    let started = st.time_ms;
    let completed = started + srv.base_latency_ms;
    StateV {
        servers: st.servers.update(
            i,
            set_load(srv, srv.active_connections + 1, srv.pick_count + 1),
        ),
        strategy: strat2,
        history: hist2,
        queue: st.queue.push(
            ScheduledEvent {
                time_ms: completed as u64,
                seq: st.next_seq as u64,
                event: Event::RequestComplete { server_id: i as usize, request_id: req.id },
            },
        ),
        next_seq: st.next_seq + 1,
        assignments: st.assignments.push(
            AssignmentV {
                request_id: req.id as int,
                server_id: srv.id,
                server_name: srv.name,
                score: selv.score,
                started_at: started,
                completed_at: completed,
            },
        ),
        time_ms: st.time_ms,
        tie_break: st.tie_break,
    }
}

/// One iteration of the main loop: pop the earliest event, advance the
/// clock to its time, and apply it.
pub open spec fn step(st: StateV) -> StateV
    recommends
        st.queue.len() > 0,
{
    let k = earliest_index(st.queue);
    let ev = st.queue[k];
    let st1 = StateV { queue: st.queue.remove(k), time_ms: ev.time_ms as int, ..st };
    match ev.event {
        Event::RequestComplete { server_id, .. } => complete_step(st1, server_id as int),
        Event::RequestArrival(req) => arrival_step(st1, req),
    }
}

/// Number of arrival events in a queue.
pub open spec fn arrivals_in(q: Seq<ScheduledEvent>) -> int
    decreases q.len(),
{
    if q.len() == 0 {
        0
    } else {
        arrivals_in(q.drop_last()) + if q.last().event is RequestArrival {
            1int
        } else {
            0int
        }
    }
}

pub proof fn lemma_arrivals_in_nonneg(q: Seq<ScheduledEvent>)
    ensures
        0 <= arrivals_in(q) <= q.len(),
    decreases q.len(),
{
    if q.len() > 0 {
        lemma_arrivals_in_nonneg(q.drop_last());
    }
}

pub proof fn lemma_arrivals_in_remove(q: Seq<ScheduledEvent>, k: int)
    requires
        0 <= k < q.len(),
    ensures
        arrivals_in(q.remove(k)) == arrivals_in(q) - if q[k].event is RequestArrival {
            1int
        } else {
            0int
        },
    decreases q.len(),
{
    if k == q.len() - 1 {
        assert(q.remove(k) =~= q.drop_last());
    } else {
        assert(q.remove(k).drop_last() =~= q.drop_last().remove(k));
        assert(q.remove(k).last() == q.last());
        assert(q.drop_last()[k] == q[k]);
        lemma_arrivals_in_remove(q.drop_last(), k);
    }
}

/// A queue of arrivals only counts its length.
pub proof fn lemma_arrivals_in_all(q: Seq<ScheduledEvent>)
    requires
        forall|k: int| 0 <= k < q.len() ==> (#[trigger] q[k]).event is RequestArrival,
    ensures
        arrivals_in(q) == q.len(),
    decreases q.len(),
{
    if q.len() > 0 {
        let dl = q.drop_last();
        assert forall|k: int| 0 <= k < dl.len() implies dl[k].event is RequestArrival by {
            assert(dl[k] == q[k]);
        }
        lemma_arrivals_in_all(dl);
        assert(q.last() == q[q.len() - 1]);
    }
}

/// Events left to pop: each pending event is one pop, and each pending
/// arrival will schedule one more completion.
pub open spec fn measure(st: StateV) -> int {
    st.queue.len() + arrivals_in(st.queue)
}

pub proof fn lemma_step_measure(st: StateV)
    requires
        st.queue.len() > 0,
    ensures
        measure(st) >= 1,
        measure(step(st)) == measure(st) - 1,
{
    lemma_arrivals_in_nonneg(st.queue);
    lemma_earliest_index(st.queue);
    let k = earliest_index(st.queue);
    lemma_arrivals_in_remove(st.queue, k);
    let q1 = st.queue.remove(k);
    lemma_arrivals_in_nonneg(q1);
    match st.queue[k].event {
        Event::RequestComplete { .. } => {
        },
        Event::RequestArrival(req) => {
            let st1 = StateV {
                queue: q1,
                time_ms: st.queue[k].time_ms as int,
                ..st
            };
            let st2 = arrival_step(st1, req);
            assert(st2.queue.drop_last() =~= q1);
        },
    }
}

/// Sum of all pick counters.
pub open spec fn sum_picks(servers: Seq<ServerV>) -> int
    decreases servers.len(),
{
    if servers.len() == 0 {
        0
    } else {
        sum_picks(servers.drop_last()) + servers.last().pick_count
    }
}

pub proof fn lemma_sum_picks_update(servers: Seq<ServerV>, i: int, s2: ServerV)
    requires
        0 <= i < servers.len(),
    ensures
        sum_picks(servers.update(i, s2)) == sum_picks(servers) - servers[i].pick_count
            + s2.pick_count,
    decreases servers.len(),
{
    let u = servers.update(i, s2);
    if i == servers.len() - 1 {
        assert(u.drop_last() =~= servers.drop_last());
        assert(u.last() == s2);
    } else {
        assert(u.drop_last() =~= servers.drop_last().update(i, s2));
        assert(u.last() == servers.last());
        assert(servers.drop_last()[i] == servers[i]);
        lemma_sum_picks_update(servers.drop_last(), i, s2);
    }
}

pub proof fn lemma_sum_picks_zero(servers: Seq<ServerV>)
    requires
        forall|i: int| 0 <= i < servers.len() ==> (#[trigger] servers[i]).pick_count == 0,
    ensures
        sum_picks(servers) == 0,
    decreases servers.len(),
{
    if servers.len() > 0 {
        let dl = servers.drop_last();
        assert forall|i: int| 0 <= i < dl.len() implies dl[i].pick_count == 0 by {
            assert(dl[i] == servers[i]);
        }
        lemma_sum_picks_zero(dl);
        assert(servers.last() == servers[servers.len() - 1]);
    }
}

/// The assignment names a configured server.
pub open spec fn assigned_id_ok(c: ConfigV, a: AssignmentV) -> bool {
    exists|i: int| 0 <= i < c.servers.len() && a.server_id == (#[trigger] c.servers[i]).id
}

/// What holds of every reachable state of a valid run: configured fields
/// are untouched, load counters are consistent, pending arrivals and
/// recorded assignments together account for every request, and every
/// assignment names a configured server.
pub open spec fn inv_state(c: ConfigV, st: StateV) -> bool {
    &&& c.servers.len() >= 1
    &&& c.requests >= 1
    &&& wf_servers(c.servers)
    &&& ids_distinct(c.servers)
    &&& st.tie_break == c.tie_break
    &&& st.servers.len() == c.servers.len()
    &&& forall|i: int|
        0 <= i < st.servers.len() ==> {
            &&& (#[trigger] st.servers[i]).id == c.servers[i].id
            &&& st.servers[i].name == c.servers[i].name
            &&& st.servers[i].base_latency_ms == c.servers[i].base_latency_ms
            &&& st.servers[i].weight == c.servers[i].weight
            &&& 0 <= st.servers[i].active_connections
            &&& st.servers[i].active_connections <= st.servers[i].pick_count
            &&& st.servers[i].pick_count <= st.assignments.len()
        }
    &&& st.assignments.len() + arrivals_in(st.queue) == c.requests
    &&& st.next_seq == c.requests + st.assignments.len()
    &&& sum_picks(st.servers) == st.assignments.len()
    &&& forall|k: int|
        0 <= k < st.assignments.len() ==> assigned_id_ok(c, #[trigger] st.assignments[k])
}

/// One step of a valid run stays valid.
pub proof fn lemma_step_preserves_inv(c: ConfigV, st: StateV)
    requires
        inv_state(c, st),
        st.queue.len() > 0,
    ensures
        inv_state(c, step(st)),
{
    lemma_earliest_index(st.queue);
    let k = earliest_index(st.queue);
    let ev = st.queue[k];
    lemma_arrivals_in_remove(st.queue, k);
    lemma_arrivals_in_nonneg(st.queue.remove(k));
    let st1 = StateV { queue: st.queue.remove(k), time_ms: ev.time_ms as int, ..st };
    match ev.event {
        Event::RequestComplete { server_id, .. } => {
            let idx = server_id as int;
            if 0 <= idx < st1.servers.len() {
                let s = st1.servers[idx];
                let dec = if s.active_connections >= 1 {
                    s.active_connections - 1
                } else {
                    0
                };
                lemma_sum_picks_update(st1.servers, idx, set_load(s, dec, s.pick_count));
            }
        },
        Event::RequestArrival(req) => {
            assert(weights_positive(st1.servers)) by {
                assert forall|i: int|
                    0 <= i < st1.servers.len() implies st1.servers[i].weight >= 1 by {
                    assert(c.servers[i].weight >= 1);
                }
            }
            lemma_spec_select_in_range(st1.strategy, st1.servers, st1.tie_break, st1.history);
            let (selv, strat2, hist2) = spec_select(
                st1.strategy,
                st1.servers,
                st1.tie_break,
                st1.history,
            );
            let i = selv.server_id;
            let srv = st1.servers[i];
            lemma_sum_picks_update(
                st1.servers,
                i,
                set_load(srv, srv.active_connections + 1, srv.pick_count + 1),
            );
            let st2 = arrival_step(st1, req);
            assert(st2.queue.drop_last() =~= st1.queue);
            assert(st2.assignments.drop_last() =~= st1.assignments);
            assert(st2.assignments.last().server_id == c.servers[i].id);
            assert forall|kk: int|
                0 <= kk < st2.assignments.len() implies assigned_id_ok(
                c,
                st2.assignments[kk],
            ) by {
                if kk < st1.assignments.len() {
                    assert(st2.assignments[kk] == st.assignments[kk]);
                }
            }
        },
    }
}

// ---------------------------------------------------------------------------
// Machine bounds along a run
// ---------------------------------------------------------------------------

/// The bounds a pending event obeys on a machine-sized run.
pub open spec fn event_fits(c: ConfigV, e: ScheduledEvent) -> bool {
    match e.event {
        Event::RequestArrival(req) => {
            &&& 1 <= req.id as int <= c.requests
            &&& e.time_ms as int == req.id as int
            &&& req.arrival_time_ms == e.time_ms
        },
        Event::RequestComplete { server_id, .. } => {
            &&& (server_id as int) < c.servers.len()
            &&& e.time_ms as int <= c.requests + max_latency(c.servers)
        },
    }
}

/// The bounds a recorded assignment obeys on a machine-sized run.
pub open spec fn assignment_fits(c: ConfigV, a: AssignmentV) -> bool {
    &&& 0 <= a.started_at
    &&& a.started_at <= a.completed_at
    &&& a.completed_at - a.started_at <= max_latency(c.servers)
}

/// The machine-bound side of the invariant, preserved whenever the
/// configuration fits (see [`config_fits`]).
pub open spec fn inv_fits(c: ConfigV, st: StateV) -> bool {
    &&& c.servers.len() <= usize::MAX
    &&& c.requests <= usize::MAX
    &&& forall|k: int| 0 <= k < st.queue.len() ==> event_fits(c, #[trigger] st.queue[k])
    &&& forall|k: int|
        0 <= k < st.assignments.len() ==> assignment_fits(c, #[trigger] st.assignments[k])
    &&& 0 <= st.time_ms <= c.requests + max_latency(c.servers)
}

/// The numeric room a fitting configuration guarantees.
pub proof fn lemma_fits_bounds(c: ConfigV)
    requires
        config_fits(c),
        c.servers.len() >= 1,
        c.requests >= 1,
    ensures
        max_latency(c.servers) >= 1,
        c.requests + max_latency(c.servers) + 1 <= u64::MAX,
        2 * c.requests <= u64::MAX,
        c.requests * max_latency(c.servers) <= u64::MAX,
{
    let r = c.requests;
    let l = max_latency(c.servers);
    lemma_max_latency_le(c.servers);
    assert(c.servers[0].base_latency_ms >= 1);
    assert(l >= 1);
    lemma_mul_is_distributive_add(1 + r, 1, l);
    assert((1 + r) * (1 + l) == (1 + r) * 1 + (1 + r) * l);
    lemma_mul_is_distributive_add(l, 1, r);
    assert(l * (1 + r) == l * 1 + l * r);
    assert((1 + r) * l == l * (1 + r)) by {
        vstd::arithmetic::mul::lemma_mul_is_commutative(1 + r, l);
    }
    assert(l * r == r * l) by {
        vstd::arithmetic::mul::lemma_mul_is_commutative(l, r);
    }
    assert((1 + r) * (1 + l) == 1 + r + l + r * l);
    assert(r * l >= r * 1) by {
        lemma_mul_inequality(1, l, r);
        vstd::arithmetic::mul::lemma_mul_is_commutative(r, l);
        vstd::arithmetic::mul::lemma_mul_is_commutative(r, 1);
    }
}

/// One step of a fitting run keeps its machine bounds.
pub proof fn lemma_step_preserves_fits(c: ConfigV, st: StateV)
    requires
        inv_state(c, st),
        inv_fits(c, st),
        config_fits(c),
        st.queue.len() > 0,
    ensures
        inv_fits(c, step(st)),
{
    lemma_earliest_index(st.queue);
    lemma_fits_bounds(c);
    lemma_max_latency_le(c.servers);
    let k = earliest_index(st.queue);
    let ev = st.queue[k];
    let q1 = st.queue.remove(k);
    assert forall|kk: int| 0 <= kk < q1.len() implies event_fits(c, q1[kk]) by {
        if kk < k {
            assert(q1[kk] == st.queue[kk]);
        } else {
            assert(q1[kk] == st.queue[kk + 1]);
        }
    }
    let st1 = StateV { queue: q1, time_ms: ev.time_ms as int, ..st };
    match ev.event {
        Event::RequestComplete { .. } => {
        },
        Event::RequestArrival(req) => {
            assert(weights_positive(st1.servers)) by {
                assert forall|i: int|
                    0 <= i < st1.servers.len() implies st1.servers[i].weight >= 1 by {
                    assert(c.servers[i].weight >= 1);
                }
            }
            lemma_spec_select_in_range(st1.strategy, st1.servers, st1.tie_break, st1.history);
            let (selv, strat2, hist2) = spec_select(
                st1.strategy,
                st1.servers,
                st1.tie_break,
                st1.history,
            );
            let i = selv.server_id;
            let srv = st1.servers[i];
            let started = st1.time_ms;
            let completed = started + srv.base_latency_ms;
            assert(srv.base_latency_ms == c.servers[i].base_latency_ms);
            assert(srv.base_latency_ms <= max_latency(c.servers));
            assert(1 <= started <= c.requests);
            assert(completed <= c.requests + max_latency(c.servers));
            assert(completed as u64 as int == completed);
            let st2 = arrival_step(st1, req);
            assert(st2.queue.drop_last() =~= q1);
            assert(st2.assignments.drop_last() =~= st1.assignments);
            assert forall|kk: int|
                0 <= kk < st2.queue.len() implies event_fits(c, st2.queue[kk]) by {
                if kk < q1.len() {
                    assert(st2.queue[kk] == q1[kk]);
                } else {
                    assert(st2.queue[kk] == st2.queue.last());
                }
            }
            assert forall|kk: int|
                0 <= kk < st2.assignments.len() implies assignment_fits(
                c,
                st2.assignments[kk],
            ) by {
                if kk < st1.assignments.len() {
                    assert(st2.assignments[kk] == st.assignments[kk]);
                }
            }
        },
    }
}

/// The fully drained state: the main loop's fixpoint.
pub open spec fn drain(st: StateV) -> StateV
    decreases measure(st),
    via drain_decreases
{
    if st.queue.len() == 0 {
        st
    } else {
        drain(step(st))
    }
}

#[via_fn]
proof fn drain_decreases(st: StateV) {
    if st.queue.len() > 0 {
        lemma_step_measure(st);
    }
}

// ---------------------------------------------------------------------------
// Finalization
// ---------------------------------------------------------------------------

/// How many assignments were routed to the server with this id.
pub open spec fn count_assigned(assignments: Seq<AssignmentV>, id: int) -> int
    decreases assignments.len(),
{
    if assignments.len() == 0 {
        0
    } else {
        count_assigned(assignments.drop_last(), id) + if assignments.last().server_id == id {
            1int
        } else {
            0int
        }
    }
}

/// Total response time of the assignments routed to the server with this
/// id.
pub open spec fn total_response(assignments: Seq<AssignmentV>, id: int) -> int
    decreases assignments.len(),
{
    if assignments.len() == 0 {
        0
    } else {
        total_response(assignments.drop_last(), id) + if assignments.last().server_id == id {
            assignments.last().completed_at - assignments.last().started_at
        } else {
            0int
        }
    }
}

/// Per-server summaries, in input server order: request count and
/// truncating-average response time (zero for an idle server).
pub open spec fn summaries_of(
    servers: Seq<ServerV>,
    assignments: Seq<AssignmentV>,
) -> Seq<ServerSummaryV> {
    Seq::new(
        servers.len(),
        |i: int|
            {
                let cnt = count_assigned(assignments, servers[i].id);
                ServerSummaryV {
                    name: servers[i].name,
                    requests: cnt,
                    avg_response_ms: if cnt == 0 {
                        0
                    } else {
                        total_response(assignments, servers[i].id) / cnt
                    },
                }
            },
    )
}

/// What a valid run produces: the drained state's assignments, their
/// per-server summaries, and an echo of the tie-break mode.
pub open spec fn spec_run(c: ConfigV, s0: StrategyV) -> SimulationResultV {
    let fin = drain(init_state(c, s0));
    SimulationResultV {
        assignments: fin.assignments,
        totals: summaries_of(fin.servers, fin.assignments),
        tie_break: c.tie_break,
    }
}

/// What [`SimulationEngine::run`] returns, for every configuration:
/// validation failures in their checking order, else the simulated result.
pub open spec fn spec_outcome(c: ConfigV, s0: StrategyV) -> Result<SimulationResultV, SimError> {
    if c.servers.len() == 0 {
        Err(SimError::EmptyServers)
    } else if c.requests <= 0 {
        Err(SimError::RequestsZero)
    } else if first_dup(c.servers) < c.servers.len() {
        Err(SimError::DuplicateServerId(c.servers[first_dup(c.servers)].id as u64))
    } else {
        Ok(spec_run(c, s0))
    }
}

/// How an executable result relates to the specified outcome.
pub open spec fn outcome_matches(
    r: Result<SimulationResult, SimError>,
    c: ConfigV,
    s0: StrategyV,
) -> bool {
    match (r, spec_outcome(c, s0)) {
        (Ok(res), Ok(v)) => res@ == v,
        (Err(e), Err(ev)) => e == ev,
        _ => false,
    }
}

// ---------------------------------------------------------------------------
// Initial-state lemmas
// ---------------------------------------------------------------------------

pub proof fn lemma_init_state_inv(c: ConfigV, s0: StrategyV)
    requires
        c.servers.len() >= 1,
        c.requests >= 1,
        wf_servers(c.servers),
        ids_distinct(c.servers),
    ensures
        inv_state(c, init_state(c, s0)),
{
    let st = init_state(c, s0);
    assert forall|k: int|
        0 <= k < st.queue.len() implies (#[trigger] st.queue[k]).event is RequestArrival by {}
    lemma_arrivals_in_all(st.queue);
    assert forall|i: int|
        0 <= i < st.servers.len() implies (#[trigger] st.servers[i]).pick_count == 0 by {}
    lemma_sum_picks_zero(st.servers);
}

pub proof fn lemma_init_state_fits(c: ConfigV, s0: StrategyV)
    requires
        c.servers.len() >= 1,
        c.requests >= 1,
        c.servers.len() <= usize::MAX,
        c.requests <= usize::MAX,
    ensures
        inv_fits(c, init_state(c, s0)),
{
    let st = init_state(c, s0);
    lemma_max_latency_le(c.servers);
    assert forall|k: int| 0 <= k < st.queue.len() implies event_fits(c, st.queue[k]) by {
        let e = st.queue[k];
        assert(e == init_queue(c.requests)[k]);
        assert(e.event matches Event::RequestArrival(req) && req.id as int == k + 1);
    }
}

// ---------------------------------------------------------------------------
// Executable helpers
// ---------------------------------------------------------------------------

/// Scan for the first server whose id was already used by an earlier one.
fn find_duplicate(servers: &Vec<ServerState>) -> (r: Option<u64>)
    ensures
        ({
            let sv = servers.deep_view();
            match r {
                Some(id) => {
                    &&& first_dup(sv) < sv.len()
                    &&& id as int == sv[first_dup(sv)].id
                    &&& !ids_distinct(sv)
                },
                None => first_dup(sv) == sv.len() && ids_distinct(sv),
            }
        }),
{
    let ghost sv = servers.deep_view();
    let n = servers.len();
    let mut j: usize = 0;
    while j < n
        invariant
            j <= n,
            n == sv.len(),
            sv == servers.deep_view(),
            forall|k: int| 0 <= k < j ==> !dup_at(sv, k),
        decreases n - j,
    {
        let mut i: usize = 0;
        while i < j
            invariant
                i <= j,
                j < n,
                n == sv.len(),
                sv == servers.deep_view(),
                forall|k: int| 0 <= k < i ==> sv[k].id != sv[j as int].id,
                forall|k: int| 0 <= k < j ==> !dup_at(sv, k),
            decreases j - i,
        {
            if servers[i].id == servers[j].id {
                proof {
                    assert(sv[i as int].id == sv[j as int].id);
                    assert(dup_at(sv, j as int));
                    lemma_first_dup_skip(sv, j as int);
                    lemma_dup_not_distinct(sv, j as int);
                }
                return Some(servers[j].id);
            }
            i = i + 1;
        }
        proof {
            assert(!dup_at(sv, j as int));
        }
        j = j + 1;
    }
    proof {
        lemma_first_dup_skip(sv, n as int);
        lemma_first_dup_distinct(sv);
    }
    None
}

/// Copy the configured pool into run state, zeroing the load counters.
fn build_run_servers(servers: &Vec<ServerState>) -> (out: Vec<ServerState>)
    ensures
        out.deep_view() == reset_servers(servers.deep_view()),
{
    let ghost sv = servers.deep_view();
    let mut out: Vec<ServerState> = Vec::new();
    let mut i: usize = 0;
    while i < servers.len()
        invariant
            i <= sv.len(),
            sv == servers.deep_view(),
            out@.len() == i,
            out.deep_view() == reset_servers(sv).take(i as int),
        decreases sv.len() - i,
    {
        let s = &servers[i];
        let entry = ServerState {
            id: s.id,
            name: s.name.clone(),
            base_latency_ms: s.base_latency_ms,
            weight: s.weight,
            active_connections: 0,
            pick_count: 0,
        };
        let ghost pv = entry@;
        out.push(entry);
        proof {
            assert(sv[i as int] == servers@[i as int]@);
            assert(pv =~~= set_load(sv[i as int], 0, 0));
            assert(out.deep_view() =~~= reset_servers(sv).take(i as int + 1));
        }
        i = i + 1;
    }
    proof {
        assert(reset_servers(sv).take(sv.len() as int) =~= reset_servers(sv));
    }
    out
}

/// Copy the recorded assignments for the returned result.
fn clone_assignments(assignments: &Vec<Assignment>) -> (out: Vec<Assignment>)
    ensures
        out.deep_view() == assignments.deep_view(),
{
    let ghost av = assignments.deep_view();
    let mut out: Vec<Assignment> = Vec::new();
    let mut i: usize = 0;
    while i < assignments.len()
        invariant
            i <= av.len(),
            av == assignments.deep_view(),
            out@.len() == i,
            out.deep_view() == av.take(i as int),
        decreases av.len() - i,
    {
        let a = &assignments[i];
        out.push(
            Assignment {
                request_id: a.request_id,
                server_id: a.server_id,
                server_name: a.server_name.clone(),
                score: a.score,
                started_at: a.started_at,
                completed_at: a.completed_at,
            },
        );
        proof {
            assert(av[i as int] == assignments@[i as int]@);
            assert(out.deep_view() =~~= av.take(i as int + 1));
        }
        i = i + 1;
    }
    proof {
        assert(av.take(av.len() as int) =~= av);
    }
    out
}

/// Count the assignments routed to one server and sum their response
/// times.
fn tally(assignments: &Vec<Assignment>, id: u64, lat_bound: Ghost<int>) -> (r: (u64, u64))
    requires
        0 <= lat_bound@,
        forall|k: int|
            0 <= k < assignments.deep_view().len() ==> {
                &&& 0 <= (#[trigger] assignments.deep_view()[k]).started_at
                &&& assignments.deep_view()[k].started_at
                    <= assignments.deep_view()[k].completed_at
                &&& assignments.deep_view()[k].completed_at
                    - assignments.deep_view()[k].started_at <= lat_bound@
            },
        assignments.deep_view().len() * lat_bound@ <= u64::MAX,
    ensures
        r.0 as int == count_assigned(assignments.deep_view(), id as int),
        r.1 as int == total_response(assignments.deep_view(), id as int),
{
    let ghost av = assignments.deep_view();
    let mut cnt: u64 = 0;
    let mut tot: u64 = 0;
    let mut k: usize = 0;
    while k < assignments.len()
        invariant
            k <= av.len(),
            av == assignments.deep_view(),
            0 <= lat_bound@,
            forall|kk: int|
                0 <= kk < av.len() ==> {
                    &&& 0 <= (#[trigger] av[kk]).started_at
                    &&& av[kk].started_at <= av[kk].completed_at
                    &&& av[kk].completed_at - av[kk].started_at <= lat_bound@
                },
            av.len() * lat_bound@ <= u64::MAX,
            cnt as int == count_assigned(av.take(k as int), id as int),
            cnt <= k,
            tot as int == total_response(av.take(k as int), id as int),
            tot <= k * lat_bound@,
        decreases av.len() - k,
    {
        proof {
            assert(av.take(k as int + 1).drop_last() =~= av.take(k as int));
            assert(av.take(k as int + 1).last() == av[k as int]);
            assert((k + 1) * lat_bound@ == k * lat_bound@ + lat_bound@) by {
                lemma_mul_is_distributive_add(lat_bound@, k as int, 1);
                vstd::arithmetic::mul::lemma_mul_is_commutative(lat_bound@, k as int + 1);
                vstd::arithmetic::mul::lemma_mul_is_commutative(lat_bound@, k as int);
            }
            lemma_mul_inequality(k as int + 1, av.len() as int, lat_bound@);
        }
        let a = &assignments[k];
        if a.server_id == id {
            cnt = cnt + 1;
            tot = tot + (a.completed_at - a.started_at);
        }
        k = k + 1;
    }
    proof {
        assert(av.take(av.len() as int) =~= av);
    }
    (cnt, tot)
}

/// Build the per-server summaries, in input server order.
fn summarize(
    servers: &Vec<ServerState>,
    assignments: &Vec<Assignment>,
    lat_bound: Ghost<int>,
) -> (totals: Vec<ServerSummary>)
    requires
        0 <= lat_bound@,
        forall|k: int|
            0 <= k < assignments.deep_view().len() ==> {
                &&& 0 <= (#[trigger] assignments.deep_view()[k]).started_at
                &&& assignments.deep_view()[k].started_at
                    <= assignments.deep_view()[k].completed_at
                &&& assignments.deep_view()[k].completed_at
                    - assignments.deep_view()[k].started_at <= lat_bound@
            },
        assignments.deep_view().len() * lat_bound@ <= u64::MAX,
    ensures
        totals.deep_view() == summaries_of(servers.deep_view(), assignments.deep_view()),
{
    let ghost sv = servers.deep_view();
    let ghost av = assignments.deep_view();
    let mut totals: Vec<ServerSummary> = Vec::new();
    let mut i: usize = 0;
    while i < servers.len()
        invariant
            i <= sv.len(),
            sv == servers.deep_view(),
            av == assignments.deep_view(),
            0 <= lat_bound@,
            forall|k: int|
                0 <= k < av.len() ==> {
                    &&& 0 <= (#[trigger] av[k]).started_at
                    &&& av[k].started_at <= av[k].completed_at
                    &&& av[k].completed_at - av[k].started_at <= lat_bound@
                },
            av.len() * lat_bound@ <= u64::MAX,
            totals@.len() == i,
            totals.deep_view() == summaries_of(sv, av).take(i as int),
        decreases sv.len() - i,
    {
        let (cnt, tot) = tally(assignments, servers[i].id, lat_bound);
        let avg: u64 = if cnt == 0 {
            0
        } else {
            tot / cnt
        };
        totals.push(ServerSummary { name: servers[i].name.clone(), requests: cnt, avg_response_ms: avg });
        proof {
            assert(sv[i as int] == servers@[i as int]@);
            assert(totals.deep_view() =~~= summaries_of(sv, av).take(i as int + 1));
        }
        i = i + 1;
    }
    proof {
        assert(summaries_of(sv, av).take(sv.len() as int) =~= summaries_of(sv, av));
    }
    totals
}

// ---------------------------------------------------------------------------
// The engine
// ---------------------------------------------------------------------------

/// Owns everything one run needs: the configuration, the mutable run
/// state, the strategy and the tie-break source.
pub struct SimulationEngine {
    pub config: SimConfig,
    pub state: EngineState,
    pub strategy: Strategy,
    pub source: TieSource,
}

impl SimulationEngine {
    /// A fresh engine: empty run state, a tie-break source built from the
    /// configured mode.
    pub fn new(config: SimConfig, strategy: Strategy) -> (engine: SimulationEngine)
        ensures
            engine.config == config,
            engine.strategy == strategy,
            engine.source.tie_break() == config.tie_break,
            engine.state.time_ms == 0,
            engine.state.servers@.len() == 0,
            engine.state.assignments@.len() == 0,
    {
        let source = TieSource::new(config.tie_break);
        let state = EngineState { time_ms: 0, servers: Vec::new(), assignments: Vec::new() };
        SimulationEngine { config, state, strategy, source }
    }

    /// Validate the configuration, then drive the event loop from the
    /// first arrival to the last completion.  The returned value is
    /// exactly [`spec_outcome`] on the configuration and the strategy
    /// state at entry: validation failures are reported before any
    /// mutation, and a successful run returns [`spec_run`], a function of
    /// configuration and strategy state alone — which is what makes runs
    /// reproducible.
    #[verifier::loop_isolation(false)]
    pub fn run(&mut self) -> (r: SimResult<SimulationResult>)
        requires
            config_fits(old(self).config@),
        ensures
            final(self).config == old(self).config,
            outcome_matches(r, old(self).config@, old(self).strategy@),
            r is Err ==> *final(self) == *old(self),
    {
        let ghost c = self.config@;
        let ghost s0 = self.strategy@;

        if self.config.servers.len() == 0 {
            return Err(SimError::EmptyServers);
        }
        if self.config.requests == 0 {
            return Err(SimError::RequestsZero);
        }
        match find_duplicate(&self.config.servers) {
            Some(id) => {
                return Err(SimError::DuplicateServerId(id));
            },
            None => {},
        }

        let requests = self.config.requests;

        // A fresh randomness source per run: no state crosses runs.
        self.source = TieSource::new(self.config.tie_break);
        let run_servers = build_run_servers(&self.config.servers);
        self.state.servers = run_servers;
        self.state.assignments = Vec::new();
        self.state.time_ms = 0;

        let mut queue = EventQueue::new();
        let mut rid: usize = 0;
        while rid < requests
            invariant
                rid <= requests,
                requests as int == c.requests,
                queue@ == init_queue(c.requests).take(rid as int),
                queue.next_seq_spec() as int == rid as int,
            decreases requests - rid,
        {
            let t = rid + 1;
            queue.schedule(
                t as u64,
                Event::RequestArrival(Request { id: t, arrival_time_ms: t as u64 }),
            );
            proof {
                assert(queue@ =~= init_queue(c.requests).take(rid as int + 1));
            }
            rid = rid + 1;
        }

        let ghost mut st = init_state(c, s0);
        proof {
            lemma_init_state_inv(c, s0);
            lemma_init_state_fits(c, s0);
            assert(init_queue(c.requests).take(c.requests) =~= init_queue(c.requests));
            assert(st.assignments =~= self.state.assignments.deep_view());
        }

        while queue.len() != 0
            invariant
                self.config == old(self).config,
                self.config@ == c,
                config_fits(c),
                inv_state(c, st),
                inv_fits(c, st),
                st.servers == self.state.servers.deep_view(),
                st.strategy == self.strategy@,
                st.history == self.source.history(),
                self.source.tie_break() == c.tie_break,
                st.queue == queue@,
                st.next_seq == queue.next_seq_spec() as int,
                st.assignments == self.state.assignments.deep_view(),
                st.time_ms == self.state.time_ms as int,
                drain(st) == drain(init_state(c, s0)),
            decreases measure(st),
        {
            let popped = queue.pop_earliest();
            match popped {
                None => {
                    proof {
                        assert(false);
                    }
                },
                Some(sched) => {
                    let ghost st0 = st;
                    let ghost k = earliest_index(st0.queue);
                    proof {
                        lemma_earliest_index(st0.queue);
                        assert(sched == st0.queue[k]);
                        assert(event_fits(c, sched));
                        st = step(st0);
                        lemma_step_preserves_inv(c, st0);
                        lemma_step_preserves_fits(c, st0);
                        lemma_step_measure(st0);
                        assert(drain(st0) == drain(st));
                        lemma_fits_bounds(c);
                        lemma_max_latency_le(c.servers);
                        lemma_arrivals_in_remove(st0.queue, k);
                        lemma_arrivals_in_nonneg(st0.queue.remove(k));
                    }
                    self.state.time_ms = sched.time_ms;
                    let ghost st1 = StateV {
                        queue: st0.queue.remove(k),
                        time_ms: sched.time_ms as int,
                        ..st0
                    };
                    match sched.event {
                        Event::RequestComplete { server_id, request_id: _ } => {
                            if server_id < self.state.servers.len() {
                                let a0 = self.state.servers[server_id].active_connections;
                                let newa: u64 = if a0 >= 1 {
                                    a0 - 1
                                } else {
                                    0
                                };
                                let elem = &mut self.state.servers[server_id];
                                elem.active_connections = newa;
                            }
                            proof {
                                assert(st.servers =~= self.state.servers.deep_view());
                            }
                        },
                        Event::RequestArrival(request) => {
                            let ghost strat_pre = self.strategy@;
                            let ghost hist_pre = self.source.history();
                            proof {
                                // The strategy's overflow bounds follow from the
                                // configuration's.
                                assert(weights_positive(st1.servers)) by {
                                    assert forall|i: int|
                                        0 <= i < st1.servers.len() implies st1.servers[i].weight
                                        >= 1 by {
                                        assert(c.servers[i].weight >= 1);
                                    }
                                }
                                assert(total_weight(st1.servers) == total_weight(c.servers)) by {
                                    crate::algorithms::weighted_round_robin::lemma_total_weight_pointwise(
                                        st1.servers,
                                        c.servers,
                                    );
                                }
                                assert(st0.assignments.len() <= c.requests - 1);
                                assert(lrt_fits(st1.servers)) by {
                                    assert forall|i: int|
                                        0 <= i < st1.servers.len() implies {
                                        &&& (#[trigger] st1.servers[i]).active_connections + 1
                                            <= u64::MAX
                                        &&& st1.servers[i].base_latency_ms * (
                                        st1.servers[i].active_connections + 1) <= u64::MAX
                                    } by {
                                        assert(st1.servers[i].active_connections
                                            <= st1.servers[i].pick_count);
                                        assert(st1.servers[i].pick_count
                                            <= st0.assignments.len());
                                        assert(st1.servers[i].base_latency_ms
                                            <= max_latency(c.servers));
                                        lemma_mul_upper_bound(
                                            st1.servers[i].base_latency_ms,
                                            max_latency(c.servers),
                                            st1.servers[i].active_connections + 1,
                                            c.requests,
                                        );
                                        vstd::arithmetic::mul::lemma_mul_is_commutative(
                                            max_latency(c.servers),
                                            c.requests,
                                        );
                                    }
                                }
                                assert(select_fits(self.strategy@, st1.servers));
                            }
                            let sel = self.strategy.select(&self.state.servers, &mut self.source);
                            let idx = sel.server_id;
                            let started = self.state.time_ms;
                            let lat = self.state.servers[idx].base_latency_ms;
                            proof {
                                assert(started as int <= c.requests);
                                assert(lat as int <= max_latency(c.servers));
                            }
                            let completed = started + lat;
                            let a0 = self.state.servers[idx].active_connections;
                            let p0 = self.state.servers[idx].pick_count;
                            proof {
                                assert(a0 as int <= st0.assignments.len());
                                assert(p0 as int <= st0.assignments.len());
                            }
                            {
                                let elem = &mut self.state.servers[idx];
                                elem.active_connections = a0 + 1;
                                elem.pick_count = p0 + 1;
                            }
                            proof {
                                assert(queue.next_seq_spec() as int == c.requests
                                    + st0.assignments.len());
                                assert(queue.next_seq_spec() < u64::MAX);
                            }
                            queue.schedule(
                                completed,
                                Event::RequestComplete { server_id: idx, request_id: request.id },
                            );
                            let name = self.state.servers[idx].name.clone();
                            let sid = self.state.servers[idx].id;
                            self.state.assignments.push(
                                Assignment {
                                    request_id: request.id,
                                    server_id: sid,
                                    server_name: name,
                                    score: sel.score,
                                    started_at: started,
                                    completed_at: completed,
                                },
                            );
                            proof {
                                assert(st == arrival_step(st1, request));
                                assert(st.servers =~= self.state.servers.deep_view());
                                assert(st.queue =~= queue@);
                                assert(st.assignments =~= self.state.assignments.deep_view());
                            }
                        },
                    }
                },
            }
        }

        proof {
            assert(st.queue.len() == 0);
            assert(drain(st) == st);
            assert(st == drain(init_state(c, s0)));
            assert(st.assignments.len() == c.requests);
            lemma_fits_bounds(c);
        }
        let ghost lat_bound = max_latency(c.servers);
        let totals = summarize(&self.state.servers, &self.state.assignments, Ghost(lat_bound));
        let assignments = clone_assignments(&self.state.assignments);
        let result = SimulationResult { assignments, totals, tie_break: self.config.tie_break };
        proof {
            assert(result@ =~= spec_run(c, s0));
        }
        Ok(result)
    }
}

/// Build a configuration and a fresh strategy, run one simulation, and
/// return its result.
pub fn run_simulation(
    servers: Vec<ServerState>,
    algorithm: Algorithm,
    requests: usize,
    tie_break: TieBreak,
) -> (r: SimResult<SimulationResult>)
    requires
        config_fits(
            ConfigV { servers: servers.deep_view(), requests: requests as int, tie_break },
        ),
    ensures
        outcome_matches(
            r,
            ConfigV { servers: servers.deep_view(), requests: requests as int, tie_break },
            crate::algorithms::initial_strategy(algorithm),
        ),
{
    let config = SimConfig { servers, requests, tie_break };
    let strategy = crate::algorithms::build_strategy(algorithm);
    let mut engine = SimulationEngine::new(config, strategy);
    engine.run()
}

} // verus!
