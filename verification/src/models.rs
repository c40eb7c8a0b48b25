//! Data model of a simulation run: servers, configuration, assignments,
//! summaries, and their mathematical views.

use vstd::prelude::*;

verus! {

/// How ties among equally good servers are resolved: `Stable` always takes
/// the first candidate, `Seeded` draws from a pseudo-random generator
/// initialized once from the given 64-bit seed.
#[derive(Clone, Copy, PartialEq, Eq, Structural, Debug)]
pub enum TieBreak {
    Stable,
    Seeded(u64),
}

/// The four selection policies the engine can simulate.
#[derive(Clone, Copy, PartialEq, Eq, Structural, Debug)]
pub enum Algorithm {
    RoundRobin,
    WeightedRoundRobin,
    LeastConnections,
    LeastResponseTime,
}

/// One server of the pool, together with its mutable per-run load counters.
#[derive(Clone, Debug)]
pub struct ServerState {
    /// Unique, stable identifier, assigned by input order.
    pub id: u64,
    pub name: String,
    /// Response time of a request landing on an otherwise idle server; > 0.
    pub base_latency_ms: u64,
    /// Relative share for weight-aware strategies; > 0.
    pub weight: u64,
    /// Requests currently being served.
    pub active_connections: u64,
    /// Cumulative times this server has been chosen.
    pub pick_count: u64,
}

pub type Server = ServerState;

/// Mathematical view of a [`ServerState`].
#[verifier::ext_equal]
pub ghost struct ServerV {
    pub id: int,
    pub name: Seq<char>,
    pub base_latency_ms: int,
    pub weight: int,
    pub active_connections: int,
    pub pick_count: int,
}

impl View for ServerState {
    type V = ServerV;

    open spec fn view(&self) -> ServerV {
        ServerV {
            id: self.id as int,
            name: self.name@,
            base_latency_ms: self.base_latency_ms as int,
            weight: self.weight as int,
            active_connections: self.active_connections as int,
            pick_count: self.pick_count as int,
        }
    }
}

impl DeepView for ServerState {
    type V = ServerV;

    open spec fn deep_view(&self) -> ServerV {
        self.view()
    }
}

impl ServerState {
    /// A server in a chosen load state, convenient for building scenarios.
    pub fn test_at(
        id: u64,
        name: &str,
        base_latency_ms: u64,
        weight: u64,
        active_connections: u64,
        pick_count: u64,
    ) -> (s: ServerState)
        ensures
            s@ == (ServerV {
                id: id as int,
                name: name@,
                base_latency_ms: base_latency_ms as int,
                weight: weight as int,
                active_connections: active_connections as int,
                pick_count: pick_count as int,
            }),
    {
        ServerState {
            id,
            name: name.to_owned(),
            base_latency_ms,
            weight,
            active_connections,
            pick_count,
        }
    }
}

/// Immutable description of one run.
#[derive(Clone, Debug)]
pub struct SimConfig {
    /// Ordered server pool; ids must be pairwise distinct.
    pub servers: Vec<ServerState>,
    /// Number of synthetic requests; > 0.
    pub requests: usize,
    pub tie_break: TieBreak,
}

/// Mathematical view of a [`SimConfig`].
#[verifier::ext_equal]
pub ghost struct ConfigV {
    pub servers: Seq<ServerV>,
    pub requests: int,
    pub tie_break: TieBreak,
}

impl View for SimConfig {
    type V = ConfigV;

    open spec fn view(&self) -> ConfigV {
        ConfigV {
            servers: self.servers.deep_view(),
            requests: self.requests as int,
            tie_break: self.tie_break,
        }
    }
}

/// The routing decision recorded for one request.
#[derive(Clone, Debug)]
pub struct Assignment {
    /// 1-based request id, equal to the request's arrival order.
    pub request_id: usize,
    /// Id of the chosen server (the configured id, not its index).
    pub server_id: u64,
    pub server_name: String,
    /// Decision metric, present only for score-based strategies.
    pub score: Option<u64>,
    pub started_at: u64,
    /// `started_at` plus the chosen server's base latency.
    pub completed_at: u64,
}

/// Mathematical view of an [`Assignment`].
#[verifier::ext_equal]
pub ghost struct AssignmentV {
    pub request_id: int,
    pub server_id: int,
    pub server_name: Seq<char>,
    pub score: Option<int>,
    pub started_at: int,
    pub completed_at: int,
}

impl View for Assignment {
    type V = AssignmentV;

    open spec fn view(&self) -> AssignmentV {
        AssignmentV {
            request_id: self.request_id as int,
            server_id: self.server_id as int,
            server_name: self.server_name@,
            score: match self.score {
                Some(s) => Some(s as int),
                None => None,
            },
            started_at: self.started_at as int,
            completed_at: self.completed_at as int,
        }
    }
}

impl DeepView for Assignment {
    type V = AssignmentV;

    open spec fn deep_view(&self) -> AssignmentV {
        self.view()
    }
}

/// Aggregate load statistics of one server over a finished run.
#[derive(Clone, Debug)]
pub struct ServerSummary {
    pub name: String,
    pub requests: u64,
    /// Total response time divided by `requests` (0 when no request came).
    pub avg_response_ms: u64,
}

/// Mathematical view of a [`ServerSummary`].
#[verifier::ext_equal]
pub ghost struct ServerSummaryV {
    pub name: Seq<char>,
    pub requests: int,
    pub avg_response_ms: int,
}

impl View for ServerSummary {
    type V = ServerSummaryV;

    open spec fn view(&self) -> ServerSummaryV {
        ServerSummaryV {
            name: self.name@,
            requests: self.requests as int,
            avg_response_ms: self.avg_response_ms as int,
        }
    }
}

impl DeepView for ServerSummary {
    type V = ServerSummaryV;

    open spec fn deep_view(&self) -> ServerSummaryV {
        self.view()
    }
}

/// Everything a finished run produces.
#[derive(Clone, Debug)]
pub struct SimulationResult {
    /// One entry per request, in request-id order.
    pub assignments: Vec<Assignment>,
    /// One entry per server, in input server order.
    pub totals: Vec<ServerSummary>,
    /// Echo of the tie-break mode used.
    pub tie_break: TieBreak,
}

/// Mathematical view of a [`SimulationResult`].
#[verifier::ext_equal]
pub ghost struct SimulationResultV {
    pub assignments: Seq<AssignmentV>,
    pub totals: Seq<ServerSummaryV>,
    pub tie_break: TieBreak,
}

impl View for SimulationResult {
    type V = SimulationResultV;

    open spec fn view(&self) -> SimulationResultV {
        SimulationResultV {
            assignments: self.assignments.deep_view(),
            totals: self.totals.deep_view(),
            tie_break: self.tie_break,
        }
    }
}

/// Mutable state the engine owns during a run.
pub struct EngineState {
    pub time_ms: u64,
    pub servers: Vec<ServerState>,
    pub assignments: Vec<Assignment>,
}

} // verus!
