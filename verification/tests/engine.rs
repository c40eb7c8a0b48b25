use load_balancer_sim::algorithms::{build_strategy, LeastConnectionsStrategy, Strategy};
use load_balancer_sim::engine::{run_simulation, SimulationEngine};
use load_balancer_sim::error::SimError;
use load_balancer_sim::models::{Algorithm, Server, SimConfig, SimulationResult, TieBreak};

fn names(result: &SimulationResult) -> Vec<&str> {
    result
        .assignments
        .iter()
        .map(|assignment| assignment.server_name.as_str())
        .collect()
}

#[test]
fn least_connections_accounts_for_completed_requests() {
    let servers = vec![
        Server::test_at(0, "fast", 1, 1, 0, 0),
        Server::test_at(1, "slow", 100, 1, 0, 0),
    ];
    let config = SimConfig {
        servers,
        requests: 2,
        tie_break: TieBreak::Stable,
    };
    let mut engine = SimulationEngine::new(
        config,
        Strategy::LeastConnections(LeastConnectionsStrategy),
    );
    let result = engine.run().expect("simulation should succeed");
    assert_eq!(names(&result), vec!["fast", "fast"]);
}

#[test]
fn seeded_tiebreak_is_deterministic_in_engine() {
    let servers = vec![
        Server::test_at(0, "a", 1, 1, 0, 0),
        Server::test_at(1, "b", 1, 1, 0, 0),
        Server::test_at(2, "c", 1, 1, 0, 0),
    ];
    let config = SimConfig {
        servers: servers.clone(),
        requests: 3,
        tie_break: TieBreak::Seeded(42),
    };
    let mut engine_a = SimulationEngine::new(config, build_strategy(Algorithm::LeastConnections));
    let result_a = engine_a.run().expect("simulation should succeed");

    let config = SimConfig {
        servers,
        requests: 3,
        tie_break: TieBreak::Seeded(42),
    };
    let mut engine_b = SimulationEngine::new(config, build_strategy(Algorithm::LeastConnections));
    let result_b = engine_b.run().expect("simulation should succeed");

    assert_eq!(names(&result_a), names(&result_b));
}

#[test]
fn stable_runs_are_byte_identical() {
    let make = || SimConfig {
        servers: vec![
            Server::test_at(1, "a", 10, 2, 0, 0),
            Server::test_at(2, "b", 20, 1, 0, 0),
            Server::test_at(3, "c", 15, 3, 0, 0),
        ],
        requests: 9,
        tie_break: TieBreak::Stable,
    };
    for algo in [
        Algorithm::RoundRobin,
        Algorithm::WeightedRoundRobin,
        Algorithm::LeastConnections,
        Algorithm::LeastResponseTime,
    ] {
        let mut engine_a = SimulationEngine::new(make(), build_strategy(algo));
        let ra = engine_a.run().expect("simulation should succeed");
        let mut engine_b = SimulationEngine::new(make(), build_strategy(algo));
        let rb = engine_b.run().expect("simulation should succeed");

        assert_eq!(ra.assignments.len(), rb.assignments.len());
        for (x, y) in ra.assignments.iter().zip(rb.assignments.iter()) {
            assert_eq!(x.request_id, y.request_id);
            assert_eq!(x.server_id, y.server_id);
            assert_eq!(x.server_name, y.server_name);
            assert_eq!(x.score, y.score);
            assert_eq!(x.started_at, y.started_at);
            assert_eq!(x.completed_at, y.completed_at);
        }
        assert_eq!(ra.totals.len(), rb.totals.len());
        for (x, y) in ra.totals.iter().zip(rb.totals.iter()) {
            assert_eq!(x.name, y.name);
            assert_eq!(x.requests, y.requests);
            assert_eq!(x.avg_response_ms, y.avg_response_ms);
        }
    }
}

#[test]
fn every_algorithm_conserves_requests() {
    for algo in [
        Algorithm::RoundRobin,
        Algorithm::WeightedRoundRobin,
        Algorithm::LeastConnections,
        Algorithm::LeastResponseTime,
    ] {
        for tie_break in [TieBreak::Stable, TieBreak::Seeded(7)] {
            let servers = vec![
                Server::test_at(0, "a", 5, 1, 0, 0),
                Server::test_at(1, "b", 9, 2, 0, 0),
                Server::test_at(2, "c", 3, 4, 0, 0),
            ];
            let result =
                run_simulation(servers, algo, 11, tie_break).expect("simulation should succeed");
            let served: u64 = result.totals.iter().map(|summary| summary.requests).sum();
            assert_eq!(served, 11);
            assert_eq!(result.assignments.len(), 11);
        }
    }
}

#[test]
fn round_robin_fairness_splits_evenly() {
    let servers = vec![
        Server::test_at(0, "a", 4, 1, 0, 0),
        Server::test_at(1, "b", 4, 1, 0, 0),
        Server::test_at(2, "c", 4, 1, 0, 0),
    ];
    let result = run_simulation(servers, Algorithm::RoundRobin, 7, TieBreak::Stable)
        .expect("simulation should succeed");
    let served: Vec<u64> = result.totals.iter().map(|summary| summary.requests).collect();
    assert_eq!(served, vec![3, 2, 2]);
    let ids: Vec<u64> = result
        .assignments
        .iter()
        .map(|assignment| assignment.server_id)
        .collect();
    assert_eq!(ids, vec![0, 1, 2, 0, 1, 2, 0]);
}

#[test]
fn round_robin_scenario_summary() {
    let servers = vec![
        Server::test_at(0, "a", 10, 1, 0, 0),
        Server::test_at(1, "b", 20, 1, 0, 0),
    ];
    let result = run_simulation(servers, Algorithm::RoundRobin, 3, TieBreak::Stable)
        .expect("simulation should succeed");

    assert_eq!(names(&result), vec!["a", "b", "a"]);

    assert_eq!(result.totals.len(), 2);
    assert_eq!(result.totals[0].name, "a");
    assert_eq!(result.totals[0].requests, 2);
    assert_eq!(result.totals[0].avg_response_ms, 10);
    assert_eq!(result.totals[1].name, "b");
    assert_eq!(result.totals[1].requests, 1);
    assert_eq!(result.totals[1].avg_response_ms, 20);
}

#[test]
fn least_response_time_prefers_low_estimated_delay() {
    let servers = vec![
        Server::test_at(0, "fast", 10, 1, 0, 0),
        Server::test_at(1, "slow", 30, 1, 0, 0),
    ];
    let result = run_simulation(servers, Algorithm::LeastResponseTime, 2, TieBreak::Stable)
        .expect("simulation should succeed");

    assert_eq!(names(&result), vec!["fast", "fast"]);
    assert_eq!(result.assignments[0].score, Some(10));
    assert_eq!(result.assignments[1].score, Some(20));
    assert_eq!(result.totals[0].requests, 2);
    assert_eq!(result.totals[0].avg_response_ms, 10);
    assert_eq!(result.totals[1].requests, 0);
    assert_eq!(result.totals[1].avg_response_ms, 0);
}

#[test]
fn empty_server_list_is_rejected() {
    let result = run_simulation(Vec::new(), Algorithm::RoundRobin, 3, TieBreak::Stable);
    assert!(matches!(result, Err(SimError::EmptyServers)));
}

#[test]
fn zero_requests_are_rejected() {
    let servers = vec![Server::test_at(0, "a", 10, 1, 0, 0)];
    let result = run_simulation(servers, Algorithm::RoundRobin, 0, TieBreak::Stable);
    assert!(matches!(result, Err(SimError::RequestsZero)));
}

#[test]
fn duplicate_server_ids_are_rejected() {
    let servers = vec![
        Server::test_at(7, "a", 10, 1, 0, 0),
        Server::test_at(8, "b", 10, 1, 0, 0),
        Server::test_at(7, "c", 10, 1, 0, 0),
    ];
    let result = run_simulation(servers, Algorithm::RoundRobin, 3, TieBreak::Stable);
    assert!(matches!(result, Err(SimError::DuplicateServerId(7))));
}

#[test]
fn completion_frees_capacity_before_same_tick_arrival() {
    // The first request completes at tick 2, and that completion is
    // processed before the arrival at tick 2: least-connections sees the
    // fast server idle again and keeps routing to it.
    let servers = vec![
        Server::test_at(0, "fast", 1, 1, 0, 0),
        Server::test_at(1, "slow", 100, 1, 0, 0),
    ];
    let result = run_simulation(servers, Algorithm::LeastConnections, 2, TieBreak::Stable)
        .expect("simulation should succeed");
    assert_eq!(names(&result), vec!["fast", "fast"]);
    assert_eq!(result.assignments[0].started_at, 1);
    assert_eq!(result.assignments[0].completed_at, 2);
    assert_eq!(result.assignments[1].started_at, 2);
    assert_eq!(result.assignments[1].completed_at, 3);
}
