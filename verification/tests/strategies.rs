use load_balancer_sim::algorithms::{
    LeastConnectionsStrategy, LeastResponseTimeStrategy, RoundRobinStrategy,
    WeightedRoundRobinStrategy,
};
use load_balancer_sim::models::{Server, TieBreak};
use load_balancer_sim::tie::TieSource;

use rand::Rng;
use rand::SeedableRng;

#[test]
fn least_connections_prefers_lowest_active_connections() {
    let servers = vec![
        Server::test_at(0, "a", 10, 1, 3, 0),
        Server::test_at(1, "b", 10, 1, 1, 0),
        Server::test_at(2, "c", 10, 1, 2, 0),
    ];
    let mut source = TieSource::new(TieBreak::Seeded(1));
    let mut strategy = LeastConnectionsStrategy::default();

    assert_eq!(strategy.select(&servers, &mut source).server_id, 1);
}

#[test]
fn least_connections_uses_seeded_tiebreak() {
    let servers = vec![
        Server::test_at(0, "a", 10, 1, 1, 0),
        Server::test_at(1, "b", 10, 1, 1, 0),
        Server::test_at(2, "c", 10, 1, 1, 0),
    ];
    let candidates = [0usize, 1, 2];
    let mut rng = rand::rngs::StdRng::seed_from_u64(42);
    let expected = {
        let choice = rng.gen_range(0..candidates.len());
        candidates[choice]
    };

    let mut source = TieSource::new(TieBreak::Seeded(42));
    let mut strategy = LeastConnectionsStrategy::default();

    assert_eq!(strategy.select(&servers, &mut source).server_id, expected);
}

#[test]
fn round_robin_cycles_indices() {
    let servers = vec![
        Server::test_at(0, "a", 10, 1, 0, 0),
        Server::test_at(1, "b", 10, 1, 0, 0),
        Server::test_at(2, "c", 10, 1, 0, 0),
    ];
    let mut source = TieSource::new(TieBreak::Seeded(1));
    let mut strategy = RoundRobinStrategy::default();

    assert_eq!(strategy.select(&servers, &mut source).server_id, 0);
    assert_eq!(strategy.select(&servers, &mut source).server_id, 1);
    assert_eq!(strategy.select(&servers, &mut source).server_id, 2);
    assert_eq!(strategy.select(&servers, &mut source).server_id, 0);
}

#[test]
fn weighted_round_robin_respects_weights() {
    let servers = vec![
        Server::test_at(0, "a", 10, 2, 0, 0),
        Server::test_at(1, "b", 10, 1, 0, 0),
    ];
    let mut source = TieSource::new(TieBreak::Seeded(1));
    let mut strategy = WeightedRoundRobinStrategy::default();

    let picks: Vec<usize> = (0..6)
        .map(|_| strategy.select(&servers, &mut source).server_id)
        .collect();
    assert_eq!(picks, vec![0, 0, 1, 0, 0, 1]);
}

#[test]
fn least_connections_stable_takes_first_tied_candidate() {
    let servers = vec![
        Server::test_at(0, "a", 10, 1, 2, 0),
        Server::test_at(1, "b", 10, 1, 1, 0),
        Server::test_at(2, "c", 10, 1, 1, 0),
    ];
    let mut source = TieSource::new(TieBreak::Stable);
    let mut strategy = LeastConnectionsStrategy::default();

    assert_eq!(strategy.select(&servers, &mut source).server_id, 1);
}

#[test]
fn least_response_time_reports_load_inflated_score() {
    let servers = vec![
        Server::test_at(0, "busy", 10, 1, 3, 0),
        Server::test_at(1, "idle", 25, 1, 0, 0),
    ];
    let mut source = TieSource::new(TieBreak::Stable);
    let mut strategy = LeastResponseTimeStrategy::default();

    let selection = strategy.select(&servers, &mut source);
    assert_eq!(selection.server_id, 1);
    assert_eq!(selection.score, Some(25));
}

#[test]
fn round_robin_reports_no_score() {
    let servers = vec![Server::test_at(0, "a", 10, 1, 0, 0)];
    let mut source = TieSource::new(TieBreak::Stable);
    let mut strategy = RoundRobinStrategy::default();

    assert_eq!(strategy.select(&servers, &mut source).score, None);
}
