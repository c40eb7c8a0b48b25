use load_balancer_sim::models::{Algorithm, TieBreak};
use load_balancer_sim::output::{
    algo_name, format_requests, format_tie_break, u64_to_string, RequestProfile,
};

#[test]
fn algo_names_match_cli_spellings() {
    assert_eq!(algo_name(&Algorithm::RoundRobin), "round-robin");
    assert_eq!(algo_name(&Algorithm::WeightedRoundRobin), "weighted-round-robin");
    assert_eq!(algo_name(&Algorithm::LeastConnections), "least-connections");
    assert_eq!(algo_name(&Algorithm::LeastResponseTime), "least-response-time");
}

#[test]
fn numbers_render_in_decimal() {
    assert_eq!(u64_to_string(0), "0");
    assert_eq!(u64_to_string(7), "7");
    assert_eq!(u64_to_string(10), "10");
    assert_eq!(u64_to_string(1234567890), "1234567890");
    assert_eq!(u64_to_string(u64::MAX), "18446744073709551615");
}

#[test]
fn request_profiles_render() {
    assert_eq!(format_requests(&RequestProfile::FixedCount(3)), "3");
    assert_eq!(
        format_requests(&RequestProfile::Poisson { rate: 5, duration_ms: 1000 }),
        "poisson(rate=5, duration_ms=1000)"
    );
}

#[test]
fn tie_break_modes_render() {
    assert_eq!(format_tie_break(&TieBreak::Stable), "stable");
    assert_eq!(format_tie_break(&TieBreak::Seeded(42)), "seeded(42)");
}
