use load_balancer_sim::models::TieBreak;
use load_balancer_sim::tie::TieSource;

use rand::Rng;
use rand::SeedableRng;

#[test]
fn stable_source_always_yields_first_index() {
    let mut source = TieSource::new(TieBreak::Stable);
    for bound in [1u64, 2, 3, 100, u64::MAX] {
        assert_eq!(source.draw(bound), 0);
    }
}

#[test]
fn seeded_source_matches_seeded_generator() {
    let bounds = [3u64, 5, 7, 2, 100, 1, 64];
    for seed in 0..20u64 {
        let mut source = TieSource::new(TieBreak::Seeded(seed));
        let mut rng = rand::rngs::StdRng::seed_from_u64(seed);
        for &bound in &bounds {
            let drawn = source.draw(bound);
            let expected = rng.gen_range(0..bound);
            assert_eq!(drawn, expected);
            assert!(drawn < bound);
        }
    }
}

#[test]
fn equal_seeds_draw_equal_sequences() {
    let mut a = TieSource::new(TieBreak::Seeded(99));
    let mut b = TieSource::new(TieBreak::Seeded(99));
    for bound in [10u64, 9, 8, 7, 6, 5, 4, 3, 2] {
        assert_eq!(a.draw(bound), b.draw(bound));
    }
}
