use optimal_transport_agents::distribution::{
    sample_draws, sample_index, LCG_INCREMENT, LCG_MULTIPLIER, SAMPLE_SEED,
};
use optimal_transport_agents::SimpleRng;

#[test]
fn rng_first_draws_from_seed_42() {
    let mut rng = SimpleRng::new(42);
    let expected: [u32; 5] = [1220265334, 484179026, 886563538, 1353769503, 1460606294];
    for e in expected.iter() {
        assert_eq!(rng.next_raw(), *e);
    }
}

#[test]
fn rng_steps_from_zero() {
    let mut rng = SimpleRng::new(0);
    // First state is the increment itself.
    assert_eq!(rng.next_raw() as u64, LCG_INCREMENT >> 33);
    assert_eq!(rng.next_raw(), ({
        let s = LCG_INCREMENT.wrapping_mul(LCG_MULTIPLIER).wrapping_add(LCG_INCREMENT);
        (s >> 33) as u32
    }));
    assert_eq!(LCG_INCREMENT >> 33, 167951807);
}

#[test]
fn rng_is_deterministic() {
    let mut a = SimpleRng::new(7);
    let mut b = SimpleRng::new(7);
    for _ in 0..50 {
        assert_eq!(a.next_raw(), b.next_raw());
    }
}

#[test]
fn rng_draws_map_into_unit_interval() {
    let mut rng = SimpleRng::new(123456789);
    for _ in 0..1000 {
        let x = rng.next_raw();
        assert!(x < 0x8000_0000);
        let u = x as f64 / (1u64 << 31) as f64;
        assert!((0.0..1.0).contains(&u));
    }
}

#[test]
fn sample_draws_follow_the_seeded_generator() {
    assert_eq!(SAMPLE_SEED, 42);
    let draws = sample_draws(100);
    assert_eq!(draws.len(), 100);
    let mut rng = SimpleRng::new(SAMPLE_SEED);
    for d in &draws {
        assert_eq!(*d, rng.next_raw());
    }
    assert_eq!(&draws[..2], &[1220265334u32, 484179026u32][..]);
    assert!(sample_draws(0).is_empty());
}

#[test]
fn sample_index_found_and_clamped() {
    assert_eq!(sample_index(3, Ok(1)), 1);
    assert_eq!(sample_index(3, Err(0)), 0);
    assert_eq!(sample_index(3, Err(2)), 2);
    assert_eq!(sample_index(3, Err(3)), 2);
    assert_eq!(sample_index(1, Err(1)), 0);
}

#[test]
fn samples_of_two_point_distribution_are_support_points() {
    // Uniform weights over two points: cumulative weights [0.5, 1.0].
    let points = [0.0f64, 1.0f64];
    let cdf = [0.5f64, 1.0f64];
    let draws = sample_draws(100);
    let mut samples = Vec::new();
    for d in &draws {
        let u = *d as f64 / (1u64 << 31) as f64;
        let search = cdf.binary_search_by(|v| v.partial_cmp(&u).unwrap());
        samples.push(points[sample_index(points.len(), search)]);
    }
    assert_eq!(samples.len(), 100);
    for s in &samples {
        assert!(*s == 0.0 || *s == 1.0);
    }
    // The first draw 1220265334 / 2^31 ≈ 0.568 falls in the second cell.
    assert_eq!(samples[0], 1.0);
}
