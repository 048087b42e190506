use pair_anonymizer::timestamp::{backdate, random_timestamp, MAX_AGE_SECS, MIN_AGE_SECS};
use rand::rngs::StdRng;
use rand::SeedableRng;

#[test]
fn window_constants() {
    assert_eq!(MIN_AGE_SECS, 3600);
    assert_eq!(MAX_AGE_SECS, 864000);
}

#[test]
fn backdate_subtracts_the_age() {
    assert_eq!(backdate(1_700_000_000, 3600), 1_699_996_400);
    assert_eq!(backdate(1_700_000_000, 864000), 1_699_136_000);
}

#[test]
fn random_timestamps_stay_in_window_and_vary() {
    let mut rng = StdRng::seed_from_u64(42);
    let now: i64 = 1_700_000_000;
    let mut times = Vec::new();
    for _ in 0..1000 {
        let t = random_timestamp(now, &mut rng);
        assert!(t >= now - 864000 && t <= now - 3600);
        times.push(t);
    }
    let ascending = times.windows(2).all(|w| w[0] <= w[1]);
    let descending = times.windows(2).all(|w| w[0] >= w[1]);
    assert!(!ascending && !descending);
}

#[test]
fn random_timestamp_near_the_smallest_now() {
    let mut rng = StdRng::seed_from_u64(5);
    let now = i64::MIN + 864000;
    let t = random_timestamp(now, &mut rng);
    assert!(t >= i64::MIN && t <= now - 3600);
}
