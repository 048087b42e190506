use pair_anonymizer::allocate::allocate;
use rand::rngs::StdRng;
use rand::SeedableRng;

#[test]
fn allocation_is_a_permutation_of_the_range() {
    let mut rng = StdRng::seed_from_u64(11);
    let mut ids = allocate(5, 10, &mut rng);
    assert_eq!(ids.len(), 10);
    ids.sort();
    assert_eq!(ids, (5..15).collect::<Vec<u32>>());
}

#[test]
fn allocation_of_nothing_is_empty() {
    let mut rng = StdRng::seed_from_u64(1);
    assert!(allocate(1, 0, &mut rng).is_empty());
    assert!(allocate(u32::MAX, 0, &mut rng).is_empty());
}

#[test]
fn allocation_reaches_the_top_of_the_range() {
    let mut rng = StdRng::seed_from_u64(2);
    let mut ids = allocate(u32::MAX - 2, 3, &mut rng);
    ids.sort();
    assert_eq!(ids, vec![u32::MAX - 2, u32::MAX - 1, u32::MAX]);
}

#[test]
fn allocation_is_shuffled() {
    let mut rng = StdRng::seed_from_u64(3);
    let ids = allocate(1, 50, &mut rng);
    assert_ne!(ids, (1..51).collect::<Vec<u32>>());
}
