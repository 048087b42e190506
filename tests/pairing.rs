use pair_anonymizer::pairing::{get_paired_files, get_unpaired_files};

fn names(v: &[&str]) -> Vec<String> {
    v.iter().map(|s| s.to_string()).collect()
}

#[test]
fn classifies_scenario_listings() {
    let a = names(&["cat.png", "dog.png"]);
    let b = names(&["cat.png", "bird.png"]);
    assert_eq!(get_paired_files(a.clone(), b.clone()), names(&["cat.png"]));
    assert_eq!(get_unpaired_files(a.clone(), b.clone()), names(&["dog.png"]));
    assert_eq!(get_unpaired_files(b, a), names(&["bird.png"]));
}

#[test]
fn pairing_covers_both_sides_without_overlap() {
    let a = names(&["1.jpg", "2.jpg", "3.jpg", "x.txt"]);
    let b = names(&["3.jpg", "4.jpg", "1.jpg"]);
    let paired = get_paired_files(a.clone(), b.clone());
    let only_a = get_unpaired_files(a.clone(), b.clone());
    let only_b = get_unpaired_files(b.clone(), a.clone());
    assert_eq!(paired, names(&["1.jpg", "3.jpg"]));
    assert_eq!(only_a, names(&["2.jpg", "x.txt"]));
    assert_eq!(only_b, names(&["4.jpg"]));
    let mut side_a: Vec<String> = paired.iter().chain(only_a.iter()).cloned().collect();
    side_a.sort();
    let mut sorted_a = a.clone();
    sorted_a.sort();
    assert_eq!(side_a, sorted_a);
    let mut side_b: Vec<String> = paired.iter().chain(only_b.iter()).cloned().collect();
    side_b.sort();
    let mut sorted_b = b.clone();
    sorted_b.sort();
    assert_eq!(side_b, sorted_b);
    for n in &only_a {
        assert!(!paired.contains(n) && !only_b.contains(n));
    }
}

#[test]
fn empty_side_leaves_everything_unpaired() {
    let a = names(&["a.png", "b.png"]);
    let b: Vec<String> = Vec::new();
    assert!(get_paired_files(a.clone(), b.clone()).is_empty());
    assert_eq!(get_unpaired_files(a.clone(), b.clone()), a);
    assert!(get_unpaired_files(b, a).is_empty());
}

#[test]
fn matching_compares_the_whole_name() {
    let a = names(&["cat.png"]);
    let b = names(&["cat.jpg"]);
    assert!(get_paired_files(a.clone(), b.clone()).is_empty());
    assert_eq!(get_unpaired_files(a, b), names(&["cat.png"]));
}
