use pair_anonymizer::plan::{
    plan_batch, plan_pair, refactor_paired_file, refactor_unpaired_files, PairPlan, PlanError,
};
use rand::rngs::StdRng;
use rand::SeedableRng;

fn names(v: &[&str]) -> Vec<String> {
    v.iter().map(|s| s.to_string()).collect()
}

fn plan(a: &[&str], b: &[&str], seed: u64) -> PairPlan {
    let mut rng = StdRng::seed_from_u64(seed);
    match plan_pair(names(a), names(b), &mut rng) {
        Ok(p) => p,
        Err(e) => panic!("unexpected error {:?}", e),
    }
}

#[test]
fn scenario_pair_gets_one_name_on_both_sides() {
    let p = plan(&["cat.png", "dog.png"], &["cat.png", "bird.png"], 9);
    assert_eq!(p.paired_ids, vec![1]);
    assert_eq!(p.ids_a, vec![2]);
    assert_eq!(p.ids_b, vec![2]);
    assert_eq!(p.side_a.stage[0].from, "cat.png");
    assert_eq!(p.side_b.stage[0].from, "cat.png");
    assert_eq!(p.side_a.commit[0].to, "1.png");
    assert_eq!(p.side_b.commit[0].to, "1.png");
    assert_eq!(p.side_a.stage[1].from, "dog.png");
    assert_eq!(p.side_a.commit[1].to, "2.png");
    assert_eq!(p.side_b.stage[1].from, "bird.png");
    assert_eq!(p.side_b.commit[1].to, "2.png");
}

#[test]
fn staging_goes_through_temporary_names() {
    let p = plan(&["cat.png", "dog.jpg"], &["cat.png"], 1);
    assert_eq!(p.side_a.stage[0].to, "temp_name0.png");
    assert_eq!(p.side_a.stage[1].to, "temp_name1.jpg");
    assert_eq!(p.side_a.commit[0].from, "temp_name0.png");
    assert_eq!(p.side_a.commit[1].from, "temp_name1.jpg");
    assert_eq!(p.side_b.stage.len(), 1);
    assert_eq!(p.side_b.commit[0].from, "temp_name0.png");
}

#[test]
fn identities_never_repeat_within_a_directory() {
    let a: Vec<String> = (0..30).map(|i| format!("f{}.bin", i)).collect();
    let b: Vec<String> = (15..40).map(|i| format!("f{}.bin", i)).collect();
    let mut rng = StdRng::seed_from_u64(77);
    let p = plan_pair(a, b, &mut rng).unwrap_or_else(|e| panic!("{:?}", e));
    assert_eq!(p.paired_ids.len(), 15);
    let mut side_a: Vec<u32> = p.paired_ids.iter().chain(p.ids_a.iter()).cloned().collect();
    side_a.sort();
    assert_eq!(side_a, (1..31).collect::<Vec<u32>>());
    let mut side_b: Vec<u32> = p.paired_ids.iter().chain(p.ids_b.iter()).cloned().collect();
    side_b.sort();
    assert_eq!(side_b, (1..26).collect::<Vec<u32>>());
    for i in 0..15 {
        assert_eq!(p.side_a.commit[i].to, p.side_b.commit[i].to);
        assert_eq!(p.side_a.stage[i].from, p.side_b.stage[i].from);
    }
}

#[test]
fn extensions_and_counts_are_kept() {
    let p = plan(&["a.png", "b.jpg", "c.tar.gz"], &["b.jpg", "d.txt"], 4);
    for side in [&p.side_a, &p.side_b] {
        assert_eq!(side.stage.len(), side.commit.len());
        let mut before: Vec<String> =
            side.stage.iter().map(|r| r.from.splitn(2, '.').nth(1).unwrap().to_string()).collect();
        let mut after: Vec<String> =
            side.commit.iter().map(|r| r.to.splitn(2, '.').nth(1).unwrap().to_string()).collect();
        before.sort();
        after.sort();
        assert_eq!(before, after);
    }
    assert_eq!(p.side_a.stage.len(), 3);
    assert_eq!(p.side_b.stage.len(), 2);
}

#[test]
fn empty_pair_plans_no_renames() {
    let p = plan(&[], &[], 0);
    assert!(p.side_a.stage.is_empty() && p.side_a.commit.is_empty());
    assert!(p.side_b.stage.is_empty() && p.side_b.commit.is_empty());
    assert!(p.paired_ids.is_empty());
}

#[test]
fn malformed_name_is_reported() {
    let mut rng = StdRng::seed_from_u64(0);
    match plan_pair(names(&["ok.png"]), names(&["README"]), &mut rng) {
        Err(PlanError::MalformedName(n)) => assert_eq!(n, "README"),
        Ok(_) => panic!("expected an error"),
    }
    match plan_pair(names(&["noext", "x.png"]), names(&["x.png"]), &mut rng) {
        Err(PlanError::MalformedName(n)) => assert_eq!(n, "noext"),
        Ok(_) => panic!("expected an error"),
    }
}

#[test]
fn batch_plan_points_at_the_malformed_index() {
    let files = names(&["a.png", "b", "c.png"]);
    match plan_batch(&files, &vec![1, 2, 3], 0) {
        Err(i) => assert_eq!(i, 1),
        Ok(_) => panic!("expected an error"),
    }
    let p = plan_batch(&names(&["a.png", "b.gif"]), &vec![8, 3], 5).unwrap();
    assert_eq!(p.commit[0].to, "8.png");
    assert_eq!(p.commit[1].to, "3.gif");
    assert_eq!(p.stage[0].to, "temp_name5.png");
    assert_eq!(p.commit[1].from, "temp_name6.gif");
}

#[test]
fn paired_files_take_the_lowest_identities() {
    let mut rng = StdRng::seed_from_u64(21);
    let (ids, p) = refactor_paired_file(names(&["a.png", "b.png", "c.png"]), &mut rng).unwrap();
    let mut sorted = ids.clone();
    sorted.sort();
    assert_eq!(sorted, vec![1, 2, 3]);
    for i in 0..3 {
        assert_eq!(p.commit[i].to, format!("{}.png", ids[i]));
        assert_eq!(p.stage[i].to, format!("temp_name{}.png", i));
    }
    assert_eq!(refactor_paired_file(names(&["a.png", "bad"]), &mut rng).err(), Some(1));
}

#[test]
fn unpaired_files_follow_the_paired_range() {
    let mut rng = StdRng::seed_from_u64(22);
    let (ids, p) = refactor_unpaired_files(names(&["x.jpg", "y.gif"]), 4, &mut rng).unwrap();
    let mut sorted = ids.clone();
    sorted.sort();
    assert_eq!(sorted, vec![5, 6]);
    assert_eq!(p.stage[0].to, "temp_name4.jpg");
    assert_eq!(p.stage[1].to, "temp_name5.gif");
    assert_eq!(p.commit[1].to, format!("{}.gif", ids[1]));
    assert_eq!(refactor_unpaired_files(names(&["nodot"]), 0, &mut rng).err(), Some(0));
}
