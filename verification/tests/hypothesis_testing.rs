use mathbox::estimator::mean_difference;
use mathbox::hypothesis_testing::{permutation_test, shuffle, significance_decision};
use mathbox::rational::Ratio;
use rand::SeedableRng;

#[test]
fn test_permutation_test() {
    let p_value = Ratio::new(1, 20);
    let n_permutations = 1000;

    let mut rng = rand::rngs::StdRng::seed_from_u64(42);
    let a = vec![1, 2, 3, 4, 5];
    let b = vec![11, 12, 13, 14, 15, 11, 12, 13, 14, 15];
    let hypothesis = |x: Vec<i64>, y: Vec<i64>| mean_difference(&x, &y);
    assert_eq!(
        permutation_test(&a, &b, hypothesis, p_value, n_permutations, &mut rng),
        false
    );

    // The same samples scaled into integers by a factor of one hundred: the
    // decision of a mean-difference permutation test is scale-invariant.
    let a = vec![101, 102, 103, 104, 105];
    let b = vec![99, 100, 101, 100, 101];
    let hypothesis = |x: Vec<i64>, y: Vec<i64>| mean_difference(&x, &y);
    assert_eq!(
        permutation_test(&a, &b, hypothesis, p_value, n_permutations, &mut rng),
        true
    );
}

#[test]
fn test_permutation_test_deterministic() {
    let p_value = Ratio::new(1, 20);
    let a = vec![3, 1, 4, 1, 5, 9, 2, 6];
    let b = vec![5, 3, 5, 8, 9, 7, 9, 3];
    let mut first = Vec::new();
    let mut second = Vec::new();
    for run in [&mut first, &mut second] {
        let mut rng = rand::rngs::StdRng::seed_from_u64(123);
        for _ in 0..5 {
            let hypothesis = |x: Vec<i64>, y: Vec<i64>| mean_difference(&x, &y);
            run.push(permutation_test(&a, &b, hypothesis, p_value, 200, &mut rng));
        }
    }
    assert_eq!(first, second);
}

#[test]
fn test_shuffle_is_permutation() {
    let original = vec![5, 3, 3, 9, 1, 0, 0, 7, 2, 8];
    let mut shuffled = original.clone();
    let mut rng = rand::rngs::StdRng::seed_from_u64(9);
    shuffle(&mut shuffled, &mut rng);
    assert_eq!(shuffled.len(), original.len());
    let mut a = original.clone();
    let mut b = shuffled.clone();
    a.sort();
    b.sort();
    assert_eq!(a, b);
    // With ten distinct positions the odds that a fresh shuffle leaves
    // everything in place are negligible; a generator that did nothing would
    // fail here.
    let mut moved = false;
    let mut rng2 = rand::rngs::StdRng::seed_from_u64(10);
    let mut again = original.clone();
    shuffle(&mut again, &mut rng2);
    for k in 0..original.len() {
        if again[k] != original[k] {
            moved = true;
        }
    }
    assert!(moved);
}

#[test]
fn test_significance_decision_boundary() {
    // p = count / (permutations + 1) <= 1/20: with 1000 trials the largest
    // accepted count is 50, since 50/1001 <= 1/20 < 51/1001.
    let p_value = Ratio::new(1, 20);
    assert!(significance_decision(50, 1000, p_value));
    assert!(!significance_decision(51, 1000, p_value));
    assert!(significance_decision(0, 1, p_value));
}
