use mathbox::change_points::{calculate_t_stats, e_divisive, InvalidInput};
use mathbox::rational::Ratio;
use rand::SeedableRng;

fn p05() -> Ratio {
    Ratio::new(1, 20)
}

#[test]
fn test_calculate_t_stats() {
    let data_1 = vec![0, 0, 0, 0, 0, 0, 1, 1, 1, 1, 1, 5, 5, 5, 5, 5];
    let mut rng = rand::rngs::StdRng::seed_from_u64(17);
    let (idx, _) = calculate_t_stats(&data_1, 3, p05(), 100, &mut rng)
        .unwrap()
        .unwrap();
    assert_eq!(idx, 10); // maybe 5
}

#[test]
fn test_e_divisive() {
    let data_1 = vec![0, 0, 0, 0, 0, 0, 1, 1, 1, 1, 1, 5, 5, 5, 5, 5];
    let mut rng = rand::rngs::StdRng::seed_from_u64(17);
    let _cp = e_divisive(&data_1, 3, p05(), 100, &mut rng).unwrap();
    let mut cp = _cp.clone();
    cp.sort();
    assert_eq!(cp, vec![5, 10]);
}

#[test]
fn test_e_divisive_deterministic() {
    // A fixed signal, fixed parameters and a fixed seed reproduce the same
    // change points on every run.
    let data: Vec<i64> = (0..64).map(|k| (k * 13 % 11) + if k >= 32 { 40 } else { 0 }).collect();
    let mut rng_a = rand::rngs::StdRng::seed_from_u64(2024);
    let mut rng_b = rand::rngs::StdRng::seed_from_u64(2024);
    let first = e_divisive(&data, 4, p05(), 150, &mut rng_a).unwrap();
    let second = e_divisive(&data, 4, p05(), 150, &mut rng_b).unwrap();
    assert_eq!(first, second);
}

#[test]
fn test_split_scanner_idempotent_null() {
    // A window that yields "no split" yields it again on a rerun with
    // identical arguments, the generator's seed included.
    let data = vec![0, 5, 0];
    let mut rng_a = rand::rngs::StdRng::seed_from_u64(31);
    let mut rng_b = rand::rngs::StdRng::seed_from_u64(31);
    let first = calculate_t_stats(&data, 1, p05(), 100, &mut rng_a).unwrap();
    let second = calculate_t_stats(&data, 1, p05(), 100, &mut rng_b).unwrap();
    assert!(first.is_none());
    assert!(second.is_none());
}

#[test]
fn test_scanner_declines_short_window() {
    // A window shorter than `jump` is declined without error, with no
    // randomness involved at all.
    let data = vec![1, 2, 3];
    let mut rng = rand::rngs::StdRng::seed_from_u64(0);
    let r = calculate_t_stats(&data, 5, p05(), 100, &mut rng).unwrap();
    assert!(r.is_none());
}

#[test]
fn test_scanner_empty_scan_error() {
    // One sample passes a jump gate of one but leaves no candidate split.
    let data = vec![4];
    let mut rng = rand::rngs::StdRng::seed_from_u64(0);
    let r = calculate_t_stats(&data, 1, p05(), 100, &mut rng);
    assert_eq!(r, Err(InvalidInput::EmptyScan));
}

#[test]
fn test_e_divisive_short_signal_error() {
    let mut rng = rand::rngs::StdRng::seed_from_u64(0);
    assert_eq!(
        e_divisive(&vec![7], 2, p05(), 100, &mut rng),
        Err(InvalidInput::SignalTooShort)
    );
    let mut rng = rand::rngs::StdRng::seed_from_u64(0);
    assert_eq!(
        e_divisive(&vec![], 2, p05(), 100, &mut rng),
        Err(InvalidInput::SignalTooShort)
    );
}

#[test]
fn test_e_divisive_constant_signal() {
    // Every window of a constant signal has a zero statistic everywhere; the
    // only candidate the controller sees collides with the left boundary, so
    // nothing is recorded.
    let data = vec![3; 32];
    let mut rng = rand::rngs::StdRng::seed_from_u64(5);
    let cp = e_divisive(&data, 2, p05(), 50, &mut rng).unwrap();
    assert!(cp.is_empty());
}

#[test]
fn test_e_divisive_plateaus() {
    // Six plateaus of a hundred samples with small additive noise: the five
    // level changes are recovered up to a few samples.
    let levels: [i64; 6] = [100, 3000, 200, 3000, 4000, 500];
    let mut signal: Vec<i64> = Vec::new();
    for (li, lv) in levels.iter().enumerate() {
        for k in 0..100 {
            let idx = (li * 100 + k) as i64;
            signal.push(lv + (idx * 37 % 7) - 3);
        }
    }
    let mut rng = rand::rngs::StdRng::seed_from_u64(77);
    let mut cp = e_divisive(&signal, 7, p05(), 100, &mut rng).unwrap();
    cp.sort();
    assert_eq!(cp.len(), 5);
    let targets = [100usize, 200, 300, 400, 500];
    for (found, target) in cp.iter().zip(targets.iter()) {
        let diff = if found > target { found - target } else { target - found };
        assert!(diff <= 5, "change point {} too far from {}", found, target);
    }
    for &c in cp.iter() {
        assert!(0 < c && c < signal.len() - 1);
    }
}
