use mathbox::estimator::{energy_distance, energy_t_statistic, mean, mean_difference,
    pairwise_distance_sumavg};
use mathbox::rational::Ratio;

fn as_f64(r: Ratio) -> f64 {
    r.num as f64 / r.den as f64
}

#[test]
fn test_mean() {
    let series = vec![1, 2, 3, 4, 5];
    let m = mean(&series);
    assert_eq!(m.num, 15);
    assert_eq!(m.den, 5);
    assert_eq!(as_f64(m), 3.0);
}

#[test]
fn test_mean_difference() {
    let a = vec![4, 6];
    let b = vec![1, 2, 3];
    let d = mean_difference(&a, &b);
    // 5 - 2 = 3, held as 18/6: sums times opposite lengths over the product
    assert_eq!(d.num, 10 * 3 - 6 * 2);
    assert_eq!(d.den, 6);
    assert_eq!(as_f64(d), 3.0);
}

#[test]
fn test_pairwise_distance_sumavg() {
    let a = vec![0, 1, 2];
    let b = vec![4, 5];
    let r = pairwise_distance_sumavg(&a, &b);
    assert_eq!(as_f64(r), 3.5);
}

#[test]
fn test_energy_distatns() {
    let a = vec![0, 1, 2];
    let b = vec![4, 5];
    let r = energy_distance(&a, &b, false);
    assert!((as_f64(r) - 5.61111).abs() < 1e-3);
}

#[test]
fn test_energy_distance_exact() {
    // 2*3.5 - 8/9 - 1/2 = 101/18
    let a = vec![0, 1, 2];
    let b = vec![4, 5];
    let r = energy_distance(&a, &b, false);
    assert!(r.eq_value(&Ratio::new(101, 18)));
    assert!(Ratio::new(56, 10).lt(&r));
    assert!(r.le(&Ratio::new(57, 10)));
}

#[test]
fn test_energy_distance_identical_samples() {
    // Pointwise equal samples: zero distance, and the normalized form is
    // defined as zero as well.
    let a = vec![7, 7, 7];
    let b = vec![7, 7];
    let plain = energy_distance(&a, &b, false);
    assert_eq!(plain.num, 0);
    let norm = energy_distance(&a, &b, true);
    assert_eq!(norm.num, 0);
    assert_eq!(norm.den, 1);
}

#[test]
fn test_energy_distance_extreme_samples() {
    // The largest admissible magnitudes stay exact.
    let big: i64 = 0x10_0000;
    let a = vec![big, -big];
    let b = vec![-big];
    let r = energy_distance(&a, &b, false);
    // avg(a,b) = big; within a = big; within b = 0: 2*big - big - 0 = big
    assert!(r.eq_value(&Ratio::new(big as i128, 1)));
}

#[test]
fn test_energy_t_statistic_weighting() {
    // The split statistic equals the normalized distance times n*m/(n+m).
    let a = vec![0, 0, 1];
    let b = vec![9, 8];
    let t = energy_t_statistic(&a, &b);
    let e = energy_distance(&a, &b, true);
    // t == e * 6/5, compared as exact rationals by cross multiplication
    assert_eq!(t.num * 5 * e.den, e.num * 6 * t.den);
}
