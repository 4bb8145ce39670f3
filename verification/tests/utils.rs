use mathbox::utils::{argmax, argsort};

#[test]
fn test_argmax() {
    let a = vec![1, 2, 3, 4];
    assert_eq!(argmax(&a), 3);
    let a = vec![1.0, 2.0, 3.0, 0.4];
    assert_eq!(argmax(&a), 2);
}

#[test]
fn test_argsort() {
    let data = vec![-5, 4, 1, -3, 2];
    let expected = vec![0, 3, 2, 4, 1];
    assert_eq!(argsort(&data, false), expected);
    let data = vec![-5., 4., 1., -3., 2.];
    let expected = vec![0, 3, 2, 4, 1];
    let ex_reverse = vec![1, 4, 2, 3, 0];
    assert_eq!(argsort(&data, false), expected);
    assert_eq!(argsort(&data, true), ex_reverse);
}

#[test]
fn test_argmax_first_of_ties() {
    let a = vec![2, 7, 7, 1];
    assert_eq!(argmax(&a), 1);
}
