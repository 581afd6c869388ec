use fuzzerk::sigpro::vec_avg;

#[test]
fn test_vecavg() {
    let vtd11 = vec![1, 2, 3, 4, 5];
    let vtd12 = vec![1u32, 2, 3, 4, 5];
    let vtd13 = vec![1i32, 2, 3, 4, 5];
    let vtd21 = vec![1.1f32, 2.1, 3.1, 4.1, 5.1];
    let vtd22 = vec![1.1f64, 2.1, 3.1, 4.1, 5.1];
    assert_eq!(vec_avg(&vtd11), 3);
    assert_eq!(vec_avg(&vtd12), 3);
    assert_eq!(vec_avg(&vtd13), 3);
    assert!((vec_avg(&vtd21) - 3.1).abs() < 1e-5);
    assert!((vec_avg(&vtd22) - 3.1).abs() < 1e-12);
}

#[test]
fn average_of_integers_rounds_toward_zero() {
    assert_eq!(vec_avg(&vec![1u16, 2]), 1);
    assert_eq!(vec_avg(&vec![7u64]), 7);
    assert_eq!(vec_avg(&vec![-1i32, -2]), -1);
    assert_eq!(vec_avg(&vec![10u32, 20, 31]), 20);
}
