use dsp::math::diff;
use dsp::math::dotprod::dot;

#[test]
fn test_diff() {
    let xs: Vec<i32> = (0..5).into_iter().collect();
    let dxs: Vec<i32> = diff(&xs);
    assert_eq!(dxs.len(), 4);
    assert!(itertools::equal(diff(&xs), [1, 1, 1, 1]));
}

#[test]
fn diff_of_uneven_steps() {
    assert_eq!(diff(&[3, 1, 4, 1, 5]), vec![-2, 3, -3, 4]);
    assert_eq!(diff(&[7]), Vec::<i32>::new());
    assert_eq!(diff(&[]), Vec::<i32>::new());
}

#[test]
fn dot_of_ones() {
    let a = [1i32; 20];
    let b = [1i32; 20];
    assert_eq!(a.len(), b.len());
    assert_eq!(a.len() as i128, dot(&a, &b));
}

#[test]
fn dot_uses_common_length_and_wide_sum() {
    assert_eq!(dot(&[1, 2, 3], &[4, 5]), 14);
    assert_eq!(dot(&[i32::MIN, i32::MIN], &[i32::MIN, i32::MIN]), 2 * (1i128 << 62));
    assert_eq!(dot(&[], &[1, 2]), 0);
}
