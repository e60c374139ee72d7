use dsp::collections::pfb::{decompose, PFB};
use dsp::error::DspError;

#[test]
fn test_decompose() {
    let h: Vec<i32> = (0..11).into_iter().collect();
    let subfilters = decompose(&h, 4).unwrap();
    assert_eq!(
        subfilters,
        vec![vec![0, 4, 8], vec![1, 5, 9], vec![2, 6, 10], vec![3, 7, 0]]
    );
}

#[test]
fn test_index() {
    let h: Vec<i32> = (0..11).into_iter().collect();
    let pfb = PFB::with_taps(&h, 4).unwrap();
    assert_eq!(pfb.row(0), [0, 4, 8]);
    assert_eq!(pfb.row(1), [1, 5, 9]);
    assert_eq!(pfb.row(2), [2, 6, 10]);
    assert_eq!(pfb.row(3), [3, 7, 0]);
    assert_eq!(pfb.row(4), [0, 4, 8]);
}

#[test]
fn dims_of_bank() {
    let h: Vec<i32> = (0..11).collect();
    let pfb = PFB::with_taps(&h, 4).unwrap();
    assert_eq!(pfb.dims(), (4, 3));
}

#[test]
fn signed_index_wraps() {
    let h: Vec<i32> = (0..11).collect();
    let pfb = PFB::with_taps(&h, 4).unwrap();
    assert_eq!(pfb.row_signed(-1), [3, 7, 0]);
    assert_eq!(pfb.row_signed(-4), [0, 4, 8]);
    assert_eq!(pfb.row_signed(-5), [3, 7, 0]);
    assert_eq!(pfb.row_signed(6), [2, 6, 10]);
    assert_eq!(pfb.row(9), pfb.row(1));
}

#[test]
fn interleaving_rows_restores_padded_taps() {
    let h: Vec<i32> = vec![5, -3, 8, 2, 7, 1, 9];
    let rows = decompose(&h, 3).unwrap();
    let mut back = Vec::new();
    for j in 0..rows[0].len() {
        for row in &rows {
            back.push(row[j]);
        }
    }
    assert_eq!(back, vec![5, -3, 8, 2, 7, 1, 9, 0, 0]);
}

#[test]
fn exact_multiple_needs_no_padding() {
    let h: Vec<i64> = vec![1, 2, 3, 4, 5, 6];
    let rows = decompose(&h, 3).unwrap();
    assert_eq!(rows, vec![vec![1, 4], vec![2, 5], vec![3, 6]]);
}

#[test]
fn more_phases_than_taps() {
    let h: Vec<i32> = vec![1, 2];
    let rows = decompose(&h, 4).unwrap();
    assert_eq!(rows, vec![vec![1], vec![2], vec![0], vec![0]]);
}

#[test]
fn zero_phases_are_rejected() {
    let h: Vec<i32> = (0..11).collect();
    assert_eq!(decompose(&h, 0), Err(DspError::InvalidConfiguration));
    assert_eq!(PFB::with_taps(&h, 0).err(), Some(DspError::InvalidConfiguration));
}

#[test]
fn phase_to_phase_differences() {
    let h: Vec<i32> = (0..11).collect();
    let pfb = PFB::with_taps(&h, 4).unwrap();
    let d = pfb.diff();
    assert_eq!(d.dims(), (4, 3));
    assert_eq!(d.row(0), [-3, -3, 8]);
    assert_eq!(d.row(1), [1, 1, 1]);
    assert_eq!(d.row(2), [1, 1, 1]);
    assert_eq!(d.row(3), [1, 1, -10]);
}
