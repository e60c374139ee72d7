use dsp::error::DspError;
use dsp::filters::arb::{Arb, Rate, Scaled};
use dsp::filters::fir::FIR;
use dsp::windows::{Hamming, Iter};

fn scaled(numer: i128, denom: u32) -> Result<Scaled, DspError> {
    Ok(Scaled { numer, denom })
}

#[test]
fn test_fir_exec() {
    let taps = &[1, 2, 3];
    let mut filt: FIR<i32, i32> = FIR::with_taps(taps);
    let xs = &[1, 0, 0, 0];
    let ys: Vec<i128> = xs.iter().map(|x| filt.exec(*x)).collect();
    assert_eq!(ys, [1, 2, 3, 0]);
}

#[test]
fn test_fir_create() {
    let taps = &[1.0_f32, 2.0, 3.0];
    let filt: FIR<f32, i32> = FIR::with_taps(taps);
    assert_eq!(filt.h(), &[3.0_f32, 2.0, 1.0]);
}

#[test]
fn fir_stores_taps_reversed() {
    let filt: FIR<i32, i32> = FIR::with_taps(&[1, 2, 3]);
    assert_eq!(filt.h(), &[3, 2, 1]);
}

#[test]
fn test_with_taps() {
    let h: Vec<i32> = (0..12).into_iter().collect();
    let resampler = Arb::<i32, i32>::with_taps(&h, 4, Rate { outputs: 1, inputs: 2 });
    assert!(resampler.is_ok());
}

#[test]
fn resampler_rejects_bad_configuration() {
    let h: Vec<i32> = (0..12).collect();
    let bad: Result<(), DspError> = Err(DspError::InvalidConfiguration);
    assert_eq!(Arb::<i32, i32>::with_taps(&h, 1, Rate { outputs: 1, inputs: 1 }).err(), bad.err());
    assert_eq!(Arb::<i32, i32>::with_taps(&h, 0, Rate { outputs: 1, inputs: 1 }).err(), bad.err());
    assert_eq!(Arb::<i32, i32>::with_taps(&h, 4, Rate { outputs: 0, inputs: 1 }).err(), bad.err());
    assert_eq!(Arb::<i32, i32>::with_taps(&h, 4, Rate { outputs: 1, inputs: 0 }).err(), bad.err());
    assert_eq!(Arb::<i32, i32>::with_taps(&[], 4, Rate { outputs: 1, inputs: 1 }).err(), bad.err());
}

#[test]
fn upsample_by_two_walks_the_phases() {
    let mut arb = Arb::<i32, i32>::with_taps(&[1, 2, 3, 4], 2, Rate { outputs: 2, inputs: 1 }).unwrap();
    assert!(!arb.needs_input());
    assert_eq!(arb.next(), scaled(0, 2));
    assert_eq!(arb.next(), scaled(0, 2));
    assert_eq!(arb.next(), Err(DspError::InputExhausted));
    assert!(arb.needs_input());
    assert!(arb.feed(5));
    assert!(!arb.feed(6));
    assert_eq!(arb.next(), scaled(10, 2));
    assert_eq!(arb.next(), scaled(20, 2));
    assert!(arb.feed(0));
    assert_eq!(arb.next(), scaled(30, 2));
}

#[test]
fn fractional_phases_interpolate() {
    let mut arb = Arb::<i32, i32>::with_taps(&[1, 2, 3, 4], 2, Rate { outputs: 3, inputs: 1 }).unwrap();
    assert_eq!(arb.next(), scaled(0, 3));
    assert_eq!(arb.next(), scaled(0, 3));
    assert_eq!(arb.next(), scaled(0, 3));
    assert_eq!(arb.next(), Err(DspError::InputExhausted));
    assert!(arb.feed(5));
    assert_eq!(arb.next(), scaled(15, 3));
    assert_eq!(arb.next(), scaled(25, 3));
    assert_eq!(arb.next(), scaled(35, 3));
    assert_eq!(arb.next(), Err(DspError::InputExhausted));
}

#[test]
fn downsample_by_two_takes_two_inputs_per_output() {
    let mut arb = Arb::<i32, i32>::with_taps(&[1, 1, 1, 1], 2, Rate { outputs: 1, inputs: 2 }).unwrap();
    assert_eq!(arb.next(), scaled(0, 1));
    assert!(arb.feed(3));
    assert_eq!(arb.next(), Err(DspError::InputExhausted));
    assert!(arb.feed(4));
    assert_eq!(arb.next(), scaled(7, 1));
}

#[test]
fn unity_rate_matches_fir_on_phase_zero() {
    let h = [1, 2, 3, 4, 5, 6];
    let mut arb = Arb::<i32, i32>::with_taps(&h, 2, Rate { outputs: 1, inputs: 1 }).unwrap();
    let mut fir: FIR<i32, i32> = FIR::with_taps(&[1, 3, 5]);
    assert_eq!(arb.next(), scaled(0, 1));
    for x in [2, -1, 7, 0, 4] {
        assert!(arb.feed(x));
        let y = fir.exec(x);
        assert_eq!(arb.next(), scaled(y, 1));
    }
}

#[test]
fn outputs_are_linear_in_mu() {
    // Two phases, four outputs per input: the four phases of one input interval
    // read row 0 at mu = 0 and 2 (of 4), then row 1 at mu = 0 and 2.
    let h = [2, 5, 1, 8, 3, 9, 4, 6];
    let mut arb = Arb::<i32, i32>::with_taps(&h, 2, Rate { outputs: 4, inputs: 1 }).unwrap();
    for _ in 0..4 {
        arb.next().unwrap();
    }
    assert!(arb.feed(1));
    assert!(!arb.needs_input());
    let ys: Vec<i128> = (0..4).map(|_| arb.next().unwrap().numer).collect();
    assert_eq!(ys, vec![8, 14, 20, 12]);
    // Each step of mu adds the derivative row's response: 3 on row 0, -4 on row 1.
    assert_eq!(ys[1] - ys[0], 2 * 3);
    assert_eq!(ys[3] - ys[2], 2 * (-4));
}

#[test]
fn window_walk_hands_out_each_position_once() {
    let mut it: Iter<Hamming, f64> = Iter::new(Hamming, 3);
    assert_eq!(it.len(), 3);
    assert_eq!(it.next_index(), Some(0));
    assert_eq!(it.next_index(), Some(1));
    assert_eq!(it.next_index(), Some(2));
    assert_eq!(it.next_index(), None);
    assert_eq!(it.next_index(), None);
}
