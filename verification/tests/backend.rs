use std::sync::Arc;

use fft_rust::error::FftError;
use fft_rust::fft_rust::FFT;
use num_complex::Complex64;
use rustfft::algorithm::BluesteinsAlgorithm;
use rustfft::algorithm::Radix4;
use rustfft::Fft;
use rustfft::FftDirection;

fn ramp(n: usize) -> Vec<Complex64> {
    (0..n).map(|i| Complex64::new(i as f64, 1.0 - 0.5 * i as f64)).collect()
}

fn hungry(size: usize, direction: FftDirection) -> Radix4<f64> {
    let inner: Arc<dyn Fft<f64>> = Arc::new(Radix4::new(4 * size, direction));
    let base: Arc<dyn Fft<f64>> = Arc::new(BluesteinsAlgorithm::new(size, inner));
    Radix4::new_with_base(0, base)
}

#[test]
fn plans_of_one_size_and_one_need_make_an_engine() {
    let forward = Radix4::new(16, FftDirection::Forward);
    let inverse = Radix4::new(16, FftDirection::Inverse);
    let mut fft = FFT::assemble(forward, inverse).ok().unwrap();
    let x = ramp(16);
    let mut work = x.clone();
    let mut y = vec![Complex64::new(0.0, 0.0); 16];
    assert_eq!(fft.run(&mut work, &mut y, 1), Ok(()));
    let mut expected = x.clone();
    Radix4::new(16, FftDirection::Forward).process(&mut expected);
    assert_eq!(y, expected);
    let mut back = vec![Complex64::new(0.0, 0.0); 16];
    assert_eq!(fft.run(&mut y, &mut back, -1), Ok(()));
    for (b, z) in back.iter().zip(&x) {
        assert!((b / 16.0 - z).norm() < 1e-12);
    }
}

#[test]
fn plans_of_different_sizes_are_refused() {
    let forward = Radix4::new(8, FftDirection::Forward);
    let inverse = Radix4::new(16, FftDirection::Inverse);
    assert_eq!(FFT::assemble(forward, inverse).err(), Some(FftError::InvalidSize));
}

#[test]
fn plans_of_different_needs_are_refused() {
    let forward = Radix4::new(8, FftDirection::Forward);
    let inverse = hungry(8, FftDirection::Inverse);
    assert_eq!(forward.get_outofplace_scratch_len(), 0);
    assert!(inverse.get_outofplace_scratch_len() > 0);
    assert_eq!(FFT::assemble(forward, inverse).err(), Some(FftError::ScratchMismatch));
    let forward = hungry(8, FftDirection::Forward);
    let inverse = Radix4::new(8, FftDirection::Inverse);
    assert_eq!(FFT::assemble(forward, inverse).err(), Some(FftError::ScratchMismatch));
}

#[test]
fn plans_that_need_scratch_space_get_it() {
    let mut fft = FFT::assemble(hungry(8, FftDirection::Forward), hungry(8, FftDirection::Inverse))
        .ok()
        .unwrap();
    let x = ramp(8);
    let mut expected = x.clone();
    Radix4::new(8, FftDirection::Forward).process(&mut expected);
    for _ in 0..3 {
        let mut work = x.clone();
        let mut y = vec![Complex64::new(0.0, 0.0); 8];
        assert_eq!(fft.run(&mut work, &mut y, 1), Ok(()));
        for (a, b) in y.iter().zip(&expected) {
            assert!((a - b).norm() < 1e-12);
        }
        let mut back = vec![Complex64::new(0.0, 0.0); 8];
        assert_eq!(fft.run(&mut y, &mut back, 0), Ok(()));
        for (b, z) in back.iter().zip(&x) {
            assert!((b / 8.0 - z).norm() < 1e-12);
        }
    }
}

#[test]
fn the_prepared_engine_runs_the_backend_plans() {
    for exp in 0..8 {
        let n = 1usize << exp;
        let mut fft = FFT::prepare(n).ok().unwrap();
        let x = ramp(n);
        for (direction, plan_direction) in [(1, FftDirection::Forward), (-1, FftDirection::Inverse)] {
            let mut work = x.clone();
            let mut y = vec![Complex64::new(7.0, 7.0); n];
            assert_eq!(fft.run(&mut work, &mut y, direction), Ok(()));
            let mut expected = x.clone();
            Radix4::new(n, plan_direction).process(&mut expected);
            assert_eq!(y, expected);
        }
    }
}
