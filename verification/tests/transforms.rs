use fft_rust::error::FftError;
use num_complex::Complex64;

type Run = fn(usize, &[Complex64], i32) -> Vec<Complex64>;

fn sentinel(n: usize) -> Vec<Complex64> {
    vec![Complex64::new(1.0e300, -1.0e300); n]
}

fn radix2_zeroed(n: usize, x: &[Complex64], direction: i32) -> Vec<Complex64> {
    let fft = fft_rust::fft01::FFT::prepare(n).unwrap();
    let mut out = sentinel(n);
    assert_eq!(fft.run(x, &mut out, direction), Ok(()));
    out
}

fn radix2_write_once(n: usize, x: &[Complex64], direction: i32) -> Vec<Complex64> {
    let fft = fft_rust::fft01unsafe::FFT::prepare(n).unwrap();
    let mut out = sentinel(n);
    assert_eq!(fft.run(x, &mut out, direction), Ok(()));
    out
}

fn radix4(n: usize, x: &[Complex64], direction: i32) -> Vec<Complex64> {
    let fft = fft_rust::fft47::FFT::prepare(n).unwrap();
    let mut out = sentinel(n);
    assert_eq!(fft.run(x, &mut out, direction), Ok(()));
    out
}

fn backend(n: usize, x: &[Complex64], direction: i32) -> Vec<Complex64> {
    let mut fft = fft_rust::fft_rust::FFT::prepare(n).unwrap();
    let mut work = x.to_vec();
    let mut out = sentinel(n);
    assert_eq!(fft.run(&mut work, &mut out, direction), Ok(()));
    out
}

fn engines() -> Vec<(&'static str, Run)> {
    vec![
        ("radix-2, zero filled", radix2_zeroed as Run),
        ("radix-2, write once", radix2_write_once as Run),
        ("radix-4", radix4 as Run),
        ("backend", backend as Run),
    ]
}

fn sample(n: usize, seed: u64) -> Vec<Complex64> {
    let mut state = seed.wrapping_mul(6364136223846793005).wrapping_add(1442695040888963407);
    let mut v = Vec::with_capacity(n);
    for _ in 0..n {
        state = state.wrapping_mul(6364136223846793005).wrapping_add(1442695040888963407);
        let re = ((state >> 11) as f64) / ((1u64 << 53) as f64) * 2.0 - 1.0;
        state = state.wrapping_mul(6364136223846793005).wrapping_add(1442695040888963407);
        let im = ((state >> 11) as f64) / ((1u64 << 53) as f64) * 2.0 - 1.0;
        v.push(Complex64::new(re, im));
    }
    v
}

fn dft(x: &[Complex64], direction: i32) -> Vec<Complex64> {
    let n = x.len();
    let sign = if direction > 0 { -1.0 } else { 1.0 };
    let mut out = Vec::with_capacity(n);
    for k in 0..n {
        let mut acc = Complex64::new(0.0, 0.0);
        for (j, z) in x.iter().enumerate() {
            let turns = ((j * k) % n) as f64 / n as f64;
            acc += z * Complex64::cis(sign * std::f64::consts::TAU * turns);
        }
        out.push(acc);
    }
    out
}

fn scale(x: &[Complex64]) -> f64 {
    x.iter().map(|z| z.norm()).fold(1.0, f64::max)
}

fn close(a: &[Complex64], b: &[Complex64], tol: f64) -> bool {
    let bound = tol * scale(b);
    a.len() == b.len() && a.iter().zip(b).all(|(x, y)| (x - y).norm() <= bound)
}

fn reals(values: &[f64]) -> Vec<Complex64> {
    values.iter().map(|&re| Complex64::new(re, 0.0)).collect()
}

#[test]
fn inverse_of_forward_is_the_input_times_the_size() {
    for (name, run) in engines() {
        for exp in 0..11 {
            let n = 1usize << exp;
            let x = sample(n, exp as u64);
            let y = run(n, &x, 1);
            let back: Vec<Complex64> = run(n, &y, -1).iter().map(|z| z / n as f64).collect();
            assert!(close(&back, &x, 1e-9), "{} at size {}", name, n);
        }
    }
}

#[test]
fn forward_of_inverse_is_the_input_times_the_size() {
    for (name, run) in engines() {
        for exp in 0..9 {
            let n = 1usize << exp;
            let x = sample(n, 50 + exp as u64);
            let y = run(n, &x, 0);
            let back: Vec<Complex64> = run(n, &y, 1).iter().map(|z| z / n as f64).collect();
            assert!(close(&back, &x, 1e-9), "{} at size {}", name, n);
        }
    }
}

#[test]
fn every_engine_matches_the_sum_formula() {
    for (name, run) in engines() {
        for exp in 0..10 {
            let n = 1usize << exp;
            let x = sample(n, 100 + exp as u64);
            for direction in [1, -1] {
                let y = run(n, &x, direction);
                assert!(close(&y, &dft(&x, direction), 1e-9), "{} at size {}", name, n);
            }
        }
    }
}

#[test]
fn all_engines_agree() {
    let all = engines();
    for exp in 0..12 {
        let n = 1usize << exp;
        let x = sample(n, 200 + exp as u64);
        for direction in [1, -1] {
            let results: Vec<Vec<Complex64>> = all.iter().map(|(_, run)| run(n, &x, direction)).collect();
            for a in 0..results.len() {
                for b in 0..results.len() {
                    assert!(
                        close(&results[a], &results[b], 1e-9),
                        "{} and {} at size {}",
                        all[a].0,
                        all[b].0,
                        n
                    );
                }
            }
        }
    }
}

#[test]
fn the_two_radix2_engines_give_the_same_bits() {
    for exp in 0..11 {
        let n = 1usize << exp;
        let x = sample(n, 300 + exp as u64);
        for direction in [1, -1] {
            let a = radix2_zeroed(n, &x, direction);
            let b = radix2_write_once(n, &x, direction);
            for (p, q) in a.iter().zip(&b) {
                assert_eq!(p.re.to_bits(), q.re.to_bits());
                assert_eq!(p.im.to_bits(), q.im.to_bits());
            }
        }
    }
}

#[test]
fn the_transform_is_linear() {
    let a = Complex64::new(0.75, -1.25);
    let b = Complex64::new(-2.0, 0.5);
    for (name, run) in engines() {
        for exp in 0..9 {
            let n = 1usize << exp;
            let x = sample(n, 400 + exp as u64);
            let y = sample(n, 500 + exp as u64);
            let mixed: Vec<Complex64> = x.iter().zip(&y).map(|(p, q)| a * p + b * q).collect();
            let left = run(n, &mixed, 1);
            let fx = run(n, &x, 1);
            let fy = run(n, &y, 1);
            let right: Vec<Complex64> = fx.iter().zip(&fy).map(|(p, q)| a * p + b * q).collect();
            assert!(close(&left, &right, 1e-9), "{} at size {}", name, n);
        }
    }
}

#[test]
fn one_value_is_its_own_transform() {
    let z = Complex64::new(3.25, -7.5);
    for (name, run) in engines() {
        for direction in [1, -1] {
            assert_eq!(run(1, &[z], direction), vec![z], "{}", name);
        }
    }
}

#[test]
fn two_values_give_sum_and_difference() {
    let a = Complex64::new(1.5, 2.0);
    let b = Complex64::new(-0.25, 4.0);
    for (name, run) in engines() {
        for direction in [1, -1] {
            assert_eq!(run(2, &[a, b], direction), vec![a + b, a - b], "{}", name);
        }
    }
}

#[test]
fn an_impulse_gives_a_constant() {
    for (name, run) in engines() {
        let y = run(4, &reals(&[1.0, 0.0, 0.0, 0.0]), 1);
        assert_eq!(y, reals(&[1.0, 1.0, 1.0, 1.0]), "{}", name);
    }
}

#[test]
fn a_constant_gives_an_impulse_scaled_by_the_size() {
    for (name, run) in engines() {
        let y = run(4, &reals(&[1.0, 1.0, 1.0, 1.0]), 1);
        assert!(close(&y, &reals(&[4.0, 0.0, 0.0, 0.0]), 1e-15), "{}", name);
        assert_eq!(y[0], Complex64::new(4.0, 0.0), "{}", name);
    }
}

#[test]
fn four_values_forward_and_inverse() {
    let x = [
        Complex64::new(1.0, 0.0),
        Complex64::new(2.0, -1.0),
        Complex64::new(0.0, 3.0),
        Complex64::new(-1.0, 0.5),
    ];
    let forward = vec![
        Complex64::new(2.0, 2.5),
        Complex64::new(-0.5, -6.0),
        Complex64::new(0.0, 3.5),
        Complex64::new(2.5, 0.0),
    ];
    let inverse = vec![
        Complex64::new(2.0, 2.5),
        Complex64::new(2.5, 0.0),
        Complex64::new(0.0, 3.5),
        Complex64::new(-0.5, -6.0),
    ];
    assert_eq!(radix4(4, &x, 1), forward);
    assert_eq!(radix4(4, &x, -1), inverse);
    for (name, run) in engines() {
        assert!(close(&run(4, &x, 1), &forward, 1e-15), "{}", name);
        assert!(close(&run(4, &x, -1), &inverse, 1e-15), "{}", name);
    }
}

#[test]
fn size_eight_takes_the_last_radix2_stage() {
    let x = sample(8, 8);
    let expected = dft(&x, 1);
    let all = engines();
    for (name, run) in &all {
        let y = run(8, &x, 1);
        assert!(close(&y, &expected, 1e-12), "{}", name);
        let back: Vec<Complex64> = run(8, &y, -1).iter().map(|z| z / 8.0).collect();
        assert!(close(&back, &x, 1e-12), "{}", name);
    }
    let shifted = reals(&[0.0, 1.0, 0.0, 0.0, 0.0, 0.0, 0.0, 0.0]);
    let h = std::f64::consts::FRAC_1_SQRT_2;
    let roots = vec![
        Complex64::new(1.0, 0.0),
        Complex64::new(h, -h),
        Complex64::new(0.0, -1.0),
        Complex64::new(-h, -h),
        Complex64::new(-1.0, 0.0),
        Complex64::new(-h, h),
        Complex64::new(0.0, 1.0),
        Complex64::new(h, h),
    ];
    for (name, run) in &all {
        assert!(close(&run(8, &shifted, 1), &roots, 1e-15), "{}", name);
    }
}

#[test]
fn sizes_two_and_thirty_two_and_a_power_of_four() {
    for (name, run) in engines() {
        for n in [2usize, 32, 64, 128, 256] {
            let x = sample(n, n as u64);
            assert!(close(&run(n, &x, 1), &dft(&x, 1), 1e-10), "{} at size {}", name, n);
        }
    }
}

#[test]
fn any_positive_direction_is_forward_and_any_other_is_inverse() {
    let x = sample(16, 16);
    for (name, run) in engines() {
        let forward = run(16, &x, 1);
        let inverse = run(16, &x, -1);
        for direction in [2, 7, i32::MAX] {
            assert_eq!(run(16, &x, direction), forward, "{}", name);
        }
        for direction in [0, -2, i32::MIN] {
            assert_eq!(run(16, &x, direction), inverse, "{}", name);
        }
    }
}

#[test]
fn what_the_output_held_before_does_not_matter() {
    let n = 64;
    let x = sample(n, 64);
    let radix4_engine = fft_rust::fft47::FFT::prepare(n).unwrap();
    let zeroed = fft_rust::fft01::FFT::prepare(n).unwrap();
    let write_once = fft_rust::fft01unsafe::FFT::prepare(n).unwrap();
    let mut backend_engine = fft_rust::fft_rust::FFT::prepare(n).unwrap();
    let fills = [
        Complex64::new(0.0, 0.0),
        Complex64::new(f64::NAN, f64::NAN),
        Complex64::new(1.0e300, -1.0e300),
    ];
    let mut seen: Vec<Vec<Vec<Complex64>>> = vec![Vec::new(); 4];
    for fill in fills {
        let mut out = vec![fill; n];
        assert_eq!(radix4_engine.run(&x, &mut out, 1), Ok(()));
        seen[0].push(out);
        let mut out = vec![fill; n];
        assert_eq!(zeroed.run(&x, &mut out, 1), Ok(()));
        seen[1].push(out);
        let mut out = vec![fill; n];
        assert_eq!(write_once.run(&x, &mut out, 1), Ok(()));
        seen[2].push(out);
        let mut out = vec![fill; n];
        let mut work = x.clone();
        assert_eq!(backend_engine.run(&mut work, &mut out, 1), Ok(()));
        seen[3].push(out);
    }
    for results in seen {
        for out in &results {
            assert_eq!(out.len(), n);
            assert!(out.iter().all(|z| z.re.is_finite() && z.im.is_finite()));
            assert_eq!(out, &results[0]);
        }
    }
}

#[test]
fn an_engine_can_run_many_times() {
    let n = 32;
    let fft = fft_rust::fft47::FFT::prepare(n).unwrap();
    let mut backend_engine = fft_rust::fft_rust::FFT::prepare(n).unwrap();
    for round in 0..5 {
        let x = sample(n, 900 + round);
        let expected = dft(&x, 1);
        let mut out = sentinel(n);
        assert_eq!(fft.run(&x, &mut out, 1), Ok(()));
        assert!(close(&out, &expected, 1e-10));
        let mut work = x.clone();
        let mut out = sentinel(n);
        assert_eq!(backend_engine.run(&mut work, &mut out, 1), Ok(()));
        assert!(close(&out, &expected, 1e-10));
    }
}

#[test]
fn buffers_of_another_length_are_refused_and_left_alone() {
    let x = sample(8, 1);
    let short = sample(4, 2);
    let radix4_engine = fft_rust::fft47::FFT::prepare(8).unwrap();
    let zeroed = fft_rust::fft01::FFT::prepare(8).unwrap();
    let write_once = fft_rust::fft01unsafe::FFT::prepare(8).unwrap();
    let mut backend_engine = fft_rust::fft_rust::FFT::prepare(8).unwrap();
    for out_len in [0usize, 4, 7, 9, 16] {
        let mut out = sentinel(out_len);
        assert_eq!(radix4_engine.run(&x, &mut out, 1), Err(FftError::InvalidLength));
        assert_eq!(out, sentinel(out_len));
        assert_eq!(zeroed.run(&x, &mut out, 1), Err(FftError::InvalidLength));
        assert_eq!(out, sentinel(out_len));
        assert_eq!(write_once.run(&x, &mut out, 1), Err(FftError::InvalidLength));
        assert_eq!(out, sentinel(out_len));
        let mut work = x.clone();
        assert_eq!(backend_engine.run(&mut work, &mut out, 1), Err(FftError::InvalidLength));
        assert_eq!(out, sentinel(out_len));
        assert_eq!(work, x);
    }
    let mut out = sentinel(8);
    assert_eq!(radix4_engine.run(&short, &mut out, 1), Err(FftError::InvalidLength));
    assert_eq!(zeroed.run(&short, &mut out, -1), Err(FftError::InvalidLength));
    assert_eq!(write_once.run(&short, &mut out, 1), Err(FftError::InvalidLength));
    let mut work = short.clone();
    assert_eq!(backend_engine.run(&mut work, &mut out, 1), Err(FftError::InvalidLength));
    assert_eq!(out, sentinel(8));
}

#[test]
fn sizes_that_are_no_power_of_two_are_refused() {
    for n in [0usize, 3, 5, 6, 7, 9, 12, 100, 1023, usize::MAX] {
        assert_eq!(fft_rust::fft47::FFT::prepare(n).err(), Some(FftError::InvalidSize));
        assert_eq!(fft_rust::fft01::FFT::prepare(n).err(), Some(FftError::InvalidSize));
        assert_eq!(fft_rust::fft01unsafe::FFT::prepare(n).err(), Some(FftError::InvalidSize));
        assert_eq!(fft_rust::fft_rust::FFT::prepare(n).err(), Some(FftError::InvalidSize));
    }
}

#[test]
fn powers_of_two_are_accepted() {
    for exp in 0..12 {
        let n = 1usize << exp;
        assert!(fft_rust::fft47::FFT::prepare(n).is_ok());
        assert!(fft_rust::fft01::FFT::prepare(n).is_ok());
        assert!(fft_rust::fft01unsafe::FFT::prepare(n).is_ok());
        assert!(fft_rust::fft_rust::FFT::prepare(n).is_ok());
    }
}

#[test]
fn the_backend_refuses_a_size_it_cannot_allocate_for() {
    let first = (isize::MAX as usize / 32 + 1).next_power_of_two();
    assert!(first / 2 <= isize::MAX as usize / 32);
    let mut n = first;
    loop {
        assert_eq!(fft_rust::fft_rust::FFT::prepare(n).err(), Some(FftError::InvalidSize));
        if n > usize::MAX / 2 {
            break;
        }
        n *= 2;
    }
}
