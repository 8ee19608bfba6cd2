use num_complex::Complex64;

fn sample(n: usize, seed: u64) -> Vec<Complex64> {
    let mut state = seed.wrapping_mul(6364136223846793005).wrapping_add(1442695040888963407);
    let mut v = Vec::with_capacity(n);
    for _ in 0..n {
        state = state.wrapping_mul(6364136223846793005).wrapping_add(1442695040888963407);
        let re = ((state >> 11) as f64) / ((1u64 << 53) as f64) * 2.0 - 1.0;
        state = state.wrapping_mul(6364136223846793005).wrapping_add(1442695040888963407);
        let im = ((state >> 11) as f64) / ((1u64 << 53) as f64) * 2.0 - 1.0;
        v.push(Complex64::new(re, im));
    }
    v
}

fn same_bits(a: &[Complex64], b: &[Complex64]) -> bool {
    a.len() == b.len()
        && a.iter().zip(b).all(|(x, y)| {
            x.re.to_bits() == y.re.to_bits() && x.im.to_bits() == y.im.to_bits()
        })
}

fn cosine_table(n: usize) -> Vec<f64> {
    (0..n).map(|i| (std::f64::consts::TAU * (i as f64) / (n as f64)).cos()).collect()
}

fn table_twiddle(cosines: &[f64], steps: usize, forward: bool) -> Complex64 {
    let n = cosines.len();
    let a = if forward { (n - steps) % n } else { steps % n };
    Complex64::new(cosines[a], cosines[(n / 4 + n - a) % n])
}

fn quarter_turn(z: Complex64) -> Complex64 {
    Complex64::new(-z.im, z.re)
}

fn quad(b: [Complex64; 4], forward: bool) -> [Complex64; 4] {
    let c0 = b[0] + b[1];
    let c1 = b[0] - b[1];
    let c2 = b[2] + b[3];
    let c3 = if forward { -quarter_turn(b[2] - b[3]) } else { quarter_turn(b[2] - b[3]) };
    [c0 + c2, c1 + c3, c0 - c2, c1 - c3]
}

fn is_pow4(n: usize) -> bool {
    n.is_power_of_two() && n.trailing_zeros() % 2 == 0
}

// Decimation in time: radix 4 where the length is a power of four, radix 2
// where it is not.
fn decimated(
    input: &[Complex64],
    cosines: &[f64],
    forward: bool,
    offset: usize,
    stride: usize,
    len: usize,
) -> Vec<Complex64> {
    if len <= 1 {
        return vec![input[offset]];
    }
    let table_stride = cosines.len() / len;
    let mut out = vec![Complex64::new(0.0, 0.0); len];
    if is_pow4(len) {
        let q = len / 4;
        let d: Vec<Vec<Complex64>> = (0..4)
            .map(|r| decimated(input, cosines, forward, offset + r * stride, 4 * stride, q))
            .collect();
        for k in 0..q {
            let b = if k == 0 {
                [d[0][k], d[2][k], d[1][k], d[3][k]]
            } else {
                let t1 = table_twiddle(cosines, k * table_stride, forward);
                let t2 = table_twiddle(cosines, 2 * k * table_stride, forward);
                let t3 = table_twiddle(cosines, 3 * k * table_stride, forward);
                [d[0][k], d[2][k] * t2, d[1][k] * t1, d[3][k] * t3]
            };
            let r = quad(b, forward);
            for j in 0..4 {
                out[j * q + k] = r[j];
            }
        }
    } else {
        let h = len / 2;
        let e = decimated(input, cosines, forward, offset, 2 * stride, h);
        let o = decimated(input, cosines, forward, offset + stride, 2 * stride, h);
        for k in 0..h {
            let z1 = if k == 0 { o[k] } else { o[k] * table_twiddle(cosines, k * table_stride, forward) };
            out[k] = e[k] + z1;
            out[k + h] = e[k] - z1;
        }
    }
    out
}

// Decimation in time, radix 2 throughout, with a twiddle factor computed for
// every butterfly.
fn halved(input: &[Complex64], direction: f64) -> Vec<Complex64> {
    let n = input.len();
    if n == 1 {
        return vec![input[0]];
    }
    let evens: Vec<Complex64> = input.iter().step_by(2).copied().collect();
    let odds: Vec<Complex64> = input.iter().skip(1).step_by(2).copied().collect();
    let e = halved(&evens, direction);
    let o = halved(&odds, direction);
    let mut out = vec![Complex64::new(0.0, 0.0); n];
    for k in 0..n / 2 {
        let w = Complex64::cis(-std::f64::consts::TAU * direction * (k as f64) / (n as f64));
        let rotated = o[k] * w;
        out[k] = e[k] + rotated;
        out[k + n / 2] = e[k] - rotated;
    }
    out
}

#[test]
fn the_radix4_engine_computes_the_decimation_to_the_bit() {
    for exp in 0..11 {
        let n = 1usize << exp;
        let x = sample(n, 7000 + exp as u64);
        let cosines = cosine_table(n);
        let fft = fft_rust::fft47::FFT::prepare(n).unwrap();
        for (direction, forward) in [(1, true), (-1, false)] {
            let mut out = vec![Complex64::new(0.0, 0.0); n];
            assert_eq!(fft.run(&x, &mut out, direction), Ok(()));
            let expected = decimated(&x, &cosines, forward, 0, 1, n);
            assert!(same_bits(&out, &expected), "size {} direction {}", n, direction);
        }
    }
}

#[test]
fn the_radix2_engines_compute_the_halving_recursion_to_the_bit() {
    for exp in 0..10 {
        let n = 1usize << exp;
        let x = sample(n, 8000 + exp as u64);
        let zeroed = fft_rust::fft01::FFT::prepare(n).unwrap();
        let write_once = fft_rust::fft01unsafe::FFT::prepare(n).unwrap();
        for (direction, sign) in [(1, 1.0), (-1, -1.0)] {
            let expected = halved(&x, sign);
            let mut out = vec![Complex64::new(0.0, 0.0); n];
            assert_eq!(zeroed.run(&x, &mut out, direction), Ok(()));
            assert!(same_bits(&out, &expected), "size {} direction {}", n, direction);
            let mut out = vec![Complex64::new(0.0, 0.0); n];
            assert_eq!(write_once.run(&x, &mut out, direction), Ok(()));
            assert!(same_bits(&out, &expected), "size {} direction {}", n, direction);
        }
    }
}

#[test]
fn eight_values_by_hand() {
    // Even and odd entries take a four-point butterfly each; the last stage
    // pairs them with the eighth roots of unity.
    let x = sample(8, 88);
    let cosines = cosine_table(8);
    let e = quad([x[0], x[4], x[2], x[6]], true);
    let o = quad([x[1], x[5], x[3], x[7]], true);
    let mut expected = vec![Complex64::new(0.0, 0.0); 8];
    for k in 0..4 {
        let z1 = if k == 0 { o[k] } else { o[k] * table_twiddle(&cosines, k, true) };
        expected[k] = e[k] + z1;
        expected[k + 4] = e[k] - z1;
    }
    let fft = fft_rust::fft47::FFT::prepare(8).unwrap();
    let mut out = vec![Complex64::new(0.0, 0.0); 8];
    assert_eq!(fft.run(&x, &mut out, 1), Ok(()));
    assert!(same_bits(&out, &expected));
}
