//! Discrete Fourier transforms of power-of-two length over
//! `num_complex::Complex64`, by several engines behind one interface:
//! `prepare(size)` builds an engine, `run(input, output, direction)`
//! transforms `input` into `output`.
//!
//! A complex value is opaque to the verifier. Every arithmetic step is a call
//! into `num_complex`, and the contracts speak of the values by the names that
//! [`complex`] gives to the results of those calls.
//!
//! - [`fft47`]: the iterative radix-4 engine. Its contract is the transform by
//!   decimation in time that [`decimation`] defines; [`stages`] describes its
//!   passes and proves that they compute that transform.
//! - [`fft01`] and [`fft01unsafe`]: the recursive radix-2 engine with zero
//!   filled buffers and with buffers that are written once. [`radix2`] holds
//!   what they share.
//! - [`fft_rust`]: the engine that runs the plans of `rustfft`.

pub mod butterfly;
pub mod complex;
pub mod decimation;
pub mod error;
pub mod fft01;
pub mod fft01unsafe;
pub mod fft47;
pub mod fft_rust;
pub mod permute;
pub mod pow2;
pub mod radix2;
pub mod slots;
pub mod stages;
