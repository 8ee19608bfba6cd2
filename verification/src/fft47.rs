use vstd::prelude::*;
use vstd::arithmetic::div_mod::lemma_fundamental_div_mod;
use vstd::arithmetic::div_mod::lemma_mod_add_multiples_vanish;
use vstd::arithmetic::div_mod::lemma_mod_bound;
use vstd::arithmetic::div_mod::lemma_mod_self_0;
use vstd::arithmetic::div_mod::lemma_small_mod;
use num_complex::Complex64;
use crate::butterfly::butterfly2;
use crate::butterfly::butterfly4;
use crate::complex::angle;
use crate::complex::cosine;
use crate::complex::full_turn;
use crate::complex::is_cosine_of;
use crate::complex::join;
use crate::complex::phase;
use crate::complex::times;
use crate::decimation::is_cosine_table;
use crate::decimation::transform;
use crate::decimation::twiddle;
use crate::decimation::twiddles_at;
use crate::error::FftError;
use crate::permute::lemma_reversed_below;
use crate::permute::reversal_table;
use crate::permute::reversed;
use crate::pow2::is_pow2;
use crate::pow2::is_power_of_two;
use crate::pow2::lemma_pow2_below;
use crate::pow2::lemma_pow2_divides;
use crate::pow2::lemma_pow2_double;
use crate::pow2::lemma_pow2_half;
use crate::pow2::lemma_pow2_positive;
use crate::slots::lemma_group;
use crate::slots::lemma_halves;
use crate::slots::lemma_slot;
use crate::slots::lemma_slot_of;
use crate::stages::combined;
use crate::stages::crossed_at;
use crate::stages::gathered;
use crate::stages::lemma_passes_are_the_transform;
use crate::stages::paired;
use crate::stages::paired_at;
use crate::stages::passes;
use crate::stages::staged;

verus! {

/// The butterflies at offset `k` of every group of four blocks of length `q`,
/// in place, with the twiddle factors `tw`.
fn sweep(
    output: &mut [Complex64],
    q: usize,
    k: usize,
    tw: Option<(Complex64, Complex64, Complex64)>,
    forward: bool,
)
    requires
        q >= 1,
        k < q,
        4 * q <= old(output)@.len(),
        (old(output)@.len() as int) % (4 * q) == 0,
    ensures
        final(output)@.len() == old(output)@.len(),
        forall|i: int|
            0 <= i < old(output)@.len() ==> #[trigger] final(output)@[i] == (if i % q as int == k {
                crossed_at(old(output)@, q as int, tw, forward, i)
            } else {
                old(output)@[i]
            }),
{
    let n: usize = output.len();
    let width: usize = 4 * q;
    let ghost before = output@;
    let ghost groups = n as int / width as int;
    let ghost mut g: int = 0;
    proof {
        lemma_fundamental_div_mod(n as int, width as int);
    }
    let mut base: usize = 0;
    while base < n
        invariant
            q >= 1,
            k < q,
            width == 4 * q,
            n == before.len(),
            n == width * groups,
            output@.len() == n,
            base == g * width,
            0 <= g <= groups,
            forall|i: int|
                0 <= i < n ==> #[trigger] output@[i] == (if i % q as int == k && i < base {
                    crossed_at(before, q as int, tw, forward, i)
                } else {
                    before[i]
                }),
        decreases n - base,
    {
        proof {
            assert(base + width <= n) by (nonlinear_arith)
                requires
                    base == g * width,
                    n == width * groups,
                    base < n,
                    width >= 1,
            ;
            lemma_slot(q as int, g, 0, k as int);
            lemma_slot(q as int, g, 1, k as int);
            lemma_slot(q as int, g, 2, k as int);
            lemma_slot(q as int, g, 3, k as int);
        }
        let i0: usize = base + k;
        let i1: usize = i0 + q;
        let i2: usize = i1 + q;
        let i3: usize = i2 + q;
        let b0 = output[i0];
        let r = match tw {
            Some(t) => butterfly4(
                b0,
                times(output[i1], t.1),
                times(output[i2], t.0),
                times(output[i3], t.2),
                forward,
            ),
            None => butterfly4(b0, output[i1], output[i2], output[i3], forward),
        };
        let ghost held = output@;
        output[i0] = r.0;
        output[i1] = r.1;
        output[i2] = r.2;
        output[i3] = r.3;
        proof {
            assert((g + 1) * width == g * width + width) by (nonlinear_arith);
            assert(g + 1 <= groups) by (nonlinear_arith)
                requires
                    base == g * width,
                    n == width * groups,
                    base + width <= n,
                    width >= 1,
            ;
            assert forall|i: int| 0 <= i < n implies #[trigger] output@[i] == (if i % q as int == k
                && i < base + width {
                crossed_at(before, q as int, tw, forward, i)
            } else {
                before[i]
            }) by {
                if i == i0 || i == i1 || i == i2 || i == i3 {
                } else {
                    assert(output@[i] == held[i]);
                    if i % q as int == k && base <= i < base + width {
                        lemma_slot_of(q as int, g, k as int, i);
                    }
                }
            }
            g = g + 1;
        }
        base = base + width;
    }
}

/// The iterative radix-4 engine: a table of cosines and a table of reversed
/// indices, built once for a size and read by every run.
pub struct FFT {
    size: usize,
    cosines: Vec<Complex64>,
    permute: Vec<usize>,
}

impl FFT {
    #[verifier::type_invariant]
    spec fn wf(&self) -> bool {
        &&& is_pow2(self.size as nat)
        &&& self.cosines@.len() == self.size
        &&& is_cosine_table(self.cosines@)
        &&& self.permute@.len() == self.size / 4
        &&& forall|g: int|
            0 <= g < self.permute@.len() ==> self.permute@[g] == reversed(
                g as nat,
                (self.size / 4) as nat,
            )
    }

    /// The transform size.
    pub closed spec fn size(&self) -> nat {
        self.size as nat
    }

    /// The cosine table.
    pub closed spec fn cosines(&self) -> Seq<Complex64> {
        self.cosines@
    }

    /// The table of reversed indices that the first pass reads by.
    pub closed spec fn permutation(&self) -> Seq<usize> {
        self.permute@
    }

    /// Builds the engine for transforms of `size` values. The size has to be a
    /// power of two.
    pub fn prepare(size: usize) -> (r: Result<FFT, FftError>)
        ensures
            r.is_ok() <==> is_pow2(size as nat),
            r.is_err() ==> r == Err::<FFT, FftError>(FftError::InvalidSize),
            r.is_ok() ==> r.unwrap().size() == size,
            r.is_ok() ==> r.unwrap().cosines().len() == size && is_cosine_table(
                r.unwrap().cosines(),
            ),
            r.is_ok() ==> r.unwrap().permutation().len() == size / 4 && forall|g: int|
                0 <= g < size / 4 ==> #[trigger] r.unwrap().permutation()[g] == reversed(
                    g as nat,
                    (size / 4) as nat,
                ),
    {
        if !is_power_of_two(size) {
            return Err(FftError::InvalidSize);
        }
        let turn = full_turn();
        let mut cosines: Vec<Complex64> = Vec::with_capacity(size);
        let mut i: usize = 0;
        while i < size
            invariant
                i <= size,
                cosines@.len() == i,
                forall|m: int|
                    0 <= m < i ==> is_cosine_of(
                        angle(turn, m as nat, size as nat),
                        #[trigger] cosines@[m],
                    ),
            decreases size - i,
        {
            cosines.push(cosine(phase(turn, i, size)));
            i = i + 1;
        }
        proof {
            if size >= 4 {
                lemma_pow2_half(size as nat);
                lemma_pow2_half((size / 2) as nat);
            }
        }
        let permute = reversal_table(size / 4);
        Ok(FFT { size, cosines, permute })
    }

    /// The twiddle factor at `steps` of the steps of a full turn.
    fn rotation(&self, steps: usize, forward: bool) -> (r: Complex64)
        requires
            steps < self.size(),
        ensures
            r == twiddle(self.cosines(), steps as int, forward),
    {
        proof {
            use_type_invariant(self);
        }
        let n: usize = self.size;
        let quarter: usize = n / 4;
        let a: usize = if forward && steps > 0 {
            n - steps
        } else {
            steps
        };
        let b: usize = if a <= quarter {
            quarter - a
        } else {
            n - (a - quarter)
        };
        proof {
            if forward {
                if steps == 0 {
                    lemma_mod_self_0(n as int);
                } else {
                    lemma_small_mod((n - steps) as nat, n as nat);
                }
            } else {
                lemma_small_mod(steps as nat, n as nat);
            }
            if a <= quarter {
                lemma_mod_add_multiples_vanish(quarter - a, n as int);
                lemma_small_mod((quarter - a) as nat, n as nat);
            } else {
                lemma_small_mod((quarter + n - a) as nat, n as nat);
            }
        }
        join(self.cosines[a], self.cosines[b])
    }

    /// The first pass: gathers the input in reversed order, four values at a
    /// time, and writes their four-point butterflies block by block.
    fn gather(&self, input: &[Complex64], output: &mut [Complex64], forward: bool)
        requires
            self.size() >= 4,
            input@.len() == self.size(),
            old(output)@.len() == self.size(),
        ensures
            final(output)@ == gathered(input@, forward),
    {
        proof {
            use_type_invariant(self);
            lemma_pow2_half(self.size as nat);
            lemma_pow2_half((self.size / 2) as nat);
        }
        let size: usize = self.size;
        let quarter: usize = size / 4;
        let mut g: usize = 0;
        while g < quarter
            invariant
                size == self.size,
                size == 4 * quarter,
                g <= quarter,
                input@.len() == size,
                output@.len() == size,
                self.permute@.len() == quarter,
                forall|m: int|
                    0 <= m < quarter ==> self.permute@[m] == reversed(m as nat, quarter as nat),
                forall|i: int|
                    0 <= i < 4 * g ==> #[trigger] output@[i] == gathered(input@, forward)[i],
            decreases quarter - g,
        {
            proof {
                lemma_reversed_below(g as nat, quarter as nat);
            }
            let p: usize = self.permute[g];
            let b0 = input[p];
            let b2 = input[p + quarter];
            let b1 = input[p + 2 * quarter];
            let b3 = input[p + 3 * quarter];
            let r = butterfly4(b0, b1, b2, b3, forward);
            let at: usize = 4 * g;
            output[at] = r.0;
            output[at + 1] = r.1;
            output[at + 2] = r.2;
            output[at + 3] = r.3;
            g = g + 1;
        }
        assert(output@ =~= gathered(input@, forward));
    }
    /// One radix-4 stage, in place: the butterflies of offset 0 need no
    /// twiddle factor, those of every other offset share three.
    fn combine(&self, output: &mut [Complex64], q: usize, forward: bool)
        requires
            is_pow2(q as nat),
            4 * q <= self.size(),
            old(output)@.len() == self.size(),
        ensures
            final(output)@ == combined(old(output)@, self.cosines(), q as int, forward),
    {
        proof {
            use_type_invariant(self);
            lemma_pow2_double(q as nat);
            lemma_pow2_double((2 * q) as nat);
            lemma_pow2_divides((4 * q) as nat, self.size as nat);
            lemma_fundamental_div_mod(self.size as int, 4 * q);
        }
        let n: usize = self.size;
        let stride: usize = n / (4 * q);
        let ghost before = output@;
        sweep(output, q, 0, None, forward);
        proof {
            assert forall|i: int| 0 <= i < n && i % q as int == 0 implies crossed_at(
                before,
                q as int,
                None,
                forward,
                i,
            ) == #[trigger] combined(before, self.cosines@, q as int, forward)[i] by {}
        }
        let mut k: usize = 1;
        let mut step: usize = stride;
        while k < q
            invariant
                1 <= k <= q,
                n == self.size,
                n == self.cosines@.len(),
                n >= 4 * q,
                (n as int) % (4 * q) == 0,
                n == (4 * q) * stride,
                stride == n as int / (4 * q),
                step == k * stride,
                before.len() == n,
                output@.len() == n,
                forall|i: int|
                    0 <= i < n ==> #[trigger] output@[i] == (if i % (q as int) < k {
                        combined(before, self.cosines@, q as int, forward)[i]
                    } else {
                        before[i]
                    }),
            decreases q - k,
        {
            proof {
                assert(4 * step < n) by (nonlinear_arith)
                    requires
                        step == k * stride,
                        n == (4 * q) * stride,
                        k < q,
                        stride >= 0,
                        n >= 1,
                ;
            }
            let r1 = self.rotation(step, forward);
            let r2 = self.rotation(2 * step, forward);
            let r3 = self.rotation(3 * step, forward);
            let ghost held = output@;
            let ghost tw = Some((r1, r2, r3));
            sweep(output, q, k, Some((r1, r2, r3)), forward);
            proof {
                assert(tw == twiddles_at(self.cosines@, stride as int, k as int, forward));
                assert forall|i: int| 0 <= i < n implies #[trigger] output@[i] == (if i % (q as int)
                    < k + 1 {
                    combined(before, self.cosines@, q as int, forward)[i]
                } else {
                    before[i]
                }) by {
                    if i % q as int == k {
                        lemma_group(n as int, q as int, i);
                        let j = (i / q as int) % 4;
                        let i0 = i - j * q;
                        assert(held[i0] == before[i0]);
                        assert(held[i0 + q] == before[i0 + q]);
                        assert(held[i0 + 2 * q] == before[i0 + 2 * q]);
                        assert(held[i0 + 3 * q] == before[i0 + 3 * q]);
                    }
                }
                assert((k + 1) * stride == k * stride + stride) by (nonlinear_arith);
                assert(step + stride <= n) by (nonlinear_arith)
                    requires
                        step == k * stride,
                        n == (4 * q) * stride,
                        k < q,
                        stride >= 0,
                ;
            }
            k = k + 1;
            step = step + stride;
        }
        proof {
            assert forall|i: int| 0 <= i < n implies #[trigger] output@[i] == combined(
                before,
                self.cosines@,
                q as int,
                forward,
            )[i] by {
                lemma_mod_bound(i, q as int);
            }
            assert(output@ =~= combined(before, self.cosines@, q as int, forward));
        }
    }

    /// The last, radix-2 stage, in place: the two halves become one block.
    fn pair(&self, output: &mut [Complex64], forward: bool)
        requires
            self.size() >= 2,
            old(output)@.len() == self.size(),
        ensures
            final(output)@ == paired(old(output)@, self.cosines(), forward),
    {
        proof {
            use_type_invariant(self);
            lemma_pow2_half(self.size as nat);
        }
        let n: usize = self.size;
        let h: usize = n / 2;
        let ghost before = output@;
        let first = butterfly2(output[0], output[h]);
        output[0] = first.0;
        output[h] = first.1;
        proof {
            assert forall|i: int| 0 <= i < n implies #[trigger] output@[i] == (if i % (h as int)
                < 1 {
                paired_at(before, self.cosines@, forward, i)
            } else {
                before[i]
            }) by {
                lemma_halves(h as int, i);
            }
        }
        let mut k: usize = 1;
        while k < h
            invariant
                1 <= k <= h,
                n == 2 * h,
                n == self.size,
                n == self.cosines@.len(),
                before.len() == n,
                output@.len() == n,
                forall|i: int|
                    0 <= i < n ==> #[trigger] output@[i] == (if i % (h as int) < k {
                        paired_at(before, self.cosines@, forward, i)
                    } else {
                        before[i]
                    }),
            decreases h - k,
        {
            let r = self.rotation(k, forward);
            let ghost held = output@;
            proof {
                lemma_halves(h as int, k as int);
                lemma_halves(h as int, k + h);
            }
            let both = butterfly2(output[k], times(output[k + h], r));
            output[k] = both.0;
            output[k + h] = both.1;
            proof {
                assert forall|i: int| 0 <= i < n implies #[trigger] output@[i] == (if i % (h as int)
                    < k + 1 {
                    paired_at(before, self.cosines@, forward, i)
                } else {
                    before[i]
                }) by {
                    lemma_halves(h as int, i);
                }
            }
            k = k + 1;
        }
        proof {
            assert forall|i: int| 0 <= i < n implies #[trigger] output@[i] == paired_at(
                before,
                self.cosines@,
                forward,
                i,
            ) by {
                lemma_halves(h as int, i);
            }
            assert(output@ =~= paired(before, self.cosines@, forward));
        }
    }

    /// Transforms `input` into `output`: forward where `direction` is
    /// positive, inverse otherwise. Neither direction scales: the inverse of
    /// the forward transform is `size` times the input. Both buffers have to
    /// hold `size` values; where one does not, `output` is left as it was.
    /// What `output` held before has no part in what it holds after.
    pub fn run(&self, input: &[Complex64], output: &mut [Complex64], direction: i32) -> (r: Result<
        (),
        FftError,
    >)
        ensures
            r.is_ok() <==> input@.len() == self.size() && old(output)@.len() == self.size(),
            r.is_err() ==> r == Err::<(), FftError>(FftError::InvalidLength) && final(output)@
                == old(output)@,
            r.is_ok() ==> final(output)@ == transform(input@, self.cosines(), direction > 0),
    {
        proof {
            use_type_invariant(self);
        }
        let size: usize = self.size;
        if input.len() != size || output.len() != size {
            return Err(FftError::InvalidLength);
        }
        let forward = direction > 0;
        proof {
            lemma_passes_are_the_transform(input@, self.cosines@, forward);
        }
        if size == 1 {
            output[0] = input[0];
            assert(output@ =~= passes(input@, self.cosines@, forward));
            return Ok(());
        }
        if size == 2 {
            let both = butterfly2(input[0], input[1]);
            output[0] = both.0;
            output[1] = both.1;
            assert(output@ =~= passes(input@, self.cosines@, forward));
            return Ok(());
        }
        proof {
            lemma_pow2_half(size as nat);
            lemma_pow2_half((size / 2) as nat);
            assert(is_pow2(4)) by {
                assert(is_pow2(1));
                assert(is_pow2(2));
            }
        }
        self.gather(input, output, forward);
        let mut q: usize = 4;
        while q <= size / 4
            invariant
                size == self.size,
                size >= 4,
                size % 4 == 0,
                is_pow2(q as nat),
                is_pow2(size as nat),
                q <= size,
                output@.len() == size,
                staged(output@, self.cosines@, q as int, forward) == passes(
                    input@,
                    self.cosines@,
                    forward,
                ),
            decreases size - q,
        {
            self.combine(output, q, forward);
            proof {
                lemma_pow2_double(q as nat);
                lemma_pow2_double((2 * q) as nat);
            }
            q = 4 * q;
        }
        if q == size / 2 {
            self.pair(output, forward);
        } else {
            proof {
                lemma_pow2_positive(q as nat);
                if q < size {
                    lemma_pow2_below(q as nat, size as nat);
                }
            }
        }
        Ok(())
    }
}

} // verus!
