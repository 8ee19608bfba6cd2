use vstd::prelude::*;
use num_complex::Complex64;
use crate::complex::angle;
use crate::complex::full_turn;
use crate::complex::is_unit_at;
use crate::complex::negate;
use crate::complex::real_of;
use crate::complex::zero;
use crate::error::FftError;
use crate::pow2::is_pow2;
use crate::pow2::is_power_of_two;
use crate::pow2::lemma_pow2_half;
use crate::radix2::evens;
use crate::radix2::merged;
use crate::radix2::odds;
use crate::radix2::runs;
use crate::radix2::transforms;
use crate::radix2::twiddle;
use crate::radix2::twist;

verus! {

/// A buffer of `size` zeros.
fn make_vec(size: usize) -> (v: Vec<Complex64>)
    ensures
        v@ == Seq::new(size as nat, |i: int| real_of(0)),
{
    let mut v: Vec<Complex64> = Vec::with_capacity(size);
    while v.len() < size
        invariant
            v@.len() <= size,
            forall|i: int| 0 <= i < v@.len() ==> #[trigger] v@[i] == real_of(0),
        decreases size - v@.len(),
    {
        v.push(zero());
    }
    assert(v@ =~= Seq::new(size as nat, |i: int| real_of(0)));
    v
}

/// The recursion: splits `input` into its even and its odd entries,
/// transforms both halves into buffers of their own, and merges them into
/// `output`. `spin` is the full turn, negative for a forward transform.
fn recur(size: usize, input: &[Complex64], output: &mut [Complex64], spin: Complex64)
    requires
        is_pow2(size as nat),
        input@.len() == size,
        old(output)@.len() == size,
    ensures
        final(output)@.len() == size,
        transforms(input@, final(output)@, spin),
    decreases size,
{
    if size == 1 {
        output[0] = input[0];
        assert(output@ =~= input@);
    } else {
        proof {
            lemma_pow2_half(size as nat);
        }
        let half_size: usize = size / 2;
        let mut even = make_vec(half_size);
        let mut odd = make_vec(half_size);
        let mut k: usize = 0;
        while k < half_size
            invariant
                k <= half_size,
                size == 2 * half_size,
                input@.len() == size,
                even@.len() == half_size,
                odd@.len() == half_size,
                forall|i: int| 0 <= i < k ==> #[trigger] even@[i] == input@[2 * i],
                forall|i: int| 0 <= i < k ==> #[trigger] odd@[i] == input@[2 * i + 1],
            decreases half_size - k,
        {
            even[k] = input[2 * k];
            odd[k] = input[2 * k + 1];
            k = k + 1;
        }
        assert(even@ =~= evens(input@));
        assert(odd@ =~= odds(input@));
        let mut even_out = make_vec(half_size);
        let mut odd_out = make_vec(half_size);
        recur(half_size, even.as_slice(), even_out.as_mut_slice(), spin);
        recur(half_size, odd.as_slice(), odd_out.as_mut_slice(), spin);
        let ghost mut factors: Seq<Complex64> = Seq::empty();
        let mut k: usize = 0;
        while k < half_size
            invariant
                k <= half_size,
                size == 2 * half_size,
                output@.len() == size,
                even_out@.len() == half_size,
                odd_out@.len() == half_size,
                factors.len() == k,
                forall|i: int|
                    0 <= i < k ==> is_unit_at(angle(spin, i as nat, size as nat), #[trigger] factors[i]),
                forall|i: int|
                    0 <= i < k ==> #[trigger] output@[i] == merged(
                        even_out@,
                        odd_out@,
                        factors,
                    )[i],
                forall|i: int|
                    0 <= i < k ==> #[trigger] output@[i + half_size] == merged(
                        even_out@,
                        odd_out@,
                        factors,
                    )[i + half_size],
            decreases half_size - k,
        {
            let e = even_out[k];
            let o = odd_out[k];
            let w = twiddle(spin, k, size);
            let both = twist(e, o, w);
            output[k] = both.0;
            output[k + half_size] = both.1;
            proof {
                let longer = factors.push(w);
                assert forall|i: int| 0 <= i < k + 1 implies #[trigger] output@[i] == merged(
                    even_out@,
                    odd_out@,
                    longer,
                )[i] by {
                    if i < k {
                        assert(longer[i] == factors[i]);
                    }
                }
                assert forall|i: int| 0 <= i < k + 1 implies #[trigger] output@[i + half_size]
                    == merged(even_out@, odd_out@, longer)[i + half_size] by {
                    if i < k {
                        assert(longer[i] == factors[i]);
                    }
                }
                factors = longer;
            }
            k = k + 1;
        }
        proof {
            assert forall|i: int| 0 <= i < size implies output@[i] == merged(
                even_out@,
                odd_out@,
                factors,
            )[i] by {
                if i >= half_size {
                    assert(output@[(i - half_size) + half_size] == merged(
                        even_out@,
                        odd_out@,
                        factors,
                    )[(i - half_size) + half_size]);
                }
            }
            assert(output@ =~= merged(even_out@, odd_out@, factors));
        }
    }
}

/// The recursive radix-2 engine. Every level of the recursion works in
/// buffers that it fills with zeros first.
pub struct FFT {
    size: usize,
}

impl FFT {
    #[verifier::type_invariant]
    spec fn wf(&self) -> bool {
        is_pow2(self.size as nat)
    }

    /// The transform size.
    pub closed spec fn size(&self) -> nat {
        self.size as nat
    }

    /// Builds the engine for transforms of `size` values. The size has to be a
    /// power of two.
    pub fn prepare(size: usize) -> (r: Result<FFT, FftError>)
        ensures
            r.is_ok() <==> is_pow2(size as nat),
            r.is_err() ==> r == Err::<FFT, FftError>(FftError::InvalidSize),
            r.is_ok() ==> r.unwrap().size() == size,
    {
        if is_power_of_two(size) {
            Ok(FFT { size })
        } else {
            Err(FftError::InvalidSize)
        }
    }

    /// Transforms `input` into `output`: forward where `direction` is
    /// positive, inverse otherwise. Neither direction scales: the inverse of
    /// the forward transform is `size` times the input. Both buffers have to
    /// hold `size` values; where one does not, `output` is left as it was.
    /// What `output` held before has no part in what it holds after.
    pub fn run(&self, input: &[Complex64], output: &mut [Complex64], direction: i32) -> (r: Result<
        (),
        FftError,
    >)
        ensures
            r.is_ok() <==> input@.len() == self.size() && old(output)@.len() == self.size(),
            r.is_err() ==> r == Err::<(), FftError>(FftError::InvalidLength) && final(output)@
                == old(output)@,
            r.is_ok() ==> final(output)@.len() == self.size() && runs(
                input@,
                final(output)@,
                direction > 0,
            ),
    {
        proof {
            use_type_invariant(self);
        }
        if input.len() != self.size || output.len() != self.size {
            return Err(FftError::InvalidLength);
        }
        let turn = full_turn();
        let spin = if direction > 0 {
            negate(turn)
        } else {
            turn
        };
        recur(self.size, input, output, spin);
        Ok(())
    }
}

} // verus!
