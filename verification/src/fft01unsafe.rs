use vstd::prelude::*;
use num_complex::Complex64;
use crate::complex::angle;
use crate::complex::full_turn;
use crate::complex::is_unit_at;
use crate::complex::negate;
use crate::error::FftError;
use crate::pow2::is_pow2;
use crate::pow2::is_power_of_two;
use crate::pow2::lemma_pow2_half;
use crate::radix2::evens;
use crate::radix2::merged;
use crate::radix2::odds;
use crate::radix2::runs;
use crate::radix2::transforms;
use crate::radix2::twiddle;
use crate::radix2::twist;

verus! {

/// An empty buffer with room for `size` values. Nothing is written to it
/// here: whoever fills it pushes each value once, in order, so that no entry
/// is read before it is written.
fn make_uninit_vec(size: usize) -> (v: Vec<Complex64>)
    ensures
        v@.len() == 0,
{
    Vec::with_capacity(size)
}

/// The recursion: splits `input` into its even and its odd entries,
/// transforms both halves, and merges them into a new buffer. `spin` is the
/// full turn, negative for a forward transform.
///
/// The first half of the result is pushed while the butterflies are
/// computed. Each butterfly's second result waits in the entry of the even
/// half that it was computed from, which is not read again, and is pushed
/// after the first half is complete.
fn recur(size: usize, input: &[Complex64], spin: Complex64) -> (output: Vec<Complex64>)
    requires
        is_pow2(size as nat),
        input@.len() == size,
    ensures
        output@.len() == size,
        transforms(input@, output@, spin),
    decreases size,
{
    let mut output = make_uninit_vec(size);
    if size == 1 {
        output.push(input[0]);
        assert(output@ =~= input@);
    } else {
        proof {
            lemma_pow2_half(size as nat);
        }
        let half_size: usize = size / 2;
        let mut even = make_uninit_vec(half_size);
        let mut odd = make_uninit_vec(half_size);
        let mut k: usize = 0;
        while k < half_size
            invariant
                k <= half_size,
                size == 2 * half_size,
                input@.len() == size,
                even@.len() == k,
                odd@.len() == k,
                forall|i: int| 0 <= i < k ==> #[trigger] even@[i] == input@[2 * i],
                forall|i: int| 0 <= i < k ==> #[trigger] odd@[i] == input@[2 * i + 1],
            decreases half_size - k,
        {
            even.push(input[2 * k]);
            odd.push(input[2 * k + 1]);
            k = k + 1;
        }
        assert(even@ =~= evens(input@));
        assert(odd@ =~= odds(input@));
        let mut even_out = recur(half_size, even.as_slice(), spin);
        let odd_out = recur(half_size, odd.as_slice(), spin);
        let ghost halves = even_out@;
        let ghost mut factors: Seq<Complex64> = Seq::empty();
        let mut k: usize = 0;
        while k < half_size
            invariant
                k <= half_size,
                size == 2 * half_size,
                output@.len() == k,
                halves.len() == half_size,
                even_out@.len() == half_size,
                odd_out@.len() == half_size,
                factors.len() == k,
                forall|i: int|
                    0 <= i < k ==> is_unit_at(angle(spin, i as nat, size as nat), #[trigger] factors[i]),
                forall|i: int| k <= i < half_size ==> #[trigger] even_out@[i] == halves[i],
                forall|i: int|
                    0 <= i < k ==> #[trigger] output@[i] == merged(halves, odd_out@, factors)[i],
                forall|i: int|
                    0 <= i < k ==> #[trigger] even_out@[i] == merged(halves, odd_out@, factors)[i
                        + half_size],
            decreases half_size - k,
        {
            let e = even_out[k];
            let o = odd_out[k];
            let w = twiddle(spin, k, size);
            let both = twist(e, o, w);
            output.push(both.0);
            even_out[k] = both.1;
            proof {
                let longer = factors.push(w);
                assert forall|i: int| 0 <= i < k + 1 implies #[trigger] output@[i] == merged(
                    halves,
                    odd_out@,
                    longer,
                )[i] by {
                    if i < k {
                        assert(longer[i] == factors[i]);
                    }
                }
                assert forall|i: int| 0 <= i < k + 1 implies #[trigger] even_out@[i] == merged(
                    halves,
                    odd_out@,
                    longer,
                )[i + half_size] by {
                    if i < k {
                        assert(longer[i] == factors[i]);
                    }
                }
                factors = longer;
            }
            k = k + 1;
        }
        let mut k: usize = 0;
        while k < half_size
            invariant
                k <= half_size,
                size == 2 * half_size,
                output@.len() == half_size + k,
                halves.len() == half_size,
                even_out@.len() == half_size,
                odd_out@.len() == half_size,
                factors.len() == half_size,
                forall|i: int|
                    0 <= i < half_size ==> #[trigger] even_out@[i] == merged(
                        halves,
                        odd_out@,
                        factors,
                    )[i + half_size],
                forall|i: int|
                    0 <= i < half_size + k ==> #[trigger] output@[i] == merged(
                        halves,
                        odd_out@,
                        factors,
                    )[i],
            decreases half_size - k,
        {
            output.push(even_out[k]);
            k = k + 1;
        }
        assert(output@ =~= merged(halves, odd_out@, factors));
    }
    output
}

/// The recursive radix-2 engine without the zero fill. Every level of the
/// recursion reserves its buffers and writes each entry once before it is
/// read. Skipping the fill is commonly done with uninitialised memory and
/// `unsafe` code; reserving and pushing has the same effect without either.
pub struct FFT {
    size: usize,
}

impl FFT {
    #[verifier::type_invariant]
    spec fn wf(&self) -> bool {
        is_pow2(self.size as nat)
    }

    /// The transform size.
    pub closed spec fn size(&self) -> nat {
        self.size as nat
    }

    /// Builds the engine for transforms of `size` values. The size has to be a
    /// power of two.
    pub fn prepare(size: usize) -> (r: Result<FFT, FftError>)
        ensures
            r.is_ok() <==> is_pow2(size as nat),
            r.is_err() ==> r == Err::<FFT, FftError>(FftError::InvalidSize),
            r.is_ok() ==> r.unwrap().size() == size,
    {
        if is_power_of_two(size) {
            Ok(FFT { size })
        } else {
            Err(FftError::InvalidSize)
        }
    }

    /// Transforms `input` into `output`: forward where `direction` is
    /// positive, inverse otherwise. Neither direction scales: the inverse of
    /// the forward transform is `size` times the input. Both buffers have to
    /// hold `size` values; where one does not, `output` is left as it was.
    /// What `output` held before has no part in what it holds after.
    pub fn run(&self, input: &[Complex64], output: &mut [Complex64], direction: i32) -> (r: Result<
        (),
        FftError,
    >)
        ensures
            r.is_ok() <==> input@.len() == self.size() && old(output)@.len() == self.size(),
            r.is_err() ==> r == Err::<(), FftError>(FftError::InvalidLength) && final(output)@
                == old(output)@,
            r.is_ok() ==> final(output)@.len() == self.size() && runs(
                input@,
                final(output)@,
                direction > 0,
            ),
    {
        proof {
            use_type_invariant(self);
        }
        let size: usize = self.size;
        if input.len() != size || output.len() != size {
            return Err(FftError::InvalidLength);
        }
        let turn = full_turn();
        let spin = if direction > 0 {
            negate(turn)
        } else {
            turn
        };
        let result = recur(size, input, spin);
        let mut k: usize = 0;
        while k < size
            invariant
                k <= size,
                result@.len() == size,
                output@.len() == size,
                forall|i: int| 0 <= i < k ==> #[trigger] output@[i] == result@[i],
            decreases size - k,
        {
            output[k] = result[k];
            k = k + 1;
        }
        assert(output@ =~= result@);
        Ok(())
    }
}

} // verus!
