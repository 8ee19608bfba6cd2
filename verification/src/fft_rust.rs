use vstd::prelude::*;
use num_complex::Complex64;
use num_complex::ComplexFloat;
use rustfft::Fft;
use rustfft::FftDirection;
use rustfft::Length;
use rustfft::algorithm::Radix4;
use crate::complex::real_of;
use crate::complex::zero;
use crate::error::FftError;
use crate::pow2::is_pow2;
use crate::pow2::is_power_of_two;

verus! {

/// `rustfft::algorithm::Radix4`, of which the verifier sees no field.
#[verifier::external_type_specification]
#[verifier::external_body]
#[verifier::reject_recursive_types(T)]
pub struct ExRadix4<T>(Radix4<T>);

/// A plan of the backend for transforms of `Complex64` values. The component
/// type is taken from `Complex64`, so that a plan always fits the values of
/// this library.
pub type Plan = Radix4<<Complex64 as ComplexFloat>::Real>;

/// The transform size that a plan was made for.
pub uninterp spec fn plan_len(plan: Plan) -> nat;

/// The scratch space that a plan asks for when it transforms from one buffer
/// into another.
pub uninterp spec fn plan_need(plan: Plan) -> nat;

/// Whether a plan was made for the forward direction.
pub uninterp spec fn plan_forward(plan: Plan) -> bool;

/// The scratch space that a plan made by `Radix4::new` for `size` values in
/// one direction asks for, in the version of the backend that this library
/// is built with.
pub uninterp spec fn need_of(size: nat, forward: bool) -> nat;

/// What a plan makes of `input`, a sequence of as many values as the plan
/// was made for.
pub uninterp spec fn spectrum(plan: Plan, input: Seq<Complex64>) -> Seq<Complex64>;

/// `Radix4::new`: a plan for transforms of `size` values in one direction.
/// It panics unless `size` is a power of two, and it reserves room for
/// `2 * size` twiddle factors of 16 bytes each, which panics where they pass
/// the largest size of an allocation. The plan keeps the size and the
/// direction it was made for. The scratch space it asks for follows from the
/// size and the direction alone.
#[verifier::external_body]
fn plan(size: usize, forward: bool) -> (r: Plan)
    requires
        is_pow2(size as nat),
        size <= largest_size(),
    ensures
        plan_len(r) == size,
        plan_forward(r) == forward,
        plan_need(r) == need_of(size as nat, forward),
{
    Radix4::new(size, if forward { FftDirection::Forward } else { FftDirection::Inverse })
}

/// The largest size that the backend can reserve its twiddle factors for.
pub open spec fn largest_size() -> nat {
    (isize::MAX / 32) as nat
}

/// `Length::len` of a plan: the size it was made for.
#[verifier::external_body]
fn length(plan: &Plan) -> (r: usize)
    ensures
        r == plan_len(*plan),
{
    plan.len()
}

/// `Fft::get_outofplace_scratch_len` of a plan: the scratch space it asks for.
#[verifier::external_body]
fn scratch_need(plan: &Plan) -> (r: usize)
    ensures
        r == plan_need(*plan),
{
    plan.get_outofplace_scratch_len()
}

/// `Fft::process_outofplace_with_scratch`. It panics unless the two buffers
/// are equally long, at least as long as the plan's size and a multiple of
/// it, and the scratch space is what the plan asks for or more; with buffers
/// of the plan's size and that much scratch space it does not panic. `output`
/// then receives the transform of what `input` held, which depends on the
/// plan and on those values alone. `input` and `scratch` serve as working
/// space and hold anything after. No buffer changes its length.
#[verifier::external_body]
fn process(
    plan: &Plan,
    input: &mut [Complex64],
    output: &mut [Complex64],
    scratch: &mut Vec<Complex64>,
)
    requires
        plan_len(*plan) >= 1,
        old(input)@.len() == plan_len(*plan),
        old(output)@.len() == plan_len(*plan),
        old(scratch)@.len() >= plan_need(*plan),
    ensures
        final(output)@ == spectrum(*plan, old(input)@),
        final(output)@.len() == old(output)@.len(),
        final(input)@.len() == old(input)@.len(),
        final(scratch)@.len() == old(scratch)@.len(),
    no_unwind
{
    plan.process_outofplace_with_scratch(input, output, scratch)
}

/// Two runs of one plan on one input leave the same values in their outputs,
/// whatever the outputs held before.
pub proof fn lemma_two_runs_agree(
    plan: Plan,
    input: Seq<Complex64>,
    after1: Seq<Complex64>,
    after2: Seq<Complex64>,
)
    requires
        after1 == spectrum(plan, input),
        after2 == spectrum(plan, input),
    ensures
        after1 == after2,
{
}

/// The engine that hands the work to the backend: a plan for each direction
/// and the scratch space that both use.
pub struct FFT {
    forward: Plan,
    inverse: Plan,
    scratch: Vec<Complex64>,
}

impl FFT {
    #[verifier::type_invariant]
    spec fn wf(&self) -> bool {
        &&& plan_len(self.forward) >= 1
        &&& plan_len(self.inverse) == plan_len(self.forward)
        &&& plan_need(self.inverse) == plan_need(self.forward)
        &&& self.scratch@.len() == plan_need(self.forward)
    }

    /// The transform size.
    pub closed spec fn size(&self) -> nat {
        plan_len(self.forward)
    }

    /// The plan that runs where the direction is positive.
    pub closed spec fn forward_plan(&self) -> Plan {
        self.forward
    }

    /// The plan that runs where the direction is zero or negative.
    pub closed spec fn inverse_plan(&self) -> Plan {
        self.inverse
    }

    /// The scratch space that both plans work in.
    pub closed spec fn scratch(&self) -> Seq<Complex64> {
        self.scratch@
    }

    /// Makes an engine of two plans and allocates the scratch space that
    /// they share, filled with zeros. The plans have to be made for one size,
    /// which is not 0, and have to ask for the same amount of scratch space.
    pub fn assemble(forward: Plan, inverse: Plan) -> (r: Result<FFT, FftError>)
        ensures
            r == Err::<FFT, FftError>(FftError::InvalidSize) <==> (plan_len(forward) == 0
                || plan_len(inverse) != plan_len(forward)),
            r == Err::<FFT, FftError>(FftError::ScratchMismatch) <==> (plan_len(forward) != 0
                && plan_len(inverse) == plan_len(forward) && plan_need(inverse) != plan_need(
                forward,
            )),
            r.is_err() ==> r == Err::<FFT, FftError>(FftError::InvalidSize) || r == Err::<
                FFT,
                FftError,
            >(FftError::ScratchMismatch),
            r.is_ok() ==> r.unwrap().forward_plan() == forward && r.unwrap().inverse_plan()
                == inverse && r.unwrap().size() == plan_len(forward),
            r.is_ok() ==> r.unwrap().scratch() == Seq::new(
                plan_need(forward),
                |i: int| real_of(0),
            ),
    {
        let size: usize = length(&forward);
        if size == 0 || length(&inverse) != size {
            return Err(FftError::InvalidSize);
        }
        let scratch_len: usize = scratch_need(&forward);
        if scratch_need(&inverse) != scratch_len {
            return Err(FftError::ScratchMismatch);
        }
        let mut scratch: Vec<Complex64> = Vec::with_capacity(scratch_len);
        while scratch.len() < scratch_len
            invariant
                scratch@.len() <= scratch_len,
                forall|i: int| 0 <= i < scratch@.len() ==> #[trigger] scratch@[i] == real_of(0),
            decreases scratch_len - scratch@.len(),
        {
            scratch.push(zero());
        }
        assert(scratch@ =~= Seq::new(plan_need(forward), |i: int| real_of(0)));
        Ok(FFT { forward, inverse, scratch })
    }

    /// Builds the engine for transforms of `size` values: a forward and an
    /// inverse plan of the backend for that size, and their scratch space,
    /// filled with zeros. The size has to be a power of two, and no larger
    /// than `largest_size()`, and the backend's two plans for it have to ask
    /// for the same amount of scratch space.
    pub fn prepare(size: usize) -> (r: Result<FFT, FftError>)
        ensures
            r.is_ok() <==> is_pow2(size as nat) && size <= largest_size() && need_of(
                size as nat,
                true,
            ) == need_of(size as nat, false),
            r == Err::<FFT, FftError>(FftError::InvalidSize) <==> !(is_pow2(size as nat) && size
                <= largest_size()),
            r.is_err() ==> r == Err::<FFT, FftError>(FftError::InvalidSize) || r == Err::<
                FFT,
                FftError,
            >(FftError::ScratchMismatch),
            r.is_ok() ==> r.unwrap().size() == size,
            r.is_ok() ==> plan_len(r.unwrap().forward_plan()) == size && plan_len(
                r.unwrap().inverse_plan(),
            ) == size,
            r.is_ok() ==> plan_forward(r.unwrap().forward_plan()) && !plan_forward(
                r.unwrap().inverse_plan(),
            ),
            r.is_ok() ==> plan_need(r.unwrap().forward_plan()) == need_of(size as nat, true)
                && plan_need(r.unwrap().inverse_plan()) == need_of(size as nat, false),
            r.is_ok() ==> r.unwrap().scratch() == Seq::new(
                need_of(size as nat, true),
                |i: int| real_of(0),
            ),
    {
        if !is_power_of_two(size) || size > (isize::MAX as usize) / 32 {
            return Err(FftError::InvalidSize);
        }
        let forward = plan(size, true);
        let inverse = plan(size, false);
        Self::assemble(forward, inverse)
    }

    /// Transforms `input` into `output` with the forward plan where
    /// `direction` is positive, with the inverse plan otherwise. Neither
    /// direction scales. Both buffers have to hold `size` values; where one
    /// does not, both are left as they were. The backend uses `input` and the
    /// scratch space as working space: after a run they hold anything.
    pub fn run(&mut self, input: &mut [Complex64], output: &mut [Complex64], direction: i32) -> (r:
        Result<(), FftError>)
        ensures
            final(self).size() == old(self).size(),
            final(self).forward_plan() == old(self).forward_plan(),
            final(self).inverse_plan() == old(self).inverse_plan(),
            final(self).scratch().len() == old(self).scratch().len(),
            final(input)@.len() == old(input)@.len(),
            final(output)@.len() == old(output)@.len(),
            r.is_ok() <==> old(input)@.len() == old(self).size() && old(output)@.len() == old(
                self,
            ).size(),
            r.is_err() ==> r == Err::<(), FftError>(FftError::InvalidLength) && final(output)@
                == old(output)@ && final(input)@ == old(input)@ && final(self).scratch() == old(
                self,
            ).scratch(),
            r.is_ok() ==> final(output)@ == spectrum(
                if direction > 0 {
                    old(self).forward_plan()
                } else {
                    old(self).inverse_plan()
                },
                old(input)@,
            ),
    {
        proof {
            use_type_invariant(&*self);
        }
        let size: usize = length(&self.forward);
        if input.len() != size || output.len() != size {
            return Err(FftError::InvalidLength);
        }
        if direction > 0 {
            process(&self.forward, input, output, &mut self.scratch);
        } else {
            process(&self.inverse, input, output, &mut self.scratch);
        }
        Ok(())
    }
}

} // verus!
