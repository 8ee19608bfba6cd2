use vstd::prelude::*;
use num_complex::Complex;
use num_complex::Complex64;
use num_traits::FloatConst;
use num_traits::FromPrimitive;

verus! {

/// `num_complex::Complex`, of which the verifier sees no field.
#[verifier::external_type_specification]
#[verifier::external_body]
#[verifier::reject_recursive_types(T)]
pub struct ExComplex<T>(Complex<T>);

/// What `Complex64`'s `+` returns for `a` and `b`.
pub uninterp spec fn sum(a: Complex64, b: Complex64) -> Complex64;

/// What `Complex64`'s `-` returns for `a` and `b`.
pub uninterp spec fn difference(a: Complex64, b: Complex64) -> Complex64;

/// What `Complex64`'s `*` returns for `a` and `b`.
pub uninterp spec fn product(a: Complex64, b: Complex64) -> Complex64;

/// What `Complex64`'s `/` returns for `a` and `b`.
pub uninterp spec fn quotient(a: Complex64, b: Complex64) -> Complex64;

/// What `Complex64`'s unary `-` returns for `a`.
pub uninterp spec fn negation(a: Complex64) -> Complex64;

/// What `Complex64::conj` returns for `a`.
pub uninterp spec fn conjugate(a: Complex64) -> Complex64;

/// The value whose real part is the imaginary part of `a` and whose imaginary
/// part is the real part of `a`.
pub uninterp spec fn swapped(a: Complex64) -> Complex64;

/// The value whose real part is the real part of `a` and whose imaginary part
/// is the real part of `b`.
pub uninterp spec fn joined(a: Complex64, b: Complex64) -> Complex64;

/// The real number `i` as a complex value.
pub uninterp spec fn real_of(i: nat) -> Complex64;

/// `turn` is the angle of a full turn, in radians, as `num_traits` holds it:
/// a real number as a complex value.
pub uninterp spec fn is_full_turn(turn: Complex64) -> bool;

/// `value` is what the platform gave for the cosine of `angle`.
pub uninterp spec fn is_cosine_of(angle: Complex64, value: Complex64) -> bool;

/// `point` is what the platform gave for the point of the unit circle at the
/// real part of `angle`.
pub uninterp spec fn is_unit_at(angle: Complex64, point: Complex64) -> bool;

/// `a + b`, by `num_complex`'s `Add` for `Complex`: the parts are added one by
/// one. The result depends on `a` and `b` alone; values are taken up to the
/// payload of a NaN.
#[verifier::external_body]
pub(crate) fn plus(a: Complex64, b: Complex64) -> (r: Complex64)
    ensures
        r == sum(a, b),
{
    a + b
}

/// `a - b`, by `num_complex`'s `Sub` for `Complex`: the parts are subtracted
/// one by one.
#[verifier::external_body]
pub(crate) fn minus(a: Complex64, b: Complex64) -> (r: Complex64)
    ensures
        r == difference(a, b),
{
    a - b
}

/// `a * b`, by `num_complex`'s `Mul` for `Complex`: the complex product, four
/// real products and two real sums.
#[verifier::external_body]
pub(crate) fn times(a: Complex64, b: Complex64) -> (r: Complex64)
    ensures
        r == product(a, b),
{
    a * b
}

/// `a / b`, by `num_complex`'s `Div` for `Complex`. Division of floating-point
/// numbers does not fail: where `b` is zero the parts are infinite or NaN.
#[verifier::external_body]
pub(crate) fn over(a: Complex64, b: Complex64) -> (r: Complex64)
    ensures
        r == quotient(a, b),
{
    a / b
}

/// `-a`, by `num_complex`'s `Neg` for `Complex`: both parts change sign.
#[verifier::external_body]
pub(crate) fn negate(a: Complex64) -> (r: Complex64)
    ensures
        r == negation(a),
{
    -a
}

/// `Complex::conj`: the imaginary part changes sign.
#[verifier::external_body]
pub(crate) fn conj(a: Complex64) -> (r: Complex64)
    ensures
        r == conjugate(a),
{
    a.conj()
}

/// `Complex::new` on the two parts of `a`, the imaginary part first.
#[verifier::external_body]
pub(crate) fn swap(a: Complex64) -> (r: Complex64)
    ensures
        r == swapped(a),
{
    Complex::new(a.im, a.re)
}

/// `Complex::new` on the real part of `a` and the real part of `b`.
#[verifier::external_body]
pub(crate) fn join(a: Complex64, b: Complex64) -> (r: Complex64)
    ensures
        r == joined(a, b),
{
    Complex::new(a.re, b.re)
}

/// `FromPrimitive::from_usize` for `Complex64`: the nearest floating-point
/// number to `i` as the real part, zero as the imaginary part. For this type
/// the conversion always succeeds.
#[verifier::external_body]
pub(crate) fn from_index(i: usize) -> (r: Option<Complex64>)
    ensures
        r == Some(real_of(i as nat)),
{
    Complex64::from_usize(i)
}

/// `FloatConst::TAU` of `num_traits` as the real part of a complex value with
/// imaginary part zero: the angle of a full turn, in radians.
#[verifier::external_body]
pub(crate) fn full_turn() -> (r: Complex64)
    ensures
        is_full_turn(r),
{
    Complex64::new(FloatConst::TAU(), num_traits::zero())
}

/// `num_traits::zero` for `Complex64`: both parts zero, which is the real
/// number 0 as a complex value.
#[verifier::external_body]
pub(crate) fn zero() -> (r: Complex64)
    ensures
        r == real_of(0),
{
    num_traits::zero()
}

/// `Complex::cos`. For an angle with imaginary part zero the real part of the
/// result is the cosine of the angle. How close it comes is left to the
/// platform, and two calls need not agree: the contract records that the
/// result came from this call on this angle, and says nothing of its value.
#[verifier::external_body]
pub(crate) fn cosine(angle: Complex64) -> (r: Complex64)
    ensures
        is_cosine_of(angle, r),
{
    angle.cos()
}

/// `Complex::cis` on the real part of `angle`: the point of the unit circle at
/// that angle, its cosine and its sine. How close they come is left to the
/// platform, and two calls need not agree: the contract records that the
/// result came from this call on this angle, and says nothing of its value.
#[verifier::external_body]
pub(crate) fn unit(angle: Complex64) -> (r: Complex64)
    ensures
        is_unit_at(angle, r),
{
    Complex64::cis(angle.re)
}

/// `k` of `n` parts of the turn `spin`: the product of `spin` and `k`,
/// divided by `n`.
pub open spec fn angle(spin: Complex64, k: nat, n: nat) -> Complex64 {
    quotient(product(spin, real_of(k)), real_of(n))
}

/// Computes `k` of `n` parts of the turn `spin`.
pub fn phase(spin: Complex64, k: usize, n: usize) -> (r: Complex64)
    ensures
        r == angle(spin, k as nat, n as nat),
{
    let part = from_index(k).unwrap();
    let whole = from_index(n).unwrap();
    over(times(spin, part), whole)
}

/// What `rot90` returns: `z` turned by a quarter turn, `(re, im)` to
/// `(-im, re)`.
pub open spec fn turned(z: Complex64) -> Complex64 {
    swapped(conjugate(z))
}

/// Multiplies `z` by the imaginary unit without a complex product: the parts
/// change places and the new real part changes sign.
pub fn rot90(z: Complex64) -> (r: Complex64)
    ensures
        r == turned(z),
{
    swap(conj(z))
}

} // verus!
