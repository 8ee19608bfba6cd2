use vstd::prelude::*;
use num_complex::Complex64;
use crate::complex::difference;
use crate::complex::minus;
use crate::complex::negate;
use crate::complex::negation;
use crate::complex::plus;
use crate::complex::rot90;
use crate::complex::sum;
use crate::complex::turned;

verus! {

/// Result `j` (0 or 1) of the two-point butterfly: the sum and the difference
/// of `z0` and `z1`.
pub open spec fn duo(z0: Complex64, z1: Complex64, j: int) -> Complex64 {
    if j == 0 {
        sum(z0, z1)
    } else {
        difference(z0, z1)
    }
}

/// The two-point butterfly: `z0 + z1` and `z0 - z1`.
pub fn butterfly2(z0: Complex64, z1: Complex64) -> (r: (Complex64, Complex64))
    ensures
        r.0 == duo(z0, z1, 0),
        r.1 == duo(z0, z1, 1),
{
    (plus(z0, z1), minus(z0, z1))
}

/// The quarter turn that the four-point butterfly applies to `b2 - b3`:
/// clockwise for a forward transform, counterclockwise for an inverse one.
pub open spec fn cross(b2: Complex64, b3: Complex64, forward: bool) -> Complex64 {
    if forward {
        negation(turned(difference(b2, b3)))
    } else {
        turned(difference(b2, b3))
    }
}

/// Result `j` (0 to 3) of the four-point butterfly. With `c0 = b0 + b1`,
/// `c1 = b0 - b1`, `c2 = b2 + b3` and `c3 = cross(b2, b3)` the results are
/// `c0 + c2`, `c1 + c3`, `c0 - c2` and `c1 - c3`.
pub open spec fn quad(
    b0: Complex64,
    b1: Complex64,
    b2: Complex64,
    b3: Complex64,
    forward: bool,
    j: int,
) -> Complex64 {
    let c0 = sum(b0, b1);
    let c1 = difference(b0, b1);
    let c2 = sum(b2, b3);
    let c3 = cross(b2, b3, forward);
    if j == 0 {
        sum(c0, c2)
    } else if j == 1 {
        sum(c1, c3)
    } else if j == 2 {
        difference(c0, c2)
    } else {
        difference(c1, c3)
    }
}

/// The four-point butterfly. It needs no complex product: the one factor
/// that is not 1 or -1 is the imaginary unit, a quarter turn.
pub fn butterfly4(b0: Complex64, b1: Complex64, b2: Complex64, b3: Complex64, forward: bool) -> (r:
    (Complex64, Complex64, Complex64, Complex64))
    ensures
        r.0 == quad(b0, b1, b2, b3, forward, 0),
        r.1 == quad(b0, b1, b2, b3, forward, 1),
        r.2 == quad(b0, b1, b2, b3, forward, 2),
        r.3 == quad(b0, b1, b2, b3, forward, 3),
{
    let c0 = plus(b0, b1);
    let c1 = minus(b0, b1);
    let c2 = plus(b2, b3);
    let quarter = rot90(minus(b2, b3));
    let c3 = if forward {
        negate(quarter)
    } else {
        quarter
    };
    (plus(c0, c2), plus(c1, c3), minus(c0, c2), minus(c1, c3))
}

} // verus!
