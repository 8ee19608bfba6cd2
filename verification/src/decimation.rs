use vstd::prelude::*;
use num_complex::Complex64;
use crate::butterfly::duo;
use crate::butterfly::quad;
use crate::complex::angle;
use crate::complex::difference;
use crate::complex::is_cosine_of;
use crate::complex::is_full_turn;
use crate::complex::joined;
use crate::complex::product;
use crate::complex::sum;
use crate::pow2::is_pow4;

verus! {

/// The twiddle factor at `steps` of the `n` steps of a full turn, clockwise
/// for a forward transform: its real part is the cosine of the angle, and its
/// imaginary part, the sine, is the cosine a quarter turn earlier. Both come
/// from the one table of `n` cosines.
pub open spec fn twiddle(cosines: Seq<Complex64>, steps: int, forward: bool) -> Complex64 {
    let n = cosines.len() as int;
    let a = if forward {
        (n - steps) % n
    } else {
        steps % n
    };
    joined(cosines[a], cosines[(n / 4 + n - a) % n])
}

/// `cosines` is a table of the cosines of one full turn in as many steps as
/// it has entries: entry `i` is what the platform gave for the cosine of `i`
/// of those parts of the turn.
pub open spec fn is_cosine_table(cosines: Seq<Complex64>) -> bool {
    exists|turn: Complex64| #[trigger]
        is_full_turn(turn) && forall|i: int|
            0 <= i < cosines.len() ==> is_cosine_of(
                angle(turn, i as nat, cosines.len()),
                #[trigger] cosines[i],
            )
}

/// The three twiddle factors of the butterflies at offset `k` in a block: the
/// factor at `k * stride` steps of the turn, and those at twice and at three
/// times as many. None at offset 0, where all three are 1.
pub open spec fn twiddles_at(
    cosines: Seq<Complex64>,
    stride: int,
    k: int,
    forward: bool,
) -> Option<(Complex64, Complex64, Complex64)> {
    if k == 0 {
        None
    } else {
        Some(
            (
                twiddle(cosines, k * stride, forward),
                twiddle(cosines, 2 * (k * stride), forward),
                twiddle(cosines, 3 * (k * stride), forward),
            ),
        )
    }
}

/// `z` times the twiddle factor at `steps`, or `z` itself at step 0, where
/// the factor is 1.
pub open spec fn spun(z: Complex64, cosines: Seq<Complex64>, steps: int, forward: bool) -> Complex64 {
    if steps == 0 {
        z
    } else {
        product(z, twiddle(cosines, steps, forward))
    }
}

/// Result `j` of the four-point butterfly with the twiddle factors `tw`: the
/// value that is paired with `b0` is weighted with the factor of twice the
/// angle, the other two with the factors of the angle and of three times the
/// angle. Without factors the values are taken as they are.
pub open spec fn woven(
    b0: Complex64,
    b1: Complex64,
    b2: Complex64,
    b3: Complex64,
    tw: Option<(Complex64, Complex64, Complex64)>,
    forward: bool,
    j: int,
) -> Complex64 {
    match tw {
        Some(t) => quad(b0, product(b1, t.1), product(b2, t.0), product(b3, t.2), forward, j),
        None => quad(b0, b1, b2, b3, forward, j),
    }
}

/// The transform, by decimation in time, of the `len` entries of `input` at
/// `offset`, `offset + stride`, `offset + 2 * stride` and so on.
///
/// One entry is its own transform. A length that is a power of four splits
/// into the four subsequences of every fourth entry; their transforms are
/// combined by four-point butterflies with twiddle factors. Any other length
/// splits into the even and the odd entries, whose transforms are combined
/// by two-point butterflies. The twiddle factors come from `cosines`, a table
/// for the whole turn.
pub open spec fn decimated(
    input: Seq<Complex64>,
    cosines: Seq<Complex64>,
    forward: bool,
    offset: int,
    stride: int,
    len: int,
) -> Seq<Complex64>
    decreases len,
{
    if len <= 1 {
        seq![input[offset]]
    } else if is_pow4(len as nat) {
        let q = len / 4;
        let d0 = decimated(input, cosines, forward, offset, 4 * stride, q);
        let d1 = decimated(input, cosines, forward, offset + stride, 4 * stride, q);
        let d2 = decimated(input, cosines, forward, offset + 2 * stride, 4 * stride, q);
        let d3 = decimated(input, cosines, forward, offset + 3 * stride, 4 * stride, q);
        Seq::new(
            len as nat,
            |i: int|
                woven(
                    d0[i % q],
                    d2[i % q],
                    d1[i % q],
                    d3[i % q],
                    twiddles_at(cosines, cosines.len() as int / len, i % q, forward),
                    forward,
                    i / q,
                ),
        )
    } else {
        let h = len / 2;
        let e = decimated(input, cosines, forward, offset, 2 * stride, h);
        let o = decimated(input, cosines, forward, offset + stride, 2 * stride, h);
        Seq::new(
            len as nat,
            |i: int|
                duo(
                    e[i % h],
                    spun(o[i % h], cosines, (i % h) * (cosines.len() as int / len), forward),
                    i / h,
                ),
        )
    }
}

/// The transform of `input`, a sequence whose length is a power of two, with
/// the twiddle factors of the table `cosines`.
pub open spec fn transform(input: Seq<Complex64>, cosines: Seq<Complex64>, forward: bool) -> Seq<
    Complex64,
> {
    decimated(input, cosines, forward, 0, 1, input.len() as int)
}

/// A transform is as long as its input.
pub proof fn lemma_transform_length(input: Seq<Complex64>, cosines: Seq<Complex64>, forward: bool)
    requires
        input.len() >= 1,
    ensures
        transform(input, cosines, forward).len() == input.len(),
{
}

/// Two runs on one input, with one table and in one direction, leave the
/// same values in their outputs, whatever the outputs held before, and as
/// many values as the input has.
pub proof fn lemma_two_runs_agree(
    input: Seq<Complex64>,
    cosines: Seq<Complex64>,
    forward: bool,
    after1: Seq<Complex64>,
    after2: Seq<Complex64>,
)
    requires
        input.len() >= 1,
        after1 == transform(input, cosines, forward),
        after2 == transform(input, cosines, forward),
    ensures
        after1 == after2,
        after1.len() == input.len(),
{
}

/// The transform of one value is that value, in both directions.
pub proof fn lemma_one_value(z: Complex64, cosines: Seq<Complex64>, forward: bool)
    ensures
        transform(seq![z], cosines, forward) == seq![z],
{
    assert(transform(seq![z], cosines, forward) =~= seq![z]);
}

/// The transform of two values is their sum and their difference, in both
/// directions.
pub proof fn lemma_two_values(a: Complex64, b: Complex64, cosines: Seq<Complex64>, forward: bool)
    ensures
        transform(seq![a, b], cosines, forward) == seq![sum(a, b), difference(a, b)],
{
    let input = seq![a, b];
    let e = decimated(input, cosines, forward, 0, 2, 1);
    let o = decimated(input, cosines, forward, 1, 2, 1);
    assert(e[0] == a);
    assert(o[0] == b);
    assert(!is_pow4(2));
    assert(transform(input, cosines, forward) =~= seq![sum(a, b), difference(a, b)]);
}

/// The transform of four values is one four-point butterfly, of the values
/// in the order 0, 2, 1, 3. It reads no cosine.
pub proof fn lemma_four_values(input: Seq<Complex64>, cosines: Seq<Complex64>, forward: bool)
    requires
        input.len() == 4,
    ensures
        transform(input, cosines, forward) == Seq::new(
            4,
            |j: int| quad(input[0], input[2], input[1], input[3], forward, j),
        ),
{
    let d0 = decimated(input, cosines, forward, 0, 4, 1);
    let d1 = decimated(input, cosines, forward, 1, 4, 1);
    let d2 = decimated(input, cosines, forward, 2, 4, 1);
    let d3 = decimated(input, cosines, forward, 3, 4, 1);
    assert(d0[0] == input[0] && d1[0] == input[1] && d2[0] == input[2] && d3[0] == input[3]);
    assert(is_pow4(4)) by {
        assert(is_pow4(1));
    }
    assert(4int / 4 == 1);
    let whole = transform(input, cosines, forward);
    assert forall|j: int| 0 <= j < 4 implies #[trigger] whole[j] == quad(
        input[0],
        input[2],
        input[1],
        input[3],
        forward,
        j,
    ) by {
        assert(j % 1 == 0 && j / 1 == j);
        assert(twiddles_at(cosines, cosines.len() as int / 4, 0, forward) === None);
    }
    assert(whole =~= Seq::new(
        4,
        |j: int| quad(input[0], input[2], input[1], input[3], forward, j),
    ));
}

/// A length that is twice a power of four splits in two first: the transform
/// of eight values combines the transforms of the four even and of the four
/// odd entries by two-point butterflies.
pub proof fn lemma_eight_values(input: Seq<Complex64>, cosines: Seq<Complex64>, forward: bool)
    requires
        input.len() == 8,
        cosines.len() == 8,
    ensures
        transform(input, cosines, forward) == Seq::new(
            8,
            |i: int|
                duo(
                    decimated(input, cosines, forward, 0, 2, 4)[i % 4],
                    spun(decimated(input, cosines, forward, 1, 2, 4)[i % 4], cosines, i % 4, forward),
                    i / 4,
                ),
        ),
{
    assert(!is_pow4(8)) by {
        assert(!is_pow4(2));
    }
    assert(8int / 8 == 1 && 8int / 2 == 4);
    let whole = transform(input, cosines, forward);
    assert forall|i: int| 0 <= i < 8 implies #[trigger] whole[i] == duo(
        decimated(input, cosines, forward, 0, 2, 4)[i % 4],
        spun(decimated(input, cosines, forward, 1, 2, 4)[i % 4], cosines, i % 4, forward),
        i / 4,
    ) by {
        assert((i % 4) * 1 == i % 4);
    }
    assert(whole =~= Seq::new(
        8,
        |i: int|
            duo(
                decimated(input, cosines, forward, 0, 2, 4)[i % 4],
                spun(decimated(input, cosines, forward, 1, 2, 4)[i % 4], cosines, i % 4, forward),
                i / 4,
            ),
    ));
}

} // verus!
