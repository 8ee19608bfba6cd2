use vstd::prelude::*;
use num_complex::Complex64;
use crate::butterfly::butterfly2;
use crate::butterfly::duo;
use crate::complex::angle;
use crate::complex::is_full_turn;
use crate::complex::is_unit_at;
use crate::complex::negation;
use crate::complex::phase;
use crate::complex::product;
use crate::complex::times;
use crate::complex::unit;

verus! {

/// The entries of `s` at even indices.
pub open spec fn evens(s: Seq<Complex64>) -> Seq<Complex64> {
    Seq::new(s.len() / 2, |k: int| s[2 * k])
}

/// The entries of `s` at odd indices.
pub open spec fn odds(s: Seq<Complex64>) -> Seq<Complex64> {
    Seq::new(s.len() / 2, |k: int| s[2 * k + 1])
}

/// The two-point butterfly of `e` and `o` times the twiddle factor `w`:
/// result 0 is `e + o * w`, result 1 is `e - o * w`.
pub open spec fn twisted(e: Complex64, o: Complex64, w: Complex64, j: int) -> Complex64 {
    duo(e, product(o, w), j)
}

/// The transforms `e` and `o` of the two halves of a sequence, combined with
/// the twiddle factors `w`: entry `k` of the first half is `e[k] + o[k] * w[k]`,
/// entry `k` of the second half is `e[k] - o[k] * w[k]`.
pub open spec fn merged(e: Seq<Complex64>, o: Seq<Complex64>, w: Seq<Complex64>) -> Seq<Complex64> {
    Seq::new(
        2 * e.len(),
        |i: int|
            if i < e.len() {
                twisted(e[i], o[i], w[i], 0)
            } else {
                twisted(e[i - e.len()], o[i - e.len()], w[i - e.len()], 1)
            },
    )
}

/// `w` holds the twiddle factors of a transform of `2 * w.len()` values:
/// entry `k` is a point of the unit circle at `k` of `2 * w.len()` parts of
/// the turn `spin`.
pub open spec fn are_twiddles(w: Seq<Complex64>, spin: Complex64) -> bool {
    forall|k: int| 0 <= k < w.len() ==> is_unit_at(angle(spin, k as nat, 2 * w.len()), #[trigger] w[k])
}

/// `output` is a radix-2 transform of `input` with the turn `spin`: `input`
/// itself where it has one entry, else the radix-2 transforms of its even and
/// of its odd entries, merged with the twiddle factors of its length.
///
/// This is a relation, not a function: a twiddle factor is what the platform
/// gave for a point of the unit circle, and the platform need not give the
/// same twice.
pub open spec fn transforms(input: Seq<Complex64>, output: Seq<Complex64>, spin: Complex64) -> bool
    decreases input.len(),
{
    if input.len() <= 1 {
        output == input
    } else {
        exists|e: Seq<Complex64>, o: Seq<Complex64>, w: Seq<Complex64>|
            {
                &&& e.len() == input.len() / 2
                &&& o.len() == input.len() / 2
                &&& w.len() == input.len() / 2
                &&& are_twiddles(w, spin)
                &&& transforms(evens(input), e, spin)
                &&& transforms(odds(input), o, spin)
                &&& output == #[trigger] merged(e, o, w)
            }
    }
}

/// The full turn with the sign of a direction: negative for a forward
/// transform, which turns clockwise.
pub open spec fn spin_of(turn: Complex64, forward: bool) -> Complex64 {
    if forward {
        negation(turn)
    } else {
        turn
    }
}

/// `output` is a radix-2 transform of `input` in the given direction.
pub open spec fn runs(input: Seq<Complex64>, output: Seq<Complex64>, forward: bool) -> bool {
    exists|turn: Complex64| #[trigger]
        is_full_turn(turn) && transforms(input, output, spin_of(turn, forward))
}

/// Twiddle factor `k` of a transform of `n` values: the point of the unit
/// circle at `k` of `n` parts of the turn `spin`, as the platform gives it.
pub fn twiddle(spin: Complex64, k: usize, n: usize) -> (w: Complex64)
    ensures
        is_unit_at(angle(spin, k as nat, n as nat), w),
{
    unit(phase(spin, k, n))
}

/// The two-point butterfly of `e` and `o` times the twiddle factor `w`.
pub fn twist(e: Complex64, o: Complex64, w: Complex64) -> (r: (Complex64, Complex64))
    ensures
        r.0 == twisted(e, o, w, 0),
        r.1 == twisted(e, o, w, 1),
{
    butterfly2(e, times(o, w))
}

/// A transform of one value is that value.
pub proof fn lemma_single(z: Complex64, output: Seq<Complex64>, spin: Complex64)
    requires
        transforms(seq![z], output, spin),
    ensures
        output == seq![z],
{
}

/// A transform of two values is their two-point butterfly with a twiddle
/// factor at angle zero.
pub proof fn lemma_pair(a: Complex64, b: Complex64, output: Seq<Complex64>, spin: Complex64)
    requires
        transforms(seq![a, b], output, spin),
    ensures
        exists|w: Complex64|
            is_unit_at(angle(spin, 0, 2), w) && output == seq![
                #[trigger] twisted(a, b, w, 0),
                twisted(a, b, w, 1),
            ],
{
    let input = seq![a, b];
    let (e, o, w) = choose|e: Seq<Complex64>, o: Seq<Complex64>, w: Seq<Complex64>|
        {
            &&& e.len() == input.len() / 2
            &&& o.len() == input.len() / 2
            &&& w.len() == input.len() / 2
            &&& are_twiddles(w, spin)
            &&& transforms(evens(input), e, spin)
            &&& transforms(odds(input), o, spin)
            &&& output == #[trigger] merged(e, o, w)
        };
    assert(evens(input) =~= seq![a]);
    assert(odds(input) =~= seq![b]);
    assert(is_unit_at(angle(spin, 0, 2), w[0]));
    assert(output =~= seq![twisted(a, b, w[0], 0), twisted(a, b, w[0], 1)]);
}

/// A transform has as many entries as its input, where that number is even
/// or one.
pub proof fn lemma_same_length(input: Seq<Complex64>, output: Seq<Complex64>, spin: Complex64)
    requires
        transforms(input, output, spin),
        input.len() <= 1 || input.len() % 2 == 0,
    ensures
        output.len() == input.len(),
{
    if input.len() > 1 {
        let (e, o, w) = choose|e: Seq<Complex64>, o: Seq<Complex64>, w: Seq<Complex64>|
            {
                &&& e.len() == input.len() / 2
                &&& o.len() == input.len() / 2
                &&& w.len() == input.len() / 2
                &&& are_twiddles(w, spin)
                &&& transforms(evens(input), e, spin)
                &&& transforms(odds(input), o, spin)
                &&& output == #[trigger] merged(e, o, w)
            };
        assert(output.len() == 2 * e.len());
    }
}

/// A run on one value gives that value, in both directions.
pub proof fn lemma_run_of_one(z: Complex64, output: Seq<Complex64>, forward: bool)
    requires
        runs(seq![z], output, forward),
    ensures
        output == seq![z],
{
}

/// A run on two values gives their two-point butterfly with some twiddle
/// factor, which the platform gave for angle zero.
pub proof fn lemma_run_of_two(a: Complex64, b: Complex64, output: Seq<Complex64>, forward: bool)
    requires
        runs(seq![a, b], output, forward),
    ensures
        exists|w: Complex64| output == seq![#[trigger] twisted(a, b, w, 0), twisted(a, b, w, 1)],
{
    let turn = choose|turn: Complex64| #[trigger]
        is_full_turn(turn) && transforms(seq![a, b], output, spin_of(turn, forward));
    lemma_pair(a, b, output, spin_of(turn, forward));
}

/// A run gives as many values as it takes, where that number is even or one.
pub proof fn lemma_run_length(input: Seq<Complex64>, output: Seq<Complex64>, forward: bool)
    requires
        runs(input, output, forward),
        input.len() <= 1 || input.len() % 2 == 0,
    ensures
        output.len() == input.len(),
{
    let turn = choose|turn: Complex64| #[trigger]
        is_full_turn(turn) && transforms(input, output, spin_of(turn, forward));
    lemma_same_length(input, output, spin_of(turn, forward));
}

/// Two runs on one input give equally many values, as many as the input
/// has, where that number is even or one. Whether they give the same values
/// is for the platform to say: each twiddle factor is what it gave for a
/// point of the unit circle.
pub proof fn lemma_two_runs_have_one_length(
    input: Seq<Complex64>,
    forward: bool,
    after1: Seq<Complex64>,
    after2: Seq<Complex64>,
)
    requires
        runs(input, after1, forward),
        runs(input, after2, forward),
        input.len() <= 1 || input.len() % 2 == 0,
    ensures
        after1.len() == input.len(),
        after2.len() == input.len(),
{
    lemma_run_length(input, after1, forward);
    lemma_run_length(input, after2, forward);
}

} // verus!
