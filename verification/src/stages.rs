use vstd::prelude::*;
use vstd::arithmetic::div_mod::lemma_fundamental_div_mod;
use vstd::arithmetic::div_mod::lemma_fundamental_div_mod_converse;
use vstd::arithmetic::div_mod::lemma_mod_bound;
use num_complex::Complex64;
use crate::butterfly::duo;
use crate::butterfly::quad;
use crate::complex::product;
use crate::decimation::decimated;
use crate::decimation::transform;
use crate::decimation::twiddle;
use crate::decimation::twiddles_at;
use crate::decimation::woven;
use crate::permute::lemma_reversed_below;
use crate::permute::lemma_reversed_injective;
use crate::permute::lemma_reversed_of_four;
use crate::permute::lemma_reversed_twice;
use crate::permute::reversed;
use crate::pow2::is_pow2;
use crate::pow2::is_pow4;
use crate::pow2::lemma_pow2_below;
use crate::pow2::lemma_pow2_divides;
use crate::pow2::lemma_pow2_double;
use crate::pow2::lemma_pow2_half;
use crate::pow2::lemma_pow2_positive;
use crate::pow2::lemma_pow4_is_pow2;
use crate::pow2::lemma_pow4_quadruple;
use crate::pow2::lemma_twice_pow4;
use crate::slots::lemma_split;

verus! {

/// The first pass applied to `input`: output block `g` of four holds the
/// four-point butterfly of the inputs at `reversed(g)`, and a half, a quarter
/// and three quarters of the length further on.
pub open spec fn gathered(input: Seq<Complex64>, forward: bool) -> Seq<Complex64> {
    let q = (input.len() / 4) as int;
    Seq::new(
        input.len(),
        |i: int|
            {
                let p = reversed((i / 4) as nat, q as nat) as int;
                quad(input[p], input[p + 2 * q], input[p + q], input[p + 3 * q], forward, i % 4)
            },
    )
}

/// Entry `i` after the butterflies with the twiddle factors `tw` have
/// combined four neighbouring blocks of length `q` of `s`.
pub open spec fn crossed_at(
    s: Seq<Complex64>,
    q: int,
    tw: Option<(Complex64, Complex64, Complex64)>,
    forward: bool,
    i: int,
) -> Complex64 {
    let j = (i / q) % 4;
    let i0 = i - j * q;
    woven(s[i0], s[i0 + q], s[i0 + 2 * q], s[i0 + 3 * q], tw, forward, j)
}

/// One radix-4 stage applied to `s`: every four neighbouring blocks of length
/// `q` become one block of length `4 * q`.
pub open spec fn combined(s: Seq<Complex64>, cosines: Seq<Complex64>, q: int, forward: bool) -> Seq<
    Complex64,
> {
    Seq::new(
        s.len(),
        |i: int| crossed_at(s, q, twiddles_at(cosines, (s.len() as int) / (4 * q), i % q, forward), forward, i),
    )
}

/// Entry `i` after the last, radix-2 stage applied to `s`: the two halves of
/// `s` become one block.
pub open spec fn paired_at(s: Seq<Complex64>, cosines: Seq<Complex64>, forward: bool, i: int) -> Complex64 {
    let h = (s.len() / 2) as int;
    let k = i % h;
    let z1 = if k == 0 {
        s[h]
    } else {
        product(s[k + h], twiddle(cosines, k, forward))
    };
    duo(s[k], z1, i / h)
}

/// The last, radix-2 stage applied to `s`.
pub open spec fn paired(s: Seq<Complex64>, cosines: Seq<Complex64>, forward: bool) -> Seq<Complex64> {
    Seq::new(s.len(), |i: int| paired_at(s, cosines, forward, i))
}

/// The stages that follow when `s` holds transformed blocks of length `q`:
/// radix-4 stages while four blocks fit, then the radix-2 stage if two blocks
/// are left.
pub open spec fn staged(s: Seq<Complex64>, cosines: Seq<Complex64>, q: int, forward: bool) -> Seq<
    Complex64,
>
    decreases s.len() - q,
{
    if q >= 1 && 4 * q <= s.len() {
        staged(combined(s, cosines, q, forward), cosines, 4 * q, forward)
    } else if 2 * q == s.len() {
        paired(s, cosines, forward)
    } else {
        s
    }
}

/// What the passes of the iterative engine make of `input`, a sequence
/// whose length is a power of two: one value stays, two values take a
/// two-point butterfly, and four or more take the first pass and the stages.
pub open spec fn passes(input: Seq<Complex64>, cosines: Seq<Complex64>, forward: bool) -> Seq<
    Complex64,
> {
    if input.len() == 1 {
        input
    } else if input.len() == 2 {
        seq![duo(input[0], input[1], 0), duo(input[0], input[1], 1)]
    } else {
        staged(gathered(input, forward), cosines, 4, forward)
    }
}

/// The stages leave the length as it is.
pub proof fn lemma_staged_length(s: Seq<Complex64>, cosines: Seq<Complex64>, q: int, forward: bool)
    ensures
        staged(s, cosines, q, forward).len() == s.len(),
    decreases s.len() - q,
{
    if q >= 1 && 4 * q <= s.len() {
        lemma_staged_length(combined(s, cosines, q, forward), cosines, 4 * q, forward);
    }
}

/// The passes leave the length as it is.
pub proof fn lemma_passes_length(input: Seq<Complex64>, cosines: Seq<Complex64>, forward: bool)
    ensures
        passes(input, cosines, forward).len() == input.len(),
{
    if input.len() != 1 && input.len() != 2 {
        lemma_staged_length(gathered(input, forward), cosines, 4, forward);
    }
}

/// Eight values take no radix-4 stage: after the first pass the last,
/// radix-2 stage follows at once.
pub proof fn lemma_eight_values_take_the_last_stage(
    input: Seq<Complex64>,
    cosines: Seq<Complex64>,
    forward: bool,
)
    requires
        input.len() == 8,
    ensures
        passes(input, cosines, forward) == paired(gathered(input, forward), cosines, forward),
{
}

/// Four values take the first pass and no stage.
pub proof fn lemma_four_values_take_no_stage(
    input: Seq<Complex64>,
    cosines: Seq<Complex64>,
    forward: bool,
)
    requires
        input.len() == 4,
    ensures
        passes(input, cosines, forward) == gathered(input, forward),
{
}

/// The first pass reads every input. With `q` a quarter of the length, input
/// `p` is read by the butterfly of block `g`, the reversal of `p % q`: it
/// lies `p / q` quarters of the length after `reversed(g)`.
pub proof fn lemma_gather_reads_every_input(n: nat, p: nat)
    requires
        is_pow2(n),
        n >= 4,
        p < n,
    ensures
        reversed(p % (n / 4), n / 4) < n / 4,
        p / (n / 4) < 4,
        reversed(reversed(p % (n / 4), n / 4), n / 4) + (p / (n / 4)) * (n / 4) == p,
{
    let q = n / 4;
    lemma_pow2_half(n);
    lemma_pow2_half(n / 2);
    lemma_fundamental_div_mod(p as int, q as int);
    lemma_mod_bound(p as int, q as int);
    lemma_reversed_twice(p % q, q);
    assert(p / q < 4) by (nonlinear_arith)
        requires
            p == q * (p / q) + p % q,
            p < 4 * q,
            q >= 1,
    ;
    assert((p / q) * q == q * (p / q)) by (nonlinear_arith);
}

/// The first pass reads no input twice: two reads of one input are one read.
pub proof fn lemma_gather_reads_no_input_twice(q: nat, g1: nat, c1: nat, g2: nat, c2: nat)
    requires
        is_pow2(q),
        g1 < q,
        g2 < q,
        reversed(g1, q) + c1 * q == reversed(g2, q) + c2 * q,
    ensures
        g1 == g2,
        c1 == c2,
{
    lemma_reversed_below(g1, q);
    lemma_reversed_below(g2, q);
    let p = reversed(g1, q) + c1 * q;
    lemma_fundamental_div_mod_converse(p as int, q as int, c1 as int, reversed(g1, q) as int);
    lemma_fundamental_div_mod_converse(p as int, q as int, c2 as int, reversed(g2, q) as int);
    lemma_reversed_injective(g1, g2, q);
}

/// The transform that block `i / q` of a sequence holds at entry `i`, when
/// its blocks of length `q` hold the transforms of the subsequences of
/// `input` that start at the reversed block index and take every entry a
/// block count apart.
spec fn block_entry(
    input: Seq<Complex64>,
    cosines: Seq<Complex64>,
    forward: bool,
    q: int,
    i: int,
) -> Complex64 {
    let blocks = input.len() as int / q;
    decimated(
        input,
        cosines,
        forward,
        reversed((i / q) as nat, blocks as nat) as int,
        blocks,
        q,
    )[i % q]
}

/// Every block of length `q` of `s` holds the transform of its subsequence
/// of `input`.
spec fn blocks_hold(
    s: Seq<Complex64>,
    input: Seq<Complex64>,
    cosines: Seq<Complex64>,
    forward: bool,
    q: int,
) -> bool {
    &&& s.len() == input.len()
    &&& forall|i: int|
        0 <= i < s.len() ==> #[trigger] s[i] == block_entry(input, cosines, forward, q, i)
}

/// After the first pass every block of four holds the transform of its four
/// inputs.
proof fn lemma_gathered_holds(input: Seq<Complex64>, cosines: Seq<Complex64>, forward: bool)
    requires
        input.len() >= 4,
        input.len() % 4 == 0,
    ensures
        blocks_hold(gathered(input, forward), input, cosines, forward, 4),
{
    let s = gathered(input, forward);
    let blocks = input.len() as int / 4;
    assert(is_pow4(4)) by {
        assert(is_pow4(1));
    }
    assert forall|i: int| 0 <= i < s.len() implies #[trigger] s[i] == block_entry(
        input,
        cosines,
        forward,
        4,
        i,
    ) by {
        let p = reversed((i / 4) as nat, blocks as nat) as int;
        let j = i % 4;
        let d0 = decimated(input, cosines, forward, p, 4 * blocks, 1);
        let d1 = decimated(input, cosines, forward, p + blocks, 4 * blocks, 1);
        let d2 = decimated(input, cosines, forward, p + 2 * blocks, 4 * blocks, 1);
        let d3 = decimated(input, cosines, forward, p + 3 * blocks, 4 * blocks, 1);
        assert(d0[0] == input[p]);
        assert(d1[0] == input[p + blocks]);
        assert(d2[0] == input[p + 2 * blocks]);
        assert(d3[0] == input[p + 3 * blocks]);
        assert(twiddles_at(cosines, cosines.len() as int / 4, 0, forward) === None);
        let whole = decimated(input, cosines, forward, p, blocks, 4);
        assert(4int / 4 == 1);
        assert(j % 1 == 0 && j / 1 == j);
        assert(whole[j] == woven(
            d0[0],
            d2[0],
            d1[0],
            d3[0],
            twiddles_at(cosines, cosines.len() as int / 4, 0, forward),
            forward,
            j,
        ));
    }
}

/// A radix-4 stage takes blocks that hold their transforms to four times
/// longer blocks that hold theirs.
proof fn lemma_combined_holds(
    s: Seq<Complex64>,
    input: Seq<Complex64>,
    cosines: Seq<Complex64>,
    forward: bool,
    q: int,
)
    requires
        input.len() == cosines.len(),
        is_pow2(input.len()),
        q >= 4,
        is_pow4(q as nat),
        4 * q <= input.len(),
        blocks_hold(s, input, cosines, forward, q),
    ensures
        blocks_hold(combined(s, cosines, q, forward), input, cosines, forward, 4 * q),
{
    let n = input.len() as int;
    let next = combined(s, cosines, q, forward);
    let blocks = n / q;
    let groups = n / (4 * q);
    lemma_pow4_is_pow2(q as nat);
    lemma_pow4_quadruple(q as nat);
    lemma_pow4_is_pow2((4 * q) as nat);
    lemma_pow2_divides((4 * q) as nat, n as nat);
    lemma_fundamental_div_mod(n, 4 * q);
    assert(n == (4 * groups) * q) by (nonlinear_arith)
        requires
            n == (4 * q) * groups,
    ;
    lemma_fundamental_div_mod_converse(n, q, 4 * groups, 0);
    assert(blocks == 4 * groups);
    lemma_pow2_positive(groups as nat);
    assert forall|i: int| 0 <= i < next.len() implies #[trigger] next[i] == block_entry(
        input,
        cosines,
        forward,
        4 * q,
        i,
    ) by {
        lemma_split(q, i);
        let k = i % q;
        let j = (i / q) % 4;
        let g = i / (4 * q);
        let i0 = i - j * q;
        assert(g < groups) by (nonlinear_arith)
            requires
                i == (4 * g + j) * q + k,
                0 <= j,
                0 <= k,
                i < n,
                n == (4 * q) * groups,
                q >= 1,
        ;
        assert(i0 + 3 * q < n) by (nonlinear_arith)
            requires
                i0 + 3 * q < (g + 1) * (4 * q),
                g + 1 <= groups,
                n == (4 * q) * groups,
                q >= 1,
        ;
        let origin = reversed(g as nat, groups as nat) as int;
        lemma_reversed_of_four(g as nat, 0, blocks as nat);
        lemma_reversed_of_four(g as nat, 1, blocks as nat);
        lemma_reversed_of_four(g as nat, 2, blocks as nat);
        lemma_reversed_of_four(g as nat, 3, blocks as nat);
        let d0 = decimated(input, cosines, forward, origin, blocks, q);
        let d1 = decimated(input, cosines, forward, origin + groups, blocks, q);
        let d2 = decimated(input, cosines, forward, origin + 2 * groups, blocks, q);
        let d3 = decimated(input, cosines, forward, origin + 3 * groups, blocks, q);
        assert(s[i0] == block_entry(input, cosines, forward, q, i0));
        assert(s[i0 + q] == block_entry(input, cosines, forward, q, i0 + q));
        assert(s[i0 + 2 * q] == block_entry(input, cosines, forward, q, i0 + 2 * q));
        assert(s[i0 + 3 * q] == block_entry(input, cosines, forward, q, i0 + 3 * q));
        assert(s[i0] == d0[k]);
        assert(s[i0 + q] == d2[k]);
        assert(s[i0 + 2 * q] == d1[k]);
        assert(s[i0 + 3 * q] == d3[k]);
        let whole = decimated(input, cosines, forward, origin, groups, 4 * q);
        let t = i % (4 * q);
        assert((4 * q) / 4 == q);
        assert(4 * groups == blocks);
        assert(0 <= t < 4 * q);
        assert(whole[t] == woven(
            d0[t % q],
            d2[t % q],
            d1[t % q],
            d3[t % q],
            twiddles_at(cosines, cosines.len() as int / (4 * q), t % q, forward),
            forward,
            t / q,
        ));
    }
}

/// The last, radix-2 stage takes two blocks that hold their transforms to
/// the transform of the whole input.
proof fn lemma_paired_is_decimated(
    s: Seq<Complex64>,
    input: Seq<Complex64>,
    cosines: Seq<Complex64>,
    forward: bool,
    q: int,
)
    requires
        input.len() == cosines.len(),
        q >= 4,
        is_pow4(q as nat),
        2 * q == input.len(),
        blocks_hold(s, input, cosines, forward, q),
    ensures
        paired(s, cosines, forward) == decimated(input, cosines, forward, 0, 1, input.len() as int),
{
    let n = input.len() as int;
    let whole = decimated(input, cosines, forward, 0, 1, n);
    let e = decimated(input, cosines, forward, 0, 2, q);
    let o = decimated(input, cosines, forward, 1, 2, q);
    lemma_twice_pow4(q as nat);
    assert(n / 2 == q);
    assert(n / q == 2) by (nonlinear_arith)
        requires
            n == 2 * q,
            q >= 1,
    ;
    assert(n / n == 1) by (nonlinear_arith)
        requires
            n >= 1,
    ;
    assert(reversed(0, 2) == 0 && reversed(1, 2) == 1) by {
        assert(reversed(0, 1) == 0);
    }
    assert forall|i: int| 0 <= i < n implies #[trigger] paired(s, cosines, forward)[i]
        == whole[i] by {
        let k = i % q;
        if i < q {
            lemma_fundamental_div_mod_converse(i, q, 0, i);
        } else {
            lemma_fundamental_div_mod_converse(i, q, 1, i - q);
        }
        lemma_fundamental_div_mod_converse(k, q, 0, k);
        lemma_fundamental_div_mod_converse(k + q, q, 1, k);
        assert(s[k] == block_entry(input, cosines, forward, q, k));
        assert(s[k + q] == block_entry(input, cosines, forward, q, k + q));
        assert(s[k] == e[k]);
        assert(s[k + q] == o[k]);
        assert(k * 1 == k);
    }
    assert(paired(s, cosines, forward) =~= whole);
}

/// One block that holds its transform holds the transform of the whole
/// input.
proof fn lemma_whole_is_decimated(
    s: Seq<Complex64>,
    input: Seq<Complex64>,
    cosines: Seq<Complex64>,
    forward: bool,
)
    requires
        input.len() >= 4,
        blocks_hold(s, input, cosines, forward, input.len() as int),
    ensures
        s == decimated(input, cosines, forward, 0, 1, input.len() as int),
{
    let n = input.len() as int;
    let whole = decimated(input, cosines, forward, 0, 1, n);
    assert(n / n == 1) by (nonlinear_arith)
        requires
            n >= 1,
    ;
    assert(reversed(0, 1) == 0);
    assert forall|i: int| 0 <= i < n implies #[trigger] s[i] == whole[i] by {
        lemma_fundamental_div_mod_converse(i, n, 0, i);
        assert(s[i] == block_entry(input, cosines, forward, n, i));
    }
    assert(s =~= whole);
}

/// The stages take blocks that hold their transforms to the transform of
/// the whole input.
proof fn lemma_staged_is_decimated(
    s: Seq<Complex64>,
    input: Seq<Complex64>,
    cosines: Seq<Complex64>,
    forward: bool,
    q: int,
)
    requires
        input.len() == cosines.len(),
        is_pow2(input.len()),
        q >= 4,
        is_pow4(q as nat),
        q <= input.len(),
        blocks_hold(s, input, cosines, forward, q),
    ensures
        staged(s, cosines, q, forward) == decimated(
            input,
            cosines,
            forward,
            0,
            1,
            input.len() as int,
        ),
    decreases input.len() - q,
{
    let n = input.len() as int;
    if 4 * q <= n {
        lemma_combined_holds(s, input, cosines, forward, q);
        lemma_pow4_quadruple(q as nat);
        lemma_staged_is_decimated(combined(s, cosines, q, forward), input, cosines, forward, 4 * q);
    } else if 2 * q == n {
        lemma_paired_is_decimated(s, input, cosines, forward, q);
    } else {
        lemma_pow4_is_pow2(q as nat);
        if q < n {
            lemma_pow2_below(q as nat, n as nat);
            lemma_pow2_double(q as nat);
            lemma_pow2_below((2 * q) as nat, n as nat);
        }
        lemma_whole_is_decimated(s, input, cosines, forward);
    }
}

/// The passes of the iterative engine compute the transform by decimation in
/// time: gathering the input in reversed order and combining blocks in place,
/// stage by stage, gives every entry the value that the recursive definition
/// gives it.
pub proof fn lemma_passes_are_the_transform(
    input: Seq<Complex64>,
    cosines: Seq<Complex64>,
    forward: bool,
)
    requires
        is_pow2(input.len()),
        cosines.len() == input.len(),
    ensures
        passes(input, cosines, forward) == transform(input, cosines, forward),
{
    let n = input.len() as int;
    let whole = decimated(input, cosines, forward, 0, 1, n);
    if n == 1 {
        assert(input =~= whole);
    } else if n == 2 {
        let e = decimated(input, cosines, forward, 0, 2, 1);
        let o = decimated(input, cosines, forward, 1, 2, 1);
        assert(e[0] == input[0]);
        assert(o[0] == input[1]);
        assert(!is_pow4(2));
        assert(passes(input, cosines, forward) =~= whole);
    } else {
        lemma_pow2_half(n as nat);
        lemma_pow2_half((n / 2) as nat);
        lemma_gathered_holds(input, cosines, forward);
        assert(is_pow4(4)) by {
            assert(is_pow4(1));
        }
        lemma_staged_is_decimated(gathered(input, forward), input, cosines, forward, 4);
    }
}

} // verus!
