use vstd::prelude::*;
use vstd::arithmetic::div_mod::lemma_div_denominator;
use vstd::arithmetic::div_mod::lemma_fundamental_div_mod;
use vstd::arithmetic::div_mod::lemma_fundamental_div_mod_converse;
use crate::pow2::is_pow2;
use crate::pow2::lemma_pow2_half;

verus! {

/// The binary digits of `i` in reverse order, for an index below `span`, a
/// power of two: the lowest digit of `i` counts `span / 2`, the highest
/// counts 1.
pub open spec fn reversed(i: nat, span: nat) -> nat
    decreases span,
{
    if span <= 1 {
        0
    } else {
        (i % 2) * (span / 2) + reversed(i / 2, span / 2)
    }
}

/// A reversed index stays below the span.
pub proof fn lemma_reversed_below(i: nat, span: nat)
    requires
        span >= 1,
    ensures
        reversed(i, span) < span,
    decreases span,
{
    if span > 1 {
        lemma_reversed_below(i / 2, span / 2);
        assert((i % 2) * (span / 2) <= span / 2) by (nonlinear_arith)
            requires
                i % 2 <= 1,
        ;
    }
}

/// The reversal read from the other end: the highest digit of `i` counts 1,
/// and the digits below it, reversed among themselves, count double.
proof fn lemma_reversed_from_top(i: nat, span: nat)
    requires
        is_pow2(span),
        span >= 2,
        i < span,
    ensures
        reversed(i, span) == 2 * reversed(i % (span / 2), span / 2) + i / (span / 2),
    decreases span,
{
    let h = span / 2;
    lemma_pow2_half(span);
    if h == 1 {
        assert(reversed(i / 2, 1) == 0);
        assert(reversed(i % 1, 1) == 0);
    } else {
        let hh = h / 2;
        lemma_pow2_half(h);
        let a = i / h;
        let b = i % h;
        let c = b / 2;
        let d = b % 2;
        lemma_fundamental_div_mod(i as int, h as int);
        assert(i == 2 * (hh * a + c) + d) by (nonlinear_arith)
            requires
                i == h * a + b,
                h == 2 * hh,
                b == 2 * c + d,
        ;
        assert(i / 2 == hh * a + c && i % 2 == d);
        assert(hh * a + c == a * hh + c) by (nonlinear_arith);
        lemma_fundamental_div_mod_converse((i / 2) as int, hh as int, a as int, c as int);
        lemma_reversed_from_top(i / 2, h);
        assert(reversed(i / 2, h) == 2 * reversed(c, hh) + a);
        assert(reversed(b, h) == d * hh + reversed(c, hh));
        assert(reversed(i, span) == d * h + reversed(i / 2, h));
        assert(2 * (d * hh) == d * h) by (nonlinear_arith)
            requires
                h == 2 * hh,
        ;
    }
}

/// Reversing twice gives the index back: the reversal is a permutation of
/// the indices below `span`, and its own inverse.
pub proof fn lemma_reversed_twice(i: nat, span: nat)
    requires
        is_pow2(span),
        i < span,
    ensures
        reversed(i, span) < span,
        reversed(reversed(i, span), span) == i,
    decreases span,
{
    lemma_reversed_below(i, span);
    if span >= 2 {
        let h = span / 2;
        lemma_pow2_half(span);
        let r = reversed(i, span);
        let low = reversed(i / 2, h);
        lemma_reversed_below(i / 2, h);
        lemma_fundamental_div_mod_converse(r as int, h as int, (i % 2) as int, low as int);
        lemma_reversed_from_top(r, span);
        lemma_reversed_twice(i / 2, h);
    }
}

/// Two indices with one reversal are one index.
pub proof fn lemma_reversed_injective(i: nat, j: nat, span: nat)
    requires
        is_pow2(span),
        i < span,
        j < span,
        reversed(i, span) == reversed(j, span),
    ensures
        i == j,
{
    lemma_reversed_twice(i, span);
    lemma_reversed_twice(j, span);
}

/// The reversal of an index whose two lowest digits are known: they move to
/// the top, in exchanged places, and the other digits are reversed below
/// them.
pub proof fn lemma_reversed_of_four(g: nat, m: nat, span: nat)
    requires
        span >= 4,
        span % 4 == 0,
        m < 4,
    ensures
        reversed(4 * g + m, span) == (if m == 0 {
            0nat
        } else if m == 1 {
            2nat
        } else if m == 2 {
            1nat
        } else {
            3nat
        }) * (span / 4) + reversed(g, span / 4),
{
    let i = 4 * g + m;
    let half = span / 2;
    let quarter = span / 4;
    assert(half == 2 * quarter);
    assert(half / 2 == quarter);
    assert(reversed(i, span) == (i % 2) * half + reversed(i / 2, half));
    assert(reversed(i / 2, half) == ((i / 2) % 2) * quarter + reversed((i / 2) / 2, quarter));
    assert((i / 2) / 2 == g);
    let low = i % 2;
    let high = (i / 2) % 2;
    assert(low == m % 2 && high == m / 2);
    assert(low * half + high * quarter == (2 * low + high) * quarter) by (nonlinear_arith)
        requires
            half == 2 * quarter,
    ;
}

/// One more digit: the digit of `i` that counts `half` moves to where it
/// counts `f`.
proof fn lemma_one_more_digit(i: nat, half: nat, f: nat)
    requires
        half >= 1,
        f >= 1,
    ensures
        reversed(i / half, 2 * f) == ((i / half) % 2) * f + reversed(i / (2 * half), f),
{
    lemma_div_denominator(i as int, half as int, 2);
    assert((2 * f) / 2 == f);
    assert(half * 2 == 2 * half);
}

/// In the lower half of a block of `2 * half` indices the digit that counts
/// `half` is 0, in the upper half it is 1.
proof fn lemma_digit_of_block(i: nat, b: nat, half: nat)
    requires
        half >= 1,
        b * (2 * half) <= i < (b + 1) * (2 * half),
    ensures
        (i / half) % 2 == (if i < b * (2 * half) + half { 0nat } else { 1nat }),
{
    let base = b * (2 * half);
    assert(base == (2 * b) * half) by (nonlinear_arith)
        requires
            base == b * (2 * half),
    ;
    assert((b + 1) * (2 * half) == base + 2 * half) by (nonlinear_arith)
        requires
            base == b * (2 * half),
    ;
    if i < base + half {
        lemma_fundamental_div_mod_converse(i as int, half as int, (2 * b) as int, i - base);
        assert((2 * b) % 2 == 0);
    } else {
        assert(i == (2 * b + 1) * half + (i - base - half)) by (nonlinear_arith)
            requires
                base == (2 * b) * half,
        ;
        lemma_fundamental_div_mod_converse(i as int, half as int, (2 * b + 1) as int, i - base - half);
        assert((2 * b + 1) % 2 == 1);
    }
}

/// The table of reversed indices for `span` entries: entry `g` is
/// `reversed(g, span)`. The span is a power of two, or 0 for an empty table.
///
/// The table starts at zero. Block lengths run from `span` down to 2; at each
/// length the upper half of every block gains the digit's reversed weight,
/// which starts at 1 and doubles.
pub fn reversal_table(span: usize) -> (table: Vec<usize>)
    requires
        span == 0 || is_pow2(span as nat),
    ensures
        table@.len() == span,
        forall|g: int| 0 <= g < span ==> table@[g] == reversed(g as nat, span as nat),
{
    let mut table: Vec<usize> = Vec::with_capacity(span);
    while table.len() < span
        invariant
            table@.len() <= span,
            forall|g: int| 0 <= g < table@.len() ==> table@[g] == 0,
        decreases span - table@.len(),
    {
        table.push(0);
    }
    let mut len: usize = span;
    let mut weight: usize = 1;
    while len > 1
        invariant
            table@.len() == span,
            span == 0 || is_pow2(len as nat),
            len <= span,
            len * weight == span,
            weight >= 1,
            forall|g: int|
                0 <= g < span ==> table@[g] == reversed((g / len as int) as nat, weight as nat),
        decreases len,
    {
        let half: usize = len / 2;
        proof {
            lemma_pow2_half(len as nat);
            assert(2 * weight <= span) by (nonlinear_arith)
                requires
                    len * weight == span,
                    len >= 2,
                    weight >= 1,
            ;
            assert(half * (2 * weight) == span) by (nonlinear_arith)
                requires
                    len * weight == span,
                    len == 2 * half,
            ;
        }
        let mut start: usize = 0;
        let ghost mut block: nat = 0;
        while start < span
            invariant
                table@.len() == span,
                half >= 1,
                len == 2 * half,
                weight >= 1,
                2 * weight <= span,
                len * weight == span,
                start == block * len,
                start <= span,
                forall|g: int|
                    0 <= g < span ==> table@[g] == (if g < start {
                        reversed((g / half as int) as nat, (2 * weight) as nat)
                    } else {
                        reversed((g / len as int) as nat, weight as nat)
                    }),
            decreases span - start,
        {
            proof {
                assert(start + len <= span) by (nonlinear_arith)
                    requires
                        start == block * len,
                        len * weight == span,
                        start < span,
                        len >= 1,
                ;
                assert forall|g: int| start <= g < start + half implies #[trigger] reversed(
                    (g / half as int) as nat,
                    (2 * weight) as nat,
                ) == reversed((g / len as int) as nat, weight as nat) by {
                    assert((block + 1) * (2 * half) == start + len) by (nonlinear_arith)
                        requires
                            start == block * len,
                            len == 2 * half,
                    ;
                    lemma_digit_of_block(g as nat, block, half as nat);
                    lemma_one_more_digit(g as nat, half as nat, weight as nat);
                }
            }
            let mut idx: usize = start + half;
            while idx < start + len
                invariant
                    table@.len() == span,
                    half >= 1,
                    len == 2 * half,
                    weight >= 1,
                    2 * weight <= span,
                    start == block * len,
                    start + len <= span,
                    start + half <= idx <= start + len,
                    forall|g: int|
                        0 <= g < span ==> table@[g] == (if g < idx {
                            reversed((g / half as int) as nat, (2 * weight) as nat)
                        } else {
                            reversed((g / len as int) as nat, weight as nat)
                        }),
                decreases start + len - idx,
            {
                proof {
                    assert((block + 1) * (2 * half) == start + len) by (nonlinear_arith)
                        requires
                            start == block * len,
                            len == 2 * half,
                    ;
                    lemma_digit_of_block(idx as nat, block, half as nat);
                    lemma_one_more_digit(idx as nat, half as nat, weight as nat);
                    lemma_reversed_below((idx / len) as nat, weight as nat);
                    assert(((idx / half) % 2) * weight == weight) by (nonlinear_arith)
                        requires
                            (idx / half) % 2 == 1,
                    ;
                }
                let entry: usize = table[idx];
                table[idx] = entry + weight;
                idx = idx + 1;
            }
            start = start + len;
            proof {
                assert((block + 1) * len == block * len + len) by (nonlinear_arith);
                block = block + 1;
            }
        }
        len = half;
        weight = 2 * weight;
    }
    proof {
        if span > 0 {
            assert(len == 1);
            assert(weight == span) by (nonlinear_arith)
                requires
                    len * weight == span,
                    len == 1,
            ;
            assert forall|g: int| 0 <= g < span implies table@[g] == reversed(
                g as nat,
                span as nat,
            ) by {
                assert(g / (len as int) == g);
            }
        }
    }
    table
}

} // verus!
