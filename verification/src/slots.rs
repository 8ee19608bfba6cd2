use vstd::prelude::*;
use vstd::arithmetic::div_mod::lemma_div_denominator;
use vstd::arithmetic::div_mod::lemma_fundamental_div_mod;
use vstd::arithmetic::div_mod::lemma_fundamental_div_mod_converse;

verus! {

/// Where slot `j` of offset `k` in group `g` lies, for blocks of length `q`.
pub proof fn lemma_slot(q: int, g: int, j: int, k: int)
    requires
        q >= 1,
        g >= 0,
        0 <= j < 4,
        0 <= k < q,
    ensures
        (g * (4 * q) + j * q + k) % q == k,
        ((g * (4 * q) + j * q + k) / q) % 4 == j,
        g * (4 * q) <= g * (4 * q) + j * q + k < (g + 1) * (4 * q),
{
    let i = g * (4 * q) + j * q + k;
    assert(i == (4 * g + j) * q + k) by (nonlinear_arith)
        requires
            i == g * (4 * q) + j * q + k,
    ;
    lemma_fundamental_div_mod_converse(i, q, 4 * g + j, k);
    assert(j * q + k < 4 * q) by (nonlinear_arith)
        requires
            0 <= j < 4,
            0 <= k < q,
    ;
    assert(j * q >= 0) by (nonlinear_arith)
        requires
            0 <= j,
            q >= 1,
    ;
    assert((g + 1) * (4 * q) == g * (4 * q) + 4 * q) by (nonlinear_arith);
}

/// An index of offset `k` in group `g` lies in one of the group's four slots.
pub proof fn lemma_slot_of(q: int, g: int, k: int, i: int)
    requires
        q >= 1,
        g >= 0,
        0 <= k < q,
        g * (4 * q) <= i < (g + 1) * (4 * q),
        i % q == k,
    ensures
        i == g * (4 * q) + k || i == g * (4 * q) + q + k || i == g * (4 * q) + 2 * q + k || i == g
            * (4 * q) + 3 * q + k,
{
    let t = i / q;
    lemma_fundamental_div_mod(i, q);
    assert(i == t * q + k) by (nonlinear_arith)
        requires
            i == q * t + k,
    ;
    let d = t - 4 * g;
    assert(0 <= d < 4) by (nonlinear_arith)
        requires
            i == t * q + k,
            g * (4 * q) <= i < (g + 1) * (4 * q),
            0 <= k < q,
            d == t - 4 * g,
    ;
    assert(i == g * (4 * q) + d * q + k) by (nonlinear_arith)
        requires
            i == t * q + k,
            d == t - 4 * g,
    ;
    assert(d * q == (if d == 0 {
        0
    } else if d == 1 {
        q
    } else if d == 2 {
        2 * q
    } else {
        3 * q
    })) by (nonlinear_arith)
        requires
            0 <= d < 4,
    ;
}

/// An index split into its group of four blocks, its block in the group and
/// its place in the block.
pub proof fn lemma_split(q: int, i: int)
    requires
        q >= 1,
        0 <= i,
    ensures
        0 <= i % q < q,
        0 <= (i / q) % 4 < 4,
        0 <= i / (4 * q),
        i / (4 * q) == (i / q) / 4,
        i == (4 * (i / (4 * q)) + (i / q) % 4) * q + i % q,
        i % (4 * q) == ((i / q) % 4) * q + i % q,
        (i % (4 * q)) % q == i % q,
        (i % (4 * q)) / q == (i / q) % 4,
        (i - ((i / q) % 4) * q) / q == 4 * (i / (4 * q)),
        (i - ((i / q) % 4) * q + q) / q == 4 * (i / (4 * q)) + 1,
        (i - ((i / q) % 4) * q + 2 * q) / q == 4 * (i / (4 * q)) + 2,
        (i - ((i / q) % 4) * q + 3 * q) / q == 4 * (i / (4 * q)) + 3,
        (i - ((i / q) % 4) * q) % q == i % q,
        (i - ((i / q) % 4) * q + q) % q == i % q,
        (i - ((i / q) % 4) * q + 2 * q) % q == i % q,
        (i - ((i / q) % 4) * q + 3 * q) % q == i % q,
        0 <= i - ((i / q) % 4) * q,
        i - ((i / q) % 4) * q + 3 * q < (i / (4 * q) + 1) * (4 * q),
{
    let k = i % q;
    let t = i / q;
    let j = t % 4;
    let g = t / 4;
    lemma_fundamental_div_mod(i, q);
    lemma_div_denominator(i, q, 4);
    assert(q * 4 == 4 * q);
    assert(t >= 0) by (nonlinear_arith)
        requires
            i == q * t + k,
            0 <= k < q,
            0 <= i,
    ;
    assert(i == (4 * g + j) * q + k) by (nonlinear_arith)
        requires
            i == q * t + k,
            t == 4 * g + j,
    ;
    let r = j * q + k;
    assert(0 <= r < 4 * q) by (nonlinear_arith)
        requires
            0 <= j < 4,
            0 <= k < q,
            r == j * q + k,
    ;
    assert(i == g * (4 * q) + r) by (nonlinear_arith)
        requires
            i == (4 * g + j) * q + k,
            r == j * q + k,
    ;
    lemma_fundamental_div_mod_converse(i, 4 * q, g, r);
    lemma_fundamental_div_mod_converse(r, q, j, k);
    let i0 = i - j * q;
    assert(i0 == (4 * g) * q + k) by (nonlinear_arith)
        requires
            i == (4 * g + j) * q + k,
            i0 == i - j * q,
    ;
    assert((4 * g) * q >= 0) by (nonlinear_arith)
        requires
            g >= 0,
            q >= 1,
    ;
    lemma_fundamental_div_mod_converse(i0, q, 4 * g, k);
    assert(i0 + q == (4 * g + 1) * q + k) by (nonlinear_arith)
        requires
            i0 == (4 * g) * q + k,
    ;
    lemma_fundamental_div_mod_converse(i0 + q, q, 4 * g + 1, k);
    assert(i0 + 2 * q == (4 * g + 2) * q + k) by (nonlinear_arith)
        requires
            i0 == (4 * g) * q + k,
    ;
    lemma_fundamental_div_mod_converse(i0 + 2 * q, q, 4 * g + 2, k);
    assert(i0 + 3 * q == (4 * g + 3) * q + k) by (nonlinear_arith)
        requires
            i0 == (4 * g) * q + k,
    ;
    lemma_fundamental_div_mod_converse(i0 + 3 * q, q, 4 * g + 3, k);
    assert(i0 + 3 * q < (g + 1) * (4 * q)) by (nonlinear_arith)
        requires
            i0 + 3 * q == (4 * g + 3) * q + k,
            k < q,
    ;
}

/// The four slots that the butterfly of index `i` reads lie inside a
/// sequence of `n` entries, a multiple of the group's length, and share the
/// offset of `i`.
pub proof fn lemma_group(n: int, q: int, i: int)
    requires
        q >= 1,
        n % (4 * q) == 0,
        0 <= i < n,
    ensures
        0 <= (i / q) % 4 < 4,
        0 <= i - ((i / q) % 4) * q,
        i - ((i / q) % 4) * q + 3 * q < n,
        (i - ((i / q) % 4) * q) % q == i % q,
        (i - ((i / q) % 4) * q + q) % q == i % q,
        (i - ((i / q) % 4) * q + 2 * q) % q == i % q,
        (i - ((i / q) % 4) * q + 3 * q) % q == i % q,
{
    lemma_split(q, i);
    let g = i / (4 * q);
    let groups = n / (4 * q);
    lemma_fundamental_div_mod(n, 4 * q);
    lemma_fundamental_div_mod(i, 4 * q);
    assert(g < groups) by (nonlinear_arith)
        requires
            i == (4 * q) * g + i % (4 * q),
            0 <= i % (4 * q),
            i < n,
            n == (4 * q) * groups,
            q >= 1,
    ;
    assert((g + 1) * (4 * q) <= n) by (nonlinear_arith)
        requires
            g + 1 <= groups,
            n == (4 * q) * groups,
            q >= 1,
    ;
}

/// Where an index below `2 * h` lies in its half.
pub proof fn lemma_halves(h: int, i: int)
    requires
        h >= 1,
        0 <= i < 2 * h,
    ensures
        i % h == (if i < h {
            i
        } else {
            i - h
        }),
        i / h == (if i < h {
            0int
        } else {
            1int
        }),
{
    if i < h {
        lemma_fundamental_div_mod_converse(i, h, 0, i);
    } else {
        lemma_fundamental_div_mod_converse(i, h, 1, i - h);
    }
}

} // verus!
