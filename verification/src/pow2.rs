use vstd::prelude::*;

verus! {

/// `n` is one of 1, 2, 4, 8, ...
pub open spec fn is_pow2(n: nat) -> bool
    decreases n,
{
    n == 1 || (n >= 2 && n % 2 == 0 && is_pow2(n / 2))
}

/// A power of two is positive.
pub proof fn lemma_pow2_positive(n: nat)
    requires
        is_pow2(n),
    ensures
        n >= 1,
{
}

/// Twice a power of two is a power of two.
pub proof fn lemma_pow2_double(n: nat)
    requires
        is_pow2(n),
    ensures
        is_pow2(2 * n),
{
    assert((2 * n) / 2 == n);
}

/// Half of a power of two above one is a power of two.
pub proof fn lemma_pow2_half(n: nat)
    requires
        is_pow2(n),
        n >= 2,
    ensures
        n % 2 == 0,
        is_pow2(n / 2),
{
}

/// Of two powers of two, the smaller divides the larger.
pub proof fn lemma_pow2_divides(a: nat, b: nat)
    requires
        is_pow2(a),
        is_pow2(b),
        a <= b,
    ensures
        b % a == 0,
        is_pow2(b / a),
    decreases b,
{
    if a == b {
        assert(b % a == 0 && b / a == 1) by (nonlinear_arith)
            requires
                a == b,
                a >= 1,
        ;
    } else {
        lemma_pow2_positive(a);
        let h = b / 2;
        assert(a <= h) by {
            if a >= 2 {
                lemma_pow2_half(a);
                lemma_pow2_below(a / 2, h);
            }
        }
        lemma_pow2_divides(a, h);
        let q = h / a;
        assert(h == a * q) by (nonlinear_arith)
            requires
                h % a == 0,
                q == h / a,
                a >= 1,
        ;
        assert(b == a * (2 * q)) by (nonlinear_arith)
            requires
                b == 2 * h,
                h == a * q,
        ;
        assert(b % a == 0 && b / a == 2 * q) by (nonlinear_arith)
            requires
                b == a * (2 * q),
                a >= 1,
        ;
        lemma_pow2_double(q);
    }
}

/// Of two different powers of two, the smaller is at most half the larger.
pub proof fn lemma_pow2_below(a: nat, b: nat)
    requires
        is_pow2(a),
        is_pow2(b),
        a < b,
    ensures
        2 * a <= b,
    decreases a,
{
    if a >= 2 {
        lemma_pow2_below(a / 2, b / 2);
    }
}

/// `n` is one of 1, 4, 16, 64, ...
pub open spec fn is_pow4(n: nat) -> bool
    decreases n,
{
    n == 1 || (n >= 4 && n % 4 == 0 && is_pow4(n / 4))
}

/// A power of four is a power of two.
pub proof fn lemma_pow4_is_pow2(n: nat)
    requires
        is_pow4(n),
    ensures
        is_pow2(n),
    decreases n,
{
    if n != 1 {
        lemma_pow4_is_pow2(n / 4);
        lemma_pow2_double(n / 4);
        lemma_pow2_double(2 * (n / 4));
    }
}

/// Four times a power of four is a power of four.
pub proof fn lemma_pow4_quadruple(n: nat)
    requires
        is_pow4(n),
    ensures
        is_pow4(4 * n),
{
    lemma_pow4_is_pow2(n);
    lemma_pow2_positive(n);
    assert((4 * n) / 4 == n);
}

/// Twice a power of four is no power of four.
pub proof fn lemma_twice_pow4(n: nat)
    requires
        is_pow4(n),
    ensures
        !is_pow4(2 * n),
    decreases n,
{
    if n != 1 {
        lemma_twice_pow4(n / 4);
        assert((2 * n) / 4 == 2 * (n / 4));
    }
}

/// Whether `n` is a power of two.
pub fn is_power_of_two(n: usize) -> (r: bool)
    ensures
        r == is_pow2(n as nat),
{
    if n == 0 {
        return false;
    }
    let mut m: usize = n;
    while m % 2 == 0
        invariant
            m >= 1,
            is_pow2(n as nat) == is_pow2(m as nat),
        decreases m,
    {
        m = m / 2;
    }
    m == 1
}

} // verus!
