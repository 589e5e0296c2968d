use vstd::prelude::*;

verus! {

/// `r` is the square root of `n` rounded down.
pub open spec fn is_square_root(r: nat, n: nat) -> bool {
    r * r <= n < (r + 1) * (r + 1)
}

/// The square root of `n` rounded down.
pub open spec fn int_sqrt(n: nat) -> nat {
    choose|r: nat| is_square_root(r, n)
}

proof fn lemma_square_grows(a: nat, b: nat)
    by (nonlinear_arith)
    requires
        a <= b,
    ensures
        a * a <= b * b,
{
}

/// Every natural number has a rounded-down square root.
pub proof fn lemma_square_root_exists(n: nat)
    ensures
        exists|r: nat| is_square_root(r, n),
    decreases n,
{
    if n == 0 {
        assert(is_square_root(0, 0)) by (nonlinear_arith);
    } else {
        let m: nat = (n - 1) as nat;
        lemma_square_root_exists(m);
        let r: nat = choose|r: nat| is_square_root(r, m);
        if n < (r + 1) * (r + 1) {
            assert(is_square_root(r, n));
        } else {
            assert(is_square_root(r + 1, n)) by (nonlinear_arith)
                requires
                    n == (r + 1) * (r + 1),
            ;
        }
    }
}

/// No number has two rounded-down square roots.
pub proof fn lemma_square_root_unique(n: nat, r: nat, s: nat)
    requires
        is_square_root(r, n),
        is_square_root(s, n),
    ensures
        r == s,
{
    if r < s {
        lemma_square_grows(r + 1, s);
    } else if s < r {
        lemma_square_grows(s + 1, r);
    }
}

/// `int_sqrt(n)` squared is at most `n`, and the next square is above `n`.
pub proof fn lemma_int_sqrt_bounds(n: nat)
    ensures
        is_square_root(int_sqrt(n), n),
{
    lemma_square_root_exists(n);
}

/// Whatever meets the two bounds is `int_sqrt(n)`.
pub proof fn lemma_int_sqrt_is(n: nat, r: nat)
    requires
        is_square_root(r, n),
    ensures
        int_sqrt(n) == r,
{
    lemma_int_sqrt_bounds(n);
    lemma_square_root_unique(n, r, int_sqrt(n));
}

/// The square root grows with its argument.
pub proof fn lemma_int_sqrt_grows(m: nat, n: nat)
    requires
        m <= n,
    ensures
        int_sqrt(m) <= int_sqrt(n),
{
    lemma_int_sqrt_bounds(m);
    lemma_int_sqrt_bounds(n);
    if int_sqrt(n) < int_sqrt(m) {
        lemma_square_grows(int_sqrt(n) + 1, int_sqrt(m));
    }
}

/// The square root of a 128-bit number, rounded down, by bisection.
pub fn integer_sqrt(n: u128) -> (r: u64)
    ensures
        r == int_sqrt(n as nat),
{
    let mut low: u128 = 0;
    let mut high: u128 = 0x1_0000_0000_0000_0000;
    assert(0x1_0000_0000_0000_0000 * 0x1_0000_0000_0000_0000 > u128::MAX) by (nonlinear_arith);
    while high - low > 1
        invariant
            low < high <= 0x1_0000_0000_0000_0000,
            low * low <= n < high * high,
        decreases high - low,
    {
        let middle: u128 = low + (high - low) / 2;
        assert(middle * middle <= u128::MAX) by (nonlinear_arith)
            requires
                middle <= 0xffff_ffff_ffff_ffff,
        ;
        if middle * middle <= n {
            low = middle;
        } else {
            high = middle;
        }
    }
    proof {
        lemma_int_sqrt_is(n as nat, low as nat);
    }
    low as u64
}

} // verus!
