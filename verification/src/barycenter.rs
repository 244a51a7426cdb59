//! The uniform reference grid of the fixed-support barycenter.
//!
//! The barycenter aligns every input distribution against `n` reference
//! points spread over the unit cube [0, 1]^d: point `i` is placed on a grid
//! with `side` points per axis, its coordinate along axis `k` being digit `k`
//! of `i` written in base `side` (least significant digit first), scaled by
//! `1 / (side - 1)`. The side length comes from a floating-point root; the
//! digits are computed here.

use vstd::prelude::*;
use vstd::arithmetic::power::pow;

verus! {

/// Digit `k` of `i` in base `side`, least significant first.
pub open spec fn grid_digit(i: nat, side: nat, k: nat) -> nat
    recommends
        side > 0,
{
    ((i as int / pow(side as int, k)) % side as int) as nat
}

/// The value of the first `k` digits of `i` in base `side`:
/// the sum of `grid_digit(i, side, j) * side^j` for `j < k`.
pub open spec fn digits_value(i: nat, side: nat, k: nat) -> int
    decreases k,
{
    if k == 0 {
        0
    } else {
        digits_value(i, side, (k - 1) as nat) + grid_digit(i, side, (k - 1) as nat) * pow(
            side as int,
            (k - 1) as nat,
        )
    }
}

/// The first `k` digits of `i` and the quotient `i / side^k` together give
/// back `i`.
proof fn lemma_digits_value_split(i: nat, side: nat, k: nat)
    requires
        side > 0,
    ensures
        pow(side as int, k) > 0,
        digits_value(i, side, k) + pow(side as int, k) * (i as int / pow(side as int, k)) == i,
    decreases k,
{
    if k == 0 {
        vstd::arithmetic::power::lemma_pow0(side as int);
    } else {
        let k1 = (k - 1) as nat;
        lemma_digits_value_split(i, side, k1);
        let p = pow(side as int, k1);
        let q = i as int / p;
        vstd::arithmetic::power::lemma_pow_adds(side as int, k1, 1);
        vstd::arithmetic::power::lemma_pow1(side as int);
        vstd::arithmetic::mul::lemma_mul_strictly_positive(p, side as int);
        vstd::arithmetic::div_mod::lemma_div_denominator(i as int, p, side as int);
        vstd::arithmetic::div_mod::lemma_fundamental_div_mod(q, side as int);
        vstd::arithmetic::div_mod::lemma_div_pos_is_pos(i as int, p);
        vstd::arithmetic::div_mod::lemma_mod_bound(q, side as int);
        // p * q == p * (side * (q / side) + q % side)
        //       == (p * side) * (q / side) + (q % side) * p
        vstd::arithmetic::mul::lemma_mul_is_distributive_add(p, side * (q / side as int), q % side as int);
        vstd::arithmetic::mul::lemma_mul_is_associative(p, side as int, q / side as int);
        vstd::arithmetic::mul::lemma_mul_is_commutative(p, q % side as int);
        assert(pow(side as int, k) == p * side);
    }
}

/// The digits of an index below `side^d` determine it, so distinct
/// reference indices get distinct grid points.
pub proof fn lemma_grid_digits_injective(i: nat, j: nat, side: nat, d: nat)
    requires
        side > 0,
        i < pow(side as int, d),
        j < pow(side as int, d),
        forall|k: nat| k < d ==> #[trigger] grid_digit(i, side, k) == grid_digit(j, side, k),
    ensures
        i == j,
{
    lemma_grid_digits_value(i, side, d);
    lemma_grid_digits_value(j, side, d);
    lemma_digits_value_equal(i, j, side, d);
}

/// An index below `side^d` is the value of its `d` digits.
pub proof fn lemma_grid_digits_value(i: nat, side: nat, d: nat)
    requires
        side > 0,
        i < pow(side as int, d),
    ensures
        digits_value(i, side, d) == i,
{
    lemma_digits_value_split(i, side, d);
    vstd::arithmetic::div_mod::lemma_small_mod(i, pow(side as int, d) as nat);
    vstd::arithmetic::div_mod::lemma_basic_div(i as int, pow(side as int, d));
}

proof fn lemma_digits_value_equal(i: nat, j: nat, side: nat, k: nat)
    requires
        forall|m: nat| m < k ==> #[trigger] grid_digit(i, side, m) == grid_digit(j, side, m),
    ensures
        digits_value(i, side, k) == digits_value(j, side, k),
    decreases k,
{
    if k > 0 {
        let k1 = (k - 1) as nat;
        assert(grid_digit(i, side, k1) == grid_digit(j, side, k1));
        lemma_digits_value_equal(i, j, side, k1);
    }
}

/// The grid coordinates (in units of one grid step) of reference point `i`
/// in `d` dimensions, on a grid with `side` points per axis.
pub fn reference_grid_digits(i: usize, side: usize, d: usize) -> (digits: Vec<usize>)
    requires
        side > 0,
    ensures
        digits.len() == d,
        forall|k: int| 0 <= k < d ==> #[trigger] digits[k] == grid_digit(i as nat, side as nat, k as nat),
        forall|k: int| 0 <= k < d ==> #[trigger] digits[k] < side,
{
    let mut digits: Vec<usize> = Vec::new();
    let mut idx: usize = i;
    let mut k: usize = 0;
    proof {
        vstd::arithmetic::power::lemma_pow0(side as int);
    }
    while k < d
        invariant
            side > 0,
            k <= d,
            digits.len() == k,
            pow(side as int, k as nat) > 0,
            idx as int == i as int / pow(side as int, k as nat),
            forall|j: int|
                0 <= j < k ==> #[trigger] digits[j] == grid_digit(i as nat, side as nat, j as nat),
            forall|j: int| 0 <= j < k ==> #[trigger] digits[j] < side,
        decreases d - k,
    {
        let digit = idx % side;
        proof {
            let p = pow(side as int, k as nat);
            vstd::arithmetic::div_mod::lemma_div_denominator(i as int, p, side as int);
            vstd::arithmetic::power::lemma_pow_adds(side as int, k as nat, 1);
            vstd::arithmetic::power::lemma_pow1(side as int);
            vstd::arithmetic::mul::lemma_mul_strictly_positive(p, side as int);
        }
        digits.push(digit);
        idx = idx / side;
        k = k + 1;
    }
    digits
}

} // verus!
