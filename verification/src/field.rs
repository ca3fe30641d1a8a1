//! Arithmetic in the prime field GF(P) on plain 128-bit words.
//!
//! Every value of the field is kept reduced, that is below the modulus, so
//! that sums and products can be formed without ever overflowing a `u128`.

use vstd::prelude::*;

verus! {

use vstd::arithmetic::div_mod::{
    lemma_small_mod, lemma_mod_sub_multiples_vanish, lemma_mod_add_multiples_vanish,
    lemma_add_mod_noop, lemma_add_mod_noop_right, lemma_mul_mod_noop_left,
    lemma_fundamental_div_mod_converse_mod,
};

/// The prime modulus of the deployed 128-bit field.
pub const P: u128 = 198766463529478683931867765928436695041;

/// The Montgomery constant used by the wire format.
pub const R: u128 = 141515903391459779531506841503331516415;

/// The multiplicative inverse of `R` modulo `P`.
pub const R_INV: u128 = 133854242216446749056083838363708373830;

/// `R_INV` really is the inverse of `R`: multiplying by `R` and then by
/// `R_INV` changes nothing modulo `P`.
pub proof fn lemma_r_r_inv()
    ensures
        (R as int * R_INV as int) % (P as int) == 1int,
{
    let q = 95300302041296859965546146990971208889int;
    assert(141515903391459779531506841503331516415int * 133854242216446749056083838363708373830int
        == 18942504010039735291493262082794779471446725745286078634609459132687601419450int)
        by (nonlinear_arith);
    assert(95300302041296859965546146990971208889int * 198766463529478683931867765928436695041int
        + 1int
        == 18942504010039735291493262082794779471446725745286078634609459132687601419450int)
        by (nonlinear_arith);
    lemma_fundamental_div_mod_converse_mod(R as int * R_INV as int, P as int, q, 1int);
}

/// `(a + b) % m`, computed without overflow on reduced operands.
pub fn add_mod(a: u128, b: u128, m: u128) -> (r: u128)
    requires
        a < m,
        b < m,
    ensures
        r as int == (a as int + b as int) % (m as int),
        r < m,
{
    if a >= m - b {
        let r = a - (m - b);
        proof {
            lemma_mod_sub_multiples_vanish(a as int + b as int, m as int);
            lemma_small_mod((a + b - m) as nat, m as nat);
        }
        r
    } else {
        proof {
            lemma_small_mod((a + b) as nat, m as nat);
        }
        a + b
    }
}

/// `(a - b) % m` in the Euclidean sense, computed without overflow on
/// reduced operands.
pub fn sub_mod(a: u128, b: u128, m: u128) -> (r: u128)
    requires
        a < m,
        b < m,
    ensures
        r as int == (a as int - b as int) % (m as int),
        r < m,
{
    if a >= b {
        proof {
            lemma_small_mod((a - b) as nat, m as nat);
        }
        a - b
    } else {
        let r = a + (m - b);
        proof {
            lemma_mod_add_multiples_vanish(a as int - b as int, m as int);
            lemma_small_mod((a + m - b) as nat, m as nat);
        }
        r
    }
}

/// `(a * b) % m`, by binary decomposition of `b`, so that no intermediate
/// value ever leaves the 128-bit range.
pub fn mul_mod(a: u128, b: u128, m: u128) -> (r: u128)
    requires
        m > 0,
    ensures
        r as int == (a as int * b as int) % (m as int),
        r < m,
{
    let mut acc: u128 = 0;
    let mut x: u128 = a % m;
    let mut y: u128 = b;
    proof {
        lemma_mul_mod_noop_left(a as int, b as int, m as int);
    }
    while y > 0
        invariant
            m > 0,
            acc < m,
            x < m,
            (acc as int + x as int * y as int) % (m as int) == (a as int * b as int) % (m as int),
        decreases y,
    {
        let ghost acc0 = acc as int;
        let ghost x0 = x as int;
        let ghost y0 = y as int;
        let ghost mi = m as int;
        if y % 2 == 1 {
            acc = add_mod(acc, x, m);
        }
        x = add_mod(x, x, m);
        y = y / 2;
        proof {
            let k = y as int;
            let r0 = y0 % 2;
            // the operand added to `acc` and the doubled multiplicand
            assert(acc as int == (acc0 + r0 * x0) % mi) by {
                if r0 == 1 {
                    assert(r0 * x0 == x0) by (nonlinear_arith)
                        requires r0 == 1;
                } else {
                    assert(r0 * x0 == 0) by (nonlinear_arith)
                        requires r0 == 0;
                    lemma_small_mod(acc0 as nat, mi as nat);
                }
            };
            assert(x as int == (2 * x0) % mi);
            // fold both reductions back into one sum modulo m
            lemma_mul_mod_noop_left(2 * x0, k, mi);
            lemma_add_mod_noop_right((acc0 + r0 * x0) % mi, ((2 * x0) % mi) * k, mi);
            lemma_add_mod_noop(acc0 + r0 * x0, 2 * x0 * k, mi);
            assert(((2 * x0) % mi) * k % mi == (2 * x0 * k) % mi);
            assert((acc0 + r0 * x0) % mi % mi == (acc0 + r0 * x0) % mi) by {
                lemma_small_mod((((acc0 + r0 * x0) % mi) as nat), mi as nat);
            };
            assert(acc0 + r0 * x0 + 2 * x0 * k == acc0 + x0 * y0) by (nonlinear_arith)
                requires y0 == 2 * k + r0;
            assert((acc as int + x as int * k) % mi == (acc0 + x0 * y0) % mi);
        }
    }
    proof {
        assert(x as int * y as int == 0) by (nonlinear_arith)
            requires y as int == 0;
        lemma_small_mod(acc as nat, m as nat);
    }
    acc
}

} // verus!
