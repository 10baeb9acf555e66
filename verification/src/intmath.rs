use vstd::prelude::*;
use vstd::arithmetic::div_mod::{lemma_fundamental_div_mod, lemma_fundamental_div_mod_converse};

verus! {

/// Largest magnitude the division helpers accept; comfortably above every
/// coordinate the rest of the crate produces.
pub const DIV_ARG_LIMIT: i64 = 1_000_000_000_000_000_000;

/// Floor division by a positive divisor: returns the mathematical quotient
/// `a / b`, which rounds toward negative infinity, where Rust's `/` on
/// signed integers would round toward zero.
pub fn div_floor(a: i64, b: i64) -> (q: i64)
    requires
        0 < b,
        -DIV_ARG_LIMIT <= a <= DIV_ARG_LIMIT,
    ensures
        q as int == a as int / b as int,
{
    let bb: u128 = b as u128;
    if a >= 0 {
        let qq: u128 = a as u128 / bb;
        proof {
            lemma_fundamental_div_mod(a as int, b as int);
        }
        qq as i64
    } else {
        let na: u128 = (-(a as i128)) as u128;
        let d: u128 = (na + bb - 1) / bb;
        proof {
            let k = na as int / b as int;
            let r = na as int % b as int;
            lemma_fundamental_div_mod(na as int, b as int);
            assert(k * (b as int) == (b as int) * k) by (nonlinear_arith);
            assert((-k) * (b as int) == -(k * (b as int))) by (nonlinear_arith);
            assert((k + 1) * (b as int) == k * (b as int) + b) by (nonlinear_arith);
            assert((-k - 1) * (b as int) == -(k * (b as int)) - b) by (nonlinear_arith);
            if r == 0 {
                lemma_fundamental_div_mod_converse(
                    na as int + b - 1,
                    b as int,
                    k,
                    b as int - 1,
                );
                lemma_fundamental_div_mod_converse(a as int, b as int, -k, 0);
            } else {
                lemma_fundamental_div_mod_converse(
                    na as int + b - 1,
                    b as int,
                    k + 1,
                    r - 1,
                );
                lemma_fundamental_div_mod_converse(a as int, b as int, -k - 1, b - r);
            }
        }
        -(d as i64)
    }
}

/// Euclidean remainder by a positive divisor: the result always lies in
/// `[0, b)`, matching the mathematical `a % b`.
pub fn mod_euclid(a: i64, b: i64) -> (r: i64)
    requires
        0 < b,
        -DIV_ARG_LIMIT <= a <= DIV_ARG_LIMIT,
    ensures
        r as int == a as int % b as int,
        0 <= r < b,
{
    let q = div_floor(a, b);
    proof {
        lemma_fundamental_div_mod(a as int, b as int);
        vstd::arithmetic::div_mod::lemma_mod_bound(a as int, b as int);
        assert(q as int * (b as int) == b as int * (q as int)) by (nonlinear_arith);
        assert(q as int * (b as int) == a as int - a as int % b as int);
    }
    let rr: i128 = a as i128 - (q as i128) * (b as i128);
    rr as i64
}

} // verus!
