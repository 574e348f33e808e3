//! Arithmetic in the Goldilocks prime field, the base field of the VM.
//!
//! A field element is represented by its canonical value, an integer in `[0, P)`.

use vstd::prelude::*;
use vstd::arithmetic::div_mod::lemma_mul_mod_noop_general;

use crate::hash::felt_inverse;

verus! {

/// The field modulus, `2^64 - 2^32 + 1`.
pub const P: u64 = 18446744069414584321u64;

/// The additive identity.
pub const ZERO: u64 = 0u64;

/// The multiplicative identity.
pub const ONE: u64 = 1u64;

/// A canonical field element: an integer in `[0, P)`.
pub open spec fn is_felt(x: int) -> bool {
    0 <= x < P
}

/// The field element that the integer `x` reduces to.
pub open spec fn reduce(x: int) -> int {
    x % (P as int)
}

pub open spec fn add_spec(a: int, b: int) -> int {
    (a + b) % (P as int)
}

pub open spec fn sub_spec(a: int, b: int) -> int {
    (a - b) % (P as int)
}

pub open spec fn mul_spec(a: int, b: int) -> int {
    (a * b) % (P as int)
}

pub open spec fn neg_spec(a: int) -> int {
    (-a) % (P as int)
}

/// The multiplicative inverse of `a`: the field element `r` with `a * r = 1 (mod P)`, which is
/// unique (`lemma_inverse_unique`) and exists for every nonzero field element.
pub open spec fn inverse_of(a: u64) -> u64 {
    choose|r: u64| #[trigger] is_inverse(a, r)
}

/// `r` is a field element whose product with `a` is one.
pub open spec fn is_inverse(a: u64, r: u64) -> bool {
    r < P && (a as int * r as int) % (P as int) == 1
}

/// A field element whose product with `a` is one is the inverse of `a`.
pub proof fn lemma_inverse_unique(a: u64, r: u64)
    requires
        r < P,
        (a as int * r as int) % (P as int) == 1,
    ensures
        inverse_of(a) == r,
{
    assert(is_inverse(a, r));
    let s = inverse_of(a);
    assert(is_inverse(a, s));
    let m = P as int;
    let (ai, ri, si) = (a as int, r as int, s as int);
    // r = r * (a * s) = (r * a) * s = s, modulo P
    lemma_mul_mod_noop_general(ri, ai * si, m);
    lemma_mul_mod_noop_general(ri * ai, si, m);
    assert(ri * (ai * si) == (ri * ai) * si) by (nonlinear_arith);
    assert(ri * ai == ai * ri) by (nonlinear_arith);
    assert(ri % m == ri) by { vstd::arithmetic::div_mod::lemma_small_mod(r as nat, P as nat); }
    assert(si % m == si) by { vstd::arithmetic::div_mod::lemma_small_mod(s as nat, P as nat); }
}

/// The inverse of a nonzero field element.
pub fn felt_inv(a: u64) -> (r: u64)
    requires
        is_felt(a as int),
        a != 0,
    ensures
        r == inverse_of(a),
        is_felt(r as int),
        (a as int * r as int) % (P as int) == 1,
{
    let r = felt_inverse(a);
    proof {
        lemma_inverse_unique(a, r);
    }
    r
}

/// Reduces a 64-bit integer to the field element it represents.
pub fn from_u64(x: u64) -> (r: u64)
    ensures
        r == reduce(x as int),
        is_felt(r as int),
{
    if x >= P {
        x - P
    } else {
        x
    }
}

/// Field addition.
pub fn felt_add(a: u64, b: u64) -> (r: u64)
    requires
        is_felt(a as int),
        is_felt(b as int),
    ensures
        r == add_spec(a as int, b as int),
        is_felt(r as int),
{
    let s: u128 = a as u128 + b as u128;
    if s >= P as u128 {
        (s - P as u128) as u64
    } else {
        s as u64
    }
}

/// Field subtraction.
pub fn felt_sub(a: u64, b: u64) -> (r: u64)
    requires
        is_felt(a as int),
        is_felt(b as int),
    ensures
        r == sub_spec(a as int, b as int),
        is_felt(r as int),
{
    if a >= b {
        a - b
    } else {
        let r: u64 = P - (b - a);
        assert((a - b) % (P as int) == r) by {
            vstd::arithmetic::div_mod::lemma_mod_add_multiples_vanish((a - b) as int, P as int);
            vstd::arithmetic::div_mod::lemma_small_mod(r as nat, P as nat);
        }
        r
    }
}

/// Field negation.
pub fn felt_neg(a: u64) -> (r: u64)
    requires
        is_felt(a as int),
    ensures
        r == neg_spec(a as int),
        is_felt(r as int),
{
    if a == 0 {
        0
    } else {
        let r: u64 = P - a;
        assert((-a) % (P as int) == r) by {
            vstd::arithmetic::div_mod::lemma_mod_add_multiples_vanish(-a, P as int);
            vstd::arithmetic::div_mod::lemma_small_mod(r as nat, P as nat);
        }
        r
    }
}

/// Field multiplication.
pub fn felt_mul(a: u64, b: u64) -> (r: u64)
    requires
        is_felt(a as int),
        is_felt(b as int),
    ensures
        r == mul_spec(a as int, b as int),
        is_felt(r as int),
{
    assert((a as int) * (b as int) <= u128::MAX) by (nonlinear_arith)
        requires
            a < P,
            b < P,
    ;
    let prod: u128 = a as u128 * b as u128;
    (prod % (P as u128)) as u64
}

} // verus!
