//! The base field: integers modulo a small prime, with verified arithmetic.
//!
//! The constraint algebra is independent of which field is chosen;
//! a small modulus keeps the inverse easy to verify while the layout and
//! satisfaction arguments carry over to any prime field whose size bounds
//! the list length.

use vstd::prelude::*;

verus! {

/// The prime modulus of the base field.
pub const P: u64 = 13;

/// A value is a canonical field element when it is a reduced residue.
pub open spec fn in_field(x: u64) -> bool {
    x < P
}

/// Field addition on canonical residues.
pub open spec fn fadd(a: u64, b: u64) -> u64 {
    (((a + b) % (P as int))) as u64
}

/// Field subtraction on canonical residues.
pub open spec fn fsub(a: u64, b: u64) -> u64 {
    (((a - b) % (P as int))) as u64
}

/// Field multiplication on canonical residues.
pub open spec fn fmul(a: u64, b: u64) -> u64 {
    (((a * b) % (P as int))) as u64
}

/// The canonical embedding of an arbitrary machine integer into the field.
pub open spec fn freduce(x: u64) -> u64 {
    (((x as int) % (P as int))) as u64
}

pub fn field_add(a: u64, b: u64) -> (r: u64)
    requires
        in_field(a),
        in_field(b),
    ensures
        r == fadd(a, b),
        in_field(r),
{
    let s = a + b;
    if s >= P {
        s - P
    } else {
        s
    }
}

pub fn field_sub(a: u64, b: u64) -> (r: u64)
    requires
        in_field(a),
        in_field(b),
    ensures
        r == fsub(a, b),
        in_field(r),
{
    if a >= b {
        a - b
    } else {
        a + P - b
    }
}

pub fn field_mul(a: u64, b: u64) -> (r: u64)
    requires
        in_field(a),
        in_field(b),
    ensures
        r == fmul(a, b),
        in_field(r),
{
    proof {
        assert(a * b < P * P) by (nonlinear_arith)
            requires
                a < P,
                b < P,
        ;
    }
    (a * b) % P
}

pub fn field_reduce(x: u64) -> (r: u64)
    requires
        x <= u64::MAX,
    ensures
        r == freduce(x),
        in_field(r),
{
    x % P
}

/// The multiplicative inverse of a nonzero field element, given by the
/// inverse table of the prime modulus.
pub fn field_inv(a: u64) -> (r: u64)
    requires
        0 < a < P,
    ensures
        in_field(r),
        fmul(a, r) == 1,
        fmul(r, a) == 1,
{
    if a == 1 {
        1
    } else if a == 2 {
        7
    } else if a == 3 {
        9
    } else if a == 4 {
        10
    } else if a == 5 {
        8
    } else if a == 6 {
        11
    } else if a == 7 {
        2
    } else if a == 8 {
        5
    } else if a == 9 {
        3
    } else if a == 10 {
        4
    } else if a == 11 {
        6
    } else {
        12
    }
}

/// Multiplying by zero gives zero, and adding zero changes nothing.
pub proof fn lemma_zero_ops(x: u64)
    ensures
        fmul(x, 0) == 0u64,
        fmul(0, x) == 0u64,
        in_field(x) ==> fadd(x, 0) == x,
        in_field(x) ==> fadd(0, x) == x,
{
}

} // verus!
