//! The degree-`d` extension of the base field, represented as coefficient
//! vectors and multiplied modulo `x^d - W`.
//!
//! Constraint evaluation only ever adds, subtracts and multiplies
//! extension values — it
//! never inverts one — so the commutative ring `F[x]/(x^d - W)` is all the
//! constraint algebra needs, for every degree `d >= 1`.

use vstd::prelude::*;

use crate::field::{fadd, field_add, field_mul, field_sub, fmul, fsub, in_field, P};

verus! {

/// The constant term of the modulus polynomial: multiplication wraps
/// `x^d` around to `W`.
pub const W: u64 = 2;

/// A coefficient vector is well formed for degree `d` when it has exactly
/// `d` canonical field elements.
pub open spec fn ext_wf(a: Seq<u64>, d: nat) -> bool {
    &&& a.len() == d
    &&& forall|j: int| 0 <= j < a.len() ==> in_field(#[trigger] a[j])
}

/// The view of each element of a vector of coefficient vectors.
pub open spec fn views(s: Seq<Vec<u64>>) -> Seq<Seq<u64>> {
    Seq::new(s.len(), |i: int| s[i]@)
}

/// Coefficient-wise subtraction.
pub open spec fn ext_sub_spec(a: Seq<u64>, b: Seq<u64>) -> Seq<u64> {
    Seq::new(a.len(), |j: int| fsub(a[j], b[j]))
}

/// The canonical embedding of a base-field element: the constant
/// coefficient carries the value, all higher coefficients are zero.
pub open spec fn ext_embed(x: u64, d: nat) -> Seq<u64> {
    Seq::new(d, |j: int| if j == 0 { x } else { 0u64 })
}

/// One term of the convolution giving coefficient `k` of a product:
/// `a[i] * b[k - i]`, wrapped through `W` when the exponents overflow `d`.
pub open spec fn mul_term(a: Seq<u64>, b: Seq<u64>, d: int, k: int, i: int) -> u64 {
    if i <= k {
        fmul(a[i], b[k - i])
    } else {
        fmul(W, fmul(a[i], b[k + d - i]))
    }
}

/// The partial convolution sum over the first `n` terms.
pub open spec fn mul_sum(a: Seq<u64>, b: Seq<u64>, d: int, k: int, n: nat) -> u64
    decreases n,
{
    if n == 0 {
        0u64
    } else {
        fadd(mul_sum(a, b, d, k, (n - 1) as nat), mul_term(a, b, d, k, n - 1))
    }
}

/// Multiplication in `F[x]/(x^d - W)`.
pub open spec fn ext_mul_spec(a: Seq<u64>, b: Seq<u64>, d: nat) -> Seq<u64> {
    Seq::new(d, |k: int| mul_sum(a, b, d as int, k, d))
}

pub fn ext_sub(a: &Vec<u64>, b: &Vec<u64>) -> (r: Vec<u64>)
    requires
        a@.len() == b@.len(),
        ext_wf(a@, a@.len()),
        ext_wf(b@, b@.len()),
    ensures
        r@ == ext_sub_spec(a@, b@),
        ext_wf(r@, a@.len()),
{
    let d = a.len();
    let mut r: Vec<u64> = Vec::new();
    let mut j: usize = 0;
    while j < d
        invariant
            j <= d,
            d == a@.len(),
            d == b@.len(),
            ext_wf(a@, d as nat),
            ext_wf(b@, d as nat),
            r@.len() == j,
            forall|jj: int| 0 <= jj < j ==> r@[jj] == fsub(a@[jj], b@[jj]),
            forall|jj: int| 0 <= jj < j ==> in_field(#[trigger] r@[jj]),
        decreases d - j,
    {
        let c = field_sub(a[j], b[j]);
        r.push(c);
        j += 1;
    }
    proof {
        assert(r@ =~= ext_sub_spec(a@, b@));
    }
    r
}

pub fn ext_mul(a: &Vec<u64>, b: &Vec<u64>) -> (r: Vec<u64>)
    requires
        a@.len() == b@.len(),
        a@.len() >= 1,
        ext_wf(a@, a@.len()),
        ext_wf(b@, b@.len()),
    ensures
        r@ == ext_mul_spec(a@, b@, a@.len()),
        ext_wf(r@, a@.len()),
{
    let d = a.len();
    let mut r: Vec<u64> = Vec::new();
    let mut k: usize = 0;
    while k < d
        invariant
            k <= d,
            d == a@.len(),
            d == b@.len(),
            d >= 1,
            ext_wf(a@, d as nat),
            ext_wf(b@, d as nat),
            r@.len() == k,
            forall|kk: int| 0 <= kk < k ==> r@[kk] == mul_sum(a@, b@, d as int, kk, d as nat),
            forall|kk: int| 0 <= kk < k ==> in_field(#[trigger] r@[kk]),
        decreases d - k,
    {
        let mut acc: u64 = 0;
        let mut i: usize = 0;
        while i < d
            invariant
                i <= d,
                k < d,
                d == a@.len(),
                d == b@.len(),
                ext_wf(a@, d as nat),
                ext_wf(b@, d as nat),
                acc == mul_sum(a@, b@, d as int, k as int, i as nat),
                in_field(acc),
            decreases d - i,
        {
            let term: u64 = if i <= k {
                field_mul(a[i], b[k - i])
            } else {
                field_mul(W, field_mul(a[i], b[k + (d - i)]))
            };
            proof {
                assert(term == mul_term(a@, b@, d as int, k as int, i as int));
            }
            acc = field_add(acc, term);
            i += 1;
        }
        r.push(acc);
        k += 1;
    }
    proof {
        assert(r@ =~= ext_mul_spec(a@, b@, a@.len()));
    }
    r
}

pub fn ext_embed_vec(x: u64, d: usize) -> (r: Vec<u64>)
    requires
        in_field(x),
        d >= 1,
    ensures
        r@ == ext_embed(x, d as nat),
        ext_wf(r@, d as nat),
{
    let mut r: Vec<u64> = Vec::new();
    r.push(x);
    let mut j: usize = 1;
    while j < d
        invariant
            1 <= j <= d,
            in_field(x),
            r@.len() == j,
            r@[0] == x,
            forall|jj: int| 1 <= jj < j ==> r@[jj] == 0u64,
        decreases d - j,
    {
        r.push(0);
        j += 1;
    }
    proof {
        assert(r@ =~= ext_embed(x, d as nat));
    }
    r
}

/// Subtraction commutes with the canonical embedding.
pub proof fn lemma_ext_sub_embed(x: u64, y: u64, d: nat)
    requires
        in_field(x),
        in_field(y),
    ensures
        ext_sub_spec(ext_embed(x, d), ext_embed(y, d)) == ext_embed(fsub(x, y), d),
{
    assert(ext_sub_spec(ext_embed(x, d), ext_embed(y, d)) =~= ext_embed(fsub(x, y), d));
}

proof fn lemma_mul_sum_embed(x: u64, y: u64, d: nat, k: int, n: nat)
    requires
        in_field(x),
        in_field(y),
        0 <= k < d,
        n <= d,
    ensures
        mul_sum(ext_embed(x, d), ext_embed(y, d), d as int, k, n) == if k == 0 && n >= 1 {
            fmul(x, y)
        } else {
            0u64
        },
    decreases n,
{
    if n > 0 {
        let m = (n - 1) as nat;
        lemma_mul_sum_embed(x, y, d, k, m);
        let a = ext_embed(x, d);
        let b = ext_embed(y, d);
        assert(mul_sum(a, b, d as int, k, n) == fadd(mul_sum(a, b, d as int, k, m), mul_term(a, b, d as int, k, m as int)));
        if m as int <= k {
            assert(a[m as int] == if m == 0 { x } else { 0u64 });
            assert(b[k - m] == if k == m { y } else { 0u64 });
            if m == 0 && k > 0 {
                crate::field::lemma_zero_ops(x);
            }
            if m > 0 {
                crate::field::lemma_zero_ops(b[k - m]);
            }
        } else {
            assert(a[m as int] == 0u64);
            crate::field::lemma_zero_ops(b[k + d - m]);
            crate::field::lemma_zero_ops(W);
        }
        crate::field::lemma_zero_ops(mul_sum(a, b, d as int, k, m));
        crate::field::lemma_zero_ops(fmul(x, y));
        assert(mul_term(a, b, d as int, k, m as int) == if m == 0 && k == 0 { fmul(x, y) } else { 0u64 });
    }
}

/// Multiplication commutes with the canonical embedding: the convolution
/// of two constant polynomials has no cross terms.
pub proof fn lemma_ext_mul_embed(x: u64, y: u64, d: nat)
    requires
        in_field(x),
        in_field(y),
        d >= 1,
    ensures
        ext_mul_spec(ext_embed(x, d), ext_embed(y, d), d) == ext_embed(fmul(x, y), d),
{
    assert forall|k: int| 0 <= k < d implies mul_sum(
        ext_embed(x, d),
        ext_embed(y, d),
        d as int,
        k,
        d,
    ) == ext_embed(fmul(x, y), d)[k] by {
        lemma_mul_sum_embed(x, y, d, k, d);
    }
    assert(ext_mul_spec(ext_embed(x, d), ext_embed(y, d), d) =~= ext_embed(fmul(x, y), d));
}

} // verus!
