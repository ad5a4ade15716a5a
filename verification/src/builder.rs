//! A minimal circuit builder for the recursive evaluation context.
//!
//! In that context constraint evaluation does not compute field values: it emits
//! symbolic operations — inputs, injected constants, subtractions and
//! multiplications over extension values — into an outer circuit, and
//! hands back targets naming the results. `op_value` gives the meaning of
//! a target: the value it takes once the input wires are bound to an
//! environment.

use vstd::prelude::*;

use crate::extension::{ext_mul, ext_mul_spec, ext_sub, ext_sub_spec, ext_wf, views};

verus! {

/// A handle to one extension value inside the builder.
#[derive(Clone, Copy, PartialEq, Eq, Structural, Debug)]
pub struct ExtensionTarget {
    pub index: usize,
}

/// One symbolic operation: an input wire, an injected constant, or ring
/// arithmetic on two earlier results.
pub enum ExtOp {
    Input(usize),
    Constant(Vec<u64>),
    Sub(usize, usize),
    Mul(usize, usize),
}

/// An operation may only refer to results that precede it.
pub open spec fn op_wf(op: ExtOp, i: int, d: nat) -> bool {
    match op {
        ExtOp::Input(_) => true,
        ExtOp::Constant(c) => ext_wf(c@, d),
        ExtOp::Sub(a, b) => a < i && b < i,
        ExtOp::Mul(a, b) => a < i && b < i,
    }
}

pub open spec fn ops_wf(ops: Seq<ExtOp>, d: nat) -> bool {
    forall|i: int| 0 <= i < ops.len() ==> op_wf(#[trigger] ops[i], i, d)
}

/// The value of target `t` once the input wires are bound to `env`.
pub open spec fn op_value(ops: Seq<ExtOp>, env: Seq<Seq<u64>>, d: nat, t: int) -> Seq<u64>
    decreases t when 0 <= t
{
    if t < 0 || t >= ops.len() {
        Seq::empty()
    } else {
        match ops[t] {
            ExtOp::Input(w) => if w < env.len() {
                env[w as int]
            } else {
                Seq::empty()
            },
            ExtOp::Constant(c) => c@,
            ExtOp::Sub(a, b) => if a < t && b < t {
                ext_sub_spec(op_value(ops, env, d, a as int), op_value(ops, env, d, b as int))
            } else {
                Seq::empty()
            },
            ExtOp::Mul(a, b) => if a < t && b < t {
                ext_mul_spec(op_value(ops, env, d, a as int), op_value(ops, env, d, b as int), d)
            } else {
                Seq::empty()
            },
        }
    }
}

/// A target keeps its value when further operations are appended.
pub proof fn lemma_op_value_prefix(
    ops1: Seq<ExtOp>,
    ops2: Seq<ExtOp>,
    env: Seq<Seq<u64>>,
    d: nat,
    t: int,
)
    requires
        ops1.len() <= ops2.len(),
        forall|i: int| 0 <= i < ops1.len() ==> ops2[i] == ops1[i],
        0 <= t < ops1.len(),
    ensures
        op_value(ops2, env, d, t) == op_value(ops1, env, d, t),
    decreases t,
{
    assert(ops2[t] == ops1[t]);
    match ops1[t] {
        ExtOp::Sub(a, b) => {
            if a < t && b < t {
                lemma_op_value_prefix(ops1, ops2, env, d, a as int);
                lemma_op_value_prefix(ops1, ops2, env, d, b as int);
            }
        },
        ExtOp::Mul(a, b) => {
            if a < t && b < t {
                lemma_op_value_prefix(ops1, ops2, env, d, a as int);
                lemma_op_value_prefix(ops1, ops2, env, d, b as int);
            }
        },
        _ => {},
    }
}

/// Copies a coefficient vector.
fn copy_coeffs(a: &Vec<u64>) -> (r: Vec<u64>)
    ensures
        r@ == a@,
{
    let mut r: Vec<u64> = Vec::new();
    let mut i: usize = 0;
    while i < a.len()
        invariant
            i <= a@.len(),
            r@ == a@.subrange(0, i as int),
        decreases a@.len() - i,
    {
        r.push(a[i]);
        i += 1;
    }
    proof {
        assert(r@ =~= a@);
    }
    r
}

/// Records symbolic operations over degree-`ext_degree` extension values.
pub struct CircuitBuilder {
    pub ext_degree: usize,
    pub ops: Vec<ExtOp>,
}

impl CircuitBuilder {
    pub open spec fn wf(self) -> bool {
        &&& 1 <= self.ext_degree
        &&& ops_wf(self.ops@, self.ext_degree as nat)
    }

    pub fn new(ext_degree: usize) -> (r: Self)
        requires
            1 <= ext_degree,
        ensures
            r.ext_degree == ext_degree,
            r.ops@.len() == 0,
            r.wf(),
    {
        CircuitBuilder { ext_degree, ops: Vec::new() }
    }

    /// Declares an input wire and returns the target carrying its value.
    pub fn input_wire(&mut self, w: usize) -> (r: ExtensionTarget)
        requires
            old(self).wf(),
        ensures
            final(self).wf(),
            final(self).ext_degree == old(self).ext_degree,
            final(self).ops@.len() == old(self).ops@.len() + 1,
            r.index == old(self).ops@.len(),
            forall|i: int|
                0 <= i < old(self).ops@.len() ==> final(self).ops@[i] == old(self).ops@[i],
            forall|env: Seq<Seq<u64>>, t: int|
                0 <= t < old(self).ops@.len() ==> #[trigger] op_value(
                    final(self).ops@,
                    env,
                    final(self).ext_degree as nat,
                    t,
                ) == op_value(old(self).ops@, env, old(self).ext_degree as nat, t),
            forall|env: Seq<Seq<u64>>|
                w < env.len() ==> #[trigger] op_value(
                    final(self).ops@,
                    env,
                    final(self).ext_degree as nat,
                    r.index as int,
                ) == env[w as int],
    {
        let r = ExtensionTarget { index: self.ops.len() };
        self.ops.push(ExtOp::Input(w));
        proof {
            let d = self.ext_degree as nat;
            assert forall|env: Seq<Seq<u64>>, t: int| 0 <= t < old(self).ops@.len() implies #[trigger] op_value(
                self.ops@,
                env,
                d,
                t,
            ) == op_value(old(self).ops@, env, d, t) by {
                lemma_op_value_prefix(old(self).ops@, self.ops@, env, d, t);
            }
        }
        r
    }

    /// Injects a constant extension value.
    pub fn constant_extension(&mut self, c: &Vec<u64>) -> (r: ExtensionTarget)
        requires
            old(self).wf(),
            ext_wf(c@, old(self).ext_degree as nat),
        ensures
            final(self).wf(),
            final(self).ext_degree == old(self).ext_degree,
            final(self).ops@.len() == old(self).ops@.len() + 1,
            r.index == old(self).ops@.len(),
            forall|i: int|
                0 <= i < old(self).ops@.len() ==> final(self).ops@[i] == old(self).ops@[i],
            forall|env: Seq<Seq<u64>>, t: int|
                0 <= t < old(self).ops@.len() ==> #[trigger] op_value(
                    final(self).ops@,
                    env,
                    final(self).ext_degree as nat,
                    t,
                ) == op_value(old(self).ops@, env, old(self).ext_degree as nat, t),
            forall|env: Seq<Seq<u64>>|
                #[trigger] op_value(
                    final(self).ops@,
                    env,
                    final(self).ext_degree as nat,
                    r.index as int,
                ) == c@,
    {
        let r = ExtensionTarget { index: self.ops.len() };
        let cc = copy_coeffs(c);
        self.ops.push(ExtOp::Constant(cc));
        proof {
            let d = self.ext_degree as nat;
            assert forall|env: Seq<Seq<u64>>, t: int| 0 <= t < old(self).ops@.len() implies #[trigger] op_value(
                self.ops@,
                env,
                d,
                t,
            ) == op_value(old(self).ops@, env, d, t) by {
                lemma_op_value_prefix(old(self).ops@, self.ops@, env, d, t);
            }
        }
        r
    }

    /// Emits a subtraction of two earlier results.
    pub fn sub_extension(&mut self, x: ExtensionTarget, y: ExtensionTarget) -> (r: ExtensionTarget)
        requires
            old(self).wf(),
            x.index < old(self).ops@.len(),
            y.index < old(self).ops@.len(),
        ensures
            final(self).wf(),
            final(self).ext_degree == old(self).ext_degree,
            final(self).ops@.len() == old(self).ops@.len() + 1,
            r.index == old(self).ops@.len(),
            forall|i: int|
                0 <= i < old(self).ops@.len() ==> final(self).ops@[i] == old(self).ops@[i],
            forall|env: Seq<Seq<u64>>, t: int|
                0 <= t < old(self).ops@.len() ==> #[trigger] op_value(
                    final(self).ops@,
                    env,
                    final(self).ext_degree as nat,
                    t,
                ) == op_value(old(self).ops@, env, old(self).ext_degree as nat, t),
            forall|env: Seq<Seq<u64>>|
                #[trigger] op_value(
                    final(self).ops@,
                    env,
                    final(self).ext_degree as nat,
                    r.index as int,
                ) == ext_sub_spec(
                    op_value(old(self).ops@, env, old(self).ext_degree as nat, x.index as int),
                    op_value(old(self).ops@, env, old(self).ext_degree as nat, y.index as int),
                ),
    {
        let r = ExtensionTarget { index: self.ops.len() };
        self.ops.push(ExtOp::Sub(x.index, y.index));
        proof {
            let d = self.ext_degree as nat;
            assert forall|env: Seq<Seq<u64>>, t: int| 0 <= t < old(self).ops@.len() implies #[trigger] op_value(
                self.ops@,
                env,
                d,
                t,
            ) == op_value(old(self).ops@, env, d, t) by {
                lemma_op_value_prefix(old(self).ops@, self.ops@, env, d, t);
            }
            assert forall|env: Seq<Seq<u64>>| #[trigger] op_value(self.ops@, env, d, r.index as int)
                == ext_sub_spec(
                op_value(old(self).ops@, env, d, x.index as int),
                op_value(old(self).ops@, env, d, y.index as int),
            ) by {
                lemma_op_value_prefix(old(self).ops@, self.ops@, env, d, x.index as int);
                lemma_op_value_prefix(old(self).ops@, self.ops@, env, d, y.index as int);
            }
        }
        r
    }

    /// Emits a multiplication of two earlier results.
    pub fn mul_extension(&mut self, x: ExtensionTarget, y: ExtensionTarget) -> (r: ExtensionTarget)
        requires
            old(self).wf(),
            x.index < old(self).ops@.len(),
            y.index < old(self).ops@.len(),
        ensures
            final(self).wf(),
            final(self).ext_degree == old(self).ext_degree,
            final(self).ops@.len() == old(self).ops@.len() + 1,
            r.index == old(self).ops@.len(),
            forall|i: int|
                0 <= i < old(self).ops@.len() ==> final(self).ops@[i] == old(self).ops@[i],
            forall|env: Seq<Seq<u64>>, t: int|
                0 <= t < old(self).ops@.len() ==> #[trigger] op_value(
                    final(self).ops@,
                    env,
                    final(self).ext_degree as nat,
                    t,
                ) == op_value(old(self).ops@, env, old(self).ext_degree as nat, t),
            forall|env: Seq<Seq<u64>>|
                #[trigger] op_value(
                    final(self).ops@,
                    env,
                    final(self).ext_degree as nat,
                    r.index as int,
                ) == ext_mul_spec(
                    op_value(old(self).ops@, env, old(self).ext_degree as nat, x.index as int),
                    op_value(old(self).ops@, env, old(self).ext_degree as nat, y.index as int),
                    old(self).ext_degree as nat,
                ),
    {
        let r = ExtensionTarget { index: self.ops.len() };
        self.ops.push(ExtOp::Mul(x.index, y.index));
        proof {
            let d = self.ext_degree as nat;
            assert forall|env: Seq<Seq<u64>>, t: int| 0 <= t < old(self).ops@.len() implies #[trigger] op_value(
                self.ops@,
                env,
                d,
                t,
            ) == op_value(old(self).ops@, env, d, t) by {
                lemma_op_value_prefix(old(self).ops@, self.ops@, env, d, t);
            }
            assert forall|env: Seq<Seq<u64>>| #[trigger] op_value(self.ops@, env, d, r.index as int)
                == ext_mul_spec(
                op_value(old(self).ops@, env, d, x.index as int),
                op_value(old(self).ops@, env, d, y.index as int),
                d,
            ) by {
                lemma_op_value_prefix(old(self).ops@, self.ops@, env, d, x.index as int);
                lemma_op_value_prefix(old(self).ops@, self.ops@, env, d, y.index as int);
            }
        }
        r
    }

    /// Runs the recorded operations on concrete input-wire values: the
    /// numeric evaluation of the symbolic circuit, one value per target.
    pub fn evaluate(&self, env: &Vec<Vec<u64>>) -> (r: Vec<Vec<u64>>)
        requires
            self.wf(),
            forall|j: int|
                0 <= j < env@.len() ==> ext_wf((#[trigger] env@[j])@, self.ext_degree as nat),
            forall|i: int|
                0 <= i < self.ops@.len() ==> match #[trigger] self.ops@[i] {
                    ExtOp::Input(w) => w < env@.len(),
                    _ => true,
                },
        ensures
            r@.len() == self.ops@.len(),
            forall|t: int|
                0 <= t < r@.len() ==> (#[trigger] r@[t])@ == op_value(
                    self.ops@,
                    views(env@),
                    self.ext_degree as nat,
                    t,
                ),
            forall|t: int|
                0 <= t < r@.len() ==> ext_wf((#[trigger] r@[t])@, self.ext_degree as nat),
    {
        let ghost dn = self.ext_degree as nat;
        let ghost ev = views(env@);
        let n = self.ops.len();
        let mut values: Vec<Vec<u64>> = Vec::new();
        let mut t: usize = 0;
        while t < n
            invariant
                t <= n,
                n == self.ops@.len(),
                self.wf(),
                dn == self.ext_degree as nat,
                ev == views(env@),
                forall|j: int| 0 <= j < env@.len() ==> ext_wf((#[trigger] env@[j])@, dn),
                forall|i: int|
                    0 <= i < self.ops@.len() ==> match #[trigger] self.ops@[i] {
                        ExtOp::Input(w) => w < env@.len(),
                        _ => true,
                    },
                values@.len() == t,
                forall|tt: int|
                    0 <= tt < t ==> (#[trigger] values@[tt])@ == op_value(self.ops@, ev, dn, tt),
                forall|tt: int| 0 <= tt < t ==> ext_wf((#[trigger] values@[tt])@, dn),
            decreases n - t,
        {
            proof {
                assert(op_wf(self.ops@[t as int], t as int, dn));
            }
            let v: Vec<u64> = match &self.ops[t] {
                ExtOp::Input(w) => copy_coeffs(&env[*w]),
                ExtOp::Constant(c) => copy_coeffs(c),
                ExtOp::Sub(a, b) => ext_sub(&values[*a], &values[*b]),
                ExtOp::Mul(a, b) => ext_mul(&values[*a], &values[*b]),
            };
            values.push(v);
            t += 1;
        }
        values
    }
}

} // verus!
