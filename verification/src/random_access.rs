//! The random-access gate: proves, in degree-2 polynomial constraints, that
//! the value at position `access_index` inside a fixed-size list of
//! extension elements equals `element_to_compare` — without a selector
//! polynomial whose degree grows with the list.
//!
//! For each index `i` the row carries two auxiliary wires, an equality dummy
//! and an index-matches flag, and emits the constraints
//! `difference_i * equality_dummy_i - (1 - index_matches_i)`,
//! `index_matches_i * difference_i`, and coefficient-wise
//! `index_matches_i * (list_item_i - element_to_compare)`,
//! where `difference_i = i - access_index`.

use core::ops::Range;

use crate::builder::{op_value, CircuitBuilder, ExtensionTarget};

use vstd::arithmetic::div_mod::{
    lemma_div_pos_is_pos, lemma_fundamental_div_mod, lemma_fundamental_div_mod_converse,
    lemma_mod_bound, lemma_multiply_divide_lt,
};
use vstd::prelude::*;

use crate::extension::{
    ext_embed, ext_embed_vec, ext_mul, ext_mul_spec, ext_sub, ext_sub_spec, ext_wf,
    lemma_ext_mul_embed, lemma_ext_sub_embed, views,
};
use crate::field::{field_inv, field_mul, field_reduce, field_sub, fmul, freduce, fsub, in_field, lemma_zero_ops, P};
use crate::witness::{has_wire, lemma_lookup_in_field, lookup, GeneratedValues, PartialWitness, Wire};

verus! {

/// The slot of the access index.
pub open spec fn access_index_slot() -> int {
    0
}

/// The slot of coefficient `j` of the element to compare.
pub open spec fn elt_slot(j: int) -> int {
    1 + j
}

/// The slot of coefficient `j` of list item `i`.
pub open spec fn item_slot(d: int, i: int, j: int) -> int {
    (i + 1) * d + 1 + j
}

/// The slot of the equality dummy for index `i`.
pub open spec fn dummy_slot(vs: int, d: int, i: int) -> int {
    (vs + 1) * d + 1 + i
}

/// The slot of the index-matches flag for index `i`.
pub open spec fn match_slot(vs: int, d: int, i: int) -> int {
    (vs + 1) * d + 1 + vs + i
}

/// The row width: the access index, `vec_size + 1` extension values, and
/// two auxiliary wires per list index.
pub open spec fn num_wires_spec(vs: int, d: int) -> int {
    (vs + 1) * d + 1 + 2 * vs
}

/// The number of scalar constraints emitted for a row.
pub open spec fn num_constraints_spec(vs: int, d: int) -> int {
    vs * (d + 2)
}

/// A gate for checking that a particular value in a list of extension
/// elements matches a given element, selected by a dynamic index.
#[derive(Clone, Copy, PartialEq, Eq, Structural, Debug)]
pub struct RandomAccessGate {
    /// The length of the list selected from.
    pub vec_size: usize,
    /// The degree of the extension whose elements the list holds.
    pub ext_degree: usize,
}

impl RandomAccessGate {
    /// Shape parameters are kept small enough that every slot number fits
    /// comfortably in a machine word.
    pub open spec fn wf(self) -> bool {
        &&& 1 <= self.vec_size <= 0x1000
        &&& 1 <= self.ext_degree <= 0x1000
    }

    pub fn new(vec_size: usize, ext_degree: usize) -> (r: Self)
        requires
            1 <= vec_size <= 0x1000,
            1 <= ext_degree <= 0x1000,
        ensures
            r.vec_size == vec_size,
            r.ext_degree == ext_degree,
            r.wf(),
    {
        Self { vec_size, ext_degree }
    }

    pub fn wires_access_index(&self) -> (r: usize)
        ensures
            r == access_index_slot(),
    {
        0
    }

    pub fn wires_element_to_compare(&self) -> (r: Range<usize>)
        requires
            self.wf(),
        ensures
            r.start == elt_slot(0),
            r.end == elt_slot(self.ext_degree as int),
    {
        1..self.ext_degree + 1
    }

    pub fn wires_list_item(&self, i: usize) -> (r: Range<usize>)
        requires
            self.wf(),
            i < self.vec_size,
        ensures
            r.start == item_slot(self.ext_degree as int, i as int, 0),
            r.end == item_slot(self.ext_degree as int, i as int, self.ext_degree as int),
    {
        proof {
            assert((i + 1) * (self.ext_degree as int) <= 0x1000 * 0x1000) by (nonlinear_arith)
                requires
                    i + 1 <= 0x1000,
                    self.ext_degree <= 0x1000,
            ;
        }
        let start = (i + 1) * self.ext_degree + 1;
        start..start + self.ext_degree
    }

    /// The first slot past the primary wires, where the auxiliary wires
    /// begin.
    pub fn start_of_intermediate_wires(&self) -> (r: usize)
        requires
            self.wf(),
        ensures
            r == dummy_slot(self.vec_size as int, self.ext_degree as int, 0),
            r <= 0x1001 * 0x1000 + 1,
    {
        proof {
            assert((self.vec_size + 1) * (self.ext_degree as int) <= 0x1001 * 0x1000) by (nonlinear_arith)
                requires
                    self.vec_size + 1 <= 0x1001,
                    self.ext_degree <= 0x1000,
            ;
        }
        (self.vec_size + 1) * self.ext_degree + 1
    }

    /// An intermediate wire for a dummy variable used to show equality.
    /// The prover sets this to `1 / (i - access_index)` off the selected
    /// index, and to an arbitrary value (fixed to 1 by convention) on it.
    pub fn wire_equality_dummy_for_index(&self, i: usize) -> (r: usize)
        requires
            self.wf(),
            i < self.vec_size,
        ensures
            r == dummy_slot(self.vec_size as int, self.ext_degree as int, i as int),
    {
        self.start_of_intermediate_wires() + i
    }

    /// An intermediate wire for the index-matches flag: 1 if `i` is the
    /// index at which to compare, 0 otherwise.
    pub fn wire_index_matches_for_index(&self, i: usize) -> (r: usize)
        requires
            self.wf(),
            i < self.vec_size,
        ensures
            r == match_slot(self.vec_size as int, self.ext_degree as int, i as int),
            r <= 0x1001 * 0x1000 + 1 + 2 * 0x1000,
    {
        self.start_of_intermediate_wires() + self.vec_size + i
    }

    pub fn num_wires(&self) -> (r: usize)
        requires
            self.wf(),
        ensures
            r == num_wires_spec(self.vec_size as int, self.ext_degree as int),
    {
        self.wire_index_matches_for_index(self.vec_size - 1) + 1
    }

    pub fn num_constants(&self) -> (r: usize)
        ensures
            r == 0,
    {
        0
    }

    /// The maximum total degree of any emitted constraint, independent
    /// of the list length.
    pub fn degree(&self) -> (r: usize)
        ensures
            r == 2,
    {
        2
    }

    pub fn num_constraints(&self) -> (r: usize)
        requires
            self.wf(),
        ensures
            r == num_constraints_spec(self.vec_size as int, self.ext_degree as int),
    {
        proof {
            assert(self.vec_size * (2 + self.ext_degree as int) <= 0x1000 * 0x1002) by (nonlinear_arith)
                requires
                    self.vec_size <= 0x1000,
                    self.ext_degree <= 0x1000,
            ;
        }
        self.vec_size * (2 + self.ext_degree)
    }

    pub fn eval_unfiltered_base(&self, local_wires: &Vec<u64>) -> (r: Vec<u64>)
        requires
            self.wf(),
            local_wires@.len() == num_wires_spec(self.vec_size as int, self.ext_degree as int),
            forall|j: int| 0 <= j < local_wires@.len() ==> in_field(#[trigger] local_wires@[j]),
        ensures
            r@ == base_constraints(self.vec_size as int, self.ext_degree as int, local_wires@),
            r@.len() == num_constraints_spec(self.vec_size as int, self.ext_degree as int),
            forall|k: int| 0 <= k < r@.len() ==> in_field(#[trigger] r@[k]),
    {
        let vs = self.vec_size;
        let d = self.ext_degree;
        let access = local_wires[0];
        let mut constraints: Vec<u64> = Vec::new();
        let mut i: usize = 0;
        while i < vs
            invariant
                i <= vs,
                self.wf(),
                vs == self.vec_size,
                d == self.ext_degree,
                local_wires@.len() == num_wires_spec(vs as int, d as int),
                forall|j: int| 0 <= j < local_wires@.len() ==> in_field(#[trigger] local_wires@[j]),
                access == local_wires@[0],
                constraints@.len() == i * (d + 2),
                forall|k: int|
                    0 <= k < constraints@.len() ==> #[trigger] constraints@[k] == base_constraint(
                        vs as int,
                        d as int,
                        local_wires@,
                        k,
                    ),
                forall|k: int| 0 <= k < constraints@.len() ==> in_field(#[trigger] constraints@[k]),
            decreases vs - i,
        {
            proof {
                assert((i + 1) * (d as int) <= (vs as int) * (d as int) && 2 * (d as int) <= (
                (vs as int) + 1) * (d as int) && (i as int) * ((d as int) + 2) + (d as int) + 2 <= (
                vs as int) * ((d as int) + 2) && (i + 1) * (d as int) <= 0x1000 * 0x1000 && (i + 1)
                    * (d as int) + (d as int) + 1 <= ((vs as int) + 1) * (d as int) + 1 + 2 * (
                vs as int) && ((i as int) + 1) * ((d as int) + 2) == (i as int) * ((d as int) + 2)
                    + (d as int) + 2) by (nonlinear_arith)
                    requires
                        i + 1 <= vs,
                        1 <= d,
                        1 <= vs,
                        vs <= 0x1000,
                        d <= 0x1000,
                ;
            }
            let cur = field_reduce(i as u64);
            let diff = field_sub(cur, access);
            let dummy_idx = self.wire_equality_dummy_for_index(i);
            let match_idx = self.wire_index_matches_for_index(i);
            let dummy = local_wires[dummy_idx];
            let m = local_wires[match_idx];
            let item_start = (i + 1) * d + 1;
            let c1 = field_sub(field_mul(diff, dummy), field_sub(1, m));
            constraints.push(c1);
            proof {
                lemma_fundamental_div_mod_converse(
                    (i as int) * ((d as int) + 2),
                    (d as int) + 2,
                    i as int,
                    0,
                );
            }
            let c2 = field_mul(m, diff);
            constraints.push(c2);
            proof {
                lemma_fundamental_div_mod_converse(
                    (i as int) * ((d as int) + 2) + 1,
                    (d as int) + 2,
                    i as int,
                    1,
                );
            }
            let mut j: usize = 0;
            while j < d
                invariant
                    j <= d,
                    i < vs,
                    self.wf(),
                    vs == self.vec_size,
                    d == self.ext_degree,
                    local_wires@.len() == num_wires_spec(vs as int, d as int),
                    forall|jj: int|
                        0 <= jj < local_wires@.len() ==> in_field(#[trigger] local_wires@[jj]),
                    access == local_wires@[0],
                    m == local_wires@[match_slot(vs as int, d as int, i as int)],
                    item_start == item_slot(d as int, i as int, 0),
                    item_start <= 0x1000 * 0x1000 + 1,
                    item_start + d <= local_wires@.len(),
                    constraints@.len() == i * (d + 2) + 2 + j,
                    forall|k: int|
                        0 <= k < constraints@.len() ==> #[trigger] constraints@[k]
                            == base_constraint(vs as int, d as int, local_wires@, k),
                    forall|k: int|
                        0 <= k < constraints@.len() ==> in_field(#[trigger] constraints@[k]),
                decreases d - j,
            {
                let item = local_wires[item_start + j];
                let e = local_wires[1 + j];
                let c = field_mul(m, field_sub(item, e));
                constraints.push(c);
                proof {
                    lemma_fundamental_div_mod_converse(
                        (i as int) * ((d as int) + 2) + 2 + (j as int),
                        (d as int) + 2,
                        i as int,
                        2 + (j as int),
                    );
                }
                j += 1;
            }
            i += 1;
        }
        proof {
            assert(constraints@ =~= base_constraints(vs as int, d as int, local_wires@));
        }
        constraints
    }

    pub fn eval_unfiltered(&self, local_wires: &Vec<Vec<u64>>) -> (r: Vec<Vec<u64>>)
        requires
            self.wf(),
            local_wires@.len() == num_wires_spec(self.vec_size as int, self.ext_degree as int),
            forall|j: int|
                0 <= j < local_wires@.len() ==> ext_wf(
                    (#[trigger] local_wires@[j])@,
                    self.ext_degree as nat,
                ),
        ensures
            views(r@) == ext_constraints(
                self.vec_size as int,
                self.ext_degree as int,
                views(local_wires@),
            ),
            r@.len() == num_constraints_spec(self.vec_size as int, self.ext_degree as int),
            forall|k: int| 0 <= k < r@.len() ==> ext_wf((#[trigger] r@[k])@, self.ext_degree as nat),
    {
        let vs = self.vec_size;
        let d = self.ext_degree;
        let one_e = ext_embed_vec(1, d);
        let mut constraints: Vec<Vec<u64>> = Vec::new();
        let mut i: usize = 0;
        while i < vs
            invariant
                i <= vs,
                self.wf(),
                vs == self.vec_size,
                d == self.ext_degree,
                local_wires@.len() == num_wires_spec(vs as int, d as int),
                forall|j: int|
                    0 <= j < local_wires@.len() ==> ext_wf((#[trigger] local_wires@[j])@, d as nat),
                one_e@ == ext_embed(1, d as nat),
                ext_wf(one_e@, d as nat),
                constraints@.len() == i * (d + 2),
                forall|k: int|
                    0 <= k < constraints@.len() ==> (#[trigger] constraints@[k])@ == ext_constraint(
                        vs as int,
                        d as int,
                        views(local_wires@),
                        k,
                    ),
                forall|k: int|
                    0 <= k < constraints@.len() ==> ext_wf((#[trigger] constraints@[k])@, d as nat),
            decreases vs - i,
        {
            proof {
                assert((i + 1) * (d as int) <= (vs as int) * (d as int) && 2 * (d as int) <= (
                (vs as int) + 1) * (d as int) && (i as int) * ((d as int) + 2) + (d as int) + 2 <= (
                vs as int) * ((d as int) + 2) && (i + 1) * (d as int) <= 0x1000 * 0x1000 && (i + 1)
                    * (d as int) + (d as int) + 1 <= ((vs as int) + 1) * (d as int) + 1 + 2 * (
                vs as int) && ((i as int) + 1) * ((d as int) + 2) == (i as int) * ((d as int) + 2)
                    + (d as int) + 2) by (nonlinear_arith)
                    requires
                        i + 1 <= vs,
                        1 <= d,
                        1 <= vs,
                        vs <= 0x1000,
                        d <= 0x1000,
                ;
            }
            let cur = ext_embed_vec(field_reduce(i as u64), d);
            let diff = ext_sub(&cur, &local_wires[0]);
            let dummy_idx = self.wire_equality_dummy_for_index(i);
            let match_idx = self.wire_index_matches_for_index(i);
            let item_start = (i + 1) * d + 1;
            let t1 = ext_mul(&diff, &local_wires[dummy_idx]);
            let t2 = ext_sub(&one_e, &local_wires[match_idx]);
            let c1 = ext_sub(&t1, &t2);
            constraints.push(c1);
            proof {
                lemma_fundamental_div_mod_converse(
                    (i as int) * ((d as int) + 2),
                    (d as int) + 2,
                    i as int,
                    0,
                );
            }
            let c2 = ext_mul(&local_wires[match_idx], &diff);
            constraints.push(c2);
            proof {
                lemma_fundamental_div_mod_converse(
                    (i as int) * ((d as int) + 2) + 1,
                    (d as int) + 2,
                    i as int,
                    1,
                );
            }
            let mut j: usize = 0;
            while j < d
                invariant
                    j <= d,
                    i < vs,
                    self.wf(),
                    vs == self.vec_size,
                    d == self.ext_degree,
                    local_wires@.len() == num_wires_spec(vs as int, d as int),
                    forall|jj: int|
                        0 <= jj < local_wires@.len() ==> ext_wf(
                            (#[trigger] local_wires@[jj])@,
                            d as nat,
                        ),
                    diff@ == ext_sub_spec(
                        ext_embed(freduce(i as u64), d as nat),
                        local_wires@[0]@,
                    ),
                    ext_wf(diff@, d as nat),
                    match_idx == match_slot(vs as int, d as int, i as int),
                    match_idx < local_wires@.len(),
                    item_start == item_slot(d as int, i as int, 0),
                    item_start <= 0x1000 * 0x1000 + 1,
                    item_start + d <= local_wires@.len(),
                    constraints@.len() == i * (d + 2) + 2 + j,
                    forall|k: int|
                        0 <= k < constraints@.len() ==> (#[trigger] constraints@[k])@
                            == ext_constraint(vs as int, d as int, views(local_wires@), k),
                    forall|k: int|
                        0 <= k < constraints@.len() ==> ext_wf(
                            (#[trigger] constraints@[k])@,
                            d as nat,
                        ),
                decreases d - j,
            {
                let t = ext_sub(&local_wires[item_start + j], &local_wires[1 + j]);
                let c = ext_mul(&local_wires[match_idx], &t);
                constraints.push(c);
                proof {
                    lemma_fundamental_div_mod_converse(
                        (i as int) * ((d as int) + 2) + 2 + (j as int),
                        (d as int) + 2,
                        i as int,
                        2 + (j as int),
                    );
                }
                j += 1;
            }
            i += 1;
        }
        proof {
            assert(views(constraints@) =~= ext_constraints(
                vs as int,
                d as int,
                views(local_wires@),
            ));
        }
        constraints
    }

    /// The generators needed to complete this gate's row: a single one,
    /// bound to the given row. The local constants play no role for this
    /// gate.
    pub fn generators(
        &self,
        gate_index: usize,
        _local_constants: &Vec<u64>,
    ) -> (r: Vec<RandomAccessGenerator>)
        ensures
            r@.len() == 1,
            r@[0].gate_index == gate_index,
            r@[0].gate == *self,
    {
        let gen = RandomAccessGenerator { gate_index, gate: *self };
        let mut r: Vec<RandomAccessGenerator> = Vec::new();
        r.push(gen);
        r
    }

    pub fn eval_unfiltered_recursively(
        &self,
        builder: &mut CircuitBuilder,
        local_wires: &Vec<ExtensionTarget>,
    ) -> (r: Vec<ExtensionTarget>)
        requires
            self.wf(),
            old(builder).wf(),
            old(builder).ext_degree == self.ext_degree,
            local_wires@.len() == num_wires_spec(self.vec_size as int, self.ext_degree as int),
            forall|j: int|
                0 <= j < local_wires@.len() ==> (#[trigger] local_wires@[j]).index < old(
                    builder,
                ).ops@.len(),
        ensures
            final(builder).wf(),
            final(builder).ext_degree == old(builder).ext_degree,
            final(builder).ops@.len() >= old(builder).ops@.len(),
            forall|i: int|
                0 <= i < old(builder).ops@.len() ==> final(builder).ops@[i] == old(
                    builder,
                ).ops@[i],
            r@.len() == num_constraints_spec(self.vec_size as int, self.ext_degree as int),
            forall|k: int|
                0 <= k < r@.len() ==> (#[trigger] r@[k]).index < final(builder).ops@.len(),
            forall|env: Seq<Seq<u64>>, k: int|
                0 <= k < r@.len() ==> #[trigger] op_value(
                    final(builder).ops@,
                    env,
                    self.ext_degree as nat,
                    r@[k].index as int,
                ) == ext_constraint(
                    self.vec_size as int,
                    self.ext_degree as int,
                    wire_values(
                        old(builder).ops@,
                        env,
                        self.ext_degree as nat,
                        local_wires@,
                    ),
                    k,
                ),
    {
        let vs = self.vec_size;
        let d = self.ext_degree;
        let ghost dn = d as nat;
        let ghost ops0 = builder.ops@;
        let ghost lw = local_wires@;
        let access_t = local_wires[0];
        let mut constraints: Vec<ExtensionTarget> = Vec::new();
        let mut i: usize = 0;
        while i < vs
            invariant
                i <= vs,
                self.wf(),
                vs == self.vec_size,
                d == self.ext_degree,
                dn == d as nat,
                lw == local_wires@,
                builder.wf(),
                builder.ext_degree == d,
                builder.ops@.len() >= ops0.len(),
                forall|ii: int| 0 <= ii < ops0.len() ==> builder.ops@[ii] == ops0[ii],
                lw.len() == num_wires_spec(vs as int, d as int),
                forall|j: int| 0 <= j < lw.len() ==> (#[trigger] lw[j]).index < ops0.len(),
                access_t == lw[0],
                constraints@.len() == i * (d + 2),
                forall|k: int|
                    0 <= k < constraints@.len() ==> (#[trigger] constraints@[k]).index
                        < builder.ops@.len(),
                forall|env: Seq<Seq<u64>>, k: int|
                    0 <= k < constraints@.len() ==> #[trigger] op_value(
                        builder.ops@,
                        env,
                        dn,
                        constraints@[k].index as int,
                    ) == ext_constraint(vs as int, d as int, wire_values(ops0, env, dn, lw), k),
            decreases vs - i,
        {
            proof {
                assert((i + 1) * (d as int) <= (vs as int) * (d as int) && 2 * (d as int) <= (
                (vs as int) + 1) * (d as int) && (i as int) * ((d as int) + 2) + (d as int) + 2 <= (
                vs as int) * ((d as int) + 2) && (i + 1) * (d as int) <= 0x1000 * 0x1000 && (i + 1)
                    * (d as int) + (d as int) + 1 <= ((vs as int) + 1) * (d as int) + 1 + 2 * (
                vs as int) && ((i as int) + 1) * ((d as int) + 2) == (i as int) * ((d as int) + 2)
                    + (d as int) + 2) by (nonlinear_arith)
                    requires
                        i + 1 <= vs,
                        1 <= d,
                        1 <= vs,
                        vs <= 0x1000,
                        d <= 0x1000,
                ;
            }
            let ghost pre = builder.ops@;
            let cur_vec = ext_embed_vec(field_reduce(i as u64), d);
            let cur_t = builder.constant_extension(&cur_vec);
            proof {
                assert forall|env: Seq<Seq<u64>>, t: int| 0 <= t < ops0.len() implies op_value(
                    builder.ops@,
                    env,
                    dn,
                    t,
                ) == op_value(ops0, env, dn, t) by {
                    crate::builder::lemma_op_value_prefix(ops0, builder.ops@, env, dn, t);
                }
            }
            let diff_t = builder.sub_extension(cur_t, access_t);
            let dummy_idx = self.wire_equality_dummy_for_index(i);
            let match_idx = self.wire_index_matches_for_index(i);
            let dummy_t = local_wires[dummy_idx];
            let m_t = local_wires[match_idx];
            let ghost diff_val = |env: Seq<Seq<u64>>|
                ext_sub_spec(
                    ext_embed(freduce(i as u64), dn),
                    op_value(ops0, env, dn, lw[0].index as int),
                );
            proof {
                assert forall|env: Seq<Seq<u64>>, t: int| 0 <= t < ops0.len() implies op_value(
                    builder.ops@,
                    env,
                    dn,
                    t,
                ) == op_value(ops0, env, dn, t) by {
                    crate::builder::lemma_op_value_prefix(ops0, builder.ops@, env, dn, t);
                }
                assert forall|env: Seq<Seq<u64>>| #[trigger] op_value(
                    builder.ops@,
                    env,
                    dn,
                    diff_t.index as int,
                ) == diff_val(env) by {}
            }
            let prod_t = builder.mul_extension(diff_t, dummy_t);
            proof {
                assert forall|env: Seq<Seq<u64>>, t: int| 0 <= t < ops0.len() implies op_value(
                    builder.ops@,
                    env,
                    dn,
                    t,
                ) == op_value(ops0, env, dn, t) by {
                    crate::builder::lemma_op_value_prefix(ops0, builder.ops@, env, dn, t);
                }
                assert forall|env: Seq<Seq<u64>>| #[trigger] op_value(
                    builder.ops@,
                    env,
                    dn,
                    prod_t.index as int,
                ) == ext_mul_spec(
                    diff_val(env),
                    op_value(ops0, env, dn, lw[dummy_slot(vs as int, d as int, i as int)].index as int),
                    dn,
                ) by {}
            }
            let one_vec = ext_embed_vec(1, d);
            let one_t = builder.constant_extension(&one_vec);
            proof {
                assert forall|env: Seq<Seq<u64>>, t: int| 0 <= t < ops0.len() implies op_value(
                    builder.ops@,
                    env,
                    dn,
                    t,
                ) == op_value(ops0, env, dn, t) by {
                    crate::builder::lemma_op_value_prefix(ops0, builder.ops@, env, dn, t);
                }
            }
            let not_m_t = builder.sub_extension(one_t, m_t);
            proof {
                assert forall|env: Seq<Seq<u64>>, t: int| 0 <= t < ops0.len() implies op_value(
                    builder.ops@,
                    env,
                    dn,
                    t,
                ) == op_value(ops0, env, dn, t) by {
                    crate::builder::lemma_op_value_prefix(ops0, builder.ops@, env, dn, t);
                }
            }
            let c1_t = builder.sub_extension(prod_t, not_m_t);
            constraints.push(c1_t);
            proof {
                lemma_fundamental_div_mod_converse(
                    (i as int) * ((d as int) + 2),
                    (d as int) + 2,
                    i as int,
                    0,
                );
                assert forall|env: Seq<Seq<u64>>, t: int| 0 <= t < ops0.len() implies op_value(
                    builder.ops@,
                    env,
                    dn,
                    t,
                ) == op_value(ops0, env, dn, t) by {
                    crate::builder::lemma_op_value_prefix(ops0, builder.ops@, env, dn, t);
                }
                assert forall|env: Seq<Seq<u64>>| #[trigger] op_value(
                    builder.ops@,
                    env,
                    dn,
                    c1_t.index as int,
                ) == ext_constraint(
                    vs as int,
                    d as int,
                    wire_values(ops0, env, dn, lw),
                    (i as int) * ((d as int) + 2),
                ) by {
                    let w = wire_values(ops0, env, dn, lw);
                    assert(w[0] == op_value(ops0, env, dn, lw[0].index as int));
                    assert(w[dummy_slot(vs as int, d as int, i as int)] == op_value(
                        ops0,
                        env,
                        dn,
                        lw[dummy_slot(vs as int, d as int, i as int)].index as int,
                    ));
                    assert(w[match_slot(vs as int, d as int, i as int)] == op_value(
                        ops0,
                        env,
                        dn,
                        lw[match_slot(vs as int, d as int, i as int)].index as int,
                    ));
                }
            }
            let c2_t = builder.mul_extension(m_t, diff_t);
            constraints.push(c2_t);
            proof {
                lemma_fundamental_div_mod_converse(
                    (i as int) * ((d as int) + 2) + 1,
                    (d as int) + 2,
                    i as int,
                    1,
                );
                assert forall|env: Seq<Seq<u64>>, t: int| 0 <= t < ops0.len() implies op_value(
                    builder.ops@,
                    env,
                    dn,
                    t,
                ) == op_value(ops0, env, dn, t) by {
                    crate::builder::lemma_op_value_prefix(ops0, builder.ops@, env, dn, t);
                }
                assert forall|env: Seq<Seq<u64>>| #[trigger] op_value(
                    builder.ops@,
                    env,
                    dn,
                    c2_t.index as int,
                ) == ext_constraint(
                    vs as int,
                    d as int,
                    wire_values(ops0, env, dn, lw),
                    (i as int) * ((d as int) + 2) + 1,
                ) by {
                    let w = wire_values(ops0, env, dn, lw);
                    assert(w[0] == op_value(ops0, env, dn, lw[0].index as int));
                    assert(w[match_slot(vs as int, d as int, i as int)] == op_value(
                        ops0,
                        env,
                        dn,
                        lw[match_slot(vs as int, d as int, i as int)].index as int,
                    ));
                }
            }
            let item_start = (i + 1) * d + 1;
            let mut j: usize = 0;
            while j < d
                invariant
                    j <= d,
                    i < vs,
                    self.wf(),
                    vs == self.vec_size,
                    d == self.ext_degree,
                    dn == d as nat,
                    lw == local_wires@,
                    builder.wf(),
                    builder.ext_degree == d,
                    builder.ops@.len() >= ops0.len(),
                    forall|ii: int| 0 <= ii < ops0.len() ==> builder.ops@[ii] == ops0[ii],
                    lw.len() == num_wires_spec(vs as int, d as int),
                    forall|jj: int| 0 <= jj < lw.len() ==> (#[trigger] lw[jj]).index < ops0.len(),
                    m_t == lw[match_slot(vs as int, d as int, i as int)],
                    item_start == item_slot(d as int, i as int, 0),
                    item_start <= 0x1000 * 0x1000 + 1,
                    item_start + d <= lw.len(),
                    constraints@.len() == i * (d + 2) + 2 + j,
                    forall|k: int|
                        0 <= k < constraints@.len() ==> (#[trigger] constraints@[k]).index
                            < builder.ops@.len(),
                    forall|env: Seq<Seq<u64>>, k: int|
                        0 <= k < constraints@.len() ==> #[trigger] op_value(
                            builder.ops@,
                            env,
                            dn,
                            constraints@[k].index as int,
                        ) == ext_constraint(
                            vs as int,
                            d as int,
                            wire_values(ops0, env, dn, lw),
                            k,
                        ),
                decreases d - j,
            {
                let item_t = local_wires[item_start + j];
                let e_t = local_wires[1 + j];
                let t_t = builder.sub_extension(item_t, e_t);
                proof {
                    assert forall|env: Seq<Seq<u64>>, t: int| 0 <= t < ops0.len() implies op_value(
                        builder.ops@,
                        env,
                        dn,
                        t,
                    ) == op_value(ops0, env, dn, t) by {
                        crate::builder::lemma_op_value_prefix(ops0, builder.ops@, env, dn, t);
                    }
                }
                let c_t = builder.mul_extension(m_t, t_t);
                constraints.push(c_t);
                proof {
                    lemma_fundamental_div_mod_converse(
                        (i as int) * ((d as int) + 2) + 2 + (j as int),
                        (d as int) + 2,
                        i as int,
                        2 + (j as int),
                    );
                    assert forall|env: Seq<Seq<u64>>, t: int| 0 <= t < ops0.len() implies op_value(
                        builder.ops@,
                        env,
                        dn,
                        t,
                    ) == op_value(ops0, env, dn, t) by {
                        crate::builder::lemma_op_value_prefix(ops0, builder.ops@, env, dn, t);
                    }
                    assert forall|env: Seq<Seq<u64>>| #[trigger] op_value(
                        builder.ops@,
                        env,
                        dn,
                        c_t.index as int,
                    ) == ext_constraint(
                        vs as int,
                        d as int,
                        wire_values(ops0, env, dn, lw),
                        (i as int) * ((d as int) + 2) + 2 + (j as int),
                    ) by {
                        let w = wire_values(ops0, env, dn, lw);
                        assert(w[match_slot(vs as int, d as int, i as int)] == op_value(
                            ops0,
                            env,
                            dn,
                            lw[match_slot(vs as int, d as int, i as int)].index as int,
                        ));
                        assert(w[item_slot(d as int, i as int, j as int)] == op_value(
                            ops0,
                            env,
                            dn,
                            lw[item_slot(d as int, i as int, j as int)].index as int,
                        ));
                        assert(w[elt_slot(j as int)] == op_value(
                            ops0,
                            env,
                            dn,
                            lw[elt_slot(j as int)].index as int,
                        ));
                    }
                }
                j += 1;
            }
            i += 1;
        }
        constraints
    }
}

/// A deferred computation bound to one gate row: given the resolved
/// primary wires, it fills in the equality dummies and index-matches
/// flags by the canonical rule.
pub struct RandomAccessGenerator {
    /// The row this generator works on.
    pub gate_index: usize,
    /// The instance whose auxiliary wires this generator fills.
    pub gate: RandomAccessGate,
}

impl RandomAccessGenerator {
    /// The wires the generator reads: the access index, the element to
    /// compare, and every list item — exactly the primary slots, in order.
    pub fn dependencies(&self) -> (r: Vec<Wire>)
        requires
            self.gate.wf(),
        ensures
            r@.len() == (self.gate.vec_size as int + 1) * (self.gate.ext_degree as int) + 1,
            forall|j: int|
                0 <= j < r@.len() ==> #[trigger] r@[j] == (Wire {
                    gate: self.gate_index,
                    input: j as usize,
                }),
    {
        let vs = self.gate.vec_size;
        let d = self.gate.ext_degree;
        let mut deps: Vec<Wire> = Vec::new();
        deps.push(Wire { gate: self.gate_index, input: self.gate.wires_access_index() });
        let elt_range = self.gate.wires_element_to_compare();
        let mut input: usize = elt_range.start;
        while input < elt_range.end
            invariant
                1 <= input <= elt_range.end,
                elt_range.start == 1,
                elt_range.end == 1 + d,
                d == self.gate.ext_degree,
                deps@.len() == input,
                forall|j: int|
                    0 <= j < deps@.len() ==> #[trigger] deps@[j] == (Wire {
                        gate: self.gate_index,
                        input: j as usize,
                    }),
            decreases elt_range.end - input,
        {
            deps.push(Wire { gate: self.gate_index, input });
            input += 1;
        }
        let mut i: usize = 0;
        while i < vs
            invariant
                i <= vs,
                vs == self.gate.vec_size,
                d == self.gate.ext_degree,
                self.gate.wf(),
                deps@.len() == (i + 1) * d + 1,
                deps@.len() <= 0x1001 * 0x1000 + 1,
                forall|j: int|
                    0 <= j < deps@.len() ==> #[trigger] deps@[j] == (Wire {
                        gate: self.gate_index,
                        input: j as usize,
                    }),
            decreases vs - i,
        {
            let item_range = self.gate.wires_list_item(i);
            proof {
                assert(((i as int) + 2) * (d as int) <= 0x1001 * 0x1000 && ((i as int) + 1) * (
                d as int) + (d as int) == ((i as int) + 2) * (d as int)) by (nonlinear_arith)
                    requires
                        i + 2 <= 0x1001,
                        d <= 0x1000,
                ;
            }
            let mut input: usize = item_range.start;
            while input < item_range.end
                invariant
                    item_range.start == (i as int + 1) * (d as int) + 1,
                    item_range.end == item_range.start + d,
                    item_range.start <= input <= item_range.end,
                    item_range.end <= 0x1001 * 0x1000 + 1,
                    d == self.gate.ext_degree,
                    deps@.len() == input,
                    forall|j: int|
                        0 <= j < deps@.len() ==> #[trigger] deps@[j] == (Wire {
                            gate: self.gate_index,
                            input: j as usize,
                        }),
                decreases item_range.end - input,
            {
                deps.push(Wire { gate: self.gate_index, input });
                input += 1;
            }
            proof {
                assert(((i as int) + 1 + 1) * (d as int) == ((i as int) + 1) * (d as int) + (
                d as int)) by (nonlinear_arith);
                assert(((i as int) + 2) * (d as int) <= 0x1001 * 0x1000) by (nonlinear_arith)
                    requires
                        i + 2 <= 0x1001,
                        d <= 0x1000,
                ;
            }
            i += 1;
        }
        deps
    }

    /// Fills the auxiliary wires from the resolved access index: on the
    /// selected index the dummy and the flag are both 1; elsewhere the
    /// flag is 0 and the dummy is the inverse of `i - access_index`. The
    /// access index must already hold a value below the list length.
    pub fn run_once(&self, witness: &PartialWitness) -> (r: GeneratedValues)
        requires
            self.gate.wf(),
            self.gate.vec_size <= P,
            witness.wf(),
            has_wire(witness.entries@, Wire { gate: self.gate_index, input: 0 }),
            lookup(witness.entries@, Wire { gate: self.gate_index, input: 0 })
                < self.gate.vec_size as u64,
        ensures
            r.pairs@.len() == 2 * self.gate.vec_size,
            forall|i: int|
                0 <= i < self.gate.vec_size ==> (#[trigger] r.pairs@[2 * i]).0.gate
                    == self.gate_index && r.pairs@[2 * i].0.input as int == dummy_slot(
                    self.gate.vec_size as int,
                    self.gate.ext_degree as int,
                    i,
                ) && r.pairs@[2 * i + 1].0.gate == self.gate_index && r.pairs@[2 * i
                    + 1].0.input as int == match_slot(
                    self.gate.vec_size as int,
                    self.gate.ext_degree as int,
                    i,
                ),
            forall|i: int|
                0 <= i < self.gate.vec_size ==> (#[trigger] r.pairs@[2 * i + 1]).1 == (if i
                    == lookup(witness.entries@, Wire { gate: self.gate_index, input: 0 }) as int {
                    1u64
                } else {
                    0u64
                }),
            forall|i: int|
                0 <= i < self.gate.vec_size && i == lookup(
                    witness.entries@,
                    Wire { gate: self.gate_index, input: 0 },
                ) as int ==> (#[trigger] r.pairs@[2 * i]).1 == 1u64,
            forall|i: int|
                0 <= i < self.gate.vec_size && i != lookup(
                    witness.entries@,
                    Wire { gate: self.gate_index, input: 0 },
                ) as int ==> fmul(
                    fsub(
                        i as u64,
                        lookup(witness.entries@, Wire { gate: self.gate_index, input: 0 }),
                    ),
                    (#[trigger] r.pairs@[2 * i]).1,
                ) == 1,
            forall|i: int|
                0 <= i < 2 * self.gate.vec_size ==> in_field((#[trigger] r.pairs@[i]).1),
    {
        let vs = self.gate.vec_size;
        let access_wire = Wire { gate: self.gate_index, input: self.gate.wires_access_index() };
        let access_f = witness.get_wire(access_wire);
        proof {
            lemma_lookup_in_field(witness.entries@, access_wire);
        }
        let access_index = access_f as usize;
        let mut result = GeneratedValues::new();
        let mut i: usize = 0;
        while i < vs
            invariant
                i <= vs,
                vs == self.gate.vec_size,
                self.gate.wf(),
                vs <= P,
                access_f == lookup(witness.entries@, Wire { gate: self.gate_index, input: 0 }),
                access_index == access_f as int,
                access_index < vs,
                in_field(access_f),
                result.pairs@.len() == 2 * i,
                forall|ii: int|
                    0 <= ii < i ==> (#[trigger] result.pairs@[2 * ii]).0.gate == self.gate_index
                        && result.pairs@[2 * ii].0.input as int == dummy_slot(
                        vs as int,
                        self.gate.ext_degree as int,
                        ii,
                    ) && result.pairs@[2 * ii + 1].0.gate == self.gate_index && result.pairs@[2
                        * ii + 1].0.input as int == match_slot(
                        vs as int,
                        self.gate.ext_degree as int,
                        ii,
                    ),
                forall|ii: int|
                    0 <= ii < i ==> (#[trigger] result.pairs@[2 * ii + 1]).1 == (if ii
                        == access_index as int {
                        1u64
                    } else {
                        0u64
                    }),
                forall|ii: int|
                    0 <= ii < i && ii == access_index as int ==> (#[trigger] result.pairs@[2
                        * ii]).1 == 1u64,
                forall|ii: int|
                    0 <= ii < i && ii != access_index as int ==> fmul(
                        fsub(ii as u64, access_f),
                        (#[trigger] result.pairs@[2 * ii]).1,
                    ) == 1,
                forall|ii: int| 0 <= ii < 2 * i ==> in_field((#[trigger] result.pairs@[ii]).1),
            decreases vs - i,
        {
            let ghost old_pairs = result.pairs@;
            let dummy_wire = Wire {
                gate: self.gate_index,
                input: self.gate.wire_equality_dummy_for_index(i),
            };
            let match_wire = Wire {
                gate: self.gate_index,
                input: self.gate.wire_index_matches_for_index(i),
            };
            if i == access_index {
                result.set_wire(dummy_wire, 1);
                result.set_wire(match_wire, 1);
            } else {
                let diff = field_sub(field_reduce(i as u64), access_f);
                proof {
                    assert(freduce(i as u64) == i as u64);
                    assert(diff != 0u64);
                }
                let inv = field_inv(diff);
                result.set_wire(dummy_wire, inv);
                result.set_wire(match_wire, 0);
            }
            proof {
                assert(result.pairs@[2 * (i as int)].0 == dummy_wire);
                assert(result.pairs@[2 * (i as int) + 1].0 == match_wire);
                assert(dummy_wire.gate == self.gate_index && dummy_wire.input as int == dummy_slot(
                    vs as int,
                    self.gate.ext_degree as int,
                    i as int,
                ));
                assert(match_wire.gate == self.gate_index && match_wire.input as int == match_slot(
                    vs as int,
                    self.gate.ext_degree as int,
                    i as int,
                ));
                assert forall|ii: int| 0 <= ii < i implies (#[trigger] result.pairs@[2 * ii]).0
                    == old_pairs[2 * ii].0 && result.pairs@[2 * ii].1 == old_pairs[2 * ii].1
                    && result.pairs@[2 * ii + 1].0 == old_pairs[2 * ii + 1].0 && result.pairs@[2
                    * ii + 1].1 == old_pairs[2 * ii + 1].1 by {}
            }
            i += 1;
        }
        result
    }
}

/// The correctness boundary of the encoding: the polynomial constraints
/// alone do not force the access index into `[0, vec_size)`. If the index
/// wire holds a residue that no list position reduces to, setting every
/// index-matches flag to 0 and every dummy to the inverse of the
/// difference satisfies all constraints — with no condition at all on the
/// element to compare. The range is enforced only by the generator's
/// precondition.
pub proof fn lemma_out_of_range_index_unconstrained(vs: int, d: int, w: Seq<u64>)
    requires
        1 <= vs <= P,
        1 <= d,
        row_wf(vs, d, w),
        forall|i: int| 0 <= i < vs ==> #[trigger] w[match_slot(vs, d, i)] == 0u64,
        forall|i: int|
            0 <= i < vs ==> fmul(
                fsub(i as u64, w[access_index_slot()]),
                #[trigger] w[dummy_slot(vs, d, i)],
            ) == 1,
    ensures
        forall|k: int|
            0 <= k < num_constraints_spec(vs, d) ==> #[trigger] base_constraint(vs, d, w, k)
                == 0u64,
{
    assert forall|k: int| 0 <= k < num_constraints_spec(vs, d) implies #[trigger] base_constraint(
        vs,
        d,
        w,
        k,
    ) == 0u64 by {
        lemma_decode(vs, d, k);
        let i = k / (d + 2);
        let r = k % (d + 2);
        assert(freduce(i as u64) == i as u64);
        let diff = fsub(i as u64, w[access_index_slot()]);
        assert(w[match_slot(vs, d, i)] == 0u64);
        assert(fmul(diff, w[dummy_slot(vs, d, i)]) == 1);
        lemma_zero_ops(diff);
        if r >= 2 {
            lemma_zero_ops(fsub(w[item_slot(d, i, r - 2)], w[elt_slot(r - 2)]));
        }
    }
}

/// Generator round-trip: a row whose primary wires select a matching
/// element and whose auxiliary wires carry exactly what `run_once`
/// produced satisfies every constraint.
pub proof fn lemma_generated_row_satisfies(
    vs: int,
    d: int,
    w: Seq<u64>,
    a: int,
    pairs: Seq<(Wire, u64)>,
)
    requires
        1 <= vs <= P,
        1 <= d,
        row_wf(vs, d, w),
        0 <= a < vs,
        w[access_index_slot()] == a as u64,
        pairs.len() == 2 * vs,
        forall|i: int|
            0 <= i < vs ==> (#[trigger] pairs[2 * i + 1]).1 == (if i == a {
                1u64
            } else {
                0u64
            }),
        forall|i: int| 0 <= i < vs && i == a ==> (#[trigger] pairs[2 * i]).1 == 1u64,
        forall|i: int|
            0 <= i < vs && i != a ==> fmul(fsub(i as u64, a as u64), (#[trigger] pairs[2 * i]).1)
                == 1,
        forall|i: int|
            0 <= i < vs ==> #[trigger] w[dummy_slot(vs, d, i)] == pairs[2 * i].1 && w[match_slot(
                vs,
                d,
                i,
            )] == pairs[2 * i + 1].1,
        forall|j: int| 0 <= j < d ==> #[trigger] w[item_slot(d, a, j)] == w[elt_slot(j)],
    ensures
        forall|k: int|
            0 <= k < num_constraints_spec(vs, d) ==> #[trigger] base_constraint(vs, d, w, k)
                == 0u64,
{
    assert forall|i: int| 0 <= i < vs implies #[trigger] w[match_slot(vs, d, i)] == (if i == a {
        1u64
    } else {
        0u64
    }) by {
        assert(w[dummy_slot(vs, d, i)] == pairs[2 * i].1 && w[match_slot(vs, d, i)] == pairs[2 * i
            + 1].1);
        assert(pairs[2 * i + 1].1 == (if i == a {
            1u64
        } else {
            0u64
        }));
    }
    assert forall|i: int| 0 <= i < vs && i != a implies fmul(
        fsub(i as u64, a as u64),
        #[trigger] w[dummy_slot(vs, d, i)],
    ) == 1 by {
        assert(w[dummy_slot(vs, d, i)] == pairs[2 * i].1 && w[match_slot(vs, d, i)] == pairs[2 * i
            + 1].1);
        assert(fmul(fsub(i as u64, a as u64), pairs[2 * i].1) == 1);
    }
    assert(w[dummy_slot(vs, d, a)] == pairs[2 * a].1 && w[match_slot(vs, d, a)] == pairs[2 * a
        + 1].1);
    assert(canonical_auxiliary(vs, d, w, a));
    lemma_canonical_row_satisfies(vs, d, w, a);
}

/// The extension values a list of wire targets takes under `env`.
pub open spec fn wire_values(
    ops: Seq<crate::builder::ExtOp>,
    env: Seq<Seq<u64>>,
    d: nat,
    ws: Seq<ExtensionTarget>,
) -> Seq<Seq<u64>> {
    Seq::new(ws.len(), |j: int| op_value(ops, env, d, ws[j].index as int))
}

/// The scalar constraint at flat position `k` of the output, over
/// base-field row values: position `k` belongs to list index `k / (d + 2)`,
/// and within that index the two equality constraints come first, then the
/// `d` coefficients of the value constraint.
pub open spec fn base_constraint(vs: int, d: int, w: Seq<u64>, k: int) -> u64 {
    let i = k / (d + 2);
    let r = k % (d + 2);
    let diff = fsub(freduce(i as u64), w[access_index_slot()]);
    if r == 0 {
        fsub(fmul(diff, w[dummy_slot(vs, d, i)]), fsub(1, w[match_slot(vs, d, i)]))
    } else if r == 1 {
        fmul(w[match_slot(vs, d, i)], diff)
    } else {
        fmul(w[match_slot(vs, d, i)], fsub(w[item_slot(d, i, r - 2)], w[elt_slot(r - 2)]))
    }
}

/// The full constraint sequence over base-field row values.
pub open spec fn base_constraints(vs: int, d: int, w: Seq<u64>) -> Seq<u64> {
    Seq::new(num_constraints_spec(vs, d) as nat, |k: int| base_constraint(vs, d, w, k))
}

/// A full row of canonical field elements for the given shape.
pub open spec fn row_wf(vs: int, d: int, w: Seq<u64>) -> bool {
    &&& w.len() == num_wires_spec(vs, d)
    &&& forall|j: int| 0 <= j < w.len() ==> in_field(#[trigger] w[j])
}

/// The canonical completion of the auxiliary wires for access index `a`:
/// the index-matches flag is 1 exactly on the selected index, the equality
/// dummy is the inverse of `i - a` off it and 1 (by convention) on it.
pub open spec fn canonical_auxiliary(vs: int, d: int, w: Seq<u64>, a: int) -> bool {
    &&& forall|i: int|
        0 <= i < vs ==> #[trigger] w[match_slot(vs, d, i)] == if i == a {
            1u64
        } else {
            0u64
        }
    &&& forall|i: int|
        0 <= i < vs && i != a ==> fmul(
            fsub(i as u64, a as u64),
            #[trigger] w[dummy_slot(vs, d, i)],
        ) == 1
    &&& w[dummy_slot(vs, d, a)] == 1
}

/// Splits a flat constraint position into its list index and its offset
/// within that index's group.
proof fn lemma_decode(vs: int, d: int, k: int)
    requires
        1 <= vs,
        1 <= d,
        0 <= k < num_constraints_spec(vs, d),
    ensures
        0 <= k / (d + 2) < vs,
        0 <= k % (d + 2) < d + 2,
        k == (k / (d + 2)) * (d + 2) + k % (d + 2),
{
    lemma_fundamental_div_mod(k, d + 2);
    lemma_mod_bound(k, d + 2);
    lemma_div_pos_is_pos(k, d + 2);
    assert(vs * (d + 2) == (d + 2) * vs) by (nonlinear_arith);
    lemma_multiply_divide_lt(k, d + 2, vs);
}

/// Satisfaction, positively: a row whose auxiliary wires follow the
/// canonical rule and whose compared element equals the selected list item
/// makes every constraint vanish.
pub proof fn lemma_canonical_row_satisfies(vs: int, d: int, w: Seq<u64>, a: int)
    requires
        1 <= vs <= P,
        1 <= d,
        row_wf(vs, d, w),
        0 <= a < vs,
        w[access_index_slot()] == a as u64,
        canonical_auxiliary(vs, d, w, a),
        forall|j: int| 0 <= j < d ==> #[trigger] w[item_slot(d, a, j)] == w[elt_slot(j)],
    ensures
        forall|k: int|
            0 <= k < num_constraints_spec(vs, d) ==> #[trigger] base_constraint(vs, d, w, k)
                == 0u64,
{
    assert forall|k: int| 0 <= k < num_constraints_spec(vs, d) implies #[trigger] base_constraint(
        vs,
        d,
        w,
        k,
    ) == 0u64 by {
        lemma_decode(vs, d, k);
        let i = k / (d + 2);
        let r = k % (d + 2);
        assert(freduce(i as u64) == i as u64);
        let diff = fsub(i as u64, a as u64);
        if i == a {
            assert(diff == 0u64);
            lemma_zero_ops(w[dummy_slot(vs, d, i)]);
            lemma_zero_ops(1u64);
            if r >= 2 {
                assert(w[item_slot(d, i, r - 2)] == w[elt_slot(r - 2)]);
                lemma_zero_ops(w[match_slot(vs, d, i)]);
            }
        } else {
            assert(w[match_slot(vs, d, i)] == 0u64);
            assert(fmul(diff, w[dummy_slot(vs, d, i)]) == 1);
            lemma_zero_ops(diff);
            if r >= 2 {
                lemma_zero_ops(fsub(w[item_slot(d, i, r - 2)], w[elt_slot(r - 2)]));
            }
        }
    }
}

/// Satisfaction, negatively: with the same canonical completion, if the
/// compared element differs from the selected list item in coefficient `j`,
/// the value constraint for that coefficient is nonzero.
pub proof fn lemma_wrong_element_unsatisfied(vs: int, d: int, w: Seq<u64>, a: int, j: int)
    requires
        1 <= vs <= P,
        1 <= d,
        row_wf(vs, d, w),
        0 <= a < vs,
        w[access_index_slot()] == a as u64,
        canonical_auxiliary(vs, d, w, a),
        0 <= j < d,
        w[item_slot(d, a, j)] != w[elt_slot(j)],
    ensures
        0 <= a * (d + 2) + 2 + j < num_constraints_spec(vs, d),
        base_constraint(vs, d, w, a * (d + 2) + 2 + j) != 0u64,
{
    let k = a * (d + 2) + 2 + j;
    assert(0 <= k && (a + 1) * (d + 2) <= vs * (d + 2) && k < (a + 1) * (d + 2)) by (
    nonlinear_arith)
        requires
            0 <= a < vs,
            1 <= d,
            0 <= j < d,
            k == a * (d + 2) + 2 + j,
    ;
    lemma_fundamental_div_mod_converse(k, d + 2, a, 2 + j);
    assert(freduce(a as u64) == a as u64);
    let item = w[item_slot(d, a, j)];
    let e = w[elt_slot(j)];
    assert((a + 1) * d + 1 + j < (vs + 1) * d + 1 + 2 * vs) by (nonlinear_arith)
        requires
            0 <= a < vs,
            1 <= d,
            0 <= j < d,
    ;
    assert(in_field(item));
    assert(in_field(e));
    assert(base_constraint(vs, d, w, k) == fmul(1, fsub(item, e)));
    assert(fsub(item, e) != 0u64);
    assert(fmul(1, fsub(item, e)) == fsub(item, e));
}

/// A full row of well-formed degree-`d` extension values.
pub open spec fn ext_row_wf(vs: int, d: int, w: Seq<Seq<u64>>) -> bool {
    &&& w.len() == num_wires_spec(vs, d)
    &&& forall|j: int| 0 <= j < w.len() ==> ext_wf(#[trigger] w[j], d as nat)
}

/// The row obtained by embedding every base-field wire into the extension.
pub open spec fn embed_row(w: Seq<u64>, d: nat) -> Seq<Seq<u64>> {
    Seq::new(w.len(), |j: int| ext_embed(w[j], d))
}

/// The constraint at flat position `k`, over extension-valued row data:
/// the same polynomial as `base_constraint`, with every operation taken in
/// the extension ring.
pub open spec fn ext_constraint(vs: int, d: int, w: Seq<Seq<u64>>, k: int) -> Seq<u64> {
    let i = k / (d + 2);
    let r = k % (d + 2);
    let diff = ext_sub_spec(ext_embed(freduce(i as u64), d as nat), w[access_index_slot()]);
    if r == 0 {
        ext_sub_spec(
            ext_mul_spec(diff, w[dummy_slot(vs, d, i)], d as nat),
            ext_sub_spec(ext_embed(1, d as nat), w[match_slot(vs, d, i)]),
        )
    } else if r == 1 {
        ext_mul_spec(w[match_slot(vs, d, i)], diff, d as nat)
    } else {
        ext_mul_spec(
            w[match_slot(vs, d, i)],
            ext_sub_spec(w[item_slot(d, i, r - 2)], w[elt_slot(r - 2)]),
            d as nat,
        )
    }
}

/// The full constraint sequence over extension-valued row data.
pub open spec fn ext_constraints(vs: int, d: int, w: Seq<Seq<u64>>) -> Seq<Seq<u64>> {
    Seq::new(num_constraints_spec(vs, d) as nat, |k: int| ext_constraint(vs, d, w, k))
}

/// Cross-context consistency, base against extension: evaluating the
/// constraints on an embedded row gives exactly the embedded base-field
/// constraint values.
pub proof fn lemma_base_ext_consistent(vs: int, d: int, w: Seq<u64>)
    requires
        1 <= vs,
        1 <= d,
        row_wf(vs, d, w),
    ensures
        ext_constraints(vs, d, embed_row(w, d as nat)) == embed_row(
            base_constraints(vs, d, w),
            d as nat,
        ),
{
    let w2 = embed_row(w, d as nat);
    assert forall|k: int| 0 <= k < num_constraints_spec(vs, d) implies #[trigger] ext_constraint(
        vs,
        d,
        w2,
        k,
    ) == ext_embed(base_constraint(vs, d, w, k), d as nat) by {
        lemma_decode(vs, d, k);
        let i = k / (d + 2);
        let r = k % (d + 2);
        assert((i + 1) * d + 1 + (r - 2) < (vs + 1) * d + 1 + 2 * vs && (vs + 1) * d + 1 + vs + i
            < (vs + 1) * d + 1 + 2 * vs) by (nonlinear_arith)
            requires
                0 <= i < vs,
                1 <= d,
                0 <= r < d + 2,
        ;
        let cur = freduce(i as u64);
        let diff = fsub(cur, w[access_index_slot()]);
        lemma_ext_sub_embed(cur, w[access_index_slot()], d as nat);
        if r == 0 {
            lemma_ext_mul_embed(diff, w[dummy_slot(vs, d, i)], d as nat);
            lemma_ext_sub_embed(1, w[match_slot(vs, d, i)], d as nat);
            lemma_ext_sub_embed(
                fmul(diff, w[dummy_slot(vs, d, i)]),
                fsub(1, w[match_slot(vs, d, i)]),
                d as nat,
            );
        } else if r == 1 {
            lemma_ext_mul_embed(w[match_slot(vs, d, i)], diff, d as nat);
        } else {
            lemma_ext_sub_embed(w[item_slot(d, i, r - 2)], w[elt_slot(r - 2)], d as nat);
            lemma_ext_mul_embed(
                w[match_slot(vs, d, i)],
                fsub(w[item_slot(d, i, r - 2)], w[elt_slot(r - 2)]),
                d as nat,
            );
        }
    }
    assert(ext_constraints(vs, d, w2) =~= embed_row(base_constraints(vs, d, w), d as nat));
}

} // verus!
