use random_access_gate::builder::CircuitBuilder;
use random_access_gate::extension::ext_embed_vec;
use random_access_gate::field::{field_inv, field_sub, P};
use random_access_gate::random_access::RandomAccessGate;

/// Returns the base-field local wires for a random access gate given the
/// list of extension values (as coefficient vectors), the access index, and
/// the element to compare, completing the auxiliary wires canonically.
fn get_base_wires(orig_vec: &[Vec<u64>], access_index: usize, element_to_compare: &[u64]) -> Vec<u64> {
    let vec_size = orig_vec.len();
    let mut v: Vec<u64> = Vec::new();
    v.push(access_index as u64);
    v.extend(element_to_compare.iter().copied());
    for item in orig_vec {
        v.extend(item.iter().copied());
    }
    let mut equality_dummy_vals: Vec<u64> = Vec::new();
    let mut index_matches_vals: Vec<u64> = Vec::new();
    for i in 0..vec_size {
        if i == access_index {
            equality_dummy_vals.push(1);
            index_matches_vals.push(1);
        } else {
            equality_dummy_vals.push(field_inv(field_sub(i as u64 % P, access_index as u64 % P)));
            index_matches_vals.push(0);
        }
    }
    v.extend(equality_dummy_vals);
    v.extend(index_matches_vals);
    v
}

/// Embeds every base wire into the degree-`d` extension.
fn embed_wires(wires: &[u64], d: usize) -> Vec<Vec<u64>> {
    wires.iter().map(|&x| ext_embed_vec(x, d)).collect()
}

#[test]
fn wire_indices() {
    let gate = RandomAccessGate::new(3, 4);

    assert_eq!(gate.wires_access_index(), 0);
    assert_eq!(gate.wires_element_to_compare(), 1..5);
    assert_eq!(gate.wires_list_item(0), 5..9);
    assert_eq!(gate.wires_list_item(2), 13..17);
    assert_eq!(gate.wire_equality_dummy_for_index(0), 17);
    assert_eq!(gate.wire_equality_dummy_for_index(2), 19);
    assert_eq!(gate.wire_index_matches_for_index(0), 20);
    assert_eq!(gate.wire_index_matches_for_index(2), 22);
}

#[test]
fn low_degree() {
    let gate = RandomAccessGate::new(4, 4);
    assert_eq!(gate.degree(), 2);
    assert_eq!(gate.num_constraints(), 4 * (2 + 4));
    assert_eq!(gate.num_wires(), (4 + 1) * 4 + 1 + 2 * 4);
    let orig_vec = vec![vec![1, 2, 3, 4], vec![5, 6, 7, 8], vec![9, 10, 11, 12], vec![0, 1, 0, 1]];
    let wires = get_base_wires(&orig_vec, 2, &orig_vec[2]);
    let constraints = gate.eval_unfiltered_base(&wires);
    assert_eq!(constraints.len(), gate.num_constraints());
}

#[test]
fn eval_fns() {
    let gate = RandomAccessGate::new(4, 4);
    let orig_vec = vec![vec![1, 2, 3, 4], vec![5, 6, 7, 8], vec![9, 10, 11, 12], vec![0, 1, 0, 1]];
    let wires = get_base_wires(&orig_vec, 1, &orig_vec[1]);
    let base = gate.eval_unfiltered_base(&wires);
    let embedded = embed_wires(&wires, 4);
    let ext = gate.eval_unfiltered(&embedded);

    // Base results, embedded into the extension, equal the extension results
    // on the embedded assignment.
    assert_eq!(base.len(), ext.len());
    for k in 0..base.len() {
        assert_eq!(ext[k], ext_embed_vec(base[k], 4));
    }

    // The symbolic circuit, evaluated on the same assignment, reproduces the
    // extension results — also on a non-embedded extension assignment.
    let mut builder = CircuitBuilder::new(4);
    let mut targets = Vec::new();
    for j in 0..wires.len() {
        targets.push(builder.input_wire(j));
    }
    let constraint_targets = gate.eval_unfiltered_recursively(&mut builder, &targets);
    let values = builder.evaluate(&embedded);
    assert_eq!(constraint_targets.len(), ext.len());
    for k in 0..ext.len() {
        assert_eq!(values[constraint_targets[k].index], ext[k]);
    }

    let mut ext_wires: Vec<Vec<u64>> = Vec::new();
    for j in 0..wires.len() {
        let j64 = j as u64;
        ext_wires.push(vec![j64 % P, (j64 * 5 + 1) % P, (j64 * 7 + 3) % P, (12 - j64 % 13) % P]);
    }
    let ext2 = gate.eval_unfiltered(&ext_wires);
    let mut builder2 = CircuitBuilder::new(4);
    let mut targets2 = Vec::new();
    for j in 0..wires.len() {
        targets2.push(builder2.input_wire(j));
    }
    let constraint_targets2 = gate.eval_unfiltered_recursively(&mut builder2, &targets2);
    let values2 = builder2.evaluate(&ext_wires);
    for k in 0..ext2.len() {
        assert_eq!(values2[constraint_targets2[k].index], ext2[k]);
    }
}

#[test]
fn test_gate_constraint() {
    let orig_vec = vec![vec![3, 1, 4, 1], vec![5, 9, 2, 6], vec![8, 7, 11, 0]];
    let access_index = 1;
    let gate = RandomAccessGate::new(3, 4);

    let good_element_to_compare = orig_vec[access_index].clone();
    let good_wires = embed_wires(&get_base_wires(&orig_vec, access_index, &good_element_to_compare), 4);
    let bad_element_to_compare = vec![10, 2, 4, 12];
    let bad_wires = embed_wires(&get_base_wires(&orig_vec, access_index, &bad_element_to_compare), 4);

    assert!(
        gate.eval_unfiltered(&good_wires).iter().all(|x| x.iter().all(|&c| c == 0)),
        "Gate constraints are not satisfied."
    );
    assert!(
        !gate.eval_unfiltered(&bad_wires).iter().all(|x| x.iter().all(|&c| c == 0)),
        "Gate constraints are satisfied but shouold not be."
    );
}
