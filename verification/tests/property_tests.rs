use random_access_gate::extension::{ext_embed_vec, ext_mul, ext_sub, W};
use random_access_gate::field::{field_add, field_inv, field_mul, field_reduce, field_sub, P};
use random_access_gate::random_access::RandomAccessGate;
use random_access_gate::witness::{PartialWitness, Wire};

#[test]
fn field_inverses() {
    for a in 1..P {
        let r = field_inv(a);
        assert_eq!(field_mul(a, r), 1);
        assert_eq!(field_mul(r, a), 1);
    }
}

#[test]
fn field_ops() {
    assert_eq!(field_add(7, 9), 3);
    assert_eq!(field_sub(2, 5), 10);
    assert_eq!(field_mul(5, 9), 6);
    assert_eq!(field_reduce(40), 1);
}

#[test]
fn extension_wraparound() {
    // x * x == W mod (x^2 - W).
    let x = vec![0, 1];
    assert_eq!(ext_mul(&x, &x), vec![W, 0]);
    // Multiplication restricted to embedded values is base multiplication.
    let a = ext_embed_vec(3, 2);
    let b = ext_embed_vec(4, 2);
    assert_eq!(ext_mul(&a, &b), ext_embed_vec(field_mul(3, 4), 2));
    assert_eq!(ext_sub(&a, &b), ext_embed_vec(field_sub(3, 4), 2));
}

#[test]
fn generator_concrete_scenario() {
    // vec_size = 3, extension degree 1, list [5, 9, 2], access index 1.
    let gate = RandomAccessGate::new(3, 1);
    let mut witness = PartialWitness::new();
    witness.set_wire(Wire { gate: 0, input: gate.wires_access_index() }, 1);
    witness.set_wire(Wire { gate: 0, input: 1 }, 9);
    let list = [5u64, 9, 2];
    for (i, &x) in list.iter().enumerate() {
        witness.set_wire(Wire { gate: 0, input: gate.wires_list_item(i).start }, x);
    }

    let mut gens = gate.generators(0, &Vec::new());
    assert_eq!(gens.len(), 1);
    let gen = gens.remove(0);

    let deps = gen.dependencies();
    assert_eq!(deps.len(), 5);
    for (j, w) in deps.iter().enumerate() {
        assert_eq!(*w, Wire { gate: 0, input: j });
    }

    let out = gen.run_once(&witness);
    assert_eq!(out.pairs.len(), 6);
    // equality_dummy = [inverse(-1), 1, inverse(1)], index_matches = [0, 1, 0].
    let expected_dummy = [field_inv(field_sub(0, 1)), 1, field_inv(field_sub(2, 1))];
    let expected_matches = [0u64, 1, 0];
    for i in 0..3 {
        let (dw, dv) = out.pairs[2 * i];
        let (mw, mv) = out.pairs[2 * i + 1];
        assert_eq!(dw, Wire { gate: 0, input: gate.wire_equality_dummy_for_index(i) });
        assert_eq!(mw, Wire { gate: 0, input: gate.wire_index_matches_for_index(i) });
        assert_eq!(dv, expected_dummy[i]);
        assert_eq!(mv, expected_matches[i]);
    }
    assert_eq!(expected_dummy[0], 12);

    // With element_to_compare = 9 all constraints vanish.
    let row = vec![1, 9, 5, 9, 2, expected_dummy[0], expected_dummy[1], expected_dummy[2], 0, 1, 0];
    assert!(gate.eval_unfiltered_base(&row).iter().all(|&c| c == 0));

    // With element_to_compare = 5 the value constraint at the selected
    // index is nonzero.
    let bad_row = vec![1, 5, 5, 9, 2, expected_dummy[0], expected_dummy[1], expected_dummy[2], 0, 1, 0];
    let constraints = gate.eval_unfiltered_base(&bad_row);
    assert!(!constraints.iter().all(|&c| c == 0));
    // k = 1 * (1 + 2) + 2 is the value constraint of index 1; 9 - 5 = 4.
    assert_eq!(constraints[5], 4);
}

#[test]
fn generator_round_trip() {
    // For every access index of a longer list, the generator's output is a
    // satisfying completion whenever the compared element matches.
    let vs = 4usize;
    let d = 2usize;
    let gate = RandomAccessGate::new(vs, d);
    let list: [[u64; 2]; 4] = [[3, 1], [4, 1], [5, 9], [2, 6]];
    for access in 0..vs {
        let mut witness = PartialWitness::new();
        witness.set_wire(Wire { gate: 7, input: 0 }, access as u64);
        for j in 0..d {
            witness.set_wire(Wire { gate: 7, input: 1 + j }, list[access][j]);
        }
        for i in 0..vs {
            let range = gate.wires_list_item(i);
            for j in 0..d {
                witness.set_wire(Wire { gate: 7, input: range.start + j }, list[i][j]);
            }
        }
        let gen = gate.generators(7, &Vec::new()).remove(0);
        let out = gen.run_once(&witness);
        assert_eq!(out.pairs.len(), 2 * vs);

        let mut row = vec![0u64; gate.num_wires()];
        row[0] = access as u64;
        for j in 0..d {
            row[1 + j] = list[access][j];
        }
        for i in 0..vs {
            let range = gate.wires_list_item(i);
            for j in 0..d {
                row[range.start + j] = list[i][j];
            }
        }
        for (w, v) in out.pairs.iter() {
            row[w.input] = *v;
        }
        assert!(gate.eval_unfiltered_base(&row).iter().all(|&c| c == 0));
    }
}

#[test]
fn boundary_single_entry() {
    // vec_size = 1 forces access_index = 0; the auxiliary wires are both 1
    // and the constraints hold exactly when the element matches the single
    // list entry.
    let gate = RandomAccessGate::new(1, 1);
    assert_eq!(gate.num_wires(), (1 + 1) * 1 + 1 + 2 * 1);
    let mut witness = PartialWitness::new();
    witness.set_wire(Wire { gate: 0, input: 0 }, 0);
    witness.set_wire(Wire { gate: 0, input: 1 }, 8);
    witness.set_wire(Wire { gate: 0, input: 2 }, 8);
    let gen = gate.generators(0, &Vec::new()).remove(0);
    let out = gen.run_once(&witness);
    assert_eq!(out.pairs.len(), 2);
    assert_eq!(out.pairs[0].1, 1);
    assert_eq!(out.pairs[1].1, 1);

    let row = vec![0, 8, 8, 1, 1];
    assert!(gate.eval_unfiltered_base(&row).iter().all(|&c| c == 0));
    let bad_row = vec![0, 8, 7, 1, 1];
    assert!(!gate.eval_unfiltered_base(&bad_row).iter().all(|&c| c == 0));
}

#[test]
fn shape_formulas() {
    for vs in 1..6usize {
        for d in 1..5usize {
            let gate = RandomAccessGate::new(vs, d);
            assert_eq!(gate.num_wires(), (vs + 1) * d + 1 + 2 * vs);
            assert_eq!(gate.num_constraints(), vs * (2 + d));
            assert_eq!(gate.degree(), 2);
            assert_eq!(gate.num_constants(), 0);
            assert_eq!(gate.wires_element_to_compare(), 1..d + 1);
            assert_eq!(gate.start_of_intermediate_wires(), (vs + 1) * d + 1);
            for i in 0..vs {
                let start = (i + 1) * d + 1;
                assert_eq!(gate.wires_list_item(i), start..start + d);
                assert_eq!(gate.wire_equality_dummy_for_index(i), (vs + 1) * d + 1 + i);
                assert_eq!(gate.wire_index_matches_for_index(i), (vs + 1) * d + 1 + vs + i);
            }
        }
    }
}

#[test]
fn witness_single_assignment() {
    let mut witness = PartialWitness::new();
    witness.set_wire(Wire { gate: 2, input: 3 }, 11);
    witness.set_wire(Wire { gate: 2, input: 4 }, 5);
    assert_eq!(witness.get_wire(Wire { gate: 2, input: 3 }), 11);
    assert_eq!(witness.get_wire(Wire { gate: 2, input: 4 }), 5);
}

#[test]
fn out_of_range_index_is_unconstrained() {
    // The constraints themselves do not enforce the index range: a row
    // whose index wire holds a value no list position reduces to satisfies
    // everything with all flags at 0, whatever the compared element is.
    let gate = RandomAccessGate::new(3, 1);
    let access: u64 = 7;
    for elt in [0u64, 4, 9] {
        let row = vec![
            access,
            elt,
            5,
            9,
            2,
            field_inv(field_sub(0, access)),
            field_inv(field_sub(1, access)),
            field_inv(field_sub(2, access)),
            0,
            0,
            0,
        ];
        assert!(gate.eval_unfiltered_base(&row).iter().all(|&c| c == 0));
    }
}
