use tetani::digital::{
    and_func_to_str, bitvec2maxterm, bitvec2minterm_str, calculate_result, get_null_bitvector,
    increment_bitvector, print_bitvector, print_limited_bitvector, AndPseudoMatrixValue, BinOp,
    BinaryIndividual, ProgrammableLogicArray, TruthTable,
};
use tetani::genetic::Individual;

fn all_inputs(n: usize) -> Vec<Vec<bool>> {
    let mut v = get_null_bitvector(n);
    let mut all = vec![v.clone()];
    for _ in 1..(1usize << n) {
        increment_bitvector(&mut v);
        all.push(v.clone());
    }
    all
}

#[test]
fn gates_by_number_and_name() {
    let names = ["AND", "OR", "XOR", "NAND", "NOR", "XNOR"];
    let gates = [BinOp::AND, BinOp::OR, BinOp::XOR, BinOp::NAND, BinOp::NOR, BinOp::XNOR];
    for n in 0..6u32 {
        assert_eq!(BinOp::from_u32(n), gates[n as usize]);
        assert_eq!(BinOp::from_u32(n).to_str(), names[n as usize]);
    }
}

#[test]
fn reference_evaluation_of_xor_and_nor() {
    assert_eq!(calculate_result(&BinOp::XOR, &vec![true, false]), vec![true]);
    assert_eq!(calculate_result(&BinOp::NOR, &vec![false, false]), vec![true]);
}

#[test]
fn every_gate_on_every_pair_of_bits() {
    let table = [
        (BinOp::AND, [false, false, false, true]),
        (BinOp::OR, [false, true, true, true]),
        (BinOp::XOR, [false, true, true, false]),
        (BinOp::NAND, [true, true, true, false]),
        (BinOp::NOR, [true, false, false, false]),
        (BinOp::XNOR, [true, false, false, true]),
    ];
    for (gate, expected) in table.iter() {
        for (k, input) in all_inputs(2).iter().enumerate() {
            assert_eq!(calculate_result(gate, input), vec![expected[k]]);
        }
    }
}

#[test]
fn gate_pairs_the_two_halves_of_the_input() {
    let input = vec![true, false, true, true, true, false];
    assert_eq!(calculate_result(&BinOp::AND, &input), vec![true, false, false]);
    assert_eq!(calculate_result(&BinOp::XOR, &input), vec![false, true, true]);
    assert_eq!(calculate_result(&BinOp::OR, &vec![]), Vec::<bool>::new());
}

#[test]
fn fixed_reference_function_reports_its_sizes() {
    let bi = BinaryIndividual::new(BinOp::NAND, 4);
    assert_eq!(bi.input_size(), 4);
    assert_eq!(bi.output_size(), 2);
    assert_eq!(bi.in_cardinality(), 16);
    assert_eq!(bi.calculate_output(&vec![true, true, true, false]), vec![false, true]);
    assert_eq!(
        bi.print(),
        "BinaryIndividual: operation_type: NAND, in_size: 4, out_size: 2, in_cardinality: 16\n"
    );
    let copy = bi.clone();
    assert_eq!(copy.print(), bi.print());
}

#[test]
fn null_logic_array_is_false_on_every_input() {
    let pla = ProgrammableLogicArray::new_null(2, 1);
    assert_eq!(pla.input_size(), 2);
    assert_eq!(pla.output_size(), 1);
    let inputs = all_inputs(2);
    assert_eq!(inputs.len(), 4);
    for input in inputs.iter() {
        assert_eq!(pla.calculate_output(input), vec![false]);
    }
    assert_eq!(pla.print(), "out0 = \n");
}

#[test]
fn logic_array_column_size_is_three_to_the_inputs_less_one() {
    assert_eq!(ProgrammableLogicArray::calculate_or_column_size(0), 0);
    assert_eq!(ProgrammableLogicArray::calculate_or_column_size(1), 2);
    assert_eq!(ProgrammableLogicArray::calculate_or_column_size(2), 8);
    assert_eq!(ProgrammableLogicArray::calculate_or_column_size(3), 26);
}

#[test]
fn logic_array_without_inputs_has_no_terms() {
    let pla = ProgrammableLogicArray::new_null(0, 2);
    assert_eq!(pla.calculate_output(&vec![]), vec![false, false]);
    assert_eq!(pla.print(), "out0 = \nout1 = \n");
}

#[test]
fn logic_array_sums_the_products_it_switches_on() {
    // positions stand for the rows 1..=8 of two trits: position 0 is `a0`,
    // position 1 is `a0'`, position 2 is `a1`, position 4 is `a0'a1`
    let mut pla = ProgrammableLogicArray::new_null(2, 2);
    pla.flip(0, 0);
    pla.flip(1, 4);
    pla.flip(1, 6);
    assert_eq!(pla.print(), "out0 = a0\nout1 = a0'a1 + a0a1'\n");
    assert_eq!(pla.calculate_output(&vec![false, false]), vec![false, false]);
    assert_eq!(pla.calculate_output(&vec![true, false]), vec![true, true]);
    assert_eq!(pla.calculate_output(&vec![false, true]), vec![false, true]);
    assert_eq!(pla.calculate_output(&vec![true, true]), vec![true, false]);
    pla.flip(0, 0);
    assert_eq!(pla.print(), "out0 = \nout1 = a0'a1 + a0a1'\n");
    assert_eq!(pla.calculate_output(&vec![true, false]), vec![false, true]);
    let copy = pla.clone();
    assert_eq!(copy.print(), pla.print());
    assert_eq!(
        pla.print2(),
        "or matrix column 0:0 0 0 0 0 0 0 0 \nor matrix column 1:0 0 0 0 1 0 1 0 \n"
    );
}

#[test]
fn logic_array_mutation_switches_exactly_one_term() {
    for _ in 0..200 {
        let mut pla = ProgrammableLogicArray::new_null(2, 2);
        pla.mutate();
        let text = pla.print2();
        assert_eq!(text.matches('1').count(), 2); // one in a column's number, one bit
        assert_eq!(pla.input_size(), 2);
        assert_eq!(pla.output_size(), 2);
    }
    let pla = ProgrammableLogicArray::new_mutated(2, 1, 0);
    assert_eq!(pla.print(), "out0 = \n");
    let pla = ProgrammableLogicArray::new_mutated(3, 2, 7);
    assert_eq!(pla.input_size(), 3);
    assert_eq!(pla.output_size(), 2);
    let ones = pla.print2().replace("or matrix column 1", "").matches('1').count();
    assert!(ones <= 7 && ones % 2 == 1);
    let pla = ProgrammableLogicArray::new_rand(3, 2);
    assert_eq!(pla.input_size(), 3);
    assert_eq!(pla.output_size(), 2);
    assert_eq!(pla.calculate_output(&vec![true, false, true]).len(), 2);
}

#[test]
fn null_truth_table_is_false_on_every_input() {
    let tt = TruthTable::new_null(3, 2);
    assert_eq!(tt.input_size(), 3);
    assert_eq!(tt.output_size(), 2);
    assert_eq!(tt.get_input_space_cardinality(), 8);
    for input in all_inputs(3).iter() {
        assert_eq!(tt.calculate_output(input), vec![false, false]);
    }
    assert_eq!(tt.print(), "out0 = \nout1 = \n");
}

#[test]
fn empty_truth_table_has_no_outputs() {
    let tt = TruthTable::new_empt(2);
    assert_eq!(tt.input_size(), 2);
    assert_eq!(tt.output_size(), 0);
    assert_eq!(tt.calculate_output(&vec![true, false]), Vec::<bool>::new());
    assert_eq!(tt.print(), "");
}

#[test]
fn truth_table_without_inputs_has_one_entry() {
    let mut tt = TruthTable::new_null(0, 1);
    assert_eq!(tt.get_input_space_cardinality(), 1);
    assert_eq!(tt.calculate_output(&vec![]), vec![false]);
    tt.flip(0, 0);
    assert_eq!(tt.calculate_output(&vec![]), vec![true]);
}

#[test]
fn truth_table_is_indexed_by_the_number_of_the_input() {
    let mut tt = TruthTable::new_null(2, 2);
    tt.flip(0, 1);
    tt.flip(1, 2);
    tt.flip(1, 3);
    assert_eq!(tt.calculate_output(&vec![false, false]), vec![false, false]);
    assert_eq!(tt.calculate_output(&vec![true, false]), vec![true, false]);
    assert_eq!(tt.calculate_output(&vec![false, true]), vec![false, true]);
    assert_eq!(tt.calculate_output(&vec![true, true]), vec![false, true]);
    assert_eq!(tt.print(), "out0 = a0a1'\nout1 = a0'a1 + a0a1\n");
    tt.flip(1, 2);
    assert_eq!(tt.calculate_output(&vec![false, true]), vec![false, false]);
    let copy = tt.clone();
    assert_eq!(copy.print(), tt.print());
}

#[test]
fn truth_table_mutation_inverts_exactly_one_entry() {
    for _ in 0..200 {
        let mut tt = TruthTable::new_null(2, 2);
        tt.mutate();
        let set: usize = all_inputs(2)
            .iter()
            .map(|input| tt.calculate_output(input).iter().filter(|b| **b).count())
            .sum();
        assert_eq!(set, 1);
        tt.mutate();
        let set: usize = all_inputs(2)
            .iter()
            .map(|input| tt.calculate_output(input).iter().filter(|b| **b).count())
            .sum();
        assert!(set == 0 || set == 2);
    }
    let tt = TruthTable::new_muta(2, 1, 0);
    assert_eq!(tt.print(), "out0 = \n");
    let tt = TruthTable::new_muta(3, 2, 5);
    let set: usize = all_inputs(3)
        .iter()
        .map(|input| tt.calculate_output(input).iter().filter(|b| **b).count())
        .sum();
    assert!(set <= 5 && set % 2 == 1);
    let tt = TruthTable::new_rand(3, 2);
    assert_eq!(tt.input_size(), 3);
    assert_eq!(tt.output_size(), 2);
}

#[test]
fn mutation_draws_every_position() {
    let mut seen = [false; 4];
    for _ in 0..400 {
        let mut tt = TruthTable::new_null(2, 1);
        tt.mutate();
        for (k, input) in all_inputs(2).iter().enumerate() {
            if tt.calculate_output(input)[0] {
                seen[k] = true;
            }
        }
    }
    assert_eq!(seen, [true; 4]);
}

#[test]
fn texts_of_terms() {
    let row = vec![
        AndPseudoMatrixValue::REQUIRED,
        AndPseudoMatrixValue::NEITHER,
        AndPseudoMatrixValue::COMPLEMENT,
    ];
    assert_eq!(and_func_to_str(&row), "a0a2'");
    assert_eq!(and_func_to_str(&AndPseudoMatrixValue::new_null(3)), "");
    let mut long = AndPseudoMatrixValue::new_null(12);
    long[10] = AndPseudoMatrixValue::REQUIRED;
    long[11] = AndPseudoMatrixValue::COMPLEMENT;
    assert_eq!(and_func_to_str(&long), "a10a11'");
    assert_eq!(bitvec2minterm_str(&vec![true, false, true]), "a0a1'a2");
    assert_eq!(bitvec2minterm_str(&vec![]), "");
    assert_eq!(bitvec2maxterm(&vec![true, false, true]), "(a0' + a1 + a2')");
    assert_eq!(bitvec2maxterm(&vec![false]), "(a0)");
    assert_eq!(bitvec2maxterm(&vec![]), "()");
}

#[test]
fn texts_of_bit_vectors() {
    assert_eq!(print_bitvector(&[true, false, true]), "1 0 1 \n");
    assert_eq!(print_bitvector(&[]), "\n");
    assert_eq!(print_limited_bitvector(&[true, false, true], 32), "1 0 1 \n");
    assert_eq!(print_limited_bitvector(&[true, false, true], 1), "1 0 1 ...(3 bits)\n");
    assert_eq!(print_limited_bitvector(&[true, false, true], 0), "1 0 ...(3 bits)\n");
    assert_eq!(print_limited_bitvector(&[true, false], 0), "1 0 ...(2 bits)\n");
    assert_eq!(print_limited_bitvector(&[true], 0), "1 \n");
    let long = vec![false; 40];
    let mut expected = "0 ".repeat(34);
    expected.push_str("...(40 bits)\n");
    assert_eq!(print_limited_bitvector(&long, 32), expected);
}
