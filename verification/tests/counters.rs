use tetani::digital::{
    compare_and, compare_and_row, eq_bitvector, get_null_bitvector, get_rand_bitvector,
    increment_and_row, increment_bitvector, power, AndPseudoMatrixValue,
};

fn number_of(bits: &Vec<bool>) -> u32 {
    let mut n = 0;
    for (i, b) in bits.iter().enumerate() {
        if *b {
            n += 1 << i;
        }
    }
    n
}

fn number_of_row(row: &Vec<AndPseudoMatrixValue>) -> u32 {
    let mut n = 0;
    let mut weight = 1;
    for t in row.iter() {
        n += weight
            * match t {
                AndPseudoMatrixValue::NEITHER => 0,
                AndPseudoMatrixValue::REQUIRED => 1,
                AndPseudoMatrixValue::COMPLEMENT => 2,
            };
        weight *= 3;
    }
    n
}

#[test]
fn binary_counter_visits_every_number_in_order() {
    for n in 0..=12usize {
        let mut v = get_null_bitvector(n);
        let mut seen = vec![v.clone()];
        assert_eq!(v.len(), n);
        assert_eq!(number_of(&v), 0);
        for k in 1..(1u32 << n) {
            increment_bitvector(&mut v);
            assert_eq!(v.len(), n);
            assert_eq!(number_of(&v), k);
            seen.push(v.clone());
        }
        assert_eq!(seen.len(), 1 << n);
        seen.sort();
        seen.dedup();
        assert_eq!(seen.len(), 1 << n);
        assert!(v.iter().all(|b| *b));
    }
}

#[test]
fn binary_counter_ripples_the_carry() {
    let mut v = vec![true, true, false, true];
    increment_bitvector(&mut v);
    assert_eq!(v, vec![false, false, true, true]);
    increment_bitvector(&mut v);
    assert_eq!(v, vec![true, false, true, true]);
}

#[test]
fn ternary_counter_visits_every_row_in_order() {
    for n in 0..=6usize {
        let mut row = AndPseudoMatrixValue::new_null(n);
        assert_eq!(row.len(), n);
        assert!(row.iter().all(|t| *t == AndPseudoMatrixValue::NEITHER));
        let mut numbers = vec![number_of_row(&row)];
        let cardinality = 3u32.pow(n as u32);
        for k in 1..cardinality {
            increment_and_row(&mut row);
            assert_eq!(row.len(), n);
            assert_eq!(number_of_row(&row), k);
            // every row but the first names an input
            assert!(row.iter().any(|t| *t != AndPseudoMatrixValue::NEITHER));
            numbers.push(k);
        }
        assert_eq!(numbers.len() as u32, cardinality);
        assert_eq!(numbers.len() as u32 - 1, cardinality - 1);
        assert!(row.iter().all(|t| *t == AndPseudoMatrixValue::COMPLEMENT));
    }
}

#[test]
fn ternary_counter_steps_from_absent_to_required_to_complement() {
    let mut row = AndPseudoMatrixValue::new_null(2);
    increment_and_row(&mut row);
    assert_eq!(row, vec![AndPseudoMatrixValue::REQUIRED, AndPseudoMatrixValue::NEITHER]);
    increment_and_row(&mut row);
    assert_eq!(row, vec![AndPseudoMatrixValue::COMPLEMENT, AndPseudoMatrixValue::NEITHER]);
    increment_and_row(&mut row);
    assert_eq!(row, vec![AndPseudoMatrixValue::NEITHER, AndPseudoMatrixValue::REQUIRED]);
}

#[test]
fn product_term_matches_required_and_complemented_inputs() {
    let row = vec![
        AndPseudoMatrixValue::REQUIRED,
        AndPseudoMatrixValue::NEITHER,
        AndPseudoMatrixValue::COMPLEMENT,
    ];
    assert!(compare_and_row(&row, &vec![true, false, false]));
    assert!(compare_and_row(&row, &vec![true, true, false]));
    assert!(!compare_and_row(&row, &vec![false, true, false]));
    assert!(!compare_and_row(&row, &vec![true, true, true]));
}

#[test]
fn compare_and_needs_a_set_bit_and_all_of_them_covered() {
    assert!(compare_and(&vec![true, false], &vec![true, true]));
    assert!(compare_and(&vec![true, true], &vec![true, true]));
    assert!(!compare_and(&vec![true, true], &vec![true, false]));
    assert!(!compare_and(&vec![false, false], &vec![true, true]));
    assert!(!compare_and(&vec![], &vec![]));
}

#[test]
fn eq_bitvector_compares_bit_by_bit() {
    assert!(eq_bitvector(&vec![], &vec![]));
    assert!(eq_bitvector(&vec![true, false], &vec![true, false]));
    assert!(!eq_bitvector(&vec![true, false], &vec![true, true]));
    assert!(!eq_bitvector(&vec![false], &vec![true]));
}

#[test]
fn power_of_two_and_three() {
    assert_eq!(power(2, 0), 1);
    assert_eq!(power(2, 10), 1024);
    assert_eq!(power(3, 0), 1);
    assert_eq!(power(3, 4), 81);
    assert_eq!(power(1, 63), 1);
}

#[test]
fn random_bitvector_has_the_length_and_both_values() {
    assert_eq!(get_rand_bitvector(0).len(), 0);
    let v = get_rand_bitvector(4096);
    assert_eq!(v.len(), 4096);
    assert!(v.iter().any(|b| *b));
    assert!(v.iter().any(|b| !*b));
}
