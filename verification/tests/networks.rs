use tetani::genetic::Individual;
use tetani::neural::{Layer, NeuralNetwork};

#[test]
fn null_layer_never_fires() {
    let lay = Layer::new(3, 2);
    assert_eq!(lay.in_size, 3);
    assert_eq!(lay.output_size(), 2);
    assert_eq!(lay.calculate_output(&vec![true, true, true]), vec![false, false]);
    assert_eq!(lay.calculate_output(&vec![false, false, false]), vec![false, false]);
    let none = Layer::new(3, 0);
    assert_eq!(none.calculate_output(&vec![true, false, true]), Vec::<bool>::new());
}

#[test]
fn a_unit_fires_where_the_weighted_sum_exceeds_the_threshold() {
    let mut lay = Layer::new(2, 2);
    // unit 0: 3 * a0 + 2 * a1 - 2 > 0
    lay.adjust(0, 0, 3);
    lay.adjust(0, 1, 2);
    lay.adjust(0, 2, 2);
    // unit 1: -1 * a0 - (-1) > 0
    lay.adjust(1, 0, -1);
    lay.adjust(1, 2, -1);
    assert_eq!(lay.calculate_output(&vec![false, false]), vec![false, true]);
    assert_eq!(lay.calculate_output(&vec![true, false]), vec![true, false]);
    assert_eq!(lay.calculate_output(&vec![false, true]), vec![false, true]);
    assert_eq!(lay.calculate_output(&vec![true, true]), vec![true, false]);
    let copy = lay.clone();
    assert_eq!(copy.calculate_output(&vec![true, false]), vec![true, false]);
}

#[test]
fn adjusting_wraps_around_the_range_of_a_weight() {
    let mut lay = Layer::new(1, 1);
    for _ in 0..31 {
        lay.adjust(0, 0, 4);
    }
    // the weight is 124
    assert_eq!(lay.calculate_output(&vec![true]), vec![true]);
    lay.adjust(0, 0, 3);
    // the weight is 127
    assert_eq!(lay.calculate_output(&vec![true]), vec![true]);
    lay.adjust(0, 0, 1);
    // the weight wrapped to -128
    assert_eq!(lay.calculate_output(&vec![true]), vec![false]);
    lay.adjust(0, 0, -1);
    // and back to 127
    assert_eq!(lay.calculate_output(&vec![true]), vec![true]);
}

#[test]
fn layer_mutation_changes_one_value_by_one_to_four() {
    let mut weaker = false;
    let mut stronger = false;
    for _ in 0..400 {
        let mut lay = Layer::new(1, 1);
        lay.mutate();
        // one of: weight in 1..=4, weight in -4..=-1, threshold in 1..=4,
        // threshold in -4..=-1; only the last and the first make the unit fire
        let on = lay.calculate_output(&vec![true])[0];
        let off = lay.calculate_output(&vec![false])[0];
        if off {
            // the threshold fell: undo it by at most four steps
            assert!(on);
            let mut steps = 0;
            while lay.calculate_output(&vec![false])[0] {
                lay.adjust(0, 1, 1);
                steps += 1;
            }
            assert!(steps >= 1 && steps <= 4);
            weaker = true;
        } else if on {
            let mut steps = 0;
            while lay.calculate_output(&vec![true])[0] {
                lay.adjust(0, 0, -1);
                steps += 1;
            }
            assert!(steps >= 1 && steps <= 4);
            stronger = true;
        }
    }
    assert!(weaker && stronger);
}

#[test]
fn null_network_is_false_on_every_input() {
    for depth in 1..4 {
        let nn = NeuralNetwork::new_null(2, 1, depth);
        assert_eq!(nn.input_size(), 2);
        assert_eq!(nn.output_size(), 1);
        assert_eq!(nn.print(), format!("NeuralNetwork (net_depth {})\n", depth));
        for input in [[false, false], [true, false], [false, true], [true, true]] {
            assert_eq!(nn.calculate_output(&input.to_vec()), vec![false]);
        }
    }
}

#[test]
fn mutated_network_keeps_its_sizes() {
    let nn = NeuralNetwork::new_muta(4, 2, 3, 25);
    assert_eq!(nn.input_size(), 4);
    assert_eq!(nn.output_size(), 2);
    assert_eq!(nn.print(), "NeuralNetwork (net_depth 3)\n");
    assert_eq!(nn.calculate_output(&vec![true, false, true, false]).len(), 2);
    let copy = nn.clone();
    for input in [[false; 4], [true; 4], [true, false, false, true]] {
        assert_eq!(copy.calculate_output(&input.to_vec()), nn.calculate_output(&input.to_vec()));
    }
    let untouched = NeuralNetwork::new_muta(2, 0, 1, 0);
    assert_eq!(untouched.output_size(), 0);
    assert_eq!(untouched.calculate_output(&vec![true, true]), Vec::<bool>::new());
}

#[test]
fn network_mutation_can_switch_an_output_on() {
    let mut switched = false;
    for _ in 0..200 {
        let mut nn = NeuralNetwork::new_null(1, 1, 1);
        nn.mutate();
        if nn.calculate_output(&vec![true])[0] {
            switched = true;
        }
    }
    assert!(switched);
}
