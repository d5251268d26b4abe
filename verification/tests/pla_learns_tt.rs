use tetani::digital::{ProgrammableLogicArray, TruthTable};
use tetani::genetic::{ImitationTask, Individual, Population};

fn pla_can_learn_tt(in_size: usize, out_size: usize, max_generation: usize) {
    let tt = TruthTable::new_rand(in_size, out_size);
    assert_eq!(tt.input_size(), in_size);
    assert_eq!(tt.output_size(), out_size);
    let tt_imitation_task = ImitationTask::new(tt);
    let max_fitness = tt_imitation_task.max_fitness();

    let indi = ProgrammableLogicArray::new_null(in_size, out_size);
    let mut pop_pla: Population<ProgrammableLogicArray, ImitationTask<TruthTable>> =
        Population::new(tt_imitation_task, max_generation);

    pop_pla.add_unrated_individual(indi);
    pop_pla.rate_unrated_individuals();
    assert_eq!(pop_pla.len(), 1);

    pop_pla.learn_task(max_generation);
    assert!(pop_pla.len() <= max_generation);
    assert!(pop_pla.best().print().starts_with("out0 = "));
    assert_eq!(max_fitness, pop_pla.best_fitness());
}

#[test]
fn pla_can_learn_tt_in1_out1() {
    for _ in 0..10000 {
        pla_can_learn_tt(1, 1, 30);
    }
}

#[test]
fn pla_can_learn_tt_in1_out2() {
    for _ in 0..10000 {
        pla_can_learn_tt(1, 2, 60);
    }
}

#[test]
fn pla_can_learn_tt_in2_out2() {
    for _ in 0..10000 {
        pla_can_learn_tt(2, 2, 200);
    }
}

#[test]
fn pla_can_learn_tt_in2_out1() {
    for _ in 0..10000 {
        pla_can_learn_tt(2, 1, 100);
    }
}
