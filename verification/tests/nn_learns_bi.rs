use tetani::digital::{BinOp, BinaryIndividual};
use tetani::genetic::{ImitationTask, Individual, Population};
use tetani::neural::NeuralNetwork;

#[test]
fn nn_search_keeps_its_best_and_stops_in_time() {
    for _ in 0..50 {
        let bi = BinaryIndividual::new(BinOp::OR, 2);
        let bin_task = ImitationTask::new(bi);
        let max_fitness = bin_task.max_fitness();
        assert_eq!(max_fitness, 4);
        let mut pop_nn: Population<NeuralNetwork, ImitationTask<BinaryIndividual>> =
            Population::new(bin_task, 500);
        pop_nn.add_unrated_individual(NeuralNetwork::new_null(2, 1, 1));
        pop_nn.add_unrated_individual(NeuralNetwork::new_muta(2, 1, 1, 1));
        pop_nn.add_unrated_individual(NeuralNetwork::new_muta(2, 1, 1, 3));
        pop_nn.add_unrated_individual(NeuralNetwork::new_muta(2, 1, 1, 4));
        pop_nn.rate_unrated_individuals();
        assert_eq!(pop_nn.len(), 4);
        let start = pop_nn.best_fitness();
        assert!(start >= 1);

        pop_nn.learn_task(500);
        assert!(pop_nn.len() <= 500);
        assert!(pop_nn.best_fitness() >= start);
        assert!(pop_nn.best_fitness() == max_fitness || pop_nn.len() == 500);
        assert_eq!(pop_nn.best().print(), "NeuralNetwork (net_depth 1)\n");
        if pop_nn.best_fitness() == max_fitness {
            let best = pop_nn.best();
            assert_eq!(best.calculate_output(&vec![false, false]), vec![false]);
            assert_eq!(best.calculate_output(&vec![true, false]), vec![true]);
            assert_eq!(best.calculate_output(&vec![false, true]), vec![true]);
            assert_eq!(best.calculate_output(&vec![true, true]), vec![true]);
        }
    }
}
