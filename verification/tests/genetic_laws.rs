use foc_algorithm::Binary32;
use foc_algorithm::GeneticAlgorithmParam;
use foc_algorithm::GeneticAlgorithmState;
use foc_algorithm::crossover_mutate;

fn b(x: f32) -> Binary32 {
    Binary32::from_bits(x.to_bits())
}

fn f(x: Binary32) -> f32 {
    f32::from_bits(x.to_bits())
}

#[test]
fn best_candidate_is_the_first_of_the_fittest() {
    let mut state = GeneticAlgorithmState::new(b(0.0), b(-1.0));
    let candidates = [(1.0, 0.5), (2.0, 0.25), (3.0, 0.5), (4.0, f32::NAN), (5.0, 0.75)];
    let expected = [1.0, 1.0, 1.0, 1.0, 5.0];
    for (i, (value, fitness)) in candidates.iter().enumerate() {
        let before = state;
        state.apply_candidate(b(*value), b(*fitness));
        assert_eq!(f(state.best_value), expected[i]);
        assert!(state.best_fitness >= before.best_fitness);
        let once = state;
        state.apply_candidate(b(*value), b(*fitness));
        assert_eq!(state, once);
    }
    state.reset(b(9.0), b(8.0));
    assert_eq!(state, GeneticAlgorithmState::new(b(9.0), b(8.0)));
}

#[test]
fn children_lie_in_range_whatever_the_order_of_parents() {
    let param = GeneticAlgorithmParam { value_min: b(-1.0), value_max: b(2.0), mutation_step: b(0.5) };
    for i in -10..=10 {
        let (first, second, signal) = (i as f32 * 0.4, 1.0 - i as f32 * 0.1, i as f32 * 0.2);
        let child = crossover_mutate(&param, b(first), b(second), b(signal));
        assert!(child >= b(-1.0) && child <= b(2.0));
        assert_eq!(child, crossover_mutate(&param, b(second), b(first), b(signal)));
    }
    assert_eq!(f(crossover_mutate(&param, b(1.0), b(0.5), b(-0.5))), 0.5);
}
