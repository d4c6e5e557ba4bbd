use foc_algorithm::Binary32;
use foc_algorithm::GeneticAlgorithmParam;
use foc_algorithm::GeneticAlgorithmState;
use foc_algorithm::crossover_mutate;

fn b(x: f32) -> Binary32 {
    Binary32::from_bits(x.to_bits())
}

fn f(x: Binary32) -> f32 {
    f32::from_bits(x.to_bits())
}

fn near(actual: Binary32, expected: f32, tolerance: f32) {
    let actual = f(actual);
    assert!((actual - expected).abs() <= tolerance, "{actual} != {expected}");
}

#[test]
fn genetic_algorithm_matches_c_reference() {
    let param = GeneticAlgorithmParam {
        value_min: b(0.0),
        value_max: b(10.0),
        mutation_step: b(2.0),
    };
    let mut state = GeneticAlgorithmState::new(b(1.0), b(0.5));
    near(crossover_mutate(&param, b(2.0), b(4.0), b(0.5)), 4.0, 1e-6);
    near(crossover_mutate(&param, b(10.0), b(10.0), b(2.0)), 10.0, 1e-6);
    state.apply_candidate(b(3.0), b(0.4));
    near(state.best_value, 1.0, 1e-6);
    state.apply_candidate(b(5.0), b(0.8));
    near(state.best_value, 5.0, 1e-6);
    near(state.best_fitness, 0.8, 1e-6);
}
