use neuroevo::network::{NetError, NN, Signal};
use neuroevo::population::Population;

#[derive(Clone, Copy, Debug, PartialEq)]
struct Real(f64);

impl Signal for Real {
    // The specification side of each operation: the value it returns.
    fn spec_zero() -> Self {
        Self::zero()
    }
    fn spec_one() -> Self {
        Self::one()
    }
    fn spec_plus(self, other: Self) -> Self {
        self.plus(other)
    }
    fn spec_times(self, other: Self) -> Self {
        self.times(other)
    }
    fn spec_leaky_relu(self) -> Self {
        self.leaky_relu()
    }

    fn zero() -> Self {
        Real(0.0)
    }
    fn one() -> Self {
        Real(1.0)
    }
    fn plus(self, other: Self) -> Self {
        Real(self.0 + other.0)
    }
    fn times(self, other: Self) -> Self {
        Real(self.0 * other.0)
    }
    fn leaky_relu(self) -> Self {
        if self.0 >= 0.0 { self } else { Real(self.0 * 0.1) }
    }
}

fn weights(net: &NN<Real>) -> Vec<f64> {
    (0..net.num_connections()).map(|i| net.connection(i).weight.0).collect()
}

fn unit() -> Real {
    Real(1.0)
}

#[test]
fn new_population_starts_empty_handed() {
    let p = Population::new(vec![2, 2], 5, 256, &unit).unwrap();
    assert_eq!(p.get_pop_size(), 5);
    assert_eq!(p.get_generation(), 0);
    assert!(!p.get_has_solved());
    assert_eq!(p.get_best_fitness(), 0);
    assert_eq!(p.get_total_fitness(), 0);
    for i in 0..5 {
        assert_eq!(p.get_fitness(i), 0);
    }
}

#[test]
fn new_population_rejects_bad_topology() {
    assert_eq!(Population::new(vec![2], 3, 1, &unit).err(), Some(NetError::InvalidTopology));
}

#[test]
fn best_fitness_never_decreases() {
    let mut p = Population::new(vec![2, 2], 3, 256, &unit).unwrap();
    p.evaluate_generation(&vec![5, 9, 2]);
    assert_eq!(p.get_best_fitness(), 9);
    assert_eq!(p.get_total_fitness(), 16);
    p.evaluate_generation(&vec![1, 1, 1]);
    assert_eq!(p.get_best_fitness(), 9);
    p.evaluate_generation(&vec![1, 12, 1]);
    assert_eq!(p.get_best_fitness(), 12);
    assert!(!p.get_has_solved());
}

#[test]
fn best_individual_is_a_copy() {
    let mut p = Population::new(vec![1, 1], 2, 100, &unit).unwrap();
    p.evaluate_generation(&vec![3, 7]);
    assert_eq!(weights(p.get_best_individual()), weights(p.get_individual(1)));
    p.produce_new_gen(&|| Real(5.0));
    assert_eq!(p.get_best_fitness(), 7);
    assert_eq!(weights(p.get_best_individual()), vec![1.0, 1.0]);
}

#[test]
fn solved_flag_is_sticky() {
    let mut p = Population::new(vec![2, 2], 2, 256, &unit).unwrap();
    p.record_fitness(0, 256);
    assert!(p.get_has_solved());
    p.evaluate_generation(&vec![0, 0]);
    assert!(p.get_has_solved());
}

#[test]
fn selection_picks_positive_fitness() {
    let mut p = Population::new(vec![2, 2], 4, 256, &unit).unwrap();
    p.evaluate_generation(&vec![0, 0, 3, 0]);
    for _ in 0..50 {
        assert_eq!(p.select_parent(), 2);
    }
}

#[test]
fn selection_with_zero_fitness_falls_back() {
    let p = Population::new(vec![2, 2], 4, 256, &unit).unwrap();
    for _ in 0..50 {
        assert!(p.select_parent() < 4);
    }
}

#[test]
fn produce_new_gen_keeps_shape() {
    let mut p = Population::new(vec![2, 3, 2], 6, 256, &unit).unwrap();
    p.evaluate_generation(&vec![1, 2, 3, 4, 5, 6]);
    p.produce_new_gen(&|| Real(0.0));
    assert_eq!(p.get_generation(), 1);
    assert_eq!(p.get_pop_size(), 6);
    assert_eq!(p.get_fitness(5), 6);
    for i in 0..6 {
        let net = p.get_individual(i);
        assert_eq!(net.num_nodes(), 8);
        assert!(weights(net).iter().all(|&w| w == 1.0 || w == 0.0));
    }
}

#[test]
fn pick_by_fitness_accepts_below_fitness() {
    let mut p = Population::new(vec![2, 2], 4, 256, &unit).unwrap();
    p.evaluate_generation(&vec![0, 5, 10, 2]);
    // index 5 % 4 = 1 (fitness 5); threshold 14 % 10 = 4 < 5
    assert_eq!(p.pick_by_fitness(5, 14), Some(1));
    // threshold 15 % 10 = 5, not below 5
    assert_eq!(p.pick_by_fitness(5, 15), None);
    // index 0 has fitness 0: never accepted
    assert_eq!(p.pick_by_fitness(8, 0), None);
    assert_eq!(p.pick_by_fitness(2, 9), Some(2));
}

#[test]
fn pick_uniform_is_draw_modulo_size() {
    let p = Population::new(vec![2, 2], 4, 256, &unit).unwrap();
    assert_eq!(p.pick_uniform(0), 0);
    assert_eq!(p.pick_uniform(7), 3);
    assert_eq!(p.pick_uniform(u64::MAX), 3);
}

#[test]
fn best_individual_is_first_with_top_score() {
    let mut p = Population::new(vec![1, 1], 3, 100, &unit).unwrap();
    p.record_fitness(0, 1);
    p.evaluate_generation(&vec![4, 9, 9]);
    assert_eq!(p.get_best_fitness(), 9);
    assert_eq!(weights(p.get_best_individual()), weights(p.get_individual(1)));
}
