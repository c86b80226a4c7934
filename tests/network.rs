use neuroevo::network::{NetError, NodeType, Signal, NN};

#[derive(Clone, Copy, Debug, PartialEq)]
struct Real(f64);

impl Signal for Real {
    // The specification side of each operation: the value it returns.
    fn spec_zero() -> Self {
        Self::zero()
    }
    fn spec_one() -> Self {
        Self::one()
    }
    fn spec_plus(self, other: Self) -> Self {
        self.plus(other)
    }
    fn spec_times(self, other: Self) -> Self {
        self.times(other)
    }
    fn spec_leaky_relu(self) -> Self {
        self.leaky_relu()
    }

    fn zero() -> Self {
        Real(0.0)
    }
    fn one() -> Self {
        Real(1.0)
    }
    fn plus(self, other: Self) -> Self {
        Real(self.0 + other.0)
    }
    fn times(self, other: Self) -> Self {
        Real(self.0 * other.0)
    }
    fn leaky_relu(self) -> Self {
        if self.0 >= 0.0 {
            self
        } else {
            Real(self.0 * 0.1)
        }
    }
}

fn constant(w: f64) -> impl Fn() -> Real {
    move || Real(w)
}

fn numbered(net: &NN<Real>) -> Vec<f64> {
    (0..net.num_connections()).map(|i| net.connection(i).weight.0).collect()
}

#[test]
fn new_rejects_single_layer() {
    let r = NN::new(vec![3], &constant(1.0));
    assert_eq!(r.err(), Some(NetError::InvalidTopology));
}

#[test]
fn new_rejects_empty_and_zero_width() {
    assert_eq!(NN::new(vec![], &constant(1.0)).err(), Some(NetError::InvalidTopology));
    assert_eq!(NN::new(vec![2, 0, 1], &constant(1.0)).err(), Some(NetError::InvalidTopology));
    assert_eq!(NN::new(vec![0, 2], &constant(1.0)).err(), Some(NetError::InvalidTopology));
}

#[test]
fn topology_of_two_by_two() {
    let net = NN::new(vec![2, 2], &constant(1.0)).unwrap();
    assert_eq!(net.num_nodes(), 5);
    assert_eq!(net.num_inputs(), 2);
    assert_eq!(net.num_outputs(), 2);
    assert_eq!(net.num_layers(), 2);
    assert_eq!(net.node(0).node_type, NodeType::Bias);
    assert_eq!(net.node(1).node_type, NodeType::Input);
    assert_eq!(net.node(2).node_type, NodeType::Input);
    assert_eq!(net.node(3).node_type, NodeType::Output);
    assert_eq!(net.node(4).node_type, NodeType::Output);
    assert_eq!(net.node(4).layer, 1);
    let edges: Vec<(usize, usize)> =
        (0..net.num_connections()).map(|i| (net.connection(i).input, net.connection(i).output)).collect();
    assert_eq!(edges, vec![(0, 3), (0, 4), (1, 3), (1, 4), (2, 3), (2, 4)]);
}

#[test]
fn topology_invariants_with_hidden_layers() {
    let sizes = vec![3, 4, 2, 2];
    let net = NN::new(sizes.clone(), &constant(0.5)).unwrap();
    assert_eq!(net.num_nodes(), 1 + sizes.iter().sum::<usize>());
    let mut last = None;
    for i in 0..net.num_connections() {
        let c = net.connection(i);
        let src = net.node(c.input);
        let dst = net.node(c.output);
        assert_ne!(c.input, c.output);
        assert_ne!(src.node_type, NodeType::Output);
        match src.node_type {
            NodeType::Bias => {
                assert_ne!(dst.node_type, NodeType::Bias);
                assert_ne!(dst.node_type, NodeType::Input);
            }
            _ => assert_eq!(dst.layer, src.layer + 1),
        }
        if let Some(prev) = last {
            assert!(prev < (c.input, c.output));
        }
        last = Some((c.input, c.output));
    }
    // bias: 8 hidden and output nodes; then 3*4 + 4*2 + 2*2
    assert_eq!(net.num_connections(), 8 + 12 + 8 + 4);
}

#[test]
fn feed_forward_rejects_wrong_length() {
    let net = NN::new(vec![2, 2], &constant(1.0)).unwrap();
    assert_eq!(net.feed_forward(&vec![Real(1.0)]).err(), Some(NetError::InputSizeMismatch));
    assert_eq!(
        net.feed_forward(&vec![Real(1.0), Real(1.0), Real(1.0)]).err(),
        Some(NetError::InputSizeMismatch)
    );
    assert_eq!(numbered(&net), vec![1.0; 6]);
}

#[test]
fn feed_forward_symmetric_outputs() {
    let net = NN::new(vec![2, 2], &constant(1.0)).unwrap();
    let out = net.feed_forward(&vec![Real(0.0), Real(0.0)]).unwrap();
    assert_eq!(out.len(), 2);
    assert_eq!(out[0], out[1]);
    assert_eq!(out[0], Real(1.0));
}

#[test]
fn feed_forward_is_repeatable() {
    let net = NN::new(vec![2, 3, 1], &constant(-0.7)).unwrap();
    let a = net.feed_forward(&vec![Real(0.3), Real(-2.0)]).unwrap();
    let b = net.feed_forward(&vec![Real(0.3), Real(-2.0)]).unwrap();
    assert_eq!(a, b);
}

#[test]
fn feed_forward_exact_value() {
    // one input, one hidden, one output, all weights 2:
    // hidden = 2*1 + 2*x, output = 2*1 + 2*relu(hidden)
    let net = NN::new(vec![1, 1, 1], &constant(2.0)).unwrap();
    let out = net.feed_forward(&vec![Real(3.0)]).unwrap();
    assert_eq!(out, vec![Real(2.0 + 2.0 * 8.0)]);
    let neg = net.feed_forward(&vec![Real(-6.0)]).unwrap();
    // hidden = -10, rectified -1, output = 2 - 2 = 0
    assert_eq!(neg, vec![Real(0.0)]);
}

#[test]
fn feed_forward_negative_output_is_scaled() {
    let net = NN::new(vec![1, 1], &constant(-1.0)).unwrap();
    let out = net.feed_forward(&vec![Real(4.0)]).unwrap();
    // -1 - 4 = -5, rectified to -0.5
    assert_eq!(out, vec![Real(-0.5)]);
}

#[test]
fn recombine_takes_weights_by_split() {
    let a = NN::new(vec![2, 2], &constant(1.0)).unwrap();
    let b = NN::new(vec![2, 2], &constant(-1.0)).unwrap();
    let child = a.recombine(&b, 2).unwrap();
    assert_eq!(numbered(&child), vec![1.0, 1.0, 1.0, -1.0, -1.0, -1.0]);
    for i in 0..child.num_connections() {
        assert_eq!(child.connection(i).input, a.connection(i).input);
        assert_eq!(child.connection(i).output, a.connection(i).output);
    }
    let all_a = a.recombine(&b, 10).unwrap();
    assert_eq!(numbered(&all_a), vec![1.0; 6]);
    assert_eq!(numbered(&a), vec![1.0; 6]);
    assert_eq!(numbered(&b), vec![-1.0; 6]);
}

#[test]
fn recombine_rejects_incompatible() {
    let a = NN::new(vec![2, 2], &constant(1.0)).unwrap();
    let b = NN::new(vec![2, 3], &constant(1.0)).unwrap();
    assert_eq!(a.recombine(&b, 0).err(), Some(NetError::IncompatibleGenomes));
    assert_eq!(a.crossover(&b, &constant(0.0)).err(), Some(NetError::IncompatibleGenomes));
}

#[test]
fn crossover_weights_come_from_parents_or_init() {
    let a = NN::new(vec![3, 2, 2], &constant(1.0)).unwrap();
    let b = NN::new(vec![3, 2, 2], &constant(-1.0)).unwrap();
    for _ in 0..20 {
        let child = a.crossover(&b, &constant(0.25)).unwrap();
        let w = numbered(&child);
        assert_eq!(w.len(), a.num_connections());
        assert!(w.iter().all(|&x| x == 1.0 || x == -1.0 || x == 0.25));
        // the first weight is always at or before the split
        assert!(w[0] == 1.0 || w[0] == 0.25);
    }
}

#[test]
fn duplicate_keeps_everything() {
    let a = NN::new(vec![2, 1, 2], &constant(0.5)).unwrap();
    let d = a.duplicate();
    assert_eq!(numbered(&d), numbered(&a));
    assert_eq!(d.num_nodes(), a.num_nodes());
}

#[test]
fn feed_forward_on_integers() {
    // two inputs, two outputs, unit weights: each output is 1 + x1 + x2
    let net: NN<u64> = Network_u64(vec![2, 2], 1);
    assert_eq!(net.feed_forward(&vec![0, 0]).unwrap(), vec![1, 1]);
    assert_eq!(net.feed_forward(&vec![2, 5]).unwrap(), vec![8, 8]);
    // one hidden node, weights 3: hidden = 3 + 3x, output = 3 + 3 * hidden
    let deep: NN<u64> = Network_u64(vec![1, 1, 1], 3);
    assert_eq!(deep.feed_forward(&vec![2]).unwrap(), vec![3 + 3 * 9]);
}

#[allow(non_snake_case)]
fn Network_u64(sizes: Vec<usize>, w: u64) -> NN<u64> {
    NN::new(sizes, &move || w).unwrap()
}

#[test]
fn mutate_at_follows_the_draw() {
    let mut net = NN::new(vec![2, 2], &constant(1.0)).unwrap();
    net.mutate_at(3, 7, Real(0.5));
    assert_eq!(numbered(&net), vec![1.0; 6]);
    net.mutate_at(3, 200, Real(0.5));
    assert_eq!(numbered(&net), vec![1.0, 1.0, 1.0, 0.5, 1.0, 1.0]);
    net.mutate_at(0, 0, Real(-0.25));
    assert_eq!(numbered(&net), vec![-0.25, 1.0, 1.0, 0.5, 1.0, 1.0]);
}
