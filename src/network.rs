//! Genomes: fixed-topology feed-forward networks whose connection weights
//! are the only thing that evolves.
use vstd::prelude::*;

use crate::chance::random_u64;

verus! {

/// The role of a node in a network.
#[derive(Clone, Copy, PartialEq, Eq, Debug, Structural)]
pub enum NodeType {
    Bias,
    Input,
    Hidden,
    Output,
}

/// A node: its role and the layer it sits in.
#[derive(Clone, Copy, PartialEq, Eq, Debug, Structural)]
pub struct Node {
    pub node_type: NodeType,
    pub layer: usize,
}

/// Why a network could not be built, evaluated or recombined.
#[derive(Clone, Copy, PartialEq, Eq, Debug, Structural)]
pub enum NetError {
    /// Fewer than two layers, or a layer of width zero.
    InvalidTopology,
    /// The input vector's length differs from the network's input count.
    InputSizeMismatch,
    /// The two parents were not built from the same layer sizes.
    IncompatibleGenomes,
}

/// Sum of the layer widths.
pub open spec fn sum(s: Seq<usize>) -> int
    decreases s.len(),
{
    if s.len() == 0 {
        0
    } else {
        sum(s.drop_last()) + s.last()
    }
}

/// Whether a list of layer widths describes a network.
pub open spec fn valid_layer_sizes(s: Seq<usize>) -> bool {
    s.len() >= 2 && forall|i: int| 0 <= i < s.len() ==> s[i] > 0
}

/// The role of every node of layer `l` in a network of `n` layers.
pub open spec fn role_of_layer(l: int, n: int) -> NodeType {
    if l == 0 {
        NodeType::Input
    } else if l == n - 1 {
        NodeType::Output
    } else {
        NodeType::Hidden
    }
}

/// The nodes of the first `k` layers, in order.
pub open spec fn layer_nodes(s: Seq<usize>, k: nat) -> Seq<Node>
    decreases k,
{
    if k == 0 {
        seq![]
    } else {
        let l = k - 1;
        layer_nodes(s, l as nat) + Seq::new(
            s[l] as nat,
            |j: int| Node { node_type: role_of_layer(l, s.len() as int), layer: l as usize },
        )
    }
}

/// The node sequence of a network with layer widths `s`: the bias node,
/// then every layer in order.
pub open spec fn nodes_of(s: Seq<usize>) -> Seq<Node> {
    seq![Node { node_type: NodeType::Bias, layer: 0 }] + layer_nodes(s, s.len())
}

proof fn lemma_layer_nodes_len(s: Seq<usize>, k: nat)
    requires
        k <= s.len(),
    ensures
        layer_nodes(s, k).len() == sum(s.take(k as int)),
    decreases k,
{
    if k > 0 {
        lemma_layer_nodes_len(s, (k - 1) as nat);
        assert(s.take(k as int).drop_last() =~= s.take(k - 1));
    }
}

/// Builds the node sequence for layer widths `s`.
fn build_nodes(s: &Vec<usize>) -> (nodes: Vec<Node>)
    ensures
        nodes@ == nodes_of(s@),
{
    let mut nodes: Vec<Node> = Vec::new();
    nodes.push(Node { node_type: NodeType::Bias, layer: 0 });
    let n = s.len();
    let mut i: usize = 0;
    while i < n
        invariant
            n == s@.len(),
            i <= n,
            nodes@ == seq![Node { node_type: NodeType::Bias, layer: 0 }] + layer_nodes(s@, i as nat),
        decreases n - i,
    {
        let role = if i == 0 {
            NodeType::Input
        } else if i == n - 1 {
            NodeType::Output
        } else {
            NodeType::Hidden
        };
        let ghost before = nodes@;
        let mut j: usize = 0;
        while j < s[i]
            invariant
                n == s@.len(),
                i < n,
                role == role_of_layer(i as int, n as int),
                nodes@ == before + Seq::new(
                    j as nat,
                    |t: int| Node { node_type: role, layer: i },
                ),
                j <= s@[i as int],
            decreases s@[i as int] - j,
        {
            nodes.push(Node { node_type: role, layer: i });
            j += 1;
            assert(nodes@ =~= before + Seq::new(
                j as nat,
                |t: int| Node { node_type: role, layer: i },
            ));
        }
        i += 1;
        assert(nodes@ =~= seq![Node { node_type: NodeType::Bias, layer: 0 }] + layer_nodes(s@, i as nat));
    }
    assert(s@.take(n as int) =~= s@);
    nodes
}


/// A directed, weighted edge between two nodes, given by their indices.
#[derive(Clone, Copy, Debug)]
pub struct Connection<W> {
    pub input: usize,
    pub output: usize,
    pub weight: W,
}

/// Whether a network holds a connection from node `a` to node `b`: the bias
/// feeds every hidden and output node, an input or hidden node feeds every
/// node of the next layer, and an output node feeds nothing.
pub open spec fn links(a: Node, b: Node) -> bool {
    match a.node_type {
        NodeType::Bias => b.node_type != NodeType::Bias && b.node_type != NodeType::Input,
        NodeType::Input | NodeType::Hidden => a.layer + 1 == b.layer,
        NodeType::Output => false,
    }
}

/// The edges from node `i` to the nodes below index `j`, in ascending order.
pub open spec fn row(nodes: Seq<Node>, i: int, j: nat) -> Seq<(int, int)>
    decreases j,
{
    if j == 0 {
        seq![]
    } else {
        let r = row(nodes, i, (j - 1) as nat);
        if links(nodes[i], nodes[j - 1]) {
            r.push((i, j - 1))
        } else {
            r
        }
    }
}

/// The edges out of the nodes below index `i`, ordered by source, then by
/// destination.
pub open spec fn rows(nodes: Seq<Node>, i: nat) -> Seq<(int, int)>
    decreases i,
{
    if i == 0 {
        seq![]
    } else {
        rows(nodes, (i - 1) as nat) + row(nodes, i - 1, nodes.len())
    }
}

/// The edges of a network with node sequence `nodes`, in their stored order.
pub open spec fn edges_of(nodes: Seq<Node>) -> Seq<(int, int)> {
    rows(nodes, nodes.len())
}

/// The source and destination of each connection, in order.
pub open spec fn endpoints<W>(c: Seq<Connection<W>>) -> Seq<(int, int)> {
    c.map_values(|x: Connection<W>| (x.input as int, x.output as int))
}

/// Pointwise facts about a connection sequence over `nodes`: indices in
/// range, every edge allowed by `links`, strictly ascending by source and
/// then destination (so no duplicates and no self loops).
pub open spec fn connections_ok<W>(nodes: Seq<Node>, c: Seq<Connection<W>>) -> bool {
    &&& forall|k: int|
        0 <= k < c.len() ==> {
            &&& #[trigger] c[k].input < nodes.len()
            &&& c[k].output < nodes.len()
            &&& links(nodes[c[k].input as int], nodes[c[k].output as int])
        }
    &&& forall|k1: int, k2: int|
        0 <= k1 < k2 < c.len() ==> #[trigger] c[k1].input < #[trigger] c[k2].input || (
        c[k1].input == c[k2].input && c[k1].output < c[k2].output)
}

/// Builds the connections over `nodes`, each weight drawn from `init`.
fn build_connections<W, F: Fn() -> W>(nodes: &Vec<Node>, init: &F) -> (c: Vec<Connection<W>>)
    requires
        init.requires(()),
    ensures
        endpoints(c@) == edges_of(nodes@),
        connections_ok(nodes@, c@),
        forall|k: int| 0 <= k < c@.len() ==> init.ensures((), #[trigger] c@[k].weight),
{
    let mut c: Vec<Connection<W>> = Vec::new();
    let n = nodes.len();
    let mut i: usize = 0;
    while i < n
        invariant
            n == nodes@.len(),
            i <= n,
            init.requires(()),
            endpoints(c@) == rows(nodes@, i as nat),
            connections_ok(nodes@, c@),
            forall|k: int| 0 <= k < c@.len() ==> #[trigger] c@[k].input < i,
            forall|k: int| 0 <= k < c@.len() ==> init.ensures((), #[trigger] c@[k].weight),
        decreases n - i,
    {
        let ghost before = endpoints(c@);
        let mut j: usize = 0;
        while j < n
            invariant
                n == nodes@.len(),
                i < n,
                j <= n,
                init.requires(()),
                endpoints(c@) == before + row(nodes@, i as int, j as nat),
                connections_ok(nodes@, c@),
                forall|k: int|
                    0 <= k < c@.len() ==> #[trigger] c@[k].input < i || (c@[k].input == i
                        && c@[k].output < j),
                forall|k: int| 0 <= k < c@.len() ==> init.ensures((), #[trigger] c@[k].weight),
            decreases n - j,
        {
            let src = nodes[i];
            let dst = nodes[j];
            let linked = match src.node_type {
                NodeType::Bias => dst.node_type != NodeType::Bias && dst.node_type
                    != NodeType::Input,
                NodeType::Input | NodeType::Hidden => src.layer < dst.layer && dst.layer - src.layer
                    == 1,
                NodeType::Output => false,
            };
            if linked {
                let w = init();
                let ghost prev = c@;
                c.push(Connection { input: i, output: j, weight: w });
                assert(endpoints(c@) =~= endpoints(prev).push((i as int, j as int)));
            }
            j += 1;
        }
        i += 1;
    }
    c
}


/// What evaluation needs of a weight or a node value: the constants zero
/// and one, addition, multiplication, and the leaky rectifier (identity on
/// non-negative values, one tenth of the value below zero).
pub trait Signal: Copy + Sized {
    spec fn spec_zero() -> Self;

    spec fn spec_one() -> Self;

    spec fn spec_plus(self, other: Self) -> Self;

    spec fn spec_times(self, other: Self) -> Self;

    spec fn spec_leaky_relu(self) -> Self;

    fn zero() -> (r: Self)
        ensures
            r == Self::spec_zero(),
    ;

    fn one() -> (r: Self)
        ensures
            r == Self::spec_one(),
    ;

    fn plus(self, other: Self) -> (r: Self)
        ensures
            r == self.spec_plus(other),
    ;

    fn times(self, other: Self) -> (r: Self)
        ensures
            r == self.spec_times(other),
    ;

    fn leaky_relu(self) -> (r: Self)
        ensures
            r == self.spec_leaky_relu(),
    ;
}

/// Unsigned integers as signals: arithmetic wraps modulo 2^64, and with no
/// value below zero the rectifier is the identity.
impl Signal for u64 {
    open spec fn spec_zero() -> u64 {
        0
    }

    open spec fn spec_one() -> u64 {
        1
    }

    open spec fn spec_plus(self, other: u64) -> u64 {
        self.wrapping_add(other)
    }

    open spec fn spec_times(self, other: u64) -> u64 {
        self.wrapping_mul(other)
    }

    open spec fn spec_leaky_relu(self) -> u64 {
        self
    }

    fn zero() -> (r: u64) {
        0
    }

    fn one() -> (r: u64) {
        1
    }

    fn plus(self, other: u64) -> (r: u64) {
        self.wrapping_add(other)
    }

    fn times(self, other: u64) -> (r: u64) {
        self.wrapping_mul(other)
    }

    fn leaky_relu(self) -> (r: u64) {
        self
    }
}

/// Node values before propagation: one at the bias, the inputs in order at
/// the input nodes, zero everywhere else.
pub open spec fn initial_values<W: Signal>(nodes: Seq<Node>, inputs: Seq<W>) -> Seq<W> {
    Seq::new(
        nodes.len(),
        |i: int|
            if i == 0 {
                W::spec_one()
            } else if i <= inputs.len() {
                inputs[i - 1]
            } else {
                W::spec_zero()
            },
    )
}

/// The value a node passes on: its own value from the bias or an input,
/// the rectified value from any other node.
pub open spec fn passed_on<W: Signal>(node: Node, v: W) -> W {
    if node.node_type == NodeType::Bias || node.node_type == NodeType::Input {
        v
    } else {
        v.spec_leaky_relu()
    }
}

/// Node values after the first `k` connections have each added their
/// weight times the value their source passes on to their destination.
pub open spec fn propagate<W: Signal>(
    nodes: Seq<Node>,
    conns: Seq<Connection<W>>,
    start: Seq<W>,
    k: nat,
) -> Seq<W>
    decreases k,
{
    if k == 0 {
        start
    } else {
        let v = propagate(nodes, conns, start, (k - 1) as nat);
        let c = conns[k - 1];
        let a = passed_on(nodes[c.input as int], v[c.input as int]);
        v.update(c.output as int, v[c.output as int].spec_plus(a.spec_times(c.weight)))
    }
}

/// The rectified values of the output nodes among the first `k` nodes, in
/// node order.
pub open spec fn output_values<W: Signal>(nodes: Seq<Node>, v: Seq<W>, k: nat) -> Seq<W>
    decreases k,
{
    if k == 0 {
        seq![]
    } else {
        let r = output_values(nodes, v, (k - 1) as nat);
        if nodes[k - 1].node_type == NodeType::Output {
            r.push(v[k - 1].spec_leaky_relu())
        } else {
            r
        }
    }
}

/// Forward propagation of `inputs` through the nodes and connections.
pub open spec fn forward<W: Signal>(nodes: Seq<Node>, conns: Seq<Connection<W>>, inputs: Seq<W>) -> Seq<W> {
    let v = propagate(nodes, conns, initial_values(nodes, inputs), conns.len());
    output_values(nodes, v, nodes.len())
}

proof fn lemma_propagate_len<W: Signal>(nodes: Seq<Node>, conns: Seq<Connection<W>>, start: Seq<W>, k: nat)
    requires
        k <= conns.len(),
        forall|j: int| 0 <= j < conns.len() ==> #[trigger] conns[j].output < start.len(),
    ensures
        propagate(nodes, conns, start, k).len() == start.len(),
    decreases k,
{
    if k > 0 {
        lemma_propagate_len(nodes, conns, start, (k - 1) as nat);
    }
}

/// Counts the output nodes among the first `k` nodes of a valid network.
proof fn lemma_output_values_len<W: Signal>(s: Seq<usize>, v: Seq<W>, k: nat)
    requires
        valid_layer_sizes(s),
        s.len() <= usize::MAX,
        k <= nodes_of(s).len(),
    ensures
        output_values(nodes_of(s), v, k).len() == if k <= nodes_of(s).len() - s.last() {
            0
        } else {
            k - (nodes_of(s).len() - s.last())
        },
    decreases k,
{
    lemma_output_nodes(s);
    if k > 0 {
        lemma_output_values_len(s, v, (k - 1) as nat);
    }
}

/// A genome: nodes and connections built once from a list of layer widths.
/// Only the weights differ between genomes of one population.
#[derive(Debug)]
pub struct NN<W> {
    layer_sizes: Vec<usize>,
    num_inputs: usize,
    num_outputs: usize,
    num_layers: usize,
    nodes: Vec<Node>,
    connections: Vec<Connection<W>>,
}

impl<W> NN<W> {
    /// The layer widths the network was built from.
    pub closed spec fn sizes(&self) -> Seq<usize> {
        self.layer_sizes@
    }

    /// The node sequence.
    pub closed spec fn node_seq(&self) -> Seq<Node> {
        self.nodes@
    }

    /// The connection sequence.
    pub closed spec fn connection_seq(&self) -> Seq<Connection<W>> {
        self.connections@
    }

    pub closed spec fn counts_ok(&self) -> bool {
        &&& self.num_inputs == self.layer_sizes@[0]
        &&& self.num_outputs == self.layer_sizes@.last()
        &&& self.num_layers == self.layer_sizes@.len()
    }

    /// The weight of every connection, in order.
    pub open spec fn weights(&self) -> Seq<W> {
        self.connection_seq().map_values(|c: Connection<W>| c.weight)
    }

    /// Whether the network is exactly what its layer widths describe.
    pub open spec fn wf(&self) -> bool {
        &&& valid_layer_sizes(self.sizes())
        &&& self.sizes().len() <= usize::MAX
        &&& sum(self.sizes()) + 1 <= usize::MAX
        &&& self.counts_ok()
        &&& self.node_seq() == nodes_of(self.sizes())
        &&& endpoints(self.connection_seq()) == edges_of(self.node_seq())
        &&& connections_ok(self.node_seq(), self.connection_seq())
    }

    /// Builds a network with the given layer widths: the first is the input
    /// count, the last the output count, the others hidden widths. Every
    /// weight is a fresh value of `init`.
    pub fn new<F: Fn() -> W>(nn_info: Vec<usize>, init: &F) -> (r: Result<NN<W>, NetError>)
        requires
            init.requires(()),
        ensures
            r is Err <==> !valid_layer_sizes(nn_info@),
            r is Err ==> r == Err::<NN<W>, NetError>(NetError::InvalidTopology),
            r is Ok ==> {
                let net = r->Ok_0;
                &&& net.wf()
                &&& net.sizes() == nn_info@
                &&& forall|k: int|
                    0 <= k < net.connection_seq().len() ==> init.ensures(
                        (),
                        #[trigger] net.connection_seq()[k].weight,
                    )
            },
    {
        let n = nn_info.len();
        if n < 2 {
            return Err(NetError::InvalidTopology);
        }
        let mut i: usize = 0;
        while i < n
            invariant
                n == nn_info@.len(),
                i <= n,
                forall|t: int| 0 <= t < i ==> nn_info@[t] > 0,
            decreases n - i,
        {
            if nn_info[i] == 0 {
                return Err(NetError::InvalidTopology);
            }
            i += 1;
        }
        let nodes = build_nodes(&nn_info);
        let count = nodes.len();
        proof {
            lemma_output_nodes(nn_info@);
            assert(count == 1 + sum(nn_info@));
        }
        let connections = build_connections(&nodes, init);
        Ok(NN {
            num_inputs: nn_info[0],
            num_outputs: nn_info[n - 1],
            num_layers: n,
            layer_sizes: nn_info,
            nodes,
            connections,
        })
    }

    /// The number of input nodes.
    pub fn num_inputs(&self) -> (r: usize)
        requires
            self.wf(),
        ensures
            r == self.sizes()[0],
    {
        self.num_inputs
    }

    /// The number of output nodes.
    pub fn num_outputs(&self) -> (r: usize)
        requires
            self.wf(),
        ensures
            r == self.sizes().last(),
    {
        self.num_outputs
    }

    /// The number of layers, input and output layers included.
    pub fn num_layers(&self) -> (r: usize)
        requires
            self.wf(),
        ensures
            r == self.sizes().len(),
    {
        self.num_layers
    }

    /// The number of nodes, the bias node included.
    pub fn num_nodes(&self) -> (r: usize)
        ensures
            r == self.node_seq().len(),
    {
        self.nodes.len()
    }

    /// The number of connections.
    pub fn num_connections(&self) -> (r: usize)
        ensures
            r == self.connection_seq().len(),
    {
        self.connections.len()
    }

    /// The node at `index`.
    pub fn node(&self, index: usize) -> (r: Node)
        requires
            index < self.node_seq().len(),
        ensures
            r == self.node_seq()[index as int],
    {
        self.nodes[index]
    }
}

/// A network built from valid layer widths has one node more than the
/// widths add up to. No connection leaves an output node or joins a node to
/// itself; a connection from the bias ends in a hidden or output node, and one
/// from an input or hidden node ends in the next layer.
pub proof fn lemma_topology_invariants<W>(net: NN<W>)
    requires
        net.wf(),
    ensures
        net.node_seq().len() == 1 + sum(net.sizes()),
        forall|k: int|
            0 <= k < net.connection_seq().len() ==> {
                let c = #[trigger] net.connection_seq()[k];
                let src = net.node_seq()[c.input as int];
                let dst = net.node_seq()[c.output as int];
                &&& c.input < net.node_seq().len()
                &&& c.output < net.node_seq().len()
                &&& c.input != c.output
                &&& src.node_type != NodeType::Output
                &&& src.node_type == NodeType::Bias ==> dst.node_type != NodeType::Bias
                    && dst.node_type != NodeType::Input
                &&& (src.node_type == NodeType::Input || src.node_type == NodeType::Hidden)
                    ==> dst.layer == src.layer + 1
            },
{
    let s = net.sizes();
    lemma_layer_nodes_len(s, s.len());
    assert(s.take(s.len() as int) =~= s);
}

proof fn lemma_sum_ge_first(s: Seq<usize>)
    requires
        s.len() >= 1,
    ensures
        sum(s) >= s[0],
    decreases s.len(),
{
    assert(s.drop_last()[0] == s[0] || s.len() == 1);
    if s.len() > 1 {
        lemma_sum_ge_first(s.drop_last());
    } else {
        assert(sum(s.drop_last()) == 0);
    }
}

/// Nodes of the first `k` layers all lie in a layer below `k`, each with the
/// role of its layer.
proof fn lemma_layer_nodes_below(s: Seq<usize>, k: nat)
    requires
        k <= s.len() <= usize::MAX,
    ensures
        forall|i: int|
            0 <= i < layer_nodes(s, k).len() ==> (#[trigger] layer_nodes(s, k)[i]).layer < k
                && layer_nodes(s, k)[i].node_type == role_of_layer(
                layer_nodes(s, k)[i].layer as int,
                s.len() as int,
            ),
    decreases k,
{
    if k > 0 {
        lemma_layer_nodes_below(s, (k - 1) as nat);
        let prev = layer_nodes(s, (k - 1) as nat);
        assert forall|i: int| 0 <= i < layer_nodes(s, k).len() implies (#[trigger] layer_nodes(
            s,
            k,
        )[i]).layer < k && layer_nodes(s, k)[i].node_type == role_of_layer(
            layer_nodes(s, k)[i].layer as int,
            s.len() as int,
        ) by {
            if i < prev.len() {
                assert(layer_nodes(s, k)[i] == prev[i]);
            }
        }
    }
}

/// In a network with valid widths `s`, the output nodes are exactly the last
/// `s.last()` nodes.
proof fn lemma_output_nodes(s: Seq<usize>)
    requires
        valid_layer_sizes(s),
        s.len() <= usize::MAX,
    ensures
        nodes_of(s).len() == 1 + sum(s),
        sum(s) >= s[0] + s.last(),
        forall|i: int|
            0 <= i < nodes_of(s).len() ==> ((#[trigger] nodes_of(s)[i]).node_type == NodeType::Output
                <==> i >= nodes_of(s).len() - s.last()),
{
    let n = s.len();
    lemma_layer_nodes_len(s, n);
    assert(s.take(n as int) =~= s);
    lemma_sum_ge_first(s.drop_last());
    assert(s.drop_last()[0] == s[0]);
    let front = layer_nodes(s, (n - 1) as nat);
    lemma_layer_nodes_len(s, (n - 1) as nat);
    assert(s.take(n - 1) =~= s.drop_last());
    lemma_layer_nodes_below(s, (n - 1) as nat);
    let last = Seq::new(
        s[n - 1] as nat,
        |j: int| Node { node_type: role_of_layer(n - 1, n as int), layer: (n - 1) as usize },
    );
    assert(layer_nodes(s, n as nat) == front + last);
    assert(nodes_of(s) =~= seq![Node { node_type: NodeType::Bias, layer: 0 }] + front + last);
    assert forall|i: int| 0 <= i < nodes_of(s).len() implies ((#[trigger] nodes_of(s)[i]).node_type
        == NodeType::Output <==> i >= nodes_of(s).len() - s.last()) by {
        if 1 <= i < 1 + front.len() {
            assert(nodes_of(s)[i] == front[i - 1]);
        } else if i >= 1 + front.len() {
            assert(nodes_of(s)[i] == last[i - 1 - front.len()]);
        }
    }
}

/// An element-by-element copy of `v`.
pub fn copy_vec<T: Copy>(v: &Vec<T>) -> (r: Vec<T>)
    ensures
        r@ == v@,
{
    let mut r: Vec<T> = Vec::new();
    let mut i: usize = 0;
    while i < v.len()
        invariant
            i <= v@.len(),
            r@ == v@.subrange(0, i as int),
        decreases v@.len() - i,
    {
        r.push(v[i]);
        i += 1;
        assert(r@ =~= v@.subrange(0, i as int));
    }
    assert(r@ =~= v@);
    r
}

/// Evaluation is a function of the nodes, the connections and the inputs
/// alone: two networks that agree on those give the same outputs, however
/// often and in whatever order they are evaluated.
pub proof fn lemma_evaluation_deterministic<W: Signal>(a: NN<W>, b: NN<W>, inputs: Seq<W>)
    requires
        a.node_seq() == b.node_seq(),
        a.connection_seq() == b.connection_seq(),
    ensures
        forward(a.node_seq(), a.connection_seq(), inputs) == forward(
            b.node_seq(),
            b.connection_seq(),
            inputs,
        ),
{
}

/// Whether two lists of layer widths are equal.
fn same_sizes(a: &Vec<usize>, b: &Vec<usize>) -> (r: bool)
    ensures
        r == (a@ == b@),
{
    if a.len() != b.len() {
        return false;
    }
    let mut i: usize = 0;
    while i < a.len()
        invariant
            a@.len() == b@.len(),
            i <= a@.len(),
            forall|t: int| 0 <= t < i ==> a@[t] == b@[t],
        decreases a@.len() - i,
    {
        if a[i] != b[i] {
            return false;
        }
        i += 1;
    }
    assert(a@ =~= b@);
    true
}

/// The weights of a single-point crossover: those of `a` up to and including
/// index `split`, those of `b` after it.
pub open spec fn spliced<W>(a: Seq<W>, b: Seq<W>, split: int) -> Seq<W> {
    Seq::new(a.len(), |i: int| if i <= split { a[i] } else { b[i] })
}

impl<W: Signal> NN<W> {
    /// Forward propagation. The bias node holds one, the input nodes the
    /// given inputs, every other node starts at zero. Connections are taken in
    /// their stored order: each adds its weight times the source's value to
    /// the destination, the source's value passed through the leaky rectifier
    /// unless the source is the bias or an input. The outputs, rectified, come
    /// back in node order. The network itself is left unchanged. Fails when
    /// the number of inputs differs from the input count.
    pub fn feed_forward(&self, inputs: &Vec<W>) -> (r: Result<Vec<W>, NetError>)
        requires
            self.wf(),
        ensures
            r is Err <==> inputs@.len() != self.sizes()[0],
            r is Err ==> r == Err::<Vec<W>, NetError>(NetError::InputSizeMismatch),
            r is Ok ==> r->Ok_0@ == forward(self.node_seq(), self.connection_seq(), inputs@),
            r is Ok ==> r->Ok_0@.len() == self.sizes().last(),
    {
        if inputs.len() != self.num_inputs {
            return Err(NetError::InputSizeMismatch);
        }
        proof {
            lemma_output_nodes(self.layer_sizes@);
        }
        let ghost start = initial_values(self.nodes@, inputs@);
        let n = self.nodes.len();
        let ni = self.num_inputs;
        let mut values: Vec<W> = Vec::new();
        values.push(W::one());
        let mut i: usize = 0;
        while i < ni
            invariant
                ni == inputs@.len(),
                n == self.nodes@.len(),
                1 + ni <= n,
                start == initial_values(self.nodes@, inputs@),
                i <= ni,
                values@.len() == 1 + i,
                forall|t: int| 0 <= t < values@.len() ==> #[trigger] values@[t] == start[t],
            decreases ni - i,
        {
            values.push(inputs[i]);
            i += 1;
        }
        while values.len() < n
            invariant
                ni == inputs@.len(),
                n == self.nodes@.len(),
                1 + ni <= values@.len() <= n,
                start == initial_values(self.nodes@, inputs@),
                forall|t: int| 0 <= t < values@.len() ==> #[trigger] values@[t] == start[t],
            decreases n - values@.len(),
        {
            values.push(W::zero());
        }
        assert(values@ =~= start);
        let m = self.connections.len();
        assert forall|j: int| 0 <= j < m implies #[trigger] self.connections@[j].output < start.len() by {
            assert(self.connections@[j].input < n);
        }
        let mut k: usize = 0;
        while k < m
            invariant
                self.wf(),
                m == self.connections@.len(),
                n == self.nodes@.len(),
                start.len() == n,
                values@ == propagate(self.nodes@, self.connections@, start, k as nat),
                forall|j: int| 0 <= j < m ==> #[trigger] self.connections@[j].output < start.len(),
                k <= m,
            decreases m - k,
        {
            proof {
                lemma_propagate_len(self.nodes@, self.connections@, start, k as nat);
            }
            let c = self.connections[k];
            assert(c.input < n && c.output < n);
            let source = values[c.input];
            let v = match self.nodes[c.input].node_type {
                NodeType::Bias | NodeType::Input => source,
                _ => source.leaky_relu(),
            };
            let updated = values[c.output].plus(v.times(c.weight));
            values.set(c.output, updated);
            k += 1;
        }
        proof {
            lemma_propagate_len(self.nodes@, self.connections@, start, m as nat);
        }
        let mut outputs: Vec<W> = Vec::new();
        let mut j: usize = 0;
        while j < n
            invariant
                n == values@.len(),
                n == self.nodes@.len(),
                j <= n,
                outputs@ == output_values(self.nodes@, values@, j as nat),
            decreases n - j,
        {
            if self.nodes[j].node_type == NodeType::Output {
                outputs.push(values[j].leaky_relu());
            }
            j += 1;
        }
        proof {
            lemma_output_values_len(self.layer_sizes@, values@, n as nat);
        }
        Ok(outputs)
    }
}

/// Whether `c` is a crossover of `a` and `b` at `split` in which some weights
/// were replaced by fresh values of `init`.
pub open spec fn offspring_weights<W, F: Fn() -> W>(
    c: Seq<W>,
    a: Seq<W>,
    b: Seq<W>,
    split: int,
    init: F,
) -> bool {
    &&& c.len() == a.len()
    &&& forall|i: int|
        0 <= i < c.len() ==> #[trigger] c[i] == spliced(a, b, split)[i] || init.ensures((), c[i])
}

/// One chance in this many that a child's weight is drawn afresh.
pub const MUTATION_ONE_IN: u64 = 100;

impl<W: Copy> NN<W> {
    /// The connection at `index`.
    pub fn connection(&self, index: usize) -> (r: Connection<W>)
        requires
            index < self.connection_seq().len(),
        ensures
            r == self.connection_seq()[index as int],
    {
        self.connections[index]
    }

    /// A deep copy: same widths, nodes and connections.
    pub fn duplicate(&self) -> (r: NN<W>)
        ensures
            r.sizes() == self.sizes(),
            r.node_seq() == self.node_seq(),
            r.connection_seq() == self.connection_seq(),
            self.wf() ==> r.wf(),
    {
        NN {
            layer_sizes: copy_vec(&self.layer_sizes),
            num_inputs: self.num_inputs,
            num_outputs: self.num_outputs,
            num_layers: self.num_layers,
            nodes: copy_vec(&self.nodes),
            connections: copy_vec(&self.connections),
        }
    }

    /// Single-point crossover with no mutation: the child has this network's
    /// nodes and edges, the weights of `self` at indices up to and including
    /// `split` and those of `parent2` after it. Fails when the parents were
    /// built from different layer widths.
    pub fn recombine(&self, parent2: &NN<W>, split: usize) -> (r: Result<NN<W>, NetError>)
        requires
            self.wf(),
            parent2.wf(),
        ensures
            r is Err <==> self.sizes() != parent2.sizes(),
            r is Err ==> r == Err::<NN<W>, NetError>(NetError::IncompatibleGenomes),
            r is Ok ==> {
                let child = r->Ok_0;
                &&& child.wf()
                &&& child.sizes() == self.sizes()
                &&& child.node_seq() == self.node_seq()
                &&& endpoints(child.connection_seq()) == endpoints(self.connection_seq())
                &&& child.weights() == spliced(self.weights(), parent2.weights(), split as int)
            },
    {
        if !same_sizes(&self.layer_sizes, &parent2.layer_sizes) {
            return Err(NetError::IncompatibleGenomes);
        }
        let ghost ea = endpoints(self.connections@);
        let ghost eb = endpoints(parent2.connections@);
        assert(ea.len() == self.connections@.len());
        assert(eb.len() == parent2.connections@.len());
        let sizes = copy_vec(&self.layer_sizes);
        let nodes = copy_vec(&self.nodes);
        let n = self.connections.len();
        let mut connections: Vec<Connection<W>> = Vec::new();
        let mut i: usize = 0;
        while i < n
            invariant
                n == self.connections@.len(),
                n == parent2.connections@.len(),
                i <= n,
                connections@.len() == i,
                forall|j: int|
                    0 <= j < i ==> {
                        &&& (#[trigger] connections@[j]).input == self.connections@[j].input
                        &&& connections@[j].output == self.connections@[j].output
                        &&& connections@[j].weight == if j <= split {
                            self.connections@[j].weight
                        } else {
                            parent2.connections@[j].weight
                        }
                    },
            decreases n - i,
        {
            let c = self.connections[i];
            let w = if i <= split {
                c.weight
            } else {
                parent2.connections[i].weight
            };
            connections.push(Connection { input: c.input, output: c.output, weight: w });
            i += 1;
        }
        let child = NN {
            layer_sizes: sizes,
            num_inputs: self.num_inputs,
            num_outputs: self.num_outputs,
            num_layers: self.num_layers,
            nodes,
            connections,
        };
        assert(endpoints(child.connections@) =~= endpoints(self.connections@));
        assert(child.weights() =~= spliced(self.weights(), parent2.weights(), split as int));
        Ok(child)
    }

    /// One mutation step: the weight at `index` becomes `w` when `draw` is a
    /// multiple of `MUTATION_ONE_IN`, and stays otherwise.
    pub fn mutate_at(&mut self, index: usize, draw: u64, w: W)
        requires
            old(self).wf(),
            index < old(self).connection_seq().len(),
        ensures
            final(self).wf(),
            final(self).sizes() == old(self).sizes(),
            final(self).node_seq() == old(self).node_seq(),
            endpoints(final(self).connection_seq()) == endpoints(old(self).connection_seq()),
            draw % MUTATION_ONE_IN == 0 ==> final(self).weights() == old(self).weights().update(
                index as int,
                w,
            ),
            draw % MUTATION_ONE_IN != 0 ==> final(self).weights() == old(self).weights(),
    {
        if draw % MUTATION_ONE_IN == 0 {
            self.replace_weight(index, w);
        }
    }

    /// Sets the weight of the connection at `index`.
    fn replace_weight(&mut self, index: usize, w: W)
        requires
            old(self).wf(),
            index < old(self).connection_seq().len(),
        ensures
            final(self).wf(),
            final(self).sizes() == old(self).sizes(),
            final(self).node_seq() == old(self).node_seq(),
            endpoints(final(self).connection_seq()) == endpoints(old(self).connection_seq()),
            final(self).weights() == old(self).weights().update(index as int, w),
    {
        let c = self.connections[index];
        self.connections.set(index, Connection { input: c.input, output: c.output, weight: w });
        assert(endpoints(self.connections@) =~= endpoints(old(self).connections@));
        assert(self.weights() =~= old(self).weights().update(index as int, w));
        assert(connections_ok(self.nodes@, self.connections@)) by {
            assert forall|k: int| 0 <= k < self.connections@.len() implies #[trigger] self.connections@[k].input == old(self).connections@[k].input && self.connections@[k].output == old(self).connections@[k].output by {}
        }
    }

    /// Crossover of this network with `parent2`: a split index is drawn
    /// uniformly among the connection indices, the child takes the weights of
    /// `self` up to and including the split and those of `parent2` after it,
    /// and each weight then goes through `mutate_at` with a fresh draw and a
    /// fresh value of `init`, so that one in `MUTATION_ONE_IN` is replaced. Neither parent changes. Fails when the
    /// parents were built from different layer widths.
    pub fn crossover<F: Fn() -> W>(&self, parent2: &NN<W>, init: &F) -> (r: Result<
        NN<W>,
        NetError,
    >)
        requires
            self.wf(),
            parent2.wf(),
            init.requires(()),
        ensures
            r is Err <==> self.sizes() != parent2.sizes(),
            r is Err ==> r == Err::<NN<W>, NetError>(NetError::IncompatibleGenomes),
            r is Ok ==> {
                let child = r->Ok_0;
                &&& child.wf()
                &&& child.sizes() == self.sizes()
                &&& child.node_seq() == self.node_seq()
                &&& endpoints(child.connection_seq()) == endpoints(self.connection_seq())
                &&& exists|split: int|
                    0 <= split && (split < self.connection_seq().len() || split == 0)
                        && #[trigger] offspring_weights(
                        child.weights(),
                        self.weights(),
                        parent2.weights(),
                        split,
                        *init,
                    )
            },
    {
        let n = self.connections.len();
        let draw = random_u64();
        let split: usize = if n == 0 {
            0
        } else {
            (draw % (n as u64)) as usize
        };
        let mut child = match self.recombine(parent2, split) {
            Ok(c) => c,
            Err(e) => return Err(e),
        };
        let ghost base = spliced(self.weights(), parent2.weights(), split as int);
        let mut i: usize = 0;
        while i < n
            invariant
                n == self.connection_seq().len(),
                i <= n,
                init.requires(()),
                child.wf(),
                child.sizes() == self.sizes(),
                child.node_seq() == self.node_seq(),
                endpoints(child.connection_seq()) == endpoints(self.connection_seq()),
                child.weights().len() == n,
                base.len() == n,
                forall|j: int|
                    0 <= j < n ==> #[trigger] child.weights()[j] == base[j] || init.ensures(
                        (),
                        child.weights()[j],
                    ),
            decreases n - i,
        {
            assert(endpoints(child.connection_seq()).len() == child.connection_seq().len());
            let w = init();
            child.mutate_at(i, random_u64(), w);
            i += 1;
        }
        assert(offspring_weights(
            child.weights(),
            self.weights(),
            parent2.weights(),
            split as int,
            *init,
        ));
        assert(split < n || split == 0);
        assert(exists|sp: int|
            0 <= sp && (sp < self.connection_seq().len() || sp == 0)
                && #[trigger] offspring_weights(
                child.weights(),
                self.weights(),
                parent2.weights(),
                sp,
                *init,
            ));
        Ok(child)
    }
}

} // verus!
