use vstd::prelude::*;
use crate::game::lemma_take_succ;
use crate::utils::random_below;

verus! {

/// Hard cap on a network's connection count; with the weight and input
/// bounds below, every score fits comfortably in an i64.
pub const MAX_CONNECTIONS: usize = 1000000;

/// Largest magnitude a connection weight can take.
pub const MAX_WEIGHT: i64 = 1000;

/// Largest magnitude an input value may have when evaluating.
pub const MAX_INPUT_VALUE: i64 = 1000000;

/// Largest magnitude of a single weighted term: `MAX_WEIGHT` times
/// `MAX_INPUT_VALUE`.
pub const MAX_TERM: i64 = 1000000000;

/// Largest magnitude a weight shift applies during mutation.
pub const WEIGHT_STEP: i64 = 16;

/// The shared registry that assigns stable structural identifiers to new
/// topology elements, so clones and mutated descendants stay traceable to
/// a common ancestry. It is always passed explicitly, never a hidden
/// singleton.
pub struct NeuralNetworkManager {
    pub next_id: u64,
}

impl NeuralNetworkManager {
    pub fn new() -> (r: Self)
        ensures
            r.next_id == 0,
    {
        NeuralNetworkManager { next_id: 0 }
    }

    /// Hands out the next identifier; the counter stops at the type's
    /// ceiling rather than wrapping.
    pub fn take_id(&mut self) -> (r: u64)
        ensures
            r == old(self).next_id,
            final(self).next_id as int == if old(self).next_id < u64::MAX {
                old(self).next_id as int + 1
            } else {
                u64::MAX as int
            },
    {
        let id = self.next_id;
        if self.next_id < u64::MAX {
            self.next_id = self.next_id + 1;
        }
        id
    }
}

/// One input slot of a network schema: a name, one value per element, and
/// per-element labels.
pub struct Input {
    pub name: String,
    pub values: Vec<i64>,
    pub labels: Vec<String>,
}

impl Input {
    pub fn new(name: String, values: Vec<i64>, labels: Vec<String>) -> (r: Self)
        ensures
            r.name == name,
            r.values == values,
            r.labels == labels,
    {
        Input { name, values, labels }
    }
}

/// One output slot of a network schema.
pub struct Output {
    pub name: String,
}

impl Output {
    pub fn new(name: String) -> (r: Self)
        ensures
            r.name == name,
    {
        Output { name }
    }
}

/// A weighted edge from one input element to one output slot, carrying the
/// structural identifier the registry assigned to it.
#[derive(Clone, Copy, PartialEq, Eq, Structural, Debug)]
pub struct Connection {
    pub id: u64,
    pub from: usize,
    pub to: usize,
    pub weight: i64,
}

/// An evolvable policy: a set of weighted input-to-output connections whose
/// shape may change under mutation, while evaluation stays a pure function
/// of topology, weights, and the input vector.
pub struct NeuralNetwork {
    pub id: u64,
    pub input_count: usize,
    pub output_count: usize,
    pub connections: Vec<Connection>,
}

pub open spec fn wf_connection(c: Connection, input_count: usize, output_count: usize) -> bool {
    &&& (c.from as int) < (input_count as int)
    &&& (c.to as int) < (output_count as int)
    &&& -MAX_WEIGHT <= c.weight <= MAX_WEIGHT
}

/// Shape bounds every built network keeps: connections stay under the cap,
/// reference existing slots, and carry bounded weights.
pub open spec fn wf_network(n: NeuralNetwork) -> bool {
    &&& n.connections@.len() <= MAX_CONNECTIONS as int
    &&& 1 <= n.output_count
    &&& n.input_count <= MAX_CONNECTIONS
    &&& n.output_count <= MAX_CONNECTIONS
    &&& forall|i: int|
        0 <= i < n.connections@.len() ==> wf_connection(
            #[trigger] n.connections@[i],
            n.input_count,
            n.output_count,
        )
}

/// The score of output slot `o`: the sum, over the connections into `o` in
/// order, of the connection weight times the referenced input value.
pub open spec fn spec_eval(conns: Seq<Connection>, values: Seq<i64>, o: int) -> int
    decreases conns.len(),
{
    if conns.len() == 0 {
        0
    } else {
        spec_eval(conns.drop_last(), values, o) + if conns.last().to as int == o {
            conns.last().weight as int * values[conns.last().from as int] as int
        } else {
            0int
        }
    }
}

/// At most the weight at position `idx` differs between the two
/// connection lists; every other weight is carried over.
pub open spec fn weights_unchanged_except(
    pre: Seq<Connection>,
    post: Seq<Connection>,
    idx: int,
) -> bool {
    forall|i: int| 0 <= i < pre.len() && i != idx ==> (#[trigger] post[i]).weight == pre[i].weight
}

/// How one mutation may rewrite a policy: identity and arity are kept,
/// every existing connection keeps its identifier and endpoints, at most
/// one existing weight shifts, and at most one new connection is
/// appended.
pub open spec fn mutated_from(post: NeuralNetwork, pre: NeuralNetwork) -> bool {
    &&& post.id == pre.id
    &&& post.input_count == pre.input_count
    &&& post.output_count == pre.output_count
    &&& pre.connections@.len() <= post.connections@.len() <= pre.connections@.len() + 1
    &&& forall|i: int|
        0 <= i < pre.connections@.len() ==> {
            let c = #[trigger] post.connections@[i];
            &&& c.id == pre.connections@[i].id
            &&& c.from == pre.connections@[i].from
            &&& c.to == pre.connections@[i].to
        }
    &&& exists|idx: int|
        #[trigger] weights_unchanged_except(pre.connections@, post.connections@, idx)
}

pub open spec fn values_bounded(values: Seq<i64>) -> bool {
    forall|i: int| 0 <= i < values.len() ==> -MAX_INPUT_VALUE <= #[trigger] values[i] <= MAX_INPUT_VALUE
}

/// The total number of scalar elements across a schema's input slots.
pub open spec fn total_values(inputs: Seq<Input>) -> int
    decreases inputs.len(),
{
    if inputs.len() == 0 {
        0
    } else {
        total_values(inputs.drop_last()) + inputs.last().values@.len()
    }
}

proof fn lemma_total_values_prefix(inputs: Seq<Input>, i: int)
    requires
        0 <= i <= inputs.len(),
    ensures
        0 <= total_values(inputs.take(i)) <= total_values(inputs),
    decreases inputs.len() - i,
{
    if i == inputs.len() {
        assert(inputs.take(i) =~= inputs);
        lemma_total_values_nonneg(inputs);
    } else {
        lemma_total_values_prefix(inputs, i + 1);
        lemma_take_succ(inputs, i);
        lemma_total_values_nonneg(inputs.take(i));
    }
}

proof fn lemma_total_values_nonneg(inputs: Seq<Input>)
    ensures
        0 <= total_values(inputs),
    decreases inputs.len(),
{
    if inputs.len() > 0 {
        lemma_total_values_nonneg(inputs.drop_last());
    }
}

impl NeuralNetwork {
    /// A fresh, empty network registered with the shared registry; `build`
    /// gives it its initial topology.
    pub fn new(manager: &mut NeuralNetworkManager) -> (r: Self)
        ensures
            r.id == old(manager).next_id,
            r.input_count == 0,
            r.output_count == 0,
            r.connections@.len() == 0,
            final(manager).next_id >= old(manager).next_id,
    {
        NeuralNetwork { id: manager.take_id(), input_count: 0, output_count: 0, connections: Vec::new() }
    }

    /// Builds the initial topology from a schema: one connection, with unit
    /// weight, from every input element to every output slot, each
    /// registered with the shared registry.
    pub fn build(
        &mut self,
        inputs: &Vec<Input>,
        output_count: usize,
        manager: &mut NeuralNetworkManager,
    )
        requires
            1 <= output_count,
            output_count <= MAX_CONNECTIONS,
            total_values(inputs@) * (output_count as int) <= MAX_CONNECTIONS as int,
        ensures
            final(self).id == old(self).id,
            final(self).input_count as int == total_values(inputs@),
            final(self).output_count == output_count,
            wf_network(*final(self)),
            final(self).connections@.len() == total_values(inputs@) * (output_count as int),
            forall|k: int|
                0 <= k < final(self).connections@.len() ==> {
                    let c = #[trigger] final(self).connections@[k];
                    &&& c.from as int == k / (output_count as int)
                    &&& c.to as int == k % (output_count as int)
                    &&& c.weight == 1
                },
            final(manager).next_id >= old(manager).next_id,
    {
        proof {
            lemma_total_values_nonneg(inputs@);
            assert(total_values(inputs@) <= MAX_CONNECTIONS as int) by (nonlinear_arith)
                requires
                    1 <= output_count as int,
                    0 <= total_values(inputs@),
                    total_values(inputs@) * (output_count as int) <= MAX_CONNECTIONS as int,
            ;
        }
        let mut total: usize = 0;
        let mut i: usize = 0;
        while i < inputs.len()
            invariant
                i <= inputs@.len(),
                total as int == total_values(inputs@.take(i as int)),
                total_values(inputs@) <= MAX_CONNECTIONS as int,
                total_values(inputs@) * (output_count as int) <= MAX_CONNECTIONS as int,
                1 <= output_count,
            decreases inputs@.len() - i,
        {
            proof {
                lemma_take_succ(inputs@, i as int);
                lemma_total_values_prefix(inputs@, i as int + 1);
                lemma_total_values_nonneg(inputs@.take(i as int));
            }
            total = total + inputs[i].values.len();
            i = i + 1;
        }
        proof {
            assert(inputs@.take(inputs@.len() as int) =~= inputs@);
        }
        let mut conns: Vec<Connection> = Vec::new();
        let mut f: usize = 0;
        while f < total
            invariant
                f <= total,
                total as int == total_values(inputs@),
                total as int * (output_count as int) <= MAX_CONNECTIONS as int,
                1 <= output_count,
                manager.next_id >= old(manager).next_id,
                conns@.len() == f as int * (output_count as int),
                forall|k: int|
                    0 <= k < conns@.len() ==> {
                        let c = #[trigger] conns@[k];
                        &&& c.from as int == k / (output_count as int)
                        &&& c.to as int == k % (output_count as int)
                        &&& c.weight == 1
                        &&& (c.from as int) < (total as int)
                        &&& (c.to as int) < (output_count as int)
                    },
            decreases total - f,
        {
            proof {
                assert((f as int + 1) * (output_count as int) <= total as int * (output_count
                    as int) && f as int * (output_count as int) >= 0) by (nonlinear_arith)
                    requires
                        0 <= (f as int) < (total as int),
                        1 <= output_count as int,
                        total as int * (output_count as int) <= MAX_CONNECTIONS as int,
                ;
            }
            let mut o: usize = 0;
            while o < output_count
                invariant
                    o <= output_count,
                    f < total,
                    total as int == total_values(inputs@),
                    total as int * (output_count as int) <= MAX_CONNECTIONS as int,
                    1 <= output_count,
                    manager.next_id >= old(manager).next_id,
                    conns@.len() == f as int * (output_count as int) + o as int,
                    (f as int + 1) * (output_count as int) <= total as int * (output_count as int),
                    forall|k: int|
                        0 <= k < conns@.len() ==> {
                            let c = #[trigger] conns@[k];
                            &&& c.from as int == k / (output_count as int)
                            &&& c.to as int == k % (output_count as int)
                            &&& c.weight == 1
                            &&& (c.from as int) < (total as int)
                            &&& (c.to as int) < (output_count as int)
                        },
                decreases output_count - o,
            {
                let id = manager.take_id();
                conns.push(Connection { id, from: f, to: o, weight: 1 });
                proof {
                    let k = conns@.len() - 1;
                    assert(k == f as int * (output_count as int) + o as int);
                    assert(k / (output_count as int) == f as int && k % (output_count as int)
                        == o as int) by (nonlinear_arith)
                        requires
                            k == f as int * (output_count as int) + o as int,
                            0 <= (o as int) < (output_count as int),
                            0 <= f as int,
                    ;
                }
                o = o + 1;
            }
            f = f + 1;
            proof {
                assert(f as int * (output_count as int) == (f as int - 1) * (output_count as int)
                    + output_count as int) by (nonlinear_arith);
            }
        }
        self.input_count = total;
        self.output_count = output_count;
        self.connections = conns;
    }

    /// Deterministic forward evaluation: the same topology, weights and
    /// input vector give bit-identical scores on every call, one score per
    /// output slot.
    pub fn evaluate(&self, values: &Vec<i64>) -> (r: Vec<i64>)
        requires
            wf_network(*self),
            values@.len() == self.input_count as int,
            values_bounded(values@),
        ensures
            r@.len() == self.output_count as int,
            forall|o: int|
                0 <= o < r@.len() ==> #[trigger] r@[o] as int == spec_eval(
                    self.connections@,
                    values@,
                    o,
                ),
    {
        let mut outs: Vec<i64> = Vec::new();
        let mut o: usize = 0;
        while o < self.output_count
            invariant
                o <= self.output_count,
                wf_network(*self),
                values@.len() == self.input_count as int,
                values_bounded(values@),
                outs@.len() == o as int,
                forall|oo: int|
                    0 <= oo < o as int ==> #[trigger] outs@[oo] as int == spec_eval(
                        self.connections@,
                        values@,
                        oo,
                    ),
            decreases self.output_count - o,
        {
            let mut acc: i64 = 0;
            let mut c: usize = 0;
            while c < self.connections.len()
                invariant
                    c <= self.connections@.len(),
                    wf_network(*self),
                    values@.len() == self.input_count as int,
                    values_bounded(values@),
                    acc as int == spec_eval(self.connections@.take(c as int), values@, o as int),
                    -(c as int) * (MAX_TERM as int) <= acc as int <= (c as int) * (MAX_TERM
                        as int),
                decreases self.connections@.len() - c,
            {
                let ghost pre = self.connections@.take(c as int);
                proof {
                    lemma_take_succ(self.connections@, c as int);
                    assert(c as int * MAX_TERM as int <= MAX_CONNECTIONS as int * MAX_TERM as int
                        && (c as int + 1) * MAX_TERM as int == c as int * MAX_TERM as int
                        + MAX_TERM as int) by (nonlinear_arith)
                        requires
                            0 <= (c as int) < (MAX_CONNECTIONS as int),
                    ;
                }
                let conn = self.connections[c];
                if conn.to == o {
                    let v = values[conn.from];
                    proof {
                        assert(-(MAX_TERM as int) <= conn.weight as int * v as int <= MAX_TERM
                            as int) by (nonlinear_arith)
                            requires
                                -(MAX_WEIGHT as int) <= conn.weight as int <= MAX_WEIGHT as int,
                                -(MAX_INPUT_VALUE as int) <= v as int <= MAX_INPUT_VALUE as int,
                                MAX_TERM as int == MAX_WEIGHT as int * MAX_INPUT_VALUE as int,
                        ;
                    }
                    acc = acc + conn.weight * v;
                }
                c = c + 1;
            }
            proof {
                assert(self.connections@.take(self.connections@.len() as int)
                    =~= self.connections@);
            }
            outs.push(acc);
            o = o + 1;
        }
        outs
    }

    /// In-place stochastic mutation: either one existing weight shifts by a
    /// bounded step (staying within the weight bounds), or one new
    /// connection is appended under a fresh registry identifier. Input and
    /// output arity never change.
    pub fn mutate(&mut self, manager: &mut NeuralNetworkManager)
        requires
            wf_network(*old(self)),
        ensures
            wf_network(*final(self)),
            mutated_from(*final(self), *old(self)),
            final(self).connections@.len() == old(self).connections@.len() + 1
                ==> final(self).connections@.last().id == old(manager).next_id,
            final(manager).next_id >= old(manager).next_id,
    {
        if self.input_count == 0 {
            proof {
                assert(weights_unchanged_except(old(self).connections@, self.connections@, -1));
            }
            return ;
        }
        let n = self.connections.len();
        let choice = random_below(n as i64 + 1) as usize;
        if choice == n && n < MAX_CONNECTIONS {
            let from = random_below(self.input_count as i64) as usize;
            let to = random_below(self.output_count as i64) as usize;
            let weight = random_below(2 * MAX_WEIGHT + 1) - MAX_WEIGHT;
            let id = manager.take_id();
            self.connections.push(Connection { id, from, to, weight });
            proof {
                assert(weights_unchanged_except(old(self).connections@, self.connections@, -1));
            }
        } else if n > 0 {
            let idx = if choice < n {
                choice
            } else {
                0
            };
            let delta = random_below(2 * WEIGHT_STEP + 1) - WEIGHT_STEP;
            let c = self.connections[idx];
            let mut weight = c.weight + delta;
            if weight > MAX_WEIGHT {
                weight = MAX_WEIGHT;
            }
            if weight < -MAX_WEIGHT {
                weight = -MAX_WEIGHT;
            }
            self.connections.remove(idx);
            self.connections.insert(
                idx,
                Connection { id: c.id, from: c.from, to: c.to, weight },
            );
            proof {
                assert(self.connections@ =~= old(self).connections@.update(
                    idx as int,
                    Connection { id: c.id, from: c.from, to: c.to, weight },
                ));
                assert(weights_unchanged_except(
                    old(self).connections@,
                    self.connections@,
                    idx as int,
                ));
            }
        } else {
            proof {
                assert(weights_unchanged_except(old(self).connections@, self.connections@, -1));
            }
        }
    }

    /// An exact copy of this policy, identifier included; used when a
    /// surviving policy is carried into the next round as itself.
    pub fn duplicate(&self) -> (r: NeuralNetwork)
        ensures
            r.id == self.id,
            r.input_count == self.input_count,
            r.output_count == self.output_count,
            r.connections@ == self.connections@,
    {
        let mut conns: Vec<Connection> = Vec::new();
        let mut i: usize = 0;
        while i < self.connections.len()
            invariant
                i <= self.connections@.len(),
                conns@ == self.connections@.take(i as int),
            decreases self.connections@.len() - i,
        {
            proof {
                lemma_take_succ(self.connections@, i as int);
            }
            conns.push(self.connections[i]);
            i = i + 1;
        }
        proof {
            assert(self.connections@.take(self.connections@.len() as int) =~= self.connections@);
        }
        NeuralNetwork {
            id: self.id,
            input_count: self.input_count,
            output_count: self.output_count,
            connections: conns,
        }
    }

    /// A structurally independent copy under a fresh registry identifier:
    /// the clone carries the source's exact topology and weights, and
    /// mutating either afterwards never touches the other.
    pub fn clone(&self, manager: &mut NeuralNetworkManager) -> (r: NeuralNetwork)
        ensures
            r.input_count == self.input_count,
            r.output_count == self.output_count,
            r.connections@ == self.connections@,
            r.id == old(manager).next_id,
            final(manager).next_id >= old(manager).next_id,
    {
        let mut conns: Vec<Connection> = Vec::new();
        let mut i: usize = 0;
        while i < self.connections.len()
            invariant
                i <= self.connections@.len(),
                conns@ == self.connections@.take(i as int),
            decreases self.connections@.len() - i,
        {
            proof {
                lemma_take_succ(self.connections@, i as int);
            }
            conns.push(self.connections[i]);
            i = i + 1;
        }
        proof {
            assert(self.connections@.take(self.connections@.len() as int) =~= self.connections@);
        }
        NeuralNetwork {
            id: manager.take_id(),
            input_count: self.input_count,
            output_count: self.output_count,
            connections: conns,
        }
    }
}

// ---------------------------------------------------------------------------
// Laws of the policy
// ---------------------------------------------------------------------------

/// Determinism of evaluation: identical topology, weights and input vector
/// give bit-identical scores, however often the evaluation runs.
pub proof fn lemma_evaluate_deterministic(
    c1: Seq<Connection>,
    v1: Seq<i64>,
    c2: Seq<Connection>,
    v2: Seq<i64>,
    o: int,
)
    requires
        c1 == c2,
        v1 == v2,
    ensures
        spec_eval(c1, v1, o) == spec_eval(c2, v2, o),
{
}

/// Clone independence: a network's observable outputs depend on its own
/// connections alone, so an operation that rewrites a clone — whose
/// contract speaks only of the clone — leaves every output of the source
/// unchanged.
pub proof fn lemma_clone_independence(
    source_before: NeuralNetwork,
    source_after: NeuralNetwork,
    values: Seq<i64>,
    o: int,
)
    requires
        source_after.connections@ == source_before.connections@,
    ensures
        spec_eval(source_after.connections@, values, o) == spec_eval(
            source_before.connections@,
            values,
            o,
        ),
{
}

} // verus!
