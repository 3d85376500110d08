//! Boolean circuits: what the virtual machine and the zero-knowledge parties
//! read of a circuit.
//!
//! A circuit's wires ("nodes") are numbered from zero; its gates read and
//! write nodes, in order. Its inputs and outputs are sequences of nodes.
use vstd::prelude::*;
use vstd::view::View as _;

verus! {

/// A gate of a boolean circuit, by the nodes it reads and writes.
#[derive(Debug, Clone, Copy, PartialEq, Eq, Structural)]
pub enum Gate {
    /// `z = x ^ y`.
    Xor { x: usize, y: usize, z: usize },
    /// `z = x & y`.
    And { x: usize, y: usize, z: usize },
    /// `z = !x`.
    Inv { x: usize, z: usize },
}

/// The nodes a gate reads and writes are below `feed_count`.
pub open spec fn gate_fits(g: Gate, feed_count: nat) -> bool {
    match g {
        Gate::Xor { x, y, z } => x < feed_count && y < feed_count && z < feed_count,
        Gate::And { x, y, z } => x < feed_count && y < feed_count && z < feed_count,
        Gate::Inv { x, z } => x < feed_count && z < feed_count,
    }
}

/// The number of AND gates among `gates`.
pub open spec fn and_gates(gates: Seq<Gate>) -> nat
    decreases gates.len(),
{
    if gates.len() == 0 {
        0
    } else {
        and_gates(gates.drop_last()) + if gates.last() is And {
            1nat
        } else {
            0nat
        }
    }
}

/// The nodes of `groups`, group after group.
pub open spec fn flat_nodes(groups: Seq<Seq<usize>>) -> Seq<usize>
    decreases groups.len(),
{
    if groups.len() == 0 {
        Seq::empty()
    } else {
        flat_nodes(groups.drop_last()) + groups.last()
    }
}

/// The views of a sequence of vectors.
pub open spec fn vec_views(groups: Seq<Vec<usize>>) -> Seq<Seq<usize>> {
    groups.map_values(|v: Vec<usize>| v@)
}

/// Error in building a [`Circuit`].
#[derive(Debug, Clone, Copy, PartialEq, Eq, Structural)]
pub enum CircuitError {
    /// A gate, input or output refers to a node at or past the feed count.
    NodeOutOfRange { node: usize },
    /// The number of input or output nodes does not fit in a `usize`.
    TooLarge,
}

/// A boolean circuit.
#[derive(Debug, Clone)]
pub struct Circuit {
    pub(crate) inputs: Vec<Vec<usize>>,
    pub(crate) outputs: Vec<Vec<usize>>,
    pub(crate) gates: Vec<Gate>,
    pub(crate) feed_count: usize,
    pub(crate) and_count: usize,
    pub(crate) input_len: usize,
    pub(crate) output_len: usize,
}

impl Circuit {
    /// The nodes of each input.
    pub open(crate) spec fn input_nodes(&self) -> Seq<Seq<usize>> {
        vec_views(self.inputs@)
    }

    /// The nodes of each output.
    pub open(crate) spec fn output_nodes(&self) -> Seq<Seq<usize>> {
        vec_views(self.outputs@)
    }

    /// The gates, in order.
    pub open(crate) spec fn gate_seq(&self) -> Seq<Gate> {
        self.gates@
    }

    /// The number of nodes.
    pub open(crate) spec fn feeds(&self) -> nat {
        self.feed_count as nat
    }

    /// The number of AND gates, as recorded.
    pub open(crate) spec fn and_count_spec(&self) -> usize {
        self.and_count
    }

    /// The number of input nodes, as recorded.
    pub open(crate) spec fn input_len_spec(&self) -> usize {
        self.input_len
    }

    /// The number of output nodes, as recorded.
    pub open(crate) spec fn output_len_spec(&self) -> usize {
        self.output_len
    }

    /// The lengths of the inputs.
    pub open spec fn input_lens(&self) -> Seq<usize> {
        self.input_nodes().map_values(|v: Seq<usize>| v.len() as usize)
    }

    /// Every node lies below the feed count, and the counts agree with the
    /// gates, inputs and outputs.
    pub open(crate) spec fn wf(&self) -> bool {
        &&& forall|i: int| 0 <= i < self.gates.len() ==> gate_fits(#[trigger] self.gates@[i], self.feed_count as nat)
        &&& forall|i: int| 0 <= i < flat_nodes(self.input_nodes()).len() ==> #[trigger] flat_nodes(self.input_nodes())[i] < self.feed_count
        &&& forall|i: int| 0 <= i < flat_nodes(self.output_nodes()).len() ==> #[trigger] flat_nodes(self.output_nodes())[i] < self.feed_count
        &&& self.and_count == and_gates(self.gates@)
        &&& self.input_len == flat_nodes(self.input_nodes()).len()
        &&& self.output_len == flat_nodes(self.output_nodes()).len()
    }
}

/// `flat_nodes` of a prefix grows by the next group.
pub(crate) proof fn lemma_flat_nodes_push(groups: Seq<Seq<usize>>, k: int)
    requires
        0 <= k < groups.len(),
    ensures
        flat_nodes(groups.take(k + 1)) == flat_nodes(groups.take(k)) + groups[k],
{
    assert(groups.take(k + 1).drop_last() =~= groups.take(k));
}

/// The nodes of a prefix of the groups are a prefix of the nodes.
pub(crate) proof fn lemma_flat_nodes_prefix(groups: Seq<Seq<usize>>, m: int)
    requires
        0 <= m <= groups.len(),
    ensures
        flat_nodes(groups.take(m)).len() <= flat_nodes(groups).len(),
        forall|i: int|
            0 <= i < flat_nodes(groups.take(m)).len() ==> #[trigger] flat_nodes(groups.take(m))[i]
                == flat_nodes(groups)[i],
    decreases groups.len() - m,
{
    if m == groups.len() {
        assert(groups.take(m) =~= groups);
    } else {
        lemma_flat_nodes_prefix(groups, m + 1);
        lemma_flat_nodes_push(groups, m);
        assert forall|i: int| 0 <= i < flat_nodes(groups.take(m)).len() implies #[trigger] flat_nodes(
            groups.take(m),
        )[i] == flat_nodes(groups)[i] by {
            assert(flat_nodes(groups.take(m))[i] == flat_nodes(groups.take(m + 1))[i]);
        }
    }
}

/// `and_gates` of a prefix grows by one at an AND gate.
pub proof fn lemma_and_gates_push(gates: Seq<Gate>, k: int)
    requires
        0 <= k < gates.len(),
    ensures
        and_gates(gates.take(k + 1)) == and_gates(gates.take(k)) + if gates[k] is And {
            1nat
        } else {
            0nat
        },
{
    assert(gates.take(k + 1).drop_last() =~= gates.take(k));
}

/// The nodes of `groups`, checked to lie below `feed_count`, with their number.
fn check_groups(groups: &Vec<Vec<usize>>, feed_count: usize) -> (r: Result<usize, CircuitError>)
    ensures
        r is Ok <==> (forall|i: int|
            0 <= i < flat_nodes(vec_views(groups@)).len() ==> #[trigger] flat_nodes(
                vec_views(groups@),
            )[i] < feed_count) && flat_nodes(vec_views(groups@)).len() <= usize::MAX,
        r matches Ok(n) ==> n == flat_nodes(vec_views(groups@)).len() && forall|i: int|
            0 <= i < flat_nodes(vec_views(groups@)).len() ==> #[trigger] flat_nodes(
                vec_views(groups@),
            )[i] < feed_count,
{
    let ghost views = vec_views(groups@);
    let mut total: usize = 0;
    let mut k: usize = 0;
    proof {
        assert(views.take(0) =~= Seq::<Seq<usize>>::empty());
    }
    while k < groups.len()
        invariant
            k <= groups.len(),
            views == vec_views(groups@),
            total == flat_nodes(views.take(k as int)).len(),
            forall|i: int|
                0 <= i < flat_nodes(views.take(k as int)).len() ==> #[trigger] flat_nodes(
                    views.take(k as int),
                )[i] < feed_count,
        decreases groups.len() - k,
    {
        let group = &groups[k];
        proof {
            lemma_flat_nodes_push(views, k as int);
            assert(views[k as int] == group@);
        }
        let mut j: usize = 0;
        while j < group.len()
            invariant
                j <= group.len(),
                k < groups.len(),
                views == vec_views(groups@),
                views[k as int] == group@,
                flat_nodes(views.take(k + 1)) == flat_nodes(views.take(k as int)) + views[k as int],
                forall|i: int| 0 <= i < j ==> #[trigger] group@[i] < feed_count,
            decreases group.len() - j,
        {
            if group[j] >= feed_count {
                proof {
                    let prev = flat_nodes(views.take(k as int));
                    lemma_flat_nodes_prefix(views, k + 1);
                    assert(flat_nodes(views.take(k + 1))[prev.len() + j] == group@[j as int]);
                    assert(flat_nodes(views)[prev.len() + j] == group@[j as int]);
                }
                return Err(CircuitError::NodeOutOfRange { node: group[j] });
            }
            j = j + 1;
        }
        if total > usize::MAX - group.len() {
            proof {
                lemma_flat_nodes_prefix(views, k + 1);
            }
            return Err(CircuitError::TooLarge);
        }
        total = total + group.len();
        proof {
            let prev = flat_nodes(views.take(k as int));
            assert forall|i: int| 0 <= i < flat_nodes(views.take(k + 1)).len() implies #[trigger] flat_nodes(
                views.take(k + 1),
            )[i] < feed_count by {
                if i >= prev.len() {
                    assert(flat_nodes(views.take(k + 1))[i] == group@[i - prev.len()]);
                } else {
                    assert(flat_nodes(views.take(k + 1))[i] == prev[i]);
                }
            }
        }
        k = k + 1;
    }
    proof {
        assert(views.take(groups.len() as int) =~= views);
    }
    Ok(total)
}

impl Circuit {
    /// Builds a circuit, checking that every node lies below `feed_count`.
    pub fn new(
        inputs: Vec<Vec<usize>>,
        outputs: Vec<Vec<usize>>,
        gates: Vec<Gate>,
        feed_count: usize,
    ) -> (r: Result<Circuit, CircuitError>)
        ensures
            r matches Ok(c) ==> c.wf() && c.input_nodes() == vec_views(inputs@) && c.output_nodes()
                == vec_views(outputs@) && c.gate_seq() == gates@ && c.feeds() == feed_count,
            r is Ok <==> ({
                &&& forall|i: int| 0 <= i < gates.len() ==> gate_fits(#[trigger] gates@[i], feed_count as nat)
                &&& forall|i: int|
                    0 <= i < flat_nodes(vec_views(inputs@)).len() ==> #[trigger] flat_nodes(
                        vec_views(inputs@),
                    )[i] < feed_count
                &&& forall|i: int|
                    0 <= i < flat_nodes(vec_views(outputs@)).len() ==> #[trigger] flat_nodes(
                        vec_views(outputs@),
                    )[i] < feed_count
                &&& flat_nodes(vec_views(inputs@)).len() <= usize::MAX
                &&& flat_nodes(vec_views(outputs@)).len() <= usize::MAX
            }),
    {
        let input_len = match check_groups(&inputs, feed_count) {
            Ok(n) => n,
            Err(e) => return Err(e),
        };
        let output_len = match check_groups(&outputs, feed_count) {
            Ok(n) => n,
            Err(e) => return Err(e),
        };
        let mut and_count: usize = 0;
        let mut k: usize = 0;
        proof {
            assert(gates@.take(0) =~= Seq::<Gate>::empty());
        }
        while k < gates.len()
            invariant
                k <= gates.len(),
                and_count == and_gates(gates@.take(k as int)),
                and_count <= k,
                forall|i: int| 0 <= i < k ==> gate_fits(#[trigger] gates@[i], feed_count as nat),
            decreases gates.len() - k,
        {
            let fits = match gates[k] {
                Gate::Xor { x, y, z } => {
                    if x >= feed_count { return Err(CircuitError::NodeOutOfRange { node: x }); }
                    if y >= feed_count { return Err(CircuitError::NodeOutOfRange { node: y }); }
                    if z >= feed_count { return Err(CircuitError::NodeOutOfRange { node: z }); }
                    false
                },
                Gate::And { x, y, z } => {
                    if x >= feed_count { return Err(CircuitError::NodeOutOfRange { node: x }); }
                    if y >= feed_count { return Err(CircuitError::NodeOutOfRange { node: y }); }
                    if z >= feed_count { return Err(CircuitError::NodeOutOfRange { node: z }); }
                    true
                },
                Gate::Inv { x, z } => {
                    if x >= feed_count { return Err(CircuitError::NodeOutOfRange { node: x }); }
                    if z >= feed_count { return Err(CircuitError::NodeOutOfRange { node: z }); }
                    false
                },
            };
            proof {
                lemma_and_gates_push(gates@, k as int);
            }
            if fits {
                and_count = and_count + 1;
            }
            k = k + 1;
        }
        proof {
            assert(gates@.take(gates.len() as int) =~= gates@);
        }
        Ok(Circuit { inputs, outputs, gates, feed_count, and_count, input_len, output_len })
    }
}

impl Circuit {
    /// Returns the nodes of each input.
    pub fn inputs(&self) -> (r: &[Vec<usize>])
        ensures
            vec_views(r@) == self.input_nodes(),
    {
        self.inputs.as_slice()
    }

    /// Returns the nodes of each output.
    pub fn outputs(&self) -> (r: &[Vec<usize>])
        ensures
            vec_views(r@) == self.output_nodes(),
    {
        self.outputs.as_slice()
    }

    /// Returns the gates, in order.
    pub fn gates(&self) -> (r: &[Gate])
        ensures
            r@ == self.gate_seq(),
    {
        self.gates.as_slice()
    }

    /// Returns the number of nodes.
    pub fn feed_count(&self) -> (r: usize)
        ensures
            r == self.feeds(),
    {
        self.feed_count
    }

    /// Returns the number of AND gates.
    pub fn and_count(&self) -> (r: usize)
        ensures
            r == self.and_count_spec(),
    {
        self.and_count
    }

    /// Returns the number of input nodes.
    pub fn input_len(&self) -> (r: usize)
        ensures
            r == self.input_len_spec(),
    {
        self.input_len
    }

    /// Returns the number of output nodes.
    pub fn output_len(&self) -> (r: usize)
        ensures
            r == self.output_len_spec(),
    {
        self.output_len
    }
}

} // verus!
