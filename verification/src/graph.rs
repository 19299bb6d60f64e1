//! The expression graph: an arena of nodes addressed by index.
//!
//! A node's operands are indices of strictly earlier entries in the arena,
//! so the operand relation is acyclic by construction. A node's value and
//! structure never change once it is built; only its gradient cell, kept in
//! a vector parallel to the arena, is mutated — and only by the backward
//! engine, by addition.

use crate::rat::{rat_eq, rat_wf, rat_zero, spec_add, spec_div, spec_mul, spec_sub, Rat};
use vstd::prelude::*;

verus! {

/// How a node came to be: a directly supplied leaf, or one of the four
/// arithmetic operations applied to two earlier nodes.
#[derive(Clone, Copy, Debug, PartialEq, Eq, Structural)]
pub enum Op {
    Leaf,
    Add,
    Sub,
    Mul,
    Div,
}

/// The operand count that an operation tag demands.
pub open spec fn arity(op: Op) -> nat {
    match op {
        Op::Leaf => 0nat,
        _ => 2nat,
    }
}

/// One vertex of the expression graph: an immutable value, the operation
/// that produced it, the arena indices of its operands, and a diagnostic
/// label that plays no part in equality.
#[derive(Clone, Debug)]
pub struct Node {
    pub value: Rat,
    pub op: Op,
    pub operands: Vec<usize>,
    pub label: String,
}

/// Structural equality of nodes: value (as scalars), operation and
/// operands; the label is ignored.
pub open spec fn node_eq(a: Node, b: Node) -> bool {
    &&& rat_eq(a.value, b.value)
    &&& a.op == b.op
    &&& a.operands@ == b.operands@
}

/// Well-formedness of the node at position `i` of an arena: its value is a
/// well-formed scalar, its operand count matches its operation's arity, and
/// every operand is a strictly earlier node.
pub open spec fn node_wf_at(nodes: Seq<Node>, i: int) -> bool {
    &&& rat_wf(nodes[i].value)
    &&& nodes[i].operands@.len() == arity(nodes[i].op)
    &&& forall|k: int|
        0 <= k < nodes[i].operands@.len() ==> (nodes[i].operands@[k] as int) < i
}

impl Node {
    /// A standalone leaf node wrapping a scalar. Gradient cells live in the
    /// graph, not in the node.
    pub fn new(value: Rat, label: String) -> (n: Node)
        ensures
            n.value == value,
            n.op == Op::Leaf,
            n.operands@.len() == 0,
            n.label == label,
    {
        Node { value, op: Op::Leaf, operands: Vec::new(), label }
    }

    /// A node built from every field, mainly for expected-value fixtures.
    /// The supplied gradient plays no role in graph semantics — a fresh
    /// node's gradient is always zero — and is discarded.
    pub fn new_full(value: Rat, operands: Vec<usize>, _grad: Rat, op: Op, label: String) -> (n:
        Node)
        ensures
            n.value == value,
            n.op == op,
            n.operands == operands,
            n.label == label,
    {
        Node { value, op, operands, label }
    }
}

impl PartialEq for Node {
    /// Equality over value, operation and operands, ignoring the label.
    fn eq(&self, other: &Node) -> (r: bool) {
        if !(self.value == other.value) {
            return false;
        }
        if !(self.op == other.op) {
            return false;
        }
        if self.operands.len() != other.operands.len() {
            return false;
        }
        let mut k: usize = 0;
        while k < self.operands.len()
            invariant
                k <= self.operands@.len(),
                self.operands@.len() == other.operands@.len(),
                forall|m: int| 0 <= m < k ==> self.operands@[m] == other.operands@[m],
            decreases self.operands@.len() - k,
        {
            if self.operands[k] != other.operands[k] {
                return false;
            }
            k = k + 1;
        }
        proof {
            assert(self.operands@ =~= other.operands@);
        }
        true
    }
}

impl vstd::std_specs::cmp::PartialEqSpecImpl for Node {
    open spec fn obeys_eq_spec() -> bool {
        true
    }

    open spec fn eq_spec(&self, other: &Node) -> bool {
        node_eq(*self, *other)
    }
}

/// An expression graph: the node arena and, beside it, one gradient cell
/// per node.
#[derive(Debug)]
pub struct Graph {
    pub nodes: Vec<Node>,
    pub grads: Vec<Rat>,
}

impl Graph {
    /// Well-formedness: one gradient per node, every node well-formed at
    /// its position, every gradient a well-formed scalar.
    pub open spec fn wf(self) -> bool {
        &&& self.grads@.len() == self.nodes@.len()
        &&& forall|i: int| 0 <= i < self.nodes@.len() ==> node_wf_at(self.nodes@, i)
        &&& forall|i: int| 0 <= i < self.grads@.len() ==> rat_wf(self.grads@[i])
    }

    /// An empty graph.
    pub fn new() -> (g: Graph)
        ensures
            g.wf(),
            g.nodes@.len() == 0,
    {
        Graph { nodes: Vec::new(), grads: Vec::new() }
    }

    /// The number of nodes in the graph.
    pub fn len(&self) -> (n: usize)
        ensures
            n == self.nodes@.len(),
    {
        self.nodes.len()
    }

    /// The node at a position, for inspection and comparison.
    pub fn node(&self, i: usize) -> (n: &Node)
        requires
            i < self.nodes@.len(),
        ensures
            *n == self.nodes@[i as int],
    {
        &self.nodes[i]
    }

    /// The scalar a node represents; immutable after construction.
    pub fn value_of(&self, i: usize) -> (v: Rat)
        requires
            i < self.nodes@.len(),
        ensures
            v == self.nodes@[i as int].value,
    {
        self.nodes[i].value
    }

    /// The gradient accumulated at a node so far.
    pub fn gradient_of(&self, i: usize) -> (v: Rat)
        requires
            self.wf(),
            i < self.nodes@.len(),
        ensures
            v == self.grads@[i as int],
    {
        self.grads[i]
    }

    /// Wrap a scalar as a fresh leaf node with gradient zero.
    pub fn leaf(&mut self, value: Rat, label: String) -> (id: usize)
        requires
            old(self).wf(),
            rat_wf(value),
        ensures
            final(self).wf(),
            id == old(self).nodes@.len(),
            final(self).nodes@.len() == old(self).nodes@.len() + 1,
            forall|j: int|
                0 <= j < old(self).nodes@.len() ==> final(self).nodes@[j] == old(self).nodes@[j],
            final(self).grads@ == old(self).grads@.push(rat_zero()),
            final(self).nodes@[id as int].value == value,
            final(self).nodes@[id as int].op == Op::Leaf,
            final(self).nodes@[id as int].operands@.len() == 0,
            final(self).nodes@[id as int].label == label,
    {
        let id = self.nodes.len();
        self.nodes.push(Node { value, op: Op::Leaf, operands: Vec::new(), label });
        self.grads.push(Rat::zero());
        proof {
            assert forall|i: int| 0 <= i < self.nodes@.len() implies node_wf_at(
                self.nodes@,
                i,
            ) by {
                if i < id {
                    assert(node_wf_at(old(self).nodes@, i));
                    assert(self.nodes@[i] == old(self).nodes@[i]);
                }
            }
        }
        id
    }

    /// Append a binary node: the computed value, the operation tag, and the
    /// two operands in order.
    fn push_binary(&mut self, op: Op, value: Rat, a: usize, b: usize) -> (id: usize)
        requires
            old(self).wf(),
            a < old(self).nodes@.len(),
            b < old(self).nodes@.len(),
            rat_wf(value),
            op != Op::Leaf,
        ensures
            final(self).wf(),
            id == old(self).nodes@.len(),
            final(self).nodes@.len() == old(self).nodes@.len() + 1,
            forall|j: int|
                0 <= j < old(self).nodes@.len() ==> final(self).nodes@[j] == old(self).nodes@[j],
            final(self).grads@ == old(self).grads@.push(rat_zero()),
            final(self).nodes@[id as int].value == value,
            final(self).nodes@[id as int].op == op,
            final(self).nodes@[id as int].operands@ == seq![a, b],
    {
        let id = self.nodes.len();
        let mut operands: Vec<usize> = Vec::new();
        operands.push(a);
        operands.push(b);
        self.nodes.push(Node { value, op, operands, label: String::new() });
        self.grads.push(Rat::zero());
        proof {
            assert(self.nodes@[id as int].operands@ =~= seq![a, b]);
            assert forall|i: int| 0 <= i < self.nodes@.len() implies node_wf_at(
                self.nodes@,
                i,
            ) by {
                if i < id {
                    assert(node_wf_at(old(self).nodes@, i));
                    assert(self.nodes@[i] == old(self).nodes@[i]);
                }
            }
        }
        id
    }

    /// Apply addition to two nodes: a new node holding the exact sum of
    /// their values, with the operands recorded in order. Neither operand
    /// is touched.
    pub fn add(&mut self, a: usize, b: usize) -> (id: usize)
        requires
            old(self).wf(),
            a < old(self).nodes@.len(),
            b < old(self).nodes@.len(),
        ensures
            final(self).wf(),
            id == old(self).nodes@.len(),
            final(self).nodes@.len() == old(self).nodes@.len() + 1,
            forall|j: int|
                0 <= j < old(self).nodes@.len() ==> final(self).nodes@[j] == old(self).nodes@[j],
            final(self).grads@ == old(self).grads@.push(rat_zero()),
            final(self).nodes@[id as int].value == spec_add(
                old(self).nodes@[a as int].value,
                old(self).nodes@[b as int].value,
            ),
            final(self).nodes@[id as int].op == Op::Add,
            final(self).nodes@[id as int].operands@ == seq![a, b],
    {
        proof {
            assert(node_wf_at(self.nodes@, a as int));
            assert(node_wf_at(self.nodes@, b as int));
        }
        let v = self.nodes[a].value.add(self.nodes[b].value);
        self.push_binary(Op::Add, v, a, b)
    }

    /// Apply subtraction to two nodes; operand order matters, since the
    /// derivative is asymmetric.
    pub fn sub(&mut self, a: usize, b: usize) -> (id: usize)
        requires
            old(self).wf(),
            a < old(self).nodes@.len(),
            b < old(self).nodes@.len(),
        ensures
            final(self).wf(),
            id == old(self).nodes@.len(),
            final(self).nodes@.len() == old(self).nodes@.len() + 1,
            forall|j: int|
                0 <= j < old(self).nodes@.len() ==> final(self).nodes@[j] == old(self).nodes@[j],
            final(self).grads@ == old(self).grads@.push(rat_zero()),
            final(self).nodes@[id as int].value == spec_sub(
                old(self).nodes@[a as int].value,
                old(self).nodes@[b as int].value,
            ),
            final(self).nodes@[id as int].op == Op::Sub,
            final(self).nodes@[id as int].operands@ == seq![a, b],
    {
        proof {
            assert(node_wf_at(self.nodes@, a as int));
            assert(node_wf_at(self.nodes@, b as int));
        }
        let v = self.nodes[a].value.sub(self.nodes[b].value);
        self.push_binary(Op::Sub, v, a, b)
    }

    /// Apply multiplication to two nodes.
    pub fn mul(&mut self, a: usize, b: usize) -> (id: usize)
        requires
            old(self).wf(),
            a < old(self).nodes@.len(),
            b < old(self).nodes@.len(),
        ensures
            final(self).wf(),
            id == old(self).nodes@.len(),
            final(self).nodes@.len() == old(self).nodes@.len() + 1,
            forall|j: int|
                0 <= j < old(self).nodes@.len() ==> final(self).nodes@[j] == old(self).nodes@[j],
            final(self).grads@ == old(self).grads@.push(rat_zero()),
            final(self).nodes@[id as int].value == spec_mul(
                old(self).nodes@[a as int].value,
                old(self).nodes@[b as int].value,
            ),
            final(self).nodes@[id as int].op == Op::Mul,
            final(self).nodes@[id as int].operands@ == seq![a, b],
    {
        proof {
            assert(node_wf_at(self.nodes@, a as int));
            assert(node_wf_at(self.nodes@, b as int));
        }
        let v = self.nodes[a].value.mul(self.nodes[b].value);
        self.push_binary(Op::Mul, v, a, b)
    }

    /// Apply division to two nodes. A zero divisor is not an error: the
    /// value degenerates to an infinity or "not a number" and propagates.
    pub fn div(&mut self, a: usize, b: usize) -> (id: usize)
        requires
            old(self).wf(),
            a < old(self).nodes@.len(),
            b < old(self).nodes@.len(),
        ensures
            final(self).wf(),
            id == old(self).nodes@.len(),
            final(self).nodes@.len() == old(self).nodes@.len() + 1,
            forall|j: int|
                0 <= j < old(self).nodes@.len() ==> final(self).nodes@[j] == old(self).nodes@[j],
            final(self).grads@ == old(self).grads@.push(rat_zero()),
            final(self).nodes@[id as int].value == spec_div(
                old(self).nodes@[a as int].value,
                old(self).nodes@[b as int].value,
            ),
            final(self).nodes@[id as int].op == Op::Div,
            final(self).nodes@[id as int].operands@ == seq![a, b],
    {
        proof {
            assert(node_wf_at(self.nodes@, a as int));
            assert(node_wf_at(self.nodes@, b as int));
        }
        let v = self.nodes[a].value.div(self.nodes[b].value);
        self.push_binary(Op::Div, v, a, b)
    }

    /// Relabel a node; labels are diagnostic only and affect nothing else.
    pub fn set_label(&mut self, i: usize, label: String)
        requires
            old(self).wf(),
            i < old(self).nodes@.len(),
        ensures
            final(self).wf(),
            final(self).grads@ == old(self).grads@,
            final(self).nodes@.len() == old(self).nodes@.len(),
            forall|j: int|
                0 <= j < old(self).nodes@.len() && j != i ==> final(self).nodes@[j] == old(
                    self,
                ).nodes@[j],
            final(self).nodes@[i as int].value == old(self).nodes@[i as int].value,
            final(self).nodes@[i as int].op == old(self).nodes@[i as int].op,
            final(self).nodes@[i as int].operands == old(self).nodes@[i as int].operands,
            final(self).nodes@[i as int].label == label,
    {
        self.nodes[i].label = label;
        proof {
            assert forall|j: int| 0 <= j < self.nodes@.len() implies node_wf_at(
                self.nodes@,
                j,
            ) by {
                assert(node_wf_at(old(self).nodes@, j));
                if j != i {
                    assert(self.nodes@[j] == old(self).nodes@[j]);
                }
            }
        }
    }

    /// Reset every accumulated gradient to zero, so that the same graph can
    /// be differentiated afresh.
    pub fn zero_gradients(&mut self)
        requires
            old(self).wf(),
        ensures
            final(self).wf(),
            final(self).nodes@ == old(self).nodes@,
            final(self).grads@.len() == old(self).grads@.len(),
            forall|i: int| 0 <= i < final(self).grads@.len() ==> final(self).grads@[i] == rat_zero(),
    {
        let mut i: usize = 0;
        while i < self.grads.len()
            invariant
                self.wf(),
                i <= self.grads@.len(),
                self.nodes@ == old(self).nodes@,
                self.grads@.len() == old(self).grads@.len(),
                forall|j: int| 0 <= j < i ==> self.grads@[j] == rat_zero(),
            decreases self.grads@.len() - i,
        {
            self.grads[i] = Rat::zero();
            i = i + 1;
        }
    }
}

} // verus!
