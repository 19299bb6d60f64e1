//! The backward engine.
//!
//! Differentiation seeds the root's gradient with one, computes the
//! topological sequence of the reachable subgraph, and walks that sequence
//! in reverse: at each node the operation's local-derivative rule fires,
//! adding a contribution into each operand's gradient — never overwriting,
//! so shared subexpressions accumulate one contribution per consumer.

use crate::graph::{node_wf_at, Graph, Node, Op};
use crate::rat::{rat_one, spec_add, spec_div, spec_mul, spec_sub, Rat};
use crate::topo::{is_valid_topo, parse_topology};
use vstd::prelude::*;

verus! {

/// The gradients after one node's local-derivative rule has fired, where
/// `up` is the node's own (upstream) gradient and `a`, `b` its operands in
/// order: addition passes `up` to both sides, subtraction negates it for
/// the right side, multiplication scales it by the other operand's value,
/// and division applies the quotient rule. Every contribution is added
/// into the operand's gradient; a leaf changes nothing.
pub open spec fn spec_derive(nodes: Seq<Node>, grads: Seq<Rat>, i: int) -> Seq<Rat> {
    let node = nodes[i];
    let up = grads[i];
    if node.op == Op::Leaf {
        grads
    } else {
        let a = node.operands@[0] as int;
        let b = node.operands@[1] as int;
        let va = nodes[a].value;
        let vb = nodes[b].value;
        match node.op {
            Op::Leaf => grads,
            Op::Add => {
                let g1 = grads.update(a, spec_add(grads[a], up));
                g1.update(b, spec_add(g1[b], up))
            },
            Op::Sub => {
                let g1 = grads.update(a, spec_add(grads[a], up));
                g1.update(b, spec_sub(g1[b], up))
            },
            Op::Mul => {
                let g1 = grads.update(a, spec_add(grads[a], spec_mul(up, vb)));
                g1.update(b, spec_add(g1[b], spec_mul(up, va)))
            },
            Op::Div => {
                let g1 = grads.update(a, spec_add(grads[a], spec_div(up, vb)));
                g1.update(b, spec_sub(g1[b], spec_div(spec_mul(up, va), spec_mul(vb, vb))))
            },
        }
    }
}

/// The gradients after the tail of a topological sequence, from position
/// `p` onwards, has been processed in reverse: the last entry fires first,
/// position `p` fires last.
pub open spec fn run_to(nodes: Seq<Node>, g0: Seq<Rat>, topo: Seq<usize>, p: int) -> Seq<Rat>
    decreases topo.len() - p,
{
    if p < 0 || p >= topo.len() {
        g0
    } else {
        spec_derive(nodes, run_to(nodes, g0, topo, p + 1), topo[p] as int)
    }
}

impl Graph {
    /// Fire one node's local-derivative rule, adding each contribution into
    /// the corresponding operand's gradient. A leaf is a no-op: by the time
    /// it is reached in reverse topological order its gradient is final.
    pub fn derive(&mut self, i: usize)
        requires
            old(self).wf(),
            i < old(self).nodes@.len(),
        ensures
            final(self).wf(),
            final(self).nodes@ == old(self).nodes@,
            final(self).grads@ == spec_derive(old(self).nodes@, old(self).grads@, i as int),
    {
        proof {
            assert(node_wf_at(self.nodes@, i as int));
        }
        match self.nodes[i].op {
            Op::Leaf => {},
            Op::Add => {
                let up = self.grads[i];
                let a = self.nodes[i].operands[0];
                let b = self.nodes[i].operands[1];
                let ga = self.grads[a];
                self.grads[a] = ga.add(up);
                let gb = self.grads[b];
                self.grads[b] = gb.add(up);
            },
            Op::Sub => {
                let up = self.grads[i];
                let a = self.nodes[i].operands[0];
                let b = self.nodes[i].operands[1];
                let ga = self.grads[a];
                self.grads[a] = ga.add(up);
                let gb = self.grads[b];
                self.grads[b] = gb.sub(up);
            },
            Op::Mul => {
                let up = self.grads[i];
                let a = self.nodes[i].operands[0];
                let b = self.nodes[i].operands[1];
                proof {
                    assert(node_wf_at(self.nodes@, a as int));
                    assert(node_wf_at(self.nodes@, b as int));
                }
                let va = self.nodes[a].value;
                let vb = self.nodes[b].value;
                let ga = self.grads[a];
                self.grads[a] = ga.add(up.mul(vb));
                let gb = self.grads[b];
                self.grads[b] = gb.add(up.mul(va));
            },
            Op::Div => {
                let up = self.grads[i];
                let a = self.nodes[i].operands[0];
                let b = self.nodes[i].operands[1];
                proof {
                    assert(node_wf_at(self.nodes@, a as int));
                    assert(node_wf_at(self.nodes@, b as int));
                }
                let va = self.nodes[a].value;
                let vb = self.nodes[b].value;
                let ga = self.grads[a];
                self.grads[a] = ga.add(up.div(vb));
                let gb = self.grads[b];
                self.grads[b] = gb.sub(up.mul(va).div(vb.mul(vb)));
            },
        }
    }

    /// Differentiate the graph at `root`: force the root's gradient to one
    /// (the seed), then fire every reachable node in reverse topological
    /// order, so a node fires only after all of its consumers have
    /// contributed to its gradient. Contributions land on top of whatever
    /// the gradients already hold — repeated passes accumulate; call
    /// `zero_gradients` first to differentiate afresh.
    pub fn backward(&mut self, root: usize)
        requires
            old(self).wf(),
            root < old(self).nodes@.len(),
        ensures
            final(self).wf(),
            final(self).nodes@ == old(self).nodes@,
            exists|topo: Seq<usize>|
                #[trigger] is_valid_topo(old(self).nodes@, root as int, topo)
                    && final(self).grads@ == run_to(
                    old(self).nodes@,
                    old(self).grads@.update(root as int, rat_one()),
                    topo,
                    0,
                ),
    {
        let order = parse_topology(self, root);
        self.grads[root] = Rat::one();
        let ghost seeded = self.grads@;
        let mut p: usize = order.len();
        while p > 0
            invariant
                self.wf(),
                self.nodes@ == old(self).nodes@,
                p <= order@.len(),
                is_valid_topo(self.nodes@, root as int, order@),
                self.grads@ == run_to(self.nodes@, seeded, order@, p as int),
                seeded == old(self).grads@.update(root as int, rat_one()),
            decreases p,
        {
            p = p - 1;
            proof {
                assert((order@[p as int] as int) < self.nodes@.len());
            }
            let idx = order[p];
            let ghost before = self.grads@;
            self.derive(idx);
            proof {
                assert(run_to(self.nodes@, seeded, order@, p as int) == spec_derive(
                    self.nodes@,
                    run_to(self.nodes@, seeded, order@, p as int + 1),
                    order@[p as int] as int,
                ));
            }
        }
        proof {
            assert(is_valid_topo(old(self).nodes@, root as int, order@) && self.grads@ == run_to(
                old(self).nodes@,
                old(self).grads@.update(root as int, rat_one()),
                order@,
                0,
            ));
        }
    }
}

} // verus!
