//! The engine's guarantees, stated and proved once and for all.
//!
//! Each law speaks about the three-node graph `c = op(a, b)` built from two
//! leaves, over the same spec functions that the executable functions'
//! contracts use: `backward` promises that the final gradients are
//! `run_to` over some dependency-respecting ordering, and these laws pin
//! down what `run_to` yields on that graph, for every such ordering.

use crate::engine::{run_to, spec_derive};
use crate::graph::{node_eq, Node, Op};
use crate::rat::{
    rat_one, rat_wf, rat_zero, spec_add, spec_div, spec_mul, spec_norm, spec_sub, Rat, RAT_BOUND,
};
use crate::topo::{is_valid_topo, reachable};
use vstd::prelude::*;

verus! {

/// The arena holding exactly two leaves of values `x` and `y` and, last, a
/// binary node applying `op` to them in that order.
pub open spec fn two_leaf_graph(nodes: Seq<Node>, x: Rat, y: Rat, op: Op) -> bool {
    &&& nodes.len() == 3
    &&& nodes[0].op == Op::Leaf
    &&& nodes[0].operands@.len() == 0
    &&& nodes[0].value == x
    &&& nodes[1].op == Op::Leaf
    &&& nodes[1].operands@.len() == 0
    &&& nodes[1].value == y
    &&& nodes[2].op == op
    &&& nodes[2].operands@ == seq![0usize, 1usize]
}

/// Normalisation leaves a well-formed scalar unchanged.
proof fn lemma_norm_id(r: Rat)
    requires
        rat_wf(r),
    ensures
        spec_norm(r.num as int, r.den as int) == r,
{
}

/// Adding a well-formed scalar to zero gives it back unchanged.
proof fn lemma_add_zero(r: Rat)
    requires
        rat_wf(r),
    ensures
        spec_add(rat_zero(), r) == r,
{
    lemma_norm_id(r);
    assert(0 * r.den + r.num * 1 == r.num) by (nonlinear_arith);
    assert(1 * r.den == r.den) by (nonlinear_arith);
    assert(spec_add(rat_zero(), r) == spec_norm(r.num as int, r.den as int));
}

/// Multiplying a well-formed scalar by one gives it back unchanged.
proof fn lemma_mul_one(r: Rat)
    requires
        rat_wf(r),
    ensures
        spec_mul(rat_one(), r) == r,
{
    lemma_norm_id(r);
    assert(1 * r.num == r.num) by (nonlinear_arith);
    assert(1 * r.den == r.den) by (nonlinear_arith);
    assert(spec_mul(rat_one(), r) == spec_norm(r.num as int, r.den as int));
}

/// On the two-leaf graph, a dependency-respecting ordering is one of the
/// two permutations that list the leaves first and the root last.
proof fn lemma_two_leaf_topo(nodes: Seq<Node>, x: Rat, y: Rat, op: Op, topo: Seq<usize>)
    requires
        two_leaf_graph(nodes, x, y, op),
        op != Op::Leaf,
        is_valid_topo(nodes, 2, topo),
    ensures
        topo == seq![0usize, 1usize, 2usize] || topo == seq![1usize, 0usize, 2usize],
{
    assert(reachable(nodes, 0, 0));
    assert(reachable(nodes, 1, 1));
    assert(reachable(nodes, 2, 0)) by {
        assert(0 <= 0 < nodes[2].operands@.len() && (nodes[2].operands@[0] as int) < 2
            && reachable(nodes, nodes[2].operands@[0] as int, 0));
    }
    assert(reachable(nodes, 2, 1)) by {
        assert(0 <= 1 < nodes[2].operands@.len() && (nodes[2].operands@[1] as int) < 2
            && reachable(nodes, nodes[2].operands@[1] as int, 1));
    }
    assert(topo.contains(0usize));
    assert(topo.contains(1usize));
    let p0 = choose|p: int| 0 <= p < topo.len() && topo[p] == 0usize;
    let p1 = choose|p: int| 0 <= p < topo.len() && topo[p] == 1usize;
    assert(topo.len() <= 3) by {
        if topo.len() >= 4 {
            assert(topo[0] != topo[1] && topo[0] != topo[2] && topo[0] != topo[3] && topo[1]
                != topo[2] && topo[1] != topo[3] && topo[2] != topo[3]);
            assert((topo[0] as int) < 3 && (topo[1] as int) < 3 && (topo[2] as int) < 3 && (
            topo[3] as int) < 3);
            assert(false);
        }
    }
    assert(topo.len() == 3);
    assert(topo[2] == 2usize);
    assert(p0 < 2 && p1 < 2 && p0 != p1);
    if topo[0] == 0usize {
        assert(topo =~= seq![0usize, 1usize, 2usize]);
    } else {
        assert(topo =~= seq![1usize, 0usize, 2usize]);
    }
}

/// Processing the two-leaf graph in reverse order fires only the root:
/// the leaves are no-ops, so the result does not depend on which of the
/// two valid orderings the sequencer discovered.
proof fn lemma_two_leaf_run(nodes: Seq<Node>, x: Rat, y: Rat, op: Op, topo: Seq<usize>, g0: Seq<
    Rat,
>)
    requires
        two_leaf_graph(nodes, x, y, op),
        op != Op::Leaf,
        is_valid_topo(nodes, 2, topo),
    ensures
        run_to(nodes, g0, topo, 0) == spec_derive(nodes, g0, 2),
{
    lemma_two_leaf_topo(nodes, x, y, op, topo);
    assert(run_to(nodes, g0, topo, 3) == g0);
    assert(run_to(nodes, g0, topo, 2) == spec_derive(nodes, g0, 2));
    assert(spec_derive(nodes, spec_derive(nodes, g0, 2), topo[1] as int) == spec_derive(
        nodes,
        g0,
        2,
    ));
    assert(run_to(nodes, g0, topo, 1) == spec_derive(nodes, g0, 2));
    assert(spec_derive(nodes, spec_derive(nodes, g0, 2), topo[0] as int) == spec_derive(
        nodes,
        g0,
        2,
    ));
    assert(run_to(nodes, g0, topo, 0) == spec_derive(nodes, g0, 2));
}

/// For all leaves `a`, `b` and `c = add(a, b)`: the sum node holds exactly
/// the sum of the leaf values, and after a backward pass from `c` — over
/// any dependency-respecting ordering — all three gradients are exactly
/// one.
pub proof fn law_add_backward(nodes: Seq<Node>, x: Rat, y: Rat, topo: Seq<usize>, g0: Seq<Rat>)
    requires
        two_leaf_graph(nodes, x, y, Op::Add),
        rat_wf(x),
        rat_wf(y),
        nodes[2].value == spec_add(x, y),
        is_valid_topo(nodes, 2, topo),
        g0 == seq![rat_zero(), rat_zero(), rat_one()],
    ensures
        run_to(nodes, g0, topo, 0) == seq![rat_one(), rat_one(), rat_one()],
        (x.den > 0 && y.den > 0 && -RAT_BOUND <= x.num * y.den + y.num * x.den <= RAT_BOUND
            && x.den * y.den <= RAT_BOUND) ==> (nodes[2].value.num == x.num * y.den + y.num * x.den
            && nodes[2].value.den == x.den * y.den),
{
    lemma_two_leaf_run(nodes, x, y, Op::Add, topo, g0);
    assert(spec_add(rat_zero(), rat_one()) == rat_one());
    assert(run_to(nodes, g0, topo, 0) =~= seq![rat_one(), rat_one(), rat_one()]);
    if x.den > 0 && y.den > 0 {
        assert(x.den * y.den > 0) by (nonlinear_arith)
            requires
                x.den > 0,
                y.den > 0,
        ;
    }
}

/// For `c = sub(a, b)`: after a backward pass, the gradient of `a` is
/// exactly one and the gradient of `b` exactly minus one.
pub proof fn law_sub_backward(nodes: Seq<Node>, x: Rat, y: Rat, topo: Seq<usize>, g0: Seq<Rat>)
    requires
        two_leaf_graph(nodes, x, y, Op::Sub),
        rat_wf(x),
        rat_wf(y),
        is_valid_topo(nodes, 2, topo),
        g0 == seq![rat_zero(), rat_zero(), rat_one()],
    ensures
        run_to(nodes, g0, topo, 0) == seq![
            rat_one(),
            (Rat { num: -1i128, den: 1 }),
            rat_one(),
        ],
{
    lemma_two_leaf_run(nodes, x, y, Op::Sub, topo, g0);
    assert(spec_add(rat_zero(), rat_one()) == rat_one());
    assert(spec_sub(rat_zero(), rat_one()) == (Rat { num: -1i128, den: 1 }));
    assert(run_to(nodes, g0, topo, 0) =~= seq![
        rat_one(),
        (Rat { num: -1i128, den: 1 }),
        rat_one(),
    ]);
}

/// For `c = mul(a, b)`: after a backward pass, the gradient of `a` is
/// exactly the value of `b`, and the gradient of `b` exactly the value of
/// `a`.
pub proof fn law_mul_backward(nodes: Seq<Node>, x: Rat, y: Rat, topo: Seq<usize>, g0: Seq<Rat>)
    requires
        two_leaf_graph(nodes, x, y, Op::Mul),
        rat_wf(x),
        rat_wf(y),
        is_valid_topo(nodes, 2, topo),
        g0 == seq![rat_zero(), rat_zero(), rat_one()],
    ensures
        run_to(nodes, g0, topo, 0) == seq![y, x, rat_one()],
{
    lemma_two_leaf_run(nodes, x, y, Op::Mul, topo, g0);
    lemma_norm_id(x);
    lemma_norm_id(y);
    lemma_mul_one(y);
    lemma_mul_one(x);
    lemma_add_zero(y);
    lemma_add_zero(x);
    assert(run_to(nodes, g0, topo, 0) =~= seq![y, x, rat_one()]);
}

/// For `c = div(a, b)` with `b` finite and not zero and `a` finite, and
/// all intermediate products representable: after a backward pass the
/// gradient of `a` equals `1 / value(b)` exactly, and the gradient of `b`
/// equals `-value(a) / value(b)^2` exactly, both stated by
/// cross-multiplication; the root's gradient is one.
pub proof fn law_div_backward(nodes: Seq<Node>, x: Rat, y: Rat, topo: Seq<usize>, g0: Seq<Rat>)
    requires
        two_leaf_graph(nodes, x, y, Op::Div),
        rat_wf(x),
        rat_wf(y),
        x.den > 0,
        y.den > 0,
        y.num != 0,
        y.num * y.num <= RAT_BOUND,
        y.den * y.den <= RAT_BOUND,
        -RAT_BOUND <= x.num * (y.den * y.den) <= RAT_BOUND,
        x.den * (y.num * y.num) <= RAT_BOUND,
        is_valid_topo(nodes, 2, topo),
        g0 == seq![rat_zero(), rat_zero(), rat_one()],
    ensures
        run_to(nodes, g0, topo, 0)[2] == rat_one(),
        run_to(nodes, g0, topo, 0)[0].num * y.num == run_to(nodes, g0, topo, 0)[0].den * y.den,
        run_to(nodes, g0, topo, 0)[0].den > 0,
        run_to(nodes, g0, topo, 0)[1].num * (x.den * (y.num * y.num)) == -(x.num * (y.den
            * y.den)) * run_to(nodes, g0, topo, 0)[1].den,
        run_to(nodes, g0, topo, 0)[1].den > 0,
{
    lemma_two_leaf_run(nodes, x, y, Op::Div, topo, g0);
    let r = run_to(nodes, g0, topo, 0);
    // The contribution to `a`: the reciprocal of `y`.
    let qa = spec_div(rat_one(), y);
    assert(1 * y.den == y.den && 1 * y.num == y.num) by (nonlinear_arith);
    assert(qa == spec_norm(y.den as int, y.num as int));
    assert(rat_wf(qa));
    lemma_add_zero(qa);
    assert(r[0] == qa);
    if y.num > 0 {
        assert(qa.num == y.den && qa.den == y.num);
        assert(y.den * y.num == y.num * y.den) by (nonlinear_arith);
    } else {
        assert(qa.num == -y.den && qa.den == -y.num);
        assert((-y.den) * y.num == (-y.num) * y.den) by (nonlinear_arith);
    }
    // The contribution to `b`: minus `x` over the square of `y`.
    lemma_mul_one(x);
    let yy = spec_mul(y, y);
    assert(y.den * y.den > 0 && y.num * y.num > 0) by (nonlinear_arith)
        requires
            y.den > 0,
            y.num != 0,
    ;
    assert(yy.num == y.num * y.num && yy.den == y.den * y.den);
    let qb = spec_div(x, yy);
    assert(x.num * (y.den * y.den) == x.num * yy.den && x.den * (y.num * y.num) == x.den
        * yy.num) by (nonlinear_arith)
        requires
            yy.num == y.num * y.num,
            yy.den == y.den * y.den,
    ;
    assert(x.den * yy.num > 0) by (nonlinear_arith)
        requires
            x.den > 0,
            yy.num > 0,
    ;
    assert(qb.num == x.num * (y.den * y.den) && qb.den == x.den * (y.num * y.num));
    let gb = spec_sub(rat_zero(), qb);
    assert(0 * qb.den - qb.num * 1 == -qb.num && 1 * qb.den == qb.den) by (nonlinear_arith);
    assert(gb == spec_norm(-(qb.num as int), qb.den as int));
    assert(gb.num == -qb.num && gb.den == qb.den);
    assert(r[1] == gb);
    assert((-qb.num) * (x.den * (y.num * y.num)) == -(x.num * (y.den * y.den)) * qb.den)
        by (nonlinear_arith)
        requires
            qb.num == x.num * (y.den * y.den),
            qb.den == x.den * (y.num * y.num),
    ;
}

/// Equality of nodes never looks at the label: relabelling either side of
/// a comparison leaves its outcome unchanged, so structurally identical
/// graphs built under different labels compare equal.
pub proof fn law_label_ignored(a: Node, b: Node, la: String, lb: String)
    ensures
        node_eq(
            (Node { value: a.value, op: a.op, operands: a.operands, label: la }),
            (Node { value: b.value, op: b.op, operands: b.operands, label: lb }),
        ) == node_eq(a, b),
{
}

/// A second backward pass without a reset accumulates on top of the first:
/// on the two-leaf sum graph both leaf gradients come out exactly double
/// the single-pass gradients. The root is the one reachable node whose
/// gradient does not double — every pass begins by forcing it back to the
/// seed of one.
pub proof fn law_backward_twice_add(
    nodes: Seq<Node>,
    x: Rat,
    y: Rat,
    t1: Seq<usize>,
    t2: Seq<usize>,
    g0: Seq<Rat>,
)
    requires
        two_leaf_graph(nodes, x, y, Op::Add),
        rat_wf(x),
        rat_wf(y),
        is_valid_topo(nodes, 2, t1),
        is_valid_topo(nodes, 2, t2),
        g0 == seq![rat_zero(), rat_zero(), rat_one()],
    ensures
        run_to(nodes, g0, t1, 0) == seq![rat_one(), rat_one(), rat_one()],
        run_to(nodes, run_to(nodes, g0, t1, 0).update(2, rat_one()), t2, 0) == seq![
            (Rat { num: 2, den: 1 }),
            (Rat { num: 2, den: 1 }),
            rat_one(),
        ],
{
    lemma_two_leaf_run(nodes, x, y, Op::Add, t1, g0);
    assert(spec_add(rat_zero(), rat_one()) == rat_one());
    assert(run_to(nodes, g0, t1, 0) =~= seq![rat_one(), rat_one(), rat_one()]);
    let g1 = run_to(nodes, g0, t1, 0);
    assert(g1.update(2, rat_one()) =~= g1);
    lemma_two_leaf_run(nodes, x, y, Op::Add, t2, g1);
    assert(spec_add(rat_one(), rat_one()) == (Rat { num: 2, den: 1 }));
    assert(run_to(nodes, g1, t2, 0) =~= seq![
        (Rat { num: 2, den: 1 }),
        (Rat { num: 2, den: 1 }),
        rat_one(),
    ]);
}

/// The handful of scalar computations that the multi-path law walks
/// through, proved in a context of their own.
proof fn lemma_multipath_arith()
    ensures
        spec_add(rat_zero(), rat_one()) == rat_one(),
        spec_mul(rat_one(), (Rat { num: 6, den: 1 })) == (Rat { num: 6, den: 1 }),
        spec_add(rat_one(), (Rat { num: 6, den: 1 })) == (Rat { num: 7, den: 1 }),
        spec_add((Rat { num: 7, den: 1 }), (Rat { num: 6, den: 1 })) == (Rat { num: 13, den: 1 }),
        spec_mul((Rat { num: 13, den: 1 }), (Rat { num: 3, den: 1 })) == (Rat { num: 39, den: 1 }),
        spec_mul((Rat { num: 13, den: 1 }), (Rat { num: 2, den: 1 })) == (Rat { num: 26, den: 1 }),
        spec_add(rat_zero(), (Rat { num: 39, den: 1 })) == (Rat { num: 39, den: 1 }),
        spec_add(rat_zero(), (Rat { num: 26, den: 1 })) == (Rat { num: 26, den: 1 }),
{
}

/// The graph whose shared node `m` is reachable from the root along paths
/// of different lengths: `r = m + s` directly, and through `s = m * m`.
pub open spec fn multipath_graph(nodes: Seq<Node>) -> bool {
    &&& nodes.len() == 5
    &&& nodes[0].op == Op::Leaf
    &&& nodes[0].operands@.len() == 0
    &&& nodes[0].value == (Rat { num: 2, den: 1 })
    &&& nodes[1].op == Op::Leaf
    &&& nodes[1].operands@.len() == 0
    &&& nodes[1].value == (Rat { num: 3, den: 1 })
    &&& nodes[2].op == Op::Mul
    &&& nodes[2].operands@ == seq![0usize, 1usize]
    &&& nodes[2].value == (Rat { num: 6, den: 1 })
    &&& nodes[3].op == Op::Mul
    &&& nodes[3].operands@ == seq![2usize, 2usize]
    &&& nodes[3].value == (Rat { num: 36, den: 1 })
    &&& nodes[4].op == Op::Add
    &&& nodes[4].operands@ == seq![2usize, 3usize]
    &&& nodes[4].value == (Rat { num: 42, den: 1 })
}

/// Ordering correctness on the multi-path graph: every
/// dependency-respecting ordering lists the shared node `m` after its
/// consumer `s`, so in reverse `m` fires only once both the root's and
/// `s`'s contributions have landed, and the final gradients are the same —
/// and correct — whichever of the valid orderings was discovered. A
/// level-order walk, which fires `m` straight after the root with a
/// gradient of one instead of thirteen, fails this contract and would leak
/// three and two into the leaves instead of thirty-nine and twenty-six.
#[verifier::rlimit(100)]
pub proof fn law_multipath_backward(nodes: Seq<Node>, topo: Seq<usize>, g0: Seq<Rat>)
    requires
        multipath_graph(nodes),
        is_valid_topo(nodes, 4, topo),
        g0 == seq![rat_zero(), rat_zero(), rat_zero(), rat_zero(), rat_one()],
    ensures
        topo == seq![0usize, 1usize, 2usize, 3usize, 4usize] || topo == seq![
            1usize,
            0usize,
            2usize,
            3usize,
            4usize,
        ],
        run_to(nodes, g0, topo, 0) == seq![
            (Rat { num: 39, den: 1 }),
            (Rat { num: 26, den: 1 }),
            (Rat { num: 13, den: 1 }),
            rat_one(),
            rat_one(),
        ],
{
    // Every node is reachable from the root, so every node is listed.
    assert(reachable(nodes, 0, 0) && reachable(nodes, 1, 1) && reachable(nodes, 2, 2)
        && reachable(nodes, 3, 3));
    assert(reachable(nodes, 2, 0)) by {
        assert(0 <= 0 < nodes[2].operands@.len() && (nodes[2].operands@[0] as int) < 2
            && reachable(nodes, nodes[2].operands@[0] as int, 0));
    }
    assert(reachable(nodes, 2, 1)) by {
        assert(0 <= 1 < nodes[2].operands@.len() && (nodes[2].operands@[1] as int) < 2
            && reachable(nodes, nodes[2].operands@[1] as int, 1));
    }
    assert(reachable(nodes, 3, 2) && reachable(nodes, 3, 0) && reachable(nodes, 3, 1)) by {
        assert(0 <= 0 < nodes[3].operands@.len() && (nodes[3].operands@[0] as int) < 3
            && reachable(nodes, nodes[3].operands@[0] as int, 2));
        assert(0 <= 0 < nodes[3].operands@.len() && (nodes[3].operands@[0] as int) < 3
            && reachable(nodes, nodes[3].operands@[0] as int, 0));
        assert(0 <= 0 < nodes[3].operands@.len() && (nodes[3].operands@[0] as int) < 3
            && reachable(nodes, nodes[3].operands@[0] as int, 1));
    }
    assert(reachable(nodes, 4, 2) && reachable(nodes, 4, 3) && reachable(nodes, 4, 0)
        && reachable(nodes, 4, 1)) by {
        assert(0 <= 0 < nodes[4].operands@.len() && (nodes[4].operands@[0] as int) < 4
            && reachable(nodes, nodes[4].operands@[0] as int, 2));
        assert(0 <= 1 < nodes[4].operands@.len() && (nodes[4].operands@[1] as int) < 4
            && reachable(nodes, nodes[4].operands@[1] as int, 3));
        assert(0 <= 0 < nodes[4].operands@.len() && (nodes[4].operands@[0] as int) < 4
            && reachable(nodes, nodes[4].operands@[0] as int, 0));
        assert(0 <= 0 < nodes[4].operands@.len() && (nodes[4].operands@[0] as int) < 4
            && reachable(nodes, nodes[4].operands@[0] as int, 1));
    }
    assert(topo.contains(0usize) && topo.contains(1usize) && topo.contains(2usize)
        && topo.contains(3usize) && topo.contains(4usize));
    assert(topo.len() <= 5) by {
        if topo.len() >= 6 {
            assert((topo[0] as int) < 5 && (topo[1] as int) < 5 && (topo[2] as int) < 5 && (
            topo[3] as int) < 5 && (topo[4] as int) < 5 && (topo[5] as int) < 5);
            assert(topo[0] != topo[1] && topo[0] != topo[2] && topo[0] != topo[3] && topo[0]
                != topo[4] && topo[0] != topo[5] && topo[1] != topo[2] && topo[1] != topo[3]
                && topo[1] != topo[4] && topo[1] != topo[5] && topo[2] != topo[3] && topo[2]
                != topo[4] && topo[2] != topo[5] && topo[3] != topo[4] && topo[3] != topo[5]
                && topo[4] != topo[5]);
            assert(false);
        }
    }
    assert(topo.len() == 5);
    assert(topo[4] == 4usize);
    // The listed positions respect the operand edges: the leaves come
    // before `m`, and `m` before `s`.
    let q0 = choose|p: int| 0 <= p < topo.len() && topo[p] == 0usize;
    let q1 = choose|p: int| 0 <= p < topo.len() && topo[p] == 1usize;
    let q2 = choose|p: int| 0 <= p < topo.len() && topo[p] == 2usize;
    let q3 = choose|p: int| 0 <= p < topo.len() && topo[p] == 3usize;
    assert(topo.take(q3).contains(nodes[topo[q3] as int].operands@[0]));
    let w2 = choose|p: int| 0 <= p < q3 && topo.take(q3)[p] == 2usize;
    assert(topo[w2] == 2usize && w2 == q2);
    assert(q2 < q3);
    assert(topo.take(q2).contains(nodes[topo[q2] as int].operands@[0]));
    assert(topo.take(q2).contains(nodes[topo[q2] as int].operands@[1]));
    let w0 = choose|p: int| 0 <= p < q2 && topo.take(q2)[p] == 0usize;
    let w1 = choose|p: int| 0 <= p < q2 && topo.take(q2)[p] == 1usize;
    assert(topo[w0] == 0usize && w0 == q0);
    assert(topo[w1] == 1usize && w1 == q1);
    assert(q0 < q2 && q1 < q2);
    assert(q0 != q1 && q2 != 4 && q3 != 4 && q0 != 4 && q1 != 4);
    assert(q2 == 2 && q3 == 3);
    if topo[0] == 0usize {
        assert(topo =~= seq![0usize, 1usize, 2usize, 3usize, 4usize]);
    } else {
        assert(topo =~= seq![1usize, 0usize, 2usize, 3usize, 4usize]);
    }
    // Fire the sequence in reverse: the root seeds `m` and `s` with one,
    // `s` pushes six twice more into `m`, and `m` scales thirteen by the
    // opposite leaf values; the leaves themselves are no-ops.
    lemma_multipath_arith();
    let g_r = spec_derive(nodes, g0, 4);
    assert(g_r =~= seq![
        rat_zero(),
        rat_zero(),
        rat_one(),
        rat_one(),
        rat_one(),
    ]);
    let g_s = spec_derive(nodes, g_r, 3);
    assert(g_s =~= seq![
        rat_zero(),
        rat_zero(),
        (Rat { num: 13, den: 1 }),
        rat_one(),
        rat_one(),
    ]);
    let g_m = spec_derive(nodes, g_s, 2);
    assert(g_m =~= seq![
        (Rat { num: 39, den: 1 }),
        (Rat { num: 26, den: 1 }),
        (Rat { num: 13, den: 1 }),
        rat_one(),
        rat_one(),
    ]);
    assert(run_to(nodes, g0, topo, 5) == g0);
    assert(run_to(nodes, g0, topo, 4) == g_r);
    assert(run_to(nodes, g0, topo, 3) == g_s);
    assert(run_to(nodes, g0, topo, 2) == g_m);
    assert(spec_derive(nodes, g_m, topo[1] as int) == g_m);
    assert(run_to(nodes, g0, topo, 1) == g_m);
    assert(spec_derive(nodes, g_m, topo[0] as int) == g_m);
    assert(run_to(nodes, g0, topo, 0) == g_m);
}

} // verus!
