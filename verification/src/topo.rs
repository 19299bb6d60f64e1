//! The topological sequencer.
//!
//! Given a root, a depth-first traversal records every reachable node in
//! post-order: a node is appended only after all of its operands. The
//! backward engine consumes the sequence in reverse, so a node is processed
//! only after every node that depends on it has contributed to its
//! gradient — the ordering that makes accumulation correct for shared
//! subexpressions reached along paths of different lengths, where a plain
//! breadth-first collection would process a shared node too early.

use crate::graph::{node_wf_at, Graph, Node};
use vstd::prelude::*;

verus! {

/// Reachability along operand edges: a node reaches itself, and reaches
/// whatever one of its operands reaches. Operands of a well-formed node
/// have strictly smaller indices, which bounds the recursion.
pub open spec fn reachable(nodes: Seq<Node>, from: int, to: int) -> bool
    decreases from,
{
    ||| from == to
    ||| (0 <= from < nodes.len() && exists|k: int|
        0 <= k < nodes[from].operands@.len() && (nodes[from].operands@[k] as int) < from
            && reachable(nodes, nodes[from].operands@[k] as int, to))
}

/// An operand of a well-formed node is reachable from it.
pub proof fn lemma_reachable_step(nodes: Seq<Node>, i: int, k: int)
    requires
        0 <= i < nodes.len(),
        node_wf_at(nodes, i),
        0 <= k < nodes[i].operands@.len(),
    ensures
        reachable(nodes, i, nodes[i].operands@[k] as int),
{
    let j = nodes[i].operands@[k] as int;
    assert(j < i);
    assert(reachable(nodes, j, j));
    assert(0 <= k < nodes[i].operands@.len() && (nodes[i].operands@[k] as int) < i && reachable(
        nodes,
        nodes[i].operands@[k] as int,
        j,
    ));
}

/// Reachability is transitive.
pub proof fn lemma_reachable_trans(nodes: Seq<Node>, a: int, b: int, c: int)
    requires
        reachable(nodes, a, b),
        reachable(nodes, b, c),
    ensures
        reachable(nodes, a, c),
    decreases a,
{
    if a != b {
        let k = choose|k: int|
            0 <= k < nodes[a].operands@.len() && (nodes[a].operands@[k] as int) < a && reachable(
                nodes,
                nodes[a].operands@[k] as int,
                b,
            );
        lemma_reachable_trans(nodes, nodes[a].operands@[k] as int, b, c);
    }
}

/// Edges point to strictly smaller indices, so a reached node's index never
/// exceeds the index it was reached from.
pub proof fn lemma_reachable_le(nodes: Seq<Node>, a: int, b: int)
    requires
        reachable(nodes, a, b),
    ensures
        b <= a,
    decreases a,
{
    if a != b {
        let k = choose|k: int|
            0 <= k < nodes[a].operands@.len() && (nodes[a].operands@[k] as int) < a && reachable(
                nodes,
                nodes[a].operands@[k] as int,
                b,
            );
        lemma_reachable_le(nodes, nodes[a].operands@[k] as int, b);
    }
}

/// Appending to a sequence adds exactly one member.
proof fn lemma_push_contains(s: Seq<usize>, x: usize, y: usize)
    ensures
        s.push(x).contains(y) <==> (s.contains(y) || y == x),
{
    if s.contains(y) {
        let p = choose|p: int| 0 <= p < s.len() && s[p] == y;
        assert(s.push(x)[p] == y);
    }
    if y == x {
        assert(s.push(x)[s.len() as int] == y);
    }
    if s.push(x).contains(y) && y != x {
        let p = choose|p: int| 0 <= p < s.push(x).len() && s.push(x)[p] == y;
        assert(s[p] == y);
    }
}

/// A duplicate-free sequence stays duplicate-free when a fresh element is
/// appended.
proof fn lemma_push_no_duplicates(s: Seq<usize>, x: usize)
    requires
        s.no_duplicates(),
        !s.contains(x),
    ensures
        s.push(x).no_duplicates(),
{
    assert forall|p: int, q: int|
        0 <= p < s.push(x).len() && 0 <= q < s.push(x).len() && p != q implies s.push(x)[p]
        != s.push(x)[q] by {
        if p < s.len() && q < s.len() {
        } else if p < s.len() {
            assert(s.contains(s[p]));
        } else if q < s.len() {
            assert(s.contains(s[q]));
        }
    }
}

/// The traversal invariant: marks and the recorded sequence agree (a node
/// is marked exactly when it has been recorded), the sequence has no
/// duplicates and only in-range entries, every recorded node's operands
/// are recorded before it, and the marked set is closed under
/// reachability.
pub open spec fn dfs_inv(nodes: Seq<Node>, visited: Seq<bool>, order: Seq<usize>) -> bool {
    &&& nodes.len() <= usize::MAX
    &&& visited.len() == nodes.len()
    &&& order.no_duplicates()
    &&& forall|p: int| 0 <= p < order.len() ==> (#[trigger] order[p] as int) < nodes.len()
    &&& forall|k: int|
        0 <= k < nodes.len() ==> ((#[trigger] visited[k]) <==> order.contains(k as usize))
    &&& forall|p: int, k: int|
        0 <= p < order.len() && 0 <= k < nodes[order[p] as int].operands@.len() ==> order.take(
            p,
        ).contains(#[trigger] nodes[order[p] as int].operands@[k])
    &&& forall|a: int, b: int|
        0 <= a < nodes.len() && 0 <= b < nodes.len() && #[trigger] visited[a] && #[trigger]
        reachable(nodes, a, b) ==> visited[b]
}

/// Depth-first traversal from node `i`: visit the unvisited operands, then
/// record `i` itself, in post-order. Marks are set when a node is
/// recorded, and operands have smaller indices than `i`, so the recursion
/// terminates and never revisits a recorded node.
fn dfs(g: &Graph, i: usize, visited: &mut Vec<bool>, order: &mut Vec<usize>)
    requires
        g.wf(),
        i < g.nodes@.len(),
        dfs_inv(g.nodes@, old(visited)@, old(order)@),
        !old(visited)@[i as int],
    ensures
        dfs_inv(g.nodes@, final(visited)@, final(order)@),
        final(visited)@.len() == old(visited)@.len(),
        forall|k: int|
            0 <= k < old(visited)@.len() && old(visited)@[k] ==> #[trigger] final(visited)@[k],
        final(visited)@[i as int],
        forall|k: int|
            0 <= k < old(visited)@.len() && #[trigger] final(visited)@[k] && !old(visited)@[k]
                ==> reachable(g.nodes@, i as int, k),
        forall|k: int|
            0 <= k < old(visited)@.len() && #[trigger] reachable(g.nodes@, i as int, k)
                ==> final(visited)@[k],
        final(order)@.len() > 0 && final(order)@.last() == i,
    decreases i,
{
    let ghost entry_visited = visited@;
    proof {
        assert(node_wf_at(g.nodes@, i as int));
    }
    let mut k: usize = 0;
    while k < g.nodes[i].operands.len()
        invariant
            g.wf(),
            i < g.nodes@.len(),
            k <= g.nodes@[i as int].operands@.len(),
            dfs_inv(g.nodes@, visited@, order@),
            visited@.len() == entry_visited.len(),
            entry_visited.len() == g.nodes@.len(),
            forall|m: int|
                0 <= m < entry_visited.len() && entry_visited[m] ==> #[trigger] visited@[m],
            forall|m: int|
                0 <= m < k ==> #[trigger] visited@[g.nodes@[i as int].operands@[m] as int],
            forall|b: int|
                0 <= b < visited@.len() && #[trigger] visited@[b] && !entry_visited[b]
                    ==> reachable(g.nodes@, i as int, b),
            !visited@[i as int],
        decreases g.nodes@[i as int].operands@.len() - k,
    {
        let j = g.nodes[i].operands[k];
        proof {
            assert(node_wf_at(g.nodes@, i as int));
            assert((j as int) < i);
            lemma_reachable_step(g.nodes@, i as int, k as int);
        }
        if !visited[j] {
            let ghost before_call = visited@;
            dfs(g, j, visited, order);
            proof {
                assert forall|b: int|
                    0 <= b < visited@.len() && #[trigger] visited@[b] && !entry_visited[b] implies
                    reachable(g.nodes@, i as int, b) by {
                    if before_call[b] {
                    } else {
                        lemma_reachable_trans(g.nodes@, i as int, j as int, b);
                    }
                }
                assert(!visited@[i as int]) by {
                    if visited@[i as int] {
                        assert(!before_call[i as int]);
                        lemma_reachable_le(g.nodes@, j as int, i as int);
                    }
                }
            }
        }
        k = k + 1;
    }
    let ghost pre_mark = visited@;
    let ghost pre_order = order@;
    visited[i] = true;
    order.push(i);
    proof {
        let nodes = g.nodes@;
        let ops = nodes[i as int].operands@;
        // Every operand of `i` was marked by the loop, hence already recorded.
        assert forall|m: int| 0 <= m < ops.len() implies pre_order.contains(ops[m]) by {
            assert(pre_mark[ops[m] as int]);
        }
        // The recorded sequence gains exactly `i`, which was not yet present.
        assert(!pre_order.contains(i)) by {
            assert(!pre_mark[i as int]);
        }
        lemma_push_no_duplicates(pre_order, i);
        assert forall|y: usize| true implies (order@.contains(y) <==> (pre_order.contains(y) || y
            == i)) by {
            lemma_push_contains(pre_order, i, y);
        }
        // The earlier entries and their prefixes are untouched by the push.
        assert forall|p: int| 0 <= p < pre_order.len() implies order@.take(p) == pre_order.take(
            p,
        ) by {
            assert(order@.take(p) =~= pre_order.take(p));
        }
        assert(order@.take(pre_order.len() as int) =~= pre_order);
        assert(order@[pre_order.len() as int] == i);
        // Closure under reachability, with `i` newly marked: anything `i`
        // reaches is `i` itself or is reached through a marked operand.
        assert forall|a: int, b: int|
            0 <= a < nodes.len() && 0 <= b < nodes.len() && #[trigger] visited@[a] && #[trigger]
            reachable(nodes, a, b) implies visited@[b] by {
            if a != i {
                assert(pre_mark[a]);
            } else {
                if b != i {
                    let kk = choose|kk: int|
                        0 <= kk < ops.len() && (ops[kk] as int) < i && reachable(
                            nodes,
                            ops[kk] as int,
                            b,
                        );
                    assert(pre_mark[ops[kk] as int]);
                }
            }
        }
        assert(visited@.len() == nodes.len());
        assert(order@.no_duplicates());
        assert(forall|p: int| 0 <= p < order@.len() ==> (#[trigger] order@[p] as int)
            < nodes.len());
        assert forall|k2: int|
            0 <= k2 < nodes.len() implies ((#[trigger] visited@[k2]) <==> order@.contains(
            k2 as usize,
        )) by {
            lemma_push_contains(pre_order, i, k2 as usize);
            if k2 != i as int {
                assert(pre_mark[k2] <==> pre_order.contains(k2 as usize));
            }
        }
        assert forall|p: int, k2: int|
            0 <= p < order@.len() && 0 <= k2 < nodes[order@[p] as int].operands@.len() implies
            order@.take(p).contains(#[trigger] nodes[order@[p] as int].operands@[k2]) by {
            if p < pre_order.len() {
                assert(pre_order.take(p).contains(nodes[pre_order[p] as int].operands@[k2]));
            } else {
                assert(order@[p] == i);
            }
        }
        assert(dfs_inv(nodes, visited@, order@));
        // Completeness: whatever `i` reaches is marked now.
        assert forall|b: int|
            0 <= b < entry_visited.len() && #[trigger] reachable(nodes, i as int, b) implies
            visited@[b] by {
            if b != i {
                let kk = choose|kk: int|
                    0 <= kk < ops.len() && (ops[kk] as int) < i && reachable(
                        nodes,
                        ops[kk] as int,
                        b,
                    );
                assert(pre_mark[ops[kk] as int]);
            }
        }
    }
}

/// A dependency-respecting ordering of the nodes reachable from a root:
/// each reachable node appears exactly once, every node appears strictly
/// after all of its operands, and the root comes last.
pub open spec fn is_valid_topo(nodes: Seq<Node>, root: int, topo: Seq<usize>) -> bool {
    &&& nodes.len() <= usize::MAX
    &&& topo.no_duplicates()
    &&& forall|p: int|
        0 <= p < topo.len() ==> (#[trigger] topo[p] as int) < nodes.len() && reachable(
            nodes,
            root,
            topo[p] as int,
        )
    &&& forall|i: int|
        0 <= i < nodes.len() && #[trigger] reachable(nodes, root, i) ==> topo.contains(i as usize)
    &&& forall|p: int, k: int|
        0 <= p < topo.len() && 0 <= k < nodes[topo[p] as int].operands@.len() ==> topo.take(
            p,
        ).contains(#[trigger] nodes[topo[p] as int].operands@[k])
    &&& topo.len() >= 1
    &&& topo.last() as int == root
}

/// Compute the topological sequence of the graph below `root`: depth-first
/// post-order, every reachable node exactly once, operands always before
/// the nodes derived from them. A root with no operands yields the
/// one-element sequence of itself.
pub fn parse_topology(g: &Graph, root: usize) -> (order: Vec<usize>)
    requires
        g.wf(),
        root < g.nodes@.len(),
    ensures
        is_valid_topo(g.nodes@, root as int, order@),
{
    let n = g.nodes.len();
    let mut visited: Vec<bool> = Vec::new();
    let mut k: usize = 0;
    while k < n
        invariant
            k <= n,
            visited@.len() == k,
            forall|m: int| 0 <= m < k ==> !(#[trigger] visited@[m]),
        decreases n - k,
    {
        visited.push(false);
        k = k + 1;
    }
    let mut order: Vec<usize> = Vec::new();
    proof {
        assert(order@.len() == 0);
        assert(dfs_inv(g.nodes@, visited@, order@));
    }
    dfs(g, root, &mut visited, &mut order);
    proof {
        assert forall|p: int| 0 <= p < order@.len() implies (#[trigger] order@[p] as int)
            < g.nodes@.len() && reachable(g.nodes@, root as int, order@[p] as int) by {
            assert(order@.contains(order@[p]));
            assert(visited@[order@[p] as int]);
        }
        assert forall|i: int|
            0 <= i < g.nodes@.len() && #[trigger] reachable(g.nodes@, root as int, i) implies
            order@.contains(i as usize) by {
            assert(visited@[i]);
        }
    }
    order
}

} // verus!
