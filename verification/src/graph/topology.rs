use vstd::prelude::*;

use crate::graph::builder::Builder;
use crate::graph::types::{GraphError, Node, NodeHandle};

verus! {

/// Number of nodes that the depth-first walk can mark.
pub const MAX_SORTED_NODES: usize = 1024;

/// The edges and enable flags of the nodes of a graph, slot by slot.
pub struct EdgeView {
    pub adj: Seq<Seq<NodeHandle>>,
    pub enabled: Seq<bool>,
}

pub open spec fn topology_of(nodes: Seq<Node>) -> EdgeView {
    EdgeView {
        adj: nodes.map_values(|n: Node| n.edges@),
        enabled: nodes.map_values(|n: Node| n.enabled),
    }
}

/// Node `u` exists and has an edge to node `v`.
pub open spec fn has_edge(g: EdgeView, u: usize, v: usize) -> bool {
    &&& u < g.adj.len()
    &&& g.adj[u as int].contains(NodeHandle { index: v })
}

/// Consecutive entries of `p` are joined by edges.
pub open spec fn is_path(g: EdgeView, p: Seq<usize>) -> bool {
    &&& p.len() > 0
    &&& forall|i: int| 0 <= i < p.len() - 1 ==> #[trigger] has_edge(g, p[i], p[i + 1])
}

/// There is a path from `u` to `v` (every node reaches itself).
pub open spec fn reaches(g: EdgeView, u: usize, v: usize) -> bool {
    exists|p: Seq<usize>| #[trigger] is_path(g, p) && p[0] == u && p.last() == v
}

/// `u` is an existing, enabled node that `roots` lists.
pub open spec fn is_root(g: EdgeView, roots: Seq<NodeHandle>, u: usize) -> bool {
    &&& u < g.adj.len()
    &&& g.enabled[u as int]
    &&& roots.contains(NodeHandle { index: u })
}

/// `v` can be reached from an enabled node that `roots` lists.
pub open spec fn reachable(g: EdgeView, roots: Seq<NodeHandle>, v: usize) -> bool {
    exists|u: usize| #[trigger] is_root(g, roots, u) && reaches(g, u, v)
}

/// The nodes that can be reached from the enabled nodes that `roots` lists.
pub open spec fn reach_set(g: EdgeView, roots: Seq<NodeHandle>) -> Set<usize> {
    Set::new(|v: usize| reachable(g, roots, v))
}

/// The walk meets a handle that is no node: one of `roots`, or a node that
/// can be reached.
pub open spec fn walk_meets_invalid(g: EdgeView, roots: Seq<NodeHandle>) -> bool {
    ||| exists|i: int| 0 <= i < roots.len() && roots[i].index >= g.adj.len()
    ||| exists|v: usize| #[trigger] reachable(g, roots, v) && v >= g.adj.len()
}

/// Every node that can be reached has an index that the walk can mark.
pub open spec fn walk_fits(g: EdgeView, roots: Seq<NodeHandle>) -> bool {
    forall|v: usize| #[trigger] reachable(g, roots, v) ==> v < MAX_SORTED_NODES
}

/// Post-order property of `order`: each edge out of `order[k]` leads to a node
/// listed before it, or to a node that reaches `order[k]` back (a cycle).
pub open spec fn is_post_order(g: EdgeView, order: Seq<NodeHandle>) -> bool {
    forall|k: int, v: usize|
        0 <= k < order.len() && #[trigger] has_edge(g, order[k].index, v) ==> (exists|k2: int|
            0 <= k2 < k && order[k2].index == v) || reaches(g, v, order[k].index)
}

/// The indices of a sequence of handles, as a set.
pub open spec fn handle_set(order: Seq<NodeHandle>) -> Set<usize> {
    Set::new(|v: usize| order.contains(NodeHandle { index: v }))
}

proof fn lemma_path_extend(g: EdgeView, p: Seq<usize>, w: usize)
    requires
        is_path(g, p),
        has_edge(g, p.last(), w),
    ensures
        is_path(g, p.push(w)),
        p.push(w)[0] == p[0],
        p.push(w).last() == w,
{
    let q = p.push(w);
    assert forall|i: int| 0 <= i < q.len() - 1 implies #[trigger] has_edge(g, q[i], q[i + 1]) by {
        if i < p.len() - 1 {
            assert(q[i] == p[i] && q[i + 1] == p[i + 1]);
        } else {
            assert(q[i] == p.last());
        }
    }
}

proof fn lemma_reaches_step(g: EdgeView, u: usize, v: usize, w: usize)
    requires
        reaches(g, u, v),
        has_edge(g, v, w),
    ensures
        reaches(g, u, w),
{
    let p = choose|p: Seq<usize>| #[trigger] is_path(g, p) && p[0] == u && p.last() == v;
    lemma_path_extend(g, p, w);
}

proof fn lemma_reaches_self(g: EdgeView, u: usize)
    ensures
        reaches(g, u, u),
{
    let p = seq![u];
    assert(is_path(g, p));
}

proof fn lemma_reachable_step(g: EdgeView, roots: Seq<NodeHandle>, v: usize, w: usize)
    requires
        reachable(g, roots, v),
        has_edge(g, v, w),
    ensures
        reachable(g, roots, w),
{
    let u = choose|u: usize| #[trigger] is_root(g, roots, u) && reaches(g, u, v);
    lemma_reaches_step(g, u, v, w);
}

proof fn lemma_root_reachable(g: EdgeView, roots: Seq<NodeHandle>, u: usize)
    requires
        is_root(g, roots, u),
    ensures
        reachable(g, roots, u),
{
    lemma_reaches_self(g, u);
}

/// A path along `gray` (consecutive entries joined by edges) leads from any
/// entry to the last one.
proof fn lemma_chain_reaches(g: EdgeView, gray: Seq<usize>, i: int)
    requires
        0 <= i < gray.len(),
        forall|k: int| 0 <= k < gray.len() - 1 ==> #[trigger] has_edge(g, gray[k], gray[k + 1]),
    ensures
        reaches(g, gray[i], gray.last()),
{
    let p = gray.subrange(i, gray.len() as int);
    assert forall|k: int| 0 <= k < p.len() - 1 implies #[trigger] has_edge(g, p[k], p[k + 1]) by {
        assert(p[k] == gray[i + k] && p[k + 1] == gray[i + k + 1]);
    }
    assert(is_path(g, p));
}

/// A set that holds `p[0]` and is closed under edges holds the whole path.
proof fn lemma_closed_holds_path(g: EdgeView, p: Seq<usize>, black: spec_fn(usize) -> bool)
    requires
        is_path(g, p),
        black(p[0]),
        forall|x: usize, y: usize| black(x) && #[trigger] has_edge(g, x, y) ==> black(y),
    ensures
        black(p.last()),
    decreases p.len(),
{
    if p.len() > 1 {
        let q = p.drop_last();
        assert forall|i: int| 0 <= i < q.len() - 1 implies #[trigger] has_edge(g, q[i], q[i + 1]) by {
            assert(has_edge(g, p[i], p[i + 1]));
        }
        lemma_closed_holds_path(g, q, black);
        let i = p.len() - 2;
        assert(has_edge(g, p[i], p[i + 1]));
    }
}

/// Weight of the marks: two for an unvisited slot, one for a slot in progress.
spec fn mark_weight(marks: Seq<u8>) -> nat
    decreases marks.len(),
{
    if marks.len() == 0 {
        0
    } else {
        mark_weight(marks.drop_last()) + (if marks.last() == 0 {
            2nat
        } else if marks.last() == 1 {
            1nat
        } else {
            0nat
        })
    }
}

spec fn slot_weight(m: u8) -> nat {
    if m == 0 {
        2
    } else if m == 1 {
        1
    } else {
        0
    }
}

proof fn lemma_mark_weight_update(marks: Seq<u8>, i: int, m: u8)
    requires
        0 <= i < marks.len(),
    ensures
        mark_weight(marks.update(i, m)) + slot_weight(marks[i]) == mark_weight(marks) + slot_weight(m),
    decreases marks.len(),
{
    let u = marks.update(i, m);
    if i == marks.len() - 1 {
        assert(u.drop_last() =~= marks.drop_last());
    } else {
        assert(u.drop_last() =~= marks.drop_last().update(i, m));
        lemma_mark_weight_update(marks.drop_last(), i, m);
    }
}

/// The first `lim` edges of node `u` include one to `v`.
spec fn child_in(g: EdgeView, u: usize, lim: int, v: usize) -> bool {
    g.adj[u as int].take(lim).contains(NodeHandle { index: v })
}

/// Node `v` has been visited, or it waits on the stack above position `from`.
spec fn covered(stack: Seq<NodeHandle>, marks: Seq<u8>, from: int, v: usize) -> bool {
    ||| marks[v as int] != 0
    ||| exists|j: int| from < j < stack.len() && #[trigger] stack[j].index == v
}

/// How many edges of the `i`-th node in progress have been pushed: all of
/// them, but for the last one, whose first `lim` edges have.
spec fn lim_of(g: EdgeView, gray: Seq<usize>, i: int, lim: int) -> int {
    if i == gray.len() - 1 {
        lim
    } else {
        g.adj[gray[i] as int].len() as int
    }
}

/// Number of edges of the last node in progress.
spec fn full_lim(g: EdgeView, gray: Seq<usize>) -> int {
    if gray.len() > 0 {
        g.adj[gray.last() as int].len() as int
    } else {
        0
    }
}

/// Invariant of the walk's stack, tied to the ghost record of the nodes in
/// progress (`gray`, at stack positions `gpos`).
spec fn stack_ok(
    g: EdgeView,
    roots: Seq<NodeHandle>,
    stack: Seq<NodeHandle>,
    marks: Seq<u8>,
    gray: Seq<usize>,
    gpos: Seq<int>,
    lim: int,
) -> bool {
    &&& gray.len() == gpos.len()
    &&& forall|i: int| 0 <= i < gpos.len() ==> 0 <= #[trigger] gpos[i] < stack.len()
    &&& forall|i: int, j: int| 0 <= i < j < gpos.len() ==> gpos[i] < gpos[j]
    &&& forall|i: int|
        0 <= i < gray.len() ==> #[trigger] gray[i] == stack[gpos[i]].index && gray[i] < g.adj.len()
            && gray[i] < MAX_SORTED_NODES && marks[gray[i] as int] == 1
    &&& gray.no_duplicates()
    &&& forall|x: usize| x < MAX_SORTED_NODES && #[trigger] marks[x as int] == 1 ==> gray.contains(x)
    &&& forall|k: int| 0 <= k < gray.len() - 1 ==> #[trigger] has_edge(g, gray[k], gray[k + 1])
    &&& forall|j: int|
        0 <= j < stack.len() && (gpos.len() == 0 || j < gpos[0]) ==> is_root(
            g,
            roots,
            #[trigger] stack[j].index,
        )
    &&& forall|i: int, j: int|
        #![trigger gray[i], stack[j]]
        0 <= i < gpos.len() && gpos[i] < j < stack.len() && (i + 1 == gpos.len() || j < gpos[i + 1])
            ==> has_edge(g, gray[i], stack[j].index)
    &&& forall|j: int|
        0 <= j < stack.len() && marks[stack[j].index as int] == 1 ==> exists|i: int|
            0 <= i < gpos.len() && gpos[i] >= j && #[trigger] gray[i] == stack[j].index
    &&& forall|i: int, v: usize|
        0 <= i < gray.len() && #[trigger] child_in(g, gray[i], lim_of(g, gray, i, lim), v)
            ==> covered(stack, marks, gpos[i], v)
    &&& forall|j: int| 0 <= j < stack.len() ==> reachable(g, roots, #[trigger] stack[j].index)
    &&& forall|j: int| 0 <= j < stack.len() ==> #[trigger] stack[j].index < MAX_SORTED_NODES
}

/// Invariant of the finished part of the walk.
spec fn done_ok(g: EdgeView, roots: Seq<NodeHandle>, sorted: Seq<NodeHandle>, marks: Seq<u8>) -> bool {
    &&& marks.len() == MAX_SORTED_NODES
    &&& forall|x: int| 0 <= x < marks.len() ==> #[trigger] marks[x] <= 2
    &&& sorted.no_duplicates()
    &&& forall|k: int|
        0 <= k < sorted.len() ==> #[trigger] sorted[k].index < g.adj.len() && sorted[k].index
            < MAX_SORTED_NODES && marks[sorted[k].index as int] == 2 && reachable(
            g,
            roots,
            sorted[k].index,
        )
    &&& forall|x: usize|
        x < MAX_SORTED_NODES && #[trigger] marks[x as int] == 2 ==> sorted.contains(NodeHandle { index: x })
    &&& forall|x: usize, v: usize|
        x < MAX_SORTED_NODES && marks[x as int] == 2 && #[trigger] has_edge(g, x, v) ==> v
            < MAX_SORTED_NODES && marks[v as int] != 0
    &&& is_post_order(g, sorted)
}

proof fn lemma_child_in_full(g: EdgeView, u: usize, v: usize)
    requires
        u < g.adj.len(),
    ensures
        child_in(g, u, g.adj[u as int].len() as int, v) == has_edge(g, u, v),
{
    assert(g.adj[u as int].take(g.adj[u as int].len() as int) =~= g.adj[u as int]);
}

proof fn lemma_child_in_edge(g: EdgeView, u: usize, lim: int, v: usize)
    requires
        u < g.adj.len(),
        0 <= lim <= g.adj[u as int].len(),
        child_in(g, u, lim, v),
    ensures
        has_edge(g, u, v),
{
    let w = g.adj[u as int].take(lim);
    let kk = choose|kk: int| 0 <= kk < w.len() && w[kk] == NodeHandle { index: v };
    assert(g.adj[u as int][kk] == w[kk]);
}

proof fn lemma_pop_black(
    g: EdgeView,
    roots: Seq<NodeHandle>,
    stack: Seq<NodeHandle>,
    marks: Seq<u8>,
    gray: Seq<usize>,
    gpos: Seq<int>,
    lim: int,
)
    requires
        stack_ok(g, roots, stack, marks, gray, gpos, lim),
        stack.len() > 0,
        marks[stack.last().index as int] == 2,
    ensures
        stack_ok(g, roots, stack.drop_last(), marks, gray, gpos, lim),
{
    let s2 = stack.drop_last();
    let top = stack.len() - 1;
    assert forall|i: int| 0 <= i < gpos.len() implies 0 <= #[trigger] gpos[i] < s2.len() by {
        if gpos[i] == top {
            assert(gray[i] == stack[top].index);
        }
    }
    assert forall|j: int|
        0 <= j < s2.len() && (gpos.len() == 0 || j < gpos[0]) implies is_root(
        g,
        roots,
        #[trigger] s2[j].index,
    ) by {
        assert(s2[j] == stack[j]);
    }
    assert forall|i: int, j: int|
        #![trigger gray[i], s2[j]]
        0 <= i < gpos.len() && gpos[i] < j < s2.len() && (i + 1 == gpos.len() || j < gpos[i + 1])
        implies has_edge(g, gray[i], s2[j].index) by {
        assert(s2[j] == stack[j]);
    }
    assert forall|j: int| 0 <= j < s2.len() && marks[s2[j].index as int] == 1 implies exists|i: int|
        0 <= i < gpos.len() && gpos[i] >= j && #[trigger] gray[i] == s2[j].index by {
        assert(s2[j] == stack[j]);
    }
    assert forall|i: int, v: usize|
        0 <= i < gray.len() && #[trigger] child_in(g, gray[i], lim_of(g, gray, i, lim), v)
        implies covered(s2, marks, gpos[i], v) by {
        assert(covered(stack, marks, gpos[i], v));
        if marks[v as int] == 0 {
            let j = choose|j: int| gpos[i] < j < stack.len() && #[trigger] stack[j].index == v;
            if j == top {
                assert(false);
            }
            assert(s2[j] == stack[j]);
        }
    }
    assert forall|j: int| 0 <= j < s2.len() implies reachable(g, roots, #[trigger] s2[j].index) by {
        assert(s2[j] == stack[j]);
    }
    assert forall|j: int| 0 <= j < s2.len() implies #[trigger] s2[j].index < MAX_SORTED_NODES by {
        assert(s2[j] == stack[j]);
    }
}

proof fn lemma_finish(
    g: EdgeView,
    roots: Seq<NodeHandle>,
    stack: Seq<NodeHandle>,
    marks: Seq<u8>,
    gray: Seq<usize>,
    gpos: Seq<int>,
    sorted: Seq<NodeHandle>,
)
    requires
        stack_ok(g, roots, stack, marks, gray, gpos, full_lim(g, gray)),
        done_ok(g, roots, sorted, marks),
        walk_fits(g, roots),
        stack.len() > 0,
        marks[stack.last().index as int] == 1,
    ensures
        gray.len() > 0,
        gray.last() == stack.last().index,
        gpos.last() == stack.len() - 1,
        stack_ok(
            g,
            roots,
            stack.drop_last(),
            marks.update(stack.last().index as int, 2),
            gray.drop_last(),
            gpos.drop_last(),
            full_lim(g, gray.drop_last()),
        ),
        done_ok(g, roots, sorted.push(stack.last()), marks.update(stack.last().index as int, 2)),
{
    let top = stack.len() - 1;
    let x = stack[top].index;
    let i0 = choose|i: int| 0 <= i < gpos.len() && gpos[i] >= top && #[trigger] gray[i] == stack[top].index;
    assert(gpos[i0] == top);
    if i0 < gpos.len() - 1 {
        assert(gpos[i0] < gpos[gpos.len() - 1]);
        assert(false);
    }
    let last = gray.len() - 1;
    assert(gray.last() == x);
    let m2 = marks.update(x as int, 2);
    let s2 = stack.drop_last();
    let g2 = gray.drop_last();
    let p2 = gpos.drop_last();
    let sorted2 = sorted.push(stack[top]);
    let lim2 = full_lim(g, g2);
    assert(reachable(g, roots, x));
    // The node has not been listed yet.
    assert forall|k: int| 0 <= k < sorted.len() implies sorted[k] != stack[top] by {
        assert(marks[sorted[k].index as int] == 2);
    }
    // Every edge of the node leads to a visited node.
    assert forall|v: usize| #[trigger] has_edge(g, x, v) implies v < MAX_SORTED_NODES && marks[v as int]
        != 0 by {
        lemma_child_in_full(g, x, v);
        assert(lim_of(g, gray, last, full_lim(g, gray)) == g.adj[x as int].len());
        assert(child_in(g, gray[last], lim_of(g, gray, last, full_lim(g, gray)), v));
        assert(covered(stack, marks, gpos[last], v));
        lemma_reachable_step(g, roots, x, v);
    }
    // done_ok for the extended list.
    assert(sorted2.no_duplicates()) by {
        assert forall|a: int, b: int| 0 <= a < sorted2.len() && 0 <= b < sorted2.len() && a != b implies sorted2[a]
            != sorted2[b] by {
            if a < sorted.len() && b < sorted.len() {
                assert(sorted2[a] == sorted[a] && sorted2[b] == sorted[b]);
            } else if a < sorted.len() {
                assert(sorted2[a] == sorted[a]);
            } else if b < sorted.len() {
                assert(sorted2[b] == sorted[b]);
            }
        }
    }
    assert forall|k: int| 0 <= k < sorted2.len() implies #[trigger] sorted2[k].index < g.adj.len()
        && sorted2[k].index < MAX_SORTED_NODES && m2[sorted2[k].index as int] == 2 && reachable(
        g,
        roots,
        sorted2[k].index,
    ) by {
        if k < sorted.len() {
            assert(sorted2[k] == sorted[k]);
        } else {
            assert(gray[last] < g.adj.len());
        }
    }
    assert forall|y: usize| y < MAX_SORTED_NODES && #[trigger] m2[y as int] == 2 implies sorted2.contains(
        NodeHandle { index: y },
    ) by {
        if y == x {
            assert(sorted2[sorted.len() as int] == stack[top]);
        } else {
            assert(marks[y as int] == 2);
            let k = choose|k: int| 0 <= k < sorted.len() && sorted[k] == NodeHandle { index: y };
            assert(sorted2[k] == sorted[k]);
        }
    }
    assert forall|y: usize, v: usize|
        y < MAX_SORTED_NODES && m2[y as int] == 2 && #[trigger] has_edge(g, y, v) implies v
        < MAX_SORTED_NODES && m2[v as int] != 0 by {
        if y != x {
            assert(marks[y as int] == 2);
        }
    }
    assert forall|k: int, v: usize|
        0 <= k < sorted2.len() && #[trigger] has_edge(g, sorted2[k].index, v) implies (exists|k2: int|
        0 <= k2 < k && sorted2[k2].index == v) || reaches(g, v, sorted2[k].index) by {
        if k < sorted.len() {
            assert(sorted2[k] == sorted[k]);
            if exists|k2: int| 0 <= k2 < k && sorted[k2].index == v {
                let k2 = choose|k2: int| 0 <= k2 < k && sorted[k2].index == v;
                assert(sorted2[k2] == sorted[k2]);
            }
        } else {
            assert(sorted2[k].index == x);
            if marks[v as int] == 2 {
                let k2 = choose|k2: int| 0 <= k2 < sorted.len() && sorted[k2] == NodeHandle { index: v };
                assert(sorted2[k2] == sorted[k2]);
            } else {
                assert(marks[v as int] == 1);
                assert(gray.contains(v));
                let i = choose|i: int| 0 <= i < gray.len() && gray[i] == v;
                lemma_chain_reaches(g, gray, i);
            }
        }
    }
    assert(done_ok(g, roots, sorted2, m2));
    // stack_ok after removing the finished node.
    assert forall|i: int| 0 <= i < p2.len() implies 0 <= #[trigger] p2[i] < s2.len() by {
        assert(p2[i] == gpos[i]);
        assert(gpos[i] < gpos[last]);
    }
    assert forall|i: int| 0 <= i < g2.len() implies #[trigger] g2[i] == s2[p2[i]].index && g2[i]
        < g.adj.len() && g2[i] < MAX_SORTED_NODES && m2[g2[i] as int] == 1 by {
        assert(g2[i] == gray[i] && p2[i] == gpos[i]);
        assert(gpos[i] < gpos[last]);
        assert(gray[i] != gray[last]);
    }
    assert forall|y: usize| y < MAX_SORTED_NODES && #[trigger] m2[y as int] == 1 implies g2.contains(y) by {
        assert(marks[y as int] == 1);
        let i = choose|i: int| 0 <= i < gray.len() && gray[i] == y;
        assert(i != last);
        assert(g2[i] == gray[i]);
    }
    assert forall|k: int| 0 <= k < g2.len() - 1 implies #[trigger] has_edge(g, g2[k], g2[k + 1]) by {
        assert(has_edge(g, gray[k], gray[k + 1]));
    }
    assert forall|j: int|
        0 <= j < s2.len() && (p2.len() == 0 || j < p2[0]) implies is_root(g, roots, #[trigger] s2[j].index) by {
        assert(s2[j] == stack[j]);
        if p2.len() == 0 {
            assert(j < gpos[0]);
        }
    }
    assert forall|i: int, j: int|
        #![trigger g2[i], s2[j]]
        0 <= i < p2.len() && p2[i] < j < s2.len() && (i + 1 == p2.len() || j < p2[i + 1]) implies has_edge(
        g,
        g2[i],
        s2[j].index,
    ) by {
        assert(s2[j] == stack[j]);
        assert(g2[i] == gray[i]);
        if i + 1 == p2.len() {
            assert(j < gpos[i + 1]);
        }
    }
    assert forall|j: int| 0 <= j < s2.len() && m2[s2[j].index as int] == 1 implies exists|i: int|
        0 <= i < p2.len() && p2[i] >= j && #[trigger] g2[i] == s2[j].index by {
        assert(s2[j] == stack[j]);
        let i = choose|i: int| 0 <= i < gpos.len() && gpos[i] >= j && #[trigger] gray[i] == stack[j].index;
        assert(i != last);
        assert(g2[i] == gray[i] && p2[i] == gpos[i]);
    }
    assert forall|i: int, v: usize|
        0 <= i < g2.len() && #[trigger] child_in(g, g2[i], lim_of(g, g2, i, lim2), v) implies covered(
        s2,
        m2,
        p2[i],
        v,
    ) by {
        assert(g2[i] == gray[i] && p2[i] == gpos[i]);
        assert(lim_of(g, g2, i, lim2) == lim_of(g, gray, i, full_lim(g, gray)));
        assert(child_in(g, gray[i], lim_of(g, gray, i, full_lim(g, gray)), v));
        assert(covered(stack, marks, gpos[i], v));
        lemma_child_in_edge(g, gray[i], lim_of(g, gray, i, full_lim(g, gray)), v);
        assert(reachable(g, roots, gray[i])) by {
            assert(stack[gpos[i]].index == gray[i]);
        }
        lemma_reachable_step(g, roots, gray[i], v);
        if marks[v as int] == 0 {
            let j = choose|j: int| gpos[i] < j < stack.len() && #[trigger] stack[j].index == v;
            if j == top {
                assert(false);
            }
            assert(s2[j] == stack[j]);
        }
    }
    assert forall|j: int| 0 <= j < s2.len() implies reachable(g, roots, #[trigger] s2[j].index) by {
        assert(s2[j] == stack[j]);
    }
    assert forall|j: int| 0 <= j < s2.len() implies #[trigger] s2[j].index < MAX_SORTED_NODES by {
        assert(s2[j] == stack[j]);
    }
    assert(g2.no_duplicates());
}

proof fn lemma_expand(
    g: EdgeView,
    roots: Seq<NodeHandle>,
    stack: Seq<NodeHandle>,
    marks: Seq<u8>,
    gray: Seq<usize>,
    gpos: Seq<int>,
    sorted: Seq<NodeHandle>,
)
    requires
        stack_ok(g, roots, stack, marks, gray, gpos, full_lim(g, gray)),
        done_ok(g, roots, sorted, marks),
        walk_fits(g, roots),
        stack.len() > 0,
        marks[stack.last().index as int] == 0,
        stack.last().index < g.adj.len(),
    ensures
        stack_ok(
            g,
            roots,
            stack,
            marks.update(stack.last().index as int, 1),
            gray.push(stack.last().index),
            gpos.push(stack.len() - 1),
            0,
        ),
        done_ok(g, roots, sorted, marks.update(stack.last().index as int, 1)),
{
    let top = stack.len() - 1;
    let x = stack[top].index;
    let m2 = marks.update(x as int, 1);
    let g2 = gray.push(x);
    let p2 = gpos.push(top);
    assert forall|i: int| 0 <= i < gpos.len() implies gpos[i] < top by {
        if gpos[i] == top {
            assert(gray[i] == x);
        }
    }
    assert(!gray.contains(x));
    assert forall|i: int| 0 <= i < g2.len() implies #[trigger] g2[i] == stack[p2[i]].index && g2[i]
        < g.adj.len() && g2[i] < MAX_SORTED_NODES && m2[g2[i] as int] == 1 by {
        if i < gray.len() {
            assert(g2[i] == gray[i] && p2[i] == gpos[i]);
        }
    }
    assert forall|y: usize| y < MAX_SORTED_NODES && #[trigger] m2[y as int] == 1 implies g2.contains(y) by {
        if y == x {
            assert(g2[gray.len() as int] == x);
        } else {
            let i = choose|i: int| 0 <= i < gray.len() && gray[i] == y;
            assert(g2[i] == gray[i]);
        }
    }
    assert forall|k: int| 0 <= k < g2.len() - 1 implies #[trigger] has_edge(g, g2[k], g2[k + 1]) by {
        if k < gray.len() - 1 {
            assert(g2[k] == gray[k] && g2[k + 1] == gray[k + 1]);
        } else {
            assert(g2[k] == gray[k] && g2[k + 1] == x);
            assert(has_edge(g, gray[k], stack[top].index));
        }
    }
    assert forall|j: int|
        0 <= j < stack.len() && (p2.len() == 0 || j < p2[0]) implies is_root(g, roots, #[trigger] stack[j].index) by {
        if gpos.len() > 0 {
            assert(p2[0] == gpos[0]);
        }
    }
    assert forall|i: int, j: int|
        #![trigger g2[i], stack[j]]
        0 <= i < p2.len() && p2[i] < j < stack.len() && (i + 1 == p2.len() || j < p2[i + 1]) implies has_edge(
        g,
        g2[i],
        stack[j].index,
    ) by {
        assert(i < gray.len());
        assert(g2[i] == gray[i] && p2[i] == gpos[i]);
        if i + 1 < gpos.len() {
            assert(p2[i + 1] == gpos[i + 1]);
        }
    }
    assert forall|j: int| 0 <= j < stack.len() && m2[stack[j].index as int] == 1 implies exists|i: int|
        0 <= i < p2.len() && p2[i] >= j && #[trigger] g2[i] == stack[j].index by {
        if stack[j].index == x {
            assert(g2[gray.len() as int] == x);
        } else {
            let i = choose|i: int| 0 <= i < gpos.len() && gpos[i] >= j && #[trigger] gray[i] == stack[j].index;
            assert(g2[i] == gray[i] && p2[i] == gpos[i]);
        }
    }
    assert forall|i: int, v: usize|
        0 <= i < g2.len() && #[trigger] child_in(g, g2[i], lim_of(g, g2, i, 0), v) implies covered(
        stack,
        m2,
        p2[i],
        v,
    ) by {
        if i < gray.len() {
            assert(g2[i] == gray[i] && p2[i] == gpos[i]);
            assert(lim_of(g, g2, i, 0) == g.adj[gray[i] as int].len());
            lemma_child_in_full(g, gray[i], v);
            if i == gray.len() - 1 {
                assert(lim_of(g, gray, i, full_lim(g, gray)) == g.adj[gray[i] as int].len());
            }
            lemma_child_in_full(g, gray[i], v);
            assert(child_in(g, gray[i], lim_of(g, gray, i, full_lim(g, gray)), v));
            assert(covered(stack, marks, gpos[i], v));
            assert(reachable(g, roots, gray[i])) by {
                assert(stack[gpos[i]].index == gray[i]);
            }
            lemma_reachable_step(g, roots, gray[i], v);
            if marks[v as int] == 0 {
                let j = choose|j: int| gpos[i] < j < stack.len() && #[trigger] stack[j].index == v;
                assert(covered(stack, m2, p2[i], v));
            }
        } else {
            assert(g.adj[x as int].take(0) =~= Seq::<NodeHandle>::empty());
        }
    }
    assert(g2.no_duplicates());
    assert forall|y: usize| y < MAX_SORTED_NODES && #[trigger] m2[y as int] == 2 implies sorted.contains(
        NodeHandle { index: y },
    ) by {
        assert(marks[y as int] == 2);
    }
    assert forall|y: usize, v: usize|
        y < MAX_SORTED_NODES && m2[y as int] == 2 && #[trigger] has_edge(g, y, v) implies v
        < MAX_SORTED_NODES && m2[v as int] != 0 by {
        assert(marks[y as int] == 2);
    }
}

proof fn lemma_push_child(
    g: EdgeView,
    roots: Seq<NodeHandle>,
    stack: Seq<NodeHandle>,
    marks: Seq<u8>,
    gray: Seq<usize>,
    gpos: Seq<int>,
    k: int,
    push: bool,
)
    requires
        stack_ok(g, roots, stack, marks, gray, gpos, k),
        walk_fits(g, roots),
        gray.len() > 0,
        0 <= k < g.adj[gray.last() as int].len(),
        push == (marks[g.adj[gray.last() as int][k].index as int] == 0),
    ensures
        stack_ok(
            g,
            roots,
            if push {
                stack.push(g.adj[gray.last() as int][k])
            } else {
                stack
            },
            marks,
            gray,
            gpos,
            k + 1,
        ),
{
    let last = gray.len() - 1;
    let x = gray.last();
    let e = g.adj[x as int][k];
    let s2 = if push {
        stack.push(e)
    } else {
        stack
    };
    assert(has_edge(g, x, e.index)) by {
        assert(g.adj[x as int][k] == e);
    }
    assert(reachable(g, roots, x)) by {
        assert(stack[gpos[last]].index == x);
    }
    lemma_reachable_step(g, roots, x, e.index);
    assert forall|j: int| 0 <= j < stack.len() implies s2[j] == stack[j] by {}
    assert forall|i: int| 0 <= i < gpos.len() implies 0 <= #[trigger] gpos[i] < s2.len() by {}
    assert forall|i: int| 0 <= i < gray.len() implies #[trigger] gray[i] == s2[gpos[i]].index && gray[i]
        < g.adj.len() && gray[i] < MAX_SORTED_NODES && marks[gray[i] as int] == 1 by {
        assert(s2[gpos[i]] == stack[gpos[i]]);
    }
    assert forall|j: int|
        0 <= j < s2.len() && (gpos.len() == 0 || j < gpos[0]) implies is_root(g, roots, #[trigger] s2[j].index) by {
        assert(gpos[0] < stack.len());
        assert(s2[j] == stack[j]);
    }
    assert forall|i: int, j: int|
        #![trigger gray[i], s2[j]]
        0 <= i < gpos.len() && gpos[i] < j < s2.len() && (i + 1 == gpos.len() || j < gpos[i + 1]) implies has_edge(
        g,
        gray[i],
        s2[j].index,
    ) by {
        if j < stack.len() {
            assert(s2[j] == stack[j]);
        } else {
            assert(i == last);
        }
    }
    assert forall|j: int| 0 <= j < s2.len() && marks[s2[j].index as int] == 1 implies exists|i: int|
        0 <= i < gpos.len() && gpos[i] >= j && #[trigger] gray[i] == s2[j].index by {
        if j < stack.len() {
            assert(s2[j] == stack[j]);
        }
    }
    assert forall|i: int, v: usize|
        0 <= i < gray.len() && #[trigger] child_in(g, gray[i], lim_of(g, gray, i, k + 1), v)
        implies covered(s2, marks, gpos[i], v) by {
        if i < last {
            assert(lim_of(g, gray, i, k + 1) == lim_of(g, gray, i, k));
            assert(covered(stack, marks, gpos[i], v));
            if marks[v as int] == 0 {
                let j = choose|j: int| gpos[i] < j < stack.len() && #[trigger] stack[j].index == v;
                assert(s2[j] == stack[j]);
            }
        } else {
            let ed = g.adj[x as int];
            let w = ed.take(k + 1);
            let kk = choose|kk: int| 0 <= kk < w.len() && w[kk] == NodeHandle { index: v };
            if kk < k {
                assert(ed.take(k)[kk] == w[kk]);
                assert(child_in(g, gray[i], lim_of(g, gray, i, k), v));
                assert(covered(stack, marks, gpos[i], v));
                if marks[v as int] == 0 {
                    let j = choose|j: int| gpos[i] < j < stack.len() && #[trigger] stack[j].index == v;
                    assert(s2[j] == stack[j]);
                }
            } else {
                assert(v == e.index);
                if push {
                    assert(s2[stack.len() as int] == e);
                    assert(gpos[i] < stack.len());
                }
            }
        }
    }
    assert forall|j: int| 0 <= j < s2.len() implies reachable(g, roots, #[trigger] s2[j].index) by {
        if j < stack.len() {
            assert(s2[j] == stack[j]);
        }
    }
    assert forall|j: int| 0 <= j < s2.len() implies #[trigger] s2[j].index < MAX_SORTED_NODES by {
        if j < stack.len() {
            assert(s2[j] == stack[j]);
        }
    }
}

/// At the end of the walk, every node that can be reached has been listed.
proof fn lemma_walk_complete(g: EdgeView, roots: Seq<NodeHandle>, sorted: Seq<NodeHandle>, marks: Seq<u8>)
    requires
        done_ok(g, roots, sorted, marks),
        walk_fits(g, roots),
        forall|x: usize| x < MAX_SORTED_NODES ==> #[trigger] marks[x as int] != 1,
        forall|i: int| 0 <= i < roots.len() ==> #[trigger] roots[i].index < g.adj.len(),
        forall|i: int|
            0 <= i < roots.len() && #[trigger] g.enabled[roots[i].index as int] ==> marks[roots[i].index as int] == 2,
    ensures
        handle_set(sorted) == reach_set(g, roots),
        sorted.len() == reach_set(g, roots).len(),
        !walk_meets_invalid(g, roots),
{
    let black = |y: usize| y < MAX_SORTED_NODES && marks[y as int] == 2;
    assert forall|y: usize, z: usize| black(y) && #[trigger] has_edge(g, y, z) implies black(z) by {
        assert(marks[z as int] != 1);
        assert(marks[z as int] <= 2);
    }
    assert forall|v: usize| reachable(g, roots, v) implies sorted.contains(NodeHandle { index: v }) by {
        let u = choose|u: usize| #[trigger] is_root(g, roots, u) && reaches(g, u, v);
        let i = choose|i: int| 0 <= i < roots.len() && roots[i] == NodeHandle { index: u };
        assert(g.enabled[roots[i].index as int]);
        lemma_root_reachable(g, roots, u);
        assert(black(u));
        let p = choose|p: Seq<usize>| #[trigger] is_path(g, p) && p[0] == u && p.last() == v;
        lemma_closed_holds_path(g, p, black);
    }
    assert(handle_set(sorted) =~= reach_set(g, roots)) by {
        assert forall|v: usize| handle_set(sorted).contains(v) implies reachable(g, roots, v) by {
            let k = choose|k: int| 0 <= k < sorted.len() && sorted[k] == NodeHandle { index: v };
            assert(sorted[k].index == v);
        }
    }
    let idx = sorted.map_values(|h: NodeHandle| h.index);
    assert(idx.no_duplicates()) by {
        assert forall|a: int, b: int| 0 <= a < idx.len() && 0 <= b < idx.len() && a != b implies idx[a] != idx[b] by {
            assert(sorted[a] != sorted[b]);
        }
    }
    idx.unique_seq_to_set();
    assert(idx.to_set() =~= handle_set(sorted)) by {
        assert forall|v: usize| idx.to_set().contains(v) implies handle_set(sorted).contains(v) by {
            let a = choose|a: int| 0 <= a < idx.len() && idx[a] == v;
            assert(sorted[a] == NodeHandle { index: v });
        }
        assert forall|v: usize| handle_set(sorted).contains(v) implies idx.to_set().contains(v) by {
            let a = choose|a: int| 0 <= a < sorted.len() && sorted[a] == NodeHandle { index: v };
            assert(idx[a] == v);
        }
    }
    assert forall|v: usize| #[trigger] reachable(g, roots, v) implies v < g.adj.len() by {
        assert(sorted.contains(NodeHandle { index: v }));
        let k = choose|k: int| 0 <= k < sorted.len() && sorted[k] == NodeHandle { index: v };
        assert(sorted[k].index == v);
    }
}

/// Depth-first walk from the enabled nodes among `roots`, in their order,
/// along the edges of `builder`'s nodes. Each node that can be reached is
/// listed once, after every node that it has an edge to, unless that node
/// reaches it back (a cycle). A handle that is no node ends the walk with an
/// error.
pub fn depth_first_post_order(builder: &Builder, roots: &Vec<NodeHandle>) -> (r: Result<Vec<NodeHandle>, GraphError>)
    requires
        walk_fits(topology_of(builder.nodes()), roots@),
    ensures
        r is Err <==> walk_meets_invalid(topology_of(builder.nodes()), roots@),
        r is Err ==> r == Err::<Vec<NodeHandle>, GraphError>(GraphError::InvalidHandle),
        r matches Ok(order) ==> {
            &&& order@.no_duplicates()
            &&& handle_set(order@) == reach_set(topology_of(builder.nodes()), roots@)
            &&& order@.len() == reach_set(topology_of(builder.nodes()), roots@).len()
            &&& is_post_order(topology_of(builder.nodes()), order@)
        },
{
    let ghost g = topology_of(builder.nodes());
    let mut visited: Vec<u8> = Vec::new();
    while visited.len() < MAX_SORTED_NODES
        invariant
            visited.len() <= MAX_SORTED_NODES,
            forall|x: int| 0 <= x < visited.len() ==> visited@[x] == 0,
        decreases MAX_SORTED_NODES - visited.len(),
    {
        visited.push(0);
    }
    let mut sorted: Vec<NodeHandle> = Vec::new();
    let mut stack: Vec<NodeHandle> = Vec::new();
    let mut ri: usize = 0;
    while ri < roots.len()
        invariant
            g == topology_of(builder.nodes()),
            walk_fits(g, roots@),
            ri <= roots@.len(),
            done_ok(g, roots@, sorted@, visited@),
            stack@.len() == 0,
            forall|x: usize| x < MAX_SORTED_NODES ==> #[trigger] visited@[x as int] != 1,
            forall|i: int| 0 <= i < ri ==> #[trigger] roots@[i].index < g.adj.len(),
            forall|i: int|
                0 <= i < ri && #[trigger] g.enabled[roots@[i].index as int] ==> roots@[i].index < MAX_SORTED_NODES
                    && visited@[roots@[i].index as int] == 2,
        decreases roots@.len() - ri,
    {
        let node_handle = roots[ri];
        let enabled = match builder.access_node_by_handle(&node_handle) {
            Ok(node) => node.enabled,
            Err(e) => {
                proof {
                    assert(roots@[ri as int].index >= g.adj.len());
                }
                return Err(e);
            },
        };
        if enabled {
            proof {
                assert(roots@[ri as int] == node_handle);
                assert(is_root(g, roots@, node_handle.index));
                lemma_root_reachable(g, roots@, node_handle.index);
            }
            stack.push(node_handle);
            let ghost mut gray: Seq<usize> = Seq::empty();
            let ghost mut gpos: Seq<int> = Seq::empty();
            assert(stack_ok(g, roots@, stack@, visited@, gray, gpos, full_lim(g, gray))) by {
                assert(stack@[0] == node_handle);
                assert forall|x: usize| x < MAX_SORTED_NODES && #[trigger] visited@[x as int] == 1 implies gray.contains(x) by {}
            }
            while stack.len() > 0
                invariant
                    g == topology_of(builder.nodes()),
                    walk_fits(g, roots@),
                    ri < roots@.len(),
                    node_handle == roots@[ri as int],
                    node_handle.index < g.adj.len(),
                    g.enabled[node_handle.index as int],
                    done_ok(g, roots@, sorted@, visited@),
                    stack_ok(g, roots@, stack@, visited@, gray, gpos, full_lim(g, gray)),
                    stack@.len() > 0 ==> stack@[0] == node_handle,
                    stack@.len() == 0 ==> visited@[node_handle.index as int] == 2,
                    forall|i: int| 0 <= i < ri ==> #[trigger] roots@[i].index < g.adj.len(),
                    forall|i: int|
                        0 <= i < ri && #[trigger] g.enabled[roots@[i].index as int]
                            ==> roots@[i].index < MAX_SORTED_NODES && visited@[roots@[i].index as int] == 2,
                decreases mark_weight(visited@), stack@.len(),
            {
                let current = stack[stack.len() - 1];
                proof {
                    assert(stack@.last() == current);
                    assert(current.index < MAX_SORTED_NODES);
                }
                let mark = visited[current.index];
                if mark == 2 {
                    proof {
                        lemma_pop_black(g, roots@, stack@, visited@, gray, gpos, full_lim(g, gray));
                    }
                    stack.pop();
                    proof {
                        if stack@.len() > 0 {
                            assert(stack@[0] == node_handle);
                        }
                    }
                } else if mark == 1 {
                    let ghost v0 = visited@;
                    proof {
                        lemma_finish(g, roots@, stack@, visited@, gray, gpos, sorted@);
                        lemma_mark_weight_update(visited@, current.index as int, 2);
                        gray = gray.drop_last();
                        gpos = gpos.drop_last();
                    }
                    visited.set(current.index, 2);
                    stack.pop();
                    sorted.push(current);
                    proof {
                        if stack@.len() > 0 {
                            assert(stack@[0] == node_handle);
                        } else {
                            assert(current == node_handle);
                        }
                        assert forall|i: int|
                            0 <= i < ri && #[trigger] g.enabled[roots@[i].index as int]
                                implies roots@[i].index < MAX_SORTED_NODES && visited@[roots@[i].index as int] == 2 by {
                            assert(v0[roots@[i].index as int] == 2);
                        }
                    }
                } else {
                    proof {
                        assert(visited@[current.index as int] <= 2);
                        assert(mark == 0);
                    }
                    let node = match builder.access_node_by_handle(&current) {
                        Ok(node) => node,
                        Err(e) => {
                            proof {
                                assert(reachable(g, roots@, stack@[stack@.len() - 1].index));
                            }
                            return Err(e);
                        },
                    };
                    let ghost v0 = visited@;
                    proof {
                        lemma_expand(g, roots@, stack@, visited@, gray, gpos, sorted@);
                        lemma_mark_weight_update(visited@, current.index as int, 1);
                        gray = gray.push(current.index);
                        gpos = gpos.push(stack@.len() - 1);
                    }
                    visited.set(current.index, 1);
                    let ghost v1 = visited@;
                    let ghost s0 = stack@;
                    let mut k: usize = 0;
                    while k < node.edges.len()
                        invariant
                            g == topology_of(builder.nodes()),
                            walk_fits(g, roots@),
                            node.edges@ == g.adj[current.index as int],
                            gray.len() > 0,
                            gray.last() == current.index,
                            k <= node.edges@.len(),
                            visited@ == v1,
                            done_ok(g, roots@, sorted@, visited@),
                            stack_ok(g, roots@, stack@, visited@, gray, gpos, k as int),
                            stack@.len() >= s0.len(),
                            stack@[0] == node_handle,
                            s0.len() > 0,
                            s0[0] == node_handle,
                            ri < roots@.len(),
                            node_handle == roots@[ri as int],
                            node_handle.index < g.adj.len(),
                            g.enabled[node_handle.index as int],
                            forall|i: int| 0 <= i < ri ==> #[trigger] roots@[i].index < g.adj.len(),
                            forall|i: int|
                                0 <= i < ri && #[trigger] g.enabled[roots@[i].index as int]
                                    ==> roots@[i].index < MAX_SORTED_NODES && visited@[roots@[i].index as int] == 2,
                        decreases node.edges@.len() - k,
                    {
                        let edge_node = node.edges[k];
                        proof {
                            lemma_push_child(
                                g,
                                roots@,
                                stack@,
                                visited@,
                                gray,
                                gpos,
                                k as int,
                                visited@[edge_node.index as int] == 0,
                            );
                            assert(has_edge(g, current.index, edge_node.index)) by {
                                assert(node.edges@[k as int] == edge_node);
                            }
                            assert(reachable(g, roots@, current.index)) by {
                                assert(stack@[gpos.last()].index == current.index);
                            }
                            lemma_reachable_step(g, roots@, current.index, edge_node.index);
                        }
                        if visited[edge_node.index] == 0 {
                            stack.push(edge_node);
                        }
                        k = k + 1;
                    }
                    proof {
                        assert(full_lim(g, gray) == k);
                    }
                }
            }
        }
        ri = ri + 1;
    }
    proof {
        lemma_walk_complete(g, roots@, sorted@, visited@);
    }
    Ok(sorted)
}

} // verus!
