use vstd::prelude::*;

use crate::renderer::scene::INVALID_INDEX;

verus! {

/// The children lists as plain sequences.
pub open spec fn kids_view(children: Seq<Vec<usize>>) -> Seq<Seq<usize>> {
    children.map_values(|v: Vec<usize>| v@)
}

/// The nodes of a scene file form a forest under `roots`: every index names
/// a node, the roots are nobody's children, and no node is listed twice as a
/// root or as a child.
pub open spec fn is_forest(roots: Seq<usize>, kids: Seq<Seq<usize>>) -> bool {
    &&& roots.no_duplicates()
    &&& forall|i: int| 0 <= i < roots.len() ==> #[trigger] roots[i] < kids.len()
    &&& forall|p: int| 0 <= p < kids.len() ==> (#[trigger] kids[p]).no_duplicates()
    &&& forall|p: int, i: int|
        0 <= p < kids.len() && 0 <= i < kids[p].len() ==> #[trigger] kids[p][i] < kids.len() && !roots.contains(
            kids[p][i],
        )
    &&& forall|p1: int, p2: int, c: usize|
        0 <= p1 < kids.len() && 0 <= p2 < kids.len() && p1 != p2 && #[trigger] kids[p1].contains(c)
            ==> !#[trigger] kids[p2].contains(c)
}

/// The queue of the level-order walk after `n` nodes were taken off it: the
/// roots, then the children of each node taken, in the order taken.
pub open spec fn walk_queue(roots: Seq<usize>, kids: Seq<Seq<usize>>, n: nat) -> Seq<usize>
    decreases n,
{
    if n == 0 {
        roots
    } else {
        let q = walk_queue(roots, kids, (n - 1) as nat);
        if n - 1 < q.len() {
            q + kids[q[n - 1] as int]
        } else {
            q
        }
    }
}

/// The hierarchy calls made after `n` nodes were taken off the queue: each
/// root with no parent at level 0, then, for the `k`-th node taken (from 1),
/// each of its children with that node as parent at level `k`. The level
/// counts the nodes taken, not the depth.
pub open spec fn walk_calls(roots: Seq<usize>, kids: Seq<Seq<usize>>, n: nat) -> Seq<(usize, usize, usize)>
    decreases n,
{
    if n == 0 {
        roots.map_values(|r: usize| (r, INVALID_INDEX, 0usize))
    } else {
        let q = walk_queue(roots, kids, (n - 1) as nat);
        let before = walk_calls(roots, kids, (n - 1) as nat);
        if n - 1 < q.len() {
            before + kids[q[n - 1] as int].map_values(|c: usize| (c, q[n - 1], n as usize))
        } else {
            before
        }
    }
}

/// Distinct indices below `n` are at most `n`.
proof fn lemma_distinct_below(s: Seq<usize>, n: nat)
    requires
        s.no_duplicates(),
        forall|i: int| 0 <= i < s.len() ==> #[trigger] s[i] < n,
    ensures
        s.len() <= n,
    decreases n,
{
    if n == 0 {
        if s.len() > 0 {
            assert(s[0] < n);
        }
    } else {
        let m = (n - 1) as usize;
        if s.contains(m) {
            let k = choose|k: int| 0 <= k < s.len() && s[k] == m;
            let t = s.remove(k);
            assert forall|i: int| 0 <= i < t.len() implies #[trigger] t[i] < (n - 1) as nat by {
                if i < k {
                    assert(t[i] == s[i]);
                } else {
                    assert(t[i] == s[i + 1]);
                }
            }
            assert forall|a: int, b: int| 0 <= a < b < t.len() implies t[a] != t[b] by {
                let a2 = if a < k { a } else { a + 1 };
                let b2 = if b < k { b } else { b + 1 };
                assert(t[a] == s[a2] && t[b] == s[b2]);
            }
            lemma_distinct_below(t, (n - 1) as nat);
        } else {
            assert forall|i: int| 0 <= i < s.len() implies #[trigger] s[i] < (n - 1) as nat by {
                assert(s[i] != m);
            }
            lemma_distinct_below(s, (n - 1) as nat);
        }
    }
}

/// While the walk goes on, its queue holds distinct nodes.
proof fn lemma_queue_distinct(roots: Seq<usize>, kids: Seq<Seq<usize>>, n: nat)
    requires
        is_forest(roots, kids),
        n <= walk_queue(roots, kids, n).len(),
    ensures
        walk_queue(roots, kids, n).no_duplicates(),
        forall|i: int|
            0 <= i < walk_queue(roots, kids, n).len() ==> #[trigger] walk_queue(roots, kids, n)[i] < kids.len(),
        forall|i: int|
            0 <= i < walk_queue(roots, kids, n).len() && !roots.contains(#[trigger] walk_queue(roots, kids, n)[i])
                ==> exists|j: int| 0 <= j < n && kids[walk_queue(roots, kids, n)[j] as int].contains(walk_queue(roots, kids, n)[i]),
    decreases n,
{
    if n > 0 {
        let q = walk_queue(roots, kids, (n - 1) as nat);
        lemma_queue_len_mono(roots, kids, (n - 1) as nat);
        lemma_queue_distinct(roots, kids, (n - 1) as nat);
        let p = q[n - 1];
        let add = kids[p as int];
        let q2 = q + add;
        assert(walk_queue(roots, kids, n) == q2);
        assert forall|a: int, b: int| 0 <= a < b < q2.len() implies q2[a] != q2[b] by {
            if b >= q.len() && a < q.len() {
                let c = q2[b];
                assert(add[b - q.len()] == c);
                assert(add.contains(c));
                if q[a] == c {
                    if roots.contains(c) {
                        assert(!roots.contains(add[b - q.len()]));
                    } else {
                        let j = choose|j: int| 0 <= j < n - 1 && kids[q[j] as int].contains(q[a]);
                        assert(q[j] != p);
                        assert(kids[q[j] as int].contains(c));
                    }
                }
            } else if a >= q.len() {
                assert(q2[a] == add[a - q.len()] && q2[b] == add[b - q.len()]);
            }
        }
        assert forall|i: int| 0 <= i < q2.len() implies #[trigger] q2[i] < kids.len() by {
            if i >= q.len() {
                assert(q2[i] == add[i - q.len()]);
            }
        }
        assert forall|i: int| 0 <= i < q2.len() && !roots.contains(#[trigger] q2[i]) implies exists|j: int|
            0 <= j < n && kids[q2[j] as int].contains(q2[i]) by {
            if i >= q.len() {
                assert(q2[i] == add[i - q.len()]);
                assert(add.contains(q2[i]));
                assert(q2[n - 1] == p);
            } else {
                let j = choose|j: int| 0 <= j < n - 1 && kids[q[j] as int].contains(q[i]);
                assert(q2[j] == q[j]);
            }
        }
    }
}

/// The queue never shrinks, and has at least as many nodes as were taken
/// where the walk went on.
proof fn lemma_queue_len_mono(roots: Seq<usize>, kids: Seq<Seq<usize>>, n: nat)
    requires
        n + 1 <= walk_queue(roots, kids, n + 1).len(),
    ensures
        n <= walk_queue(roots, kids, n).len(),
        walk_queue(roots, kids, n).len() <= walk_queue(roots, kids, n + 1).len(),
{
    let q = walk_queue(roots, kids, n);
    if n >= q.len() {
        assert(walk_queue(roots, kids, n + 1) == q);
    }
}

/// Once every node in the queue has been taken, the walk makes no more calls.
proof fn lemma_walk_stops(roots: Seq<usize>, kids: Seq<Seq<usize>>, n: nat, m: nat)
    requires
        walk_queue(roots, kids, n).len() == n,
        n <= m,
    ensures
        walk_queue(roots, kids, m) == walk_queue(roots, kids, n),
        walk_calls(roots, kids, m) == walk_calls(roots, kids, n),
    decreases m,
{
    if m > n {
        lemma_walk_stops(roots, kids, n, (m - 1) as nat);
    }
}

/// The hierarchy calls of a level-order walk of a scene file's nodes from
/// `roots`, where `children[i]` lists the children of node `i`: each root is
/// set with no parent at level 0, then the nodes are taken off the queue in
/// order and each child of the `k`-th node taken is set under it at level
/// `k`, and queued.
pub fn hierarchy_calls(roots: &[usize], children: &[Vec<usize>]) -> (r: Vec<(usize, usize, usize)>)
    requires
        is_forest(roots@, kids_view(children@)),
    ensures
        r@ == walk_calls(roots@, kids_view(children@), children@.len() as nat),
{
    let ghost kids = kids_view(children@);
    let n_nodes = children.len();
    let mut queue: Vec<usize> = Vec::new();
    let mut calls: Vec<(usize, usize, usize)> = Vec::new();
    let mut i: usize = 0;
    while i < roots.len()
        invariant
            i <= roots@.len(),
            queue@ == roots@.take(i as int),
            calls@ == roots@.take(i as int).map_values(|r: usize| (r, INVALID_INDEX, 0usize)),
        decreases roots@.len() - i,
    {
        queue.push(roots[i]);
        calls.push((roots[i], INVALID_INDEX, 0));
        proof {
            assert(roots@.take(i + 1) =~= roots@.take(i as int).push(roots@[i as int]));
            assert(calls@ =~= roots@.take(i + 1).map_values(|r: usize| (r, INVALID_INDEX, 0usize)));
        }
        i = i + 1;
    }
    proof {
        assert(roots@.take(i as int) =~= roots@);
        assert(walk_queue(roots@, kids, 0) == roots@);
        lemma_queue_distinct(roots@, kids, 0);
        lemma_distinct_below(queue@, n_nodes as nat);
    }
    let mut head: usize = 0;
    while head < queue.len()
        invariant
            is_forest(roots@, kids),
            kids == kids_view(children@),
            n_nodes == children@.len(),
            head <= queue@.len(),
            queue@.len() <= n_nodes,
            queue@ == walk_queue(roots@, kids, head as nat),
            calls@ == walk_calls(roots@, kids, head as nat),
            forall|k: int| 0 <= k < queue@.len() ==> #[trigger] queue@[k] < n_nodes,
        decreases n_nodes - head,
    {
        let node = queue[head];
        let level = head + 1;
        let list = &children[node];
        proof {
            assert(list@ == kids[node as int]);
        }
        let ghost q0 = queue@;
        let ghost c0 = calls@;
        let mut k: usize = 0;
        while k < list.len()
            invariant
                k <= list@.len(),
                queue@ == q0 + list@.take(k as int),
                calls@ == c0 + list@.take(k as int).map_values(|c: usize| (c, node, level)),
            decreases list@.len() - k,
        {
            let child = list[k];
            queue.push(child);
            calls.push((child, node, level));
            proof {
                assert(list@.take(k + 1) =~= list@.take(k as int).push(child));
                assert(queue@ =~= q0 + list@.take(k + 1));
                assert(calls@ =~= c0 + list@.take(k + 1).map_values(|c: usize| (c, node, level)));
            }
            k = k + 1;
        }
        proof {
            assert(list@.take(k as int) =~= list@);
            assert(walk_queue(roots@, kids, (head + 1) as nat) == q0 + kids[node as int]);
            assert(walk_calls(roots@, kids, (head + 1) as nat) == c0 + kids[node as int].map_values(
                |c: usize| (c, node, level),
            ));
            lemma_queue_distinct(roots@, kids, (head + 1) as nat);
            lemma_distinct_below(queue@, n_nodes as nat);
        }
        head = head + 1;
    }
    proof {
        lemma_walk_stops(roots@, kids, head as nat, n_nodes as nat);
    }
    calls
}

/// The levels of the nodes of the walk's queue after `n` nodes were taken
/// off it, by depth: a root is at level 0, a child one level below its
/// parent.
pub open spec fn queue_levels(roots: Seq<usize>, kids: Seq<Seq<usize>>, n: nat) -> Seq<usize>
    decreases n,
{
    if n == 0 {
        Seq::new(roots.len(), |i: int| 0usize)
    } else {
        let q = walk_queue(roots, kids, (n - 1) as nat);
        let lv = queue_levels(roots, kids, (n - 1) as nat);
        if n - 1 < q.len() {
            lv + Seq::new(kids[q[n - 1] as int].len(), |i: int| (lv[n - 1] + 1) as usize)
        } else {
            lv
        }
    }
}

/// The hierarchy calls of the walk after `n` nodes were taken off the queue,
/// with levels by depth: each root with no parent at level 0, then each
/// child of a node taken with that node as parent, one level below it.
pub open spec fn depth_walk_calls(roots: Seq<usize>, kids: Seq<Seq<usize>>, n: nat) -> Seq<(usize, usize, usize)>
    decreases n,
{
    if n == 0 {
        roots.map_values(|r: usize| (r, INVALID_INDEX, 0usize))
    } else {
        let q = walk_queue(roots, kids, (n - 1) as nat);
        let lv = queue_levels(roots, kids, (n - 1) as nat);
        let before = depth_walk_calls(roots, kids, (n - 1) as nat);
        if n - 1 < q.len() {
            before + kids[q[n - 1] as int].map_values(|c: usize| (c, q[n - 1], (lv[n - 1] + 1) as usize))
        } else {
            before
        }
    }
}

/// Once every node in the queue has been taken, the depth walk makes no
/// more calls.
proof fn lemma_depth_walk_stops(roots: Seq<usize>, kids: Seq<Seq<usize>>, n: nat, m: nat)
    requires
        walk_queue(roots, kids, n).len() == n,
        n <= m,
    ensures
        walk_queue(roots, kids, m) == walk_queue(roots, kids, n),
        queue_levels(roots, kids, m) == queue_levels(roots, kids, n),
        depth_walk_calls(roots, kids, m) == depth_walk_calls(roots, kids, n),
    decreases m,
{
    if m > n {
        lemma_depth_walk_stops(roots, kids, n, (m - 1) as nat);
    }
}

/// The hierarchy calls of a level-order walk of a scene file's nodes from
/// `roots`, with levels by depth: each root is set with no parent at level
/// 0, then the nodes are taken off the queue in order and each child of a
/// node taken is set under it one level below it, and queued.
pub fn depth_hierarchy_calls(roots: &[usize], children: &[Vec<usize>]) -> (r: Vec<(usize, usize, usize)>)
    requires
        is_forest(roots@, kids_view(children@)),
    ensures
        r@ == depth_walk_calls(roots@, kids_view(children@), children@.len() as nat),
{
    let ghost kids = kids_view(children@);
    let n_nodes = children.len();
    let mut queue: Vec<usize> = Vec::new();
    let mut levels: Vec<usize> = Vec::new();
    let mut calls: Vec<(usize, usize, usize)> = Vec::new();
    let mut i: usize = 0;
    while i < roots.len()
        invariant
            i <= roots@.len(),
            queue@ == roots@.take(i as int),
            levels@ == Seq::new(i as nat, |k: int| 0usize),
            calls@ == roots@.take(i as int).map_values(|r: usize| (r, INVALID_INDEX, 0usize)),
        decreases roots@.len() - i,
    {
        queue.push(roots[i]);
        levels.push(0);
        calls.push((roots[i], INVALID_INDEX, 0));
        proof {
            assert(roots@.take(i + 1) =~= roots@.take(i as int).push(roots@[i as int]));
            assert(levels@ =~= Seq::new((i + 1) as nat, |k: int| 0usize));
            assert(calls@ =~= roots@.take(i + 1).map_values(|r: usize| (r, INVALID_INDEX, 0usize)));
        }
        i = i + 1;
    }
    proof {
        assert(roots@.take(i as int) =~= roots@);
        assert(walk_queue(roots@, kids, 0) == roots@);
        assert(queue_levels(roots@, kids, 0) =~= levels@);
        lemma_queue_distinct(roots@, kids, 0);
        lemma_distinct_below(queue@, n_nodes as nat);
    }
    let mut head: usize = 0;
    while head < queue.len()
        invariant
            is_forest(roots@, kids),
            kids == kids_view(children@),
            n_nodes == children@.len(),
            head <= queue@.len(),
            queue@.len() <= n_nodes,
            queue@ == walk_queue(roots@, kids, head as nat),
            levels@ == queue_levels(roots@, kids, head as nat),
            levels@.len() == queue@.len(),
            forall|k: int| 0 <= k < levels@.len() ==> #[trigger] levels@[k] <= k,
            calls@ == depth_walk_calls(roots@, kids, head as nat),
            forall|k: int| 0 <= k < queue@.len() ==> #[trigger] queue@[k] < n_nodes,
        decreases n_nodes - head,
    {
        let node = queue[head];
        let level = levels[head] + 1;
        let list = &children[node];
        proof {
            assert(list@ == kids[node as int]);
        }
        let ghost q0 = queue@;
        let ghost l0 = levels@;
        let ghost c0 = calls@;
        let mut k: usize = 0;
        while k < list.len()
            invariant
                k <= list@.len(),
                queue@ == q0 + list@.take(k as int),
                levels@ == l0 + Seq::new(k as nat, |m: int| level),
                calls@ == c0 + list@.take(k as int).map_values(|c: usize| (c, node, level)),
            decreases list@.len() - k,
        {
            let child = list[k];
            queue.push(child);
            levels.push(level);
            calls.push((child, node, level));
            proof {
                assert(list@.take(k + 1) =~= list@.take(k as int).push(child));
                assert(queue@ =~= q0 + list@.take(k + 1));
                assert(levels@ =~= l0 + Seq::new((k + 1) as nat, |m: int| level));
                assert(calls@ =~= c0 + list@.take(k + 1).map_values(|c: usize| (c, node, level)));
            }
            k = k + 1;
        }
        proof {
            assert(list@.take(k as int) =~= list@);
            assert(walk_queue(roots@, kids, (head + 1) as nat) == q0 + kids[node as int]);
            assert(levels@ =~= queue_levels(roots@, kids, (head + 1) as nat));
            assert(depth_walk_calls(roots@, kids, (head + 1) as nat) == c0 + kids[node as int].map_values(
                |c: usize| (c, node, level),
            ));
            assert forall|m: int| 0 <= m < levels@.len() implies #[trigger] levels@[m] <= m by {
                if m >= l0.len() {
                    assert(levels@[m] == level);
                    assert(l0[head as int] <= head);
                }
            }
            lemma_queue_distinct(roots@, kids, (head + 1) as nat);
            lemma_distinct_below(queue@, n_nodes as nat);
        }
        head = head + 1;
    }
    proof {
        lemma_depth_walk_stops(roots@, kids, head as nat, n_nodes as nat);
    }
    calls
}

} // verus!
