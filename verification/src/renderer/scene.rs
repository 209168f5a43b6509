use vstd::prelude::*;

verus! {

/// The index that refers to no node.
pub const INVALID_INDEX: usize = usize::MAX;

/// Number of levels of the scene hierarchy that track changed nodes.
pub const MAX_SCENE_LEVEL: usize = 32;

/// Where a node stands in the scene hierarchy: its parent and level, its
/// first child, its next sibling, and the last sibling of its parent's list
/// of children.
#[derive(Clone, Copy, PartialEq, Eq, Structural, Debug)]
pub struct Hierarchy {
    pub parent: usize,
    pub level: usize,
    pub first_child: usize,
    pub next_sibling: usize,
    pub last_sibling: usize,
}

impl Hierarchy {
    pub open spec fn spec_new(parent: usize, level: usize) -> Hierarchy {
        Hierarchy {
            parent,
            level,
            first_child: INVALID_INDEX,
            next_sibling: INVALID_INDEX,
            last_sibling: INVALID_INDEX,
        }
    }

    pub fn new(parent: usize, level: usize) -> (h: Self)
        ensures
            h == Self::spec_new(parent, level),
    {
        Hierarchy {
            parent,
            level,
            first_child: INVALID_INDEX,
            next_sibling: INVALID_INDEX,
            last_sibling: INVALID_INDEX,
        }
    }
}

impl Default for Hierarchy {
    fn default() -> (h: Self)
        ensures
            h == Self::spec_new(INVALID_INDEX, 0),
    {
        Hierarchy::new(INVALID_INDEX, 0)
    }
}

/// The sibling list that starts at `start`, following `next_sibling` links
/// for at most `fuel` nodes.
pub open spec fn sibling_chain(h: Seq<Hierarchy>, start: usize, fuel: nat) -> Seq<usize>
    decreases fuel,
{
    if start == INVALID_INDEX || fuel == 0 || start >= h.len() {
        Seq::empty()
    } else {
        seq![start] + sibling_chain(h, h[start as int].next_sibling, (fuel - 1) as nat)
    }
}

/// The sibling list that starts at `start` ends, in range, within `fuel`
/// nodes.
pub open spec fn chain_ends(h: Seq<Hierarchy>, start: usize, fuel: nat) -> bool
    decreases fuel,
{
    start == INVALID_INDEX || (fuel > 0 && start < h.len() && chain_ends(
        h,
        h[start as int].next_sibling,
        (fuel - 1) as nat,
    ))
}

/// The nodes below `x` and after it among its siblings, in the order in
/// which a depth-first walk meets them: `x`, the nodes from its first child
/// on, then the nodes from its next sibling on.
pub open spec fn unfold(h: Seq<Hierarchy>, x: usize, fuel: nat) -> Seq<usize>
    decreases fuel,
{
    if x == INVALID_INDEX || fuel == 0 || x >= h.len() {
        Seq::empty()
    } else {
        seq![x] + unfold(h, h[x as int].first_child, (fuel - 1) as nat) + unfold(
            h,
            h[x as int].next_sibling,
            (fuel - 1) as nat,
        )
    }
}

/// The walk from `x` ends within `fuel` levels of links, every node it meets
/// is in range and its level is tracked.
pub open spec fn unfolds(h: Seq<Hierarchy>, x: usize, fuel: nat) -> bool
    decreases fuel,
{
    x == INVALID_INDEX || (fuel > 0 && x < h.len() && h[x as int].level < MAX_SCENE_LEVEL && unfolds(
        h,
        h[x as int].first_child,
        (fuel - 1) as nat,
    ) && unfolds(h, h[x as int].next_sibling, (fuel - 1) as nat))
}

proof fn lemma_unfolds_mono(h: Seq<Hierarchy>, x: usize, f1: nat, f2: nat)
    requires
        unfolds(h, x, f1),
        f1 <= f2,
    ensures
        unfolds(h, x, f2),
        unfold(h, x, f1) == unfold(h, x, f2),
    decreases f1,
{
    if x != INVALID_INDEX {
        lemma_unfolds_mono(h, h[x as int].first_child, (f1 - 1) as nat, (f2 - 1) as nat);
        lemma_unfolds_mono(h, h[x as int].next_sibling, (f1 - 1) as nat, (f2 - 1) as nat);
    }
}

proof fn lemma_chain_ends_mono(h: Seq<Hierarchy>, x: usize, f1: nat, f2: nat)
    requires
        chain_ends(h, x, f1),
        f1 <= f2,
    ensures
        chain_ends(h, x, f2),
        sibling_chain(h, x, f1) == sibling_chain(h, x, f2),
    decreases f1,
{
    if x != INVALID_INDEX {
        lemma_chain_ends_mono(h, h[x as int].next_sibling, (f1 - 1) as nat, (f2 - 1) as nat);
    }
}

/// The nodes of `s` whose level is `level`, in order.
pub open spec fn at_level(h: Seq<Hierarchy>, s: Seq<usize>, level: int) -> Seq<usize>
    decreases s.len(),
{
    if s.len() == 0 {
        Seq::empty()
    } else {
        let before = at_level(h, s.drop_last(), level);
        if h[s.last() as int].level == level {
            before.push(s.last())
        } else {
            before
        }
    }
}

proof fn lemma_at_level_push(h: Seq<Hierarchy>, s: Seq<usize>, x: usize, level: int)
    ensures
        at_level(h, s.push(x), level) == if h[x as int].level == level {
            at_level(h, s, level).push(x)
        } else {
            at_level(h, s, level)
        },
{
    assert(s.push(x).drop_last() =~= s);
}

/// The hierarchy after making `node` the last child of `parent`: `node` ends
/// its sibling list, the old last sibling points to it, or it becomes the
/// first child; the list's nodes then record it as their last sibling.
pub open spec fn linked_hierarchy(h: Seq<Hierarchy>, node: usize, parent: usize) -> Seq<Hierarchy> {
    let h1 = h.update(node as int, Hierarchy { next_sibling: INVALID_INDEX, ..h[node as int] });
    if parent == INVALID_INDEX {
        h1
    } else {
        let first_child = h1[parent as int].first_child;
        if first_child == INVALID_INDEX {
            let h2 = h1.update(parent as int, Hierarchy { first_child: node, ..h1[parent as int] });
            h2.update(node as int, Hierarchy { last_sibling: node, ..h2[node as int] })
        } else {
            let last = h1[first_child as int].last_sibling;
            let h2 = h1.update(last as int, Hierarchy { next_sibling: node, ..h1[last as int] });
            let chain = sibling_chain(h2, first_child, (h.len() + 1) as nat);
            Seq::new(
                h2.len(),
                |i: int|
                    if chain.contains(i as usize) {
                        Hierarchy { last_sibling: node, ..h2[i] }
                    } else {
                        h2[i]
                    },
            )
        }
    }
}

/// Linking `node` under `parent` neither reads nor writes out of range, and
/// the sibling list it walks ends.
pub open spec fn can_link(h: Seq<Hierarchy>, node: usize, parent: usize) -> bool {
    let h1 = h.update(node as int, Hierarchy { next_sibling: INVALID_INDEX, ..h[node as int] });
    &&& node < h.len()
    &&& parent != INVALID_INDEX ==> {
        let first_child = h1[parent as int].first_child;
        &&& parent < h.len()
        &&& first_child != INVALID_INDEX ==> {
            let last = h1[first_child as int].last_sibling;
            let h2 = h1.update(last as int, Hierarchy { next_sibling: node, ..h1[last as int] });
            &&& first_child < h.len()
            &&& last != INVALID_INDEX
            &&& last < h.len()
            &&& chain_ends(h2, first_child, (h.len() + 1) as nat)
        }
    }
}

/// A number of link levels within which the walk from `x` ends, where
/// there is one.
pub open spec fn walk_fuel(h: Seq<Hierarchy>, x: usize) -> nat {
    choose|f: nat| unfolds(h, x, f)
}

/// The nodes whose transforms change with that of `node`: `node` itself,
/// then its descendants in depth-first order.
pub open spec fn subtree(h: Seq<Hierarchy>, node: usize) -> Seq<usize> {
    let first_child = h[node as int].first_child;
    seq![node] + unfold(h, first_child, walk_fuel(h, first_child))
}

/// `node` is in range at a tracked level, and the walk below it ends.
pub open spec fn can_mark(h: Seq<Hierarchy>, node: usize) -> bool {
    &&& node < h.len()
    &&& h[node as int].level < MAX_SCENE_LEVEL
    &&& exists|f: nat| unfolds(h, h[node as int].first_child, f)
}

/// What is left to visit when `stack` is the stack of pending walks, the
/// top of the stack last.
spec fn pending(h: Seq<Hierarchy>, stack: Seq<usize>, fuel: nat) -> Seq<usize>
    decreases stack.len(),
{
    if stack.len() == 0 {
        Seq::empty()
    } else {
        unfold(h, stack.last(), fuel) + pending(h, stack.drop_last(), fuel)
    }
}

/// How the global transform of `node` is computed again.
pub open spec fn update_for(h: Seq<Hierarchy>, node: usize) -> TransformUpdate {
    let parent = h[node as int].parent;
    if parent == INVALID_INDEX {
        TransformUpdate::Root { node }
    } else {
        TransformUpdate::Child { node, parent }
    }
}

/// The updates for the changed nodes of the levels below `levels`, level by
/// level, each level in the order in which its nodes were marked.
pub open spec fn updates_upto(h: Seq<Hierarchy>, changed: Seq<Seq<usize>>, levels: int) -> Seq<TransformUpdate>
    decreases levels,
{
    if levels <= 0 {
        Seq::empty()
    } else {
        updates_upto(h, changed, levels - 1) + changed[levels - 1].map_values(|n: usize| update_for(h, n))
    }
}

/// The hierarchy of the scene's nodes, and per level the nodes whose global
/// transform must be computed again.
pub struct SceneHierarchy {
    pub nodes_hierarchy: Vec<Hierarchy>,
    pub changed_nodes: Vec<Vec<usize>>,
}

/// A node whose global transform is computed again: for a root, from its
/// local transform alone; for a child, from its parent's global transform
/// and its own local transform.
#[derive(Clone, Copy, PartialEq, Eq, Structural, Debug)]
pub enum TransformUpdate {
    Root { node: usize },
    Child { node: usize, parent: usize },
}

impl TransformUpdate {
    pub open spec fn spec_node(self) -> usize {
        match self {
            TransformUpdate::Root { node } => node,
            TransformUpdate::Child { node, .. } => node,
        }
    }
}

impl SceneHierarchy {
    pub closed spec fn changed(&self) -> Seq<Seq<usize>> {
        self.changed_nodes@.map_values(|v: Vec<usize>| v@)
    }

    /// There is one list of changed nodes per level.
    pub closed spec fn wf(&self) -> bool {
        self.changed_nodes@.len() == MAX_SCENE_LEVEL
    }

    pub fn new() -> (s: Self)
        ensures
            s.wf(),
            s.nodes_hierarchy@ == Seq::<Hierarchy>::empty(),
            s.changed() == Seq::new(MAX_SCENE_LEVEL as nat, |l: int| Seq::<usize>::empty()),
    {
        Self::with_num_nodes(0)
    }

    /// A hierarchy of `num_nodes` unlinked roots.
    pub fn with_num_nodes(num_nodes: usize) -> (s: Self)
        ensures
            s.wf(),
            s.nodes_hierarchy@ == Seq::new(num_nodes as nat, |i: int| Hierarchy::spec_new(INVALID_INDEX, 0)),
            s.changed() == Seq::new(MAX_SCENE_LEVEL as nat, |l: int| Seq::<usize>::empty()),
    {
        let mut nodes_hierarchy: Vec<Hierarchy> = Vec::new();
        let mut i: usize = 0;
        while i < num_nodes
            invariant
                i <= num_nodes,
                nodes_hierarchy@ == Seq::new(i as nat, |k: int| Hierarchy::spec_new(INVALID_INDEX, 0)),
            decreases num_nodes - i,
        {
            nodes_hierarchy.push(Hierarchy::default());
            i = i + 1;
            assert(nodes_hierarchy@ =~= Seq::new(i as nat, |k: int| Hierarchy::spec_new(INVALID_INDEX, 0)));
        }
        let mut changed_nodes: Vec<Vec<usize>> = Vec::new();
        let mut l: usize = 0;
        while l < MAX_SCENE_LEVEL
            invariant
                l <= MAX_SCENE_LEVEL,
                changed_nodes@.len() == l,
                forall|k: int| 0 <= k < l ==> (#[trigger] changed_nodes@[k])@ == Seq::<usize>::empty(),
            decreases MAX_SCENE_LEVEL - l,
        {
            changed_nodes.push(Vec::new());
            l = l + 1;
        }
        let s = SceneHierarchy { nodes_hierarchy, changed_nodes };
        assert(s.changed() =~= Seq::new(MAX_SCENE_LEVEL as nat, |l: int| Seq::<usize>::empty()));
        s
    }

    /// Makes `node` the last child of `parent` (a root when `parent` is
    /// invalid).
    fn set_child_and_sibling_indices(&mut self, node: usize, parent: usize)
        requires
            can_link(old(self).nodes_hierarchy@, node, parent),
        ensures
            final(self).nodes_hierarchy@ == linked_hierarchy(old(self).nodes_hierarchy@, node, parent),
            final(self).changed_nodes == old(self).changed_nodes,
    {
        let ghost h = self.nodes_hierarchy@;
        let mut hn = self.nodes_hierarchy[node];
        hn.next_sibling = INVALID_INDEX;
        self.nodes_hierarchy.set(node, hn);
        if parent != INVALID_INDEX {
            let first_child = self.nodes_hierarchy[parent].first_child;
            if first_child == INVALID_INDEX {
                let mut hp = self.nodes_hierarchy[parent];
                hp.first_child = node;
                self.nodes_hierarchy.set(parent, hp);
                let mut hn = self.nodes_hierarchy[node];
                hn.last_sibling = node;
                self.nodes_hierarchy.set(node, hn);
            } else {
                let last_sibling = self.nodes_hierarchy[first_child].last_sibling;
                let mut hl = self.nodes_hierarchy[last_sibling];
                hl.next_sibling = node;
                self.nodes_hierarchy.set(last_sibling, hl);
                let num_nodes = self.nodes_hierarchy.len();
                let ghost h2 = self.nodes_hierarchy@;
                let ghost full = (h.len() + 1) as nat;
                let ghost chain = sibling_chain(h2, first_child, full);
                let mut current_node = first_child;
                let ghost mut fuel: nat = full;
                let ghost mut done: Seq<usize> = Seq::empty();
                proof {
                    assert(chain == done + sibling_chain(h2, current_node, fuel));
                    assert(self.nodes_hierarchy@ =~= Seq::new(
                        h2.len(),
                        |i: int|
                            if done.contains(i as usize) {
                                Hierarchy { last_sibling: node, ..h2[i] }
                            } else {
                                h2[i]
                            },
                    ));
                }
                while current_node != INVALID_INDEX
                    invariant
                        self.changed_nodes == old(self).changed_nodes,
                        h2.len() == h.len(),
                        h2.len() == num_nodes,
                        self.nodes_hierarchy@.len() == h2.len(),
                        chain_ends(h2, current_node, fuel),
                        chain == done + sibling_chain(h2, current_node, fuel),
                        self.nodes_hierarchy@ == Seq::new(
                            h2.len(),
                            |i: int|
                                if done.contains(i as usize) {
                                    Hierarchy { last_sibling: node, ..h2[i] }
                                } else {
                                    h2[i]
                                },
                        ),
                    decreases fuel,
                {
                    let ghost old_nodes = self.nodes_hierarchy@;
                    let mut hc = self.nodes_hierarchy[current_node];
                    hc.last_sibling = node;
                    self.nodes_hierarchy.set(current_node, hc);
                    let ghost cur = current_node;
                    current_node = self.nodes_hierarchy[current_node].next_sibling;
                    proof {
                        assert(old_nodes[cur as int].next_sibling == h2[cur as int].next_sibling);
                        assert(sibling_chain(h2, cur, fuel) == seq![cur] + sibling_chain(
                            h2,
                            current_node,
                            (fuel - 1) as nat,
                        ));
                        let new_done = done.push(cur);
                        assert(done + sibling_chain(h2, cur, fuel) =~= new_done + sibling_chain(
                            h2,
                            current_node,
                            (fuel - 1) as nat,
                        ));
                        assert forall|i: int| 0 <= i < h2.len() implies #[trigger] self.nodes_hierarchy@[i] == (
                        if new_done.contains(i as usize) {
                            Hierarchy { last_sibling: node, ..h2[i] }
                        } else {
                            h2[i]
                        }) by {
                            vstd::seq_lib::lemma_seq_contains_after_push(done, cur, i as usize);
                            if i == cur as int {
                                assert(self.nodes_hierarchy@[i] == Hierarchy { last_sibling: node, ..old_nodes[i] });
                            } else {
                                assert(self.nodes_hierarchy@[i] == old_nodes[i]);
                                assert((i as usize) != cur);
                            }
                        }
                        assert(self.nodes_hierarchy@ =~= Seq::new(
                            h2.len(),
                            |i: int|
                                if new_done.contains(i as usize) {
                                    Hierarchy { last_sibling: node, ..h2[i] }
                                } else {
                                    h2[i]
                                },
                        ));
                        done = new_done;
                        fuel = (fuel - 1) as nat;
                    }
                }
                proof {
                    assert(chain =~= done);
                }
            }
        }
    }

    /// Adds a node under `parent` at `level`, as the parent's last child.
    pub fn add_node(&mut self, parent: usize, level: usize) -> (node: usize)
        requires
            can_link(old(self).nodes_hierarchy@.push(Hierarchy::spec_new(parent, level)), old(self).nodes_hierarchy@.len() as usize, parent),
        ensures
            node == old(self).nodes_hierarchy@.len(),
            final(self).nodes_hierarchy@.len() == old(self).nodes_hierarchy@.len() + 1,
            final(self).nodes_hierarchy@ == linked_hierarchy(
                old(self).nodes_hierarchy@.push(Hierarchy::spec_new(parent, level)),
                node,
                parent,
            ),
            final(self).changed() == old(self).changed(),
            final(self).wf() == old(self).wf(),
    {
        let node = self.nodes_hierarchy.len();
        self.nodes_hierarchy.push(Hierarchy::new(parent, level));
        self.set_child_and_sibling_indices(node, parent);
        node
    }

    /// Moves `node` under `parent` at `level`, as the parent's last child.
    pub fn set_hierarchy(&mut self, node: usize, parent: usize, level: usize)
        requires
            node < old(self).nodes_hierarchy@.len(),
            can_link(
                old(self).nodes_hierarchy@.update(
                    node as int,
                    Hierarchy { parent, level, ..old(self).nodes_hierarchy@[node as int] },
                ),
                node,
                parent,
            ),
        ensures
            final(self).nodes_hierarchy@ == linked_hierarchy(
                old(self).nodes_hierarchy@.update(
                    node as int,
                    Hierarchy { parent, level, ..old(self).nodes_hierarchy@[node as int] },
                ),
                node,
                parent,
            ),
            final(self).nodes_hierarchy@.len() == old(self).nodes_hierarchy@.len(),
            final(self).changed() == old(self).changed(),
            final(self).wf() == old(self).wf(),
    {
        let mut h = self.nodes_hierarchy[node];
        h.parent = parent;
        h.level = level;
        self.nodes_hierarchy.set(node, h);
        self.set_child_and_sibling_indices(node, parent);
    }
}


proof fn lemma_pending_push(h: Seq<Hierarchy>, stack: Seq<usize>, x: usize, fuel: nat)
    ensures
        pending(h, stack.push(x), fuel) == unfold(h, x, fuel) + pending(h, stack, fuel),
{
    assert(stack.push(x).drop_last() =~= stack);
}

proof fn lemma_unfold_in_range(h: Seq<Hierarchy>, x: usize, fuel: nat)
    requires
        unfolds(h, x, fuel),
    ensures
        forall|i: int| 0 <= i < unfold(h, x, fuel).len() ==> (#[trigger] unfold(h, x, fuel)[i]) < h.len(),
    decreases fuel,
{
    if x != INVALID_INDEX {
        let fc = h[x as int].first_child;
        let ns = h[x as int].next_sibling;
        lemma_unfold_in_range(h, fc, (fuel - 1) as nat);
        lemma_unfold_in_range(h, ns, (fuel - 1) as nat);
        let a = unfold(h, fc, (fuel - 1) as nat);
        let b = unfold(h, ns, (fuel - 1) as nat);
        let all = unfold(h, x, fuel);
        assert(all == seq![x] + a + b);
        assert forall|i: int| 0 <= i < all.len() implies (#[trigger] all[i]) < h.len() by {
            if i == 0 {
            } else if i < 1 + a.len() {
                assert(all[i] == a[i - 1]);
            } else {
                assert(all[i] == b[i - 1 - a.len()]);
            }
        }
    }
}

proof fn lemma_subtree_in_range(h: Seq<Hierarchy>, node: usize)
    requires
        can_mark(h, node),
    ensures
        forall|i: int| 0 <= i < subtree(h, node).len() ==> (#[trigger] subtree(h, node)[i]) < h.len(),
{
    let fc = h[node as int].first_child;
    let fuel = walk_fuel(h, fc);
    lemma_unfold_in_range(h, fc, fuel);
    let t = subtree(h, node);
    assert forall|i: int| 0 <= i < t.len() implies (#[trigger] t[i]) < h.len() by {
        if i > 0 {
            assert(t[i] == unfold(h, fc, fuel)[i - 1]);
        }
    }
}

impl SceneHierarchy {
    /// Appends `x` to the changed nodes of level `level`.
    fn push_changed(&mut self, level: usize, x: usize)
        requires
            old(self).wf(),
            level < MAX_SCENE_LEVEL,
        ensures
            final(self).wf(),
            final(self).nodes_hierarchy == old(self).nodes_hierarchy,
            final(self).changed() == old(self).changed().update(level as int, old(self).changed()[level as int].push(x)),
    {
        self.changed_nodes[level].push(x);
        assert(self.changed() =~= old(self).changed().update(level as int, old(self).changed()[level as int].push(x)));
    }

    /// Marks `node` and every node below it as changed, each at its own
    /// level, in depth-first order.
    pub fn mark_changed(&mut self, node: usize)
        requires
            old(self).wf(),
            can_mark(old(self).nodes_hierarchy@, node),
        ensures
            final(self).wf(),
            final(self).nodes_hierarchy@ == old(self).nodes_hierarchy@,
            forall|l: int|
                0 <= l < MAX_SCENE_LEVEL ==> #[trigger] final(self).changed()[l] == old(self).changed()[l] + at_level(
                    old(self).nodes_hierarchy@,
                    subtree(old(self).nodes_hierarchy@, node),
                    l,
                ),
            changed_in_range(old(self).nodes_hierarchy@, old(self).changed()) ==> changed_in_range(
                final(self).nodes_hierarchy@,
                final(self).changed(),
            ),
            marked_at_own_level(old(self).nodes_hierarchy@, old(self).changed()) ==> marked_at_own_level(
                final(self).nodes_hierarchy@,
                final(self).changed(),
            ),
    {
        let ghost h = self.nodes_hierarchy@;
        let ghost old_changed = self.changed();
        let hierarchy = self.nodes_hierarchy[node];
        let ghost fuel = walk_fuel(h, hierarchy.first_child);
        let ghost total = subtree(h, node);
        self.push_changed(hierarchy.level, node);
        let ghost mut done: Seq<usize> = seq![node];
        let mut nodes_to_change: Vec<usize> = Vec::new();
        if hierarchy.first_child != INVALID_INDEX {
            nodes_to_change.push(hierarchy.first_child);
        }
        proof {
            assert(unfolds(h, hierarchy.first_child, fuel));
            lemma_pending_push(h, Seq::empty(), hierarchy.first_child, fuel);
            assert(pending(h, Seq::<usize>::empty(), fuel) == Seq::<usize>::empty());
            assert(total == done + pending(h, nodes_to_change@, fuel));
            assert forall|l: int| 0 <= l < MAX_SCENE_LEVEL implies #[trigger] self.changed()[l] == old_changed[l] + at_level(h, done, l) by {
                lemma_at_level_push(h, Seq::empty(), node, l);
                assert(Seq::<usize>::empty().push(node) == done);
                assert(at_level(h, Seq::empty(), l) == Seq::<usize>::empty());
                if l == hierarchy.level as int {
                    assert(old_changed[l].push(node) == old_changed[l] + seq![node]);
                } else {
                    assert(old_changed[l] + Seq::<usize>::empty() == old_changed[l]);
                }
            }
        }
        while nodes_to_change.len() > 0
            invariant
                self.wf(),
                self.nodes_hierarchy@ == h,
                forall|k: int|
                    0 <= k < nodes_to_change@.len() ==> #[trigger] nodes_to_change@[k] != INVALID_INDEX && unfolds(
                        h,
                        nodes_to_change@[k],
                        fuel,
                    ),
                total == done + pending(h, nodes_to_change@, fuel),
                forall|l: int| 0 <= l < MAX_SCENE_LEVEL ==> #[trigger] self.changed()[l] == old_changed[l] + at_level(h, done, l),
            decreases pending(h, nodes_to_change@, fuel).len(),
        {
            let ghost stack = nodes_to_change@;
            let current_node = nodes_to_change.pop().unwrap();
            let ghost rest = nodes_to_change@;
            proof {
                assert(stack == rest.push(current_node));
                lemma_pending_push(h, rest, current_node, fuel);
                assert(stack[stack.len() - 1] == current_node);
            }
            let current_hierarchy = self.nodes_hierarchy[current_node];
            let ghost before = self.changed();
            self.push_changed(current_hierarchy.level, current_node);
            if current_hierarchy.next_sibling != INVALID_INDEX {
                nodes_to_change.push(current_hierarchy.next_sibling);
            }
            if current_hierarchy.first_child != INVALID_INDEX {
                nodes_to_change.push(current_hierarchy.first_child);
            }
            proof {
                let fc = current_hierarchy.first_child;
                let ns = current_hierarchy.next_sibling;
                lemma_unfolds_mono(h, fc, (fuel - 1) as nat, fuel);
                lemma_unfolds_mono(h, ns, (fuel - 1) as nat, fuel);
                assert(unfold(h, current_node, fuel) == seq![current_node] + unfold(h, fc, fuel) + unfold(h, ns, fuel));
                let with_ns = if ns != INVALID_INDEX { rest.push(ns) } else { rest };
                if ns != INVALID_INDEX {
                    lemma_pending_push(h, rest, ns, fuel);
                }
                assert(pending(h, with_ns, fuel) == unfold(h, ns, fuel) + pending(h, rest, fuel));
                if fc != INVALID_INDEX {
                    lemma_pending_push(h, with_ns, fc, fuel);
                }
                assert(nodes_to_change@ == if fc != INVALID_INDEX { with_ns.push(fc) } else { with_ns });
                assert(pending(h, nodes_to_change@, fuel) == unfold(h, fc, fuel) + pending(h, with_ns, fuel));
                let new_done = done.push(current_node);
                assert(total == new_done + pending(h, nodes_to_change@, fuel)) by {
                    assert(done + pending(h, stack, fuel) =~= new_done + (unfold(h, fc, fuel) + (unfold(h, ns, fuel) + pending(h, rest, fuel))));
                }
                assert forall|l: int| 0 <= l < MAX_SCENE_LEVEL implies #[trigger] self.changed()[l] == old_changed[l] + at_level(h, new_done, l) by {
                    lemma_at_level_push(h, done, current_node, l);
                    assert(before[l] == old_changed[l] + at_level(h, done, l));
                    if l == current_hierarchy.level as int {
                        assert(old_changed[l] + at_level(h, done, l).push(current_node) =~= (old_changed[l] + at_level(h, done, l)).push(current_node));
                    }
                }
                assert forall|k: int|
                    0 <= k < nodes_to_change@.len() implies #[trigger] nodes_to_change@[k] != INVALID_INDEX && unfolds(
                        h,
                        nodes_to_change@[k],
                        fuel,
                    ) by {
                    if k < rest.len() {
                        assert(nodes_to_change@[k] == stack[k]);
                    }
                }
                done = new_done;
            }
        }
        proof {
            assert(pending(h, nodes_to_change@, fuel) == Seq::<usize>::empty());
            assert(done =~= total);
            lemma_subtree_in_range(h, node);
            let fin = self.changed();
            assert forall|l: int, k: int| 0 <= l < fin.len() && 0 <= k < fin[l].len() implies (#[trigger] fin[l][k]) < h.len()
                && ((marked_at_own_level(h, old_changed)) ==> h[fin[l][k] as int].level == l)
                || !changed_in_range(h, old_changed) by {
                if changed_in_range(h, old_changed) {
                    lemma_at_level_levels(h, total, l);
                    let a = at_level(h, total, l);
                    assert(fin[l] == old_changed[l] + a);
                    if k < old_changed[l].len() {
                        assert(fin[l][k] == old_changed[l][k]);
                    } else {
                        assert(fin[l][k] == a[k - old_changed[l].len()]);
                    }
                }
            }
        }
    }
}


/// Every node in the changed list of a level has that level, and is in
/// range.
pub open spec fn marked_at_own_level(h: Seq<Hierarchy>, changed: Seq<Seq<usize>>) -> bool {
    forall|l: int, k: int|
        0 <= l < changed.len() && 0 <= k < changed[l].len() ==> (#[trigger] changed[l][k]) < h.len()
            && h[changed[l][k] as int].level == l
}

/// The changed nodes are all in range.
pub open spec fn changed_in_range(h: Seq<Hierarchy>, changed: Seq<Seq<usize>>) -> bool {
    forall|l: int, k: int| 0 <= l < changed.len() && 0 <= k < changed[l].len() ==> (#[trigger] changed[l][k]) < h.len()
}

proof fn lemma_at_level_levels(h: Seq<Hierarchy>, s: Seq<usize>, level: int)
    requires
        forall|i: int| 0 <= i < s.len() ==> (#[trigger] s[i]) < h.len(),
    ensures
        forall|k: int|
            0 <= k < at_level(h, s, level).len() ==> (#[trigger] at_level(h, s, level)[k]) < h.len()
                && h[at_level(h, s, level)[k] as int].level == level,
    decreases s.len(),
{
    if s.len() > 0 {
        let rest = s.drop_last();
        assert forall|i: int| 0 <= i < rest.len() implies (#[trigger] rest[i]) < h.len() by {
            assert(rest[i] == s[i]);
        }
        lemma_at_level_levels(h, rest, level);
        let before = at_level(h, rest, level);
        let all = at_level(h, s, level);
        assert(s.last() == s[s.len() - 1]);
        assert forall|k: int| 0 <= k < all.len() implies (#[trigger] all[k]) < h.len() && h[all[k] as int].level
            == level by {
            if k < before.len() {
                assert(all[k] == before[k]);
            }
        }
    }
}

proof fn lemma_updates_upto_levels(h: Seq<Hierarchy>, changed: Seq<Seq<usize>>, levels: int)
    requires
        marked_at_own_level(h, changed),
        0 <= levels <= changed.len(),
    ensures
        forall|i: int|
            0 <= i < updates_upto(h, changed, levels).len() ==> h[(#[trigger] updates_upto(h, changed, levels)[i]).spec_node() as int].level
                < levels,
        forall|i: int, j: int|
            0 <= i < j < updates_upto(h, changed, levels).len() ==> h[(#[trigger] updates_upto(h, changed, levels)[i]).spec_node() as int].level
                <= h[(#[trigger] updates_upto(h, changed, levels)[j]).spec_node() as int].level,
    decreases levels,
{
    if levels > 0 {
        lemma_updates_upto_levels(h, changed, levels - 1);
        let prefix = updates_upto(h, changed, levels - 1);
        let block = changed[levels - 1].map_values(|n: usize| update_for(h, n));
        let all = updates_upto(h, changed, levels);
        assert(all == prefix + block);
        assert forall|i: int| 0 <= i < all.len() implies h[(#[trigger] all[i]).spec_node() as int].level < levels by {
            if i >= prefix.len() {
                let k = i - prefix.len();
                assert(all[i] == block[k]);
                assert(changed[levels - 1][k] < h.len());
            } else {
                assert(all[i] == prefix[i]);
            }
        }
        assert forall|i: int, j: int| 0 <= i < j < all.len() implies h[(#[trigger] all[i]).spec_node() as int].level
            <= h[(#[trigger] all[j]).spec_node() as int].level by {
            if j >= prefix.len() {
                let k = j - prefix.len();
                assert(all[j] == block[k]);
                assert(changed[levels - 1][k] < h.len());
                if i < prefix.len() {
                    assert(all[i] == prefix[i]);
                } else {
                    assert(all[i] == block[i - prefix.len()]);
                    assert(changed[levels - 1][i - prefix.len()] < h.len());
                }
            } else {
                assert(all[i] == prefix[i]);
                assert(all[j] == prefix[j]);
            }
        }
    }
}

impl SceneHierarchy {
    /// Takes the changed nodes out, level by level and in the order in which
    /// they were marked, as the transform updates to compute in that order.
    /// Where each node was marked at its own level, a node comes after every
    /// node of a lower level, so a parent's update comes before its
    /// children's.
    pub fn take_transform_updates(&mut self) -> (updates: Vec<TransformUpdate>)
        requires
            old(self).wf(),
            changed_in_range(old(self).nodes_hierarchy@, old(self).changed()),
        ensures
            final(self).wf(),
            final(self).nodes_hierarchy@ == old(self).nodes_hierarchy@,
            final(self).changed() == Seq::new(MAX_SCENE_LEVEL as nat, |l: int| Seq::<usize>::empty()),
            updates@ == updates_upto(old(self).nodes_hierarchy@, old(self).changed(), MAX_SCENE_LEVEL as int),
            marked_at_own_level(old(self).nodes_hierarchy@, old(self).changed()) ==> forall|i: int, j: int|
                0 <= i < j < updates@.len() ==> old(self).nodes_hierarchy@[(#[trigger] updates@[i]).spec_node() as int].level
                    <= old(self).nodes_hierarchy@[(#[trigger] updates@[j]).spec_node() as int].level,
    {
        let ghost h = self.nodes_hierarchy@;
        let ghost old_changed = self.changed();
        let mut updates: Vec<TransformUpdate> = Vec::new();
        let mut level: usize = 0;
        while level < MAX_SCENE_LEVEL
            invariant
                self.wf(),
                self.nodes_hierarchy@ == h,
                old_changed.len() == MAX_SCENE_LEVEL,
                changed_in_range(h, old_changed),
                level <= MAX_SCENE_LEVEL,
                updates@ == updates_upto(h, old_changed, level as int),
                forall|l: int| 0 <= l < level ==> #[trigger] self.changed()[l] == Seq::<usize>::empty(),
                forall|l: int| level <= l < MAX_SCENE_LEVEL ==> #[trigger] self.changed()[l] == old_changed[l],
            decreases MAX_SCENE_LEVEL - level,
        {
            let ghost before = self.changed();
            proof {
                assert(self.changed()[level as int] == old_changed[level as int]);
                assert(before[level as int] == self.changed_nodes@[level as int]@);
            }
            let mut taken: Vec<usize> = Vec::new();
            std::mem::swap(&mut taken, &mut self.changed_nodes[level]);
            proof {
                assert(taken@ == old_changed[level as int]);
                assert(self.changed() =~= before.update(level as int, Seq::<usize>::empty()));
            }
            let ghost prefix = updates@;
            let mut i: usize = 0;
            while i < taken.len()
                invariant
                    self.nodes_hierarchy@ == h,
                    i <= taken@.len(),
                    taken@ == old_changed[level as int],
                    level < MAX_SCENE_LEVEL,
                    old_changed.len() == MAX_SCENE_LEVEL,
                    changed_in_range(h, old_changed),
                    updates@ == prefix + taken@.take(i as int).map_values(|n: usize| update_for(h, n)),
                decreases taken@.len() - i,
            {
                let n = taken[i];
                assert(old_changed[level as int][i as int] < h.len());
                let parent = self.nodes_hierarchy[n].parent;
                if parent == INVALID_INDEX {
                    updates.push(TransformUpdate::Root { node: n });
                } else {
                    updates.push(TransformUpdate::Child { node: n, parent });
                }
                proof {
                    assert(taken@.take(i as int + 1) =~= taken@.take(i as int).push(n));
                    assert(taken@.take(i as int + 1).map_values(|n: usize| update_for(h, n)) =~= taken@.take(
                        i as int,
                    ).map_values(|n: usize| update_for(h, n)).push(update_for(h, n)));
                }
                i = i + 1;
            }
            proof {
                assert(taken@.take(i as int) =~= taken@);
                assert(updates_upto(h, old_changed, level as int + 1) == prefix + old_changed[level as int].map_values(
                    |n: usize| update_for(h, n),
                ));
            }
            level = level + 1;
        }
        proof {
            assert(self.changed() =~= Seq::new(MAX_SCENE_LEVEL as nat, |l: int| Seq::<usize>::empty()));
            if marked_at_own_level(h, old_changed) {
                lemma_updates_upto_levels(h, old_changed, MAX_SCENE_LEVEL as int);
            }
        }
        updates
    }
}

proof fn lemma_chain_same(ha: Seq<Hierarchy>, hb: Seq<Hierarchy>, start: usize, fuel: nat)
    requires
        ha.len() == hb.len(),
        forall|k: int|
            0 <= k < sibling_chain(ha, start, fuel).len() ==> #[trigger] ha[sibling_chain(ha, start, fuel)[k] as int].next_sibling
                == hb[sibling_chain(ha, start, fuel)[k] as int].next_sibling,
    ensures
        sibling_chain(hb, start, fuel) == sibling_chain(ha, start, fuel),
    decreases fuel,
{
    if start != INVALID_INDEX && fuel > 0 && start < ha.len() {
        let c = sibling_chain(ha, start, fuel);
        let rest = sibling_chain(ha, ha[start as int].next_sibling, (fuel - 1) as nat);
        assert(c == seq![start] + rest);
        assert(c[0] == start);
        assert forall|k: int| 0 <= k < rest.len() implies #[trigger] ha[rest[k] as int].next_sibling == hb[rest[k] as int].next_sibling by {
            assert(c[k + 1] == rest[k]);
        }
        lemma_chain_same(ha, hb, ha[start as int].next_sibling, (fuel - 1) as nat);
    }
}

proof fn lemma_chain_extend(h1: Seq<Hierarchy>, h2: Seq<Hierarchy>, start: usize, fuel: nat, last: usize, node: usize)
    requires
        chain_ends(h1, start, fuel),
        sibling_chain(h1, start, fuel).len() > 0,
        sibling_chain(h1, start, fuel).last() == last,
        sibling_chain(h1, start, fuel).no_duplicates(),
        !sibling_chain(h1, start, fuel).contains(node),
        node < h1.len(),
        node != INVALID_INDEX,
        h1[node as int].next_sibling == INVALID_INDEX,
        last < h1.len(),
        h2 == h1.update(last as int, Hierarchy { next_sibling: node, ..h1[last as int] }),
    ensures
        sibling_chain(h2, start, fuel + 1) == sibling_chain(h1, start, fuel).push(node),
    decreases fuel,
{
    let c = sibling_chain(h1, start, fuel);
    let next = h1[start as int].next_sibling;
    let rest = sibling_chain(h1, next, (fuel - 1) as nat);
    assert(c == seq![start] + rest);
    assert(c[0] == start);
    if start == last {
        if rest.len() > 0 {
            assert(c[c.len() - 1] == last);
            assert(c[0] == c[c.len() - 1]);
        }
        assert(rest.len() == 0);
        assert(chain_ends(h1, next, (fuel - 1) as nat));
        if next != INVALID_INDEX {
            assert(rest == seq![next] + sibling_chain(h1, h1[next as int].next_sibling, (fuel - 2) as nat));
        }
        assert(next == INVALID_INDEX);
        assert(h2[node as int] == h1[node as int]);
        assert(sibling_chain(h2, node, fuel) == seq![node] + sibling_chain(h2, INVALID_INDEX, (fuel - 1) as nat));
        assert(sibling_chain(h2, start, fuel + 1) =~= c.push(node));
    } else {
        assert(h2[start as int] == h1[start as int]);
        assert(rest.len() > 0);
        assert(rest.last() == last);
        assert(rest.no_duplicates()) by {
            assert forall|i: int, j: int| 0 <= i < j < rest.len() implies rest[i] != rest[j] by {
                assert(c[i + 1] == rest[i]);
                assert(c[j + 1] == rest[j]);
            }
        }
        assert(!rest.contains(node)) by {
            if rest.contains(node) {
                let k = choose|k: int| 0 <= k < rest.len() && rest[k] == node;
                assert(c[k + 1] == node);
            }
        }
        lemma_chain_extend(h1, h2, next, (fuel - 1) as nat, last, node);
        assert(sibling_chain(h2, start, fuel + 1) =~= c.push(node));
    }
}

/// Linking `node` under a parent without children makes it the parent's
/// only child, the last of its own list.
pub proof fn lemma_link_first_child(h: Seq<Hierarchy>, node: usize, parent: usize)
    requires
        can_link(h, node, parent),
        parent != INVALID_INDEX,
        node != parent,
        node != INVALID_INDEX,
        h[parent as int].first_child == INVALID_INDEX,
    ensures
        ({
            let linked = linked_hierarchy(h, node, parent);
            &&& linked[parent as int].first_child == node
            &&& sibling_chain(linked, node, (h.len() + 1) as nat) == seq![node]
            &&& linked[node as int].last_sibling == node
            &&& linked[node as int].next_sibling == INVALID_INDEX
        }),
{
    let linked = linked_hierarchy(h, node, parent);
    assert(sibling_chain(linked, node, (h.len() + 1) as nat) =~= seq![node] + sibling_chain(
        linked,
        INVALID_INDEX,
        h.len() as nat,
    ));
}

/// Linking `node` under a parent that has children makes it the parent's
/// last child: the parent's list of children is the old list followed by
/// `node`, and every child records `node` as the last sibling. This holds
/// where the old list ends at the child that its first child records as
/// last, and holds neither `node` nor a child twice.
pub proof fn lemma_link_appends_child(h: Seq<Hierarchy>, node: usize, parent: usize)
    requires
        can_link(h, node, parent),
        parent != INVALID_INDEX,
        node != parent,
        node != INVALID_INDEX,
        h[parent as int].first_child != INVALID_INDEX,
        chain_ends(h, h[parent as int].first_child, h.len()),
        sibling_chain(h, h[parent as int].first_child, h.len()).no_duplicates(),
        !sibling_chain(h, h[parent as int].first_child, h.len()).contains(node),
        sibling_chain(h, h[parent as int].first_child, h.len()).last() == h[h[parent as int].first_child as int].last_sibling,
    ensures
        ({
            let linked = linked_hierarchy(h, node, parent);
            let children = sibling_chain(linked, linked[parent as int].first_child, (h.len() + 1) as nat);
            &&& children == sibling_chain(h, h[parent as int].first_child, h.len()).push(node)
            &&& forall|k: int| 0 <= k < children.len() ==> linked[#[trigger] children[k] as int].last_sibling == node
            &&& linked[node as int].next_sibling == INVALID_INDEX
        }),
{
    let fc = h[parent as int].first_child;
    let c = sibling_chain(h, fc, h.len());
    let h1 = h.update(node as int, Hierarchy { next_sibling: INVALID_INDEX, ..h[node as int] });
    assert(h1[parent as int] == h[parent as int]);
    // The list does not pass through `node`, so resetting its link keeps it.
    assert forall|k: int| 0 <= k < c.len() implies #[trigger] h[c[k] as int].next_sibling == h1[c[k] as int].next_sibling by {
        lemma_chain_in_range(h, fc, h.len(), k);
        if c[k] == node {
            assert(c.contains(node));
        }
    }
    lemma_chain_same(h, h1, fc, h.len());
    assert(sibling_chain(h1, fc, h.len()) == c);
    lemma_chain_same_ends(h, h1, fc, h.len());
    assert(c.len() > 0);
    assert(c[0] == fc);
    assert(fc != node);
    assert(h1[fc as int] == h[fc as int]);
    let last = h1[fc as int].last_sibling;
    let h2 = h1.update(last as int, Hierarchy { next_sibling: node, ..h1[last as int] });
    lemma_chain_extend(h1, h2, fc, h.len(), last, node);
    let full = (h.len() + 1) as nat;
    let chain = sibling_chain(h2, fc, full);
    assert(chain == c.push(node));
    let linked = linked_hierarchy(h, node, parent);
    assert(linked == Seq::new(
        h2.len(),
        |i: int|
            if chain.contains(i as usize) {
                Hierarchy { last_sibling: node, ..h2[i] }
            } else {
                h2[i]
            },
    ));
    assert(linked[parent as int].first_child == fc) by {
        assert(h2[parent as int].first_child == h1[parent as int].first_child);
    }
    assert forall|k: int| 0 <= k < chain.len() implies #[trigger] h2[chain[k] as int].next_sibling == linked[chain[k] as int].next_sibling by {
        assert(chain[k] < h.len()) by {
            if k < c.len() {
                assert(chain[k] == c[k]);
                lemma_chain_in_range(h, fc, h.len(), k);
            }
        }
    }
    lemma_chain_same(h2, linked, fc, full);
    assert forall|k: int| 0 <= k < chain.len() implies linked[#[trigger] chain[k] as int].last_sibling == node by {
        assert(chain.contains(chain[k]));
        assert(chain[k] < h.len()) by {
            if k < c.len() {
                assert(chain[k] == c[k]);
                lemma_chain_in_range(h, fc, h.len(), k);
            }
        }
        assert((chain[k] as int) as usize == chain[k]);
    }
    assert(linked[node as int].next_sibling == INVALID_INDEX) by {
        assert(chain.contains(node)) by {
            assert(chain[chain.len() - 1] == node);
        }
        if node == last {
            assert(c.contains(last));
        }
        assert(h2[node as int] == h1[node as int]);
    }
}

proof fn lemma_chain_same_ends(ha: Seq<Hierarchy>, hb: Seq<Hierarchy>, start: usize, fuel: nat)
    requires
        ha.len() == hb.len(),
        chain_ends(ha, start, fuel),
        forall|k: int|
            0 <= k < sibling_chain(ha, start, fuel).len() ==> #[trigger] ha[sibling_chain(ha, start, fuel)[k] as int].next_sibling
                == hb[sibling_chain(ha, start, fuel)[k] as int].next_sibling,
    ensures
        chain_ends(hb, start, fuel),
    decreases fuel,
{
    if start != INVALID_INDEX {
        let c = sibling_chain(ha, start, fuel);
        let rest = sibling_chain(ha, ha[start as int].next_sibling, (fuel - 1) as nat);
        assert(c == seq![start] + rest);
        assert(c[0] == start);
        assert forall|k: int| 0 <= k < rest.len() implies #[trigger] ha[rest[k] as int].next_sibling == hb[rest[k] as int].next_sibling by {
            assert(c[k + 1] == rest[k]);
        }
        lemma_chain_same_ends(ha, hb, ha[start as int].next_sibling, (fuel - 1) as nat);
    }
}

proof fn lemma_chain_in_range(h: Seq<Hierarchy>, start: usize, fuel: nat, k: int)
    requires
        0 <= k < sibling_chain(h, start, fuel).len(),
    ensures
        sibling_chain(h, start, fuel)[k] < h.len(),
        sibling_chain(h, start, fuel)[k] != INVALID_INDEX,
    decreases fuel,
{
    let rest = sibling_chain(h, h[start as int].next_sibling, (fuel - 1) as nat);
    assert(sibling_chain(h, start, fuel) == seq![start] + rest);
    if k > 0 {
        lemma_chain_in_range(h, h[start as int].next_sibling, (fuel - 1) as nat, k - 1);
    }
}

} // verus!
