use vstd::prelude::*;

use crate::gpu::types::{
    format_has_depth, is_depth_format, ClearColor, GpuImage, ImageLayout, RenderColorAttachment,
    RenderDepthStencilAttachment, RenderPassOperation, RenderingState, CLEAR_ONE_BITS,
};
use crate::gpu::barriers::{
    lemma_render_target_to_shader_resource, spec_image_transition, Barriers, ImageBarrier, STATE_DEPTH_WRITE,
    STATE_RENDER_TARGET, STATE_SHADER_RESOURCE, STATE_UNDEFINED,
};
use crate::graph::builder::Builder;
use crate::graph::topology::{
    depth_first_post_order, handle_set, has_edge, is_post_order, reach_set, reaches, topology_of,
    walk_fits, walk_meets_invalid, EdgeView,
};
use crate::graph::types::{
    GraphError, ImageInfo, Node, NodeHandle, NodeView, Resource, ResourceHandle, ResourceInfo, ResourceType,
    ResourceView,
};

verus! {

/// The values of a sequence of resources.
pub open spec fn resource_views(res: Seq<Resource>) -> Seq<ResourceView> {
    res.map_values(|r: Resource| r@)
}

/// The edge lists of a sequence of nodes.
pub open spec fn node_edges(nodes: Seq<Node>) -> Seq<Seq<NodeHandle>> {
    nodes.map_values(|n: Node| n.edges@)
}

/// Two nodes agree on everything but their edges.
pub open spec fn same_but_edges(a: Node, b: Node) -> bool {
    &&& a.rendering_state == b.rendering_state
    &&& a.inputs@ == b.inputs@
    &&& a.outputs@ == b.outputs@
    &&& a.enabled == b.enabled
    &&& a.name@ == b.name@
}

/// The listed nodes all exist.
pub open spec fn handles_valid(nodes: Seq<Node>, handles: Seq<NodeHandle>) -> bool {
    forall|i: int| 0 <= i < handles.len() ==> #[trigger] handles[i].index < nodes.len()
}

/// The (node, input resource) pairs of node `h`, if it exists and is enabled.
pub open spec fn node_pairs(nodes: Seq<Node>, h: NodeHandle) -> Seq<(usize, usize)> {
    if h.index < nodes.len() && nodes[h.index as int].enabled {
        nodes[h.index as int].inputs@.map_values(|r: ResourceHandle| (h.index, r.index))
    } else {
        Seq::empty()
    }
}

/// The (node, input resource) pairs of the enabled nodes among `handles`, in
/// order.
pub open spec fn input_pairs(nodes: Seq<Node>, handles: Seq<NodeHandle>) -> Seq<(usize, usize)>
    decreases handles.len(),
{
    if handles.len() == 0 {
        Seq::empty()
    } else {
        input_pairs(nodes, handles.drop_last()) + node_pairs(nodes, handles.last())
    }
}

/// The resources and edges that linking works on.
pub struct LinkState {
    pub res: Seq<ResourceView>,
    pub adj: Seq<Seq<NodeHandle>>,
}

/// An input can be linked: it exists, and its name leads to a resource.
pub open spec fn link_pair_ok(res: Seq<ResourceView>, names: Map<Seq<char>, usize>, pair: (usize, usize)) -> bool {
    &&& pair.1 < res.len()
    &&& names.contains_key(res[pair.1 as int].name)
    &&& names[res[pair.1 as int].name] < res.len()
}

pub open spec fn link_ok(res: Seq<ResourceView>, names: Map<Seq<char>, usize>, pairs: Seq<(usize, usize)>) -> bool {
    forall|k: int| 0 <= k < pairs.len() ==> #[trigger] link_pair_ok(res, names, pairs[k])
}

/// Links one input of a node to the output that its name names: the input
/// takes the output's producer, information and output handle, and the
/// producer, if it exists, gets an edge to the node.
pub open spec fn link_one(st: LinkState, names: Map<Seq<char>, usize>, pair: (usize, usize)) -> LinkState {
    let input = st.res[pair.1 as int];
    let out = st.res[names[input.name] as int];
    let p = out.producer.index;
    LinkState {
        res: st.res.update(
            pair.1 as int,
            ResourceView { producer: out.producer, info: out.info, output: out.output, ..input },
        ),
        adj: if p < st.adj.len() {
            st.adj.update(p as int, st.adj[p as int].push(NodeHandle { index: pair.0 }))
        } else {
            st.adj
        },
    }
}

/// Links the inputs of `pairs`, in order.
pub open spec fn link_all(st: LinkState, names: Map<Seq<char>, usize>, pairs: Seq<(usize, usize)>) -> LinkState
    decreases pairs.len(),
{
    if pairs.len() == 0 {
        st
    } else {
        link_one(link_all(st, names, pairs.drop_last()), names, pairs.last())
    }
}

/// The edge lists with those of the listed nodes emptied.
pub open spec fn cleared_edges(adj: Seq<Seq<NodeHandle>>, handles: Seq<NodeHandle>) -> Seq<Seq<NodeHandle>> {
    Seq::new(
        adj.len(),
        |k: int|
            if handles.contains(NodeHandle { index: k as usize }) {
                Seq::<NodeHandle>::empty()
            } else {
                adj[k]
            },
    )
}

/// Linking keeps the number of resources, their names and types, and the
/// number of edge lists.
proof fn lemma_link_all_shape(st: LinkState, names: Map<Seq<char>, usize>, pairs: Seq<(usize, usize)>)
    requires
        link_ok(st.res, names, pairs),
    ensures
        link_all(st, names, pairs).res.len() == st.res.len(),
        link_all(st, names, pairs).adj.len() == st.adj.len(),
        forall|k: int|
            0 <= k < st.res.len() ==> (#[trigger] link_all(st, names, pairs).res[k]).name == st.res[k].name
                && link_all(st, names, pairs).res[k].resource_type == st.res[k].resource_type
                && link_all(st, names, pairs).res[k].ref_count == st.res[k].ref_count,
    decreases pairs.len(),
{
    if pairs.len() > 0 {
        let prefix = pairs.drop_last();
        assert forall|k: int| 0 <= k < prefix.len() implies #[trigger] link_pair_ok(st.res, names, prefix[k]) by {
            assert(link_pair_ok(st.res, names, pairs[k]));
        }
        lemma_link_all_shape(st, names, prefix);
        assert(link_pair_ok(st.res, names, pairs[pairs.len() - 1]));
    }
}

/// A render graph: the builder's nodes and resources, and the order in which
/// the nodes run.
pub struct Graph {
    pub builder: Builder,
    pub nodes: Vec<NodeHandle>,
}

impl Builder {
    pub fn build(self, nodes: Vec<NodeHandle>) -> (g: Graph)
        ensures
            g.builder == self,
            g.nodes@ == nodes@,
    {
        Graph::new(self, nodes)
    }
}

fn copy_handles(v: &Vec<ResourceHandle>) -> (r: Vec<ResourceHandle>)
    ensures
        r@ == v@,
{
    let mut r: Vec<ResourceHandle> = Vec::new();
    let mut i: usize = 0;
    while i < v.len()
        invariant
            i <= v@.len(),
            r@ == v@.take(i as int),
        decreases v@.len() - i,
    {
        r.push(v[i]);
        i = i + 1;
        assert(r@ =~= v@.take(i as int));
    }
    assert(v@.take(i as int) =~= v@);
    r
}

impl Graph {
    pub fn new(builder: Builder, nodes: Vec<NodeHandle>) -> (g: Self)
        ensures
            g.builder == builder,
            g.nodes@ == nodes@,
    {
        Graph { builder, nodes }
    }

    /// Enables the node registered under `name`.
    pub fn enable_render_pass(&mut self, name: &str) -> (r: Result<(), GraphError>)
        ensures
            self_after_set_enable(*old(self), *final(self), name@, true, r),
    {
        let node = self.builder.access_node_mut_by_name(name)?;
        node.enabled = true;
        Ok(())
    }

    /// Disables the node registered under `name`.
    pub fn disable_render_pass(&mut self, name: &str) -> (r: Result<(), GraphError>)
        ensures
            self_after_set_enable(*old(self), *final(self), name@, false, r),
    {
        let node = self.builder.access_node_mut_by_name(name)?;
        node.enabled = false;
        Ok(())
    }

    /// The node registered under `name`, or why there is none.
    pub open spec fn node_by_name(&self, name: Seq<char>) -> Result<Node, GraphError> {
        if !self.builder.node_names().contains_key(name) {
            Err(GraphError::UnknownName)
        } else {
            let index = self.builder.node_names()[name];
            if index < self.builder.nodes().len() {
                Ok(self.builder.nodes()[index as int])
            } else {
                Err(GraphError::InvalidHandle)
            }
        }
    }

    pub fn access_node_by_name(&self, name: &str) -> (r: Result<&Node, GraphError>)
        ensures
            r is Ok <==> self.node_by_name(name@) is Ok,
            r is Ok ==> *(r->Ok_0) == self.node_by_name(name@)->Ok_0,
            r is Err ==> r->Err_0 == self.node_by_name(name@)->Err_0,
            !self.builder.node_names().contains_key(name@) ==> r == Err::<&Node, GraphError>(
                GraphError::UnknownName,
            ),
            self.builder.node_names().contains_key(name@) ==> {
                let index = self.builder.node_names()[name@];
                &&& index < self.builder.nodes().len() ==> r == Ok::<&Node, GraphError>(
                    &self.builder.nodes()[index as int],
                )
                &&& index >= self.builder.nodes().len() ==> r == Err::<&Node, GraphError>(
                    GraphError::InvalidHandle,
                )
            },
    {
        self.builder.access_node_by_name(name)
    }

    /// Links every input of the enabled nodes to the output that its name
    /// names, and gives each producer an edge to the nodes that read its
    /// outputs. The edges of the listed nodes are rebuilt from scratch.
    pub fn link_nodes(&mut self) -> (r: Result<(), GraphError>)
        requires
            old(self).builder.wf(),
        ensures
            final(self).builder.wf(),
            final(self).nodes@ == old(self).nodes@,
            final(self).builder.resource_names() == old(self).builder.resource_names(),
            final(self).builder.node_names() == old(self).builder.node_names(),
            r is Ok <==> handles_valid(old(self).builder.nodes(), old(self).nodes@) && link_ok(
                resource_views(old(self).builder.resources()),
                old(self).builder.resource_names(),
                input_pairs(old(self).builder.nodes(), old(self).nodes@),
            ),
            r is Err ==> r == Err::<(), GraphError>(GraphError::InvalidHandle) || r == Err::<(), GraphError>(
                GraphError::UnknownName,
            ),
            r is Ok ==> {
                let st = link_all(
                    LinkState {
                        res: resource_views(old(self).builder.resources()),
                        adj: cleared_edges(node_edges(old(self).builder.nodes()), old(self).nodes@),
                    },
                    old(self).builder.resource_names(),
                    input_pairs(old(self).builder.nodes(), old(self).nodes@),
                );
                &&& resource_views(final(self).builder.resources()) == st.res
                &&& node_edges(final(self).builder.nodes()) == st.adj
                &&& final(self).builder.nodes().len() == old(self).builder.nodes().len()
                &&& forall|k: int|
                    0 <= k < old(self).builder.nodes().len() ==> same_but_edges(
                        #[trigger] final(self).builder.nodes()[k],
                        old(self).builder.nodes()[k],
                    )
            },
    {
        let ghost nodes0 = self.builder.nodes();
        let ghost res0 = resource_views(self.builder.resources());
        let ghost names = self.builder.resource_names();
        let ghost roots = self.nodes@;
        let n = self.nodes.len();
        let num_nodes = self.builder.num_nodes();
        // Clear the edges of the listed nodes.
        let mut i: usize = 0;
        while i < n
            invariant
                n == self.nodes@.len(),
                self.nodes@ == roots,
                roots == old(self).nodes@,
                names == old(self).builder.resource_names(),
                nodes0 == old(self).builder.nodes(),
                nodes0.len() == num_nodes,
                i <= n,
                self.builder.wf(),
                self.builder.resources() == old(self).builder.resources(),
                self.builder.resource_names() == names,
                self.builder.node_names() == old(self).builder.node_names(),
                self.builder.nodes().len() == nodes0.len(),
                forall|k: int| 0 <= k < i ==> #[trigger] roots[k].index < nodes0.len(),
                node_edges(self.builder.nodes()) == cleared_edges(node_edges(nodes0), roots.take(i as int)),
                forall|k: int|
                    0 <= k < nodes0.len() ==> same_but_edges(#[trigger] self.builder.nodes()[k], nodes0[k]),
            decreases n - i,
        {
            let handle = self.nodes[i];
            let ghost before = self.builder.nodes();
            let node = self.builder.access_node_mut_by_handle(&handle)?;
            node.edges.clear();
            proof {
                let after = self.builder.nodes();
                assert(roots.take(i + 1) =~= roots.take(i as int).push(handle));
                assert forall|k: int| 0 <= k < nodes0.len() implies same_but_edges(#[trigger] after[k], nodes0[k]) by {
                    assert(same_but_edges(before[k], nodes0[k]));
                }
                assert forall|k: int| 0 <= k < nodes0.len() implies #[trigger] node_edges(after)[k] == cleared_edges(
                    node_edges(nodes0),
                    roots.take(i + 1),
                )[k] by {
                    assert(node_edges(before)[k] == cleared_edges(node_edges(nodes0), roots.take(i as int))[k]);
                    lemma_contains_push(roots.take(i as int), handle, NodeHandle { index: k as usize });
                    if k != handle.index {
                        assert(after[k] == before[k]);
                        assert(NodeHandle { index: k as usize } != handle);
                    } else {
                        assert(after[k].edges@ == Seq::<NodeHandle>::empty());
                    }
                }
                assert(node_edges(after) =~= cleared_edges(node_edges(nodes0), roots.take(i + 1)));
            }
            i = i + 1;
        }
        proof {
            assert(roots.take(n as int) =~= roots);
        }
        // Link inputs to outputs and record the edges.
        let ghost st0 = LinkState { res: res0, adj: cleared_edges(node_edges(nodes0), roots) };
        let mut i: usize = 0;
        while i < n
            invariant
                n == self.nodes@.len(),
                self.nodes@ == roots,
                roots == old(self).nodes@,
                names == old(self).builder.resource_names(),
                nodes0 == old(self).builder.nodes(),
                nodes0.len() == num_nodes,
                i <= n,
                self.builder.wf(),
                self.builder.resource_names() == names,
                self.builder.node_names() == old(self).builder.node_names(),
                self.builder.nodes().len() == nodes0.len(),
                handles_valid(nodes0, roots),
                link_ok(res0, names, input_pairs(nodes0, roots.take(i as int))),
                resource_views(self.builder.resources()) == link_all(st0, names, input_pairs(nodes0, roots.take(i as int))).res,
                node_edges(self.builder.nodes()) == link_all(st0, names, input_pairs(nodes0, roots.take(i as int))).adj,
                forall|k: int|
                    0 <= k < nodes0.len() ==> same_but_edges(#[trigger] self.builder.nodes()[k], nodes0[k]),
                st0 == (LinkState { res: res0, adj: cleared_edges(node_edges(nodes0), roots) }),
                res0 == resource_views(old(self).builder.resources()),
            decreases n - i,
        {
            let node_handle = self.nodes[i];
            let ghost pairs_before = input_pairs(nodes0, roots.take(i as int));
            proof {
                assert(roots.take(i + 1).drop_last() =~= roots.take(i as int));
                assert(roots.take(i + 1).last() == node_handle);
                assert(node_handle.index < nodes0.len());
            }
            let enabled = self.builder.access_node_by_handle(&node_handle)?.enabled;
            proof {
                assert(same_but_edges(self.builder.nodes()[node_handle.index as int], nodes0[node_handle.index as int]));
            }
            if enabled {
                let node_inputs = copy_handles(&self.builder.access_node_by_handle(&node_handle)?.inputs);
                let ghost npairs = node_pairs(nodes0, node_handle);
                proof {
                    assert(node_inputs@ == nodes0[node_handle.index as int].inputs@);
                    assert(npairs.len() == node_inputs@.len());
                }
                let mut t: usize = 0;
                while t < node_inputs.len()
                    invariant
                        n == self.nodes@.len(),
                        self.nodes@ == roots,
                        roots == old(self).nodes@,
                        names == old(self).builder.resource_names(),
                        nodes0 == old(self).builder.nodes(),
                        i < n,
                        node_handle == roots[i as int],
                        node_handle.index < nodes0.len(),
                        npairs == node_pairs(nodes0, node_handle),
                        npairs.len() == node_inputs@.len(),
                        forall|q: int| 0 <= q < npairs.len() ==> #[trigger] npairs[q] == (node_handle.index, node_inputs@[q].index),
                        pairs_before == input_pairs(nodes0, roots.take(i as int)),
                        t <= node_inputs@.len(),
                        self.builder.wf(),
                        self.builder.resource_names() == names,
                        self.builder.node_names() == old(self).builder.node_names(),
                        self.builder.nodes().len() == nodes0.len(),
                        handles_valid(nodes0, roots),
                        link_ok(res0, names, pairs_before + npairs.take(t as int)),
                        resource_views(self.builder.resources()) == link_all(st0, names, pairs_before + npairs.take(t as int)).res,
                        node_edges(self.builder.nodes()) == link_all(st0, names, pairs_before + npairs.take(t as int)).adj,
                        forall|k: int|
                            0 <= k < nodes0.len() ==> same_but_edges(#[trigger] self.builder.nodes()[k], nodes0[k]),
                        st0 == (LinkState { res: res0, adj: cleared_edges(node_edges(nodes0), roots) }),
                        res0 == resource_views(old(self).builder.resources()),
                        res0.len() == st0.res.len(),
                    decreases node_inputs@.len() - t,
                {
                    let input = node_inputs[t];
                    let ghost done = pairs_before + npairs.take(t as int);
                    let ghost cur = link_all(st0, names, done);
                    let ghost pair = (node_handle.index, input.index);
                    proof {
                        assert(npairs[t as int] == pair);
                        assert((pairs_before + npairs.take(t + 1)).drop_last() =~= done);
                        assert((pairs_before + npairs.take(t + 1)).last() == pair);
                        lemma_link_all_shape(st0, names, done);
                        assert(self.builder.resources().len() == resource_views(self.builder.resources()).len());
                    }
                    let resource_name = match self.builder.access_resource_by_handle(&input) {
                        Ok(resource) => resource.name.clone(),
                        Err(e) => {
                            proof {
                                let all = input_pairs(nodes0, roots);
                                lemma_pairs_prefix(nodes0, roots, i as int);
                                assert(!link_pair_ok(res0, names, pair));
                                assert(all[pairs_before.len() + t] == pair);
                            }
                            return Err(e);
                        },
                    };
                    proof {
                        assert(resource_name@ == cur.res[input.index as int].name);
                        assert(cur.res[input.index as int].name == res0[input.index as int].name);
                    }
                    let output_resource = match self.builder.access_resource_by_name(resource_name.as_str()) {
                        Ok(resource) => resource.clone_resource(),
                        Err(e) => {
                            proof {
                                let all = input_pairs(nodes0, roots);
                                lemma_pairs_prefix(nodes0, roots, i as int);
                                assert(!link_pair_ok(res0, names, pair));
                                assert(all[pairs_before.len() + t] == pair);
                            }
                            return Err(e);
                        },
                    };
                    proof {
                        assert(link_pair_ok(res0, names, pair));
                        assert(link_ok(res0, names, pairs_before + npairs.take(t + 1))) by {
                            let ext = pairs_before + npairs.take(t + 1);
                            assert forall|k: int| 0 <= k < ext.len() implies #[trigger] link_pair_ok(res0, names, ext[k]) by {
                                if k < done.len() {
                                    assert(ext[k] == done[k]);
                                }
                            }
                        }
                    }
                    let ghost nodes_before = self.builder.nodes();
                    if let Ok(input_resource) = self.builder.access_resource_mut_by_handle(&input) {
                        input_resource.producer = output_resource.producer;
                        input_resource.info = output_resource.info;
                        input_resource.output = output_resource.output;
                    }
                    let ghost nodes_mid = self.builder.nodes();
                    if let Ok(parent_node) = self.builder.access_node_mut_by_handle(&output_resource.producer) {
                        parent_node.edges.push(node_handle);
                    }
                    proof {
                        let next = link_one(cur, names, pair);
                        assert(next == link_all(st0, names, pairs_before + npairs.take(t + 1)));
                        assert(resource_views(self.builder.resources()) =~= next.res);
                        assert(node_edges(self.builder.nodes()) =~= next.adj);
                        assert forall|k: int| 0 <= k < nodes0.len() implies same_but_edges(
                            #[trigger] self.builder.nodes()[k],
                            nodes0[k],
                        ) by {
                            assert(same_but_edges(nodes_before[k], nodes0[k]));
                        }
                    }
                    t = t + 1;
                }
                proof {
                    assert(npairs.take(npairs.len() as int) =~= npairs);
                }
            }
            proof {
                let ext = input_pairs(nodes0, roots.take(i + 1));
                assert(ext == pairs_before + node_pairs(nodes0, node_handle));
                if !enabled {
                    assert(node_pairs(nodes0, node_handle) =~= Seq::<(usize, usize)>::empty());
                    assert(ext =~= pairs_before);
                }
            }
            i = i + 1;
        }
        proof {
            assert(roots.take(n as int) =~= roots);
        }
        Ok(())
    }
}

proof fn lemma_contains_push<A>(s: Seq<A>, a: A, x: A)
    ensures
        s.push(a).contains(x) == (s.contains(x) || x == a),
{
    if s.contains(x) {
        let j = choose|j: int| 0 <= j < s.len() && s[j] == x;
        assert(s.push(a)[j] == x);
    }
    if x == a {
        assert(s.push(a)[s.len() as int] == a);
    }
    if s.push(a).contains(x) {
        let j = choose|j: int| 0 <= j < s.push(a).len() && s.push(a)[j] == x;
        if j < s.len() {
            assert(s[j] == x);
        }
    }
}

/// `order` lists each node that can be reached from the enabled nodes of
/// `roots` once, and every edge leads forward in it unless it closes a cycle.
pub open spec fn is_run_order(g: EdgeView, roots: Seq<NodeHandle>, order: Seq<NodeHandle>) -> bool {
    &&& order.no_duplicates()
    &&& handle_set(order) == reach_set(g, roots)
    &&& is_topological(g, order)
}

/// Each edge out of `order[k]` leads to a node listed after it, or to a node
/// that reaches `order[k]` back (a cycle).
pub open spec fn is_topological(g: EdgeView, order: Seq<NodeHandle>) -> bool {
    forall|k: int, v: usize|
        0 <= k < order.len() && #[trigger] has_edge(g, order[k].index, v) ==> (exists|k2: int|
            k < k2 < order.len() && order[k2].index == v) || reaches(g, v, order[k].index)
}

impl Graph {
    /// Puts the listed nodes in the order in which they run: a depth-first
    /// walk along the edges from producers to consumers, reversed.
    pub fn sort_nodes(&mut self) -> (r: Result<(), GraphError>)
        requires
            walk_fits(topology_of(old(self).builder.nodes()), old(self).nodes@),
            !walk_meets_invalid(topology_of(old(self).builder.nodes()), old(self).nodes@) ==> reach_set(
                topology_of(old(self).builder.nodes()),
                old(self).nodes@,
            ).len() == old(self).nodes@.len(),
        ensures
            final(self).builder == old(self).builder,
            r is Err <==> walk_meets_invalid(topology_of(old(self).builder.nodes()), old(self).nodes@),
            r is Err ==> r == Err::<(), GraphError>(GraphError::InvalidHandle) && final(self).nodes@ == old(
                self,
            ).nodes@,
            r is Ok ==> is_run_order(topology_of(old(self).builder.nodes()), old(self).nodes@, final(self).nodes@),
    {
        let ghost g = topology_of(self.builder.nodes());
        let sorted = depth_first_post_order(&self.builder, &self.nodes)?;
        let n = sorted.len();
        let mut reversed: Vec<NodeHandle> = Vec::new();
        let mut j = n;
        while j > 0
            invariant
                n == sorted@.len(),
                j <= n,
                reversed@.len() == n - j,
                forall|k: int| 0 <= k < n - j ==> #[trigger] reversed@[k] == sorted@[n - 1 - k],
            decreases j,
        {
            j = j - 1;
            reversed.push(sorted[j]);
        }
        proof {
            let s = sorted@;
            let rv = reversed@;
            assert(rv.no_duplicates()) by {
                assert forall|a: int, b: int| 0 <= a < rv.len() && 0 <= b < rv.len() && a != b implies rv[a] != rv[b] by {
                    assert(rv[a] == s[n - 1 - a] && rv[b] == s[n - 1 - b]);
                }
            }
            assert(handle_set(rv) =~= handle_set(s)) by {
                assert forall|v: usize| handle_set(rv).contains(v) implies handle_set(s).contains(v) by {
                    let a = choose|a: int| 0 <= a < rv.len() && rv[a] == NodeHandle { index: v };
                    assert(s[n - 1 - a] == rv[a]);
                }
                assert forall|v: usize| handle_set(s).contains(v) implies handle_set(rv).contains(v) by {
                    let a = choose|a: int| 0 <= a < s.len() && s[a] == NodeHandle { index: v };
                    assert(rv[n - 1 - a] == s[a]);
                }
            }
            assert forall|k: int, v: usize|
                0 <= k < rv.len() && #[trigger] has_edge(g, rv[k].index, v) implies (exists|k2: int|
                k < k2 < rv.len() && rv[k2].index == v) || reaches(g, v, rv[k].index) by {
                let m = n - 1 - k;
                assert(rv[k] == s[m]);
                assert(has_edge(g, s[m].index, v));
                if exists|k2: int| 0 <= k2 < m && s[k2].index == v {
                    let k2 = choose|k2: int| 0 <= k2 < m && s[k2].index == v;
                    assert(rv[n - 1 - k2] == s[k2]);
                }
            }
        }
        assert(n == self.nodes.len());
        self.nodes = reversed;
        Ok(())
    }
}

/// Number of inputs among `pairs` whose output is resource `q`.
pub open spec fn uses(res: Seq<ResourceView>, pairs: Seq<(usize, usize)>, q: int) -> int
    decreases pairs.len(),
{
    if pairs.len() == 0 {
        0
    } else {
        uses(res, pairs.drop_last(), q) + (if res[pairs.last().1 as int].output.index == q {
            1int
        } else {
            0int
        })
    }
}

proof fn lemma_uses_nonneg(res: Seq<ResourceView>, pairs: Seq<(usize, usize)>, q: int)
    ensures
        uses(res, pairs, q) >= 0,
    decreases pairs.len(),
{
    if pairs.len() > 0 {
        lemma_uses_nonneg(res, pairs.drop_last(), q);
    }
}

proof fn lemma_uses_prefix(res: Seq<ResourceView>, pairs: Seq<(usize, usize)>, i: int, q: int)
    requires
        0 <= i <= pairs.len(),
    ensures
        uses(res, pairs.take(i), q) <= uses(res, pairs, q),
    decreases pairs.len() - i,
{
    if i < pairs.len() {
        lemma_uses_prefix(res, pairs, i + 1, q);
        assert(pairs.take(i + 1).drop_last() =~= pairs.take(i));
    } else {
        assert(pairs.take(i) =~= pairs);
    }
}

/// Every input among `pairs` exists, and so does its output.
pub open spec fn refs_ok(res: Seq<ResourceView>, pairs: Seq<(usize, usize)>) -> bool {
    forall|k: int|
        0 <= k < pairs.len() ==> #[trigger] pairs[k].1 < res.len() && res[pairs[k].1 as int].output.index
            < res.len()
}

/// The resources with the reference count of each output raised (`sign`
/// 1) or lowered (`sign` -1) by its number of uses among `pairs`.
pub open spec fn with_uses(res: Seq<ResourceView>, pairs: Seq<(usize, usize)>, sign: int) -> Seq<ResourceView> {
    Seq::new(
        res.len(),
        |q: int| ResourceView { ref_count: (res[q].ref_count + sign * uses(res, pairs, q)) as i32, ..res[q] },
    )
}

/// Raising each reference count by its number of uses among `pairs` stays
/// within `i32`.
pub open spec fn counts_fit(res: Seq<ResourceView>, pairs: Seq<(usize, usize)>) -> bool {
    forall|q: int| 0 <= q < res.len() ==> #[trigger] res[q].ref_count + uses(res, pairs, q) <= i32::MAX
}

/// Each reference count that `pairs` lowers is at least its number of uses
/// among them.
pub open spec fn counts_cover(res: Seq<ResourceView>, pairs: Seq<(usize, usize)>) -> bool {
    forall|q: int| 0 <= q < res.len() && #[trigger] uses(res, pairs, q) > 0 ==> res[q].ref_count >= uses(res, pairs, q)
}

impl Graph {
    /// Raises the reference count of every output once for each input of an
    /// enabled node that reads it.
    pub fn count_references(&mut self) -> (r: Result<(), GraphError>)
        requires
            old(self).builder.wf(),
            counts_fit(
                resource_views(old(self).builder.resources()),
                input_pairs(old(self).builder.nodes(), old(self).nodes@),
            ),
        ensures
            final(self).builder.wf(),
            final(self).nodes@ == old(self).nodes@,
            final(self).builder.nodes() == old(self).builder.nodes(),
            final(self).builder.resource_names() == old(self).builder.resource_names(),
            final(self).builder.node_names() == old(self).builder.node_names(),
            r is Ok <==> handles_valid(old(self).builder.nodes(), old(self).nodes@) && refs_ok(
                resource_views(old(self).builder.resources()),
                input_pairs(old(self).builder.nodes(), old(self).nodes@),
            ),
            r is Err ==> r == Err::<(), GraphError>(GraphError::InvalidHandle),
            r is Ok ==> resource_views(final(self).builder.resources()) == with_uses(
                resource_views(old(self).builder.resources()),
                input_pairs(old(self).builder.nodes(), old(self).nodes@),
                1,
            ),
    {
        let ghost nodes0 = self.builder.nodes();
        let ghost res0 = resource_views(self.builder.resources());
        let ghost roots = self.nodes@;
        let ghost all = input_pairs(nodes0, roots);
        let n = self.nodes.len();
        let mut i: usize = 0;
        proof {
            assert(with_uses(res0, input_pairs(nodes0, roots.take(0)), 1) =~= res0) by {
                assert(roots.take(0) =~= Seq::<NodeHandle>::empty());
            }
        }
        while i < n
            invariant
                n == self.nodes@.len(),
                self.nodes@ == roots,
                roots == old(self).nodes@,
                nodes0 == old(self).builder.nodes(),
                res0 == resource_views(old(self).builder.resources()),
                all == input_pairs(nodes0, roots),
                i <= n,
                self.builder.wf(),
                self.builder.nodes() == nodes0,
                self.builder.resource_names() == old(self).builder.resource_names(),
                self.builder.node_names() == old(self).builder.node_names(),
                counts_fit(res0, all),
                forall|k: int| 0 <= k < i ==> #[trigger] roots[k].index < nodes0.len(),
                refs_ok(res0, input_pairs(nodes0, roots.take(i as int))),
                resource_views(self.builder.resources()) == with_uses(res0, input_pairs(nodes0, roots.take(i as int)), 1),
            decreases n - i,
        {
            let node_handle = self.nodes[i];
            let ghost before = input_pairs(nodes0, roots.take(i as int));
            proof {
                assert(roots.take(i + 1).drop_last() =~= roots.take(i as int));
                assert(roots.take(i + 1).last() == node_handle);
            }
            let enabled = self.builder.access_node_by_handle(&node_handle)?.enabled;
            if enabled {
                let inputs = copy_handles(&self.builder.access_node_by_handle(&node_handle)?.inputs);
                let ghost npairs = node_pairs(nodes0, node_handle);
                let mut t: usize = 0;
                while t < inputs.len()
                    invariant
                        n == self.nodes@.len(),
                        self.nodes@ == roots,
                        roots == old(self).nodes@,
                        nodes0 == old(self).builder.nodes(),
                        res0 == resource_views(old(self).builder.resources()),
                        all == input_pairs(nodes0, roots),
                        i < n,
                        node_handle == roots[i as int],
                        node_handle.index < nodes0.len(),
                        nodes0[node_handle.index as int].enabled,
                        npairs == node_pairs(nodes0, node_handle),
                        inputs@ == nodes0[node_handle.index as int].inputs@,
                        before == input_pairs(nodes0, roots.take(i as int)),
                        t <= inputs@.len(),
                        self.builder.wf(),
                        self.builder.nodes() == nodes0,
                        self.builder.resource_names() == old(self).builder.resource_names(),
                        self.builder.node_names() == old(self).builder.node_names(),
                        counts_fit(res0, all),
                        forall|k: int| 0 <= k <= i ==> #[trigger] roots[k].index < nodes0.len(),
                        refs_ok(res0, before + npairs.take(t as int)),
                        resource_views(self.builder.resources()) == with_uses(res0, before + npairs.take(t as int), 1),
                    decreases inputs@.len() - t,
                {
                    let input = inputs[t];
                    let ghost done = before + npairs.take(t as int);
                    let ghost pair = (node_handle.index, input.index);
                    proof {
                        assert(npairs[t as int] == pair);
                        assert((before + npairs.take(t + 1)).drop_last() =~= done);
                        assert((before + npairs.take(t + 1)).last() == pair);
                        lemma_pairs_prefix(nodes0, roots, i as int);
                        assert(resource_views(self.builder.resources()).len() == self.builder.resources().len());
                        assert(self.builder.resources().len() == res0.len());
                    }
                    let output_handle = match self.builder.access_resource_by_handle(&input) {
                        Ok(resource) => resource.output,
                        Err(e) => {
                            proof {
                                let p = before.len() + t;
                                assert(all[p] == pair);
                                assert(all[p].1 == input.index);
                            }
                            return Err(e);
                        },
                    };
                    proof {
                        assert(resource_views(self.builder.resources())[input.index as int]
                            == self.builder.resources()[input.index as int]@);
                        assert(output_handle == res0[input.index as int].output);
                    }
                    let ghost views_before = resource_views(self.builder.resources());
                    let ghost res_before = self.builder.resources();
                    let resource = match self.builder.access_resource_mut_by_handle(&output_handle) {
                        Ok(resource) => resource,
                        Err(e) => {
                            proof {
                                let p = before.len() + t;
                                assert(all[p] == pair);
                                assert(all[p].1 == input.index);
                            }
                            return Err(e);
                        },
                    };
                    proof {
                        let q = output_handle.index as int;
                        lemma_uses_nonneg(res0, done, q);
                        lemma_uses_prefix(res0, all, done.len() as int + 1, q);
                        assert(all.take(done.len() as int + 1) =~= done.push(pair)) by {
                            assert forall|k: int| 0 <= k < done.len() as int + 1 implies all.take(done.len() as int + 1)[k]
                                == done.push(pair)[k] by {
                                if k < before.len() {
                                } else {
                                }
                            }
                        }
                        assert(uses(res0, done.push(pair), q) == uses(res0, done, q) + 1) by {
                            assert(done.push(pair).drop_last() =~= done);
                        }
                        assert(views_before[q].ref_count == res0[q].ref_count + uses(res0, done, q));
                        assert(res0[q].ref_count + uses(res0, all, q) <= i32::MAX);
                    }
                    resource.ref_count = resource.ref_count + 1;
                    proof {
                        let next = before + npairs.take(t + 1);
                        assert(next =~= done.push(pair));
                        assert(refs_ok(res0, next)) by {
                            assert forall|k: int| 0 <= k < next.len() implies #[trigger] next[k].1 < res0.len()
                                && res0[next[k].1 as int].output.index < res0.len() by {
                                if k < done.len() {
                                    assert(next[k] == done[k]);
                                }
                            }
                        }
                        assert forall|q: int| 0 <= q < res0.len() implies #[trigger] resource_views(
                            self.builder.resources(),
                        )[q] == with_uses(res0, next, 1)[q] by {
                            assert(uses(res0, next, q) == uses(res0, done, q) + (if q == output_handle.index {
                                1int
                            } else {
                                0int
                            }));
                            assert(resource_views(self.builder.resources())[q] == self.builder.resources()[q]@);
                            assert(views_before[q] == res_before[q]@);
                            assert(views_before[q] == with_uses(res0, done, 1)[q]);
                            lemma_uses_nonneg(res0, done, q);
                            lemma_uses_nonneg(res0, next, q);
                            lemma_uses_prefix(res0, all, next.len() as int, q);
                            assert(all.take(next.len() as int) =~= next) by {
                                lemma_pairs_prefix(nodes0, roots, i as int);
                            }
                            if q != output_handle.index {
                                assert(self.builder.resources()[q] == res_before[q]);
                            }
                        }
                        assert(resource_views(self.builder.resources()) =~= with_uses(res0, next, 1));
                    }
                    t = t + 1;
                }
                proof {
                    assert(npairs.take(npairs.len() as int) =~= npairs);
                    assert(npairs.len() == inputs@.len());
                }
            }
            proof {
                let ext = input_pairs(nodes0, roots.take(i + 1));
                assert(ext == before + node_pairs(nodes0, node_handle));
                if !enabled {
                    assert(ext =~= before);
                }
            }
            i = i + 1;
        }
        proof {
            assert(roots.take(n as int) =~= roots);
        }
        Ok(())
    }
}

/// A GPU image that a node's output needs: the output and the image's
/// extent, raw Vulkan format and usage flags. The image is two-dimensional.
#[derive(Clone, Copy, PartialEq, Eq, Structural, Debug)]
pub struct ImageRequest {
    pub output: ResourceHandle,
    pub width: u32,
    pub height: u32,
    pub depth: u32,
    pub format: i32,
    pub usage_flags: u32,
}

/// An output gets a GPU image of its own: it is an attachment that the graph
/// does not import.
pub open spec fn needs_image(r: ResourceView) -> bool {
    !r.info.external && r.resource_type == ResourceType::Attachment
}

pub open spec fn request_for(output: ResourceHandle, r: ResourceView) -> ImageRequest {
    let image = r.info.image->0;
    ImageRequest {
        output,
        width: image.width,
        height: image.height,
        depth: image.depth,
        format: image.format,
        usage_flags: image.usage_flags,
    }
}

/// The outputs of node `h`, if it exists and is enabled.
pub open spec fn node_outputs(nodes: Seq<Node>, h: NodeHandle) -> Seq<ResourceHandle> {
    if h.index < nodes.len() && nodes[h.index as int].enabled {
        nodes[h.index as int].outputs@
    } else {
        Seq::empty()
    }
}

/// The outputs of the enabled nodes among `handles`, in order.
pub open spec fn output_list(nodes: Seq<Node>, handles: Seq<NodeHandle>) -> Seq<ResourceHandle>
    decreases handles.len(),
{
    if handles.len() == 0 {
        Seq::empty()
    } else {
        output_list(nodes, handles.drop_last()) + node_outputs(nodes, handles.last())
    }
}

/// The image requests of `outputs`, in order.
pub open spec fn output_requests(res: Seq<ResourceView>, outputs: Seq<ResourceHandle>) -> Seq<ImageRequest>
    decreases outputs.len(),
{
    if outputs.len() == 0 {
        Seq::empty()
    } else {
        let before = output_requests(res, outputs.drop_last());
        let o = outputs.last();
        if needs_image(res[o.index as int]) {
            before.push(request_for(o, res[o.index as int]))
        } else {
            before
        }
    }
}

/// The outputs all exist.
pub open spec fn outputs_ok(res: Seq<ResourceView>, outputs: Seq<ResourceHandle>) -> bool {
    forall|k: int| 0 <= k < outputs.len() ==> #[trigger] outputs[k].index < res.len()
}

/// Every output that needs a GPU image describes it.
pub open spec fn images_described(res: Seq<ResourceView>, outputs: Seq<ResourceHandle>) -> bool {
    forall|k: int|
        0 <= k < outputs.len() && outputs[k].index < res.len() && needs_image(#[trigger] res[outputs[k].index as int])
            ==> res[outputs[k].index as int].info.image is Some
}

proof fn lemma_outputs_prefix(nodes: Seq<Node>, handles: Seq<NodeHandle>, i: int)
    requires
        0 <= i < handles.len(),
    ensures
        output_list(nodes, handles).len() >= output_list(nodes, handles.take(i)).len() + node_outputs(
            nodes,
            handles[i],
        ).len(),
        forall|k: int|
            0 <= k < output_list(nodes, handles.take(i)).len() + node_outputs(nodes, handles[i]).len() ==> #[trigger] output_list(
                nodes,
                handles,
            )[k] == (output_list(nodes, handles.take(i)) + node_outputs(nodes, handles[i]))[k],
    decreases handles.len(),
{
    if i == handles.len() - 1 {
        assert(handles.drop_last() =~= handles.take(i));
    } else {
        lemma_outputs_prefix(nodes, handles.drop_last(), i);
        assert(handles.drop_last().take(i) =~= handles.take(i));
        assert(handles.drop_last()[i] == handles[i]);
    }
}

impl Graph {
    /// Lists the GPU images that the outputs of the enabled nodes need, in
    /// the order of the nodes, and lowers every reference count again by its
    /// uses, as the nodes release their inputs.
    pub fn plan_images(&mut self) -> (r: Result<Vec<ImageRequest>, GraphError>)
        requires
            old(self).builder.wf(),
            counts_cover(
                resource_views(old(self).builder.resources()),
                input_pairs(old(self).builder.nodes(), old(self).nodes@),
            ),
            images_described(
                resource_views(old(self).builder.resources()),
                output_list(old(self).builder.nodes(), old(self).nodes@),
            ),
        ensures
            final(self).builder.wf(),
            final(self).nodes@ == old(self).nodes@,
            final(self).builder.nodes() == old(self).builder.nodes(),
            final(self).builder.resource_names() == old(self).builder.resource_names(),
            final(self).builder.node_names() == old(self).builder.node_names(),
            r is Ok <==> handles_valid(old(self).builder.nodes(), old(self).nodes@) && outputs_ok(
                resource_views(old(self).builder.resources()),
                output_list(old(self).builder.nodes(), old(self).nodes@),
            ) && refs_ok(
                resource_views(old(self).builder.resources()),
                input_pairs(old(self).builder.nodes(), old(self).nodes@),
            ),
            r is Err ==> r == Err::<Vec<ImageRequest>, GraphError>(GraphError::InvalidHandle),
            r matches Ok(requests) ==> {
                &&& requests@ == output_requests(
                    resource_views(old(self).builder.resources()),
                    output_list(old(self).builder.nodes(), old(self).nodes@),
                )
                &&& resource_views(final(self).builder.resources()) == with_uses(
                    resource_views(old(self).builder.resources()),
                    input_pairs(old(self).builder.nodes(), old(self).nodes@),
                    -1,
                )
            },
    {
        let ghost nodes0 = self.builder.nodes();
        let ghost res0 = resource_views(self.builder.resources());
        let ghost roots = self.nodes@;
        let ghost all = input_pairs(nodes0, roots);
        let ghost outs = output_list(nodes0, roots);
        let n = self.nodes.len();
        let mut requests: Vec<ImageRequest> = Vec::new();
        let mut i: usize = 0;
        proof {
            assert(roots.take(0) =~= Seq::<NodeHandle>::empty());
            assert(with_uses(res0, input_pairs(nodes0, roots.take(0)), -1) =~= res0);
        }
        while i < n
            invariant
                n == self.nodes@.len(),
                self.nodes@ == roots,
                roots == old(self).nodes@,
                nodes0 == old(self).builder.nodes(),
                res0 == resource_views(old(self).builder.resources()),
                all == input_pairs(nodes0, roots),
                outs == output_list(nodes0, roots),
                i <= n,
                self.builder.wf(),
                self.builder.nodes() == nodes0,
                self.builder.resource_names() == old(self).builder.resource_names(),
                self.builder.node_names() == old(self).builder.node_names(),
                counts_cover(res0, all),
                images_described(res0, outs),
                forall|k: int| 0 <= k < i ==> #[trigger] roots[k].index < nodes0.len(),
                refs_ok(res0, input_pairs(nodes0, roots.take(i as int))),
                outputs_ok(res0, output_list(nodes0, roots.take(i as int))),
                requests@ == output_requests(res0, output_list(nodes0, roots.take(i as int))),
                resource_views(self.builder.resources()) == with_uses(res0, input_pairs(nodes0, roots.take(i as int)), -1),
            decreases n - i,
        {
            let node_handle = self.nodes[i];
            let ghost before = input_pairs(nodes0, roots.take(i as int));
            let ghost obefore = output_list(nodes0, roots.take(i as int));
            proof {
                assert(roots.take(i + 1).drop_last() =~= roots.take(i as int));
                assert(roots.take(i + 1).last() == node_handle);
            }
            let enabled = self.builder.access_node_by_handle(&node_handle)?.enabled;
            if enabled {
                let outputs = copy_handles(&self.builder.access_node_by_handle(&node_handle)?.outputs);
                let inputs = copy_handles(&self.builder.access_node_by_handle(&node_handle)?.inputs);
                let ghost nouts = node_outputs(nodes0, node_handle);
                let ghost npairs = node_pairs(nodes0, node_handle);
                proof {
                    assert(nouts == outputs@);
                    lemma_outputs_prefix(nodes0, roots, i as int);
                    lemma_pairs_prefix(nodes0, roots, i as int);
                    assert(resource_views(self.builder.resources()).len() == self.builder.resources().len());
                }
                let mut t: usize = 0;
                while t < outputs.len()
                    invariant
                        n == self.nodes@.len(),
                        self.nodes@ == roots,
                        roots == old(self).nodes@,
                        nodes0 == old(self).builder.nodes(),
                        res0 == resource_views(old(self).builder.resources()),
                        all == input_pairs(nodes0, roots),
                        outs == output_list(nodes0, roots),
                        i < n,
                        node_handle == roots[i as int],
                        node_handle.index < nodes0.len(),
                        nodes0[node_handle.index as int].enabled,
                        nouts == outputs@,
                        nouts == node_outputs(nodes0, node_handle),
                        obefore == output_list(nodes0, roots.take(i as int)),
                        before == input_pairs(nodes0, roots.take(i as int)),
                        outs.len() >= obefore.len() + nouts.len(),
                        forall|k: int| 0 <= k < obefore.len() + nouts.len() ==> #[trigger] outs[k] == (obefore + nouts)[k],
                        t <= outputs@.len(),
                        self.builder.wf(),
                        self.builder.nodes() == nodes0,
                        self.builder.resource_names() == old(self).builder.resource_names(),
                        self.builder.node_names() == old(self).builder.node_names(),
                        images_described(res0, outs),
                        forall|k: int| 0 <= k <= i ==> #[trigger] roots[k].index < nodes0.len(),
                        outputs_ok(res0, obefore + nouts.take(t as int)),
                        requests@ == output_requests(res0, obefore + nouts.take(t as int)),
                        resource_views(self.builder.resources()) == with_uses(res0, before, -1),
                        self.builder.resources().len() == res0.len(),
                    decreases outputs@.len() - t,
                {
                    let output = outputs[t];
                    let ghost done = obefore + nouts.take(t as int);
                    proof {
                        assert((obefore + nouts.take(t + 1)).drop_last() =~= done);
                        assert((obefore + nouts.take(t + 1)).last() == output);
                        assert(outs[obefore.len() + t] == output);
                    }
                    let resource = match self.builder.access_resource_by_handle(&output) {
                        Ok(resource) => resource,
                        Err(e) => {
                            proof {
                                let p = obefore.len() + t;
                                assert(outs[p].index == output.index);
                            }
                            return Err(e);
                        },
                    };
                    proof {
                        assert(resource_views(self.builder.resources())[output.index as int] == resource@);
                        assert(resource@ == with_uses(res0, before, -1)[output.index as int]);
                        assert(resource.info == res0[output.index as int].info);
                        assert(resource.resource_type == res0[output.index as int].resource_type);
                        let p = obefore.len() + t;
                        assert(outs[p] == output);
                    }
                    if !resource.info.external && resource.resource_type == ResourceType::Attachment {
                        let image_info = resource.info.image.unwrap();
                        requests.push(
                            ImageRequest {
                                output,
                                width: image_info.width,
                                height: image_info.height,
                                depth: image_info.depth,
                                format: image_info.format,
                                usage_flags: image_info.usage_flags,
                            },
                        );
                    }
                    proof {
                        let next = obefore + nouts.take(t + 1);
                        assert(next =~= done.push(output));
                        assert(outputs_ok(res0, next)) by {
                            assert forall|k: int| 0 <= k < next.len() implies #[trigger] next[k].index < res0.len() by {
                                if k < done.len() {
                                    assert(next[k] == done[k]);
                                }
                            }
                        }
                    }
                    t = t + 1;
                }
                proof {
                    assert(nouts.take(nouts.len() as int) =~= nouts);
                    assert(npairs.len() == inputs@.len());
                }
                let mut t: usize = 0;
                while t < inputs.len()
                    invariant
                        n == self.nodes@.len(),
                        self.nodes@ == roots,
                        roots == old(self).nodes@,
                        nodes0 == old(self).builder.nodes(),
                        res0 == resource_views(old(self).builder.resources()),
                        all == input_pairs(nodes0, roots),
                        outs == output_list(nodes0, roots),
                        i < n,
                        node_handle == roots[i as int],
                        node_handle.index < nodes0.len(),
                        nodes0[node_handle.index as int].enabled,
                        npairs == node_pairs(nodes0, node_handle),
                        inputs@ == nodes0[node_handle.index as int].inputs@,
                        before == input_pairs(nodes0, roots.take(i as int)),
                        obefore == output_list(nodes0, roots.take(i as int)),
                        nouts == node_outputs(nodes0, node_handle),
                        all.len() >= before.len() + npairs.len(),
                        forall|k: int| 0 <= k < before.len() + npairs.len() ==> #[trigger] all[k] == (before + npairs)[k],
                        t <= inputs@.len(),
                        self.builder.wf(),
                        self.builder.nodes() == nodes0,
                        self.builder.resource_names() == old(self).builder.resource_names(),
                        self.builder.node_names() == old(self).builder.node_names(),
                        counts_cover(res0, all),
                        images_described(res0, outs),
                        forall|k: int| 0 <= k <= i ==> #[trigger] roots[k].index < nodes0.len(),
                        outputs_ok(res0, obefore + nouts),
                        requests@ == output_requests(res0, obefore + nouts),
                        refs_ok(res0, before + npairs.take(t as int)),
                        resource_views(self.builder.resources()) == with_uses(res0, before + npairs.take(t as int), -1),
                    decreases inputs@.len() - t,
                {
                    let input = inputs[t];
                    let ghost done = before + npairs.take(t as int);
                    let ghost pair = (node_handle.index, input.index);
                    proof {
                        assert(npairs[t as int] == pair);
                        assert((before + npairs.take(t + 1)).drop_last() =~= done);
                        assert((before + npairs.take(t + 1)).last() == pair);
                        assert(resource_views(self.builder.resources()).len() == self.builder.resources().len());
                        assert(self.builder.resources().len() == res0.len());
                        assert(all[before.len() + t] == pair);
                    }
                    let origin = match self.builder.access_resource_by_handle(&input) {
                        Ok(resource) => resource.output,
                        Err(e) => {
                            proof {
                                let p = before.len() + t;
                                assert(all[p].1 == input.index);
                            }
                            return Err(e);
                        },
                    };
                    proof {
                        assert(resource_views(self.builder.resources())[input.index as int]
                            == self.builder.resources()[input.index as int]@);
                        assert(origin == res0[input.index as int].output);
                    }
                    let ghost views_before = resource_views(self.builder.resources());
                    let ghost res_before = self.builder.resources();
                    let resource = match self.builder.access_resource_mut_by_handle(&origin) {
                        Ok(resource) => resource,
                        Err(e) => {
                            proof {
                                let p = before.len() + t;
                                assert(all[p].1 == input.index);
                            }
                            return Err(e);
                        },
                    };
                    proof {
                        let q = origin.index as int;
                        let next = before + npairs.take(t + 1);
                        assert(next =~= done.push(pair));
                        lemma_uses_nonneg(res0, done, q);
                        lemma_uses_prefix(res0, all, next.len() as int, q);
                        assert(all.take(next.len() as int) =~= next);
                        assert(uses(res0, next, q) == uses(res0, done, q) + 1);
                        assert(views_before[q] == res_before[q]@);
                        assert(views_before[q].ref_count == res0[q].ref_count - uses(res0, done, q));
                        assert(uses(res0, all, q) > 0);
                        assert(res0[q].ref_count >= uses(res0, all, q));
                    }
                    resource.ref_count = resource.ref_count - 1;
                    proof {
                        let next = before + npairs.take(t + 1);
                        assert(refs_ok(res0, next)) by {
                            assert forall|k: int| 0 <= k < next.len() implies #[trigger] next[k].1 < res0.len()
                                && res0[next[k].1 as int].output.index < res0.len() by {
                                if k < done.len() {
                                    assert(next[k] == done[k]);
                                }
                            }
                        }
                        assert forall|q: int| 0 <= q < res0.len() implies #[trigger] resource_views(
                            self.builder.resources(),
                        )[q] == with_uses(res0, next, -1)[q] by {
                            assert(uses(res0, next, q) == uses(res0, done, q) + (if q == origin.index {
                                1int
                            } else {
                                0int
                            }));
                            assert(resource_views(self.builder.resources())[q] == self.builder.resources()[q]@);
                            assert(views_before[q] == res_before[q]@);
                            assert(views_before[q] == with_uses(res0, done, -1)[q]);
                            lemma_uses_nonneg(res0, done, q);
                            lemma_uses_nonneg(res0, next, q);
                            lemma_uses_prefix(res0, all, next.len() as int, q);
                            if uses(res0, next, q) > 0 {
                                assert(uses(res0, all, q) > 0);
                            }
                            if q != origin.index {
                                assert(self.builder.resources()[q] == res_before[q]);
                            }
                        }
                        assert(resource_views(self.builder.resources()) =~= with_uses(res0, next, -1));
                    }
                    t = t + 1;
                }
                proof {
                    assert(npairs.take(npairs.len() as int) =~= npairs);
                }
            }
            proof {
                let ext = input_pairs(nodes0, roots.take(i + 1));
                assert(ext == before + node_pairs(nodes0, node_handle));
                let oext = output_list(nodes0, roots.take(i + 1));
                assert(oext == obefore + node_outputs(nodes0, node_handle));
                if !enabled {
                    assert(ext =~= before);
                    assert(oext =~= obefore);
                }
            }
            i = i + 1;
        }
        proof {
            assert(roots.take(n as int) =~= roots);
        }
        Ok(requests)
    }
}

/// The colour attachment for an output image that `render` draws into.
pub open spec fn color_attachment_for(image: ImageInfo) -> RenderColorAttachment {
    RenderColorAttachment {
        format: image.format,
        clear_value: ClearColor { red: CLEAR_ONE_BITS, green: CLEAR_ONE_BITS, blue: CLEAR_ONE_BITS, alpha: CLEAR_ONE_BITS },
        operation: image.load_op,
        image_view: image.image->0.raw_view,
        image_layout: ImageLayout::ColorAttachmentOptimal,
    }
}

/// The depth attachment for an output image: cleared to depth one.
pub open spec fn depth_attachment_for(image: ImageInfo) -> RenderDepthStencilAttachment {
    RenderDepthStencilAttachment {
        format: image.format,
        clear_depth: CLEAR_ONE_BITS,
        clear_stencil: 0,
        depth_operation: RenderPassOperation::Clear,
        image_view: image.image->0.raw_view,
        ..RenderDepthStencilAttachment::spec_new()
    }
}

pub open spec fn is_attachment(res: Seq<ResourceView>, o: ResourceHandle) -> bool {
    res[o.index as int].resource_type == ResourceType::Attachment
}

/// The colour attachments among `outputs`, in order.
pub open spec fn color_attachments_of(res: Seq<ResourceView>, outputs: Seq<ResourceHandle>) -> Seq<RenderColorAttachment>
    decreases outputs.len(),
{
    if outputs.len() == 0 {
        Seq::empty()
    } else {
        let before = color_attachments_of(res, outputs.drop_last());
        let o = outputs.last();
        let image = res[o.index as int].info.image->0;
        if is_attachment(res, o) && !is_depth_format(image.format) {
            before.push(color_attachment_for(image))
        } else {
            before
        }
    }
}

/// The depth attachment: that of the last depth output.
pub open spec fn depth_attachment_of(res: Seq<ResourceView>, outputs: Seq<ResourceHandle>) -> Option<RenderDepthStencilAttachment>
    decreases outputs.len(),
{
    if outputs.len() == 0 {
        None
    } else {
        let o = outputs.last();
        let image = res[o.index as int].info.image->0;
        if is_attachment(res, o) && is_depth_format(image.format) {
            Some(depth_attachment_for(image))
        } else {
            depth_attachment_of(res, outputs.drop_last())
        }
    }
}

/// The extent of the last attachment among `outputs`, or zero.
pub open spec fn extent_of(res: Seq<ResourceView>, outputs: Seq<ResourceHandle>) -> (u32, u32)
    decreases outputs.len(),
{
    if outputs.len() == 0 {
        (0, 0)
    } else {
        let o = outputs.last();
        let image = res[o.index as int].info.image->0;
        if is_attachment(res, o) {
            (image.width, image.height)
        } else {
            extent_of(res, outputs.drop_last())
        }
    }
}

/// Each attachment has the extent of the attachment before it, where that
/// one has a non-zero width (height).
pub open spec fn extents_agree(res: Seq<ResourceView>, outputs: Seq<ResourceHandle>) -> bool
    decreases outputs.len(),
{
    if outputs.len() == 0 {
        true
    } else {
        let o = outputs.last();
        let image = res[o.index as int].info.image->0;
        let prev = extent_of(res, outputs.drop_last());
        &&& extents_agree(res, outputs.drop_last())
        &&& is_attachment(res, o) ==> (prev.0 != 0 ==> image.width == prev.0) && (prev.1 != 0 ==> image.height
            == prev.1)
    }
}

/// Every attachment among `outputs` that exists has an image with a GPU image.
pub open spec fn attachments_ready(res: Seq<ResourceView>, outputs: Seq<ResourceHandle>) -> bool {
    forall|k: int|
        0 <= k < outputs.len() && outputs[k].index < res.len() && #[trigger] is_attachment(res, outputs[k]) ==> {
            &&& res[outputs[k].index as int].info.image is Some
            &&& res[outputs[k].index as int].info.image->0.image is Some
        }
}

/// The rendering state that `create_rendering_state` builds for `outputs`.
pub open spec fn is_rendering_state_for(rs: RenderingState, res: Seq<ResourceView>, outputs: Seq<ResourceHandle>) -> bool {
    &&& rs.color_attachments@ == color_attachments_of(res, outputs)
    &&& rs.depth_attachment == depth_attachment_of(res, outputs)
    &&& rs.width == extent_of(res, outputs).0
    &&& rs.height == extent_of(res, outputs).1
}

impl Graph {
    /// Records the GPU image that backs an output.
    pub fn set_output_image(&mut self, output: &ResourceHandle, image: GpuImage) -> (r: Result<(), GraphError>)
        requires
            old(self).builder.wf(),
        ensures
            final(self).builder.wf(),
            final(self).nodes@ == old(self).nodes@,
            final(self).builder.nodes() == old(self).builder.nodes(),
            final(self).builder.resource_names() == old(self).builder.resource_names(),
            final(self).builder.node_names() == old(self).builder.node_names(),
            output.index >= old(self).builder.resources().len() ==> r == Err::<(), GraphError>(GraphError::InvalidHandle)
                && final(self).builder.resources() == old(self).builder.resources(),
            output.index < old(self).builder.resources().len() ==> {
                let before = old(self).builder.resources()[output.index as int]@;
                &&& before.info.image is None ==> r == Err::<(), GraphError>(GraphError::NotAnImage)
                    && final(self).builder.resources() == old(self).builder.resources()
                &&& before.info.image is Some ==> {
                    &&& r is Ok
                    &&& resource_views(final(self).builder.resources()) == resource_views(old(self).builder.resources()).update(
                        output.index as int,
                        ResourceView {
                            info: ResourceInfo {
                                image: Some(ImageInfo { image: Some(image), ..before.info.image->0 }),
                                ..before.info
                            },
                            ..before
                        },
                    )
                }
            },
    {
        let ghost res_before = self.builder.resources();
        let resource = self.builder.access_resource_mut_by_handle(output)?;
        match resource.info.image {
            Some(image_info) => {
                resource.info.image = Some(ImageInfo { image: Some(image), ..image_info });
                proof {
                    assert(resource_views(self.builder.resources()) =~= resource_views(res_before).update(
                        output.index as int,
                        self.builder.resources()[output.index as int]@,
                    ));
                }
                Ok(())
            },
            None => Err(GraphError::NotAnImage),
        }
    }

    /// The rendering state of a node: a colour attachment per colour output,
    /// the depth output as depth attachment, and the outputs' extent.
    pub fn create_rendering_state(&self, node: &Node) -> (r: Result<RenderingState, GraphError>)
        requires
            attachments_ready(resource_views(self.builder.resources()), node.outputs@),
            extents_agree(resource_views(self.builder.resources()), node.outputs@),
        ensures
            r is Err <==> !outputs_ok(resource_views(self.builder.resources()), node.outputs@),
            r is Err ==> r == Err::<RenderingState, GraphError>(GraphError::InvalidHandle),
            r matches Ok(rs) ==> is_rendering_state_for(rs, resource_views(self.builder.resources()), node.outputs@),
    {
        let ghost res = resource_views(self.builder.resources());
        let ghost outs = node.outputs@;
        let mut rendering_state = RenderingState::new_dimensionless();
        let mut width: u32 = 0;
        let mut height: u32 = 0;
        let mut t: usize = 0;
        proof {
            assert(outs.take(0) =~= Seq::<ResourceHandle>::empty());
            assert(res.len() == self.builder.resources().len());
        }
        while t < node.outputs.len()
            invariant
                res == resource_views(self.builder.resources()),
                res.len() == self.builder.resources().len(),
                outs == node.outputs@,
                t <= outs.len(),
                attachments_ready(res, outs),
                extents_agree(res, outs),
                outputs_ok(res, outs.take(t as int)),
                rendering_state.color_attachments@ == color_attachments_of(res, outs.take(t as int)),
                rendering_state.depth_attachment == depth_attachment_of(res, outs.take(t as int)),
                (width, height) == extent_of(res, outs.take(t as int)),
            decreases outs.len() - t,
        {
            let output = node.outputs[t];
            let ghost done = outs.take(t as int);
            let ghost next = outs.take(t + 1);
            proof {
                assert(next.drop_last() =~= done);
                assert(next.last() == output);
                lemma_extents_agree_prefix(res, outs, t + 1);
            }
            let resource = self.builder.access_resource_by_handle(&output)?;
            proof {
                assert(res[output.index as int] == resource@);
                assert(outs[t as int] == output);
            }
            if resource.resource_type == ResourceType::Attachment {
                proof {
                    assert(is_attachment(res, outs[t as int]));
                }
                let image_info = resource.info.image.unwrap();
                let image = image_info.image.unwrap();
                if format_has_depth(image_info.format) {
                    rendering_state = rendering_state.set_depth_attachment(
                        RenderDepthStencilAttachment::new().set_format(image_info.format).set_clear_value(
                            CLEAR_ONE_BITS,
                            0,
                        ).set_depth_operation(RenderPassOperation::Clear).set_image_view(image.raw_view),
                    );
                } else {
                    rendering_state = rendering_state.add_color_attachment(
                        RenderColorAttachment::new().set_format(image_info.format).set_clear_value(
                            ClearColor {
                                red: CLEAR_ONE_BITS,
                                green: CLEAR_ONE_BITS,
                                blue: CLEAR_ONE_BITS,
                                alpha: CLEAR_ONE_BITS,
                            },
                        ).set_operation(image_info.load_op).set_image_view(image.raw_view).set_image_layout(
                            ImageLayout::ColorAttachmentOptimal,
                        ),
                    );
                }
                width = image_info.width;
                height = image_info.height;
            }
            proof {
                assert(outputs_ok(res, next)) by {
                    assert forall|k: int| 0 <= k < next.len() implies #[trigger] next[k].index < res.len() by {
                        if k < done.len() {
                            assert(next[k] == done[k]);
                        }
                    }
                }
            }
            t = t + 1;
        }
        proof {
            assert(outs.take(outs.len() as int) =~= outs);
        }
        Ok(rendering_state.set_width(width).set_height(height))
    }
}

/// Two nodes agree on everything but their rendering state.
pub open spec fn same_but_state(a: Node, b: Node) -> bool {
    &&& a.edges@ == b.edges@
    &&& a.inputs@ == b.inputs@
    &&& a.outputs@ == b.outputs@
    &&& a.enabled == b.enabled
    &&& a.name@ == b.name@
}

/// Node `k` is listed, enabled, and has no rendering state yet.
pub open spec fn needs_state(nodes: Seq<Node>, handles: Seq<NodeHandle>, k: int) -> bool {
    &&& handles.contains(NodeHandle { index: k as usize })
    &&& nodes[k].enabled
    &&& nodes[k].rendering_state is None
}

/// `after` holds a rendering state for each node of `before` that needed one,
/// and is otherwise `before`.
pub open spec fn states_built(before: Seq<Node>, after: Seq<Node>, res: Seq<ResourceView>, handles: Seq<NodeHandle>) -> bool {
    &&& after.len() == before.len()
    &&& forall|k: int| 0 <= k < before.len() ==> same_but_state(#[trigger] after[k], before[k])
    &&& forall|k: int|
        0 <= k < before.len() ==> if needs_state(before, handles, k) {
            (#[trigger] after[k]).rendering_state matches Some(rs) && is_rendering_state_for(
                rs,
                res,
                before[k].outputs@,
            )
        } else {
            after[k].rendering_state == before[k].rendering_state
        }
}

/// Every node that needs a rendering state has outputs that exist.
pub open spec fn state_outputs_ok(nodes: Seq<Node>, res: Seq<ResourceView>, handles: Seq<NodeHandle>) -> bool {
    forall|k: int| 0 <= k < nodes.len() && #[trigger] needs_state(nodes, handles, k) ==> outputs_ok(res, nodes[k].outputs@)
}

/// Every node that needs a rendering state has attachments with GPU images
/// and of one extent.
pub open spec fn state_outputs_ready(nodes: Seq<Node>, res: Seq<ResourceView>, handles: Seq<NodeHandle>) -> bool {
    forall|k: int|
        0 <= k < nodes.len() && #[trigger] needs_state(nodes, handles, k) ==> attachments_ready(res, nodes[k].outputs@)
            && extents_agree(res, nodes[k].outputs@)
}

impl Graph {
    /// Builds the rendering state of every listed, enabled node that has none.
    pub fn create_rendering_states(&mut self) -> (r: Result<(), GraphError>)
        requires
            old(self).builder.wf(),
            state_outputs_ready(
                old(self).builder.nodes(),
                resource_views(old(self).builder.resources()),
                old(self).nodes@,
            ),
        ensures
            final(self).builder.wf(),
            final(self).nodes@ == old(self).nodes@,
            final(self).builder.resources() == old(self).builder.resources(),
            final(self).builder.resource_names() == old(self).builder.resource_names(),
            final(self).builder.node_names() == old(self).builder.node_names(),
            r is Ok <==> handles_valid(old(self).builder.nodes(), old(self).nodes@) && state_outputs_ok(
                old(self).builder.nodes(),
                resource_views(old(self).builder.resources()),
                old(self).nodes@,
            ),
            r is Err ==> r == Err::<(), GraphError>(GraphError::InvalidHandle),
            r is Ok ==> states_built(
                old(self).builder.nodes(),
                final(self).builder.nodes(),
                resource_views(old(self).builder.resources()),
                old(self).nodes@,
            ),
    {
        let ghost nodes0 = self.builder.nodes();
        let ghost res = resource_views(self.builder.resources());
        let ghost roots = self.nodes@;
        let n = self.nodes.len();
        let num_nodes = self.builder.num_nodes();
        let mut i: usize = 0;
        proof {
            assert(roots.take(0) =~= Seq::<NodeHandle>::empty());
        }
        while i < n
            invariant
                n == self.nodes@.len(),
                self.nodes@ == roots,
                roots == old(self).nodes@,
                nodes0 == old(self).builder.nodes(),
                nodes0.len() == num_nodes,
                res == resource_views(old(self).builder.resources()),
                i <= n,
                self.builder.wf(),
                self.builder.resources() == old(self).builder.resources(),
                self.builder.resource_names() == old(self).builder.resource_names(),
                self.builder.node_names() == old(self).builder.node_names(),
                state_outputs_ready(nodes0, res, roots),
                forall|k: int| 0 <= k < i ==> #[trigger] roots[k].index < nodes0.len(),
                state_outputs_ok(nodes0, res, roots.take(i as int)),
                states_built(nodes0, self.builder.nodes(), res, roots.take(i as int)),
            decreases n - i,
        {
            let node_handle = self.nodes[i];
            let ghost prefix = roots.take(i as int);
            let ghost next = roots.take(i + 1);
            let ghost idx = node_handle.index as int;
            let ghost cur = self.builder.nodes();
            proof {
                assert(next =~= prefix.push(node_handle));
                assert forall|k: int| 0 <= k < nodes0.len() implies #[trigger] needs_state(nodes0, next, k) == (
                needs_state(nodes0, prefix, k) || (k == idx && nodes0[k].enabled && nodes0[k].rendering_state is None)) by {
                    lemma_contains_push(prefix, node_handle, NodeHandle { index: k as usize });
                }
            }
            let node = self.builder.access_node_by_handle(&node_handle)?;
            if !node.enabled {
                proof {
                    assert(same_but_state(cur[idx], nodes0[idx]));
                    assert(state_outputs_ok(nodes0, res, next));
                    assert(states_built(nodes0, cur, res, next)) by {
                        assert forall|k: int| 0 <= k < nodes0.len() implies if needs_state(nodes0, next, k) {
                            (#[trigger] cur[k]).rendering_state matches Some(rs) && is_rendering_state_for(
                                rs,
                                res,
                                nodes0[k].outputs@,
                            )
                        } else {
                            cur[k].rendering_state == nodes0[k].rendering_state
                        } by {
                            assert(needs_state(nodes0, next, k) == needs_state(nodes0, prefix, k));
                        }
                    }
                }
                i = i + 1;
                continue;
            }
            if node.rendering_state.is_none() {
                proof {
                    assert(same_but_state(cur[idx], nodes0[idx]));
                    assert(cur[idx].rendering_state == nodes0[idx].rendering_state) by {
                        if needs_state(nodes0, prefix, idx) {
                            assert(cur[idx].rendering_state is Some);
                        }
                    }
                    assert(needs_state(nodes0, next, idx));
                    assert(node.outputs@ == nodes0[idx].outputs@);
                    assert(res == resource_views(self.builder.resources()));
                    assert(roots[i as int] == node_handle);
                    assert(needs_state(nodes0, roots, idx));
                }
                let rendering_state = match self.create_rendering_state(node) {
                    Ok(rs) => rs,
                    Err(e) => {
                        proof {
                            assert(!state_outputs_ok(nodes0, res, roots)) by {
                                assert(roots[i as int] == node_handle);
                                assert(needs_state(nodes0, roots, idx));
                            }
                        }
                        return Err(e);
                    },
                };
                let ghost rs_copy = rendering_state;
                let node_mut = self.builder.access_node_mut_by_handle(&node_handle)?;
                node_mut.rendering_state = Some(rendering_state);
                proof {
                    let after = self.builder.nodes();
                    assert(state_outputs_ok(nodes0, res, next));
                    assert forall|k: int| 0 <= k < nodes0.len() implies same_but_state(#[trigger] after[k], nodes0[k]) by {
                        assert(same_but_state(cur[k], nodes0[k]));
                    }
                    assert forall|k: int| 0 <= k < nodes0.len() implies if needs_state(nodes0, next, k) {
                        (#[trigger] after[k]).rendering_state matches Some(rs) && is_rendering_state_for(
                            rs,
                            res,
                            nodes0[k].outputs@,
                        )
                    } else {
                        after[k].rendering_state == nodes0[k].rendering_state
                    } by {
                        if k == idx {
                            assert(after[k].rendering_state == Some(rs_copy));
                        } else {
                            assert(after[k] == cur[k]);
                        }
                    }
                }
            } else {
                proof {
                    assert(same_but_state(cur[idx], nodes0[idx]));
                    if needs_state(nodes0, next, idx) {
                        if !needs_state(nodes0, prefix, idx) {
                            assert(cur[idx].rendering_state == nodes0[idx].rendering_state);
                        }
                    }
                    assert(state_outputs_ok(nodes0, res, next));
                    assert(states_built(nodes0, cur, res, next)) by {
                        assert forall|k: int| 0 <= k < nodes0.len() implies if needs_state(nodes0, next, k) {
                            (#[trigger] cur[k]).rendering_state matches Some(rs) && is_rendering_state_for(
                                rs,
                                res,
                                nodes0[k].outputs@,
                            )
                        } else {
                            cur[k].rendering_state == nodes0[k].rendering_state
                        } by {
                            if k != idx {
                                assert(needs_state(nodes0, next, k) == needs_state(nodes0, prefix, k));
                            }
                        }
                    }
                }
            }
            i = i + 1;
        }
        proof {
            assert(roots.take(n as int) =~= roots);
        }
        Ok(())
    }
}

/// The enabled nodes among `handles` that exist, in order.
pub open spec fn enabled_nodes(nodes: Seq<Node>, handles: Seq<NodeHandle>) -> Seq<NodeHandle>
    decreases handles.len(),
{
    if handles.len() == 0 {
        Seq::empty()
    } else {
        let before = enabled_nodes(nodes, handles.drop_last());
        let h = handles.last();
        if h.index < nodes.len() && nodes[h.index as int].enabled {
            before.push(h)
        } else {
            before
        }
    }
}

/// The barriers before a node reads its textures: each moves from render
/// target to shader resource.
pub open spec fn input_barriers(res: Seq<ResourceView>, inputs: Seq<ResourceHandle>) -> Seq<ImageBarrier>
    decreases inputs.len(),
{
    if inputs.len() == 0 {
        Seq::empty()
    } else {
        let before = input_barriers(res, inputs.drop_last());
        let r = res[inputs.last().index as int];
        if r.resource_type == ResourceType::Texture {
            before.push(spec_image_transition(r.info.image->0.image->0, STATE_RENDER_TARGET, STATE_SHADER_RESOURCE))
        } else {
            before
        }
    }
}

/// Before a pass samples its textures, each barrier it records for them
/// moves a texture out of the color attachment layout into the shader
/// read-only layout, after the color attachment reads and writes (0x180)
/// at the color attachment output stage (0x400), before the shader reads
/// (0x20): never from the undefined layout, which would let the written
/// contents go. Every texture input gets such a barrier for its own image,
/// and there are no more barriers than inputs.
pub proof fn lemma_texture_barriers_wait_for_attachment_writes(res: Seq<ResourceView>, inputs: Seq<ResourceHandle>)
    ensures
        input_barriers(res, inputs).len() <= inputs.len(),
        forall|j: int|
            0 <= j < input_barriers(res, inputs).len() ==> {
                let b = #[trigger] input_barriers(res, inputs)[j];
                &&& b.old_layout == ImageLayout::ColorAttachmentOptimal
                &&& b.new_layout == ImageLayout::ShaderReadOnlyOptimal
                &&& b.src_access_mask == 0x180
                &&& b.src_stage_mask == 0x400
                &&& b.dst_access_mask == 0x20
            },
        forall|k: int|
            0 <= k < inputs.len() && (#[trigger] res[inputs[k].index as int]).resource_type == ResourceType::Texture
                ==> exists|j: int|
                0 <= j < input_barriers(res, inputs).len() && input_barriers(res, inputs)[j].image
                    == res[inputs[k].index as int].info.image->0.image->0.raw,
    decreases inputs.len(),
{
    if inputs.len() > 0 {
        let prefix = inputs.drop_last();
        lemma_texture_barriers_wait_for_attachment_writes(res, prefix);
        let before = input_barriers(res, prefix);
        let r = res[inputs.last().index as int];
        if r.resource_type == ResourceType::Texture {
            lemma_render_target_to_shader_resource(r.info.image->0.image->0);
        }
        let all = input_barriers(res, inputs);
        assert forall|j: int| 0 <= j < before.len() implies #[trigger] all[j] == before[j] by {}
        assert forall|k: int|
            0 <= k < inputs.len() && (#[trigger] res[inputs[k].index as int]).resource_type == ResourceType::Texture
                implies exists|j: int|
                0 <= j < all.len() && all[j].image == res[inputs[k].index as int].info.image->0.image->0.raw by {
            if k < prefix.len() {
                assert(prefix[k] == inputs[k]);
                assert(res[prefix[k].index as int].resource_type == ResourceType::Texture);
                let j = choose|j: int|
                    0 <= j < before.len() && before[j].image == res[prefix[k].index as int].info.image->0.image->0.raw;
                assert(all[j] == before[j]);
            } else {
                assert(inputs[k] == inputs.last());
                assert(all[before.len() as int].image == r.info.image->0.image->0.raw);
            }
        }
    }
}

/// The barriers before a node writes its attachments: each moves from
/// undefined to depth write or to render target.
pub open spec fn output_barriers(res: Seq<ResourceView>, outputs: Seq<ResourceHandle>) -> Seq<ImageBarrier>
    decreases outputs.len(),
{
    if outputs.len() == 0 {
        Seq::empty()
    } else {
        let before = output_barriers(res, outputs.drop_last());
        let r = res[outputs.last().index as int];
        let image = r.info.image->0;
        if r.resource_type == ResourceType::Attachment {
            before.push(
                spec_image_transition(
                    image.image->0,
                    STATE_UNDEFINED,
                    if is_depth_format(image.format) {
                        STATE_DEPTH_WRITE
                    } else {
                        STATE_RENDER_TARGET
                    },
                ),
            )
        } else {
            before
        }
    }
}

/// Before a pass writes its attachments, each barrier it records for them
/// moves an attachment from the undefined layout (its old contents are not
/// kept) into the writable depth-stencil attachment layout where its format
/// has depth, and into the color attachment layout otherwise. Every
/// attachment output gets such a barrier for its own image, and there are no
/// more barriers than outputs.
pub proof fn lemma_attachment_barriers_make_attachments_writable(res: Seq<ResourceView>, outputs: Seq<ResourceHandle>)
    ensures
        output_barriers(res, outputs).len() <= outputs.len(),
        forall|j: int|
            0 <= j < output_barriers(res, outputs).len() ==> {
                let b = #[trigger] output_barriers(res, outputs)[j];
                &&& b.old_layout == ImageLayout::Undefined
                &&& b.src_access_mask == 0
                &&& (b.new_layout == ImageLayout::DepthStencilAttachmentOptimal || b.new_layout
                    == ImageLayout::ColorAttachmentOptimal)
            },
        forall|k: int|
            0 <= k < outputs.len() && (#[trigger] res[outputs[k].index as int]).resource_type
                == ResourceType::Attachment ==> exists|j: int|
                0 <= j < output_barriers(res, outputs).len() && output_barriers(res, outputs)[j].image
                    == res[outputs[k].index as int].info.image->0.image->0.raw && output_barriers(res, outputs)[j].new_layout
                    == if is_depth_format(res[outputs[k].index as int].info.image->0.format) {
                    ImageLayout::DepthStencilAttachmentOptimal
                } else {
                    ImageLayout::ColorAttachmentOptimal
                },
    decreases outputs.len(),
{
    if outputs.len() > 0 {
        let prefix = outputs.drop_last();
        lemma_attachment_barriers_make_attachments_writable(res, prefix);
        let before = output_barriers(res, prefix);
        let r = res[outputs.last().index as int];
        crate::gpu::barriers::lemma_layouts_of_single_states();
        assert(crate::gpu::barriers::spec_access_flags(0) == 0) by (bit_vector);
        let all = output_barriers(res, outputs);
        assert forall|j: int| 0 <= j < before.len() implies #[trigger] all[j] == before[j] by {}
        assert forall|k: int|
            0 <= k < outputs.len() && (#[trigger] res[outputs[k].index as int]).resource_type
                == ResourceType::Attachment implies exists|j: int|
                0 <= j < all.len() && all[j].image == res[outputs[k].index as int].info.image->0.image->0.raw
                    && all[j].new_layout == if is_depth_format(res[outputs[k].index as int].info.image->0.format) {
                    ImageLayout::DepthStencilAttachmentOptimal
                } else {
                    ImageLayout::ColorAttachmentOptimal
                } by {
            if k < prefix.len() {
                assert(prefix[k] == outputs[k]);
                assert(res[prefix[k].index as int].resource_type == ResourceType::Attachment);
                let j = choose|j: int|
                    0 <= j < before.len() && before[j].image == res[prefix[k].index as int].info.image->0.image->0.raw
                        && before[j].new_layout == if is_depth_format(res[prefix[k].index as int].info.image->0.format) {
                        ImageLayout::DepthStencilAttachmentOptimal
                    } else {
                        ImageLayout::ColorAttachmentOptimal
                    };
                assert(all[j] == before[j]);
            } else {
                assert(outputs[k] == outputs.last());
                assert(all[before.len() as int].image == r.info.image->0.image->0.raw);
            }
        }
    }
}

/// Every texture among `inputs` that exists has an image with a GPU image.
pub open spec fn textures_ready(res: Seq<ResourceView>, inputs: Seq<ResourceHandle>) -> bool {
    forall|k: int|
        0 <= k < inputs.len() && inputs[k].index < res.len() && (#[trigger] res[inputs[k].index as int]).resource_type
            == ResourceType::Texture ==> {
            &&& res[inputs[k].index as int].info.image is Some
            &&& res[inputs[k].index as int].info.image->0.image is Some
        }
}

/// The inputs and outputs of the enabled nodes among `handles` exist.
pub open spec fn node_resources_ok(nodes: Seq<Node>, res: Seq<ResourceView>, handles: Seq<NodeHandle>) -> bool {
    forall|k: int|
        0 <= k < enabled_nodes(nodes, handles).len() ==> {
            let node = nodes[#[trigger] enabled_nodes(nodes, handles)[k].index as int];
            &&& outputs_ok(res, node.inputs@)
            &&& outputs_ok(res, node.outputs@)
        }
}

/// The barriers of one node.
/// What a node records into its command buffer, in order.
#[derive(Clone, Copy, PartialEq, Eq, Structural, Debug)]
pub enum RenderCommand {
    Begin,
    PipelineBarrier,
    PreRender,
    BeginRendering,
    Render,
    EndRendering,
    End,
}

/// The commands of an enabled node: it begins, records its barriers, and,
/// where it has a render pass, prepares the pass, renders it between the
/// beginning and the end of rendering; then it ends.
pub open spec fn node_commands(has_render_pass: bool) -> Seq<RenderCommand> {
    if has_render_pass {
        seq![
            RenderCommand::Begin,
            RenderCommand::PipelineBarrier,
            RenderCommand::PreRender,
            RenderCommand::BeginRendering,
            RenderCommand::Render,
            RenderCommand::EndRendering,
            RenderCommand::End,
        ]
    } else {
        seq![RenderCommand::Begin, RenderCommand::PipelineBarrier, RenderCommand::End]
    }
}

fn commands_for(has_render_pass: bool) -> (r: Vec<RenderCommand>)
    ensures
        r@ == node_commands(has_render_pass),
{
    let mut r: Vec<RenderCommand> = Vec::new();
    r.push(RenderCommand::Begin);
    r.push(RenderCommand::PipelineBarrier);
    if has_render_pass {
        r.push(RenderCommand::PreRender);
        r.push(RenderCommand::BeginRendering);
        r.push(RenderCommand::Render);
        r.push(RenderCommand::EndRendering);
    }
    r.push(RenderCommand::End);
    assert(r@ =~= node_commands(has_render_pass));
    r
}

/// Two rendering states with the same attachments and extent.
pub open spec fn same_rendering_state(a: RenderingState, b: RenderingState) -> bool {
    &&& a.color_attachments@ == b.color_attachments@
    &&& a.depth_attachment == b.depth_attachment
    &&& a.width == b.width
    &&& a.height == b.height
}

/// What one enabled node records: its barriers, its commands, and the
/// rendering state that rendering begins with where it has a render pass.
pub struct NodeRenderPlan {
    pub node: NodeHandle,
    pub barriers: Barriers,
    pub commands: Vec<RenderCommand>,
    pub rendering_state: Option<RenderingState>,
}

impl Graph {
    /// The barriers that `node` needs before it runs: its sampled textures
    /// move from render target to shader resource, then its attachments
    /// from undefined to depth write or render target. An error where one of
    /// its resources does not exist.
    fn node_barriers(&self, node: &Node) -> (r: Result<Barriers, GraphError>)
        requires
            textures_ready(resource_views(self.builder.resources()), node.inputs@),
            attachments_ready(resource_views(self.builder.resources()), node.outputs@),
        ensures
            r is Ok <==> outputs_ok(resource_views(self.builder.resources()), node.inputs@) && outputs_ok(
                resource_views(self.builder.resources()),
                node.outputs@,
            ),
            r is Err ==> r == Err::<Barriers, GraphError>(GraphError::InvalidHandle),
            r matches Ok(b) ==> b.barriers() == input_barriers(resource_views(self.builder.resources()), node.inputs@)
                + output_barriers(resource_views(self.builder.resources()), node.outputs@),
    {
        let ghost res = resource_views(self.builder.resources());
        proof {
            assert(res.len() == self.builder.resources().len());
            assert(node.inputs@.take(0) =~= Seq::<ResourceHandle>::empty());
        }
        let mut barriers = Barriers::new();
        let mut t: usize = 0;
        while t < node.inputs.len()
            invariant
                res == resource_views(self.builder.resources()),
                res.len() == self.builder.resources().len(),
                t <= node.inputs@.len(),
                textures_ready(res, node.inputs@),
                outputs_ok(res, node.inputs@.take(t as int)),
                barriers.barriers() == input_barriers(res, node.inputs@.take(t as int)),
            decreases node.inputs@.len() - t,
        {
            let input = node.inputs[t];
            proof {
                assert(node.inputs@.take(t + 1).drop_last() =~= node.inputs@.take(t as int));
                assert(node.inputs@.take(t + 1).last() == input);
            }
            let resource = match self.builder.access_resource_by_handle(&input) {
                Ok(resource) => resource,
                Err(e) => {
                    proof {
                        assert(node.inputs@[t as int] == input);
                    }
                    return Err(e);
                },
            };
            proof {
                assert(res[input.index as int] == resource@);
            }
            if resource.resource_type == ResourceType::Texture {
                proof {
                    assert(node.inputs@[t as int] == input);
                    assert(res[node.inputs@[t as int].index as int].resource_type == ResourceType::Texture);
                }
                let image = resource.info.image.unwrap().image.unwrap();
                barriers.add_image(&image, STATE_RENDER_TARGET, STATE_SHADER_RESOURCE);
            }
            proof {
                let next = node.inputs@.take(t + 1);
                assert forall|k: int| 0 <= k < next.len() implies #[trigger] next[k].index < res.len() by {
                    if k < t {
                        assert(next[k] == node.inputs@.take(t as int)[k]);
                    }
                }
            }
            t = t + 1;
        }
        proof {
            assert(node.inputs@.take(node.inputs@.len() as int) =~= node.inputs@);
            assert(node.outputs@.take(0) =~= Seq::<ResourceHandle>::empty());
        }
        let ghost in_barriers = barriers.barriers();
        let mut t: usize = 0;
        while t < node.outputs.len()
            invariant
                res == resource_views(self.builder.resources()),
                res.len() == self.builder.resources().len(),
                outputs_ok(res, node.inputs@),
                in_barriers == input_barriers(res, node.inputs@),
                t <= node.outputs@.len(),
                attachments_ready(res, node.outputs@),
                outputs_ok(res, node.outputs@.take(t as int)),
                barriers.barriers() == in_barriers + output_barriers(res, node.outputs@.take(t as int)),
            decreases node.outputs@.len() - t,
        {
            let output = node.outputs[t];
            proof {
                assert(node.outputs@.take(t + 1).drop_last() =~= node.outputs@.take(t as int));
                assert(node.outputs@.take(t + 1).last() == output);
            }
            let resource = match self.builder.access_resource_by_handle(&output) {
                Ok(resource) => resource,
                Err(e) => {
                    proof {
                        assert(node.outputs@[t as int] == output);
                    }
                    return Err(e);
                },
            };
            proof {
                assert(res[output.index as int] == resource@);
            }
            if resource.resource_type == ResourceType::Attachment {
                proof {
                    assert(node.outputs@[t as int] == output);
                    assert(is_attachment(res, node.outputs@[t as int]));
                }
                let image_info = resource.info.image.unwrap();
                let image = image_info.image.unwrap();
                if format_has_depth(image_info.format) {
                    barriers.add_image(&image, STATE_UNDEFINED, STATE_DEPTH_WRITE);
                } else {
                    barriers.add_image(&image, STATE_UNDEFINED, STATE_RENDER_TARGET);
                }
                proof {
                    let next = node.outputs@.take(t + 1);
                    assert(output_barriers(res, next) == output_barriers(res, node.outputs@.take(t as int)).push(
                        spec_image_transition(
                            image,
                            STATE_UNDEFINED,
                            if is_depth_format(image_info.format) {
                                STATE_DEPTH_WRITE
                            } else {
                                STATE_RENDER_TARGET
                            },
                        ),
                    ));
                    assert(barriers.barriers() =~= in_barriers + output_barriers(res, next));
                }
            }
            proof {
                let next = node.outputs@.take(t + 1);
                assert forall|k: int| 0 <= k < next.len() implies #[trigger] next[k].index < res.len() by {
                    if k < t {
                        assert(next[k] == node.outputs@.take(t as int)[k]);
                    }
                }
            }
            t = t + 1;
        }
        proof {
            assert(node.outputs@.take(node.outputs@.len() as int) =~= node.outputs@);
        }
        Ok(barriers)
    }

    /// What each enabled node records when the graph renders, in order:
    /// the barriers it needs before it runs, its commands, and the rendering
    /// state it renders with. `render_passes[i]` tells whether node `i` has a
    /// render pass. Disabled nodes record nothing.
    pub fn render_plan(&self, render_passes: &[bool]) -> (r: Result<Vec<NodeRenderPlan>, GraphError>)
        requires
            render_passes@.len() == self.builder.nodes().len(),
            forall|k: int|
                0 <= k < enabled_nodes(self.builder.nodes(), self.nodes@).len() ==> {
                    let h = #[trigger] enabled_nodes(self.builder.nodes(), self.nodes@)[k];
                    let node = self.builder.nodes()[h.index as int];
                    &&& textures_ready(resource_views(self.builder.resources()), node.inputs@)
                    &&& attachments_ready(resource_views(self.builder.resources()), node.outputs@)
                    &&& render_passes@[h.index as int] ==> node.rendering_state is Some
                },
        ensures
            r is Ok <==> handles_valid(self.builder.nodes(), self.nodes@) && node_resources_ok(
                self.builder.nodes(),
                resource_views(self.builder.resources()),
                self.nodes@,
            ),
            r is Err ==> r == Err::<Vec<NodeRenderPlan>, GraphError>(GraphError::InvalidHandle),
            r matches Ok(plan) ==> {
                let order = enabled_nodes(self.builder.nodes(), self.nodes@);
                &&& plan@.len() == order.len()
                &&& forall|k: int| 0 <= k < order.len() ==> {
                    let node = self.builder.nodes()[order[k].index as int];
                    &&& (#[trigger] plan@[k]).node == order[k]
                    &&& plan@[k].barriers.barriers() == input_barriers(resource_views(self.builder.resources()), node.inputs@)
                        + output_barriers(resource_views(self.builder.resources()), node.outputs@)
                    &&& plan@[k].commands@ == node_commands(render_passes@[order[k].index as int])
                    &&& (plan@[k].rendering_state is Some <==> render_passes@[order[k].index as int])
                    &&& plan@[k].rendering_state matches Some(state) ==> same_rendering_state(
                        state,
                        node.rendering_state->0,
                    )
                }
            },
    {
        let ghost nodes = self.builder.nodes();
        let ghost res = resource_views(self.builder.resources());
        let ghost roots = self.nodes@;
        let mut plan: Vec<NodeRenderPlan> = Vec::new();
        let n = self.nodes.len();
        let mut i: usize = 0;
        proof {
            assert(roots.take(0) =~= Seq::<NodeHandle>::empty());
        }
        while i < n
            invariant
                n == roots.len(),
                roots == self.nodes@,
                nodes == self.builder.nodes(),
                res == resource_views(self.builder.resources()),
                i <= n,
                render_passes@.len() == nodes.len(),
                forall|k: int|
                    0 <= k < enabled_nodes(nodes, roots).len() ==> {
                        let h = #[trigger] enabled_nodes(nodes, roots)[k];
                        let node = nodes[h.index as int];
                        &&& textures_ready(res, node.inputs@)
                        &&& attachments_ready(res, node.outputs@)
                        &&& render_passes@[h.index as int] ==> node.rendering_state is Some
                    },
                forall|k: int| 0 <= k < i ==> #[trigger] roots[k].index < nodes.len(),
                plan@.len() == enabled_nodes(nodes, roots.take(i as int)).len(),
                forall|k: int|
                    0 <= k < plan@.len() ==> #[trigger] plan_entry_ok(
                        plan@[k],
                        enabled_nodes(nodes, roots.take(i as int))[k],
                        nodes,
                        res,
                        render_passes@,
                    ),
            decreases n - i,
        {
            let node_handle = self.nodes[i];
            let ghost prefix = enabled_nodes(nodes, roots.take(i as int));
            proof {
                assert(roots.take(i + 1).drop_last() =~= roots.take(i as int));
                assert(roots.take(i + 1).last() == node_handle);
                lemma_enabled_prefix(nodes, roots, i as int);
            }
            let node = self.builder.access_node_by_handle(&node_handle)?;
            proof {
                assert(*node == nodes[node_handle.index as int]);
            }
            if node.enabled {
                let ghost pos = prefix.len();
                proof {
                    assert(enabled_nodes(nodes, roots.take(i + 1)) == prefix.push(node_handle));
                    assert(enabled_nodes(nodes, roots)[pos as int] == node_handle);
                }
                let barriers = match self.node_barriers(node) {
                    Ok(b) => b,
                    Err(e) => {
                        proof {
                            assert(!node_resources_ok(nodes, res, roots)) by {
                                if node_resources_ok(nodes, res, roots) {
                                    assert(enabled_nodes(nodes, roots)[pos as int] == node_handle);
                                    assert(outputs_ok(res, nodes[node_handle.index as int].inputs@));
                                }
                            }
                        }
                        return Err(e);
                    },
                };
                let has_render_pass = render_passes[node_handle.index];
                proof {
                    assert(enabled_nodes(nodes, roots)[pos as int] == node_handle);
                }
                let rendering_state = if has_render_pass {
                    match &node.rendering_state {
                        Some(state) => Some(state.clone_state()),
                        None => None,
                    }
                } else {
                    None
                };
                let commands = commands_for(has_render_pass);
                let ghost plan_before = plan@;
                plan.push(NodeRenderPlan { node: node_handle, barriers, commands, rendering_state });
                proof {
                    let ord = enabled_nodes(nodes, roots.take(i + 1));
                    assert forall|k: int| 0 <= k < plan@.len() implies #[trigger] plan_entry_ok(plan@[k], ord[k], nodes, res, render_passes@) by {
                        if k < pos {
                            assert(ord[k] == prefix[k]);
                            assert(plan@[k] == plan_before[k]);
                        } else {
                            assert(ord[k] == node_handle);
                        }
                    }
                }
            } else {
                proof {
                    assert(enabled_nodes(nodes, roots.take(i + 1)) == prefix);
                }
            }
            i = i + 1;
        }
        proof {
            assert(roots.take(n as int) =~= roots);
            let order = enabled_nodes(nodes, roots);
            assert forall|k: int| 0 <= k < order.len() implies {
                let node = nodes[#[trigger] order[k].index as int];
                &&& outputs_ok(res, node.inputs@)
                &&& outputs_ok(res, node.outputs@)
            } by {
                assert(plan_entry_ok(plan@[k], order[k], nodes, res, render_passes@));
            }
            assert(node_resources_ok(nodes, res, roots));
            assert forall|k: int| 0 <= k < order.len() implies {
                let node = nodes[order[k].index as int];
                &&& (#[trigger] plan@[k]).node == order[k]
                &&& plan@[k].barriers.barriers() == input_barriers(res, node.inputs@) + output_barriers(res, node.outputs@)
                &&& plan@[k].commands@ == node_commands(render_passes@[order[k].index as int])
                &&& (plan@[k].rendering_state is Some <==> render_passes@[order[k].index as int])
                &&& plan@[k].rendering_state matches Some(state) ==> same_rendering_state(
                    state,
                    node.rendering_state->0,
                )
            } by {
                assert(plan_entry_ok(plan@[k], order[k], nodes, res, render_passes@));
            }
        }
        Ok(plan)
    }
}

/// The plan entry of node `h`: its barriers, commands and rendering state,
/// its resources existing.
pub open spec fn plan_entry_ok(
    entry: NodeRenderPlan,
    h: NodeHandle,
    nodes: Seq<Node>,
    res: Seq<ResourceView>,
    render_passes: Seq<bool>,
) -> bool {
    let node = nodes[h.index as int];
    &&& entry.node == h
    &&& outputs_ok(res, node.inputs@)
    &&& outputs_ok(res, node.outputs@)
    &&& entry.barriers.barriers() == input_barriers(res, node.inputs@) + output_barriers(res, node.outputs@)
    &&& entry.commands@ == node_commands(render_passes[h.index as int])
    &&& (entry.rendering_state is Some <==> render_passes[h.index as int])
    &&& entry.rendering_state matches Some(state) ==> same_rendering_state(state, node.rendering_state->0)
}

proof fn lemma_enabled_prefix(nodes: Seq<Node>, handles: Seq<NodeHandle>, i: int)
    requires
        0 <= i < handles.len(),
    ensures
        enabled_nodes(nodes, handles).len() >= enabled_nodes(nodes, handles.take(i + 1)).len(),
        forall|k: int|
            0 <= k < enabled_nodes(nodes, handles.take(i + 1)).len() ==> #[trigger] enabled_nodes(nodes, handles)[k]
                == enabled_nodes(nodes, handles.take(i + 1))[k],
    decreases handles.len(),
{
    if i == handles.len() - 1 {
        assert(handles.take(i + 1) =~= handles);
    } else {
        lemma_enabled_prefix(nodes, handles.drop_last(), i);
        assert(handles.drop_last().take(i + 1) =~= handles.take(i + 1));
        let a = enabled_nodes(nodes, handles.drop_last());
        assert forall|k: int| 0 <= k < a.len() implies #[trigger] enabled_nodes(nodes, handles)[k] == a[k] by {}
    }
}

/// The state that linking leaves.
pub open spec fn linked(nodes: Seq<Node>, res: Seq<ResourceView>, names: Map<Seq<char>, usize>, roots: Seq<NodeHandle>) -> LinkState {
    link_all(
        LinkState { res, adj: cleared_edges(node_edges(nodes), roots) },
        names,
        input_pairs(nodes, roots),
    )
}

/// The graph along the edges that linking leaves.
pub open spec fn linked_topology(
    nodes: Seq<Node>,
    res: Seq<ResourceView>,
    names: Map<Seq<char>, usize>,
    roots: Seq<NodeHandle>,
) -> EdgeView {
    EdgeView {
        adj: linked(nodes, res, names, roots).adj,
        enabled: nodes.map_values(|n: Node| n.enabled),
    }
}

/// Each reference count that `pairs` uses is not negative.
pub open spec fn counts_nonneg(res: Seq<ResourceView>, pairs: Seq<(usize, usize)>) -> bool {
    forall|q: int| 0 <= q < res.len() && #[trigger] uses(res, pairs, q) > 0 ==> res[q].ref_count >= 0
}

/// What compiling needs of any order that it may choose: the counts fit in
/// `i32` and are not negative where they are used, and the outputs that
/// need GPU images describe them.
pub open spec fn order_fits(res: Seq<ResourceView>, nodes: Seq<Node>, order: Seq<NodeHandle>) -> bool {
    &&& counts_fit(res, input_pairs(nodes, order))
    &&& counts_nonneg(res, input_pairs(nodes, order))
    &&& images_described(res, output_list(nodes, order))
}

proof fn lemma_pairs_same(n0: Seq<Node>, n1: Seq<Node>, handles: Seq<NodeHandle>)
    requires
        n0.len() == n1.len(),
        forall|k: int| 0 <= k < n0.len() ==> #[trigger] n1[k].enabled == n0[k].enabled && n1[k].inputs@ == n0[k].inputs@
            && n1[k].outputs@ == n0[k].outputs@,
    ensures
        input_pairs(n1, handles) == input_pairs(n0, handles),
        output_list(n1, handles) == output_list(n0, handles),
    decreases handles.len(),
{
    if handles.len() > 0 {
        lemma_pairs_same(n0, n1, handles.drop_last());
        let h = handles.last();
        if h.index < n0.len() {
            assert(n1[h.index as int].enabled == n0[h.index as int].enabled);
        }
        assert(node_pairs(n1, h) == node_pairs(n0, h));
        assert(node_outputs(n1, h) == node_outputs(n0, h));
    }
}

proof fn lemma_uses_with_uses(res: Seq<ResourceView>, p: Seq<(usize, usize)>, pairs: Seq<(usize, usize)>, sign: int, q: int)
    requires
        forall|k: int| 0 <= k < pairs.len() ==> #[trigger] pairs[k].1 < res.len(),
    ensures
        uses(with_uses(res, p, sign), pairs, q) == uses(res, pairs, q),
    decreases pairs.len(),
{
    if pairs.len() > 0 {
        let prefix = pairs.drop_last();
        assert forall|k: int| 0 <= k < prefix.len() implies #[trigger] prefix[k].1 < res.len() by {
            assert(prefix[k] == pairs[k]);
        }
        lemma_uses_with_uses(res, p, prefix, sign, q);
        assert(pairs[pairs.len() - 1].1 < res.len());
    }
}

proof fn lemma_requests_with_uses(res: Seq<ResourceView>, p: Seq<(usize, usize)>, outs: Seq<ResourceHandle>, sign: int)
    requires
        outputs_ok(res, outs),
    ensures
        output_requests(with_uses(res, p, sign), outs) == output_requests(res, outs),
        images_described(with_uses(res, p, sign), outs) == images_described(res, outs),
    decreases outs.len(),
{
    let w = with_uses(res, p, sign);
    if outs.len() > 0 {
        let prefix = outs.drop_last();
        assert forall|k: int| 0 <= k < prefix.len() implies #[trigger] prefix[k].index < res.len() by {
            assert(prefix[k] == outs[k]);
        }
        lemma_requests_with_uses(res, p, prefix, sign);
        assert(outs[outs.len() - 1].index < res.len());
    }
    if images_described(res, outs) {
        assert forall|k: int|
            0 <= k < outs.len() && outs[k].index < w.len() && needs_image(#[trigger] w[outs[k].index as int])
            implies w[outs[k].index as int].info.image is Some by {
            assert(w[outs[k].index as int].info == res[outs[k].index as int].info);
            assert(needs_image(res[outs[k].index as int]));
        }
    }
    if images_described(w, outs) {
        assert forall|k: int|
            0 <= k < outs.len() && outs[k].index < res.len() && needs_image(#[trigger] res[outs[k].index as int])
            implies res[outs[k].index as int].info.image is Some by {
            assert(w[outs[k].index as int].info == res[outs[k].index as int].info);
            assert(needs_image(w[outs[k].index as int]));
        }
    }
}

impl Graph {
    /// Compiles the graph: links inputs to outputs, puts the nodes in the
    /// order in which they run, and lists the GPU images that the outputs
    /// need. The reference counts are raised by the uses of each output and
    /// lowered again as the nodes release their inputs.
    ///
    /// The images are created from the returned requests and recorded with
    /// `set_output_image`; `create_rendering_states` finishes the compilation.
    pub fn compile(&mut self) -> (r: Result<Vec<ImageRequest>, GraphError>)
        requires
            old(self).builder.wf(),
            handles_valid(old(self).builder.nodes(), old(self).nodes@) && link_ok(
                resource_views(old(self).builder.resources()),
                old(self).builder.resource_names(),
                input_pairs(old(self).builder.nodes(), old(self).nodes@),
            ) ==> {
                let g = linked_topology(
                    old(self).builder.nodes(),
                    resource_views(old(self).builder.resources()),
                    old(self).builder.resource_names(),
                    old(self).nodes@,
                );
                let lres = linked(
                    old(self).builder.nodes(),
                    resource_views(old(self).builder.resources()),
                    old(self).builder.resource_names(),
                    old(self).nodes@,
                ).res;
                &&& walk_fits(g, old(self).nodes@)
                &&& !walk_meets_invalid(g, old(self).nodes@) ==> {
                    &&& reach_set(g, old(self).nodes@).len() == old(self).nodes@.len()
                    &&& forall|order: Seq<NodeHandle>|
                        #[trigger] is_run_order(g, old(self).nodes@, order) ==> order_fits(
                            lres,
                            old(self).builder.nodes(),
                            order,
                        )
                }
            },
        ensures
            final(self).builder.wf(),
            final(self).builder.resource_names() == old(self).builder.resource_names(),
            final(self).builder.node_names() == old(self).builder.node_names(),
            ({
                let nodes0 = old(self).builder.nodes();
                let res0 = resource_views(old(self).builder.resources());
                let names = old(self).builder.resource_names();
                let roots = old(self).nodes@;
                let linkable = handles_valid(nodes0, roots) && link_ok(res0, names, input_pairs(nodes0, roots));
                let g = linked_topology(nodes0, res0, names, roots);
                let st = linked(nodes0, res0, names, roots);
                let order = final(self).nodes@;
                &&& r is Ok <==> linkable && !walk_meets_invalid(g, roots) && refs_ok(
                    st.res,
                    input_pairs(nodes0, order),
                ) && outputs_ok(st.res, output_list(nodes0, order))
                &&& r matches Ok(requests) ==> {
                    &&& is_run_order(g, roots, order)
                    &&& resource_views(final(self).builder.resources()) == st.res
                    &&& node_edges(final(self).builder.nodes()) == st.adj
                    &&& final(self).builder.nodes().len() == nodes0.len()
                    &&& forall|k: int|
                        0 <= k < nodes0.len() ==> same_but_edges(#[trigger] final(self).builder.nodes()[k], nodes0[k])
                    &&& requests@ == output_requests(st.res, output_list(nodes0, order))
                }
            }),
    {
        let ghost nodes0 = self.builder.nodes();
        let ghost res0 = resource_views(self.builder.resources());
        let ghost names = self.builder.resource_names();
        let ghost roots = self.nodes@;
        self.link_nodes()?;
        let ghost nodes1 = self.builder.nodes();
        let ghost st = linked(nodes0, res0, names, roots);
        let ghost g = linked_topology(nodes0, res0, names, roots);
        proof {
            assert(topology_of(nodes1) =~= g) by {
                assert(topology_of(nodes1).adj =~= g.adj);
                assert forall|k: int| 0 <= k < nodes1.len() implies #[trigger] topology_of(nodes1).enabled[k] == g.enabled[k] by {
                    assert(same_but_edges(nodes1[k], nodes0[k]));
                }
                assert(topology_of(nodes1).enabled =~= g.enabled);
            }
        }
        self.sort_nodes()?;
        let ghost order = self.nodes@;
        let ghost pairs = input_pairs(nodes0, order);
        let ghost outs = output_list(nodes0, order);
        proof {
            assert(is_run_order(g, roots, order));
            assert(order_fits(st.res, nodes0, order));
            assert forall|k: int| 0 <= k < nodes0.len() implies #[trigger] nodes1[k].enabled == nodes0[k].enabled
                && nodes1[k].inputs@ == nodes0[k].inputs@ && nodes1[k].outputs@ == nodes0[k].outputs@ by {
                assert(same_but_edges(nodes1[k], nodes0[k]));
            }
            lemma_pairs_same(nodes0, nodes1, order);
            assert(handles_valid(nodes1, order)) by {
                assert forall|k: int| 0 <= k < order.len() implies #[trigger] order[k].index < nodes1.len() by {
                    assert(order.contains(NodeHandle { index: order[k].index }));
                    assert(handle_set(order).contains(order[k].index));
                    assert(reach_set(g, roots).contains(order[k].index));
                    assert(g.adj.len() == topology_of(nodes1).adj.len());
                }
            }
        }
        self.count_references()?;
        let ghost counted = resource_views(self.builder.resources());
        proof {
            assert(counted == with_uses(st.res, pairs, 1));
            assert(refs_ok(st.res, pairs));
            assert forall|k: int| 0 <= k < pairs.len() implies #[trigger] pairs[k].1 < st.res.len() by {
                assert(refs_ok(st.res, pairs));
                assert(pairs[k].1 < st.res.len());
            }
            assert forall|q: int| 0 <= q < counted.len() && #[trigger] uses(counted, pairs, q) > 0 implies counted[q].ref_count
                >= uses(counted, pairs, q) by {
                lemma_uses_with_uses(st.res, pairs, pairs, 1, q);
            }
        }
        let requests = match self.plan_images() {
            Ok(requests) => requests,
            Err(e) => {
                proof {
                    assert(!outputs_ok(counted, outs) || !refs_ok(counted, pairs));
                    assert(counted.len() == st.res.len());
                    assert forall|k: int| 0 <= k < pairs.len() implies #[trigger] pairs[k].1 < counted.len() && counted[pairs[k].1 as int].output.index
                        == st.res[pairs[k].1 as int].output.index by {
                        assert(pairs[k].1 < st.res.len());
                    }
                }
                return Err(e);
            },
        };
        proof {
            assert(outputs_ok(counted, outs));
            assert(outputs_ok(st.res, outs));
            lemma_requests_with_uses(st.res, pairs, outs, 1);
            let fin = resource_views(self.builder.resources());
            assert(fin == with_uses(counted, pairs, -1));
            assert forall|q: int| 0 <= q < st.res.len() implies #[trigger] fin[q] == st.res[q] by {
                lemma_uses_with_uses(st.res, pairs, pairs, 1, q);
                lemma_uses_nonneg(st.res, pairs, q);
            }
            assert(fin =~= st.res);
        }
        Ok(requests)
    }
}

proof fn lemma_extents_agree_prefix(res: Seq<ResourceView>, outputs: Seq<ResourceHandle>, i: int)
    requires
        0 <= i <= outputs.len(),
        extents_agree(res, outputs),
    ensures
        extents_agree(res, outputs.take(i)),
    decreases outputs.len() - i,
{
    if i == outputs.len() {
        assert(outputs.take(i) =~= outputs);
    } else {
        lemma_extents_agree_prefix(res, outputs, i + 1);
        assert(outputs.take(i + 1).drop_last() =~= outputs.take(i));
    }
}

/// The pairs of a prefix of the listed nodes come first among all pairs.
proof fn lemma_pairs_prefix(nodes: Seq<Node>, handles: Seq<NodeHandle>, i: int)
    requires
        0 <= i < handles.len(),
    ensures
        input_pairs(nodes, handles).len() >= input_pairs(nodes, handles.take(i)).len() + node_pairs(
            nodes,
            handles[i],
        ).len(),
        forall|k: int|
            0 <= k < input_pairs(nodes, handles.take(i)).len() + node_pairs(nodes, handles[i]).len() ==> #[trigger] input_pairs(
                nodes,
                handles,
            )[k] == (input_pairs(nodes, handles.take(i)) + node_pairs(nodes, handles[i]))[k],
    decreases handles.len(),
{
    if i == handles.len() - 1 {
        assert(handles.drop_last() =~= handles.take(i));
    } else {
        lemma_pairs_prefix(nodes, handles.drop_last(), i);
        assert(handles.drop_last().take(i) =~= handles.take(i));
        assert(handles.drop_last()[i] == handles[i]);
    }
}

/// The graph after setting the enable flag of the node registered under
/// `name`: only that node's flag changes, and only when the name leads to a
/// node.
pub open spec fn self_after_set_enable(
    before: Graph,
    after: Graph,
    name: Seq<char>,
    enable: bool,
    r: Result<(), GraphError>,
) -> bool {
    &&& after.nodes@ == before.nodes@
    &&& after.builder.wf() == before.builder.wf()
    &&& after.builder.resources() == before.builder.resources()
    &&& after.builder.resource_names() == before.builder.resource_names()
    &&& after.builder.node_names() == before.builder.node_names()
    &&& !before.builder.node_names().contains_key(name) ==> {
        &&& r == Err::<(), GraphError>(GraphError::UnknownName)
        &&& after.builder.nodes() == before.builder.nodes()
    }
    &&& before.builder.node_names().contains_key(name) ==> {
        let index = before.builder.node_names()[name];
        &&& index >= before.builder.nodes().len() ==> {
            &&& r == Err::<(), GraphError>(GraphError::InvalidHandle)
            &&& after.builder.nodes() == before.builder.nodes()
        }
        &&& index < before.builder.nodes().len() ==> {
            &&& r is Ok
            &&& after.builder.nodes().len() == before.builder.nodes().len()
            &&& after.builder.nodes()[index as int]@ == (NodeView { enabled: enable, ..before.builder.nodes()[index as int]@ })
            &&& after.builder.nodes()[index as int].rendering_state == before.builder.nodes()[index as int].rendering_state
            &&& forall|k: int|
                0 <= k < before.builder.nodes().len() && k != index ==> #[trigger] after.builder.nodes()[k]
                    == before.builder.nodes()[k]
        }
    }
}

} // verus!
