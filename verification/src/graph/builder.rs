use vstd::prelude::*;

use crate::graph::name_map::NameMap;
use crate::graph::pool::ResourcePool;
use crate::graph::types::{
    InputDesc, Node, NodeDesc, NodeDescView, NodeHandle, NodeView, OutputDesc, OutputDescView,
    Resource, ResourceHandle, ResourceInfo, ResourceType, ResourceView, GraphError,
};

verus! {

/// The resource that `create_input` makes for an input description.
pub open spec fn input_resource(resource_type: ResourceType, name: Seq<char>) -> ResourceView {
    ResourceView { resource_type, name, ..Resource::spec_default() }
}

/// The resource that `create_output` makes for an output description; its
/// handle is `handle`. A reference keeps no information, output or producer.
pub open spec fn output_resource(
    resource_type: ResourceType,
    name: Seq<char>,
    info: ResourceInfo,
    handle: ResourceHandle,
    producer: NodeHandle,
) -> ResourceView {
    if resource_type == ResourceType::Reference {
        ResourceView { resource_type, name, ..Resource::spec_default() }
    } else {
        ResourceView { resource_type, name, info, output: handle, producer, ..Resource::spec_default() }
    }
}

/// Collects the nodes and resources of a render graph.
pub struct Builder {
    resources: ResourcePool<Resource>,
    resource_map: NameMap,
    nodes: ResourcePool<Node>,
    node_map: NameMap,
}

impl Builder {
    /// The pools hand out fresh slots only: nothing has been returned to them.
    pub closed spec fn wf(&self) -> bool {
        &&& self.resources.free_slots().len() == 0
        &&& self.nodes.free_slots().len() == 0
    }

    pub closed spec fn resources(&self) -> Seq<Resource> {
        self.resources.items()
    }

    pub closed spec fn nodes(&self) -> Seq<Node> {
        self.nodes.items()
    }

    /// Output resources by name.
    pub closed spec fn resource_names(&self) -> Map<Seq<char>, usize> {
        self.resource_map@
    }

    /// Nodes by name.
    pub closed spec fn node_names(&self) -> Map<Seq<char>, usize> {
        self.node_map@
    }

    /// Each name of an output is bound to the last output created under it;
    /// inputs and references are never bound.
    pub open spec fn names_track(&self) -> bool {
        names_track_outputs(self.resources(), self.resource_names())
    }

    pub fn new() -> (b: Self)
        ensures
            b.names_track(),
            b.wf(),
            b.resources() == Seq::<Resource>::empty(),
            b.nodes() == Seq::<Node>::empty(),
            b.resource_names() == Map::<Seq<char>, usize>::empty(),
            b.node_names() == Map::<Seq<char>, usize>::empty(),
    {
        Builder {
            resources: ResourcePool::new(),
            resource_map: NameMap::new(),
            nodes: ResourcePool::new(),
            node_map: NameMap::new(),
        }
    }

    pub fn num_resources(&self) -> (n: usize)
        ensures
            n == self.resources().len(),
    {
        self.resources.len()
    }

    pub fn num_nodes(&self) -> (n: usize)
        ensures
            n == self.nodes().len(),
    {
        self.nodes.len()
    }

    /// Adds the resource of an input; it refers to no output until the graph
    /// is compiled.
    pub fn create_input(&mut self, desc: InputDesc) -> (handle: ResourceHandle)
        requires
            old(self).wf(),
        ensures
            final(self).wf(),
            handle.index == old(self).resources().len(),
            final(self).resources().len() == old(self).resources().len() + 1,
            final(self).resources().drop_last() == old(self).resources(),
            final(self).resources().last()@ == input_resource(desc.resource_type, desc.name@),
            final(self).nodes() == old(self).nodes(),
            final(self).resource_names() == old(self).resource_names(),
            final(self).node_names() == old(self).node_names(),
            old(self).names_track() ==> final(self).names_track(),
    {
        let (resource, resource_index) = self.resources.get_new();
        let resource_handle = ResourceHandle::new(resource_index);
        resource.resource_type = desc.resource_type;
        resource.name = desc.name;
        resource.producer = ResourceHandle::invalid();
        resource.output = ResourceHandle::invalid();
        resource.ref_count = 0;
        proof {
            assert(self.resources.items().drop_last() =~= old(self).resources.items());
            assert(self.resources.items() =~= old(self).resources.items().push(self.resources.items().last()));
            if old(self).names_track() {
                lemma_names_after_push(
                    old(self).resources.items(),
                    old(self).resource_map@,
                    self.resources.items().last(),
                    self.resource_map@,
                );
            }
        }
        resource_handle
    }

    /// Adds the resource of an output that `producer` writes. Unless it is a
    /// reference, the output is registered under its name.
    pub fn create_output(&mut self, desc: OutputDesc, producer: NodeHandle) -> (handle: ResourceHandle)
        requires
            old(self).wf(),
        ensures
            final(self).wf(),
            handle.index == old(self).resources().len(),
            final(self).resources().len() == old(self).resources().len() + 1,
            final(self).resources().drop_last() == old(self).resources(),
            final(self).resources().last()@ == output_resource(
                desc.resource_type,
                desc.name@,
                desc.info,
                handle,
                producer,
            ),
            final(self).nodes() == old(self).nodes(),
            final(self).resource_names() == (if desc.resource_type == ResourceType::Reference {
                old(self).resource_names()
            } else {
                old(self).resource_names().insert(desc.name@, handle.index)
            }),
            final(self).node_names() == old(self).node_names(),
            old(self).names_track() ==> final(self).names_track(),
    {
        let (resource, resource_index) = self.resources.get_new();
        let resource_handle = ResourceHandle::new(resource_index);
        resource.resource_type = desc.resource_type;
        resource.name = desc.name;
        if desc.resource_type != ResourceType::Reference {
            resource.info = desc.info;
            resource.output = resource_handle;
            resource.producer = producer;
            let name = resource.name.clone();
            self.resource_map.insert(name, resource_handle.index);
        }
        proof {
            assert(self.resources.items().drop_last() =~= old(self).resources.items());
            assert(self.resources.items() =~= old(self).resources.items().push(self.resources.items().last()));
            if old(self).names_track() {
                lemma_names_after_push(
                    old(self).resources.items(),
                    old(self).resource_map@,
                    self.resources.items().last(),
                    self.resource_map@,
                );
            }
        }
        resource_handle
    }

    /// Adds a node with its outputs, then its inputs, and registers it under
    /// its name.
    pub fn create_node(&mut self, desc: NodeDesc) -> (handle: NodeHandle)
        requires
            old(self).wf(),
        ensures
            final(self).wf(),
            handle.index == old(self).nodes().len(),
            final(self).nodes().len() == old(self).nodes().len() + 1,
            final(self).nodes().drop_last() == old(self).nodes(),
            final(self).nodes().last()@ == created_node(desc@, old(self).resources().len() as int),
            created_resources(old(self).resources(), final(self).resources(), desc@, handle),
            final(self).resource_names() == names_after_outputs(
                old(self).resource_names(),
                desc@.outputs,
                old(self).resources().len() as int,
            ),
            final(self).node_names() == old(self).node_names().insert(desc@.name, handle.index),
            old(self).names_track() ==> final(self).names_track(),
    {
        let ghost dv = desc@;
        let node_index = self.nodes.new_index();
        let node_handle = NodeHandle::new(node_index);
        let NodeDesc { inputs, outputs, enabled, name } = desc;
        {
            let node = self.nodes.get_mut(node_index).unwrap();
            node.name = name.clone();
            node.enabled = enabled;
        }
        self.node_map.insert(name, node_index);
        let ghost r0 = self.resources.items().len();
        let ghost map0 = self.resource_map@;
        let ghost nodes0 = old(self).nodes.items();
        proof {
            assert(self.nodes.items().drop_last() =~= nodes0);
            assert(self.nodes.items().last()@ == (NodeView {
                name: dv.name, enabled: dv.enabled, ..Node::spec_default() }));
            assert(handle_range(r0 as int, 0) =~= Seq::<ResourceHandle>::empty());
            assert(dv.outputs.take(0) =~= Seq::<OutputDescView>::empty());
            assert(self.resources.items().take(r0 as int) =~= old(self).resources.items());
        }
        for output_desc in it: outputs
            invariant
                self.wf(),
                old(self).names_track() ==> self.names_track(),
                r0 == old(self).resources.items().len(),
                it.seq().map_values(|d: OutputDesc| d@) == dv.outputs,
                self.resources.items().len() == r0 + it.index(),
                self.resources.items().take(r0 as int) == old(self).resources.items(),
                forall|j: int| 0 <= j < it.index() ==> #[trigger] self.resources.items()[r0 + j]@
                    == output_resource(dv.outputs[j].resource_type, dv.outputs[j].name,
                        dv.outputs[j].info, ResourceHandle { index: (r0 + j) as usize }, node_handle),
                self.resource_map@ == names_after_outputs(map0, dv.outputs.take(it.index()), r0 as int),
                self.node_map@ == old(self).node_map@.insert(dv.name, node_index),
                node_index == nodes0.len(),
                node_handle.index == node_index,
                self.nodes.items().len() == nodes0.len() + 1,
                self.nodes.items().drop_last() == nodes0,
                self.nodes.items().last()@ == (NodeView {
                    name: dv.name, enabled: dv.enabled,
                    outputs: handle_range(r0 as int, it.index()), ..Node::spec_default() }),
        {
            let ghost k = it.index();
            let ghost before = self.resources.items();
            let ghost od = output_desc@;
            assert(od == dv.outputs[k]);
            let output_handle = self.create_output(output_desc, node_handle);
            let node = self.nodes.get_mut(node_index).unwrap();
            node.outputs.push(output_handle);
            proof {
                assert(self.resources.items().take(r0 as int) =~= old(self).resources.items()) by {
                    assert(self.resources.items().drop_last() == before);
                    assert(before.take(r0 as int) == old(self).resources.items());
                }
                assert forall|j: int| 0 <= j < k + 1 implies #[trigger] self.resources.items()[r0 + j]@
                    == output_resource(dv.outputs[j].resource_type, dv.outputs[j].name,
                        dv.outputs[j].info, ResourceHandle { index: (r0 + j) as usize }, node_handle) by {
                    if j < k {
                        assert(self.resources.items()[r0 + j] == before[r0 + j]);
                    }
                }
                assert(dv.outputs.take(k + 1).drop_last() =~= dv.outputs.take(k));
                assert(dv.outputs.take(k + 1).last() == od);
                assert(handle_range(r0 as int, k + 1) =~= handle_range(r0 as int, k).push(output_handle));
                assert(self.nodes.items().drop_last() =~= nodes0);
            }
        }
        let ghost r1 = self.resources.items().len();
        proof {
            assert(dv.outputs.take(dv.outputs.len() as int) =~= dv.outputs);
            assert(handle_range(r1 as int, 0) =~= Seq::<ResourceHandle>::empty());
        }
                for input_desc in it: inputs
            invariant
                self.wf(),
                old(self).names_track() ==> self.names_track(),
                r0 == old(self).resources.items().len(),
                r1 == r0 + dv.outputs.len(),
                it.seq().map_values(|d: InputDesc| d@) == dv.inputs,
                self.resources.items().len() == r1 + it.index(),
                self.resources.items().take(r0 as int) == old(self).resources.items(),
                forall|j: int| 0 <= j < dv.outputs.len() ==> #[trigger] self.resources.items()[r0 + j]@
                    == output_resource(dv.outputs[j].resource_type, dv.outputs[j].name,
                        dv.outputs[j].info, ResourceHandle { index: (r0 + j) as usize }, node_handle),
                forall|j: int| 0 <= j < it.index() ==> #[trigger] self.resources.items()[r1 + j]@
                    == input_resource(dv.inputs[j].resource_type, dv.inputs[j].name),
                self.resource_map@ == names_after_outputs(map0, dv.outputs, r0 as int),
                self.node_map@ == old(self).node_map@.insert(dv.name, node_index),
                node_index == nodes0.len(),
                node_handle.index == node_index,
                self.nodes.items().len() == nodes0.len() + 1,
                self.nodes.items().drop_last() == nodes0,
                self.nodes.items().last()@ == (NodeView {
                    name: dv.name, enabled: dv.enabled,
                    outputs: handle_range(r0 as int, dv.outputs.len() as int),
                    inputs: handle_range(r1 as int, it.index()), ..Node::spec_default() }),
        {
            let ghost k = it.index();
            let ghost before = self.resources.items();
            let ghost id = input_desc@;
            assert(id == dv.inputs[k]);
            let input_handle = self.create_input(input_desc);
            let node = self.nodes.get_mut(node_index).unwrap();
            node.inputs.push(input_handle);
            proof {
                assert(self.resources.items().take(r0 as int) =~= old(self).resources.items()) by {
                    assert(self.resources.items().drop_last() == before);
                    assert(before.take(r0 as int) == old(self).resources.items());
                }
                assert forall|j: int| 0 <= j < dv.outputs.len() implies #[trigger] self.resources.items()[r0 + j]@
                    == output_resource(dv.outputs[j].resource_type, dv.outputs[j].name,
                        dv.outputs[j].info, ResourceHandle { index: (r0 + j) as usize }, node_handle) by {
                    assert(self.resources.items()[r0 + j] == before[r0 + j]);
                }
                assert forall|j: int| 0 <= j < k + 1 implies #[trigger] self.resources.items()[r1 + j]@
                    == input_resource(dv.inputs[j].resource_type, dv.inputs[j].name) by {
                    if j < k {
                        assert(self.resources.items()[r1 + j] == before[r1 + j]);
                    }
                }
                assert(handle_range(r1 as int, k + 1) =~= handle_range(r1 as int, k).push(input_handle));
                assert(self.nodes.items().drop_last() =~= nodes0);
            }
        }
        node_handle
    }
}

impl Builder {
    pub fn access_resource_by_handle(&self, handle: &ResourceHandle) -> (r: Result<&Resource, GraphError>)
        ensures
            handle.index < self.resources().len() ==> r == Ok::<&Resource, GraphError>(&self.resources()[handle.index as int]),
            handle.index >= self.resources().len() ==> r == Err::<&Resource, GraphError>(GraphError::InvalidHandle),
    {
        match self.resources.get(handle.index) {
            Some(resource) => Ok(resource),
            None => Err(GraphError::InvalidHandle),
        }
    }

    pub fn access_resource_mut_by_handle(&mut self, handle: &ResourceHandle) -> (r: Result<&mut Resource, GraphError>)
        ensures
            final(self).wf() == old(self).wf(),
            final(self).nodes() == old(self).nodes(),
            final(self).resource_names() == old(self).resource_names(),
            final(self).node_names() == old(self).node_names(),
            handle.index < old(self).resources().len() ==> {
                &&& r is Ok
                &&& *r->Ok_0 == old(self).resources()[handle.index as int]
                &&& final(self).resources() == old(self).resources().update(handle.index as int, *final(r->Ok_0))
            },
            handle.index >= old(self).resources().len() ==> {
                &&& r == Err::<&mut Resource, GraphError>(GraphError::InvalidHandle)
                &&& final(self).resources() == old(self).resources()
            },
    {
        match self.resources.get_mut(handle.index) {
            Some(resource) => Ok(resource),
            None => Err(GraphError::InvalidHandle),
        }
    }

    pub fn access_resource_by_name(&self, name: &str) -> (r: Result<&Resource, GraphError>)
        ensures
            !self.resource_names().contains_key(name@) ==> r == Err::<&Resource, GraphError>(GraphError::UnknownName),
            self.resource_names().contains_key(name@) ==> {
                let index = self.resource_names()[name@];
                &&& index < self.resources().len() ==> r == Ok::<&Resource, GraphError>(&self.resources()[index as int])
                &&& index >= self.resources().len() ==> r == Err::<&Resource, GraphError>(GraphError::InvalidHandle)
            },
            self.names_track() ==> {
                &&& r is Ok <==> exists|i: int| is_named_output(self.resources(), i) && self.resources()[i]@.name == name@
                &&& r matches Ok(found) ==> exists|i: int|
                    last_output_named(self.resources(), name@, i) && *found == self.resources()[i]
            },
    {
        proof {
            if self.names_track() && self.resource_names().contains_key(name@) {
                assert(last_output_named(self.resources(), name@, self.resource_names()[name@] as int));
            }
        }
        match self.resource_map.get(name) {
            Some(index) => self.access_resource_by_handle(&ResourceHandle::new(index)),
            None => Err(GraphError::UnknownName),
        }
    }

    pub fn access_resource_mut_by_name(&mut self, name: &str) -> (r: Result<&mut Resource, GraphError>)
        ensures
            final(self).wf() == old(self).wf(),
            final(self).nodes() == old(self).nodes(),
            final(self).resource_names() == old(self).resource_names(),
            final(self).node_names() == old(self).node_names(),
            !old(self).resource_names().contains_key(name@) ==> {
                &&& r == Err::<&mut Resource, GraphError>(GraphError::UnknownName)
                &&& final(self).resources() == old(self).resources()
            },
            old(self).resource_names().contains_key(name@) ==> {
                let index = old(self).resource_names()[name@];
                &&& index < old(self).resources().len() ==> {
                    &&& r is Ok
                    &&& *r->Ok_0 == old(self).resources()[index as int]
                    &&& final(self).resources() == old(self).resources().update(index as int, *final(r->Ok_0))
                }
                &&& index >= old(self).resources().len() ==> {
                    &&& r == Err::<&mut Resource, GraphError>(GraphError::InvalidHandle)
                    &&& final(self).resources() == old(self).resources()
                }
            },
    {
        match self.resource_map.get(name) {
            Some(index) => self.access_resource_mut_by_handle(&ResourceHandle::new(index)),
            None => Err(GraphError::UnknownName),
        }
    }

    pub fn access_node_by_handle(&self, handle: &NodeHandle) -> (r: Result<&Node, GraphError>)
        ensures
            handle.index < self.nodes().len() ==> r == Ok::<&Node, GraphError>(&self.nodes()[handle.index as int]),
            handle.index >= self.nodes().len() ==> r == Err::<&Node, GraphError>(GraphError::InvalidHandle),
    {
        match self.nodes.get(handle.index) {
            Some(node) => Ok(node),
            None => Err(GraphError::InvalidHandle),
        }
    }

    pub fn access_node_mut_by_handle(&mut self, handle: &NodeHandle) -> (r: Result<&mut Node, GraphError>)
        ensures
            final(self).wf() == old(self).wf(),
            final(self).resources() == old(self).resources(),
            final(self).resource_names() == old(self).resource_names(),
            final(self).node_names() == old(self).node_names(),
            handle.index < old(self).nodes().len() ==> {
                &&& r is Ok
                &&& *r->Ok_0 == old(self).nodes()[handle.index as int]
                &&& final(self).nodes() == old(self).nodes().update(handle.index as int, *final(r->Ok_0))
            },
            handle.index >= old(self).nodes().len() ==> {
                &&& r == Err::<&mut Node, GraphError>(GraphError::InvalidHandle)
                &&& final(self).nodes() == old(self).nodes()
            },
    {
        match self.nodes.get_mut(handle.index) {
            Some(node) => Ok(node),
            None => Err(GraphError::InvalidHandle),
        }
    }

    pub fn access_node_by_name(&self, name: &str) -> (r: Result<&Node, GraphError>)
        ensures
            !self.node_names().contains_key(name@) ==> r == Err::<&Node, GraphError>(GraphError::UnknownName),
            self.node_names().contains_key(name@) ==> {
                let index = self.node_names()[name@];
                &&& index < self.nodes().len() ==> r == Ok::<&Node, GraphError>(&self.nodes()[index as int])
                &&& index >= self.nodes().len() ==> r == Err::<&Node, GraphError>(GraphError::InvalidHandle)
            },
    {
        match self.node_map.get(name) {
            Some(index) => self.access_node_by_handle(&NodeHandle::new(index)),
            None => Err(GraphError::UnknownName),
        }
    }

    pub fn access_node_mut_by_name(&mut self, name: &str) -> (r: Result<&mut Node, GraphError>)
        ensures
            final(self).wf() == old(self).wf(),
            final(self).resources() == old(self).resources(),
            final(self).resource_names() == old(self).resource_names(),
            final(self).node_names() == old(self).node_names(),
            !old(self).node_names().contains_key(name@) ==> {
                &&& r == Err::<&mut Node, GraphError>(GraphError::UnknownName)
                &&& final(self).nodes() == old(self).nodes()
            },
            old(self).node_names().contains_key(name@) ==> {
                let index = old(self).node_names()[name@];
                &&& index < old(self).nodes().len() ==> {
                    &&& r is Ok
                    &&& *r->Ok_0 == old(self).nodes()[index as int]
                    &&& final(self).nodes() == old(self).nodes().update(index as int, *final(r->Ok_0))
                }
                &&& index >= old(self).nodes().len() ==> {
                    &&& r == Err::<&mut Node, GraphError>(GraphError::InvalidHandle)
                    &&& final(self).nodes() == old(self).nodes()
                }
            },
    {
        match self.node_map.get(name) {
            Some(index) => self.access_node_mut_by_handle(&NodeHandle::new(index)),
            None => Err(GraphError::UnknownName),
        }
    }
}

/// The handles `start`, `start + 1`, ..., `start + n - 1`.
pub open spec fn handle_range(start: int, n: int) -> Seq<ResourceHandle> {
    Seq::new(n as nat, |i: int| ResourceHandle { index: (start + i) as usize })
}

/// The node that `create_node` adds for `desc`, when the resource pool held
/// `num_resources` resources before.
pub open spec fn created_node(desc: NodeDescView, num_resources: int) -> NodeView {
    NodeView {
        name: desc.name,
        enabled: desc.enabled,
        outputs: handle_range(num_resources, desc.outputs.len() as int),
        inputs: handle_range(num_resources + desc.outputs.len(), desc.inputs.len() as int),
        ..Node::spec_default()
    }
}

/// The resources after `create_node`: the earlier ones, then one per output,
/// then one per input.
pub open spec fn created_resources(
    before: Seq<Resource>,
    after: Seq<Resource>,
    desc: NodeDescView,
    node: NodeHandle,
) -> bool {
    let r0 = before.len() as int;
    let r1 = r0 + desc.outputs.len();
    &&& after.len() == r1 + desc.inputs.len()
    &&& after.take(r0) == before
    &&& forall|j: int| 0 <= j < desc.outputs.len() ==> #[trigger] after[r0 + j]@ == output_resource(
        desc.outputs[j].resource_type,
        desc.outputs[j].name,
        desc.outputs[j].info,
        ResourceHandle { index: (r0 + j) as usize },
        node,
    )
    &&& forall|j: int| 0 <= j < desc.inputs.len() ==> #[trigger] after[r1 + j]@ == input_resource(
        desc.inputs[j].resource_type,
        desc.inputs[j].name,
    )
}

/// The output names after registering `outputs`, the first at slot `start`:
/// each output that is not a reference binds its name to its slot.
pub open spec fn names_after_outputs(
    names: Map<Seq<char>, usize>,
    outputs: Seq<OutputDescView>,
    start: int,
) -> Map<Seq<char>, usize>
    decreases outputs.len(),
{
    if outputs.len() == 0 {
        names
    } else {
        let before = names_after_outputs(names, outputs.drop_last(), start);
        let last = outputs.last();
        if last.resource_type == ResourceType::Reference {
            before
        } else {
            before.insert(last.name, (start + outputs.len() - 1) as usize)
        }
    }
}

/// Resource `i` is an output that is registered by name: it is no
/// reference and it is its own output. An input refers to no output, or,
/// once linked, to the output it reads.
pub open spec fn is_named_output(resources: Seq<Resource>, i: int) -> bool {
    &&& 0 <= i < resources.len()
    &&& resources[i]@.resource_type != ResourceType::Reference
    &&& resources[i]@.output.index == i
}

/// Resource `i` is the last output registered under `name`.
pub open spec fn last_output_named(resources: Seq<Resource>, name: Seq<char>, i: int) -> bool {
    &&& is_named_output(resources, i)
    &&& resources[i]@.name == name
    &&& forall|j: int| i < j < resources.len() && #[trigger] is_named_output(resources, j) ==> resources[j]@.name != name
}

/// The names bound are exactly those of the registered outputs, each to
/// the last output registered under it.
pub open spec fn names_track_outputs(resources: Seq<Resource>, names: Map<Seq<char>, usize>) -> bool {
    &&& forall|name: Seq<char>|
        #[trigger] names.contains_key(name) <==> exists|i: int| is_named_output(resources, i) && resources[i]@.name == name
    &&& forall|name: Seq<char>| #[trigger] names.contains_key(name) ==> last_output_named(resources, name, names[name] as int)
}

proof fn lemma_names_after_push(
    res: Seq<Resource>,
    names: Map<Seq<char>, usize>,
    r: Resource,
    new_names: Map<Seq<char>, usize>,
)
    requires
        names_track_outputs(res, names),
        res.len() < usize::MAX,
        is_named_output(res.push(r), res.len() as int) ==> new_names == names.insert(r@.name, res.len() as usize),
        !is_named_output(res.push(r), res.len() as int) ==> new_names == names,
    ensures
        names_track_outputs(res.push(r), new_names),
{
    let res2 = res.push(r);
    let n = res.len() as int;
    assert forall|i: int| 0 <= i < n implies #[trigger] is_named_output(res2, i) == is_named_output(res, i) by {
        assert(res2[i] == res[i]);
    }
    assert forall|name: Seq<char>|
        #[trigger] new_names.contains_key(name) <==> exists|i: int| is_named_output(res2, i) && res2[i]@.name == name by {
        if exists|i: int| is_named_output(res2, i) && res2[i]@.name == name {
            let i = choose|i: int| is_named_output(res2, i) && res2[i]@.name == name;
            if i < n {
                assert(is_named_output(res, i) && res[i]@.name == name);
            }
        }
        if names.contains_key(name) {
            let i = choose|i: int| is_named_output(res, i) && res[i]@.name == name;
            assert(is_named_output(res2, i) && res2[i]@.name == name);
        }
        if is_named_output(res2, n) && name == r@.name {
            assert(res2[n] == r);
        }
    }
    assert forall|name: Seq<char>| #[trigger] new_names.contains_key(name) implies last_output_named(
        res2,
        name,
        new_names[name] as int,
    ) by {
        if is_named_output(res2, n) && name == r@.name {
            assert(res2[n] == r);
        } else {
            let i = names[name] as int;
            assert(last_output_named(res, name, i));
            assert(res2[i] == res[i]);
            assert forall|j: int| i < j < res2.len() && #[trigger] is_named_output(res2, j) implies res2[j]@.name != name by {
                if j < n {
                    assert(is_named_output(res, j));
                    assert(res2[j] == res[j]);
                } else {
                    assert(res2[n] == r);
                }
            }
        }
    }
}

/// After `create_node` on a builder that keeps its names, each output of
/// the new node that is no reference, and whose name no later output of
/// the node that is no reference takes, is what a lookup of its name finds.
pub proof fn lemma_created_output_found(after: Builder, before_resources: Seq<Resource>, desc: NodeDescView, node: NodeHandle, j: int)
    requires
        after.names_track(),
        created_resources(before_resources, after.resources(), desc, node),
        after.resources().len() <= usize::MAX,
        0 <= j < desc.outputs.len(),
        desc.outputs[j].resource_type != ResourceType::Reference,
        forall|m: int|
            j < m < desc.outputs.len() && (#[trigger] desc.outputs[m]).resource_type != ResourceType::Reference
                ==> desc.outputs[m].name != desc.outputs[j].name,
    ensures
        after.resource_names().contains_key(desc.outputs[j].name),
        after.resource_names()[desc.outputs[j].name] == before_resources.len() + j,
{
    let res = after.resources();
    let r0 = before_resources.len() as int;
    let r1 = r0 + desc.outputs.len();
    let name = desc.outputs[j].name;
    let i0 = r0 + j;
    assert(res[r0 + j]@ == output_resource(
        desc.outputs[j].resource_type,
        desc.outputs[j].name,
        desc.outputs[j].info,
        ResourceHandle { index: (r0 + j) as usize },
        node,
    ));
    assert(is_named_output(res, i0) && res[i0]@.name == name);
    assert(after.resource_names().contains_key(name));
    let x = after.resource_names()[name] as int;
    assert(last_output_named(res, name, x));
    if x < i0 {
        assert(is_named_output(res, i0));
    } else if x > i0 {
        if x < r1 {
            let m = x - r0;
            assert(res[r0 + m]@ == output_resource(
                desc.outputs[m].resource_type,
                desc.outputs[m].name,
                desc.outputs[m].info,
                ResourceHandle { index: (r0 + m) as usize },
                node,
            ));
            if desc.outputs[m].resource_type != ResourceType::Reference {
                assert(desc.outputs[m].name != name);
            }
        } else {
            let m = x - r1;
            assert(res[r1 + m]@ == input_resource(desc.inputs[m].resource_type, desc.inputs[m].name));
        }
    }
}

} // verus!
