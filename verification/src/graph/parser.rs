use vstd::prelude::*;

use crate::gpu::types::{
    format_has_depth, is_depth_format, RenderPassOperation, IMAGE_USAGE_COLOR_ATTACHMENT,
    IMAGE_USAGE_DEPTH_STENCIL_ATTACHMENT,
};
use crate::graph::builder::{
    created_node, handle_range, input_resource, names_after_outputs, output_resource, Builder,
};
use crate::graph::graph;
use crate::graph::types::{
    GraphError, ImageInfo, InputDesc, InputDescView, NodeDesc, NodeDescView, NodeHandle, OutputDesc,
    OutputDescView, Resource, ResourceHandle, ResourceInfo, ResourceType,
};

verus! {

/// An input of a pass, as the graph description lists it.
pub struct Input {
    pub resource_type: ResourceType,
    pub name: String,
}

/// The image of an output, as the graph description lists it: a raw Vulkan
/// format, the resolution, and the load operation.
#[derive(Clone, Copy, Debug)]
pub struct ImageDesc {
    pub format: i32,
    pub resolution: [u32; 2],
    pub load_op: RenderPassOperation,
}

/// An output of a pass, as the graph description lists it.
pub struct Output {
    pub resource_type: ResourceType,
    pub name: String,
    pub image: Option<ImageDesc>,
}

/// A pass of the graph description.
pub struct Pass {
    pub name: String,
    pub inputs: Vec<Input>,
    pub outputs: Vec<Output>,
}

/// A render graph description: its name and its passes.
pub struct Graph {
    pub name: String,
    pub passes: Vec<Pass>,
}

/// The image information that an image description gives: a depth format
/// makes a depth/stencil attachment, any other a colour attachment.
pub open spec fn image_info_of(desc: ImageDesc) -> ImageInfo {
    ImageInfo {
        image: None,
        width: desc.resolution@[0],
        height: desc.resolution@[1],
        depth: 1,
        format: desc.format,
        usage_flags: if is_depth_format(desc.format) {
            IMAGE_USAGE_DEPTH_STENCIL_ATTACHMENT
        } else {
            IMAGE_USAGE_COLOR_ATTACHMENT
        },
        load_op: desc.load_op,
    }
}

pub open spec fn resource_info_of(desc: ImageDesc) -> ResourceInfo {
    ResourceInfo { buffer: None, image: Some(image_info_of(desc)), external: false }
}

pub open spec fn input_view(input: Input) -> InputDescView {
    InputDescView { resource_type: input.resource_type, name: input.name@ }
}

/// The output description of an output: its image, if any, as resource
/// information.
pub open spec fn output_view(output: Output) -> OutputDescView {
    OutputDescView {
        resource_type: output.resource_type,
        name: output.name@,
        info: match output.image {
            Some(image) => resource_info_of(image),
            None => ResourceInfo::spec_default(),
        },
    }
}

/// The node description of a pass: enabled, with the pass's name, inputs and
/// outputs.
pub open spec fn pass_view(pass: Pass) -> NodeDescView {
    NodeDescView {
        inputs: pass.inputs@.map_values(|i: Input| input_view(i)),
        outputs: pass.outputs@.map_values(|o: Output| output_view(o)),
        enabled: true,
        name: pass.name@,
    }
}

impl Input {
    pub fn into_input_desc(self) -> (d: InputDesc)
        ensures
            d@ == input_view(self),
    {
        InputDesc { resource_type: self.resource_type, name: self.name }
    }
}

impl ImageDesc {
    pub fn into_image_info(self) -> (info: ImageInfo)
        ensures
            info == image_info_of(self),
    {
        let usage_flags = if format_has_depth(self.format) {
            IMAGE_USAGE_DEPTH_STENCIL_ATTACHMENT
        } else {
            IMAGE_USAGE_COLOR_ATTACHMENT
        };
        ImageInfo {
            image: None,
            width: self.resolution[0],
            height: self.resolution[1],
            depth: 1,
            format: self.format,
            usage_flags,
            load_op: self.load_op,
        }
    }

    pub fn into_resource_info(self) -> (info: ResourceInfo)
        ensures
            info == resource_info_of(self),
    {
        ResourceInfo { buffer: None, image: Some(self.into_image_info()), external: false }
    }
}

impl Output {
    pub fn into_output_desc(self) -> (d: OutputDesc)
        ensures
            d@ == output_view(self),
    {
        let info = match self.image {
            Some(image) => image.into_resource_info(),
            None => ResourceInfo::default(),
        };
        OutputDesc { resource_type: self.resource_type, name: self.name, info }
    }
}

impl Pass {
    pub fn into_node_desc(self) -> (d: NodeDesc)
        ensures
            d@ == pass_view(self),
    {
        let ghost pv = pass_view(self);
        let Pass { name, inputs, outputs } = self;
        let mut input_descs: Vec<InputDesc> = Vec::new();
        assert(input_descs@.map_values(|d: InputDesc| d@) =~= pv.inputs.take(0));
        for input in it: inputs
            invariant
                it.seq().map_values(|i: Input| input_view(i)) == pv.inputs,
                input_descs@.map_values(|d: InputDesc| d@) == pv.inputs.take(it.index()),
        {
            let ghost k = it.index();
            proof {
                assert(input_view(input) == pv.inputs[k]);
                assert(it.seq().map_values(|i: Input| input_view(i)).len() == it.seq().len());
            }
            let ghost prev = input_descs@;
            let d = input.into_input_desc();
            let ghost dv = d@;
            input_descs.push(d);
            proof {
                assert(input_descs@ == prev.push(d));
                let ghost mapped = input_descs@.map_values(|d: InputDesc| d@);
                let ghost pmapped = prev.map_values(|d: InputDesc| d@);
                assert(pmapped.len() == prev.len());
                assert(k < pv.inputs.len());
                assert(pv.inputs.take(k).len() == k);
                assert(prev.len() == k);
                assert forall|j: int| 0 <= j < k + 1 implies #[trigger] mapped[j] == pv.inputs.take(k + 1)[j] by {
                    if j < k {
                        assert(input_descs@[j] == prev[j]);
                        assert(pmapped[j] == pv.inputs.take(k)[j]);
                    }
                }
                assert(mapped =~= pv.inputs.take(k + 1));
                assert(input_descs@.map_values(|d: InputDesc| d@) =~= pv.inputs.take(k + 1));
            }
        }
        let mut output_descs: Vec<OutputDesc> = Vec::new();
        assert(output_descs@.map_values(|d: OutputDesc| d@) =~= pv.outputs.take(0));
        for output in it: outputs
            invariant
                it.seq().map_values(|o: Output| output_view(o)) == pv.outputs,
                output_descs@.map_values(|d: OutputDesc| d@) == pv.outputs.take(it.index()),
        {
            let ghost k = it.index();
            proof {
                assert(output_view(output) == pv.outputs[k]);
                assert(it.seq().map_values(|o: Output| output_view(o)).len() == it.seq().len());
            }
            let ghost prev = output_descs@;
            let d = output.into_output_desc();
            output_descs.push(d);
            proof {
                assert(output_descs@ == prev.push(d));
                let ghost mapped = output_descs@.map_values(|d: OutputDesc| d@);
                let ghost pmapped = prev.map_values(|d: OutputDesc| d@);
                assert(pmapped.len() == prev.len());
                assert(k < pv.outputs.len());
                assert(pv.outputs.take(k).len() == k);
                assert(prev.len() == k);
                assert forall|j: int| 0 <= j < k + 1 implies #[trigger] mapped[j] == pv.outputs.take(k + 1)[j] by {
                    if j < k {
                        assert(output_descs@[j] == prev[j]);
                        assert(pmapped[j] == pv.outputs.take(k)[j]);
                    }
                }
                assert(mapped =~= pv.outputs.take(k + 1));
                assert(output_descs@.map_values(|d: OutputDesc| d@) =~= pv.outputs.take(k + 1));
            }
        }
        let d = NodeDesc { inputs: input_descs, outputs: output_descs, enabled: true, name };
        proof {
            assert(pv.inputs.take(pv.inputs.len() as int) =~= pv.inputs);
            assert(pv.outputs.take(pv.outputs.len() as int) =~= pv.outputs);
            assert(d@ =~= pv);
        }
        d
    }
}

/// The node descriptions of a list of passes.
pub open spec fn passes_view(passes: Seq<Pass>) -> Seq<NodeDescView> {
    passes.map_values(|p: Pass| pass_view(p))
}

/// Number of resources that the first `k` descriptions create.
pub open spec fn resource_offset(descs: Seq<NodeDescView>, k: int) -> int
    decreases k,
{
    if k <= 0 {
        0
    } else {
        resource_offset(descs, k - 1) + descs[k - 1].outputs.len() + descs[k - 1].inputs.len()
    }
}

/// The output names that the first `k` descriptions register.
pub open spec fn built_resource_names(descs: Seq<NodeDescView>, k: int) -> Map<Seq<char>, usize>
    decreases k,
{
    if k <= 0 {
        Map::empty()
    } else {
        names_after_outputs(
            built_resource_names(descs, k - 1),
            descs[k - 1].outputs,
            resource_offset(descs, k - 1),
        )
    }
}

/// The node names that the first `k` descriptions register.
pub open spec fn built_node_names(descs: Seq<NodeDescView>, k: int) -> Map<Seq<char>, usize>
    decreases k,
{
    if k <= 0 {
        Map::empty()
    } else {
        built_node_names(descs, k - 1).insert(descs[k - 1].name, (k - 1) as usize)
    }
}

/// The resources that node `node` created from `desc` stand from `start` on:
/// one per output, then one per input.
pub open spec fn block_ok(res: Seq<Resource>, desc: NodeDescView, start: int, node: usize) -> bool {
    &&& forall|m: int|
        0 <= m < desc.outputs.len() ==> #[trigger] res[start + m]@ == output_resource(
            desc.outputs[m].resource_type,
            desc.outputs[m].name,
            desc.outputs[m].info,
            ResourceHandle { index: (start + m) as usize },
            NodeHandle { index: node },
        )
    &&& forall|m: int|
        0 <= m < desc.inputs.len() ==> #[trigger] res[start + desc.outputs.len() + m]@ == input_resource(
            desc.inputs[m].resource_type,
            desc.inputs[m].name,
        )
}

/// `b` holds what creating the first `k` descriptions, in order, makes.
pub open spec fn is_built(b: Builder, descs: Seq<NodeDescView>, k: int) -> bool {
    &&& b.wf()
    &&& b.nodes().len() == k
    &&& b.resources().len() == resource_offset(descs, k)
    &&& forall|j: int| 0 <= j < k ==> #[trigger] b.nodes()[j]@ == created_node(descs[j], resource_offset(descs, j))
    &&& forall|j: int| 0 <= j < k ==> #[trigger] block_ok(b.resources(), descs[j], resource_offset(descs, j), j as usize)
    &&& b.resource_names() == built_resource_names(descs, k)
    &&& b.node_names() == built_node_names(descs, k)
}

proof fn lemma_offset_mono(descs: Seq<NodeDescView>, j: int, k: int)
    requires
        0 <= j <= k,
    ensures
        resource_offset(descs, j) <= resource_offset(descs, k),
    decreases k - j,
{
    if j < k {
        lemma_offset_mono(descs, j, k - 1);
    }
}

/// Builds the render graph of a description: one node per pass, in order.
pub fn parse(graph: Graph) -> (r: Result<graph::Graph, GraphError>)
    ensures
        r matches Ok(g) && is_built(g.builder, passes_view(graph.passes@), graph.passes@.len() as int)
            && g.nodes@ == handle_range(0, graph.passes@.len() as int) && g.builder.names_track(),
{
    let ghost descs = passes_view(graph.passes@);
    let Graph { name: _, passes } = graph;
    let mut builder = Builder::new();
    let mut nodes: Vec<NodeHandle> = Vec::new();
    proof {
        assert(handle_range(0, 0) =~= Seq::<NodeHandle>::empty());
        assert(builder.resource_names() =~= built_resource_names(descs, 0));
        assert(builder.node_names() =~= built_node_names(descs, 0));
    }
    for pass in it: passes
        invariant
            it.seq().map_values(|p: Pass| pass_view(p)) == descs,
            is_built(builder, descs, it.index()),
            builder.names_track(),
            nodes@ == handle_range(0, it.index()),
    {
        let ghost k = it.index();
        let ghost before = builder;
        proof {
            assert(it.seq().map_values(|p: Pass| pass_view(p)).len() == it.seq().len());
            assert(pass_view(pass) == descs[k]);
        }
        let handle = builder.create_node(pass.into_node_desc());
        nodes.push(handle);
        proof {
            let res = builder.resources();
            let r0 = resource_offset(descs, k);
            assert(resource_offset(descs, k + 1) == r0 + descs[k].outputs.len() + descs[k].inputs.len());
            assert forall|j: int| 0 <= j < k + 1 implies #[trigger] builder.nodes()[j]@ == created_node(
                descs[j],
                resource_offset(descs, j),
            ) by {
                if j < k {
                    assert(builder.nodes()[j] == before.nodes()[j]);
                }
            }
            assert forall|j: int| 0 <= j < k + 1 implies #[trigger] block_ok(
                res,
                descs[j],
                resource_offset(descs, j),
                j as usize,
            ) by {
                if j < k {
                    let start = resource_offset(descs, j);
                    lemma_offset_mono(descs, j + 1, k);
                    lemma_offset_mono(descs, 0, j);
                    assert(resource_offset(descs, j + 1) == start + descs[j].outputs.len() + descs[j].inputs.len());
                    assert(r0 <= res.len());
                    assert(res.take(r0) == before.resources());
                    assert(block_ok(before.resources(), descs[j], start, j as usize));
                    assert forall|m: int| 0 <= m < descs[j].outputs.len() implies #[trigger] res[start + m]
                        == before.resources()[start + m] by {
                        assert(res.take(r0)[start + m] == res[start + m]);
                    }
                    assert forall|m: int| 0 <= m < descs[j].inputs.len() implies #[trigger] res[start
                        + descs[j].outputs.len() + m] == before.resources()[start + descs[j].outputs.len() + m] by {
                        assert(res.take(r0)[start + descs[j].outputs.len() + m] == res[start + descs[j].outputs.len() + m]);
                    }
                }
            }
            assert(handle_range(0, k + 1) =~= handle_range(0, k).push(handle));
        }
    }
    Ok(builder.build(nodes))
}

} // verus!
