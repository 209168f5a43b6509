use rikka::gpu::types::RenderPassOperation;
use rikka::graph::name_map::NameMap;
use rikka::graph::parser;
use rikka::graph::pool::ResourcePool;
use rikka::graph::topology::depth_first_post_order;
use rikka::graph::types::GraphError;
use rikka::graph::types::ResourceHandle;
use rikka::graph::types::ResourceType;

fn gbuffer_graph() -> parser::Graph {
    let input = parser::Input {
        resource_type: ResourceType::Attachment,
        name: String::from("gbuffer_colour"),
    };
    let image = parser::ImageDesc {
        format: 32,
        resolution: [1280, 800],
        load_op: RenderPassOperation::Load,
    };
    let output = parser::Output {
        resource_type: ResourceType::Attachment,
        name: String::from("gbuffer_colour"),
        image: Some(image),
    };
    let main_pass = parser::Pass {
        name: String::from("gbuffer_pass"),
        inputs: vec![input],
        outputs: vec![output],
    };
    parser::Graph {
        name: String::from("main_graph"),
        passes: vec![main_pass],
    }
}

fn two_pass_graph() -> parser::Graph {
    let gbuffer = parser::Pass {
        name: String::from("gbuffer_pass"),
        inputs: vec![],
        outputs: vec![parser::Output {
            resource_type: ResourceType::Attachment,
            name: String::from("gbuffer_colour"),
            image: Some(parser::ImageDesc {
                format: 44,
                resolution: [1280, 800],
                load_op: RenderPassOperation::Clear,
            }),
        }],
    };
    let lighting = parser::Pass {
        name: String::from("lighting_pass"),
        inputs: vec![parser::Input {
            resource_type: ResourceType::Texture,
            name: String::from("gbuffer_colour"),
        }],
        outputs: vec![parser::Output {
            resource_type: ResourceType::Attachment,
            name: String::from("final"),
            image: Some(parser::ImageDesc {
                format: 44,
                resolution: [640, 400],
                load_op: RenderPassOperation::DontCare,
            }),
        }],
    };
    // The consumer is listed first: compiling must still run the producer first.
    parser::Graph {
        name: String::from("deferred"),
        passes: vec![lighting, gbuffer],
    }
}

#[test]
fn test_parse() {
    let graph = gbuffer_graph();
    let parsed = parser::parse(graph).unwrap();
    assert_eq!(parsed.nodes.len(), 1);
    let node = parsed.access_node_by_name("gbuffer_pass").unwrap();
    assert_eq!(node.name, "gbuffer_pass");
    assert_eq!(node.inputs.len(), 1);
    assert_eq!(node.outputs.len(), 1);
    assert!(node.enabled);
    let output = parsed.builder.access_resource_by_handle(&node.outputs[0]).unwrap();
    assert_eq!(output.name, "gbuffer_colour");
    let image = output.info.image.unwrap();
    assert_eq!(image.format, 32);
    assert_eq!(image.width, 1280);
    assert_eq!(image.height, 800);
    assert_eq!(image.load_op, RenderPassOperation::Load);
}

#[test]
fn parse_makes_one_node_per_pass_in_order() {
    let parsed = parser::parse(two_pass_graph()).unwrap();
    assert_eq!(parsed.nodes.len(), 2);
    assert_eq!(parsed.nodes[0].index, 0);
    assert_eq!(parsed.nodes[1].index, 1);
    let first = parsed.builder.access_node_by_handle(&parsed.nodes[0]).unwrap();
    assert_eq!(first.name, "lighting_pass");
    let second = parsed.builder.access_node_by_handle(&parsed.nodes[1]).unwrap();
    assert_eq!(second.name, "gbuffer_pass");
}

#[test]
fn unknown_node_name_is_an_error() {
    let parsed = parser::parse(gbuffer_graph()).unwrap();
    assert_eq!(parsed.access_node_by_name("missing").err(), Some(GraphError::UnknownName));
}

#[test]
fn compile_runs_producer_before_consumer() {
    let mut graph = parser::parse(two_pass_graph()).unwrap();
    let requests = graph.compile().unwrap();
    assert_eq!(graph.nodes.len(), 2);
    let first = graph.builder.access_node_by_handle(&graph.nodes[0]).unwrap();
    let second = graph.builder.access_node_by_handle(&graph.nodes[1]).unwrap();
    assert_eq!(first.name, "gbuffer_pass");
    assert_eq!(second.name, "lighting_pass");
    assert_eq!(requests.len(), 2);
    assert_eq!(requests[0].width, 1280);
    assert_eq!(requests[0].height, 800);
    assert_eq!(requests[1].width, 640);
    assert_eq!(requests[1].height, 400);
    // The producer gets an edge to the node that reads its output.
    assert_eq!(first.edges.len(), 1);
    assert_eq!(second.edges.len(), 0);
}

#[test]
fn disabled_pass_is_left_out_of_the_order() {
    let mut graph = parser::parse(two_pass_graph()).unwrap();
    graph.disable_render_pass("lighting_pass").unwrap();
    let requests = graph.compile().unwrap();
    assert_eq!(requests.len(), 1);
    assert_eq!(requests[0].width, 1280);
    assert_eq!(graph.disable_render_pass("nope").err(), Some(GraphError::UnknownName));
}

#[test]
fn post_order_of_a_chain() {
    let graph = parser::parse(two_pass_graph()).unwrap();
    let mut graph = graph;
    graph.compile().unwrap();
    let roots = vec![ResourceHandle::new(1)];
    let order = depth_first_post_order(&graph.builder, &roots).unwrap();
    // Node 1 (gbuffer) reaches node 0 (lighting): the reached node comes first.
    assert_eq!(order, vec![ResourceHandle::new(0), ResourceHandle::new(1)]);
    let bad = vec![ResourceHandle::new(7)];
    assert_eq!(depth_first_post_order(&graph.builder, &bad).err(), Some(GraphError::InvalidHandle));
}

#[test]
fn handle_invalid_is_max() {
    let h = ResourceHandle::invalid();
    assert!(h.is_invalid());
    assert_eq!(h.index, usize::MAX);
    assert!(!ResourceHandle::new(3).is_invalid());
}

#[test]
fn pool_reuses_freed_slot() {
    let mut pool: ResourcePool<u32> = ResourcePool::new();
    assert_eq!(pool.new_index(), 0);
    assert_eq!(pool.new_index(), 1);
    pool.free_resource(0);
    assert_eq!(pool.num_free_slots(), 1);
    assert_eq!(pool.new_index(), 0);
    assert_eq!(pool.num_free_slots(), 0);
    assert_eq!(pool.len(), 2);
    assert_eq!(pool.new_index(), 2);
}

#[test]
fn pool_push_into_reused_slot_reads_back() {
    let mut pool: ResourcePool<u32> = ResourcePool::new();
    pool.new_index();
    pool.new_index();
    pool.free_resource(1);
    let index = pool.push(42);
    assert_eq!(index, 1);
    assert_eq!(pool.get(1), Some(&42));
    assert_eq!(pool.get(0), Some(&0));
}

#[test]
fn pool_push_appended_returns_new_length() {
    let mut pool: ResourcePool<u32> = ResourcePool::new();
    let index = pool.push(7);
    // An appended value sits at the last slot; the index handed back is the
    // length of the array.
    assert_eq!(index, 1);
    assert_eq!(pool.get(0), Some(&7));
    assert_eq!(pool.get(1), None);
}

#[test]
fn pool_get_new_gives_default_slot() {
    let mut pool: ResourcePool<u32> = ResourcePool::new();
    {
        let (slot, index) = pool.get_new();
        assert_eq!(index, 0);
        assert_eq!(*slot, 0);
        *slot = 9;
    }
    assert_eq!(pool.get(0), Some(&9));
    if let Some(v) = pool.get_mut(0) {
        *v = 10;
    }
    assert_eq!(pool.get(0), Some(&10));
    assert_eq!(pool.get(5), None);
}

#[test]
fn name_map_keeps_latest_binding() {
    let mut map = NameMap::new();
    assert_eq!(map.get("a"), None);
    map.insert(String::from("a"), 1);
    map.insert(String::from("b"), 2);
    map.insert(String::from("a"), 3);
    assert_eq!(map.get("a"), Some(3));
    assert_eq!(map.get("b"), Some(2));
    assert_eq!(map.get("c"), None);
}

#[test]
fn graph_error_messages() {
    assert_eq!(GraphError::UnknownName.message(), "Failed to retrieve node by name");
    assert_eq!(GraphError::InvalidHandle.message(), "Failed to access resource");
}
