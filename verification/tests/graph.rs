use hudagents::graph::{kahn_layers, GraphBuilder, HAGraphError, NodeId};

fn ids(indices: &[usize]) -> Vec<NodeId> {
    indices.iter().map(|&index| NodeId(index)).collect()
}

fn text_of(error: &HAGraphError) -> &str {
    match error {
        HAGraphError::CycleDetected(text)
        | HAGraphError::InvalidGraph(text)
        | HAGraphError::InvalidNodeId(text) => text,
    }
}

#[test]
fn layers_of_a_diamond() {
    let out = vec![ids(&[1, 2]), ids(&[3]), ids(&[3]), ids(&[])];
    let layers = kahn_layers(4, &out, &[0, 1, 1, 2]).unwrap();
    assert_eq!(layers, vec![ids(&[0]), ids(&[1, 2]), ids(&[3])]);
}

#[test]
fn layers_of_nothing_and_of_loose_nodes() {
    assert_eq!(kahn_layers(0, &[], &[]).unwrap(), Vec::<Vec<NodeId>>::new());
    let out = vec![ids(&[]), ids(&[]), ids(&[])];
    assert_eq!(kahn_layers(3, &out, &[0, 0, 0]).unwrap(), vec![ids(&[0, 1, 2])]);
}

#[test]
fn a_node_joins_the_layer_after_its_last_origin() {
    let out = vec![ids(&[2]), ids(&[0]), ids(&[]), ids(&[2, 1])];
    let layers = kahn_layers(4, &out, &[1, 1, 2, 0]).unwrap();
    assert_eq!(layers, vec![ids(&[3]), ids(&[1]), ids(&[0]), ids(&[2])]);
}

#[test]
fn tables_of_the_wrong_length_are_refused() {
    let error = kahn_layers(2, &[ids(&[])], &[0, 0]).unwrap_err();
    assert!(matches!(error, HAGraphError::InvalidGraph(_)));
    assert_eq!(text_of(&error), "length mismatch");
    let error = kahn_layers(1, &[ids(&[])], &[]).unwrap_err();
    assert_eq!(error.message(), "invalid graph: length mismatch");
}

#[test]
fn an_edge_to_nowhere_is_refused() {
    let out = vec![ids(&[1, 12]), ids(&[])];
    let error = kahn_layers(2, &out, &[0, 1]).unwrap_err();
    assert!(matches!(error, HAGraphError::InvalidGraph(_)));
    assert_eq!(text_of(&error), "edge points to missing node index 12");
}

#[test]
fn a_degree_too_small_for_the_edges_is_refused() {
    let out = vec![ids(&[1]), ids(&[])];
    let error = kahn_layers(2, &out, &[0, 0]).unwrap_err();
    assert!(matches!(error, HAGraphError::InvalidGraph(_)));
    assert_eq!(text_of(&error), "indegree underflow at node 1");
}

#[test]
fn a_cycle_is_detected_and_counted() {
    let out = vec![ids(&[1]), ids(&[2]), ids(&[1])];
    let error = kahn_layers(3, &out, &[0, 2, 1]).unwrap_err();
    assert!(matches!(error, HAGraphError::CycleDetected(_)));
    assert_eq!(text_of(&error), "processed 1 of 3 nodes");
    assert_eq!(error.message(), "cycle detected (not a DAG): processed 1 of 3 nodes");
    let out = vec![ids(&[0])];
    let error = kahn_layers(1, &out, &[1]).unwrap_err();
    assert_eq!(text_of(&error), "processed 0 of 1 nodes");
}

#[test]
fn a_builder_numbers_its_nodes_and_counts_degrees() {
    let mut builder: GraphBuilder<u8> = GraphBuilder::new();
    let a = builder.add_node("a".to_string(), 10);
    let b = builder.add_node("b".to_string(), 20);
    let c = builder.add_node("c".to_string(), 30);
    assert_eq!((a, b, c), (NodeId(0), NodeId(1), NodeId(2)));
    assert!(builder.add_edge(a, b).is_ok());
    assert!(builder.add_edge(a, c).is_ok());
    assert!(builder.add_edge(b, c).is_ok());
    assert_eq!(builder.out, vec![ids(&[1, 2]), ids(&[2]), ids(&[])]);
    assert_eq!(builder.indegree, vec![0, 1, 2]);
    let graph = builder.build().unwrap();
    assert_eq!(graph.layers, vec![ids(&[0]), ids(&[1]), ids(&[2])]);
    assert_eq!(graph.out, vec![ids(&[1, 2]), ids(&[2]), ids(&[])]);
    assert_eq!(graph.nodes.len(), 3);
    assert_eq!(graph.nodes[1].name, "b");
    assert_eq!(graph.nodes[2].worker, 30);
}

#[test]
fn a_builder_refuses_an_edge_between_missing_nodes() {
    let mut builder: GraphBuilder<()> = GraphBuilder::new();
    let only = builder.add_node("only".to_string(), ());
    let error = builder.add_edge(only, NodeId(4)).unwrap_err();
    assert!(matches!(error, HAGraphError::InvalidNodeId(_)));
    assert_eq!(text_of(&error), "Invalid edge: from=0 to=4 (node count=1)");
    assert_eq!(error.message(), "invalid node id: Invalid edge: from=0 to=4 (node count=1)");
    assert!(builder.add_edge(NodeId(7), only).is_err());
    assert_eq!(builder.out, vec![ids(&[])]);
    assert_eq!(builder.indegree, vec![0]);
}

#[test]
fn a_builder_finds_the_cycle_it_was_given() {
    let mut builder: GraphBuilder<()> = GraphBuilder::new();
    let a = builder.add_node("a".to_string(), ());
    let b = builder.add_node("b".to_string(), ());
    builder.add_edge(a, b).unwrap();
    builder.add_edge(b, a).unwrap();
    match builder.build() {
        Err(HAGraphError::CycleDetected(text)) => assert_eq!(text, "processed 0 of 2 nodes"),
        _ => panic!("the cycle was not found"),
    }
    let empty: GraphBuilder<()> = GraphBuilder::new();
    assert!(empty.build().unwrap().layers.is_empty());
}
