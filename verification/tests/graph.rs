use nodes::graph::{Endpoint, LinkAction, NodeGraph, NodeInstanceId};
use nodes::template::PortDirection;

/// Ports named `out` are outputs; all others are inputs.
fn endpoint(node: u64, port: &str) -> Endpoint {
    let direction = if port == "out" { PortDirection::Output } else { PortDirection::Input };
    Endpoint { node_id: NodeInstanceId(node), port_id: port.to_string(), direction }
}

fn graph_with_nodes(n: usize) -> NodeGraph<&'static str, (i32, i32)> {
    let mut graph = NodeGraph::new();
    for _ in 0..n {
        graph.add_node("node");
    }
    graph
}

fn link_ends(graph: &NodeGraph<&'static str, (i32, i32)>) -> Vec<(u64, String, u64, String)> {
    graph
        .links()
        .iter()
        .map(|l| (l.from.node_id.0, l.from.port_id.clone(), l.to.node_id.0, l.to.port_id.clone()))
        .collect()
}

#[test]
fn hands_out_fresh_ids_in_order() {
    let mut graph: NodeGraph<u8, ()> = NodeGraph::new();
    assert_eq!(graph.node_count(), 0);
    assert_eq!(graph.add_node(7), NodeInstanceId(0));
    assert_eq!(graph.add_node(9), NodeInstanceId(1));
    assert_eq!(graph.node_count(), 2);
    assert_eq!(graph.link_count(), 0);
    assert_eq!(graph.find_node(NodeInstanceId(1)), Some(1));
    assert_eq!(graph.find_node(NodeInstanceId(2)), None);
    graph.set_payload(0, 8);
    assert_eq!(graph.nodes()[0].payload, 8);
    assert_eq!(graph.nodes()[0].id, NodeInstanceId(0));
}

#[test]
fn refuses_a_link_within_one_node() {
    let mut graph = graph_with_nodes(1);
    graph.try_connect(endpoint(0, "out"), endpoint(0, "in"));
    assert_eq!(graph.link_count(), 0);
}

#[test]
fn a_new_link_replaces_the_links_into_its_input() {
    let mut graph = graph_with_nodes(3);
    graph.try_connect(endpoint(0, "out"), endpoint(1, "in"));
    graph.try_connect(endpoint(0, "out"), endpoint(2, "in"));
    graph.try_connect(endpoint(2, "out"), endpoint(1, "in"));
    assert_eq!(
        link_ends(&graph),
        vec![
            (0, "out".to_string(), 2, "in".to_string()),
            (2, "out".to_string(), 1, "in".to_string()),
        ]
    );
    // Connecting the same pair again keeps one link, now last.
    graph.try_connect(endpoint(0, "out"), endpoint(2, "in"));
    assert_eq!(graph.link_count(), 2);
    assert_eq!(link_ends(&graph)[1], (0, "out".to_string(), 2, "in".to_string()));
}

#[test]
fn edits_waypoints_and_cuts_links() {
    let mut graph = graph_with_nodes(2);
    graph.try_connect(endpoint(0, "out"), endpoint(1, "in"));
    graph.apply_link_action(LinkAction::AddWaypoint { link_index: 0, segment_index: 5, position: (1, 1) });
    graph.apply_link_action(LinkAction::AddWaypoint { link_index: 0, segment_index: 0, position: (0, 0) });
    graph.apply_link_action(LinkAction::AddWaypoint { link_index: 0, segment_index: 1, position: (2, 2) });
    assert_eq!(graph.links()[0].waypoints, vec![(0, 0), (2, 2), (1, 1)]);
    graph.apply_link_action(LinkAction::RemoveWaypoint { link_index: 0, waypoint_index: 1 });
    assert_eq!(graph.links()[0].waypoints, vec![(0, 0), (1, 1)]);
    graph.apply_link_action(LinkAction::RemoveWaypoint { link_index: 0, waypoint_index: 2 });
    graph.apply_link_action(LinkAction::AddWaypoint { link_index: 3, segment_index: 0, position: (9, 9) });
    assert_eq!(graph.links()[0].waypoints, vec![(0, 0), (1, 1)]);
    graph.set_waypoint(0, 1, (5, 5));
    assert_eq!(graph.links()[0].waypoints, vec![(0, 0), (5, 5)]);
    graph.apply_link_action(LinkAction::Cut { link_index: 1 });
    assert_eq!(graph.link_count(), 1);
    graph.apply_link_action(LinkAction::Cut { link_index: 0 });
    assert_eq!(graph.link_count(), 0);
}

#[test]
fn a_released_drag_connects_only_over_an_input() {
    let mut graph = graph_with_nodes(2);
    graph.release_pointer(Some(endpoint(1, "in")));
    assert_eq!(graph.link_count(), 0);

    graph.start_link(endpoint(0, "out"));
    assert_eq!(graph.pending_link().map(|e| e.port_id.clone()), Some("out".to_string()));
    graph.release_pointer(None);
    assert!(graph.pending_link().is_none());
    assert_eq!(graph.link_count(), 0);

    graph.start_link(endpoint(0, "out"));
    graph.release_pointer(Some(endpoint(1, "in")));
    assert!(graph.pending_link().is_none());
    assert_eq!(link_ends(&graph), vec![(0, "out".to_string(), 1, "in".to_string())]);
}

#[test]
fn links_run_only_from_an_output_to_an_input() {
    let mut graph = graph_with_nodes(2);
    graph.try_connect(endpoint(1, "in"), endpoint(0, "out"));
    graph.try_connect(endpoint(0, "in"), endpoint(1, "in"));
    assert_eq!(graph.link_count(), 0);
    graph.start_link(endpoint(1, "in"));
    graph.release_pointer(Some(endpoint(0, "in")));
    assert_eq!(graph.link_count(), 0);
    graph.try_connect(endpoint(0, "out"), endpoint(1, "in"));
    assert_eq!(graph.link_count(), 1);
}
