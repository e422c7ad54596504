use lightqos::routing::{dijkstra_shortest_path, route_links, NetworkLink, NetworkNode, NetworkTopology};

fn create_test_topology() -> (NetworkTopology, Vec<u128>) {
    let mut topology = NetworkTopology::new();

    let node_a = NetworkNode::new("A".to_string(), 100);
    let node_b = NetworkNode::new("B".to_string(), 100);
    let node_c = NetworkNode::new("C".to_string(), 100);
    let node_d = NetworkNode::new("D".to_string(), 100);

    let ids = vec![node_a.id, node_b.id, node_c.id, node_d.id];

    topology.add_node(node_a);
    topology.add_node(node_b);
    topology.add_node(node_c);
    topology.add_node(node_d);

    topology.add_link(NetworkLink::new(ids[0], ids[1]));
    topology.add_link(NetworkLink::new(ids[1], ids[2]));
    topology.add_link(NetworkLink::new(ids[2], ids[3]));

    (topology, ids)
}

#[test]
fn test_topology_creation() {
    let (topology, _) = create_test_topology();
    assert_eq!(topology.nodes.len(), 4);
    assert_eq!(topology.links.len(), 3);
}

#[test]
fn line_route_has_three_hops() {
    let (topology, ids) = create_test_topology();
    let path = dijkstra_shortest_path(&topology, ids[0], ids[3]).unwrap();
    assert_eq!(path, ids);
    let links = route_links(&topology, &path).unwrap();
    assert_eq!(links.len(), 3);
    assert_eq!(links[0], topology.find_link(ids[1], ids[0]).unwrap().id);
    // the reverse direction works too
    let back = dijkstra_shortest_path(&topology, ids[3], ids[0]).unwrap();
    assert_eq!(back, vec![ids[3], ids[2], ids[1], ids[0]]);
}

#[test]
fn shortcut_is_preferred_and_inactive_links_are_avoided() {
    let (mut topology, ids) = create_test_topology();
    let shortcut = NetworkLink::new(ids[0], ids[3]);
    let shortcut_id = shortcut.id;
    topology.add_link(shortcut);
    assert_eq!(dijkstra_shortest_path(&topology, ids[0], ids[3]).unwrap(), vec![ids[0], ids[3]]);
    // switching the shortcut off sends the route the long way again
    let mut off = NetworkLink::new(ids[0], ids[3]);
    off.id = shortcut_id;
    off.active = false;
    topology.add_link(off);
    assert_eq!(topology.links.len(), 4);
    assert_eq!(dijkstra_shortest_path(&topology, ids[0], ids[3]).unwrap().len(), 4);
}

#[test]
fn routing_errors() {
    let (mut topology, ids) = create_test_topology();
    assert_eq!(dijkstra_shortest_path(&topology, 1, ids[0]).unwrap_err(), "Source node not found");
    assert_eq!(dijkstra_shortest_path(&topology, ids[0], 1).unwrap_err(), "Destination node not found");
    assert_eq!(dijkstra_shortest_path(&topology, ids[1], ids[1]).unwrap_err(), "No path found");
    let island = NetworkNode::new("E".to_string(), 10);
    let island_id = island.id;
    topology.add_node(island);
    assert_eq!(dijkstra_shortest_path(&topology, ids[0], island_id).unwrap_err(), "No path found");
    assert_eq!(route_links(&topology, &vec![ids[0]]).unwrap_err(), "Invalid path (< 2 nodes)");
    assert_eq!(route_links(&topology, &vec![ids[0], island_id]).unwrap_err(), "Link not found");
}

#[test]
fn node_space_and_neighbours() {
    let mut node = NetworkNode::new("N".to_string(), 5);
    assert_eq!(node.available_space(), 5);
    node.current_load = 7;
    assert_eq!(node.available_space(), 0);
    let (mut topology, ids) = create_test_topology();
    assert_eq!(topology.neighbours_of(ids[1]), vec![ids[0], ids[2]]);
    assert!(topology.contains_node(ids[2]));
    // re-adding a node clears its neighbour list
    let mut again = NetworkNode::new("B".to_string(), 1);
    again.id = ids[1];
    topology.add_node(again);
    assert_eq!(topology.nodes.len(), 4);
    assert!(topology.neighbours_of(ids[1]).is_empty());
    assert_eq!(dijkstra_shortest_path(&topology, ids[1], ids[3]).unwrap_err(), "No path found");
}
