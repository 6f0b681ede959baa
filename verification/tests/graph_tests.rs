use last_stop::bus_puzzle::components::{ConnectionDirection, RouteSegment, StationType};
use last_stop::bus_puzzle::connection_system::{
    can_station_connect_to_segment_directional, create_bidirectional_connection,
    get_connection_reason, get_direction_between, get_segment_connection_ports,
    rebuild_pathfinding_graph_fixed, segment_has_port_facing,
};
use last_stop::bus_puzzle::level_system::Station;
use last_stop::bus_puzzle::pathfinding::{
    create_station_connections_improved, find_optimal_path, update_pathfinding_graph, PathNodeType,
};
use last_stop::bus_puzzle::pos_map::PosMap;
use last_stop::bus_puzzle::resources::{Connection, ConnectionType, GraphNode, GraphNodeType, PathfindingGraph};
use last_stop::bus_puzzle::{GridPos, RouteSegmentType};

fn station(name: &str, x: i32, y: i32) -> Station {
    Station {
        position: GridPos::new(x, y),
        station_type: StationType::Terminal,
        name: name.to_string(),
        name_key: None,
        capacity: 10,
        passenger_types: vec![],
    }
}

fn segment(t: RouteSegmentType, x: i32, y: i32, rotation: u32) -> RouteSegment {
    RouteSegment { grid_pos: GridPos::new(x, y), segment_type: t, rotation, is_active: true }
}

/// Two stations joined by two horizontal straight pieces: A (0,0) - (1,0) - (2,0) - B (3,0).
fn line_layout() -> (Vec<Station>, Vec<RouteSegment>) {
    (
        vec![station("A", 0, 0), station("B", 3, 0)],
        vec![
            segment(RouteSegmentType::Straight, 1, 0, 0),
            segment(RouteSegmentType::Straight, 2, 0, 0),
        ],
    )
}

fn has_edge(g: &PathfindingGraph, a: GridPos, b: GridPos) -> bool {
    match g.connections_from(a) {
        Some(list) => list.iter().any(|c| c.to == b),
        None => false,
    }
}

fn edge_count(g: &PathfindingGraph, a: GridPos, b: GridPos) -> usize {
    match g.connections_from(a) {
        Some(list) => list.iter().filter(|c| c.to == b).count(),
        None => 0,
    }
}

#[test]
fn ports_follow_the_rotation() {
    let ports = get_segment_connection_ports(GridPos::new(5, 5), &RouteSegmentType::TSplit, 0);
    assert_eq!(ports.len(), 3);
    assert_eq!(ports[0], (ConnectionDirection::North, GridPos::new(5, 4)));
    assert_eq!(ports[1], (ConnectionDirection::South, GridPos::new(5, 6)));
    assert_eq!(ports[2], (ConnectionDirection::East, GridPos::new(6, 5)));
    let turned = get_segment_connection_ports(GridPos::new(5, 5), &RouteSegmentType::Straight, 90);
    assert_eq!(turned, vec![
        (ConnectionDirection::North, GridPos::new(5, 4)),
        (ConnectionDirection::South, GridPos::new(5, 6)),
    ]);
}

#[test]
fn directions_between_neighbours() {
    assert_eq!(get_direction_between(GridPos::new(2, 2), GridPos::new(2, 1)), Some(ConnectionDirection::North));
    assert_eq!(get_direction_between(GridPos::new(2, 2), GridPos::new(1, 2)), Some(ConnectionDirection::West));
    assert_eq!(get_direction_between(GridPos::new(0, 0), GridPos::new(2, 0)), None);
    assert_eq!(get_direction_between(GridPos::new(0, 0), GridPos::new(0, 0)), None);
    assert_eq!(ConnectionDirection::North.opposite(), ConnectionDirection::South);
    assert_eq!(ConnectionDirection::East.opposite().to_offset(), (-1, 0));
}

#[test]
fn stations_connect_to_facing_or_overlapping_segments() {
    let horizontal = segment(RouteSegmentType::Straight, 1, 0, 0);
    assert!(segment_has_port_facing(&horizontal, GridPos::new(0, 0)));
    assert!(!segment_has_port_facing(&horizontal, GridPos::new(1, 1)));
    assert!(can_station_connect_to_segment_directional(GridPos::new(0, 0), &horizontal));
    assert!(can_station_connect_to_segment_directional(GridPos::new(1, 0), &horizontal));
    assert!(!can_station_connect_to_segment_directional(GridPos::new(1, 1), &horizontal));
    assert!(!can_station_connect_to_segment_directional(GridPos::new(5, 0), &horizontal));
}

#[test]
fn connection_reasons_for_each_case() {
    let horizontal = segment(RouteSegmentType::Straight, 1, 0, 0);
    assert_eq!(get_connection_reason(GridPos::new(1, 0), &horizontal), "重叠位置");
    assert_eq!(get_connection_reason(GridPos::new(2, 0), &horizontal), "直接相邻且路线段有朝向站点的端口");
    assert_eq!(get_connection_reason(GridPos::new(1, 1), &horizontal), "直接相邻但路线段没有朝向站点的端口");
    assert_eq!(get_connection_reason(GridPos::new(4, 4), &horizontal), "距离过远且不在端口位置");
}

#[test]
fn bidirectional_connection_labels_each_side() {
    let mut g = PathfindingGraph::new();
    for (x, y) in [(0, 0), (0, 1)] {
        g.nodes.push(GraphNode {
            position: GridPos::new(x, y),
            node_type: GraphNodeType::RouteSegment,
            station_name: None,
            is_accessible: true,
        });
    }
    create_bidirectional_connection(&mut g, GridPos::new(0, 0), GridPos::new(0, 1), ConnectionType::Walk);
    let from_a = g.connections_from(GridPos::new(0, 0)).unwrap();
    assert_eq!(from_a.len(), 1);
    assert_eq!(from_a[0].to, GridPos::new(0, 1));
    assert_eq!(from_a[0].cost, 1);
    assert_eq!(from_a[0].route_id.as_deref(), Some("route_0_0"));
    let from_b = g.connections_from(GridPos::new(0, 1)).unwrap();
    assert_eq!(from_b[0].route_id.as_deref(), Some("route_0_1"));
    assert_eq!(from_b[0].connection_type, ConnectionType::Walk);
}

#[test]
fn bidirectional_connection_appends_to_each_list() {
    let mut g = PathfindingGraph::new();
    for (x, y) in [(0, 0), (0, 1), (1, 1)] {
        g.nodes.push(GraphNode {
            position: GridPos::new(x, y),
            node_type: GraphNodeType::RouteSegment,
            station_name: None,
            is_accessible: true,
        });
    }
    create_bidirectional_connection(&mut g, GridPos::new(0, 0), GridPos::new(0, 1), ConnectionType::Walk);
    create_bidirectional_connection(&mut g, GridPos::new(0, 0), GridPos::new(0, 1), ConnectionType::BusRoute);
    let from_a = g.connections_from(GridPos::new(0, 0)).unwrap();
    assert_eq!(from_a.len(), 2);
    assert_eq!(from_a[0].connection_type, ConnectionType::Walk);
    assert_eq!(from_a[1].connection_type, ConnectionType::BusRoute);
    assert_eq!(from_a[1].cost, 2);
    assert_eq!(from_a[1].to, GridPos::new(0, 1));
    assert_eq!(g.connections_from(GridPos::new(0, 1)).unwrap().len(), 2);
    assert!(g.connections_from(GridPos::new(1, 1)).is_none());
    create_bidirectional_connection(&mut g, GridPos::new(1, 1), GridPos::new(1, 1), ConnectionType::Transfer);
    let own = g.connections_from(GridPos::new(1, 1)).unwrap();
    assert_eq!(own.len(), 2);
    assert_eq!(own[0].to, GridPos::new(1, 1));
    assert_eq!(own[1].cost, 4);
    assert_eq!(own[1].route_id.as_deref(), Some("route_1_1"));
}

#[test]
fn update_graph_joins_a_straight_line() {
    let (stations, segments) = line_layout();
    let mut g = PathfindingGraph::new();
    update_pathfinding_graph(&mut g, &segments, &stations);
    assert_eq!(g.nodes.len(), 4);
    assert_eq!(g.get_station_position("A"), Some(GridPos::new(0, 0)));
    assert_eq!(g.get_station_position("B"), Some(GridPos::new(3, 0)));
    assert!(has_edge(&g, GridPos::new(1, 0), GridPos::new(2, 0)));
    assert!(has_edge(&g, GridPos::new(2, 0), GridPos::new(1, 0)));
    assert!(has_edge(&g, GridPos::new(0, 0), GridPos::new(1, 0)));
    assert!(has_edge(&g, GridPos::new(1, 0), GridPos::new(0, 0)));
    assert_eq!(edge_count(&g, GridPos::new(1, 0), GridPos::new(2, 0)), 1);
    assert!(!has_edge(&g, GridPos::new(0, 0), GridPos::new(3, 0)));
    assert_eq!(g.get_node(GridPos::new(1, 0)).unwrap().node_type, GraphNodeType::RouteSegment);
    assert_eq!(g.get_node(GridPos::new(0, 0)).unwrap().node_type, GraphNodeType::Station);
}

#[test]
fn every_connection_of_the_updated_graph_runs_both_ways() {
    let stations = vec![station("A", 0, 1), station("B", 2, 3), station("C", 4, 1)];
    let segments = vec![
        segment(RouteSegmentType::Straight, 1, 1, 0),
        segment(RouteSegmentType::TSplit, 2, 1, 90),
        segment(RouteSegmentType::Straight, 3, 1, 0),
        segment(RouteSegmentType::Straight, 2, 2, 90),
    ];
    let mut g = PathfindingGraph::new();
    update_pathfinding_graph(&mut g, &segments, &stations);
    for (from, list) in &g.connections {
        for c in list {
            assert!(has_edge(&g, c.to, *from), "{:?} -> {:?} has no way back", from, c.to);
        }
    }
    assert_eq!(g.get_node(GridPos::new(2, 1)).unwrap().node_type, GraphNodeType::Intersection);
}

#[test]
fn path_found_along_the_line() {
    let (stations, segments) = line_layout();
    let mut g = PathfindingGraph::new();
    update_pathfinding_graph(&mut g, &segments, &stations);
    let path = find_optimal_path(&g, "A", "B").expect("a path from A to B");
    assert_eq!(path.first().unwrap().position, GridPos::new(0, 0));
    assert_eq!(path.last().unwrap().position, GridPos::new(3, 0));
    for w in path.windows(2) {
        assert!(has_edge(&g, w[0].position, w[1].position));
    }
    match &path.last().unwrap().node_type {
        PathNodeType::Station(name) => assert_eq!(name, "B"),
        other => panic!("last step is {:?}", other),
    }
    let back = find_optimal_path(&g, "B", "A").expect("a path back");
    assert_eq!(back.last().unwrap().position, GridPos::new(0, 0));
}

#[test]
fn no_path_without_a_link_or_for_unknown_stations() {
    let stations = vec![station("A", 0, 0), station("B", 5, 5)];
    let segments = vec![segment(RouteSegmentType::Straight, 1, 0, 0)];
    let mut g = PathfindingGraph::new();
    update_pathfinding_graph(&mut g, &segments, &stations);
    assert!(find_optimal_path(&g, "A", "B").is_none());
    assert!(find_optimal_path(&g, "A", "Nowhere").is_none());
    let same = find_optimal_path(&g, "A", "A").expect("a trip to the same station");
    assert_eq!(same.len(), 1);
    assert_eq!(same[0].estimated_wait_time, 0);
}

#[test]
fn fixed_rebuild_lists_each_facing_pair_once_from_each_side() {
    let (stations, segments) = line_layout();
    let mut g = PathfindingGraph::new();
    rebuild_pathfinding_graph_fixed(&mut g, &stations, &segments);
    assert_eq!(g.nodes.len(), 4);
    assert_eq!(g.station_lookup.len(), 2);
    // Both segments see each other, so the pair is joined twice in each direction.
    assert_eq!(edge_count(&g, GridPos::new(1, 0), GridPos::new(2, 0)), 2);
    assert_eq!(edge_count(&g, GridPos::new(2, 0), GridPos::new(1, 0)), 2);
    assert_eq!(edge_count(&g, GridPos::new(0, 0), GridPos::new(1, 0)), 1);
    assert_eq!(edge_count(&g, GridPos::new(1, 0), GridPos::new(0, 0)), 1);
    let walk = g
        .connections_from(GridPos::new(0, 0))
        .unwrap()
        .iter()
        .find(|c| c.to == GridPos::new(1, 0))
        .unwrap();
    assert_eq!(walk.connection_type, ConnectionType::Walk);
    assert_eq!(walk.cost, 1);
    assert_eq!(walk.route_id.as_deref(), Some("route_0_0"));
    let bus = g
        .connections_from(GridPos::new(2, 0))
        .unwrap()
        .iter()
        .find(|c| c.to == GridPos::new(1, 0))
        .unwrap();
    assert_eq!(bus.connection_type, ConnectionType::BusRoute);
    assert_eq!(bus.cost, 2);
    assert_eq!(bus.route_id.as_deref(), Some("route_2_0"));
    assert!(find_optimal_path(&g, "A", "B").is_some());
}

#[test]
fn fixed_rebuild_joins_a_station_under_a_segment() {
    let stations = vec![station("A", 1, 0)];
    let segments = vec![segment(RouteSegmentType::Straight, 1, 0, 90)];
    let mut g = PathfindingGraph::new();
    rebuild_pathfinding_graph_fixed(&mut g, &stations, &segments);
    // The segment's node replaces the station's node at the shared cell.
    assert_eq!(g.nodes.len(), 1);
    assert_eq!(g.get_node(GridPos::new(1, 0)).unwrap().node_type, GraphNodeType::RouteSegment);
    assert_eq!(edge_count(&g, GridPos::new(1, 0), GridPos::new(1, 0)), 2);
}

#[test]
fn fixed_rebuild_ignores_ports_that_face_away() {
    let stations = vec![station("A", 0, 0)];
    // A vertical piece beside the station does not face it.
    let segments = vec![segment(RouteSegmentType::Straight, 1, 0, 90), segment(RouteSegmentType::Straight, 2, 0, 0)];
    let mut g = PathfindingGraph::new();
    rebuild_pathfinding_graph_fixed(&mut g, &stations, &segments);
    assert!(!has_edge(&g, GridPos::new(0, 0), GridPos::new(1, 0)));
    assert!(!has_edge(&g, GridPos::new(1, 0), GridPos::new(2, 0)));
    assert!(!has_edge(&g, GridPos::new(2, 0), GridPos::new(1, 0)));
}

#[test]
fn stations_join_facing_segments_in_an_empty_graph() {
    let mut g = PathfindingGraph::new();
    for (x, y, t) in [(1, 4, GraphNodeType::Station), (8, 4, GraphNodeType::Station), (1, 5, GraphNodeType::RouteSegment), (8, 5, GraphNodeType::RouteSegment)] {
        g.nodes.push(GraphNode { position: GridPos::new(x, y), node_type: t, station_name: None, is_accessible: true });
    }
    g.station_lookup.push(("A".to_string(), GridPos::new(1, 4)));
    g.station_lookup.push(("B".to_string(), GridPos::new(8, 4)));
    let mut segs = PosMap::new();
    segs.insert(GridPos::new(1, 5), segment(RouteSegmentType::Curve, 1, 5, 90));
    segs.insert(GridPos::new(8, 5), segment(RouteSegmentType::TSplit, 8, 5, 0));
    create_station_connections_improved(&mut g, &segs);
    create_station_connections_improved(&mut g, &segs);
    for (a, b) in [((1, 4), (1, 5)), ((1, 5), (1, 4)), ((8, 4), (8, 5)), ((8, 5), (8, 4))] {
        let list = g.connections_from(GridPos::new(a.0, a.1)).unwrap();
        assert_eq!(list.len(), 1);
        assert_eq!(list[0].to, GridPos::new(b.0, b.1));
        assert_eq!(list[0].connection_type, ConnectionType::Walk);
        assert_eq!(list[0].cost, 1);
    }
    assert_eq!(g.connections.len(), 4);
}

#[test]
fn the_search_finds_the_cheapest_path() {
    let mut g = PathfindingGraph::new();
    for (x, y) in [(0, 0), (1, 0), (2, 0), (0, 1), (1, 1), (2, 1)] {
        g.nodes.push(GraphNode { position: GridPos::new(x, y), node_type: GraphNodeType::RouteSegment, station_name: None, is_accessible: true });
    }
    g.station_lookup.push(("S".to_string(), GridPos::new(0, 0)));
    g.station_lookup.push(("E".to_string(), GridPos::new(2, 0)));
    let link = |to: (i32, i32), cost: u32| Connection {
        to: GridPos::new(to.0, to.1),
        cost,
        route_id: None,
        connection_type: ConnectionType::BusRoute,
    };
    g.connections.push((GridPos::new(0, 0), vec![link((1, 0), 3), link((0, 1), 1)]));
    g.connections.push((GridPos::new(1, 0), vec![link((2, 0), 3)]));
    g.connections.push((GridPos::new(0, 1), vec![link((1, 1), 1)]));
    g.connections.push((GridPos::new(1, 1), vec![link((2, 1), 1)]));
    g.connections.push((GridPos::new(2, 1), vec![link((2, 0), 1)]));
    let path = find_optimal_path(&g, "S", "E").expect("reachable");
    let cells: Vec<GridPos> = path.iter().map(|n| n.position).collect();
    // The detour of four light steps (cost 4) beats the direct line of two heavy ones (cost 6).
    assert_eq!(
        cells,
        vec![GridPos::new(0, 0), GridPos::new(0, 1), GridPos::new(1, 1), GridPos::new(2, 1), GridPos::new(2, 0)]
    );
}

#[test]
fn a_transfer_costs_six_half_steps_more() {
    let mut g = PathfindingGraph::new();
    for (x, y) in [(0, 0), (1, 0), (0, 1), (1, 1)] {
        g.nodes.push(GraphNode { position: GridPos::new(x, y), node_type: GraphNodeType::RouteSegment, station_name: None, is_accessible: true });
    }
    g.station_lookup.push(("S".to_string(), GridPos::new(0, 0)));
    g.station_lookup.push(("E".to_string(), GridPos::new(1, 0)));
    let link = |to: (i32, i32), cost: u32, t: ConnectionType| Connection { to: GridPos::new(to.0, to.1), cost, route_id: None, connection_type: t };
    g.connections.push((GridPos::new(0, 0), vec![link((1, 0), 1, ConnectionType::Transfer), link((0, 1), 1, ConnectionType::BusRoute)]));
    g.connections.push((GridPos::new(0, 1), vec![link((1, 1), 1, ConnectionType::BusRoute)]));
    g.connections.push((GridPos::new(1, 1), vec![link((1, 0), 1, ConnectionType::BusRoute)]));
    let path = find_optimal_path(&g, "S", "E").expect("reachable");
    let cells: Vec<GridPos> = path.iter().map(|n| n.position).collect();
    assert_eq!(cells, vec![GridPos::new(0, 0), GridPos::new(0, 1), GridPos::new(1, 1), GridPos::new(1, 0)]);
}

#[test]
fn labels_write_negative_and_large_coordinates() {
    let mut g = PathfindingGraph::new();
    for (x, y) in [(-12, 305), (-12, 306), (i32::MIN + 1, 0)] {
        g.nodes.push(GraphNode { position: GridPos::new(x, y), node_type: GraphNodeType::RouteSegment, station_name: None, is_accessible: true });
    }
    create_bidirectional_connection(&mut g, GridPos::new(-12, 305), GridPos::new(-12, 306), ConnectionType::Walk);
    let list = g.connections_from(GridPos::new(-12, 305)).unwrap();
    assert_eq!(list[0].route_id.as_deref(), Some("route_-12_305"));
    create_bidirectional_connection(&mut g, GridPos::new(i32::MIN + 1, 0), GridPos::new(-12, 306), ConnectionType::Walk);
    let far = g.connections_from(GridPos::new(i32::MIN + 1, 0)).unwrap();
    assert_eq!(far[0].route_id.as_deref(), Some("route_-2147483647_0"));
}

#[test]
fn every_link_joins_neighbouring_cells() {
    let (stations, segments) = line_layout();
    let mut g = PathfindingGraph::new();
    update_pathfinding_graph(&mut g, &segments, &stations);
    assert!(!g.connections.is_empty());
    for (from, list) in &g.connections {
        for c in list {
            assert_eq!((from.x - c.to.x).abs() + (from.y - c.to.y).abs(), 1);
        }
    }
}
