use last_stop::bus_puzzle::bus_pathfinding_system::{
    discover_routes_using_pathfinding, get_next_station_target, get_next_station_target_fixed,
    handle_bus_station_stops, has_station_connections, move_bus_along_path, pathfinding_bus_for,
    plan_next_route, turn_around_pathfinding, update_bus_pathfinding, BusPathfindingAgent, BusPathfindingManager,
    BusPathfindingState, BusRouteInfo,
};
use last_stop::bus_puzzle::bus_system::{
    advance_to_next_stop, handle_bus_at_stop, handle_bus_turning_around, spawn_bus_vehicle,
    update_bus_routes, update_bus_state, BusDirection, BusRoute, BusRoutesManager, BusState,
    BusStop, BusVehicle, RouteDiscoverySystem,
};
use last_stop::bus_puzzle::components::{RouteSegment, StationType};
use last_stop::bus_puzzle::level_system::Station;
use last_stop::bus_puzzle::pathfinding::update_pathfinding_graph;
use last_stop::bus_puzzle::resources::PathfindingGraph;
use last_stop::bus_puzzle::smart_bus_generation::{
    advance_cleanup_timer, analyze_station_connectivity, generate_smart_bus_routes,
    route_still_valid, should_regenerate_buses, spawn_smart_bus,
};
use last_stop::bus_puzzle::utils::Rgb;
use last_stop::bus_puzzle::{GridPos, RouteSegmentType};

fn station(name: &str, x: i32, y: i32) -> Station {
    Station {
        position: GridPos::new(x, y),
        station_type: StationType::Terminal,
        name: name.to_string(),
        name_key: None,
        capacity: 10,
        passenger_types: vec![],
    }
}

fn straight(x: i32, y: i32) -> RouteSegment {
    RouteSegment { grid_pos: GridPos::new(x, y), segment_type: RouteSegmentType::Straight, rotation: 0, is_active: true }
}

/// A (0,0) - (1,0) - (2,0) - B (3,0), and C (6,6) alone.
fn layout() -> (Vec<Station>, Vec<RouteSegment>) {
    (
        vec![station("A", 0, 0), station("B", 3, 0), station("C", 6, 6)],
        vec![straight(1, 0), straight(2, 0)],
    )
}

fn graph() -> PathfindingGraph {
    let (stations, segments) = layout();
    let mut g = PathfindingGraph::new();
    update_pathfinding_graph(&mut g, &segments, &stations);
    g
}

fn names(v: &[&str]) -> Vec<String> {
    v.iter().map(|s| s.to_string()).collect()
}

fn stop(name: &str, x: i32) -> BusStop {
    BusStop { position: GridPos::new(x, 0), name: name.to_string(), waiting_passengers: vec![], platform_capacity: 20 }
}

fn route(id: &str, n: usize, circular: bool) -> BusRoute {
    BusRoute {
        route_id: id.to_string(),
        route_name: id.to_string(),
        stops: (0..n).map(|i| stop(&format!("S{}", i), i as i32)).collect(),
        segments: vec![],
        frequency: 20,
        is_circular: circular,
        vehicles: vec![],
        max_vehicles: 2,
        color: Rgb { r: 1, g: 2, b: 3 },
    }
}

fn bus_agent(stations: &[&str], index: usize, direction: BusDirection) -> BusPathfindingAgent {
    BusPathfindingAgent {
        vehicle_id: "bus_1".to_string(),
        route_id: "r".to_string(),
        current_path: vec![],
        current_step: 0,
        target_station: stations.first().map(|s| s.to_string()).unwrap_or_default(),
        state: BusPathfindingState::Planning,
        next_station_index: index,
        stations_to_visit: names(stations),
        direction,
        is_returning: false,
    }
}

#[test]
fn route_manager_numbers_routes_and_buses() {
    let mut m = BusRoutesManager::new();
    assert_eq!(m.generate_route_id(), "route_001");
    assert_eq!(m.generate_route_id(), "route_002");
    assert_eq!(m.generate_vehicle_id(), "bus_001");
    m.add_route(route("r1", 2, false));
    m.add_route(route("r2", 3, false));
    m.add_route(route("r1", 4, false));
    assert_eq!(m.routes.len(), 2);
    assert_eq!(m.get_route("r1").unwrap().stops.len(), 4);
    assert!(m.get_route("r3").is_none());
    m.get_route_mut("r2").unwrap().vehicles.push(99);
    assert_eq!(m.get_route("r2").unwrap().vehicles, vec![99]);
    assert!(m.get_route_mut("nope").is_none());
}

#[test]
fn spawned_bus_is_named_after_the_clock() {
    let bus = spawn_bus_vehicle("route_A".to_string(), 1_700_000_012_345);
    assert_eq!(bus.vehicle_id, "bus_2345");
    assert_eq!(bus.route_id, "route_A");
    assert_eq!(bus.capacity, 30);
    assert_eq!(bus.state, BusState::Idle);
    assert_eq!(bus.dwell_time, 3000);
    assert_eq!(spawn_bus_vehicle("r".to_string(), 7).vehicle_id, "bus_7");
}

#[test]
fn discovery_follows_the_line_between_stations() {
    let (stations, segments) = layout();
    let routes = RouteDiscoverySystem::discover_routes(&segments, &stations);
    // Only the cells a route passes are taken, not the station it ends at, so the line is
    // found once from each end.
    assert_eq!(routes.len(), 2);
    let r = &routes[0];
    assert_eq!(r.route_id, "route_A");
    assert_eq!(r.route_name, "A路");
    let stop_names: Vec<_> = r.stops.iter().map(|s| s.name.as_str()).collect();
    assert_eq!(stop_names, vec!["A", "B"]);
    assert_eq!(r.segments, vec![GridPos::new(1, 0), GridPos::new(2, 0)]);
    assert!(!r.is_circular);
    let back = &routes[1];
    assert_eq!(back.route_id, "route_B");
    let back_names: Vec<_> = back.stops.iter().map(|s| s.name.as_str()).collect();
    assert_eq!(back_names, vec!["B", "A"]);
    assert_eq!(back.segments, vec![GridPos::new(2, 0), GridPos::new(1, 0)]);
    assert!(RouteDiscoverySystem::is_adjacent(GridPos::new(0, 0), GridPos::new(0, 1)));
    assert!(!RouteDiscoverySystem::is_adjacent(GridPos::new(0, 0), GridPos::new(1, 1)));
}

#[test]
fn discovery_needs_ports_that_face_each_other() {
    let stations = vec![station("A", 0, 0), station("B", 3, 0)];
    let vertical = |x: i32| RouteSegment {
        grid_pos: GridPos::new(x, 0),
        segment_type: RouteSegmentType::Straight,
        rotation: 90,
        is_active: true,
    };
    assert!(RouteDiscoverySystem::discover_routes(&vec![vertical(1), vertical(2)], &stations).is_empty());
    // A curve at (2,0) turned so that it faces left and down does not face B.
    let curve = RouteSegment { grid_pos: GridPos::new(2, 0), segment_type: RouteSegmentType::Curve, rotation: 270, is_active: true };
    let routes = RouteDiscoverySystem::discover_routes(&vec![straight(1, 0), curve], &stations);
    assert!(routes.is_empty());
    assert!(RouteDiscoverySystem::can_connect(GridPos::new(1, 0), &curve));
    assert!(!RouteDiscoverySystem::can_connect(GridPos::new(3, 0), &curve));
}

#[test]
fn update_bus_routes_replaces_the_routes() {
    let (stations, segments) = layout();
    let mut m = BusRoutesManager::new();
    m.add_route(route("old", 2, false));
    let ids = update_bus_routes(&mut m, &segments, &stations);
    assert_eq!(ids, vec!["route_A".to_string(), "route_B".to_string()]);
    assert!(m.get_route("old").is_none());
    assert_eq!(m.get_route("route_A").unwrap().stops.len(), 2);
}

#[test]
fn buses_run_to_the_end_and_turn_around() {
    let r = route("r", 3, false);
    let mut bus = BusVehicle::default();
    advance_to_next_stop(&mut bus, &r);
    assert_eq!(bus.current_stop_index, 1);
    advance_to_next_stop(&mut bus, &r);
    assert_eq!(bus.current_stop_index, 2);
    advance_to_next_stop(&mut bus, &r);
    assert_eq!(bus.state, BusState::TurningAround);
    assert_eq!(bus.current_stop_index, 2);
    handle_bus_turning_around(&mut bus, &r);
    assert_eq!(bus.direction, BusDirection::Backward);
    assert_eq!(bus.current_stop_index, 1);
    assert_eq!(bus.state, BusState::Traveling);
}

#[test]
fn circular_routes_wrap_around() {
    let r = route("c", 3, true);
    let mut bus = BusVehicle::default();
    bus.current_stop_index = 2;
    advance_to_next_stop(&mut bus, &r);
    assert_eq!(bus.current_stop_index, 0);
    bus.direction = BusDirection::Backward;
    advance_to_next_stop(&mut bus, &r);
    assert_eq!(bus.current_stop_index, 2);
}

#[test]
fn dwelling_bus_leaves_when_its_time_is_up() {
    let r = route("r", 3, false);
    let mut bus = BusVehicle::default();
    bus.state = BusState::AtStop;
    bus.remaining_dwell = 1000;
    handle_bus_at_stop(&mut bus, &r, 400);
    assert_eq!(bus.state, BusState::AtStop);
    assert_eq!(bus.remaining_dwell, 600);
    handle_bus_at_stop(&mut bus, &r, 600);
    assert_eq!(bus.state, BusState::Traveling);
    assert_eq!(bus.current_stop_index, 1);
    update_bus_state(&mut bus, &r, 16, true);
    assert_eq!(bus.state, BusState::AtStop);
    assert_eq!(bus.remaining_dwell, bus.dwell_time);
}

#[test]
fn a_bus_leaving_the_terminus_turns_around() {
    let r = route("r", 3, false);
    let mut bus = BusVehicle::default();
    bus.state = BusState::AtStop;
    bus.current_stop_index = 2;
    bus.remaining_dwell = 1000;
    update_bus_state(&mut bus, &r, 1500, false);
    assert_eq!(bus.state, BusState::TurningAround);
    assert_eq!(bus.current_stop_index, 2);
    assert_eq!(bus.remaining_dwell, -500);
    update_bus_state(&mut bus, &r, 16, false);
    assert_eq!(bus.direction, BusDirection::Backward);
    assert_eq!(bus.current_stop_index, 1);
    assert_eq!(bus.state, BusState::Traveling);
}

#[test]
fn next_station_targets() {
    let a = bus_agent(&["A", "B", "C"], 0, BusDirection::Forward);
    assert_eq!(get_next_station_target_fixed(&a), Some("B".to_string()));
    assert_eq!(get_next_station_target(&a), Some("A".to_string()));
    let end = bus_agent(&["A", "B", "C"], 2, BusDirection::Forward);
    assert_eq!(get_next_station_target_fixed(&end), None);
    let back = bus_agent(&["A", "B", "C"], 2, BusDirection::Backward);
    assert_eq!(get_next_station_target_fixed(&back), Some("B".to_string()));
    assert_eq!(get_next_station_target(&back), Some("B".to_string()));
    assert_eq!(get_next_station_target_fixed(&bus_agent(&[], 0, BusDirection::Forward)), None);
}

#[test]
fn turning_around_restarts_from_the_end_reached() {
    let mut a = bus_agent(&["A", "B", "C"], 2, BusDirection::Forward);
    turn_around_pathfinding(&mut a);
    assert_eq!(a.direction, BusDirection::Backward);
    assert_eq!(a.next_station_index, 2);
    assert!(a.is_returning);
    assert_eq!(a.state, BusPathfindingState::Planning);
    turn_around_pathfinding(&mut a);
    assert_eq!(a.direction, BusDirection::Forward);
    assert_eq!(a.next_station_index, 0);
    assert!(!a.is_returning);
}

#[test]
fn planning_follows_a_found_path_or_waits() {
    let g = graph();
    let mut a = bus_agent(&["A", "B"], 1, BusDirection::Forward);
    plan_next_route(&mut a, &g);
    assert_eq!(a.state, BusPathfindingState::Following);
    assert_eq!(a.target_station, "B");
    assert_eq!(a.current_path.first().unwrap().position, GridPos::new(0, 0));
    assert_eq!(a.current_path.last().unwrap().position, GridPos::new(3, 0));
    let mut lost = bus_agent(&["A", "C"], 1, BusDirection::Forward);
    plan_next_route(&mut lost, &g);
    assert_eq!(lost.state, BusPathfindingState::WaitingForPath);
    let mut done = bus_agent(&["A", "B"], 2, BusDirection::Forward);
    plan_next_route(&mut done, &g);
    assert_eq!(done.state, BusPathfindingState::TurningAround);
}

#[test]
fn a_bus_leaving_its_first_station_heads_for_the_second() {
    let g = graph();
    let mut a = bus_agent(&["A", "B", "C"], 0, BusDirection::Forward);
    a.state = BusPathfindingState::AtStation;
    let mut bus = BusVehicle::default();
    bus.remaining_dwell = 10;
    update_bus_pathfinding(&mut a, &mut bus, &g, 16);
    assert_eq!(a.state, BusPathfindingState::Planning);
    assert_eq!(a.next_station_index, 1);
    update_bus_pathfinding(&mut a, &mut bus, &g, 16);
    assert_eq!(a.state, BusPathfindingState::Following);
    assert_eq!(a.target_station, "B");
    assert_eq!(a.current_step, 0);
    assert_eq!(a.current_path.last().unwrap().position, GridPos::new(3, 0));
}

#[test]
fn bus_steps_along_its_path_and_halts() {
    let g = graph();
    let mut a = bus_agent(&["A", "B"], 1, BusDirection::Forward);
    plan_next_route(&mut a, &g);
    let mut bus = BusVehicle::default();
    let n = a.current_path.len();
    move_bus_along_path(&mut a, &mut bus, false);
    assert_eq!(a.current_step, 0);
    assert_eq!(bus.state, BusState::Traveling);
    for _ in 0..n {
        move_bus_along_path(&mut a, &mut bus, true);
    }
    assert_eq!(a.current_step, n);
    move_bus_along_path(&mut a, &mut bus, true);
    assert_eq!(a.state, BusPathfindingState::AtStation);
    assert_eq!(bus.state, BusState::AtStop);
    assert_eq!(bus.remaining_dwell, 3000);
    handle_bus_station_stops(&mut a, &mut bus, 2999);
    assert_eq!(a.state, BusPathfindingState::AtStation);
    handle_bus_station_stops(&mut a, &mut bus, 1);
    assert_eq!(a.state, BusPathfindingState::Planning);
    assert_eq!(bus.state, BusState::Traveling);
}

#[test]
fn lines_found_between_joined_stations() {
    let g = graph();
    assert!(has_station_connections(&g, &names(&["A", "B", "C"])));
    assert!(!has_station_connections(&g, &names(&["A", "C"])));
    let lines = discover_routes_using_pathfinding(&g, &names(&["A", "B", "C"]));
    assert_eq!(lines.len(), 1);
    assert_eq!(lines[0].route_id, "智能路线_1");
    assert_eq!(lines[0].stations, names(&["A", "B"]));
    assert_eq!(lines[0].max_vehicles, 1);
}

#[test]
fn a_trunk_line_when_nothing_is_joined() {
    let g = graph();
    let lines = discover_routes_using_pathfinding(&g, &names(&["A", "C"]));
    assert_eq!(lines.len(), 1);
    assert_eq!(lines[0].route_id, "主干路线");
    assert_eq!(lines[0].stations, names(&["A", "C"]));
    assert!(discover_routes_using_pathfinding(&g, &names(&["A"])).is_empty());
}

#[test]
fn new_buses_start_at_the_first_station() {
    let g = graph();
    let info = BusRouteInfo { route_id: "abcd".to_string(), stations: names(&["A", "B"]), is_circular: false, max_vehicles: 1 };
    let (bus, agent, pos, color) = pathfinding_bus_for(&info, &g).expect("a bus");
    assert_eq!(pos, GridPos::new(0, 0));
    assert_eq!(bus.route_id, "abcd");
    assert_eq!(agent.stations_to_visit, names(&["A", "B"]));
    assert_eq!(color, Rgb { r: 100, g: 20, b: 20 });
    let unknown = BusRouteInfo { route_id: "x".to_string(), stations: names(&["Z"]), is_circular: false, max_vehicles: 1 };
    assert!(pathfinding_bus_for(&unknown, &g).is_none());
    let mut m = BusPathfindingManager::new();
    m.insert_route(info);
    m.insert_route(BusRouteInfo { route_id: "abcd".to_string(), stations: names(&["B"]), is_circular: false, max_vehicles: 1 });
    assert_eq!(m.bus_routes.len(), 1);
    assert_eq!(m.bus_routes[0].stations, names(&["B"]));
}

#[test]
fn smart_lines_pair_joined_stations() {
    let g = graph();
    let st = names(&["A", "B", "C"]);
    assert_eq!(analyze_station_connectivity(&g, &st), names(&["A", "B"]));
    assert_eq!(generate_smart_bus_routes(&g, &st), vec![(0, 1)]);
    let (_, agent, pos, _) = spawn_smart_bus(&g, "智能路线_1", &names(&["A", "B"])).expect("a smart bus");
    assert_eq!(pos, GridPos::new(0, 0));
    assert!(route_still_valid(&g, &agent));
    let broken = bus_agent(&["A", "C"], 0, BusDirection::Forward);
    assert!(!route_still_valid(&g, &broken));
}

#[test]
fn regeneration_and_cleanup_timers() {
    assert!(!should_regenerate_buses(false, 10_000, 0));
    assert!(!should_regenerate_buses(true, 2_000, 0));
    assert!(should_regenerate_buses(true, 2_001, 0));
    assert_eq!(advance_cleanup_timer(9_000, 1_000), (10_000, false));
    assert_eq!(advance_cleanup_timer(9_000, 1_001), (0, true));
}
