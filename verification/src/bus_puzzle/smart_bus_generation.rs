use vstd::prelude::*;

use crate::bus_puzzle::bus_pathfinding_system::{
    bus_palette, name_views, stations_joined, BusPathfindingAgent, BusPathfindingState,
};
use crate::bus_puzzle::bus_system::{BusDirection, BusState, BusVehicle};
use crate::bus_puzzle::components::GridPos;
use crate::bus_puzzle::pathfinding::{find_optimal_path, no_walk_cheaper, path_cells, path_follows, walk_cost, PathNode};
use crate::bus_puzzle::resources::PathfindingGraph;
use crate::bus_puzzle::text::{owned, text_eq};
use crate::bus_puzzle::utils::Rgb;

verus! {

/// The stations that lead somewhere: known to the graph, with connections listed for
/// their cell.
pub open spec fn connected_names(g: &PathfindingGraph, names: Seq<Seq<char>>) -> Seq<Seq<char>>
    decreases names.len(),
{
    if names.len() == 0 {
        Seq::empty()
    } else {
        let before = connected_names(g, names.drop_last());
        let n = names.last();
        if g.has_station(n) && g.has_entry(g.station_position(n)) {
            before.push(n)
        } else {
            before
        }
    }
}

/// Whether connections are listed for `p`.
fn has_connection_entry(g: &PathfindingGraph, p: GridPos) -> (r: bool)
    ensures
        r == g.has_entry(p),
{
    let mut i: usize = 0;
    while i < g.connections.len()
        invariant
            i <= g.connections@.len(),
            forall|k: int| 0 <= k < i ==> g.connections@[k].0 != p,
        decreases g.connections.len() - i,
    {
        if g.connections[i].0 == p {
            assert(g.connections@[i as int].0 == p);
            return true;
        }
        i = i + 1;
    }
    false
}

/// The stations, in order, from which the graph leads on.
pub fn analyze_station_connectivity(pathfinding_graph: &PathfindingGraph, station_names: &Vec<String>) -> (r: Vec<String>)
    requires
        pathfinding_graph.well_formed(),
    ensures
        name_views(r@) == connected_names(pathfinding_graph, name_views(station_names@)),
{
    let ghost names = name_views(station_names@);
    let mut connected_stations: Vec<String> = Vec::new();
    let mut i: usize = 0;
    while i < station_names.len()
        invariant
            pathfinding_graph.well_formed(),
            names == name_views(station_names@),
            i <= station_names@.len(),
            name_views(connected_stations@) == connected_names(pathfinding_graph, names.take(i as int)),
        decreases station_names.len() - i,
    {
        proof {
            assert(names.take(i + 1).drop_last() =~= names.take(i as int));
            assert(names.take(i + 1).last() == station_names@[i as int]@);
        }
        match pathfinding_graph.get_station_position(station_names[i].as_str()) {
            Some(station_pos) => {
                if has_connection_entry(pathfinding_graph, station_pos) {
                    let ghost before = connected_stations@;
                    connected_stations.push(owned(station_names[i].as_str()));
                    proof {
                        assert(name_views(connected_stations@) =~= name_views(before).push(station_names@[i as int]@));
                    }
                }
            },
            None => {},
        }
        i = i + 1;
    }
    assert(names.take(names.len() as int) =~= names);
    connected_stations
}

/// The first station after `from`, starting the search at `j`, not yet taken by a line and
/// joined to the station `i`.
pub open spec fn first_partner(g: &PathfindingGraph, names: Seq<Seq<char>>, taken: Set<Seq<char>>, i: int, j: int) -> Option<int>
    decreases names.len() - j,
{
    if j >= names.len() || j < 0 {
        None
    } else if !taken.contains(names[j]) && stations_joined(g, names[i], names[j]) {
        Some(j)
    } else {
        first_partner(g, names, taken, i, j + 1)
    }
}

/// The lines of two stations made from the first `i` stations of the list: each station not
/// yet on a line is paired with the first later station not on a line that it is joined
/// to. Returns the pairs made and the names now on a line.
pub open spec fn smart_lines(g: &PathfindingGraph, names: Seq<Seq<char>>, i: nat) -> (Seq<(int, int)>, Set<Seq<char>>)
    decreases i,
{
    if i == 0 {
        (Seq::empty(), Set::empty())
    } else {
        let prev = smart_lines(g, names, (i - 1) as nat);
        let s = i - 1;
        if s >= names.len() || prev.1.contains(names[s]) {
            prev
        } else {
            match first_partner(g, names, prev.1, s, s + 1) {
                Some(j) => (prev.0.push((s, j)), prev.1.insert(names[s]).insert(names[j])),
                None => prev,
            }
        }
    }
}

/// Whether `name` is among `names` taken so far.
fn taken_contains(taken: &Vec<String>, name: &String) -> (r: bool)
    ensures
        r == name_views(taken@).contains(name@),
{
    let mut i: usize = 0;
    while i < taken.len()
        invariant
            i <= taken@.len(),
            forall|k: int| 0 <= k < i ==> taken@[k]@ != name@,
        decreases taken.len() - i,
    {
        if text_eq(taken[i].as_str(), name.as_str()) {
            assert(name_views(taken@)[i as int] == name@);
            return true;
        }
        i = i + 1;
    }
    assert forall|k: int| 0 <= k < name_views(taken@).len() implies name_views(taken@)[k] != name@ by {}
    false
}

/// The partner of station `i` from `j` on.
fn find_partner(
    pathfinding_graph: &PathfindingGraph,
    station_names: &Vec<String>,
    taken: &Vec<String>,
    i: usize,
    j: usize,
) -> (r: Option<usize>)
    requires
        pathfinding_graph.well_formed(),
        i < station_names@.len(),
        j <= station_names@.len(),
    ensures
        r matches Some(k) ==> k < station_names@.len(),
        (match r {
            Some(k) => Some(k as int),
            None => None,
        }) == first_partner(
            pathfinding_graph,
            name_views(station_names@),
            name_views(taken@).to_set(),
            i as int,
            j as int,
        ),
    decreases station_names@.len() - j,
{
    let ghost names = name_views(station_names@);
    if j >= station_names.len() {
        return None;
    }
    let is_taken = taken_contains(taken, &station_names[j]);
    proof {
        assert(name_views(taken@).contains(station_names@[j as int]@) == name_views(taken@).to_set().contains(names[j as int]));
    }
    if !is_taken {
        match find_optimal_path(pathfinding_graph, station_names[i].as_str(), station_names[j].as_str()) {
            Some(path) => {
                if path.len() > 1 {
                    return Some(j);
                }
            },
            None => {},
        }
    }
    find_partner(pathfinding_graph, station_names, taken, i, j + 1)
}

/// The lines of two stations the smart buses serve: each station not yet on a line is
/// paired with the first later station not yet on a line that a path joins it to.
pub fn generate_smart_bus_routes(pathfinding_graph: &PathfindingGraph, station_names: &Vec<String>) -> (r: Vec<(usize, usize)>)
    requires
        pathfinding_graph.well_formed(),
    ensures
        r@.len() == smart_lines(pathfinding_graph, name_views(station_names@), station_names@.len() as nat).0.len(),
        forall|k: int|
            #![trigger r@[k]]
            0 <= k < r@.len() ==> r@[k].0 as int == smart_lines(
                pathfinding_graph,
                name_views(station_names@),
                station_names@.len() as nat,
            ).0[k].0 && r@[k].1 as int == smart_lines(
                pathfinding_graph,
                name_views(station_names@),
                station_names@.len() as nat,
            ).0[k].1,
{
    let ghost names = name_views(station_names@);
    let mut lines: Vec<(usize, usize)> = Vec::new();
    let mut taken: Vec<String> = Vec::new();
    let mut i: usize = 0;
    proof {
        assert(name_views(taken@).to_set() =~= Set::<Seq<char>>::empty());
    }
    while i < station_names.len()
        invariant
            pathfinding_graph.well_formed(),
            names == name_views(station_names@),
            i <= station_names@.len(),
            lines@.len() == smart_lines(pathfinding_graph, names, i as nat).0.len(),
            forall|k: int|
                #![trigger lines@[k]]
                0 <= k < lines@.len() ==> lines@[k].0 as int == smart_lines(pathfinding_graph, names, i as nat).0[k].0
                    && lines@[k].1 as int == smart_lines(pathfinding_graph, names, i as nat).0[k].1,
            name_views(taken@).to_set() == smart_lines(pathfinding_graph, names, i as nat).1,
        decreases station_names.len() - i,
    {
        let ghost prev = smart_lines(pathfinding_graph, names, i as nat);
        let ghost lines_before = lines@;
        let is_taken = taken_contains(&taken, &station_names[i]);
        if !is_taken {
            match find_partner(pathfinding_graph, station_names, &taken, i, i + 1) {
                Some(j) => {
                    lines.push((i, j));
                    let ghost taken_before = taken@;
                    taken.push(owned(station_names[i].as_str()));
                    taken.push(owned(station_names[j].as_str()));
                    proof {
                        assert(name_views(taken@) =~= name_views(taken_before).push(names[i as int]).push(names[j as int]));
                        assert(name_views(taken@).to_set() =~= prev.1.insert(names[i as int]).insert(names[j as int])) by {
                            name_views(taken_before).lemma_push_to_set_commute(names[i as int]);
                            name_views(taken_before).push(names[i as int]).lemma_push_to_set_commute(names[j as int]);
                        }
                        assert forall|k: int|
                            #![trigger lines@[k]]
                            0 <= k < lines@.len() implies lines@[k].0 as int == smart_lines(pathfinding_graph, names, (i + 1) as nat).0[k].0
                                && lines@[k].1 as int == smart_lines(pathfinding_graph, names, (i + 1) as nat).0[k].1 by {
                            if k < lines_before.len() {
                                assert(lines@[k] == lines_before[k]);
                            }
                        }
                    }
                },
                None => {},
            }
        }
        i = i + 1;
    }
    lines
}

/// `bus` and `agent` are a smart bus on the line `stations` numbered by `route_id`, set on
/// its way from the first station to the second (or to the first when there is only one)
/// along `path`, drawn in `color`.
pub open spec fn smart_bus_is(
    bus: BusVehicle,
    agent: BusPathfindingAgent,
    color: Rgb,
    route_id: Seq<char>,
    stations: Seq<Seq<char>>,
) -> bool {
    let target = if stations.len() > 1 { stations[1] } else { stations[0] };
    &&& color == bus_palette((vstd::utf8::encode_utf8(route_id).len() as usize) as int % 4)
    &&& bus.vehicle_id@ == "智能公交_"@ + route_id
    &&& bus.route_id@ == route_id
    &&& bus.capacity == 30
    &&& bus.current_passengers@.len() == 0
    &&& bus.current_stop_index == 0
    &&& bus.direction == BusDirection::Forward
    &&& bus.state == BusState::Traveling
    &&& bus.speed == 80
    &&& bus.dwell_time == 3000
    &&& bus.remaining_dwell == 0
    &&& agent.vehicle_id@ == bus.vehicle_id@
    &&& agent.route_id@ == route_id
    &&& agent.current_step == 0
    &&& agent.target_station@ == target
    &&& agent.state == BusPathfindingState::Following
    &&& agent.next_station_index == 1
    &&& name_views(agent.stations_to_visit@) == stations
    &&& agent.direction == BusDirection::Forward
    &&& !agent.is_returning
}

/// A smart bus for the line `stations`, numbered by `route_id`: its vehicle, its
/// path-finding state with the path to its first target (empty when there is none), the
/// cell of its first station and its colour. None when the line has no station or its
/// first station is unknown.
pub fn spawn_smart_bus(
    pathfinding_graph: &PathfindingGraph,
    route_id: &str,
    stations: &Vec<String>,
) -> (r: Option<(BusVehicle, BusPathfindingAgent, GridPos, Rgb)>)
    requires
        pathfinding_graph.well_formed(),
    ensures
        r is Some <==> stations@.len() > 0 && pathfinding_graph.has_station(stations@[0]@),
        r matches Some(b) ==> b.2 == pathfinding_graph.station_position(stations@[0]@) && smart_bus_is(
            b.0,
            b.1,
            b.3,
            route_id@,
            name_views(stations@),
        ) && (b.1.current_path@.len() == 0 || path_follows(
            pathfinding_graph,
            b.1.current_path@,
            pathfinding_graph.station_position(stations@[0]@),
            pathfinding_graph.station_position(b.1.target_station@),
        )) && (b.1.current_path@.len() > 0 ==> no_walk_cheaper(
            pathfinding_graph,
            pathfinding_graph.station_position(stations@[0]@),
            pathfinding_graph.station_position(b.1.target_station@),
            walk_cost(pathfinding_graph, path_cells(b.1.current_path@)),
        )),
{
    if stations.len() == 0 {
        return None;
    }
    let start_station = &stations[0];
    let start_pos = match pathfinding_graph.get_station_position(start_station.as_str()) {
        Some(p) => p,
        None => {
            return None;
        },
    };
    let color_index = route_id.len() % 4;
    let color = if color_index == 0 {
        Rgb { r: 100, g: 20, b: 20 }
    } else if color_index == 1 {
        Rgb { r: 20, g: 100, b: 20 }
    } else if color_index == 2 {
        Rgb { r: 20, g: 20, b: 100 }
    } else {
        Rgb { r: 100, g: 100, b: 20 }
    };
    let mut vehicle_id = owned("智能公交_");
    vehicle_id.append(route_id);
    let initial_target = if stations.len() > 1 {
        owned(stations[1].as_str())
    } else {
        owned(start_station.as_str())
    };
    let initial_path = match find_optimal_path(pathfinding_graph, start_station.as_str(), initial_target.as_str()) {
        Some(p) => p,
        None => Vec::new(),
    };
    let mut visit: Vec<String> = Vec::new();
    let mut k: usize = 0;
    while k < stations.len()
        invariant
            k <= stations@.len(),
            visit@.len() == k,
            forall|x: int| 0 <= x < k ==> #[trigger] visit@[x]@ == stations@[x]@,
        decreases stations.len() - k,
    {
        visit.push(owned(stations[k].as_str()));
        k = k + 1;
    }
    proof {
        assert(name_views(visit@) =~= name_views(stations@));
    }
    let bus = BusVehicle {
        vehicle_id: owned(vehicle_id.as_str()),
        route_id: owned(route_id),
        capacity: 30,
        current_passengers: Vec::new(),
        current_stop_index: 0,
        direction: BusDirection::Forward,
        state: BusState::Traveling,
        speed: 80,
        dwell_time: 3000,
        remaining_dwell: 0,
    };
    let agent = BusPathfindingAgent {
        vehicle_id,
        route_id: owned(route_id),
        current_path: initial_path,
        current_step: 0,
        target_station: initial_target,
        state: BusPathfindingState::Following,
        next_station_index: 1,
        stations_to_visit: visit,
        direction: BusDirection::Forward,
        is_returning: false,
    };
    proof {
        assert(smart_bus_is(bus, agent, color, route_id@, name_views(stations@)));
    }
    Some((bus, agent, start_pos, color))
}

/// Every two stations following each other on the bus's line are still joined by a path.
pub open spec fn line_still_valid(g: &PathfindingGraph, stations: Seq<Seq<char>>) -> bool {
    forall|i: int| 0 <= i < stations.len() - 1 ==> #[trigger] hop_ok(g, stations, i)
}

/// The station at `i` of the line is joined by a path to the one after it.
pub open spec fn hop_ok(g: &PathfindingGraph, stations: Seq<Seq<char>>, i: int) -> bool {
    &&& g.has_station(stations[i])
    &&& g.has_station(stations[i + 1])
    &&& g.reachable(g.station_position(stations[i]), g.station_position(stations[i + 1]))
}

/// Whether the bus's line can still be driven.
pub fn route_still_valid(pathfinding_graph: &PathfindingGraph, bus_agent: &BusPathfindingAgent) -> (r: bool)
    requires
        pathfinding_graph.well_formed(),
    ensures
        r == line_still_valid(pathfinding_graph, name_views(bus_agent.stations_to_visit@)),
{
    let ghost names = name_views(bus_agent.stations_to_visit@);
    let n = bus_agent.stations_to_visit.len();
    let last = if n > 0 { n - 1 } else { 0 };
    let mut i: usize = 0;
    while i < last
        invariant
            pathfinding_graph.well_formed(),
            names == name_views(bus_agent.stations_to_visit@),
            n == names.len(),
            last == if n > 0 { n - 1 } else { 0 },
            i <= last,
            forall|k: int| 0 <= k < i ==> #[trigger] hop_ok(pathfinding_graph, names, k),
        decreases last - i,
    {
        let from = &bus_agent.stations_to_visit[i];
        let to = &bus_agent.stations_to_visit[i + 1];
        if find_optimal_path(pathfinding_graph, from.as_str(), to.as_str()).is_none() {
            assert(!hop_ok(pathfinding_graph, names, i as int));
            return false;
        }
        assert(hop_ok(pathfinding_graph, names, i as int));
        i = i + 1;
    }
    true
}

/// The regeneration of buses after a change to the routes waits two seconds after the last
/// one.
pub fn should_regenerate_buses(has_route_changes: bool, now_ms: u64, last_trigger_ms: u64) -> (r: bool)
    ensures
        r == (has_route_changes && now_ms > last_trigger_ms + 2000),
{
    has_route_changes && (now_ms as u128) > (last_trigger_ms as u128) + 2000
}

/// The check for buses whose line broke runs every ten seconds: the timer moves on by
/// `dt_ms` and, past ten seconds, starts again and asks for the check.
pub fn advance_cleanup_timer(timer_ms: u64, dt_ms: u64) -> (r: (u64, bool))
    requires
        timer_ms + dt_ms <= u64::MAX,
    ensures
        timer_ms + dt_ms > 10_000 ==> r == (0u64, true),
        timer_ms + dt_ms <= 10_000 ==> r == ((timer_ms + dt_ms) as u64, false),
{
    let t = timer_ms + dt_ms;
    if t > 10_000 {
        (0, true)
    } else {
        (t, false)
    }
}

} // verus!
