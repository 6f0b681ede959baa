use vstd::prelude::*;

use crate::bus_puzzle::bus_system::{BusDirection, BusState, BusVehicle};
use crate::bus_puzzle::components::{AgentState, GridPos};
use crate::bus_puzzle::interaction::PathfindingAgent;
use crate::bus_puzzle::pathfinding::{
    find_optimal_path, no_walk_cheaper, path_cells, path_follows, path_steps_described, positions_distinct, walk_cost,
    PathNode, PathNodeType,
};
use crate::bus_puzzle::level_system::{LevelData, PassengerDemand};
use crate::bus_puzzle::resources::{GameState, PathfindingGraph};
use crate::bus_puzzle::text::{decimal_text, owned, prefixed_number, text_eq};
use crate::bus_puzzle::utils::Rgb;

verus! {

/// What a bus driven by the path finder is doing.
#[derive(Debug, Clone, Copy, PartialEq, Eq, Structural)]
pub enum BusPathfindingState {
    Planning,
    Following,
    AtStation,
    TurningAround,
    WaitingForPath,
}

/// The path finder's view of a bus: the stations of its line, the one it heads for, the
/// path it follows there and how far along it is.
#[derive(Debug)]
pub struct BusPathfindingAgent {
    pub vehicle_id: String,
    pub route_id: String,
    pub current_path: Vec<PathNode>,
    pub current_step: usize,
    pub target_station: String,
    pub state: BusPathfindingState,
    pub next_station_index: usize,
    pub stations_to_visit: Vec<String>,
    pub direction: BusDirection,
    pub is_returning: bool,
}

/// A line served by path-finding buses: its stations in order.
#[derive(Debug)]
pub struct BusRouteInfo {
    pub route_id: String,
    pub stations: Vec<String>,
    pub is_circular: bool,
    pub max_vehicles: u32,
}

/// The lines in service.
#[derive(Debug)]
pub struct BusPathfindingManager {
    pub bus_routes: Vec<BusRouteInfo>,
}

/// The station a bus heads for next: the one after its current index going forwards, the
/// one before going backwards; none at either end of the line.
pub open spec fn next_target_index(agent: BusPathfindingAgent) -> Option<int> {
    let n = agent.stations_to_visit@.len();
    if n == 0 {
        None
    } else {
        match agent.direction {
            BusDirection::Forward => if agent.next_station_index + 1 < n {
                Some(agent.next_station_index + 1)
            } else {
                None
            },
            BusDirection::Backward => if agent.next_station_index > 0 {
                Some(agent.next_station_index - 1)
            } else {
                None
            },
        }
    }
}

/// A bus running backwards never stands past the end of its line.
pub open spec fn agent_in_line(agent: BusPathfindingAgent) -> bool {
    agent.direction == BusDirection::Backward ==> agent.next_station_index <= agent.stations_to_visit@.len()
}

/// The station after the one at the bus's index going forwards, or the one before it going
/// backwards; none at either end of the line.
pub fn get_next_station_target_fixed(agent: &BusPathfindingAgent) -> (r: Option<String>)
    requires
        agent_in_line(*agent),
    ensures
        r is Some <==> next_target_index(*agent) is Some,
        r matches Some(s) ==> s@ == agent.stations_to_visit@[next_target_index(*agent)->0]@,
{
    let stations = &agent.stations_to_visit;
    if stations.len() == 0 {
        return None;
    }
    match agent.direction {
        BusDirection::Forward => {
            if agent.next_station_index < stations.len() - 1 {
                Some(owned(stations[agent.next_station_index + 1].as_str()))
            } else {
                None
            }
        },
        BusDirection::Backward => {
            if agent.next_station_index > 0 {
                Some(owned(stations[agent.next_station_index - 1].as_str()))
            } else {
                None
            }
        },
    }
}

/// The station at the bus's current index going forwards, or the one before it going
/// backwards; none past the end of the line or at its start.
pub fn get_next_station_target(agent: &BusPathfindingAgent) -> (r: Option<String>)
    ensures
        agent.stations_to_visit@.len() == 0 ==> r is None,
        agent.stations_to_visit@.len() > 0 && agent.direction == BusDirection::Forward ==> (r is Some
            <==> agent.next_station_index < agent.stations_to_visit@.len()) && (r matches Some(s) ==> s@
            == agent.stations_to_visit@[agent.next_station_index as int]@),
        agent.stations_to_visit@.len() > 0 && agent.direction == BusDirection::Backward ==> (r is Some
            <==> agent.next_station_index > 0 && agent.next_station_index <= agent.stations_to_visit@.len())
            && (r matches Some(s) ==> s@ == agent.stations_to_visit@[agent.next_station_index - 1]@),
{
    let stations = &agent.stations_to_visit;
    if stations.len() == 0 {
        return None;
    }
    match agent.direction {
        BusDirection::Forward => {
            if agent.next_station_index < stations.len() {
                Some(owned(stations[agent.next_station_index].as_str()))
            } else {
                None
            }
        },
        BusDirection::Backward => {
            if agent.next_station_index > 0 && agent.next_station_index <= stations.len() {
                Some(owned(stations[agent.next_station_index - 1].as_str()))
            } else {
                None
            }
        },
    }
}

/// The station a bus heads for next, whose index `update_bus_pathfinding` has already moved
/// on when the bus left its last station: the one at the bus's index going forwards, the one
/// before it going backwards; none past either end of the line.
pub open spec fn target_index(agent: BusPathfindingAgent) -> Option<int> {
    let n = agent.stations_to_visit@.len();
    if n == 0 {
        None
    } else {
        match agent.direction {
            BusDirection::Forward => if agent.next_station_index < n {
                Some(agent.next_station_index as int)
            } else {
                None
            },
            BusDirection::Backward => if 0 < agent.next_station_index <= n {
                Some(agent.next_station_index - 1)
            } else {
                None
            },
        }
    }
}

/// Turns a bus around at the end of its line: it reverses, restarts from the end it
/// reached, marks whether it is on its way back and plans again.
pub fn turn_around_pathfinding(agent: &mut BusPathfindingAgent)
    ensures
        final(agent).direction == (match old(agent).direction {
            BusDirection::Forward => BusDirection::Backward,
            BusDirection::Backward => BusDirection::Forward,
        }),
        final(agent).next_station_index == (match old(agent).direction {
            BusDirection::Forward => if old(agent).stations_to_visit@.len() > 0 {
                (old(agent).stations_to_visit@.len() - 1) as usize
            } else {
                0usize
            },
            BusDirection::Backward => 0usize,
        }),
        final(agent).is_returning == !old(agent).is_returning,
        final(agent).state == BusPathfindingState::Planning,
        final(agent).stations_to_visit == old(agent).stations_to_visit,
        final(agent).target_station == old(agent).target_station,
        final(agent).current_path == old(agent).current_path,
        final(agent).current_step == old(agent).current_step,
{
    match agent.direction {
        BusDirection::Forward => {
            agent.next_station_index = if agent.stations_to_visit.len() > 0 {
                agent.stations_to_visit.len() - 1
            } else {
                0
            };
            agent.direction = BusDirection::Backward;
        },
        BusDirection::Backward => {
            agent.next_station_index = 0;
            agent.direction = BusDirection::Forward;
        },
    }
    agent.is_returning = !agent.is_returning;
    agent.state = BusPathfindingState::Planning;
}

/// Two station names are joined in the graph: both are known, at different cells, and a
/// walk leads from the first to the second.
pub open spec fn stations_joined(g: &PathfindingGraph, a: Seq<char>, b: Seq<char>) -> bool {
    &&& g.has_station(a)
    &&& g.has_station(b)
    &&& g.station_position(a) != g.station_position(b)
    &&& g.reachable(g.station_position(a), g.station_position(b))
}

/// Plans the bus's way to its next station (see `target_index`): with no next station it
/// turns around; when a path there exists it follows it from its start; otherwise it waits
/// for one.
pub fn plan_next_route(agent: &mut BusPathfindingAgent, pathfinding_graph: &PathfindingGraph)
    requires
        pathfinding_graph.well_formed(),
    ensures
        target_index(*old(agent)) is None ==> final(agent).state == BusPathfindingState::TurningAround
            && final(agent).target_station == old(agent).target_station
            && final(agent).current_path == old(agent).current_path,
        target_index(*old(agent)) matches Some(k) ==> {
            let from = old(agent).target_station@;
            let to = old(agent).stations_to_visit@[k]@;
            let found = pathfinding_graph.has_station(from) && pathfinding_graph.has_station(to)
                && pathfinding_graph.reachable(pathfinding_graph.station_position(from), pathfinding_graph.station_position(to));
            &&& found ==> final(agent).state == BusPathfindingState::Following && final(agent).target_station@ == to
                && final(agent).current_step == 0 && path_follows(
                pathfinding_graph,
                final(agent).current_path@,
                pathfinding_graph.station_position(from),
                pathfinding_graph.station_position(to),
            ) && positions_distinct(final(agent).current_path@) && no_walk_cheaper(
                pathfinding_graph,
                pathfinding_graph.station_position(from),
                pathfinding_graph.station_position(to),
                walk_cost(pathfinding_graph, path_cells(final(agent).current_path@)),
            ) && (pathfinding_graph.station_position(from) != pathfinding_graph.station_position(to)
                ==> final(agent).current_path@.len() >= 2 && path_steps_described(
                pathfinding_graph,
                final(agent).current_path@,
            )) && (pathfinding_graph.station_position(from) == pathfinding_graph.station_position(to)
                ==> final(agent).current_path@.len() == 1 && (final(agent).current_path@[0].node_type matches PathNodeType::Station(s) && s@ == to)
                && final(agent).current_path@[0].estimated_wait_time == 0 && final(agent).current_path@[0].route_id is None)
            &&& !found ==> final(agent).state == BusPathfindingState::WaitingForPath
                && final(agent).target_station == old(agent).target_station
                && final(agent).current_path == old(agent).current_path
        },
        final(agent).stations_to_visit == old(agent).stations_to_visit,
        final(agent).next_station_index == old(agent).next_station_index,
        final(agent).direction == old(agent).direction,
        final(agent).is_returning == old(agent).is_returning,
{
    let next_target = get_next_station_target(agent);
    match next_target {
        Some(target) => {
            match find_optimal_path(pathfinding_graph, agent.target_station.as_str(), target.as_str()) {
                Some(path) => {
                    agent.current_path = path;
                    agent.current_step = 0;
                    agent.target_station = target;
                    agent.state = BusPathfindingState::Following;
                },
                None => {
                    agent.state = BusPathfindingState::WaitingForPath;
                },
            }
        },
        None => {
            agent.state = BusPathfindingState::TurningAround;
        },
    }
}

/// Whether some pair of the listed stations is joined in the graph.
pub open spec fn any_joined(g: &PathfindingGraph, names: Seq<Seq<char>>) -> bool {
    exists|i: int, j: int| 0 <= i < j < names.len() && #[trigger] stations_joined(g, names[i], names[j])
}

/// The views of a list of names.
pub open spec fn name_views(names: Seq<String>) -> Seq<Seq<char>> {
    names.map_values(|n: String| n@)
}

/// Whether a path of more than one step leads between the two named stations.
fn joined(pathfinding_graph: &PathfindingGraph, a: &String, b: &String) -> (r: Option<Vec<PathNode>>)
    requires
        pathfinding_graph.well_formed(),
    ensures
        r is Some <==> stations_joined(pathfinding_graph, a@, b@),
        r matches Some(path) ==> path@.len() >= 2 && path_follows(
            pathfinding_graph,
            path@,
            pathfinding_graph.station_position(a@),
            pathfinding_graph.station_position(b@),
        ),
{
    match find_optimal_path(pathfinding_graph, a.as_str(), b.as_str()) {
        Some(path) => {
            if path.len() > 1 {
                Some(path)
            } else {
                None
            }
        },
        None => None,
    }
}

/// Whether any two of the stations are already joined by a path.
pub fn has_station_connections(pathfinding_graph: &PathfindingGraph, station_names: &Vec<String>) -> (r: bool)
    requires
        pathfinding_graph.well_formed(),
    ensures
        r == any_joined(pathfinding_graph, name_views(station_names@)),
{
    let ghost names = name_views(station_names@);
    let mut i: usize = 0;
    while i < station_names.len()
        invariant
            pathfinding_graph.well_formed(),
            names == name_views(station_names@),
            i <= station_names@.len(),
            forall|a: int, b: int| 0 <= a < i && a < b < names.len() ==> !#[trigger] stations_joined(pathfinding_graph, names[a], names[b]),
        decreases station_names.len() - i,
    {
        let mut j: usize = i + 1;
        while j < station_names.len()
            invariant
                pathfinding_graph.well_formed(),
                names == name_views(station_names@),
                i < station_names@.len(),
                i + 1 <= j <= station_names@.len(),
                forall|a: int, b: int| 0 <= a < i && a < b < names.len() ==> !#[trigger] stations_joined(pathfinding_graph, names[a], names[b]),
                forall|b: int| i < b < j ==> !#[trigger] stations_joined(pathfinding_graph, names[i as int], names[b]),
            decreases station_names.len() - j,
        {
            if joined(pathfinding_graph, &station_names[i], &station_names[j]).is_some() {
                assert(stations_joined(pathfinding_graph, names[i as int], names[j as int]));
                return true;
            }
            j = j + 1;
        }
        i = i + 1;
    }
    false
}

/// The names of a line found along a path: the first station, each station met inside the
/// path the first time it is met, and the last station.
pub open spec fn stations_met(first: Seq<char>, inner: Seq<PathNode>) -> Seq<Seq<char>>
    decreases inner.len(),
{
    if inner.len() == 0 {
        seq![first]
    } else {
        let before = stations_met(first, inner.drop_last());
        match inner.last().node_type {
            PathNodeType::Station(s) => if before.contains(s@) {
                before
            } else {
                before.push(s@)
            },
            _ => before,
        }
    }
}

/// The pair `(i, j)` of the station list comes before `(k, l)` in the order the pairs are
/// tried: row by row.
pub open spec fn pair_before(i: int, j: int, k: int, l: int) -> bool {
    i < k || (i == k && j < l)
}

/// The pair `(i, j)` names the same two stations as an earlier pair.
pub open spec fn pair_seen(names: Seq<Seq<char>>, i: int, j: int) -> bool {
    exists|a: int, b: int|
        0 <= a < b < names.len() && pair_before(a, b, i, j) && ((names[a] == names[i] && names[b] == names[j])
            || (names[a] == names[j] && names[b] == names[i]))
}

/// The pair `(i, j)` gets a line: it is a new pair and its stations are joined.
pub open spec fn pair_served(g: &PathfindingGraph, names: Seq<Seq<char>>, i: int, j: int) -> bool {
    &&& 0 <= i < j < names.len()
    &&& !pair_seen(names, i, j)
    &&& stations_joined(g, names[i], names[j])
}

/// The pairs that get a line among those tried before `(i, j)`, in order.
pub open spec fn served_pairs(g: &PathfindingGraph, names: Seq<Seq<char>>, i: nat, j: nat) -> Seq<(int, int)>
    decreases i, j,
{
    if j == 0 {
        if i == 0 {
            Seq::empty()
        } else {
            served_pairs(g, names, (i - 1) as nat, names.len())
        }
    } else {
        let before = served_pairs(g, names, i, (j - 1) as nat);
        if pair_served(g, names, i as int, j - 1) {
            before.push((i as int, j - 1))
        } else {
            before
        }
    }
}

/// `route` is the line numbered `k` between the named stations, over the stations met
/// along some path between them.
pub open spec fn line_is(route: BusRouteInfo, g: &PathfindingGraph, k: int, a: Seq<char>, b: Seq<char>) -> bool {
    &&& route.route_id@ == "智能路线_"@ + decimal_text(k + 1)
    &&& !route.is_circular
    &&& route.max_vehicles == 1
    &&& exists|p: Seq<PathNode>|
        #[trigger] path_follows(g, p, g.station_position(a), g.station_position(b)) && p.len() >= 2
            && name_views(route.stations@) == stations_met(a, p.subrange(1, p.len() - 1)).push(b)
}

/// Whether `(a, b)` was already seen, in either order.
fn pair_listed(seen: &Vec<(usize, usize)>, station_names: &Vec<String>, i: usize, j: usize) -> (r: bool)
    requires
        i < station_names@.len(),
        j < station_names@.len(),
        forall|x: int| 0 <= x < seen@.len() ==> (#[trigger] seen@[x]).0 < station_names@.len() && seen@[x].1 < station_names@.len(),
    ensures
        r == exists|x: int| 0 <= x < seen@.len() && {
            let (a, b) = #[trigger] seen@[x];
            (station_names@[a as int]@ == station_names@[i as int]@ && station_names@[b as int]@ == station_names@[j as int]@)
                || (station_names@[a as int]@ == station_names@[j as int]@ && station_names@[b as int]@ == station_names@[i as int]@)
        },
{
    let mut x: usize = 0;
    while x < seen.len()
        invariant
            x <= seen@.len(),
            i < station_names@.len(),
            j < station_names@.len(),
            forall|y: int| 0 <= y < seen@.len() ==> (#[trigger] seen@[y]).0 < station_names@.len() && seen@[y].1 < station_names@.len(),
            forall|y: int| 0 <= y < x ==> !{
                let (a, b) = #[trigger] seen@[y];
                (station_names@[a as int]@ == station_names@[i as int]@ && station_names@[b as int]@ == station_names@[j as int]@)
                    || (station_names@[a as int]@ == station_names@[j as int]@ && station_names@[b as int]@ == station_names@[i as int]@)
            },
        decreases seen.len() - x,
    {
        let (a, b) = seen[x];
        let same = text_eq(station_names[a].as_str(), station_names[i].as_str()) && text_eq(station_names[b].as_str(), station_names[j].as_str());
        let swapped = text_eq(station_names[a].as_str(), station_names[j].as_str()) && text_eq(station_names[b].as_str(), station_names[i].as_str());
        if same || swapped {
            assert(seen@[x as int] == (a, b));
            return true;
        }
        x = x + 1;
    }
    false
}

/// Whether `s` is among `list`.
fn contains_name(list: &Vec<String>, s: &String) -> (r: bool)
    ensures
        r == name_views(list@).contains(s@),
{
    let ghost v = name_views(list@);
    let mut i: usize = 0;
    while i < list.len()
        invariant
            v == name_views(list@),
            i <= list@.len(),
            forall|k: int| 0 <= k < i ==> v[k] != s@,
        decreases list.len() - i,
    {
        if text_eq(list[i].as_str(), s.as_str()) {
            assert(v[i as int] == s@);
            return true;
        }
        i = i + 1;
    }
    false
}

/// The line between the named stations along `path`, numbered `number`.
fn line_along(number: i128, start: &String, end: &String, path: &Vec<PathNode>) -> (r: BusRouteInfo)
    requires
        path@.len() >= 2,
    ensures
        r.route_id@ == "智能路线_"@ + decimal_text(number as int),
        !r.is_circular,
        r.max_vehicles == 1,
        name_views(r.stations@) == stations_met(start@, path@.subrange(1, path@.len() - 1)).push(end@),
{
    let ghost inner = path@.subrange(1, path@.len() - 1);
    let mut route_stations: Vec<String> = Vec::new();
    route_stations.push(owned(start.as_str()));
    proof {
        assert(name_views(route_stations@) =~= seq![start@]);
        assert(inner.take(0) =~= Seq::<PathNode>::empty());
    }
    let mut k: usize = 1;
    while k < path.len() - 1
        invariant
            path@.len() >= 2,
            inner == path@.subrange(1, path@.len() - 1),
            1 <= k <= path@.len() - 1,
            name_views(route_stations@) == stations_met(start@, inner.take(k - 1)),
        decreases path.len() - 1 - k,
    {
        proof {
            assert(inner.take(k as int).drop_last() =~= inner.take(k - 1));
            assert(inner.take(k as int).last() == path@[k as int]);
        }
        match &path[k].node_type {
            PathNodeType::Station(station_name) => {
                if !contains_name(&route_stations, station_name) {
                    route_stations.push(owned(station_name.as_str()));
                    proof {
                        assert(name_views(route_stations@) =~= stations_met(start@, inner.take(k - 1)).push(station_name@));
                    }
                }
            },
            _ => {},
        }
        k = k + 1;
    }
    proof {
        assert(inner.take(k - 1) =~= inner);
    }
    route_stations.push(owned(end.as_str()));
    proof {
        assert(name_views(route_stations@) =~= stations_met(start@, inner).push(end@));
    }
    let id = prefixed_number("智能路线_", number);
    BusRouteInfo { route_id: id, stations: route_stations, is_circular: false, max_vehicles: 1 }
}

/// Two unordered pairs of positions name the same stations.
pub open spec fn same_pair(names: Seq<Seq<char>>, a: int, b: int, i: int, j: int) -> bool {
    (names[a] == names[i] && names[b] == names[j]) || (names[a] == names[j] && names[b] == names[i])
}

/// The lines found before the pair `(i, j)` match the served pairs.
pub open spec fn routes_match(g: &PathfindingGraph, names: Seq<Seq<char>>, routes: Seq<BusRouteInfo>, i: nat, j: nat) -> bool {
    &&& routes.len() == served_pairs(g, names, i, j).len()
    &&& forall|k: int| #![trigger routes[k]] 0 <= k < routes.len() ==> line_is(
        routes[k],
        g,
        k,
        names[served_pairs(g, names, i, j)[k].0],
        names[served_pairs(g, names, i, j)[k].1],
    )
}

/// The pairs recorded as seen are pairs tried before `(i, j)`, and every pair tried before
/// names the same stations as a recorded one.
pub open spec fn seen_ok(names: Seq<Seq<char>>, seen: Seq<(usize, usize)>, i: int, j: int) -> bool {
    &&& forall|x: int| 0 <= x < seen.len() ==> (#[trigger] seen[x]).0 < seen[x].1 < names.len() && pair_before(
        seen[x].0 as int,
        seen[x].1 as int,
        i,
        j,
    )
    &&& forall|a: int, b: int|
        0 <= a < b < names.len() && #[trigger] pair_before(a, b, i, j) ==> exists|x: int|
            0 <= x < seen.len() && #[trigger] same_pair(names, seen[x].0 as int, seen[x].1 as int, a, b)
}

/// Tries the pair `(i, j)`: a new pair of joined stations gets a line, numbered after the
/// lines found so far.
fn try_pair(
    pathfinding_graph: &PathfindingGraph,
    station_names: &Vec<String>,
    i: usize,
    j: usize,
    routes: &mut Vec<BusRouteInfo>,
    seen: &mut Vec<(usize, usize)>,
)
    requires
        pathfinding_graph.well_formed(),
        i < station_names@.len(),
        j < station_names@.len(),
        routes_match(pathfinding_graph, name_views(station_names@), old(routes)@, i as nat, j as nat),
        seen_ok(name_views(station_names@), old(seen)@, i as int, j as int),
    ensures
        routes_match(pathfinding_graph, name_views(station_names@), final(routes)@, i as nat, (j + 1) as nat),
        seen_ok(name_views(station_names@), final(seen)@, i as int, j + 1),
{
    let ghost names = name_views(station_names@);
    let ghost g = pathfinding_graph;
    let ghost n = names.len();
    let ghost before = served_pairs(g, names, i as nat, j as nat);
    let ghost after = served_pairs(g, names, i as nat, (j + 1) as nat);
    let ghost j1: int = j + 1;
    assert(after == if pair_served(g, names, i as int, j as int) {
        before.push((i as int, j as int))
    } else {
        before
    });
    if i >= j {
        proof {
            assert forall|a: int, b: int|
                0 <= a < b < n && #[trigger] pair_before(a, b, i as int, j1) implies exists|x: int|
                    0 <= x < seen@.len() && #[trigger] same_pair(names, seen@[x].0 as int, seen@[x].1 as int, a, b) by {
                assert(pair_before(a, b, i as int, j as int));
            }
            assert forall|k: int| #![trigger routes@[k]] 0 <= k < routes@.len() implies line_is(
                routes@[k],
                g,
                k,
                names[after[k].0],
                names[after[k].1],
            ) by {}
        }
        return;
    }
    let listed = pair_listed(seen, station_names, i, j);
    proof {
        if listed {
            let x = choose|x: int| 0 <= x < seen@.len() && {
                let (a, b) = #[trigger] seen@[x];
                (station_names@[a as int]@ == station_names@[i as int]@ && station_names@[b as int]@ == station_names@[j as int]@)
                    || (station_names@[a as int]@ == station_names@[j as int]@ && station_names@[b as int]@ == station_names@[i as int]@)
            };
            assert(same_pair(names, seen@[x].0 as int, seen@[x].1 as int, i as int, j as int));
            assert(pair_seen(names, i as int, j as int));
        } else {
            if pair_seen(names, i as int, j as int) {
                let (a, b) = choose|a: int, b: int|
                    0 <= a < b < names.len() && pair_before(a, b, i as int, j as int) && ((names[a] == names[i as int] && names[b] == names[j as int])
                        || (names[a] == names[j as int] && names[b] == names[i as int]));
                let x = choose|x: int| 0 <= x < seen@.len() && #[trigger] same_pair(names, seen@[x].0 as int, seen@[x].1 as int, a, b);
                assert({
                    let (a2, b2) = seen@[x];
                    (station_names@[a2 as int]@ == station_names@[i as int]@ && station_names@[b2 as int]@ == station_names@[j as int]@)
                        || (station_names@[a2 as int]@ == station_names@[j as int]@ && station_names@[b2 as int]@ == station_names@[i as int]@)
                });
                assert(false);
            }
        }
    }
    if listed {
        proof {
            assert forall|a: int, b: int|
                0 <= a < b < n && #[trigger] pair_before(a, b, i as int, j1) implies exists|x: int|
                    0 <= x < seen@.len() && #[trigger] same_pair(names, seen@[x].0 as int, seen@[x].1 as int, a, b) by {
                if !pair_before(a, b, i as int, j as int) {
                    let x = choose|x: int| 0 <= x < seen@.len() && {
                        let (c, d) = #[trigger] seen@[x];
                        (station_names@[c as int]@ == station_names@[i as int]@ && station_names@[d as int]@ == station_names@[j as int]@)
                            || (station_names@[c as int]@ == station_names@[j as int]@ && station_names@[d as int]@ == station_names@[i as int]@)
                    };
                    assert(same_pair(names, seen@[x].0 as int, seen@[x].1 as int, a, b));
                }
            }
            assert forall|k: int| #![trigger routes@[k]] 0 <= k < routes@.len() implies line_is(
                routes@[k],
                g,
                k,
                names[after[k].0],
                names[after[k].1],
            ) by {}
        }
        return;
    }
    let ghost seen_before = seen@;
    seen.push((i, j));
    proof {
        assert(same_pair(names, i as int, j as int, i as int, j as int));
        assert forall|a: int, b: int|
            0 <= a < b < n && #[trigger] pair_before(a, b, i as int, j1) implies exists|x: int|
                0 <= x < seen@.len() && #[trigger] same_pair(names, seen@[x].0 as int, seen@[x].1 as int, a, b) by {
            if pair_before(a, b, i as int, j as int) {
                let x = choose|x: int| 0 <= x < seen_before.len() && #[trigger] same_pair(names, seen_before[x].0 as int, seen_before[x].1 as int, a, b);
                assert(seen@[x] == seen_before[x]);
            } else {
                assert(a == i && b == j);
                assert(seen@[seen_before.len() as int] == (i, j));
                assert(same_pair(
                    names,
                    seen@[seen_before.len() as int].0 as int,
                    seen@[seen_before.len() as int].1 as int,
                    a,
                    b,
                ));
            }
        }
    }
    let ghost routes_before = routes@;
    match joined(pathfinding_graph, &station_names[i], &station_names[j]) {
        Some(path) => {
            let number = routes.len() as i128 + 1;
            let route_info = line_along(number, &station_names[i], &station_names[j], &path);
            proof {
                assert(path_follows(g, path@, g.station_position(names[i as int]), g.station_position(names[j as int])));
                assert(line_is(route_info, g, routes@.len() as int, names[i as int], names[j as int]));
            }
            routes.push(route_info);
        },
        None => {},
    }
    proof {
        assert forall|k: int| #![trigger routes@[k]] 0 <= k < routes@.len() implies line_is(
            routes@[k],
            g,
            k,
            names[after[k].0],
            names[after[k].1],
        ) by {
            if k < before.len() {
                assert(after[k] == before[k]);
                assert(routes@[k] == routes_before[k]);
            }
        }
    }
}

/// Finds the lines buses can run: for every pair of stations, in list order and each pair
/// of names once, a line along the path between them when one exists, numbered in the
/// order found. With no line found and at least two stations, one trunk line visits them
/// all.
pub fn discover_routes_using_pathfinding(pathfinding_graph: &PathfindingGraph, station_names: &Vec<String>) -> (r: Vec<BusRouteInfo>)
    requires
        pathfinding_graph.well_formed(),
    ensures
        served_pairs(pathfinding_graph, name_views(station_names@), station_names@.len() as nat, 0).len() > 0
            ==> routes_match(pathfinding_graph, name_views(station_names@), r@, station_names@.len() as nat, 0),
        served_pairs(pathfinding_graph, name_views(station_names@), station_names@.len() as nat, 0).len() == 0
            && station_names@.len() >= 2 ==> r@.len() == 1 && r@[0].route_id@ == "主干路线"@ && name_views(r@[0].stations@)
            == name_views(station_names@) && !r@[0].is_circular && r@[0].max_vehicles == 1,
        served_pairs(pathfinding_graph, name_views(station_names@), station_names@.len() as nat, 0).len() == 0
            && station_names@.len() < 2 ==> r@.len() == 0,
{
    let ghost names = name_views(station_names@);
    let ghost g = pathfinding_graph;
    let n = station_names.len();
    let mut routes: Vec<BusRouteInfo> = Vec::new();
    let mut seen: Vec<(usize, usize)> = Vec::new();
    let mut i: usize = 0;
    while i < n
        invariant
            pathfinding_graph.well_formed(),
            names == name_views(station_names@),
            n == station_names@.len(),
            i <= n,
            g == pathfinding_graph,
            routes_match(g, names, routes@, i as nat, 0),
            seen_ok(names, seen@, i as int, 0),
        decreases n - i,
    {
        let mut j: usize = 0;
        proof {
            if i > 0 {
                assert(served_pairs(g, names, i as nat, 0) == served_pairs(g, names, (i - 1) as nat, n as nat));
            }
        }
        while j < n
            invariant
                pathfinding_graph.well_formed(),
                names == name_views(station_names@),
                n == station_names@.len(),
                i < n,
                j <= n,
                g == pathfinding_graph,
                routes_match(g, names, routes@, i as nat, j as nat),
                seen_ok(names, seen@, i as int, j as int),
            decreases n - j,
        {
            try_pair(pathfinding_graph, station_names, i, j, &mut routes, &mut seen);
            j = j + 1;
        }
        proof {
            assert(served_pairs(g, names, (i + 1) as nat, 0) == served_pairs(g, names, i as nat, n as nat));
            assert forall|a: int, b: int|
                0 <= a < b < n && #[trigger] pair_before(a, b, i + 1, 0) implies exists|x: int|
                    0 <= x < seen@.len() && #[trigger] same_pair(names, seen@[x].0 as int, seen@[x].1 as int, a, b) by {
                assert(pair_before(a, b, i as int, n as int));
            }
            assert forall|x: int| 0 <= x < seen@.len() implies pair_before(
                (#[trigger] seen@[x]).0 as int,
                seen@[x].1 as int,
                i + 1,
                0,
            ) by {}
        }
        i = i + 1;
    }
    if routes.len() == 0 && n >= 2 {
        let mut all_stations: Vec<String> = Vec::new();
        let mut k: usize = 0;
        while k < n
            invariant
                n == station_names@.len(),
                k <= n,
                all_stations@.len() == k,
                forall|x: int| 0 <= x < k ==> #[trigger] all_stations@[x]@ == station_names@[x]@,
            decreases n - k,
        {
            all_stations.push(owned(station_names[k].as_str()));
            k = k + 1;
        }
        proof {
            assert(name_views(all_stations@) =~= names);
        }
        routes.push(
            BusRouteInfo {
                route_id: owned("主干路线"),
                stations: all_stations,
                is_circular: false,
                max_vehicles: 1,
            },
        );
    }
    routes
}

/// Some line stops at both the origin and the destination of `demand`.
pub open spec fn demand_covered(routes: Seq<BusRouteInfo>, demand: PassengerDemand) -> bool {
    exists|k: int|
        0 <= k < routes.len() && name_views(#[trigger] routes[k].stations@).contains(demand.origin@) && name_views(
            routes[k].stations@,
        ).contains(demand.destination@)
}

/// Whether some line serves `demand`.
fn covered_by(routes: &Vec<BusRouteInfo>, demand: &PassengerDemand) -> (r: bool)
    ensures
        r == demand_covered(routes@, *demand),
{
    let mut k: usize = 0;
    while k < routes.len()
        invariant
            k <= routes@.len(),
            forall|x: int| 0 <= x < k ==> !(name_views(#[trigger] routes@[x].stations@).contains(demand.origin@)
                && name_views(routes@[x].stations@).contains(demand.destination@)),
        decreases routes.len() - k,
    {
        let has_origin = contains_name(&routes[k].stations, &demand.origin);
        let has_destination = contains_name(&routes[k].stations, &demand.destination);
        if has_origin && has_destination {
            return true;
        }
        k = k + 1;
    }
    false
}

/// For each demand of the level in progress, whether some line serves it; nothing when no
/// level is in progress.
pub fn check_passenger_coverage(routes: &Vec<BusRouteInfo>, game_state: &GameState) -> (r: Vec<bool>)
    ensures
        game_state.current_level is None ==> r@.len() == 0,
        game_state.current_level matches Some(level) ==> r@.len() == level.passenger_demands@.len() && forall|i: int|
            0 <= i < r@.len() ==> #[trigger] r@[i] == demand_covered(routes@, level.passenger_demands@[i]),
{
    let mut covered_list: Vec<bool> = Vec::new();
    match &game_state.current_level {
        Some(level_data) => {
            let mut d: usize = 0;
            while d < level_data.passenger_demands.len()
                invariant
                    d <= level_data.passenger_demands@.len(),
                    covered_list@.len() == d,
                    forall|i: int| 0 <= i < d ==> #[trigger] covered_list@[i] == demand_covered(
                        routes@,
                        level_data.passenger_demands@[i],
                    ),
                decreases level_data.passenger_demands.len() - d,
            {
                let covered = covered_by(routes, &level_data.passenger_demands[d]);
                covered_list.push(covered);
                d = d + 1;
            }
        },
        None => {},
    }
    covered_list
}

/// Whether buses are generated without being asked: on the tutorial level, while there is
/// no bus, once two stations are joined.
pub fn should_auto_generate(
    game_state: &GameState,
    bus_count: usize,
    pathfinding_graph: &PathfindingGraph,
    station_names: &Vec<String>,
) -> (r: bool)
    requires
        pathfinding_graph.well_formed(),
    ensures
        r == ((game_state.current_level matches Some(level) && level.id@ == "tutorial_01"@) && bus_count == 0
            && any_joined(pathfinding_graph, name_views(station_names@))),
{
    let is_tutorial_level = match &game_state.current_level {
        Some(level) => text_eq(level.id.as_str(), "tutorial_01"),
        None => false,
    };
    if is_tutorial_level {
        bus_count == 0 && has_station_connections(pathfinding_graph, station_names)
    } else {
        false
    }
}

/// One update of a path-finding bus, `dt_ms` milliseconds after the last: a planning bus
/// plans its way on; a bus at a station counts down its dwell and, when it runs out, moves
/// its station index one step in its direction and plans again; a bus at the end of its line
/// turns around; a bus waiting for a path plans again once its path is empty.
pub fn update_bus_pathfinding(
    agent: &mut BusPathfindingAgent,
    bus_vehicle: &mut BusVehicle,
    pathfinding_graph: &PathfindingGraph,
    dt_ms: i64,
)
    requires
        pathfinding_graph.well_formed(),
        dt_ms >= 0,
        old(bus_vehicle).remaining_dwell - dt_ms >= i64::MIN,
        old(agent).next_station_index < usize::MAX,
    ensures
        old(agent).state == BusPathfindingState::Following ==> *final(agent) == *old(agent)
            && *final(bus_vehicle) == *old(bus_vehicle),
        old(agent).state == BusPathfindingState::AtStation ==> final(bus_vehicle).remaining_dwell
            == old(bus_vehicle).remaining_dwell - dt_ms && (final(bus_vehicle).remaining_dwell <= 0 ==> final(agent).state
            == BusPathfindingState::Planning && final(agent).next_station_index == (match old(agent).direction {
            BusDirection::Forward => (old(agent).next_station_index + 1) as usize,
            BusDirection::Backward => if old(agent).next_station_index > 0 {
                (old(agent).next_station_index - 1) as usize
            } else {
                0usize
            },
        })) && (final(bus_vehicle).remaining_dwell > 0 ==> *final(agent) == *old(agent)),
        old(agent).state == BusPathfindingState::TurningAround ==> final(agent).state == BusPathfindingState::Planning
            && final(agent).is_returning == !old(agent).is_returning,
        old(agent).state == BusPathfindingState::WaitingForPath ==> final(agent).state == (if old(
            agent,
        ).current_path@.len() == 0 {
            BusPathfindingState::Planning
        } else {
            BusPathfindingState::WaitingForPath
        }),
        old(agent).state == BusPathfindingState::Planning ==> final(agent).state != BusPathfindingState::Planning
            && final(agent).next_station_index == old(agent).next_station_index,
        old(agent).state != BusPathfindingState::AtStation ==> *final(bus_vehicle) == *old(bus_vehicle),
        final(agent).stations_to_visit == old(agent).stations_to_visit,
{
    match agent.state {
        BusPathfindingState::Planning => {
            plan_next_route(agent, pathfinding_graph);
        },
        BusPathfindingState::Following => {},
        BusPathfindingState::AtStation => {
            bus_vehicle.remaining_dwell = bus_vehicle.remaining_dwell - dt_ms;
            if bus_vehicle.remaining_dwell <= 0 {
                match agent.direction {
                    BusDirection::Forward => {
                        agent.next_station_index = agent.next_station_index + 1;
                    },
                    BusDirection::Backward => {
                        agent.next_station_index = if agent.next_station_index > 0 {
                            agent.next_station_index - 1
                        } else {
                            0
                        };
                    },
                }
                agent.state = BusPathfindingState::Planning;
            }
        },
        BusPathfindingState::TurningAround => {
            turn_around_pathfinding(agent);
        },
        BusPathfindingState::WaitingForPath => {
            if agent.current_path.len() == 0 {
                agent.state = BusPathfindingState::Planning;
            }
        },
    }
}

/// One step of a bus following its path: at the end of the path it halts at the station for
/// its dwell time; otherwise it travels, one step further along once it has reached the
/// step it was heading for. A bus that is not following a path stays as it is.
pub fn move_bus_along_path(agent: &mut BusPathfindingAgent, bus_vehicle: &mut BusVehicle, reached_step: bool)
    ensures
        !(old(agent).state == BusPathfindingState::Following && old(agent).current_path@.len() > 0) ==> *final(agent)
            == *old(agent) && *final(bus_vehicle) == *old(bus_vehicle),
        old(agent).state == BusPathfindingState::Following && old(agent).current_path@.len() > 0 && old(agent).current_step
            >= old(agent).current_path@.len() ==> final(agent).state == BusPathfindingState::AtStation
            && final(bus_vehicle).state == BusState::AtStop && final(bus_vehicle).remaining_dwell
            == old(bus_vehicle).dwell_time && final(agent).current_step == old(agent).current_step,
        old(agent).state == BusPathfindingState::Following && old(agent).current_path@.len() > 0 && old(agent).current_step
            < old(agent).current_path@.len() ==> final(agent).state == old(agent).state && final(bus_vehicle).state
            == BusState::Traveling && final(agent).current_step == (if reached_step {
            old(agent).current_step + 1
        } else {
            old(agent).current_step as int
        }) && final(bus_vehicle).remaining_dwell == old(bus_vehicle).remaining_dwell,
        final(agent).current_path == old(agent).current_path,
        final(agent).next_station_index == old(agent).next_station_index,
        final(agent).stations_to_visit == old(agent).stations_to_visit,
{
    if agent.state != BusPathfindingState::Following || agent.current_path.len() == 0 {
        return;
    }
    if agent.current_step >= agent.current_path.len() {
        agent.state = BusPathfindingState::AtStation;
        bus_vehicle.state = BusState::AtStop;
        bus_vehicle.remaining_dwell = bus_vehicle.dwell_time;
        return;
    }
    if reached_step {
        agent.current_step = agent.current_step + 1;
    }
    bus_vehicle.state = BusState::Traveling;
}

/// A bus halted at a station counts down its dwell; when it runs out the bus plans its way
/// on and travels.
pub fn handle_bus_station_stops(agent: &mut BusPathfindingAgent, bus_vehicle: &mut BusVehicle, dt_ms: i64)
    requires
        dt_ms >= 0,
        old(bus_vehicle).remaining_dwell - dt_ms >= i64::MIN,
    ensures
        old(agent).state != BusPathfindingState::AtStation ==> *final(agent) == *old(agent) && *final(bus_vehicle)
            == *old(bus_vehicle),
        old(agent).state == BusPathfindingState::AtStation ==> final(bus_vehicle).remaining_dwell
            == old(bus_vehicle).remaining_dwell - dt_ms && (final(bus_vehicle).remaining_dwell <= 0 ==> final(agent).state
            == BusPathfindingState::Planning && final(bus_vehicle).state == BusState::Traveling) && (
        final(bus_vehicle).remaining_dwell > 0 ==> final(agent).state == old(agent).state && final(bus_vehicle).state
            == old(bus_vehicle).state),
        final(agent).next_station_index == old(agent).next_station_index,
        final(agent).current_path == old(agent).current_path,
{
    if agent.state == BusPathfindingState::AtStation {
        bus_vehicle.remaining_dwell = bus_vehicle.remaining_dwell - dt_ms;
        if bus_vehicle.remaining_dwell <= 0 {
            agent.state = BusPathfindingState::Planning;
            bus_vehicle.state = BusState::Traveling;
        }
    }
}

/// The colours path-finding buses are drawn in.
pub open spec fn bus_palette(i: int) -> Rgb {
    if i == 0 {
        Rgb { r: 100, g: 20, b: 20 }
    } else if i == 1 {
        Rgb { r: 20, g: 100, b: 20 }
    } else if i == 2 {
        Rgb { r: 20, g: 20, b: 100 }
    } else {
        Rgb { r: 100, g: 100, b: 20 }
    }
}

/// `bus` and `agent` are a new bus for `route_info`, halted at its first station, found at
/// `pos`, drawn in `color`.
pub open spec fn new_line_bus(
    bus: BusVehicle,
    agent: BusPathfindingAgent,
    pos: GridPos,
    color: Rgb,
    route_info: BusRouteInfo,
    g: &PathfindingGraph,
) -> bool {
    &&& pos == g.station_position(route_info.stations@[0]@)
    &&& color == bus_palette((vstd::utf8::encode_utf8(route_info.route_id@).len() as usize) as int % 4)
    &&& bus.vehicle_id@ == "智能公交_"@ + route_info.route_id@
    &&& bus.route_id@ == route_info.route_id@
    &&& bus.capacity == 30
    &&& bus.current_passengers@.len() == 0
    &&& bus.current_stop_index == 0
    &&& bus.direction == BusDirection::Forward
    &&& bus.state == BusState::AtStop
    &&& bus.speed == 80
    &&& bus.dwell_time == 5000
    &&& bus.remaining_dwell == 5000
    &&& agent.vehicle_id@ == bus.vehicle_id@
    &&& agent.route_id@ == route_info.route_id@
    &&& agent.current_path@.len() == 0
    &&& agent.current_step == 0
    &&& agent.target_station@ == route_info.stations@[0]@
    &&& agent.state == BusPathfindingState::AtStation
    &&& agent.next_station_index == 0
    &&& name_views(agent.stations_to_visit@) == name_views(route_info.stations@)
    &&& agent.direction == BusDirection::Forward
    &&& !agent.is_returning
}

/// A new bus for a line, halted at its first station: its vehicle, its path-finding state,
/// the cell it starts at and its colour (picked by the byte length of the line's id). None
/// when the line has no station or its first station is unknown.
pub fn pathfinding_bus_for(route_info: &BusRouteInfo, pathfinding_graph: &PathfindingGraph) -> (r: Option<(BusVehicle, BusPathfindingAgent, GridPos, Rgb)>)
    requires
        pathfinding_graph.well_formed(),
    ensures
        r is Some <==> route_info.stations@.len() > 0 && pathfinding_graph.has_station(route_info.stations@[0]@),
        r matches Some(b) ==> new_line_bus(b.0, b.1, b.2, b.3, *route_info, pathfinding_graph),
{
    if route_info.stations.len() == 0 {
        return None;
    }
    let start_station = &route_info.stations[0];
    let start_pos = match pathfinding_graph.get_station_position(start_station.as_str()) {
        Some(p) => p,
        None => {
            return None;
        },
    };
    let color_index = route_info.route_id.as_str().len() % 4;
    let color = if color_index == 0 {
        Rgb { r: 100, g: 20, b: 20 }
    } else if color_index == 1 {
        Rgb { r: 20, g: 100, b: 20 }
    } else if color_index == 2 {
        Rgb { r: 20, g: 20, b: 100 }
    } else {
        Rgb { r: 100, g: 100, b: 20 }
    };
    let mut vehicle_id = owned("智能公交_");
    vehicle_id.append(route_info.route_id.as_str());
    let mut stations: Vec<String> = Vec::new();
    let mut k: usize = 0;
    while k < route_info.stations.len()
        invariant
            k <= route_info.stations@.len(),
            stations@.len() == k,
            forall|x: int| 0 <= x < k ==> #[trigger] stations@[x]@ == route_info.stations@[x]@,
        decreases route_info.stations.len() - k,
    {
        stations.push(owned(route_info.stations[k].as_str()));
        k = k + 1;
    }
    proof {
        assert(name_views(stations@) =~= name_views(route_info.stations@));
    }
    let bus = BusVehicle {
        vehicle_id: owned(vehicle_id.as_str()),
        route_id: owned(route_info.route_id.as_str()),
        capacity: 30,
        current_passengers: Vec::new(),
        current_stop_index: 0,
        direction: BusDirection::Forward,
        state: BusState::AtStop,
        speed: 80,
        dwell_time: 5000,
        remaining_dwell: 5000,
    };
    let agent = BusPathfindingAgent {
        vehicle_id,
        route_id: owned(route_info.route_id.as_str()),
        current_path: Vec::new(),
        current_step: 0,
        target_station: owned(start_station.as_str()),
        state: BusPathfindingState::AtStation,
        next_station_index: 0,
        stations_to_visit: stations,
        direction: BusDirection::Forward,
        is_returning: false,
    };
    proof {
        assert(start_pos == pathfinding_graph.station_position(route_info.stations@[0]@));
        assert(color == bus_palette((vstd::utf8::encode_utf8(route_info.route_id@).len() as usize) as int % 4));
        assert(bus.vehicle_id@ == "智能公交_"@ + route_info.route_id@);
        assert(agent.target_station@ == route_info.stations@[0]@);
        assert(name_views(agent.stations_to_visit@) == name_views(route_info.stations@));
        assert(new_line_bus(bus, agent, start_pos, color, *route_info, pathfinding_graph));
    }
    Some((bus, agent, start_pos, color))
}

impl BusPathfindingManager {
    /// A manager with no lines.
    pub fn new() -> (r: BusPathfindingManager)
        ensures
            r.bus_routes@.len() == 0,
    {
        BusPathfindingManager { bus_routes: Vec::new() }
    }

    /// Adds a line under its id, replacing a line with the same id.
    pub fn insert_route(&mut self, route_info: BusRouteInfo)
        ensures
            exists|k: int| 0 <= k < final(self).bus_routes@.len() && #[trigger] final(self).bus_routes@[k] == route_info,
            forall|k: int|
                0 <= k < old(self).bus_routes@.len() && old(self).bus_routes@[k].route_id@ != route_info.route_id@
                    ==> final(self).bus_routes@.contains(#[trigger] old(self).bus_routes@[k]),
            forall|k: int|
                0 <= k < final(self).bus_routes@.len() ==> #[trigger] final(self).bus_routes@[k] == route_info
                    || old(self).bus_routes@.contains(final(self).bus_routes@[k]),
    {
        let mut i: usize = 0;
        while i < self.bus_routes.len()
            invariant
                i <= self.bus_routes@.len(),
                self.bus_routes == old(self).bus_routes,
                forall|k: int| 0 <= k < i ==> self.bus_routes@[k].route_id@ != route_info.route_id@,
            decreases self.bus_routes.len() - i,
        {
            if text_eq(self.bus_routes[i].route_id.as_str(), route_info.route_id.as_str()) {
                let ghost before = self.bus_routes@;
                self.bus_routes.set(i, route_info);
                proof {
                    assert(self.bus_routes@[i as int] == route_info);
                    assert forall|k: int|
                        0 <= k < before.len() && before[k].route_id@ != route_info.route_id@ implies self.bus_routes@.contains(
                            #[trigger] before[k],
                        ) by {
                        assert(self.bus_routes@[k] == before[k]);
                    }
                    assert forall|k: int|
                        0 <= k < self.bus_routes@.len() implies #[trigger] self.bus_routes@[k] == route_info
                            || before.contains(self.bus_routes@[k]) by {
                        if k != i {
                            assert(before[k] == self.bus_routes@[k]);
                        }
                    }
                }
                return;
            }
            i = i + 1;
        }
        let ghost before = self.bus_routes@;
        self.bus_routes.push(route_info);
        proof {
            assert(self.bus_routes@[before.len() as int] == route_info);
            assert forall|k: int|
                0 <= k < before.len() && before[k].route_id@ != route_info.route_id@ implies self.bus_routes@.contains(
                    #[trigger] before[k],
                ) by {
                assert(self.bus_routes@[k] == before[k]);
            }
            assert forall|k: int|
                0 <= k < self.bus_routes@.len() implies #[trigger] self.bus_routes@[k] == route_info
                    || before.contains(self.bus_routes@[k]) by {
                if k < before.len() {
                    assert(before[k] == self.bus_routes@[k]);
                }
            }
        }
    }
}

/// Passengers do not find their own way: every passenger waiting at a station drops its
/// path and starts again from its first step, and waits for a bus. Others are left alone.
pub fn disable_passenger_pathfinding_system(passengers: &mut Vec<PathfindingAgent>)
    ensures
        final(passengers)@.len() == old(passengers)@.len(),
        forall|i: int|
            #![trigger final(passengers)@[i]]
            0 <= i < old(passengers)@.len() ==> if old(passengers)@[i].state == AgentState::WaitingAtStation {
                final(passengers)@[i].current_path@.len() == 0 && final(passengers)@[i].current_step == 0
                    && final(passengers)@[i].state == old(passengers)@[i].state
                    && final(passengers)@[i].color == old(passengers)@[i].color
                    && final(passengers)@[i].origin == old(passengers)@[i].origin
                    && final(passengers)@[i].destination == old(passengers)@[i].destination
                    && final(passengers)@[i].patience == old(passengers)@[i].patience
                    && final(passengers)@[i].max_patience == old(passengers)@[i].max_patience
                    && final(passengers)@[i].waiting_time == old(passengers)@[i].waiting_time
            } else {
                final(passengers)@[i] == old(passengers)@[i]
            },
{
    let mut i: usize = 0;
    while i < passengers.len()
        invariant
            i <= passengers@.len(),
            passengers@.len() == old(passengers)@.len(),
            forall|k: int|
                #![trigger passengers@[k]]
                i <= k < passengers@.len() ==> passengers@[k] == old(passengers)@[k],
            forall|k: int|
                #![trigger passengers@[k]]
                0 <= k < i ==> if old(passengers)@[k].state == AgentState::WaitingAtStation {
                    passengers@[k].current_path@.len() == 0 && passengers@[k].current_step == 0
                        && passengers@[k].state == old(passengers)@[k].state
                        && passengers@[k].color == old(passengers)@[k].color
                        && passengers@[k].origin == old(passengers)@[k].origin
                        && passengers@[k].destination == old(passengers)@[k].destination
                        && passengers@[k].patience == old(passengers)@[k].patience
                        && passengers@[k].max_patience == old(passengers)@[k].max_patience
                        && passengers@[k].waiting_time == old(passengers)@[k].waiting_time
                } else {
                    passengers@[k] == old(passengers)@[k]
                },
        decreases passengers.len() - i,
    {
        if passengers[i].state == AgentState::WaitingAtStation {
            let mut agent = passengers.remove(i);
            agent.current_path = Vec::new();
            agent.current_step = 0;
            passengers.insert(i, agent);
        }
        i = i + 1;
    }
}

} // verus!
