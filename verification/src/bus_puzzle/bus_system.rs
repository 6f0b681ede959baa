use vstd::prelude::*;

use crate::bus_puzzle::components::{grid_distance, has_port, pos_in_range, GridPos, RouteSegment};
use crate::bus_puzzle::text::{owned, prefixed_number, prefixed_padded_number, zero_padded, decimal_text};
use crate::bus_puzzle::level_system::Station;
use crate::bus_puzzle::utils::Rgb;

verus! {

/// Which way a bus runs along its route.
#[derive(Debug, Clone, Copy, PartialEq, Eq, Structural)]
pub enum BusDirection {
    Forward,
    Backward,
}

/// What a bus is doing.
#[derive(Debug, Clone, Copy, PartialEq, Eq, Structural)]
pub enum BusState {
    Traveling,
    AtStop,
    Loading,
    TurningAround,
    Idle,
}

/// A bus. Passengers are held by their entity ids; the speed is in pixels per second and
/// the dwell times in milliseconds.
#[derive(Debug)]
pub struct BusVehicle {
    pub vehicle_id: String,
    pub route_id: String,
    pub capacity: u32,
    pub current_passengers: Vec<u64>,
    pub current_stop_index: usize,
    pub direction: BusDirection,
    pub state: BusState,
    pub speed: u32,
    pub dwell_time: i64,
    pub remaining_dwell: i64,
}

impl Default for BusVehicle {
    fn default() -> (r: BusVehicle)
        ensures
            r.vehicle_id@ == "bus_001"@,
            r.route_id@ == "route_001"@,
            r.capacity == 30,
            r.current_passengers@.len() == 0,
            r.current_stop_index == 0,
            r.direction == BusDirection::Forward,
            r.state == BusState::Idle,
            r.speed == 80,
            r.dwell_time == 3000,
            r.remaining_dwell == 0,
    {
        BusVehicle {
            vehicle_id: owned("bus_001"),
            route_id: owned("route_001"),
            capacity: 30,
            current_passengers: Vec::new(),
            current_stop_index: 0,
            direction: BusDirection::Forward,
            state: BusState::Idle,
            speed: 80,
            dwell_time: 3000,
            remaining_dwell: 0,
        }
    }
}

/// A bus route: its stops in order, the cells it runs over, how often a bus leaves (in
/// seconds) and the buses that serve it.
#[derive(Debug)]
pub struct BusRoute {
    pub route_id: String,
    pub route_name: String,
    pub stops: Vec<BusStop>,
    pub segments: Vec<GridPos>,
    pub frequency: u32,
    pub is_circular: bool,
    pub vehicles: Vec<u64>,
    pub max_vehicles: u32,
    pub color: Rgb,
}

/// A stop of a route, with the passengers waiting there.
#[derive(Debug)]
pub struct BusStop {
    pub position: GridPos,
    pub name: String,
    pub waiting_passengers: Vec<u64>,
    pub platform_capacity: u32,
}

/// The routes in service, keyed by route id, and the counters that number new routes and
/// buses.
#[derive(Debug)]
pub struct BusRoutesManager {
    pub routes: Vec<BusRoute>,
    pub route_counter: u32,
    pub vehicle_counter: u32,
}

impl BusRoutesManager {
    /// No two routes share an id.
    pub open spec fn well_formed(&self) -> bool {
        forall|i: int, j: int|
            0 <= i < j < self.routes@.len() ==> #[trigger] self.routes@[i].route_id@
                != #[trigger] self.routes@[j].route_id@
    }

    /// Some route has the id `id`.
    pub open spec fn has_route(&self, id: Seq<char>) -> bool {
        exists|i: int| 0 <= i < self.routes@.len() && #[trigger] self.routes@[i].route_id@ == id
    }

    /// The route with the id `id` (meaningful when `has_route(id)`).
    pub open spec fn route(&self, id: Seq<char>) -> BusRoute {
        self.routes@[choose|i: int| 0 <= i < self.routes@.len() && #[trigger] self.routes@[i].route_id@ == id]
    }

    /// A manager with no routes and both counters at zero.
    pub fn new() -> (r: BusRoutesManager)
        ensures
            r.routes@.len() == 0,
            r.route_counter == 0,
            r.vehicle_counter == 0,
            r.well_formed(),
    {
        BusRoutesManager { routes: Vec::new(), route_counter: 0, vehicle_counter: 0 }
    }

    /// Numbers a new route: `route_` and the next count, three digits at least.
    pub fn generate_route_id(&mut self) -> (r: String)
        requires
            old(self).route_counter < u32::MAX,
        ensures
            final(self).route_counter == old(self).route_counter + 1,
            final(self).vehicle_counter == old(self).vehicle_counter,
            final(self).routes == old(self).routes,
            r@ == "route_"@ + zero_padded(decimal_text(final(self).route_counter as int), 3),
    {
        self.route_counter = self.route_counter + 1;
        prefixed_padded_number("route_", self.route_counter)
    }

    /// Numbers a new bus: `bus_` and the next count, three digits at least.
    pub fn generate_vehicle_id(&mut self) -> (r: String)
        requires
            old(self).vehicle_counter < u32::MAX,
        ensures
            final(self).vehicle_counter == old(self).vehicle_counter + 1,
            final(self).route_counter == old(self).route_counter,
            final(self).routes == old(self).routes,
            r@ == "bus_"@ + zero_padded(decimal_text(final(self).vehicle_counter as int), 3),
    {
        self.vehicle_counter = self.vehicle_counter + 1;
        prefixed_padded_number("bus_", self.vehicle_counter)
    }

    /// The index of the route with id `id`.
    fn find(&self, id: &str) -> (r: Option<usize>)
        requires
            self.well_formed(),
        ensures
            r matches Some(i) ==> i < self.routes@.len() && self.routes@[i as int].route_id@ == id@
                && self.route(id@) == self.routes@[i as int],
            r is None <==> !self.has_route(id@),
    {
        let mut i: usize = 0;
        while i < self.routes.len()
            invariant
                self.well_formed(),
                i <= self.routes@.len(),
                forall|k: int| 0 <= k < i ==> self.routes@[k].route_id@ != id@,
            decreases self.routes.len() - i,
        {
            if crate::bus_puzzle::text::text_eq(self.routes[i].route_id.as_str(), id) {
                proof {
                    let c = choose|k: int| 0 <= k < self.routes@.len() && #[trigger] self.routes@[k].route_id@ == id@;
                    if c != i {
                        if c < i {
                            assert(self.routes@[c].route_id@ != self.routes@[i as int].route_id@);
                        } else {
                            assert(self.routes@[i as int].route_id@ != self.routes@[c].route_id@);
                        }
                    }
                }
                return Some(i);
            }
            i = i + 1;
        }
        None
    }

    /// Adds `route` under its id, replacing a route with the same id.
    pub fn add_route(&mut self, route: BusRoute)
        requires
            old(self).well_formed(),
        ensures
            final(self).well_formed(),
            final(self).has_route(route.route_id@),
            final(self).route(route.route_id@) == route,
            forall|id: Seq<char>| id != route.route_id@ ==> (#[trigger] final(self).has_route(id)
                <==> old(self).has_route(id)),
            forall|id: Seq<char>| id != route.route_id@ && old(self).has_route(id) ==> #[trigger] final(self).route(id)
                == old(self).route(id),
            final(self).route_counter == old(self).route_counter,
            final(self).vehicle_counter == old(self).vehicle_counter,
    {
        let ghost id = route.route_id@;
        match self.find(route.route_id.as_str()) {
            Some(i) => {
                let ghost before = self.routes@;
                self.routes.set(i, route);
                proof {
                    assert(self.routes@[i as int].route_id@ == id);
                    assert forall|a: int, b: int|
                        0 <= a < b < self.routes@.len() implies #[trigger] self.routes@[a].route_id@
                        != #[trigger] self.routes@[b].route_id@ by {
                        assert(before[a].route_id@ != before[b].route_id@);
                    }
                    self.lemma_route_at(i as int);
                    assert forall|x: Seq<char>| x != id implies (#[trigger] self.has_route(x)
                        <==> old(self).has_route(x)) by {
                        if self.has_route(x) {
                            let k = choose|k: int| 0 <= k < self.routes@.len() && #[trigger] self.routes@[k].route_id@ == x;
                            assert(before[k].route_id@ == x);
                        }
                        if old(self).has_route(x) {
                            let k = choose|k: int| 0 <= k < before.len() && #[trigger] before[k].route_id@ == x;
                            assert(k != i);
                            assert(self.routes@[k].route_id@ == x);
                        }
                    }
                    assert forall|x: Seq<char>| x != id && old(self).has_route(x) implies #[trigger] self.route(x)
                        == old(self).route(x) by {
                        let k = choose|k: int| 0 <= k < before.len() && #[trigger] before[k].route_id@ == x;
                        old(self).lemma_route_at(k);
                        assert(self.routes@[k].route_id@ == x);
                        self.lemma_route_at(k);
                    }
                }
            },
            None => {
                let ghost before = self.routes@;
                self.routes.push(route);
                proof {
                    let n = before.len() as int;
                    assert forall|a: int, b: int|
                        0 <= a < b < self.routes@.len() implies #[trigger] self.routes@[a].route_id@
                        != #[trigger] self.routes@[b].route_id@ by {
                        if b == n {
                            assert(!old(self).has_route(id));
                            assert(before[a].route_id@ != id);
                        } else {
                            assert(before[a].route_id@ != before[b].route_id@);
                        }
                    }
                    self.lemma_route_at(n);
                    assert forall|x: Seq<char>| x != id implies (#[trigger] self.has_route(x)
                        <==> old(self).has_route(x)) by {
                        if self.has_route(x) {
                            let k = choose|k: int| 0 <= k < self.routes@.len() && #[trigger] self.routes@[k].route_id@ == x;
                            assert(k < n);
                            assert(before[k].route_id@ == x);
                        }
                        if old(self).has_route(x) {
                            let k = choose|k: int| 0 <= k < before.len() && #[trigger] before[k].route_id@ == x;
                            assert(self.routes@[k].route_id@ == x);
                        }
                    }
                    assert forall|x: Seq<char>| x != id && old(self).has_route(x) implies #[trigger] self.route(x)
                        == old(self).route(x) by {
                        let k = choose|k: int| 0 <= k < before.len() && #[trigger] before[k].route_id@ == x;
                        old(self).lemma_route_at(k);
                        assert(self.routes@[k].route_id@ == x);
                        self.lemma_route_at(k);
                    }
                }
            },
        }
    }

    /// The route with id `id`.
    pub fn get_route(&self, id: &str) -> (r: Option<&BusRoute>)
        requires
            self.well_formed(),
        ensures
            r is Some <==> self.has_route(id@),
            r matches Some(route) ==> *route == self.route(id@),
    {
        match self.find(id) {
            Some(i) => Some(&self.routes[i]),
            None => None,
        }
    }

    /// The route with id `id`, to be changed in place. What the caller leaves in it becomes
    /// the route at its place in the manager; nothing else changes.
    pub fn get_route_mut(&mut self, id: &str) -> (r: Option<&mut BusRoute>)
        requires
            old(self).well_formed(),
        ensures
            r is Some <==> old(self).has_route(id@),
            r matches Some(route) ==> *route == old(self).route(id@),
            r matches Some(route) ==> exists|i: int|
                0 <= i < old(self).routes@.len() && old(self).routes@[i].route_id@ == id@
                    && final(self).routes@ == old(self).routes@.update(i, *final(route)),
            r matches Some(route) ==> final(self).route_counter == old(self).route_counter
                && final(self).vehicle_counter == old(self).vehicle_counter,
            r is None ==> *final(self) == *old(self),
    {
        match self.find(id) {
            Some(i) => Some(&mut self.routes[i]),
            None => None,
        }
    }

    /// The route at index `i` is the one its id names.
    pub proof fn lemma_route_at(&self, i: int)
        requires
            self.well_formed(),
            0 <= i < self.routes@.len(),
        ensures
            self.has_route(self.routes@[i].route_id@),
            self.route(self.routes@[i].route_id@) == self.routes@[i],
    {
        let id = self.routes@[i].route_id@;
        assert(self.has_route(id));
        let c = choose|k: int| 0 <= k < self.routes@.len() && #[trigger] self.routes@[k].route_id@ == id;
        if c < i {
            assert(self.routes@[c].route_id@ != self.routes@[i].route_id@);
        } else if c > i {
            assert(self.routes@[i].route_id@ != self.routes@[c].route_id@);
        }
    }
}

/// Discovers bus routes from the placed segments and the stations.
pub struct RouteDiscoverySystem;

/// The positions of a list of segments.
pub open spec fn positions_of(segments: Seq<RouteSegment>) -> Seq<GridPos> {
    segments.map_values(|s: RouteSegment| s.grid_pos)
}

/// The views of a station list: each station's position and name.
pub open spec fn station_entries(stations: Seq<(GridPos, String)>) -> Seq<(GridPos, Seq<char>)> {
    stations.map_values(|e: (GridPos, String)| (e.0, e.1@))
}

/// The name of the first station listed at `p`.
pub open spec fn station_at(st: Seq<(GridPos, Seq<char>)>, p: GridPos) -> Option<Seq<char>>
    decreases st.len(),
{
    if st.len() == 0 {
        None
    } else if st[0].0 == p {
        Some(st[0].1)
    } else {
        station_at(st.skip(1), p)
    }
}

/// The first segment of `all` standing at `p`.
pub open spec fn segment_at(all: Seq<RouteSegment>, p: GridPos) -> Option<RouteSegment>
    decreases all.len(),
{
    if all.len() == 0 {
        None
    } else if all[0].grid_pos == p {
        Some(all[0])
    } else {
        segment_at(all.skip(1), p)
    }
}

/// The segment found at `p` stands at `p`.
proof fn lemma_segment_at(all: Seq<RouteSegment>, p: GridPos)
    ensures
        segment_at(all, p) matches Some(c) ==> c.grid_pos == p,
    decreases all.len(),
{
    if all.len() > 0 && all[0].grid_pos != p {
        lemma_segment_at(all.skip(1), p);
    }
}

/// A route may step from `cur` onto the segment `q`: `q` has a port towards `cur`, and when
/// a segment stands at `cur` it has a port back towards `q`.
pub open spec fn joins(all: Seq<RouteSegment>, cur: GridPos, q: RouteSegment) -> bool {
    &&& has_port(q.segment_type, q.grid_pos, cur, q.rotation)
    &&& (segment_at(all, cur) matches Some(c) ==> has_port(c.segment_type, cur, q.grid_pos, c.rotation))
}

/// The position of the first segment of `cands`, in list order, that is next to `cur`, not
/// in `visited`, and joined to `cur` by facing ports (ports looked up in `all`).
pub open spec fn first_open_neighbour(
    all: Seq<RouteSegment>,
    cands: Seq<RouteSegment>,
    visited: Set<GridPos>,
    cur: GridPos,
) -> Option<GridPos>
    decreases cands.len(),
{
    if cands.len() == 0 {
        None
    } else if !visited.contains(cands[0].grid_pos) && grid_distance(cur, cands[0].grid_pos) == 1 && joins(
        all,
        cur,
        cands[0],
    ) {
        Some(cands[0].grid_pos)
    } else {
        first_open_neighbour(all, cands.skip(1), visited, cur)
    }
}

/// The greedy walk from `cur`: step to the first open neighbouring segment joined to it,
/// mark it and go on, for at most `fuel` steps.
pub open spec fn greedy_walk(segs: Seq<RouteSegment>, visited: Set<GridPos>, cur: GridPos, fuel: nat) -> Seq<GridPos>
    decreases fuel,
{
    if fuel == 0 {
        Seq::empty()
    } else {
        match first_open_neighbour(segs, segs, visited, cur) {
            None => Seq::empty(),
            Some(p) => seq![p] + greedy_walk(segs, visited.insert(p), p, (fuel - 1) as nat),
        }
    }
}

/// The cells a route runs over from `start`: the first segment joined to the station and
/// the greedy walk from there.
pub open spec fn route_cells(segs: Seq<RouteSegment>, start: GridPos, first: GridPos) -> Seq<GridPos> {
    seq![first] + greedy_walk(segs, set![start, first], first, segs.len())
}

/// The cells of a walk where the walk looks for stations: every cell after the first,
/// or the only cell of a walk of one.
pub open spec fn checked_cells(w: Seq<GridPos>) -> Seq<GridPos> {
    if w.len() == 1 {
        w
    } else {
        w.skip(1)
    }
}

/// The cells of `w` that hold a station, in order.
pub open spec fn stations_along(w: Seq<GridPos>, st: Seq<(GridPos, Seq<char>)>) -> Seq<GridPos>
    decreases w.len(),
{
    if w.len() == 0 {
        Seq::empty()
    } else if station_at(st, w.last()) is Some {
        stations_along(w.drop_last(), st).push(w.last())
    } else {
        stations_along(w.drop_last(), st)
    }
}

/// The segment at `last` has a port towards `q`.
pub open spec fn faces_from(segs: Seq<RouteSegment>, last: GridPos, q: GridPos) -> bool {
    segment_at(segs, last) matches Some(c) && has_port(c.segment_type, last, q, c.rotation)
}

/// The first listed station next to `last`, faced by the segment there, that is not
/// already in `taken`.
pub open spec fn first_terminal(
    st: Seq<(GridPos, Seq<char>)>,
    segs: Seq<RouteSegment>,
    last: GridPos,
    taken: Seq<GridPos>,
) -> Option<GridPos>
    decreases st.len(),
{
    if st.len() == 0 {
        None
    } else if grid_distance(last, st[0].0) == 1 && !taken.contains(st[0].0) && faces_from(segs, last, st[0].0) {
        Some(st[0].0)
    } else {
        first_terminal(st.skip(1), segs, last, taken)
    }
}

/// The stops of a route from `start` over the cells `w`: the start, the stations met
/// along the walk, and a station next to the walk's end, faced by its last segment, if
/// there is a new one.
pub open spec fn route_stops(
    st: Seq<(GridPos, Seq<char>)>,
    segs: Seq<RouteSegment>,
    start: GridPos,
    w: Seq<GridPos>,
) -> Seq<GridPos> {
    let along = seq![start] + stations_along(checked_cells(w), st);
    match first_terminal(st, segs, w.last(), along) {
        Some(t) => along.push(t),
        None => along,
    }
}

/// The palette routes are coloured from.
pub open spec fn route_palette(i: int) -> Rgb {
    if i == 0 {
        Rgb { r: 100, g: 20, b: 20 }
    } else if i == 1 {
        Rgb { r: 20, g: 100, b: 20 }
    } else if i == 2 {
        Rgb { r: 20, g: 20, b: 100 }
    } else if i == 3 {
        Rgb { r: 100, g: 100, b: 20 }
    } else if i == 4 {
        Rgb { r: 100, g: 20, b: 100 }
    } else {
        Rgb { r: 20, g: 100, b: 100 }
    }
}

/// `route` is the route with these stops over these cells: named after its first stop,
/// a bus every 20 seconds, two buses at most, no bus yet, coloured by its number of stops.
pub open spec fn route_is(route: BusRoute, st: Seq<(GridPos, Seq<char>)>, stops: Seq<GridPos>, cells: Seq<GridPos>) -> bool {
    let first_name = station_at(st, stops[0])->0;
    &&& route.route_id@ == "route_"@ + first_name
    &&& route.route_name@ == first_name + "路"@
    &&& route.stops@.len() == stops.len()
    &&& forall|i: int| #![trigger route.stops@[i]] 0 <= i < stops.len() ==> {
        &&& route.stops@[i].position == stops[i]
        &&& Some(route.stops@[i].name@) == station_at(st, stops[i])
        &&& route.stops@[i].waiting_passengers@.len() == 0
        &&& route.stops@[i].platform_capacity == 20
    }
    &&& route.segments@ == cells
    &&& route.frequency == 20
    &&& !route.is_circular
    &&& route.vehicles@.len() == 0
    &&& route.max_vehicles == 2
    &&& route.color == route_palette(stops.len() as int % 6)
}

/// Every cell of `w` holding a station appears among the stations along `w`, and only
/// those.
proof fn lemma_stations_along_contains(w: Seq<GridPos>, st: Seq<(GridPos, Seq<char>)>, x: GridPos)
    ensures
        stations_along(w, st).contains(x) <==> (w.contains(x) && station_at(st, x) is Some),
    decreases w.len(),
{
    if w.len() > 0 {
        let d = w.drop_last();
        let rest = stations_along(d, st);
        lemma_stations_along_contains(d, st, x);
        assert(w =~= d.push(w.last()));
        assert(w.contains(x) <==> (d.contains(x) || w.last() == x)) by {
            if w.contains(x) {
                let i = choose|i: int| 0 <= i < w.len() && w[i] == x;
                if i < d.len() {
                    assert(d[i] == x);
                }
            }
            if d.contains(x) {
                let i = choose|i: int| 0 <= i < d.len() && d[i] == x;
                assert(w[i] == x);
            }
            if w.last() == x {
                assert(w[w.len() - 1] == x);
            }
        }
        if station_at(st, w.last()) is Some {
            let sa = rest.push(w.last());
            assert(stations_along(w, st) == sa);
            assert(sa.contains(x) <==> (rest.contains(x) || w.last() == x)) by {
                if sa.contains(x) {
                    let i = choose|i: int| 0 <= i < sa.len() && sa[i] == x;
                    if i < rest.len() {
                        assert(rest[i] == x);
                    }
                }
                if rest.contains(x) {
                    let i = choose|i: int| 0 <= i < rest.len() && rest[i] == x;
                    assert(sa[i] == x);
                }
                if w.last() == x {
                    assert(sa[sa.len() - 1] == x);
                }
            }
        } else {
            assert(stations_along(w, st) == rest);
        }
    }
}

/// A walk without repeats through the cells of `segs` is no longer than `segs`.
proof fn lemma_walk_len(w: Seq<GridPos>, segs: Seq<GridPos>)
    requires
        w.no_duplicates(),
        forall|i: int| 0 <= i < w.len() ==> segs.contains(#[trigger] w[i]),
    ensures
        w.len() <= segs.len(),
{
    w.unique_seq_to_set();
    segs.lemma_cardinality_of_set();
    vstd::seq_lib::seq_to_set_is_finite(segs);
    assert(w.to_set().subset_of(segs.to_set()));
    vstd::set_lib::lemma_len_subset(w.to_set(), segs.to_set());
}

/// The first open neighbour is the cell of a segment of `cands` next to `cur`, not visited
/// and joined to `cur`.
proof fn lemma_first_open_neighbour(all: Seq<RouteSegment>, cands: Seq<RouteSegment>, visited: Set<GridPos>, cur: GridPos)
    ensures
        first_open_neighbour(all, cands, visited, cur) matches Some(p) ==> positions_of(cands).contains(p)
            && !visited.contains(p) && grid_distance(cur, p) == 1,
    decreases cands.len(),
{
    if cands.len() > 0 {
        lemma_first_open_neighbour(all, cands.skip(1), visited, cur);
        if let Some(p) = first_open_neighbour(all, cands.skip(1), visited, cur) {
            if positions_of(cands.skip(1)).contains(p) {
                let i = choose|i: int| 0 <= i < positions_of(cands.skip(1)).len() && positions_of(cands.skip(1))[i] == p;
                assert(positions_of(cands)[i + 1] == p);
            }
        }
        assert(positions_of(cands)[0] == cands[0].grid_pos);
    }
}

impl RouteDiscoverySystem {
    /// Whether two cells are side by side.
    pub fn is_adjacent(pos1: GridPos, pos2: GridPos) -> (r: bool)
        ensures
            r == (grid_distance(pos1, pos2) == 1),
    {
        let dx: i64 = pos1.x as i64 - pos2.x as i64;
        let dy: i64 = pos1.y as i64 - pos2.y as i64;
        let ax: i64 = if dx >= 0 { dx } else { -dx };
        let ay: i64 = if dy >= 0 { dy } else { -dy };
        ax + ay == 1
    }

    /// Whether `segment` has a port towards `pos1`.
    pub fn can_connect(pos1: GridPos, segment: &RouteSegment) -> (r: bool)
        requires
            pos_in_range(segment.grid_pos),
        ensures
            r == has_port(segment.segment_type, segment.grid_pos, pos1, segment.rotation),
    {
        segment.segment_type.has_connection_to(segment.grid_pos, pos1, segment.rotation)
    }

    /// The name of the first station listed at `p`.
    fn station_name_at(stations: &Vec<(GridPos, String)>, p: GridPos) -> (r: Option<&String>)
        ensures
            r is Some <==> station_at(station_entries(stations@), p) is Some,
            r matches Some(n) ==> station_at(station_entries(stations@), p) == Some(n@),
    {
        let ghost st = station_entries(stations@);
        let mut i: usize = 0;
        assert(st.skip(0) =~= st);
        while i < stations.len()
            invariant
                st == station_entries(stations@),
                i <= stations@.len(),
                station_at(st, p) == station_at(st.skip(i as int), p),
            decreases stations.len() - i,
        {
            assert(st.skip(i as int)[0] == st[i as int]);
            if stations[i].0 == p {
                return Some(&stations[i].1);
            }
            assert(st.skip(i as int).skip(1) =~= st.skip(i + 1));
            i = i + 1;
        }
        None
    }

    /// The index of the first segment standing at `p`.
    fn segment_index_at(segments: &Vec<RouteSegment>, p: GridPos) -> (r: Option<usize>)
        ensures
            r is None ==> segment_at(segments@, p) is None,
            r matches Some(k) ==> k < segments@.len() && segment_at(segments@, p) == Some(segments@[k as int]),
    {
        let ghost all = segments@;
        let mut i: usize = 0;
        assert(all.skip(0) =~= all);
        while i < segments.len()
            invariant
                all == segments@,
                i <= all.len(),
                segment_at(all, p) == segment_at(all.skip(i as int), p),
            decreases segments.len() - i,
        {
            assert(all.skip(i as int)[0] == all[i as int]);
            if segments[i].grid_pos == p {
                return Some(i);
            }
            assert(all.skip(i as int).skip(1) =~= all.skip(i + 1));
            i = i + 1;
        }
        None
    }

    /// The first segment, in list order, next to `cur`, not yet visited, and joined to `cur`
    /// by facing ports.
    fn next_segment(segments: &Vec<RouteSegment>, visited: &Vec<GridPos>, cur: GridPos) -> (r: Option<GridPos>)
        requires
            forall|k: int| 0 <= k < segments@.len() ==> pos_in_range(#[trigger] segments@[k].grid_pos),
        ensures
            r == first_open_neighbour(segments@, segments@, visited@.to_set(), cur),
    {
        let ghost all = segments@;
        let here = Self::segment_index_at(segments, cur);
        proof {
            lemma_segment_at(all, cur);
        }
        let mut i: usize = 0;
        assert(all.skip(0) =~= all);
        while i < segments.len()
            invariant
                all == segments@,
                i <= all.len(),
                forall|k: int| 0 <= k < all.len() ==> pos_in_range(#[trigger] all[k].grid_pos),
                here is None ==> segment_at(all, cur) is None,
                here matches Some(h) ==> h < all.len() && segment_at(all, cur) == Some(all[h as int])
                    && all[h as int].grid_pos == cur,
                first_open_neighbour(all, all, visited@.to_set(), cur) == first_open_neighbour(
                    all,
                    all.skip(i as int),
                    visited@.to_set(),
                    cur,
                ),
            decreases segments.len() - i,
        {
            let q = segments[i].grid_pos;
            assert(all.skip(i as int)[0] == all[i as int]);
            if Self::is_adjacent(cur, q) && !contains_pos(visited, q) && Self::can_connect(cur, &segments[i]) {
                let back = match here {
                    Some(h) => Self::can_connect(q, &segments[h]),
                    None => true,
                };
                if back {
                    return Some(q);
                }
            }
            assert(all.skip(i as int).skip(1) =~= all.skip(i + 1));
            i = i + 1;
        }
        None
    }

    /// Whether some stop of `stops` is at `p`.
    fn has_stop_at(stops: &Vec<BusStop>, p: GridPos) -> (r: bool)
        ensures
            r == stops@.map_values(|s: BusStop| s.position).contains(p),
    {
        let ghost ps = stops@.map_values(|s: BusStop| s.position);
        let mut i: usize = 0;
        while i < stops.len()
            invariant
                ps == stops@.map_values(|s: BusStop| s.position),
                i <= stops@.len(),
                forall|k: int| 0 <= k < i ==> ps[k] != p,
            decreases stops.len() - i,
        {
            if stops[i].position == p {
                assert(ps[i as int] == p);
                return true;
            }
            i = i + 1;
        }
        false
    }

    /// The first listed station next to `last`, faced by the segment at `last`, with no stop
    /// yet.
    fn terminal_station(
        stations: &Vec<(GridPos, String)>,
        segments: &Vec<RouteSegment>,
        last: GridPos,
        stops: &Vec<BusStop>,
    ) -> (r: Option<usize>)
        requires
            forall|k: int| 0 <= k < segments@.len() ==> pos_in_range(#[trigger] segments@[k].grid_pos),
        ensures
            r matches Some(j) ==> j < stations@.len() && first_terminal(
                station_entries(stations@),
                segments@,
                last,
                stops@.map_values(|s: BusStop| s.position),
            ) == Some(stations@[j as int].0),
            r is None ==> first_terminal(
                station_entries(stations@),
                segments@,
                last,
                stops@.map_values(|s: BusStop| s.position),
            ) is None,
    {
        let ghost st = station_entries(stations@);
        let ghost taken = stops@.map_values(|s: BusStop| s.position);
        let here = Self::segment_index_at(segments, last);
        proof {
            lemma_segment_at(segments@, last);
        }
        let mut j: usize = 0;
        assert(st.skip(0) =~= st);
        while j < stations.len()
            invariant
                st == station_entries(stations@),
                taken == stops@.map_values(|s: BusStop| s.position),
                j <= stations@.len(),
                forall|k: int| 0 <= k < segments@.len() ==> pos_in_range(#[trigger] segments@[k].grid_pos),
                here is None ==> segment_at(segments@, last) is None,
                here matches Some(h) ==> h < segments@.len() && segment_at(segments@, last) == Some(segments@[h as int])
                    && segments@[h as int].grid_pos == last,
                first_terminal(st, segments@, last, taken) == first_terminal(st.skip(j as int), segments@, last, taken),
            decreases stations.len() - j,
        {
            assert(st.skip(j as int)[0] == st[j as int]);
            let q = stations[j].0;
            if Self::is_adjacent(last, q) && !Self::has_stop_at(stops, q) {
                let faced = match here {
                    Some(h) => Self::can_connect(q, &segments[h]),
                    None => false,
                };
                if faced {
                    return Some(j);
                }
            }
            assert(st.skip(j as int).skip(1) =~= st.skip(j + 1));
            j = j + 1;
        }
        None
    }
}

/// Whether `p` is in `v`.
fn contains_pos(v: &Vec<GridPos>, p: GridPos) -> (r: bool)
    ensures
        r == v@.to_set().contains(p),
{
    let mut i: usize = 0;
    while i < v.len()
        invariant
            i <= v@.len(),
            forall|k: int| 0 <= k < i ==> v@[k] != p,
        decreases v.len() - i,
    {
        if v[i] == p {
            assert(v@.contains(v@[i as int]));
            return true;
        }
        i = i + 1;
    }
    false
}

/// The colour of the palette at `i`.
fn palette_color(i: usize) -> (r: Rgb)
    requires
        i < 6,
    ensures
        r == route_palette(i as int),
{
    if i == 0 {
        Rgb { r: 100, g: 20, b: 20 }
    } else if i == 1 {
        Rgb { r: 20, g: 100, b: 20 }
    } else if i == 2 {
        Rgb { r: 20, g: 20, b: 100 }
    } else if i == 3 {
        Rgb { r: 100, g: 100, b: 20 }
    } else if i == 4 {
        Rgb { r: 100, g: 20, b: 100 }
    } else {
        Rgb { r: 20, g: 100, b: 100 }
    }
}

/// A route can start at `start`: it was not taken by an earlier route, a station stands
/// there and some segment lies next to it.
pub open spec fn route_can_start(
    processed: Set<GridPos>,
    st: Seq<(GridPos, Seq<char>)>,
    segs: Seq<RouteSegment>,
    start: GridPos,
) -> bool {
    &&& !processed.contains(start)
    &&& station_at(st, start) is Some
    &&& first_open_neighbour(segs, segs, Set::empty(), start) is Some
}

/// The cells a route from `start` runs over.
pub open spec fn planned_cells(segs: Seq<RouteSegment>, start: GridPos) -> Seq<GridPos> {
    route_cells(segs, start, first_open_neighbour(segs, segs, Set::empty(), start)->0)
}

/// The stops of a route from `start`.
pub open spec fn planned_stops(st: Seq<(GridPos, Seq<char>)>, segs: Seq<RouteSegment>, start: GridPos) -> Seq<GridPos> {
    route_stops(st, segs, start, planned_cells(segs, start))
}

/// A listed station position always has a name.
proof fn lemma_station_at_listed(st: Seq<(GridPos, Seq<char>)>, j: int)
    requires
        0 <= j < st.len(),
    ensures
        station_at(st, st[j].0) is Some,
    decreases j,
{
    if j > 0 && st[0].0 != st[j].0 {
        assert(st.skip(1)[j - 1] == st[j]);
        lemma_station_at_listed(st.skip(1), j - 1);
    }
}

impl RouteDiscoverySystem {
    /// Builds the route that starts at the station at `start_pos`: it leaves by the first
    /// listed segment next to the station that faces it, walks greedily from segment to
    /// neighbouring segment wherever their ports face each other, stops at the stations it
    /// meets and ends at a new station next to its last segment and faced by it, if there is
    /// one. The cells it visited are recorded in `processed`; a route with fewer than two
    /// stops is dropped. Segment cells lie inside the machine's coordinate range.
    pub fn build_route_from_station(
        start_pos: GridPos,
        segments: &Vec<RouteSegment>,
        stations: &Vec<(GridPos, String)>,
        processed: &mut Vec<GridPos>,
    ) -> (r: Option<BusRoute>)
        requires
            forall|k: int| 0 <= k < segments@.len() ==> pos_in_range(#[trigger] segments@[k].grid_pos),
        ensures
            !route_can_start(
                old(processed)@.to_set(),
                station_entries(stations@),
                segments@,
                start_pos,
            ) ==> r is None && final(processed)@ == old(processed)@,
            route_can_start(
                old(processed)@.to_set(),
                station_entries(stations@),
                segments@,
                start_pos,
            ) ==> final(processed)@ == old(processed)@ + seq![start_pos] + planned_cells(
                segments@,
                start_pos,
            ) && (r is Some <==> planned_stops(
                station_entries(stations@),
                segments@,
                start_pos,
            ).len() >= 2) && (r matches Some(route) ==> route_is(
                route,
                station_entries(stations@),
                planned_stops(station_entries(stations@), segments@, start_pos),
                planned_cells(segments@, start_pos),
            )),
    {
        let ghost segs = segments@;
        let ghost st = station_entries(stations@);
        if contains_pos(processed, start_pos) {
            return None;
        }
        let start_name = match Self::station_name_at(stations, start_pos) {
            Some(n) => n,
            None => {
                return None;
            },
        };
        let none_seen: Vec<GridPos> = Vec::new();
        proof {
            assert(none_seen@.to_set() =~= Set::<GridPos>::empty());
        }
        let first = match Self::next_segment(segments, &none_seen, start_pos) {
            Some(p) => p,
            None => {
                return None;
            },
        };
        proof {
            lemma_first_open_neighbour(segs, segs, Set::empty(), start_pos);
        }
        let mut route_stops: Vec<BusStop> = Vec::new();
        route_stops.push(
            BusStop {
                position: start_pos,
                name: start_name.clone(),
                waiting_passengers: Vec::new(),
                platform_capacity: 20,
            },
        );
        let mut route_segments: Vec<GridPos> = Vec::new();
        route_segments.push(first);
        let mut visited: Vec<GridPos> = Vec::new();
        visited.push(start_pos);
        visited.push(first);
        let mut current = first;
        let mut done = false;
        let ghost n = segs.len();
        proof {
            assert(visited@ =~= seq![start_pos] + route_segments@);
            assert(visited@ =~= Seq::<GridPos>::empty().push(start_pos).push(first));
            Seq::<GridPos>::empty().lemma_push_to_set_commute(start_pos);
            Seq::<GridPos>::empty().push(start_pos).lemma_push_to_set_commute(first);
            assert(Seq::<GridPos>::empty().to_set() =~= Set::<GridPos>::empty());
            assert(visited@.to_set() =~= set![start_pos, first]);
            assert(route_segments@.skip(1) =~= Seq::<GridPos>::empty());
            assert(greedy_walk(segs, set![start_pos, first], first, n) =~= route_segments@.skip(1)
                + greedy_walk(segs, visited@.to_set(), current, n));
            assert(route_stops@.map_values(|s: BusStop| s.position) =~= seq![start_pos]
                + stations_along(route_segments@.skip(1), st));
            assert(positions_of(segs).contains(route_segments@[0]));
        }
        while !done
            invariant
                segs == segments@,
                st == station_entries(stations@),
                n == segs.len(),
                n == positions_of(segs).len(),
                positions_of(segs).contains(first),
                forall|k: int| 0 <= k < segs.len() ==> pos_in_range(#[trigger] segs[k].grid_pos),
                grid_distance(start_pos, first) == 1,
                station_at(st, start_pos) == Some(start_name@),
                route_segments@.len() >= 1,
                route_segments@.len() <= n,
                route_segments@[0] == first,
                visited@ == seq![start_pos] + route_segments@,
                route_segments@.no_duplicates(),
                !route_segments@.contains(start_pos),
                forall|i: int| 0 <= i < route_segments@.len() ==> positions_of(segs).contains(#[trigger] route_segments@[i]),
                current == route_segments@.last(),
                greedy_walk(segs, set![start_pos, first], first, n) == route_segments@.skip(1)
                    + greedy_walk(segs, visited@.to_set(), current, (n - (route_segments@.len() - 1)) as nat),
                !done ==> route_stops@.map_values(|s: BusStop| s.position) == seq![start_pos] + stations_along(
                    route_segments@.skip(1),
                    st,
                ),
                done ==> route_stops@.map_values(|s: BusStop| s.position) == seq![start_pos] + stations_along(
                    checked_cells(route_segments@),
                    st,
                ),
                done ==> first_open_neighbour(segs, segs, visited@.to_set(), current) is None,
                route_stops@.len() >= 1,
                forall|i: int|
                    #![trigger route_stops@[i]]
                    0 <= i < route_stops@.len() ==> Some(route_stops@[i].name@) == station_at(
                        st,
                        route_stops@[i].position,
                    ) && route_stops@[i].waiting_passengers@.len() == 0
                        && route_stops@[i].platform_capacity == 20,
            decreases n - route_segments@.len() + (if done { 0int } else { 1int }),
        {
            let ghost w = route_segments@;
            let ghost sp = route_stops@.map_values(|s: BusStop| s.position);
            let ghost vset = visited@.to_set();
            match Self::next_segment(segments, &visited, current) {
                Some(p) => {
                    proof {
                        lemma_first_open_neighbour(segs, segs, vset, current);
                        assert(visited@.contains(start_pos)) by {
                            assert(visited@[0] == start_pos);
                        }
                        assert(p != start_pos);
                        assert(!w.contains(p)) by {
                            if w.contains(p) {
                                let i = choose|i: int| 0 <= i < w.len() && w[i] == p;
                                assert(visited@[i + 1] == p);
                            }
                        }
                        let w2 = w.push(p);
                        assert(w2.no_duplicates()) by {
                            assert forall|i: int, j: int| 0 <= i < j < w2.len() implies w2[i] != w2[j] by {
                                if j == w.len() {
                                    assert(w[i] != p);
                                } else {
                                    assert(w[i] != w[j]);
                                }
                            }
                        }
                        assert forall|i: int| 0 <= i < w2.len() implies positions_of(segs).contains(#[trigger] w2[i]) by {
                            if i < w.len() {
                                assert(w2[i] == w[i]);
                            }
                        }
                        lemma_walk_len(w2, positions_of(segs));
                        lemma_stations_along_contains(w.skip(1), st, p);
                        assert(!w.skip(1).contains(p)) by {
                            if w.skip(1).contains(p) {
                                let i = choose|i: int| 0 <= i < w.skip(1).len() && w.skip(1)[i] == p;
                                assert(w[i + 1] == p);
                            }
                        }
                        assert(!sp.contains(p)) by {
                            if sp.contains(p) {
                                let i = choose|i: int| 0 <= i < sp.len() && sp[i] == p;
                                if i == 0 {
                                    assert(sp[0] == start_pos);
                                } else {
                                    assert(stations_along(w.skip(1), st)[i - 1] == p);
                                    assert(stations_along(w.skip(1), st).contains(p));
                                }
                            }
                        }
                        visited@.lemma_push_to_set_commute(p);
                    }
                    route_segments.push(p);
                    visited.push(p);
                    current = p;
                    let ghost before_stops = route_stops@;
                    match Self::station_name_at(stations, p) {
                        Some(name) => {
                            if !Self::has_stop_at(&route_stops, p) {
                                route_stops.push(
                                    BusStop {
                                        position: p,
                                        name: name.clone(),
                                        waiting_passengers: Vec::new(),
                                        platform_capacity: 20,
                                    },
                                );
                            }
                        },
                        None => {},
                    }
                    proof {
                        let w2 = route_segments@;
                        let fuel = (n - (w.len() - 1)) as nat;
                        assert(visited@ =~= seq![start_pos] + w2);
                        assert(visited@.to_set() =~= vset.insert(p));
                        assert(greedy_walk(segs, vset, w.last(), fuel) == seq![p] + greedy_walk(
                            segs,
                            vset.insert(p),
                            p,
                            (fuel - 1) as nat,
                        ));
                        assert(w2.skip(1) =~= w.skip(1).push(p));
                        assert(w.skip(1) + (seq![p] + greedy_walk(segs, vset.insert(p), p, (fuel - 1) as nat))
                            =~= w2.skip(1) + greedy_walk(segs, vset.insert(p), p, (fuel - 1) as nat));
                        assert(w2.skip(1).drop_last() =~= w.skip(1));
                        if station_at(st, p) is Some {
                            assert(route_stops@.len() == before_stops.len() + 1);
                            assert(route_stops@.map_values(|s: BusStop| s.position) =~= sp.push(p));
                        } else {
                            assert(route_stops@ == before_stops);
                        }
                        assert(route_stops@.map_values(|s: BusStop| s.position) =~= seq![start_pos]
                            + stations_along(w2.skip(1), st));
                        assert(w2.last() == p);
                    }
                },
                None => {
                    let ghost before_stops = route_stops@;
                    match Self::station_name_at(stations, current) {
                        Some(name) => {
                            if !Self::has_stop_at(&route_stops, current) {
                                route_stops.push(
                                    BusStop {
                                        position: current,
                                        name: name.clone(),
                                        waiting_passengers: Vec::new(),
                                        platform_capacity: 20,
                                    },
                                );
                            }
                        },
                        None => {},
                    }
                    done = true;
                    proof {
                        if w.len() == 1 {
                            assert(w.skip(1) =~= Seq::<GridPos>::empty());
                            assert(stations_along(w.skip(1), st) =~= Seq::<GridPos>::empty());
                            assert(sp =~= seq![start_pos]);
                            assert(w.drop_last() =~= Seq::<GridPos>::empty());
                            assert(w[0] != start_pos) by {
                                assert(w.contains(w[0]));
                            }
                            assert(route_stops@.map_values(|s: BusStop| s.position) =~= seq![start_pos]
                                + stations_along(checked_cells(w), st));
                        } else {
                            assert(w.skip(1).contains(current)) by {
                                assert(w.skip(1)[w.len() - 2] == current);
                            }
                            lemma_stations_along_contains(w.skip(1), st, current);
                            if station_at(st, current) is Some {
                                let sa = stations_along(w.skip(1), st);
                                let i = choose|i: int| 0 <= i < sa.len() && sa[i] == current;
                                assert(sp[i + 1] == current);
                                assert(sp.contains(current));
                            }
                            assert(route_stops@.map_values(|s: BusStop| s.position) =~= seq![start_pos]
                                + stations_along(checked_cells(w), st));
                        }
                    }
                },
            }
        }
        let ghost w = route_segments@;
        proof {
            let fuel = (n - (w.len() - 1)) as nat;
            assert(greedy_walk(segs, visited@.to_set(), current, fuel) =~= Seq::<GridPos>::empty());
            assert(route_cells(segs, start_pos, first) =~= w);
            assert(planned_cells(segs, start_pos) == w);
        }
        match Self::terminal_station(stations, segments, current, &route_stops) {
            Some(j) => {
                let q = stations[j].0;
                proof {
                    lemma_station_at_listed(st, j as int);
                }
                match Self::station_name_at(stations, q) {
                    Some(name) => {
                        route_stops.push(
                            BusStop {
                                position: q,
                                name: name.clone(),
                                waiting_passengers: Vec::new(),
                                platform_capacity: 20,
                            },
                        );
                    },
                    None => {},
                }
            },
            None => {},
        }
        proof {
            assert(route_stops@.map_values(|s: BusStop| s.position) =~= planned_stops(st, segs, start_pos));
        }
        let ghost old_processed = processed@;
        let mut k: usize = 0;
        while k < visited.len()
            invariant
                k <= visited@.len(),
                processed@ == old_processed + visited@.take(k as int),
            decreases visited.len() - k,
        {
            processed.push(visited[k]);
            proof {
                assert(visited@.take(k + 1) =~= visited@.take(k as int).push(visited@[k as int]));
            }
            k = k + 1;
        }
        proof {
            assert(visited@.take(visited@.len() as int) =~= visited@);
            assert(processed@ =~= old_processed + seq![start_pos] + w);
        }
        if route_stops.len() < 2 {
            return None;
        }
        let mut route_id = owned("route_");
        route_id.append(route_stops[0].name.as_str());
        let mut route_name = owned(route_stops[0].name.as_str());
        route_name.append("路");
        let color = palette_color(route_stops.len() % 6);
        let route = BusRoute {
            route_id,
            route_name,
            stops: route_stops,
            segments: route_segments,
            frequency: 20,
            is_circular: false,
            vehicles: Vec::new(),
            max_vehicles: 2,
            color,
        };
        proof {
            let stops = planned_stops(st, segs, start_pos);
            assert(route.stops@[0].position == stops[0]);
            assert(stops[0] == start_pos);
        }
        Some(route)
    }
}

/// The active segments of a list, in order.
pub open spec fn active_only(segs: Seq<RouteSegment>) -> Seq<RouteSegment>
    decreases segs.len(),
{
    if segs.len() == 0 {
        Seq::empty()
    } else if segs.last().is_active {
        active_only(segs.drop_last()).push(segs.last())
    } else {
        active_only(segs.drop_last())
    }
}

/// The index of the entry for `p` in a station table.
pub open spec fn table_index(t: Seq<(GridPos, Seq<char>)>, p: GridPos) -> Option<int>
    decreases t.len(),
{
    if t.len() == 0 {
        None
    } else if t.last().0 == p {
        Some(t.len() - 1)
    } else {
        table_index(t.drop_last(), p)
    }
}

/// The stations by position: one entry per position, in the order the positions first
/// appear, each with the name of the last station listed there.
pub open spec fn station_table(stations: Seq<Station>) -> Seq<(GridPos, Seq<char>)>
    decreases stations.len(),
{
    if stations.len() == 0 {
        Seq::empty()
    } else {
        let t = station_table(stations.drop_last());
        let s = stations.last();
        match table_index(t, s.position) {
            Some(k) => t.update(k, (s.position, s.name@)),
            None => t.push((s.position, s.name@)),
        }
    }
}

/// The state of route discovery after trying to start a route at each of `starts` in
/// turn: the cells taken so far and the plans (stops, cells) of the routes found.
pub open spec fn discovery(
    starts: Seq<GridPos>,
    segs: Seq<RouteSegment>,
    st: Seq<(GridPos, Seq<char>)>,
) -> (Seq<GridPos>, Seq<(Seq<GridPos>, Seq<GridPos>)>)
    decreases starts.len(),
{
    if starts.len() == 0 {
        (Seq::empty(), Seq::empty())
    } else {
        let prev = discovery(starts.drop_last(), segs, st);
        let s = starts.last();
        if route_can_start(prev.0.to_set(), st, segs, s) {
            let taken = prev.0 + seq![s] + planned_cells(segs, s);
            if planned_stops(st, segs, s).len() >= 2 {
                (taken, prev.1.push((planned_stops(st, segs, s), planned_cells(segs, s))))
            } else {
                (taken, prev.1)
            }
        } else {
            prev
        }
    }
}

/// The positions of a list of stations.
pub open spec fn station_positions(stations: Seq<Station>) -> Seq<GridPos> {
    stations.map_values(|s: Station| s.position)
}

/// The entry a table index names holds the position looked for.
proof fn lemma_table_index(t: Seq<(GridPos, Seq<char>)>, p: GridPos)
    ensures
        table_index(t, p) matches Some(k) ==> 0 <= k < t.len() && t[k].0 == p,
    decreases t.len(),
{
    if t.len() > 0 && t.last().0 != p {
        lemma_table_index(t.drop_last(), p);
    }
}

impl RouteDiscoverySystem {
    /// The entry index for `p` in a table.
    fn table_find(table: &Vec<(GridPos, String)>, p: GridPos) -> (r: Option<usize>)
        ensures
            r matches Some(k) ==> table_index(station_entries(table@), p) == Some(k as int) && k
                < table@.len(),
            r is None ==> table_index(station_entries(table@), p) is None,
    {
        proof {
            lemma_table_index(station_entries(table@), p);
        }
        let ghost t = station_entries(table@);
        let mut i: usize = table.len();
        assert(t.take(i as int) =~= t);
        while i > 0
            invariant
                t == station_entries(table@),
                i <= t.len(),
                table_index(t, p) == table_index(t.take(i as int), p),
            decreases i,
        {
            assert(t.take(i as int).last() == t[i - 1]);
            if table[i - 1].0 == p {
                return Some(i - 1);
            }
            assert(t.take(i as int).drop_last() =~= t.take(i - 1));
            i = i - 1;
        }
        None
    }

    /// Finds the bus routes the placed segments form: starting at each station in turn,
    /// builds a route over the active segments, stepping only between cells whose ports face
    /// each other, and skipping stations that an earlier route already passed.
    pub fn discover_routes(segments: &Vec<RouteSegment>, stations: &Vec<Station>) -> (r: Vec<BusRoute>)
        requires
            forall|k: int| 0 <= k < segments@.len() ==> pos_in_range(#[trigger] segments@[k].grid_pos),
        ensures
            r@.len() == discovery(
                station_positions(stations@),
                active_only(segments@),
                station_table(stations@),
            ).1.len(),
            forall|i: int|
                #![trigger r@[i]]
                0 <= i < r@.len() ==> route_is(
                    r@[i],
                    station_table(stations@),
                    discovery(
                        station_positions(stations@),
                        active_only(segments@),
                        station_table(stations@),
                    ).1[i].0,
                    discovery(
                        station_positions(stations@),
                        active_only(segments@),
                        station_table(stations@),
                    ).1[i].1,
                ),
            forall|i: int| 0 <= i < r@.len() ==> (#[trigger] r@[i]).stops@.len() >= 2,
    {
        let mut active: Vec<RouteSegment> = Vec::new();
        let mut i: usize = 0;
        while i < segments.len()
            invariant
                i <= segments@.len(),
                active@ == active_only(segments@.take(i as int)),
                forall|k: int| 0 <= k < segments@.len() ==> pos_in_range(#[trigger] segments@[k].grid_pos),
                forall|k: int| 0 <= k < active@.len() ==> pos_in_range(#[trigger] active@[k].grid_pos),
            decreases segments.len() - i,
        {
            proof {
                assert(segments@.take(i + 1).drop_last() =~= segments@.take(i as int));
                assert(segments@.take(i + 1).last() == segments@[i as int]);
            }
            if segments[i].is_active {
                active.push(segments[i]);
            }
            i = i + 1;
        }
        assert(segments@.take(segments@.len() as int) =~= segments@);
        let mut table: Vec<(GridPos, String)> = Vec::new();
        let mut j: usize = 0;
        while j < stations.len()
            invariant
                j <= stations@.len(),
                station_entries(table@) == station_table(stations@.take(j as int)),
            decreases stations.len() - j,
        {
            proof {
                assert(stations@.take(j + 1).drop_last() =~= stations@.take(j as int));
                assert(stations@.take(j + 1).last() == stations@[j as int]);
            }
            let pos = stations[j].position;
            match Self::table_find(&table, pos) {
                Some(k) => {
                    table.set(k, (pos, stations[j].name.clone()));
                    proof {
                        assert(station_entries(table@) =~= station_table(stations@.take(j + 1)));
                    }
                },
                None => {
                    table.push((pos, stations[j].name.clone()));
                    proof {
                        assert(station_entries(table@) =~= station_table(stations@.take(j + 1)));
                    }
                },
            }
            j = j + 1;
        }
        assert(stations@.take(stations@.len() as int) =~= stations@);
        let ghost segs = active@;
        let ghost st = station_entries(table@);
        let ghost starts = station_positions(stations@);
        let mut discovered_routes: Vec<BusRoute> = Vec::new();
        let mut processed: Vec<GridPos> = Vec::new();
        let mut k: usize = 0;
        while k < stations.len()
            invariant
                k <= stations@.len(),
                segs == active@,
                forall|x: int| 0 <= x < active@.len() ==> pos_in_range(#[trigger] active@[x].grid_pos),
                st == station_entries(table@),
                starts == station_positions(stations@),
                processed@ == discovery(starts.take(k as int), segs, st).0,
                discovered_routes@.len() == discovery(starts.take(k as int), segs, st).1.len(),
                forall|x: int|
                    #![trigger discovered_routes@[x]]
                    0 <= x < discovered_routes@.len() ==> route_is(
                        discovered_routes@[x],
                        st,
                        discovery(starts.take(k as int), segs, st).1[x].0,
                        discovery(starts.take(k as int), segs, st).1[x].1,
                    ),
            decreases stations.len() - k,
        {
            proof {
                assert(starts.take(k + 1).drop_last() =~= starts.take(k as int));
                assert(starts.take(k + 1).last() == stations@[k as int].position);
            }
            let start_pos = stations[k].position;
            let built = Self::build_route_from_station(start_pos, &active, &table, &mut processed);
            match built {
                Some(route) => {
                    discovered_routes.push(route);
                },
                None => {},
            }
            proof {
                let d = discovery(starts.take(k + 1), segs, st);
                let prev = discovery(starts.take(k as int), segs, st);
                assert forall|x: int|
                    #![trigger discovered_routes@[x]]
                    0 <= x < discovered_routes@.len() implies route_is(
                        discovered_routes@[x],
                        st,
                        d.1[x].0,
                        d.1[x].1,
                    ) by {
                    if x < prev.1.len() {
                        assert(d.1[x] == prev.1[x]);
                    }
                }
            }
            k = k + 1;
        }
        assert(starts.take(stations@.len() as int) =~= starts);
        proof {
            lemma_plans_have_stops(starts, segs, st);
            assert forall|i: int| 0 <= i < discovered_routes@.len() implies (#[trigger] discovered_routes@[i]).stops@.len() >= 2 by {
                assert(route_is(discovered_routes@[i], st, discovery(starts, segs, st).1[i].0, discovery(starts, segs, st).1[i].1));
            }
        }
        discovered_routes
    }
}

/// Where a bus heads after leaving stop `idx` of a route with `len` stops: the stop index
/// and state it ends with. At the end of a line that is not circular it turns around and
/// keeps its index.
pub open spec fn next_stop(idx: int, dir: BusDirection, state: BusState, len: int, circular: bool) -> (int, BusState) {
    match dir {
        BusDirection::Forward => if idx + 1 >= len {
            if circular {
                (0, state)
            } else {
                (idx, BusState::TurningAround)
            }
        } else {
            (idx + 1, state)
        },
        BusDirection::Backward => if idx == 0 {
            if circular {
                (len - 1, state)
            } else {
                (idx, BusState::TurningAround)
            }
        } else {
            (idx - 1, state)
        },
    }
}

/// The inputs on which moving a bus to its next stop is defined: a circular route walked
/// backwards from its first stop must have a stop to wrap to.
pub open spec fn can_advance(bus: BusVehicle, route: BusRoute) -> bool {
    &&& bus.current_stop_index < usize::MAX
    &&& (bus.direction == BusDirection::Backward && bus.current_stop_index == 0 && route.is_circular
        ==> route.stops@.len() > 0)
}

/// The other direction.
pub open spec fn reversed(d: BusDirection) -> BusDirection {
    match d {
        BusDirection::Forward => BusDirection::Backward,
        BusDirection::Backward => BusDirection::Forward,
    }
}

/// The stop index a bus restarts from when it turns around: the last stop when it was
/// running forwards, the first otherwise.
pub open spec fn turn_index(d: BusDirection, len: int) -> int {
    match d {
        BusDirection::Forward => if len > 0 { len - 1 } else { 0 },
        BusDirection::Backward => 0,
    }
}

/// Moves the bus on to the next stop of its route in its direction; at the end of a line
/// that is not circular it starts turning around instead.
pub fn advance_to_next_stop(bus: &mut BusVehicle, route: &BusRoute)
    requires
        can_advance(*old(bus), *route),
    ensures
        (final(bus).current_stop_index as int, final(bus).state) == next_stop(
            old(bus).current_stop_index as int,
            old(bus).direction,
            old(bus).state,
            route.stops@.len() as int,
            route.is_circular,
        ),
        final(bus).direction == old(bus).direction,
        final(bus).vehicle_id == old(bus).vehicle_id,
        final(bus).route_id == old(bus).route_id,
        final(bus).capacity == old(bus).capacity,
        final(bus).current_passengers == old(bus).current_passengers,
        final(bus).speed == old(bus).speed,
        final(bus).dwell_time == old(bus).dwell_time,
        final(bus).remaining_dwell == old(bus).remaining_dwell,
{
    match bus.direction {
        BusDirection::Forward => {
            if bus.current_stop_index + 1 >= route.stops.len() {
                if route.is_circular {
                    bus.current_stop_index = 0;
                } else {
                    bus.state = BusState::TurningAround;
                    return;
                }
            } else {
                bus.current_stop_index = bus.current_stop_index + 1;
            }
        },
        BusDirection::Backward => {
            if bus.current_stop_index == 0 {
                if route.is_circular {
                    bus.current_stop_index = route.stops.len() - 1;
                } else {
                    bus.state = BusState::TurningAround;
                    return;
                }
            } else {
                bus.current_stop_index = bus.current_stop_index - 1;
            }
        },
    }
}

/// The inputs on which turning a bus around is defined: a circular route without stops
/// has no stop to wrap to when a forward bus turns back.
pub open spec fn can_turn_around(bus: BusVehicle, route: BusRoute) -> bool {
    &&& route.stops@.len() < usize::MAX
    &&& (route.stops@.len() == 0 && route.is_circular ==> bus.direction == BusDirection::Backward)
}

/// Turns the bus around at the end of its line: it reverses, restarts from the end it
/// reached, moves on to the next stop and travels.
pub fn handle_bus_turning_around(bus: &mut BusVehicle, route: &BusRoute)
    requires
        can_turn_around(*old(bus), *route),
    ensures
        final(bus).direction == reversed(old(bus).direction),
        final(bus).current_stop_index as int == next_stop(
            turn_index(old(bus).direction, route.stops@.len() as int),
            reversed(old(bus).direction),
            old(bus).state,
            route.stops@.len() as int,
            route.is_circular,
        ).0,
        final(bus).state == BusState::Traveling,
        final(bus).vehicle_id == old(bus).vehicle_id,
        final(bus).route_id == old(bus).route_id,
        final(bus).capacity == old(bus).capacity,
        final(bus).current_passengers == old(bus).current_passengers,
        final(bus).speed == old(bus).speed,
        final(bus).dwell_time == old(bus).dwell_time,
        final(bus).remaining_dwell == old(bus).remaining_dwell,
{
    match bus.direction {
        BusDirection::Forward => {
            bus.current_stop_index = if route.stops.len() > 0 { route.stops.len() - 1 } else { 0 };
            bus.direction = BusDirection::Backward;
        },
        BusDirection::Backward => {
            bus.current_stop_index = 0;
            bus.direction = BusDirection::Forward;
        },
    }
    advance_to_next_stop(bus, route);
    bus.state = BusState::Traveling;
}

/// The remaining dwell of a bus at a stop after `dt_ms` more milliseconds there; when it
/// runs out the bus moves on to its next stop and travels, or, at the end of a line that is
/// not circular, starts turning around.
pub fn handle_bus_at_stop(bus: &mut BusVehicle, route: &BusRoute, dt_ms: i64)
    requires
        dt_ms >= 0,
        old(bus).remaining_dwell - dt_ms >= i64::MIN,
        can_advance(*old(bus), *route),
    ensures
        final(bus).remaining_dwell == old(bus).remaining_dwell - dt_ms,
        old(bus).remaining_dwell - dt_ms <= 0 ==> final(bus).current_stop_index as int == next_stop(
            old(bus).current_stop_index as int,
            old(bus).direction,
            old(bus).state,
            route.stops@.len() as int,
            route.is_circular,
        ).0 && final(bus).state == (if next_stop(
            old(bus).current_stop_index as int,
            old(bus).direction,
            old(bus).state,
            route.stops@.len() as int,
            route.is_circular,
        ).1 == BusState::TurningAround {
            BusState::TurningAround
        } else {
            BusState::Traveling
        }),
        old(bus).remaining_dwell - dt_ms > 0 ==> final(bus).current_stop_index == old(bus).current_stop_index
            && final(bus).state == old(bus).state,
        final(bus).direction == old(bus).direction,
        final(bus).vehicle_id == old(bus).vehicle_id,
        final(bus).route_id == old(bus).route_id,
        final(bus).current_passengers == old(bus).current_passengers,
{
    bus.remaining_dwell = bus.remaining_dwell - dt_ms;
    if bus.remaining_dwell <= 0 {
        advance_to_next_stop(bus, route);
        if bus.state != BusState::TurningAround {
            bus.state = BusState::Traveling;
        }
    }
}

/// A travelling bus that has reached its target stop halts there for its dwell time; a
/// bus whose stop index is past the route's stops stays as it is.
pub fn handle_bus_traveling(bus: &mut BusVehicle, route: &BusRoute, reached_stop: bool)
    ensures
        old(bus).current_stop_index < route.stops@.len() && reached_stop ==> final(bus).state
            == BusState::AtStop && final(bus).remaining_dwell == old(bus).dwell_time,
        !(old(bus).current_stop_index < route.stops@.len() && reached_stop) ==> final(bus).state
            == old(bus).state && final(bus).remaining_dwell == old(bus).remaining_dwell,
        final(bus).current_stop_index == old(bus).current_stop_index,
        final(bus).direction == old(bus).direction,
        final(bus).dwell_time == old(bus).dwell_time,
        final(bus).vehicle_id == old(bus).vehicle_id,
        final(bus).route_id == old(bus).route_id,
        final(bus).current_passengers == old(bus).current_passengers,
{
    if bus.current_stop_index >= route.stops.len() {
        return;
    }
    if reached_stop {
        bus.state = BusState::AtStop;
        bus.remaining_dwell = bus.dwell_time;
    }
}

/// One update of a bus on its route, `dt_ms` milliseconds after the last: a travelling bus
/// halts when it has reached its stop, a halted bus counts down its dwell, a bus at the end
/// of its line turns around, a loading bus goes back to its stop and an idle bus waits.
pub fn update_bus_state(bus: &mut BusVehicle, route: &BusRoute, dt_ms: i64, reached_stop: bool)
    requires
        dt_ms >= 0,
        old(bus).remaining_dwell - dt_ms >= i64::MIN,
        can_advance(*old(bus), *route),
        can_turn_around(*old(bus), *route),
    ensures
        old(bus).state == BusState::Idle ==> *final(bus) == *old(bus),
        old(bus).state == BusState::Loading ==> final(bus).state == BusState::AtStop
            && final(bus).current_stop_index == old(bus).current_stop_index
            && final(bus).remaining_dwell == old(bus).remaining_dwell,
        old(bus).state == BusState::TurningAround ==> final(bus).direction == reversed(old(bus).direction)
            && final(bus).current_stop_index as int == next_stop(
            turn_index(old(bus).direction, route.stops@.len() as int),
            reversed(old(bus).direction),
            old(bus).state,
            route.stops@.len() as int,
            route.is_circular,
        ).0 && final(bus).state == BusState::Traveling,
        old(bus).state == BusState::AtStop ==> {
            let next = next_stop(
                old(bus).current_stop_index as int,
                old(bus).direction,
                old(bus).state,
                route.stops@.len() as int,
                route.is_circular,
            );
            &&& final(bus).remaining_dwell == old(bus).remaining_dwell - dt_ms
            &&& final(bus).direction == old(bus).direction
            &&& old(bus).remaining_dwell - dt_ms <= 0 ==> final(bus).current_stop_index as int == next.0
                && final(bus).state == (if next.1 == BusState::TurningAround {
                BusState::TurningAround
            } else {
                BusState::Traveling
            })
            &&& old(bus).remaining_dwell - dt_ms > 0 ==> final(bus).current_stop_index
                == old(bus).current_stop_index && final(bus).state == BusState::AtStop
        },
        old(bus).state == BusState::Traveling ==> {
            &&& final(bus).current_stop_index == old(bus).current_stop_index
            &&& final(bus).direction == old(bus).direction
            &&& old(bus).current_stop_index < route.stops@.len() && reached_stop ==> final(bus).state
                == BusState::AtStop && final(bus).remaining_dwell == old(bus).dwell_time
            &&& !(old(bus).current_stop_index < route.stops@.len() && reached_stop) ==> final(bus).state
                == BusState::Traveling && final(bus).remaining_dwell == old(bus).remaining_dwell
        },
        final(bus).vehicle_id == old(bus).vehicle_id,
        final(bus).route_id == old(bus).route_id,
        final(bus).current_passengers == old(bus).current_passengers,
{
    match bus.state {
        BusState::Traveling => handle_bus_traveling(bus, route, reached_stop),
        BusState::AtStop => handle_bus_at_stop(bus, route, dt_ms),
        BusState::TurningAround => handle_bus_turning_around(bus, route),
        BusState::Idle => {},
        BusState::Loading => {
            bus.state = BusState::AtStop;
        },
    }
}

/// On a line that is not circular a bus turns around at either end, keeping its stop: a
/// bus running forwards at the last stop and a bus running backwards at the first stop both
/// start turning around. Anywhere else it moves one stop on in its direction and keeps its
/// state; on a circular line it wraps from one end to the other instead of turning.
pub proof fn law_buses_turn_at_line_ends(idx: int, dir: BusDirection, state: BusState, len: int, circular: bool)
    requires
        0 <= idx < len,
    ensures
        !circular && dir == BusDirection::Forward && idx == len - 1 ==> next_stop(idx, dir, state, len, circular)
            == (idx, BusState::TurningAround),
        !circular && dir == BusDirection::Backward && idx == 0 ==> next_stop(idx, dir, state, len, circular)
            == (idx, BusState::TurningAround),
        dir == BusDirection::Forward && idx < len - 1 ==> next_stop(idx, dir, state, len, circular) == (idx + 1, state),
        dir == BusDirection::Backward && idx > 0 ==> next_stop(idx, dir, state, len, circular) == (idx - 1, state),
        circular && dir == BusDirection::Forward && idx == len - 1 ==> next_stop(idx, dir, state, len, circular)
            == (0int, state),
        circular && dir == BusDirection::Backward && idx == 0 ==> next_stop(idx, dir, state, len, circular)
            == (len - 1, state),
        next_stop(idx, dir, state, len, circular).1 == BusState::TurningAround && state != BusState::TurningAround
            ==> !circular && next_stop(idx, dir, state, len, circular).0 == idx,
{
}

/// A bus whose stop index lies on a route with stops keeps it there: moving on, turning
/// around and halting never take it off the route's stops.
pub proof fn law_stop_index_stays_on_route(idx: int, dir: BusDirection, state: BusState, len: int, circular: bool)
    requires
        0 <= idx < len,
    ensures
        0 <= next_stop(idx, dir, state, len, circular).0 < len,
        0 <= next_stop(turn_index(dir, len), reversed(dir), state, len, circular).0 < len,
{
}


/// The bus put into service on `route_id` at the moment `timestamp_ms` (milliseconds since
/// the Unix epoch): named `bus_` and the timestamp modulo ten thousand, with thirty seats,
/// idle at the first stop and heading forward, at 80 px/s, dwelling three seconds at stops.
pub fn spawn_bus_vehicle(route_id: String, timestamp_ms: u128) -> (r: BusVehicle)
    ensures
        r.vehicle_id@ == "bus_"@ + decimal_text((timestamp_ms % 10000) as int),
        r.route_id == route_id,
        r.capacity == 30,
        r.current_passengers@.len() == 0,
        r.current_stop_index == 0,
        r.direction == BusDirection::Forward,
        r.state == BusState::Idle,
        r.speed == 80,
        r.dwell_time == 3000,
        r.remaining_dwell == 0,
{
    let n = timestamp_ms % 10000;
    BusVehicle {
        vehicle_id: prefixed_number("bus_", n as i128),
        route_id,
        capacity: 30,
        current_passengers: Vec::new(),
        current_stop_index: 0,
        direction: BusDirection::Forward,
        state: BusState::Idle,
        speed: 80,
        dwell_time: 3000,
        remaining_dwell: 0,
    }
}

/// The plans (stops, cells) of the routes that discovery finds on these segments and
/// stations, in the order found.
pub open spec fn discovered_plans(segments: Seq<RouteSegment>, stations: Seq<Station>) -> Seq<(Seq<GridPos>, Seq<GridPos>)> {
    discovery(station_positions(stations), active_only(segments), station_table(stations)).1
}

/// The id of a route planned with these stops: `route_` and the first stop's name.
pub open spec fn plan_route_id(st: Seq<(GridPos, Seq<char>)>, stops: Seq<GridPos>) -> Seq<char> {
    "route_"@ + station_at(st, stops[0])->0
}

/// The plan `i` is the last one of the list under its id.
pub open spec fn last_under_its_id(st: Seq<(GridPos, Seq<char>)>, plans: Seq<(Seq<GridPos>, Seq<GridPos>)>, i: int) -> bool {
    forall|j: int| i < j < plans.len() ==> plan_route_id(st, #[trigger] plans[j].0) != plan_route_id(st, plans[i].0)
}

proof fn lemma_plans_have_stops(starts: Seq<GridPos>, segs: Seq<RouteSegment>, st: Seq<(GridPos, Seq<char>)>)
    ensures
        forall|i: int|
            0 <= i < discovery(starts, segs, st).1.len() ==> #[trigger] discovery(starts, segs, st).1[i].0.len() >= 2,
    decreases starts.len(),
{
    if starts.len() > 0 {
        lemma_plans_have_stops(starts.drop_last(), segs, st);
        let prev = discovery(starts.drop_last(), segs, st);
        let cur = discovery(starts, segs, st);
        assert forall|i: int| 0 <= i < cur.1.len() implies #[trigger] cur.1[i].0.len() >= 2 by {
            if i < prev.1.len() {
                assert(cur.1[i] == prev.1[i]);
            }
        }
    }
}

/// Rediscovers the routes from scratch: the manager's routes are replaced by the routes
/// found on the segments and stations, each stored under its id (a later route replaces an
/// earlier one with the same id). Returns, in the order found, the ids of the routes that
/// have stops, for each of which a bus is to be put into service.
pub fn update_bus_routes(routes_manager: &mut BusRoutesManager, segments: &Vec<RouteSegment>, stations: &Vec<Station>) -> (r: Vec<String>)
    requires
        forall|k: int| 0 <= k < segments@.len() ==> pos_in_range(#[trigger] segments@[k].grid_pos),
    ensures
        final(routes_manager).well_formed(),
        final(routes_manager).route_counter == old(routes_manager).route_counter,
        final(routes_manager).vehicle_counter == old(routes_manager).vehicle_counter,
        forall|id: Seq<char>|
            #[trigger] final(routes_manager).has_route(id) <==> exists|i: int|
                0 <= i < discovered_plans(segments@, stations@).len() && plan_route_id(
                    station_table(stations@),
                    #[trigger] discovered_plans(segments@, stations@)[i].0,
                ) == id,
        forall|i: int|
            0 <= i < discovered_plans(segments@, stations@).len() && last_under_its_id(
                station_table(stations@),
                discovered_plans(segments@, stations@),
                i,
            ) ==> route_is(
                final(routes_manager).route(plan_route_id(station_table(stations@), #[trigger] discovered_plans(segments@, stations@)[i].0)),
                station_table(stations@),
                discovered_plans(segments@, stations@)[i].0,
                discovered_plans(segments@, stations@)[i].1,
            ),
        r@.len() == discovered_plans(segments@, stations@).len(),
        forall|i: int|
            0 <= i < r@.len() ==> #[trigger] r@[i]@ == plan_route_id(
                station_table(stations@),
                discovered_plans(segments@, stations@)[i].0,
            ),
{
    let ghost d = discovered_plans(segments@, stations@);
    let ghost st = station_table(stations@);
    routes_manager.routes.clear();
    let mut discovered = RouteDiscoverySystem::discover_routes(segments, stations);
    let ghost all = discovered@;
    let total = discovered.len();
    proof {
        lemma_plans_have_stops(station_positions(stations@), active_only(segments@), st);
    }
    let mut ids: Vec<String> = Vec::new();
    let mut i: usize = 0;
    while discovered.len() > 0
        invariant
            all.len() == d.len(),
            all.len() == total,
            forall|k: int| #![trigger all[k]] 0 <= k < all.len() ==> route_is(all[k], st, d[k].0, d[k].1),
            forall|k: int| 0 <= k < d.len() ==> #[trigger] d[k].0.len() >= 2,
            i <= all.len(),
            discovered@ == all.skip(i as int),
            routes_manager.well_formed(),
            routes_manager.route_counter == old(routes_manager).route_counter,
            routes_manager.vehicle_counter == old(routes_manager).vehicle_counter,
            ids@.len() == i,
            forall|k: int| 0 <= k < i ==> #[trigger] ids@[k]@ == plan_route_id(st, d[k].0),
            forall|id: Seq<char>|
                #[trigger] routes_manager.has_route(id) <==> exists|k: int|
                    0 <= k < i && plan_route_id(st, #[trigger] d[k].0) == id,
            forall|k: int|
                0 <= k < i && (forall|j: int| k < j < i ==> plan_route_id(st, #[trigger] d[j].0) != plan_route_id(st, d[k].0))
                    ==> route_is(routes_manager.route(plan_route_id(st, #[trigger] d[k].0)), st, d[k].0, d[k].1),
        decreases discovered.len(),
    {
        assert(discovered@.len() == all.len() - i);
        let route = discovered.remove(0);
        let ghost ii = i as int;
        proof {
            assert(route == all[ii]);
            assert(route_is(all[ii], st, d[ii].0, d[ii].1));
        }
        if route.stops.len() > 0 {
            ids.push(route.route_id.clone());
        }
        let ghost m0 = *routes_manager;
        routes_manager.add_route(route);
        proof {
            let m1 = *routes_manager;
            let id_i = plan_route_id(st, d[ii].0);
            assert(route.route_id@ == id_i);
            assert forall|id: Seq<char>|
                #[trigger] m1.has_route(id) <==> exists|k: int| 0 <= k < ii + 1 && plan_route_id(st, #[trigger] d[k].0) == id by {
                if id != id_i {
                    if m1.has_route(id) {
                        assert(m0.has_route(id));
                    }
                    if exists|k: int| 0 <= k < ii + 1 && plan_route_id(st, #[trigger] d[k].0) == id {
                        let k = choose|k: int| 0 <= k < ii + 1 && plan_route_id(st, #[trigger] d[k].0) == id;
                        assert(k != ii);
                        assert(m0.has_route(id));
                    }
                } else {
                    assert(plan_route_id(st, d[ii].0) == id);
                }
            }
            assert forall|k: int|
                0 <= k < ii + 1 && (forall|j: int| k < j < ii + 1 ==> plan_route_id(st, #[trigger] d[j].0) != plan_route_id(st, d[k].0))
                    implies route_is(m1.route(plan_route_id(st, #[trigger] d[k].0)), st, d[k].0, d[k].1) by {
                if k < ii {
                    assert(plan_route_id(st, d[ii].0) != plan_route_id(st, d[k].0));
                    assert(m0.has_route(plan_route_id(st, d[k].0)));
                }
            }
            assert(all.skip(ii + 1) =~= all.skip(ii).skip(1));
        }
        i = i + 1;
    }
    proof {
        assert(i == all.len());
    }
    ids
}

} // verus!
