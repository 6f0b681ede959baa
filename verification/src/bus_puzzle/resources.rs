use vstd::prelude::*;

use crate::bus_puzzle::components::{GridPos, RouteSegmentType};
use crate::bus_puzzle::level_system::LevelData;
use crate::bus_puzzle::pos_map::PosMap;
use crate::bus_puzzle::text::owned;

verus! {

/// What a node of the pathfinding graph stands for.
#[derive(Debug, Clone, Copy, PartialEq, Eq, Structural)]
pub enum GraphNodeType {
    Station,
    RouteSegment,
    Intersection,
}

/// A node of the pathfinding graph.
#[derive(Debug)]
pub struct GraphNode {
    pub position: GridPos,
    pub node_type: GraphNodeType,
    pub station_name: Option<String>,
    pub is_accessible: bool,
}

/// How a connection is travelled.
#[derive(Debug, Clone, Copy, PartialEq, Eq, Structural)]
pub enum ConnectionType {
    Walk,
    BusRoute,
    Transfer,
}

/// The cost of a connection kind, in half steps: a walk costs half a step, a bus ride one
/// step and a transfer two.
pub open spec fn connection_cost(t: ConnectionType) -> u32 {
    match t {
        ConnectionType::Walk => 1,
        ConnectionType::BusRoute => 2,
        ConnectionType::Transfer => 4,
    }
}

/// A directed connection of the pathfinding graph; `cost` is counted in half steps.
#[derive(Debug)]
pub struct Connection {
    pub to: GridPos,
    pub cost: u32,
    pub route_id: Option<String>,
    pub connection_type: ConnectionType,
}

/// The pathfinding graph: nodes keyed by position, the outgoing connections of each
/// position, and the position of each station by name.
#[derive(Debug)]
pub struct PathfindingGraph {
    pub nodes: Vec<GraphNode>,
    pub connections: Vec<(GridPos, Vec<Connection>)>,
    pub station_lookup: Vec<(String, GridPos)>,
}

impl PathfindingGraph {
    /// An empty graph.
    pub fn new() -> (g: PathfindingGraph)
        ensures
            g.nodes@.len() == 0,
            g.connections@.len() == 0,
            g.station_lookup@.len() == 0,
            g.well_formed(),
    {
        PathfindingGraph { nodes: Vec::new(), connections: Vec::new(), station_lookup: Vec::new() }
    }

    /// The graph holds a node at `p`.
    pub open spec fn has_node(&self, p: GridPos) -> bool {
        exists|i: int| 0 <= i < self.nodes@.len() && #[trigger] self.nodes@[i].position == p
    }

    /// The node at `p` (meaningful when `has_node(p)`).
    pub open spec fn node_at(&self, p: GridPos) -> GraphNode {
        self.nodes@[self.node_index(p)]
    }

    pub open spec fn node_index(&self, p: GridPos) -> int {
        choose|i: int| 0 <= i < self.nodes@.len() && #[trigger] self.nodes@[i].position == p
    }

    /// The graph lists outgoing connections for `p`.
    pub open spec fn has_entry(&self, p: GridPos) -> bool {
        exists|i: int| 0 <= i < self.connections@.len() && #[trigger] self.connections@[i].0 == p
    }

    pub open spec fn entry_index(&self, p: GridPos) -> int {
        choose|i: int| 0 <= i < self.connections@.len() && #[trigger] self.connections@[i].0 == p
    }

    /// The outgoing connections of `p`.
    pub open spec fn edges_from(&self, p: GridPos) -> Seq<Connection> {
        if self.has_entry(p) {
            self.connections@[self.entry_index(p)].1@
        } else {
            Seq::empty()
        }
    }

    /// There is a connection from `a` to `b`.
    pub open spec fn has_edge(&self, a: GridPos, b: GridPos) -> bool {
        exists|j: int| 0 <= j < self.edges_from(a).len() && #[trigger] self.edges_from(a)[j].to == b
    }

    /// The station lookup holds `name`.
    pub open spec fn has_station(&self, name: Seq<char>) -> bool {
        exists|i: int|
            0 <= i < self.station_lookup@.len() && #[trigger] self.station_lookup@[i].0@ == name
    }

    /// The position recorded for the station `name` (meaningful when `has_station(name)`).
    pub open spec fn station_position(&self, name: Seq<char>) -> GridPos {
        self.station_lookup@[choose|i: int|
            0 <= i < self.station_lookup@.len() && #[trigger] self.station_lookup@[i].0@
                == name].1
    }

    /// Some station of the lookup is at `p`.
    pub open spec fn is_station_position(&self, p: GridPos) -> bool {
        exists|i: int|
            0 <= i < self.station_lookup@.len() && #[trigger] self.station_lookup@[i].1 == p
    }

    /// Keys are unique, and every position that a connection or the station lookup names
    /// is a node.
    pub open spec fn well_formed(&self) -> bool {
        &&& forall|i: int, j: int|
            0 <= i < j < self.nodes@.len() ==> #[trigger] self.nodes@[i].position
                != #[trigger] self.nodes@[j].position
        &&& forall|i: int, j: int|
            0 <= i < j < self.connections@.len() ==> #[trigger] self.connections@[i].0
                != #[trigger] self.connections@[j].0
        &&& forall|i: int, j: int|
            0 <= i < j < self.station_lookup@.len() ==> #[trigger] self.station_lookup@[i].0@
                != #[trigger] self.station_lookup@[j].0@
        &&& forall|i: int|
            0 <= i < self.connections@.len() ==> self.has_node(
                #[trigger] self.connections@[i].0,
            )
        &&& forall|i: int, j: int|
            0 <= i < self.connections@.len() && 0 <= j < self.connections@[i].1@.len()
                ==> self.has_node(#[trigger] self.connections@[i].1@[j].to)
        &&& forall|i: int|
            0 <= i < self.station_lookup@.len() ==> self.has_node(
                #[trigger] self.station_lookup@[i].1,
            )
    }

    /// `s` is a walk along connections of the graph.
    pub open spec fn is_walk(&self, s: Seq<GridPos>) -> bool {
        &&& s.len() >= 1
        &&& forall|i: int| #![trigger s[i]] 0 <= i < s.len() - 1 ==> self.has_edge(s[i], s[i + 1])
    }

    /// Some walk leads from `a` to `b`.
    pub open spec fn reachable(&self, a: GridPos, b: GridPos) -> bool {
        exists|s: Seq<GridPos>| #[trigger] self.is_walk(s) && s[0] == a && s[s.len() - 1] == b
    }

    /// Every connection leaving a member of `c` ends in `c`.
    pub open spec fn closed_under_edges(&self, c: Set<GridPos>) -> bool {
        forall|u: GridPos, v: GridPos| #[trigger] c.contains(u) && #[trigger] self.has_edge(u, v) ==> c.contains(v)
    }

    /// No connection list names the same end twice.
    pub open spec fn links_unique(&self) -> bool {
        forall|i: int, j: int, k: int|
            0 <= i < self.connections@.len() && 0 <= j < k < self.connections@[i].1@.len()
                ==> #[trigger] self.connections@[i].1@[j].to
                != #[trigger] self.connections@[i].1@[k].to
    }

    /// Every connection has a connection back.
    pub open spec fn is_symmetric(&self) -> bool {
        forall|a: GridPos, b: GridPos| #[trigger] self.has_edge(a, b) ==> self.has_edge(b, a)
    }

    /// In a graph whose connections all run both ways, every trip can be made back.
    pub proof fn law_trip_back(&self, a: GridPos, b: GridPos)
        requires
            self.is_symmetric(),
            self.reachable(a, b),
        ensures
            self.reachable(b, a),
    {
        let s = choose|s: Seq<GridPos>| #[trigger] self.is_walk(s) && s[0] == a && s[s.len() - 1] == b;
        let r = s.reverse();
        assert forall|i: int| #![trigger r[i]] 0 <= i < r.len() - 1 implies self.has_edge(r[i], r[i + 1]) by {
            let j = s.len() - 2 - i;
            assert(s[j] == r[i + 1]);
            assert(s[j + 1] == r[i]);
            assert(self.has_edge(s[j], s[j + 1]));
        }
        assert(self.is_walk(r));
        assert(r[0] == b);
        assert(r[r.len() - 1] == a);
    }

    /// A set closed under connections holds every point of a walk that starts in it.
    pub proof fn lemma_walk_stays_in_closed_set(&self, c: Set<GridPos>, s: Seq<GridPos>, i: int)
        requires
            self.closed_under_edges(c),
            self.is_walk(s),
            c.contains(s[0]),
            0 <= i < s.len(),
        ensures
            c.contains(s[i]),
        decreases i,
    {
        if i > 0 {
            self.lemma_walk_stays_in_closed_set(c, s, i - 1);
            assert(self.has_edge(s[i - 1], s[i]));
        }
    }

    /// Some entry of the connection list for `a` leads to `b`.
    pub open spec fn raw_edge(&self, a: GridPos, b: GridPos) -> bool {
        exists|i: int, j: int|
            0 <= i < self.connections@.len() && 0 <= j < self.connections@[i].1@.len()
                && self.connections@[i].0 == a && #[trigger] self.connections@[i].1@[j].to == b
    }

    /// Some connection of kind `t` is listed from `a` to `b`.
    pub open spec fn has_link(&self, a: GridPos, b: GridPos, t: ConnectionType) -> bool {
        exists|i: int, j: int|
            0 <= i < self.connections@.len() && 0 <= j < self.connections@[i].1@.len()
                && self.connections@[i].0 == a && #[trigger] self.connections@[i].1@[j].to == b
                && self.connections@[i].1@[j].connection_type == t
    }

    /// A connection exists exactly when one of some kind is listed.
    pub proof fn lemma_edge_is_link(&self, a: GridPos, b: GridPos)
        requires
            self.well_formed(),
        ensures
            self.has_edge(a, b) <==> (self.has_link(a, b, ConnectionType::Walk) || self.has_link(
                a,
                b,
                ConnectionType::BusRoute,
            ) || self.has_link(a, b, ConnectionType::Transfer)),
    {
        self.lemma_raw_edge(a, b);
        if self.raw_edge(a, b) {
            let (i, j) = choose|i: int, j: int|
                0 <= i < self.connections@.len() && 0 <= j < self.connections@[i].1@.len()
                    && self.connections@[i].0 == a && #[trigger] self.connections@[i].1@[j].to == b;
            let t = self.connections@[i].1@[j].connection_type;
            assert(self.has_link(a, b, t));
        }
    }

    /// The connection `c` is listed under `k`.
    pub open spec fn is_listed(&self, k: GridPos, c: Connection) -> bool {
        exists|i: int, j: int|
            0 <= i < self.connections@.len() && 0 <= j < self.connections@[i].1@.len()
                && self.connections@[i].0 == k && #[trigger] self.connections@[i].1@[j] == c
    }

    pub proof fn lemma_entry_index(&self, i: int)
        requires
            self.well_formed(),
            0 <= i < self.connections@.len(),
        ensures
            self.has_entry(self.connections@[i].0),
            self.entry_index(self.connections@[i].0) == i,
            self.edges_from(self.connections@[i].0) == self.connections@[i].1@,
    {
        let k = self.connections@[i].0;
        assert(self.has_entry(k));
        let e = self.entry_index(k);
        if e < i {
            assert(self.connections@[e].0 != self.connections@[i].0);
        } else if e > i {
            assert(self.connections@[i].0 != self.connections@[e].0);
        }
    }

    /// With distinct keys, a connection exists exactly when some entry lists it.
    pub proof fn lemma_raw_edge(&self, a: GridPos, b: GridPos)
        requires
            self.well_formed(),
        ensures
            self.has_edge(a, b) <==> self.raw_edge(a, b),
    {
        if self.has_edge(a, b) {
            let i = self.entry_index(a);
            let j = choose|j: int| 0 <= j < self.edges_from(a).len() && #[trigger] self.edges_from(a)[j].to == b;
            assert(self.connections@[i].1@[j].to == b);
        }
        if self.raw_edge(a, b) {
            let (i, j) = choose|i: int, j: int|
                0 <= i < self.connections@.len() && 0 <= j < self.connections@[i].1@.len()
                    && self.connections@[i].0 == a && #[trigger] self.connections@[i].1@[j].to == b;
            self.lemma_entry_index(i);
            assert(self.edges_from(a)[j].to == b);
        }
    }

    /// The outgoing connections of `p`, if the graph lists any.
    pub fn connections_from(&self, p: GridPos) -> (r: Option<&Vec<Connection>>)
        requires
            self.well_formed(),
        ensures
            r is Some <==> self.has_entry(p),
            r matches Some(v) ==> v@ == self.edges_from(p),
    {
        let mut i: usize = 0;
        while i < self.connections.len()
            invariant
                self.well_formed(),
                i <= self.connections@.len(),
                forall|k: int| 0 <= k < i ==> self.connections@[k].0 != p,
            decreases self.connections.len() - i,
        {
            if self.connections[i].0 == p {
                proof {
                    assert(self.connections@[i as int].0 == p);
                    assert(self.has_entry(p));
                    let e = self.entry_index(p);
                    if e != i as int {
                        assert(self.connections@[e].0 == p);
                        if e < i {
                            assert(self.connections@[e].0 != self.connections@[i as int].0);
                        } else {
                            assert(self.connections@[i as int].0 != self.connections@[e].0);
                        }
                    }
                }
                return Some(&self.connections[i].1);
            }
            i = i + 1;
        }
        None
    }

    /// The node at `p`, if any.
    pub fn get_node(&self, p: GridPos) -> (r: Option<&GraphNode>)
        requires
            self.well_formed(),
        ensures
            r is Some <==> self.has_node(p),
            r matches Some(n) ==> *n == self.node_at(p),
    {
        let mut i: usize = 0;
        while i < self.nodes.len()
            invariant
                self.well_formed(),
                i <= self.nodes@.len(),
                forall|k: int| 0 <= k < i ==> self.nodes@[k].position != p,
            decreases self.nodes.len() - i,
        {
            if self.nodes[i].position == p {
                proof {
                    assert(self.nodes@[i as int].position == p);
                    assert(self.has_node(p));
                    let e = self.node_index(p);
                    if e != i as int {
                        assert(self.nodes@[e].position == p);
                        if e < i {
                            assert(self.nodes@[e].position != self.nodes@[i as int].position);
                        } else {
                            assert(self.nodes@[i as int].position != self.nodes@[e].position);
                        }
                    }
                }
                return Some(&self.nodes[i]);
            }
            i = i + 1;
        }
        None
    }

    /// The position recorded for the station named `name`, if any.
    pub fn get_station_position(&self, name: &str) -> (r: Option<GridPos>)
        requires
            self.well_formed(),
        ensures
            r is Some <==> self.has_station(name@),
            r matches Some(p) ==> p == self.station_position(name@),
    {
        let mut i: usize = 0;
        while i < self.station_lookup.len()
            invariant
                self.well_formed(),
                i <= self.station_lookup@.len(),
                forall|k: int| 0 <= k < i ==> self.station_lookup@[k].0@ != name@,
            decreases self.station_lookup.len() - i,
        {
            if crate::bus_puzzle::text::text_eq(self.station_lookup[i].0.as_str(), name) {
                proof {
                    assert(self.station_lookup@[i as int].0@ == name@);
                    assert(self.has_station(name@));
                    let e = choose|k: int|
                        0 <= k < self.station_lookup@.len() && #[trigger] self.station_lookup@[k].0@
                            == name@;
                    assert(self.station_lookup@[i as int].0@ == name@);
                    if e != i as int {
                        if e < i {
                            assert(self.station_lookup@[e].0@
                                != self.station_lookup@[i as int].0@);
                        } else {
                            assert(self.station_lookup@[i as int].0@
                                != self.station_lookup@[e].0@);
                        }
                    }
                }
                return Some(self.station_lookup[i].1);
            }
            i = i + 1;
        }
        None
    }
}

/// The screens of the game.
#[derive(Debug, Clone, Copy, PartialEq, Eq, Structural)]
pub enum GameStateEnum {
    Splash,
    MainMenu,
    Loading,
    Playing,
    Paused,
    LevelComplete,
    GameOver,
}

/// A segment the player placed: its kind, rotation, the entity that shows it and what it
/// cost.
#[derive(Debug, Clone, Copy, PartialEq, Eq, Structural)]
pub struct PlacedSegment {
    pub segment_type: RouteSegmentType,
    pub rotation: u32,
    pub entity: u64,
    pub cost: u32,
}

/// How many passengers appeared, arrived and gave up.
#[derive(Debug, Clone, Copy, PartialEq, Eq, Structural)]
pub struct PassengerStats {
    pub total_spawned: u32,
    pub total_arrived: u32,
    pub total_gave_up: u32,
}

/// The parts of the player's score.
#[derive(Debug, Clone, Copy, PartialEq, Eq, Structural)]
pub struct GameScore {
    pub base_points: u32,
    pub efficiency_bonus: u32,
    pub speed_bonus: u32,
    pub cost_bonus: u32,
    pub total_score: u32,
}

impl Default for GameScore {
    fn default() -> (r: GameScore)
        ensures
            r == (GameScore { base_points: 0, efficiency_bonus: 0, speed_bonus: 0, cost_bonus: 0, total_score: 0 }),
    {
        GameScore { base_points: 0, efficiency_bonus: 0, speed_bonus: 0, cost_bonus: 0, total_score: 0 }
    }
}

/// The slot of a segment kind in an inventory.
pub open spec fn slot_of(t: RouteSegmentType) -> int {
    match t {
        RouteSegmentType::Straight => 0,
        RouteSegmentType::Curve => 1,
        RouteSegmentType::TSplit => 2,
        RouteSegmentType::Cross => 3,
        RouteSegmentType::Bridge => 4,
        RouteSegmentType::Tunnel => 5,
    }
}

fn slot_index(t: RouteSegmentType) -> (r: usize)
    ensures
        r == slot_of(t),
{
    match t {
        RouteSegmentType::Straight => 0,
        RouteSegmentType::Curve => 1,
        RouteSegmentType::TSplit => 2,
        RouteSegmentType::Cross => 3,
        RouteSegmentType::Bridge => 4,
        RouteSegmentType::Tunnel => 5,
    }
}

/// How many segments of each kind the player still has; a kind the level does not offer
/// has no entry.
#[derive(Debug, Clone, Copy)]
pub struct Inventory {
    pub slots: [Option<u32>; 6],
}

impl Inventory {
    /// The counts by segment kind.
    pub open spec fn view(&self) -> Map<RouteSegmentType, u32> {
        Map::new(
            |t: RouteSegmentType| self.slots@[slot_of(t)] is Some,
            |t: RouteSegmentType| self.slots@[slot_of(t)]->0,
        )
    }

    /// An inventory with no entries.
    pub fn new() -> (r: Inventory)
        ensures
            r@ == Map::<RouteSegmentType, u32>::empty(),
    {
        let r = Inventory { slots: [None, None, None, None, None, None] };
        assert(r@ =~= Map::<RouteSegmentType, u32>::empty());
        r
    }

    /// The count for `t`, if the inventory has an entry for it.
    pub fn get(&self, t: RouteSegmentType) -> (r: Option<u32>)
        ensures
            r is Some <==> self@.contains_key(t),
            r matches Some(n) ==> n == self@[t],
    {
        self.slots[slot_index(t)]
    }

    /// Sets the count for `t`.
    pub fn insert(&mut self, t: RouteSegmentType, n: u32)
        ensures
            final(self)@ == old(self)@.insert(t, n),
    {
        let i = slot_index(t);
        self.slots[i] = Some(n);
        proof {
            assert forall|u: RouteSegmentType| #[trigger] slot_of(u) == slot_of(t) implies u == t by {}
            assert(self@ =~= old(self)@.insert(t, n));
        }
    }
}

/// The state of a game in progress: the level, the player's stock of segments, what was
/// placed and what it cost, the time in milliseconds, the objectives met, the score and the
/// passenger counts.
#[derive(Debug)]
pub struct GameState {
    pub current_level: Option<LevelData>,
    pub player_inventory: Inventory,
    pub placed_segments: PosMap<PlacedSegment>,
    pub total_cost: u32,
    pub game_time: u64,
    pub level_start_time: u64,
    pub is_paused: bool,
    pub objectives_completed: Vec<bool>,
    pub score: GameScore,
    pub passenger_stats: PassengerStats,
}

/// The level list and the player's progress through it.
#[derive(Debug)]
pub struct LevelManager {
    pub current_level: Option<LevelData>,
    pub tile_size: u32,
    pub available_levels: Vec<String>,
    pub current_level_index: usize,
    pub unlocked_levels: Vec<bool>,
    pub level_scores: Vec<(String, u32)>,
}

impl Default for LevelManager {
    fn default() -> (r: LevelManager)
        ensures
            r.current_level is None,
            r.tile_size == 64,
            r.available_levels@.len() == 4,
            r.available_levels@[0]@ == "tutorial_01"@,
            r.available_levels@[1]@ == "level_02_transfer"@,
            r.available_levels@[2]@ == "level_03_multiple_routes"@,
            r.available_levels@[3]@ == "level_04_time_pressure"@,
            r.current_level_index == 0,
            r.unlocked_levels@ == seq![true, false, false, false],
            r.level_scores@.len() == 0,
    {
        let r = LevelManager {
            current_level: None,
            tile_size: 64,
            available_levels: vec![
                owned("tutorial_01"),
                owned("level_02_transfer"),
                owned("level_03_multiple_routes"),
                owned("level_04_time_pressure"),
            ],
            current_level_index: 0,
            unlocked_levels: vec![true, false, false, false],
            level_scores: Vec::new(),
        };
        assert(r.unlocked_levels@ =~= seq![true, false, false, false]);
        r
    }
}

/// What the player is pointing at and holding: the segment kind chosen, the rotation of its
/// preview, a drag in progress and the grid cell under the cursor.
#[derive(Debug, Clone, Copy)]
pub struct InputState {
    pub selected_segment: Option<RouteSegmentType>,
    pub preview_rotation: u32,
    pub is_dragging: bool,
    pub drag_entity: Option<u64>,
    pub grid_cursor_pos: Option<GridPos>,
}

impl Default for InputState {
    fn default() -> (r: InputState)
        ensures
            r.selected_segment is None,
            r.preview_rotation == 0,
            !r.is_dragging,
            r.drag_entity is None,
            r.grid_cursor_pos is None,
    {
        InputState {
            selected_segment: None,
            preview_rotation: 0,
            is_dragging: false,
            drag_entity: None,
            grid_cursor_pos: None,
        }
    }
}

} // verus!
