use vstd::prelude::*;

use crate::bus_puzzle::components::{adjacent, has_port, lemma_port_adjacent, pos_in_range, GridPos, RouteSegment, RouteSegmentType};
use crate::bus_puzzle::level_system::Station;
use crate::bus_puzzle::utils::{get_neighbors, neighbors_of};
use crate::bus_puzzle::pos_map::PosMap;
use crate::bus_puzzle::resources::{
    connection_cost, Connection, ConnectionType, GraphNode, GraphNodeType, PathfindingGraph,
};
use crate::bus_puzzle::text::{decimal_text, owned, prefixed_number};

verus! {

/// What a step of a planned path stands for.
#[derive(Debug)]
pub enum PathNodeType {
    Station(String),
    RouteSegment,
    TransferPoint,
}

/// One step of a planned path; `estimated_wait_time` is in seconds.
#[derive(Debug)]
pub struct PathNode {
    pub position: GridPos,
    pub node_type: PathNodeType,
    pub estimated_wait_time: u32,
    pub route_id: Option<String>,
}

/// The characters of an optional name, empty when there is none.
pub open spec fn name_or_empty(n: Option<String>) -> Seq<char> {
    match n {
        Some(s) => s@,
        None => Seq::empty(),
    }
}

/// The step kind a graph node gives to a path.
pub open spec fn step_type_for(t: PathNodeType, node: GraphNode) -> bool {
    match node.node_type {
        GraphNodeType::Station => t matches PathNodeType::Station(s) && s@ == name_or_empty(
            node.station_name,
        ),
        GraphNodeType::Intersection => t is TransferPoint,
        GraphNodeType::RouteSegment => t is RouteSegment,
    }
}

/// `path` goes from `a` to `b` along connections of `g`.
pub open spec fn path_follows(g: &PathfindingGraph, path: Seq<PathNode>, a: GridPos, b: GridPos) -> bool {
    &&& path.len() >= 1
    &&& path[0].position == a
    &&& path[path.len() - 1].position == b
    &&& forall|i: int|
        #![trigger path[i]]
        0 <= i < path.len() - 1 ==> g.has_edge(path[i].position, path[i + 1].position)
}

/// No cell appears twice on the path.
pub open spec fn positions_distinct(path: Seq<PathNode>) -> bool {
    forall|i: int, j: int| 0 <= i < j < path.len() ==> #[trigger] path[i].position != #[trigger] path[j].position
}

/// What a path found between two different stations holds at each step: the first step is
/// the origin with no wait, the others take their kind from the graph's nodes and an
/// estimated wait of one second.
pub open spec fn path_steps_described(g: &PathfindingGraph, path: Seq<PathNode>) -> bool {
    &&& path[0].node_type matches PathNodeType::Station(s) && s@ == name_or_empty(
        g.node_at(path[0].position).station_name,
    )
    &&& path[0].estimated_wait_time == 0
    &&& forall|i: int|
        #![trigger path[i]]
        0 <= i < path.len() ==> path[i].route_id is None
    &&& forall|i: int|
        #![trigger path[i]]
        1 <= i < path.len() ==> path[i].estimated_wait_time == 1 && step_type_for(
            path[i].node_type,
            g.node_at(path[i].position),
        )
}

/// An entry of the search frontier: a cell, the cost in half steps of the way found to it,
/// and the number of route changes on that way.
struct AStarNode {
    position: GridPos,
    g_cost: u128,
    route_changes: u32,
}

impl AStarNode {
    /// The frontier serves lower cost first, and on a tie fewer route changes.
    fn precedes(&self, other: &AStarNode) -> (r: bool)
        ensures
            r == served_before(*self, *other),
    {
        self.g_cost < other.g_cost || (self.g_cost == other.g_cost && self.route_changes
            < other.route_changes)
    }
}

/// Some frontier entry is at `p`.
spec fn in_frontier(open: Seq<AStarNode>, p: GridPos) -> bool {
    exists|q: int| 0 <= q < open.len() && #[trigger] open[q].position == p
}

/// Some frontier entry other than the one at index `skip` is at `p`.
spec fn in_frontier_except(open: Seq<AStarNode>, skip: int, p: GridPos) -> bool {
    exists|q: int| 0 <= q < open.len() && q != skip && #[trigger] open[q].position == p
}

/// Number of frontier entries whose cell is already closed.
spec fn stale_count(open: Seq<AStarNode>, closed: Set<GridPos>) -> nat
    decreases open.len(),
{
    if open.len() == 0 {
        0
    } else {
        stale_count(open.drop_last(), closed) + (if closed.contains(open.last().position) {
            1nat
        } else {
            0nat
        })
    }
}

proof fn lemma_stale_push(open: Seq<AStarNode>, e: AStarNode, closed: Set<GridPos>)
    requires
        !closed.contains(e.position),
    ensures
        stale_count(open.push(e), closed) == stale_count(open, closed),
{
    assert(open.push(e).drop_last() =~= open);
}

proof fn lemma_stale_remove(open: Seq<AStarNode>, i: int, closed: Set<GridPos>)
    requires
        0 <= i < open.len(),
    ensures
        stale_count(open.remove(i), closed) + (if closed.contains(open[i].position) {
            1nat
        } else {
            0nat
        }) == stale_count(open, closed),
    decreases open.len(),
{
    if i == open.len() - 1 {
        assert(open.remove(i) =~= open.drop_last());
    } else {
        lemma_stale_remove(open.drop_last(), i, closed);
        assert(open.remove(i).drop_last() =~= open.drop_last().remove(i));
        assert(open.remove(i).last() == open.last());
    }
}

/// `ps` leads from `start` to `end`, each cell after the first having the one before it as
/// recorded predecessor, and `start` has none.
pub open spec fn traced(cf: Map<GridPos, GridPos>, start: GridPos, end: GridPos, ps: Seq<GridPos>) -> bool {
    &&& ps.len() >= 1
    &&& ps[0] == start
    &&& ps[ps.len() - 1] == end
    &&& !cf.contains_key(start)
    &&& forall|i: int| 1 <= i < ps.len() ==> cf.contains_key(#[trigger] ps[i]) && cf[ps[i]] == ps[i - 1]
}

/// Two paths traced back through the same predecessors between the same cells are one.
proof fn lemma_traced_unique(cf: Map<GridPos, GridPos>, start: GridPos, end: GridPos, p1: Seq<GridPos>, p2: Seq<GridPos>)
    requires
        traced(cf, start, end, p1),
        traced(cf, start, end, p2),
    ensures
        p1 == p2,
    decreases p1.len(),
{
    if p1.len() == 1 {
        if p2.len() > 1 {
            assert(cf.contains_key(p2[p2.len() - 1]));
        }
        assert(p1 =~= p2);
    } else {
        assert(cf.contains_key(p1[p1.len() - 1]));
        if p2.len() == 1 {
            assert(false);
        }
        let e2 = cf[end];
        assert(traced(cf, start, e2, p1.drop_last()));
        assert(traced(cf, start, e2, p2.drop_last()));
        lemma_traced_unique(cf, start, e2, p1.drop_last(), p2.drop_last());
        assert(p1 =~= p2.drop_last().push(end));
        assert(p2 =~= p2.drop_last().push(end));
    }
}

/// The cells of a path.
pub open spec fn path_cells(path: Seq<PathNode>) -> Seq<GridPos> {
    path.map_values(|n: PathNode| n.position)
}

/// `a` is served before `b`: a lower cost, and on a tie fewer route changes.
spec fn served_before(a: AStarNode, b: AStarNode) -> bool {
    a.g_cost < b.g_cost || (a.g_cost == b.g_cost && a.route_changes < b.route_changes)
}

/// The weight of a connection in half steps: its cost, and six more for a transfer.
pub open spec fn conn_weight(c: Connection) -> int {
    c.cost + if c.connection_type == ConnectionType::Transfer {
        6int
    } else {
        0int
    }
}

/// The lightest weight among the connections of `conns` that lead to `b`.
pub open spec fn lightest_to(conns: Seq<Connection>, b: GridPos) -> Option<int>
    decreases conns.len(),
{
    if conns.len() == 0 {
        None
    } else {
        let rest = lightest_to(conns.drop_last(), b);
        let w = conn_weight(conns.last());
        if conns.last().to == b {
            match rest {
                Some(m) => Some(if m <= w { m } else { w }),
                None => Some(w),
            }
        } else {
            rest
        }
    }
}

/// The cost of a step from `a` to `b`: the lightest connection between them.
pub open spec fn step_cost(g: &PathfindingGraph, a: GridPos, b: GridPos) -> int {
    match lightest_to(g.edges_from(a), b) {
        Some(w) => w,
        None => 0,
    }
}

/// The cost of a walk through the cells `ps`: the sum of its steps' costs.
pub open spec fn walk_cost(g: &PathfindingGraph, ps: Seq<GridPos>) -> int
    decreases ps.len(),
{
    if ps.len() < 2 {
        0
    } else {
        walk_cost(g, ps.drop_last()) + step_cost(g, ps[ps.len() - 2], ps[ps.len() - 1])
    }
}

/// No walk of the graph from `a` to `b` costs less than `c`.
pub open spec fn no_walk_cheaper(g: &PathfindingGraph, a: GridPos, b: GridPos, c: int) -> bool {
    forall|q: Seq<GridPos>| #[trigger] g.is_walk(q) && q[0] == a && q[q.len() - 1] == b ==> walk_cost(g, q) >= c
}

/// Every connection to `b` weighs at least the lightest, which some connection weighs.
proof fn lemma_lightest(conns: Seq<Connection>, b: GridPos)
    ensures
        forall|j: int| 0 <= j < conns.len() && #[trigger] conns[j].to == b ==> (lightest_to(conns, b) matches Some(m) && m <= conn_weight(conns[j])),
        lightest_to(conns, b) matches Some(m) ==> exists|j: int| 0 <= j < conns.len() && #[trigger] conns[j].to == b && conn_weight(conns[j]) == m,
        lightest_to(conns, b) matches Some(m) ==> m >= 0,
    decreases conns.len(),
{
    if conns.len() > 0 {
        let d = conns.drop_last();
        lemma_lightest(d, b);
        assert forall|j: int| 0 <= j < conns.len() && #[trigger] conns[j].to == b implies (lightest_to(conns, b) matches Some(m) && m <= conn_weight(conns[j])) by {
            if j < conns.len() - 1 {
                assert(d[j] == conns[j]);
            }
        }
        if let Some(m) = lightest_to(conns, b) {
            if conns.last().to == b && m == conn_weight(conns.last()) {
                assert(conns[conns.len() - 1].to == b);
            } else {
                let j = choose|j: int| 0 <= j < d.len() && #[trigger] d[j].to == b && conn_weight(d[j]) == m;
                assert(conns[j] == d[j]);
            }
        }
    }
}

/// Walks cost nothing below zero, and a walk costs at least as much as any of its starts.
proof fn lemma_walk_cost_prefix(g: &PathfindingGraph, ps: Seq<GridPos>, k: int)
    requires
        1 <= k <= ps.len(),
    ensures
        0 <= walk_cost(g, ps.take(k)) <= walk_cost(g, ps),
    decreases ps.len(),
{
    if ps.len() >= 2 {
        lemma_lightest(g.edges_from(ps[ps.len() - 2]), ps[ps.len() - 1]);
        if k == ps.len() {
            assert(ps.take(k) =~= ps);
            lemma_walk_cost_prefix(g, ps.drop_last(), k - 1);
            assert(ps.drop_last().take(k - 1) =~= ps.drop_last());
        } else {
            lemma_walk_cost_prefix(g, ps.drop_last(), k);
            assert(ps.drop_last().take(k) =~= ps.take(k));
        }
    } else {
        assert(ps.take(k) =~= ps);
    }
}

/// Index of the frontier entry served next: the first entry that no other entry is
/// served before.
fn best_index(open: &Vec<AStarNode>) -> (r: usize)
    requires
        open@.len() > 0,
    ensures
        r < open@.len(),
        forall|j: int| 0 <= j < open@.len() ==> !served_before(#[trigger] open@[j], open@[r as int]),
        forall|j: int| 0 <= j < r ==> served_before(open@[r as int], #[trigger] open@[j]),
{
    let mut best: usize = 0;
    let mut i: usize = 1;
    while i < open.len()
        invariant
            best < i <= open@.len(),
            1 <= i <= open@.len(),
            forall|j: int| 0 <= j < i ==> !served_before(#[trigger] open@[j], open@[best as int]),
            forall|j: int| 0 <= j < best ==> served_before(open@[best as int], #[trigger] open@[j]),
        decreases open.len() - i,
    {
        if open[i].precedes(&open[best]) {
            best = i;
        }
        i = i + 1;
    }
    best
}

fn closed_contains(closed: &Vec<GridPos>, p: GridPos) -> (r: bool)
    ensures
        r == closed@.contains(p),
{
    let mut i: usize = 0;
    while i < closed.len()
        invariant
            i <= closed@.len(),
            forall|k: int| 0 <= k < i ==> closed@[k] != p,
        decreases closed.len() - i,
    {
        if closed[i] == p {
            assert(closed@[i as int] == p);
            return true;
        }
        i = i + 1;
    }
    false
}

/// Whether no frontier entry at `p` costs `g` or less.
fn no_cheaper_entry(open: &Vec<AStarNode>, p: GridPos, g: u128) -> (r: bool)
    ensures
        r == forall|k: int| 0 <= k < open@.len() && #[trigger] open@[k].position == p ==> open@[k].g_cost > g,
{
    let mut i: usize = 0;
    while i < open.len()
        invariant
            i <= open@.len(),
            forall|k: int| 0 <= k < i && #[trigger] open@[k].position == p ==> open@[k].g_cost > g,
        decreases open.len() - i,
    {
        if open[i].position == p && open[i].g_cost <= g {
            return false;
        }
        i = i + 1;
    }
    true
}

/// The step kind of a graph node.
fn path_node_type(node: &GraphNode) -> (r: PathNodeType)
    ensures
        step_type_for(r, *node),
{
    match node.node_type {
        GraphNodeType::Station => {
            let name = match &node.station_name {
                Some(n) => n.clone(),
                None => String::new(),
            };
            PathNodeType::Station(name)
        },
        GraphNodeType::Intersection => PathNodeType::TransferPoint,
        GraphNodeType::RouteSegment => PathNodeType::RouteSegment,
    }
}

/// The station step of a graph node, named after the node's station (or unnamed).
fn station_step_type(node: &GraphNode) -> (r: PathNodeType)
    ensures
        r matches PathNodeType::Station(s) && s@ == name_or_empty(node.station_name),
{
    let name = match &node.station_name {
        Some(n) => n.clone(),
        None => String::new(),
    };
    PathNodeType::Station(name)
}

/// Walks back from `current` through `came_from` to `start` and returns the path from
/// `start` to `current`.
#[verifier::spinoff_prover]
#[verifier::rlimit(60)]
fn reconstruct_path(
    came_from: &PosMap<GridPos>,
    current: GridPos,
    graph: &PathfindingGraph,
    Ghost(start): Ghost<GridPos>,
    Ghost(closed): Ghost<Set<GridPos>>,
    Ghost(order): Ghost<Map<GridPos, nat>>,
    Ghost(tick): Ghost<nat>,
) -> (path: Vec<PathNode>)
    requires
        graph.well_formed(),
        came_from.well_formed(),
        came_from@.contains_key(current),
        !closed.contains(current),
        graph.has_node(current),
        closed.contains(start),
        !came_from@.contains_key(start),
        forall|p: GridPos| #[trigger] closed.contains(p) ==> graph.has_node(p),
        forall|p: GridPos|
            #[trigger] closed.contains(p) ==> order.contains_key(p) && order[p] < tick,
        forall|p: GridPos|
            #[trigger] closed.contains(p) ==> p == start || came_from@.contains_key(p),
        forall|v: GridPos|
            #[trigger] came_from@.contains_key(v) ==> closed.contains(came_from@[v])
                && graph.has_edge(came_from@[v], v),
        forall|v: GridPos|
            #[trigger] came_from@.contains_key(v) && closed.contains(v) ==> order[came_from@[v]]
                < order[v],
    ensures
        path@.len() >= 2,
        path_follows(graph, path@, start, current),
        path_steps_described(graph, path@),
        positions_distinct(path@),
        traced(came_from@, start, current, path_cells(path@)),
{
    let mut rev: Vec<PathNode> = Vec::new();
    let mut cur = current;
    loop
        invariant
            graph.well_formed(),
            came_from.well_formed(),
            came_from@.contains_key(current),
            !closed.contains(current),
            graph.has_node(current),
            closed.contains(start),
            !came_from@.contains_key(start),
            forall|p: GridPos| #[trigger] closed.contains(p) ==> graph.has_node(p),
            forall|p: GridPos|
                #[trigger] closed.contains(p) ==> order.contains_key(p) && order[p] < tick,
            forall|p: GridPos|
                #[trigger] closed.contains(p) ==> p == start || came_from@.contains_key(p),
            forall|v: GridPos|
                #[trigger] came_from@.contains_key(v) ==> closed.contains(came_from@[v])
                    && graph.has_edge(came_from@[v], v),
            forall|v: GridPos|
                #[trigger] came_from@.contains_key(v) && closed.contains(v)
                    ==> order[came_from@[v]] < order[v],
            rev@.len() == 0 ==> cur == current,
            rev@.len() > 0 ==> closed.contains(cur) && rev@[0].position == current
                && graph.has_edge(cur, rev@[rev@.len() - 1].position),
            forall|i: int|
                #![trigger rev@[i]]
                0 <= i < rev@.len() - 1 ==> graph.has_edge(rev@[i + 1].position, rev@[i].position),
            forall|i: int|
                #![trigger rev@[i]]
                0 <= i < rev@.len() ==> rev@[i].route_id is None && rev@[i].estimated_wait_time
                    == 1 && step_type_for(rev@[i].node_type, graph.node_at(rev@[i].position)),
            forall|i: int| 1 <= i < rev@.len() ==> closed.contains(#[trigger] rev@[i].position),
            forall|i: int, j: int|
                1 <= i < j < rev@.len() ==> order[#[trigger] rev@[j].position] < order[#[trigger] rev@[i].position],
            rev@.len() > 1 ==> order[cur] < order[rev@[rev@.len() - 1].position],
            forall|i: int|
                0 <= i < rev@.len() - 1 ==> came_from@.contains_key(#[trigger] rev@[i].position)
                    && came_from@[rev@[i].position] == rev@[i + 1].position,
            rev@.len() > 0 ==> came_from@.contains_key(rev@[rev@.len() - 1].position)
                && came_from@[rev@[rev@.len() - 1].position] == cur,
        ensures
            forall|i: int|
                0 <= i < rev@.len() - 1 ==> came_from@.contains_key(#[trigger] rev@[i].position)
                    && came_from@[rev@[i].position] == rev@[i + 1].position,
            rev@.len() > 0 ==> came_from@.contains_key(rev@[rev@.len() - 1].position)
                && came_from@[rev@[rev@.len() - 1].position] == cur,
            rev@.len() > 0,
            cur == start,
            rev@[0].position == current,
            graph.has_edge(cur, rev@[rev@.len() - 1].position),
            forall|i: int| 1 <= i < rev@.len() ==> closed.contains(#[trigger] rev@[i].position),
            forall|i: int, j: int|
                1 <= i < j < rev@.len() ==> order[#[trigger] rev@[j].position] < order[#[trigger] rev@[i].position],
            rev@.len() > 1 ==> order[cur] < order[rev@[rev@.len() - 1].position],
        decreases (if closed.contains(cur) { order[cur] } else { tick }),
    {
        match came_from.get(cur) {
            Some(parent) => {
                let ghost r0 = rev@;
                match graph.get_node(cur) {
                    Some(node) => {
                        let t = path_node_type(node);
                        rev.push(PathNode { position: cur, node_type: t, estimated_wait_time: 1, route_id: None });
                    },
                    None => {
                        assert(false);
                    },
                }
                proof {
                    let r1 = rev@;
                    let n0 = r0.len() as int;
                    assert(r1.len() == n0 + 1);
                    assert(r1[n0].position == cur);
                    assert forall|i: int| 0 <= i < n0 implies #[trigger] r1[i] == r0[i] by {}
                    if closed.contains(cur) {
                        assert(order[parent] < order[cur]);
                    }
                    assert(came_from@[cur] == parent);
                    assert(closed.contains(parent));
                    assert forall|i: int| 0 <= i < r1.len() - 1 implies came_from@.contains_key(#[trigger] r1[i].position)
                        && came_from@[r1[i].position] == r1[i + 1].position by {
                        assert(r1[i] == r0[i]);
                        if i < n0 - 1 {
                            assert(r1[i + 1] == r0[i + 1]);
                        }
                    }
                    assert forall|i: int| 1 <= i < r1.len() implies closed.contains(#[trigger] r1[i].position) by {
                        if i < n0 {
                            assert(r1[i] == r0[i]);
                        }
                    }
                    assert forall|i: int, j: int| 1 <= i < j < r1.len() implies order[#[trigger] r1[j].position]
                        < order[#[trigger] r1[i].position] by {
                        assert(r1[i] == r0[i]);
                        if j < n0 {
                            assert(r1[j] == r0[j]);
                        } else if i < n0 - 1 {
                            assert(order[r0[n0 - 1].position] < order[r0[i].position]);
                        }
                    }
                    assert forall|i: int| #![trigger r1[i]] 0 <= i < r1.len() - 1 implies graph.has_edge(r1[i + 1].position, r1[i].position) by {
                        assert(r1[i] == r0[i]);
                        if i < n0 - 1 {
                            assert(r1[i + 1] == r0[i + 1]);
                        }
                    }
                }
                cur = parent;
            },
            None => {
                proof {
                    if rev@.len() == 0 {
                        assert(came_from@.contains_key(current));
                    }
                }
                break;
            },
        }
    }
    let start_node = match graph.get_node(cur) {
        Some(node) => node,
        None => {
            proof {
                assert(graph.has_node(start));
            }
            return Vec::new();
        },
    };
    let t = station_step_type(start_node);
    let ghost before = rev@;
    rev.push(PathNode { position: cur, node_type: t, estimated_wait_time: 0, route_id: None });
    let ghost full = rev@;
    proof {
        assert forall|i: int, j: int| 0 <= i < j < full.len() implies #[trigger] full[i].position
            != #[trigger] full[j].position by {
            if j == full.len() - 1 {
                if i == 0 {
                    assert(full[0].position == current);
                } else {
                    assert(full[i] == before[i]);
                    if i < before.len() - 1 {
                        assert(order[before[before.len() - 1].position] < order[before[i].position]);
                    }
                }
            } else {
                assert(full[i] == before[i]);
                assert(full[j] == before[j]);
                if i == 0 {
                    assert(closed.contains(before[j].position));
                } else {
                    assert(order[before[j].position] < order[before[i].position]);
                }
            }
        }
    }
    let n: usize = rev.len();
    let mut path: Vec<PathNode> = Vec::new();
    while rev.len() > 0
        invariant
            rev@.len() + path@.len() == n,
            n == full.len(),
            n >= 2,
            rev@ == full.take(rev@.len() as int),
            forall|i: int| 0 <= i < path@.len() ==> #[trigger] path@[i] == full[n - 1 - i],
        decreases rev.len(),
    {
        let item = rev.pop().unwrap();
        path.push(item);
        assert(rev@ =~= full.take(rev@.len() as int));
    }
    proof {
        assert forall|i: int|
            #![trigger path@[i]]
            0 <= i < path@.len() - 1 implies graph.has_edge(
            path@[i].position,
            path@[i + 1].position,
        ) by {
            assert(path@[i] == full[n - 1 - i]);
            assert(path@[i + 1] == full[n - 1 - (i + 1)]);
            if i == 0 {
            } else {
                assert(full[(n - 1 - (i + 1)) + 1] == full[n - 1 - i]);
            }
        }
        assert(path@[0] == full[n - 1]);
        assert(path@[path@.len() - 1] == full[0]);
        assert forall|i: int| #![trigger path@[i]] 1 <= i < path@.len() implies path@[i].estimated_wait_time == 1
            && step_type_for(path@[i].node_type, graph.node_at(path@[i].position)) by {
            assert(path@[i] == full[n - 1 - i]);
        }
        assert forall|i: int| #![trigger path@[i]] 0 <= i < path@.len() implies path@[i].route_id is None by {
            assert(path@[i] == full[n - 1 - i]);
        }
        assert forall|i: int, j: int| 0 <= i < j < path@.len() implies #[trigger] path@[i].position
            != #[trigger] path@[j].position by {
            assert(path@[i] == full[n - 1 - i]);
            assert(path@[j] == full[n - 1 - j]);
        }
        let ps = path_cells(path@);
        assert forall|i: int| 1 <= i < ps.len() implies came_from@.contains_key(#[trigger] ps[i]) && came_from@[ps[i]]
            == ps[i - 1] by {
            assert(path@[i] == full[n - 1 - i]);
            assert(path@[i - 1] == full[n - 1 - (i - 1)]);
            assert(full[n - 1 - i] == before[n - 1 - i]);
            if n - 1 - i < before.len() - 1 {
                assert(full[n - 1 - i + 1] == before[n - 1 - i + 1]);
            }
        }
        assert(ps[0] == start);
        assert(ps[ps.len() - 1] == current);
    }
    path
}

/// The bookkeeping of the search: every closed cell has a closing rank, every recorded
/// predecessor is a closed cell joined by a connection and closed earlier than its
/// successor, and every closed cell other than the start has a predecessor.
spec fn links_ok(
    graph: &PathfindingGraph,
    cf: Map<GridPos, GridPos>,
    closed: Set<GridPos>,
    order: Map<GridPos, nat>,
    tick: nat,
    start: GridPos,
) -> bool {
    &&& forall|p: GridPos| #[trigger] closed.contains(p) ==> order.contains_key(p) && order[p] < tick
    &&& forall|v: GridPos|
        #[trigger] cf.contains_key(v) ==> closed.contains(cf[v]) && graph.has_edge(cf[v], v)
    &&& forall|v: GridPos|
        #[trigger] cf.contains_key(v) && closed.contains(v) ==> order[cf[v]] < order[v]
    &&& !cf.contains_key(start)
    &&& forall|p: GridPos| #[trigger] closed.contains(p) ==> p == start || cf.contains_key(p)
    &&& forall|p: GridPos| #[trigger] closed.contains(p) ==> graph.has_node(p)
}

/// Every frontier entry is at a node, and is the start or has a recorded predecessor.
spec fn frontier_ok(graph: &PathfindingGraph, open: Seq<AStarNode>, cf: Map<GridPos, GridPos>, start: GridPos) -> bool {
    &&& forall|k: int| 0 <= k < open.len() ==> graph.has_node(#[trigger] open[k].position)
    &&& forall|k: int|
        0 <= k < open.len() ==> #[trigger] open[k].position == start || cf.contains_key(
            open[k].position,
        )
}

/// Every connection leaving a closed cell ends in a closed cell or at a frontier entry.
spec fn frontier_covers(graph: &PathfindingGraph, open: Seq<AStarNode>, closed: Set<GridPos>) -> bool {
    forall|u: GridPos, v: GridPos|
        #[trigger] closed.contains(u) && #[trigger] graph.has_edge(u, v) ==> closed.contains(v)
            || in_frontier(open, v)
}

/// Some frontier entry at `x` costs `bound` or less.
spec fn offered(open: Seq<AStarNode>, x: GridPos, bound: int) -> bool {
    exists|k: int| 0 <= k < open.len() && #[trigger] open[k].position == x && open[k].g_cost <= bound
}

/// Every recorded way is traced back through the predecessors, and every cell on it but
/// the last is closed.
spec fn trails_ok(cf: Map<GridPos, GridPos>, closed: Set<GridPos>, start: GridPos, t: Map<GridPos, Seq<GridPos>>) -> bool {
    forall|p: GridPos|
        #[trigger] t.contains_key(p) ==> traced(cf, start, p, t[p]) && forall|i: int|
            0 <= i < t[p].len() - 1 ==> closed.contains(#[trigger] t[p][i])
}

/// Every frontier entry's cell has a recorded way that costs no more than the entry.
spec fn trails_cover(g: &PathfindingGraph, open: Seq<AStarNode>, t: Map<GridPos, Seq<GridPos>>) -> bool {
    forall|k: int|
        0 <= k < open.len() ==> t.contains_key(#[trigger] open[k].position) && walk_cost(g, t[open[k].position])
            <= open[k].g_cost
}

/// Every connection leaving `v` ends in a closed cell or has been offered to the frontier
/// at the cost of `v` plus its weight.
spec fn relaxed_from(g: &PathfindingGraph, open: Seq<AStarNode>, closed: Set<GridPos>, cv: int, v: GridPos) -> bool {
    forall|j: int|
        0 <= j < g.edges_from(v).len() ==> closed.contains(#[trigger] g.edges_from(v)[j].to) || offered(
            open,
            g.edges_from(v)[j].to,
            cv + conn_weight(g.edges_from(v)[j]),
        )
}

/// What the search knows of its closed cells: each has its cost, no walk to it is cheaper,
/// every connection leaving it has been offered, and no frontier entry is cheaper.
spec fn closed_settled(
    g: &PathfindingGraph,
    open: Seq<AStarNode>,
    closed: Set<GridPos>,
    gv: Map<GridPos, int>,
    start: GridPos,
) -> bool {
    &&& forall|v: GridPos| #[trigger] closed.contains(v) ==> gv.contains_key(v) && no_walk_cheaper(g, start, v, gv[v])
    &&& forall|v: GridPos| #[trigger] closed.contains(v) ==> relaxed_from(g, open, closed, gv[v], v)
    &&& forall|v: GridPos, k: int| #[trigger] closed.contains(v) && 0 <= k < open.len() ==> gv[v] <= (#[trigger] open[k]).g_cost
}

/// The largest weight a connection can have.
spec fn max_weight() -> int {
    0xffff_ffffint + 6
}

/// A walk to a cell that is not closed, from the closed start, costs at least as much as
/// the cheapest frontier entry.
proof fn lemma_frontier_bound(
    g: &PathfindingGraph,
    open: Seq<AStarNode>,
    closed: Set<GridPos>,
    gv: Map<GridPos, int>,
    start: GridPos,
    b: int,
    q: Seq<GridPos>,
)
    requires
        g.well_formed(),
        closed.contains(start),
        closed_settled(g, open, closed, gv, start),
        forall|k: int| 0 <= k < open.len() ==> b <= #[trigger] open[k].g_cost,
        g.is_walk(q),
        q[0] == start,
        !closed.contains(q[q.len() - 1]),
    ensures
        walk_cost(g, q) >= b,
    decreases q.len(),
{
    let n = q.len() as int;
    assert(n >= 2);
    let v = q[n - 2];
    let x = q[n - 1];
    let p = q.drop_last();
    assert(g.is_walk(p)) by {
        assert forall|i: int| #![trigger p[i]] 0 <= i < p.len() - 1 implies g.has_edge(p[i], p[i + 1]) by {
            assert(g.has_edge(q[i], q[i + 1]));
        }
    }
    assert(g.has_edge(v, x)) by {
        assert(g.has_edge(q[n - 2], q[n - 1]));
    }
    let conns = g.edges_from(v);
    lemma_lightest(conns, x);
    let j0 = choose|j: int| 0 <= j < conns.len() && #[trigger] conns[j].to == x;
    assert(walk_cost(g, q) == walk_cost(g, p) + step_cost(g, v, x));
    if closed.contains(v) {
        assert(no_walk_cheaper(g, start, v, gv[v]));
        assert(g.is_walk(p) && p[0] == start && p[p.len() - 1] == v);
        assert(walk_cost(g, p) >= gv[v]);
        let m = lightest_to(conns, x)->0;
        let j = choose|j: int| 0 <= j < conns.len() && #[trigger] conns[j].to == x && conn_weight(conns[j]) == m;
        assert(relaxed_from(g, open, closed, gv[v], v));
        assert(offered(open, x, gv[v] + conn_weight(conns[j])));
        let k = choose|k: int| 0 <= k < open.len() && #[trigger] open[k].position == x && open[k].g_cost <= gv[v] + conn_weight(conns[j]);
        assert(b <= open[k].g_cost);
    } else {
        lemma_frontier_bound(g, open, closed, gv, start, b, p);
    }
}

/// Offers a frontier entry for every connection of `current` that leads to a cell not yet
/// closed, at the cost of `current` plus the connection's weight, unless the frontier
/// already holds an entry for that cell that costs no more; records `current` as the
/// predecessor of each cell offered. Returns the recorded ways, extended to those cells.
fn expand_neighbors(
    graph: &PathfindingGraph,
    current: &AStarNode,
    closed_set: &Vec<GridPos>,
    open_set: &mut Vec<AStarNode>,
    came_from: &mut PosMap<GridPos>,
    Ghost(closed): Ghost<Set<GridPos>>,
    Ghost(order): Ghost<Map<GridPos, nat>>,
    Ghost(tick): Ghost<nat>,
    Ghost(start): Ghost<GridPos>,
    Ghost(trails): Ghost<Map<GridPos, Seq<GridPos>>>,
    Ghost(cap): Ghost<int>,
) -> (t: Ghost<Map<GridPos, Seq<GridPos>>>)
    requires
        graph.well_formed(),
        old(came_from).well_formed(),
        closed.contains(current.position),
        closed.contains(start),
        forall|p: GridPos| closed.contains(p) <==> closed_set@.contains(p),
        links_ok(graph, old(came_from)@, closed, order, tick, start),
        frontier_ok(graph, old(open_set)@, old(came_from)@, start),
        trails_ok(old(came_from)@, closed, start, trails),
        trails_cover(graph, old(open_set)@, trails),
        trails.contains_key(current.position),
        walk_cost(graph, trails[current.position]) <= current.g_cost,
        current.g_cost + max_weight() <= cap <= u128::MAX,
    ensures
        final(came_from).well_formed(),
        links_ok(graph, final(came_from)@, closed, order, tick, start),
        frontier_ok(graph, final(open_set)@, final(came_from)@, start),
        trails_ok(final(came_from)@, closed, start, t@),
        trails_cover(graph, final(open_set)@, t@),
        forall|p: GridPos| #[trigger] in_frontier(old(open_set)@, p) ==> in_frontier(final(open_set)@, p),
        forall|v: GridPos|
            #[trigger] graph.has_edge(current.position, v) ==> closed.contains(v) || in_frontier(
                final(open_set)@,
                v,
            ),
        stale_count(final(open_set)@, closed) == stale_count(old(open_set)@, closed),
        final(open_set)@.len() >= old(open_set)@.len(),
        forall|k: int| 0 <= k < old(open_set)@.len() ==> #[trigger] final(open_set)@[k] == old(open_set)@[k],
        forall|k: int|
            old(open_set)@.len() <= k < final(open_set)@.len() ==> current.g_cost <= (#[trigger] final(open_set)@[k]).g_cost
                <= cap,
        relaxed_from(graph, final(open_set)@, closed, current.g_cost as int, current.position),
{
    let c = current.position;
    let ghost mut t: Map<GridPos, Seq<GridPos>> = trails;
    let conns = match graph.connections_from(c) {
        Some(conns) => conns,
        None => {
            proof {
                assert forall|v: GridPos| #[trigger] graph.has_edge(c, v) implies closed.contains(v)
                    || in_frontier(open_set@, v) by {
                    assert(graph.edges_from(c).len() == 0);
                }
                assert(graph.edges_from(c).len() == 0);
            }
            return Ghost(t);
        },
    };
    let mut k: usize = 0;
    while k < conns.len()
        invariant
            graph.well_formed(),
            came_from.well_formed(),
            conns@ == graph.edges_from(c),
            k <= conns@.len(),
            c == current.position,
            closed.contains(c),
            closed.contains(start),
            forall|p: GridPos| closed.contains(p) <==> closed_set@.contains(p),
            links_ok(graph, came_from@, closed, order, tick, start),
            frontier_ok(graph, open_set@, came_from@, start),
            trails_ok(came_from@, closed, start, t),
            trails_cover(graph, open_set@, t),
            t.contains_key(c),
            t[c] == trails[c],
            walk_cost(graph, trails[c]) <= current.g_cost,
            current.g_cost + max_weight() <= cap <= u128::MAX,
            forall|j: int|
                0 <= j < k ==> closed.contains(#[trigger] conns@[j].to) || in_frontier(
                    open_set@,
                    conns@[j].to,
                ),
            forall|j: int|
                0 <= j < k ==> closed.contains(#[trigger] conns@[j].to) || offered(
                    open_set@,
                    conns@[j].to,
                    current.g_cost + conn_weight(conns@[j]),
                ),
            forall|p: GridPos| #[trigger] in_frontier(old(open_set)@, p) ==> in_frontier(open_set@, p),
            stale_count(open_set@, closed) == stale_count(old(open_set)@, closed),
            open_set@.len() >= old(open_set)@.len(),
            forall|i: int| 0 <= i < old(open_set)@.len() ==> #[trigger] open_set@[i] == old(open_set)@[i],
            forall|i: int|
                old(open_set)@.len() <= i < open_set@.len() ==> current.g_cost <= (#[trigger] open_set@[i]).g_cost
                    <= cap,
        decreases conns.len() - k,
    {
        let connection = &conns[k];
        proof {
            assert(graph.has_edge(c, conns@[k as int].to));
            let e = graph.entry_index(c);
            assert(graph.connections@[e].1@[k as int].to == conns@[k as int].to);
            assert(graph.has_node(conns@[k as int].to));
        }
        if closed_contains(closed_set, connection.to) {
            k = k + 1;
            continue;
        }
        let x = connection.to;
        let weight: u128 = if connection.connection_type == ConnectionType::Transfer {
            connection.cost as u128 + 6
        } else {
            connection.cost as u128
        };
        let g_new: u128 = current.g_cost + weight;
        let route_changes = if connection.connection_type == ConnectionType::Transfer {
            current.route_changes.saturating_add(1)
        } else {
            current.route_changes
        };
        proof {
            assert(*connection == conns@[k as int]);
            assert(weight == conn_weight(conns@[k as int]));
        }
        let ghost open_prev = open_set@;
        let ghost cf_prev = came_from@;
        let ghost t_prev = t;
        if no_cheaper_entry(open_set, x, g_new) {
            came_from.insert(x, c);
            let neighbor = AStarNode { position: x, g_cost: g_new, route_changes };
            open_set.push(neighbor);
            proof {
                let trail = trails[c].push(x);
                t = t.insert(x, trail);
                lemma_stale_push(open_prev, neighbor, closed);
                let n = open_prev.len() as int;
                assert(open_set@[n] == neighbor);
                assert(!closed.contains(x));
                assert(x != start);
                assert(x != c);
                // the way to x: the way to c, then x
                lemma_lightest(conns@, x);
                assert(conns@[k as int].to == x);
                assert(trail.drop_last() =~= trails[c]);
                assert(traced(cf_prev, start, c, trails[c]));
                assert(trail[trail.len() - 2] == c);
                assert(walk_cost(graph, trail) == walk_cost(graph, trails[c]) + step_cost(graph, c, x));
                assert(walk_cost(graph, trail) <= g_new);
                assert(trails_ok(came_from@, closed, start, t)) by {
                    assert forall|p: GridPos| #[trigger] t.contains_key(p) implies traced(came_from@, start, p, t[p])
                        && forall|i: int| 0 <= i < t[p].len() - 1 ==> closed.contains(#[trigger] t[p][i]) by {
                        if p == x {
                            assert forall|i: int| 1 <= i < trail.len() implies came_from@.contains_key(#[trigger] trail[i])
                                && came_from@[trail[i]] == trail[i - 1] by {
                                if i < trail.len() - 1 {
                                    assert(trail[i] == trails[c][i]);
                                    if i < trails[c].len() - 1 {
                                        assert(closed.contains(trails[c][i]));
                                    }
                                    assert(trail[i] != x);
                                }
                            }
                            assert forall|i: int| 0 <= i < t[p].len() - 1 implies closed.contains(#[trigger] t[p][i]) by {
                                assert(trail[i] == trails[c][i]);
                                if i < trails[c].len() - 1 {
                                    assert(closed.contains(trails[c][i]));
                                }
                            }
                        } else {
                            assert(t_prev.contains_key(p));
                            assert forall|i: int| 1 <= i < t[p].len() implies came_from@.contains_key(#[trigger] t[p][i])
                                && came_from@[t[p][i]] == t[p][i - 1] by {
                                if i < t[p].len() - 1 {
                                    assert(closed.contains(t_prev[p][i]));
                                }
                            }
                        }
                    }
                }
                assert(trails_cover(graph, open_set@, t)) by {
                    assert forall|j: int| 0 <= j < open_set@.len() implies t.contains_key(#[trigger] open_set@[j].position)
                        && walk_cost(graph, t[open_set@[j].position]) <= open_set@[j].g_cost by {
                        if j < n {
                            assert(open_set@[j] == open_prev[j]);
                            if open_prev[j].position == x {
                                assert(open_prev[j].g_cost > g_new);
                            }
                        }
                    }
                }
                assert forall|p: GridPos| #[trigger] in_frontier(open_prev, p) implies in_frontier(open_set@, p) by {
                    let q = choose|q: int| 0 <= q < open_prev.len() && #[trigger] open_prev[q].position == p;
                    assert(open_set@[q] == open_prev[q]);
                }
                assert forall|j: int|
                    0 <= j < k + 1 implies closed.contains(#[trigger] conns@[j].to) || in_frontier(
                    open_set@,
                    conns@[j].to,
                ) by {
                    if j < k {
                        if !closed.contains(conns@[j].to) {
                            assert(in_frontier(open_prev, conns@[j].to));
                        }
                    } else {
                        assert(open_set@[n].position == conns@[j].to);
                    }
                }
                assert forall|j: int|
                    0 <= j < k + 1 implies closed.contains(#[trigger] conns@[j].to) || offered(
                    open_set@,
                    conns@[j].to,
                    current.g_cost + conn_weight(conns@[j]),
                ) by {
                    if j < k {
                        if !closed.contains(conns@[j].to) {
                            let q = choose|q: int| 0 <= q < open_prev.len() && #[trigger] open_prev[q].position == conns@[j].to
                                && open_prev[q].g_cost <= current.g_cost + conn_weight(conns@[j]);
                            assert(open_set@[q] == open_prev[q]);
                        }
                    } else {
                        assert(open_set@[n].position == conns@[j].to);
                    }
                }
                assert forall|j: int|
                    0 <= j < open_set@.len() implies #[trigger] open_set@[j].position == start
                    || came_from@.contains_key(open_set@[j].position) by {
                    if j < n {
                        assert(open_set@[j] == open_prev[j]);
                    }
                }
                assert forall|j: int| 0 <= j < open_set@.len() implies graph.has_node(
                    #[trigger] open_set@[j].position,
                ) by {
                    if j < n {
                        assert(open_set@[j] == open_prev[j]);
                    }
                }
                assert forall|v: GridPos| #[trigger] came_from@.contains_key(v) implies closed.contains(
                    came_from@[v],
                ) && graph.has_edge(came_from@[v], v) by {
                    if v != x {
                        assert(cf_prev.contains_key(v));
                    }
                }
                assert forall|v: GridPos|
                    #[trigger] came_from@.contains_key(v) && closed.contains(v) implies order[came_from@[v]]
                    < order[v] by {
                    if v != x {
                        assert(cf_prev.contains_key(v));
                    }
                }
                assert forall|p: GridPos| #[trigger] closed.contains(p) implies p == start
                    || came_from@.contains_key(p) by {
                    if p != start {
                        assert(cf_prev.contains_key(p));
                    }
                }
                assert forall|i: int| 0 <= i < old(open_set)@.len() implies #[trigger] open_set@[i] == old(open_set)@[i] by {
                    assert(open_set@[i] == open_prev[i]);
                }
                assert forall|i: int| old(open_set)@.len() <= i < open_set@.len() implies current.g_cost
                    <= (#[trigger] open_set@[i]).g_cost <= cap by {
                    if i < n {
                        assert(open_set@[i] == open_prev[i]);
                    }
                }
            }
        } else {
            proof {
                let q = choose|q: int| 0 <= q < open_set@.len() && #[trigger] open_set@[q].position == x && !(open_set@[q].g_cost > g_new);
                assert forall|j: int|
                    0 <= j < k + 1 implies closed.contains(#[trigger] conns@[j].to) || in_frontier(
                    open_set@,
                    conns@[j].to,
                ) by {
                    if j == k {
                        assert(open_set@[q].position == conns@[j].to);
                    }
                }
                assert forall|j: int|
                    0 <= j < k + 1 implies closed.contains(#[trigger] conns@[j].to) || offered(
                    open_set@,
                    conns@[j].to,
                    current.g_cost + conn_weight(conns@[j]),
                ) by {
                    if j == k {
                        assert(open_set@[q].position == conns@[j].to);
                    }
                }
            }
        }
        k = k + 1;
    }
    proof {
        assert forall|v: GridPos| #[trigger] graph.has_edge(c, v) implies closed.contains(v)
            || in_frontier(open_set@, v) by {
            let j = choose|j: int| 0 <= j < graph.edges_from(c).len() && #[trigger] graph.edges_from(c)[j].to == v;
            assert(conns@[j].to == v);
        }
    }
    Ghost(t)
}

/// Finds a cheapest path between two stations of the graph. A step costs its lightest
/// connection's weight (the connection's cost, plus six half steps for a transfer), and the
/// search serves the frontier entry of lowest cost first, the fewest route changes on a
/// tie. Returns `None` when a station is unknown or no walk along the graph's connections
/// joins them; otherwise a path that follows the connections from the origin to the
/// destination, visits no cell twice, and costs no more than any walk between them.
pub fn find_optimal_path(graph: &PathfindingGraph, origin: &str, destination: &str) -> (r: Option<Vec<PathNode>>)
    requires
        graph.well_formed(),
    ensures
        r is Some <==> (graph.has_station(origin@) && graph.has_station(destination@)
            && graph.reachable(
            graph.station_position(origin@),
            graph.station_position(destination@),
        )),
        r matches Some(path) ==> path_follows(
            graph,
            path@,
            graph.station_position(origin@),
            graph.station_position(destination@),
        ),
        r matches Some(path) ==> (graph.station_position(origin@) == graph.station_position(
            destination@,
        ) ==> (path@.len() == 1 && (path@[0].node_type matches PathNodeType::Station(s) && s@
            == destination@) && path@[0].estimated_wait_time == 0 && path@[0].route_id is None)),
        r matches Some(path) ==> (graph.station_position(origin@) != graph.station_position(
            destination@,
        ) ==> path@.len() >= 2 && path_steps_described(graph, path@)),
        r matches Some(path) ==> positions_distinct(path@),
        r matches Some(path) ==> no_walk_cheaper(
            graph,
            graph.station_position(origin@),
            graph.station_position(destination@),
            walk_cost(graph, path_cells(path@)),
        ),
{
    let start_pos = match graph.get_station_position(origin) {
        Some(p) => p,
        None => return None,
    };
    let end_pos = match graph.get_station_position(destination) {
        Some(p) => p,
        None => return None,
    };
    proof {
        let i = choose|i: int|
            0 <= i < graph.station_lookup@.len() && #[trigger] graph.station_lookup@[i].0@
                == origin@;
        let j = choose|j: int|
            0 <= j < graph.station_lookup@.len() && #[trigger] graph.station_lookup@[j].0@
                == destination@;
        assert(graph.has_node(graph.station_lookup@[i].1));
        assert(graph.has_node(graph.station_lookup@[j].1));
    }
    if start_pos == end_pos {
        let mut path: Vec<PathNode> = Vec::new();
        path.push(
            PathNode {
                position: start_pos,
                node_type: PathNodeType::Station(owned(destination)),
                estimated_wait_time: 0,
                route_id: None,
            },
        );
        proof {
            assert(graph.is_walk(seq![start_pos]));
            assert(path_cells(path@) =~= seq![start_pos]);
            assert forall|q: Seq<GridPos>| #[trigger] graph.is_walk(q) && q[0] == start_pos && q[q.len() - 1] == end_pos
                implies walk_cost(graph, q) >= walk_cost(graph, path_cells(path@)) by {
                lemma_walk_cost_prefix(graph, q, q.len() as int);
                assert(q.take(q.len() as int) =~= q);
            }
        }
        return Some(path);
    }
    search(graph, start_pos, end_pos)
}

/// A shortest-path search between two different nodes of the graph: it serves the
/// frontier entry of lowest cost (the fewest route changes on a tie), skips cells already
/// closed, closes the cell served and offers its connections.
#[verifier::spinoff_prover]
#[verifier::rlimit(100)]
fn search(graph: &PathfindingGraph, start_pos: GridPos, end_pos: GridPos) -> (r: Option<Vec<PathNode>>)
    requires
        graph.well_formed(),
        graph.has_node(start_pos),
        graph.has_node(end_pos),
        start_pos != end_pos,
    ensures
        r is Some <==> graph.reachable(start_pos, end_pos),
        r matches Some(path) ==> path_follows(graph, path@, start_pos, end_pos),
        r matches Some(path) ==> path@.len() >= 2 && path_steps_described(graph, path@),
        r matches Some(path) ==> positions_distinct(path@),
        r matches Some(path) ==> no_walk_cheaper(graph, start_pos, end_pos, walk_cost(graph, path_cells(path@))),
{
    let ghost node_set: Set<GridPos> = Set::new(|p: GridPos| graph.has_node(p));
    proof {
        let ps_seq = graph.nodes@.map_values(|n: GraphNode| n.position);
        let ps = ps_seq.to_set();
        assert forall|p: GridPos| node_set.contains(p) implies ps.contains(p) by {
            let i = graph.node_index(p);
            assert(ps_seq[i] == p);
        }
        assert forall|p: GridPos| ps.contains(p) implies node_set.contains(p) by {
            let i = choose|i: int| 0 <= i < ps_seq.len() && #[trigger] ps_seq[i] == p;
            assert(graph.nodes@[i].position == p);
        }
        assert(node_set =~= ps);
        vstd::seq_lib::seq_to_set_is_finite(ps_seq);
        ps_seq.lemma_cardinality_of_set();
    }
    let mut open_set: Vec<AStarNode> = Vec::new();
    let mut closed_set: Vec<GridPos> = Vec::new();
    let mut came_from: PosMap<GridPos> = PosMap::new();
    let ghost mut closed: Set<GridPos> = Set::empty();
    let ghost mut order: Map<GridPos, nat> = Map::empty();
    let ghost mut tick: nat = 0;
    let ghost mut gv: Map<GridPos, int> = Map::empty();
    let ghost mut trails: Map<GridPos, Seq<GridPos>> = Map::empty().insert(start_pos, seq![start_pos]);
    open_set.push(AStarNode { position: start_pos, g_cost: 0, route_changes: 0 });
    let n_nodes = graph.nodes.len();
    proof {
        assert(open_set@[0].position == start_pos);
        assert(in_frontier(open_set@, start_pos));
        assert(walk_cost(graph, seq![start_pos]) == 0);
    }
    while open_set.len() > 0
        invariant
            graph.well_formed(),
            came_from.well_formed(),
            graph.has_node(start_pos),
            graph.has_node(end_pos),
            start_pos != end_pos,
            node_set == Set::new(|p: GridPos| graph.has_node(p)),
            node_set.finite(),
            node_set.len() <= graph.nodes@.len(),
            n_nodes == graph.nodes@.len(),
            closed.finite(),
            closed.subset_of(node_set),
            closed.len() <= node_set.len(),
            forall|p: GridPos| closed.contains(p) <==> closed_set@.contains(p),
            links_ok(graph, came_from@, closed, order, tick, start_pos),
            frontier_ok(graph, open_set@, came_from@, start_pos),
            frontier_covers(graph, open_set@, closed),
            closed.contains(start_pos) || in_frontier(open_set@, start_pos),
            !closed.contains(end_pos),
            closed.len() == 0 ==> forall|k: int|
                0 <= k < open_set@.len() ==> #[trigger] open_set@[k].position == start_pos && open_set@[k].g_cost == 0,
            closed.len() > 0 ==> closed.contains(start_pos),
            trails_ok(came_from@, closed, start_pos, trails),
            trails_cover(graph, open_set@, trails),
            closed_settled(graph, open_set@, closed, gv, start_pos),
            forall|k: int| 0 <= k < open_set@.len() ==> (#[trigger] open_set@[k]).g_cost <= closed.len() * max_weight(),
        decreases node_set.len() - closed.len(), stale_count(open_set@, closed),
    {
        let ghost open_before = open_set@;
        let ghost stale_before = stale_count(open_set@, closed);
        let ghost unclosed_before = node_set.len() - closed.len();
        let ghost closed_before = closed;
        let idx = best_index(&open_set);
        let current = open_set.remove(idx);
        proof {
            lemma_stale_remove(open_before, idx as int, closed);
            assert(open_before[idx as int] == current);
            assert forall|k: int| 0 <= k < open_before.len() implies current.g_cost <= #[trigger] open_before[k].g_cost by {
                assert(!served_before(open_before[k], open_before[idx as int]));
            }
            assert forall|k: int| 0 <= k < open_set@.len() implies #[trigger] open_set@[k] == (if k < idx {
                open_before[k]
            } else {
                open_before[k + 1]
            }) by {}
        }
        let c = current.position;
        if c == end_pos {
            let path = reconstruct_path(
                &came_from,
                current.position,
                graph,
                Ghost(start_pos),
                Ghost(closed),
                Ghost(order),
                Ghost(tick),
            );
            proof {
                let s = Seq::new(path@.len(), |i: int| path@[i].position);
                assert(graph.is_walk(s));
                assert(closed.len() > 0);
                assert forall|q: Seq<GridPos>| #[trigger] graph.is_walk(q) && q[0] == start_pos && q[q.len() - 1] == end_pos
                    implies walk_cost(graph, q) >= current.g_cost by {
                    lemma_frontier_bound(graph, open_before, closed, gv, start_pos, current.g_cost as int, q);
                }
                assert(trails.contains_key(end_pos));
                lemma_traced_unique(came_from@, start_pos, end_pos, path_cells(path@), trails[end_pos]);
            }
            return Some(path);
        }
        proof {
            assert(graph.has_node(c));
            assert forall|p: GridPos|
                #[trigger] in_frontier_except(open_before, idx as int, p)
                implies in_frontier(open_set@, p) by {
                let q = choose|q: int| 0 <= q < open_before.len() && q != idx && #[trigger] open_before[q].position == p;
                if q < idx {
                    assert(open_set@[q] == open_before[q]);
                } else {
                    assert(open_set@[q - 1] == open_before[q]);
                }
            }
            assert forall|k: int| 0 <= k < open_set@.len() implies graph.has_node(#[trigger] open_set@[k].position)
                && (open_set@[k].position == start_pos || came_from@.contains_key(open_set@[k].position)) by {
                if k < idx {
                    assert(open_set@[k] == open_before[k]);
                } else {
                    assert(open_set@[k] == open_before[k + 1]);
                }
            }
            if closed.len() == 0 {
                assert(c == start_pos);
            }
        }
        if closed_contains(&closed_set, c) {
            proof {
                assert forall|u: GridPos, v: GridPos|
                    #[trigger] closed.contains(u) && #[trigger] graph.has_edge(u, v) implies closed.contains(v)
                    || in_frontier(open_set@, v) by {
                    if !closed.contains(v) {
                        assert(in_frontier(open_before, v));
                        let q = choose|q: int| 0 <= q < open_before.len() && #[trigger] open_before[q].position == v;
                        assert(q != idx);
                        assert(in_frontier_except(open_before, idx as int, v));
                    }
                }
                assert(closed_settled(graph, open_set@, closed, gv, start_pos)) by {
                    assert forall|v: GridPos| #[trigger] closed.contains(v) implies relaxed_from(graph, open_set@, closed, gv[v], v) by {
                        assert(relaxed_from(graph, open_before, closed, gv[v], v));
                        assert forall|j: int| 0 <= j < graph.edges_from(v).len() implies closed.contains(#[trigger] graph.edges_from(v)[j].to)
                            || offered(open_set@, graph.edges_from(v)[j].to, gv[v] + conn_weight(graph.edges_from(v)[j])) by {
                            let x = graph.edges_from(v)[j].to;
                            if !closed.contains(x) {
                                let q = choose|q: int| 0 <= q < open_before.len() && #[trigger] open_before[q].position == x
                                    && open_before[q].g_cost <= gv[v] + conn_weight(graph.edges_from(v)[j]);
                                assert(q != idx);
                                if q < idx {
                                    assert(open_set@[q] == open_before[q]);
                                } else {
                                    assert(open_set@[q - 1] == open_before[q]);
                                }
                            }
                        }
                    }
                    assert forall|v: GridPos, k: int| #[trigger] closed.contains(v) && 0 <= k < open_set@.len() implies gv[v]
                        <= (#[trigger] open_set@[k]).g_cost by {
                        if k < idx {
                            assert(open_set@[k] == open_before[k]);
                        } else {
                            assert(open_set@[k] == open_before[k + 1]);
                        }
                    }
                }
                assert(trails_cover(graph, open_set@, trails)) by {
                    assert forall|k: int| 0 <= k < open_set@.len() implies trails.contains_key(#[trigger] open_set@[k].position)
                        && walk_cost(graph, trails[open_set@[k].position]) <= open_set@[k].g_cost by {
                        if k < idx {
                            assert(open_set@[k] == open_before[k]);
                        } else {
                            assert(open_set@[k] == open_before[k + 1]);
                        }
                    }
                }
                assert forall|k: int| 0 <= k < open_set@.len() implies (#[trigger] open_set@[k]).g_cost <= closed.len() * max_weight() by {
                    if k < idx {
                        assert(open_set@[k] == open_before[k]);
                    } else {
                        assert(open_set@[k] == open_before[k + 1]);
                    }
                }
                assert(stale_count(open_set@, closed) < stale_before);
            }
            continue;
        }
        let ghost closed_seq_before = closed_set@;
        closed_set.push(c);
        proof {
            let old_closed = closed;
            assert forall|q: Seq<GridPos>| #[trigger] graph.is_walk(q) && q[0] == start_pos && q[q.len() - 1] == c
                implies walk_cost(graph, q) >= current.g_cost by {
                if old_closed.len() == 0 {
                    lemma_walk_cost_prefix(graph, q, q.len() as int);
                    assert(q.take(q.len() as int) =~= q);
                } else {
                    lemma_frontier_bound(graph, open_before, old_closed, gv, start_pos, current.g_cost as int, q);
                }
            }
            closed = closed.insert(c);
            order = order.insert(c, tick);
            tick = tick + 1;
            gv = gv.insert(c, current.g_cost as int);
            assert(node_set.contains(c));
            vstd::set_lib::lemma_len_subset(closed, node_set);
            assert forall|p: GridPos| closed.contains(p) <==> closed_set@.contains(p) by {
                assert(closed_set@ == closed_seq_before.push(c));
                if p == c {
                    assert(closed_set@[closed_set@.len() - 1] == c);
                } else if closed_set@.contains(p) {
                    let k = choose|k: int| 0 <= k < closed_set@.len() && closed_set@[k] == p;
                    assert(k < closed_set@.len() - 1);
                    assert(closed_seq_before[k] == p);
                    assert(old_closed.contains(p));
                } else if old_closed.contains(p) {
                    let k = choose|k: int| 0 <= k < closed_seq_before.len() && closed_seq_before[k] == p;
                    assert(closed_set@[k] == p);
                }
            }
            assert(links_ok(graph, came_from@, closed, order, tick, start_pos)) by {
                assert forall|v: GridPos|
                    #[trigger] came_from@.contains_key(v) && closed.contains(v) implies order[came_from@[v]]
                    < order[v] by {
                    if v == c {
                        assert(old_closed.contains(came_from@[v]));
                    }
                }
            }
            assert(trails_ok(came_from@, closed, start_pos, trails));
            assert(trails_cover(graph, open_set@, trails)) by {
                assert forall|k: int| 0 <= k < open_set@.len() implies trails.contains_key(#[trigger] open_set@[k].position)
                    && walk_cost(graph, trails[open_set@[k].position]) <= open_set@[k].g_cost by {
                    if k < idx {
                        assert(open_set@[k] == open_before[k]);
                    } else {
                        assert(open_set@[k] == open_before[k + 1]);
                    }
                }
            }
            assert(trails.contains_key(c));
            assert(closed.contains(start_pos));
            assert(closed.len() == old_closed.len() + 1);
            assert(current.g_cost <= old_closed.len() * max_weight());
            assert(closed.len() <= graph.nodes@.len());
            assert(closed.len() * max_weight() <= u128::MAX) by (nonlinear_arith)
                requires
                    closed.len() <= graph.nodes@.len(),
                    graph.nodes@.len() == n_nodes,
                    max_weight() == 0xffff_ffff + 6,
            ;
            assert(closed.len() * max_weight() == old_closed.len() * max_weight() + max_weight()) by (nonlinear_arith)
                requires
                    closed.len() == old_closed.len() + 1,
            ;
        }
        let ghost open_mid = open_set@;
        let ghost cap: int = closed.len() * max_weight();
        let Ghost(new_trails) = expand_neighbors(
            graph,
            &current,
            &closed_set,
            &mut open_set,
            &mut came_from,
            Ghost(closed),
            Ghost(order),
            Ghost(tick),
            Ghost(start_pos),
            Ghost(trails),
            Ghost(cap),
        );
        proof {
            let old_closed = closed_before;
            trails = new_trails;
            assert forall|u: GridPos, v: GridPos|
                #[trigger] closed.contains(u) && #[trigger] graph.has_edge(u, v) implies closed.contains(v)
                || in_frontier(open_set@, v) by {
                if u != c && !closed.contains(v) {
                    assert(old_closed.contains(u));
                    assert(in_frontier(open_before, v));
                    let q = choose|q: int| 0 <= q < open_before.len() && #[trigger] open_before[q].position == v;
                    if q == idx {
                        assert(v == c);
                    } else {
                        assert(in_frontier_except(open_before, idx as int, v));
                        assert(in_frontier(open_mid, v));
                    }
                }
            }
            assert(closed_settled(graph, open_set@, closed, gv, start_pos)) by {
                assert forall|v: GridPos| #[trigger] closed.contains(v) implies gv.contains_key(v) && no_walk_cheaper(graph, start_pos, v, gv[v]) by {
                    if v != c {
                        assert(old_closed.contains(v));
                    }
                }
                assert forall|v: GridPos| #[trigger] closed.contains(v) implies relaxed_from(graph, open_set@, closed, gv[v], v) by {
                    if v != c {
                        assert(old_closed.contains(v));
                        assert(relaxed_from(graph, open_before, old_closed, gv[v], v));
                        assert forall|j: int| 0 <= j < graph.edges_from(v).len() implies closed.contains(#[trigger] graph.edges_from(v)[j].to)
                            || offered(open_set@, graph.edges_from(v)[j].to, gv[v] + conn_weight(graph.edges_from(v)[j])) by {
                            let x = graph.edges_from(v)[j].to;
                            if !closed.contains(x) {
                                assert(!old_closed.contains(x));
                                let q = choose|q: int| 0 <= q < open_before.len() && #[trigger] open_before[q].position == x
                                    && open_before[q].g_cost <= gv[v] + conn_weight(graph.edges_from(v)[j]);
                                assert(q != idx);
                                if q < idx {
                                    assert(open_mid[q] == open_before[q]);
                                    assert(open_set@[q] == open_mid[q]);
                                } else {
                                    assert(open_mid[q - 1] == open_before[q]);
                                    assert(open_set@[q - 1] == open_mid[q - 1]);
                                }
                            }
                        }
                    }
                }
                assert forall|v: GridPos, k: int| #[trigger] closed.contains(v) && 0 <= k < open_set@.len() implies gv[v]
                    <= (#[trigger] open_set@[k]).g_cost by {
                    if k < open_mid.len() {
                        assert(open_set@[k] == open_mid[k]);
                        if k < idx {
                            assert(open_mid[k] == open_before[k]);
                        } else {
                            assert(open_mid[k] == open_before[k + 1]);
                        }
                    }
                    if v != c {
                        assert(old_closed.contains(v));
                        assert(gv[v] <= current.g_cost) by {
                            assert(gv[v] <= open_before[idx as int].g_cost);
                        }
                    }
                }
            }
            assert forall|k: int| 0 <= k < open_set@.len() implies (#[trigger] open_set@[k]).g_cost <= closed.len() * max_weight() by {
                if k < open_mid.len() {
                    assert(open_set@[k] == open_mid[k]);
                    if k < idx {
                        assert(open_mid[k] == open_before[k]);
                    } else {
                        assert(open_mid[k] == open_before[k + 1]);
                    }
                }
            }
            assert(node_set.len() - closed.len() < unclosed_before);
        }
    }
    proof {
        assert(graph.closed_under_edges(closed));
        if graph.reachable(start_pos, end_pos) {
            let s = choose|s: Seq<GridPos>| #[trigger] graph.is_walk(s) && s[0] == start_pos && s[s.len() - 1] == end_pos;
            graph.lemma_walk_stays_in_closed_set(closed, s, s.len() - 1);
        }
    }
    None
}

/// Index of the connection list kept for `from`, if any.
fn entry_position(g: &PathfindingGraph, from: GridPos) -> (r: Option<usize>)
    ensures
        r is None ==> forall|k: int| 0 <= k < g.connections@.len() ==> g.connections@[k].0 != from,
        r matches Some(k) ==> k < g.connections@.len() && g.connections@[k as int].0 == from,
{
    let mut i: usize = 0;
    while i < g.connections.len()
        invariant
            i <= g.connections@.len(),
            forall|k: int| 0 <= k < i ==> g.connections@[k].0 != from,
        decreases g.connections.len() - i,
    {
        if g.connections[i].0 == from {
            return Some(i);
        }
        i = i + 1;
    }
    None
}

/// The route label given to the connections that leave `p`.
pub open spec fn route_label(p: GridPos) -> Seq<char> {
    "route_"@ + decimal_text(p.x + p.y)
}

/// Adds a connection from `from` to `to` of kind `connection_type`, unless the graph already
/// has a connection from `from` to `to`.
fn add_connection_if_not_exists(
    pathfinding_graph: &mut PathfindingGraph,
    from: GridPos,
    to: GridPos,
    connection_type: ConnectionType,
)
    requires
        old(pathfinding_graph).well_formed(),
        old(pathfinding_graph).has_node(from),
        old(pathfinding_graph).has_node(to),
    ensures
        final(pathfinding_graph).well_formed(),
        old(pathfinding_graph).links_unique() ==> final(pathfinding_graph).links_unique(),
        final(pathfinding_graph).nodes@ == old(pathfinding_graph).nodes@,
        final(pathfinding_graph).station_lookup@ == old(pathfinding_graph).station_lookup@,
        forall|a: GridPos, b: GridPos|
            #[trigger] final(pathfinding_graph).has_edge(a, b) <==> old(pathfinding_graph).has_edge(a, b)
                || (a == from && b == to),
        forall|k: GridPos, c: Connection|
            #[trigger] final(pathfinding_graph).is_listed(k, c) ==> old(pathfinding_graph).is_listed(k, c)
                || (k == from && c.to == to && !old(pathfinding_graph).has_edge(from, to)
                && c.connection_type == connection_type && c.cost == connection_cost(connection_type)
                && (c.route_id matches Some(r) && r@ == route_label(from))),
{
    let ghost g0 = *old(pathfinding_graph);
    let label = prefixed_number("route_", from.x as i128 + from.y as i128);
    let cost: u32 = match connection_type {
        ConnectionType::Walk => 1,
        ConnectionType::BusRoute => 2,
        ConnectionType::Transfer => 4,
    };
    let conn = Connection { to, cost, route_id: Some(label), connection_type };
    let found = entry_position(pathfinding_graph, from);
    let i: usize = match found {
        Some(k) => k,
        None => pathfinding_graph.connections.len(),
    };
    if i < pathfinding_graph.connections.len() {
        proof {
            g0.lemma_entry_index(i as int);
        }
        let mut j: usize = 0;
        let n = pathfinding_graph.connections[i].1.len();
        while j < n
            invariant
                *pathfinding_graph == g0,
                g0.well_formed(),
                i < g0.connections@.len(),
                g0.connections@[i as int].0 == from,
                n == g0.connections@[i as int].1@.len(),
                j <= n,
                forall|k: int| 0 <= k < j ==> g0.connections@[i as int].1@[k].to != to,
            decreases n - j,
        {
            if pathfinding_graph.connections[i].1[j].to == to {
                proof {
                    g0.lemma_raw_edge(from, to);
                    assert(g0.connections@[i as int].1@[j as int].to == to);
                    assert(g0.raw_edge(from, to));
                }
                return;
            }
            j = j + 1;
        }
        proof {
            g0.lemma_raw_edge(from, to);
            if g0.raw_edge(from, to) {
                let (a, b) = choose|a: int, b: int|
                    0 <= a < g0.connections@.len() && 0 <= b < g0.connections@[a].1@.len()
                        && g0.connections@[a].0 == from && #[trigger] g0.connections@[a].1@[b].to == to;
                g0.lemma_entry_index(a);
                assert(a == i);
                assert(false);
            }
        }
        pathfinding_graph.connections[i].1.push(conn);
        proof {
            let g1 = *pathfinding_graph;
            reveal_strlit("route_");
            assert(g1.connections@.len() == g0.connections@.len());
            assert forall|a: int| 0 <= a < g1.connections@.len() && a != i implies #[trigger] g1.connections@[a] == g0.connections@[a] by {}
            assert(g1.connections@[i as int].0 == from);
            assert(g1.connections@[i as int].1@ == g0.connections@[i as int].1@.push(conn));
            if g0.links_unique() {
                assert(g1.links_unique()) by {
                assert forall|a: int, b: int, c: int|
                    0 <= a < g1.connections@.len() && 0 <= b < c < g1.connections@[a].1@.len()
                        implies #[trigger] g1.connections@[a].1@[b].to
                        != #[trigger] g1.connections@[a].1@[c].to by {
                    if a == i && c == n {
                        assert(g1.connections@[a].1@[b] == g0.connections@[a].1@[b]);
                    } else if a == i {
                        assert(g1.connections@[a].1@[b] == g0.connections@[a].1@[b]);
                        assert(g1.connections@[a].1@[c] == g0.connections@[a].1@[c]);
                    }
                }
                }
            }
            assert(g1.well_formed()) by {
                assert forall|a: int, b: int|
                    0 <= a < g1.connections@.len() && 0 <= b < g1.connections@[a].1@.len()
                        implies g1.has_node(#[trigger] g1.connections@[a].1@[b].to) by {
                    if a == i && b == n {
                        assert(g1.has_node(to));
                    } else if a == i {
                        assert(g1.connections@[a].1@[b] == g0.connections@[a].1@[b]);
                    }
                }
                assert forall|a: int, b: int|
                    0 <= a < b < g1.connections@.len() implies #[trigger] g1.connections@[a].0
                        != #[trigger] g1.connections@[b].0 by {
                    assert(g0.connections@[a].0 != g0.connections@[b].0);
                }
                assert forall|a: int| 0 <= a < g1.connections@.len() implies g1.has_node(#[trigger] g1.connections@[a].0) by {
                    assert(g0.has_node(g0.connections@[a].0));
                }
            }
            assert forall|a: GridPos, b: GridPos|
                #[trigger] g1.has_edge(a, b) <==> g0.has_edge(a, b) || (a == from && b == to) by {
                g0.lemma_raw_edge(a, b);
                g1.lemma_raw_edge(a, b);
                if g1.raw_edge(a, b) {
                    let (x, y) = choose|x: int, y: int|
                        0 <= x < g1.connections@.len() && 0 <= y < g1.connections@[x].1@.len()
                            && g1.connections@[x].0 == a && #[trigger] g1.connections@[x].1@[y].to == b;
                    if !(x == i && y == n) {
                        assert(g0.connections@[x].1@[y] == g1.connections@[x].1@[y]);
                    }
                }
                if g0.raw_edge(a, b) {
                    let (x, y) = choose|x: int, y: int|
                        0 <= x < g0.connections@.len() && 0 <= y < g0.connections@[x].1@.len()
                            && g0.connections@[x].0 == a && #[trigger] g0.connections@[x].1@[y].to == b;
                    assert(g1.connections@[x].1@[y] == g0.connections@[x].1@[y]);
                }
                if a == from && b == to {
                    assert(g1.connections@[i as int].1@[n as int].to == to);
                }
            }
            assert forall|k: GridPos, c: Connection| #[trigger] g1.is_listed(k, c) implies g0.is_listed(k, c)
                || (k == from && c.to == to && !g0.has_edge(from, to)
                && c.connection_type == connection_type && c.cost == connection_cost(connection_type)
                && (c.route_id matches Some(r) && r@ == route_label(from))) by {
                let (x, y) = choose|x: int, y: int|
                    0 <= x < g1.connections@.len() && 0 <= y < g1.connections@[x].1@.len()
                        && g1.connections@[x].0 == k && #[trigger] g1.connections@[x].1@[y] == c;
                if !(x == i && y == n) {
                    assert(g0.connections@[x].1@[y] == g1.connections@[x].1@[y]);
                }
            }
        }
    } else {
        let mut list: Vec<Connection> = Vec::new();
        list.push(conn);
        pathfinding_graph.connections.push((from, list));
        proof {
            let g1 = *pathfinding_graph;
            reveal_strlit("route_");
            let n = g0.connections@.len() as int;
            g0.lemma_raw_edge(from, to);
            assert(!g0.raw_edge(from, to));
            assert forall|a: int| 0 <= a < n implies #[trigger] g1.connections@[a] == g0.connections@[a] by {}
            assert(g1.connections@[n].0 == from);
            assert(g1.connections@[n].1@.len() == 1);
            assert(g1.well_formed()) by {
                assert forall|a: int, b: int|
                    0 <= a < b < g1.connections@.len() implies #[trigger] g1.connections@[a].0
                        != #[trigger] g1.connections@[b].0 by {
                    if b == n {
                        assert(g0.connections@[a].0 != from);
                    } else {
                        assert(g0.connections@[a].0 != g0.connections@[b].0);
                    }
                }
                assert forall|a: int, b: int|
                    0 <= a < g1.connections@.len() && 0 <= b < g1.connections@[a].1@.len()
                        implies g1.has_node(#[trigger] g1.connections@[a].1@[b].to) by {
                    if a < n {
                        assert(g0.has_node(g0.connections@[a].1@[b].to));
                    }
                }
                assert forall|a: int| 0 <= a < g1.connections@.len() implies g1.has_node(#[trigger] g1.connections@[a].0) by {
                    if a < n {
                        assert(g0.has_node(g0.connections@[a].0));
                    }
                }
            }
            if g0.links_unique() {
                assert(g1.links_unique()) by {
                assert forall|a: int, b: int, c: int|
                    0 <= a < g1.connections@.len() && 0 <= b < c < g1.connections@[a].1@.len()
                        implies #[trigger] g1.connections@[a].1@[b].to
                        != #[trigger] g1.connections@[a].1@[c].to by {
                    if a < n {
                        assert(g0.connections@[a].1@[b].to != g0.connections@[a].1@[c].to);
                    }
                }
                }
            }
            assert forall|a: GridPos, b: GridPos|
                #[trigger] g1.has_edge(a, b) <==> g0.has_edge(a, b) || (a == from && b == to) by {
                g0.lemma_raw_edge(a, b);
                g1.lemma_raw_edge(a, b);
                if g1.raw_edge(a, b) {
                    let (x, y) = choose|x: int, y: int|
                        0 <= x < g1.connections@.len() && 0 <= y < g1.connections@[x].1@.len()
                            && g1.connections@[x].0 == a && #[trigger] g1.connections@[x].1@[y].to == b;
                    if x < n {
                        assert(g0.connections@[x].1@[y] == g1.connections@[x].1@[y]);
                    }
                }
                if g0.raw_edge(a, b) {
                    let (x, y) = choose|x: int, y: int|
                        0 <= x < g0.connections@.len() && 0 <= y < g0.connections@[x].1@.len()
                            && g0.connections@[x].0 == a && #[trigger] g0.connections@[x].1@[y].to == b;
                    assert(g1.connections@[x].1@[y] == g0.connections@[x].1@[y]);
                }
                if a == from && b == to {
                    assert(g1.connections@[n].1@[0].to == to);
                }
            }
            assert forall|k: GridPos, c: Connection| #[trigger] g1.is_listed(k, c) implies g0.is_listed(k, c)
                || (k == from && c.to == to && !g0.has_edge(from, to)
                && c.connection_type == connection_type && c.cost == connection_cost(connection_type)
                && (c.route_id matches Some(r) && r@ == route_label(from))) by {
                let (x, y) = choose|x: int, y: int|
                    0 <= x < g1.connections@.len() && 0 <= y < g1.connections@[x].1@.len()
                        && g1.connections@[x].0 == k && #[trigger] g1.connections@[x].1@[y] == c;
                if x < n {
                    assert(g0.connections@[x].1@[y] == g1.connections@[x].1@[y]);
                }
            }
        }
    }
}


/// Index of the node kept at `pos`, if any.
fn node_position_index(g: &PathfindingGraph, pos: GridPos) -> (r: Option<usize>)
    ensures
        r is None ==> forall|k: int| 0 <= k < g.nodes@.len() ==> g.nodes@[k].position != pos,
        r matches Some(k) ==> k < g.nodes@.len() && g.nodes@[k as int].position == pos,
{
    let mut i: usize = 0;
    while i < g.nodes.len()
        invariant
            i <= g.nodes@.len(),
            forall|k: int| 0 <= k < i ==> g.nodes@[k].position != pos,
        decreases g.nodes.len() - i,
    {
        if g.nodes[i].position == pos {
            return Some(i);
        }
        i = i + 1;
    }
    None
}

/// Stores `node` as the node at its position, replacing the node kept there before.
pub(crate) fn insert_node(g: &mut PathfindingGraph, node: GraphNode)
    requires
        old(g).well_formed(),
    ensures
        final(g).well_formed(),
        final(g).connections@ == old(g).connections@,
        final(g).station_lookup@ == old(g).station_lookup@,
        forall|p: GridPos| #[trigger] final(g).has_node(p) <==> old(g).has_node(p) || p == node.position,
        final(g).node_at(node.position) == node,
        forall|p: GridPos|
            p != node.position && old(g).has_node(p) ==> #[trigger] final(g).node_at(p) == old(g).node_at(p),
{
    let ghost g0 = *old(g);
    let pos = node.position;
    let found = node_position_index(g, pos);
    let i: usize = match found {
        Some(k) => k,
        None => g.nodes.len(),
    };
    if found.is_some() {
        g.nodes.set(i, node);
        proof {
            let g1 = *g;
            assert forall|a: int, b: int| 0 <= a < b < g1.nodes@.len() implies #[trigger] g1.nodes@[a].position
                != #[trigger] g1.nodes@[b].position by {
                assert(g0.nodes@[a].position != g0.nodes@[b].position);
            }
            assert forall|p: GridPos| #[trigger] g1.has_node(p) <==> g0.has_node(p) || p == pos by {
                if g1.has_node(p) {
                    let k = choose|k: int| 0 <= k < g1.nodes@.len() && #[trigger] g1.nodes@[k].position == p;
                    if k != i {
                        assert(g0.nodes@[k].position == p);
                    }
                }
                if g0.has_node(p) {
                    let k = choose|k: int| 0 <= k < g0.nodes@.len() && #[trigger] g0.nodes@[k].position == p;
                    assert(g1.nodes@[k].position == p);
                }
                if p == pos {
                    assert(g1.nodes@[i as int].position == p);
                }
            }
            assert(g1.well_formed()) by {
                assert forall|a: int| 0 <= a < g1.connections@.len() implies g1.has_node(#[trigger] g1.connections@[a].0) by {
                    assert(g0.has_node(g0.connections@[a].0));
                }
                assert forall|a: int, b: int|
                    0 <= a < g1.connections@.len() && 0 <= b < g1.connections@[a].1@.len()
                        implies g1.has_node(#[trigger] g1.connections@[a].1@[b].to) by {
                    assert(g0.has_node(g0.connections@[a].1@[b].to));
                }
                assert forall|a: int| 0 <= a < g1.station_lookup@.len() implies g1.has_node(#[trigger] g1.station_lookup@[a].1) by {
                    assert(g0.has_node(g0.station_lookup@[a].1));
                }
            }
            lemma_node_index(g1, i as int);
            assert forall|p: GridPos| p != pos && g0.has_node(p) implies #[trigger] g1.node_at(p) == g0.node_at(p) by {
                let k = g0.node_index(p);
                lemma_node_index(g0, k);
                lemma_node_index(g1, k);
            }
        }
    } else {
        g.nodes.push(node);
        proof {
            let g1 = *g;
            let n = g0.nodes@.len() as int;
            assert forall|a: int, b: int| 0 <= a < b < g1.nodes@.len() implies #[trigger] g1.nodes@[a].position
                != #[trigger] g1.nodes@[b].position by {
                if b == n {
                    assert(g0.nodes@[a].position != pos);
                } else {
                    assert(g0.nodes@[a].position != g0.nodes@[b].position);
                }
            }
            assert forall|p: GridPos| #[trigger] g1.has_node(p) <==> g0.has_node(p) || p == pos by {
                if g1.has_node(p) {
                    let k = choose|k: int| 0 <= k < g1.nodes@.len() && #[trigger] g1.nodes@[k].position == p;
                    if k != n {
                        assert(g0.nodes@[k].position == p);
                    }
                }
                if g0.has_node(p) {
                    let k = choose|k: int| 0 <= k < g0.nodes@.len() && #[trigger] g0.nodes@[k].position == p;
                    assert(g1.nodes@[k].position == p);
                }
                if p == pos {
                    assert(g1.nodes@[n].position == p);
                }
            }
            assert(g1.well_formed()) by {
                assert forall|a: int| 0 <= a < g1.connections@.len() implies g1.has_node(#[trigger] g1.connections@[a].0) by {
                    assert(g0.has_node(g0.connections@[a].0));
                }
                assert forall|a: int, b: int|
                    0 <= a < g1.connections@.len() && 0 <= b < g1.connections@[a].1@.len()
                        implies g1.has_node(#[trigger] g1.connections@[a].1@[b].to) by {
                    assert(g0.has_node(g0.connections@[a].1@[b].to));
                }
                assert forall|a: int| 0 <= a < g1.station_lookup@.len() implies g1.has_node(#[trigger] g1.station_lookup@[a].1) by {
                    assert(g0.has_node(g0.station_lookup@[a].1));
                }
            }
            lemma_node_index(g1, n);
            assert forall|p: GridPos| p != pos && g0.has_node(p) implies #[trigger] g1.node_at(p) == g0.node_at(p) by {
                let k = g0.node_index(p);
                lemma_node_index(g0, k);
                lemma_node_index(g1, k);
            }
        }
    }
}

proof fn lemma_node_index(g: PathfindingGraph, i: int)
    requires
        g.well_formed(),
        0 <= i < g.nodes@.len(),
    ensures
        g.has_node(g.nodes@[i].position),
        g.node_index(g.nodes@[i].position) == i,
        g.node_at(g.nodes@[i].position) == g.nodes@[i],
{
    let p = g.nodes@[i].position;
    assert(g.has_node(p));
    let e = g.node_index(p);
    if e < i {
        assert(g.nodes@[e].position != g.nodes@[i].position);
    } else if e > i {
        assert(g.nodes@[i].position != g.nodes@[e].position);
    }
}


/// Index of the lookup entry for the station `name`, if any.
fn lookup_index(g: &PathfindingGraph, name: &String) -> (r: Option<usize>)
    ensures
        r is None ==> forall|k: int| 0 <= k < g.station_lookup@.len() ==> g.station_lookup@[k].0@ != name@,
        r matches Some(k) ==> k < g.station_lookup@.len() && g.station_lookup@[k as int].0@ == name@,
{
    let mut i: usize = 0;
    while i < g.station_lookup.len()
        invariant
            i <= g.station_lookup@.len(),
            forall|k: int| 0 <= k < i ==> g.station_lookup@[k].0@ != name@,
        decreases g.station_lookup.len() - i,
    {
        if g.station_lookup[i].0 == *name {
            return Some(i);
        }
        i = i + 1;
    }
    None
}

proof fn lemma_lookup_index(g: PathfindingGraph, i: int)
    requires
        g.well_formed(),
        0 <= i < g.station_lookup@.len(),
    ensures
        g.has_station(g.station_lookup@[i].0@),
        g.station_position(g.station_lookup@[i].0@) == g.station_lookup@[i].1,
{
    let n = g.station_lookup@[i].0@;
    assert(g.has_station(n));
    let e = choose|e: int| 0 <= e < g.station_lookup@.len() && #[trigger] g.station_lookup@[e].0@ == n;
    if e < i {
        assert(g.station_lookup@[e].0@ != g.station_lookup@[i].0@);
    } else if e > i {
        assert(g.station_lookup@[i].0@ != g.station_lookup@[e].0@);
    }
}

/// Records `pos` as the position of the station `name`, replacing an earlier record.
pub(crate) fn insert_station(g: &mut PathfindingGraph, name: String, pos: GridPos)
    requires
        old(g).well_formed(),
        old(g).has_node(pos),
    ensures
        final(g).well_formed(),
        final(g).connections@ == old(g).connections@,
        final(g).nodes@ == old(g).nodes@,
        forall|n: Seq<char>| #[trigger] final(g).has_station(n) <==> old(g).has_station(n) || n == name@,
        final(g).station_position(name@) == pos,
        forall|n: Seq<char>|
            n != name@ && old(g).has_station(n) ==> #[trigger] final(g).station_position(n) == old(g).station_position(n),
        forall|p: GridPos|
            #[trigger] final(g).is_station_position(p) <==> (exists|n: Seq<char>|
                #[trigger] final(g).has_station(n) && final(g).station_position(n) == p),
{
    let ghost g0 = *old(g);
    let ghost nm = name@;
    let found = lookup_index(g, &name);
    match found {
        Some(i) => {
            g.station_lookup.set(i, (name, pos));
            proof {
                let g1 = *g;
                assert forall|a: int, b: int| 0 <= a < b < g1.station_lookup@.len() implies #[trigger] g1.station_lookup@[a].0@
                    != #[trigger] g1.station_lookup@[b].0@ by {
                    assert(g0.station_lookup@[a].0@ != g0.station_lookup@[b].0@);
                }
                assert(g1.well_formed()) by {
                    assert forall|a: int| 0 <= a < g1.station_lookup@.len() implies g1.has_node(#[trigger] g1.station_lookup@[a].1) by {
                        if a != i {
                            assert(g0.has_node(g0.station_lookup@[a].1));
                        }
                    }
                }
                assert forall|n: Seq<char>| #[trigger] g1.has_station(n) <==> g0.has_station(n) || n == nm by {
                    if g1.has_station(n) {
                        let k = choose|k: int| 0 <= k < g1.station_lookup@.len() && #[trigger] g1.station_lookup@[k].0@ == n;
                        if k != i {
                            assert(g0.station_lookup@[k].0@ == n);
                        }
                    }
                    if g0.has_station(n) {
                        let k = choose|k: int| 0 <= k < g0.station_lookup@.len() && #[trigger] g0.station_lookup@[k].0@ == n;
                        assert(g1.station_lookup@[k].0@ == n);
                    }
                    if n == nm {
                        assert(g1.station_lookup@[i as int].0@ == n);
                    }
                }
                lemma_lookup_index(g1, i as int);
                assert forall|n: Seq<char>| n != nm && g0.has_station(n) implies #[trigger] g1.station_position(n) == g0.station_position(n) by {
                    let k = choose|k: int| 0 <= k < g0.station_lookup@.len() && #[trigger] g0.station_lookup@[k].0@ == n;
                    lemma_lookup_index(g0, k);
                    lemma_lookup_index(g1, k);
                }
                lemma_station_positions(g1);
            }
        },
        None => {
            g.station_lookup.push((name, pos));
            proof {
                let g1 = *g;
                let n0 = g0.station_lookup@.len() as int;
                assert forall|a: int, b: int| 0 <= a < b < g1.station_lookup@.len() implies #[trigger] g1.station_lookup@[a].0@
                    != #[trigger] g1.station_lookup@[b].0@ by {
                    if b == n0 {
                        assert(g0.station_lookup@[a].0@ != nm);
                    } else {
                        assert(g0.station_lookup@[a].0@ != g0.station_lookup@[b].0@);
                    }
                }
                assert(g1.well_formed()) by {
                    assert forall|a: int| 0 <= a < g1.station_lookup@.len() implies g1.has_node(#[trigger] g1.station_lookup@[a].1) by {
                        if a != n0 {
                            assert(g0.has_node(g0.station_lookup@[a].1));
                        }
                    }
                }
                assert forall|n: Seq<char>| #[trigger] g1.has_station(n) <==> g0.has_station(n) || n == nm by {
                    if g1.has_station(n) {
                        let k = choose|k: int| 0 <= k < g1.station_lookup@.len() && #[trigger] g1.station_lookup@[k].0@ == n;
                        if k != n0 {
                            assert(g0.station_lookup@[k].0@ == n);
                        }
                    }
                    if g0.has_station(n) {
                        let k = choose|k: int| 0 <= k < g0.station_lookup@.len() && #[trigger] g0.station_lookup@[k].0@ == n;
                        assert(g1.station_lookup@[k].0@ == n);
                    }
                    if n == nm {
                        assert(g1.station_lookup@[n0].0@ == n);
                    }
                }
                lemma_lookup_index(g1, n0);
                assert forall|n: Seq<char>| n != nm && g0.has_station(n) implies #[trigger] g1.station_position(n) == g0.station_position(n) by {
                    let k = choose|k: int| 0 <= k < g0.station_lookup@.len() && #[trigger] g0.station_lookup@[k].0@ == n;
                    lemma_lookup_index(g0, k);
                    lemma_lookup_index(g1, k);
                }
                lemma_station_positions(g1);
            }
        },
    }
}

/// A cell holds a station of the lookup exactly when some recorded station is there.
proof fn lemma_station_positions(g: PathfindingGraph)
    requires
        g.well_formed(),
    ensures
        forall|p: GridPos|
            #[trigger] g.is_station_position(p) <==> (exists|n: Seq<char>|
                #[trigger] g.has_station(n) && g.station_position(n) == p),
{
    assert forall|p: GridPos|
        #[trigger] g.is_station_position(p) <==> (exists|n: Seq<char>|
            #[trigger] g.has_station(n) && g.station_position(n) == p) by {
        if g.is_station_position(p) {
            let k = choose|k: int| 0 <= k < g.station_lookup@.len() && #[trigger] g.station_lookup@[k].1 == p;
            lemma_lookup_index(g, k);
            assert(g.has_station(g.station_lookup@[k].0@));
        }
        if exists|n: Seq<char>| #[trigger] g.has_station(n) && g.station_position(n) == p {
            let n = choose|n: Seq<char>| #[trigger] g.has_station(n) && g.station_position(n) == p;
            let k = choose|k: int| 0 <= k < g.station_lookup@.len() && #[trigger] g.station_lookup@[k].0@ == n;
            lemma_lookup_index(g, k);
            assert(g.station_lookup@[k].1 == p);
        }
    }
}


/// The segment at `a` has a port towards `b`.
pub open spec fn seg_port(sm: Map<GridPos, RouteSegment>, a: GridPos, b: GridPos) -> bool {
    sm.contains_key(a) && has_port(sm[a].segment_type, a, b, sm[a].rotation)
}

/// A bus connection joins `a` to `b`: the segment at `a` has a port towards `b`, and `b`
/// holds either a segment with a port back towards `a` or, when no segment is there, a
/// station.
pub open spec fn route_link(sm: Map<GridPos, RouteSegment>, cells: Set<GridPos>, a: GridPos, b: GridPos) -> bool {
    &&& seg_port(sm, a, b)
    &&& if sm.contains_key(b) {
        seg_port(sm, b, a)
    } else {
        cells.contains(b)
    }
}

/// A walking connection joins a station to a segment that has a port towards it, in
/// either direction.
pub open spec fn station_link(sm: Map<GridPos, RouteSegment>, cells: Set<GridPos>, a: GridPos, b: GridPos) -> bool {
    ||| (cells.contains(a) && seg_port(sm, b, a))
    ||| (cells.contains(b) && seg_port(sm, a, b))
}

/// Every link joins two neighbouring cells.
pub proof fn law_links_join_neighbours(sm: Map<GridPos, RouteSegment>, cells: Set<GridPos>, a: GridPos, b: GridPos)
    requires
        forall|p: GridPos| #[trigger] sm.contains_key(p) ==> pos_in_range(p),
    ensures
        route_link(sm, cells, a, b) || station_link(sm, cells, a, b) ==> crate::bus_puzzle::components::grid_distance(
            a,
            b,
        ) == 1,
{
    if seg_port(sm, a, b) {
        lemma_port_adjacent(sm[a].segment_type, a, b, sm[a].rotation);
    }
    if seg_port(sm, b, a) {
        lemma_port_adjacent(sm[b].segment_type, b, a, sm[b].rotation);
    }
}

/// Links run both ways: a bus link between facing segments is matched by one back, and a
/// bus link from a segment into a station is matched by a walking link back.
pub proof fn law_links_run_both_ways(
    sm: Map<GridPos, RouteSegment>,
    cells: Set<GridPos>,
    a: GridPos,
    b: GridPos,
)
    ensures
        route_link(sm, cells, a, b) || station_link(sm, cells, a, b) ==> route_link(sm, cells, b, a)
            || station_link(sm, cells, b, a),
{
}

/// The cells that hold a station of the graph's lookup.
pub open spec fn lookup_cells(g: &PathfindingGraph) -> Set<GridPos> {
    Set::new(|p: GridPos| g.is_station_position(p))
}

/// Whether some station of the lookup stands at `q`.
fn is_lookup_cell(g: &PathfindingGraph, q: GridPos) -> (r: bool)
    ensures
        r == g.is_station_position(q),
{
    let mut i: usize = 0;
    while i < g.station_lookup.len()
        invariant
            i <= g.station_lookup@.len(),
            forall|k: int| 0 <= k < i ==> g.station_lookup@[k].1 != q,
        decreases g.station_lookup.len() - i,
    {
        if g.station_lookup[i].1 == q {
            assert(g.station_lookup@[i as int].1 == q);
            return true;
        }
        i = i + 1;
    }
    false
}

/// Every listed connection is a bus connection labelled after the cell it leaves.
pub open spec fn bus_links_labelled(g: &PathfindingGraph) -> bool {
    forall|k: GridPos, c: Connection|
        #[trigger] g.is_listed(k, c) ==> c.connection_type == ConnectionType::BusRoute && c.cost
            == 2 && (c.route_id matches Some(r) && r@ == route_label(k))
}

/// Connects every pair of neighbouring segments whose ports face each other, in both
/// directions, and every segment to a station that its port faces where no segment stands.
fn create_route_connections_improved(
    pathfinding_graph: &mut PathfindingGraph,
    route_segments_by_pos: &PosMap<RouteSegment>,
)
    requires
        old(pathfinding_graph).well_formed(),
        old(pathfinding_graph).links_unique(),
        old(pathfinding_graph).connections@.len() == 0,
        route_segments_by_pos.well_formed(),
        forall|p: GridPos| #[trigger] route_segments_by_pos@.contains_key(p) ==> pos_in_range(p) && old(pathfinding_graph).has_node(p),
    ensures
        final(pathfinding_graph).well_formed(),
        final(pathfinding_graph).links_unique(),
        final(pathfinding_graph).nodes@ == old(pathfinding_graph).nodes@,
        final(pathfinding_graph).station_lookup@ == old(pathfinding_graph).station_lookup@,
        forall|a: GridPos, b: GridPos|
            #[trigger] final(pathfinding_graph).has_edge(a, b) <==> route_link(
                route_segments_by_pos@,
                lookup_cells(&*old(pathfinding_graph)),
                a,
                b,
            ),
        bus_links_labelled(&*final(pathfinding_graph)),
{
    let ghost sm = route_segments_by_pos@;
    let ghost cells = lookup_cells(&*pathfinding_graph);
    let ghost g0 = *pathfinding_graph;
    let ghost entries = route_segments_by_pos.entries@;
    proof {
        assert forall|a: GridPos, b: GridPos| !#[trigger] g0.has_edge(a, b) by {
            assert(!g0.has_entry(a));
        }
        assert forall|k: GridPos, c: Connection| !#[trigger] g0.is_listed(k, c) by {}
    }
    let mut k: usize = 0;
    while k < route_segments_by_pos.entries.len()
        invariant
            pathfinding_graph.well_formed(),
            pathfinding_graph.links_unique(),
            pathfinding_graph.nodes@ == g0.nodes@,
            pathfinding_graph.station_lookup@ == g0.station_lookup@,
            route_segments_by_pos.well_formed(),
            sm == route_segments_by_pos@,
            entries == route_segments_by_pos.entries@,
            cells == lookup_cells(&g0),
            k <= entries.len(),
            forall|p: GridPos| #[trigger] sm.contains_key(p) ==> pos_in_range(p) && g0.has_node(p),
            forall|a: GridPos, b: GridPos|
                #[trigger] pathfinding_graph.has_edge(a, b) <==> route_link(sm, cells, a, b) && (
                (sm.contains_key(a) && route_segments_by_pos.index_of(a) < k) || (sm.contains_key(b)
                    && route_segments_by_pos.index_of(b) < k)),
            bus_links_labelled(&*pathfinding_graph),
        decreases entries.len() - k,
    {
        let p = route_segments_by_pos.entries[k].0;
        let seg = route_segments_by_pos.entries[k].1;
        proof {
            route_segments_by_pos.lemma_index(k as int);
        }
        let positions = seg.segment_type.get_connection_positions(p, seg.rotation);
        let ghost gk = *pathfinding_graph;
        let mut m: usize = 0;
        while m < positions.len()
            invariant
                pathfinding_graph.well_formed(),
                pathfinding_graph.links_unique(),
                pathfinding_graph.nodes@ == g0.nodes@,
                pathfinding_graph.station_lookup@ == g0.station_lookup@,
                route_segments_by_pos.well_formed(),
                sm == route_segments_by_pos@,
                entries == route_segments_by_pos.entries@,
                cells == lookup_cells(&g0),
                k < entries.len(),
                entries[k as int] == (p, seg),
                sm.contains_key(p),
                sm[p] == seg,
                route_segments_by_pos.index_of(p) == k,
                positions@ == crate::bus_puzzle::components::connection_positions(seg.segment_type, p, seg.rotation),
                m <= positions@.len(),
                forall|q: GridPos| #[trigger] sm.contains_key(q) ==> pos_in_range(q) && g0.has_node(q),
                forall|a: GridPos, b: GridPos|
                    #[trigger] pathfinding_graph.has_edge(a, b) <==> route_link(sm, cells, a, b) && (
                    (sm.contains_key(a) && route_segments_by_pos.index_of(a) < k) || (sm.contains_key(b)
                        && route_segments_by_pos.index_of(b) < k)
                    || (a == p && positions@.take(m as int).contains(b))
                    || (b == p && positions@.take(m as int).contains(a))),
                bus_links_labelled(&*pathfinding_graph),
            decreases positions.len() - m,
        {
            let q = positions[m];
            let ghost gm = *pathfinding_graph;
            proof {
                assert(positions@.take(m + 1) =~= positions@.take(m as int).push(q));
                assert(has_port(seg.segment_type, p, q, seg.rotation));
            }
            match route_segments_by_pos.get(q) {
                Some(t) => {
                    if t.segment_type.has_connection_to(q, p, t.rotation) {
                        proof {
                            lemma_port_node_link(sm, cells, g0, p, q);
                        }
                        add_connection_if_not_exists(pathfinding_graph, p, q, ConnectionType::BusRoute);
                        add_connection_if_not_exists(pathfinding_graph, q, p, ConnectionType::BusRoute);
                    }
                },
                None => {
                    if is_lookup_cell(pathfinding_graph, q) {
                        proof {
                            assert(g0.is_station_position(q));
                            let i = choose|i: int| 0 <= i < g0.station_lookup@.len() && #[trigger] g0.station_lookup@[i].1 == q;
                            assert(g0.has_node(g0.station_lookup@[i].1));
                        }
                        add_connection_if_not_exists(pathfinding_graph, p, q, ConnectionType::BusRoute);
                    }
                },
            }
            proof {
                assert(cells.contains(q) == g0.is_station_position(q));
                assert forall|a: GridPos, b: GridPos|
                    #[trigger] pathfinding_graph.has_edge(a, b) <==> route_link(sm, cells, a, b) && (
                    (sm.contains_key(a) && route_segments_by_pos.index_of(a) < k) || (sm.contains_key(b)
                        && route_segments_by_pos.index_of(b) < k)
                    || (a == p && positions@.take(m + 1).contains(b))
                    || (b == p && positions@.take(m + 1).contains(a))) by {
                    lemma_contains_push(positions@.take(m as int), q, b);
                    lemma_contains_push(positions@.take(m as int), q, a);
                    assert(gm.has_edge(a, b) == (route_link(sm, cells, a, b) && (
                    (sm.contains_key(a) && route_segments_by_pos.index_of(a) < k) || (sm.contains_key(b)
                        && route_segments_by_pos.index_of(b) < k)
                    || (a == p && positions@.take(m as int).contains(b))
                    || (b == p && positions@.take(m as int).contains(a)))));
                    if b == p && a == q && route_link(sm, cells, a, b) {
                        assert(sm.contains_key(a));
                    }
                }
            }
            m = m + 1;
        }
        proof {
            assert(positions@.take(positions@.len() as int) =~= positions@);
            assert forall|a: GridPos, b: GridPos|
                #[trigger] pathfinding_graph.has_edge(a, b) <==> route_link(sm, cells, a, b) && (
                (sm.contains_key(a) && route_segments_by_pos.index_of(a) < k + 1) || (sm.contains_key(b)
                    && route_segments_by_pos.index_of(b) < k + 1)) by {
                if route_link(sm, cells, a, b) && a == p {
                    assert(positions@.contains(b));
                }
                if route_link(sm, cells, a, b) && b == p {
                    assert(sm.contains_key(b));
                    assert(seg_port(sm, b, a));
                    assert(positions@.contains(a));
                }
                if route_link(sm, cells, a, b) && positions@.contains(b) && a == p {
                }
            }
        }
        k = k + 1;
    }
    proof {
        assert forall|a: GridPos, b: GridPos|
            #[trigger] pathfinding_graph.has_edge(a, b) <==> route_link(sm, cells, a, b) by {
            if route_link(sm, cells, a, b) {
                let i = route_segments_by_pos.index_of(a);
                assert(route_segments_by_pos.has_key(a));
            }
        }
    }
}

/// A segment facing a neighbouring segment that faces it back: both cells are nodes and
/// the bus connection runs both ways.
proof fn lemma_port_node_link(sm: Map<GridPos, RouteSegment>, cells: Set<GridPos>, g: PathfindingGraph, p: GridPos, q: GridPos)
    requires
        seg_port(sm, p, q),
        seg_port(sm, q, p),
    ensures
        route_link(sm, cells, p, q),
        route_link(sm, cells, q, p),
{
}


proof fn lemma_contains_push<A>(s: Seq<A>, x: A, y: A)
    ensures
        s.push(x).contains(y) <==> s.contains(y) || y == x,
{
    if s.contains(y) {
        let i = choose|i: int| 0 <= i < s.len() && s[i] == y;
        assert(s.push(x)[i] == y);
    }
    if y == x {
        assert(s.push(x)[s.len() as int] == y);
    }
    if s.push(x).contains(y) {
        let i = choose|i: int| 0 <= i < s.push(x).len() && s.push(x)[i] == y;
        if i < s.len() {
            assert(s[i] == y);
        }
    }
}


/// Every listed connection is a bus connection when a bus link joins its ends and a walking
/// connection otherwise, costs what its kind costs, and is labelled after the cell it leaves.
pub open spec fn links_labelled(g: &PathfindingGraph, sm: Map<GridPos, RouteSegment>, cells: Set<GridPos>) -> bool {
    forall|k: GridPos, c: Connection|
        #[trigger] g.is_listed(k, c) ==> c.connection_type == (if route_link(sm, cells, k, c.to) {
            ConnectionType::BusRoute
        } else {
            ConnectionType::Walk
        }) && c.cost == connection_cost(c.connection_type) && (c.route_id matches Some(r) && r@
            == route_label(k))
}

proof fn lemma_listed_is_edge(g: &PathfindingGraph, k: GridPos, c: Connection)
    requires
        g.well_formed(),
        g.is_listed(k, c),
    ensures
        g.has_edge(k, c.to),
{
    let (i, j) = choose|i: int, j: int|
        0 <= i < g.connections@.len() && 0 <= j < g.connections@[i].1@.len()
            && g.connections@[i].0 == k && #[trigger] g.connections@[i].1@[j] == c;
    assert(g.connections@[i].1@[j].to == c.to);
    assert(g.raw_edge(k, c.to));
    g.lemma_raw_edge(k, c.to);
}

/// Some station among the first `s` entries of the lookup stands at `x`.
pub open spec fn among_first_stations(g: &PathfindingGraph, s: int, x: GridPos) -> bool {
    exists|i: int| 0 <= i < s && #[trigger] g.station_lookup@[i].1 == x
}

/// Whether the segment has a port towards the station at `station_pos`.
fn segment_can_connect_to_station(segment: &RouteSegment, station_pos: GridPos) -> (r: bool)
    requires
        pos_in_range(segment.grid_pos),
    ensures
        r == has_port(segment.segment_type, segment.grid_pos, station_pos, segment.rotation),
{
    segment.segment_type.has_connection_to(segment.grid_pos, station_pos, segment.rotation)
}

/// Every connection of `g` that `g0` lacks is a walking one, labelled after the cell it
/// leaves, between a station and a segment facing it that `g0` did not join that way.
pub open spec fn new_walk_links(g: &PathfindingGraph, g0: &PathfindingGraph, sm: Map<GridPos, RouteSegment>, cells: Set<GridPos>) -> bool {
    forall|k: GridPos, c: Connection|
        #[trigger] g.is_listed(k, c) ==> g0.is_listed(k, c) || (c.connection_type == ConnectionType::Walk
            && c.cost == connection_cost(ConnectionType::Walk) && (c.route_id matches Some(r) && r@ == route_label(k))
            && !g0.has_edge(k, c.to) && station_link(sm, cells, k, c.to))
}

/// Connects every station, both ways and on foot, to each neighbouring segment that has a
/// port towards it, where no connection between them exists yet.
pub fn create_station_connections_improved(
    pathfinding_graph: &mut PathfindingGraph,
    route_segments_by_pos: &PosMap<RouteSegment>,
)
    requires
        old(pathfinding_graph).well_formed(),
        route_segments_by_pos.well_formed(),
        forall|p: GridPos|
            #[trigger] route_segments_by_pos@.contains_key(p) ==> pos_in_range(p) && old(pathfinding_graph).has_node(p)
                && route_segments_by_pos@[p].grid_pos == p,
        forall|i: int|
            0 <= i < old(pathfinding_graph).station_lookup@.len() ==> pos_in_range(
                #[trigger] old(pathfinding_graph).station_lookup@[i].1,
            ),
    ensures
        final(pathfinding_graph).well_formed(),
        old(pathfinding_graph).links_unique() ==> final(pathfinding_graph).links_unique(),
        final(pathfinding_graph).nodes@ == old(pathfinding_graph).nodes@,
        final(pathfinding_graph).station_lookup@ == old(pathfinding_graph).station_lookup@,
        forall|a: GridPos, b: GridPos|
            #[trigger] final(pathfinding_graph).has_edge(a, b) <==> old(pathfinding_graph).has_edge(a, b)
                || station_link(route_segments_by_pos@, lookup_cells(&*old(pathfinding_graph)), a, b),
        new_walk_links(
            &*final(pathfinding_graph),
            &*old(pathfinding_graph),
            route_segments_by_pos@,
            lookup_cells(&*old(pathfinding_graph)),
        ),
{
    let ghost sm = route_segments_by_pos@;
    let ghost g0 = *pathfinding_graph;
    let ghost cells = lookup_cells(&g0);
    let mut s: usize = 0;
    while s < pathfinding_graph.station_lookup.len()
        invariant
            pathfinding_graph.well_formed(),
            g0.links_unique() ==> pathfinding_graph.links_unique(),
            pathfinding_graph.nodes@ == g0.nodes@,
            pathfinding_graph.station_lookup@ == g0.station_lookup@,
            route_segments_by_pos.well_formed(),
            sm == route_segments_by_pos@,
            cells == lookup_cells(&g0),
            s <= g0.station_lookup@.len(),
            forall|p: GridPos|
                #[trigger] sm.contains_key(p) ==> pos_in_range(p) && g0.has_node(p) && sm[p].grid_pos == p,
            forall|i: int| 0 <= i < g0.station_lookup@.len() ==> pos_in_range(#[trigger] g0.station_lookup@[i].1),
            forall|a: GridPos, b: GridPos|
                #[trigger] pathfinding_graph.has_edge(a, b) <==> g0.has_edge(a, b) || (
                among_first_stations(&g0, s as int, a) && seg_port(sm, b, a)) || (among_first_stations(&g0, s as int, b)
                    && seg_port(sm, a, b)),
            new_walk_links(&*pathfinding_graph, &g0, sm, cells),
        decreases g0.station_lookup@.len() - s,
    {
        let pos = pathfinding_graph.station_lookup[s].1;
        proof {
            assert(pos_in_range(g0.station_lookup@[s as int].1));
            assert(g0.has_node(g0.station_lookup@[s as int].1));
            assert(g0.is_station_position(pos));
            assert(cells.contains(pos));
        }
        let nbrs = get_neighbors(pos);
        let mut m: usize = 0;
        while m < nbrs.len()
            invariant
                pathfinding_graph.well_formed(),
                g0.links_unique() ==> pathfinding_graph.links_unique(),
                pathfinding_graph.nodes@ == g0.nodes@,
                pathfinding_graph.station_lookup@ == g0.station_lookup@,
                route_segments_by_pos.well_formed(),
                sm == route_segments_by_pos@,
                cells == lookup_cells(&g0),
                s < g0.station_lookup@.len(),
                pos == g0.station_lookup@[s as int].1,
                g0.has_node(pos),
                cells.contains(pos),
                nbrs@ == neighbors_of(pos),
                m <= nbrs@.len(),
                forall|p: GridPos|
                    #[trigger] sm.contains_key(p) ==> pos_in_range(p) && g0.has_node(p) && sm[p].grid_pos == p,
                forall|a: GridPos, b: GridPos|
                    #[trigger] pathfinding_graph.has_edge(a, b) <==> g0.has_edge(a, b) || (
                    among_first_stations(&g0, s as int, a) && seg_port(sm, b, a)) || (among_first_stations(&g0, s as int, b)
                        && seg_port(sm, a, b))
                    || (a == pos && nbrs@.take(m as int).contains(b) && seg_port(sm, b, a))
                    || (b == pos && nbrs@.take(m as int).contains(a) && seg_port(sm, a, b)),
                new_walk_links(&*pathfinding_graph, &g0, sm, cells),
            decreases nbrs.len() - m,
        {
            let adj = nbrs[m];
            let ghost gm = *pathfinding_graph;
            match route_segments_by_pos.get(adj) {
                Some(segment) => {
                    if segment_can_connect_to_station(&segment, pos) {
                        proof {
                            assert(seg_port(sm, adj, pos));
                        }
                        add_connection_if_not_exists(pathfinding_graph, pos, adj, ConnectionType::Walk);
                        let ghost gh = *pathfinding_graph;
                        add_connection_if_not_exists(pathfinding_graph, adj, pos, ConnectionType::Walk);
                        proof {
                            let g2 = *pathfinding_graph;
                            assert(station_link(sm, cells, pos, adj));
                            assert(station_link(sm, cells, adj, pos));
                            assert forall|k: GridPos, c: Connection| #[trigger] g2.is_listed(k, c) implies g0.is_listed(k, c)
                                || (c.connection_type == ConnectionType::Walk && c.cost == connection_cost(ConnectionType::Walk)
                                && (c.route_id matches Some(r) && r@ == route_label(k)) && !g0.has_edge(k, c.to)
                                && station_link(sm, cells, k, c.to)) by {
                                if !gh.is_listed(k, c) {
                                    assert(!gh.has_edge(adj, pos));
                                    assert(!gm.has_edge(adj, pos));
                                } else if !gm.is_listed(k, c) {
                                    assert(!gm.has_edge(pos, adj));
                                }
                            }
                        }
                    }
                },
                None => {},
            }
            proof {
                assert(nbrs@.take(m + 1) =~= nbrs@.take(m as int).push(adj));
                assert forall|a: GridPos, b: GridPos|
                    #[trigger] pathfinding_graph.has_edge(a, b) <==> g0.has_edge(a, b) || (
                    among_first_stations(&g0, s as int, a) && seg_port(sm, b, a)) || (among_first_stations(&g0, s as int, b)
                        && seg_port(sm, a, b))
                    || (a == pos && nbrs@.take(m + 1).contains(b) && seg_port(sm, b, a))
                    || (b == pos && nbrs@.take(m + 1).contains(a) && seg_port(sm, a, b)) by {
                    lemma_contains_push(nbrs@.take(m as int), adj, b);
                    lemma_contains_push(nbrs@.take(m as int), adj, a);
                    if sm.contains_key(adj) {
                        assert(sm[adj].grid_pos == adj);
                    }
                }
            }
            m = m + 1;
        }
        proof {
            assert(nbrs@.take(nbrs@.len() as int) =~= nbrs@);
            assert forall|a: GridPos, b: GridPos|
                #[trigger] pathfinding_graph.has_edge(a, b) <==> g0.has_edge(a, b) || (
                among_first_stations(&g0, s + 1, a) && seg_port(sm, b, a)) || (among_first_stations(&g0, s + 1, b)
                    && seg_port(sm, a, b)) by {
                if among_first_stations(&g0, s + 1, a) && !among_first_stations(&g0, s as int, a) {
                    let i = choose|i: int| 0 <= i < s + 1 && #[trigger] g0.station_lookup@[i].1 == a;
                    assert(i == s);
                }
                if among_first_stations(&g0, s + 1, b) && !among_first_stations(&g0, s as int, b) {
                    let i = choose|i: int| 0 <= i < s + 1 && #[trigger] g0.station_lookup@[i].1 == b;
                    assert(i == s);
                }
                if among_first_stations(&g0, s as int, a) {
                    let i = choose|i: int| 0 <= i < s && #[trigger] g0.station_lookup@[i].1 == a;
                    assert(among_first_stations(&g0, s + 1, a));
                }
                if among_first_stations(&g0, s as int, b) {
                    let i = choose|i: int| 0 <= i < s && #[trigger] g0.station_lookup@[i].1 == b;
                    assert(among_first_stations(&g0, s + 1, b));
                }
                if a == pos && seg_port(sm, b, a) {
                    lemma_port_adjacent(sm[b].segment_type, b, a, sm[b].rotation);
                    lemma_adjacent_neighbor(a, b);
                    assert(among_first_stations(&g0, s + 1, a));
                }
                if b == pos && seg_port(sm, a, b) {
                    lemma_port_adjacent(sm[a].segment_type, a, b, sm[a].rotation);
                    lemma_adjacent_neighbor(b, a);
                    assert(among_first_stations(&g0, s + 1, b));
                }
            }
        }
        s = s + 1;
    }
    proof {
        assert forall|a: GridPos, b: GridPos|
            #[trigger] pathfinding_graph.has_edge(a, b) <==> g0.has_edge(a, b) || station_link(sm, cells, a, b) by {
            if cells.contains(a) {
                let i = choose|i: int| 0 <= i < g0.station_lookup@.len() && #[trigger] g0.station_lookup@[i].1 == a;
                assert(among_first_stations(&g0, s as int, a));
            }
            if cells.contains(b) {
                let i = choose|i: int| 0 <= i < g0.station_lookup@.len() && #[trigger] g0.station_lookup@[i].1 == b;
                assert(among_first_stations(&g0, s as int, b));
            }
            if among_first_stations(&g0, s as int, a) {
                let i = choose|i: int| 0 <= i < s && #[trigger] g0.station_lookup@[i].1 == a;
                assert(g0.is_station_position(a));
            }
            if among_first_stations(&g0, s as int, b) {
                let i = choose|i: int| 0 <= i < s && #[trigger] g0.station_lookup@[i].1 == b;
                assert(g0.is_station_position(b));
            }
        }
    }
}

/// A cell beside `a` is one of its four neighbours.
proof fn lemma_adjacent_neighbor(a: GridPos, b: GridPos)
    requires
        pos_in_range(a),
        adjacent(a, b),
    ensures
        neighbors_of(a).contains(b),
{
    let n = neighbors_of(a);
    if b.x == a.x && b.y == a.y - 1 {
        assert(n[0] == b);
    } else if b.x == a.x && b.y == a.y + 1 {
        assert(n[1] == b);
    } else if b.y == a.y && b.x == a.x - 1 {
        assert(n[2] == b);
    } else {
        assert(n[3] == b);
    }
}


/// The segment standing at each cell: the last active segment listed there.
pub open spec fn segment_map(segs: Seq<RouteSegment>) -> Map<GridPos, RouteSegment>
    decreases segs.len(),
{
    if segs.len() == 0 {
        Map::empty()
    } else {
        let m = segment_map(segs.drop_last());
        if segs.last().is_active {
            m.insert(segs.last().grid_pos, segs.last())
        } else {
            m
        }
    }
}

/// The name of the station at each cell: the last station listed there.
pub open spec fn station_cell_names(stations: Seq<Station>) -> Map<GridPos, Seq<char>>
    decreases stations.len(),
{
    if stations.len() == 0 {
        Map::empty()
    } else {
        station_cell_names(stations.drop_last()).insert(stations.last().position, stations.last().name@)
    }
}

/// The cell of each station name: the last station listed under that name.
pub open spec fn station_name_cells(stations: Seq<Station>) -> Map<Seq<char>, GridPos>
    decreases stations.len(),
{
    if stations.len() == 0 {
        Map::empty()
    } else {
        station_name_cells(stations.drop_last()).insert(stations.last().name@, stations.last().position)
    }
}

/// The cells recorded for the station names.
pub open spec fn station_cells(stations: Seq<Station>) -> Set<GridPos> {
    Set::new(|p: GridPos| exists|n: Seq<char>| #[trigger] station_name_cells(stations).contains_key(n)
        && station_name_cells(stations)[n] == p)
}

/// The node kind of a cell that holds a segment.
pub open spec fn segment_node_type(t: RouteSegmentType) -> GraphNodeType {
    if t == RouteSegmentType::Cross || t == RouteSegmentType::TSplit {
        GraphNodeType::Intersection
    } else {
        GraphNodeType::RouteSegment
    }
}

proof fn lemma_segment_map_keys(segs: Seq<RouteSegment>)
    ensures
        forall|p: GridPos| #[trigger] segment_map(segs).contains_key(p) ==> segment_map(segs)[p].grid_pos == p
            && exists|i: int| 0 <= i < segs.len() && #[trigger] segs[i].grid_pos == p,
    decreases segs.len(),
{
    if segs.len() > 0 {
        lemma_segment_map_keys(segs.drop_last());
        assert forall|p: GridPos| #[trigger] segment_map(segs).contains_key(p) implies segment_map(segs)[p].grid_pos == p
            && exists|i: int| 0 <= i < segs.len() && #[trigger] segs[i].grid_pos == p by {
            if segs.last().is_active && p == segs.last().grid_pos {
                assert(segs[segs.len() - 1].grid_pos == p);
            } else {
                let i = choose|i: int| 0 <= i < segs.drop_last().len() && #[trigger] segs.drop_last()[i].grid_pos == p;
                assert(segs[i].grid_pos == p);
            }
        }
    }
}

/// Rebuilds the pathfinding graph from the stations and the active route segments: a node
/// for every station and every segment (a segment replaces a station node at its cell), the
/// station lookup by name, bus connections between facing segments and from segments to
/// the stations they face, and walking connections between stations and the segments
/// facing them.
pub fn update_pathfinding_graph(
    pathfinding_graph: &mut PathfindingGraph,
    route_segments: &Vec<RouteSegment>,
    stations: &Vec<Station>,
)
    requires
        forall|i: int| 0 <= i < route_segments@.len() ==> pos_in_range(#[trigger] route_segments@[i].grid_pos),
        forall|i: int| 0 <= i < stations@.len() ==> pos_in_range(#[trigger] stations@[i].position),
    ensures
        final(pathfinding_graph).well_formed(),
        final(pathfinding_graph).links_unique(),
        forall|p: GridPos|
            #[trigger] final(pathfinding_graph).has_node(p) <==> station_cell_names(stations@).contains_key(p)
                || segment_map(route_segments@).contains_key(p),
        forall|p: GridPos|
            #[trigger] segment_map(route_segments@).contains_key(p) ==> final(pathfinding_graph).node_at(p).node_type
                == segment_node_type(segment_map(route_segments@)[p].segment_type)
                && final(pathfinding_graph).node_at(p).station_name is None
                && final(pathfinding_graph).node_at(p).is_accessible,
        forall|p: GridPos|
            !segment_map(route_segments@).contains_key(p) && #[trigger] station_cell_names(stations@).contains_key(p)
                ==> final(pathfinding_graph).node_at(p).node_type == GraphNodeType::Station
                && (final(pathfinding_graph).node_at(p).station_name matches Some(n) && n@ == station_cell_names(stations@)[p])
                && final(pathfinding_graph).node_at(p).is_accessible,
        forall|n: Seq<char>|
            #[trigger] final(pathfinding_graph).has_station(n) <==> station_name_cells(stations@).contains_key(n),
        forall|n: Seq<char>|
            #[trigger] station_name_cells(stations@).contains_key(n) ==> final(pathfinding_graph).station_position(n)
                == station_name_cells(stations@)[n],
        forall|a: GridPos, b: GridPos|
            #[trigger] final(pathfinding_graph).has_edge(a, b) <==> route_link(
                segment_map(route_segments@),
                station_cells(stations@),
                a,
                b,
            ) || station_link(segment_map(route_segments@), station_cells(stations@), a, b),
        links_labelled(&*final(pathfinding_graph), segment_map(route_segments@), station_cells(stations@)),
        final(pathfinding_graph).is_symmetric(),
{
    pathfinding_graph.connections.clear();
    pathfinding_graph.nodes.clear();
    pathfinding_graph.station_lookup.clear();
    let ghost st = stations@;
    let ghost segs = route_segments@;
    proof {
        assert(pathfinding_graph.well_formed());
        assert(station_cell_names(st.take(0)) =~= Map::empty());
        assert(station_name_cells(st.take(0)) =~= Map::empty());
    }
    let mut i: usize = 0;
    while i < stations.len()
        invariant
            st == stations@,
            pathfinding_graph.well_formed(),
            pathfinding_graph.links_unique(),
            pathfinding_graph.connections@.len() == 0,
            i <= st.len(),
            forall|k: int| 0 <= k < st.len() ==> pos_in_range(#[trigger] st[k].position),
            forall|p: GridPos|
                #[trigger] pathfinding_graph.has_node(p) <==> station_cell_names(st.take(i as int)).contains_key(p),
            forall|p: GridPos|
                #[trigger] station_cell_names(st.take(i as int)).contains_key(p) ==> pathfinding_graph.node_at(p).node_type
                    == GraphNodeType::Station && (pathfinding_graph.node_at(p).station_name matches Some(n) && n@
                    == station_cell_names(st.take(i as int))[p]) && pathfinding_graph.node_at(p).is_accessible,
            forall|n: Seq<char>|
                #[trigger] pathfinding_graph.has_station(n) <==> station_name_cells(st.take(i as int)).contains_key(n),
            forall|n: Seq<char>|
                #[trigger] station_name_cells(st.take(i as int)).contains_key(n) ==> pathfinding_graph.station_position(n)
                    == station_name_cells(st.take(i as int))[n],
            forall|p: GridPos|
                #[trigger] pathfinding_graph.is_station_position(p) <==> (exists|n: Seq<char>|
                    #[trigger] pathfinding_graph.has_station(n) && pathfinding_graph.station_position(n) == p),
        decreases st.len() - i,
    {
        let station = &stations[i];
        let pos = station.position;
        let ghost gi = *pathfinding_graph;
        proof {
            assert(st.take(i + 1).drop_last() =~= st.take(i as int));
            assert(st.take(i + 1).last() == st[i as int]);
            assert(station_cell_names(st.take(i + 1)) == station_cell_names(st.take(i as int)).insert(pos, st[i as int].name@));
            assert(station_name_cells(st.take(i + 1)) == station_name_cells(st.take(i as int)).insert(st[i as int].name@, pos));
        }
        insert_node(
            pathfinding_graph,
            GraphNode {
                position: pos,
                node_type: GraphNodeType::Station,
                station_name: Some(station.name.clone()),
                is_accessible: true,
            },
        );
        let ghost g1 = *pathfinding_graph;
        insert_station(pathfinding_graph, station.name.clone(), pos);
        proof {
            let g2 = *pathfinding_graph;
            assert forall|p: GridPos| #[trigger] g2.has_node(p) <==> station_cell_names(st.take(i + 1)).contains_key(p) by {
                assert(g2.has_node(p) == g1.has_node(p));
            }
            assert forall|p: GridPos| g2.has_node(p) implies #[trigger] g2.node_at(p) == g1.node_at(p) by {}
            assert forall|n: Seq<char>| #[trigger] g1.has_station(n) == gi.has_station(n) by {}
            assert forall|n: Seq<char>| #[trigger] g2.has_station(n) <==> station_name_cells(st.take(i + 1)).contains_key(n) by {
                assert(g1.has_station(n) == gi.has_station(n));
            }
            assert forall|p: GridPos|
                #[trigger] station_cell_names(st.take(i + 1)).contains_key(p) implies g2.node_at(p).node_type
                    == GraphNodeType::Station && (g2.node_at(p).station_name matches Some(n) && n@
                    == station_cell_names(st.take(i + 1))[p]) && g2.node_at(p).is_accessible by {
                if p != pos {
                    assert(gi.has_node(p));
                }
            }
            assert forall|n: Seq<char>|
                #[trigger] station_name_cells(st.take(i + 1)).contains_key(n) implies g2.station_position(n)
                    == station_name_cells(st.take(i + 1))[n] by {
                if n != st[i as int].name@ {
                    assert(gi.has_station(n));
                }
            }
        }
        i = i + 1;
    }
    proof {
        assert(st.take(st.len() as int) =~= st);
        assert forall|p: GridPos| #[trigger] lookup_cells(&*pathfinding_graph).contains(p) <==> station_cells(st).contains(p) by {
            if pathfinding_graph.is_station_position(p) {
                let n = choose|n: Seq<char>| #[trigger] pathfinding_graph.has_station(n) && pathfinding_graph.station_position(n) == p;
                assert(station_name_cells(st).contains_key(n));
            }
            if station_cells(st).contains(p) {
                let n = choose|n: Seq<char>| #[trigger] station_name_cells(st).contains_key(n) && station_name_cells(st)[n] == p;
                assert(pathfinding_graph.has_station(n));
            }
        }
        assert(lookup_cells(&*pathfinding_graph) =~= station_cells(st));
    }
    let ghost g_after_stations = *pathfinding_graph;
    let mut route_segments_by_pos: PosMap<RouteSegment> = PosMap::new();
    proof {
        assert(segment_map(segs.take(0)) =~= Map::empty());
    }
    let mut j: usize = 0;
    while j < route_segments.len()
        invariant
            segs == route_segments@,
            st == stations@,
            pathfinding_graph.well_formed(),
            pathfinding_graph.links_unique(),
            pathfinding_graph.connections@.len() == 0,
            pathfinding_graph.station_lookup@ == g_after_stations.station_lookup@,
            route_segments_by_pos.well_formed(),
            route_segments_by_pos@ == segment_map(segs.take(j as int)),
            j <= segs.len(),
            forall|k: int| 0 <= k < segs.len() ==> pos_in_range(#[trigger] segs[k].grid_pos),
            forall|p: GridPos|
                #[trigger] pathfinding_graph.has_node(p) <==> station_cell_names(st).contains_key(p)
                    || segment_map(segs.take(j as int)).contains_key(p),
            forall|p: GridPos|
                #[trigger] segment_map(segs.take(j as int)).contains_key(p) ==> pathfinding_graph.node_at(p).node_type
                    == segment_node_type(segment_map(segs.take(j as int))[p].segment_type)
                    && pathfinding_graph.node_at(p).station_name is None
                    && pathfinding_graph.node_at(p).is_accessible,
            forall|p: GridPos|
                !segment_map(segs.take(j as int)).contains_key(p) && #[trigger] station_cell_names(st).contains_key(p)
                    ==> pathfinding_graph.node_at(p).node_type == GraphNodeType::Station
                    && (pathfinding_graph.node_at(p).station_name matches Some(n) && n@ == station_cell_names(st)[p])
                    && pathfinding_graph.node_at(p).is_accessible,
        decreases segs.len() - j,
    {
        let segment = route_segments[j];
        let ghost gj = *pathfinding_graph;
        proof {
            assert(segs.take(j + 1).drop_last() =~= segs.take(j as int));
            assert(segs.take(j + 1).last() == segs[j as int]);
        }
        if segment.is_active {
            let pos = segment.grid_pos;
            let node_type = match segment.segment_type {
                RouteSegmentType::Cross | RouteSegmentType::TSplit => GraphNodeType::Intersection,
                _ => GraphNodeType::RouteSegment,
            };
            insert_node(
                pathfinding_graph,
                GraphNode { position: pos, node_type, station_name: None, is_accessible: true },
            );
            route_segments_by_pos.insert(pos, segment);
            proof {
                let g2 = *pathfinding_graph;
                assert forall|p: GridPos|
                    #[trigger] segment_map(segs.take(j + 1)).contains_key(p) implies g2.node_at(p).node_type
                        == segment_node_type(segment_map(segs.take(j + 1))[p].segment_type)
                        && g2.node_at(p).station_name is None
                        && g2.node_at(p).is_accessible by {
                    if p != pos {
                        assert(gj.has_node(p));
                    }
                }
                assert forall|p: GridPos|
                    !segment_map(segs.take(j + 1)).contains_key(p) && #[trigger] station_cell_names(st).contains_key(p)
                        implies g2.node_at(p).node_type == GraphNodeType::Station
                        && (g2.node_at(p).station_name matches Some(n) && n@ == station_cell_names(st)[p])
                        && g2.node_at(p).is_accessible by {
                    assert(gj.has_node(p));
                }
            }
        }
        j = j + 1;
    }
    proof {
        assert(segs.take(segs.len() as int) =~= segs);
        lemma_segment_map_keys(segs);
        assert forall|p: GridPos| #[trigger] route_segments_by_pos@.contains_key(p) implies pos_in_range(p)
            && pathfinding_graph.has_node(p) && route_segments_by_pos@[p].grid_pos == p by {
            let k = choose|k: int| 0 <= k < segs.len() && #[trigger] segs[k].grid_pos == p;
        }
        assert(lookup_cells(&*pathfinding_graph) =~= station_cells(st));
    }
    let ghost g_nodes = *pathfinding_graph;
    create_route_connections_improved(pathfinding_graph, &route_segments_by_pos);
    proof {
        let g3 = *pathfinding_graph;
        assert(lookup_cells(&g3) =~= station_cells(st));
        assert forall|k: GridPos, c: Connection| #[trigger] g3.is_listed(k, c) implies
            c.connection_type == (if route_link(route_segments_by_pos@, station_cells(st), k, c.to) {
                ConnectionType::BusRoute
            } else {
                ConnectionType::Walk
            }) && c.cost == connection_cost(c.connection_type) && (c.route_id matches Some(r) && r@
                == route_label(k)) by {
            lemma_listed_is_edge(&g3, k, c);
        }
        assert forall|ix: int| 0 <= ix < g3.station_lookup@.len() implies pos_in_range(#[trigger] g3.station_lookup@[ix].1) by {
            assert(g3.is_station_position(g3.station_lookup@[ix].1));
            assert(station_cells(st).contains(g3.station_lookup@[ix].1));
            let n = choose|n: Seq<char>| #[trigger] station_name_cells(st).contains_key(n) && station_name_cells(st)[n] == g3.station_lookup@[ix].1;
            lemma_station_name_cells_in(st, n);
        }
    }
    create_station_connections_improved(pathfinding_graph, &route_segments_by_pos);
    proof {
        let gf = *pathfinding_graph;
        assert(lookup_cells(&gf) =~= station_cells(st));
        assert forall|p: GridPos| #[trigger] gf.has_node(p) == g_nodes.has_node(p) by {}
        assert forall|p: GridPos| gf.has_node(p) implies #[trigger] gf.node_at(p) == g_nodes.node_at(p) by {}
        assert forall|n: Seq<char>| #[trigger] gf.has_station(n) == g_after_stations.has_station(n) by {}
        assert forall|n: Seq<char>| #[trigger] gf.station_position(n) == g_after_stations.station_position(n) by {}
        assert forall|a: GridPos, b: GridPos| #[trigger] gf.has_edge(a, b) implies gf.has_edge(b, a) by {
            law_links_run_both_ways(segment_map(route_segments@), station_cells(stations@), a, b);
        }
    }
}

proof fn lemma_station_name_cells_in(st: Seq<Station>, n: Seq<char>)
    requires
        station_name_cells(st).contains_key(n),
    ensures
        exists|k: int| 0 <= k < st.len() && #[trigger] st[k].position == station_name_cells(st)[n],
    decreases st.len(),
{
    if st.last().name@ == n {
        assert(st[st.len() - 1].position == station_name_cells(st)[n]);
    } else {
        lemma_station_name_cells_in(st.drop_last(), n);
        let k = choose|k: int| 0 <= k < st.drop_last().len() && #[trigger] st.drop_last()[k].position
            == station_name_cells(st.drop_last())[n];
        assert(st[k].position == station_name_cells(st)[n]);
    }
}

} // verus!
