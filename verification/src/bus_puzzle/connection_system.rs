use vstd::prelude::*;

use crate::bus_puzzle::components::{
    connection_offsets, connection_positions, direction_offset, grid_distance, has_port,
    lemma_offsets_are_unit, lemma_port_adjacent, offset_direction, pos_in_range, shifted,
    is_unit_offset, ConnectionDirection, GridPos, RouteSegment, RouteSegmentType,
};
use crate::bus_puzzle::level_system::Station;
use crate::bus_puzzle::pathfinding::{
    insert_node, insert_station, segment_map, segment_node_type, station_cell_names,
    station_name_cells,
};
use crate::bus_puzzle::resources::{Connection, ConnectionType, GraphNode, GraphNodeType, PathfindingGraph};
use crate::bus_puzzle::text::{decimal_text, int_to_string, owned, prefixed_number};
use crate::bus_puzzle::utils::manhattan_distance;

verus! {

/// The ports of a segment at `pos`, each with the direction it faces and the cell it
/// reaches, in the order of the segment's connection offsets.
pub fn get_segment_connection_ports(pos: GridPos, segment_type: &RouteSegmentType, rotation: u32) -> (r: Vec<(ConnectionDirection, GridPos)>)
    requires
        pos_in_range(pos),
    ensures
        r@.len() == connection_offsets(*segment_type, rotation).len(),
        forall|k: int|
            #![trigger r@[k]]
            0 <= k < r@.len() ==> direction_offset(r@[k].0) == connection_offsets(*segment_type, rotation)[k]
                && r@[k].1 == connection_positions(*segment_type, pos, rotation)[k],
{
    let offsets = segment_type.get_connection_offsets(rotation);
    proof {
        lemma_offsets_are_unit(*segment_type, rotation);
    }
    let mut ports: Vec<(ConnectionDirection, GridPos)> = Vec::new();
    let mut i: usize = 0;
    while i < offsets.len()
        invariant
            offsets@ == connection_offsets(*segment_type, rotation),
            pos_in_range(pos),
            i <= offsets@.len(),
            ports@.len() == i,
            forall|k: int| 0 <= k < offsets@.len() ==> is_unit_offset(#[trigger] offsets@[k]),
            forall|k: int|
                0 <= k < i ==> direction_offset(#[trigger] ports@[k].0) == offsets@[k] && ports@[k].1
                    == shifted(pos, offsets@[k]),
        decreases offsets.len() - i,
    {
        let (dx, dy) = offsets[i];
        assert(is_unit_offset(offsets@[i as int]));
        match ConnectionDirection::from_offset(dx, dy) {
            Some(dir) => {
                ports.push((dir, GridPos::new(pos.x + dx, pos.y + dy)));
            },
            None => {
                assert(false);
            },
        }
        i = i + 1;
    }
    proof {
        assert forall|k: int|
            #![trigger ports@[k]]
            0 <= k < ports@.len() implies direction_offset(ports@[k].0) == connection_offsets(*segment_type, rotation)[k]
                && ports@[k].1 == connection_positions(*segment_type, pos, rotation)[k] by {
            assert(connection_positions(*segment_type, pos, rotation)[k] == shifted(pos, offsets@[k]));
        }
    }
    ports
}

/// Whether the segment has a port facing the cell `target_pos`.
pub fn segment_has_port_facing(segment: &RouteSegment, target_pos: GridPos) -> (r: bool)
    requires
        pos_in_range(segment.grid_pos),
    ensures
        r == has_port(segment.segment_type, segment.grid_pos, target_pos, segment.rotation),
{
    segment.segment_type.has_connection_to(segment.grid_pos, target_pos, segment.rotation)
}

/// The direction of the step from `from` to `to`, when they are neighbours.
pub fn get_direction_between(from: GridPos, to: GridPos) -> (r: Option<ConnectionDirection>)
    requires
        i32::MIN <= to.x - from.x <= i32::MAX,
        i32::MIN <= to.y - from.y <= i32::MAX,
    ensures
        r == offset_direction(((to.x - from.x) as i32, (to.y - from.y) as i32)),
{
    let dx = to.x - from.x;
    let dy = to.y - from.y;
    ConnectionDirection::from_offset(dx, dy)
}

/// The Manhattan distance of two cells can be computed in `i32` arithmetic.
pub open spec fn distance_fits(a: GridPos, b: GridPos) -> bool {
    &&& -i32::MAX <= a.x - b.x <= i32::MAX
    &&& -i32::MAX <= a.y - b.y <= i32::MAX
    &&& grid_distance(a, b) <= i32::MAX
}

/// A station can use a segment that stands on its own cell or that has a port facing it.
pub open spec fn station_reaches_segment(station_pos: GridPos, segment: RouteSegment) -> bool {
    station_pos == segment.grid_pos || has_port(
        segment.segment_type,
        segment.grid_pos,
        station_pos,
        segment.rotation,
    )
}

/// Whether a station at `station_pos` connects to the segment: on its own cell always,
/// beside it when the segment's port faces the station, and farther away when a port of
/// the segment reaches the station's cell.
pub fn can_station_connect_to_segment_directional(station_pos: GridPos, segment: &RouteSegment) -> (r: bool)
    requires
        pos_in_range(segment.grid_pos),
        distance_fits(station_pos, segment.grid_pos),
    ensures
        r == station_reaches_segment(station_pos, *segment),
{
    let distance = manhattan_distance(station_pos, segment.grid_pos);
    if distance == 1 {
        segment_has_port_facing(segment, station_pos)
    } else if distance == 0 {
        true
    } else {
        let ports = get_segment_connection_ports(segment.grid_pos, &segment.segment_type, segment.rotation);
        let mut i: usize = 0;
        while i < ports.len()
            invariant
                i <= ports@.len(),
                ports@.len() == connection_positions(segment.segment_type, segment.grid_pos, segment.rotation).len(),
                pos_in_range(segment.grid_pos),
                grid_distance(station_pos, segment.grid_pos) >= 2,
                forall|k: int|
                    #![trigger ports@[k]]
                    0 <= k < ports@.len() ==> ports@[k].1 == connection_positions(
                        segment.segment_type,
                        segment.grid_pos,
                        segment.rotation,
                    )[k],
                forall|k: int| 0 <= k < i ==> ports@[k].1 != station_pos,
            decreases ports.len() - i,
        {
            if ports[i].1 == station_pos {
                proof {
                    assert(connection_positions(segment.segment_type, segment.grid_pos, segment.rotation)[i as int] == station_pos);
                    lemma_port_adjacent(segment.segment_type, segment.grid_pos, station_pos, segment.rotation);
                }
                assert(false);
                return true;
            }
            i = i + 1;
        }
        proof {
            if has_port(segment.segment_type, segment.grid_pos, station_pos, segment.rotation) {
                lemma_port_adjacent(segment.segment_type, segment.grid_pos, station_pos, segment.rotation);
            }
        }
        false
    }
}

/// Why a station at `station_pos` does or does not connect to the segment.
pub open spec fn connection_reason(station_pos: GridPos, segment: RouteSegment) -> Seq<char> {
    let d = grid_distance(station_pos, segment.grid_pos);
    if d == 0 {
        "重叠位置"@
    } else if d == 1 {
        if has_port(segment.segment_type, segment.grid_pos, station_pos, segment.rotation) {
            "直接相邻且路线段有朝向站点的端口"@
        } else {
            "直接相邻但路线段没有朝向站点的端口"@
        }
    } else if has_port(segment.segment_type, segment.grid_pos, station_pos, segment.rotation) {
        "站点位于路线段的端口位置"@
    } else {
        "距离过远且不在端口位置"@
    }
}

/// A description of why a station at `station_pos` does or does not connect to the segment.
pub fn get_connection_reason(station_pos: GridPos, segment: &RouteSegment) -> (r: String)
    requires
        pos_in_range(segment.grid_pos),
        distance_fits(station_pos, segment.grid_pos),
    ensures
        r@ == connection_reason(station_pos, *segment),
{
    let distance = manhattan_distance(station_pos, segment.grid_pos);
    if distance == 0 {
        owned("重叠位置")
    } else if distance == 1 {
        if segment.segment_type.has_connection_to(segment.grid_pos, station_pos, segment.rotation) {
            owned("直接相邻且路线段有朝向站点的端口")
        } else {
            owned("直接相邻但路线段没有朝向站点的端口")
        }
    } else {
        let positions = segment.segment_type.get_connection_positions(segment.grid_pos, segment.rotation);
        let mut found = false;
        let mut i: usize = 0;
        while i < positions.len()
            invariant
                i <= positions@.len(),
                found == exists|k: int| 0 <= k < i && positions@[k] == station_pos,
            decreases positions.len() - i,
        {
            if positions[i] == station_pos {
                found = true;
            }
            i = i + 1;
        }
        if found {
            owned("站点位于路线段的端口位置")
        } else {
            owned("距离过远且不在端口位置")
        }
    }
}

/// The route label given to a connection that leaves `p`: `route_`, the column, `_` and
/// the row.
pub open spec fn cell_route_label(p: GridPos) -> Seq<char> {
    "route_"@ + decimal_text(p.x as int) + "_"@ + decimal_text(p.y as int)
}

fn cell_label(p: GridPos) -> (r: String)
    ensures
        r@ == cell_route_label(p),
{
    let mut s = prefixed_number("route_", p.x as i128);
    s.append("_");
    let y = int_to_string(p.y as i128);
    s.append(y.as_str());
    s
}

/// Appends the connection `conn` to the list of `from`, opening a list when `from` has none.
fn push_connection(g: &mut PathfindingGraph, from: GridPos, conn: Connection)
    requires
        old(g).well_formed(),
        old(g).has_node(from),
        old(g).has_node(conn.to),
    ensures
        final(g).well_formed(),
        final(g).nodes@ == old(g).nodes@,
        final(g).station_lookup@ == old(g).station_lookup@,
        forall|a: GridPos, b: GridPos, t: ConnectionType|
            #[trigger] final(g).has_link(a, b, t) <==> old(g).has_link(a, b, t) || (a == from && b == conn.to
                && t == conn.connection_type),
        forall|k: GridPos, c: Connection|
            #[trigger] final(g).is_listed(k, c) ==> old(g).is_listed(k, c) || (k == from && c == conn),
        forall|k: GridPos|
            #[trigger] final(g).edges_from(k) == (if k == from {
                old(g).edges_from(k).push(conn)
            } else {
                old(g).edges_from(k)
            }),
{
    let ghost g0 = *old(g);
    let ghost c0 = conn;
    let mut i: usize = 0;
    while i < g.connections.len() && g.connections[i].0 != from
        invariant
            *g == g0,
            i <= g0.connections@.len(),
            forall|k: int| 0 <= k < i ==> g0.connections@[k].0 != from,
        decreases g.connections.len() - i,
    {
        i = i + 1;
    }
    if i < g.connections.len() {
        let ghost n = g0.connections@[i as int].1@.len();
        g.connections[i].1.push(conn);
        proof {
            let g1 = *g;
            assert(g1.connections@.len() == g0.connections@.len());
            assert forall|a: int| 0 <= a < g1.connections@.len() && a != i implies #[trigger] g1.connections@[a] == g0.connections@[a] by {}
            assert(g1.connections@[i as int].0 == from);
            assert(g1.connections@[i as int].1@ == g0.connections@[i as int].1@.push(c0));
            assert(g1.well_formed()) by {
                assert forall|a: int, b: int|
                    0 <= a < g1.connections@.len() && 0 <= b < g1.connections@[a].1@.len()
                        implies g1.has_node(#[trigger] g1.connections@[a].1@[b].to) by {
                    if a == i && b == n {
                        assert(g1.has_node(c0.to));
                    } else if a == i {
                        assert(g1.connections@[a].1@[b] == g0.connections@[a].1@[b]);
                    }
                }
                assert forall|a: int, b: int|
                    0 <= a < b < g1.connections@.len() implies #[trigger] g1.connections@[a].0
                        != #[trigger] g1.connections@[b].0 by {
                    assert(g0.connections@[a].0 != g0.connections@[b].0);
                }
                assert forall|a: int| 0 <= a < g1.connections@.len() implies g1.has_node(#[trigger] g1.connections@[a].0) by {
                    assert(g0.has_node(g0.connections@[a].0));
                }
            }
            assert forall|a: GridPos, b: GridPos, t: ConnectionType|
                #[trigger] g1.has_link(a, b, t) <==> g0.has_link(a, b, t) || (a == from && b == c0.to
                    && t == c0.connection_type) by {
                if g1.has_link(a, b, t) {
                    let (x, y) = choose|x: int, y: int|
                        0 <= x < g1.connections@.len() && 0 <= y < g1.connections@[x].1@.len()
                            && g1.connections@[x].0 == a && #[trigger] g1.connections@[x].1@[y].to == b
                            && g1.connections@[x].1@[y].connection_type == t;
                    if !(x == i && y == n) {
                        assert(g0.connections@[x].1@[y] == g1.connections@[x].1@[y]);
                    }
                }
                if g0.has_link(a, b, t) {
                    let (x, y) = choose|x: int, y: int|
                        0 <= x < g0.connections@.len() && 0 <= y < g0.connections@[x].1@.len()
                            && g0.connections@[x].0 == a && #[trigger] g0.connections@[x].1@[y].to == b
                            && g0.connections@[x].1@[y].connection_type == t;
                    assert(g1.connections@[x].1@[y] == g0.connections@[x].1@[y]);
                }
                if a == from && b == c0.to && t == c0.connection_type {
                    assert(g1.connections@[i as int].1@[n as int] == c0);
                }
            }
            assert forall|k: GridPos, c: Connection| #[trigger] g1.is_listed(k, c) implies g0.is_listed(k, c)
                || (k == from && c == c0) by {
                let (x, y) = choose|x: int, y: int|
                    0 <= x < g1.connections@.len() && 0 <= y < g1.connections@[x].1@.len()
                        && g1.connections@[x].0 == k && #[trigger] g1.connections@[x].1@[y] == c;
                if !(x == i && y == n) {
                    assert(g0.connections@[x].1@[y] == g1.connections@[x].1@[y]);
                }
            }
            assert forall|k: GridPos| #[trigger] g1.edges_from(k) == (if k == from {
                g0.edges_from(k).push(c0)
            } else {
                g0.edges_from(k)
            }) by {
                if g0.has_entry(k) {
                    let e = g0.entry_index(k);
                    g1.lemma_entry_index(e);
                    if e == i as int {
                        g0.lemma_entry_index(e);
                    }
                } else {
                    assert(g0.connections@[i as int].0 == from);
                    assert(!g1.has_entry(k));
                }
            }
        }
    } else {
        let mut list: Vec<Connection> = Vec::new();
        list.push(conn);
        g.connections.push((from, list));
        proof {
            let g1 = *g;
            let n = g0.connections@.len() as int;
            assert forall|a: int| 0 <= a < n implies #[trigger] g1.connections@[a] == g0.connections@[a] by {}
            assert(g1.connections@[n].0 == from);
            assert(g1.connections@[n].1@ == seq![c0]);
            assert(g1.well_formed()) by {
                assert forall|a: int, b: int|
                    0 <= a < b < g1.connections@.len() implies #[trigger] g1.connections@[a].0
                        != #[trigger] g1.connections@[b].0 by {
                    if b == n {
                        assert(g0.connections@[a].0 != from);
                    } else {
                        assert(g0.connections@[a].0 != g0.connections@[b].0);
                    }
                }
                assert forall|a: int, b: int|
                    0 <= a < g1.connections@.len() && 0 <= b < g1.connections@[a].1@.len()
                        implies g1.has_node(#[trigger] g1.connections@[a].1@[b].to) by {
                    if a < n {
                        assert(g0.has_node(g0.connections@[a].1@[b].to));
                    }
                }
                assert forall|a: int| 0 <= a < g1.connections@.len() implies g1.has_node(#[trigger] g1.connections@[a].0) by {
                    if a < n {
                        assert(g0.has_node(g0.connections@[a].0));
                    }
                }
            }
            assert forall|a: GridPos, b: GridPos, t: ConnectionType|
                #[trigger] g1.has_link(a, b, t) <==> g0.has_link(a, b, t) || (a == from && b == c0.to
                    && t == c0.connection_type) by {
                if g1.has_link(a, b, t) {
                    let (x, y) = choose|x: int, y: int|
                        0 <= x < g1.connections@.len() && 0 <= y < g1.connections@[x].1@.len()
                            && g1.connections@[x].0 == a && #[trigger] g1.connections@[x].1@[y].to == b
                            && g1.connections@[x].1@[y].connection_type == t;
                    if x < n {
                        assert(g0.connections@[x].1@[y] == g1.connections@[x].1@[y]);
                    }
                }
                if g0.has_link(a, b, t) {
                    let (x, y) = choose|x: int, y: int|
                        0 <= x < g0.connections@.len() && 0 <= y < g0.connections@[x].1@.len()
                            && g0.connections@[x].0 == a && #[trigger] g0.connections@[x].1@[y].to == b
                            && g0.connections@[x].1@[y].connection_type == t;
                    assert(g1.connections@[x].1@[y] == g0.connections@[x].1@[y]);
                }
                if a == from && b == c0.to && t == c0.connection_type {
                    assert(g1.connections@[n].1@[0] == c0);
                }
            }
            assert forall|k: GridPos, c: Connection| #[trigger] g1.is_listed(k, c) implies g0.is_listed(k, c)
                || (k == from && c == c0) by {
                let (x, y) = choose|x: int, y: int|
                    0 <= x < g1.connections@.len() && 0 <= y < g1.connections@[x].1@.len()
                        && g1.connections@[x].0 == k && #[trigger] g1.connections@[x].1@[y] == c;
                if x < n {
                    assert(g0.connections@[x].1@[y] == g1.connections@[x].1@[y]);
                }
            }
            assert forall|k: GridPos| #[trigger] g1.edges_from(k) == (if k == from {
                g0.edges_from(k).push(c0)
            } else {
                g0.edges_from(k)
            }) by {
                if k == from {
                    g1.lemma_entry_index(n);
                    assert(!g0.has_entry(k));
                    assert(g0.edges_from(k).push(c0) =~= seq![c0]);
                } else if g0.has_entry(k) {
                    let e = g0.entry_index(k);
                    g1.lemma_entry_index(e);
                } else {
                    assert(!g1.has_entry(k));
                }
            }
        }
    }
}

/// Every listed connection that is not in `g0` has the cost of its kind and the route label
/// of the cell it leaves.
pub open spec fn new_links_labelled(g: &PathfindingGraph, g0: &PathfindingGraph) -> bool {
    forall|k: GridPos, c: Connection|
        #[trigger] g.is_listed(k, c) ==> g0.is_listed(k, c) || (c.cost == crate::bus_puzzle::resources::connection_cost(c.connection_type)
            && (c.route_id matches Some(r) && r@ == cell_route_label(k)))
}

/// `c` is a connection of kind `t` to `to` with the cost of its kind, labelled after the cell
/// `from` that it leaves.
pub open spec fn fresh_link(c: Connection, to: GridPos, from: GridPos, t: ConnectionType) -> bool {
    &&& c.to == to
    &&& c.connection_type == t
    &&& c.cost == crate::bus_puzzle::resources::connection_cost(t)
    &&& c.route_id matches Some(r) && r@ == cell_route_label(from)
}

/// Connects `pos_a` and `pos_b` both ways with connections of kind `connection_type`, each
/// labelled after the cell it leaves and appended to that cell's list; connections already
/// present are kept, so a pair can be listed more than once.
pub fn create_bidirectional_connection(
    pathfinding_graph: &mut PathfindingGraph,
    pos_a: GridPos,
    pos_b: GridPos,
    connection_type: ConnectionType,
)
    requires
        old(pathfinding_graph).well_formed(),
        old(pathfinding_graph).has_node(pos_a),
        old(pathfinding_graph).has_node(pos_b),
    ensures
        final(pathfinding_graph).well_formed(),
        final(pathfinding_graph).nodes@ == old(pathfinding_graph).nodes@,
        final(pathfinding_graph).station_lookup@ == old(pathfinding_graph).station_lookup@,
        forall|a: GridPos, b: GridPos, t: ConnectionType|
            #[trigger] final(pathfinding_graph).has_link(a, b, t) <==> old(pathfinding_graph).has_link(a, b, t)
                || (t == connection_type && ((a == pos_a && b == pos_b) || (a == pos_b && b == pos_a))),
        forall|k: GridPos, c: Connection|
            #[trigger] final(pathfinding_graph).is_listed(k, c) ==> old(pathfinding_graph).is_listed(k, c)
                || (c.connection_type == connection_type && c.cost == crate::bus_puzzle::resources::connection_cost(connection_type)
                && (c.route_id matches Some(r) && r@ == cell_route_label(k))
                && ((k == pos_a && c.to == pos_b) || (k == pos_b && c.to == pos_a))),
        forall|k: GridPos|
            k != pos_a && k != pos_b ==> #[trigger] final(pathfinding_graph).edges_from(k)
                == old(pathfinding_graph).edges_from(k),
        pos_a != pos_b ==> {
            let fa = final(pathfinding_graph).edges_from(pos_a);
            let fb = final(pathfinding_graph).edges_from(pos_b);
            &&& fa.len() == old(pathfinding_graph).edges_from(pos_a).len() + 1
            &&& fa.drop_last() == old(pathfinding_graph).edges_from(pos_a)
            &&& fresh_link(fa.last(), pos_b, pos_a, connection_type)
            &&& fb.len() == old(pathfinding_graph).edges_from(pos_b).len() + 1
            &&& fb.drop_last() == old(pathfinding_graph).edges_from(pos_b)
            &&& fresh_link(fb.last(), pos_a, pos_b, connection_type)
        },
        pos_a == pos_b ==> {
            let fa = final(pathfinding_graph).edges_from(pos_a);
            let n = old(pathfinding_graph).edges_from(pos_a).len();
            &&& fa.len() == n + 2
            &&& fa.subrange(0, n as int) == old(pathfinding_graph).edges_from(pos_a)
            &&& fresh_link(fa[n as int], pos_a, pos_a, connection_type)
            &&& fresh_link(fa[n + 1int], pos_a, pos_a, connection_type)
        },
{
    let cost: u32 = match connection_type {
        ConnectionType::Walk => 1,
        ConnectionType::BusRoute => 2,
        ConnectionType::Transfer => 4,
    };
    let label_a = cell_label(pos_a);
    let label_b = cell_label(pos_b);
    let ghost g0 = *pathfinding_graph;
    push_connection(
        pathfinding_graph,
        pos_a,
        Connection { to: pos_b, cost, route_id: Some(label_a), connection_type },
    );
    let ghost g1 = *pathfinding_graph;
    push_connection(
        pathfinding_graph,
        pos_b,
        Connection { to: pos_a, cost, route_id: Some(label_b), connection_type },
    );
    proof {
        let g2 = *pathfinding_graph;
        assert(g1.edges_from(pos_a) == g0.edges_from(pos_a).push(g1.edges_from(pos_a).last()));
        if pos_a != pos_b {
            assert(g2.edges_from(pos_a).drop_last() =~= g0.edges_from(pos_a));
            assert(g2.edges_from(pos_b).drop_last() =~= g0.edges_from(pos_b));
        } else {
            let n = g0.edges_from(pos_a).len();
            assert(g2.edges_from(pos_a).subrange(0, n as int) =~= g0.edges_from(pos_a));
        }
    }
}

/// `node` is the node of a station named `name`.
pub open spec fn station_node_ok(node: GraphNode, name: Seq<char>) -> bool {
    &&& node.node_type == GraphNodeType::Station
    &&& node.station_name matches Some(s) && s@ == name
    &&& node.is_accessible
}

/// `node` is the node of a segment of kind `t`.
pub open spec fn segment_node_ok(node: GraphNode, t: RouteSegmentType) -> bool {
    &&& node.node_type == segment_node_type(t)
    &&& node.station_name is None
    &&& node.is_accessible
}

/// Adds a node for every station, in order (a later station replaces an earlier node at
/// its cell), and records each station's cell under its name.
fn add_station_nodes(g: &mut PathfindingGraph, stations: &Vec<Station>)
    requires
        old(g).well_formed(),
    ensures
        final(g).well_formed(),
        final(g).connections@ == old(g).connections@,
        forall|p: GridPos|
            #[trigger] final(g).has_node(p) <==> old(g).has_node(p) || station_cell_names(stations@).contains_key(p),
        forall|p: GridPos|
            #[trigger] station_cell_names(stations@).contains_key(p) ==> station_node_ok(
                final(g).node_at(p),
                station_cell_names(stations@)[p],
            ),
        forall|p: GridPos|
            old(g).has_node(p) && !station_cell_names(stations@).contains_key(p) ==> #[trigger] final(g).node_at(p)
                == old(g).node_at(p),
        forall|n: Seq<char>|
            #[trigger] final(g).has_station(n) <==> old(g).has_station(n) || station_name_cells(stations@).contains_key(n),
        forall|n: Seq<char>|
            #[trigger] station_name_cells(stations@).contains_key(n) ==> final(g).station_position(n)
                == station_name_cells(stations@)[n],
        forall|n: Seq<char>|
            old(g).has_station(n) && !station_name_cells(stations@).contains_key(n) ==> #[trigger] final(g).station_position(n)
                == old(g).station_position(n),
{
    let ghost g0 = *old(g);
    let ghost st = stations@;
    proof {
        assert(station_cell_names(st.take(0)) =~= Map::empty());
        assert(station_name_cells(st.take(0)) =~= Map::empty());
    }
    let mut i: usize = 0;
    while i < stations.len()
        invariant
            st == stations@,
            g.well_formed(),
            g.connections@ == g0.connections@,
            i <= st.len(),
            forall|p: GridPos|
                #[trigger] g.has_node(p) <==> g0.has_node(p) || station_cell_names(st.take(i as int)).contains_key(p),
            forall|p: GridPos|
                #[trigger] station_cell_names(st.take(i as int)).contains_key(p) ==> station_node_ok(
                    g.node_at(p),
                    station_cell_names(st.take(i as int))[p],
                ),
            forall|p: GridPos|
                g0.has_node(p) && !station_cell_names(st.take(i as int)).contains_key(p) ==> #[trigger] g.node_at(p)
                    == g0.node_at(p),
            forall|n: Seq<char>|
                #[trigger] g.has_station(n) <==> g0.has_station(n) || station_name_cells(st.take(i as int)).contains_key(n),
            forall|n: Seq<char>|
                #[trigger] station_name_cells(st.take(i as int)).contains_key(n) ==> g.station_position(n)
                    == station_name_cells(st.take(i as int))[n],
            forall|n: Seq<char>|
                g0.has_station(n) && !station_name_cells(st.take(i as int)).contains_key(n) ==> #[trigger] g.station_position(n)
                    == g0.station_position(n),
        decreases st.len() - i,
    {
        let station = &stations[i];
        let pos = station.position;
        let ghost gi = *g;
        proof {
            assert(st.take(i + 1).drop_last() =~= st.take(i as int));
            assert(st.take(i + 1).last() == st[i as int]);
            assert(station_cell_names(st.take(i + 1)) == station_cell_names(st.take(i as int)).insert(pos, st[i as int].name@));
            assert(station_name_cells(st.take(i + 1)) == station_name_cells(st.take(i as int)).insert(st[i as int].name@, pos));
        }
        insert_node(
            g,
            GraphNode {
                position: pos,
                node_type: GraphNodeType::Station,
                station_name: Some(station.name.clone()),
                is_accessible: true,
            },
        );
        let ghost g1 = *g;
        insert_station(g, station.name.clone(), pos);
        proof {
            let g2 = *g;
            let cn = station_cell_names(st.take(i + 1));
            let nc = station_name_cells(st.take(i + 1));
            assert forall|p: GridPos| #[trigger] g2.has_node(p) <==> g0.has_node(p) || cn.contains_key(p) by {
                assert(g2.has_node(p) == g1.has_node(p));
            }
            assert forall|p: GridPos| g2.has_node(p) implies #[trigger] g2.node_at(p) == g1.node_at(p) by {}
            assert forall|n: Seq<char>| #[trigger] g2.has_station(n) <==> g0.has_station(n) || nc.contains_key(n) by {
                assert(g1.has_station(n) == gi.has_station(n));
            }
            assert forall|p: GridPos| #[trigger] cn.contains_key(p) implies station_node_ok(g2.node_at(p), cn[p]) by {
                if p != pos {
                    assert(gi.has_node(p));
                }
            }
            assert forall|p: GridPos| g0.has_node(p) && !cn.contains_key(p) implies #[trigger] g2.node_at(p)
                == g0.node_at(p) by {
                assert(gi.has_node(p));
            }
            assert forall|n: Seq<char>| #[trigger] nc.contains_key(n) implies g2.station_position(n) == nc[n] by {
                if n != st[i as int].name@ {
                    assert(gi.has_station(n));
                }
            }
            assert forall|n: Seq<char>| g0.has_station(n) && !nc.contains_key(n) implies #[trigger] g2.station_position(n)
                == g0.station_position(n) by {
                assert(gi.has_station(n));
                assert(nc.contains_key(st[i as int].name@));
                assert(n != st[i as int].name@);
                assert(g1.station_lookup@ == gi.station_lookup@);
                assert(g1.has_station(n));
                assert(g1.station_position(n) == gi.station_position(n));
            }
        }
        i = i + 1;
    }
    proof {
        assert(st.take(st.len() as int) =~= st);
    }
}

/// Adds a node for every active segment, in order (a later segment replaces an earlier
/// node at its cell): an intersection for crossings and T-junctions, a route node for the
/// other kinds.
fn add_segment_nodes(g: &mut PathfindingGraph, route_segments: &Vec<RouteSegment>)
    requires
        old(g).well_formed(),
    ensures
        final(g).well_formed(),
        final(g).connections@ == old(g).connections@,
        final(g).station_lookup@ == old(g).station_lookup@,
        forall|p: GridPos|
            #[trigger] final(g).has_node(p) <==> old(g).has_node(p) || segment_map(route_segments@).contains_key(p),
        forall|p: GridPos|
            #[trigger] segment_map(route_segments@).contains_key(p) ==> segment_node_ok(
                final(g).node_at(p),
                segment_map(route_segments@)[p].segment_type,
            ),
        forall|p: GridPos|
            old(g).has_node(p) && !segment_map(route_segments@).contains_key(p) ==> #[trigger] final(g).node_at(p)
                == old(g).node_at(p),
{
    let ghost g0 = *old(g);
    let ghost segs = route_segments@;
    proof {
        assert(segment_map(segs.take(0)) =~= Map::empty());
    }
    let mut j: usize = 0;
    while j < route_segments.len()
        invariant
            segs == route_segments@,
            g.well_formed(),
            g.connections@ == g0.connections@,
            g.station_lookup@ == g0.station_lookup@,
            j <= segs.len(),
            forall|p: GridPos|
                #[trigger] g.has_node(p) <==> g0.has_node(p) || segment_map(segs.take(j as int)).contains_key(p),
            forall|p: GridPos|
                #[trigger] segment_map(segs.take(j as int)).contains_key(p) ==> segment_node_ok(
                    g.node_at(p),
                    segment_map(segs.take(j as int))[p].segment_type,
                ),
            forall|p: GridPos|
                g0.has_node(p) && !segment_map(segs.take(j as int)).contains_key(p) ==> #[trigger] g.node_at(p)
                    == g0.node_at(p),
        decreases segs.len() - j,
    {
        let segment = route_segments[j];
        let ghost gj = *g;
        proof {
            assert(segs.take(j + 1).drop_last() =~= segs.take(j as int));
            assert(segs.take(j + 1).last() == segs[j as int]);
        }
        if segment.is_active {
            let pos = segment.grid_pos;
            let node_type = match segment.segment_type {
                RouteSegmentType::Cross | RouteSegmentType::TSplit => GraphNodeType::Intersection,
                _ => GraphNodeType::RouteSegment,
            };
            insert_node(g, GraphNode { position: pos, node_type, station_name: None, is_accessible: true });
            proof {
                let g2 = *g;
                let sm = segment_map(segs.take(j + 1));
                assert forall|p: GridPos| #[trigger] sm.contains_key(p) implies segment_node_ok(g2.node_at(p), sm[p].segment_type) by {
                    if p != pos {
                        assert(gj.has_node(p));
                    }
                }
                assert forall|p: GridPos| g0.has_node(p) && !sm.contains_key(p) implies #[trigger] g2.node_at(p)
                    == g0.node_at(p) by {
                    assert(gj.has_node(p));
                }
            }
        } else {
            proof {
                assert(segment_map(segs.take(j + 1)) == segment_map(segs.take(j as int)));
            }
        }
        j = j + 1;
    }
    proof {
        assert(segs.take(segs.len() as int) =~= segs);
    }
}

/// `f` is the first active segment of the list at cell `p`.
pub open spec fn is_first_active_at(segs: Seq<RouteSegment>, p: GridPos, f: int) -> bool {
    &&& 0 <= f < segs.len()
    &&& segs[f].is_active
    &&& segs[f].grid_pos == p
    &&& forall|j: int| 0 <= j < f ==> !(#[trigger] segs[j].is_active && segs[j].grid_pos == p)
}

/// The first active segment of the list at `y` has a port facing `x`.
pub open spec fn target_faces(segs: Seq<RouteSegment>, y: GridPos, x: GridPos) -> bool {
    exists|f: int|
        #[trigger] is_first_active_at(segs, y, f) && has_port(segs[f].segment_type, y, x, segs[f].rotation)
}

/// One of the first `n` segments of the list is active at `x` with a port facing `y`.
pub open spec fn source_faces(segs: Seq<RouteSegment>, n: int, x: GridPos, y: GridPos) -> bool {
    exists|s: int|
        #![trigger segs[s]]
        0 <= s < n && segs[s].is_active && segs[s].grid_pos == x && has_port(
            segs[s].segment_type,
            x,
            y,
            segs[s].rotation,
        )
}

/// Among the first `n` segments, one at `x` reaches `y` through a port, and the segment
/// found first at `y` has a port back.
pub open spec fn segment_pair(segs: Seq<RouteSegment>, n: int, x: GridPos, y: GridPos) -> bool {
    source_faces(segs, n, x, y) && target_faces(segs, y, x)
}

/// Segments at `x` and `y` are joined by the bus: in one direction or the other, an
/// active segment's port reaches the other cell and the segment found first there faces
/// back.
pub open spec fn fixed_route_link(segs: Seq<RouteSegment>, x: GridPos, y: GridPos) -> bool {
    segment_pair(segs, segs.len() as int, x, y) || segment_pair(segs, segs.len() as int, y, x)
}

/// The first active segment of the list at `p`, if any.
fn find_first_active(route_segments: &Vec<RouteSegment>, p: GridPos) -> (r: Option<usize>)
    ensures
        r matches Some(f) ==> is_first_active_at(route_segments@, p, f as int),
        r is None ==> forall|j: int|
            0 <= j < route_segments@.len() ==> !(#[trigger] route_segments@[j].is_active
                && route_segments@[j].grid_pos == p),
{
    let mut i: usize = 0;
    while i < route_segments.len()
        invariant
            i <= route_segments@.len(),
            forall|j: int|
                0 <= j < i ==> !(#[trigger] route_segments@[j].is_active && route_segments@[j].grid_pos == p),
        decreases route_segments.len() - i,
    {
        if route_segments[i].is_active && route_segments[i].grid_pos == p {
            return Some(i);
        }
        i = i + 1;
    }
    None
}

proof fn lemma_first_active_unique(segs: Seq<RouteSegment>, p: GridPos, f: int, g: int)
    requires
        is_first_active_at(segs, p, f),
        is_first_active_at(segs, p, g),
    ensures
        f == g,
{
    if f < g {
        assert(segs[f].is_active && segs[f].grid_pos == p);
    } else if g < f {
        assert(segs[g].is_active && segs[g].grid_pos == p);
    }
}

/// Joins neighbouring active segments whose ports face each other, both ways, with bus
/// connections: for every port of every active segment, the segment found first at the
/// port's cell is joined when it has a port back. A pair is joined once from each side.
pub fn create_segment_connections_directional(
    pathfinding_graph: &mut PathfindingGraph,
    route_segments: &Vec<RouteSegment>,
)
    requires
        old(pathfinding_graph).well_formed(),
        forall|k: int| 0 <= k < route_segments@.len() ==> pos_in_range(#[trigger] route_segments@[k].grid_pos),
        forall|k: int|
            0 <= k < route_segments@.len() && #[trigger] route_segments@[k].is_active ==> old(pathfinding_graph).has_node(
                route_segments@[k].grid_pos,
            ),
    ensures
        final(pathfinding_graph).well_formed(),
        final(pathfinding_graph).nodes@ == old(pathfinding_graph).nodes@,
        final(pathfinding_graph).station_lookup@ == old(pathfinding_graph).station_lookup@,
        forall|a: GridPos, b: GridPos, t: ConnectionType|
            #[trigger] final(pathfinding_graph).has_link(a, b, t) <==> old(pathfinding_graph).has_link(a, b, t)
                || (t == ConnectionType::BusRoute && fixed_route_link(route_segments@, a, b)),
        forall|k: GridPos, c: Connection|
            #[trigger] final(pathfinding_graph).is_listed(k, c) ==> old(pathfinding_graph).is_listed(k, c)
                || (c.connection_type == ConnectionType::BusRoute && c.cost == 2 && (c.route_id matches Some(r)
                && r@ == cell_route_label(k))),
{
    let ghost g0 = *old(pathfinding_graph);
    let ghost segs = route_segments@;
    let mut i: usize = 0;
    while i < route_segments.len()
        invariant
            segs == route_segments@,
            pathfinding_graph.well_formed(),
            pathfinding_graph.nodes@ == g0.nodes@,
            pathfinding_graph.station_lookup@ == g0.station_lookup@,
            i <= segs.len(),
            forall|k: int| 0 <= k < segs.len() ==> pos_in_range(#[trigger] segs[k].grid_pos),
            forall|k: int| 0 <= k < segs.len() && #[trigger] segs[k].is_active ==> g0.has_node(segs[k].grid_pos),
            forall|a: GridPos, b: GridPos, t: ConnectionType|
                #[trigger] pathfinding_graph.has_link(a, b, t) <==> g0.has_link(a, b, t) || (t
                    == ConnectionType::BusRoute && (segment_pair(segs, i as int, a, b) || segment_pair(
                    segs,
                    i as int,
                    b,
                    a,
                ))),
            forall|k: GridPos, c: Connection|
                #[trigger] pathfinding_graph.is_listed(k, c) ==> g0.is_listed(k, c) || (c.connection_type
                    == ConnectionType::BusRoute && c.cost == 2 && (c.route_id matches Some(r) && r@
                    == cell_route_label(k))),
        decreases segs.len() - i,
    {
        let segment = route_segments[i];
        let pos = segment.grid_pos;
        let ghost gi = *pathfinding_graph;
        let ghost ii = i as int;
        if segment.is_active {
            let ports = get_segment_connection_ports(pos, &segment.segment_type, segment.rotation);
            let ghost cp = connection_positions(segment.segment_type, pos, segment.rotation);
            let mut k: usize = 0;
            while k < ports.len()
                invariant
                    segs == route_segments@,
                    segment == segs[ii],
                    pos == segment.grid_pos,
                    segment.is_active,
                    0 <= ii < segs.len(),
                    cp == connection_positions(segment.segment_type, pos, segment.rotation),
                    ports@.len() == cp.len(),
                    forall|m: int| #![trigger ports@[m]] 0 <= m < ports@.len() ==> ports@[m].1 == cp[m],
                    pathfinding_graph.well_formed(),
                    pathfinding_graph.nodes@ == g0.nodes@,
                    pathfinding_graph.station_lookup@ == g0.station_lookup@,
                    k <= ports@.len(),
                    forall|m: int| 0 <= m < segs.len() ==> pos_in_range(#[trigger] segs[m].grid_pos),
                    forall|m: int| 0 <= m < segs.len() && #[trigger] segs[m].is_active ==> g0.has_node(segs[m].grid_pos),
                    forall|a: GridPos, b: GridPos, t: ConnectionType|
                        #[trigger] pathfinding_graph.has_link(a, b, t) <==> g0.has_link(a, b, t) || (t
                            == ConnectionType::BusRoute && ((segment_pair(segs, ii, a, b) || (a == pos && (exists|m: int|
                            0 <= m < k && #[trigger] cp[m] == b) && target_faces(segs, b, a))) || (segment_pair(segs, ii, b, a)
                            || (b == pos && (exists|m: int| 0 <= m < k && #[trigger] cp[m] == a) && target_faces(segs, a, b))))),
                    forall|kk: GridPos, c: Connection|
                        #[trigger] pathfinding_graph.is_listed(kk, c) ==> g0.is_listed(kk, c) || (c.connection_type
                            == ConnectionType::BusRoute && c.cost == 2 && (c.route_id matches Some(r) && r@
                            == cell_route_label(kk))),
                decreases ports.len() - k,
            {
                let q = ports[k].1;
                let ghost gk = *pathfinding_graph;
                assert(cp[k as int] == q);
                match find_first_active(route_segments, q) {
                    Some(f) => {
                        if segment_has_port_facing(&route_segments[f], pos) {
                            assert(segs[f as int].is_active);
                            create_bidirectional_connection(pathfinding_graph, pos, q, ConnectionType::BusRoute);
                            proof {
                                assert(target_faces(segs, q, pos));
                                let g2 = *pathfinding_graph;
                                assert forall|a: GridPos, b: GridPos, t: ConnectionType|
                                    #[trigger] g2.has_link(a, b, t) <==> g0.has_link(a, b, t) || (t
                                        == ConnectionType::BusRoute && ((segment_pair(segs, ii, a, b) || (a == pos && (exists|m: int|
                                        0 <= m < k + 1 && #[trigger] cp[m] == b) && target_faces(segs, b, a))) || (segment_pair(segs, ii, b, a)
                                        || (b == pos && (exists|m: int| 0 <= m < k + 1 && #[trigger] cp[m] == a) && target_faces(segs, a, b))))) by {
                                    if a == pos && (exists|m: int| 0 <= m < k + 1 && #[trigger] cp[m] == b) && !(exists|m: int| 0 <= m < k && #[trigger] cp[m] == b) {
                                        assert(b == q);
                                    }
                                    if b == pos && (exists|m: int| 0 <= m < k + 1 && #[trigger] cp[m] == a) && !(exists|m: int| 0 <= m < k && #[trigger] cp[m] == a) {
                                        assert(a == q);
                                    }
                                    if a == pos && b == q {
                                        assert(cp[k as int] == b);
                                    }
                                    if b == pos && a == q {
                                        assert(cp[k as int] == a);
                                    }
                                }
                            }
                        } else {
                            proof {
                                if target_faces(segs, q, pos) {
                                    let f2 = choose|f2: int| #[trigger] is_first_active_at(segs, q, f2) && has_port(segs[f2].segment_type, q, pos, segs[f2].rotation);
                                    lemma_first_active_unique(segs, q, f as int, f2);
                                }
                                assert forall|a: GridPos, b: GridPos, t: ConnectionType|
                                    #[trigger] gk.has_link(a, b, t) <==> g0.has_link(a, b, t) || (t
                                        == ConnectionType::BusRoute && ((segment_pair(segs, ii, a, b) || (a == pos && (exists|m: int|
                                        0 <= m < k + 1 && #[trigger] cp[m] == b) && target_faces(segs, b, a))) || (segment_pair(segs, ii, b, a)
                                        || (b == pos && (exists|m: int| 0 <= m < k + 1 && #[trigger] cp[m] == a) && target_faces(segs, a, b))))) by {
                                    if a == pos && (exists|m: int| 0 <= m < k + 1 && #[trigger] cp[m] == b) && !(exists|m: int| 0 <= m < k && #[trigger] cp[m] == b) {
                                        assert(b == q);
                                    }
                                    if b == pos && (exists|m: int| 0 <= m < k + 1 && #[trigger] cp[m] == a) && !(exists|m: int| 0 <= m < k && #[trigger] cp[m] == a) {
                                        assert(a == q);
                                    }
                                }
                            }
                        }
                    },
                    None => {
                        proof {
                            if target_faces(segs, q, pos) {
                                let f2 = choose|f2: int| #[trigger] is_first_active_at(segs, q, f2) && has_port(segs[f2].segment_type, q, pos, segs[f2].rotation);
                                assert(segs[f2].is_active && segs[f2].grid_pos == q);
                            }
                            assert forall|a: GridPos, b: GridPos, t: ConnectionType|
                                #[trigger] gk.has_link(a, b, t) <==> g0.has_link(a, b, t) || (t
                                    == ConnectionType::BusRoute && ((segment_pair(segs, ii, a, b) || (a == pos && (exists|m: int|
                                    0 <= m < k + 1 && #[trigger] cp[m] == b) && target_faces(segs, b, a))) || (segment_pair(segs, ii, b, a)
                                    || (b == pos && (exists|m: int| 0 <= m < k + 1 && #[trigger] cp[m] == a) && target_faces(segs, a, b))))) by {
                                if a == pos && (exists|m: int| 0 <= m < k + 1 && #[trigger] cp[m] == b) && !(exists|m: int| 0 <= m < k && #[trigger] cp[m] == b) {
                                    assert(b == q);
                                }
                                if b == pos && (exists|m: int| 0 <= m < k + 1 && #[trigger] cp[m] == a) && !(exists|m: int| 0 <= m < k && #[trigger] cp[m] == a) {
                                    assert(a == q);
                                }
                            }
                        }
                    },
                }
                k = k + 1;
            }
            proof {
                let g2 = *pathfinding_graph;
                assert forall|a: GridPos, b: GridPos|
                    #[trigger] source_faces(segs, ii + 1, a, b) <==> source_faces(segs, ii, a, b) || (a == pos
                        && (exists|m: int| 0 <= m < cp.len() && #[trigger] cp[m] == b)) by {
                    if source_faces(segs, ii + 1, a, b) && !source_faces(segs, ii, a, b) {
                        let s = choose|s: int|
                            #![trigger segs[s]]
                            0 <= s < ii + 1 && segs[s].is_active && segs[s].grid_pos == a && has_port(
                                segs[s].segment_type, a, b, segs[s].rotation);
                        assert(s == ii);
                    }
                    if a == pos && (exists|m: int| 0 <= m < cp.len() && #[trigger] cp[m] == b) {
                        assert(has_port(segment.segment_type, pos, b, segment.rotation));
                        assert(segs[ii].is_active && segs[ii].grid_pos == a);
                    }
                }
                assert forall|a: GridPos, b: GridPos, t: ConnectionType|
                    #[trigger] g2.has_link(a, b, t) <==> g0.has_link(a, b, t) || (t
                        == ConnectionType::BusRoute && (segment_pair(segs, ii + 1, a, b) || segment_pair(
                        segs,
                        ii + 1,
                        b,
                        a,
                    ))) by {
                    assert(source_faces(segs, ii + 1, a, b) <==> source_faces(segs, ii, a, b) || (a == pos
                        && (exists|m: int| 0 <= m < cp.len() && #[trigger] cp[m] == b)));
                    assert(source_faces(segs, ii + 1, b, a) <==> source_faces(segs, ii, b, a) || (b == pos
                        && (exists|m: int| 0 <= m < cp.len() && #[trigger] cp[m] == a)));
                }
            }
        } else {
            proof {
                assert forall|a: GridPos, b: GridPos| #[trigger] source_faces(segs, ii + 1, a, b) == source_faces(segs, ii, a, b) by {
                    if source_faces(segs, ii + 1, a, b) {
                        let s = choose|s: int|
                            #![trigger segs[s]]
                            0 <= s < ii + 1 && segs[s].is_active && segs[s].grid_pos == a && has_port(
                                segs[s].segment_type, a, b, segs[s].rotation);
                        assert(s != ii);
                    }
                }
                assert forall|a: GridPos, b: GridPos, t: ConnectionType|
                    #[trigger] gi.has_link(a, b, t) <==> g0.has_link(a, b, t) || (t
                        == ConnectionType::BusRoute && (segment_pair(segs, ii + 1, a, b) || segment_pair(
                        segs,
                        ii + 1,
                        b,
                        a,
                    ))) by {
                    assert(source_faces(segs, ii + 1, a, b) == source_faces(segs, ii, a, b));
                    assert(source_faces(segs, ii + 1, b, a) == source_faces(segs, ii, b, a));
                }
            }
        }
        i = i + 1;
    }
}

/// One of the first `n` stations stands at `x`.
pub open spec fn station_among(stations: Seq<Station>, n: int, x: GridPos) -> bool {
    exists|i: int| 0 <= i < n && #[trigger] stations[i].position == x
}

/// One of the first `m` segments is active at `y` and reachable from a station at `x`.
pub open spec fn reached_segment(segs: Seq<RouteSegment>, m: int, x: GridPos, y: GridPos) -> bool {
    exists|j: int|
        #![trigger segs[j]]
        0 <= j < m && segs[j].is_active && segs[j].grid_pos == y && station_reaches_segment(x, segs[j])
}

/// A walking connection leads from a station at `x` to an active segment at `y` that
/// stands on the station's cell or has a port facing it.
pub open spec fn fixed_station_link(stations: Seq<Station>, segs: Seq<RouteSegment>, x: GridPos, y: GridPos) -> bool {
    station_among(stations, stations.len() as int, x) && reached_segment(segs, segs.len() as int, x, y)
}

/// Joins every station, both ways and on foot, to every active segment that stands on its
/// cell or has a port facing it.
pub fn create_station_connections_directional(
    pathfinding_graph: &mut PathfindingGraph,
    stations: &Vec<Station>,
    route_segments: &Vec<RouteSegment>,
)
    requires
        old(pathfinding_graph).well_formed(),
        forall|k: int| 0 <= k < route_segments@.len() ==> pos_in_range(#[trigger] route_segments@[k].grid_pos),
        forall|k: int|
            0 <= k < route_segments@.len() && #[trigger] route_segments@[k].is_active ==> old(pathfinding_graph).has_node(
                route_segments@[k].grid_pos,
            ),
        forall|i: int| 0 <= i < stations@.len() ==> old(pathfinding_graph).has_node(#[trigger] stations@[i].position),
        forall|i: int, k: int|
            0 <= i < stations@.len() && 0 <= k < route_segments@.len() && #[trigger] route_segments@[k].is_active
                ==> distance_fits(#[trigger] stations@[i].position, route_segments@[k].grid_pos),
    ensures
        final(pathfinding_graph).well_formed(),
        final(pathfinding_graph).nodes@ == old(pathfinding_graph).nodes@,
        final(pathfinding_graph).station_lookup@ == old(pathfinding_graph).station_lookup@,
        forall|a: GridPos, b: GridPos, t: ConnectionType|
            #[trigger] final(pathfinding_graph).has_link(a, b, t) <==> old(pathfinding_graph).has_link(a, b, t)
                || (t == ConnectionType::Walk && (fixed_station_link(stations@, route_segments@, a, b)
                || fixed_station_link(stations@, route_segments@, b, a))),
        forall|k: GridPos, c: Connection|
            #[trigger] final(pathfinding_graph).is_listed(k, c) ==> old(pathfinding_graph).is_listed(k, c)
                || (c.connection_type == ConnectionType::Walk && c.cost == 1 && (c.route_id matches Some(r)
                && r@ == cell_route_label(k))),
{
    let ghost g0 = *old(pathfinding_graph);
    let ghost st = stations@;
    let ghost segs = route_segments@;
    let ghost sl = segs.len() as int;
    let mut i: usize = 0;
    while i < stations.len()
        invariant
            st == stations@,
            segs == route_segments@,
            sl == segs.len(),
            pathfinding_graph.well_formed(),
            pathfinding_graph.nodes@ == g0.nodes@,
            pathfinding_graph.station_lookup@ == g0.station_lookup@,
            i <= st.len(),
            forall|k: int| 0 <= k < segs.len() ==> pos_in_range(#[trigger] segs[k].grid_pos),
            forall|k: int| 0 <= k < segs.len() && #[trigger] segs[k].is_active ==> g0.has_node(segs[k].grid_pos),
            forall|x: int| 0 <= x < st.len() ==> g0.has_node(#[trigger] st[x].position),
            forall|x: int, k: int|
                0 <= x < st.len() && 0 <= k < segs.len() && #[trigger] segs[k].is_active ==> distance_fits(
                    #[trigger] st[x].position,
                    segs[k].grid_pos,
                ),
            forall|a: GridPos, b: GridPos, t: ConnectionType|
                #[trigger] pathfinding_graph.has_link(a, b, t) <==> g0.has_link(a, b, t) || (t
                    == ConnectionType::Walk && ((station_among(st, i as int, a) && reached_segment(segs, sl, a, b))
                    || (station_among(st, i as int, b) && reached_segment(segs, sl, b, a)))),
            forall|k: GridPos, c: Connection|
                #[trigger] pathfinding_graph.is_listed(k, c) ==> g0.is_listed(k, c) || (c.connection_type
                    == ConnectionType::Walk && c.cost == 1 && (c.route_id matches Some(r) && r@
                    == cell_route_label(k))),
        decreases st.len() - i,
    {
        let station_pos = stations[i].position;
        let ghost ii = i as int;
        let mut m: usize = 0;
        while m < route_segments.len()
            invariant
                st == stations@,
                segs == route_segments@,
                sl == segs.len(),
                0 <= ii < st.len(),
                station_pos == st[ii].position,
                pathfinding_graph.well_formed(),
                pathfinding_graph.nodes@ == g0.nodes@,
                pathfinding_graph.station_lookup@ == g0.station_lookup@,
                m <= segs.len(),
                forall|k: int| 0 <= k < segs.len() ==> pos_in_range(#[trigger] segs[k].grid_pos),
                forall|k: int| 0 <= k < segs.len() && #[trigger] segs[k].is_active ==> g0.has_node(segs[k].grid_pos),
                forall|x: int| 0 <= x < st.len() ==> g0.has_node(#[trigger] st[x].position),
                forall|x: int, k: int|
                    0 <= x < st.len() && 0 <= k < segs.len() && #[trigger] segs[k].is_active ==> distance_fits(
                        #[trigger] st[x].position,
                        segs[k].grid_pos,
                    ),
                forall|a: GridPos, b: GridPos, t: ConnectionType|
                    #[trigger] pathfinding_graph.has_link(a, b, t) <==> g0.has_link(a, b, t) || (t
                        == ConnectionType::Walk && ((station_among(st, ii, a) && reached_segment(segs, sl, a, b))
                        || (a == station_pos && reached_segment(segs, m as int, a, b))
                        || (station_among(st, ii, b) && reached_segment(segs, sl, b, a))
                        || (b == station_pos && reached_segment(segs, m as int, b, a)))),
                forall|k: GridPos, c: Connection|
                    #[trigger] pathfinding_graph.is_listed(k, c) ==> g0.is_listed(k, c) || (c.connection_type
                        == ConnectionType::Walk && c.cost == 1 && (c.route_id matches Some(r) && r@
                        == cell_route_label(k))),
            decreases segs.len() - m,
        {
            let segment = &route_segments[m];
            let ghost gm = *pathfinding_graph;
            let ghost mm = m as int;
            proof {
                assert forall|a: GridPos, b: GridPos| #[trigger] reached_segment(segs, mm + 1, a, b) <==> reached_segment(segs, mm, a, b)
                    || (segs[mm].is_active && segs[mm].grid_pos == b && station_reaches_segment(a, segs[mm])) by {
                    if reached_segment(segs, mm + 1, a, b) && !reached_segment(segs, mm, a, b) {
                        let j = choose|j: int|
                            #![trigger segs[j]]
                            0 <= j < mm + 1 && segs[j].is_active && segs[j].grid_pos == b && station_reaches_segment(a, segs[j]);
                        assert(j == mm);
                    }
                }
            }
            if segment.is_active {
                assert(segs[mm].is_active);
                assert(distance_fits(st[ii].position, segs[mm].grid_pos));
                if can_station_connect_to_segment_directional(station_pos, segment) {
                    create_bidirectional_connection(pathfinding_graph, station_pos, segment.grid_pos, ConnectionType::Walk);
                }
            }
            m = m + 1;
        }
        proof {
            let g2 = *pathfinding_graph;
            assert forall|a: GridPos| #[trigger] station_among(st, ii + 1, a) <==> station_among(st, ii, a) || a == station_pos by {
                if station_among(st, ii + 1, a) && !station_among(st, ii, a) {
                    let x = choose|x: int| 0 <= x < ii + 1 && #[trigger] st[x].position == a;
                    assert(x == ii);
                }
                if a == station_pos {
                    assert(st[ii].position == a);
                }
            }
            assert forall|a: GridPos, b: GridPos, t: ConnectionType|
                #[trigger] g2.has_link(a, b, t) <==> g0.has_link(a, b, t) || (t
                    == ConnectionType::Walk && ((station_among(st, ii + 1, a) && reached_segment(segs, sl, a, b))
                    || (station_among(st, ii + 1, b) && reached_segment(segs, sl, b, a)))) by {
                assert(station_among(st, ii + 1, a) <==> station_among(st, ii, a) || a == station_pos);
                assert(station_among(st, ii + 1, b) <==> station_among(st, ii, b) || b == station_pos);
            }
        }
        i = i + 1;
    }
}

proof fn lemma_station_cells_listed(st: Seq<Station>)
    ensures
        forall|i: int| 0 <= i < st.len() ==> station_cell_names(st).contains_key(#[trigger] st[i].position),
    decreases st.len(),
{
    if st.len() > 0 {
        lemma_station_cells_listed(st.drop_last());
        assert forall|i: int| 0 <= i < st.len() implies station_cell_names(st).contains_key(#[trigger] st[i].position) by {
            if i < st.len() - 1 {
                assert(st.drop_last()[i] == st[i]);
            }
        }
    }
}

proof fn lemma_active_segments_listed(segs: Seq<RouteSegment>)
    ensures
        forall|k: int| 0 <= k < segs.len() && #[trigger] segs[k].is_active ==> segment_map(segs).contains_key(segs[k].grid_pos),
    decreases segs.len(),
{
    if segs.len() > 0 {
        lemma_active_segments_listed(segs.drop_last());
        assert forall|k: int| 0 <= k < segs.len() && #[trigger] segs[k].is_active implies segment_map(segs).contains_key(segs[k].grid_pos) by {
            if k < segs.len() - 1 {
                assert(segs.drop_last()[k] == segs[k]);
                assert(segs.drop_last()[k].is_active);
            }
        }
    }
}

/// Rebuilds the pathfinding graph with connections that respect the direction of every
/// port: a node for every station and every active segment (a segment replaces a station
/// node at its cell, later entries replace earlier ones), the stations recorded by name,
/// bus connections between segments whose ports face each other, and walking connections
/// between every station and the active segments that stand on its cell or face it. What
/// the graph held before is kept; connections are added without looking for earlier ones.
pub fn rebuild_pathfinding_graph_fixed(
    pathfinding_graph: &mut PathfindingGraph,
    stations: &Vec<Station>,
    route_segments: &Vec<RouteSegment>,
)
    requires
        old(pathfinding_graph).well_formed(),
        forall|k: int| 0 <= k < route_segments@.len() ==> pos_in_range(#[trigger] route_segments@[k].grid_pos),
        forall|i: int, k: int|
            0 <= i < stations@.len() && 0 <= k < route_segments@.len() && #[trigger] route_segments@[k].is_active
                ==> distance_fits(#[trigger] stations@[i].position, route_segments@[k].grid_pos),
    ensures
        final(pathfinding_graph).well_formed(),
        forall|p: GridPos|
            #[trigger] final(pathfinding_graph).has_node(p) <==> old(pathfinding_graph).has_node(p)
                || station_cell_names(stations@).contains_key(p) || segment_map(route_segments@).contains_key(p),
        forall|p: GridPos|
            #[trigger] segment_map(route_segments@).contains_key(p) ==> segment_node_ok(
                final(pathfinding_graph).node_at(p),
                segment_map(route_segments@)[p].segment_type,
            ),
        forall|p: GridPos|
            !segment_map(route_segments@).contains_key(p) && #[trigger] station_cell_names(stations@).contains_key(p)
                ==> station_node_ok(final(pathfinding_graph).node_at(p), station_cell_names(stations@)[p]),
        forall|p: GridPos|
            old(pathfinding_graph).has_node(p) && !segment_map(route_segments@).contains_key(p)
                && !station_cell_names(stations@).contains_key(p) ==> #[trigger] final(pathfinding_graph).node_at(p)
                == old(pathfinding_graph).node_at(p),
        forall|n: Seq<char>|
            #[trigger] final(pathfinding_graph).has_station(n) <==> old(pathfinding_graph).has_station(n)
                || station_name_cells(stations@).contains_key(n),
        forall|n: Seq<char>|
            #[trigger] station_name_cells(stations@).contains_key(n) ==> final(pathfinding_graph).station_position(n)
                == station_name_cells(stations@)[n],
        forall|n: Seq<char>|
            old(pathfinding_graph).has_station(n) && !station_name_cells(stations@).contains_key(n)
                ==> #[trigger] final(pathfinding_graph).station_position(n) == old(pathfinding_graph).station_position(n),
        forall|a: GridPos, b: GridPos, t: ConnectionType|
            #[trigger] final(pathfinding_graph).has_link(a, b, t) <==> old(pathfinding_graph).has_link(a, b, t)
                || (t == ConnectionType::BusRoute && fixed_route_link(route_segments@, a, b))
                || (t == ConnectionType::Walk && (fixed_station_link(stations@, route_segments@, a, b)
                || fixed_station_link(stations@, route_segments@, b, a))),
        forall|a: GridPos, b: GridPos|
            #[trigger] final(pathfinding_graph).has_edge(a, b) <==> old(pathfinding_graph).has_edge(a, b)
                || fixed_route_link(route_segments@, a, b) || fixed_station_link(stations@, route_segments@, a, b)
                || fixed_station_link(stations@, route_segments@, b, a),
        new_links_labelled(&*final(pathfinding_graph), &*old(pathfinding_graph)),
        old(pathfinding_graph).is_symmetric() ==> final(pathfinding_graph).is_symmetric(),
{
    let ghost g0 = *old(pathfinding_graph);
    let ghost st = stations@;
    let ghost segs = route_segments@;
    add_station_nodes(pathfinding_graph, stations);
    let ghost ga = *pathfinding_graph;
    add_segment_nodes(pathfinding_graph, route_segments);
    proof {
        let gb = *pathfinding_graph;
        assert forall|n: Seq<char>| #[trigger] gb.has_station(n) == ga.has_station(n) by {}
        assert forall|n: Seq<char>| #[trigger] gb.station_position(n) == ga.station_position(n) by {}
        lemma_station_cells_listed(st);
        lemma_active_segments_listed(segs);
    }
    let ghost g1 = *pathfinding_graph;
    create_segment_connections_directional(pathfinding_graph, route_segments);
    let ghost g2 = *pathfinding_graph;
    proof {
        assert forall|p: GridPos| #[trigger] g2.has_node(p) == g1.has_node(p) by {}
        assert forall|i: int| 0 <= i < st.len() implies g2.has_node(#[trigger] st[i].position) by {
            assert(g1.has_node(st[i].position));
        }
        assert forall|k: int| 0 <= k < segs.len() && #[trigger] segs[k].is_active implies g2.has_node(segs[k].grid_pos) by {
            assert(g1.has_node(segs[k].grid_pos));
        }
    }
    create_station_connections_directional(pathfinding_graph, stations, route_segments);
    proof {
        let g3 = *pathfinding_graph;
        assert forall|p: GridPos| #[trigger] g3.has_node(p) == g1.has_node(p) by {}
        assert forall|p: GridPos| g3.has_node(p) implies #[trigger] g3.node_at(p) == g1.node_at(p) by {}
        assert forall|n: Seq<char>| #[trigger] g3.has_station(n) == g1.has_station(n) by {}
        assert forall|n: Seq<char>| #[trigger] g3.station_position(n) == g1.station_position(n) by {}
        assert forall|a: GridPos, b: GridPos, t: ConnectionType| #[trigger] g1.has_link(a, b, t) == g0.has_link(a, b, t) by {}
        assert forall|k: GridPos, c: Connection| #[trigger] g1.is_listed(k, c) == g0.is_listed(k, c) by {}
        assert forall|a: GridPos, b: GridPos|
            #[trigger] g3.has_edge(a, b) <==> g0.has_edge(a, b) || fixed_route_link(segs, a, b)
                || fixed_station_link(st, segs, a, b) || fixed_station_link(st, segs, b, a) by {
            g3.lemma_edge_is_link(a, b);
            g0.lemma_edge_is_link(a, b);
            assert(g3.has_link(a, b, ConnectionType::BusRoute) == g2.has_link(a, b, ConnectionType::BusRoute));
            assert(g3.has_link(a, b, ConnectionType::Walk) == (g2.has_link(a, b, ConnectionType::Walk)
                || fixed_station_link(st, segs, a, b) || fixed_station_link(st, segs, b, a)));
            assert(g3.has_link(a, b, ConnectionType::Transfer) == g2.has_link(a, b, ConnectionType::Transfer));
        }
        assert forall|k: GridPos, c: Connection| #[trigger] g3.is_listed(k, c) implies g0.is_listed(k, c)
            || (c.cost == crate::bus_puzzle::resources::connection_cost(c.connection_type)
            && (c.route_id matches Some(r) && r@ == cell_route_label(k))) by {
            if !g2.is_listed(k, c) {
            } else if !g1.is_listed(k, c) {
            }
        }
        if g0.is_symmetric() {
            assert forall|a: GridPos, b: GridPos| #[trigger] g3.has_edge(a, b) implies g3.has_edge(b, a) by {
                if g0.has_edge(a, b) {
                    assert(g0.has_edge(b, a));
                }
                if fixed_route_link(segs, a, b) {
                    assert(fixed_route_link(segs, b, a));
                }
            }
        }
    }
}

} // verus!
