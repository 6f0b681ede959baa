use vstd::prelude::*;

use crate::bus_puzzle::components::{
    segment_cost, AgentState, GridPos, PassengerColor, RouteSegmentType, TerrainType,
};
use crate::bus_puzzle::level_system::{AvailableSegment, LevelData, ObjectiveCondition, ObjectiveType};
use crate::bus_puzzle::pathfinding::PathNode;
use crate::bus_puzzle::resources::{
    GameScore, GameState, GameStateEnum, InputState, Inventory, LevelManager, PassengerStats, PlacedSegment,
};
use crate::bus_puzzle::ui_audio::ButtonType;
use crate::bus_puzzle::text::text_eq;
use crate::bus_puzzle::pos_map::PosMap;

verus! {

/// A passenger's journey: its colour, where it comes from and goes to, its planned path and
/// how far along it is, its patience in microseconds and its waiting time in milliseconds.
#[derive(Debug)]
pub struct PathfindingAgent {
    pub color: PassengerColor,
    pub origin: String,
    pub destination: String,
    pub current_path: Vec<PathNode>,
    pub current_step: usize,
    pub state: AgentState,
    pub patience: i64,
    pub max_patience: i64,
    pub waiting_time: u64,
}

/// The sum of the costs of placed segments.
pub open spec fn cost_sum(entries: Seq<(GridPos, PlacedSegment)>) -> int
    decreases entries.len(),
{
    if entries.len() == 0 {
        0
    } else {
        cost_sum(entries.drop_last()) + entries.last().1.cost
    }
}

/// How many placed segments are of kind `t`.
pub open spec fn placed_count(entries: Seq<(GridPos, PlacedSegment)>, t: RouteSegmentType) -> int
    decreases entries.len(),
{
    if entries.len() == 0 {
        0
    } else {
        placed_count(entries.drop_last(), t) + (if entries.last().1.segment_type == t {
            1int
        } else {
            0int
        })
    }
}

/// The count an inventory holds for `t`, zero when it has no entry.
pub open spec fn stock_left(inv: Map<RouteSegmentType, u32>, t: RouteSegmentType) -> int {
    if inv.contains_key(t) {
        inv[t] as int
    } else {
        0
    }
}

/// All segments of kind `t` the player has: those in hand and those placed.
pub open spec fn stock(gs: GameState, t: RouteSegmentType) -> int {
    stock_left(gs.player_inventory@, t) + placed_count(gs.placed_segments.entries@, t)
}

/// The game state is consistent: the maps are well formed and the running cost is the sum
/// of the costs of the placed segments.
pub open spec fn game_well_formed(gs: GameState) -> bool {
    &&& gs.placed_segments.well_formed()
    &&& (gs.current_level matches Some(l) ==> l.terrain.well_formed())
    &&& gs.total_cost as int == cost_sum(gs.placed_segments.entries@)
}

proof fn lemma_sums_nonnegative(e: Seq<(GridPos, PlacedSegment)>, t: RouteSegmentType)
    ensures
        cost_sum(e) >= 0,
        placed_count(e, t) >= 0,
    decreases e.len(),
{
    if e.len() > 0 {
        lemma_sums_nonnegative(e.drop_last(), t);
    }
}

/// Replacing an entry changes the sums by the difference of the two entries.
proof fn lemma_sums_update(e: Seq<(GridPos, PlacedSegment)>, i: int, x: (GridPos, PlacedSegment), t: RouteSegmentType)
    requires
        0 <= i < e.len(),
    ensures
        cost_sum(e.update(i, x)) == cost_sum(e) - e[i].1.cost + x.1.cost,
        placed_count(e.update(i, x), t) == placed_count(e, t) - (if e[i].1.segment_type == t {
            1int
        } else {
            0int
        }) + (if x.1.segment_type == t {
            1int
        } else {
            0int
        }),
    decreases e.len(),
{
    if i == e.len() - 1 {
        assert(e.update(i, x).drop_last() =~= e.drop_last());
    } else {
        lemma_sums_update(e.drop_last(), i, x, t);
        assert(e.update(i, x).drop_last() =~= e.drop_last().update(i, x));
    }
}

/// Removing an entry takes it out of the sums.
proof fn lemma_sums_remove(e: Seq<(GridPos, PlacedSegment)>, i: int, t: RouteSegmentType)
    requires
        0 <= i < e.len(),
    ensures
        cost_sum(e.remove(i)) == cost_sum(e) - e[i].1.cost,
        placed_count(e.remove(i), t) == placed_count(e, t) - (if e[i].1.segment_type == t {
            1int
        } else {
            0int
        }),
    decreases e.len(),
{
    if i == e.len() - 1 {
        assert(e.remove(i) =~= e.drop_last());
    } else {
        lemma_sums_remove(e.drop_last(), i, t);
        assert(e.remove(i).drop_last() =~= e.drop_last().remove(i));
        assert(e.remove(i).last() == e.last());
    }
}

/// Whether a segment of kind `t` may be placed at `pos`: the cell is free, it is not a
/// building, water takes only bridges and mountains only tunnels (whatever the bounds), and
/// other cells must lie on the level's grid.
pub open spec fn valid_placement(gs: GameState, pos: GridPos, t: RouteSegmentType) -> bool {
    &&& !gs.placed_segments@.contains_key(pos)
    &&& match gs.current_level {
        None => true,
        Some(level) => {
            let terrain = level.terrain@;
            if terrain.contains_key(pos) && terrain[pos] == TerrainType::Building {
                false
            } else if terrain.contains_key(pos) && terrain[pos] == TerrainType::Water {
                t == RouteSegmentType::Bridge
            } else if terrain.contains_key(pos) && terrain[pos] == TerrainType::Mountain {
                t == RouteSegmentType::Tunnel
            } else {
                0 <= pos.x < level.grid_size.0 && 0 <= pos.y < level.grid_size.1
            }
        },
    }
}

/// Terrain decides where segments go, in a level: nothing goes on a building, only a
/// bridge on water, only a tunnel on a mountain, and on open ground any segment inside the
/// grid; no cell takes a second segment.
pub proof fn law_terrain_decides_placement(gs: GameState, pos: GridPos, t: RouteSegmentType)
    requires
        gs.current_level is Some,
    ensures
        gs.placed_segments@.contains_key(pos) ==> !valid_placement(gs, pos, t),
        ({
            let level = gs.current_level->0;
            let terrain = level.terrain@;
            let free = !gs.placed_segments@.contains_key(pos);
            &&& terrain.contains_key(pos) && terrain[pos] == TerrainType::Building ==> !valid_placement(gs, pos, t)
            &&& terrain.contains_key(pos) && terrain[pos] == TerrainType::Mountain ==> (valid_placement(gs, pos, t)
                <==> free && t == RouteSegmentType::Tunnel)
            &&& terrain.contains_key(pos) && terrain[pos] == TerrainType::Water ==> (valid_placement(gs, pos, t)
                <==> free && t == RouteSegmentType::Bridge)
            &&& !(terrain.contains_key(pos) && (terrain[pos] == TerrainType::Building || terrain[pos]
                == TerrainType::Mountain || terrain[pos] == TerrainType::Water)) ==> (valid_placement(gs, pos, t)
                <==> free && 0 <= pos.x < level.grid_size.0 && 0 <= pos.y < level.grid_size.1)
        }),
{
}

/// Whether a segment of kind `t` may be placed at `position`.
pub fn is_valid_placement(game_state: &GameState, position: GridPos, segment_type: &RouteSegmentType) -> (r: bool)
    requires
        game_well_formed(*game_state),
    ensures
        r == valid_placement(*game_state, position, *segment_type),
{
    if game_state.placed_segments.contains_key(position) {
        return false;
    }
    match &game_state.current_level {
        Some(level_data) => {
            match level_data.terrain.get(position) {
                Some(TerrainType::Building) => {
                    return false;
                },
                Some(TerrainType::Water) => {
                    return matches!(segment_type, RouteSegmentType::Bridge);
                },
                Some(TerrainType::Mountain) => {
                    return matches!(segment_type, RouteSegmentType::Tunnel);
                },
                _ => {},
            }
            let (width, height) = level_data.grid_size;
            if position.x < 0 || position.y < 0 || position.x as i64 >= width as i64 || position.y as i64
                >= height as i64 {
                return false;
            }
        },
        None => {},
    }
    true
}

/// The check made before placing a segment, with the checked position's rotation: the same
/// answer as `is_valid_placement`.
pub fn is_valid_placement_with_rotation(
    game_state: &GameState,
    position: GridPos,
    segment_type: &RouteSegmentType,
    rotation: u32,
) -> (r: bool)
    requires
        game_well_formed(*game_state),
    ensures
        r == valid_placement(*game_state, position, *segment_type),
{
    is_valid_placement(game_state, position, segment_type)
}

/// Why a segment can or cannot be placed.
#[derive(Debug, Clone, Copy, PartialEq, Eq, Structural)]
pub enum PlacementCheck {
    Allowed,
    InvalidPosition,
    OutOfStock,
    NotOffered,
}

/// The answer to a placement request: refused for the cell first, then for the stock.
pub open spec fn placement_check(gs: GameState, pos: GridPos, t: RouteSegmentType) -> PlacementCheck {
    if !valid_placement(gs, pos, t) {
        PlacementCheck::InvalidPosition
    } else if !gs.player_inventory@.contains_key(t) {
        PlacementCheck::NotOffered
    } else if gs.player_inventory@[t] == 0 {
        PlacementCheck::OutOfStock
    } else {
        PlacementCheck::Allowed
    }
}

/// Checks whether the player may place a segment of kind `t` at `pos`.
pub fn check_placement(game_state: &GameState, pos: GridPos, t: RouteSegmentType) -> (r: PlacementCheck)
    requires
        game_well_formed(*game_state),
    ensures
        r == placement_check(*game_state, pos, t),
{
    if !is_valid_placement(game_state, pos, &t) {
        return PlacementCheck::InvalidPosition;
    }
    match game_state.player_inventory.get(t) {
        None => PlacementCheck::NotOffered,
        Some(0) => PlacementCheck::OutOfStock,
        Some(_) => PlacementCheck::Allowed,
    }
}

/// Places a segment of kind `t` at `pos`, shown by `entity`: it is recorded at its cost,
/// the running cost grows by it and one segment of its kind leaves the player's hand.
pub fn place_segment(game_state: &mut GameState, pos: GridPos, t: RouteSegmentType, rotation: u32, entity: u64)
    requires
        game_well_formed(*old(game_state)),
        placement_check(*old(game_state), pos, t) == PlacementCheck::Allowed,
        old(game_state).total_cost + segment_cost(t) <= u32::MAX,
    ensures
        game_well_formed(*final(game_state)),
        segment_placed(*old(game_state), *final(game_state), pos, t, rotation, entity),
        forall|u: RouteSegmentType| #[trigger] stock(*final(game_state), u) == stock(*old(game_state), u),
        final(game_state).current_level == old(game_state).current_level,
        final(game_state).game_time == old(game_state).game_time,
        final(game_state).objectives_completed == old(game_state).objectives_completed,
        final(game_state).passenger_stats == old(game_state).passenger_stats,
        final(game_state).score == old(game_state).score,
{
    let cost = t.get_cost();
    let seg = PlacedSegment { segment_type: t, rotation, entity, cost };
    let ghost before = game_state.placed_segments.entries@;
    game_state.placed_segments.insert(pos, seg);
    game_state.total_cost = game_state.total_cost + cost;
    let left = match game_state.player_inventory.get(t) {
        Some(n) => n,
        None => 0,
    };
    game_state.player_inventory.insert(t, left - 1);
    proof {
        assert(game_state.placed_segments.entries@.drop_last() =~= before);
        assert forall|u: RouteSegmentType| #[trigger] stock(*game_state, u) == stock(*old(game_state), u) by {
            assert(game_state.placed_segments.entries@.last() == (pos, seg));
        }
    }
}

/// What a placement request did.
#[derive(Debug, Clone, Copy, PartialEq, Eq, Structural)]
pub enum PlacementOutcome {
    Placed { position: GridPos, segment_type: RouteSegmentType, rotation: u32 },
    Refused(PlacementCheck),
    NoSelection,
}

/// The player asks to place the chosen kind under the cursor, shown by `entity`: when the
/// placement is allowed the segment is placed at the preview's rotation and the preview
/// turns back to 0°; when it is refused, or nothing is chosen or under the cursor, nothing
/// changes.
pub fn handle_segment_placement(game_state: &mut GameState, input_state: &mut InputState, entity: u64) -> (r: PlacementOutcome)
    requires
        game_well_formed(*old(game_state)),
        old(input_state).selected_segment matches Some(t) ==> old(game_state).total_cost + segment_cost(t) <= u32::MAX,
    ensures
        game_well_formed(*final(game_state)),
        match (old(input_state).selected_segment, old(input_state).grid_cursor_pos) {
            (Some(t), Some(pos)) => if placement_check(*old(game_state), pos, t) == PlacementCheck::Allowed {
                &&& r == (PlacementOutcome::Placed { position: pos, segment_type: t, rotation: old(input_state).preview_rotation })
                &&& segment_placed(*old(game_state), *final(game_state), pos, t, old(input_state).preview_rotation, entity)
                &&& final(input_state).preview_rotation == 0
                &&& final(input_state).selected_segment == old(input_state).selected_segment
                &&& final(input_state).grid_cursor_pos == old(input_state).grid_cursor_pos
                &&& final(input_state).is_dragging == old(input_state).is_dragging
                &&& final(input_state).drag_entity == old(input_state).drag_entity
            } else {
                &&& r == PlacementOutcome::Refused(placement_check(*old(game_state), pos, t))
                &&& *final(game_state) == *old(game_state)
                &&& *final(input_state) == *old(input_state)
            },
            _ => r == PlacementOutcome::NoSelection && *final(game_state) == *old(game_state) && *final(input_state)
                == *old(input_state),
        },
        final(game_state).current_level == old(game_state).current_level,
        final(game_state).game_time == old(game_state).game_time,
        final(game_state).score == old(game_state).score,
{
    let (t, pos) = match (input_state.selected_segment, input_state.grid_cursor_pos) {
        (Some(t), Some(pos)) => (t, pos),
        _ => {
            return PlacementOutcome::NoSelection;
        },
    };
    let check = check_placement(game_state, pos, t);
    if check != PlacementCheck::Allowed {
        return PlacementOutcome::Refused(check);
    }
    let rotation = input_state.preview_rotation;
    place_segment(game_state, pos, t, rotation, entity);
    input_state.preview_rotation = 0;
    PlacementOutcome::Placed { position: pos, segment_type: t, rotation }
}

/// Takes the segment at `pos` back into the player's hand: its cost leaves the running cost
/// and its kind's count grows by one.
pub fn remove_segment(game_state: &mut GameState, pos: GridPos) -> (r: Option<PlacedSegment>)
    requires
        game_well_formed(*old(game_state)),
        old(game_state).placed_segments@.contains_key(pos) ==> stock_left(
            old(game_state).player_inventory@,
            old(game_state).placed_segments@[pos].segment_type,
        ) < u32::MAX,
    ensures
        game_well_formed(*final(game_state)),
        r is Some <==> old(game_state).placed_segments@.contains_key(pos),
        r matches Some(seg) ==> segment_removed(*old(game_state), *final(game_state), pos, seg),
        r is None ==> final(game_state).placed_segments@ == old(game_state).placed_segments@
            && final(game_state).total_cost == old(game_state).total_cost
            && final(game_state).player_inventory@ == old(game_state).player_inventory@,
        forall|u: RouteSegmentType| #[trigger] stock(*final(game_state), u) == stock(*old(game_state), u),
        final(game_state).current_level == old(game_state).current_level,
        final(game_state).game_time == old(game_state).game_time,
        final(game_state).objectives_completed == old(game_state).objectives_completed,
        final(game_state).passenger_stats == old(game_state).passenger_stats,
        final(game_state).score == old(game_state).score,
{
    let ghost before = game_state.placed_segments.entries@;
    let ghost idx = game_state.placed_segments.index_of(pos);
    if game_state.placed_segments.contains_key(pos) {
        proof {
            game_state.placed_segments.lemma_index(idx);
            lemma_sums_remove(before, idx, RouteSegmentType::Straight);
            assert forall|k: int| 0 <= k < before.len() implies #[trigger] before[k].1.cost <= cost_sum(before) by {
                lemma_sums_remove(before, k, RouteSegmentType::Straight);
                lemma_sums_nonnegative(before.remove(k), RouteSegmentType::Straight);
            }
        }
    }
    match game_state.placed_segments.remove(pos) {
        Some(seg) => {
            let left = match game_state.player_inventory.get(seg.segment_type) {
                Some(n) => n,
                None => 0,
            };
            game_state.player_inventory.insert(seg.segment_type, left + 1);
            game_state.total_cost = game_state.total_cost - seg.cost;
            proof {
                assert forall|u: RouteSegmentType| #[trigger] stock(*game_state, u) == stock(*old(game_state), u) by {
                    lemma_sums_remove(before, idx, u);
                }
            }
            Some(seg)
        },
        None => None,
    }
}

/// The rotation a quarter turn clockwise further on, in degrees below a full turn.
pub open spec fn quarter_turn(rotation: int) -> int {
    (rotation + 90) % 360
}

/// The next rotation of a segment or of the preview.
pub fn next_rotation(rotation: u32) -> (r: u32)
    ensures
        r == quarter_turn(rotation as int),
{
    (rotation % 360 + 90) % 360
}

/// Turns the segment at `pos` a quarter turn further and returns its new rotation.
pub fn rotate_segment_at(game_state: &mut GameState, pos: GridPos) -> (r: Option<u32>)
    requires
        game_well_formed(*old(game_state)),
    ensures
        game_well_formed(*final(game_state)),
        r is Some <==> old(game_state).placed_segments@.contains_key(pos),
        r matches Some(n) ==> n == quarter_turn(old(game_state).placed_segments@[pos].rotation as int)
            && final(game_state).placed_segments@ == old(game_state).placed_segments@.insert(
            pos,
            PlacedSegment { rotation: n, ..old(game_state).placed_segments@[pos] },
        ),
        r is None ==> final(game_state).placed_segments@ == old(game_state).placed_segments@,
        final(game_state).total_cost == old(game_state).total_cost,
        final(game_state).player_inventory@ == old(game_state).player_inventory@,
        forall|u: RouteSegmentType| #[trigger] stock(*final(game_state), u) == stock(*old(game_state), u),
        final(game_state).current_level == old(game_state).current_level,
        final(game_state).game_time == old(game_state).game_time,
{
    match game_state.placed_segments.get(pos) {
        Some(seg) => {
            let n = next_rotation(seg.rotation);
            let turned = PlacedSegment { rotation: n, ..seg };
            let ghost before = game_state.placed_segments.entries@;
            let ghost idx = game_state.placed_segments.index_of(pos);
            proof {
                game_state.placed_segments.lemma_index(idx);
                assert(before[idx].1 == seg) by {
                    game_state.placed_segments.lemma_index(idx);
                }
            }
            game_state.placed_segments.insert(pos, turned);
            proof {
                lemma_sums_update(before, idx, (pos, turned), RouteSegmentType::Straight);
                assert forall|u: RouteSegmentType| #[trigger] stock(*game_state, u) == stock(*old(game_state), u) by {
                    lemma_sums_update(before, idx, (pos, turned), u);
                }
            }
            Some(n)
        },
        None => None,
    }
}

/// Four quarter turns bring a rotation back to where it was, modulo a full turn.
pub proof fn law_four_quarter_turns(rotation: int)
    requires
        rotation >= 0,
    ensures
        quarter_turn(quarter_turn(quarter_turn(quarter_turn(rotation)))) == rotation % 360,
{
}

/// `g1` is `g0` after placing a segment of kind `t` at `pos`: the segment is recorded at
/// its cost, the running cost grows by it and one segment of its kind leaves the hand.
pub open spec fn segment_placed(g0: GameState, g1: GameState, pos: GridPos, t: RouteSegmentType, rotation: u32, entity: u64) -> bool {
    &&& g1.placed_segments@ == g0.placed_segments@.insert(
        pos,
        PlacedSegment { segment_type: t, rotation, entity, cost: segment_cost(t) },
    )
    &&& g1.total_cost == g0.total_cost + segment_cost(t)
    &&& g1.player_inventory@ == g0.player_inventory@.insert(t, (g0.player_inventory@[t] - 1) as u32)
}

/// `g1` is `g0` after taking back the segment `seg` from `pos`.
pub open spec fn segment_removed(g0: GameState, g1: GameState, pos: GridPos, seg: PlacedSegment) -> bool {
    &&& seg == g0.placed_segments@[pos]
    &&& g1.placed_segments@ == g0.placed_segments@.remove(pos)
    &&& g1.total_cost == g0.total_cost - seg.cost
    &&& g1.player_inventory@ == g0.player_inventory@.insert(
        seg.segment_type,
        (stock_left(g0.player_inventory@, seg.segment_type) + 1) as u32,
    )
}

/// Placing a segment and taking it back at once leaves the placed segments, the running
/// cost and the player's hand as they were.
pub proof fn law_place_then_remove(
    g0: GameState,
    g1: GameState,
    g2: GameState,
    pos: GridPos,
    t: RouteSegmentType,
    rotation: u32,
    entity: u64,
    seg: PlacedSegment,
)
    requires
        placement_check(g0, pos, t) == PlacementCheck::Allowed,
        segment_placed(g0, g1, pos, t, rotation, entity),
        segment_removed(g1, g2, pos, seg),
    ensures
        g2.placed_segments@ == g0.placed_segments@,
        g2.total_cost == g0.total_cost,
        g2.player_inventory@ == g0.player_inventory@,
{
    assert(g2.placed_segments@ =~= g0.placed_segments@);
    assert(g2.player_inventory@ =~= g0.player_inventory@);
}

/// The route ids of a path's steps.
pub open spec fn route_ids(path: Seq<PathNode>) -> Seq<Option<Seq<char>>> {
    path.map_values(|n: PathNode| match n.route_id {
        Some(r) => Some(r@),
        None => None,
    })
}

/// The last route id among `ids`.
pub open spec fn last_route(ids: Seq<Option<Seq<char>>>) -> Option<Seq<char>>
    decreases ids.len(),
{
    if ids.len() == 0 {
        None
    } else if ids.last() is Some {
        ids.last()
    } else {
        last_route(ids.drop_last())
    }
}

/// How often the route changes along `ids`, steps without a route id left out.
pub open spec fn route_changes(ids: Seq<Option<Seq<char>>>) -> nat
    decreases ids.len(),
{
    if ids.len() == 0 {
        0
    } else {
        let prev = route_changes(ids.drop_last());
        match (ids.last(), last_route(ids.drop_last())) {
            (Some(r), Some(p)) => if r != p {
                prev + 1
            } else {
                prev
            },
            _ => prev,
        }
    }
}

/// A step without a route id leaves the last route as it was.
proof fn lemma_last_route_skips_walks(ids: Seq<Option<Seq<char>>>, i: int)
    requires
        0 <= i <= ids.len(),
    ensures
        last_route(ids.insert(i, None)) == last_route(ids),
    decreases ids.len(),
{
    let q = ids.insert(i, None);
    if i == ids.len() {
        assert(q.drop_last() =~= ids);
    } else {
        assert(q.drop_last() =~= ids.drop_last().insert(i, None));
        assert(q.last() == ids.last());
        lemma_last_route_skips_walks(ids.drop_last(), i);
    }
}

/// Steps without a route id (walking) never change the count of route changes: inserting
/// one anywhere leaves it as it was.
pub proof fn law_walking_steps_change_no_route(ids: Seq<Option<Seq<char>>>, i: int)
    requires
        0 <= i <= ids.len(),
    ensures
        route_changes(ids.insert(i, None)) == route_changes(ids),
    decreases ids.len(),
{
    let q = ids.insert(i, None);
    if i == ids.len() {
        assert(q.drop_last() =~= ids);
    } else {
        assert(q.drop_last() =~= ids.drop_last().insert(i, None));
        assert(q.last() == ids.last());
        law_walking_steps_change_no_route(ids.drop_last(), i);
        lemma_last_route_skips_walks(ids.drop_last(), i);
    }
}

/// The last route ridden is the route of the last step that has one.
proof fn lemma_last_route_is_last_ridden(ids: Seq<Option<Seq<char>>>, j: int)
    requires
        0 <= j < ids.len(),
        ids[j] is Some,
        forall|k: int| j < k < ids.len() ==> ids[k] is None,
    ensures
        last_route(ids) == ids[j],
    decreases ids.len(),
{
    if j < ids.len() - 1 {
        lemma_last_route_is_last_ridden(ids.drop_last(), j);
    }
}

/// A path with no route id at all has no route change.
proof fn lemma_no_rides_no_changes(ids: Seq<Option<Seq<char>>>)
    requires
        forall|k: int| 0 <= k < ids.len() ==> ids[k] is None,
    ensures
        route_changes(ids) == 0,
        last_route(ids) is None,
    decreases ids.len(),
{
    if ids.len() > 0 {
        lemma_no_rides_no_changes(ids.drop_last());
    }
}

/// Riding route `r` next adds one route change exactly when the last route ridden before
/// (the route of the last step that has one) differs from `r`; the first ride adds none,
/// and a path without rides has no change.
pub proof fn law_a_new_route_is_one_change(ids: Seq<Option<Seq<char>>>, r: Seq<char>)
    ensures
        (forall|k: int| 0 <= k < ids.len() ==> ids[k] is None) ==> route_changes(ids) == 0 && route_changes(
            ids.push(Some(r)),
        ) == 0,
        forall|j: int|
            0 <= j < ids.len() && #[trigger] ids[j] is Some && (forall|k: int| j < k < ids.len() ==> ids[k] is None)
                ==> route_changes(ids.push(Some(r))) == route_changes(ids) + (if ids[j] == Some(r) {
                0int
            } else {
                1int
            }),
{
    let q = ids.push(Some(r));
    assert(q.drop_last() =~= ids);
    if forall|k: int| 0 <= k < ids.len() ==> ids[k] is None {
        lemma_no_rides_no_changes(ids);
    }
    assert forall|j: int|
        0 <= j < ids.len() && #[trigger] ids[j] is Some && (forall|k: int| j < k < ids.len() ==> ids[k] is None)
            implies route_changes(ids.push(Some(r))) == route_changes(ids) + (if ids[j] == Some(r) {
            0int
        } else {
            1int
        }) by {
        lemma_last_route_is_last_ridden(ids, j);
    }
}

proof fn lemma_route_changes_bound(ids: Seq<Option<Seq<char>>>)
    ensures
        route_changes(ids) <= ids.len(),
    decreases ids.len(),
{
    if ids.len() > 0 {
        lemma_route_changes_bound(ids.drop_last());
    }
}

/// How many transfers a path makes: the number of times its route changes.
pub fn count_transfers_in_path(path: &Vec<PathNode>) -> (r: u32)
    requires
        path@.len() <= u32::MAX,
    ensures
        r == route_changes(route_ids(path@)),
{
    let ghost ids = route_ids(path@);
    let mut transfers: u32 = 0;
    let mut current_route_id: Option<&String> = None;
    let mut i: usize = 0;
    while i < path.len()
        invariant
            ids == route_ids(path@),
            path@.len() <= u32::MAX,
            i <= path@.len(),
            transfers == route_changes(ids.take(i as int)),
            (match current_route_id {
                Some(r) => Some(r@),
                None => None,
            }) == last_route(ids.take(i as int)),
        decreases path.len() - i,
    {
        proof {
            assert(ids.take(i + 1).drop_last() =~= ids.take(i as int));
            assert(ids.take(i + 1).last() == ids[i as int]);
            lemma_route_changes_bound(ids.take(i as int));
        }
        match &path[i].route_id {
            Some(route_id) => {
                match current_route_id {
                    Some(prev) => {
                        if !text_eq(route_id.as_str(), prev.as_str()) {
                            transfers = transfers + 1;
                        }
                    },
                    None => {},
                }
                current_route_id = Some(route_id);
            },
            None => {},
        }
        i = i + 1;
    }
    assert(ids.take(path@.len() as int) =~= ids);
    transfers
}

/// How many of `passengers` have arrived.
pub open spec fn arrived_count(passengers: Seq<PathfindingAgent>) -> nat
    decreases passengers.len(),
{
    if passengers.len() == 0 {
        0
    } else {
        arrived_count(passengers.drop_last()) + (if passengers.last().state == AgentState::Arrived {
            1nat
        } else {
            0nat
        })
    }
}

/// How many of `passengers` have given up.
pub open spec fn gave_up_count(passengers: Seq<PathfindingAgent>) -> nat
    decreases passengers.len(),
{
    if passengers.len() == 0 {
        0
    } else {
        gave_up_count(passengers.drop_last()) + (if passengers.last().state == AgentState::GaveUp {
            1nat
        } else {
            0nat
        })
    }
}

proof fn lemma_counts_bound(ps: Seq<PathfindingAgent>)
    ensures
        arrived_count(ps) <= ps.len(),
        gave_up_count(ps) <= ps.len(),
    decreases ps.len(),
{
    if ps.len() > 0 {
        lemma_counts_bound(ps.drop_last());
    }
}

/// Counts the passengers that have arrived and those that gave up.
pub fn count_arrivals(passengers: &Vec<PathfindingAgent>) -> (r: (usize, usize))
    ensures
        r.0 == arrived_count(passengers@),
        r.1 == gave_up_count(passengers@),
{
    let mut arrived: usize = 0;
    let mut gave_up: usize = 0;
    let mut i: usize = 0;
    while i < passengers.len()
        invariant
            i <= passengers@.len(),
            arrived == arrived_count(passengers@.take(i as int)),
            gave_up == gave_up_count(passengers@.take(i as int)),
        decreases passengers.len() - i,
    {
        proof {
            assert(passengers@.take(i + 1).drop_last() =~= passengers@.take(i as int));
            lemma_counts_bound(passengers@.take(i as int));
        }
        match passengers[i].state {
            AgentState::Arrived => {
                arrived = arrived + 1;
            },
            AgentState::GaveUp => {
                gave_up = gave_up + 1;
            },
            _ => {},
        }
        i = i + 1;
    }
    assert(passengers@.take(passengers@.len() as int) =~= passengers@);
    (arrived, gave_up)
}

/// Every arrived passenger changed routes at most `max` times.
pub open spec fn transfers_within(passengers: Seq<PathfindingAgent>, max: u32) -> bool {
    forall|i: int|
        #![trigger passengers[i]]
        0 <= i < passengers.len() && passengers[i].state == AgentState::Arrived ==> route_changes(
            route_ids(passengers[i].current_path@),
        ) <= max
}

/// The share of passengers that arrived is at least `percent` percent; with no passengers
/// everybody counts as satisfied.
pub open spec fn satisfied(passengers: Seq<PathfindingAgent>, percent: u32) -> bool {
    if passengers.len() == 0 {
        100 >= percent
    } else {
        arrived_count(passengers) * 100 >= percent * passengers.len()
    }
}

/// Whether an objective is met. `efficiency` is the network efficiency score in hundredths,
/// which the minimum-efficiency objective is measured in.
pub open spec fn objective_met(
    kind: ObjectiveType,
    gs: GameState,
    passengers: Seq<PathfindingAgent>,
    efficiency: u32,
) -> bool {
    match kind {
        ObjectiveType::ConnectAllPassengers => gs.passenger_stats.total_spawned > 0
            && gs.passenger_stats.total_arrived == gs.passenger_stats.total_spawned,
        ObjectiveType::MaxTransfers(max) => transfers_within(passengers, max),
        ObjectiveType::MaxSegments(max) => gs.placed_segments@.dom().len() <= max,
        ObjectiveType::MaxCost(max) => gs.total_cost <= max,
        ObjectiveType::TimeLimit(limit) => gs.game_time <= limit as int * 1000,
        ObjectiveType::MinEfficiency(min) => efficiency >= min,
        ObjectiveType::PassengerSatisfaction(min) => satisfied(passengers, min),
    }
}

/// Checks an objective against the game state and the passengers.
pub fn check_objective_completion(
    objective: &ObjectiveCondition,
    game_state: &GameState,
    passengers: &Vec<PathfindingAgent>,
    efficiency: u32,
) -> (r: bool)
    requires
        game_well_formed(*game_state),
        forall|i: int| 0 <= i < passengers@.len() ==> (#[trigger] passengers@[i]).current_path@.len() <= u32::MAX,
    ensures
        r == objective_met(objective.condition_type, *game_state, passengers@, efficiency),
{
    match objective.condition_type {
        ObjectiveType::ConnectAllPassengers => {
            let stats = game_state.passenger_stats;
            stats.total_spawned > 0 && stats.total_arrived == stats.total_spawned
        },
        ObjectiveType::MaxTransfers(max_transfers) => {
            let mut i: usize = 0;
            while i < passengers.len()
                invariant
                    objective.condition_type == ObjectiveType::MaxTransfers(max_transfers),
                    i <= passengers@.len(),
                    forall|k: int| 0 <= k < passengers@.len() ==> (#[trigger] passengers@[k]).current_path@.len() <= u32::MAX,
                    forall|k: int|
                        #![trigger passengers@[k]]
                        0 <= k < i && passengers@[k].state == AgentState::Arrived ==> route_changes(
                            route_ids(passengers@[k].current_path@),
                        ) <= max_transfers,
                decreases passengers.len() - i,
            {
                if matches!(passengers[i].state, AgentState::Arrived) {
                    if count_transfers_in_path(&passengers[i].current_path) > max_transfers {
                        proof {
                            assert(passengers@[i as int].state == AgentState::Arrived);
                            assert(!transfers_within(passengers@, max_transfers));
                        }
                        return false;
                    }
                }
                i = i + 1;
            }
            true
        },
        ObjectiveType::MaxSegments(max_segments) => game_state.placed_segments.len() as u64 <= max_segments as u64,
        ObjectiveType::MaxCost(max_cost) => game_state.total_cost <= max_cost,
        ObjectiveType::TimeLimit(time_limit) => game_state.game_time <= time_limit as u64 * 1000,
        ObjectiveType::MinEfficiency(min_efficiency) => efficiency >= min_efficiency,
        ObjectiveType::PassengerSatisfaction(min_satisfaction) => {
            let (arrived, _) = count_arrivals(passengers);
            if passengers.len() == 0 {
                100 >= min_satisfaction
            } else {
                let m = min_satisfaction as u128;
                let n = passengers.len() as u128;
                assert(m * n <= 0xffff_ffff_ffff_ffff_ffff_ffff_ffff_ffffu128) by (nonlinear_arith)
                    requires
                        m <= 0xffff_ffffu128,
                        n <= 0xffff_ffff_ffff_ffffu128,
                ;
                arrived as u128 * 100 >= m * n
            }
        },
    }
}

/// The completion flags, padded with `false` up to `n` objectives.
pub open spec fn padded_flags(done: Seq<bool>, n: nat) -> Seq<bool> {
    if done.len() < n {
        done + Seq::new((n - done.len()) as nat, |i: int| false)
    } else {
        done
    }
}

/// Updates the completion flags of the level's objectives: every objective not yet done
/// that is now met is marked done. Returns the indices newly marked, in order.
pub fn update_objectives(
    game_state: &mut GameState,
    passengers: &Vec<PathfindingAgent>,
    efficiency: u32,
) -> (r: Vec<usize>)
    requires
        game_well_formed(*old(game_state)),
        forall|i: int| 0 <= i < passengers@.len() ==> (#[trigger] passengers@[i]).current_path@.len() <= u32::MAX,
    ensures
        game_well_formed(*final(game_state)),
        old(game_state).current_level is None ==> r@.len() == 0 && final(game_state).objectives_completed
            == old(game_state).objectives_completed,
        old(game_state).current_level matches Some(level) ==> {
            let ext = padded_flags(old(game_state).objectives_completed@, level.objectives@.len());
            let n = level.objectives@.len() as int;
            &&& final(game_state).objectives_completed@.len() == ext.len()
            &&& forall|i: int|
                #![trigger final(game_state).objectives_completed@[i]]
                0 <= i < ext.len() ==> final(game_state).objectives_completed@[i] == (ext[i] || (i < n
                    && objective_met(level.objectives@[i].condition_type, *old(game_state), passengers@, efficiency)))
            &&& forall|k: int| 0 <= k < r@.len() ==> #[trigger] r@[k] < n && !ext[r@[k] as int]
                && objective_met(level.objectives@[r@[k] as int].condition_type, *old(game_state), passengers@, efficiency)
            &&& forall|k: int, l: int| 0 <= k < l < r@.len() ==> #[trigger] r@[k] < #[trigger] r@[l]
            &&& forall|i: int|
                0 <= i < n && !ext[i] && objective_met(level.objectives@[i].condition_type, *old(game_state), passengers@, efficiency)
                    ==> #[trigger] r@.contains(i as usize)
        },
        final(game_state).current_level == old(game_state).current_level,
        final(game_state).placed_segments == old(game_state).placed_segments,
        final(game_state).player_inventory == old(game_state).player_inventory,
        final(game_state).total_cost == old(game_state).total_cost,
        final(game_state).game_time == old(game_state).game_time,
        final(game_state).score == old(game_state).score,
        final(game_state).passenger_stats == old(game_state).passenger_stats,
{
    let n = match &game_state.current_level {
        Some(level_data) => level_data.objectives.len(),
        None => {
            return Vec::new();
        },
    };
    let ghost ext = padded_flags(game_state.objectives_completed@, n as nat);
    while game_state.objectives_completed.len() < n
        invariant
            ext == padded_flags(old(game_state).objectives_completed@, n as nat),
            old(game_state).objectives_completed@.len() <= game_state.objectives_completed@.len(),
            game_state.objectives_completed@.len() <= ext.len(),
            game_state.objectives_completed@ == ext.take(game_state.objectives_completed@.len() as int),
            game_state.current_level == old(game_state).current_level,
            game_state.placed_segments == old(game_state).placed_segments,
            game_state.player_inventory == old(game_state).player_inventory,
            game_state.total_cost == old(game_state).total_cost,
            game_state.game_time == old(game_state).game_time,
            game_state.score == old(game_state).score,
            game_state.passenger_stats == old(game_state).passenger_stats,
        decreases n - game_state.objectives_completed@.len(),
    {
        let ghost len = game_state.objectives_completed@.len() as int;
        game_state.objectives_completed.push(false);
        proof {
            assert(ext.take(len + 1) =~= ext.take(len).push(ext[len]));
        }
    }
    proof {
        assert(game_state.objectives_completed@ =~= ext);
    }
    let ghost gs0 = *old(game_state);
    let mut completed: Vec<usize> = Vec::new();
    match &game_state.current_level {
        Some(level_data) => {
            let mut i: usize = 0;
            while i < n
                invariant
                    game_state.current_level == gs0.current_level,
                    gs0.current_level == Some(*level_data),
                    n == level_data.objectives@.len(),
                    game_well_formed(*game_state),
                    forall|x: int| 0 <= x < passengers@.len() ==> (#[trigger] passengers@[x]).current_path@.len() <= u32::MAX,
                    game_state.objectives_completed@ == ext,
                    game_state.placed_segments == gs0.placed_segments,
                    game_state.total_cost == gs0.total_cost,
                    game_state.game_time == gs0.game_time,
                    game_state.passenger_stats == gs0.passenger_stats,
                    ext.len() >= n,
                    i <= n,
                    forall|k: int| 0 <= k < completed@.len() ==> #[trigger] completed@[k] < i && !ext[completed@[k] as int]
                        && objective_met(level_data.objectives@[completed@[k] as int].condition_type, gs0, passengers@, efficiency),
                    forall|k: int, l: int| 0 <= k < l < completed@.len() ==> #[trigger] completed@[k] < #[trigger] completed@[l],
                    forall|x: int|
                        0 <= x < i && !ext[x] && objective_met(level_data.objectives@[x].condition_type, gs0, passengers@, efficiency)
                            ==> #[trigger] completed@.contains(x as usize),
                decreases n - i,
            {
                if !game_state.objectives_completed[i] {
                    let met = check_objective_completion(&level_data.objectives[i], game_state, passengers, efficiency);
                    if met {
                        let ghost before = completed@;
                        completed.push(i);
                        proof {
                            assert forall|x: int|
                                0 <= x < i + 1 && !ext[x] && objective_met(level_data.objectives@[x].condition_type, gs0, passengers@, efficiency)
                                    implies #[trigger] completed@.contains(x as usize) by {
                                if x < i {
                                    assert(before.contains(x as usize));
                                    let w = choose|w: int| 0 <= w < before.len() && before[w] == x as usize;
                                    assert(completed@[w] == x as usize);
                                } else {
                                    assert(completed@[before.len() as int] == i);
                                }
                            }
                        }
                    }
                }
                i = i + 1;
            }
        },
        None => {},
    }
    let mut k: usize = 0;
    while k < completed.len()
        invariant
            k <= completed@.len(),
            game_state.objectives_completed@.len() == ext.len(),
            ext.len() >= n,
            forall|j: int| 0 <= j < completed@.len() ==> #[trigger] completed@[j] < n,
            forall|x: int|
                #![trigger game_state.objectives_completed@[x]]
                0 <= x < ext.len() ==> game_state.objectives_completed@[x] == (ext[x] || exists|j: int|
                    0 <= j < k && completed@[j] == x),
            game_state.current_level == gs0.current_level,
            game_state.placed_segments == gs0.placed_segments,
            game_state.player_inventory == gs0.player_inventory,
            game_state.total_cost == gs0.total_cost,
            game_state.game_time == gs0.game_time,
            game_state.score == gs0.score,
            game_state.passenger_stats == gs0.passenger_stats,
        decreases completed.len() - k,
    {
        let index = completed[k];
        game_state.objectives_completed.set(index, true);
        proof {
            assert forall|x: int|
                #![trigger game_state.objectives_completed@[x]]
                0 <= x < ext.len() implies game_state.objectives_completed@[x] == (ext[x] || exists|j: int|
                    0 <= j < k + 1 && completed@[j] == x) by {
                if x == index {
                    assert(completed@[k as int] == x);
                }
            }
        }
        k = k + 1;
    }
    proof {
        let level = gs0.current_level->0;
        assert forall|x: int|
            #![trigger game_state.objectives_completed@[x]]
            0 <= x < ext.len() implies game_state.objectives_completed@[x] == (ext[x] || (x < n
                && objective_met(level.objectives@[x].condition_type, gs0, passengers@, efficiency))) by {
            if x < n && !ext[x] && objective_met(level.objectives@[x].condition_type, gs0, passengers@, efficiency) {
                assert(completed@.contains(x as usize));
                let j = choose|j: int| 0 <= j < completed@.len() && completed@[j] == x as usize;
                assert(completed@[j] == x);
            }
            if exists|j: int| 0 <= j < completed@.len() && completed@[j] == x {
                let j = choose|j: int| 0 <= j < completed@.len() && completed@[j] == x;
                assert(completed@[j] < n);
            }
        }
    }
    completed
}

/// When every objective of the level is done (and there is at least one), the score and
/// time the level was finished with.
pub fn handle_level_completion(game_state: &GameState) -> (r: Option<(u32, u64)>)
    ensures
        r is Some <==> game_state.current_level is Some && game_state.objectives_completed@.len() > 0
            && forall|i: int| 0 <= i < game_state.objectives_completed@.len() ==> #[trigger] game_state.objectives_completed@[i],
        r matches Some(p) ==> p == (game_state.score.total_score, game_state.game_time),
{
    if game_state.current_level.is_none() {
        return None;
    }
    let mut i: usize = 0;
    while i < game_state.objectives_completed.len()
        invariant
            i <= game_state.objectives_completed@.len(),
            forall|k: int| 0 <= k < i ==> #[trigger] game_state.objectives_completed@[k],
        decreases game_state.objectives_completed.len() - i,
    {
        if !game_state.objectives_completed[i] {
            return None;
        }
        i = i + 1;
    }
    if game_state.objectives_completed.len() == 0 {
        return None;
    }
    Some((game_state.score.total_score, game_state.game_time))
}

/// Why a level is lost.
#[derive(Debug, Clone, Copy, PartialEq, Eq, Structural)]
pub enum FailureReason {
    TooManyGaveUp(u32),
    TimeUp(u32),
}

/// The first time limit among `objectives` that `time_ms` exceeds.
pub open spec fn exceeded_limit(objectives: Seq<ObjectiveCondition>, time_ms: u64) -> Option<u32>
    decreases objectives.len(),
{
    if objectives.len() == 0 {
        None
    } else {
        match objectives[0].condition_type {
            ObjectiveType::TimeLimit(limit) => if time_ms > limit as int * 1000 {
                Some(limit)
            } else {
                exceeded_limit(objectives.skip(1), time_ms)
            },
            _ => exceeded_limit(objectives.skip(1), time_ms),
        }
    }
}

/// The level is lost when more than three passengers gave up, or else when the time passes
/// one of the level's time limits.
pub open spec fn failure_of(gs: GameState, passengers: Seq<PathfindingAgent>) -> Option<FailureReason> {
    if gave_up_count(passengers) > 3 {
        Some(FailureReason::TooManyGaveUp(gave_up_count(passengers) as u32))
    } else {
        match gs.current_level {
            Some(level) => match exceeded_limit(level.objectives@, gs.game_time) {
                Some(limit) => Some(FailureReason::TimeUp(limit)),
                None => None,
            },
            None => None,
        }
    }
}

/// `time_ms` passes the objective `c` when `c` is a time limit, in seconds, shorter than it.
pub open spec fn passes_limit(c: ObjectiveCondition, time_ms: u64) -> bool {
    match c.condition_type {
        ObjectiveType::TimeLimit(l) => time_ms > l as int * 1000,
        _ => false,
    }
}

/// The first exceeded time limit is a time limit of the objectives that the time passes;
/// none is found exactly when the time passes none.
proof fn lemma_exceeded_limit(objectives: Seq<ObjectiveCondition>, time_ms: u64)
    ensures
        exceeded_limit(objectives, time_ms) matches Some(l) ==> exists|i: int|
            0 <= i < objectives.len() && #[trigger] objectives[i].condition_type == ObjectiveType::TimeLimit(l)
                && time_ms > l as int * 1000,
        exceeded_limit(objectives, time_ms) is None <==> forall|i: int|
            0 <= i < objectives.len() ==> !passes_limit(#[trigger] objectives[i], time_ms),
    decreases objectives.len(),
{
    if objectives.len() > 0 {
        let rest = objectives.skip(1);
        lemma_exceeded_limit(rest, time_ms);
        assert forall|i: int| 0 <= i < rest.len() implies #[trigger] rest[i] == objectives[i + 1] by {}
        if exceeded_limit(objectives, time_ms) is None {
            assert forall|i: int| 0 <= i < objectives.len() implies !passes_limit(#[trigger] objectives[i], time_ms) by {
                if i > 0 {
                    assert(rest[i - 1] == objectives[i]);
                }
            }
        } else {
            let l = exceeded_limit(objectives, time_ms)->0;
            if passes_limit(objectives[0], time_ms) {
                assert(objectives[0].condition_type == ObjectiveType::TimeLimit(l));
            } else {
                let i = choose|i: int| 0 <= i < rest.len() && #[trigger] rest[i].condition_type == ObjectiveType::TimeLimit(l)
                    && time_ms > l as int * 1000;
                assert(objectives[i + 1] == rest[i]);
                assert(passes_limit(objectives[i + 1], time_ms));
            }
        }
    }
}

/// Time limits count in seconds against a game clock in milliseconds: a time-limit
/// objective of `l` seconds is met exactly while the game time is at most `l` thousand
/// milliseconds. A level is lost when more than three passengers gave up; otherwise it is
/// lost, on time, exactly when the game time passes one of its time limits, and the limit
/// reported is one of those passed.
pub proof fn law_limits_and_failure(gs: GameState, passengers: Seq<PathfindingAgent>, efficiency: u32, l: u32, m: u32)
    ensures
        objective_met(ObjectiveType::TimeLimit(l), gs, passengers, efficiency) <==> gs.game_time <= l as int * 1000,
        objective_met(ObjectiveType::MaxCost(m), gs, passengers, efficiency) <==> gs.total_cost <= m,
        gave_up_count(passengers) > 3 ==> failure_of(gs, passengers) == Some(
            FailureReason::TooManyGaveUp(gave_up_count(passengers) as u32),
        ),
        gave_up_count(passengers) <= 3 && gs.current_level is None ==> failure_of(gs, passengers) is None,
        gave_up_count(passengers) <= 3 ==> (gs.current_level matches Some(level) ==> (failure_of(gs, passengers) is None
            <==> forall|i: int| 0 <= i < level.objectives@.len() ==> !passes_limit(#[trigger] level.objectives@[i], gs.game_time))),
        gave_up_count(passengers) <= 3 ==> (gs.current_level matches Some(level) ==> (failure_of(gs, passengers) matches Some(
            FailureReason::TimeUp(t),
        ) ==> exists|i: int|
            0 <= i < level.objectives@.len() && #[trigger] level.objectives@[i].condition_type == ObjectiveType::TimeLimit(t)
                && gs.game_time > t as int * 1000)),
        failure_of(gs, passengers) matches Some(FailureReason::TooManyGaveUp(n)) ==> n == gave_up_count(passengers) as u32
            && gave_up_count(passengers) > 3,
{
    if let Some(level) = gs.current_level {
        lemma_exceeded_limit(level.objectives@, gs.game_time);
    }
}

/// Whether the level is lost, and why.
pub fn check_level_failure_conditions(game_state: &GameState, passengers: &Vec<PathfindingAgent>) -> (r: Option<FailureReason>)
    requires
        passengers@.len() <= u32::MAX,
    ensures
        r == failure_of(*game_state, passengers@),
{
    let (_, gave_up) = count_arrivals(passengers);
    proof {
        lemma_counts_bound(passengers@);
    }
    if gave_up > 3 {
        return Some(FailureReason::TooManyGaveUp(gave_up as u32));
    }
    match &game_state.current_level {
        Some(level_data) => {
            let ghost objs = level_data.objectives@;
            let mut i: usize = 0;
            assert(objs.skip(0) =~= objs);
            while i < level_data.objectives.len()
                invariant
                    objs == level_data.objectives@,
                    game_state.current_level == Some(*level_data),
                    gave_up_count(passengers@) <= 3,
                    i <= objs.len(),
                    exceeded_limit(objs, game_state.game_time) == exceeded_limit(objs.skip(i as int), game_state.game_time),
                decreases level_data.objectives.len() - i,
            {
                assert(objs.skip(i as int)[0] == objs[i as int]);
                assert(objs.skip(i as int).skip(1) =~= objs.skip(i + 1));
                match level_data.objectives[i].condition_type {
                    ObjectiveType::TimeLimit(time_limit) => {
                        if game_state.game_time > time_limit as u64 * 1000 {
                            return Some(FailureReason::TimeUp(time_limit));
                        }
                    },
                    _ => {},
                }
                i = i + 1;
            }
            None
        },
        None => None,
    }
}

/// The cost up to which a level awards its cost bonus.
pub open spec fn cost_threshold(level_id: Seq<char>) -> u32 {
    if level_id == "tutorial_01"@ {
        10
    } else if level_id == "level_02_transfer"@ {
        15
    } else if level_id == "level_03_multiple_routes"@ {
        25
    } else if level_id == "level_04_time_pressure"@ {
        20
    } else {
        15
    }
}

/// The score of a level in progress: its base points, the efficiency bonus given, its
/// speed bonus within the first minute, and its cost bonus while the cost stays within the
/// level's threshold.
pub open spec fn score_for(level: LevelData, game_time: u64, total_cost: u32, efficiency_bonus: u32) -> GameScore {
    let speed = if game_time < 60_000 { level.scoring.speed_bonus } else { 0 };
    let cost = if total_cost <= cost_threshold(level.id@) { level.scoring.cost_bonus } else { 0 };
    GameScore {
        base_points: level.scoring.base_points,
        efficiency_bonus,
        speed_bonus: speed,
        cost_bonus: cost,
        total_score: (level.scoring.base_points + efficiency_bonus + speed + cost) as u32,
    }
}

/// The speed bonus rewards finishing within a minute: a game time below 60 000 ms earns
/// the level's full speed bonus, a minute or more earns none, so a faster finish never
/// scores less; the total adds the base points and the three bonuses.
pub proof fn law_speed_bonus_within_a_minute(level: LevelData, t1: u64, t2: u64, total_cost: u32, efficiency_bonus: u32)
    requires
        t1 <= t2,
        level.scoring.base_points + efficiency_bonus + level.scoring.speed_bonus + level.scoring.cost_bonus
            <= u32::MAX,
    ensures
        t1 < 60_000 ==> score_for(level, t1, total_cost, efficiency_bonus).speed_bonus == level.scoring.speed_bonus,
        t1 >= 60_000 ==> score_for(level, t1, total_cost, efficiency_bonus).speed_bonus == 0,
        score_for(level, t1, total_cost, efficiency_bonus).total_score >= score_for(
            level,
            t2,
            total_cost,
            efficiency_bonus,
        ).total_score,
        score_for(level, t1, total_cost, efficiency_bonus).total_score == level.scoring.base_points
            + efficiency_bonus + score_for(level, t1, total_cost, efficiency_bonus).speed_bonus + score_for(
            level,
            t1,
            total_cost,
            efficiency_bonus,
        ).cost_bonus,
{
}

/// The cost bonus rewards a cheap network: a build that costs no more than the level's
/// budget (10 for the tutorial, 15 for the transfer level, 25 for the multiple-routes level,
/// 20 for the time-pressure level, 15 otherwise) earns the level's full cost bonus, a
/// dearer one none, so building more cheaply never earns less.
pub proof fn law_cost_bonus_within_budget(level: LevelData, game_time: u64, c1: u32, c2: u32, efficiency_bonus: u32)
    requires
        c1 <= c2,
    ensures
        score_for(level, game_time, c2, efficiency_bonus).cost_bonus == level.scoring.cost_bonus ==> score_for(
            level,
            game_time,
            c1,
            efficiency_bonus,
        ).cost_bonus == level.scoring.cost_bonus,
        ({
            let budget: int = if level.id@ == "tutorial_01"@ {
                10
            } else if level.id@ == "level_02_transfer"@ {
                15
            } else if level.id@ == "level_03_multiple_routes"@ {
                25
            } else if level.id@ == "level_04_time_pressure"@ {
                20
            } else {
                15
            };
            score_for(level, game_time, c1, efficiency_bonus).cost_bonus == (if c1 <= budget {
                level.scoring.cost_bonus
            } else {
                0
            })
        }),
{
}

/// Recomputes the score of the level in progress, given its efficiency bonus.
pub fn update_game_score(game_state: &mut GameState, efficiency_bonus: u32)
    requires
        old(game_state).current_level matches Some(level) ==> level.scoring.base_points + efficiency_bonus
            + level.scoring.speed_bonus + level.scoring.cost_bonus <= u32::MAX,
    ensures
        old(game_state).current_level matches Some(level) ==> final(game_state).score == score_for(
            level,
            old(game_state).game_time,
            old(game_state).total_cost,
            efficiency_bonus,
        ),
        old(game_state).current_level is None ==> final(game_state).score == old(game_state).score,
        final(game_state).current_level == old(game_state).current_level,
        final(game_state).placed_segments == old(game_state).placed_segments,
        final(game_state).player_inventory == old(game_state).player_inventory,
        final(game_state).total_cost == old(game_state).total_cost,
        final(game_state).game_time == old(game_state).game_time,
        final(game_state).objectives_completed == old(game_state).objectives_completed,
        final(game_state).passenger_stats == old(game_state).passenger_stats,
{
    let score = match &game_state.current_level {
        Some(level_data) => {
            let base_points = level_data.scoring.base_points;
            let speed_bonus = if game_state.game_time < 60_000 {
                level_data.scoring.speed_bonus
            } else {
                0
            };
            let id = level_data.id.as_str();
            let cost_threshold: u32 = if text_eq(id, "tutorial_01") {
                10
            } else if text_eq(id, "level_02_transfer") {
                15
            } else if text_eq(id, "level_03_multiple_routes") {
                25
            } else if text_eq(id, "level_04_time_pressure") {
                20
            } else {
                15
            };
            let cost_bonus = if game_state.total_cost <= cost_threshold {
                level_data.scoring.cost_bonus
            } else {
                0
            };
            GameScore {
                base_points,
                efficiency_bonus,
                speed_bonus,
                cost_bonus,
                total_score: base_points + efficiency_bonus + speed_bonus + cost_bonus,
            }
        },
        None => {
            return;
        },
    };
    game_state.score = score;
}

/// The game clock moves on by `dt_ms` milliseconds unless the game is paused.
pub fn update_game_timer(game_state: &mut GameState, dt_ms: u64)
    requires
        old(game_state).game_time + dt_ms <= u64::MAX,
    ensures
        final(game_state).game_time == if old(game_state).is_paused {
            old(game_state).game_time
        } else {
            (old(game_state).game_time + dt_ms) as u64
        },
        final(game_state).is_paused == old(game_state).is_paused,
        final(game_state).current_level == old(game_state).current_level,
        final(game_state).placed_segments == old(game_state).placed_segments,
        final(game_state).total_cost == old(game_state).total_cost,
{
    if !game_state.is_paused {
        game_state.game_time = game_state.game_time + dt_ms;
    }
}

/// The inventory a list of offers gives: each offered kind with its count, a later offer
/// of the same kind replacing an earlier one.
pub open spec fn offered(segments: Seq<AvailableSegment>) -> Map<RouteSegmentType, u32>
    decreases segments.len(),
{
    if segments.len() == 0 {
        Map::empty()
    } else {
        offered(segments.drop_last()).insert(segments.last().segment_type, segments.last().count)
    }
}

/// The player's hand at the start of a level.
pub fn inventory_for(segments: &Vec<AvailableSegment>) -> (r: Inventory)
    ensures
        r@ == offered(segments@),
{
    let mut inventory = Inventory::new();
    let mut i: usize = 0;
    while i < segments.len()
        invariant
            i <= segments@.len(),
            inventory@ == offered(segments@.take(i as int)),
        decreases segments.len() - i,
    {
        proof {
            assert(segments@.take(i + 1).drop_last() =~= segments@.take(i as int));
        }
        inventory.insert(segments[i].segment_type, segments[i].count);
        i = i + 1;
    }
    assert(segments@.take(segments@.len() as int) =~= segments@);
    inventory
}

/// `b` is the level `a` with the spawn count of every demand set back to zero.
pub open spec fn level_restarted(a: LevelData, b: LevelData) -> bool {
    &&& b.id == a.id
    &&& b.name == a.name
    &&& b.description == a.description
    &&& b.name_key == a.name_key
    &&& b.description_key == a.description_key
    &&& b.difficulty == a.difficulty
    &&& b.grid_size == a.grid_size
    &&& b.terrain == a.terrain
    &&& b.stations == a.stations
    &&& b.available_segments == a.available_segments
    &&& b.objectives == a.objectives
    &&& b.preset_routes == a.preset_routes
    &&& b.dynamic_events == a.dynamic_events
    &&& b.scoring == a.scoring
    &&& b.passenger_demands@.len() == a.passenger_demands@.len()
    &&& forall|i: int|
        #![trigger b.passenger_demands@[i]]
        0 <= i < a.passenger_demands@.len() ==> {
            let x = a.passenger_demands@[i];
            let y = b.passenger_demands@[i];
            &&& y.color == x.color
            &&& y.origin == x.origin
            &&& y.destination == x.destination
            &&& y.origin_key == x.origin_key
            &&& y.destination_key == x.destination_key
            &&& y.spawn_rate == x.spawn_rate
            &&& y.patience == x.patience
            &&& y.spawn_time_range == x.spawn_time_range
            &&& y.total_count == x.total_count
            &&& y.spawned_count == 0
        }
}

/// Starts `level_data` afresh at `system_time_ms`: nothing placed, nothing spent, the clock
/// at zero, no objective met, no passenger counted, and the level's offers in hand.
pub fn reset_game_state(game_state: &mut GameState, level_data: LevelData, system_time_ms: u64)
    requires
        level_data.terrain.well_formed(),
    ensures
        game_well_formed(*final(game_state)),
        final(game_state).current_level matches Some(l) && level_restarted(level_data, l),
        final(game_state).placed_segments@ == Map::<GridPos, PlacedSegment>::empty(),
        final(game_state).total_cost == 0,
        final(game_state).game_time == 0,
        final(game_state).level_start_time == system_time_ms,
        !final(game_state).is_paused,
        final(game_state).score == (GameScore { base_points: 0, efficiency_bonus: 0, speed_bonus: 0, cost_bonus: 0, total_score: 0 }),
        final(game_state).objectives_completed@ == Seq::new(level_data.objectives@.len(), |i: int| false),
        final(game_state).passenger_stats == (PassengerStats { total_spawned: 0, total_arrived: 0, total_gave_up: 0 }),
        final(game_state).player_inventory@ == offered(level_data.available_segments@),
{
    let mut level = level_data;
    let mut i: usize = 0;
    while i < level.passenger_demands.len()
        invariant
            i <= level.passenger_demands@.len(),
            level.id == level_data.id,
            level.name == level_data.name,
            level.description == level_data.description,
            level.name_key == level_data.name_key,
            level.description_key == level_data.description_key,
            level.difficulty == level_data.difficulty,
            level.grid_size == level_data.grid_size,
            level.terrain == level_data.terrain,
            level.stations == level_data.stations,
            level.available_segments == level_data.available_segments,
            level.objectives == level_data.objectives,
            level.preset_routes == level_data.preset_routes,
            level.dynamic_events == level_data.dynamic_events,
            level.scoring == level_data.scoring,
            level.passenger_demands@.len() == level_data.passenger_demands@.len(),
            forall|k: int|
                #![trigger level.passenger_demands@[k]]
                0 <= k < level_data.passenger_demands@.len() ==> {
                    let x = level_data.passenger_demands@[k];
                    let y = level.passenger_demands@[k];
                    &&& y.color == x.color
                    &&& y.origin == x.origin
                    &&& y.destination == x.destination
                    &&& y.origin_key == x.origin_key
                    &&& y.destination_key == x.destination_key
                    &&& y.spawn_rate == x.spawn_rate
                    &&& y.patience == x.patience
                    &&& y.spawn_time_range == x.spawn_time_range
                    &&& y.total_count == x.total_count
                    &&& (k < i ==> y.spawned_count == 0)
                },
        decreases level.passenger_demands.len() - i,
    {
        level.passenger_demands[i].spawned_count = 0;
        i = i + 1;
    }
    let inventory = inventory_for(&level.available_segments);
    let mut flags: Vec<bool> = Vec::new();
    let mut j: usize = 0;
    while j < level.objectives.len()
        invariant
            j <= level.objectives@.len(),
            flags@ == Seq::new(j as nat, |x: int| false),
        decreases level.objectives.len() - j,
    {
        flags.push(false);
        proof {
            assert(flags@ =~= Seq::new((j + 1) as nat, |x: int| false));
        }
        j = j + 1;
    }
    game_state.current_level = Some(level);
    game_state.placed_segments.clear();
    game_state.total_cost = 0;
    game_state.game_time = 0;
    game_state.level_start_time = system_time_ms;
    game_state.is_paused = false;
    game_state.score = GameScore::default();
    game_state.objectives_completed = flags;
    game_state.passenger_stats = PassengerStats { total_spawned: 0, total_arrived: 0, total_gave_up: 0 };
    game_state.player_inventory = inventory;
}

/// A fresh game state: no level, nothing in hand, nothing placed, the clock at zero.
pub fn new_game_state() -> (r: GameState)
    ensures
        game_well_formed(r),
        r.current_level is None,
        r.player_inventory@ == Map::<RouteSegmentType, u32>::empty(),
        r.placed_segments@ == Map::<GridPos, PlacedSegment>::empty(),
        r.total_cost == 0,
        r.game_time == 0,
        r.level_start_time == 0,
        !r.is_paused,
        r.objectives_completed@.len() == 0,
        r.score == (GameScore { base_points: 0, efficiency_bonus: 0, speed_bonus: 0, cost_bonus: 0, total_score: 0 }),
        r.passenger_stats == (PassengerStats { total_spawned: 0, total_arrived: 0, total_gave_up: 0 }),
{
    let placed: PosMap<PlacedSegment> = PosMap::new();
    proof {
        assert(placed.entries@.len() == 0) by {
            if placed.entries@.len() > 0 {
                placed.lemma_index(0);
            }
        }
    }
    GameState {
        current_level: None,
        player_inventory: Inventory::new(),
        placed_segments: placed,
        total_cost: 0,
        game_time: 0,
        level_start_time: 0,
        is_paused: false,
        objectives_completed: Vec::new(),
        score: GameScore::default(),
        passenger_stats: PassengerStats { total_spawned: 0, total_arrived: 0, total_gave_up: 0 },
    }
}

/// A new passenger waits at its station: it has no path of its own and has not waited yet.
pub fn find_path_for_new_passenger(agent: &mut PathfindingAgent)
    ensures
        final(agent).current_path@.len() == 0,
        final(agent).current_step == 0,
        final(agent).state == AgentState::WaitingAtStation,
        final(agent).waiting_time == 0,
        final(agent).patience == old(agent).patience,
        final(agent).origin == old(agent).origin,
        final(agent).destination == old(agent).destination,
{
    agent.current_path.clear();
    agent.current_step = 0;
    agent.state = AgentState::WaitingAtStation;
    agent.waiting_time = 0;
}

/// One update of a passenger's own movement, `dt_ms` milliseconds after the last. Passengers
/// do not move by themselves: a waiting passenger waits longer, loses patience at a
/// twentieth of the time's rate and drops any path; a travelling or transferring one goes
/// back to waiting; arrived and given-up passengers stay. Whoever is left without patience
/// and has neither arrived nor given up gives up.
pub fn update_passenger_movement(agent: &mut PathfindingAgent, dt_ms: u64)
    requires
        old(agent).waiting_time + dt_ms <= u64::MAX,
        dt_ms * 50 <= i64::MAX,
        old(agent).patience - dt_ms * 50 >= i64::MIN,
    ensures
        final(agent).waiting_time == if old(agent).state == AgentState::WaitingAtStation {
            (old(agent).waiting_time + dt_ms) as u64
        } else {
            old(agent).waiting_time
        },
        final(agent).patience == if old(agent).state == AgentState::WaitingAtStation {
            old(agent).patience - dt_ms * 50
        } else {
            old(agent).patience as int
        },
        old(agent).state == AgentState::WaitingAtStation || old(agent).state == AgentState::Traveling
            || old(agent).state == AgentState::Transferring ==> final(agent).current_path@.len() == 0
            && (final(agent).current_step == 0 || old(agent).state == AgentState::WaitingAtStation && old(
            agent,
        ).current_path@.len() == 0 && final(agent).current_step == old(agent).current_step),
        final(agent).state == if final(agent).patience <= 0 && old(agent).state != AgentState::Arrived
            && old(agent).state != AgentState::GaveUp {
            AgentState::GaveUp
        } else if old(agent).state == AgentState::Traveling || old(agent).state == AgentState::Transferring {
            AgentState::WaitingAtStation
        } else {
            old(agent).state
        },
        old(agent).state == AgentState::Arrived || old(agent).state == AgentState::GaveUp ==> final(agent).current_path
            == old(agent).current_path && final(agent).current_step == old(agent).current_step,
        final(agent).origin == old(agent).origin,
        final(agent).destination == old(agent).destination,
{
    match agent.state {
        AgentState::WaitingAtStation => {
            agent.waiting_time = agent.waiting_time + dt_ms;
            agent.patience = agent.patience - (dt_ms as i64) * 50;
            if agent.current_path.len() > 0 {
                agent.current_path.clear();
                agent.current_step = 0;
            }
        },
        AgentState::Traveling => {
            agent.state = AgentState::WaitingAtStation;
            agent.current_path.clear();
            agent.current_step = 0;
        },
        AgentState::Transferring => {
            agent.state = AgentState::WaitingAtStation;
            agent.current_path.clear();
            agent.current_step = 0;
        },
        AgentState::Arrived => {},
        AgentState::GaveUp => {},
    }
    if agent.patience <= 0 && agent.state != AgentState::Arrived && agent.state != AgentState::GaveUp {
        agent.state = AgentState::GaveUp;
    }
}

/// A transferring passenger that has waited more than 0.8 seconds and is not yet at the
/// last step of its path moves one step on and travels again.
pub fn handle_passenger_transfers(agent: &mut PathfindingAgent)
    ensures
        (old(agent).state == AgentState::Transferring && old(agent).waiting_time > 800 && old(agent).current_step + 1
            < old(agent).current_path@.len()) ==> final(agent).current_step == old(agent).current_step + 1
            && final(agent).state == AgentState::Traveling && final(agent).waiting_time == 0
            && final(agent).current_path == old(agent).current_path && final(agent).patience == old(agent).patience,
        !(old(agent).state == AgentState::Transferring && old(agent).waiting_time > 800 && old(agent).current_step + 1
            < old(agent).current_path@.len()) ==> *final(agent) == *old(agent),
{
    let last = if agent.current_path.len() > 0 { agent.current_path.len() - 1 } else { 0 };
    if agent.state == AgentState::Transferring && agent.waiting_time > 800 && agent.current_step < last {
        agent.current_step = agent.current_step + 1;
        agent.state = AgentState::Traveling;
        agent.waiting_time = 0;
    }
}

/// Counts a finished passenger: an arrival or a passenger who gave up. Returns whether the
/// passenger is finished and leaves the game.
pub fn cleanup_finished_passenger(game_state: &mut GameState, state: AgentState) -> (r: bool)
    requires
        state == AgentState::Arrived ==> old(game_state).passenger_stats.total_arrived < u32::MAX,
        state == AgentState::GaveUp ==> old(game_state).passenger_stats.total_gave_up < u32::MAX,
    ensures
        r == (state == AgentState::Arrived || state == AgentState::GaveUp),
        final(game_state).passenger_stats == (PassengerStats {
            total_arrived: if state == AgentState::Arrived {
                (old(game_state).passenger_stats.total_arrived + 1) as u32
            } else {
                old(game_state).passenger_stats.total_arrived
            },
            total_gave_up: if state == AgentState::GaveUp {
                (old(game_state).passenger_stats.total_gave_up + 1) as u32
            } else {
                old(game_state).passenger_stats.total_gave_up
            },
            ..old(game_state).passenger_stats
        }),
        final(game_state).current_level == old(game_state).current_level,
        final(game_state).placed_segments == old(game_state).placed_segments,
        final(game_state).total_cost == old(game_state).total_cost,
        final(game_state).game_time == old(game_state).game_time,
        final(game_state).objectives_completed == old(game_state).objectives_completed,
{
    match state {
        AgentState::Arrived => {
            game_state.passenger_stats.total_arrived = game_state.passenger_stats.total_arrived + 1;
            true
        },
        AgentState::GaveUp => {
            game_state.passenger_stats.total_gave_up = game_state.passenger_stats.total_gave_up + 1;
            true
        },
        _ => false,
    }
}

/// Counts a passenger that appeared.
pub fn handle_passenger_spawn(game_state: &mut GameState)
    requires
        old(game_state).passenger_stats.total_spawned < u32::MAX,
    ensures
        final(game_state).passenger_stats == (PassengerStats {
            total_spawned: (old(game_state).passenger_stats.total_spawned + 1) as u32,
            ..old(game_state).passenger_stats
        }),
        final(game_state).current_level == old(game_state).current_level,
        final(game_state).placed_segments == old(game_state).placed_segments,
        final(game_state).total_cost == old(game_state).total_cost,
        final(game_state).game_time == old(game_state).game_time,
        final(game_state).objectives_completed == old(game_state).objectives_completed,
{
    game_state.passenger_stats.total_spawned = game_state.passenger_stats.total_spawned + 1;
}

/// Starts the game on `level_data` at `now_ms`: the level's offers in hand and one
/// objective flag, not yet met.
pub fn initialize_game_state(game_state: &mut GameState, level_data: LevelData, now_ms: u64)
    requires
        game_well_formed(*old(game_state)),
        level_data.terrain.well_formed(),
    ensures
        game_well_formed(*final(game_state)),
        final(game_state).current_level == Some(level_data),
        final(game_state).player_inventory@ == offered(level_data.available_segments@),
        final(game_state).objectives_completed@ == seq![false],
        final(game_state).level_start_time == now_ms,
        final(game_state).placed_segments == old(game_state).placed_segments,
        final(game_state).total_cost == old(game_state).total_cost,
        final(game_state).game_time == old(game_state).game_time,
{
    let inventory = inventory_for(&level_data.available_segments);
    game_state.current_level = Some(level_data);
    game_state.player_inventory = inventory;
    game_state.objectives_completed = vec![false];
    game_state.level_start_time = now_ms;
    assert(game_state.objectives_completed@ =~= seq![false]);
}

/// Chooses the segment kind `t` from the inventory when the player has one left; choosing
/// another kind than before turns the preview back to 0°. Returns whether it was chosen.
pub fn handle_inventory_selection(input_state: &mut InputState, game_state: &GameState, t: RouteSegmentType) -> (r: bool)
    ensures
        r == (stock_left(game_state.player_inventory@, t) > 0),
        r ==> final(input_state).selected_segment == Some(t) && final(input_state).preview_rotation == (if old(
            input_state,
        ).selected_segment != Some(t) {
            0
        } else {
            old(input_state).preview_rotation
        }),
        !r ==> *final(input_state) == *old(input_state),
        final(input_state).grid_cursor_pos == old(input_state).grid_cursor_pos,
{
    let available_count = match game_state.player_inventory.get(t) {
        Some(n) => n,
        None => 0,
    };
    if available_count > 0 {
        let same = match input_state.selected_segment {
            Some(s) => s == t,
            None => false,
        };
        if !same {
            input_state.preview_rotation = 0;
        }
        input_state.selected_segment = Some(t);
        true
    } else {
        false
    }
}

/// The number keys 1 to 4 set the preview of a chosen segment to 0°, 90°, 180° or 270°.
pub fn handle_quick_rotation_keys(input_state: &mut InputState, digit: u32)
    ensures
        old(input_state).selected_segment is Some && 1 <= digit <= 4 ==> final(input_state).preview_rotation == (digit - 1)
            * 90,
        !(old(input_state).selected_segment is Some && 1 <= digit <= 4) ==> *final(input_state) == *old(input_state),
        final(input_state).selected_segment == old(input_state).selected_segment,
        final(input_state).grid_cursor_pos == old(input_state).grid_cursor_pos,
{
    if input_state.selected_segment.is_some() {
        if digit == 1 {
            input_state.preview_rotation = 0;
        } else if digit == 2 {
            input_state.preview_rotation = 90;
        } else if digit == 3 {
            input_state.preview_rotation = 180;
        } else if digit == 4 {
            input_state.preview_rotation = 270;
        }
    }
}

/// Escape drops the chosen segment and turns the preview back to 0°.
pub fn reset_preview_rotation_on_deselect(input_state: &mut InputState)
    ensures
        final(input_state).selected_segment is None,
        final(input_state).preview_rotation == 0,
        final(input_state).grid_cursor_pos == old(input_state).grid_cursor_pos,
        final(input_state).is_dragging == old(input_state).is_dragging,
{
    input_state.selected_segment = None;
    input_state.preview_rotation = 0;
}

/// What rotating did.
#[derive(Debug, Clone, Copy, PartialEq, Eq, Structural)]
pub enum RotationOutcome {
    Placed(u32),
    Preview(u32),
    Nothing,
}

/// Rotating turns the placed segment under the cursor a quarter turn; with no segment there
/// it turns the preview of the chosen kind instead.
pub fn handle_segment_rotation(game_state: &mut GameState, input_state: &mut InputState) -> (r: RotationOutcome)
    requires
        game_well_formed(*old(game_state)),
    ensures
        game_well_formed(*final(game_state)),
        match old(input_state).grid_cursor_pos {
            None => r == RotationOutcome::Nothing && final(game_state).placed_segments@ == old(game_state).placed_segments@
                && *final(input_state) == *old(input_state),
            Some(pos) => if old(game_state).placed_segments@.contains_key(pos) {
                r == RotationOutcome::Placed(quarter_turn(old(game_state).placed_segments@[pos].rotation as int) as u32)
                    && final(game_state).placed_segments@ == old(game_state).placed_segments@.insert(
                    pos,
                    PlacedSegment {
                        rotation: quarter_turn(old(game_state).placed_segments@[pos].rotation as int) as u32,
                        ..old(game_state).placed_segments@[pos]
                    },
                ) && *final(input_state) == *old(input_state)
            } else if old(input_state).selected_segment is Some {
                r == RotationOutcome::Preview(quarter_turn(old(input_state).preview_rotation as int) as u32)
                    && final(input_state).preview_rotation == quarter_turn(old(input_state).preview_rotation as int)
                    && final(input_state).selected_segment == old(input_state).selected_segment
                    && final(input_state).grid_cursor_pos == old(input_state).grid_cursor_pos
                    && final(game_state).placed_segments@ == old(game_state).placed_segments@
            } else {
                r == RotationOutcome::Nothing && final(game_state).placed_segments@ == old(game_state).placed_segments@
                    && *final(input_state) == *old(input_state)
            },
        },
        final(game_state).total_cost == old(game_state).total_cost,
        final(game_state).player_inventory@ == old(game_state).player_inventory@,
        final(game_state).current_level == old(game_state).current_level,
{
    match input_state.grid_cursor_pos {
        None => RotationOutcome::Nothing,
        Some(pos) => {
            match rotate_segment_at(game_state, pos) {
                Some(n) => RotationOutcome::Placed(n),
                None => {
                    if input_state.selected_segment.is_some() {
                        input_state.preview_rotation = next_rotation(input_state.preview_rotation);
                        RotationOutcome::Preview(input_state.preview_rotation)
                    } else {
                        RotationOutcome::Nothing
                    }
                },
            }
        },
    }
}

/// What pressing a button leads to.
#[derive(Debug, Clone, Copy, PartialEq, Eq, Structural)]
pub enum ButtonEffect {
    Stay,
    GoTo(GameStateEnum),
    Quit,
}

/// Presses a button: the menu buttons move between screens, "next level" moves the level
/// index on (to the main menu past the last level), and an inventory slot chooses its
/// segment kind while a game is being played and there is one left.
pub fn handle_button_press(
    button: ButtonType,
    current_screen: GameStateEnum,
    level_manager: &mut LevelManager,
    input_state: &mut InputState,
    game_state: &GameState,
) -> (r: ButtonEffect)
    requires
        old(level_manager).current_level_index < usize::MAX,
    ensures
        button == ButtonType::StartGame ==> r == ButtonEffect::GoTo(GameStateEnum::Playing),
        button == ButtonType::QuitGame ==> r == ButtonEffect::Quit,
        button == ButtonType::PauseGame ==> r == ButtonEffect::GoTo(GameStateEnum::Paused),
        button == ButtonType::ResumeGame ==> r == ButtonEffect::GoTo(GameStateEnum::Playing),
        button == ButtonType::RestartLevel ==> r == ButtonEffect::GoTo(GameStateEnum::Loading),
        button == ButtonType::MainMenu ==> r == ButtonEffect::GoTo(GameStateEnum::MainMenu),
        button == ButtonType::ToggleLanguage ==> r == ButtonEffect::Stay,
        button == ButtonType::NextLevel ==> final(level_manager).current_level_index == old(level_manager).current_level_index
            + 1 && r == ButtonEffect::GoTo(if old(level_manager).current_level_index + 1 < old(
            level_manager,
        ).available_levels@.len() {
            GameStateEnum::Loading
        } else {
            GameStateEnum::MainMenu
        }),
        button != ButtonType::NextLevel ==> final(level_manager).current_level_index == old(level_manager).current_level_index,
        final(level_manager).available_levels == old(level_manager).available_levels,
        final(level_manager).unlocked_levels == old(level_manager).unlocked_levels,
        button matches ButtonType::InventorySlot(t) ==> r == ButtonEffect::Stay && (if current_screen
            == GameStateEnum::Playing && !game_state.is_paused && stock_left(game_state.player_inventory@, t) > 0 {
            final(input_state).selected_segment == Some(t) && final(input_state).preview_rotation
                == old(input_state).preview_rotation
        } else {
            *final(input_state) == *old(input_state)
        }),
        !(button is InventorySlot) ==> *final(input_state) == *old(input_state),
{
    match button {
        ButtonType::StartGame => ButtonEffect::GoTo(GameStateEnum::Playing),
        ButtonType::QuitGame => ButtonEffect::Quit,
        ButtonType::PauseGame => ButtonEffect::GoTo(GameStateEnum::Paused),
        ButtonType::ResumeGame => ButtonEffect::GoTo(GameStateEnum::Playing),
        ButtonType::RestartLevel => ButtonEffect::GoTo(GameStateEnum::Loading),
        ButtonType::MainMenu => ButtonEffect::GoTo(GameStateEnum::MainMenu),
        ButtonType::NextLevel => {
            level_manager.current_level_index = level_manager.current_level_index + 1;
            if level_manager.current_level_index < level_manager.available_levels.len() {
                ButtonEffect::GoTo(GameStateEnum::Loading)
            } else {
                ButtonEffect::GoTo(GameStateEnum::MainMenu)
            }
        },
        ButtonType::InventorySlot(segment_type) => {
            if current_screen == GameStateEnum::Playing && !game_state.is_paused {
                let available_count = match game_state.player_inventory.get(segment_type) {
                    Some(n) => n,
                    None => 0,
                };
                if available_count > 0 {
                    input_state.selected_segment = Some(segment_type);
                }
            }
            ButtonEffect::Stay
        },
        ButtonType::ToggleLanguage => ButtonEffect::Stay,
    }
}

} // verus!
