use last_stop::bus_puzzle::bus_pathfinding_system::disable_passenger_pathfinding_system;
use last_stop::bus_puzzle::components::AgentState;
use last_stop::bus_puzzle::components::PassengerColor;
use last_stop::bus_puzzle::interaction::{
    check_level_failure_conditions, check_objective_completion, check_placement,
    cleanup_finished_passenger, count_arrivals, count_transfers_in_path, handle_button_press,
    handle_inventory_selection, handle_level_completion, handle_passenger_spawn,
    handle_passenger_transfers, handle_quick_rotation_keys, handle_segment_rotation,
    initialize_game_state, inventory_for, is_valid_placement, new_game_state, next_rotation,
    handle_segment_placement, place_segment, remove_segment, reset_game_state, PlacementOutcome, reset_preview_rotation_on_deselect,
    rotate_segment_at, update_game_score, update_game_timer, update_passenger_movement,
    ButtonEffect, FailureReason, PathfindingAgent, PlacementCheck, RotationOutcome,
};
use last_stop::bus_puzzle::level_system::{
    create_tutorial_level, AvailableSegment, ObjectiveCondition, ObjectiveType,
};
use last_stop::bus_puzzle::localization::Language;
use last_stop::bus_puzzle::pathfinding::{PathNode, PathNodeType};
use last_stop::bus_puzzle::resources::{GameState, GameStateEnum, InputState, LevelManager};
use last_stop::bus_puzzle::ui_audio::ButtonType;
use last_stop::bus_puzzle::{GridPos, RouteSegmentType};

fn tutorial_game() -> GameState {
    let mut gs = new_game_state();
    initialize_game_state(&mut gs, create_tutorial_level(Language::English), 1_000);
    gs
}

fn agent(state: AgentState, path: Vec<PathNode>) -> PathfindingAgent {
    PathfindingAgent {
        color: PassengerColor::Red,
        origin: "Station A".to_string(),
        destination: "Station B".to_string(),
        current_path: path,
        current_step: 0,
        state,
        patience: 60_000_000,
        max_patience: 60_000_000,
        waiting_time: 0,
    }
}

fn step(x: i32, route: Option<&str>) -> PathNode {
    PathNode {
        position: GridPos::new(x, 0),
        node_type: PathNodeType::RouteSegment,
        estimated_wait_time: 0,
        route_id: route.map(|r| r.to_string()),
    }
}

fn objective(kind: ObjectiveType) -> ObjectiveCondition {
    ObjectiveCondition { description: String::new(), description_key: None, condition_type: kind }
}

#[test]
fn initialized_game_holds_the_level_offers() {
    let gs = tutorial_game();
    assert_eq!(gs.player_inventory.get(RouteSegmentType::Straight), Some(8));
    assert_eq!(gs.player_inventory.get(RouteSegmentType::Curve), Some(4));
    assert_eq!(gs.player_inventory.get(RouteSegmentType::Bridge), None);
    assert_eq!(gs.objectives_completed, vec![false]);
    assert_eq!(gs.level_start_time, 1_000);
    assert_eq!(gs.total_cost, 0);
}

#[test]
fn placement_checks_cell_then_stock() {
    let gs = tutorial_game();
    // (4, 3) is a building, (6, 2) water, (20, 20) off the grid.
    assert!(!is_valid_placement(&gs, GridPos::new(4, 3), &RouteSegmentType::Straight));
    assert!(!is_valid_placement(&gs, GridPos::new(6, 2), &RouteSegmentType::Straight));
    assert!(is_valid_placement(&gs, GridPos::new(6, 2), &RouteSegmentType::Bridge));
    assert!(!is_valid_placement(&gs, GridPos::new(20, 20), &RouteSegmentType::Straight));
    assert!(is_valid_placement(&gs, GridPos::new(2, 4), &RouteSegmentType::Straight));
    assert_eq!(check_placement(&gs, GridPos::new(4, 3), RouteSegmentType::Straight), PlacementCheck::InvalidPosition);
    assert_eq!(check_placement(&gs, GridPos::new(6, 2), RouteSegmentType::Bridge), PlacementCheck::NotOffered);
    assert_eq!(check_placement(&gs, GridPos::new(2, 4), RouteSegmentType::Straight), PlacementCheck::Allowed);
}

#[test]
fn placing_spends_stock_and_cost_and_removing_gives_them_back() {
    let mut gs = tutorial_game();
    place_segment(&mut gs, GridPos::new(2, 4), RouteSegmentType::Curve, 90, 7);
    assert_eq!(gs.total_cost, 2);
    assert_eq!(gs.player_inventory.get(RouteSegmentType::Curve), Some(3));
    assert!(!is_valid_placement(&gs, GridPos::new(2, 4), &RouteSegmentType::Straight));
    let seg = remove_segment(&mut gs, GridPos::new(2, 4)).expect("the placed segment");
    assert_eq!(seg.segment_type, RouteSegmentType::Curve);
    assert_eq!(seg.rotation, 90);
    assert_eq!(seg.entity, 7);
    assert_eq!(gs.total_cost, 0);
    assert_eq!(gs.player_inventory.get(RouteSegmentType::Curve), Some(4));
    assert!(remove_segment(&mut gs, GridPos::new(2, 4)).is_none());
}

#[test]
fn placing_from_the_cursor_resets_the_preview() {
    let mut gs = tutorial_game();
    let mut input = InputState::default();
    assert_eq!(handle_segment_placement(&mut gs, &mut input, 3), PlacementOutcome::NoSelection);
    input.selected_segment = Some(RouteSegmentType::Curve);
    input.grid_cursor_pos = Some(GridPos::new(2, 4));
    input.preview_rotation = 180;
    let out = handle_segment_placement(&mut gs, &mut input, 3);
    assert_eq!(out, PlacementOutcome::Placed { position: GridPos::new(2, 4), segment_type: RouteSegmentType::Curve, rotation: 180 });
    assert_eq!(input.preview_rotation, 0);
    assert_eq!(gs.total_cost, 2);
    assert_eq!(gs.player_inventory.get(RouteSegmentType::Curve), Some(3));
    assert_eq!(gs.placed_segments.get(GridPos::new(2, 4)).unwrap().rotation, 180);
    input.preview_rotation = 90;
    let again = handle_segment_placement(&mut gs, &mut input, 4);
    assert_eq!(again, PlacementOutcome::Refused(PlacementCheck::InvalidPosition));
    assert_eq!(input.preview_rotation, 90);
    assert_eq!(gs.total_cost, 2);
}

#[test]
fn running_out_of_stock_blocks_placement() {
    let mut gs = new_game_state();
    let mut level = create_tutorial_level(Language::English);
    level.available_segments = vec![AvailableSegment { segment_type: RouteSegmentType::Cross, count: 1, cost: 4 }];
    initialize_game_state(&mut gs, level, 0);
    place_segment(&mut gs, GridPos::new(1, 1), RouteSegmentType::Cross, 0, 1);
    assert_eq!(check_placement(&gs, GridPos::new(2, 1), RouteSegmentType::Cross), PlacementCheck::OutOfStock);
}

#[test]
fn rotation_steps_a_quarter_turn() {
    assert_eq!(next_rotation(0), 90);
    assert_eq!(next_rotation(270), 0);
    assert_eq!(next_rotation(450), 180);
    let mut gs = tutorial_game();
    place_segment(&mut gs, GridPos::new(2, 4), RouteSegmentType::Straight, 270, 1);
    assert_eq!(rotate_segment_at(&mut gs, GridPos::new(2, 4)), Some(0));
    assert_eq!(rotate_segment_at(&mut gs, GridPos::new(3, 4)), None);
    let mut r = 0;
    for _ in 0..4 {
        r = rotate_segment_at(&mut gs, GridPos::new(2, 4)).unwrap();
    }
    assert_eq!(r, 0);
}

#[test]
fn rotating_prefers_the_segment_under_the_cursor() {
    let mut gs = tutorial_game();
    let mut input = InputState::default();
    assert_eq!(handle_segment_rotation(&mut gs, &mut input), RotationOutcome::Nothing);
    input.grid_cursor_pos = Some(GridPos::new(2, 4));
    input.selected_segment = Some(RouteSegmentType::Straight);
    assert_eq!(handle_segment_rotation(&mut gs, &mut input), RotationOutcome::Preview(90));
    assert_eq!(input.preview_rotation, 90);
    place_segment(&mut gs, GridPos::new(2, 4), RouteSegmentType::Straight, 0, 1);
    assert_eq!(handle_segment_rotation(&mut gs, &mut input), RotationOutcome::Placed(90));
    assert_eq!(input.preview_rotation, 90);
}

#[test]
fn inventory_selection_and_rotation_keys() {
    let gs = tutorial_game();
    let mut input = InputState::default();
    input.preview_rotation = 180;
    assert!(!handle_inventory_selection(&mut input, &gs, RouteSegmentType::Tunnel));
    assert_eq!(input.selected_segment, None);
    assert!(handle_inventory_selection(&mut input, &gs, RouteSegmentType::Curve));
    assert_eq!(input.selected_segment, Some(RouteSegmentType::Curve));
    assert_eq!(input.preview_rotation, 0);
    handle_quick_rotation_keys(&mut input, 3);
    assert_eq!(input.preview_rotation, 180);
    handle_quick_rotation_keys(&mut input, 9);
    assert_eq!(input.preview_rotation, 180);
    reset_preview_rotation_on_deselect(&mut input);
    assert_eq!(input.selected_segment, None);
    assert_eq!(input.preview_rotation, 0);
    handle_quick_rotation_keys(&mut input, 2);
    assert_eq!(input.preview_rotation, 0);
}

#[test]
fn transfers_count_route_changes() {
    let path = vec![step(0, None), step(1, Some("r1")), step(2, None), step(3, Some("r1")), step(4, Some("r2")), step(5, Some("r1"))];
    assert_eq!(count_transfers_in_path(&path), 2);
    assert_eq!(count_transfers_in_path(&vec![]), 0);
}

#[test]
fn objectives_are_checked_against_the_state() {
    let mut gs = tutorial_game();
    let arrived = vec![agent(AgentState::Arrived, vec![step(0, Some("a")), step(1, Some("b"))]), agent(AgentState::WaitingAtStation, vec![])];
    assert!(!check_objective_completion(&objective(ObjectiveType::ConnectAllPassengers), &gs, &arrived, 0));
    handle_passenger_spawn(&mut gs);
    assert!(cleanup_finished_passenger(&mut gs, AgentState::Arrived));
    assert!(check_objective_completion(&objective(ObjectiveType::ConnectAllPassengers), &gs, &arrived, 0));
    assert!(check_objective_completion(&objective(ObjectiveType::MaxTransfers(1)), &gs, &arrived, 0));
    assert!(!check_objective_completion(&objective(ObjectiveType::MaxTransfers(0)), &gs, &arrived, 0));
    assert!(check_objective_completion(&objective(ObjectiveType::MaxCost(0)), &gs, &arrived, 0));
    assert!(check_objective_completion(&objective(ObjectiveType::MaxSegments(0)), &gs, &arrived, 0));
    assert!(check_objective_completion(&objective(ObjectiveType::PassengerSatisfaction(50)), &gs, &arrived, 0));
    assert!(!check_objective_completion(&objective(ObjectiveType::PassengerSatisfaction(51)), &gs, &arrived, 0));
    assert!(check_objective_completion(&objective(ObjectiveType::PassengerSatisfaction(100)), &gs, &vec![], 0));
    assert!(check_objective_completion(&objective(ObjectiveType::MinEfficiency(70)), &gs, &arrived, 70));
    assert!(!check_objective_completion(&objective(ObjectiveType::MinEfficiency(70)), &gs, &arrived, 69));
    gs.game_time = 30_001;
    assert!(!check_objective_completion(&objective(ObjectiveType::TimeLimit(30)), &gs, &arrived, 0));
}

#[test]
fn level_completes_when_every_objective_is_met() {
    let mut gs = tutorial_game();
    assert_eq!(handle_level_completion(&gs), None);
    gs.objectives_completed = vec![true];
    gs.score.total_score = 120;
    gs.game_time = 42_000;
    assert_eq!(handle_level_completion(&gs), Some((120, 42_000)));
    gs.objectives_completed = vec![];
    assert_eq!(handle_level_completion(&gs), None);
    assert_eq!(handle_level_completion(&new_game_state()), None);
}

#[test]
fn failure_after_more_than_three_gave_up_or_past_a_time_limit() {
    let mut gs = tutorial_game();
    let three: Vec<_> = (0..3).map(|_| agent(AgentState::GaveUp, vec![])).collect();
    assert_eq!(check_level_failure_conditions(&gs, &three), None);
    let four: Vec<_> = (0..4).map(|_| agent(AgentState::GaveUp, vec![])).collect();
    assert_eq!(check_level_failure_conditions(&gs, &four), Some(FailureReason::TooManyGaveUp(4)));
    let mut level = create_tutorial_level(Language::English);
    level.objectives.push(objective(ObjectiveType::TimeLimit(90)));
    gs.current_level = Some(level);
    gs.game_time = 90_000;
    assert_eq!(check_level_failure_conditions(&gs, &three), None);
    gs.game_time = 90_001;
    assert_eq!(check_level_failure_conditions(&gs, &three), Some(FailureReason::TimeUp(90)));
    assert_eq!(count_arrivals(&four), (0, 4));
}

#[test]
fn score_adds_speed_and_cost_bonuses() {
    let mut gs = tutorial_game();
    update_game_score(&mut gs, 30);
    assert_eq!(gs.score.base_points, 100);
    assert_eq!(gs.score.speed_bonus, 25);
    assert_eq!(gs.score.cost_bonus, 25);
    assert_eq!(gs.score.total_score, 180);
    gs.game_time = 60_000;
    gs.total_cost = 11;
    update_game_score(&mut gs, 0);
    assert_eq!(gs.score.speed_bonus, 0);
    assert_eq!(gs.score.cost_bonus, 0);
    assert_eq!(gs.score.total_score, 100);
}

#[test]
fn timer_stops_while_paused() {
    let mut gs = tutorial_game();
    update_game_timer(&mut gs, 16);
    assert_eq!(gs.game_time, 16);
    gs.is_paused = true;
    update_game_timer(&mut gs, 16);
    assert_eq!(gs.game_time, 16);
}

#[test]
fn reset_starts_the_level_afresh() {
    let mut gs = tutorial_game();
    place_segment(&mut gs, GridPos::new(2, 4), RouteSegmentType::Straight, 0, 1);
    gs.game_time = 5_000;
    let mut level = create_tutorial_level(Language::English);
    level.passenger_demands[0].spawned_count = 2;
    reset_game_state(&mut gs, level, 77);
    assert_eq!(gs.total_cost, 0);
    assert_eq!(gs.game_time, 0);
    assert_eq!(gs.level_start_time, 77);
    assert_eq!(gs.placed_segments.len(), 0);
    assert_eq!(gs.player_inventory.get(RouteSegmentType::Straight), Some(8));
    assert_eq!(gs.current_level.as_ref().unwrap().passenger_demands[0].spawned_count, 0);
    assert_eq!(gs.objectives_completed, vec![false]);
}

#[test]
fn later_offers_replace_earlier_ones() {
    let inv = inventory_for(&vec![
        AvailableSegment { segment_type: RouteSegmentType::Straight, count: 3, cost: 1 },
        AvailableSegment { segment_type: RouteSegmentType::Straight, count: 5, cost: 1 },
    ]);
    assert_eq!(inv.get(RouteSegmentType::Straight), Some(5));
    assert_eq!(inv.get(RouteSegmentType::Curve), None);
}

#[test]
fn waiting_passengers_lose_patience_and_give_up() {
    let mut a = agent(AgentState::WaitingAtStation, vec![]);
    a.patience = 1_000;
    update_passenger_movement(&mut a, 10);
    assert_eq!(a.waiting_time, 10);
    assert_eq!(a.patience, 500);
    assert_eq!(a.state, AgentState::WaitingAtStation);
    update_passenger_movement(&mut a, 10);
    assert_eq!(a.patience, 0);
    assert_eq!(a.state, AgentState::GaveUp);
    let mut t = agent(AgentState::Traveling, vec![step(0, None)]);
    update_passenger_movement(&mut t, 10);
    assert_eq!(t.state, AgentState::WaitingAtStation);
    assert!(t.current_path.is_empty());
}

#[test]
fn transfers_move_on_after_the_wait() {
    let mut a = agent(AgentState::Transferring, vec![step(0, None), step(1, None)]);
    a.waiting_time = 800;
    handle_passenger_transfers(&mut a);
    assert_eq!(a.state, AgentState::Transferring);
    a.waiting_time = 801;
    handle_passenger_transfers(&mut a);
    assert_eq!(a.state, AgentState::Traveling);
    assert_eq!(a.current_step, 1);
    assert_eq!(a.waiting_time, 0);
}

#[test]
fn buttons_move_between_screens() {
    let gs = tutorial_game();
    let mut lm = LevelManager::default();
    let mut input = InputState::default();
    assert_eq!(handle_button_press(ButtonType::StartGame, GameStateEnum::MainMenu, &mut lm, &mut input, &gs), ButtonEffect::GoTo(GameStateEnum::Playing));
    assert_eq!(handle_button_press(ButtonType::QuitGame, GameStateEnum::MainMenu, &mut lm, &mut input, &gs), ButtonEffect::Quit);
    assert_eq!(handle_button_press(ButtonType::NextLevel, GameStateEnum::LevelComplete, &mut lm, &mut input, &gs), ButtonEffect::GoTo(GameStateEnum::Loading));
    assert_eq!(lm.current_level_index, 1);
    lm.current_level_index = 3;
    assert_eq!(handle_button_press(ButtonType::NextLevel, GameStateEnum::LevelComplete, &mut lm, &mut input, &gs), ButtonEffect::GoTo(GameStateEnum::MainMenu));
    assert_eq!(handle_button_press(ButtonType::InventorySlot(RouteSegmentType::Curve), GameStateEnum::Playing, &mut lm, &mut input, &gs), ButtonEffect::Stay);
    assert_eq!(input.selected_segment, Some(RouteSegmentType::Curve));
}

#[test]
fn waiting_passengers_drop_their_own_paths() {
    let mut waiting = agent(AgentState::WaitingAtStation, vec![step(0, None), step(1, None)]);
    waiting.current_step = 1;
    let riding = agent(AgentState::Traveling, vec![step(0, None)]);
    let mut all = vec![waiting, riding];
    disable_passenger_pathfinding_system(&mut all);
    assert!(all[0].current_path.is_empty());
    assert_eq!(all[0].current_step, 0);
    assert_eq!(all[0].state, AgentState::WaitingAtStation);
    assert_eq!(all[1].current_path.len(), 1);
    assert_eq!(all[1].state, AgentState::Traveling);
}
