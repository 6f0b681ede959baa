use last_stop::bus_puzzle::bus_pathfinding_system::{BusPathfindingAgent, BusPathfindingState};
use last_stop::bus_puzzle::bus_system::{BusDirection, BusVehicle};
use last_stop::bus_puzzle::components::{AgentState, PassengerColor, RouteSegment, StationType, TerrainType};
use last_stop::bus_puzzle::events::{LevelCompletedEvent, SegmentPlacedEvent};
use last_stop::bus_puzzle::interaction::{initialize_game_state, new_game_state, PathfindingAgent};
use last_stop::bus_puzzle::level_system::{
    calculate_level_rating, create_level_by_id, create_multiple_routes_level, create_time_pressure_level,
    create_transfer_level, create_tutorial_level, demand_is_open, find_origin_station, get_station_texture,
    get_terrain_texture, handle_dynamic_events, load_current_level, new_passenger, passenger_texture,
    spawn_decision, update_passenger_spawning, DynamicEvent, EventType, ObjectiveCondition, ObjectiveType,
};
use last_stop::bus_puzzle::localization::Language;
use last_stop::bus_puzzle::passenger_boarding_system::{
    check_suitable_bus, handle_passenger_alighting, handle_passenger_boarding, update_waiting_passenger,
    AlightingOutcome, OnBus,
};
use last_stop::bus_puzzle::resources::LevelManager;
use last_stop::bus_puzzle::tips_system::{check_contextual_tips, tip_type_color, TipType, TipsManager};
use last_stop::bus_puzzle::ui_audio::{
    advance_to_next_level, get_failure_tip, get_level_passenger_colors, get_objective_passenger_colors,
    language_toggle_label, level_complete_summary, parse_language_code, passenger_color_counts, toggle_language,
    LevelCompleteData,
};
use last_stop::bus_puzzle::utils::{get_neighbors, get_passenger_color, manhattan_distance, Rgb};
use last_stop::bus_puzzle::{GridPos, RouteSegmentType};

fn agent(color: PassengerColor, state: AgentState) -> PathfindingAgent {
    PathfindingAgent {
        color,
        origin: "A".to_string(),
        destination: "B".to_string(),
        current_path: vec![],
        current_step: 0,
        state,
        patience: 60_000_000,
        max_patience: 60_000_000,
        waiting_time: 0,
    }
}

fn line_bus(stations: &[&str], state: BusPathfindingState, target: &str) -> BusPathfindingAgent {
    BusPathfindingAgent {
        vehicle_id: "v".to_string(),
        route_id: "r".to_string(),
        current_path: vec![],
        current_step: 0,
        target_station: target.to_string(),
        state,
        next_station_index: 0,
        stations_to_visit: stations.iter().map(|s| s.to_string()).collect(),
        direction: BusDirection::Forward,
        is_returning: false,
    }
}

#[test]
fn tutorial_level_contents() {
    let level = create_tutorial_level(Language::English);
    assert_eq!(level.id, "tutorial_01");
    assert_eq!(level.grid_size, (10, 8));
    assert_eq!(level.stations.len(), 2);
    assert_eq!(level.stations[0].position, GridPos::new(1, 4));
    assert_eq!(level.stations[0].name, "Station A");
    assert_eq!(level.stations[1].position, GridPos::new(8, 4));
    assert_eq!(level.terrain.get(GridPos::new(4, 3)), Some(TerrainType::Building));
    assert_eq!(level.terrain.get(GridPos::new(6, 2)), Some(TerrainType::Water));
    assert_eq!(level.terrain.get(GridPos::new(0, 0)), Some(TerrainType::Empty));
    assert_eq!(level.terrain.get(GridPos::new(10, 0)), None);
    assert_eq!(level.passenger_demands.len(), 1);
    assert_eq!(level.passenger_demands[0].total_count, Some(3));
    assert_eq!(level.available_segments.len(), 4);
    assert_eq!(level.objectives[0].condition_type, ObjectiveType::ConnectAllPassengers);
    assert_eq!(level.objectives[0].description, "Connect all passengers to destinations");
    assert_eq!(level.scoring.base_points, 100);
    assert_eq!(level.get_localized_name(Language::Chinese), "第一次连接");
    let zh = create_tutorial_level(Language::Chinese);
    assert_eq!(zh.objectives[0].description, "连接所有乘客到目的地");
}

#[test]
fn other_levels_by_id() {
    assert_eq!(create_transfer_level(Language::English).id, "level_02_transfer");
    assert_eq!(create_multiple_routes_level(Language::English).id, "level_03_multiple_routes");
    assert_eq!(create_time_pressure_level(Language::English).id, "level_04_time_pressure");
    assert_eq!(create_transfer_level(Language::Chinese).stations[0].name, "A站");
    assert_eq!(create_level_by_id("level_03_multiple_routes", Language::English).id, "level_03_multiple_routes");
    assert_eq!(create_level_by_id("no_such_level", Language::English).id, "tutorial_01");
    let mut lm = LevelManager::default();
    assert_eq!(load_current_level(&lm, Language::English).unwrap().id, "tutorial_01");
    lm.current_level_index = 3;
    assert_eq!(load_current_level(&lm, Language::English).unwrap().id, "level_04_time_pressure");
    lm.current_level_index = 4;
    assert!(load_current_level(&lm, Language::English).is_none());
}

#[test]
fn ratings_and_textures() {
    assert_eq!(calculate_level_rating(300, 60_000), "★★★ Perfect!");
    assert_eq!(calculate_level_rating(300, 60_001), "★★ Great!");
    assert_eq!(calculate_level_rating(200, 120_001), "★ Good");
    assert_eq!(calculate_level_rating(99, 0), "Complete");
    assert_eq!(get_terrain_texture(&TerrainType::Water), "textures/terrain/water.png");
    assert_eq!(get_station_texture(&StationType::TransferHub), "textures/stations/transfer_hub.png");
    assert_eq!(passenger_texture(PassengerColor::Blue), "textures/passengers/blue.png");
}

#[test]
fn spawning_windows_and_rates() {
    let level = create_tutorial_level(Language::English);
    let mut d = level.passenger_demands[0].clone_for_test();
    assert!(demand_is_open(&d, 0));
    // Half a passenger per second over a 100 ms step: a draw below 50 000 spawns.
    assert!(spawn_decision(&d, 0, 100, 49_999));
    assert!(!spawn_decision(&d, 0, 100, 50_000));
    d.spawned_count = 3;
    assert!(!demand_is_open(&d, 0));
    assert!(!spawn_decision(&d, 0, 100, 0));
    d.spawned_count = 0;
    d.spawn_time_range = Some((10, 20));
    assert!(!demand_is_open(&d, 9_999));
    assert!(demand_is_open(&d, 10_000));
    assert!(demand_is_open(&d, 20_000));
    assert!(!demand_is_open(&d, 20_001));
}

trait CloneForTest {
    fn clone_for_test(&self) -> Self;
}

impl CloneForTest for last_stop::bus_puzzle::level_system::PassengerDemand {
    fn clone_for_test(&self) -> Self {
        last_stop::bus_puzzle::level_system::PassengerDemand {
            color: self.color,
            origin: self.origin.clone(),
            destination: self.destination.clone(),
            origin_key: self.origin_key,
            destination_key: self.destination_key,
            spawn_rate: self.spawn_rate,
            patience: self.patience,
            spawn_time_range: self.spawn_time_range,
            total_count: self.total_count,
            spawned_count: self.spawned_count,
        }
    }
}

#[test]
fn spawning_counts_the_passengers_it_makes() {
    let mut level = create_tutorial_level(Language::English);
    let mut total = 0;
    for _ in 0..200 {
        let spawned = update_passenger_spawning(&mut level, 1_000, 1_000);
        for &i in &spawned {
            assert_eq!(i, 0);
        }
        total += spawned.len();
    }
    assert_eq!(total as u32, level.passenger_demands[0].spawned_count);
    assert!(level.passenger_demands[0].spawned_count <= 3);
}

#[test]
fn certain_demands_always_spawn_and_idle_ones_never_do() {
    let mut level = create_tutorial_level(Language::English);
    let mut sure = level.passenger_demands[0].clone_for_test();
    sure.spawn_rate = 1_000;
    sure.total_count = None;
    sure.spawn_time_range = None;
    let mut idle = sure.clone_for_test();
    idle.spawn_rate = 0;
    level.passenger_demands = vec![idle, sure];
    for step in 0..5u32 {
        let spawned = update_passenger_spawning(&mut level, 1_000, 1_000);
        assert_eq!(spawned, vec![1]);
        assert_eq!(level.passenger_demands[1].spawned_count, step + 1);
        assert_eq!(level.passenger_demands[0].spawned_count, 0);
    }
}

#[test]
fn origin_stations_and_new_passengers() {
    let level = create_tutorial_level(Language::English);
    assert_eq!(find_origin_station(&level, "Station B"), Some(1));
    assert_eq!(find_origin_station(&level, "Station Z"), None);
    let (entity, agent) = new_passenger(&level.passenger_demands[0]);
    assert_eq!(entity.color, PassengerColor::Red);
    assert_eq!(entity.origin, "Station A");
    assert_eq!(agent.destination, "Station B");
    assert_eq!(agent.state, AgentState::WaitingAtStation);
    assert_eq!(entity.current_patience, 60_000_000);
}

#[test]
fn segment_failures_switch_off_their_cell() {
    let mut level = create_tutorial_level(Language::English);
    level.dynamic_events.push(DynamicEvent { trigger_time: 5_000, event_type: EventType::SegmentFailure(GridPos::new(2, 4)), duration: None });
    let mut segs = vec![
        RouteSegment { grid_pos: GridPos::new(2, 4), segment_type: RouteSegmentType::Straight, rotation: 0, is_active: true },
        RouteSegment { grid_pos: GridPos::new(3, 4), segment_type: RouteSegmentType::Straight, rotation: 0, is_active: true },
    ];
    handle_dynamic_events(&level, 4_900, &mut segs);
    assert!(segs[0].is_active);
    handle_dynamic_events(&level, 5_050, &mut segs);
    assert!(!segs[0].is_active);
    assert!(segs[1].is_active);
}

#[test]
fn tips_for_each_level_and_the_panel() {
    let mut tips = TipsManager::new();
    let level = create_tutorial_level(Language::English);
    assert!(tips.needs_tips_for(&level));
    tips.generate_tips_for_level(&level);
    assert!(!tips.needs_tips_for(&level));
    assert!(!tips.current_tips.is_empty());
    assert_eq!(tips.last_level_id, "tutorial_01");
    tips.toggle_panel();
    assert!(tips.is_expanded);
    assert_eq!(tip_type_color(TipType::Warning), Rgb { r: 90, g: 30, b: 20 });
    assert_eq!(tips.get_segment_tips().len(), 2);
}

#[test]
fn contextual_tips_wait_five_seconds_and_warn_on_budgets() {
    let mut gs = new_game_state();
    let mut level = create_tutorial_level(Language::English);
    level.objectives.push(ObjectiveCondition { description: String::new(), description_key: None, condition_type: ObjectiveType::MaxCost(10) });
    initialize_game_state(&mut gs, level, 0);
    gs.total_cost = 9;
    let passengers = vec![agent(PassengerColor::Red, AgentState::GaveUp), agent(PassengerColor::Blue, AgentState::GaveUp)];
    let (none, last) = check_contextual_tips(&gs, &passengers, 0, Language::English, 4_999, 0);
    assert!(none.is_empty());
    assert_eq!(last, None);
    let (shown, last) = check_contextual_tips(&gs, &passengers, 0, Language::English, 5_000, 0);
    assert_eq!(last, Some(5_000));
    assert_eq!(shown.len(), 2);
    assert_eq!(shown[0].tip_type, TipType::Warning);
    assert_eq!(shown[0].duration_ms, 4_000);
    assert_eq!(shown[0].content, "⚠️ 2 passengers have given up! Check route connections");
    assert_eq!(shown[1].content, "💰 Budget Warning: 9/10");
    let (quiet, last) = check_contextual_tips(&new_game_state(), &vec![], 0, Language::English, 10_000, 0);
    assert!(quiet.is_empty());
    assert_eq!(last, None);
}

#[test]
fn language_and_level_progress() {
    assert_eq!(toggle_language(Language::Chinese), Language::English);
    assert_eq!(toggle_language(Language::English), Language::Chinese);
    assert_eq!(parse_language_code("en"), Some(Language::English));
    assert_eq!(parse_language_code("zh"), Some(Language::Chinese));
    assert_eq!(parse_language_code("fr"), None);
    assert!(!language_toggle_label(Language::English).is_empty());
    let mut lm = LevelManager::default();
    assert!(advance_to_next_level(&mut lm));
    assert_eq!(lm.current_level_index, 1);
    assert_eq!(lm.unlocked_levels, vec![true, true, false, false]);
    lm.current_level_index = 3;
    assert!(!advance_to_next_level(&mut lm));
    assert_eq!(lm.current_level_index, 3);
}

#[test]
fn passenger_colour_panels() {
    let ps = vec![
        agent(PassengerColor::Red, AgentState::WaitingAtStation),
        agent(PassengerColor::Red, AgentState::Traveling),
        agent(PassengerColor::Red, AgentState::Arrived),
        agent(PassengerColor::Blue, AgentState::Arrived),
        agent(PassengerColor::Red, AgentState::GaveUp),
    ];
    assert_eq!(passenger_color_counts(&ps, PassengerColor::Red), (2, 1));
    assert_eq!(passenger_color_counts(&ps, PassengerColor::Green), (0, 0));
    let level = create_transfer_level(Language::English);
    let colors = get_level_passenger_colors(&level);
    let mut dedup = colors.clone();
    dedup.dedup();
    assert_eq!(colors.len(), dedup.len());
    assert!(get_objective_passenger_colors(&level.objectives[0]).is_none());
    assert_eq!(get_passenger_color(PassengerColor::Red), Rgb { r: 100, g: 20, b: 20 });
}

#[test]
fn failure_tips_by_reason() {
    assert_eq!(get_failure_tip("太多乘客放弃了"), "💡 提示：尝试建设更短的路径，或者增加换乘站点来减少等待时间");
    assert_eq!(get_failure_tip("时间超限"), "💡 提示：优先连接最重要的站点，不要追求完美的网络设计");
    assert_eq!(get_failure_tip("预算超支"), "💡 提示：多使用便宜的直线段，减少昂贵的复杂路段");
    assert_eq!(get_failure_tip("other"), "💡 提示：分析失败原因，调整策略后重新挑战");
}

#[test]
fn passengers_board_the_first_suitable_bus_and_alight_at_their_stop() {
    let lines = vec![
        line_bus(&["A", "C"], BusPathfindingState::AtStation, "A"),
        line_bus(&["A", "B"], BusPathfindingState::AtStation, "A"),
    ];
    assert!(check_suitable_bus("B", &lines));
    assert!(!check_suitable_bus("D", &lines));
    let mut p = agent(PassengerColor::Red, AgentState::WaitingAtStation);
    let mut waiting = update_waiting_passenger(&mut p, true, &lines).expect("waiting for a bus");
    assert_eq!(waiting.target_station, "B");
    assert!(waiting.has_suitable_bus);
    let mut buses = vec![BusVehicle::default(), BusVehicle::default()];
    let ids = vec![10, 11];
    let out = handle_passenger_boarding(42, &mut waiting, &mut p, &mut buses, &lines, &ids, &vec![true, true], 100, 7_000);
    let (k, on_bus) = out.boarded.expect("boarded");
    assert_eq!(k, 1);
    assert_eq!(on_bus.bus_entity, 11);
    assert_eq!(on_bus.boarding_time, 7_000);
    assert_eq!(buses[1].current_passengers, vec![42]);
    assert!(buses[0].current_passengers.is_empty());
    assert_eq!(p.state, AgentState::Traveling);
    assert_eq!(p.patience, 60_000_000 - 2_000);
    assert!(!out.gave_up);
    let riding = vec![lines[0].clone_for_test(), line_bus(&["A", "B"], BusPathfindingState::Following, "B")];
    assert_eq!(handle_passenger_alighting(42, &on_bus, &mut p, &mut buses, &riding, &ids), AlightingOutcome::StillRiding);
    let arrived = vec![lines[0].clone_for_test(), line_bus(&["A", "B"], BusPathfindingState::AtStation, "B")];
    assert_eq!(handle_passenger_alighting(42, &on_bus, &mut p, &mut buses, &arrived, &ids), AlightingOutcome::Arrived);
    assert_eq!(p.state, AgentState::Arrived);
    assert!(buses[1].current_passengers.is_empty());
    let gone = OnBus { bus_entity: 99, target_station: "B".to_string(), boarding_time: 0 };
    assert_eq!(handle_passenger_alighting(42, &gone, &mut p, &mut buses, &arrived, &ids), AlightingOutcome::BusGone);
    assert_eq!(p.state, AgentState::GaveUp);
}

#[test]
fn a_full_bus_takes_no_more_passengers() {
    let lines = vec![line_bus(&["A", "B"], BusPathfindingState::AtStation, "A")];
    let mut p = agent(PassengerColor::Blue, AgentState::WaitingAtStation);
    let mut waiting = update_waiting_passenger(&mut p, true, &lines).expect("waiting for a bus");
    let mut full = BusVehicle::default();
    full.capacity = 2;
    full.current_passengers = vec![1, 2];
    let mut buses = vec![full];
    let out = handle_passenger_boarding(42, &mut waiting, &mut p, &mut buses, &lines, &vec![10], &vec![true], 100, 0);
    assert!(out.boarded.is_none());
    assert_eq!(buses[0].current_passengers, vec![1, 2]);
    assert_eq!(p.state, AgentState::WaitingAtStation);
    buses[0].capacity = 3;
    let out = handle_passenger_boarding(42, &mut waiting, &mut p, &mut buses, &lines, &vec![10], &vec![true], 100, 0);
    assert_eq!(out.boarded.map(|b| b.0), Some(0));
    assert_eq!(buses[0].current_passengers, vec![1, 2, 42]);
}

#[test]
fn waiting_passenger_without_a_station_gives_up() {
    let mut p = agent(PassengerColor::Red, AgentState::WaitingAtStation);
    assert!(update_waiting_passenger(&mut p, false, &vec![]).is_none());
    assert_eq!(p.state, AgentState::GaveUp);
    let mut q = agent(PassengerColor::Red, AgentState::Arrived);
    assert!(update_waiting_passenger(&mut q, true, &vec![]).is_none());
    assert_eq!(q.state, AgentState::Arrived);
}

trait AgentCopy {
    fn clone_for_test(&self) -> Self;
}

impl AgentCopy for BusPathfindingAgent {
    fn clone_for_test(&self) -> Self {
        BusPathfindingAgent {
            vehicle_id: self.vehicle_id.clone(),
            route_id: self.route_id.clone(),
            current_path: vec![],
            current_step: self.current_step,
            target_station: self.target_station.clone(),
            state: self.state,
            next_station_index: self.next_station_index,
            stations_to_visit: self.stations_to_visit.clone(),
            direction: self.direction,
            is_returning: self.is_returning,
        }
    }
}

#[test]
fn grid_helpers() {
    assert_eq!(manhattan_distance(GridPos::new(1, 2), GridPos::new(4, -2)), 7);
    assert_eq!(get_neighbors(GridPos::new(3, 3)), vec![GridPos::new(3, 2), GridPos::new(3, 4), GridPos::new(2, 3), GridPos::new(4, 3)]);
}

#[test]
fn events_carry_plain_values() {
    let placed = SegmentPlacedEvent { position: GridPos::new(1, 2), segment_type: RouteSegmentType::Curve, rotation: 90 };
    assert_eq!(placed, SegmentPlacedEvent { position: GridPos::new(1, 2), segment_type: RouteSegmentType::Curve, rotation: 90 });
    let done = LevelCompletedEvent { final_score: 150, completion_time_ms: 45_000 };
    assert_eq!(calculate_level_rating(done.final_score, done.completion_time_ms), "★ Good");
}

#[test]
fn level_complete_screen_falls_back_and_knows_the_last_level() {
    let mut gs = new_game_state();
    gs.score.total_score = 250;
    gs.game_time = 42_000;
    gs.total_cost = 9;
    let mut lm = LevelManager::default();
    let n = lm.available_levels.len();
    assert!(n >= 2);
    lm.current_level_index = 0;
    let s = level_complete_summary(&lm, &LevelCompleteData { final_score: 0, completion_time: 0 }, &gs);
    assert!(!s.is_final_level);
    assert_eq!((s.final_score, s.completion_time, s.total_cost), (250, 42_000, 9));
    lm.current_level_index = n - 1;
    let s = level_complete_summary(&lm, &LevelCompleteData { final_score: 400, completion_time: 30_000 }, &gs);
    assert!(s.is_final_level);
    assert_eq!((s.final_score, s.completion_time), (400, 30_000));
}
