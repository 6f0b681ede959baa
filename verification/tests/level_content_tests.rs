use last_stop::bus_puzzle::components::{PassengerColor, StationType, TerrainType};
use last_stop::bus_puzzle::level_system::{
    create_multiple_routes_level, create_time_pressure_level, create_transfer_level, LevelData, ObjectiveType,
};
use last_stop::bus_puzzle::localization::Language;
use last_stop::bus_puzzle::{GridPos, RouteSegmentType};

fn offers(level: &LevelData) -> Vec<(RouteSegmentType, u32, u32)> {
    level.available_segments.iter().map(|a| (a.segment_type, a.count, a.cost)).collect()
}

fn kinds(level: &LevelData) -> Vec<ObjectiveType> {
    level.objectives.iter().map(|o| o.condition_type).collect()
}

#[test]
fn transfer_level_contents() {
    let level = create_transfer_level(Language::English);
    assert_eq!(level.difficulty, 2);
    assert_eq!(level.grid_size, (12, 10));
    for (x, y) in [(5, 4), (5, 5), (6, 4), (6, 5)] {
        assert_eq!(level.terrain.get(GridPos::new(x, y)), Some(TerrainType::Building));
    }
    assert_eq!(level.terrain.get(GridPos::new(11, 9)), Some(TerrainType::Empty));
    let cells: Vec<_> = level.stations.iter().map(|s| (s.position, s.station_type, s.capacity)).collect();
    assert_eq!(cells, vec![
        (GridPos::new(1, 2), StationType::Terminal, 15),
        (GridPos::new(5, 7), StationType::TransferHub, 20),
        (GridPos::new(10, 2), StationType::Terminal, 15),
        (GridPos::new(10, 8), StationType::Terminal, 15),
    ]);
    assert_eq!(level.stations[1].name, "Transfer Hub");
    let d = &level.passenger_demands;
    assert_eq!(d.len(), 2);
    assert_eq!((d[0].color, d[0].spawn_rate, d[0].patience, d[0].spawn_time_range, d[0].total_count), (PassengerColor::Red, 300, 150, Some((3, 20)), Some(2)));
    assert_eq!((d[1].color, d[1].spawn_time_range), (PassengerColor::Blue, Some((8, 25))));
    assert_eq!(d[1].destination, "Station C");
    for demand in d {
        assert_eq!(demand.get_localized_origin(Language::English), demand.origin);
        assert_eq!(demand.get_localized_destination(Language::English), demand.destination);
        assert!(level.stations.iter().any(|s| s.name == demand.destination));
    }
    let zh = create_transfer_level(Language::Chinese);
    assert_eq!(zh.passenger_demands[1].destination, "C站");
    assert_eq!(offers(&level), vec![
        (RouteSegmentType::Straight, 12, 1),
        (RouteSegmentType::Curve, 6, 2),
        (RouteSegmentType::TSplit, 2, 3),
    ]);
    assert_eq!(kinds(&level), vec![ObjectiveType::ConnectAllPassengers, ObjectiveType::MaxTransfers(2)]);
    assert_eq!((level.scoring.base_points, level.scoring.efficiency_bonus, level.scoring.speed_bonus, level.scoring.cost_bonus), (200, 100, 50, 50));
}

#[test]
fn multiple_routes_level_contents() {
    let level = create_multiple_routes_level(Language::Chinese);
    assert_eq!(level.difficulty, 3);
    assert_eq!(level.grid_size, (14, 12));
    for y in 4..8 {
        assert_eq!(level.terrain.get(GridPos::new(6, y)), Some(TerrainType::Water));
        assert_eq!(level.terrain.get(GridPos::new(7, y)), Some(TerrainType::Water));
    }
    assert_eq!(level.terrain.get(GridPos::new(6, 3)), Some(TerrainType::Empty));
    let names: Vec<_> = level.stations.iter().map(|s| s.name.as_str()).collect();
    assert_eq!(names, vec!["北站", "南站", "东北站", "东南站", "中央枢纽"]);
    assert_eq!(level.stations[4].position, GridPos::new(6, 11));
    assert_eq!(level.stations[4].capacity, 30);
    let d = &level.passenger_demands;
    assert_eq!(d.len(), 4);
    assert_eq!((d[2].color, d[2].spawn_rate, d[2].patience, d[2].spawn_time_range, d[2].total_count), (PassengerColor::Green, 300, 200, Some((10, 40)), Some(2)));
    assert_eq!(d[3].spawn_time_range, Some((12, 45)));
    assert_eq!(offers(&level).iter().map(|o| (o.0, o.1)).collect::<Vec<_>>(), vec![
        (RouteSegmentType::Straight, 16),
        (RouteSegmentType::Curve, 8),
        (RouteSegmentType::TSplit, 4),
        (RouteSegmentType::Cross, 2),
        (RouteSegmentType::Bridge, 2),
    ]);
    assert_eq!(kinds(&level), vec![ObjectiveType::ConnectAllPassengers, ObjectiveType::MaxCost(35), ObjectiveType::MaxSegments(20)]);
    assert_eq!(level.scoring.base_points, 300);
}

#[test]
fn time_pressure_level_contents() {
    let level = create_time_pressure_level(Language::English);
    assert_eq!(level.difficulty, 4);
    assert_eq!(level.grid_size, (10, 8));
    assert_eq!(level.name, "Time Challenge");
    assert_eq!(level.get_localized_name(Language::Chinese), "时间挑战");
    assert!(!level.name.contains("{0}"));
    for (x, y) in [(4, 2), (4, 3), (5, 2), (5, 3)] {
        assert_eq!(level.terrain.get(GridPos::new(x, y)), Some(TerrainType::Mountain));
    }
    let cells: Vec<_> = level.stations.iter().map(|s| (s.position, s.capacity)).collect();
    assert_eq!(cells, vec![
        (GridPos::new(1, 1), 25),
        (GridPos::new(8, 1), 15),
        (GridPos::new(8, 6), 15),
        (GridPos::new(1, 6), 15),
    ]);
    assert_eq!(level.stations[0].name, "Start Station");
    let d = &level.passenger_demands;
    assert_eq!(d.len(), 3);
    for demand in d {
        assert_eq!((demand.spawn_rate, demand.patience, demand.total_count), (600, 100, Some(4)));
    }
    assert_eq!(d[2].spawn_time_range, Some((8, 25)));
    assert_eq!(offers(&level).last(), Some(&(RouteSegmentType::Tunnel, 2, 6)));
    assert_eq!(kinds(&level), vec![ObjectiveType::ConnectAllPassengers, ObjectiveType::TimeLimit(60), ObjectiveType::PassengerSatisfaction(80)]);
    assert_eq!((level.scoring.base_points, level.scoring.efficiency_bonus, level.scoring.speed_bonus, level.scoring.cost_bonus), (500, 200, 150, 100));
}
