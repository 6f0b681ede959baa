use vstd::prelude::*;

use crate::bus_puzzle::components::{
    AgentState, GridPos, PassengerColor, RouteSegment, RouteSegmentType, StationType, TerrainType,
};
use crate::bus_puzzle::interaction::PathfindingAgent;
use crate::bus_puzzle::pathfinding::PathNode;
use crate::bus_puzzle::localization::{
    central_hub, get_text, level_multiple, level_time_pressure, level_transfer, level_tutorial, multiple_description,
    north_station, northeast_station, objective_connect_all, objective_max_cost,
    objective_max_segments, objective_max_transfers, objective_passenger_satisfaction,
    objective_time_limit, south_station, southeast_station, start_station, station_a, station_b,
    station_c, target_station_a, target_station_b, target_station_c, text_for,
    time_pressure_description, transfer_description, transfer_hub, tutorial_description, Language,
    LocalizedText,
};
use crate::bus_puzzle::pos_map::PosMap;
use crate::bus_puzzle::resources::LevelManager;
use crate::bus_puzzle::text::{decimal_text, filled, fill_placeholders, int_to_string, owned, text_eq};

verus! {

/// A level: its map, stations, passenger demands, the segments the player may place,
/// its objectives and how it is scored.
#[derive(Debug)]
pub struct LevelData {
    pub id: String,
    pub name: String,
    pub description: String,
    pub name_key: Option<LocalizedText>,
    pub description_key: Option<LocalizedText>,
    pub difficulty: u32,
    pub grid_size: (u32, u32),
    pub terrain: PosMap<TerrainType>,
    pub stations: Vec<Station>,
    pub passenger_demands: Vec<PassengerDemand>,
    pub available_segments: Vec<AvailableSegment>,
    pub objectives: Vec<ObjectiveCondition>,
    pub preset_routes: Vec<PresetRoute>,
    pub dynamic_events: Vec<DynamicEvent>,
    pub scoring: ScoringConfig,
}

/// A station of a level.
#[derive(Debug)]
pub struct Station {
    pub position: GridPos,
    pub station_type: StationType,
    pub name: String,
    pub name_key: Option<LocalizedText>,
    pub capacity: u32,
    pub passenger_types: Vec<PassengerColor>,
}

/// Passengers of one colour that appear at `origin` and travel to `destination`.
/// `spawn_rate` is counted in thousandths of a passenger per second, `patience` and the
/// spawn window in seconds.
#[derive(Debug)]
pub struct PassengerDemand {
    pub color: PassengerColor,
    pub origin: String,
    pub destination: String,
    pub origin_key: Option<LocalizedText>,
    pub destination_key: Option<LocalizedText>,
    pub spawn_rate: u32,
    pub patience: u32,
    pub spawn_time_range: Option<(u32, u32)>,
    pub total_count: Option<u32>,
    pub spawned_count: u32,
}

/// An objective of a level.
#[derive(Debug)]
pub struct ObjectiveCondition {
    pub description: String,
    pub description_key: Option<LocalizedText>,
    pub condition_type: ObjectiveType,
}

/// A kind of segment the player may place, how many of them and at what cost each.
#[derive(Debug, Clone, Copy, PartialEq, Eq, Structural)]
pub struct AvailableSegment {
    pub segment_type: RouteSegmentType,
    pub count: u32,
    pub cost: u32,
}

/// What an objective asks for. Efficiency and satisfaction are percentages, the time
/// limit is in seconds.
#[derive(Debug, Clone, Copy, PartialEq, Eq, Structural)]
pub enum ObjectiveType {
    ConnectAllPassengers,
    MaxTransfers(u32),
    MaxSegments(u32),
    MaxCost(u32),
    MinEfficiency(u32),
    TimeLimit(u32),
    PassengerSatisfaction(u32),
}

/// Segments already on the map when a level starts: position, kind and rotation.
#[derive(Debug)]
pub struct PresetRoute {
    pub segments: Vec<(GridPos, RouteSegmentType, u32)>,
    pub is_removable: bool,
}

/// Something that happens during a level; times in milliseconds.
#[derive(Debug)]
pub struct DynamicEvent {
    pub trigger_time: u64,
    pub event_type: EventType,
    pub duration: Option<u64>,
}

/// The kinds of level event; a surge multiplier is a percentage.
#[derive(Debug)]
pub enum EventType {
    SegmentFailure(GridPos),
    SurgePassengers(PassengerColor, u32),
    NewDemand(PassengerDemand),
    StationOverload(String),
}

/// The points a level awards.
#[derive(Debug, Clone, Copy, PartialEq, Eq, Structural)]
pub struct ScoringConfig {
    pub base_points: u32,
    pub efficiency_bonus: u32,
    pub speed_bonus: u32,
    pub cost_bonus: u32,
}

/// A text in `language`, taken from its key when it has one and from the stored text
/// otherwise.
pub open spec fn localized_or(key: Option<LocalizedText>, fallback: Seq<char>, language: Language) -> Seq<char> {
    match key {
        Some(k) => text_for(k, language),
        None => fallback,
    }
}

/// Reads a key's text in `language`, or copies the fallback.
fn text_or_fallback(key: Option<LocalizedText>, fallback: &String, language: Language) -> (r: String)
    ensures
        r@ == localized_or(key, fallback@, language),
{
    match key {
        Some(k) => owned(k.get(language)),
        None => owned(fallback.as_str()),
    }
}

impl LevelData {
    /// The level's name in `language`.
    pub fn get_localized_name(&self, language: Language) -> (r: String)
        ensures
            r@ == localized_or(self.name_key, self.name@, language),
    {
        text_or_fallback(self.name_key, &self.name, language)
    }

    /// The level's description in `language`.
    pub fn get_localized_description(&self, language: Language) -> (r: String)
        ensures
            r@ == localized_or(self.description_key, self.description@, language),
    {
        text_or_fallback(self.description_key, &self.description, language)
    }
}

impl Station {
    /// The station's name in `language`.
    pub fn get_localized_name(&self, language: Language) -> (r: String)
        ensures
            r@ == localized_or(self.name_key, self.name@, language),
    {
        text_or_fallback(self.name_key, &self.name, language)
    }
}

impl PassengerDemand {
    /// The origin's name in `language`.
    pub fn get_localized_origin(&self, language: Language) -> (r: String)
        ensures
            r@ == localized_or(self.origin_key, self.origin@, language),
    {
        text_or_fallback(self.origin_key, &self.origin, language)
    }

    /// The destination's name in `language`.
    pub fn get_localized_destination(&self, language: Language) -> (r: String)
        ensures
            r@ == localized_or(self.destination_key, self.destination@, language),
    {
        text_or_fallback(self.destination_key, &self.destination, language)
    }
}

/// The number an objective's text shows in its placeholder, if its kind has one.
pub open spec fn objective_argument(t: ObjectiveType) -> Option<u32> {
    match t {
        ObjectiveType::ConnectAllPassengers => None,
        ObjectiveType::MaxTransfers(n) => Some(n),
        ObjectiveType::MaxSegments(n) => Some(n),
        ObjectiveType::MaxCost(n) => Some(n),
        ObjectiveType::MinEfficiency(_) => None,
        ObjectiveType::TimeLimit(n) => Some(n),
        ObjectiveType::PassengerSatisfaction(n) => Some(n),
    }
}

impl ObjectiveCondition {
    /// The objective's text in `language`, its placeholder filled with the objective's
    /// number; without a key, the stored description.
    pub fn get_localized_description(&self, language: Language) -> (r: String)
        ensures
            r@ == (match self.description_key {
                None => self.description@,
                Some(k) => match objective_argument(self.condition_type) {
                    None => text_for(k, language),
                    Some(n) => filled(text_for(k, language), seq![decimal_text(n as int)]),
                },
            }),
    {
        match self.description_key {
            None => owned(self.description.as_str()),
            Some(k) => {
                let arg: Option<u32> = match self.condition_type {
                    ObjectiveType::ConnectAllPassengers => None,
                    ObjectiveType::MaxTransfers(n) => Some(n),
                    ObjectiveType::MaxSegments(n) => Some(n),
                    ObjectiveType::MaxCost(n) => Some(n),
                    ObjectiveType::MinEfficiency(_) => None,
                    ObjectiveType::TimeLimit(n) => Some(n),
                    ObjectiveType::PassengerSatisfaction(n) => Some(n),
                };
                match arg {
                    None => owned(k.get(language)),
                    Some(n) => {
                        let number = int_to_string(n as i128);
                        let args: [&str; 1] = [number.as_str()];
                        let r = fill_placeholders(k.get(language), args.as_slice());
                        proof {
                            assert(args@.map_values(|a: &str| a@) =~= seq![decimal_text(n as int)]);
                        }
                        r
                    },
                }
            },
        }
    }
}

/// The texture of a terrain kind.
pub fn get_terrain_texture(terrain_type: &TerrainType) -> (r: &'static str)
    ensures
        r@ == (match *terrain_type {
            TerrainType::Empty => "textures/terrain/grass.png"@,
            TerrainType::Building => "textures/terrain/building.png"@,
            TerrainType::Water => "textures/terrain/water.png"@,
            TerrainType::Park => "textures/terrain/park.png"@,
            TerrainType::Mountain => "textures/terrain/mountain.png"@,
        }),
{
    match terrain_type {
        TerrainType::Empty => "textures/terrain/grass.png",
        TerrainType::Building => "textures/terrain/building.png",
        TerrainType::Water => "textures/terrain/water.png",
        TerrainType::Park => "textures/terrain/park.png",
        TerrainType::Mountain => "textures/terrain/mountain.png",
    }
}

/// The texture of a station kind.
pub fn get_station_texture(station_type: &StationType) -> (r: &'static str)
    ensures
        r@ == (match *station_type {
            StationType::BusStop => "textures/stations/bus_stop.png"@,
            StationType::TransferHub => "textures/stations/transfer_hub.png"@,
            StationType::Terminal => "textures/stations/terminal.png"@,
        }),
{
    match station_type {
        StationType::BusStop => "textures/stations/bus_stop.png",
        StationType::TransferHub => "textures/stations/transfer_hub.png",
        StationType::Terminal => "textures/stations/terminal.png",
    }
}

/// The rating of a finished level, from its score and the time it took in milliseconds.
pub fn calculate_level_rating(score: u32, completion_time_ms: u64) -> (r: &'static str)
    ensures
        r@ == (if score >= 300 && completion_time_ms <= 60_000 {
            "★★★ Perfect!"@
        } else if score >= 200 && completion_time_ms <= 120_000 {
            "★★ Great!"@
        } else if score >= 100 {
            "★ Good"@
        } else {
            "Complete"@
        }),
{
    if score >= 300 && completion_time_ms <= 60_000 {
        "★★★ Perfect!"
    } else if score >= 200 && completion_time_ms <= 120_000 {
        "★★ Great!"
    } else if score >= 100 {
        "★ Good"
    } else {
        "Complete"
    }
}

/// Every cell of a `width` by `height` grid, each empty.
pub open spec fn open_ground(width: int, height: int) -> Map<GridPos, TerrainType> {
    Map::new(
        |p: GridPos| 0 <= p.x < width && 0 <= p.y < height,
        |p: GridPos| TerrainType::Empty,
    )
}

/// A terrain map that marks every cell of a `width` by `height` grid empty.
fn empty_terrain(width: i32, height: i32) -> (m: PosMap<TerrainType>)
    requires
        width >= 0,
        height >= 0,
    ensures
        m.well_formed(),
        m@ == open_ground(width as int, height as int),
{
    let mut m: PosMap<TerrainType> = PosMap::new();
    let mut x: i32 = 0;
    while x < width
        invariant
            0 <= x <= width,
            height >= 0,
            m.well_formed(),
            m@ == open_ground(x as int, height as int),
        decreases width - x,
    {
        let mut y: i32 = 0;
        while y < height
            invariant
                0 <= x < width,
                0 <= y <= height,
                m.well_formed(),
                m@ == open_ground(x as int, height as int).union_prefer_right(
                    Map::new(|p: GridPos| p.x == x && 0 <= p.y < y, |p: GridPos| TerrainType::Empty),
                ),
            decreases height - y,
        {
            m.insert(GridPos::new(x, y), TerrainType::Empty);
            proof {
                assert(m@ =~= open_ground(x as int, height as int).union_prefer_right(
                    Map::new(|p: GridPos| p.x == x && 0 <= p.y < y + 1, |p: GridPos| TerrainType::Empty),
                ));
            }
            y = y + 1;
        }
        proof {
            assert(m@ =~= open_ground(x + 1, height as int));
        }
        x = x + 1;
    }
    m
}

/// `key` is a text with these two variants.
pub open spec fn text_is(key: Option<LocalizedText>, en: Seq<char>, zh: Seq<char>) -> bool {
    key matches Some(k) && k.en@ == en && k.zh@ == zh
}

/// The variant of a text for `language`.
pub open spec fn in_language(language: Language, en: Seq<char>, zh: Seq<char>) -> Seq<char> {
    match language {
        Language::English => en,
        Language::Chinese => zh,
    }
}

/// A station with these attributes; `key` gives the two variants of its name key.
pub open spec fn station_is(
    s: Station,
    x: i32,
    y: i32,
    kind: StationType,
    name: Seq<char>,
    key: (Seq<char>, Seq<char>),
    capacity: u32,
    colors: Seq<PassengerColor>,
) -> bool {
    &&& s.position == GridPos { x, y }
    &&& s.station_type == kind
    &&& s.name@ == name
    &&& text_is(s.name_key, key.0, key.1)
    &&& s.capacity == capacity
    &&& s.passenger_types@ == colors
}

/// A demand with these attributes that has not spawned anybody yet.
pub open spec fn demand_is(
    d: PassengerDemand,
    color: PassengerColor,
    names: (Seq<char>, Seq<char>),
    origin_key: (Seq<char>, Seq<char>),
    destination_key: (Seq<char>, Seq<char>),
    spawn_rate: u32,
    patience: u32,
    window: Option<(u32, u32)>,
    total: Option<u32>,
) -> bool {
    &&& d.color == color
    &&& d.origin@ == names.0
    &&& d.destination@ == names.1
    &&& text_is(d.origin_key, origin_key.0, origin_key.1)
    &&& text_is(d.destination_key, destination_key.0, destination_key.1)
    &&& d.spawn_rate == spawn_rate
    &&& d.patience == patience
    &&& d.spawn_time_range == window
    &&& d.total_count == total
    &&& d.spawned_count == 0
}

/// An objective with these attributes.
pub open spec fn objective_is(
    o: ObjectiveCondition,
    description: Seq<char>,
    key: (Seq<char>, Seq<char>),
    kind: ObjectiveType,
) -> bool {
    &&& o.description@ == description
    &&& text_is(o.description_key, key.0, key.1)
    &&& o.condition_type == kind
}

/// An offer of `count` segments of kind `t` at `cost` each.
pub open spec fn offer(t: RouteSegmentType, count: u32, cost: u32) -> AvailableSegment {
    AvailableSegment { segment_type: t, count, cost }
}

pub open spec fn cell(x: i32, y: i32) -> GridPos {
    GridPos { x, y }
}

/// The tutorial level: carry red passengers from Station A to Station B.
pub open spec fn is_tutorial_level(l: LevelData, language: Language) -> bool {
    let a = ("Station A"@, "A站"@);
    let b = ("Station B"@, "B站"@);
    let connect_all = ("Connect all passengers to destinations"@, "连接所有乘客到目的地"@);
    &&& l.id@ == "tutorial_01"@
    &&& l.name@ == "First Connection"@
    &&& l.description@ == "Learn basic route connection"@
    &&& text_is(l.name_key, "First Connection"@, "第一次连接"@)
    &&& text_is(
        l.description_key,
        "Learn basic route connection by transporting red passengers from Station A to Station B"@,
        "学习基本的路线连接操作，将红色乘客从A站送到B站"@,
    )
    &&& l.difficulty == 1
    &&& l.grid_size == (10u32, 8u32)
    &&& l.terrain.well_formed()
    &&& l.terrain@ == open_ground(10, 8).insert(cell(4, 3), TerrainType::Building).insert(
        cell(4, 4),
        TerrainType::Building,
    ).insert(cell(6, 2), TerrainType::Water).insert(cell(7, 2), TerrainType::Water)
    &&& l.stations@.len() == 2
    &&& station_is(l.stations@[0], 1, 4, StationType::Terminal, a.0, a, 10, seq![PassengerColor::Red])
    &&& station_is(l.stations@[1], 8, 4, StationType::Terminal, b.0, b, 10, seq![])
    &&& l.passenger_demands@.len() == 1
    &&& demand_is(l.passenger_demands@[0], PassengerColor::Red, (a.0, b.0), a, b, 500, 60, None, Some(3))
    &&& l.available_segments@ == seq![
        offer(RouteSegmentType::Straight, 8, 1),
        offer(RouteSegmentType::Curve, 4, 2),
        offer(RouteSegmentType::TSplit, 4, 3),
        offer(RouteSegmentType::Cross, 4, 4),
    ]
    &&& l.objectives@.len() == 1
    &&& objective_is(
        l.objectives@[0],
        in_language(language, connect_all.0, connect_all.1),
        connect_all,
        ObjectiveType::ConnectAllPassengers,
    )
    &&& l.preset_routes@.len() == 0
    &&& l.dynamic_events@.len() == 0
    &&& l.scoring == ScoringConfig { base_points: 100, efficiency_bonus: 50, speed_bonus: 25, cost_bonus: 25 }
}

/// The tutorial level, its objective written in `current_language`.
pub fn create_tutorial_level(current_language: Language) -> (r: LevelData)
    ensures
        is_tutorial_level(r, current_language),
{
    let mut terrain = empty_terrain(10, 8);
    terrain.insert(GridPos::new(4, 3), TerrainType::Building);
    terrain.insert(GridPos::new(4, 4), TerrainType::Building);
    terrain.insert(GridPos::new(6, 2), TerrainType::Water);
    terrain.insert(GridPos::new(7, 2), TerrainType::Water);
    let stations = vec![
        Station {
            position: GridPos::new(1, 4),
            station_type: StationType::Terminal,
            name: owned("Station A"),
            name_key: Some(station_a()),
            capacity: 10,
            passenger_types: vec![PassengerColor::Red],
        },
        Station {
            position: GridPos::new(8, 4),
            station_type: StationType::Terminal,
            name: owned("Station B"),
            name_key: Some(station_b()),
            capacity: 10,
            passenger_types: vec![],
        },
    ];
    let passenger_demands = vec![
        PassengerDemand {
            color: PassengerColor::Red,
            origin: owned("Station A"),
            destination: owned("Station B"),
            origin_key: Some(station_a()),
            destination_key: Some(station_b()),
            spawn_rate: 500,
            patience: 60,
            spawn_time_range: None,
            total_count: Some(3),
            spawned_count: 0,
        },
    ];
    let available_segments = vec![
        AvailableSegment { segment_type: RouteSegmentType::Straight, count: 8, cost: 1 },
        AvailableSegment { segment_type: RouteSegmentType::Curve, count: 4, cost: 2 },
        AvailableSegment { segment_type: RouteSegmentType::TSplit, count: 4, cost: 3 },
        AvailableSegment { segment_type: RouteSegmentType::Cross, count: 4, cost: 4 },
    ];
    let objectives = vec![
        ObjectiveCondition {
            description: get_text(&objective_connect_all(), current_language),
            description_key: Some(objective_connect_all()),
            condition_type: ObjectiveType::ConnectAllPassengers,
        },
    ];
    let r = LevelData {
        id: owned("tutorial_01"),
        name: owned("First Connection"),
        description: owned("Learn basic route connection"),
        name_key: Some(level_tutorial()),
        description_key: Some(tutorial_description()),
        difficulty: 1,
        grid_size: (10, 8),
        terrain,
        stations,
        passenger_demands,
        available_segments,
        objectives,
        preset_routes: vec![],
        dynamic_events: vec![],
        scoring: ScoringConfig { base_points: 100, efficiency_bonus: 50, speed_bonus: 25, cost_bonus: 25 },
    };
    proof {
        assert(r.available_segments@ =~= seq![
            offer(RouteSegmentType::Straight, 8, 1),
            offer(RouteSegmentType::Curve, 4, 2),
            offer(RouteSegmentType::TSplit, 4, 3),
            offer(RouteSegmentType::Cross, 4, 4),
        ]);
        assert(r.stations@[0].passenger_types@ =~= seq![PassengerColor::Red]);
        assert(r.stations@[1].passenger_types@ =~= Seq::<PassengerColor>::empty());
    }
    r
}

/// The transfer level: reach two terminals through a transfer hub.
pub open spec fn is_transfer_level(l: LevelData, language: Language) -> bool {
    let a = ("Station A"@, "A站"@);
    let b = ("Station B"@, "B站"@);
    let c = ("Station C"@, "C站"@);
    let hub = ("Transfer Hub"@, "中转站"@);
    let connect_all = ("Connect all passengers to destinations"@, "连接所有乘客到目的地"@);
    let max_transfers = ("Maximum {0} transfers"@, "最多使用{0}次换乘"@);
    &&& l.id@ == "level_02_transfer"@
    &&& l.name@ == Seq::<char>::empty()
    &&& l.description@ == Seq::<char>::empty()
    &&& text_is(l.name_key, "Learn Transfers"@, "学会换乘"@)
    &&& text_is(
        l.description_key,
        "Learn to use the transfer system by connecting different routes through transfer stations"@,
        "学习使用换乘系统，通过中转站连接不同的路线"@,
    )
    &&& l.difficulty == 2
    &&& l.grid_size == (12u32, 10u32)
    &&& l.terrain.well_formed()
    &&& l.terrain@ == open_ground(12, 10).insert(cell(5, 4), TerrainType::Building).insert(
        cell(5, 5),
        TerrainType::Building,
    ).insert(cell(6, 4), TerrainType::Building).insert(cell(6, 5), TerrainType::Building)
    &&& l.stations@.len() == 4
    &&& station_is(
        l.stations@[0],
        1,
        2,
        StationType::Terminal,
        in_language(language, a.0, a.1),
        a,
        15,
        seq![PassengerColor::Red, PassengerColor::Blue],
    )
    &&& station_is(l.stations@[1], 5, 7, StationType::TransferHub, in_language(language, hub.0, hub.1), hub, 20, seq![])
    &&& station_is(l.stations@[2], 10, 2, StationType::Terminal, in_language(language, b.0, b.1), b, 15, seq![])
    &&& station_is(l.stations@[3], 10, 8, StationType::Terminal, in_language(language, c.0, c.1), c, 15, seq![])
    &&& l.passenger_demands@.len() == 2
    &&& demand_is(
        l.passenger_demands@[0],
        PassengerColor::Red,
        (in_language(language, a.0, a.1), in_language(language, b.0, b.1)),
        a,
        b,
        300,
        150,
        Some((3u32, 20u32)),
        Some(2),
    )
    &&& demand_is(
        l.passenger_demands@[1],
        PassengerColor::Blue,
        (in_language(language, a.0, a.1), in_language(language, c.0, c.1)),
        a,
        c,
        300,
        150,
        Some((8u32, 25u32)),
        Some(2),
    )
    &&& l.available_segments@ == seq![
        offer(RouteSegmentType::Straight, 12, 1),
        offer(RouteSegmentType::Curve, 6, 2),
        offer(RouteSegmentType::TSplit, 2, 3),
    ]
    &&& l.objectives@.len() == 2
    &&& objective_is(
        l.objectives@[0],
        in_language(language, connect_all.0, connect_all.1),
        connect_all,
        ObjectiveType::ConnectAllPassengers,
    )
    &&& objective_is(
        l.objectives@[1],
        in_language(language, max_transfers.0, max_transfers.1),
        max_transfers,
        ObjectiveType::MaxTransfers(2),
    )
    &&& l.preset_routes@.len() == 0
    &&& l.dynamic_events@.len() == 0
    &&& l.scoring == ScoringConfig { base_points: 200, efficiency_bonus: 100, speed_bonus: 50, cost_bonus: 50 }
}

/// The transfer level, its texts in `language`.
pub fn create_transfer_level(language: Language) -> (r: LevelData)
    ensures
        is_transfer_level(r, language),
{
    let mut terrain = empty_terrain(12, 10);
    terrain.insert(GridPos::new(5, 4), TerrainType::Building);
    terrain.insert(GridPos::new(5, 5), TerrainType::Building);
    terrain.insert(GridPos::new(6, 4), TerrainType::Building);
    terrain.insert(GridPos::new(6, 5), TerrainType::Building);
    let stations = vec![
        Station {
            position: GridPos::new(1, 2),
            station_type: StationType::Terminal,
            name: get_text(&station_a(), language),
            name_key: Some(station_a()),
            capacity: 15,
            passenger_types: vec![PassengerColor::Red, PassengerColor::Blue],
        },
        Station {
            position: GridPos::new(5, 7),
            station_type: StationType::TransferHub,
            name: get_text(&transfer_hub(), language),
            name_key: Some(transfer_hub()),
            capacity: 20,
            passenger_types: vec![],
        },
        Station {
            position: GridPos::new(10, 2),
            station_type: StationType::Terminal,
            name: get_text(&station_b(), language),
            name_key: Some(station_b()),
            capacity: 15,
            passenger_types: vec![],
        },
        Station {
            position: GridPos::new(10, 8),
            station_type: StationType::Terminal,
            name: get_text(&station_c(), language),
            name_key: Some(station_c()),
            capacity: 15,
            passenger_types: vec![],
        },
    ];
    let passenger_demands = vec![
        PassengerDemand {
            color: PassengerColor::Red,
            origin: get_text(&station_a(), language),
            destination: get_text(&station_b(), language),
            origin_key: Some(station_a()),
            destination_key: Some(station_b()),
            spawn_rate: 300,
            patience: 150,
            spawn_time_range: Some((3, 20)),
            total_count: Some(2),
            spawned_count: 0,
        },
        PassengerDemand {
            color: PassengerColor::Blue,
            origin: get_text(&station_a(), language),
            destination: get_text(&station_c(), language),
            origin_key: Some(station_a()),
            destination_key: Some(station_c()),
            spawn_rate: 300,
            patience: 150,
            spawn_time_range: Some((8, 25)),
            total_count: Some(2),
            spawned_count: 0,
        },
    ];
    let available_segments = vec![
        AvailableSegment { segment_type: RouteSegmentType::Straight, count: 12, cost: 1 },
        AvailableSegment { segment_type: RouteSegmentType::Curve, count: 6, cost: 2 },
        AvailableSegment { segment_type: RouteSegmentType::TSplit, count: 2, cost: 3 },
    ];
    let objectives = vec![
        ObjectiveCondition {
            description: get_text(&objective_connect_all(), language),
            description_key: Some(objective_connect_all()),
            condition_type: ObjectiveType::ConnectAllPassengers,
        },
        ObjectiveCondition {
            description: get_text(&objective_max_transfers(), language),
            description_key: Some(objective_max_transfers()),
            condition_type: ObjectiveType::MaxTransfers(2),
        },
    ];
    let r = LevelData {
        id: owned("level_02_transfer"),
        name: owned(""),
        description: owned(""),
        name_key: Some(level_transfer()),
        description_key: Some(transfer_description()),
        difficulty: 2,
        grid_size: (12, 10),
        terrain,
        stations,
        passenger_demands,
        available_segments,
        objectives,
        preset_routes: vec![],
        dynamic_events: vec![],
        scoring: ScoringConfig { base_points: 200, efficiency_bonus: 100, speed_bonus: 50, cost_bonus: 50 },
    };
    proof {
        reveal_strlit("");
        assert(r.available_segments@ =~= seq![
            offer(RouteSegmentType::Straight, 12, 1),
            offer(RouteSegmentType::Curve, 6, 2),
            offer(RouteSegmentType::TSplit, 2, 3),
        ]);
        assert(r.stations@[0].passenger_types@ =~= seq![PassengerColor::Red, PassengerColor::Blue]);
        assert(r.stations@[1].passenger_types@ =~= Seq::<PassengerColor>::empty());
        assert(r.stations@[2].passenger_types@ =~= Seq::<PassengerColor>::empty());
        assert(r.stations@[3].passenger_types@ =~= Seq::<PassengerColor>::empty());
        assert(r.name@ =~= Seq::<char>::empty());
        assert(r.description@ =~= Seq::<char>::empty());
    }
    r
}

/// The river of the multiple-routes level: two columns of water.
pub open spec fn river() -> Map<GridPos, TerrainType> {
    Map::new(|p: GridPos| (p.x == 6 || p.x == 7) && 4 <= p.y < 8, |p: GridPos| TerrainType::Water)
}

/// The multiple-routes level: four terminals, a central hub and a river between them.
pub open spec fn is_multiple_routes_level(l: LevelData, language: Language) -> bool {
    let north = ("North Station"@, "北站"@);
    let south = ("South Station"@, "南站"@);
    let northeast = ("Northeast Station"@, "东北站"@);
    let southeast = ("Southeast Station"@, "东南站"@);
    let hub = ("Central Hub"@, "中央枢纽"@);
    let n = in_language(language, north.0, north.1);
    let s = in_language(language, south.0, south.1);
    let ne = in_language(language, northeast.0, northeast.1);
    let se = in_language(language, southeast.0, southeast.1);
    &&& l.id@ == "level_03_multiple_routes"@
    &&& l.name@ == in_language(language, "Multiple Routes"@, "多条路线"@)
    &&& l.description@ == in_language(
        language,
        "Manage multiple independent routes and optimize the entire transportation network"@,
        "管理多条独立路线，优化整个交通网络"@,
    )
    &&& text_is(l.name_key, "Multiple Routes"@, "多条路线"@)
    &&& text_is(
        l.description_key,
        "Manage multiple independent routes and optimize the entire transportation network"@,
        "管理多条独立路线，优化整个交通网络"@,
    )
    &&& l.difficulty == 3
    &&& l.grid_size == (14u32, 12u32)
    &&& l.terrain.well_formed()
    &&& l.terrain@ == open_ground(14, 12).union_prefer_right(river())
    &&& l.stations@.len() == 5
    &&& station_is(
        l.stations@[0],
        2,
        2,
        StationType::Terminal,
        n,
        north,
        20,
        seq![PassengerColor::Red, PassengerColor::Green],
    )
    &&& station_is(
        l.stations@[1],
        2,
        9,
        StationType::Terminal,
        s,
        south,
        20,
        seq![PassengerColor::Blue, PassengerColor::Yellow],
    )
    &&& station_is(l.stations@[2], 11, 2, StationType::Terminal, ne, northeast, 20, seq![])
    &&& station_is(l.stations@[3], 11, 9, StationType::Terminal, se, southeast, 20, seq![])
    &&& station_is(l.stations@[4], 6, 11, StationType::TransferHub, in_language(language, hub.0, hub.1), hub, 30, seq![])
    &&& l.passenger_demands@.len() == 4
    &&& demand_is(l.passenger_demands@[0], PassengerColor::Red, (n, ne), north, northeast, 400, 180, Some((5u32, 30u32)), Some(3))
    &&& demand_is(l.passenger_demands@[1], PassengerColor::Blue, (s, se), south, southeast, 400, 180, Some((8u32, 35u32)), Some(3))
    &&& demand_is(l.passenger_demands@[2], PassengerColor::Green, (n, se), north, southeast, 300, 200, Some((10u32, 40u32)), Some(2))
    &&& demand_is(l.passenger_demands@[3], PassengerColor::Yellow, (s, ne), south, northeast, 300, 200, Some((12u32, 45u32)), Some(2))
    &&& l.available_segments@ == seq![
        offer(RouteSegmentType::Straight, 16, 1),
        offer(RouteSegmentType::Curve, 8, 2),
        offer(RouteSegmentType::TSplit, 4, 3),
        offer(RouteSegmentType::Cross, 2, 4),
        offer(RouteSegmentType::Bridge, 2, 5),
    ]
    &&& l.objectives@.len() == 3
    &&& objective_is(
        l.objectives@[0],
        "Connect all passengers to destinations"@,
        ("Connect all passengers to destinations"@, "连接所有乘客到目的地"@),
        ObjectiveType::ConnectAllPassengers,
    )
    &&& objective_is(
        l.objectives@[1],
        "Total cost ≤ 35"@,
        ("Total cost ≤ {0}"@, "总成本不超过{0}"@),
        ObjectiveType::MaxCost(35),
    )
    &&& objective_is(
        l.objectives@[2],
        "Use at most 20 route segments"@,
        ("Use at most {0} route segments"@, "最多使用{0}个路线段"@),
        ObjectiveType::MaxSegments(20),
    )
    &&& l.preset_routes@.len() == 0
    &&& l.dynamic_events@.len() == 0
    &&& l.scoring == ScoringConfig { base_points: 300, efficiency_bonus: 150, speed_bonus: 75, cost_bonus: 75 }
}

/// The multiple-routes level, its texts in `language`.
pub fn create_multiple_routes_level(language: Language) -> (r: LevelData)
    ensures
        is_multiple_routes_level(r, language),
{
    let mut terrain = empty_terrain(14, 12);
    let ghost ground = terrain@;
    let mut y: i32 = 4;
    while y < 8
        invariant
            4 <= y <= 8,
            ground == open_ground(14, 12),
            terrain.well_formed(),
            terrain@ == ground.union_prefer_right(
                Map::new(|p: GridPos| (p.x == 6 || p.x == 7) && 4 <= p.y < y, |p: GridPos| TerrainType::Water),
            ),
        decreases 8 - y,
    {
        terrain.insert(GridPos::new(6, y), TerrainType::Water);
        terrain.insert(GridPos::new(7, y), TerrainType::Water);
        proof {
            assert(terrain@ =~= ground.union_prefer_right(
                Map::new(|p: GridPos| (p.x == 6 || p.x == 7) && 4 <= p.y < y + 1, |p: GridPos| TerrainType::Water),
            ));
        }
        y = y + 1;
    }
    proof {
        assert(terrain@ =~= open_ground(14, 12).union_prefer_right(river()));
    }
    let stations = vec![
        Station {
            position: GridPos::new(2, 2),
            station_type: StationType::Terminal,
            name: get_text(&north_station(), language),
            name_key: Some(north_station()),
            capacity: 20,
            passenger_types: vec![PassengerColor::Red, PassengerColor::Green],
        },
        Station {
            position: GridPos::new(2, 9),
            station_type: StationType::Terminal,
            name: get_text(&south_station(), language),
            name_key: Some(south_station()),
            capacity: 20,
            passenger_types: vec![PassengerColor::Blue, PassengerColor::Yellow],
        },
        Station {
            position: GridPos::new(11, 2),
            station_type: StationType::Terminal,
            name: get_text(&northeast_station(), language),
            name_key: Some(northeast_station()),
            capacity: 20,
            passenger_types: vec![],
        },
        Station {
            position: GridPos::new(11, 9),
            station_type: StationType::Terminal,
            name: get_text(&southeast_station(), language),
            name_key: Some(southeast_station()),
            capacity: 20,
            passenger_types: vec![],
        },
        Station {
            position: GridPos::new(6, 11),
            station_type: StationType::TransferHub,
            name: get_text(&central_hub(), language),
            name_key: Some(central_hub()),
            capacity: 30,
            passenger_types: vec![],
        },
    ];
    let passenger_demands = vec![
        PassengerDemand {
            color: PassengerColor::Red,
            origin: get_text(&north_station(), language),
            destination: get_text(&northeast_station(), language),
            origin_key: Some(north_station()),
            destination_key: Some(northeast_station()),
            spawn_rate: 400,
            patience: 180,
            spawn_time_range: Some((5, 30)),
            total_count: Some(3),
            spawned_count: 0,
        },
        PassengerDemand {
            color: PassengerColor::Blue,
            origin: get_text(&south_station(), language),
            destination: get_text(&southeast_station(), language),
            origin_key: Some(south_station()),
            destination_key: Some(southeast_station()),
            spawn_rate: 400,
            patience: 180,
            spawn_time_range: Some((8, 35)),
            total_count: Some(3),
            spawned_count: 0,
        },
        PassengerDemand {
            color: PassengerColor::Green,
            origin: get_text(&north_station(), language),
            destination: get_text(&southeast_station(), language),
            origin_key: Some(north_station()),
            destination_key: Some(southeast_station()),
            spawn_rate: 300,
            patience: 200,
            spawn_time_range: Some((10, 40)),
            total_count: Some(2),
            spawned_count: 0,
        },
        PassengerDemand {
            color: PassengerColor::Yellow,
            origin: get_text(&south_station(), language),
            destination: get_text(&northeast_station(), language),
            origin_key: Some(south_station()),
            destination_key: Some(northeast_station()),
            spawn_rate: 300,
            patience: 200,
            spawn_time_range: Some((12, 45)),
            total_count: Some(2),
            spawned_count: 0,
        },
    ];
    let available_segments = vec![
        AvailableSegment { segment_type: RouteSegmentType::Straight, count: 16, cost: 1 },
        AvailableSegment { segment_type: RouteSegmentType::Curve, count: 8, cost: 2 },
        AvailableSegment { segment_type: RouteSegmentType::TSplit, count: 4, cost: 3 },
        AvailableSegment { segment_type: RouteSegmentType::Cross, count: 2, cost: 4 },
        AvailableSegment { segment_type: RouteSegmentType::Bridge, count: 2, cost: 5 },
    ];
    let objectives = vec![
        ObjectiveCondition {
            description: owned("Connect all passengers to destinations"),
            description_key: Some(objective_connect_all()),
            condition_type: ObjectiveType::ConnectAllPassengers,
        },
        ObjectiveCondition {
            description: owned("Total cost ≤ 35"),
            description_key: Some(objective_max_cost()),
            condition_type: ObjectiveType::MaxCost(35),
        },
        ObjectiveCondition {
            description: owned("Use at most 20 route segments"),
            description_key: Some(objective_max_segments()),
            condition_type: ObjectiveType::MaxSegments(20),
        },
    ];
    let r = LevelData {
        id: owned("level_03_multiple_routes"),
        name: get_text(&level_multiple(), language),
        description: get_text(&multiple_description(), language),
        name_key: Some(level_multiple()),
        description_key: Some(multiple_description()),
        difficulty: 3,
        grid_size: (14, 12),
        terrain,
        stations,
        passenger_demands,
        available_segments,
        objectives,
        preset_routes: vec![],
        dynamic_events: vec![],
        scoring: ScoringConfig { base_points: 300, efficiency_bonus: 150, speed_bonus: 75, cost_bonus: 75 },
    };
    proof {
        assert(r.available_segments@ =~= seq![
            offer(RouteSegmentType::Straight, 16, 1),
            offer(RouteSegmentType::Curve, 8, 2),
            offer(RouteSegmentType::TSplit, 4, 3),
            offer(RouteSegmentType::Cross, 2, 4),
            offer(RouteSegmentType::Bridge, 2, 5),
        ]);
        assert(r.stations@[0].passenger_types@ =~= seq![PassengerColor::Red, PassengerColor::Green]);
        assert(r.stations@[1].passenger_types@ =~= seq![PassengerColor::Blue, PassengerColor::Yellow]);
        assert(r.stations@[2].passenger_types@ =~= Seq::<PassengerColor>::empty());
        assert(r.stations@[3].passenger_types@ =~= Seq::<PassengerColor>::empty());
        assert(r.stations@[4].passenger_types@ =~= Seq::<PassengerColor>::empty());
    }
    r
}

/// The time-pressure level: three targets to serve from one start station within a
/// minute.
pub open spec fn is_time_pressure_level(l: LevelData, language: Language) -> bool {
    let title = ("Time Challenge"@, "时间挑战"@);
    let start = ("Start Station"@, "起点站"@);
    let ta = ("Target Station A"@, "目标站A"@);
    let tb = ("Target Station B"@, "目标站B"@);
    let tc = ("Target Station C"@, "目标站C"@);
    let connect_all = ("Connect all passengers to destinations"@, "连接所有乘客到目的地"@);
    let time_limit = ("Complete within {0} seconds"@, "在{0}秒内完成"@);
    let satisfaction = ("Passenger satisfaction ≥ {0}%"@, "乘客满意度达到{0}%"@);
    let st = in_language(language, start.0, start.1);
    let a = in_language(language, ta.0, ta.1);
    let b = in_language(language, tb.0, tb.1);
    let c = in_language(language, tc.0, tc.1);
    &&& l.id@ == "level_04_time_pressure"@
    &&& l.name@ == in_language(language, title.0, title.1)
    &&& l.description@ == in_language(
        language,
        "Quickly build an efficient transportation network within limited time"@,
        "在有限时间内快速建设高效的交通网络"@,
    )
    &&& text_is(l.name_key, title.0, title.1)
    &&& text_is(
        l.description_key,
        "Quickly build an efficient transportation network within limited time"@,
        "在有限时间内快速建设高效的交通网络"@,
    )
    &&& l.difficulty == 4
    &&& l.grid_size == (10u32, 8u32)
    &&& l.terrain.well_formed()
    &&& l.terrain@ == open_ground(10, 8).insert(cell(4, 2), TerrainType::Mountain).insert(
        cell(4, 3),
        TerrainType::Mountain,
    ).insert(cell(5, 2), TerrainType::Mountain).insert(cell(5, 3), TerrainType::Mountain)
    &&& l.stations@.len() == 4
    &&& station_is(
        l.stations@[0],
        1,
        1,
        StationType::Terminal,
        st,
        start,
        25,
        seq![PassengerColor::Red, PassengerColor::Blue, PassengerColor::Green],
    )
    &&& station_is(l.stations@[1], 8, 1, StationType::Terminal, a, ta, 15, seq![])
    &&& station_is(l.stations@[2], 8, 6, StationType::Terminal, b, tb, 15, seq![])
    &&& station_is(l.stations@[3], 1, 6, StationType::Terminal, c, tc, 15, seq![])
    &&& l.passenger_demands@.len() == 3
    &&& demand_is(l.passenger_demands@[0], PassengerColor::Red, (st, a), start, ta, 600, 100, Some((2u32, 15u32)), Some(4))
    &&& demand_is(l.passenger_demands@[1], PassengerColor::Blue, (st, b), start, tb, 600, 100, Some((5u32, 20u32)), Some(4))
    &&& demand_is(l.passenger_demands@[2], PassengerColor::Green, (st, c), start, tc, 600, 100, Some((8u32, 25u32)), Some(4))
    &&& l.available_segments@ == seq![
        offer(RouteSegmentType::Straight, 10, 1),
        offer(RouteSegmentType::Curve, 6, 2),
        offer(RouteSegmentType::TSplit, 3, 3),
        offer(RouteSegmentType::Tunnel, 2, 6),
    ]
    &&& l.objectives@.len() == 3
    &&& objective_is(
        l.objectives@[0],
        in_language(language, connect_all.0, connect_all.1),
        connect_all,
        ObjectiveType::ConnectAllPassengers,
    )
    &&& objective_is(
        l.objectives@[1],
        in_language(language, time_limit.0, time_limit.1),
        time_limit,
        ObjectiveType::TimeLimit(60),
    )
    &&& objective_is(
        l.objectives@[2],
        in_language(language, satisfaction.0, satisfaction.1),
        satisfaction,
        ObjectiveType::PassengerSatisfaction(80),
    )
    &&& l.preset_routes@.len() == 0
    &&& l.dynamic_events@.len() == 0
    &&& l.scoring == ScoringConfig { base_points: 500, efficiency_bonus: 200, speed_bonus: 150, cost_bonus: 100 }
}

/// The time-pressure level, its texts in `language`.
pub fn create_time_pressure_level(language: Language) -> (r: LevelData)
    ensures
        is_time_pressure_level(r, language),
{
    let mut terrain = empty_terrain(10, 8);
    terrain.insert(GridPos::new(4, 2), TerrainType::Mountain);
    terrain.insert(GridPos::new(4, 3), TerrainType::Mountain);
    terrain.insert(GridPos::new(5, 2), TerrainType::Mountain);
    terrain.insert(GridPos::new(5, 3), TerrainType::Mountain);
    let stations = vec![
        Station {
            position: GridPos::new(1, 1),
            station_type: StationType::Terminal,
            name: get_text(&start_station(), language),
            name_key: Some(start_station()),
            capacity: 25,
            passenger_types: vec![PassengerColor::Red, PassengerColor::Blue, PassengerColor::Green],
        },
        Station {
            position: GridPos::new(8, 1),
            station_type: StationType::Terminal,
            name: get_text(&target_station_a(), language),
            name_key: Some(target_station_a()),
            capacity: 15,
            passenger_types: vec![],
        },
        Station {
            position: GridPos::new(8, 6),
            station_type: StationType::Terminal,
            name: get_text(&target_station_b(), language),
            name_key: Some(target_station_b()),
            capacity: 15,
            passenger_types: vec![],
        },
        Station {
            position: GridPos::new(1, 6),
            station_type: StationType::Terminal,
            name: get_text(&target_station_c(), language),
            name_key: Some(target_station_c()),
            capacity: 15,
            passenger_types: vec![],
        },
    ];
    let passenger_demands = vec![
        PassengerDemand {
            color: PassengerColor::Red,
            origin: get_text(&start_station(), language),
            destination: get_text(&target_station_a(), language),
            origin_key: Some(start_station()),
            destination_key: Some(target_station_a()),
            spawn_rate: 600,
            patience: 100,
            spawn_time_range: Some((2, 15)),
            total_count: Some(4),
            spawned_count: 0,
        },
        PassengerDemand {
            color: PassengerColor::Blue,
            origin: get_text(&start_station(), language),
            destination: get_text(&target_station_b(), language),
            origin_key: Some(start_station()),
            destination_key: Some(target_station_b()),
            spawn_rate: 600,
            patience: 100,
            spawn_time_range: Some((5, 20)),
            total_count: Some(4),
            spawned_count: 0,
        },
        PassengerDemand {
            color: PassengerColor::Green,
            origin: get_text(&start_station(), language),
            destination: get_text(&target_station_c(), language),
            origin_key: Some(start_station()),
            destination_key: Some(target_station_c()),
            spawn_rate: 600,
            patience: 100,
            spawn_time_range: Some((8, 25)),
            total_count: Some(4),
            spawned_count: 0,
        },
    ];
    let available_segments = vec![
        AvailableSegment { segment_type: RouteSegmentType::Straight, count: 10, cost: 1 },
        AvailableSegment { segment_type: RouteSegmentType::Curve, count: 6, cost: 2 },
        AvailableSegment { segment_type: RouteSegmentType::TSplit, count: 3, cost: 3 },
        AvailableSegment { segment_type: RouteSegmentType::Tunnel, count: 2, cost: 6 },
    ];
    let objectives = vec![
        ObjectiveCondition {
            description: get_text(&objective_connect_all(), language),
            description_key: Some(objective_connect_all()),
            condition_type: ObjectiveType::ConnectAllPassengers,
        },
        ObjectiveCondition {
            description: get_text(&objective_time_limit(), language),
            description_key: Some(objective_time_limit()),
            condition_type: ObjectiveType::TimeLimit(60),
        },
        ObjectiveCondition {
            description: get_text(&objective_passenger_satisfaction(), language),
            description_key: Some(objective_passenger_satisfaction()),
            condition_type: ObjectiveType::PassengerSatisfaction(80),
        },
    ];
    let r = LevelData {
        id: owned("level_04_time_pressure"),
        name: get_text(&level_time_pressure(), language),
        description: get_text(&time_pressure_description(), language),
        name_key: Some(level_time_pressure()),
        description_key: Some(time_pressure_description()),
        difficulty: 4,
        grid_size: (10, 8),
        terrain,
        stations,
        passenger_demands,
        available_segments,
        objectives,
        preset_routes: vec![],
        dynamic_events: vec![],
        scoring: ScoringConfig { base_points: 500, efficiency_bonus: 200, speed_bonus: 150, cost_bonus: 100 },
    };
    proof {
        assert(r.available_segments@ =~= seq![
            offer(RouteSegmentType::Straight, 10, 1),
            offer(RouteSegmentType::Curve, 6, 2),
            offer(RouteSegmentType::TSplit, 3, 3),
            offer(RouteSegmentType::Tunnel, 2, 6),
        ]);
        assert(r.stations@[0].passenger_types@ =~= seq![
            PassengerColor::Red,
            PassengerColor::Blue,
            PassengerColor::Green,
        ]);
        assert(r.stations@[1].passenger_types@ =~= Seq::<PassengerColor>::empty());
        assert(r.stations@[2].passenger_types@ =~= Seq::<PassengerColor>::empty());
        assert(r.stations@[3].passenger_types@ =~= Seq::<PassengerColor>::empty());
    }
    r
}

/// A number drawn uniformly from `0..bound` by the thread's random generator
/// (`rand::Rng::gen_range` on `rand::thread_rng()`): the draw is below `bound`, and the
/// range is not empty. Which number comes is left open, as it depends on chance;
/// `thread_rng` seeds itself from the operating system on first use and panics if that
/// source fails, which no argument rules out.
#[verifier::external_body]
fn random_roll(bound: u32) -> (r: u32)
    requires
        bound > 0,
    ensures
        r < bound,
{
    rand::Rng::gen_range(&mut rand::thread_rng(), 0u32..bound)
}

/// A demand may spawn now: it has not reached its total and the game time, in
/// milliseconds, lies within its spawn window.
pub open spec fn demand_open(d: PassengerDemand, game_time_ms: u64) -> bool {
    &&& !(d.total_count matches Some(total) && d.spawned_count >= total)
    &&& !(d.spawn_time_range matches Some(w) && (game_time_ms < w.0 as int * 1000 || game_time_ms > w.1 as int
        * 1000))
}

/// Whether a demand spawns a passenger in a step of `dt_ms` milliseconds, given a draw
/// `roll` from `0..1_000_000`: it must be open, and the draw must fall below its rate
/// (thousandths per second) times the step, so that the chance is the rate times the
/// step's length in seconds.
pub fn spawn_decision(demand: &PassengerDemand, game_time_ms: u64, dt_ms: u64, roll: u32) -> (r: bool)
    ensures
        r == (demand_open(*demand, game_time_ms) && roll < demand.spawn_rate as int * dt_ms as int),
{
    match demand.total_count {
        Some(total_count) => {
            if demand.spawned_count >= total_count {
                return false;
            }
        },
        None => {},
    }
    match demand.spawn_time_range {
        Some((start, end)) => {
            if (game_time_ms as u128) < start as u128 * 1000 || (game_time_ms as u128) > end as u128 * 1000 {
                return false;
            }
        },
        None => {},
    }
    let rate = demand.spawn_rate as u128;
    let dt = dt_ms as u128;
    assert(rate * dt <= 0xffff_ffff_ffff_ffff_ffff_ffff_ffff_ffffu128) by (nonlinear_arith)
        requires
            rate <= 0xffff_ffffu128,
            dt <= 0xffff_ffff_ffff_ffffu128,
    ;
    (roll as u128) < rate * dt
}

/// `x` is among the indices `s`.
pub open spec fn listed(s: Seq<usize>, x: int) -> bool {
    exists|w: int| 0 <= w < s.len() && s[w] == x
}

/// The chance of a demand spawning in a step of `dt_ms` milliseconds, in millionths.
pub open spec fn spawn_weight(d: PassengerDemand, dt_ms: u64) -> int {
    d.spawn_rate as int * dt_ms as int
}

/// One spawning step of `dt_ms` milliseconds at game time `game_time_ms`: every open demand
/// draws a number and spawns a passenger when `spawn_decision` says so, counting it.
/// Returns the indices of the demands that spawned, in order. Only open demands with a
/// chance above nothing can spawn, and every open demand whose chance is certain does.
pub fn update_passenger_spawning(level_data: &mut LevelData, game_time_ms: u64, dt_ms: u64) -> (r: Vec<usize>)
    requires
        forall|i: int| 0 <= i < old(level_data).passenger_demands@.len() ==> (#[trigger] old(level_data).passenger_demands@[i]).spawned_count < u32::MAX,
    ensures
        final(level_data).passenger_demands@.len() == old(level_data).passenger_demands@.len(),
        forall|k: int, l: int| 0 <= k < l < r@.len() ==> #[trigger] r@[k] < #[trigger] r@[l],
        forall|k: int| 0 <= k < r@.len() ==> #[trigger] r@[k] < old(level_data).passenger_demands@.len() && demand_open(
            old(level_data).passenger_demands@[r@[k] as int],
            game_time_ms,
        ),
        forall|k: int| 0 <= k < r@.len() ==> spawn_weight(old(level_data).passenger_demands@[#[trigger] r@[k] as int], dt_ms) > 0,
        forall|i: int|
            0 <= i < old(level_data).passenger_demands@.len() && demand_open(
                #[trigger] old(level_data).passenger_demands@[i],
                game_time_ms,
            ) && spawn_weight(old(level_data).passenger_demands@[i], dt_ms) >= 1_000_000 ==> listed(r@, i),
        forall|i: int|
            #![trigger final(level_data).passenger_demands@[i]]
            0 <= i < old(level_data).passenger_demands@.len() ==> {
                let a = old(level_data).passenger_demands@[i];
                let b = final(level_data).passenger_demands@[i];
                &&& b.spawned_count == if listed(r@, i) {
                    (a.spawned_count + 1) as u32
                } else {
                    a.spawned_count
                }
                &&& b.color == a.color
                &&& b.origin == a.origin
                &&& b.destination == a.destination
                &&& b.spawn_rate == a.spawn_rate
                &&& b.patience == a.patience
                &&& b.spawn_time_range == a.spawn_time_range
                &&& b.total_count == a.total_count
            },
        final(level_data).stations == old(level_data).stations,
        final(level_data).id == old(level_data).id,
{
    let mut spawned: Vec<usize> = Vec::new();
    let mut i: usize = 0;
    while i < level_data.passenger_demands.len()
        invariant
            i <= level_data.passenger_demands@.len(),
            level_data.passenger_demands@.len() == old(level_data).passenger_demands@.len(),
            level_data.stations == old(level_data).stations,
            level_data.id == old(level_data).id,
            forall|x: int| 0 <= x < old(level_data).passenger_demands@.len() ==> (#[trigger] old(level_data).passenger_demands@[x]).spawned_count < u32::MAX,
            forall|k: int, l: int| 0 <= k < l < spawned@.len() ==> #[trigger] spawned@[k] < #[trigger] spawned@[l],
            forall|k: int| 0 <= k < spawned@.len() ==> #[trigger] spawned@[k] < i && demand_open(
                old(level_data).passenger_demands@[spawned@[k] as int],
                game_time_ms,
            ),
            forall|k: int| 0 <= k < spawned@.len() ==> spawn_weight(old(level_data).passenger_demands@[#[trigger] spawned@[k] as int], dt_ms) > 0,
            forall|x: int|
                0 <= x < i && demand_open(#[trigger] old(level_data).passenger_demands@[x], game_time_ms)
                    && spawn_weight(old(level_data).passenger_demands@[x], dt_ms) >= 1_000_000 ==> listed(spawned@, x),
            forall|x: int|
                #![trigger level_data.passenger_demands@[x]]
                0 <= x < old(level_data).passenger_demands@.len() ==> {
                    let a = old(level_data).passenger_demands@[x];
                    let b = level_data.passenger_demands@[x];
                    &&& b.spawned_count == if x < i && listed(spawned@, x) {
                        (a.spawned_count + 1) as u32
                    } else {
                        a.spawned_count
                    }
                    &&& b.color == a.color
                    &&& b.origin == a.origin
                    &&& b.destination == a.destination
                    &&& b.spawn_rate == a.spawn_rate
                    &&& b.patience == a.patience
                    &&& b.spawn_time_range == a.spawn_time_range
                    &&& b.total_count == a.total_count
                },
        decreases level_data.passenger_demands.len() - i,
    {
        let open = demand_is_open(&level_data.passenger_demands[i], game_time_ms);
        if open {
            let roll = random_roll(1_000_000);
            if spawn_decision(&level_data.passenger_demands[i], game_time_ms, dt_ms, roll) {
                let ghost before = spawned@;
                level_data.passenger_demands[i].spawned_count = level_data.passenger_demands[i].spawned_count + 1;
                spawned.push(i);
                proof {
                    assert forall|x: int| #[trigger] listed(spawned@, x) == (listed(before, x) || x == i) by {
                        if listed(spawned@, x) {
                            let w = choose|w: int| 0 <= w < spawned@.len() && spawned@[w] == x;
                            if w < before.len() {
                                assert(before[w] == x);
                            }
                        }
                        if listed(before, x) {
                            let w = choose|w: int| 0 <= w < before.len() && before[w] == x;
                            assert(spawned@[w] == x);
                        }
                        if x == i {
                            assert(spawned@[before.len() as int] == i);
                        }
                    }
                    assert(!listed(before, i as int));
                    assert(spawned@[before.len() as int] == i);
                    assert(spawn_weight(old(level_data).passenger_demands@[i as int], dt_ms) > 0);
                }
            } else {
                assert(spawn_weight(old(level_data).passenger_demands@[i as int], dt_ms) < 1_000_000);
            }
        }
        proof {
            assert forall|x: int| x > i implies !#[trigger] listed(spawned@, x) by {
                if listed(spawned@, x) {
                    let w = choose|w: int| 0 <= w < spawned@.len() && spawned@[w] == x;
                }
            }
        }
        i = i + 1;
    }
    proof {
        assert forall|x: int| #[trigger] listed(spawned@, x) implies x < i by {
            let w = choose|w: int| 0 <= w < spawned@.len() && spawned@[w] == x;
        }
    }
    spawned
}

/// Whether a demand may spawn at `game_time_ms`.
pub fn demand_is_open(demand: &PassengerDemand, game_time_ms: u64) -> (r: bool)
    ensures
        r == demand_open(*demand, game_time_ms),
{
    match demand.total_count {
        Some(total_count) => {
            if demand.spawned_count >= total_count {
                return false;
            }
        },
        None => {},
    }
    match demand.spawn_time_range {
        Some((start, end)) => {
            !((game_time_ms as u128) < start as u128 * 1000 || (game_time_ms as u128) > end as u128 * 1000)
        },
        None => true,
    }
}

/// The index of the first station of the level named `name`.
pub fn find_origin_station(level_data: &LevelData, name: &str) -> (r: Option<usize>)
    ensures
        r matches Some(k) ==> k < level_data.stations@.len() && level_data.stations@[k as int].name@ == name@
            && forall|x: int| 0 <= x < k ==> #[trigger] level_data.stations@[x].name@ != name@,
        r is None ==> forall|x: int| 0 <= x < level_data.stations@.len() ==> #[trigger] level_data.stations@[x].name@ != name@,
{
    let mut k: usize = 0;
    while k < level_data.stations.len()
        invariant
            k <= level_data.stations@.len(),
            forall|x: int| 0 <= x < k ==> #[trigger] level_data.stations@[x].name@ != name@,
        decreases level_data.stations.len() - k,
    {
        if text_eq(level_data.stations[k].name.as_str(), name) {
            return Some(k);
        }
        k = k + 1;
    }
    None
}

/// The icon of a passenger colour.
pub fn passenger_texture(color: PassengerColor) -> (r: &'static str)
    ensures
        r@ == (match color {
            PassengerColor::Red => "textures/passengers/red.png"@,
            PassengerColor::Blue => "textures/passengers/blue.png"@,
            PassengerColor::Green => "textures/passengers/green.png"@,
            PassengerColor::Yellow => "textures/passengers/yellow.png"@,
            PassengerColor::Purple => "textures/passengers/purple.png"@,
            PassengerColor::Orange => "textures/passengers/orange.png"@,
        }),
{
    match color {
        PassengerColor::Red => "textures/passengers/red.png",
        PassengerColor::Blue => "textures/passengers/blue.png",
        PassengerColor::Green => "textures/passengers/green.png",
        PassengerColor::Yellow => "textures/passengers/yellow.png",
        PassengerColor::Purple => "textures/passengers/purple.png",
        PassengerColor::Orange => "textures/passengers/orange.png",
    }
}

/// A passenger entity's own data: its colour, where it comes from and goes to, its patience
/// left in microseconds and the cells of its path.
#[derive(Debug)]
pub struct PassengerEntity {
    pub color: PassengerColor,
    pub origin: String,
    pub destination: String,
    pub current_patience: i64,
    pub path: Vec<GridPos>,
}

/// A new passenger of `demand`, waiting at its origin with its full patience.
pub fn new_passenger(demand: &PassengerDemand) -> (r: (PassengerEntity, PathfindingAgent))
    ensures
        r.0.color == demand.color,
        r.0.origin@ == demand.origin@,
        r.0.destination@ == demand.destination@,
        r.0.current_patience == demand.patience as int * 1_000_000,
        r.0.path@.len() == 0,
        r.1.color == demand.color,
        r.1.origin@ == demand.origin@,
        r.1.destination@ == demand.destination@,
        r.1.current_path@.len() == 0,
        r.1.current_step == 0,
        r.1.state == AgentState::WaitingAtStation,
        r.1.patience == demand.patience as int * 1_000_000,
        r.1.max_patience == demand.patience as int * 1_000_000,
        r.1.waiting_time == 0,
{
    let patience = demand.patience as i64 * 1_000_000;
    let entity = PassengerEntity {
        color: demand.color,
        origin: owned(demand.origin.as_str()),
        destination: owned(demand.destination.as_str()),
        current_patience: patience,
        path: Vec::new(),
    };
    let agent = PathfindingAgent {
        color: demand.color,
        origin: owned(demand.origin.as_str()),
        destination: owned(demand.destination.as_str()),
        current_path: Vec::new(),
        current_step: 0,
        state: AgentState::WaitingAtStation,
        patience,
        max_patience: patience,
        waiting_time: 0,
    };
    (entity, agent)
}

/// The event fires now: its trigger time is less than a tenth of a second from `now_ms`.
pub open spec fn event_fires(e: DynamicEvent, now_ms: u64) -> bool {
    -100 < now_ms - e.trigger_time < 100
}

/// The event is a failure of the segment at `p`.
pub open spec fn breaks(e: DynamicEvent, p: GridPos) -> bool {
    e.event_type matches EventType::SegmentFailure(q) && q == p
}

/// Some firing event breaks the segment at `p`.
pub open spec fn failure_at(events: Seq<DynamicEvent>, now_ms: u64, p: GridPos) -> bool {
    exists|k: int|
        0 <= k < events.len() && event_fires(#[trigger] events[k], now_ms) && breaks(events[k], p)
}

/// Applies the level's events that fire at `now_ms`: a segment failure switches off every
/// segment at its cell; other events change nothing here.
pub fn handle_dynamic_events(level_data: &LevelData, now_ms: u64, route_segments: &mut Vec<RouteSegment>)
    ensures
        final(route_segments)@.len() == old(route_segments)@.len(),
        forall|i: int|
            #![trigger final(route_segments)@[i]]
            0 <= i < old(route_segments)@.len() ==> final(route_segments)@[i] == (RouteSegment {
                is_active: old(route_segments)@[i].is_active && !failure_at(
                    level_data.dynamic_events@,
                    now_ms,
                    old(route_segments)@[i].grid_pos,
                ),
                ..old(route_segments)@[i]
            }),
{
    let ghost events = level_data.dynamic_events@;
    let mut e: usize = 0;
    while e < level_data.dynamic_events.len()
        invariant
            events == level_data.dynamic_events@,
            e <= events.len(),
            route_segments@.len() == old(route_segments)@.len(),
            forall|i: int|
                #![trigger route_segments@[i]]
                0 <= i < old(route_segments)@.len() ==> route_segments@[i] == (RouteSegment {
                    is_active: old(route_segments)@[i].is_active && !failure_at(events.take(e as int), now_ms, old(route_segments)@[i].grid_pos),
                    ..old(route_segments)@[i]
                }),
        decreases level_data.dynamic_events.len() - e,
    {
        let event = &level_data.dynamic_events[e];
        let fires = (now_ms as i128) - (event.trigger_time as i128) < 100 && (now_ms as i128) - (event.trigger_time as i128) > -100;
        let ghost before = route_segments@;
        match &event.event_type {
            EventType::SegmentFailure(pos) => {
                if fires {
                    let mut s: usize = 0;
                    while s < route_segments.len()
                        invariant
                            route_segments@.len() == before.len(),
                            s <= before.len(),
                            forall|i: int|
                                #![trigger route_segments@[i]]
                                0 <= i < before.len() ==> route_segments@[i] == (if i < s && before[i].grid_pos == *pos {
                                    RouteSegment { is_active: false, ..before[i] }
                                } else {
                                    before[i]
                                }),
                        decreases route_segments.len() - s,
                    {
                        if route_segments[s].grid_pos == *pos {
                            let mut seg = route_segments[s];
                            seg.is_active = false;
                            route_segments.set(s, seg);
                        }
                        s = s + 1;
                    }
                }
            },
            _ => {},
        }
        proof {
            assert forall|i: int|
                #![trigger route_segments@[i]]
                0 <= i < old(route_segments)@.len() implies route_segments@[i] == (RouteSegment {
                    is_active: old(route_segments)@[i].is_active && !failure_at(events.take(e + 1), now_ms, old(route_segments)@[i].grid_pos),
                    ..old(route_segments)@[i]
                }) by {
                let p = old(route_segments)@[i].grid_pos;
                let t0 = events.take(e as int);
                let t1 = events.take(e + 1);
                assert(t1[e as int] == events[e as int]);
                if failure_at(t0, now_ms, p) {
                    let k = choose|k: int| 0 <= k < t0.len() && event_fires(#[trigger] t0[k], now_ms) && breaks(t0[k], p);
                    assert(t1[k] == t0[k]);
                }
                if failure_at(t1, now_ms, p) && !failure_at(t0, now_ms, p) {
                    let k = choose|k: int| 0 <= k < t1.len() && event_fires(#[trigger] t1[k], now_ms) && breaks(t1[k], p);
                    if k < e {
                        assert(t0[k] == t1[k]);
                    }
                }
                if breaks(events[e as int], p) && event_fires(events[e as int], now_ms) {
                    assert(event_fires(t1[e as int], now_ms));
                }
            }
        }
        e = e + 1;
    }
    assert(events.take(events.len() as int) =~= events);
}

/// The level with id `id`, its texts in `language`; the tutorial for an unknown id.
pub fn create_level_by_id(id: &str, language: Language) -> (r: LevelData)
    ensures
        id@ == "level_02_transfer"@ ==> is_transfer_level(r, language),
        id@ == "level_03_multiple_routes"@ ==> is_multiple_routes_level(r, language),
        id@ == "level_04_time_pressure"@ ==> is_time_pressure_level(r, language),
        !(id@ == "level_02_transfer"@ || id@ == "level_03_multiple_routes"@ || id@ == "level_04_time_pressure"@)
            ==> is_tutorial_level(r, language),
{
    proof {
        reveal_strlit("tutorial_01");
        reveal_strlit("level_02_transfer");
        reveal_strlit("level_03_multiple_routes");
        reveal_strlit("level_04_time_pressure");
        assert("tutorial_01"@.len() == 11);
        assert("level_02_transfer"@.len() == 17);
        assert("level_03_multiple_routes"@.len() == 24);
        assert("level_04_time_pressure"@.len() == 22);
    }
    if text_eq(id, "tutorial_01") {
        create_tutorial_level(language)
    } else if text_eq(id, "level_02_transfer") {
        create_transfer_level(language)
    } else if text_eq(id, "level_03_multiple_routes") {
        create_multiple_routes_level(language)
    } else if text_eq(id, "level_04_time_pressure") {
        create_time_pressure_level(language)
    } else {
        create_tutorial_level(language)
    }
}

/// The level the manager's current index names, its texts in `language`; none when the
/// index is past the level list.
pub fn load_current_level(level_manager: &LevelManager, language: Language) -> (r: Option<LevelData>)
    ensures
        r is Some <==> level_manager.current_level_index < level_manager.available_levels@.len(),
        r matches Some(level) ==> {
            let id = level_manager.available_levels@[level_manager.current_level_index as int]@;
            &&& id == "level_02_transfer"@ ==> is_transfer_level(level, language)
            &&& id == "level_03_multiple_routes"@ ==> is_multiple_routes_level(level, language)
            &&& id == "level_04_time_pressure"@ ==> is_time_pressure_level(level, language)
            &&& !(id == "level_02_transfer"@ || id == "level_03_multiple_routes"@ || id == "level_04_time_pressure"@)
                ==> is_tutorial_level(level, language)
        },
{
    if level_manager.current_level_index < level_manager.available_levels.len() {
        Some(create_level_by_id(level_manager.available_levels[level_manager.current_level_index].as_str(), language))
    } else {
        None
    }
}

} // verus!
