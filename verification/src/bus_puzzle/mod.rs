pub mod bus_pathfinding_system;
pub mod bus_system;
pub mod components;
pub mod connection_system;
pub mod events;
pub mod interaction;
pub mod level_system;
pub mod localization;
pub mod passenger_boarding_system;
pub mod pathfinding;
pub mod pos_map;
pub mod resources;
pub mod smart_bus_generation;
pub mod text;
pub mod tips_system;
pub mod ui_audio;
pub mod utils;

pub use components::{rotate_offset, GridPos, RouteSegmentType};
