use vstd::prelude::*;

use crate::bus_puzzle::components::{GridPos, PassengerColor, RouteSegmentType};

verus! {

/// A segment was placed on the grid.
#[derive(Debug, Clone, Copy, PartialEq, Eq, Structural)]
pub struct SegmentPlacedEvent {
    pub position: GridPos,
    pub segment_type: RouteSegmentType,
    pub rotation: u32,
}

/// The segment at a cell was removed.
#[derive(Debug, Clone, Copy, PartialEq, Eq, Structural)]
pub struct SegmentRemovedEvent {
    pub position: GridPos,
}

/// The objective at an index of the level's list was reached.
#[derive(Debug, Clone, Copy, PartialEq, Eq, Structural)]
pub struct ObjectiveCompletedEvent {
    pub objective_index: usize,
}

/// The level was completed with a final score after a time in milliseconds.
#[derive(Debug, Clone, Copy, PartialEq, Eq, Structural)]
pub struct LevelCompletedEvent {
    pub final_score: u32,
    pub completion_time_ms: u64,
}

/// The stock of a segment kind changed.
#[derive(Debug, Clone, Copy, PartialEq, Eq, Structural)]
pub struct InventoryUpdatedEvent {
    pub segment_type: RouteSegmentType,
    pub new_count: u32,
}

/// A passenger appeared at `origin`, bound for `destination`.
#[derive(Debug, Clone)]
pub struct PassengerSpawnedEvent {
    pub color: PassengerColor,
    pub origin: String,
    pub destination: String,
}

/// A passenger arrived after a trip of a time in milliseconds with some transfers.
#[derive(Debug, Clone, Copy, PartialEq, Eq, Structural)]
pub struct PassengerArrivedEvent {
    pub color: PassengerColor,
    pub travel_time_ms: u64,
    pub transfers: u32,
}

} // verus!
