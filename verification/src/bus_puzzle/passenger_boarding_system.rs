use vstd::prelude::*;

use crate::bus_puzzle::bus_pathfinding_system::{name_views, BusPathfindingAgent, BusPathfindingState};
use crate::bus_puzzle::bus_system::BusVehicle;
use crate::bus_puzzle::components::AgentState;
use crate::bus_puzzle::interaction::PathfindingAgent;
use crate::bus_puzzle::text::{owned, text_eq};

verus! {

/// A passenger waiting at a station for a bus to `target_station`; the wait is counted in
/// milliseconds.
#[derive(Debug)]
pub struct WaitingForBus {
    pub target_station: String,
    pub wait_time: u64,
    pub has_suitable_bus: bool,
}

/// A passenger riding the bus `bus_entity` to `target_station`, aboard since
/// `boarding_time` milliseconds.
#[derive(Debug)]
pub struct OnBus {
    pub bus_entity: u64,
    pub target_station: String,
    pub boarding_time: u64,
}

/// Some bus's line stops at `target`.
pub open spec fn some_bus_serves(buses: Seq<BusPathfindingAgent>, target: Seq<char>) -> bool {
    exists|k: int| 0 <= k < buses.len() && name_views(#[trigger] buses[k].stations_to_visit@).contains(target)
}

/// Whether `name` is among `list`.
fn list_has(list: &Vec<String>, name: &str) -> (r: bool)
    ensures
        r == name_views(list@).contains(name@),
{
    let mut i: usize = 0;
    while i < list.len()
        invariant
            i <= list@.len(),
            forall|k: int| 0 <= k < i ==> list@[k]@ != name@,
        decreases list.len() - i,
    {
        if text_eq(list[i].as_str(), name) {
            assert(name_views(list@)[i as int] == name@);
            return true;
        }
        i = i + 1;
    }
    assert forall|k: int| 0 <= k < name_views(list@).len() implies name_views(list@)[k] != name@ by {}
    false
}

/// Whether some bus's line stops at `target_station`.
pub fn check_suitable_bus(target_station: &str, buses: &Vec<BusPathfindingAgent>) -> (r: bool)
    ensures
        r == some_bus_serves(buses@, target_station@),
{
    let mut k: usize = 0;
    while k < buses.len()
        invariant
            k <= buses@.len(),
            forall|x: int| 0 <= x < k ==> !name_views(#[trigger] buses@[x].stations_to_visit@).contains(target_station@),
        decreases buses.len() - k,
    {
        if list_has(&buses[k].stations_to_visit, target_station) {
            return true;
        }
        k = k + 1;
    }
    false
}

/// A passenger waiting at its origin starts waiting for a bus to its destination, noting
/// whether some bus serves it; a waiting passenger whose origin is not a station gives up.
/// Passengers in other states are left alone.
pub fn update_waiting_passenger(
    agent: &mut PathfindingAgent,
    origin_exists: bool,
    buses: &Vec<BusPathfindingAgent>,
) -> (r: Option<WaitingForBus>)
    ensures
        old(agent).state != AgentState::WaitingAtStation ==> r is None && *final(agent) == *old(agent),
        old(agent).state == AgentState::WaitingAtStation && !origin_exists ==> r is None && final(agent).state
            == AgentState::GaveUp,
        old(agent).state == AgentState::WaitingAtStation && origin_exists ==> *final(agent) == *old(agent) && (r matches Some(
            w,
        ) && w.target_station@ == old(agent).destination@ && w.wait_time == 0 && w.has_suitable_bus == some_bus_serves(
            buses@,
            old(agent).destination@,
        )),
        final(agent).destination == old(agent).destination,
        final(agent).origin == old(agent).origin,
        final(agent).patience == old(agent).patience,
{
    if agent.state != AgentState::WaitingAtStation {
        return None;
    }
    if !origin_exists {
        agent.state = AgentState::GaveUp;
        return None;
    }
    let has_suitable_bus = check_suitable_bus(agent.destination.as_str(), buses);
    Some(WaitingForBus { target_station: owned(agent.destination.as_str()), wait_time: 0, has_suitable_bus })
}

/// The bus at `k` can take the waiting passenger: it stands at a station, its line stops at
/// the passenger's target, it is close enough and it has a free seat.
pub open spec fn can_board(bus: BusVehicle, bus_agent: BusPathfindingAgent, near: bool, target: Seq<char>) -> bool {
    &&& bus_agent.state == BusPathfindingState::AtStation
    &&& name_views(bus_agent.stations_to_visit@).contains(target)
    &&& near
    &&& bus.current_passengers@.len() < bus.capacity
}

/// The first bus, in list order, that can take the passenger.
pub open spec fn first_boardable(
    buses: Seq<BusVehicle>,
    agents: Seq<BusPathfindingAgent>,
    near: Seq<bool>,
    target: Seq<char>,
    from: int,
) -> Option<int>
    decreases buses.len() - from,
{
    if from >= buses.len() || from < 0 {
        None
    } else if can_board(buses[from], agents[from], near[from], target) {
        Some(from)
    } else {
        first_boardable(buses, agents, near, target, from + 1)
    }
}

/// What happened to a waiting passenger in one update.
#[derive(Debug)]
pub struct BoardingOutcome {
    pub boarded: Option<(usize, OnBus)>,
    pub gave_up: bool,
}

/// One update of a waiting passenger, `dt_ms` milliseconds after the last: the wait grows,
/// patience drains at a fiftieth of the time's rate, the passenger boards the first bus that
/// can take it, and a passenger out of patience gives up, boarded or not. No bus that was
/// within its capacity is filled beyond it.
pub fn handle_passenger_boarding(
    passenger_entity: u64,
    waiting: &mut WaitingForBus,
    agent: &mut PathfindingAgent,
    buses: &mut Vec<BusVehicle>,
    bus_agents: &Vec<BusPathfindingAgent>,
    bus_ids: &Vec<u64>,
    near: &Vec<bool>,
    dt_ms: u64,
    now_ms: u64,
) -> (r: BoardingOutcome)
    requires
        old(buses)@.len() == bus_agents@.len(),
        old(buses)@.len() == bus_ids@.len(),
        old(buses)@.len() == near@.len(),
        old(waiting).wait_time + dt_ms <= u64::MAX,
        dt_ms * 20 <= i64::MAX,
        old(agent).patience - dt_ms * 20 >= i64::MIN,
    ensures
        final(waiting).wait_time == old(waiting).wait_time + dt_ms,
        final(waiting).target_station == old(waiting).target_station,
        final(agent).patience == old(agent).patience - dt_ms * 20,
        final(buses)@.len() == old(buses)@.len(),
        match first_boardable(old(buses)@, bus_agents@, near@, old(waiting).target_station@, 0) {
            Some(k) => (r.boarded matches Some(b) && b.0 == k && b.1.bus_entity == bus_ids@[k] && b.1.target_station@
                == old(waiting).target_station@ && b.1.boarding_time == now_ms) && final(buses)@[k].current_passengers@
                == old(buses)@[k].current_passengers@.push(passenger_entity) && forall|x: int|
                0 <= x < old(buses)@.len() && x != k ==> #[trigger] final(buses)@[x] == old(buses)@[x],
            None => r.boarded is None && final(buses)@ == old(buses)@,
        },
        r.gave_up == (final(agent).patience <= 0),
        forall|x: int|
            0 <= x < old(buses)@.len() ==> (#[trigger] final(buses)@[x]).capacity == old(buses)@[x].capacity
                && (old(buses)@[x].current_passengers@.len() <= old(buses)@[x].capacity
                ==> final(buses)@[x].current_passengers@.len() <= final(buses)@[x].capacity),
        final(agent).state == (if final(agent).patience <= 0 {
            AgentState::GaveUp
        } else if r.boarded is Some {
            AgentState::Traveling
        } else {
            old(agent).state
        }),
        final(agent).destination == old(agent).destination,
        final(agent).current_path == old(agent).current_path,
{
    waiting.wait_time = waiting.wait_time + dt_ms;
    agent.patience = agent.patience - (dt_ms as i64) * 20;
    let mut boarded: Option<(usize, OnBus)> = None;
    match find_boardable(buses, bus_agents, near, &waiting.target_station) {
        Some(k) => {
            let mut bus = buses.remove(k);
            let ghost before = old(buses)@;
            bus.current_passengers.push(passenger_entity);
            buses.insert(k, bus);
            proof {
                assert(buses@ =~= before.update(k as int, buses@[k as int]));
            }
            agent.state = AgentState::Traveling;
            boarded = Some(
                (
                    k,
                    OnBus {
                        bus_entity: bus_ids[k],
                        target_station: owned(waiting.target_station.as_str()),
                        boarding_time: now_ms,
                    },
                ),
            );
        },
        None => {},
    }
    let gave_up = agent.patience <= 0;
    if gave_up {
        agent.state = AgentState::GaveUp;
    }
    BoardingOutcome { boarded, gave_up }
}

/// Bus `k` stands at a station, its line stops at `target`, it is near the passenger and it
/// has a free seat.
proof fn lemma_first_boardable(
    buses: Seq<BusVehicle>,
    agents: Seq<BusPathfindingAgent>,
    near: Seq<bool>,
    target: Seq<char>,
    from: int,
)
    requires
        buses.len() == agents.len(),
        buses.len() == near.len(),
        0 <= from,
    ensures
        first_boardable(buses, agents, near, target, from) matches Some(k) ==> from <= k < buses.len() && near[k]
            && agents[k].state == BusPathfindingState::AtStation && name_views(agents[k].stations_to_visit@).contains(
            target,
        ) && buses[k].current_passengers@.len() < buses[k].capacity && forall|j: int|
            from <= j < k ==> !(near[j] && agents[j].state == BusPathfindingState::AtStation && name_views(
                agents[j].stations_to_visit@,
            ).contains(target) && buses[j].current_passengers@.len() < buses[j].capacity),
        first_boardable(buses, agents, near, target, from) is None ==> forall|j: int|
            from <= j < buses.len() ==> !(near[j] && agents[j].state == BusPathfindingState::AtStation && name_views(
                agents[j].stations_to_visit@,
            ).contains(target) && buses[j].current_passengers@.len() < buses[j].capacity),
    decreases buses.len() - from,
{
    if from < buses.len() {
        lemma_first_boardable(buses, agents, near, target, from + 1);
    }
}

/// A waiting passenger boards only a bus that is near, stands at a station whose line stops
/// at the passenger's target and has a free seat, and it boards the first such bus in
/// the list; when there is none it boards nothing.
pub proof fn law_passengers_board_only_near_buses_with_room(
    buses: Seq<BusVehicle>,
    agents: Seq<BusPathfindingAgent>,
    near: Seq<bool>,
    target: Seq<char>,
)
    requires
        buses.len() == agents.len(),
        buses.len() == near.len(),
    ensures
        first_boardable(buses, agents, near, target, 0) matches Some(k) ==> 0 <= k < buses.len() && near[k]
            && agents[k].state == BusPathfindingState::AtStation && name_views(agents[k].stations_to_visit@).contains(
            target,
        ) && buses[k].current_passengers@.len() < buses[k].capacity,
        first_boardable(buses, agents, near, target, 0) matches Some(k) ==> forall|j: int|
            0 <= j < k ==> !(near[j] && agents[j].state == BusPathfindingState::AtStation && name_views(
                agents[j].stations_to_visit@,
            ).contains(target) && buses[j].current_passengers@.len() < buses[j].capacity),
        first_boardable(buses, agents, near, target, 0) is None <==> forall|j: int|
            0 <= j < buses.len() ==> !(near[j] && agents[j].state == BusPathfindingState::AtStation && name_views(
                agents[j].stations_to_visit@,
            ).contains(target) && buses[j].current_passengers@.len() < buses[j].capacity),
{
    lemma_first_boardable(buses, agents, near, target, 0);
}

/// The first bus that can take a passenger waiting for `target`.
fn find_boardable(
    buses: &Vec<BusVehicle>,
    bus_agents: &Vec<BusPathfindingAgent>,
    near: &Vec<bool>,
    target: &String,
) -> (r: Option<usize>)
    requires
        buses@.len() == bus_agents@.len(),
        buses@.len() == near@.len(),
    ensures
        r matches Some(k) ==> k < buses@.len() && can_board(buses@[k as int], bus_agents@[k as int], near@[k as int], target@),
        (match r {
            Some(k) => Some(k as int),
            None => None,
        }) == first_boardable(buses@, bus_agents@, near@, target@, 0),
{
    let mut k: usize = 0;
    while k < buses.len()
        invariant
            buses@.len() == bus_agents@.len(),
            buses@.len() == near@.len(),
            k <= buses@.len(),
            first_boardable(buses@, bus_agents@, near@, target@, 0) == first_boardable(buses@, bus_agents@, near@, target@, k as int),
        decreases buses.len() - k,
    {
        let has_target = list_has(&bus_agents[k].stations_to_visit, target.as_str());
        if bus_agents[k].state == BusPathfindingState::AtStation && has_target && near[k]
            && buses[k].current_passengers.len() < buses[k].capacity as usize {
            return Some(k);
        }
        k = k + 1;
    }
    None
}

/// What happened to a riding passenger in one update.
#[derive(Debug, Clone, Copy, PartialEq, Eq, Structural)]
pub enum AlightingOutcome {
    StillRiding,
    Arrived,
    BusGone,
}

/// The entity ids of a list, with one id taken out everywhere.
pub open spec fn without_id(ids: Seq<u64>, id: u64) -> Seq<u64> {
    ids.filter(|x: u64| x != id)
}

/// Takes the passenger off `bus`'s passenger list.
fn drop_passenger(bus: &mut BusVehicle, passenger_entity: u64)
    ensures
        final(bus).current_passengers@ == without_id(old(bus).current_passengers@, passenger_entity),
        final(bus).vehicle_id == old(bus).vehicle_id,
        final(bus).route_id == old(bus).route_id,
        final(bus).capacity == old(bus).capacity,
        final(bus).current_stop_index == old(bus).current_stop_index,
        final(bus).direction == old(bus).direction,
        final(bus).state == old(bus).state,
        final(bus).speed == old(bus).speed,
        final(bus).dwell_time == old(bus).dwell_time,
        final(bus).remaining_dwell == old(bus).remaining_dwell,
{
    let ghost ids = bus.current_passengers@;
    let mut kept: Vec<u64> = Vec::new();
    let mut i: usize = 0;
    while i < bus.current_passengers.len()
        invariant
            ids == bus.current_passengers@,
            i <= ids.len(),
            kept@ == without_id(ids.take(i as int), passenger_entity),
        decreases bus.current_passengers.len() - i,
    {
        proof {
            assert(ids.take(i + 1).drop_last() =~= ids.take(i as int));
            reveal(Seq::filter);
        }
        let x = bus.current_passengers[i];
        if x != passenger_entity {
            kept.push(x);
        }
        i = i + 1;
    }
    assert(ids.take(ids.len() as int) =~= ids);
    bus.current_passengers = kept;
}

/// One update of a riding passenger: when its bus is gone it gives up; when its bus stands
/// at the passenger's target station it leaves the bus and has arrived; otherwise it rides
/// on.
pub fn handle_passenger_alighting(
    passenger_entity: u64,
    on_bus: &OnBus,
    agent: &mut PathfindingAgent,
    buses: &mut Vec<BusVehicle>,
    bus_agents: &Vec<BusPathfindingAgent>,
    bus_ids: &Vec<u64>,
) -> (r: AlightingOutcome)
    requires
        old(buses)@.len() == bus_agents@.len(),
        old(buses)@.len() == bus_ids@.len(),
    ensures
        !bus_ids@.contains(on_bus.bus_entity) ==> r == AlightingOutcome::BusGone && final(agent).state
            == AgentState::GaveUp && final(buses)@ == old(buses)@,
        bus_ids@.contains(on_bus.bus_entity) ==> {
            let k = choose_first(bus_ids@, on_bus.bus_entity);
            let at_target = bus_agents@[k].state == BusPathfindingState::AtStation && bus_agents@[k].target_station@
                == on_bus.target_station@;
            &&& at_target ==> r == AlightingOutcome::Arrived && final(agent).state == AgentState::Arrived
                && final(buses)@.len() == old(buses)@.len() && final(buses)@[k].current_passengers@ == without_id(
                old(buses)@[k].current_passengers@,
                passenger_entity,
            ) && forall|x: int| 0 <= x < old(buses)@.len() && x != k ==> #[trigger] final(buses)@[x] == old(buses)@[x]
            &&& !at_target ==> r == AlightingOutcome::StillRiding && *final(agent) == *old(agent) && final(buses)@
                == old(buses)@
        },
        final(agent).destination == old(agent).destination,
        final(agent).patience == old(agent).patience,
{
    match find_bus(bus_ids, on_bus.bus_entity) {
        Some(k) => {
            if bus_agents[k].state == BusPathfindingState::AtStation && text_eq(
                bus_agents[k].target_station.as_str(),
                on_bus.target_station.as_str(),
            ) {
                let mut bus = buses.remove(k);
                let ghost before = old(buses)@;
                drop_passenger(&mut bus, passenger_entity);
                buses.insert(k, bus);
                proof {
                    assert(buses@ =~= before.update(k as int, buses@[k as int]));
                }
                agent.state = AgentState::Arrived;
                AlightingOutcome::Arrived
            } else {
                AlightingOutcome::StillRiding
            }
        },
        None => {
            agent.state = AgentState::GaveUp;
            AlightingOutcome::BusGone
        },
    }
}

/// The index of the bus with entity id `id`.
fn find_bus(bus_ids: &Vec<u64>, id: u64) -> (r: Option<usize>)
    ensures
        r matches Some(k) ==> k < bus_ids@.len() && bus_ids@.contains(id) && choose_first(bus_ids@, id) == k,
        r is None ==> !bus_ids@.contains(id),
{
    let mut k: usize = 0;
    while k < bus_ids.len()
        invariant
            k <= bus_ids@.len(),
            forall|x: int| 0 <= x < k ==> bus_ids@[x] != id,
        decreases bus_ids.len() - k,
    {
        if bus_ids[k] == id {
            proof {
                lemma_choose_first(bus_ids@, id, k as int);
                assert(bus_ids@[k as int] == id);
            }
            return Some(k);
        }
        k = k + 1;
    }
    None
}

/// The first index of `id` in `ids` (meaningful when it occurs).
pub open spec fn choose_first(ids: Seq<u64>, id: u64) -> int {
    choose|k: int| 0 <= k < ids.len() && ids[k] == id && forall|x: int| 0 <= x < k ==> ids[x] != id
}

proof fn lemma_choose_first(ids: Seq<u64>, id: u64, k: int)
    requires
        0 <= k < ids.len(),
        ids[k] == id,
        forall|x: int| 0 <= x < k ==> ids[x] != id,
    ensures
        choose_first(ids, id) == k,
{
    let c = choose_first(ids, id);
    assert(0 <= c < ids.len() && ids[c] == id && forall|x: int| 0 <= x < c ==> ids[x] != id);
    if c < k {
        assert(ids[c] != id);
    } else if c > k {
        assert(ids[k] != id);
    }
}

} // verus!
