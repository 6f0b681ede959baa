use vstd::prelude::*;

verus! {

/// Rotation of a grid offset by a whole number of quarter turns; any other angle leaves
/// the offset as it is.
pub open spec fn spec_rotate_offset(dx: int, dy: int, rotation: nat) -> (int, int) {
    let r = rotation % 360;
    if r == 0 {
        (dx, dy)
    } else if r == 90 {
        (-dy, dx)
    } else if r == 180 {
        (-dx, -dy)
    } else if r == 270 {
        (dy, -dx)
    } else {
        (dx, dy)
    }
}

/// The same rotation on a machine offset pair.
pub open spec fn rotated(o: (i32, i32), rotation: u32) -> (i32, i32) {
    let r = spec_rotate_offset(o.0 as int, o.1 as int, rotation as nat);
    (r.0 as i32, r.1 as i32)
}

/// Rotates the offset `(dx, dy)` by `rotation` degrees.
pub fn rotate_offset(dx: i32, dy: i32, rotation: u32) -> (r: (i32, i32))
    requires
        dx > i32::MIN,
        dy > i32::MIN,
    ensures
        r.0 == spec_rotate_offset(dx as int, dy as int, rotation as nat).0,
        r.1 == spec_rotate_offset(dx as int, dy as int, rotation as nat).1,
{
    match rotation % 360 {
        0 => (dx, dy),
        90 => (-dy, dx),
        180 => (-dx, -dy),
        270 => (dy, -dx),
        _ => (dx, dy),
    }
}

/// One of the four directions in which a segment can have a port (y grows downwards).
#[derive(Debug, Clone, Copy, PartialEq, Eq, Structural)]
pub enum ConnectionDirection {
    North,
    South,
    East,
    West,
}

/// The unit offset of a direction.
pub open spec fn direction_offset(d: ConnectionDirection) -> (i32, i32) {
    match d {
        ConnectionDirection::North => (0i32, -1i32),
        ConnectionDirection::South => (0i32, 1i32),
        ConnectionDirection::East => (1i32, 0i32),
        ConnectionDirection::West => (-1i32, 0i32),
    }
}

/// The direction whose unit offset is `o`, if `o` is a unit offset.
pub open spec fn offset_direction(o: (i32, i32)) -> Option<ConnectionDirection> {
    if o == (0i32, -1i32) {
        Some(ConnectionDirection::North)
    } else if o == (0i32, 1i32) {
        Some(ConnectionDirection::South)
    } else if o == (1i32, 0i32) {
        Some(ConnectionDirection::East)
    } else if o == (-1i32, 0i32) {
        Some(ConnectionDirection::West)
    } else {
        None
    }
}

impl ConnectionDirection {
    pub fn from_offset(dx: i32, dy: i32) -> (r: Option<ConnectionDirection>)
        ensures
            r == offset_direction((dx, dy)),
    {
        if dx == 0 && dy == -1 {
            Some(ConnectionDirection::North)
        } else if dx == 0 && dy == 1 {
            Some(ConnectionDirection::South)
        } else if dx == 1 && dy == 0 {
            Some(ConnectionDirection::East)
        } else if dx == -1 && dy == 0 {
            Some(ConnectionDirection::West)
        } else {
            None
        }
    }

    /// The direction pointing the other way.
    pub fn opposite(self) -> (r: ConnectionDirection)
        ensures
            direction_offset(r) == ((-direction_offset(self).0) as i32, (-direction_offset(self).1) as i32),
    {
        match self {
            ConnectionDirection::North => ConnectionDirection::South,
            ConnectionDirection::South => ConnectionDirection::North,
            ConnectionDirection::East => ConnectionDirection::West,
            ConnectionDirection::West => ConnectionDirection::East,
        }
    }

    pub fn to_offset(self) -> (r: (i32, i32))
        ensures
            r == direction_offset(self),
    {
        match self {
            ConnectionDirection::North => (0, -1),
            ConnectionDirection::South => (0, 1),
            ConnectionDirection::East => (1, 0),
            ConnectionDirection::West => (-1, 0),
        }
    }
}

/// A cell of the puzzle grid.
#[derive(Debug, Clone, Copy, PartialEq, Eq, Hash, Structural)]
pub struct GridPos {
    pub x: i32,
    pub y: i32,
}

impl GridPos {
    pub fn new(x: i32, y: i32) -> (r: GridPos)
        ensures
            r == (GridPos { x, y }),
    {
        GridPos { x, y }
    }
}

/// The cell reached from `p` by the offset `o`.
pub open spec fn shifted(p: GridPos, o: (i32, i32)) -> GridPos {
    GridPos { x: (p.x + o.0) as i32, y: (p.y + o.1) as i32 }
}

/// Manhattan distance between two cells.
pub open spec fn grid_distance(a: GridPos, b: GridPos) -> int {
    let dx = a.x - b.x;
    let dy = a.y - b.y;
    (if dx >= 0 { dx } else { -dx }) + (if dy >= 0 { dy } else { -dy })
}

/// Coordinates far enough from the machine limits that every neighbour is representable.
pub open spec fn pos_in_range(p: GridPos) -> bool {
    i32::MIN < p.x < i32::MAX && i32::MIN < p.y < i32::MAX
}

/// What a map cell holds.
#[derive(Debug, Clone, Copy, PartialEq, Eq, Structural)]
pub enum TerrainType {
    Empty,
    Building,
    Water,
    Park,
    Mountain,
}

/// The kinds of route segment a player can place.
#[derive(Debug, Clone, Copy, PartialEq, Eq, Hash, Structural)]
pub enum RouteSegmentType {
    Straight,
    Curve,
    TSplit,
    Cross,
    Bridge,
    Tunnel,
}

/// Building cost of a segment kind.
pub open spec fn segment_cost(t: RouteSegmentType) -> u32 {
    match t {
        RouteSegmentType::Straight => 1,
        RouteSegmentType::Curve => 2,
        RouteSegmentType::TSplit => 3,
        RouteSegmentType::Cross => 4,
        RouteSegmentType::Bridge => 5,
        RouteSegmentType::Tunnel => 6,
    }
}

/// The ports of a segment kind at rotation 0, as unit offsets.
pub open spec fn base_offsets(t: RouteSegmentType) -> Seq<(i32, i32)> {
    match t {
        RouteSegmentType::Straight => seq![(-1i32, 0i32), (1i32, 0i32)],
        RouteSegmentType::Curve => seq![(-1i32, 0i32), (0i32, -1i32)],
        RouteSegmentType::TSplit => seq![(0i32, -1i32), (0i32, 1i32), (1i32, 0i32)],
        RouteSegmentType::Cross => seq![(0i32, -1i32), (0i32, 1i32), (-1i32, 0i32), (1i32, 0i32)],
        RouteSegmentType::Bridge => seq![(-1i32, 0i32), (1i32, 0i32)],
        RouteSegmentType::Tunnel => seq![(-1i32, 0i32), (1i32, 0i32)],
    }
}

/// Straight pieces (straight, bridge, tunnel) are symmetric under a half turn.
pub open spec fn is_straight_like(t: RouteSegmentType) -> bool {
    t == RouteSegmentType::Straight || t == RouteSegmentType::Bridge || t
        == RouteSegmentType::Tunnel
}

/// The ports of a segment kind at a rotation: straight pieces are horizontal unless the
/// rotation is an odd quarter turn modulo a half turn, the others turn their base ports.
pub open spec fn connection_offsets(t: RouteSegmentType, rotation: u32) -> Seq<(i32, i32)> {
    if is_straight_like(t) {
        if rotation % 180 == 90 {
            seq![(0i32, -1i32), (0i32, 1i32)]
        } else {
            base_offsets(t)
        }
    } else {
        base_offsets(t).map_values(|o: (i32, i32)| rotated(o, rotation))
    }
}

/// The cells a segment at `pos` reaches through its ports.
pub open spec fn connection_positions(t: RouteSegmentType, pos: GridPos, rotation: u32) -> Seq<
    GridPos,
> {
    connection_offsets(t, rotation).map_values(|o: (i32, i32)| shifted(pos, o))
}

/// A segment of kind `t` at `from` has a port towards `to`.
pub open spec fn has_port(t: RouteSegmentType, from: GridPos, to: GridPos, rotation: u32) -> bool {
    connection_positions(t, from, rotation).contains(to)
}

impl RouteSegmentType {
    pub fn get_cost(&self) -> (r: u32)
        ensures
            r == segment_cost(*self),
    {
        match self {
            RouteSegmentType::Straight => 1,
            RouteSegmentType::Curve => 2,
            RouteSegmentType::TSplit => 3,
            RouteSegmentType::Cross => 4,
            RouteSegmentType::Bridge => 5,
            RouteSegmentType::Tunnel => 6,
        }
    }

    pub fn get_texture_path(&self) -> (r: &'static str)
        ensures
            r@ == (match *self {
                RouteSegmentType::Straight => "textures/routes/straight.png"@,
                RouteSegmentType::Curve => "textures/routes/curve.png"@,
                RouteSegmentType::TSplit => "textures/routes/t_split.png"@,
                RouteSegmentType::Cross => "textures/routes/cross.png"@,
                RouteSegmentType::Bridge => "textures/routes/bridge.png"@,
                RouteSegmentType::Tunnel => "textures/routes/tunnel.png"@,
            }),
    {
        match self {
            RouteSegmentType::Straight => "textures/routes/straight.png",
            RouteSegmentType::Curve => "textures/routes/curve.png",
            RouteSegmentType::TSplit => "textures/routes/t_split.png",
            RouteSegmentType::Cross => "textures/routes/cross.png",
            RouteSegmentType::Bridge => "textures/routes/bridge.png",
            RouteSegmentType::Tunnel => "textures/routes/tunnel.png",
        }
    }

    /// The ports at rotation 0.
    pub fn get_base_connection_offsets(&self) -> (r: Vec<(i32, i32)>)
        ensures
            r@ == base_offsets(*self),
    {
        let v = match self {
            RouteSegmentType::Straight => vec![(-1i32, 0i32), (1i32, 0i32)],
            RouteSegmentType::Curve => vec![(-1i32, 0i32), (0i32, -1i32)],
            RouteSegmentType::TSplit => vec![(0i32, -1i32), (0i32, 1i32), (1i32, 0i32)],
            RouteSegmentType::Cross => vec![(0i32, -1i32), (0i32, 1i32), (-1i32, 0i32), (1i32, 0i32)],
            RouteSegmentType::Bridge => vec![(-1i32, 0i32), (1i32, 0i32)],
            RouteSegmentType::Tunnel => vec![(-1i32, 0i32), (1i32, 0i32)],
        };
        assert(v@ =~= base_offsets(*self));
        v
    }

    /// The ports at the given rotation.
    pub fn get_connection_offsets(&self, rotation: u32) -> (r: Vec<(i32, i32)>)
        ensures
            r@ == connection_offsets(*self, rotation),
    {
        let base = self.get_base_connection_offsets();
        if matches!(self, RouteSegmentType::Straight | RouteSegmentType::Bridge | RouteSegmentType::Tunnel) {
            if rotation % 180 == 90 {
                let v = vec![(0i32, -1i32), (0i32, 1i32)];
                assert(v@ =~= connection_offsets(*self, rotation));
                v
            } else {
                base
            }
        } else {
            let mut out: Vec<(i32, i32)> = Vec::new();
            let mut i: usize = 0;
            while i < base.len()
                invariant
                    base@ == base_offsets(*self),
                    i <= base.len(),
                    out@ =~= base@.take(i as int).map_values(|o: (i32, i32)| rotated(o, rotation)),
                    forall|k: int| 0 <= k < base@.len() ==> -1 <= #[trigger] base@[k].0 <= 1 && -1 <= base@[k].1 <= 1,
                decreases base.len() - i,
            {
                let (dx, dy) = base[i];
                let r = rotate_offset(dx, dy, rotation);
                out.push(r);
                assert(base@.take(i + 1) =~= base@.take(i as int).push(base@[i as int]));
                i = i + 1;
            }
            assert(base@.take(base.len() as int) =~= base@);
            out
        }
    }

    /// The ports at the given rotation, as directions.
    pub fn get_connection_directions(&self, rotation: u32) -> (r: Vec<ConnectionDirection>)
        ensures
            r@.len() == connection_offsets(*self, rotation).len(),
            forall|k: int|
                0 <= k < r@.len() ==> Some(#[trigger] r@[k]) == offset_direction(
                    connection_offsets(*self, rotation)[k],
                ),
    {
        let offs = self.get_connection_offsets(rotation);
        proof {
            lemma_offsets_are_unit(*self, rotation);
        }
        let mut out: Vec<ConnectionDirection> = Vec::new();
        let mut i: usize = 0;
        while i < offs.len()
            invariant
                offs@ == connection_offsets(*self, rotation),
                i <= offs.len(),
                out@.len() == i,
                forall|k: int| 0 <= k < offs@.len() ==> is_unit_offset(#[trigger] offs@[k]),
                forall|k: int| 0 <= k < i ==> Some(#[trigger] out@[k]) == offset_direction(offs@[k]),
            decreases offs.len() - i,
        {
            let (dx, dy) = offs[i];
            assert(is_unit_offset(offs@[i as int]));
            match ConnectionDirection::from_offset(dx, dy) {
                Some(d) => out.push(d),
                None => {
                    assert(false);
                },
            }
            i = i + 1;
        }
        out
    }

    /// The cells this segment reaches from `pos` at the given rotation.
    pub fn get_connection_positions(&self, pos: GridPos, rotation: u32) -> (r: Vec<GridPos>)
        requires
            pos_in_range(pos),
        ensures
            r@ == connection_positions(*self, pos, rotation),
    {
        let offs = self.get_connection_offsets(rotation);
        proof {
            lemma_offsets_are_unit(*self, rotation);
        }
        let mut out: Vec<GridPos> = Vec::new();
        let mut i: usize = 0;
        while i < offs.len()
            invariant
                offs@ == connection_offsets(*self, rotation),
                pos_in_range(pos),
                i <= offs.len(),
                forall|k: int| 0 <= k < offs@.len() ==> is_unit_offset(#[trigger] offs@[k]),
                out@ =~= offs@.take(i as int).map_values(|o: (i32, i32)| shifted(pos, o)),
            decreases offs.len() - i,
        {
            let (dx, dy) = offs[i];
            assert(is_unit_offset(offs@[i as int]));
            out.push(GridPos::new(pos.x + dx, pos.y + dy));
            assert(offs@.take(i + 1) =~= offs@.take(i as int).push(offs@[i as int]));
            i = i + 1;
        }
        assert(offs@.take(offs.len() as int) =~= offs@);
        out
    }

    /// Whether this segment at `from` has a port towards `to`.
    pub fn has_connection_to(&self, from: GridPos, to: GridPos, rotation: u32) -> (r: bool)
        requires
            pos_in_range(from),
        ensures
            r == has_port(*self, from, to, rotation),
    {
        let positions = self.get_connection_positions(from, rotation);
        let mut i: usize = 0;
        while i < positions.len()
            invariant
                positions@ == connection_positions(*self, from, rotation),
                i <= positions.len(),
                forall|k: int| 0 <= k < i ==> positions@[k] != to,
            decreases positions.len() - i,
        {
            if positions[i] == to {
                return true;
            }
            i = i + 1;
        }
        false
    }
}

/// One of the four unit offsets.
pub open spec fn is_unit_offset(o: (i32, i32)) -> bool {
    o == (0i32, -1i32) || o == (0i32, 1i32) || o == (1i32, 0i32) || o == (-1i32, 0i32)
}

/// Every port of every segment kind, at every rotation, is a unit offset.
pub proof fn lemma_offsets_are_unit(t: RouteSegmentType, rotation: u32)
    ensures
        forall|k: int|
            0 <= k < connection_offsets(t, rotation).len() ==> is_unit_offset(
                #[trigger] connection_offsets(t, rotation)[k],
            ),
{
    let b = base_offsets(t);
    assert forall|k: int| 0 <= k < b.len() implies is_unit_offset(#[trigger] b[k]) by {}
    if !is_straight_like(t) {
        assert forall|k: int|
            0 <= k < connection_offsets(t, rotation).len() implies is_unit_offset(
                #[trigger] connection_offsets(t, rotation)[k],
            ) by {
            assert(is_unit_offset(b[k]));
        }
    }
}

/// `a` and `b` are side by side on the grid.
pub open spec fn adjacent(a: GridPos, b: GridPos) -> bool {
    ||| (a.x == b.x && (a.y - b.y == 1 || b.y - a.y == 1))
    ||| (a.y == b.y && (a.x - b.x == 1 || b.x - a.x == 1))
}

/// Every port of a segment leads to a cell beside it.
pub proof fn lemma_port_adjacent(t: RouteSegmentType, from: GridPos, to: GridPos, rotation: u32)
    requires
        pos_in_range(from),
        has_port(t, from, to, rotation),
    ensures
        adjacent(from, to),
        grid_distance(from, to) == 1,
{
    lemma_offsets_are_unit(t, rotation);
    let offs = connection_offsets(t, rotation);
    let ps = connection_positions(t, from, rotation);
    let i = choose|i: int| 0 <= i < ps.len() && ps[i] == to;
    assert(is_unit_offset(offs[i]));
    assert(ps[i] == shifted(from, offs[i]));
}

/// Turning a segment never changes how many ports it has.
pub proof fn law_rotation_keeps_port_count(t: RouteSegmentType, rotation: u32)
    ensures
        connection_offsets(t, rotation).len() == base_offsets(t).len(),
{
}

/// Angles are taken modulo a full turn: a segment turned by one more full turn has the
/// same ports.
pub proof fn law_full_turn_keeps_ports(t: RouteSegmentType, rotation: u32)
    requires
        rotation <= u32::MAX - 360,
    ensures
        connection_offsets(t, (rotation + 360) as u32) == connection_offsets(t, rotation),
{
    let r2 = (rotation + 360) as u32;
    assert(r2 % 360 == rotation % 360);
    assert(r2 % 180 == rotation % 180);
    if !is_straight_like(t) {
        assert(connection_offsets(t, r2) =~= connection_offsets(t, rotation));
    }
}

/// A quarter turn turns the ports: the ports of a segment turned once more by a quarter
/// turn are its ports, each turned by a quarter turn.
pub proof fn law_quarter_turn_rotates_ports(t: RouteSegmentType, rotation: u32)
    requires
        rotation % 90 == 0,
        rotation <= u32::MAX - 90,
    ensures
        connection_offsets(t, (rotation + 90) as u32).to_set() == connection_offsets(t, rotation).map_values(
            |o: (i32, i32)| rotated(o, 90),
        ).to_set(),
{
    let r2 = (rotation + 90) as u32;
    let before = connection_offsets(t, rotation);
    let turned = before.map_values(|o: (i32, i32)| rotated(o, 90));
    if is_straight_like(t) {
        let h = seq![(-1i32, 0i32), (1i32, 0i32)];
        let v = seq![(0i32, -1i32), (0i32, 1i32)];
        assert(base_offsets(t) == h);
        if rotation % 180 == 90 {
            assert(r2 % 180 == 0);
            assert(before == v);
            assert(turned =~= seq![(1i32, 0i32), (-1i32, 0i32)]);
            assert(connection_offsets(t, r2) == h);
            assert(turned.to_set() =~= h.to_set()) by {
                assert(turned.to_set() =~= set![(1i32, 0i32), (-1i32, 0i32)]) by {
                    assert(turned[0] == (1i32, 0i32));
                    assert(turned[1] == (-1i32, 0i32));
                }
                assert(h.to_set() =~= set![(-1i32, 0i32), (1i32, 0i32)]) by {
                    assert(h[0] == (-1i32, 0i32));
                    assert(h[1] == (1i32, 0i32));
                }
            }
        } else {
            assert(rotation % 180 == 0);
            assert(r2 % 180 == 90);
            assert(before == h);
            assert(turned =~= seq![(0i32, -1i32), (0i32, 1i32)]);
            assert(connection_offsets(t, r2) == v);
        }
    } else {
        let base = base_offsets(t);
        assert forall|k: int| 0 <= k < base.len() implies #[trigger] rotated(rotated(base[k], rotation), 90) == rotated(
            base[k],
            r2,
        ) by {
            let o = base[k];
            law_quarter_turns_compose(o.0 as int, o.1 as int, rotation as nat, 90);
            let a = spec_rotate_offset(o.0 as int, o.1 as int, rotation as nat);
            assert(-1 <= a.0 <= 1 && -1 <= a.1 <= 1);
        }
        assert(connection_offsets(t, r2) =~= turned);
    }
}

/// Straight pieces look the same after a half turn.
pub proof fn law_half_turn_keeps_straight_pieces(t: RouteSegmentType, rotation: u32)
    requires
        is_straight_like(t),
        rotation <= u32::MAX - 180,
    ensures
        connection_offsets(t, (rotation + 180) as u32) == connection_offsets(t, rotation),
{
    assert(((rotation + 180) as u32) % 180 == rotation % 180);
}

/// Quarter turns compose: turning by `a` and then by `b`, both whole quarter turns, is
/// turning by `a + b`; in particular four quarter turns bring every offset back.
pub proof fn law_quarter_turns_compose(dx: int, dy: int, a: nat, b: nat)
    requires
        a % 90 == 0,
        b % 90 == 0,
    ensures
        spec_rotate_offset(
            spec_rotate_offset(dx, dy, a).0,
            spec_rotate_offset(dx, dy, a).1,
            b,
        ) == spec_rotate_offset(dx, dy, a + b),
        spec_rotate_offset(dx, dy, 360) == (dx, dy),
{
    let ra = a % 360;
    let rb = b % 360;
    assert(ra % 90 == 0 && rb % 90 == 0) by (nonlinear_arith)
        requires
            a % 90 == 0,
            b % 90 == 0,
            ra == a % 360,
            rb == b % 360,
    ;
    assert((a + b) % 360 == (ra + rb) % 360) by (nonlinear_arith)
        requires
            ra == a % 360,
            rb == b % 360,
    ;
    assert(ra == 0 || ra == 90 || ra == 180 || ra == 270);
    assert(rb == 0 || rb == 90 || rb == 180 || rb == 270);
}

/// A cross piece reaches all four neighbours at every rotation.
pub proof fn law_cross_reaches_every_neighbour(rotation: u32, o: (i32, i32))
    requires
        is_unit_offset(o),
    ensures
        connection_offsets(RouteSegmentType::Cross, rotation).contains(o),
{
    let s = connection_offsets(RouteSegmentType::Cross, rotation);
    assert(s.len() == 4);
    let b = base_offsets(RouteSegmentType::Cross);
    assert(s[0] == rotated(b[0], rotation));
    assert(s[1] == rotated(b[1], rotation));
    assert(s[2] == rotated(b[2], rotation));
    assert(s[3] == rotated(b[3], rotation));
    if s[0] == o {
        assert(s.contains(s[0]));
    } else if s[1] == o {
        assert(s.contains(s[1]));
    } else if s[2] == o {
        assert(s.contains(s[2]));
    } else {
        assert(s[3] == o);
        assert(s.contains(s[3]));
    }
}

/// A direction survives the trip to its offset and back, and an offset that names a
/// direction is that direction's offset.
pub proof fn law_direction_round_trip(d: ConnectionDirection, o: (i32, i32))
    ensures
        offset_direction(direction_offset(d)) == Some(d),
        offset_direction(o) matches Some(e) ==> direction_offset(e) == o,
        offset_direction(o) is Some <==> is_unit_offset(o),
{
}

/// The kinds of station on a map.
#[derive(Debug, Clone, Copy, PartialEq, Eq, Structural)]
pub enum StationType {
    BusStop,
    TransferHub,
    Terminal,
}

/// Passenger colours; a colour tells which demand a passenger belongs to.
#[derive(Debug, Clone, Copy, PartialEq, Eq, Hash, Structural)]
pub enum PassengerColor {
    Red,
    Blue,
    Green,
    Yellow,
    Purple,
    Orange,
}

/// A placed route segment.
#[derive(Debug, Clone, Copy, PartialEq, Eq, Structural)]
pub struct RouteSegment {
    pub grid_pos: GridPos,
    pub segment_type: RouteSegmentType,
    pub rotation: u32,
    pub is_active: bool,
}

/// Where a passenger is in its journey.
#[derive(Debug, Clone, Copy, PartialEq, Eq, Structural)]
pub enum AgentState {
    WaitingAtStation,
    Traveling,
    Transferring,
    Arrived,
    GaveUp,
}

} // verus!
