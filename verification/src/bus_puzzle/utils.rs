use vstd::prelude::*;

use crate::bus_puzzle::text::{decimal_digits, digit_char, int_to_string, owned, zero_padded};
use crate::bus_puzzle::components::{grid_distance, pos_in_range, GridPos, PassengerColor};

verus! {

/// Manhattan distance between two cells.
pub fn manhattan_distance(pos1: GridPos, pos2: GridPos) -> (r: u32)
    requires
        -i32::MAX <= pos1.x - pos2.x <= i32::MAX,
        -i32::MAX <= pos1.y - pos2.y <= i32::MAX,
        grid_distance(pos1, pos2) <= i32::MAX,
    ensures
        r == grid_distance(pos1, pos2),
{
    let dx = pos1.x - pos2.x;
    let dy = pos1.y - pos2.y;
    let ax = if dx >= 0 { dx } else { -dx };
    let ay = if dy >= 0 { dy } else { -dy };
    (ax + ay) as u32
}

/// The four cells around `pos`: above, below, left and right.
pub open spec fn neighbors_of(pos: GridPos) -> Seq<GridPos> {
    seq![
        GridPos { x: pos.x, y: (pos.y - 1) as i32 },
        GridPos { x: pos.x, y: (pos.y + 1) as i32 },
        GridPos { x: (pos.x - 1) as i32, y: pos.y },
        GridPos { x: (pos.x + 1) as i32, y: pos.y },
    ]
}

/// The four cells around `pos`: above, below, left and right.
pub fn get_neighbors(pos: GridPos) -> (r: Vec<GridPos>)
    requires
        pos_in_range(pos),
    ensures
        r@ == neighbors_of(pos),
{
    let v = vec![
        GridPos::new(pos.x, pos.y - 1),
        GridPos::new(pos.x, pos.y + 1),
        GridPos::new(pos.x - 1, pos.y),
        GridPos::new(pos.x + 1, pos.y),
    ];
    assert(v@ =~= neighbors_of(pos));
    v
}

/// A colour given by its red, green and blue parts, each in percent of full intensity.
#[derive(Debug, Clone, Copy, PartialEq, Eq, Structural)]
pub struct Rgb {
    pub r: u8,
    pub g: u8,
    pub b: u8,
}

/// The colour of a passenger colour.
pub open spec fn passenger_rgb(c: PassengerColor) -> Rgb {
    match c {
        PassengerColor::Red => Rgb { r: 100, g: 20, b: 20 },
        PassengerColor::Blue => Rgb { r: 20, g: 20, b: 100 },
        PassengerColor::Green => Rgb { r: 20, g: 100, b: 20 },
        PassengerColor::Yellow => Rgb { r: 100, g: 100, b: 20 },
        PassengerColor::Purple => Rgb { r: 80, g: 20, b: 80 },
        PassengerColor::Orange => Rgb { r: 100, g: 60, b: 20 },
    }
}

/// The colour in which passengers of a colour are drawn.
pub fn get_passenger_color(passenger_color: PassengerColor) -> (r: Rgb)
    ensures
        r == passenger_rgb(passenger_color),
{
    match passenger_color {
        PassengerColor::Red => Rgb { r: 100, g: 20, b: 20 },
        PassengerColor::Blue => Rgb { r: 20, g: 20, b: 100 },
        PassengerColor::Green => Rgb { r: 20, g: 100, b: 20 },
        PassengerColor::Yellow => Rgb { r: 100, g: 100, b: 20 },
        PassengerColor::Purple => Rgb { r: 80, g: 20, b: 80 },
        PassengerColor::Orange => Rgb { r: 100, g: 60, b: 20 },
    }
}

/// A number of whole seconds as minutes and seconds, each two digits at least.
pub open spec fn clock_text(seconds: nat) -> Seq<char> {
    zero_padded(decimal_digits(seconds / 60), 2) + seq![':'] + zero_padded(decimal_digits(seconds % 60), 2)
}

/// The decimal text of `n`, padded with zeros to two digits.
fn two_digits(n: u32) -> (r: String)
    ensures
        r@ == zero_padded(decimal_digits(n as nat), 2),
{
    let digits = int_to_string(n as i128);
    if n < 10 {
        let mut s = owned("0");
        s.append(digits.as_str());
        proof {
            reveal_strlit("0");
            assert(decimal_digits(n as nat).len() == 1);
            assert(s@ =~= zero_padded(decimal_digits(n as nat), 2));
        }
        s
    } else {
        proof {
            assert(decimal_digits(n as nat).len() >= 2) by {
                assert(decimal_digits(n as nat) == decimal_digits((n / 10) as nat).push(
                    digit_char((n % 10) as nat),
                ));
            }
        }
        digits
    }
}

/// Shows a time given in whole seconds as `mm:ss`.
pub fn format_time(seconds: u32) -> (r: String)
    ensures
        r@ == clock_text(seconds as nat),
{
    let mut s = two_digits(seconds / 60);
    s.append(":");
    let secs = two_digits(seconds % 60);
    s.append(secs.as_str());
    proof {
        reveal_strlit(":");
        assert(s@ =~= clock_text(seconds as nat));
    }
    s
}

} // verus!
