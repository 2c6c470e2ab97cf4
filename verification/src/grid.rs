//! The coordinate space of the game: grid cells, movement directions, and the
//! overall game state, together with the spec-level geometry the engine's
//! contracts are written in.

use vstd::prelude::*;

verus! {

/// Grid units: how many worm segments fit along the x axis.
pub const SPICEFIELD_SIZE_X: i32 = 40;

/// Grid units: how many worm segments fit along the y axis.
pub const SPICEFIELD_SIZE_Y: i32 = 30;

/// Pixel size of one grid cell when the scene is rendered.
pub const SANDWORM_SEGMENT_PX: i32 = 20;

/// The overall state of one game.  `Over` is terminal: no transition of the
/// engine ever leaves it.
#[derive(Copy, Clone, Debug, PartialEq, Eq, Structural)]
pub enum GameState {
    Playing,
    Paused,
    Over,
}

/// The travel direction of the worm.  There are no diagonal directions.
#[derive(Copy, Clone, Debug, PartialEq, Eq, Structural)]
pub enum WormDirection {
    Up,
    Right,
    Down,
    Left,
}

/// One cell of the grid, as a pair of integer coordinates.
#[derive(Copy, Clone, Debug, PartialEq, Eq, Structural)]
pub struct Coord {
    pub x: i32,
    pub y: i32,
}

impl Coord {
    /// Component-wise vector addition, used for movement deltas.
    pub fn plus(self, other: Coord) -> (r: Coord)
        requires
            i32::MIN <= self.x + other.x <= i32::MAX,
            i32::MIN <= self.y + other.y <= i32::MAX,
        ensures
            r.x == self.x + other.x,
            r.y == self.y + other.y,
    {
        Coord { x: self.x + other.x, y: self.y + other.y }
    }
}

/// The unit vector of a direction, in a coordinate system whose y axis grows
/// downward.
pub open spec fn direction_delta(d: WormDirection) -> Coord {
    match d {
        WormDirection::Up => Coord { x: 0, y: -1i32 },
        WormDirection::Right => Coord { x: 1, y: 0 },
        WormDirection::Down => Coord { x: 0, y: 1 },
        WormDirection::Left => Coord { x: -1i32, y: 0 },
    }
}

/// The geometric opposite of a direction.  Steering straight into it would
/// reverse the worm onto its own neck.
pub open spec fn opposite_of(d: WormDirection) -> WormDirection {
    match d {
        WormDirection::Up => WormDirection::Down,
        WormDirection::Right => WormDirection::Left,
        WormDirection::Down => WormDirection::Up,
        WormDirection::Left => WormDirection::Right,
    }
}

/// Exec mirror of [`opposite_of`].
pub fn opposite(d: WormDirection) -> (r: WormDirection)
    ensures
        r == opposite_of(d),
{
    match d {
        WormDirection::Up => WormDirection::Down,
        WormDirection::Right => WormDirection::Left,
        WormDirection::Down => WormDirection::Up,
        WormDirection::Left => WormDirection::Right,
    }
}

/// The cells the worm may occupy without the game ending.  The upper bound is
/// deliberately inclusive: the engine's boundary test admits coordinates equal
/// to the grid size, one column and one row beyond the zero-indexed field, and
/// that observable game-over timing is kept.
pub open spec fn in_field(c: Coord) -> bool {
    0 <= c.x <= SPICEFIELD_SIZE_X && 0 <= c.y <= SPICEFIELD_SIZE_Y
}

/// The cells a target may be placed on: the zero-indexed grid proper, with an
/// exclusive upper bound.
pub open spec fn in_spawn_grid(c: Coord) -> bool {
    0 <= c.x < SPICEFIELD_SIZE_X && 0 <= c.y < SPICEFIELD_SIZE_Y
}

/// The field widened by one cell on every side.  A freshly grown tail segment
/// extends one cell beyond the previous tail and may poke this far out; every
/// other segment stays within [`in_field`].
pub open spec fn in_outer_field(c: Coord) -> bool {
    -1 <= c.x <= SPICEFIELD_SIZE_X + 1 && -1 <= c.y <= SPICEFIELD_SIZE_Y + 1
}

/// Two cells are adjacent when they differ by exactly one unit along exactly
/// one axis.
pub open spec fn adjacent(a: Coord, b: Coord) -> bool {
    ||| (a.x == b.x && (b.y == a.y + 1 || b.y == a.y - 1))
    ||| (a.y == b.y && (b.x == a.x + 1 || b.x == a.x - 1))
}

} // verus!
