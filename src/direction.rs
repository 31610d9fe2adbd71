use vstd::prelude::*;

verus! {

/// A grid cell address; the origin is the top-left corner.
#[derive(Clone, Copy, PartialEq, Eq, Structural, Debug, Hash)]
pub struct Pos {
    pub x: usize,
    pub y: usize,
}

/// The size of a grid: `x` columns and `y` rows.
pub type Size = Pos;

/// Another name for a grid coordinate.
pub type Vec2 = Pos;

/// One of the four compass directions.
#[derive(Clone, Copy, PartialEq, Eq, Structural, Debug, Hash)]
pub enum Direction {
    Up,
    Left,
    Right,
    Down,
}

/// A payload paired with a direction: a body segment, or a symbol to draw.
#[derive(Clone, Copy, PartialEq, Eq, Debug)]
pub struct Directed<T>(pub Direction, pub T);

/// The direction that points the other way.
pub open spec fn opposite(d: Direction) -> Direction {
    match d {
        Direction::Up => Direction::Down,
        Direction::Down => Direction::Up,
        Direction::Left => Direction::Right,
        Direction::Right => Direction::Left,
    }
}

/// Whether a unit move from `p` towards `d` stays within unsigned coordinates.
pub open spec fn can_advance(p: Pos, d: Direction) -> bool {
    match d {
        Direction::Up => p.y > 0,
        Direction::Left => p.x > 0,
        Direction::Right => p.x < usize::MAX,
        Direction::Down => p.y < usize::MAX,
    }
}

/// The cell one unit away from `p` towards `d`.
pub open spec fn advanced(p: Pos, d: Direction) -> Pos {
    match d {
        Direction::Up => Pos { x: p.x, y: (p.y - 1) as usize },
        Direction::Left => Pos { x: (p.x - 1) as usize, y: p.y },
        Direction::Right => Pos { x: (p.x + 1) as usize, y: p.y },
        Direction::Down => Pos { x: p.x, y: (p.y + 1) as usize },
    }
}

/// Moving one unit and then one unit back returns to the start.
pub proof fn lemma_advance_back(p: Pos, d: Direction)
    requires
        can_advance(p, d),
    ensures
        can_advance(advanced(p, d), opposite(d)),
        advanced(advanced(p, d), opposite(d)) == p,
{
}

/// The cell one unit away from `pos` towards `direction`.
pub fn advance(pos: Pos, direction: Direction) -> (r: Pos)
    requires
        can_advance(pos, direction),
    ensures
        r == advanced(pos, direction),
{
    match direction {
        Direction::Up => Pos { x: pos.x, y: pos.y - 1 },
        Direction::Left => Pos { x: pos.x - 1, y: pos.y },
        Direction::Right => Pos { x: pos.x + 1, y: pos.y },
        Direction::Down => Pos { x: pos.x, y: pos.y + 1 },
    }
}

} // verus!
