//! Cells of the board and moves between them.
use vstd::prelude::*;

verus! {

/// A cell of the board's interior: (column, row), both counted from zero.
pub type Position = (u16, u16);

/// A heading of the snake, or `Keep` to go on in the current one.
#[derive(Clone, Copy, PartialEq, Eq, Structural, Debug)]
pub enum Directions {
    Up,
    Down,
    Left,
    Right,
    Keep,
}

/// The cell is inside a board of `width` columns and `height` rows.
pub open spec fn in_board(p: Position, width: u16, height: u16) -> bool {
    p.0 < width && p.1 < height
}

/// The cell one step from `p` in direction `d`. Coordinates are `u16` and
/// wrap: a step left from column 0 or up from row 0 lands on `u16::MAX`,
/// which no board holds.
pub open spec fn step_from(p: Position, d: Directions) -> Position {
    match d {
        Directions::Up => (p.0, if p.1 == 0 { u16::MAX } else { (p.1 - 1) as u16 }),
        Directions::Down => (p.0, if p.1 == u16::MAX { 0 } else { (p.1 + 1) as u16 }),
        Directions::Left => (if p.0 == 0 { u16::MAX } else { (p.0 - 1) as u16 }, p.1),
        Directions::Right => (if p.0 == u16::MAX { 0 } else { (p.0 + 1) as u16 }, p.1),
        Directions::Keep => p,
    }
}

/// Moves one cell from `p` in direction `d`, wrapping at the ends of `u16`.
pub fn moved(p: Position, d: Directions) -> (r: Position)
    ensures
        r == step_from(p, d),
{
    match d {
        Directions::Up => (p.0, p.1.wrapping_sub(1)),
        Directions::Down => (p.0, p.1.wrapping_add(1)),
        Directions::Left => (p.0.wrapping_sub(1), p.1),
        Directions::Right => (p.0.wrapping_add(1), p.1),
        Directions::Keep => p,
    }
}

/// Whether `p` is one of the cells in `cells`.
pub fn holds(cells: &Vec<Position>, p: Position) -> (r: bool)
    ensures
        r == cells@.contains(p),
{
    let mut i: usize = 0;
    while i < cells.len()
        invariant
            i <= cells@.len(),
            forall|j: int| 0 <= j < i ==> cells@[j] != p,
        decreases cells@.len() - i,
    {
        let c = cells[i];
        if c.0 == p.0 && c.1 == p.1 {
            assert(cells@[i as int] == p);
            return true;
        }
        i = i + 1;
    }
    false
}

} // verus!
