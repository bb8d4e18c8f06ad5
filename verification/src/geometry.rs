//! Cells, the four cardinal directions and their unit vectors.

use vstd::prelude::*;

verus! {

/// One of the four cardinal directions. Rows are counted from the top, so
/// north is towards smaller rows and south towards larger ones.
#[derive(Clone, Copy, Debug, PartialEq, Eq, Structural)]
pub enum Direction {
    North,
    South,
    East,
    West,
}

/// A grid position by column and row. It may lie outside any board.
#[derive(Clone, Copy, Debug, PartialEq, Eq, Structural)]
pub struct Cell {
    pub col: i32,
    pub row: i32,
}

/// The additive identity of `i32`, taken from `num::zero`.
/// Trusted: the result is 0.
#[verifier::external_body]
fn zero() -> (r: i32)
    ensures
        r == 0,
{
    num::zero()
}

/// The multiplicative identity of `i32`, taken from `num::one`.
/// Trusted: the result is 1.
#[verifier::external_body]
fn one() -> (r: i32)
    ensures
        r == 1,
{
    num::one()
}

/// The componentwise sum of two integer vectors, computed by
/// `vecmath::vec2_add`. Trusted: each component of the result is the sum of
/// the arguments' components; sums outside `i32` are left out.
#[verifier::external_body]
fn vec2_sum(a: [i32; 2], b: [i32; 2]) -> (r: [i32; 2])
    requires
        i32::MIN <= a[0] + b[0] <= i32::MAX,
        i32::MIN <= a[1] + b[1] <= i32::MAX,
    ensures
        r[0] == a[0] + b[0],
        r[1] == a[1] + b[1],
{
    vecmath::vec2_add(a, b)
}

impl Direction {
    /// The change in column of one step in this direction.
    pub open spec fn dx(self) -> int {
        match self {
            Direction::East => 1,
            Direction::West => -1,
            _ => 0,
        }
    }

    /// The change in row of one step in this direction.
    pub open spec fn dy(self) -> int {
        match self {
            Direction::North => -1,
            Direction::South => 1,
            _ => 0,
        }
    }

    /// The direction that undoes a step in this one.
    pub open spec fn reversed(self) -> Direction {
        match self {
            Direction::North => Direction::South,
            Direction::South => Direction::North,
            Direction::East => Direction::West,
            Direction::West => Direction::East,
        }
    }

    /// The unit vector of this direction, column component first.
    pub fn unit_vector(self) -> (v: [i32; 2])
        ensures
            v[0] == self.dx(),
            v[1] == self.dy(),
    {
        match self {
            Direction::North => [zero(), -one()],
            Direction::South => [zero(), one()],
            Direction::East => [one(), zero()],
            Direction::West => [-one(), zero()],
        }
    }

    /// The opposite direction.
    pub fn opposite(self) -> (d: Direction)
        ensures
            d == self.reversed(),
            d.dx() == -self.dx(),
            d.dy() == -self.dy(),
    {
        match self {
            Direction::North => Direction::South,
            Direction::South => Direction::North,
            Direction::East => Direction::West,
            Direction::West => Direction::East,
        }
    }
}

impl Cell {
    pub fn new(col: i32, row: i32) -> (c: Cell)
        ensures
            c.col == col,
            c.row == row,
    {
        Cell { col, row }
    }

    /// Whether one step from this cell in `dir` stays within `i32`.
    pub open spec fn can_step(self, dir: Direction) -> bool {
        &&& i32::MIN <= self.col + dir.dx() <= i32::MAX
        &&& i32::MIN <= self.row + dir.dy() <= i32::MAX
    }

    /// The cell one step from this one in `dir`.
    pub fn step(self, dir: Direction) -> (c: Cell)
        requires
            self.can_step(dir),
        ensures
            c.col == self.col + dir.dx(),
            c.row == self.row + dir.dy(),
    {
        let v = vec2_sum([self.col, self.row], dir.unit_vector());
        Cell { col: v[0], row: v[1] }
    }
}

impl Cell {
    /// The corner with the smaller column and the smaller row of the
    /// rectangle that two cells span.
    pub open spec fn lower(a: Cell, b: Cell) -> Cell {
        Cell {
            col: if a.col <= b.col { a.col } else { b.col },
            row: if a.row <= b.row { a.row } else { b.row },
        }
    }

    /// The corner with the larger column and the larger row of the
    /// rectangle that two cells span.
    pub open spec fn upper(a: Cell, b: Cell) -> Cell {
        Cell {
            col: if a.col <= b.col { b.col } else { a.col },
            row: if a.row <= b.row { b.row } else { a.row },
        }
    }
}

/// The two corners of the rectangle that `a` and `b` span, the one with the
/// smaller column and row first.
pub fn order_points(a: Cell, b: Cell) -> (corners: (Cell, Cell))
    ensures
        corners.0 == Cell::lower(a, b),
        corners.1 == Cell::upper(a, b),
        corners.0.col <= corners.1.col,
        corners.0.row <= corners.1.row,
{
    let (left, right) = if a.col <= b.col {
        (a.col, b.col)
    } else {
        (b.col, a.col)
    };
    let (bottom, top) = if a.row <= b.row {
        (a.row, b.row)
    } else {
        (b.row, a.row)
    };
    (Cell { col: left, row: bottom }, Cell { col: right, row: top })
}

} // verus!
