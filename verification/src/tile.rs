//! What a cell of the board holds.

use vstd::prelude::*;
use crate::geometry::Direction;

verus! {

/// The way from an open cell to the target: how many steps are left and
/// which one comes first.
#[derive(Clone, Copy, Debug, PartialEq, Eq, Structural)]
pub struct PathInfo {
    pub distance: u32,
    pub next: Direction,
}

/// A cell of the board.
#[derive(Clone, Copy, Debug, PartialEq, Eq, Structural)]
pub enum Tile {
    /// Impassable.
    Wall,
    /// The single sink that every path leads to. It carries no path data.
    Target,
    /// Passable. `None` until a propagation has reached the cell.
    Open(Option<PathInfo>),
}

impl Tile {
    /// This tile without its path data.
    pub open spec fn cleared(self) -> Tile {
        match self {
            Tile::Open(_) => Tile::Open(None),
            other => other,
        }
    }

    /// The path data of this tile: none but on an open cell that holds some.
    pub open spec fn info(self) -> Option<PathInfo> {
        match self {
            Tile::Open(info) => info,
            _ => None,
        }
    }

    /// The path data of this tile; none on a wall, on the target and on an
    /// open cell that no propagation has reached.
    pub fn path_info(&self) -> (r: Option<PathInfo>)
        ensures
            r == self.info(),
    {
        match *self {
            Tile::Open(info) => info,
            _ => None,
        }
    }
}

} // verus!
