//! What a flow field has to say: walks to the target, and the two
//! properties that make the path data of a board right.

use vstd::prelude::*;
use crate::board::Board;
use crate::tile::Tile;

verus! {

impl Board {
    /// There is a walk of exactly `steps` steps from the cell to the target
    /// that stays on the board, moves to one of the four neighbours at every
    /// step and never enters a wall.
    pub open spec fn walk(self, col: int, row: int, steps: nat) -> bool
        decreases steps,
    {
        &&& self.in_bounds(col, row)
        &&& if steps == 0 {
            self.at(col, row) == Tile::Target
        } else {
            &&& self.at(col, row) != Tile::Wall
            &&& {
                ||| self.walk(col, row + 1, (steps - 1) as nat)
                ||| self.walk(col, row - 1, (steps - 1) as nat)
                ||| self.walk(col - 1, row, (steps - 1) as nat)
                ||| self.walk(col + 1, row, (steps - 1) as nat)
            }
        }
    }

    /// The number of steps that a cell says it is from the target: none on
    /// the target itself, the recorded distance on a settled cell.
    pub open spec fn claim(self, col: int, row: int) -> Option<nat> {
        match self.at(col, row) {
            Tile::Target => Some(0),
            Tile::Open(Some(info)) => Some(info.distance as nat),
            _ => None,
        }
    }

    /// Every recorded distance is the length of a shortest walk to the
    /// target, and an open cell without path data has no walk to it.
    pub open spec fn distances_exact(self) -> bool {
        forall|col: int, row: int|
            self.in_bounds(col, row) ==> match #[trigger] self.at(col, row) {
                Tile::Open(Some(info)) => {
                    &&& self.walk(col, row, info.distance as nat)
                    &&& forall|steps: nat|
                        steps < info.distance ==> !#[trigger] self.walk(col, row, steps)
                },
                Tile::Open(None) => forall|steps: nat| !#[trigger] self.walk(col, row, steps),
                _ => true,
            }
    }

    /// The first step that a cell records leads to the target, from a cell
    /// at distance 1, or to an open cell whose distance is one less.
    pub open spec fn heading_sound(self, col: int, row: int) -> bool {
        self.at(col, row) matches Tile::Open(Some(info)) ==> {
            &&& info.distance >= 1
            &&& self.in_bounds(col + info.next.dx(), row + info.next.dy())
            &&& self.claim(col + info.next.dx(), row + info.next.dy()) == Some(
                (info.distance - 1) as nat,
            )
        }
    }

    /// `heading_sound` of every cell of the board.
    pub open spec fn headings_sound(self) -> bool {
        forall|col: int, row: int|
            self.in_bounds(col, row) ==> #[trigger] self.heading_sound(col, row)
    }

    /// The path data of the board is that of a flow field.
    pub open spec fn settled_field(self) -> bool {
        &&& self.distances_exact()
        &&& self.headings_sound()
    }
}

} // verus!
