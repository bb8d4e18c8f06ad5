//! The mathematical model of a board: its size, its tiles in row-major
//! order and the place of its target.

use vstd::prelude::*;
use crate::geometry::Cell;
use crate::tile::Tile;

verus! {

/// The largest number of cells a board may have.
pub const MAX_CELLS: i32 = 0x7fff_ffff;

/// A board as the contracts speak of it.
pub struct Board {
    pub width: int,
    pub height: int,
    pub tiles: Seq<Tile>,
    pub target: Option<Cell>,
}

impl Board {
    /// The board has at least one cell, not more than `MAX_CELLS`, and one
    /// tile for each.
    pub open spec fn shaped(self) -> bool {
        &&& 1 <= self.width
        &&& 1 <= self.height
        &&& self.width * self.height <= MAX_CELLS
        &&& self.tiles.len() == self.width * self.height
    }

    pub open spec fn in_bounds(self, col: int, row: int) -> bool {
        0 <= col < self.width && 0 <= row < self.height
    }

    pub open spec fn contains(self, cell: Cell) -> bool {
        self.in_bounds(cell.col as int, cell.row as int)
    }

    /// The place of a cell among the tiles.
    pub open spec fn index(self, col: int, row: int) -> int {
        row * self.width + col
    }

    /// The tile of a cell.
    pub open spec fn at(self, col: int, row: int) -> Tile {
        self.tiles[self.index(col, row)]
    }

    /// The tile of a cell; `None` where the board has no such cell.
    pub open spec fn tile(self, cell: Cell) -> Option<Tile> {
        if self.contains(cell) {
            Some(self.at(cell.col as int, cell.row as int))
        } else {
            None
        }
    }

    /// This board with one tile replaced.
    pub open spec fn with(self, col: int, row: int, tile: Tile) -> Board {
        Board { tiles: self.tiles.update(self.index(col, row), tile), ..self }
    }

    /// The target, if there is one, is the one cell that holds `Tile::Target`.
    pub open spec fn single_target(self) -> bool {
        forall|col: int, row: int|
            self.in_bounds(col, row) ==> ((#[trigger] self.at(col, row) == Tile::Target) <==> self.target
                == Some(Cell { col: col as i32, row: row as i32 }))
    }

    /// Every first step that a cell records leads to a cell of the board.
    pub open spec fn headings_inside(self) -> bool {
        forall|col: int, row: int|
            self.in_bounds(col, row) ==> (#[trigger] self.at(col, row) matches Tile::Open(Some(info))
                ==> self.in_bounds(col + info.next.dx(), row + info.next.dy()))
    }

    /// The invariant of a board.
    pub open spec fn wf(self) -> bool {
        &&& self.shaped()
        &&& self.target matches Some(cell) ==> self.contains(cell)
        &&& self.single_target()
        &&& self.headings_inside()
    }

    /// Neither side of the board is longer than `MAX_CELLS`.
    pub proof fn lemma_sides(self)
        requires
            self.shaped(),
        ensures
            self.width <= MAX_CELLS,
            self.height <= MAX_CELLS,
    {
        let w = self.width;
        let h = self.height;
        assert(w <= w * h && h <= w * h) by (nonlinear_arith)
            requires
                1 <= w,
                1 <= h,
        ;
    }

    /// The tiles of a cell of the board lie among its tiles.
    pub proof fn lemma_index(self, col: int, row: int)
        requires
            self.shaped(),
            self.in_bounds(col, row),
        ensures
            0 <= self.index(col, row) < self.tiles.len(),
    {
        let w = self.width;
        let h = self.height;
        assert(0 <= row * w + col < w * h) by (nonlinear_arith)
            requires
                0 <= col < w,
                0 <= row < h,
        ;
    }

    /// Two cells of the board share no tile.
    pub proof fn lemma_index_distinct(self, c1: int, r1: int, c2: int, r2: int)
        requires
            self.shaped(),
            self.in_bounds(c1, r1),
            self.in_bounds(c2, r2),
            c1 != c2 || r1 != r2,
        ensures
            self.index(c1, r1) != self.index(c2, r2),
    {
        let w = self.width;
        assert(r1 * w + c1 != r2 * w + c2) by (nonlinear_arith)
            requires
                0 <= c1 < w,
                0 <= c2 < w,
                0 <= r1,
                0 <= r2,
                c1 != c2 || r1 != r2,
        ;
    }

    /// Replacing one tile changes that cell and no other.
    pub proof fn lemma_with(self, col: int, row: int, tile: Tile)
        requires
            self.shaped(),
            self.in_bounds(col, row),
        ensures
            self.with(col, row, tile).shaped(),
            self.with(col, row, tile).width == self.width,
            self.with(col, row, tile).height == self.height,
            self.with(col, row, tile).target == self.target,
            self.with(col, row, tile).at(col, row) == tile,
            forall|c: int, r: int|
                self.in_bounds(c, r) && (c != col || r != row) ==> #[trigger] self.with(
                    col,
                    row,
                    tile,
                ).at(c, r) == self.at(c, r),
    {
        self.lemma_index(col, row);
        let next = self.with(col, row, tile);
        assert forall|c: int, r: int|
            self.in_bounds(c, r) && (c != col || r != row) implies #[trigger] next.at(c, r)
            == self.at(c, r) by {
            self.lemma_index(c, r);
            self.lemma_index_distinct(c, r, col, row);
        }
    }
}

} // verus!
