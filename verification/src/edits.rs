//! The two ways to change a board: walls and the target.

use vstd::prelude::*;
use vstd::arithmetic::div_mod::lemma_fundamental_div_mod_converse;
use crate::board::Board;
use crate::geometry::Cell;
use crate::tile::Tile;

verus! {

impl Board {
    /// The tile that a cell gets when it is made a wall or opened.
    pub open spec fn paving(wall: bool) -> Tile {
        if wall {
            Tile::Wall
        } else {
            Tile::Open(None)
        }
    }

    /// This board with the cell made a wall, or an open cell without path
    /// data.
    pub open spec fn paved(self, cell: Cell, wall: bool) -> Board {
        self.with(cell.col as int, cell.row as int, Self::paving(wall))
    }

    /// This board without its target: the cell that held it is open.
    pub open spec fn untargeted(self) -> Board {
        match self.target {
            Some(cell) => Board {
                target: None,
                ..self.with(cell.col as int, cell.row as int, Tile::Open(None))
            },
            None => self,
        }
    }

    /// This board with its target moved to `target`, or taken away.
    pub open spec fn retargeted(self, target: Option<Cell>) -> Board {
        match target {
            Some(cell) => Board {
                target: Some(cell),
                ..self.untargeted().with(cell.col as int, cell.row as int, Tile::Target)
            },
            None => self.untargeted(),
        }
    }

    /// Replacing a tile that is not the target by one without a heading
    /// keeps the invariant, but for the place of the target.
    proof fn lemma_with_plain(self, col: int, row: int, tile: Tile)
        requires
            self.wf(),
            self.in_bounds(col, row),
            tile.info() is None,
        ensures
            self.with(col, row, tile).shaped(),
            self.with(col, row, tile).headings_inside(),
    {
        self.lemma_with(col, row, tile);
        let next = self.with(col, row, tile);
        assert forall|c: int, r: int| next.in_bounds(c, r) implies (#[trigger] next.at(
            c,
            r,
        ) matches Tile::Open(Some(info)) ==> next.in_bounds(
            c + info.next.dx(),
            r + info.next.dy(),
        )) by {
            if c != col || r != row {
                assert(next.at(c, r) == self.at(c, r));
            }
        }
    }

    /// Paving a cell that is not the target keeps the invariant.
    pub proof fn lemma_paved(self, cell: Cell, wall: bool)
        requires
            self.wf(),
            self.contains(cell),
            self.tile(cell) != Some(Tile::Target),
        ensures
            self.paved(cell, wall).wf(),
    {
        let col = cell.col as int;
        let row = cell.row as int;
        let next = self.paved(cell, wall);
        self.lemma_with(col, row, Self::paving(wall));
        self.lemma_with_plain(col, row, Self::paving(wall));
        assert forall|c: int, r: int| next.in_bounds(c, r) implies ((#[trigger] next.at(c, r)
            == Tile::Target) <==> next.target == Some(Cell { col: c as i32, row: r as i32 })) by {
            self.lemma_sides();
            if c != col || r != row {
                assert(next.at(c, r) == self.at(c, r));
            } else {
                assert(self.at(c, r) != Tile::Target);
            }
        }
    }

    /// Taking the target away keeps the invariant and leaves no target tile.
    pub proof fn lemma_untargeted(self)
        requires
            self.wf(),
        ensures
            self.untargeted().wf(),
            self.untargeted().target.is_none(),
            self.untargeted().width == self.width,
            self.untargeted().height == self.height,
    {
        if let Some(cell) = self.target {
            let col = cell.col as int;
            let row = cell.row as int;
            let next = self.untargeted();
            self.lemma_with(col, row, Tile::Open(None));
            self.lemma_with_plain(col, row, Tile::Open(None));
            assert(next.tiles == self.with(col, row, Tile::Open(None)).tiles);
            assert forall|c: int, r: int| next.in_bounds(c, r) implies ((#[trigger] next.at(c, r)
                == Tile::Target) <==> next.target == Some(
                Cell { col: c as i32, row: r as i32 },
            )) by {
                self.lemma_sides();
                if c != col || r != row {
                    assert(self.with(col, row, Tile::Open(None)).at(c, r) == self.at(c, r));
                }
            }
            assert(next.headings_inside()) by {
                assert forall|c: int, r: int| next.in_bounds(c, r) implies (#[trigger] next.at(
                    c,
                    r,
                ) matches Tile::Open(Some(info)) ==> next.in_bounds(
                    c + info.next.dx(),
                    r + info.next.dy(),
                )) by {
                    assert(next.at(c, r) == self.with(col, row, Tile::Open(None)).at(c, r));
                }
            }
        }
    }

    /// Moving the target to a cell of the board keeps the invariant.
    pub proof fn lemma_retargeted(self, target: Option<Cell>)
        requires
            self.wf(),
            target matches Some(cell) ==> self.contains(cell),
        ensures
            self.retargeted(target).wf(),
            self.retargeted(target).target == target,
            self.retargeted(target).width == self.width,
            self.retargeted(target).height == self.height,
    {
        self.lemma_untargeted();
        if let Some(cell) = target {
            let col = cell.col as int;
            let row = cell.row as int;
            let bare = self.untargeted();
            let placed = bare.with(col, row, Tile::Target);
            let next = self.retargeted(target);
            bare.lemma_with(col, row, Tile::Target);
            bare.lemma_with_plain(col, row, Tile::Target);
            assert(next.tiles == placed.tiles);
            assert forall|c: int, r: int| next.in_bounds(c, r) implies ((#[trigger] next.at(c, r)
                == Tile::Target) <==> next.target == Some(
                Cell { col: c as i32, row: r as i32 },
            )) by {
                self.lemma_sides();
                assert(next.at(c, r) == placed.at(c, r));
                if c != col || r != row {
                    assert(placed.at(c, r) == bare.at(c, r));
                }
            }
            assert(next.headings_inside()) by {
                assert forall|c: int, r: int| next.in_bounds(c, r) implies (#[trigger] next.at(
                    c,
                    r,
                ) matches Tile::Open(Some(info)) ==> next.in_bounds(
                    c + info.next.dx(),
                    r + info.next.dy(),
                )) by {
                    assert(next.at(c, r) == placed.at(c, r));
                }
            }
        }
    }
}

/// Whether a cell lies in the rectangle between two corners, both included.
pub open spec fn in_rect(first: Cell, second: Cell, col: int, row: int) -> bool {
    first.col <= col <= second.col && first.row <= row <= second.row
}

impl Board {
    /// This board with every cell of a rectangle set to `tile`, but for the
    /// target.
    pub open spec fn filled(self, first: Cell, second: Cell, tile: Tile) -> Board {
        Board {
            tiles: Seq::new(
                self.tiles.len(),
                |i: int|
                    if self.tiles[i] != Tile::Target && in_rect(
                        first,
                        second,
                        i % self.width,
                        i / self.width,
                    ) {
                        tile
                    } else {
                        self.tiles[i]
                    },
            ),
            ..self
        }
    }

    /// Filling a rectangle changes its cells, cell by cell, and no others.
    pub proof fn lemma_filled(self, first: Cell, second: Cell, tile: Tile)
        requires
            self.shaped(),
        ensures
            self.filled(first, second, tile).shaped(),
            forall|col: int, row: int|
                self.in_bounds(col, row) ==> #[trigger] self.filled(first, second, tile).at(
                    col,
                    row,
                ) == if self.at(col, row) != Tile::Target && in_rect(first, second, col, row) {
                    tile
                } else {
                    self.at(col, row)
                },
    {
        let next = self.filled(first, second, tile);
        assert forall|col: int, row: int| self.in_bounds(col, row) implies #[trigger] next.at(
            col,
            row,
        ) == if self.at(col, row) != Tile::Target && in_rect(first, second, col, row) {
            tile
        } else {
            self.at(col, row)
        } by {
            self.lemma_index(col, row);
            lemma_fundamental_div_mod_converse(self.index(col, row), self.width, row, col);
        }
    }

    /// Filling a rectangle with walls or with open cells keeps the
    /// invariant.
    pub proof fn lemma_filled_wf(self, first: Cell, second: Cell, wall: bool)
        requires
            self.wf(),
        ensures
            self.filled(first, second, Self::paving(wall)).wf(),
    {
        let tile = Self::paving(wall);
        let next = self.filled(first, second, tile);
        self.lemma_filled(first, second, tile);
        assert forall|c: int, r: int| next.in_bounds(c, r) implies ((#[trigger] next.at(c, r)
            == Tile::Target) <==> next.target == Some(Cell { col: c as i32, row: r as i32 })) by {
            assert(self.at(c, r) == Tile::Target <==> self.target == Some(
                Cell { col: c as i32, row: r as i32 },
            ));
        }
        assert forall|c: int, r: int| next.in_bounds(c, r) implies (#[trigger] next.at(
            c,
            r,
        ) matches Tile::Open(Some(info)) ==> next.in_bounds(
            c + info.next.dx(),
            r + info.next.dy(),
        )) by {
            if next.at(c, r) matches Tile::Open(Some(info)) {
                assert(next.at(c, r) == self.at(c, r));
            }
        }
    }
}

impl Board {
    /// A board of the given size on which every cell is open, without path
    /// data and without a target.
    pub open spec fn blank(width: int, height: int) -> Board {
        Board {
            width,
            height,
            tiles: Seq::new((width * height) as nat, |i: int| Tile::Open(None)),
            target: None,
        }
    }

    /// The field after a drag from `start` to `end`: where the drag began
    /// on an open cell the rectangle between the two becomes wall, where it
    /// began on a wall the rectangle is opened; the target stays.
    pub open spec fn region_toggled(self, start: Cell, end: Cell) -> Board {
        self.filled(
            Cell::lower(start, end),
            Cell::upper(start, end),
            Self::paving(self.tile(start) != Some(Tile::Wall)),
        ).recomputed()
    }

    /// The field after the target was asked for at `cell`: it moves there,
    /// or, where it was there already, it is taken away.
    pub open spec fn target_toggled(self, cell: Cell) -> Board {
        self.retargeted(
            if self.target == Some(cell) {
                None
            } else {
                Some(cell)
            },
        ).recomputed()
    }

    /// The board as a new game finds it: blank, the target in the middle,
    /// the field computed.
    pub open spec fn centered(width: int, height: int) -> Board {
        Self::blank(width, height).retargeted(
            Some(Cell { col: (width / 2) as i32, row: (height / 2) as i32 }),
        ).recomputed()
    }

    /// A blank board meets the invariant.
    pub proof fn lemma_blank(width: int, height: int)
        requires
            1 <= width,
            1 <= height,
            width * height <= crate::board::MAX_CELLS,
        ensures
            Self::blank(width, height).wf(),
    {
        let board = Self::blank(width, height);
        assert forall|col: int, row: int| board.in_bounds(col, row) implies #[trigger] board.at(
            col,
            row,
        ) == Tile::Open(None) by {
            board.lemma_index(col, row);
        }
    }
}

} // verus!
