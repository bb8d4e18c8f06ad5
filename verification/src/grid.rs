//! The board with its flow field: the executable counterpart of `Board`.

use vstd::prelude::*;
use std::collections::VecDeque;
use crate::board::{Board, MAX_CELLS};
use crate::flow::{around, lemma_origins_step, origin, origins, room, total, Probe};
use crate::edits::in_rect;
use crate::geometry::{order_points, Cell, Direction};
use crate::tile::{PathInfo, Tile};

verus! {

/// Why a board could not be made or changed.
#[derive(Clone, Copy, Debug, PartialEq, Eq, Structural)]
pub enum GridError {
    /// A side is shorter than 1, or the board would have more than
    /// `MAX_CELLS` cells.
    BadSize,
    /// The board has no such cell.
    NoSuchCell,
    /// The cell holds the target, which is no wall and no open cell.
    TargetCell,
}

/// A board of walls, open cells and at most one target, with the path data
/// that the last propagation left on its open cells.
pub struct GridField {
    width: i32,
    height: i32,
    tiles: Vec<Tile>,
    target: Option<Cell>,
}

impl View for GridField {
    type V = Board;

    closed spec fn view(&self) -> Board {
        Board {
            width: self.width as int,
            height: self.height as int,
            tiles: self.tiles@,
            target: self.target,
        }
    }
}

impl GridField {
    /// The invariant of the board. Every function that makes or changes a
    /// board establishes it.
    pub open spec fn wf(&self) -> bool {
        self@.wf()
    }

    /// A board of open cells without path data and without a target.
    pub fn new(width: i32, height: i32) -> (r: Result<GridField, GridError>)
        ensures
            r is Err <==> width < 1 || height < 1 || width * height > MAX_CELLS,
            match r {
                Ok(field) => field.wf() && field@ == Board::blank(width as int, height as int),
                Err(e) => e == GridError::BadSize,
            },
    {
        if width < 1 || height < 1 {
            return Err(GridError::BadSize);
        }
        assert(0 < width * height <= 0x7fff_ffff * 0x7fff_ffff) by (nonlinear_arith)
            requires
                1 <= width <= 0x7fff_ffff,
                1 <= height <= 0x7fff_ffff,
        ;
        let cells: i64 = (width as i64) * (height as i64);
        if cells > MAX_CELLS as i64 {
            return Err(GridError::BadSize);
        }
        let count: usize = cells as usize;
        let mut tiles: Vec<Tile> = Vec::new();
        let mut filled: usize = 0;
        while filled < count
            invariant
                filled <= count,
                tiles.len() == filled,
                forall|i: int| 0 <= i < filled ==> tiles[i] == Tile::Open(None),
            decreases count - filled,
        {
            tiles.push(Tile::Open(None));
            filled = filled + 1;
        }
        let field = GridField { width, height, tiles, target: None };
        proof {
            Board::lemma_blank(width as int, height as int);
            assert(field@.tiles =~= Board::blank(width as int, height as int).tiles);
        }
        Ok(field)
    }

    /// The number of columns.
    pub fn width(&self) -> (w: i32)
        ensures
            w == self@.width,
    {
        self.width
    }

    /// The number of rows.
    pub fn height(&self) -> (h: i32)
        ensures
            h == self@.height,
    {
        self.height
    }

    /// The cell of the target, if the board has one.
    pub fn target(&self) -> (t: Option<Cell>)
        ensures
            t == self@.target,
    {
        self.target
    }

    /// Whether the board has the cell.
    pub fn contains(&self, cell: Cell) -> (r: bool)
        ensures
            r == self@.contains(cell),
    {
        0 <= cell.col && cell.col < self.width && 0 <= cell.row && cell.row < self.height
    }

    /// The place of a cell among the tiles.
    fn slot(&self, cell: Cell) -> (i: usize)
        requires
            self@.shaped(),
            self@.contains(cell),
        ensures
            i == self@.index(cell.col as int, cell.row as int),
            i < self.tiles.len(),
    {
        proof {
            self@.lemma_index(cell.col as int, cell.row as int);
            self@.lemma_sides();
            let w = self.width as int;
            let r = cell.row as int;
            assert(0 <= r * w <= self@.index(cell.col as int, cell.row as int)) by (nonlinear_arith)
                requires
                    0 <= r,
                    0 <= w,
                    0 <= cell.col,
                    self@.index(cell.col as int, cell.row as int) == r * w + cell.col,
            ;
        }
        (cell.row as usize) * (self.width as usize) + (cell.col as usize)
    }

    /// The tile of a cell; `None` where the board has no such cell.
    pub fn tile_at(&self, cell: Cell) -> (r: Option<Tile>)
        requires
            self.wf(),
        ensures
            r == self@.tile(cell),
    {
        if self.contains(cell) {
            let i = self.slot(cell);
            Some(self.tiles[i])
        } else {
            None
        }
    }

    /// The path data of a cell; `None` off the board, on a wall, on the
    /// target and on an open cell that the propagation has not reached.
    pub fn path_info_at(&self, cell: Cell) -> (r: Option<PathInfo>)
        requires
            self.wf(),
        ensures
            r == match self@.tile(cell) {
                Some(tile) => tile.info(),
                None => None,
            },
    {
        match self.tile_at(cell) {
            Some(tile) => tile.path_info(),
            None => None,
        }
    }
}

impl GridField {
    /// Makes a cell a wall, or opens it. The cell loses its path data; the
    /// field is out of date until the next `recompute`.
    pub fn set_wall(&mut self, cell: Cell, is_wall: bool) -> (r: Result<(), GridError>)
        requires
            old(self).wf(),
        ensures
            final(self).wf(),
            r == match old(self)@.tile(cell) {
                None => Err::<(), GridError>(GridError::NoSuchCell),
                Some(Tile::Target) => Err(GridError::TargetCell),
                Some(_) => Ok(()),
            },
            final(self)@ == if r.is_ok() {
                old(self)@.paved(cell, is_wall)
            } else {
                old(self)@
            },
    {
        if !self.contains(cell) {
            return Err(GridError::NoSuchCell);
        }
        let i = self.slot(cell);
        if let Tile::Target = self.tiles[i] {
            return Err(GridError::TargetCell);
        }
        proof {
            self@.lemma_paved(cell, is_wall);
        }
        let tile = if is_wall {
            Tile::Wall
        } else {
            Tile::Open(None)
        };
        self.tiles.set(i, tile);
        Ok(())
    }

    /// Moves the target to a cell, or takes it away with `None`. The cell
    /// that held the target becomes open; the cell that gets it may have
    /// been a wall. The field is out of date until the next `recompute`.
    pub fn set_target(&mut self, target: Option<Cell>) -> (r: Result<(), GridError>)
        requires
            old(self).wf(),
        ensures
            final(self).wf(),
            r == if target matches Some(cell) && !old(self)@.contains(cell) {
                Err::<(), GridError>(GridError::NoSuchCell)
            } else {
                Ok(())
            },
            final(self)@ == if r.is_ok() {
                old(self)@.retargeted(target)
            } else {
                old(self)@
            },
    {
        if let Some(cell) = target {
            if !self.contains(cell) {
                return Err(GridError::NoSuchCell);
            }
        }
        proof {
            self@.lemma_untargeted();
            self@.lemma_retargeted(target);
        }
        if let Some(before) = self.target {
            let i = self.slot(before);
            self.tiles.set(i, Tile::Open(None));
            self.target = None;
        }
        assert(self@ == old(self)@.untargeted());
        if let Some(cell) = target {
            let i = self.slot(cell);
            self.tiles.set(i, Tile::Target);
            self.target = Some(cell);
        }
        Ok(())
    }
}

/// A probe as the propagation holds it in its queue.
struct Candidate {
    cell: Cell,
    distance: u32,
    next: Direction,
}

impl Candidate {
    spec fn probe(self) -> Probe {
        Probe {
            col: self.cell.col as int,
            row: self.cell.row as int,
            distance: self.distance as nat,
            next: self.next,
        }
    }
}

/// The probes of a queue, first to last.
spec fn probes(queue: Seq<Candidate>) -> Seq<Probe> {
    queue.map_values(|c: Candidate| c.probe())
}

impl GridField {
    /// Removes the path data of every open cell.
    fn clear_paths(&mut self)
        requires
            old(self).wf(),
        ensures
            final(self)@ == old(self)@.reset(),
    {
        let count = self.tiles.len();
        let mut i: usize = 0;
        while i < count
            invariant
                i <= count,
                count == self.tiles.len(),
                self.tiles.len() == old(self).tiles.len(),
                self.width == old(self).width,
                self.height == old(self).height,
                self.target == old(self).target,
                forall|j: int| 0 <= j < i ==> self.tiles[j] == old(self).tiles[j].cleared(),
                forall|j: int| i <= j < count ==> self.tiles[j] == old(self).tiles[j],
            decreases count - i,
        {
            if let Tile::Open(Some(_)) = self.tiles[i] {
                self.tiles.set(i, Tile::Open(None));
            }
            i = i + 1;
        }
        assert(self.tiles@ =~= old(self)@.reset().tiles);
    }

    /// Sends a probe to the neighbour of a cell in one direction: one step
    /// further out than the cell, and pointing back at it.
    fn send(queue: &mut VecDeque<Candidate>, cell: Cell, distance: u32, towards: Direction)
        requires
            distance < u32::MAX,
            cell.can_step(towards),
        ensures
            final(queue)@ == old(queue)@.push(
                Candidate {
                    cell: Cell {
                        col: (cell.col + towards.dx()) as i32,
                        row: (cell.row + towards.dy()) as i32,
                    },
                    distance: (distance + 1) as u32,
                    next: towards.reversed(),
                },
            ),
    {
        queue.push_back(
            Candidate { cell: cell.step(towards), distance: distance + 1, next: towards.opposite() },
        );
    }

    /// Sends a probe to each neighbour of a cell that has settled at
    /// `distance`: to the north, south, west and east, in this order.
    fn send_around(queue: &mut VecDeque<Candidate>, cell: Cell, distance: u32)
        requires
            distance < u32::MAX,
            i32::MIN < cell.col < i32::MAX,
            i32::MIN < cell.row < i32::MAX,
        ensures
            probes(final(queue)@) == probes(old(queue)@) + around(
                cell.col as int,
                cell.row as int,
                distance as nat,
            ),
    {
        Self::send(queue, cell, distance, Direction::North);
        Self::send(queue, cell, distance, Direction::South);
        Self::send(queue, cell, distance, Direction::West);
        Self::send(queue, cell, distance, Direction::East);
        assert(probes(queue@) =~= probes(old(queue)@) + around(
            cell.col as int,
            cell.row as int,
            distance as nat,
        ));
    }

    /// Rebuilds the flow field: every open cell that has a walk to the
    /// target gets the length of a shortest one and its first step, every
    /// other open cell is left without path data. Where several shortest
    /// walks begin differently, the cell keeps the step of the probe that
    /// settled it first; `Board::propagate` gives the order. Without a
    /// target the field is empty.
    #[verifier::rlimit(50)]
    pub fn recompute(&mut self)
        requires
            old(self).wf(),
        ensures
            final(self).wf(),
            final(self)@ == old(self)@.recomputed(),
            final(self)@.settled_field(),
    {
        proof {
            old(self)@.lemma_recomputed();
            old(self)@.lemma_reset();
        }
        self.clear_paths();
        let target = match self.target {
            Some(cell) => cell,
            None => {
                return ;
            },
        };
        proof {
            old(self)@.lemma_seeded();
            old(self)@.lemma_start();
        }
        let mut queue: VecDeque<Candidate> = VecDeque::new();
        queue.push_back(Candidate { cell: target, distance: 0, next: Direction::South });
        assert(probes(queue@) =~= seq![origin(target)]);
        while queue.len() > 0
            invariant
                old(self)@.wf(),
                old(self)@.target == Some(target),
                self@.shaped(),
                self@.settling(probes(queue@)) || (self@ == old(self)@.reset() && probes(queue@)
                    == seq![origin(target)]),
                self@.propagate(probes(queue@)) == old(self)@.recomputed(),
            decreases total(self.tiles@, |t: Tile| room(t)), origins(probes(queue@)), queue.len(),
        {
            let ghost waiting = probes(queue@);
            let ghost board = self@;
            let ghost first = board.settling(waiting);
            let candidate = queue.pop_front().unwrap();
            assert(candidate.probe() == waiting[0]);
            assert(probes(queue@) =~= waiting.drop_first());
            let mut settles = false;
            let mut open = false;
            if self.contains(candidate.cell) {
                let i = self.slot(candidate.cell);
                settles = match self.tiles[i] {
                    Tile::Open(None) => true,
                    Tile::Open(Some(info)) => candidate.distance < info.distance,
                    Tile::Target => candidate.distance == 0,
                    Tile::Wall => false,
                };
                open = match self.tiles[i] {
                    Tile::Open(_) => true,
                    _ => false,
                };
            }
            proof {
                board.lemma_sides();
                lemma_origins_step(waiting);
                if !first {
                    old(self)@.lemma_seeded();
                    old(self)@.lemma_start();
                    assert(waiting[0] == origin(target));
                }
            }
            assert(settles == board.settles(waiting[0]));
            proof {
                if settles {
                    board.lemma_settle_decreases(waiting);
                    if first {
                        board.lemma_settled(waiting);
                        board.lemma_settled_cell(waiting);
                    }
                } else {
                    board.lemma_dropped(waiting);
                }
            }
            if settles {
                if open {
                    let i = self.slot(candidate.cell);
                    self.tiles.set(
                        i,
                        Tile::Open(
                            Some(PathInfo { distance: candidate.distance, next: candidate.next }),
                        ),
                    );
                }
                assert(self@ == board.settled(waiting[0]));
                Self::send_around(&mut queue, candidate.cell, candidate.distance);
                assert(probes(queue@) == Board::after(waiting));
            }
        }
        proof {
            assert(probes(queue@) =~= Seq::<Probe>::empty());
        }
    }
}

impl GridField {
    /// A board of the given size with the target in its middle and the
    /// field computed.
    pub fn centered(width: i32, height: i32) -> (r: Result<GridField, GridError>)
        ensures
            r is Err <==> width < 1 || height < 1 || width * height > MAX_CELLS,
            match r {
                Ok(field) => field.wf() && field@ == Board::centered(width as int, height as int),
                Err(e) => e == GridError::BadSize,
            },
    {
        let mut field = match GridField::new(width, height) {
            Ok(field) => field,
            Err(e) => {
                return Err(e);
            },
        };
        let middle = Cell { col: width / 2, row: height / 2 };
        let placed = field.set_target(Some(middle));
        assert(placed.is_ok());
        field.recompute();
        Ok(field)
    }

    /// Sets every cell between two corners to a wall or to an open cell,
    /// but for the target.
    fn fill(&mut self, first: Cell, second: Cell, is_wall: bool)
        requires
            old(self).wf(),
            old(self)@.contains(first),
            old(self)@.contains(second),
        ensures
            final(self).wf(),
            final(self)@ == old(self)@.filled(first, second, Board::paving(is_wall)),
    {
        let tile = if is_wall {
            Tile::Wall
        } else {
            Tile::Open(None)
        };
        let width: usize = self.width as usize;
        let (left, right) = (first.col as usize, second.col as usize);
        let (bottom, top) = (first.row as usize, second.row as usize);
        let count = self.tiles.len();
        let ghost goal = old(self)@.filled(first, second, tile);
        proof {
            old(self)@.lemma_filled_wf(first, second, is_wall);
        }
        let mut i: usize = 0;
        while i < count
            invariant
                i <= count,
                count == self.tiles.len(),
                count == goal.tiles.len(),
                width == self.width,
                width >= 1,
                self.width == old(self).width,
                self.height == old(self).height,
                self.target == old(self).target,
                left == first.col,
                right == second.col,
                bottom == first.row,
                top == second.row,
                tile == Board::paving(is_wall),
                goal == old(self)@.filled(first, second, tile),
                forall|j: int| 0 <= j < i ==> self.tiles[j] == goal.tiles[j],
                forall|j: int| i <= j < count ==> self.tiles[j] == old(self).tiles[j],
            decreases count - i,
        {
            let col: usize = i % width;
            let row: usize = i / width;
            let inside = left <= col && col <= right && bottom <= row && row <= top;
            assert(inside == in_rect(
                first,
                second,
                i as int % self.width as int,
                i as int / self.width as int,
            ));
            if inside {
                if let Tile::Target = self.tiles[i] {
                } else {
                    self.tiles.set(i, tile);
                }
            }
            i = i + 1;
        }
        assert(self.tiles@ =~= goal.tiles);
    }

    /// The drag of the editor: where it began on an open cell, every cell
    /// of the rectangle between `start` and `end` becomes a wall; where it
    /// began on a wall, every one is opened. The target is never changed,
    /// and a drag that begins on it changes nothing. The field is
    /// recomputed.
    pub fn toggle_region(&mut self, start: Cell, end: Cell) -> (r: Result<(), GridError>)
        requires
            old(self).wf(),
        ensures
            final(self).wf(),
            r == if !old(self)@.contains(start) || !old(self)@.contains(end) {
                Err::<(), GridError>(GridError::NoSuchCell)
            } else if old(self)@.tile(start) == Some(Tile::Target) {
                Err(GridError::TargetCell)
            } else {
                Ok(())
            },
            final(self)@ == if r.is_ok() {
                old(self)@.region_toggled(start, end)
            } else {
                old(self)@
            },
    {
        if !self.contains(start) || !self.contains(end) {
            return Err(GridError::NoSuchCell);
        }
        let i = self.slot(start);
        let is_wall = match self.tiles[i] {
            Tile::Open(_) => true,
            Tile::Wall => false,
            Tile::Target => {
                return Err(GridError::TargetCell);
            },
        };
        let (first, second) = order_points(start, end);
        self.fill(first, second, is_wall);
        self.recompute();
        Ok(())
    }

    /// Moves the target to a cell and recomputes the field; where the
    /// target is on that cell already, takes it away instead.
    pub fn toggle_target(&mut self, cell: Cell) -> (r: Result<(), GridError>)
        requires
            old(self).wf(),
        ensures
            final(self).wf(),
            r == if old(self)@.contains(cell) {
                Ok::<(), GridError>(())
            } else {
                Err(GridError::NoSuchCell)
            },
            final(self)@ == if r.is_ok() {
                old(self)@.target_toggled(cell)
            } else {
                old(self)@
            },
    {
        if !self.contains(cell) {
            return Err(GridError::NoSuchCell);
        }
        let there = match self.target {
            Some(target) => target.col == cell.col && target.row == cell.row,
            None => false,
        };
        let placed = if there {
            self.set_target(None)
        } else {
            self.set_target(Some(cell))
        };
        self.recompute();
        Ok(())
    }
}

} // verus!
