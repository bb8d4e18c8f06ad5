//! The propagation that builds a flow field, as a definition over boards.
//!
//! A probe is a claim on a cell: "from here the target is `distance` steps
//! away, the first of them in direction `next`". Probes wait in a queue,
//! first in, first out. A probe settles its cell when the cell is open and
//! holds no shorter claim; a settled cell sends a probe to each of its four
//! neighbours, one step further out and pointing back at it. It all begins
//! with one probe on the target, at distance 0: the target takes no path
//! data, but it sends the first four probes.

use vstd::prelude::*;
use crate::board::Board;
use crate::geometry::{Cell, Direction};
use crate::tile::{PathInfo, Tile};

verus! {

/// A claim on a cell that waits to be examined.
pub struct Probe {
    pub col: int,
    pub row: int,
    pub distance: nat,
    pub next: Direction,
}

/// The probes that a cell settled at `distance` sends to its neighbours: to
/// the north, south, west and east, in this order.
pub open spec fn around(col: int, row: int, distance: nat) -> Seq<Probe> {
    seq![
        Probe { col, row: row - 1, distance: distance + 1, next: Direction::South },
        Probe { col, row: row + 1, distance: distance + 1, next: Direction::North },
        Probe { col: col - 1, row, distance: distance + 1, next: Direction::East },
        Probe { col: col + 1, row, distance: distance + 1, next: Direction::West },
    ]
}

/// The probe that a propagation begins with: on the target, at distance 0.
/// Its direction is never read.
pub open spec fn origin(target: Cell) -> Probe {
    Probe { col: target.col as int, row: target.row as int, distance: 0, next: Direction::South }
}

/// The number of probes at distance 0 in the queue.
pub open spec fn origins(queue: Seq<Probe>) -> nat
    decreases queue.len(),
{
    if queue.len() == 0 {
        0
    } else {
        origins(queue.drop_last()) + if queue.last().distance == 0 {
            1nat
        } else {
            0nat
        }
    }
}

/// The probes at distance 0 of two queues add up.
pub proof fn lemma_origins_add(a: Seq<Probe>, b: Seq<Probe>)
    ensures
        origins(a + b) == origins(a) + origins(b),
    decreases b.len(),
{
    if b.len() == 0 {
        assert(a + b =~= a);
    } else {
        assert((a + b).drop_last() =~= a + b.drop_last());
        lemma_origins_add(a, b.drop_last());
    }
}

/// A queue of one probe holds one probe at distance 0, or none.
pub proof fn lemma_origins_one(probe: Probe)
    ensures
        origins(seq![probe]) == if probe.distance == 0 {
            1nat
        } else {
            0nat
        },
{
    assert(seq![probe].drop_last() =~= Seq::<Probe>::empty());
    assert(origins(Seq::<Probe>::empty()) == 0);
}

/// Taking the first probe from a queue, and adding those that a settled
/// cell sends, adds no probe at distance 0.
pub proof fn lemma_origins_step(queue: Seq<Probe>)
    requires
        queue.len() > 0,
    ensures
        origins(queue) == origins(queue.drop_first()) + if queue[0].distance == 0 {
            1nat
        } else {
            0nat
        },
        origins(queue.drop_first() + around(queue[0].col, queue[0].row, queue[0].distance))
            == origins(queue.drop_first()),
{
    let sent = around(queue[0].col, queue[0].row, queue[0].distance);
    assert(queue =~= seq![queue[0]] + queue.drop_first());
    lemma_origins_add(seq![queue[0]], queue.drop_first());
    lemma_origins_one(queue[0]);
    assert(sent =~= seq![sent[0]] + seq![sent[1]] + seq![sent[2]] + seq![sent[3]]);
    lemma_origins_add(seq![sent[0]] + seq![sent[1]] + seq![sent[2]], seq![sent[3]]);
    lemma_origins_add(seq![sent[0]] + seq![sent[1]], seq![sent[2]]);
    lemma_origins_add(seq![sent[0]], seq![sent[1]]);
    lemma_origins_one(sent[0]);
    lemma_origins_one(sent[1]);
    lemma_origins_one(sent[2]);
    lemma_origins_one(sent[3]);
    lemma_origins_add(queue.drop_first(), sent);
}

/// The sum of `weight` over the tiles.
pub open spec fn total(tiles: Seq<Tile>, weight: spec_fn(Tile) -> nat) -> nat
    decreases tiles.len(),
{
    if tiles.len() == 0 {
        0
    } else {
        total(tiles.drop_last(), weight) + weight(tiles.last())
    }
}

/// How far a tile's claim can still be lowered: an unreached cell counts as
/// further away than any claim.
pub open spec fn room(tile: Tile) -> nat {
    match tile {
        Tile::Open(None) => 0x1_0000_0000,
        Tile::Open(Some(info)) => info.distance as nat,
        _ => 0,
    }
}

/// 1 for an open cell that no probe has settled, 0 for any other tile.
pub open spec fn untouched(tile: Tile) -> nat {
    if tile == Tile::Open(None) {
        1
    } else {
        0
    }
}

/// Replacing one tile changes the sum by the difference of the two weights.
pub proof fn lemma_total_update(tiles: Seq<Tile>, i: int, tile: Tile, weight: spec_fn(Tile) -> nat)
    requires
        0 <= i < tiles.len(),
    ensures
        total(tiles.update(i, tile), weight) + weight(tiles[i]) == total(tiles, weight) + weight(
            tile,
        ),
    decreases tiles.len(),
{
    let changed = tiles.update(i, tile);
    if i == tiles.len() - 1 {
        assert(changed.drop_last() =~= tiles.drop_last());
    } else {
        assert(changed.drop_last() =~= tiles.drop_last().update(i, tile));
        lemma_total_update(tiles.drop_last(), i, tile, weight);
    }
}

/// A sum of weights that are at most 1 is at most the number of tiles, and
/// less where some tile weighs nothing.
pub proof fn lemma_total_bounds(tiles: Seq<Tile>, weight: spec_fn(Tile) -> nat, i: int)
    requires
        forall|t: Tile| #[trigger] weight(t) <= 1,
        0 <= i < tiles.len() ==> weight(tiles[i]) == 0,
    ensures
        total(tiles, weight) <= tiles.len(),
        0 <= i < tiles.len() ==> total(tiles, weight) < tiles.len(),
    decreases tiles.len(),
{
    if tiles.len() > 0 {
        lemma_total_bounds(tiles.drop_last(), weight, i);
    }
}

impl Board {
    /// This board with the path data of every open cell removed.
    pub open spec fn reset(self) -> Board {
        Board { tiles: self.tiles.map_values(|t: Tile| t.cleared()), ..self }
    }

    /// Whether a probe settles its cell: the cell is on the board and open,
    /// and holds no claim as short as the probe's; or it is the target, and
    /// the probe is the one that the propagation began with.
    pub open spec fn settles(self, probe: Probe) -> bool {
        &&& self.in_bounds(probe.col, probe.row)
        &&& match self.at(probe.col, probe.row) {
            Tile::Open(None) => true,
            Tile::Open(Some(info)) => probe.distance < info.distance,
            Tile::Target => probe.distance == 0,
            Tile::Wall => false,
        }
    }

    /// The board after a probe has settled its cell: an open cell holds the
    /// probe's claim, the target holds nothing.
    pub open spec fn settled(self, probe: Probe) -> Board {
        match self.at(probe.col, probe.row) {
            Tile::Open(_) => self.with(
                probe.col,
                probe.row,
                Tile::Open(Some(PathInfo { distance: probe.distance as u32, next: probe.next })),
            ),
            _ => self,
        }
    }

    /// The board once every probe of the queue, and every probe that those
    /// give rise to, has been examined in turn.
    pub open spec fn propagate(self, queue: Seq<Probe>) -> Board
        decreases total(self.tiles, |t: Tile| room(t)), origins(queue), queue.len(),
        via Self::propagate_terminates
    {
        if queue.len() == 0 || !self.shaped() {
            self
        } else if self.settles(queue[0]) {
            self.settled(queue[0]).propagate(
                queue.drop_first() + around(queue[0].col, queue[0].row, queue[0].distance),
            )
        } else {
            self.propagate(queue.drop_first())
        }
    }

    /// Settling a probe lowers the room that is left on the board, or, on
    /// the target, the number of probes at distance 0.
    pub proof fn lemma_settle_decreases(self, queue: Seq<Probe>)
        requires
            self.shaped(),
            queue.len() > 0,
            self.settles(queue[0]),
        ensures
            total(self.settled(queue[0]).tiles, |t: Tile| room(t)) < total(
                self.tiles,
                |t: Tile| room(t),
            ) || (self.settled(queue[0]) == self && origins(
                queue.drop_first() + around(queue[0].col, queue[0].row, queue[0].distance),
            ) < origins(queue)),
    {
        let probe = queue[0];
        lemma_origins_step(queue);
        if self.at(probe.col, probe.row) matches Tile::Open(_) {
            self.lemma_index(probe.col, probe.row);
            lemma_total_update(
                self.tiles,
                self.index(probe.col, probe.row),
                Tile::Open(Some(PathInfo { distance: probe.distance as u32, next: probe.next })),
                |t: Tile| room(t),
            );
        }
    }

    #[via_fn]
    proof fn propagate_terminates(self, queue: Seq<Probe>) {
        if queue.len() != 0 && self.shaped() {
            lemma_origins_step(queue);
            if self.settles(queue[0]) {
                self.lemma_settle_decreases(queue);
            }
        }
    }

    /// The flow field of this board: every open cell forgets what it held,
    /// then a probe at distance 0 starts from the target, if there is one.
    pub open spec fn recomputed(self) -> Board {
        match self.target {
            None => self.reset(),
            Some(cell) => self.reset().propagate(seq![origin(cell)]),
        }
    }
}

} // verus!
