//! Why the propagation yields a flow field: the invariant that holds of
//! board and queue between two probes, and what follows from it once the
//! queue is empty.

use vstd::prelude::*;
use crate::board::Board;
use crate::flow::{
    around, lemma_origins_step, lemma_total_bounds, lemma_total_update, origin, origins, room,
    total, untouched, Probe,
};
use crate::geometry::Cell;
use crate::tile::{PathInfo, Tile};

verus! {

/// The distances in the queue never fall, and no two differ by more than 1.
pub open spec fn ordered(queue: Seq<Probe>) -> bool {
    forall|i: int, j: int|
        0 <= i <= j < queue.len() ==> (#[trigger] queue[i]).distance <= (#[trigger] queue[j]).distance
            <= queue[i].distance + 1
}

impl Board {
    /// The number of open cells that no probe has settled.
    pub open spec fn pending(self) -> nat {
        total(self.tiles, |t: Tile| untouched(t))
    }

    /// The cell that sent the probe stands where the probe points, one step
    /// closer to the target, and the probe's distance leaves room for every
    /// cell that is still to settle.
    pub open spec fn sent_by_parent(self, probe: Probe) -> bool {
        &&& probe.distance >= 1
        &&& self.in_bounds(probe.col + probe.next.dx(), probe.row + probe.next.dy())
        &&& self.claim(probe.col + probe.next.dx(), probe.row + probe.next.dy()) == Some(
            (probe.distance - 1) as nat,
        )
        &&& probe.distance + self.pending() <= self.tiles.len()
    }

    /// The cell needs no probe within `bound`: it is off the board, not
    /// open, settled within `bound`, or a probe within `bound` waits for it.
    pub open spec fn covered(self, queue: Seq<Probe>, col: int, row: int, bound: nat) -> bool {
        self.in_bounds(col, row) ==> match self.at(col, row) {
            Tile::Open(Some(info)) => info.distance <= bound,
            Tile::Open(None) => exists|k: int|
                0 <= k < queue.len() && (#[trigger] queue[k]).col == col && queue[k].row == row
                    && queue[k].distance <= bound,
            _ => true,
        }
    }

    /// What holds of a cell between two probes.
    pub open spec fn cell_ok(self, queue: Seq<Probe>, col: int, row: int) -> bool {
        &&& self.heading_sound(col, row)
        &&& self.at(col, row) matches Tile::Open(Some(info)) ==> (queue.len() > 0
            ==> info.distance <= queue[0].distance)
        &&& self.claim(col, row) matches Some(reach) ==> {
            &&& self.covered(queue, col, row + 1, reach + 1)
            &&& self.covered(queue, col, row - 1, reach + 1)
            &&& self.covered(queue, col - 1, row, reach + 1)
            &&& self.covered(queue, col + 1, row, reach + 1)
        }
    }

    /// What holds of board and queue between two probes.
    pub open spec fn settling(self, queue: Seq<Probe>) -> bool {
        &&& self.shaped()
        &&& ordered(queue)
        &&& forall|k: int| 0 <= k < queue.len() ==> self.sent_by_parent(#[trigger] queue[k])
        &&& forall|col: int, row: int|
            self.in_bounds(col, row) ==> #[trigger] self.cell_ok(queue, col, row)
    }
}

impl Board {
    /// A cell that was covered stays covered when the first probe is dropped
    /// without settling.
    proof fn lemma_covered_dropped(self, queue: Seq<Probe>, col: int, row: int, bound: nat)
        requires
            self.shaped(),
            queue.len() > 0,
            !self.settles(queue[0]),
            self.covered(queue, col, row, bound),
        ensures
            self.covered(queue.drop_first(), col, row, bound),
    {
        let rest = queue.drop_first();
        if self.in_bounds(col, row) && self.at(col, row) == Tile::Open(None) {
            let k = choose|k: int|
                0 <= k < queue.len() && (#[trigger] queue[k]).col == col && queue[k].row == row
                    && queue[k].distance <= bound;
            assert(k != 0);
            assert(rest[k - 1] == queue[k]);
        }
    }

    /// Dropping a probe that does not settle keeps the invariant.
    pub proof fn lemma_dropped(self, queue: Seq<Probe>)
        requires
            self.settling(queue),
            queue.len() > 0,
            !self.settles(queue[0]),
        ensures
            self.settling(queue.drop_first()),
    {
        let rest = queue.drop_first();
        assert forall|i: int, j: int| 0 <= i <= j < rest.len() implies (#[trigger] rest[i]).distance
            <= (#[trigger] rest[j]).distance <= rest[i].distance + 1 by {
            assert(rest[i] == queue[i + 1]);
            assert(rest[j] == queue[j + 1]);
        }
        assert forall|k: int| 0 <= k < rest.len() implies self.sent_by_parent(
            #[trigger] rest[k],
        ) by {
            assert(rest[k] == queue[k + 1]);
        }
        assert forall|col: int, row: int| self.in_bounds(col, row) implies #[trigger] self.cell_ok(
            rest,
            col,
            row,
        ) by {
            assert(self.cell_ok(queue, col, row));
            if rest.len() > 0 {
                assert(rest[0] == queue[1]);
                assert(queue[0].distance <= queue[1].distance);
            }
            if let Some(reach) = self.claim(col, row) {
                self.lemma_covered_dropped(queue, col, row + 1, reach + 1);
                self.lemma_covered_dropped(queue, col, row - 1, reach + 1);
                self.lemma_covered_dropped(queue, col - 1, row, reach + 1);
                self.lemma_covered_dropped(queue, col + 1, row, reach + 1);
            }
        }
    }
}

impl Board {
    /// A probe that settles finds its cell open and without path data, and
    /// the board after it differs in that cell alone.
    pub proof fn lemma_settled_cell(self, queue: Seq<Probe>)
        requires
            self.settling(queue),
            queue.len() > 0,
            self.settles(queue[0]),
        ensures
            self.at(queue[0].col, queue[0].row) == Tile::Open(None),
            queue[0].distance <= 0x7fff_ffff,
            self.settled(queue[0]).shaped(),
            self.settled(queue[0]).width == self.width,
            self.settled(queue[0]).height == self.height,
            self.settled(queue[0]).target == self.target,
            self.settled(queue[0]).at(queue[0].col, queue[0].row) == Tile::Open(
                Some(PathInfo { distance: queue[0].distance as u32, next: queue[0].next }),
            ),
            forall|c: int, r: int|
                self.in_bounds(c, r) && (c != queue[0].col || r != queue[0].row)
                    ==> #[trigger] self.settled(queue[0]).at(c, r) == self.at(c, r),
            self.settled(queue[0]).pending() + 1 == self.pending(),
    {
        let probe = queue[0];
        assert(self.cell_ok(queue, probe.col, probe.row));
        assert(self.sent_by_parent(probe));
        let tile = Tile::Open(
            Some(PathInfo { distance: probe.distance as u32, next: probe.next }),
        );
        self.lemma_with(probe.col, probe.row, tile);
        self.lemma_index(probe.col, probe.row);
        lemma_total_update(
            self.tiles,
            self.index(probe.col, probe.row),
            tile,
            |t: Tile| untouched(t),
        );
    }
}

impl Board {
    /// The queue after a probe has settled: what waited behind it, then the
    /// probes to the four neighbours of its cell.
    pub open spec fn after(queue: Seq<Probe>) -> Seq<Probe> {
        queue.drop_first() + around(queue[0].col, queue[0].row, queue[0].distance)
    }

    /// A cell that was covered stays covered when the first probe settles.
    proof fn lemma_covered_settled(self, queue: Seq<Probe>, col: int, row: int, bound: nat)
        requires
            self.settling(queue),
            queue.len() > 0,
            self.settles(queue[0]),
            self.covered(queue, col, row, bound),
        ensures
            self.settled(queue[0]).covered(Self::after(queue), col, row, bound),
    {
        let probe = queue[0];
        let next = Self::after(queue);
        self.lemma_settled_cell(queue);
        if self.in_bounds(col, row) && self.at(col, row) == Tile::Open(None) {
            let k = choose|k: int|
                0 <= k < queue.len() && (#[trigger] queue[k]).col == col && queue[k].row == row
                    && queue[k].distance <= bound;
            if col == probe.col && row == probe.row {
                assert(queue[0].distance <= queue[k].distance);
            } else {
                assert(k != 0);
                assert(next[k - 1] == queue[k]);
            }
        }
    }

    /// The neighbours of the cell that the first probe settles are covered.
    proof fn lemma_covered_around(self, queue: Seq<Probe>, which: int)
        requires
            self.settling(queue),
            queue.len() > 0,
            self.settles(queue[0]),
            0 <= which < 4,
        ensures
            self.settled(queue[0]).covered(
                Self::after(queue),
                around(queue[0].col, queue[0].row, queue[0].distance)[which].col,
                around(queue[0].col, queue[0].row, queue[0].distance)[which].row,
                queue[0].distance + 1,
            ),
    {
        let probe = queue[0];
        let next = Self::after(queue);
        let sent = around(probe.col, probe.row, probe.distance);
        let col = sent[which].col;
        let row = sent[which].row;
        self.lemma_settled_cell(queue);
        if self.in_bounds(col, row) {
            assert(self.cell_ok(queue, col, row));
            assert(next[queue.len() - 1 + which] == sent[which]);
        }
    }
}

impl Board {
    /// Settling the first probe keeps the invariant.
    #[verifier::rlimit(50)]
    pub proof fn lemma_settled(self, queue: Seq<Probe>)
        requires
            self.settling(queue),
            queue.len() > 0,
            self.settles(queue[0]),
        ensures
            self.settled(queue[0]).settling(Self::after(queue)),
    {
        let probe = queue[0];
        let rest = queue.drop_first();
        let sent = around(probe.col, probe.row, probe.distance);
        let next = Self::after(queue);
        let board = self.settled(probe);
        self.lemma_settled_cell(queue);
        assert(self.sent_by_parent(probe));
        assert forall|k: int| 0 <= k < next.len() implies probe.distance <= (#[trigger] next[k]).distance
            <= probe.distance + 1 by {
            if k < rest.len() {
                assert(next[k] == queue[k + 1]);
            } else {
                assert(next[k] == sent[k - rest.len()]);
            }
        }
        assert forall|i: int, j: int| 0 <= i <= j < next.len() implies (#[trigger] next[i]).distance
            <= (#[trigger] next[j]).distance <= next[i].distance + 1 by {
            if j < rest.len() {
                assert(next[i] == queue[i + 1]);
                assert(next[j] == queue[j + 1]);
            } else {
                assert(next[j] == sent[j - rest.len()]);
            }
        }
        assert forall|k: int| 0 <= k < next.len() implies board.sent_by_parent(
            #[trigger] next[k],
        ) by {
            if k < rest.len() {
                assert(next[k] == queue[k + 1]);
                assert(self.sent_by_parent(queue[k + 1]));
            } else {
                assert(next[k] == sent[k - rest.len()]);
            }
        }
        assert forall|col: int, row: int| board.in_bounds(col, row) implies #[trigger] board.cell_ok(
            next,
            col,
            row,
        ) by {
            assert(self.cell_ok(queue, col, row));
            assert(next.len() > 0);
            if col == probe.col && row == probe.row {
                self.lemma_covered_around(queue, 0);
                self.lemma_covered_around(queue, 1);
                self.lemma_covered_around(queue, 2);
                self.lemma_covered_around(queue, 3);
            } else if let Some(reach) = self.claim(col, row) {
                self.lemma_covered_settled(queue, col, row + 1, reach + 1);
                self.lemma_covered_settled(queue, col, row - 1, reach + 1);
                self.lemma_covered_settled(queue, col - 1, row, reach + 1);
                self.lemma_covered_settled(queue, col + 1, row, reach + 1);
            }
        }
    }
}

impl Board {
    /// Propagation touches path data only: size, target and the kind of
    /// every tile stay as they were.
    pub proof fn lemma_propagate_frame(self, queue: Seq<Probe>)
        ensures
            self.propagate(queue).width == self.width,
            self.propagate(queue).height == self.height,
            self.propagate(queue).target == self.target,
            self.propagate(queue).reset() == self.reset(),
        decreases total(self.tiles, |t: Tile| room(t)), origins(queue), queue.len(),
    {
        if queue.len() == 0 || !self.shaped() {
        } else if self.settles(queue[0]) {
            let probe = queue[0];
            self.lemma_settle_decreases(queue);
            self.lemma_index(probe.col, probe.row);
            self.settled(probe).lemma_propagate_frame(Self::after(queue));
            assert(self.settled(probe).reset().tiles =~= self.reset().tiles);
        } else {
            lemma_origins_step(queue);
            self.lemma_propagate_frame(queue.drop_first());
        }
    }

    /// The invariant holds to the end of the propagation.
    pub proof fn lemma_propagate_settling(self, queue: Seq<Probe>)
        requires
            self.settling(queue),
        ensures
            self.propagate(queue).settling(Seq::<Probe>::empty()),
        decreases total(self.tiles, |t: Tile| room(t)), origins(queue), queue.len(),
    {
        if queue.len() == 0 {
            assert(queue =~= Seq::<Probe>::empty());
        } else if self.settles(queue[0]) {
            self.lemma_settle_decreases(queue);
            self.lemma_settled(queue);
            self.settled(queue[0]).lemma_propagate_settling(Self::after(queue));
        } else {
            lemma_origins_step(queue);
            self.lemma_dropped(queue);
            self.lemma_propagate_settling(queue.drop_first());
        }
    }
}

impl Board {
    /// Once the queue is empty, a cell that has a walk to the target makes a
    /// claim, and the claim is no longer than the walk.
    proof fn lemma_walk_claimed(self, col: int, row: int, steps: nat)
        requires
            self.settling(Seq::<Probe>::empty()),
            self.walk(col, row, steps),
        ensures
            self.claim(col, row) matches Some(reach) && reach <= steps,
        decreases steps,
    {
        let none = Seq::<Probe>::empty();
        if steps > 0 {
            let before = (steps - 1) as nat;
            if self.walk(col, row + 1, before) {
                self.lemma_walk_claimed(col, row + 1, before);
                assert(self.cell_ok(none, col, row + 1));
            } else if self.walk(col, row - 1, before) {
                self.lemma_walk_claimed(col, row - 1, before);
                assert(self.cell_ok(none, col, row - 1));
            } else if self.walk(col - 1, row, before) {
                self.lemma_walk_claimed(col - 1, row, before);
                assert(self.cell_ok(none, col - 1, row));
            } else {
                assert(self.walk(col + 1, row, before));
                self.lemma_walk_claimed(col + 1, row, before);
                assert(self.cell_ok(none, col + 1, row));
            }
        }
    }

    /// A claim is the length of a walk to the target.
    proof fn lemma_claim_walked(self, col: int, row: int, reach: nat)
        requires
            self.shaped(),
            self.headings_sound(),
            self.in_bounds(col, row),
            self.claim(col, row) == Some(reach),
        ensures
            self.walk(col, row, reach),
        decreases reach,
    {
        if let Tile::Open(Some(info)) = self.at(col, row) {
            assert(self.heading_sound(col, row));
            self.lemma_claim_walked(
                col + info.next.dx(),
                row + info.next.dy(),
                (reach - 1) as nat,
            );
        }
    }

    /// With the queue empty, the invariant makes the board a flow field.
    pub proof fn lemma_settling_done(self)
        requires
            self.settling(Seq::<Probe>::empty()),
        ensures
            self.settled_field(),
            self.headings_inside(),
    {
        let none = Seq::<Probe>::empty();
        assert forall|col: int, row: int| self.in_bounds(col, row) implies #[trigger] self.heading_sound(
            col,
            row,
        ) by {
            assert(self.cell_ok(none, col, row));
        }
        assert forall|col: int, row: int| self.in_bounds(col, row) implies match #[trigger] self.at(
            col,
            row,
        ) {
            Tile::Open(Some(info)) => {
                &&& self.walk(col, row, info.distance as nat)
                &&& forall|steps: nat|
                    steps < info.distance ==> !#[trigger] self.walk(col, row, steps)
            },
            Tile::Open(None) => forall|steps: nat| !#[trigger] self.walk(col, row, steps),
            _ => true,
        } by {
            match self.at(col, row) {
                Tile::Open(Some(info)) => {
                    self.lemma_claim_walked(col, row, info.distance as nat);
                    assert forall|steps: nat| steps < info.distance implies !#[trigger] self.walk(
                        col,
                        row,
                        steps,
                    ) by {
                        if self.walk(col, row, steps) {
                            self.lemma_walk_claimed(col, row, steps);
                        }
                    }
                },
                Tile::Open(None) => {
                    assert forall|steps: nat| !#[trigger] self.walk(col, row, steps) by {
                        if self.walk(col, row, steps) {
                            self.lemma_walk_claimed(col, row, steps);
                        }
                    }
                },
                _ => {},
            }
        }
        assert forall|col: int, row: int| self.in_bounds(col, row) implies (#[trigger] self.at(
            col,
            row,
        ) matches Tile::Open(Some(info)) ==> self.in_bounds(
            col + info.next.dx(),
            row + info.next.dy(),
        )) by {
            assert(self.heading_sound(col, row));
        }
    }
}

impl Board {
    /// Resetting a board clears every open cell and changes nothing else.
    pub proof fn lemma_reset(self)
        requires
            self.wf(),
        ensures
            self.reset().wf(),
            self.reset().width == self.width,
            self.reset().height == self.height,
            self.reset().target == self.target,
            self.reset().reset() == self.reset(),
            forall|col: int, row: int|
                self.in_bounds(col, row) ==> #[trigger] self.reset().at(col, row) == self.at(
                    col,
                    row,
                ).cleared(),
    {
        let cleared = self.reset();
        assert forall|col: int, row: int| self.in_bounds(col, row) implies #[trigger] cleared.at(
            col,
            row,
        ) == self.at(col, row).cleared() by {
            self.lemma_index(col, row);
        }
        assert(cleared.reset().tiles =~= cleared.tiles);
        assert forall|col: int, row: int| cleared.in_bounds(col, row) implies ((#[trigger] cleared.at(
            col,
            row,
        ) == Tile::Target) <==> cleared.target == Some(
            Cell { col: col as i32, row: row as i32 },
        )) by {
            assert(cleared.at(col, row) == self.at(col, row).cleared());
        }
    }

    /// The invariant holds when the target of a reset board has sent its
    /// probes.
    pub proof fn lemma_start(self)
        requires
            self.wf(),
            self.target is Some,
        ensures
            self.reset().settling(around(self.target->0.col as int, self.target->0.row as int, 0)),
    {
        let cell = self.target->0;
        let col = cell.col as int;
        let row = cell.row as int;
        let board = self.reset();
        let queue = around(col, row, 0);
        self.lemma_reset();
        assert(board.at(col, row) == Tile::Target);
        board.lemma_index(col, row);
        board.lemma_sides();
        lemma_total_bounds(board.tiles, |t: Tile| untouched(t), board.index(col, row));
        assert forall|k: int| 0 <= k < queue.len() implies board.sent_by_parent(
            #[trigger] queue[k],
        ) by {}
        assert forall|c: int, r: int| board.in_bounds(c, r) implies #[trigger] board.cell_ok(
            queue,
            c,
            r,
        ) by {
            assert(board.at(c, r) == self.at(c, r).cleared());
            if board.at(c, r) == Tile::Target {
                assert(c == col && r == row);
                assert(queue[0].col == col && queue[0].row == row - 1);
                assert(queue[1].col == col && queue[1].row == row + 1);
                assert(queue[2].col == col - 1 && queue[2].row == row);
                assert(queue[3].col == col + 1 && queue[3].row == row);
                if board.in_bounds(col, row + 1) {
                    assert(board.at(col, row + 1) == self.at(col, row + 1).cleared());
                }
                if board.in_bounds(col, row - 1) {
                    assert(board.at(col, row - 1) == self.at(col, row - 1).cleared());
                }
                if board.in_bounds(col - 1, row) {
                    assert(board.at(col - 1, row) == self.at(col - 1, row).cleared());
                }
                if board.in_bounds(col + 1, row) {
                    assert(board.at(col + 1, row) == self.at(col + 1, row).cleared());
                }
            }
        }
    }

    /// The probe that a propagation begins with settles the target, which
    /// sends the first four probes and stays as it is.
    pub proof fn lemma_seeded(self)
        requires
            self.wf(),
            self.target is Some,
        ensures
            self.reset().settles(origin(self.target->0)),
            self.reset().settled(origin(self.target->0)) == self.reset(),
            Self::after(seq![origin(self.target->0)]) == around(
                self.target->0.col as int,
                self.target->0.row as int,
                0,
            ),
            self.recomputed() == self.reset().propagate(
                around(self.target->0.col as int, self.target->0.row as int, 0),
            ),
    {
        let cell = self.target->0;
        let start = self.reset();
        let queue = seq![origin(cell)];
        self.lemma_reset();
        assert(start.at(cell.col as int, cell.row as int) == Tile::Target);
        assert(Self::after(queue) =~= around(cell.col as int, cell.row as int, 0));
    }

    /// On a board without a target no cell has a walk to it.
    pub proof fn lemma_no_target_no_walk(self, col: int, row: int, steps: nat)
        requires
            self.wf(),
            self.target is None,
        ensures
            !self.walk(col, row, steps),
        decreases steps,
    {
        if steps > 0 {
            let before = (steps - 1) as nat;
            self.lemma_no_target_no_walk(col, row + 1, before);
            self.lemma_no_target_no_walk(col, row - 1, before);
            self.lemma_no_target_no_walk(col - 1, row, before);
            self.lemma_no_target_no_walk(col + 1, row, before);
        } else if self.in_bounds(col, row) {
            assert(self.at(col, row) != Tile::Target);
        }
    }

    /// Recomputing a board yields a board of the same size, walls and target
    /// whose path data is a flow field.
    pub proof fn lemma_recomputed(self)
        requires
            self.wf(),
        ensures
            self.recomputed().wf(),
            self.recomputed().width == self.width,
            self.recomputed().height == self.height,
            self.recomputed().target == self.target,
            self.recomputed().reset() == self.reset(),
            self.recomputed().settled_field(),
            self.target is None ==> self.recomputed() == self.reset(),
    {
        self.lemma_reset();
        if self.target is None {
            let done = self.reset();
            assert forall|col: int, row: int| done.in_bounds(col, row) implies match #[trigger] done.at(
                col,
                row,
            ) {
                Tile::Open(Some(info)) => {
                    &&& done.walk(col, row, info.distance as nat)
                    &&& forall|steps: nat|
                        steps < info.distance ==> !#[trigger] done.walk(col, row, steps)
                },
                Tile::Open(None) => forall|steps: nat| !#[trigger] done.walk(col, row, steps),
                _ => true,
            } by {
                assert(done.at(col, row) == self.at(col, row).cleared());
                assert forall|steps: nat| !#[trigger] done.walk(col, row, steps) by {
                    done.lemma_no_target_no_walk(col, row, steps);
                }
            }
            assert forall|col: int, row: int| done.in_bounds(col, row) implies #[trigger] done.heading_sound(
                col,
                row,
            ) by {
                assert(done.at(col, row) == self.at(col, row).cleared());
            }
        }
        if let Some(cell) = self.target {
            let start = self.reset();
            let queue = around(cell.col as int, cell.row as int, 0);
            let done = self.recomputed();
            self.lemma_seeded();
            self.lemma_start();
            start.lemma_propagate_frame(queue);
            start.lemma_propagate_settling(queue);
            done.lemma_settling_done();
            assert forall|col: int, row: int| done.in_bounds(col, row) implies ((#[trigger] done.at(
                col,
                row,
            ) == Tile::Target) <==> done.target == Some(
                Cell { col: col as i32, row: row as i32 },
            )) by {
                done.lemma_index(col, row);
                assert(done.reset().tiles[done.index(col, row)] == start.reset().tiles[done.index(
                    col,
                    row,
                )]);
                assert(start.at(col, row) == self.at(col, row).cleared());
            }
        }
    }
}

} // verus!
