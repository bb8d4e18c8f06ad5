//! What holds of every recomputation and of every tick, stated over the
//! model of the board.

use vstd::prelude::*;
use crate::agents::POPULATION_CAP;
use crate::board::Board;
use crate::geometry::Cell;
use crate::tile::{PathInfo, Tile};

verus! {

/// After a recomputation every open cell that has a walk to the target holds
/// the length of a shortest one, and every open cell without a walk holds
/// no path data.
pub proof fn law_distances_exact(board: Board)
    requires
        board.wf(),
    ensures
        board.recomputed().distances_exact(),
{
    board.lemma_recomputed();
}

/// After a recomputation the first step that a cell records leads to the
/// target, from a cell at distance 1, or to an open cell whose distance is
/// one less than the cell's own.
pub proof fn law_headings_sound(board: Board)
    requires
        board.wf(),
    ensures
        board.recomputed().headings_sound(),
{
    board.lemma_recomputed();
}

/// Recomputing twice in a row gives the field of recomputing once.
pub proof fn law_recompute_idempotent(board: Board)
    requires
        board.wf(),
    ensures
        board.recomputed().recomputed() == board.recomputed(),
{
    board.lemma_recomputed();
}

/// Without a target a recomputation leaves no path data on any cell.
pub proof fn law_no_target_no_paths(board: Board, col: int, row: int)
    requires
        board.wf(),
        board.target is None,
        board.in_bounds(col, row),
    ensures
        board.recomputed().at(col, row).info() is None,
{
    board.lemma_reset();
}

/// A recomputation depends on the size of the board, its walls and its
/// target alone: two boards that differ in path data only have the same
/// field, so nothing of an earlier field persists.
pub proof fn law_recompute_forgets(one: Board, other: Board)
    requires
        one.wf(),
        other.wf(),
        one.reset() == other.reset(),
    ensures
        one.recomputed() == other.recomputed(),
{
}

/// A recomputation changes path data only: size, target and the kind of
/// every tile stay.
pub proof fn law_recompute_keeps_board(board: Board, col: int, row: int)
    requires
        board.wf(),
        board.in_bounds(col, row),
    ensures
        board.recomputed().wf(),
        board.recomputed().width == board.width,
        board.recomputed().height == board.height,
        board.recomputed().target == board.target,
        board.recomputed().at(col, row).cleared() == board.at(col, row).cleared(),
{
    let field = board.recomputed();
    board.lemma_recomputed();
    board.lemma_reset();
    field.lemma_reset();
    assert(field.in_bounds(col, row));
    assert(field.reset().at(col, row) == field.at(col, row).cleared());
    assert(board.reset().at(col, row) == board.at(col, row).cleared());
}

/// A tick never lets the population pass the cap: where it began at or
/// below the cap it ends at or below it, and where it began above, it does
/// not grow.
pub proof fn law_population_capped(board: Board, agents: Seq<Cell>)
    requires
        board.wf(),
        board.holds(agents),
    ensures
        agents.len() <= POPULATION_CAP ==> board.after_tick(agents).len() <= POPULATION_CAP,
        agents.len() > POPULATION_CAP ==> board.after_tick(agents).len() <= agents.len(),
{
    board.lemma_ticked(agents, agents.len());
}

/// A tick removes the agents that stand on a wall and no others: the
/// agents it keeps are those that stood on no wall, each once, in their
/// order and one step further along their cell's heading; what it adds
/// stands on the target.
pub proof fn law_removal_exact(board: Board, agents: Seq<Cell>)
    requires
        board.wf(),
        board.holds(agents),
    ensures
        board.after_tick(agents) == board.survivors(agents).map_values(
            |cell: Cell| board.destination(cell),
        ) + board.ticked(agents, agents.len()).born,
        forall|i: int|
            0 <= i < board.survivors(agents).len() ==> board.tile(
                #[trigger] board.survivors(agents)[i],
            ) != Some(Tile::Wall),
        forall|i: int|
            0 <= i < agents.len() && board.tile(agents[i]) != Some(Tile::Wall)
                ==> board.survivors(agents).contains(#[trigger] agents[i]),
        forall|i: int|
            0 <= i < board.ticked(agents, agents.len()).born.len() ==> board.tile(
                #[trigger] board.ticked(agents, agents.len()).born[i],
            ) == Some(Tile::Target),
{
    board.lemma_ticked(agents, agents.len());
    assert(agents.take(agents.len() as int) =~= agents);
    let keep = |cell: Cell| board.at(cell.col as int, cell.row as int) != Tile::Wall;
    assert forall|i: int| 0 <= i < board.survivors(agents).len() implies board.tile(
        #[trigger] board.survivors(agents)[i],
    ) != Some(Tile::Wall) by {
        agents.lemma_filter_pred(keep, i);
    }
    assert forall|i: int|
        0 <= i < agents.len() && board.tile(agents[i]) != Some(Tile::Wall) implies board.survivors(
        agents,
    ).contains(#[trigger] agents[i]) by {
        assert(board.contains(agents[i]));
        agents.lemma_filter_contains(keep, i);
    }
}

/// An agent on an open cell without path data stays in its cell, and so
/// does one on the target.
pub proof fn law_jitter_stays(board: Board, cell: Cell)
    requires
        board.wf(),
        board.contains(cell),
        board.tile(cell) == Some(Tile::Open(None)) || board.tile(cell) == Some(Tile::Target),
    ensures
        board.destination(cell) == cell,
{
}

/// On a recomputed board an agent that advances comes one step closer to
/// the target: it lands on the target, from distance 1, or on a cell whose
/// distance is one less.
pub proof fn law_advance_closer(board: Board, cell: Cell, info: PathInfo)
    requires
        board.wf(),
        board.recomputed().tile(cell) == Some(Tile::Open(Some(info))),
    ensures
        board.recomputed().contains(board.recomputed().destination(cell)),
        board.recomputed().destination(cell) == (Cell {
            col: (cell.col + info.next.dx()) as i32,
            row: (cell.row + info.next.dy()) as i32,
        }),
        info.distance >= 1,
        board.recomputed().claim(
            board.recomputed().destination(cell).col as int,
            board.recomputed().destination(cell).row as int,
        ) == Some((info.distance - 1) as nat),
{
    let field = board.recomputed();
    board.lemma_recomputed();
    field.lemma_destination(cell);
    assert(field.heading_sound(cell.col as int, cell.row as int));
}

} // verus!
