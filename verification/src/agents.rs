//! Agents that follow the flow field, one cell per tick.
//!
//! An agent is known here by the cell it stands on. Where inside that cell
//! it is drawn is the business of whoever draws it: a tick reports what
//! each agent did, and an agent that jitters stays in its cell.

use vstd::prelude::*;
use crate::board::Board;
use crate::geometry::{Cell, Direction};
use crate::grid::{GridError, GridField};
use crate::tile::Tile;

verus! {

/// The number of agents from which on the target spawns no more.
pub const POPULATION_CAP: usize = 200;

/// What an agent does in one tick.
#[derive(Clone, Copy, Debug, PartialEq, Eq, Structural)]
pub enum Action {
    /// It moves one cell in the direction that its cell records.
    Advance(Direction),
    /// Its cell has no path data: it moves about inside the cell.
    Jitter,
    /// It stands on a wall and leaves the simulation.
    Remove,
    /// It stands on the target and a second agent appears beside it.
    Spawn,
    /// It stands on the target and the population is at its cap.
    Rest,
}

/// What a tick has made of the agents it has examined.
pub struct Tally {
    /// The agents that stay, where they now stand, in the order examined.
    pub kept: Seq<Cell>,
    /// The agents that were spawned, in the order of their parents.
    pub born: Seq<Cell>,
    /// What each examined agent did.
    pub actions: Seq<Action>,
}

impl Board {
    /// What an agent on `tile` does when `population` agents are alive.
    pub open spec fn action(tile: Tile, population: nat) -> Action {
        match tile {
            Tile::Open(Some(info)) => Action::Advance(info.next),
            Tile::Open(None) => Action::Jitter,
            Tile::Wall => Action::Remove,
            Tile::Target => if population < POPULATION_CAP {
                Action::Spawn
            } else {
                Action::Rest
            },
        }
    }

    /// Where an agent stands after a tick: one step along the heading of
    /// its cell, or, where the cell records none, in the same cell.
    pub open spec fn destination(self, cell: Cell) -> Cell {
        match self.at(cell.col as int, cell.row as int) {
            Tile::Open(Some(info)) => Cell {
                col: (cell.col + info.next.dx()) as i32,
                row: (cell.row + info.next.dy()) as i32,
            },
            _ => cell,
        }
    }

    /// Every agent stands on a cell of the board.
    pub open spec fn holds(self, agents: Seq<Cell>) -> bool {
        forall|i: int| 0 <= i < agents.len() ==> self.contains(#[trigger] agents[i])
    }

    /// The tick after the first `upto` agents have been examined, each
    /// against the population alive at that moment: those that were kept,
    /// those that were born and those that still wait.
    pub open spec fn ticked(self, agents: Seq<Cell>, upto: nat) -> Tally
        decreases upto,
    {
        if upto == 0 {
            Tally { kept: Seq::empty(), born: Seq::empty(), actions: Seq::empty() }
        } else {
            let before = self.ticked(agents, (upto - 1) as nat);
            let cell = agents[upto - 1];
            let population = (before.kept.len() + before.born.len() + agents.len() - (upto - 1)) as nat;
            let action = Self::action(self.at(cell.col as int, cell.row as int), population);
            Tally {
                kept: if action == Action::Remove {
                    before.kept
                } else {
                    before.kept.push(self.destination(cell))
                },
                born: if action == Action::Spawn {
                    before.born.push(cell)
                } else {
                    before.born
                },
                actions: before.actions.push(action),
            }
        }
    }

    /// The agents after a tick: those that were kept, then those that were
    /// born.
    pub open spec fn after_tick(self, agents: Seq<Cell>) -> Seq<Cell> {
        self.ticked(agents, agents.len()).kept + self.ticked(agents, agents.len()).born
    }
}

impl Board {
    /// The agents that a tick keeps: all but those on a wall.
    pub open spec fn survivors(self, agents: Seq<Cell>) -> Seq<Cell> {
        agents.filter(|cell: Cell| self.at(cell.col as int, cell.row as int) != Tile::Wall)
    }

    /// An agent on the board stays on the board.
    pub proof fn lemma_destination(self, cell: Cell)
        requires
            self.wf(),
            self.contains(cell),
        ensures
            self.contains(self.destination(cell)),
            self.at(cell.col as int, cell.row as int) matches Tile::Open(Some(info)) ==> {
                &&& self.destination(cell).col == cell.col + info.next.dx()
                &&& self.destination(cell).row == cell.row + info.next.dy()
            },
    {
        self.lemma_sides();
        assert(self.in_bounds(cell.col as int, cell.row as int));
    }

    /// What holds of a tick however far it has come: one action for each
    /// agent examined, never more agents than the larger of the cap and
    /// the number it began with, all of them on the board, the newborn on
    /// the target, and the kept ones those that stood on no wall, moved
    /// one step each, in their order.
    pub proof fn lemma_ticked(self, agents: Seq<Cell>, upto: nat)
        requires
            self.wf(),
            self.holds(agents),
            upto <= agents.len(),
        ensures
            self.ticked(agents, upto).actions.len() == upto,
            self.ticked(agents, upto).kept.len() <= upto,
            self.ticked(agents, upto).kept.len() + self.ticked(agents, upto).born.len()
                + agents.len() - upto <= if agents.len() <= POPULATION_CAP {
                POPULATION_CAP as int
            } else {
                agents.len() as int
            },
            self.holds(self.ticked(agents, upto).kept),
            self.holds(self.ticked(agents, upto).born),
            forall|i: int|
                0 <= i < self.ticked(agents, upto).born.len() ==> self.tile(
                    #[trigger] self.ticked(agents, upto).born[i],
                ) == Some(Tile::Target),
            self.ticked(agents, upto).kept == self.survivors(agents.take(upto as int)).map_values(
                |cell: Cell| self.destination(cell),
            ),
        decreases upto,
    {
        reveal(Seq::filter);
        let keep = |cell: Cell| self.at(cell.col as int, cell.row as int) != Tile::Wall;
        let go = |cell: Cell| self.destination(cell);
        if upto == 0 {
            assert(agents.take(0) =~= Seq::<Cell>::empty());
            assert(self.ticked(agents, upto).kept =~= agents.take(0).filter(keep).map_values(go));
        } else {
            let before = self.ticked(agents, (upto - 1) as nat);
            let now = self.ticked(agents, upto);
            let cell = agents[upto - 1];
            self.lemma_ticked(agents, (upto - 1) as nat);
            self.lemma_destination(cell);
            assert(self.contains(cell));
            assert(agents.take(upto as int).drop_last() =~= agents.take(upto - 1));
            assert(agents.take(upto as int).last() == cell);
            assert(now.kept =~= agents.take(upto as int).filter(keep).map_values(go));
        }
    }
}

/// What an agent on `tile` does in a tick when `population` agents are
/// alive.
pub fn decide(tile: Tile, population: usize) -> (action: Action)
    ensures
        action == Board::action(tile, population as nat),
{
    match tile {
        Tile::Open(Some(info)) => Action::Advance(info.next),
        Tile::Open(None) => Action::Jitter,
        Tile::Wall => Action::Remove,
        Tile::Target => if population < POPULATION_CAP {
            Action::Spawn
        } else {
            Action::Rest
        },
    }
}

/// The agents of a simulation, each by the cell it stands on.
pub struct AgentSimulator {
    agents: Vec<Cell>,
}

impl View for AgentSimulator {
    type V = Seq<Cell>;

    closed spec fn view(&self) -> Seq<Cell> {
        self.agents@
    }
}

impl AgentSimulator {
    /// A simulation without agents.
    pub fn new() -> (sim: AgentSimulator)
        ensures
            sim@ == Seq::<Cell>::empty(),
    {
        AgentSimulator { agents: Vec::new() }
    }

    /// A simulation with one agent in each corner of the board: first the
    /// two of column 0, then the two of the last column.
    pub fn at_corners(field: &GridField) -> (sim: AgentSimulator)
        requires
            field.wf(),
        ensures
            sim@ == seq![
                Cell { col: 0, row: 0 },
                Cell { col: 0, row: (field@.height - 1) as i32 },
                Cell { col: (field@.width - 1) as i32, row: 0 },
                Cell { col: (field@.width - 1) as i32, row: (field@.height - 1) as i32 },
            ],
            field@.holds(sim@),
    {
        let right: i32 = field.width() - 1;
        let top: i32 = field.height() - 1;
        let mut agents: Vec<Cell> = Vec::new();
        agents.push(Cell { col: 0, row: 0 });
        agents.push(Cell { col: 0, row: top });
        agents.push(Cell { col: right, row: 0 });
        agents.push(Cell { col: right, row: top });
        let sim = AgentSimulator { agents };
        assert(sim@ =~= seq![
            Cell { col: 0, row: 0 },
            Cell { col: 0, row: top },
            Cell { col: right, row: 0 },
            Cell { col: right, row: top },
        ]);
        sim
    }

    /// Puts an agent on a cell of the board. A cell that the board does not
    /// have is refused.
    pub fn add_agent(&mut self, field: &GridField, cell: Cell) -> (r: Result<(), GridError>)
        ensures
            r == if field@.contains(cell) {
                Ok::<(), GridError>(())
            } else {
                Err(GridError::NoSuchCell)
            },
            final(self)@ == if field@.contains(cell) {
                old(self)@.push(cell)
            } else {
                old(self)@
            },
            field@.holds(old(self)@) ==> field@.holds(final(self)@),
    {
        if field.contains(cell) {
            self.agents.push(cell);
            Ok(())
        } else {
            Err(GridError::NoSuchCell)
        }
    }

    /// The number of agents.
    pub fn population(&self) -> (n: usize)
        ensures
            n == self@.len(),
    {
        self.agents.len()
    }

    /// The cell of the agent at `index`; `None` where there is no such
    /// agent.
    pub fn agent(&self, index: usize) -> (r: Option<Cell>)
        ensures
            r == if index < self@.len() {
                Some(self@[index as int])
            } else {
                None
            },
    {
        if index < self.agents.len() {
            Some(self.agents[index])
        } else {
            None
        }
    }

    /// The cells of all agents, in their order.
    pub fn positions(&self) -> (cells: Vec<Cell>)
        ensures
            cells@ == self@,
    {
        let mut cells: Vec<Cell> = Vec::new();
        let mut i: usize = 0;
        while i < self.agents.len()
            invariant
                i <= self.agents.len(),
                cells@ == self.agents@.take(i as int),
            decreases self.agents.len() - i,
        {
            cells.push(self.agents[i]);
            assert(self.agents@.take(i + 1) =~= self.agents@.take(i as int).push(
                self.agents@[i as int],
            ));
            i = i + 1;
        }
        assert(self.agents@.take(i as int) =~= self.agents@);
        cells
    }

    /// Whether every agent stands on a cell of the board.
    pub fn fits(&self, field: &GridField) -> (r: bool)
        ensures
            r == field@.holds(self@),
    {
        let mut i: usize = 0;
        while i < self.agents.len()
            invariant
                i <= self.agents.len(),
                forall|j: int| 0 <= j < i ==> field@.contains(#[trigger] self.agents@[j]),
            decreases self.agents.len() - i,
        {
            if !field.contains(self.agents[i]) {
                return false;
            }
            i = i + 1;
        }
        true
    }

    /// One tick: every agent that was there at its start is examined once,
    /// in order. An agent on a cell with path data moves one cell along it;
    /// one on an open cell without path data jitters and stays; one on a
    /// wall is removed; one on the target spawns a second agent on the
    /// target while fewer than `POPULATION_CAP` agents are alive. The
    /// agents that were kept come first, in their order, then the newborn,
    /// which are examined from the next tick on. Returns what each agent
    /// did.
    #[verifier::rlimit(50)]
    pub fn step(&mut self, field: &GridField) -> (actions: Vec<Action>)
        requires
            field.wf(),
            field@.holds(old(self)@),
        ensures
            final(self)@ == field@.after_tick(old(self)@),
            actions@ == field@.ticked(old(self)@, old(self)@.len()).actions,
            actions@.len() == old(self)@.len(),
            field@.holds(final(self)@),
            final(self)@.len() <= POPULATION_CAP || final(self)@.len() <= old(self)@.len(),
    {
        let count = self.agents.len();
        let mut kept: Vec<Cell> = Vec::new();
        let mut born: Vec<Cell> = Vec::new();
        let mut actions: Vec<Action> = Vec::new();
        let mut i: usize = 0;
        proof {
            field@.lemma_sides();
        }
        while i < count
            invariant
                i <= count,
                count == self.agents.len(),
                self.agents@ == old(self)@,
                field.wf(),
                field@.holds(self.agents@),
                field@.width <= i32::MAX,
                field@.height <= i32::MAX,
                kept@ == field@.ticked(self.agents@, i as nat).kept,
                born@ == field@.ticked(self.agents@, i as nat).born,
                actions@ == field@.ticked(self.agents@, i as nat).actions,
            decreases count - i,
        {
            proof {
                field@.lemma_ticked(self.agents@, i as nat);
                field@.lemma_ticked(self.agents@, (i + 1) as nat);
            }
            let cell = self.agents[i];
            assert(field@.contains(cell));
            let population: usize = kept.len() + born.len() + (count - i);
            let tile = match field.tile_at(cell) {
                Some(tile) => tile,
                None => Tile::Wall,
            };
            let action = decide(tile, population);
            proof {
                field@.lemma_destination(cell);
            }
            match action {
                Action::Advance(heading) => {
                    kept.push(cell.step(heading));
                },
                Action::Jitter => {
                    kept.push(cell);
                },
                Action::Remove => {},
                Action::Spawn => {
                    kept.push(cell);
                    born.push(cell);
                },
                Action::Rest => {
                    kept.push(cell);
                },
            }
            actions.push(action);
            i = i + 1;
        }
        proof {
            field@.lemma_ticked(self.agents@, count as nat);
        }
        kept.append(&mut born);
        self.agents = kept;
        actions
    }
}

} // verus!
