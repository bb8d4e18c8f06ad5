//! The pointer of a board editor: where it is, where a drag began, and
//! what releasing a button does to the board.

use vstd::prelude::*;
use crate::board::Board;
use crate::geometry::Cell;
use crate::grid::GridField;
use crate::tile::Tile;

verus! {

/// A button of the pointer.
#[derive(Clone, Copy, Debug, PartialEq, Eq, Structural)]
pub enum PointerButton {
    /// Drags a rectangle of walls or of open cells.
    Left,
    /// Places or removes the target.
    Right,
    /// Any other button; it does nothing.
    Other,
}

/// The state of the pointer.
#[derive(Clone, Copy, Debug, PartialEq, Eq, Structural)]
pub struct Selection {
    /// The cell under the pointer; `None` while it is off the board.
    pub pointer: Option<Cell>,
    /// The cell on which the drag in progress began.
    pub anchor: Option<Cell>,
}

impl Selection {
    /// The board that releasing `button` leaves: a left release that ends a
    /// drag toggles its rectangle, a right release toggles the target
    /// under the pointer, and any release over the board brings the field
    /// up to date. A drag that began on the target, or that names a cell
    /// the board does not have, changes nothing.
    pub open spec fn released(self, button: PointerButton, board: Board) -> Board {
        match (button, self.pointer) {
            (PointerButton::Left, Some(end)) => match self.anchor {
                Some(start) => if board.contains(start) && board.contains(end) && board.tile(start)
                    != Some(Tile::Target) {
                    board.region_toggled(start, end)
                } else {
                    board
                },
                None => board.recomputed(),
            },
            (PointerButton::Right, Some(cell)) => if board.contains(cell) {
                board.target_toggled(cell)
            } else {
                board.recomputed()
            },
            _ => board.recomputed(),
        }
    }

    /// A pointer off the board with no drag in progress.
    pub fn new() -> (s: Selection)
        ensures
            s.pointer.is_none(),
            s.anchor.is_none(),
    {
        Selection { pointer: None, anchor: None }
    }

    /// The pointer has moved to `pos`, or has left the board, which ends
    /// the drag in progress.
    pub fn mouse_move(&mut self, pos: Option<Cell>)
        ensures
            final(self).pointer == pos,
            final(self).anchor == if pos.is_none() {
                None
            } else {
                old(self).anchor
            },
    {
        self.pointer = pos;
        if pos.is_none() {
            self.anchor = None;
        }
    }

    /// A button went down: the left one over the board begins a drag.
    pub fn mouse_press(&mut self, button: PointerButton)
        ensures
            final(self).pointer == old(self).pointer,
            final(self).anchor == if button == PointerButton::Left && old(self).pointer.is_some() {
                old(self).pointer
            } else {
                old(self).anchor
            },
    {
        if button == PointerButton::Left && self.pointer.is_some() {
            self.anchor = self.pointer;
        }
    }

    /// A button came up: see `released`. A left release over the board
    /// ends the drag.
    pub fn mouse_release(&mut self, button: PointerButton, field: &mut GridField)
        requires
            old(field).wf(),
        ensures
            final(field).wf(),
            final(field)@ == old(self).released(button, old(field)@),
            final(self).pointer == old(self).pointer,
            final(self).anchor == if button == PointerButton::Left && old(self).pointer.is_some() {
                None
            } else {
                old(self).anchor
            },
    {
        match (button, self.pointer) {
            (PointerButton::Left, Some(end)) => {
                match self.anchor {
                    Some(start) => {
                        self.anchor = None;
                        let toggled = field.toggle_region(start, end);
                    },
                    None => {
                        field.recompute();
                    },
                }
            },
            (PointerButton::Right, Some(cell)) => {
                if field.contains(cell) {
                    let toggled = field.toggle_target(cell);
                } else {
                    field.recompute();
                }
            },
            _ => {
                field.recompute();
            },
        }
    }
}

} // verus!
