//! The decision logic of the interactive board editor: a user places nine
//! shapes one board cell after another, cycling through the remaining
//! shapes, rotating the chosen one, and confirming each placement.  The
//! editor is a state machine; the surrounding console loop only maps key
//! strokes to commands and draws the preview.

use vstd::prelude::*;

verus! {

use crate::board::Board;
use crate::board::BoardIndex2d;
use crate::board::MovingTile;
use crate::board::Shape;
use crate::board::positive_modulo;
use crate::board::spec_cell_of;
use crate::board::spec_collission_free;
use crate::board::spec_no_move;

/// One user decision while editing the board.
#[derive(Clone, Copy, Debug, PartialEq, Eq, Structural)]
pub enum EditorCommand {
    /// Select the next shape of the remaining ones, wrapping around.
    NextShape,
    /// Select the previous shape of the remaining ones, wrapping around.
    PrevShape,
    /// Turn the selected shape a quarter turn counter-clockwise.
    RotateLeft,
    /// Turn the selected shape a quarter turn clockwise.
    RotateRight,
    /// Fix the selected shape on the current cell and move to the next.
    Confirm,
}

/// What a command did to the editor.
#[derive(Clone, Copy, Debug, PartialEq, Eq, Structural)]
pub enum EditorOutcome {
    /// The editor is still open on some cell.
    Editing,
    /// The placement collides with earlier shapes and was not taken.
    InvalidPlacement,
    /// All nine cells are filled; the board is complete.
    Finished,
}

/// The shape turned clockwise `n` quarter turns.
pub open spec fn spec_rotate_n(shape: Shape, n: int) -> Shape
    decreases n,
{
    if n <= 0 {
        shape
    } else {
        spec_rotate_n(shape, n - 1).spec_rotate(true)
    }
}

/// The placement editor: the board built so far, the shapes still to
/// place, and the current selection.
pub struct BoardEditor {
    /// The confirmed placements; cells at and after `board_index` are
    /// still free.
    pub board: Board,
    /// The shapes not yet placed.
    pub shapes_to_place: Vec<Shape>,
    /// The row-major board cell being edited next.
    pub board_index: usize,
    /// Which of the remaining shapes is selected.
    pub shape_to_allocate_index: usize,
    /// How often the selected shape was turned clockwise.
    pub clockwise_rotations: i32,
}

impl BoardEditor {
    /// The editor's internal consistency: one shape left per free cell,
    /// the selection within range, the rotation a quarter-turn count.
    pub open spec fn wf(self) -> bool {
        &&& self.board_index <= 9
        &&& self.shapes_to_place@.len() == 9 - self.board_index
        &&& self.board_index < 9 ==> self.shape_to_allocate_index
            < self.shapes_to_place@.len()
        &&& self.board_index == 9 ==> self.shape_to_allocate_index == 0
        &&& 0 <= self.clockwise_rotations < 4
    }

    /// Whether every cell has been confirmed.
    pub open spec fn spec_done(self) -> bool {
        self.board_index == 9
    }

    /// A fresh editor on an empty board, with the game's nine shapes to
    /// place.
    pub fn new() -> (r: BoardEditor)
        ensures
            r.wf(),
            !r.spec_done(),
            r.board_index == 0,
            r.shape_to_allocate_index == 0,
            r.clockwise_rotations == 0,
            forall|i: int| 0 <= i < 9 ==> r.board.shapes@[i] == Shape::Free,
            r.shapes_to_place@ =~= seq![
                Shape::OneTL,
                Shape::TwoDiagUp,
                Shape::TwoHorT,
                Shape::OneTL,
                Shape::LargeEdgeT,
                Shape::LargeCornerTL,
                Shape::OneTL,
                Shape::Ship,
                Shape::Free,
            ],
    {
        let shapes_to_place = vec![
            Shape::OneTL,
            Shape::TwoDiagUp,
            Shape::TwoHorT,
            Shape::OneTL,
            Shape::LargeEdgeT,
            Shape::LargeCornerTL,
            Shape::OneTL,
            Shape::Ship,
            Shape::Free,
        ];
        BoardEditor {
            board: Board::empty_board(),
            shapes_to_place,
            board_index: 0,
            shape_to_allocate_index: 0,
            clockwise_rotations: 0,
        }
    }

    /// The selected shape in its current orientation.
    pub fn current_shape(&self) -> (r: Shape)
        requires
            self.wf(),
            !self.spec_done(),
        ensures
            r == spec_rotate_n(
                self.shapes_to_place@[self.shape_to_allocate_index as int],
                self.clockwise_rotations as int,
            ),
    {
        let mut shape = self.shapes_to_place[self.shape_to_allocate_index];
        let mut turns: i32 = 0;
        while turns < self.clockwise_rotations
            invariant
                0 <= turns <= self.clockwise_rotations < 4,
                shape == spec_rotate_n(
                    self.shapes_to_place@[self.shape_to_allocate_index as int],
                    turns as int,
                ),
            decreases self.clockwise_rotations - turns,
        {
            shape = shape.rotate(true);
            turns = turns + 1;
        }
        shape
    }

    /// The board as it would look with the selected shape on the current
    /// cell.
    pub fn preview_board(&self) -> (r: Board)
        requires
            self.wf(),
            !self.spec_done(),
        ensures
            r.shapes@ =~= self.board.shapes@.update(
                spec_cell_of(self.board_index as int).spec_index(),
                spec_rotate_n(
                    self.shapes_to_place@[self.shape_to_allocate_index as int],
                    self.clockwise_rotations as int,
                ),
            ),
    {
        let cell = BoardIndex2d::from_index(self.board_index);
        let shape = self.current_shape();
        self.board.set_shape(&cell, &shape)
    }

    /// Apply one command, as the editor's loop does for one key stroke:
    /// cycle or turn the selection, or confirm the placement when it
    /// collides with nothing.
    pub fn apply(&mut self, command: &EditorCommand) -> (r: EditorOutcome)
        requires
            old(self).wf(),
            !old(self).spec_done(),
        ensures
            final(self).wf(),
            ({
                let s0 = *old(self);
                let s1 = *final(self);
                let len = s0.shapes_to_place@.len() as int;
                match *command {
                    EditorCommand::NextShape => {
                        &&& s1.board == s0.board
                        &&& s1.shapes_to_place@ == s0.shapes_to_place@
                        &&& s1.board_index == s0.board_index
                        &&& s1.clockwise_rotations == s0.clockwise_rotations
                        &&& s1.shape_to_allocate_index as int == (
                            if s0.shape_to_allocate_index + 1 < len {
                                s0.shape_to_allocate_index + 1
                            } else {
                                0
                            })
                        &&& r == EditorOutcome::Editing
                    },
                    EditorCommand::PrevShape => {
                        &&& s1.board == s0.board
                        &&& s1.shapes_to_place@ == s0.shapes_to_place@
                        &&& s1.board_index == s0.board_index
                        &&& s1.clockwise_rotations == s0.clockwise_rotations
                        &&& s1.shape_to_allocate_index as int == (
                            if s0.shape_to_allocate_index == 0 {
                                len - 1
                            } else {
                                s0.shape_to_allocate_index - 1
                            })
                        &&& r == EditorOutcome::Editing
                    },
                    EditorCommand::RotateLeft => {
                        &&& s1.board == s0.board
                        &&& s1.shapes_to_place@ == s0.shapes_to_place@
                        &&& s1.board_index == s0.board_index
                        &&& s1.shape_to_allocate_index == s0.shape_to_allocate_index
                        &&& s1.clockwise_rotations as int == (s0.clockwise_rotations - 1) % 4
                        &&& r == EditorOutcome::Editing
                    },
                    EditorCommand::RotateRight => {
                        &&& s1.board == s0.board
                        &&& s1.shapes_to_place@ == s0.shapes_to_place@
                        &&& s1.board_index == s0.board_index
                        &&& s1.shape_to_allocate_index == s0.shape_to_allocate_index
                        &&& s1.clockwise_rotations as int == (s0.clockwise_rotations + 1) % 4
                        &&& r == EditorOutcome::Editing
                    },
                    EditorCommand::Confirm => {
                        let placed = s0.board.shapes@.update(
                            spec_cell_of(s0.board_index as int).spec_index(),
                            spec_rotate_n(
                                s0.shapes_to_place@[s0.shape_to_allocate_index as int],
                                s0.clockwise_rotations as int,
                            ),
                        );
                        if spec_collission_free(placed, spec_no_move()) {
                            &&& s1.board.shapes@ == placed
                            &&& s1.shapes_to_place@ == s0.shapes_to_place@.remove(
                                s0.shape_to_allocate_index as int,
                            )
                            &&& s1.board_index == s0.board_index + 1
                            &&& s1.shape_to_allocate_index == 0
                            &&& s1.clockwise_rotations == 0
                            &&& r == (if s1.board_index == 9 {
                                EditorOutcome::Finished
                            } else {
                                EditorOutcome::Editing
                            })
                        } else {
                            &&& s1 == s0
                            &&& r == EditorOutcome::InvalidPlacement
                        }
                    },
                }
            }),
    {
        match command {
            EditorCommand::NextShape => {
                self.shape_to_allocate_index = self.shape_to_allocate_index + 1;
                if self.shape_to_allocate_index >= self.shapes_to_place.len() {
                    self.shape_to_allocate_index = 0;
                }
                EditorOutcome::Editing
            },
            EditorCommand::PrevShape => {
                if self.shape_to_allocate_index == 0 {
                    self.shape_to_allocate_index = self.shapes_to_place.len() - 1;
                } else {
                    self.shape_to_allocate_index = self.shape_to_allocate_index - 1;
                }
                EditorOutcome::Editing
            },
            EditorCommand::RotateLeft => {
                self.clockwise_rotations = positive_modulo(self.clockwise_rotations - 1, 4);
                EditorOutcome::Editing
            },
            EditorCommand::RotateRight => {
                self.clockwise_rotations = positive_modulo(self.clockwise_rotations + 1, 4);
                EditorOutcome::Editing
            },
            EditorCommand::Confirm => {
                let preview = self.preview_board();
                if !preview.is_collission_free(&MovingTile::no_move()) {
                    EditorOutcome::InvalidPlacement
                } else {
                    self.board = preview;
                    self.clockwise_rotations = 0;
                    self.shapes_to_place.remove(self.shape_to_allocate_index);
                    self.shape_to_allocate_index = 0;
                    self.board_index = self.board_index + 1;
                    if self.board_index >= 9 {
                        EditorOutcome::Finished
                    } else {
                        EditorOutcome::Editing
                    }
                }
            },
        }
    }
}

} // verus!
