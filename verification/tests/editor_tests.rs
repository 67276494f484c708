use backtrack::board::{Board, Shape};
use backtrack::editor::{BoardEditor, EditorCommand, EditorOutcome};

#[test]
fn test_editor_cycles_through_shapes() {
    let mut editor = BoardEditor::new();
    assert_eq!(editor.shape_to_allocate_index, 0);
    assert_eq!(editor.apply(&EditorCommand::NextShape), EditorOutcome::Editing);
    assert_eq!(editor.shape_to_allocate_index, 1);
    assert_eq!(editor.apply(&EditorCommand::PrevShape), EditorOutcome::Editing);
    assert_eq!(editor.shape_to_allocate_index, 0);
    // wrapping around in both directions
    assert_eq!(editor.apply(&EditorCommand::PrevShape), EditorOutcome::Editing);
    assert_eq!(editor.shape_to_allocate_index, 8);
    assert_eq!(editor.apply(&EditorCommand::NextShape), EditorOutcome::Editing);
    assert_eq!(editor.shape_to_allocate_index, 0);
}

#[test]
fn test_editor_rotates_the_selection() {
    let mut editor = BoardEditor::new();
    assert_eq!(editor.clockwise_rotations, 0);
    editor.apply(&EditorCommand::RotateRight);
    assert_eq!(editor.clockwise_rotations, 1);
    editor.apply(&EditorCommand::RotateLeft);
    editor.apply(&EditorCommand::RotateLeft);
    assert_eq!(editor.clockwise_rotations, 3);
    // the selected shape is rotated accordingly: OneTL turned three times
    // clockwise is OneBL
    assert_eq!(editor.current_shape(), Shape::OneBL);
}

#[test]
fn test_editor_confirms_and_rejects_placements() {
    let mut editor = BoardEditor::new();
    // place the first four shapes on the first four cells
    for expected_cell in 1..=4usize {
        assert_eq!(editor.apply(&EditorCommand::Confirm), EditorOutcome::Editing);
        assert_eq!(editor.board_index, expected_cell);
    }
    // the large edge shape overhangs upward into an occupied cell
    assert_eq!(
        editor.apply(&EditorCommand::Confirm),
        EditorOutcome::InvalidPlacement
    );
    assert_eq!(editor.board_index, 4);
    // turned to hang downward it fits
    editor.apply(&EditorCommand::RotateRight);
    editor.apply(&EditorCommand::RotateRight);
    assert_eq!(editor.current_shape(), Shape::LargeEdgeB);
    assert_eq!(editor.apply(&EditorCommand::Confirm), EditorOutcome::Editing);
    assert_eq!(editor.board_index, 5);
    // the rotation resets after a confirmed placement
    assert_eq!(editor.clockwise_rotations, 0);
    assert_eq!(editor.shapes_to_place.len(), 4);
}

#[test]
fn test_editor_finishes_on_the_last_cell() {
    let mut editor = BoardEditor {
        board: Board::empty_board(),
        shapes_to_place: vec![Shape::Free],
        board_index: 8,
        shape_to_allocate_index: 0,
        clockwise_rotations: 0,
    };
    assert_eq!(editor.apply(&EditorCommand::Confirm), EditorOutcome::Finished);
    assert_eq!(editor.board_index, 9);
    assert!(editor.shapes_to_place.is_empty());
}
