use backtrack::board::{
    drawing_character_for, drawing_points_for, grid_coordinates_of, has_duplicates,
    map_shape_points_to_grid_points, positive_modulo, Board, BoardIndex2d, Direction, MovingTile,
    Point, Shape,
};

#[test]
fn test_has_duplicates() {
    // Test case with duplicates
    let vec_with_duplicates = vec![1, 2, 3, 2, 4];
    assert_eq!(has_duplicates(&vec_with_duplicates), true);

    // Test case without duplicates
    let vec_without_duplicates = vec![1, 2, 3, 4, 5];
    assert_eq!(has_duplicates(&vec_without_duplicates), false);

    // Test case with empty vector
    let empty_vec: Vec<i32> = vec![];
    assert_eq!(has_duplicates(&empty_vec), false);

    // Test case with a struct
    let mut points = vec![Point { x: 1, y: 2 }, Point { x: 3, y: 4 }];
    assert_eq!(has_duplicates(&points), false);
    points.push(points[0].clone());
    assert_eq!(has_duplicates(&points), true);
}

#[test]
fn test_map_shape_points_to_grid_points() {
    let mut board = Board::empty_board();
    let top_left = BoardIndex2d { x: 0, y: 0 };
    let shape = Shape::OneTR;
    board.shapes[top_left.to_index()] = shape.clone();
    let local_points = shape.get_points();

    let moving_top_left_tile = MovingTile {
        board_index: top_left.clone(),
        grid_dx: 0,
        grid_dy: 0,
    };

    assert_eq!(
        map_shape_points_to_grid_points(&shape, &moving_top_left_tile, &top_left),
        local_points
            .iter()
            .map(|point| Point {
                x: point.x + 1,
                y: point.y + 1
            })
            .collect::<Vec<Point>>()
    );

    let center = BoardIndex2d { x: 1, y: 1 };

    assert_eq!(
        map_shape_points_to_grid_points(&shape, &moving_top_left_tile, &center),
        local_points
            .iter()
            .map(|point| Point {
                x: point.x + 3,
                y: point.y + 3
            })
            .collect::<Vec<Point>>()
    );

    // now apply some dx

    let dx = 2;

    let moving_center_tile = MovingTile {
        board_index: center.clone(),
        grid_dx: dx,
        grid_dy: 0,
    };

    // global points move accordingly

    assert_eq!(
        map_shape_points_to_grid_points(&shape, &moving_center_tile, &center),
        local_points
            .iter()
            .map(|point| Point {
                x: point.x + 3 + dx,
                y: point.y + 3
            })
            .collect::<Vec<Point>>()
    );

    // unless the moving tile is a differnt tile, then they stay the same

    assert_eq!(
        map_shape_points_to_grid_points(&shape, &moving_top_left_tile, &center),
        local_points
            .iter()
            .map(|point| Point {
                x: point.x + 3,
                y: point.y + 3
            })
            .collect::<Vec<Point>>()
    );
}

#[test]
fn test_is_collission_free_1() {
    let mut board = Board::empty_board();
    board.shapes[0] = Shape::Ship;
    board.shapes[1] = Shape::Ship;

    assert!(!board.is_collission_free(&MovingTile::no_move()));
}

#[test]
fn test_is_collission_free_2() {
    let mut board = Board::empty_board();
    board.shapes[6] = Shape::Ship;
    board.shapes[7] = Shape::TwoDiagDown;
    println!("{}", board.render());

    assert!(!board.is_collission_free(&MovingTile::no_move()));
}

#[test]
fn test_is_collission_free_3() {
    let mut board = Board::empty_board();
    board.shapes[6] = Shape::Ship;
    board.shapes[1] = Shape::Ship;
    println!("{}", board.render());

    assert!(
        board.is_collission_free(&MovingTile {
            board_index: BoardIndex2d::from_index(1),
            grid_dx: 0,
            grid_dy: 0
        }),
        "before move",
    );
    assert!(
        board.is_collission_free(&MovingTile {
            board_index: BoardIndex2d::from_index(1),
            grid_dx: 0,
            grid_dy: 1
        }),
        "move 1"
    );
    assert!(
        board.is_collission_free(&MovingTile {
            board_index: BoardIndex2d::from_index(1),
            grid_dx: 0,
            grid_dy: 2
        }),
        "move 2"
    );
    assert!(
        !board.is_collission_free(&MovingTile {
            board_index: BoardIndex2d::from_index(1),
            grid_dx: 0,
            grid_dy: 3
        }),
        "move 3 -- now we have a collission"
    );
}

/// A board of single-cell tiles with one free space at the given cell.
fn one_free_board(free_index: usize) -> Board {
    let mut board = Board::empty_board();
    for i in 0..9 {
        board.shapes[i] = if i == free_index { Shape::Free } else { Shape::OneTL };
    }
    board
}

#[test]
fn test_is_valid() {
    // nine free cells: not exactly one free space
    assert!(!Board::empty_board().is_valid());
    // one free space among small tiles that cannot collide
    assert!(one_free_board(4).is_valid());
}

#[test]
fn test_is_won() {
    // the ship in front of the exit with a clear way out
    let mut board = Board::empty_board();
    board.shapes[7] = Shape::Ship;
    assert!(board.is_won());

    // no ship in front of the exit
    assert!(!Board::empty_board().is_won());

    // the way out is blocked from the neighboring cell
    let mut blocked = Board::empty_board();
    blocked.shapes[7] = Shape::Ship;
    blocked.shapes[6] = Shape::LargeEdgeB;
    assert!(!blocked.is_won());
}

#[test]
fn test_find_free_space() {
    let board = one_free_board(3);
    let free = board.find_free_space();
    assert_eq!(free, BoardIndex2d { x: 0, y: 1 });
}

#[test]
fn test_move_free_space_swaps_tiles() {
    let board = one_free_board(4);
    let moved = board.move_free_space(&Direction::Up).expect("the move is legal");
    assert_eq!(moved.shapes[1], Shape::Free);
    assert_eq!(moved.shapes[4], Shape::OneTL);
    // the other cells keep their shapes
    for i in [0usize, 2, 3, 5, 6, 7, 8] {
        assert_eq!(moved.shapes[i], Shape::OneTL);
    }
}

#[test]
fn test_move_free_space_off_board() {
    let board = one_free_board(0);
    assert!(board.move_free_space(&Direction::Up).is_none());
    assert!(board.move_free_space(&Direction::Left).is_none());
    assert!(board.move_free_space(&Direction::Down).is_some());
}

#[test]
fn test_move_free_space_blocked() {
    // The ship above the free space cannot slide down: midway it is fine,
    // but its full move collides with the tile right of the free space.
    let mut board = one_free_board(4);
    board.shapes[1] = Shape::Ship;
    assert!(board.move_free_space(&Direction::Up).is_none());
    // Without the blocking tile the same move goes through.
    let mut open_board = one_free_board(4);
    open_board.shapes[1] = Shape::Ship;
    open_board.shapes[5] = Shape::Free;
    assert!(open_board.move_free_space(&Direction::Up).is_some());
}

#[test]
fn test_neighbor() {
    let corner = BoardIndex2d { x: 0, y: 0 };
    assert_eq!(corner.neighbor(&Direction::Up), None);
    assert_eq!(corner.neighbor(&Direction::Left), None);
    assert_eq!(corner.neighbor(&Direction::Down), Some(BoardIndex2d { x: 0, y: 1 }));
    assert_eq!(corner.neighbor(&Direction::Right), Some(BoardIndex2d { x: 1, y: 0 }));
}

#[test]
fn test_index_round_trip() {
    for i in 0..9 {
        assert_eq!(BoardIndex2d::from_index(i).to_index(), i);
    }
    assert_eq!(BoardIndex2d { x: 2, y: 1 }.to_index(), 5);
}

#[test]
fn test_grid_coordinates() {
    assert_eq!(grid_coordinates_of(&BoardIndex2d { x: 0, y: 0 }), Point { x: 1, y: 1 });
    assert_eq!(grid_coordinates_of(&BoardIndex2d { x: 2, y: 1 }), Point { x: 5, y: 3 });
}

#[test]
fn test_drawing_characters() {
    assert_eq!(drawing_character_for(&Shape::Free), "o");
    assert_eq!(drawing_character_for(&Shape::Ship), "V");
    assert_eq!(drawing_character_for(&Shape::OneBL), "x");
    assert_eq!(drawing_character_for(&Shape::TwoDiagUp), "+");
    assert_eq!(drawing_character_for(&Shape::TwoHorR), "|");
    assert_eq!(drawing_character_for(&Shape::LargeEdgeL), "#");
    assert_eq!(drawing_character_for(&Shape::LargeCornerBR), "%");
}

#[test]
fn test_drawing_points() {
    // the free space paints its whole 2x2 block
    assert_eq!(
        drawing_points_for(&Shape::Free),
        vec![
            Point { x: 0, y: 0 },
            Point { x: 1, y: 0 },
            Point { x: 0, y: 1 },
            Point { x: 1, y: 1 },
        ]
    );
    // every other shape paints exactly the cells it occupies
    assert_eq!(drawing_points_for(&Shape::OneTR), Shape::OneTR.get_points());
}

/// The grid rows as strings, top to bottom.
fn grid_rows(board: &Board) -> Vec<String> {
    let grid = board.drawing_grid();
    (0..8)
        .map(|y| (0..8).map(|x| grid[x + 8 * y]).collect::<String>())
        .collect()
}

#[test]
fn test_drawing_grid_empty_board() {
    let rows = grid_rows(&Board::empty_board());
    assert_eq!(rows[0], "        ");
    for y in 1..7 {
        assert_eq!(rows[y], " oooooo ");
    }
    assert_eq!(rows[7], "        ");
}

#[test]
fn test_drawing_grid_ship_overdrawn_by_later_free_cell() {
    // The last board cell is drawn last, so its free block paints over the
    // ship's right wing.
    let mut board = Board::empty_board();
    board.shapes[7] = Shape::Ship;
    let rows = grid_rows(&board);
    assert_eq!(rows[4], " oooooo ");
    assert_eq!(rows[5], " oVVVoo ");
    assert_eq!(rows[6], " ooVVoo ");
    assert_eq!(rows[7], "        ");
}

#[test]
fn test_render_empty_board() {
    assert_eq!(
        Board::empty_board().render(),
        "+--------+\n\
         |        |\n\
         | oooooo |\n\
         | oooooo |\n\
         | oooooo |\n\
         | oooooo |\n\
         | oooooo |\n\
         | oooooo |\n\
         |        |\n\
         +--------+\n"
    );
}

#[test]
fn test_positive_modulo() {
    assert_eq!(positive_modulo(-1, 4), 3);
    assert_eq!(positive_modulo(5, 4), 1);
    assert_eq!(positive_modulo(-8, 3), 1);
    assert_eq!(positive_modulo(0, 7), 0);
    assert_eq!(positive_modulo(6, 3), 0);
}
