//! A 3x3 sliding-tile board whose tiles carry shaped occupancies on a
//! finer 8x8 grid.  Moving the free space is legal exactly when the
//! displaced tile collides with nothing on the grid, checked both midway
//! and at the final position.

use vstd::prelude::*;

verus! {

use vstd::std_specs::cmp::PartialEqSpec;

/// The occupancy pattern a tile carries, drawn on the 2x2 cell block the
/// tile owns (plus overhang into neighbouring blocks for the large ones).
#[derive(Clone, Debug, Copy, PartialEq, Eq, Structural)]
pub enum Shape {
    Free,
    Ship,
    OneTL,
    OneTR,
    OneBL,
    OneBR,
    TwoDiagDown,
    TwoDiagUp,
    TwoHorT,
    TwoHorL,
    TwoHorB,
    TwoHorR,
    LargeEdgeT,
    LargeEdgeL,
    LargeEdgeB,
    LargeEdgeR,
    LargeCornerTL,
    LargeCornerTR,
    LargeCornerBL,
    LargeCornerBR,
}

impl Shape {
    /// The shape after a quarter turn.  The free space and the ship do not
    /// rotate; every other shape cycles through its four orientations.
    pub open spec fn spec_rotate(self, clockwise: bool) -> Shape {
        match self {
            Shape::Free => Shape::Free,
            Shape::Ship => Shape::Ship,
            Shape::OneTL => if clockwise { Shape::OneTR } else { Shape::OneBL },
            Shape::OneTR => if clockwise { Shape::OneBR } else { Shape::OneTL },
            Shape::OneBL => if clockwise { Shape::OneTL } else { Shape::OneBR },
            Shape::OneBR => if clockwise { Shape::OneBL } else { Shape::OneTR },
            Shape::TwoDiagDown => Shape::TwoDiagUp,
            Shape::TwoDiagUp => Shape::TwoDiagDown,
            Shape::TwoHorT => if clockwise { Shape::TwoHorR } else { Shape::TwoHorL },
            Shape::TwoHorL => if clockwise { Shape::TwoHorT } else { Shape::TwoHorB },
            Shape::TwoHorB => if clockwise { Shape::TwoHorL } else { Shape::TwoHorR },
            Shape::TwoHorR => if clockwise { Shape::TwoHorB } else { Shape::TwoHorT },
            Shape::LargeEdgeT => if clockwise { Shape::LargeEdgeR } else { Shape::LargeEdgeL },
            Shape::LargeEdgeL => if clockwise { Shape::LargeEdgeT } else { Shape::LargeEdgeB },
            Shape::LargeEdgeB => if clockwise { Shape::LargeEdgeL } else { Shape::LargeEdgeR },
            Shape::LargeEdgeR => if clockwise { Shape::LargeEdgeB } else { Shape::LargeEdgeT },
            Shape::LargeCornerTL => if clockwise { Shape::LargeCornerTR } else { Shape::LargeCornerBL },
            Shape::LargeCornerTR => if clockwise { Shape::LargeCornerBR } else { Shape::LargeCornerTL },
            Shape::LargeCornerBL => if clockwise { Shape::LargeCornerTL } else { Shape::LargeCornerBR },
            Shape::LargeCornerBR => if clockwise { Shape::LargeCornerBL } else { Shape::LargeCornerTR },
        }
    }

    /// Rotate the shape by a quarter turn in the given sense.
    pub fn rotate(&self, clockwise: bool) -> (r: Shape)
        ensures
            r == self.spec_rotate(clockwise),
    {
        match self {
            Shape::Free => Shape::Free,
            Shape::Ship => Shape::Ship,
            Shape::OneTL => if clockwise { Shape::OneTR } else { Shape::OneBL },
            Shape::OneTR => if clockwise { Shape::OneBR } else { Shape::OneTL },
            Shape::OneBL => if clockwise { Shape::OneTL } else { Shape::OneBR },
            Shape::OneBR => if clockwise { Shape::OneBL } else { Shape::OneTR },
            Shape::TwoDiagDown => Shape::TwoDiagUp,
            Shape::TwoDiagUp => Shape::TwoDiagDown,
            Shape::TwoHorT => if clockwise { Shape::TwoHorR } else { Shape::TwoHorL },
            Shape::TwoHorL => if clockwise { Shape::TwoHorT } else { Shape::TwoHorB },
            Shape::TwoHorB => if clockwise { Shape::TwoHorL } else { Shape::TwoHorR },
            Shape::TwoHorR => if clockwise { Shape::TwoHorB } else { Shape::TwoHorT },
            Shape::LargeEdgeT => if clockwise { Shape::LargeEdgeR } else { Shape::LargeEdgeL },
            Shape::LargeEdgeL => if clockwise { Shape::LargeEdgeT } else { Shape::LargeEdgeB },
            Shape::LargeEdgeB => if clockwise { Shape::LargeEdgeL } else { Shape::LargeEdgeR },
            Shape::LargeEdgeR => if clockwise { Shape::LargeEdgeB } else { Shape::LargeEdgeT },
            Shape::LargeCornerTL => if clockwise { Shape::LargeCornerTR } else { Shape::LargeCornerBL },
            Shape::LargeCornerTR => if clockwise { Shape::LargeCornerBR } else { Shape::LargeCornerTL },
            Shape::LargeCornerBL => if clockwise { Shape::LargeCornerTL } else { Shape::LargeCornerBR },
            Shape::LargeCornerBR => if clockwise { Shape::LargeCornerBL } else { Shape::LargeCornerTR },
        }
    }
}

/// A quarter turn one way and back returns every shape unchanged.
pub proof fn lemma_rotate_round_trip(s: Shape, clockwise: bool)
    ensures
        s.spec_rotate(clockwise).spec_rotate(!clockwise) == s,
{
}

impl Shape {
    /// The grid cells the shape occupies, relative to the top-left corner
    /// of the 2x2 block of the tile that carries it.  Coordinates run from
    /// -1 to 2: the large shapes overhang their own block by one cell.
    pub open spec fn spec_points(self) -> Seq<Point> {
        match self {
            Shape::Free => seq![],
            Shape::Ship => seq![
                Point { x: 0, y: 0 },
                Point { x: 1, y: 0 },
                Point { x: 0, y: 1 },
                Point { x: 1, y: 1 },
                Point { x: 2, y: 0 },
                Point { x: -1i32, y: 0 },
            ],
            Shape::OneTL => seq![Point { x: 0, y: 0 }],
            Shape::OneTR => seq![Point { x: 1, y: 0 }],
            Shape::OneBL => seq![Point { x: 0, y: 1 }],
            Shape::OneBR => seq![Point { x: 1, y: 1 }],
            Shape::TwoDiagDown => seq![Point { x: 0, y: 0 }, Point { x: 1, y: 1 }],
            Shape::TwoDiagUp => seq![Point { x: 0, y: 1 }, Point { x: 1, y: 0 }],
            Shape::TwoHorT => seq![Point { x: 0, y: 0 }, Point { x: 1, y: 0 }],
            Shape::TwoHorL => seq![Point { x: 0, y: 0 }, Point { x: 0, y: 1 }],
            Shape::TwoHorB => seq![Point { x: 0, y: 1 }, Point { x: 1, y: 1 }],
            Shape::TwoHorR => seq![Point { x: 1, y: 0 }, Point { x: 1, y: 1 }],
            Shape::LargeEdgeT => seq![
                Point { x: 0, y: -1i32 },
                Point { x: 1, y: -1i32 },
                Point { x: 0, y: 0 },
                Point { x: 1, y: 0 },
            ],
            Shape::LargeEdgeL => seq![
                Point { x: -1i32, y: 0 },
                Point { x: 0, y: 0 },
                Point { x: -1i32, y: 1 },
                Point { x: 0, y: 1 },
            ],
            Shape::LargeEdgeB => seq![
                Point { x: 0, y: 1 },
                Point { x: 1, y: 1 },
                Point { x: 0, y: 2 },
                Point { x: 1, y: 2 },
            ],
            Shape::LargeEdgeR => seq![
                Point { x: 1, y: 0 },
                Point { x: 2, y: 0 },
                Point { x: 1, y: 1 },
                Point { x: 2, y: 1 },
            ],
            Shape::LargeCornerTL => seq![
                Point { x: -1i32, y: -1i32 },
                Point { x: 0, y: -1i32 },
                Point { x: -1i32, y: 0 },
                Point { x: 0, y: 0 },
            ],
            Shape::LargeCornerTR => seq![
                Point { x: 1, y: -1i32 },
                Point { x: 2, y: -1i32 },
                Point { x: 1, y: 0 },
                Point { x: 2, y: 0 },
            ],
            Shape::LargeCornerBL => seq![
                Point { x: -1i32, y: 1 },
                Point { x: 0, y: 1 },
                Point { x: -1i32, y: 2 },
                Point { x: 0, y: 2 },
            ],
            Shape::LargeCornerBR => seq![
                Point { x: 1, y: 1 },
                Point { x: 2, y: 1 },
                Point { x: 1, y: 2 },
                Point { x: 2, y: 2 },
            ],
        }
    }

    /// The shape's occupied cells, relative to its own tile block.
    pub fn get_points(&self) -> (r: Vec<Point>)
        ensures
            r@ == self.spec_points(),
            forall|k: int| 0 <= k < r@.len()
                ==> -1 <= (#[trigger] r@[k]).x <= 2 && -1 <= r@[k].y <= 2,
    {
        match self {
            Shape::Free => vec![],
            Shape::Ship => vec![
                Point { x: 0, y: 0 },
                Point { x: 1, y: 0 },
                Point { x: 0, y: 1 },
                Point { x: 1, y: 1 },
                Point { x: 2, y: 0 },
                Point { x: -1i32, y: 0 },
            ],
            Shape::OneTL => vec![Point { x: 0, y: 0 }],
            Shape::OneTR => vec![Point { x: 1, y: 0 }],
            Shape::OneBL => vec![Point { x: 0, y: 1 }],
            Shape::OneBR => vec![Point { x: 1, y: 1 }],
            Shape::TwoDiagDown => vec![Point { x: 0, y: 0 }, Point { x: 1, y: 1 }],
            Shape::TwoDiagUp => vec![Point { x: 0, y: 1 }, Point { x: 1, y: 0 }],
            Shape::TwoHorT => vec![Point { x: 0, y: 0 }, Point { x: 1, y: 0 }],
            Shape::TwoHorL => vec![Point { x: 0, y: 0 }, Point { x: 0, y: 1 }],
            Shape::TwoHorB => vec![Point { x: 0, y: 1 }, Point { x: 1, y: 1 }],
            Shape::TwoHorR => vec![Point { x: 1, y: 0 }, Point { x: 1, y: 1 }],
            Shape::LargeEdgeT => vec![
                Point { x: 0, y: -1i32 },
                Point { x: 1, y: -1i32 },
                Point { x: 0, y: 0 },
                Point { x: 1, y: 0 },
            ],
            Shape::LargeEdgeL => vec![
                Point { x: -1i32, y: 0 },
                Point { x: 0, y: 0 },
                Point { x: -1i32, y: 1 },
                Point { x: 0, y: 1 },
            ],
            Shape::LargeEdgeB => vec![
                Point { x: 0, y: 1 },
                Point { x: 1, y: 1 },
                Point { x: 0, y: 2 },
                Point { x: 1, y: 2 },
            ],
            Shape::LargeEdgeR => vec![
                Point { x: 1, y: 0 },
                Point { x: 2, y: 0 },
                Point { x: 1, y: 1 },
                Point { x: 2, y: 1 },
            ],
            Shape::LargeCornerTL => vec![
                Point { x: -1i32, y: -1i32 },
                Point { x: 0, y: -1i32 },
                Point { x: -1i32, y: 0 },
                Point { x: 0, y: 0 },
            ],
            Shape::LargeCornerTR => vec![
                Point { x: 1, y: -1i32 },
                Point { x: 2, y: -1i32 },
                Point { x: 1, y: 0 },
                Point { x: 2, y: 0 },
            ],
            Shape::LargeCornerBL => vec![
                Point { x: -1i32, y: 1 },
                Point { x: 0, y: 1 },
                Point { x: -1i32, y: 2 },
                Point { x: 0, y: 2 },
            ],
            Shape::LargeCornerBR => vec![
                Point { x: 1, y: 1 },
                Point { x: 2, y: 1 },
                Point { x: 1, y: 2 },
                Point { x: 2, y: 2 },
            ],
        }
    }
}

/// A position on the 8x8 drawing grid (or an offset on it).
#[derive(Debug, Clone, Copy, Hash, Eq)]
pub struct Point {
    pub x: i32,
    pub y: i32,
}

impl PartialEq for Point {
    fn eq(&self, other: &Self) -> (r: bool)
        ensures
            r == (self.x == other.x && self.y == other.y),
    {
        self.x == other.x && self.y == other.y
    }
}

impl vstd::std_specs::cmp::PartialEqSpecImpl for Point {
    open spec fn obeys_eq_spec() -> bool {
        true
    }

    open spec fn eq_spec(&self, other: &Self) -> bool {
        self.x == other.x && self.y == other.y
    }
}

/// Whether a sequence holds the same element twice, element equality taken
/// from the element type's own `==`.
pub open spec fn spec_has_duplicates<T: PartialEq>(s: Seq<T>) -> bool {
    exists|i: int, j: int| 0 <= i < j < s.len() && s[i].eq_spec(&s[j])
}

/// Whether any value occurs twice in the slice.
pub fn has_duplicates<T: core::cmp::Eq + core::hash::Hash>(vec: &[T]) -> (r: bool)
    ensures
        T::obeys_eq_spec() ==> r == spec_has_duplicates(vec@),
{
    let mut i: usize = 0;
    while i < vec.len()
        invariant
            i <= vec@.len(),
            T::obeys_eq_spec() ==> forall|p: int, q: int| 0 <= p < q < i ==> !vec@[p].eq_spec(&vec@[q]),
        decreases vec@.len() - i,
    {
        let mut j: usize = 0;
        while j < i
            invariant
                j <= i < vec@.len(),
                T::obeys_eq_spec() ==> forall|q: int| 0 <= q < j ==> !vec@[q].eq_spec(&vec@[i as int]),
            decreases i - j,
        {
            if vec[j] == vec[i] {
                return true;
            }
            j = j + 1;
        }
        i = i + 1;
    }
    false
}

/// A direction on the board, used both for the free space and for the
/// tile that swaps with it.
#[derive(Clone, Copy, Debug)]
pub enum Direction {
    Up,
    Down,
    Left,
    Right,
}

impl Direction {
    /// The reverse of this direction.
    pub open spec fn spec_opposite(self) -> Direction {
        match self {
            Direction::Up => Direction::Down,
            Direction::Down => Direction::Up,
            Direction::Left => Direction::Right,
            Direction::Right => Direction::Left,
        }
    }

    /// Turn the direction around.
    pub fn opposite(&self) -> (r: Direction)
        ensures
            r == self.spec_opposite(),
    {
        match self {
            Direction::Up => Direction::Down,
            Direction::Down => Direction::Up,
            Direction::Left => Direction::Right,
            Direction::Right => Direction::Left,
        }
    }
}

/// A cell of the 3x3 board of tiles.
#[derive(Debug, Clone, Copy, Hash, Eq)]
pub struct BoardIndex2d {
    pub x: i32,
    pub y: i32,
}

impl PartialEq for BoardIndex2d {
    fn eq(&self, other: &Self) -> (r: bool)
        ensures
            r == (self.x == other.x && self.y == other.y),
    {
        self.x == other.x && self.y == other.y
    }
}

impl vstd::std_specs::cmp::PartialEqSpecImpl for BoardIndex2d {
    open spec fn obeys_eq_spec() -> bool {
        true
    }

    open spec fn eq_spec(&self, other: &Self) -> bool {
        self.x == other.x && self.y == other.y
    }
}

impl BoardIndex2d {
    /// The index lies on the 3x3 board.
    pub open spec fn wf(self) -> bool {
        0 <= self.x < 3 && 0 <= self.y < 3
    }

    /// The position of this cell in the row-major array of shapes.
    pub open spec fn spec_index(self) -> int {
        self.y * 3 + self.x
    }

    /// Index into the row-major array of shapes.
    pub fn to_index(&self) -> (r: usize)
        requires
            self.wf(),
        ensures
            r == self.spec_index(),
            r < 9,
    {
        (self.y * 3 + self.x) as usize
    }

    /// The cell that sits at the given position of the row-major array.
    pub fn from_index(index: usize) -> (r: BoardIndex2d)
        requires
            index < 9,
        ensures
            r.wf(),
            r.spec_index() == index,
            r.x == index as int % 3,
            r.y == index as int / 3,
    {
        BoardIndex2d { x: (index % 3) as i32, y: (index / 3) as i32 }
    }

    /// The cell one step away, with no regard to the board's bounds.
    pub open spec fn spec_step(self, direction: Direction) -> BoardIndex2d {
        match direction {
            Direction::Up => BoardIndex2d { x: self.x, y: (self.y - 1) as i32 },
            Direction::Down => BoardIndex2d { x: self.x, y: (self.y + 1) as i32 },
            Direction::Left => BoardIndex2d { x: (self.x - 1) as i32, y: self.y },
            Direction::Right => BoardIndex2d { x: (self.x + 1) as i32, y: self.y },
        }
    }

    /// Returns the neighbor in the given direction, if it exists.
    pub fn neighbor(&self, direction: &Direction) -> (r: Option<BoardIndex2d>)
        requires
            self.wf(),
        ensures
            self.spec_step(*direction).wf() ==> r == Some(self.spec_step(*direction)),
            !self.spec_step(*direction).wf() ==> r is None,
    {
        let naive_index = match direction {
            Direction::Up => BoardIndex2d { x: self.x, y: self.y - 1 },
            Direction::Down => BoardIndex2d { x: self.x, y: self.y + 1 },
            Direction::Left => BoardIndex2d { x: self.x - 1, y: self.y },
            Direction::Right => BoardIndex2d { x: self.x + 1, y: self.y },
        };
        if naive_index.x < 0 || naive_index.x >= 3 || naive_index.y < 0 || naive_index.y >= 3 {
            None
        } else {
            Some(naive_index)
        }
    }
}

/// Describe how the tile at `board_index` moves on the grid in direction
/// `grid_dx, grid_dy`.
pub struct MovingTile {
    pub board_index: BoardIndex2d,
    pub grid_dx: i32,
    pub grid_dy: i32,
}

impl MovingTile {
    /// The offsets are small enough that shifting any grid point by them
    /// stays within the machine integers.
    pub open spec fn wf(self) -> bool {
        self.grid_dx <= i32::MAX - 7 && self.grid_dy <= i32::MAX - 7
    }

    /// A tile movement that moves nothing.
    pub fn no_move() -> (r: MovingTile)
        ensures
            r.board_index == (BoardIndex2d { x: 0, y: 0 }),
            r.grid_dx == 0,
            r.grid_dy == 0,
            r.wf(),
    {
        MovingTile { board_index: BoardIndex2d { x: 0, y: 0 }, grid_dx: 0, grid_dy: 0 }
    }
}

/// The top-left grid cell of the 2x2 block owned by the given board cell.
pub open spec fn spec_grid_coordinates(board_index: BoardIndex2d) -> Point {
    Point { x: (1 + 2 * board_index.x) as i32, y: (1 + 2 * board_index.y) as i32 }
}

/// Convert to the grid coordinates that are used for drawing and for
/// collision detection.
pub fn grid_coordinates_of(board_index: &BoardIndex2d) -> (r: Point)
    requires
        board_index.wf(),
    ensures
        r == spec_grid_coordinates(*board_index),
        1 <= r.x <= 5 && 1 <= r.y <= 5,
{
    Point { x: 1 + 2 * board_index.x, y: 1 + 2 * board_index.y }
}

/// The grid cells occupied by `shape` sitting on the board cell
/// `board_index`, shifted by the offset of `moving_tile` when that tile is
/// the one at `board_index`.
pub open spec fn spec_grid_points(shape: Shape, moving_tile: MovingTile, board_index: BoardIndex2d) -> Seq<Point> {
    let gc = spec_grid_coordinates(board_index);
    let dx: int = if board_index == moving_tile.board_index { moving_tile.grid_dx as int } else { 0 };
    let dy: int = if board_index == moving_tile.board_index { moving_tile.grid_dy as int } else { 0 };
    shape.spec_points().map_values(
        |p: Point| Point { x: (p.x + gc.x + dx) as i32, y: (p.y + gc.y + dy) as i32 },
    )
}

/// Place the shape's cells onto the grid, applying the movement offset when
/// this board cell is the moving one.
pub fn map_shape_points_to_grid_points(
    shape: &Shape,
    moving_tile: &MovingTile,
    board_index: &BoardIndex2d,
) -> (r: Vec<Point>)
    requires
        board_index.wf(),
        moving_tile.wf(),
    ensures
        r@ == spec_grid_points(*shape, *moving_tile, *board_index),
{
    let dx: i32;
    let dy: i32;
    if *board_index == moving_tile.board_index {
        dx = moving_tile.grid_dx;
        dy = moving_tile.grid_dy;
    } else {
        dx = 0;
        dy = 0;
    }

    let grid_coordinates = grid_coordinates_of(board_index);

    let points = shape.get_points();
    let mut r: Vec<Point> = Vec::new();
    let mut i: usize = 0;
    while i < points.len()
        invariant
            i <= points@.len(),
            points@ == shape.spec_points(),
            forall|k: int| 0 <= k < points@.len()
                ==> -1 <= (#[trigger] points@[k]).x <= 2 && -1 <= points@[k].y <= 2,
            1 <= grid_coordinates.x <= 5 && 1 <= grid_coordinates.y <= 5,
            grid_coordinates == spec_grid_coordinates(*board_index),
            dx <= i32::MAX - 7 && dy <= i32::MAX - 7,
            dx as int == (if *board_index == moving_tile.board_index { moving_tile.grid_dx as int } else { 0 }),
            dy as int == (if *board_index == moving_tile.board_index { moving_tile.grid_dy as int } else { 0 }),
            r@.len() == i,
            forall|k: int| 0 <= k < i
                ==> #[trigger] r@[k] == spec_grid_points(*shape, *moving_tile, *board_index)[k],
        decreases points@.len() - i,
    {
        let p = points[i];
        r.push(Point { x: p.x + grid_coordinates.x + dx, y: p.y + grid_coordinates.y + dy });
        i = i + 1;
    }
    proof {
        assert(r@ =~= spec_grid_points(*shape, *moving_tile, *board_index));
    }
    r
}

/// The 3x3 board: nine shapes in row-major order.  Exactly one of them is
/// expected to be `Shape::Free` on a playable board (see `is_valid`).
pub struct Board {
    pub shapes: [Shape; 9],
}

/// The board cell at the given row-major position.
pub open spec fn spec_cell_of(i: int) -> BoardIndex2d {
    BoardIndex2d { x: (i % 3) as i32, y: (i / 3) as i32 }
}

/// All grid cells occupied by the first `n` board positions, in row-major
/// order, under the movement `moving_tile`.
pub open spec fn spec_occupied_prefix(shapes: Seq<Shape>, moving_tile: MovingTile, n: int) -> Seq<Point>
    decreases n,
{
    if n <= 0 {
        Seq::empty()
    } else {
        spec_occupied_prefix(shapes, moving_tile, n - 1)
            + spec_grid_points(shapes[n - 1], moving_tile, spec_cell_of(n - 1))
    }
}

/// All grid cells occupied by the whole board under the movement
/// `moving_tile`, in row-major board order.
pub open spec fn spec_occupied_points(shapes: Seq<Shape>, moving_tile: MovingTile) -> Seq<Point> {
    spec_occupied_prefix(shapes, moving_tile, 9)
}

/// No grid cell is claimed twice while the board moves as `moving_tile`
/// says.
pub open spec fn spec_collission_free(shapes: Seq<Shape>, moving_tile: MovingTile) -> bool {
    forall|i: int, j: int| 0 <= i < j < spec_occupied_points(shapes, moving_tile).len()
        ==> spec_occupied_points(shapes, moving_tile)[i] != spec_occupied_points(shapes, moving_tile)[j]
}

/// The movement that checks a board at rest.
pub open spec fn spec_no_move() -> MovingTile {
    MovingTile { board_index: BoardIndex2d { x: 0, y: 0 }, grid_dx: 0, grid_dy: 0 }
}

/// How many of the shapes are the free space.
pub open spec fn spec_count_free(s: Seq<Shape>) -> int
    decreases s.len(),
{
    if s.len() == 0 {
        0
    } else {
        spec_count_free(s.drop_last()) + (if s.last() == Shape::Free { 1int } else { 0int })
    }
}

/// Whether some cell of the board holds the free space.
pub open spec fn spec_has_free(s: Seq<Shape>) -> bool {
    exists|i: int| 0 <= i < s.len() && s[i] == Shape::Free
}

/// The row-major position of the first free cell.
pub open spec fn spec_first_free(s: Seq<Shape>) -> int
    decreases s.len(),
{
    if s.len() == 0 {
        0
    } else if s[0] == Shape::Free {
        0
    } else {
        1 + spec_first_free(s.drop_first())
    }
}

proof fn lemma_first_free(s: Seq<Shape>, i: int)
    requires
        0 <= i < s.len(),
        s[i] == Shape::Free,
        forall|k: int| 0 <= k < i ==> s[k] != Shape::Free,
    ensures
        spec_first_free(s) == i,
    decreases i,
{
    if i > 0 {
        lemma_first_free(s.drop_first(), i - 1);
    }
}

/// A playable board has exactly one free cell and no colliding shapes at
/// rest.
pub open spec fn spec_is_valid(b: Board) -> bool {
    spec_count_free(b.shapes@) == 1 && spec_collission_free(b.shapes@, spec_no_move())
}

/// The movement of the ship leaving the board through the bottom exit.
pub open spec fn spec_leave_board() -> MovingTile {
    MovingTile { board_index: BoardIndex2d { x: 1, y: 2 }, grid_dx: 0, grid_dy: 1 }
}

/// The board is won when the ship sits in front of the exit and can slide
/// out of it without collision.
pub open spec fn spec_is_won(b: Board) -> bool {
    b.shapes@[7] == Shape::Ship && spec_collission_free(b.shapes@, spec_leave_board())
}

/// How far the displaced tile travels, per step, when the free space moves
/// in the given direction's opposite.
pub open spec fn spec_tile_delta(tile_direction: Direction) -> (i32, i32) {
    match tile_direction {
        Direction::Up => (0i32, -1i32),
        Direction::Down => (0i32, 1i32),
        Direction::Left => (-1i32, 0i32),
        Direction::Right => (1i32, 0i32),
    }
}

impl Board {
    /// A board of nine free cells.
    pub fn empty_board() -> (r: Board)
        ensures
            forall|i: int| 0 <= i < 9 ==> r.shapes@[i] == Shape::Free,
    {
        Board {
            shapes: [
                Shape::Free,
                Shape::Free,
                Shape::Free,
                Shape::Free,
                Shape::Free,
                Shape::Free,
                Shape::Free,
                Shape::Free,
                Shape::Free,
            ],
        }
    }

    /// A copy of the board with `shape` placed at `board_index`.
    pub fn set_shape(&self, board_index: &BoardIndex2d, shape: &Shape) -> (r: Board)
        requires
            board_index.wf(),
        ensures
            r.shapes@ =~= self.shapes@.update(board_index.spec_index(), *shape),
    {
        let mut new_shapes = self.shapes;
        new_shapes[board_index.to_index()] = *shape;
        Board { shapes: new_shapes }
    }

    /// Check if the constellation on the board is collission free given the
    /// move indicated by `moving_tile`.  The `moving_tile` allows to specify
    /// a direction in grid coordinates, hence it is possible to check a
    /// collission for an intermediate state, i.e. _during_ movement.
    /// Note: the moving tile pertains the actual tile, not the free space.
    pub fn is_collission_free(&self, moving_tile: &MovingTile) -> (r: bool)
        requires
            moving_tile.wf(),
        ensures
            r == spec_collission_free(self.shapes@, *moving_tile),
    {
        let mut occupied_points: Vec<Point> = Vec::new();
        let mut i: usize = 0;
        while i < 9
            invariant
                i <= 9,
                moving_tile.wf(),
                occupied_points@ == spec_occupied_prefix(self.shapes@, *moving_tile, i as int),
            decreases 9 - i,
        {
            let board_index = BoardIndex2d::from_index(i);
            let shape = self.shapes[i];
            let mut pts = map_shape_points_to_grid_points(&shape, moving_tile, &board_index);
            proof {
                assert(board_index == spec_cell_of(i as int));
            }
            occupied_points.append(&mut pts);
            i = i + 1;
        }
        let dup = has_duplicates(occupied_points.as_slice());
        proof {
            let s = spec_occupied_points(self.shapes@, *moving_tile);
            if spec_has_duplicates(s) {
                let (i, j): (int, int) = choose|i: int, j: int|
                    0 <= i < j < s.len() && s[i].eq_spec(&s[j]);
                assert(s[i] == s[j]);
            }
            if !spec_collission_free(self.shapes@, *moving_tile) {
                let (i, j): (int, int) = choose|i: int, j: int|
                    0 <= i < j < s.len() && s[i] == s[j];
                assert(s[i].eq_spec(&s[j]));
            }
        }
        !dup
    }

    /// The board has exactly one free space and no collisions at rest.
    pub fn is_valid(&self) -> (r: bool)
        ensures
            r == spec_is_valid(*self),
    {
        let mut free_count: usize = 0;
        let mut i: usize = 0;
        while i < 9
            invariant
                i <= 9,
                free_count == spec_count_free(self.shapes@.take(i as int)),
                free_count <= i,
            decreases 9 - i,
        {
            if self.shapes[i] == Shape::Free {
                free_count = free_count + 1;
            }
            proof {
                assert(self.shapes@.take(i + 1).drop_last() =~= self.shapes@.take(i as int));
                assert(self.shapes@.take(i + 1).last() == self.shapes@[i as int]);
            }
            i = i + 1;
        }
        proof {
            assert(self.shapes@.take(9) =~= self.shapes@);
        }
        free_count == 1 && self.is_collission_free(&MovingTile::no_move())
    }

    /// The ship sits in front of the exit and can slide out.
    pub fn is_won(&self) -> (r: bool)
        ensures
            r == spec_is_won(*self),
    {
        let in_front_of_exit = BoardIndex2d { x: 1, y: 2 };
        if self.shapes[in_front_of_exit.to_index()] != Shape::Ship {
            false
        } else {
            let leave_board = MovingTile {
                board_index: in_front_of_exit,
                grid_dx: 0,
                grid_dy: 1,
            };
            self.is_collission_free(&leave_board)
        }
    }

    /// The first board cell that holds the free space.
    pub fn find_free_space(&self) -> (r: BoardIndex2d)
        requires
            spec_has_free(self.shapes@),
        ensures
            r.wf(),
            r == spec_cell_of(spec_first_free(self.shapes@)),
            self.shapes@[r.spec_index()] == Shape::Free,
            forall|k: int| 0 <= k < r.spec_index() ==> self.shapes@[k] != Shape::Free,
    {
        let mut i: usize = 0;
        while i < 9
            invariant
                i <= 9,
                forall|k: int| 0 <= k < i ==> self.shapes@[k] != Shape::Free,
            decreases 9 - i,
        {
            if self.shapes[i] == Shape::Free {
                proof {
                    lemma_first_free(self.shapes@, i as int);
                }
                return BoardIndex2d::from_index(i);
            }
            i = i + 1;
        }
        proof {
            let k = choose|k: int| 0 <= k < self.shapes@.len() && self.shapes@[k] == Shape::Free;
            assert(false);
        }
        BoardIndex2d { x: 0, y: 0 }
    }

    /// Move the free space in the given direction iff it is possible (i.e.
    /// a valid move): the displaced neighbor tile must collide with nothing
    /// midway and at its final position.
    pub fn move_free_space(&self, space_moves_in_direction: &Direction) -> (r: Option<Board>)
        requires
            spec_has_free(self.shapes@),
        ensures
            ({
                let free = spec_cell_of(spec_first_free(self.shapes@));
                let nb = free.spec_step(*space_moves_in_direction);
                let delta = spec_tile_delta(space_moves_in_direction.spec_opposite());
                let m1 = MovingTile { board_index: nb, grid_dx: delta.0, grid_dy: delta.1 };
                let m2 = MovingTile {
                    board_index: nb,
                    grid_dx: (2 * delta.0) as i32,
                    grid_dy: (2 * delta.1) as i32,
                };
                if !nb.wf() {
                    r is None
                } else if spec_collission_free(self.shapes@, m1) && spec_collission_free(self.shapes@, m2) {
                    r matches Some(b) && b.shapes@ =~= self.shapes@.update(
                        free.spec_index(),
                        self.shapes@[nb.spec_index()],
                    ).update(nb.spec_index(), Shape::Free)
                } else {
                    r is None
                }
            }),
    {
        let free_space_position = self.find_free_space();
        if let Some(neighbor_position) = free_space_position.neighbor(space_moves_in_direction) {
            let neighbor_moves_in_direction = space_moves_in_direction.opposite();
            let (dx, dy): (i32, i32) = match neighbor_moves_in_direction {
                Direction::Up => (0, -1),
                Direction::Down => (0, 1),
                Direction::Left => (-1, 0),
                Direction::Right => (1, 0),
            };
            let move_midway = MovingTile { board_index: neighbor_position, grid_dx: dx, grid_dy: dy };
            let move_full = MovingTile {
                board_index: neighbor_position,
                grid_dx: 2 * dx,
                grid_dy: 2 * dy,
            };
            if self.is_collission_free(&move_midway) && self.is_collission_free(&move_full) {
                let mut new_shapes = self.shapes;
                let free_space_index = free_space_position.to_index();
                let neighbor_index = neighbor_position.to_index();
                let tmp = new_shapes[free_space_index];
                new_shapes[free_space_index] = new_shapes[neighbor_index];
                new_shapes[neighbor_index] = tmp;
                Some(Board { shapes: new_shapes })
            } else {
                None
            }
        } else {
            None
        }
    }
}

/// The character that draws one occupied cell of the given shape.
pub open spec fn spec_drawing_character(shape: Shape) -> Seq<char> {
    match shape {
        Shape::Free => "o"@,
        Shape::Ship => "V"@,
        Shape::OneTL | Shape::OneTR | Shape::OneBL | Shape::OneBR => "x"@,
        Shape::TwoDiagDown | Shape::TwoDiagUp => "+"@,
        Shape::TwoHorT | Shape::TwoHorL | Shape::TwoHorB | Shape::TwoHorR => "|"@,
        Shape::LargeEdgeL | Shape::LargeEdgeR | Shape::LargeEdgeT | Shape::LargeEdgeB => "#"@,
        Shape::LargeCornerBL
        | Shape::LargeCornerBR
        | Shape::LargeCornerTL
        | Shape::LargeCornerTR => "%"@,
    }
}

/// The character that draws one occupied cell of the given shape.
pub fn drawing_character_for(shape: &Shape) -> (r: &'static str)
    ensures
        r@ == spec_drawing_character(*shape),
{
    match shape {
        Shape::Free => "o",
        Shape::Ship => "V",
        Shape::OneTL | Shape::OneTR | Shape::OneBL | Shape::OneBR => "x",
        Shape::TwoDiagDown | Shape::TwoDiagUp => "+",
        Shape::TwoHorT | Shape::TwoHorL | Shape::TwoHorB | Shape::TwoHorR => "|",
        Shape::LargeEdgeL | Shape::LargeEdgeR | Shape::LargeEdgeT | Shape::LargeEdgeB => "#",
        Shape::LargeCornerBL
        | Shape::LargeCornerBR
        | Shape::LargeCornerTL
        | Shape::LargeCornerTR => "%",
    }
}

/// The cells a shape paints when drawn: the free space paints its whole
/// block, every other shape paints the cells it occupies.
pub open spec fn spec_drawing_points(shape: Shape) -> Seq<Point> {
    match shape {
        Shape::Free => seq![
            Point { x: 0, y: 0 },
            Point { x: 1, y: 0 },
            Point { x: 0, y: 1 },
            Point { x: 1, y: 1 },
        ],
        _ => shape.spec_points(),
    }
}

/// The cells a shape paints when drawn.
pub fn drawing_points_for(shape: &Shape) -> (r: Vec<Point>)
    ensures
        r@ == spec_drawing_points(*shape),
        forall|k: int| 0 <= k < r@.len()
            ==> -1 <= (#[trigger] r@[k]).x <= 2 && -1 <= r@[k].y <= 2,
{
    match shape {
        Shape::Free => vec![
            Point { x: 0, y: 0 },
            Point { x: 1, y: 0 },
            Point { x: 0, y: 1 },
            Point { x: 1, y: 1 },
        ],
        _ => shape.get_points(),
    }
}

/// The grid cells painted by the given shape sitting on board cell `k`,
/// in drawing order.
pub open spec fn spec_drawn_points(shape: Shape, k: int) -> Seq<Point> {
    spec_drawing_points(shape).map_values(
        |p: Point| Point {
            x: (p.x + 1 + 2 * (k % 3)) as i32,
            y: (p.y + 1 + 2 * (k / 3)) as i32,
        },
    )
}

/// The character shown at grid cell `p` after the first `n` board cells
/// have been drawn, in row-major order; a later cell paints over an
/// earlier one, and an untouched cell shows a blank.
pub open spec fn spec_painted(shapes: Seq<Shape>, n: int, p: Point) -> Seq<char>
    decreases n,
{
    if n <= 0 {
        " "@
    } else if spec_drawn_points(shapes[n - 1], n - 1).contains(p) {
        spec_drawing_character(shapes[n - 1])
    } else {
        spec_painted(shapes, n - 1, p)
    }
}

impl Board {
    /// The 8x8 character grid that draws the board, row by row: the cell
    /// at `(x, y)` sits at index `x + 8 * y`.
    pub fn drawing_grid(&self) -> (r: Vec<&'static str>)
        ensures
            r@.len() == 64,
            forall|x: int, y: int|
                0 <= x < 8 && 0 <= y < 8 ==> (#[trigger] r@[x + 8 * y])@ == spec_painted(
                    self.shapes@,
                    9,
                    Point { x: x as i32, y: y as i32 },
                ),
    {
        let mut screen_buffer: Vec<&'static str> = vec![" "; 64];
        let mut k: usize = 0;
        while k < 9
            invariant
                k <= 9,
                screen_buffer@.len() == 64,
                forall|x: int, y: int|
                    0 <= x < 8 && 0 <= y < 8 ==> (#[trigger] screen_buffer@[x + 8 * y])@
                        == spec_painted(self.shapes@, k as int, Point { x: x as i32, y: y as i32 }),
            decreases 9 - k,
        {
            let board_index = BoardIndex2d::from_index(k);
            let shape = self.shapes[k];
            let points = drawing_points_for(&shape);
            let character = drawing_character_for(&shape);
            let ghost at_rest = screen_buffer@;
            let mut j: usize = 0;
            while j < points.len()
                invariant
                    j <= points@.len(),
                    k < 9,
                    points@ == spec_drawing_points(shape),
                    forall|t: int| 0 <= t < points@.len()
                        ==> -1 <= (#[trigger] points@[t]).x <= 2 && -1 <= points@[t].y <= 2,
                    shape == self.shapes@[k as int],
                    board_index == spec_cell_of(k as int),
                    board_index.wf(),
                    character@ == spec_drawing_character(shape),
                    screen_buffer@.len() == 64,
                    forall|x: int, y: int|
                        0 <= x < 8 && 0 <= y < 8 ==> {
                            let p = Point { x: x as i32, y: y as i32 };
                            if exists|t: int|
                                0 <= t < j && #[trigger] spec_drawn_points(shape, k as int)[t]
                                    == p {
                                (#[trigger] screen_buffer@[x + 8 * y])@
                                    == spec_drawing_character(shape)
                            } else {
                                screen_buffer@[x + 8 * y]@ == spec_painted(
                                    self.shapes@,
                                    k as int,
                                    p,
                                )
                            }
                        },
                decreases points@.len() - j,
            {
                let p = points[j];
                let px = p.x + 1 + 2 * board_index.x;
                let py = p.y + 1 + 2 * board_index.y;
                proof {
                    assert(spec_drawn_points(shape, k as int)[j as int] == (Point {
                        x: px,
                        y: py,
                    }));
                }
                let index = (px + 8 * py) as usize;
                screen_buffer[index] = character;
                j = j + 1;
            }
            proof {
                assert forall|x: int, y: int| 0 <= x < 8 && 0 <= y < 8 implies (
                    #[trigger] screen_buffer@[x + 8 * y])@ == spec_painted(
                    self.shapes@,
                    k + 1,
                    Point { x: x as i32, y: y as i32 },
                ) by {
                    let p = Point { x: x as i32, y: y as i32 };
                    if spec_drawn_points(shape, k as int).contains(p) {
                        let t = choose|t: int|
                            0 <= t < spec_drawn_points(shape, k as int).len()
                                && spec_drawn_points(shape, k as int)[t] == p;
                        assert(exists|t: int|
                            0 <= t < points@.len() && #[trigger] spec_drawn_points(
                                shape,
                                k as int,
                            )[t] == p);
                    }
                }
            }
            k = k + 1;
        }
        screen_buffer
    }
}

/// The characters of one drawn row up to column `x`, leftmost first.
pub open spec fn spec_row_cells(shapes: Seq<Shape>, y: int, x: int) -> Seq<char>
    decreases x,
{
    if x <= 0 {
        Seq::empty()
    } else {
        spec_row_cells(shapes, y, x - 1) + spec_painted(
            shapes,
            9,
            Point { x: (x - 1) as i32, y: y as i32 },
        )
    }
}

/// One drawn row of the board, framed by bars.
pub open spec fn spec_row(shapes: Seq<Shape>, y: int) -> Seq<char> {
    "|"@ + spec_row_cells(shapes, y, 8) + "|\n"@
}

/// The drawn rows up to row `y`, topmost first.
pub open spec fn spec_rows(shapes: Seq<Shape>, y: int) -> Seq<char>
    decreases y,
{
    if y <= 0 {
        Seq::empty()
    } else {
        spec_rows(shapes, y - 1) + spec_row(shapes, y - 1)
    }
}

/// The whole text picture of the board: the eight drawn rows between a
/// top and a bottom frame line.
pub open spec fn spec_rendered(shapes: Seq<Shape>) -> Seq<char> {
    "+--------+\n"@ + spec_rows(shapes, 8) + "+--------+\n"@
}

impl Board {
    /// The board drawn as text: the 8x8 character grid in a frame.
    pub fn render(&self) -> (r: String)
        ensures
            r@ == spec_rendered(self.shapes@),
    {
        let grid = self.drawing_grid();
        let mut out: String = "+--------+\n".to_owned();
        let mut y: usize = 0;
        while y < 8
            invariant
                y <= 8,
                grid@.len() == 64,
                forall|cx: int, cy: int|
                    0 <= cx < 8 && 0 <= cy < 8 ==> (#[trigger] grid@[cx + 8 * cy])@
                        == spec_painted(self.shapes@, 9, Point { x: cx as i32, y: cy as i32 }),
                out@ == "+--------+\n"@ + spec_rows(self.shapes@, y as int),
            decreases 8 - y,
        {
            out.append("|");
            let mut x: usize = 0;
            while x < 8
                invariant
                    x <= 8,
                    y < 8,
                    grid@.len() == 64,
                    forall|cx: int, cy: int|
                        0 <= cx < 8 && 0 <= cy < 8 ==> (#[trigger] grid@[cx + 8 * cy])@
                            == spec_painted(
                            self.shapes@,
                            9,
                            Point { x: cx as i32, y: cy as i32 },
                        ),
                    out@ == "+--------+\n"@ + spec_rows(self.shapes@, y as int) + "|"@
                        + spec_row_cells(self.shapes@, y as int, x as int),
                decreases 8 - x,
            {
                out.append(grid[x + 8 * y]);
                proof {
                    assert(out@ =~= "+--------+\n"@ + spec_rows(self.shapes@, y as int) + "|"@
                        + spec_row_cells(self.shapes@, y as int, x + 1));
                }
                x = x + 1;
            }
            out.append("|\n");
            proof {
                assert(out@ =~= "+--------+\n"@ + spec_rows(self.shapes@, y as int) + spec_row(
                    self.shapes@,
                    y as int,
                ));
                assert(out@ =~= "+--------+\n"@ + spec_rows(self.shapes@, y + 1));
            }
            y = y + 1;
        }
        out.append("+--------+\n");
        proof {
            assert(out@ =~= spec_rendered(self.shapes@));
        }
        out
    }
}

/// Return the ``modulo`` of ``value`` and make sure that it is always
/// positive.  The bound on `modulo` keeps the intermediate sum inside
/// `i32`.
pub fn positive_modulo(value: i32, modulo: i32) -> (r: i32)
    requires
        0 < modulo <= 0x4000_0000,
    ensures
        r == value as int % modulo as int,
{
    let rem = value % modulo;
    proof {
        let v = value as int;
        let m = modulo as int;
        assert(-modulo < rem < modulo);
        assert(value >= 0 ==> rem == v % m);
        assert(value < 0 ==> rem == -((-v) % m));
        vstd::arithmetic::div_mod::lemma_mod_bound(v, m);
        vstd::arithmetic::div_mod::lemma_mod_bound(-v, m);
        vstd::arithmetic::div_mod::lemma_mod_add_multiples_vanish(rem as int, m);
        vstd::arithmetic::div_mod::lemma_mod_self_0(m);
        vstd::arithmetic::div_mod::lemma_small_mod(0nat, m as nat);
        if value >= 0 {
            vstd::arithmetic::div_mod::lemma_small_mod(rem as nat, m as nat);
            assert((rem + m) % m == v % m);
        } else {
            // The sum of the remainders of v and -v is either 0 or m.
            vstd::arithmetic::div_mod::lemma_add_mod_noop(v, -v, m);
            let s = v % m + (-v) % m;
            assert(s % m == 0);
            assert(0 <= s < 2 * m);
            assert(s == 0 || s == m) by {
                if 0 < s < m {
                    vstd::arithmetic::div_mod::lemma_small_mod(s as nat, m as nat);
                } else if m < s {
                    vstd::arithmetic::div_mod::lemma_mod_add_multiples_vanish(s - m, m);
                    vstd::arithmetic::div_mod::lemma_small_mod((s - m) as nat, m as nat);
                }
            }
            if rem == 0 {
                assert((-v) % m == 0);
                assert(v % m == 0) by {
                    vstd::arithmetic::div_mod::lemma_small_mod((v % m) as nat, m as nat);
                }
                assert((rem + m) % m == 0);
            } else {
                assert(v % m == m - ((-v) % m));
                vstd::arithmetic::div_mod::lemma_small_mod((rem + m) as nat, m as nat);
                assert((rem + m) % m == v % m);
            }
        }
    }
    (rem + modulo) % modulo
}

} // verus!
