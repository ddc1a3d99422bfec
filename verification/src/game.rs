//! The tetromino model, movement commands, and the playfield grid with
//! its collision rules.

use std::time::Duration;
use vstd::prelude::*;
use vstd::string::StringSliceAdditionalSpecFns;

use crate::utils::Direction;
use crate::utils::Point;
use crate::utils::can_shift;
use crate::utils::can_shift_n;
use crate::utils::rand_below;
use crate::utils::shifted_n;
use crate::utils::translated;
use crate::utils::rotated;

verus! {

/// Rows above the visible field reserved for piece spawn and preview.
pub const MASKED_HEIGHT: i32 = 4;

/// One of the seven standard tetromino shapes.
#[derive(Debug, Clone, Copy, PartialEq, Eq, Structural)]
pub enum Shape {
    I,
    J,
    L,
    O,
    S,
    T,
    Z,
}

impl Shape {
    /// The canonical ordering of the seven shapes.
    pub open spec fn spec_all() -> Seq<Shape> {
        seq![Shape::I, Shape::J, Shape::L, Shape::O, Shape::S, Shape::T, Shape::Z]
    }

    /// All seven shapes, in canonical order.
    pub fn all() -> (v: Vec<Shape>)
        ensures
            v@ == Shape::spec_all(),
    {
        let v = vec![Shape::I, Shape::J, Shape::L, Shape::O, Shape::S, Shape::T, Shape::Z];
        proof {
            assert(v@ =~= Shape::spec_all());
        }
        v
    }

    /// The single-letter name of this shape, as an ASCII byte.
    pub open spec fn spec_letter(self) -> u8 {
        match self {
            Shape::I => 73u8,
            Shape::J => 74u8,
            Shape::L => 76u8,
            Shape::O => 79u8,
            Shape::S => 83u8,
            Shape::T => 84u8,
            Shape::Z => 90u8,
        }
    }

    /// The single-letter name of this shape, as an ASCII byte.
    pub fn letter(self) -> (c: u8)
        ensures
            c == self.spec_letter(),
    {
        match self {
            Shape::I => 73,
            Shape::J => 74,
            Shape::L => 76,
            Shape::O => 79,
            Shape::S => 83,
            Shape::T => 84,
            Shape::Z => 90,
        }
    }

    /// What parsing a single-byte shape name yields.
    pub open spec fn spec_from_byte(c: u8) -> Result<Shape, ()> {
        if c == 73 {
            Ok(Shape::I)
        } else if c == 74 {
            Ok(Shape::J)
        } else if c == 76 {
            Ok(Shape::L)
        } else if c == 79 {
            Ok(Shape::O)
        } else if c == 83 {
            Ok(Shape::S)
        } else if c == 84 {
            Ok(Shape::T)
        } else if c == 90 {
            Ok(Shape::Z)
        } else {
            Err(())
        }
    }

    /// What parsing a shape name yields: exactly the seven one-letter
    /// names are recognized.
    pub open spec fn spec_from_bytes(s: Seq<u8>) -> Result<Shape, ()> {
        if s.len() == 1 {
            Shape::spec_from_byte(s[0])
        } else {
            Err(())
        }
    }

    /// Parses a shape from its single-letter name byte; any other byte is
    /// an unrecognized shape.
    pub fn from_byte(c: u8) -> (r: Result<Shape, ()>)
        ensures
            r == Shape::spec_from_byte(c),
    {
        if c == 73 {
            Ok(Shape::I)
        } else if c == 74 {
            Ok(Shape::J)
        } else if c == 76 {
            Ok(Shape::L)
        } else if c == 79 {
            Ok(Shape::O)
        } else if c == 83 {
            Ok(Shape::S)
        } else if c == 84 {
            Ok(Shape::T)
        } else if c == 90 {
            Ok(Shape::Z)
        } else {
            Err(())
        }
    }

    /// Parses a shape from its single-letter name; any other string is an
    /// unrecognized shape.
    pub fn from_str(s: &str) -> (r: Result<Shape, ()>)
        ensures
            r == Shape::spec_from_bytes(s.spec_bytes()),
    {
        let b = s.as_bytes();
        if b.len() != 1 {
            return Err(());
        }
        Self::from_byte(b[0])
    }

    /// The fixed canonical layout of four relative cells for this shape.
    pub open spec fn spec_layout(self) -> Seq<Point> {
        match self {
            Shape::I => seq![
                Point { x: 0, y: 0 },
                Point { x: 1, y: 0 },
                Point { x: 2, y: 0 },
                Point { x: 3, y: 0 },
            ],
            Shape::J => seq![
                Point { x: 0, y: 0 },
                Point { x: 0, y: 1 },
                Point { x: 1, y: 1 },
                Point { x: 2, y: 1 },
            ],
            Shape::L => seq![
                Point { x: 2, y: 0 },
                Point { x: 0, y: 1 },
                Point { x: 1, y: 1 },
                Point { x: 2, y: 1 },
            ],
            Shape::O => seq![
                Point { x: 0, y: 0 },
                Point { x: 1, y: 0 },
                Point { x: 0, y: 1 },
                Point { x: 1, y: 1 },
            ],
            Shape::S => seq![
                Point { x: 1, y: 0 },
                Point { x: 2, y: 0 },
                Point { x: 0, y: 1 },
                Point { x: 1, y: 1 },
            ],
            Shape::T => seq![
                Point { x: 1, y: 0 },
                Point { x: 0, y: 1 },
                Point { x: 1, y: 1 },
                Point { x: 2, y: 1 },
            ],
            Shape::Z => seq![
                Point { x: 0, y: 0 },
                Point { x: 1, y: 0 },
                Point { x: 1, y: 1 },
                Point { x: 2, y: 1 },
            ],
        }
    }
}

/// One playfield cell: the shape that occupies it, if any, and an explicit
/// emptiness flag that must always agree with the shape's absence.
#[derive(Debug, Clone, Copy, PartialEq, Eq)]
pub struct Block {
    shape: Option<Shape>,
    is_empty: bool,
}

impl Block {
    /// The shape occupying this cell, if any.
    pub closed spec fn spec_shape(self) -> Option<Shape> {
        self.shape
    }

    /// Whether this cell is unoccupied.
    pub closed spec fn spec_is_empty(self) -> bool {
        self.is_empty
    }

    /// The cell invariant: the emptiness flag agrees with the shape.
    pub open spec fn wf(self) -> bool {
        self.spec_is_empty() == self.spec_shape().is_none()
    }

    /// An unoccupied cell.
    pub fn empty() -> (b: Block)
        ensures
            b.wf(),
            b.spec_is_empty(),
    {
        Block { shape: None, is_empty: true }
    }

    /// A cell occupied by a piece of the given shape.
    pub fn filled(shape: Shape) -> (b: Block)
        ensures
            b.wf(),
            !b.spec_is_empty(),
            b.spec_shape() == Some(shape),
    {
        Block { shape: Some(shape), is_empty: false }
    }

    /// The shape occupying this cell, if any.
    pub fn shape(&self) -> (s: Option<Shape>)
        ensures
            s == self.spec_shape(),
    {
        self.shape
    }

    /// Whether this cell is unoccupied.
    pub fn is_empty(&self) -> (e: bool)
        ensures
            e == self.spec_is_empty(),
    {
        self.is_empty
    }
}

impl Default for Block {
    /// An unoccupied cell.
    fn default() -> (b: Block)
        ensures
            b.wf(),
            b.spec_is_empty(),
    {
        Block { shape: None, is_empty: true }
    }
}

/// A four-cell piece: its shape identity, its four occupied relative
/// cells, and a leading reference cell.
#[derive(Debug, Clone)]
pub struct Tetromino {
    pub shape: Shape,
    pub points: Vec<Point>,
    pub leading_point: Point,
}

impl Tetromino {
    /// Every tetromino occupies exactly four cells.
    pub open spec fn wf(self) -> bool {
        self.points@.len() == 4
    }

    /// A piece of the given shape with its fixed canonical layout, the
    /// leading point at the origin.
    pub fn from_shape(shape: Shape) -> (t: Tetromino)
        ensures
            t.wf(),
            t.shape == shape,
            t.points@ == shape.spec_layout(),
            t.leading_point == (Point { x: 0, y: 0 }),
    {
        let points = match shape {
            Shape::I => vec![
                Point { x: 0, y: 0 },
                Point { x: 1, y: 0 },
                Point { x: 2, y: 0 },
                Point { x: 3, y: 0 },
            ],
            Shape::J => vec![
                Point { x: 0, y: 0 },
                Point { x: 0, y: 1 },
                Point { x: 1, y: 1 },
                Point { x: 2, y: 1 },
            ],
            Shape::L => vec![
                Point { x: 2, y: 0 },
                Point { x: 0, y: 1 },
                Point { x: 1, y: 1 },
                Point { x: 2, y: 1 },
            ],
            Shape::O => vec![
                Point { x: 0, y: 0 },
                Point { x: 1, y: 0 },
                Point { x: 0, y: 1 },
                Point { x: 1, y: 1 },
            ],
            Shape::S => vec![
                Point { x: 1, y: 0 },
                Point { x: 2, y: 0 },
                Point { x: 0, y: 1 },
                Point { x: 1, y: 1 },
            ],
            Shape::T => vec![
                Point { x: 1, y: 0 },
                Point { x: 0, y: 1 },
                Point { x: 1, y: 1 },
                Point { x: 2, y: 1 },
            ],
            Shape::Z => vec![
                Point { x: 0, y: 0 },
                Point { x: 1, y: 0 },
                Point { x: 1, y: 1 },
                Point { x: 2, y: 1 },
            ],
        };
        proof {
            assert(points@ =~= shape.spec_layout());
        }
        Tetromino { shape, points, leading_point: Point { x: 0, y: 0 } }
    }

    /// A piece of a shape chosen at random, with that shape's canonical
    /// layout and the leading point at the origin.
    pub fn random() -> (t: Tetromino)
        ensures
            t.wf(),
            t.points@ == t.shape.spec_layout(),
            t.leading_point == (Point { x: 0, y: 0 }),
    {
        let shapes = Shape::all();
        let i = rand_below(7);
        let shape = shapes[i as usize];
        Tetromino::from_shape(shape)
    }

    /// An independent copy of this piece.
    pub fn duplicate(&self) -> (t: Tetromino)
        ensures
            t.shape == self.shape,
            t.points@ == self.points@,
            t.leading_point == self.leading_point,
    {
        let points = self.points.clone();
        proof {
            assert(points@ =~= self.points@);
        }
        Tetromino { shape: self.shape, points, leading_point: self.leading_point }
    }

    /// Shifts every occupied cell and the leading point one unit step in
    /// the given direction. Pure geometry: no bounds are checked here.
    pub fn translate(&mut self, direction: Direction)
        requires
            forall|i: int|
                0 <= i < old(self).points@.len() ==> can_shift(
                    #[trigger] old(self).points@[i],
                    direction,
                ),
            can_shift(old(self).leading_point, direction),
        ensures
            final(self).shape == old(self).shape,
            final(self).points@.len() == old(self).points@.len(),
            forall|i: int|
                0 <= i < old(self).points@.len() ==> final(self).points@[i] == translated(
                    #[trigger] old(self).points@[i],
                    direction,
                ),
            final(self).leading_point == translated(old(self).leading_point, direction),
    {
        let (dx, dy) = direction.value();
        let n = self.points.len();
        let mut i: usize = 0;
        while i < n
            invariant
                i <= n,
                n == self.points@.len(),
                n == old(self).points@.len(),
                self.shape == old(self).shape,
                self.leading_point == old(self).leading_point,
                (dx, dy) == direction.spec_value(),
                can_shift(old(self).leading_point, direction),
                forall|j: int|
                    0 <= j < old(self).points@.len() ==> can_shift(
                        #[trigger] old(self).points@[j],
                        direction,
                    ),
                forall|j: int| i <= j < n ==> self.points@[j] == old(self).points@[j],
                forall|j: int|
                    0 <= j < i ==> self.points@[j] == translated(
                        #[trigger] old(self).points@[j],
                        direction,
                    ),
            decreases n - i,
        {
            let p = self.points[i];
            self.points[i] = Point { x: p.x + dx, y: p.y + dy };
            i += 1;
        }
        self.leading_point = Point { x: self.leading_point.x + dx, y: self.leading_point.y + dy };
    }

    /// Rotates every occupied cell a quarter turn about the local origin:
    /// (x, y) becomes (-y, x). The leading point is unaffected.
    pub fn rotate(&mut self)
        requires
            forall|i: int| 0 <= i < old(self).points@.len() ==> (#[trigger] old(self).points@[i]).y
                > i32::MIN,
        ensures
            final(self).shape == old(self).shape,
            final(self).leading_point == old(self).leading_point,
            final(self).points@.len() == old(self).points@.len(),
            forall|i: int|
                0 <= i < old(self).points@.len() ==> final(self).points@[i] == rotated(
                    #[trigger] old(self).points@[i],
                ),
    {
        let n = self.points.len();
        let mut i: usize = 0;
        while i < n
            invariant
                i <= n,
                n == self.points@.len(),
                n == old(self).points@.len(),
                self.shape == old(self).shape,
                self.leading_point == old(self).leading_point,
                forall|j: int| 0 <= j < old(self).points@.len() ==> (#[trigger] old(
                    self,
                ).points@[j]).y > i32::MIN,
                forall|j: int| i <= j < n ==> self.points@[j] == old(self).points@[j],
                forall|j: int|
                    0 <= j < i ==> self.points@[j] == rotated(#[trigger] old(self).points@[j]),
            decreases n - i,
        {
            let p = self.points[i];
            self.points[i] = Point { x: -p.y, y: p.x };
            i += 1;
        }
    }
}

/// A queued movement command: shift the living piece `distance` unit steps
/// in `direction`. A one-shot command is removed from the queue once it is
/// applied successfully; a persistent one (such as gravity) stays queued.
/// The elapsed-time budget is pacing data for the external driver and is
/// not interpreted by the engine.
#[derive(Clone, Copy)]
pub struct Move {
    elapsed_time: Duration,
    distance: i32,
    direction: Direction,
    is_once: bool,
}

impl Move {
    /// The number of unit steps this command requests.
    pub closed spec fn spec_distance(self) -> i32 {
        self.distance
    }

    /// The direction this command moves in.
    pub closed spec fn spec_direction(self) -> Direction {
        self.direction
    }

    /// Whether this command is consumed after one successful application.
    pub closed spec fn spec_is_once(self) -> bool {
        self.is_once
    }

    /// Builds a movement command.
    pub fn new(elapsed_time: Duration, distance: i32, direction: Direction, is_once: bool) -> (m:
        Move)
        ensures
            m.spec_distance() == distance,
            m.spec_direction() == direction,
            m.spec_is_once() == is_once,
    {
        Move { elapsed_time, distance, direction, is_once }
    }

    /// The direction this command moves in.
    pub fn direction(&self) -> (d: Direction)
        ensures
            d == self.spec_direction(),
    {
        self.direction
    }

    /// The number of unit steps this command requests.
    pub fn distance(&self) -> (d: i32)
        ensures
            d == self.spec_distance(),
    {
        self.distance
    }

    /// Whether this command is consumed after one successful application.
    pub fn is_once(&self) -> (b: bool)
        ensures
            b == self.spec_is_once(),
    {
        self.is_once
    }
}

/// What consuming a move does to a piece's occupied cells: each is shifted
/// by the move's distance in its direction; a non-positive distance leaves
/// the piece in place.
pub open spec fn spec_consumed(t: Tetromino, m: Move) -> Seq<Point> {
    if m.spec_distance() >= 0 {
        t.points@.map_values(
            |p: Point| shifted_n(p, m.spec_direction(), m.spec_distance() as int),
        )
    } else {
        t.points@
    }
}

/// Whether every cell and the leading point of a piece stay in the i32
/// range when a move is consumed.
pub open spec fn spec_can_consume(t: Tetromino, m: Move) -> bool {
    m.spec_distance() >= 0 ==> ((forall|i: int|
        0 <= i < t.points@.len() ==> can_shift_n(
            #[trigger] t.points@[i],
            m.spec_direction(),
            m.spec_distance() as int,
        )) && can_shift_n(t.leading_point, m.spec_direction(), m.spec_distance() as int))
}

impl Tetromino {
    /// Applies a move to this piece: one unit translate per unit of the
    /// move's distance, in the move's direction. Collisions are not
    /// checked here; callers validate the result against the field.
    pub fn consume(&mut self, m: &Move)
        requires
            spec_can_consume(*old(self), *m),
        ensures
            final(self).shape == old(self).shape,
            final(self).points@ == spec_consumed(*old(self), *m),
            final(self).leading_point == (if m.spec_distance() >= 0 {
                shifted_n(old(self).leading_point, m.spec_direction(), m.spec_distance() as int)
            } else {
                old(self).leading_point
            }),
    {
        let d = m.distance();
        let dir = m.direction();
        let mut k: i32 = 0;
        while k < d
            invariant
                0 <= k,
                d > 0 ==> k <= d,
                d <= 0 ==> k == 0,
                dir == m.spec_direction(),
                d == m.spec_distance(),
                spec_can_consume(*old(self), *m),
                self.shape == old(self).shape,
                self.points@.len() == old(self).points@.len(),
                forall|i: int|
                    0 <= i < old(self).points@.len() ==> self.points@[i] == shifted_n(
                        #[trigger] old(self).points@[i],
                        dir,
                        k as int,
                    ),
                self.leading_point == shifted_n(old(self).leading_point, dir, k as int),
            decreases d - k,
        {
            proof {
                assert forall|i: int| 0 <= i < self.points@.len() implies can_shift(
                    #[trigger] self.points@[i],
                    dir,
                ) by {
                    let p0 = old(self).points@[i];
                    assert(can_shift_n(p0, dir, d as int));
                    assert(self.points@[i] == shifted_n(p0, dir, k as int));
                }
                assert(can_shift(self.leading_point, dir));
            }
            self.translate(dir);
            k += 1;
        }
        proof {
            assert(self.points@ =~= spec_consumed(*old(self), *m));
        }
    }
}

/// Whether one of the points covers the cell at column x, row y.
pub open spec fn covers(pts: Seq<Point>, x: int, y: int) -> bool {
    exists|i: int| 0 <= i < pts.len() && (#[trigger] pts[i]).x == x && pts[i].y == y
}

/// Extending a prefix of points by one covers a cell exactly when the
/// shorter prefix covers it or the new point sits on it.
proof fn lemma_covers_push(pts: Seq<Point>, i: int, x: int, y: int)
    requires
        0 <= i < pts.len(),
    ensures
        covers(pts.take(i + 1), x, y) <==> (covers(pts.take(i), x, y) || (pts[i].x == x && pts[i].y
            == y)),
{
    assert(pts.take(i + 1) =~= pts.take(i).push(pts[i]));
    if covers(pts.take(i + 1), x, y) {
        let j = choose|j: int|
            0 <= j < pts.take(i + 1).len() && (#[trigger] pts.take(i + 1)[j]).x == x && pts.take(
                i + 1,
            )[j].y == y;
        if j < i {
            assert(pts.take(i)[j].x == x && pts.take(i)[j].y == y);
        }
    }
    if covers(pts.take(i), x, y) {
        let j = choose|j: int|
            0 <= j < pts.take(i).len() && (#[trigger] pts.take(i)[j]).x == x && pts.take(i)[j].y
                == y;
        assert(pts.take(i + 1)[j].x == x && pts.take(i + 1)[j].y == y);
    }
    if pts[i].x == x && pts[i].y == y {
        assert(pts.take(i + 1)[i].x == x && pts.take(i + 1)[i].y == y);
    }
}

/// The playfield: the cell grid, the living and next pieces, and the
/// pending move queue (FIFO; the head is attempted first).
pub struct Game {
    pub height: i32,
    pub width: i32,
    pub cells: Vec<Vec<Block>>,
    pub living_tetromino: Tetromino,
    pub next_tetromino: Tetromino,
    pub moves: Vec<Move>,
}

impl Game {
    /// The number of rows of the field.
    pub open spec fn spec_height(self) -> int {
        self.height as int
    }

    /// The number of columns of the field.
    pub open spec fn spec_width(self) -> int {
        self.width as int
    }

    /// The pending move queue, head first.
    pub open spec fn spec_moves(self) -> Seq<Move> {
        self.moves@
    }

    /// The grid shape invariant: height rows of width cells, every cell
    /// well formed.
    pub open spec fn wf_grid(self) -> bool {
        &&& self.cells@.len() == self.spec_height()
        &&& (forall|y: int|
            0 <= y < self.cells@.len() ==> (#[trigger] self.cells@[y])@.len() == self.spec_width())
        &&& (forall|y: int, x: int|
            0 <= y < self.cells@.len() && 0 <= x < self.spec_width() ==> (
            #[trigger] self.cells@[y]@[x]).wf())
    }

    /// The game invariant: positive field dimensions, a well-formed grid,
    /// and four-cell pieces.
    pub open spec fn wf(self) -> bool {
        &&& 0 < self.spec_height()
        &&& 0 < self.spec_width()
        &&& self.wf_grid()
        &&& self.living_tetromino.wf()
        &&& self.next_tetromino.wf()
    }

    /// Whether a point passes the boundary check: x within the field's
    /// columns and y above the bottom edge. Negative y (above the visible
    /// field) passes.
    pub open spec fn point_in_field(self, p: Point) -> bool {
        0 <= p.x && (p.x as int) < self.spec_width() && (p.y as int) < self.spec_height()
    }

    /// Whether any of the points falls outside the field's horizontal
    /// bounds or below its bottom edge.
    pub open spec fn spec_boundary_collision(self, pts: Seq<Point>) -> bool {
        exists|i: int| 0 <= i < pts.len() && !self.point_in_field(#[trigger] pts[i])
    }

    /// Whether any of the points with y >= 0 lands on an occupied cell.
    pub open spec fn spec_block_collision(self, pts: Seq<Point>) -> bool {
        exists|i: int|
            0 <= i < pts.len() && (#[trigger] pts[i]).y >= 0
                && !self.cells@[pts[i].y as int]@[pts[i].x as int].spec_is_empty()
    }

    /// Whether a candidate position is refused, by boundary or occupancy.
    pub open spec fn spec_rejects(self, pts: Seq<Point>) -> bool {
        self.spec_boundary_collision(pts) || self.spec_block_collision(pts)
    }

    /// A fresh game: an all-empty height-by-width grid, the given living
    /// and next pieces, and no pending moves.
    pub fn new(height: i32, width: i32, living_tetromino: Tetromino, next_tetromino: Tetromino) -> (
        g: Game)
        requires
            0 < height,
            0 < width,
            living_tetromino.wf(),
            next_tetromino.wf(),
        ensures
            g.wf(),
            g.spec_height() == height as int,
            g.spec_width() == width as int,
            forall|y: int, x: int|
                0 <= y < height as int && 0 <= x < width as int ==> (
                #[trigger] g.cells@[y]@[x]).spec_is_empty(),
            g.living_tetromino == living_tetromino,
            g.next_tetromino == next_tetromino,
            g.spec_moves().len() == 0,
    {
        let h = height as usize;
        let w = width as usize;
        let mut cells: Vec<Vec<Block>> = Vec::new();
        let mut y: usize = 0;
        while y < h
            invariant
                y <= h,
                cells@.len() == y,
                forall|r: int| 0 <= r < y ==> (#[trigger] cells@[r])@.len() == w as int,
                forall|r: int, c: int|
                    0 <= r < y && 0 <= c < w as int ==> (#[trigger] cells@[r]@[c]).spec_is_empty()
                        && cells@[r]@[c].wf(),
            decreases h - y,
        {
            let mut row: Vec<Block> = Vec::new();
            let mut x: usize = 0;
            while x < w
                invariant
                    x <= w,
                    row@.len() == x,
                    forall|c: int|
                        0 <= c < x ==> (#[trigger] row@[c]).spec_is_empty() && row@[c].wf(),
                decreases w - x,
            {
                row.push(Block::empty());
                x += 1;
            }
            cells.push(row);
            y += 1;
        }
        Game { height, width, cells, living_tetromino, next_tetromino, moves: Vec::new() }
    }

    /// The number of rows of the field.
    pub fn height(&self) -> (h: i32)
        ensures
            h as int == self.spec_height(),
    {
        self.height
    }

    /// The number of columns of the field.
    pub fn width(&self) -> (w: i32)
        ensures
            w as int == self.spec_width(),
    {
        self.width
    }

    /// Appends a movement command at the tail of the queue.
    pub fn push_move(&mut self, m: Move)
        ensures
            final(self).spec_moves() == old(self).spec_moves().push(m),
            final(self).cells == old(self).cells,
            final(self).living_tetromino == old(self).living_tetromino,
            final(self).next_tetromino == old(self).next_tetromino,
            final(self).spec_height() == old(self).spec_height(),
            final(self).spec_width() == old(self).spec_width(),
            final(self).wf() == old(self).wf(),
    {
        self.moves.push(m);
    }

    /// The number of pending movement commands.
    pub fn move_count(&self) -> (n: usize)
        ensures
            n == self.spec_moves().len(),
    {
        self.moves.len()
    }

    /// True exactly when some occupied cell of the candidate piece falls
    /// outside [0, width) horizontally or has y >= height. Points above
    /// the field (y < 0) pass this check.
    pub fn is_boundary_collision(&self, tetromino: &Tetromino) -> (r: bool)
        ensures
            r == self.spec_boundary_collision(tetromino.points@),
    {
        let n = tetromino.points.len();
        let mut i: usize = 0;
        while i < n
            invariant
                i <= n,
                n == tetromino.points@.len(),
                forall|j: int| 0 <= j < i ==> self.point_in_field(#[trigger] tetromino.points@[j]),
            decreases n - i,
        {
            let p = tetromino.points[i];
            if p.x < 0 || p.x >= self.width || p.y >= self.height {
                proof {
                    assert(!self.point_in_field(tetromino.points@[i as int]));
                }
                return true;
            }
            i += 1;
        }
        false
    }

    /// True exactly when some occupied cell of the candidate piece with
    /// y >= 0 lands on a cell already occupied. Points above the field
    /// (y < 0) are exempt. The candidate must already pass the boundary
    /// check, so every point indexes inside the grid.
    pub fn is_block_collision(&self, tetromino: &Tetromino) -> (r: bool)
        requires
            self.wf(),
            !self.spec_boundary_collision(tetromino.points@),
        ensures
            r == self.spec_block_collision(tetromino.points@),
    {
        let n = tetromino.points.len();
        let mut i: usize = 0;
        while i < n
            invariant
                i <= n,
                n == tetromino.points@.len(),
                self.wf(),
                !self.spec_boundary_collision(tetromino.points@),
                forall|j: int|
                    0 <= j < i ==> !((#[trigger] tetromino.points@[j]).y >= 0
                        && !self.cells@[tetromino.points@[j].y as int]@[tetromino.points@[j].x as int].spec_is_empty()),
            decreases n - i,
        {
            let p = tetromino.points[i];
            proof {
                assert(self.point_in_field(tetromino.points@[i as int]));
            }
            if p.y >= 0 {
                if !self.cells[p.y as usize][p.x as usize].is_empty {
                    return true;
                }
            }
            i += 1;
        }
        false
    }

    /// Attempts the head of the move queue, if any, against a scratch copy
    /// of the living piece. If every resulting cell passes the boundary
    /// and occupancy checks, all of its in-field cells are committed to the
    /// grid at once and a one-shot move is dequeued; otherwise nothing is
    /// written and the move stays queued. The commit is all-or-nothing: a
    /// refused move leaves the grid untouched.
    pub fn handle_move(&mut self)
        requires
            old(self).wf(),
            old(self).spec_moves().len() > 0 ==> spec_can_consume(
                old(self).living_tetromino,
                old(self).spec_moves()[0],
            ),
        ensures
            final(self).wf(),
            final(self).spec_height() == old(self).spec_height(),
            final(self).spec_width() == old(self).spec_width(),
            final(self).living_tetromino == old(self).living_tetromino,
            final(self).next_tetromino == old(self).next_tetromino,
            old(self).spec_moves().len() == 0 ==> *final(self) == *old(self),
            old(self).spec_moves().len() > 0 ==> ({
                let m = old(self).spec_moves()[0];
                let pts = spec_consumed(old(self).living_tetromino, m);
                &&& (old(self).spec_rejects(pts) ==> final(self).cells == old(self).cells
                    && final(self).spec_moves() == old(self).spec_moves())
                &&& (!old(self).spec_rejects(pts) ==> ({
                    &&& (forall|y: int, x: int|
                        0 <= y < old(self).spec_height() && 0 <= x < old(self).spec_width() ==> (
                        if covers(pts, x, y) {
                            (#[trigger] final(self).cells@[y]@[x]).spec_shape() == Some(
                                old(self).living_tetromino.shape,
                            ) && !final(self).cells@[y]@[x].spec_is_empty()
                        } else {
                            final(self).cells@[y]@[x] == old(self).cells@[y]@[x]
                        }))
                    &&& (m.spec_is_once() ==> final(self).spec_moves() == old(
                        self,
                    ).spec_moves().remove(0))
                    &&& (!m.spec_is_once() ==> final(self).spec_moves() == old(self).spec_moves())
                }))
            }),
    {
        if self.moves.len() == 0 {
            return ;
        }
        let m: Move = self.moves[0];
        let mut tetromino = self.living_tetromino.duplicate();
        tetromino.consume(&m);
        if self.is_boundary_collision(&tetromino) {
            return ;
        }
        if self.is_block_collision(&tetromino) {
            return ;
        }
        let ghost pts = tetromino.points@;
        let shape = tetromino.shape;
        let n = tetromino.points.len();
        let mut i: usize = 0;
        while i < n
            invariant
                i <= n,
                n == pts.len(),
                pts == tetromino.points@,
                shape == tetromino.shape,
                shape == old(self).living_tetromino.shape,
                self.living_tetromino == old(self).living_tetromino,
                self.next_tetromino == old(self).next_tetromino,
                self.moves@ == old(self).spec_moves(),
                self.moves@.len() > 0,
                m == self.moves@[0],
                self.spec_height() == old(self).spec_height(),
                self.spec_width() == old(self).spec_width(),
                self.wf(),
                forall|j: int| 0 <= j < pts.len() ==> self.point_in_field(#[trigger] pts[j]),
                forall|y: int, x: int|
                    0 <= y < self.spec_height() && 0 <= x < self.spec_width() ==> (if covers(
                        pts.take(i as int),
                        x,
                        y,
                    ) {
                        (#[trigger] self.cells@[y]@[x]).spec_shape() == Some(shape)
                            && !self.cells@[y]@[x].spec_is_empty()
                    } else {
                        self.cells@[y]@[x] == old(self).cells@[y]@[x]
                    }),
            decreases n - i,
        {
            let p = tetromino.points[i];
            let ghost prev_cells = self.cells@;
            if p.y >= 0 {
                self.cells[p.y as usize][p.x as usize] = Block::filled(shape);
            }
            proof {
                assert forall|y: int, x: int|
                    0 <= y < self.spec_height() && 0 <= x < self.spec_width() implies (if covers(
                    pts.take(i + 1),
                    x,
                    y,
                ) {
                    (self.cells@[y]@[x]).spec_shape() == Some(shape)
                        && !self.cells@[y]@[x].spec_is_empty()
                } else {
                    self.cells@[y]@[x] == old(self).cells@[y]@[x]
                }) by {
                    lemma_covers_push(pts, i as int, x, y);
                    if p.y >= 0 && y == p.y as int && x == p.x as int {
                        assert((self.cells@[y]@[x]).spec_shape() == Some(shape));
                        assert(covers(pts.take(i + 1), x, y));
                    } else {
                        assert(self.cells@[y]@[x] == prev_cells[y]@[x]);
                        assert(!(pts[i as int].x == x && pts[i as int].y == y));
                    }
                }
                assert(self.wf());
            }
            i += 1;
        }
        proof {
            assert(pts.take(n as int) =~= pts);
        }
        if m.is_once() {
            let _ = self.moves.remove(0);
        }
    }
}

} // verus!
