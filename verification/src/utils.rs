//! Geometry primitives: a 2D integer point and a 4-way direction.

use rand::Rng;
use vstd::prelude::*;

verus! {

/// A 2D integer point.
#[derive(Debug, Clone, Copy, PartialEq, Eq, Structural, Hash)]
pub struct Point {
    pub x: i32,
    pub y: i32,
}

impl Point {
    /// Builds the point (x, y).
    pub fn new(x: i32, y: i32) -> (p: Point)
        ensures
            p == (Point { x, y }),
    {
        Point { x, y }
    }

    /// True exactly when both coordinates agree.
    pub fn equals(&self, other: &Point) -> (r: bool)
        ensures
            r == (self.x == other.x && self.y == other.y),
    {
        self.x == other.x && self.y == other.y
    }

    /// Component-wise sum of two points.
    pub fn add(self, other: Point) -> (r: Point)
        requires
            i32::MIN <= self.x + other.x <= i32::MAX,
            i32::MIN <= self.y + other.y <= i32::MAX,
        ensures
            r.x == self.x + other.x,
            r.y == self.y + other.y,
    {
        Point { x: self.x + other.x, y: self.y + other.y }
    }

    /// Builds a point from a plain (x, y) pair.
    pub fn from_pair(pair: (i32, i32)) -> (p: Point)
        ensures
            p == (Point { x: pair.0, y: pair.1 }),
    {
        Point { x: pair.0, y: pair.1 }
    }

    /// The plain (x, y) pair of this point.
    pub fn to_pair(self) -> (r: (i32, i32))
        ensures
            r == (self.x, self.y),
    {
        (self.x, self.y)
    }
}

impl Default for Point {
    /// The origin (0, 0).
    fn default() -> (p: Point)
        ensures
            p == (Point { x: 0, y: 0 }),
    {
        Point { x: 0, y: 0 }
    }
}

/// One of the four axis directions a piece can move in.
#[derive(Debug, Clone, Copy, PartialEq, Eq, Structural)]
pub enum Direction {
    Left,
    Right,
    Up,
    Down,
}

impl Default for Direction {
    /// The default direction is Left.
    fn default() -> (d: Direction)
        ensures
            d == Direction::Left,
    {
        Direction::Left
    }
}

impl Direction {
    /// The unit displacement vector of this direction, as (dx, dy).
    /// The y axis grows downward, so Up is (0, -1).
    pub open spec fn spec_value(self) -> (i32, i32) {
        match self {
            Direction::Left => (-1i32, 0i32),
            Direction::Right => (1i32, 0i32),
            Direction::Up => (0i32, -1i32),
            Direction::Down => (0i32, 1i32),
        }
    }

    /// The direction that undoes this one.
    pub open spec fn spec_opposite(self) -> Direction {
        match self {
            Direction::Left => Direction::Right,
            Direction::Right => Direction::Left,
            Direction::Up => Direction::Down,
            Direction::Down => Direction::Up,
        }
    }

    /// The unit displacement vector of this direction.
    pub fn value(&self) -> (r: (i32, i32))
        ensures
            r == self.spec_value(),
    {
        match self {
            Direction::Left => (-1, 0),
            Direction::Right => (1, 0),
            Direction::Up => (0, -1),
            Direction::Down => (0, 1),
        }
    }

    /// A direction chosen at random.
    pub fn rand_dir() -> Direction {
        match rand_below(4) {
            0 => Direction::Left,
            1 => Direction::Right,
            2 => Direction::Up,
            _ => Direction::Down,
        }
    }
}

/// Relies on rand's `Rng::gen_range` on `thread_rng`: a uniform value in
/// the half-open range `0..n`, which is below `n`.
#[verifier::external_body]
pub(crate) fn rand_below(n: u32) -> (r: u32)
    requires
        n > 0,
    ensures
        r < n,
{
    rand::thread_rng().gen_range(0..n)
}

/// Whether a point can be shifted n unit steps in a direction without
/// leaving the i32 range.
pub open spec fn can_shift_n(p: Point, d: Direction, n: int) -> bool {
    match d {
        Direction::Left => i32::MIN <= p.x - n <= i32::MAX,
        Direction::Right => i32::MIN <= p.x + n <= i32::MAX,
        Direction::Up => i32::MIN <= p.y - n <= i32::MAX,
        Direction::Down => i32::MIN <= p.y + n <= i32::MAX,
    }
}

/// Whether a single unit step in a direction stays in the i32 range.
pub open spec fn can_shift(p: Point, d: Direction) -> bool {
    can_shift_n(p, d, 1)
}

/// The point shifted n unit steps in a direction.
pub open spec fn shifted_n(p: Point, d: Direction, n: int) -> Point {
    match d {
        Direction::Left => Point { x: (p.x - n) as i32, y: p.y },
        Direction::Right => Point { x: (p.x + n) as i32, y: p.y },
        Direction::Up => Point { x: p.x, y: (p.y - n) as i32 },
        Direction::Down => Point { x: p.x, y: (p.y + n) as i32 },
    }
}

/// The point shifted one unit step in a direction.
pub open spec fn translated(p: Point, d: Direction) -> Point {
    shifted_n(p, d, 1)
}

/// The point rotated a quarter turn about the origin: (x, y) to (-y, x).
pub open spec fn rotated(p: Point) -> Point {
    Point { x: (-(p.y as int)) as i32, y: p.x }
}

/// The point shifted by n successive unit steps in a direction.
pub open spec fn iterated_translate(p: Point, d: Direction, n: int) -> Point
    decreases n,
{
    if n <= 0 {
        p
    } else {
        translated(iterated_translate(p, d, n - 1), d)
    }
}

/// Law: translating a point one unit step in a direction and then one in
/// the opposite direction returns it to its original position.
pub proof fn lemma_translate_then_opposite(p: Point, d: Direction)
    requires
        can_shift(p, d),
    ensures
        translated(translated(p, d), d.spec_opposite()) == p,
{
}

/// Law: translating each of a set of points by a direction and then by its
/// opposite restores every point.
pub proof fn lemma_translate_seq_then_opposite(pts: Seq<Point>, d: Direction)
    requires
        forall|i: int| 0 <= i < pts.len() ==> can_shift(#[trigger] pts[i], d),
    ensures
        pts.map_values(|p: Point| translated(p, d)).map_values(
            |p: Point| translated(p, d.spec_opposite()),
        ) == pts,
{
    let once = pts.map_values(|p: Point| translated(p, d));
    let back = once.map_values(|p: Point| translated(p, d.spec_opposite()));
    assert forall|i: int| 0 <= i < pts.len() implies back[i] == pts[i] by {
        lemma_translate_then_opposite(pts[i], d);
    }
    assert(back =~= pts);
}

/// Law: rotating a point four times returns it to its original position.
/// Points with a coordinate at the very bottom of the i32 range are left
/// out: their quarter turn does not fit in an i32.
pub proof fn lemma_rotate_four_identity(p: Point)
    requires
        p.x > i32::MIN,
        p.y > i32::MIN,
    ensures
        rotated(rotated(rotated(rotated(p)))) == p,
{
}

/// Law: rotating each of a set of points four times restores every point.
pub proof fn lemma_rotate_seq_four_identity(pts: Seq<Point>)
    requires
        forall|i: int| 0 <= i < pts.len() ==> (#[trigger] pts[i]).x > i32::MIN && pts[i].y
            > i32::MIN,
    ensures
        pts.map_values(|p: Point| rotated(p)).map_values(|p: Point| rotated(p)).map_values(
            |p: Point| rotated(p),
        ).map_values(|p: Point| rotated(p)) == pts,
{
    let four = pts.map_values(|p: Point| rotated(p)).map_values(|p: Point| rotated(p)).map_values(
        |p: Point| rotated(p),
    ).map_values(|p: Point| rotated(p));
    assert forall|i: int| 0 <= i < pts.len() implies four[i] == pts[i] by {
        lemma_rotate_four_identity(pts[i]);
    }
    assert(four =~= pts);
}

/// Law: shifting a point n unit steps at once lands where n sequential
/// unit translates land.
pub proof fn lemma_shift_is_iterated_translate(p: Point, d: Direction, n: int)
    requires
        0 <= n,
        can_shift_n(p, d, n),
    ensures
        shifted_n(p, d, n) == iterated_translate(p, d, n),
    decreases n,
{
    if n == 0 {
        assert(shifted_n(p, d, 0) == p);
    } else {
        lemma_shift_is_iterated_translate(p, d, n - 1);
    }
}

} // verus!
