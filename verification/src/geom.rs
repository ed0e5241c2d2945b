//! Units, directions and points.

use vstd::prelude::*;

verus! {

/// Unit of distance of a stack.
#[derive(Debug, Clone, Copy, PartialEq, Eq, Structural)]
pub enum Unit {
    /// Micrometers.
    Micro,
    /// Nanometers.
    Nano,
}

impl Default for Unit {
    /// Nanometers are the default unit.
    fn default() -> (r: Unit)
        ensures
            r == Unit::Nano,
    {
        Unit::Nano
    }
}

/// Orientation of a layer's tracks.
#[derive(Debug, Clone, Copy, PartialEq, Eq, Structural)]
pub enum Dir {
    /// Tracks run along x and repeat in y.
    Horiz,
    /// Tracks run along y and repeat in x.
    Vert,
}

impl Dir {
    /// The perpendicular direction.
    pub open spec fn spec_other(self) -> Dir {
        match self {
            Dir::Horiz => Dir::Vert,
            Dir::Vert => Dir::Horiz,
        }
    }

    /// The perpendicular direction.
    #[verifier::when_used_as_spec(spec_other)]
    pub fn other(self) -> (r: Dir)
        ensures
            r == self.spec_other(),
    {
        match self {
            Dir::Horiz => Dir::Vert,
            Dir::Vert => Dir::Horiz,
        }
    }
}

/// Flipping a direction twice gives it back, and never gives itself.
pub proof fn lemma_other_involution(d: Dir)
    ensures
        d.spec_other().spec_other() == d,
        d.spec_other() != d,
{
}

/// True when `v` is representable as an `isize`.
pub open spec fn fits_isize(v: int) -> bool {
    isize::MIN <= v <= isize::MAX
}

/// A point of the layout plane.
#[derive(Debug, Clone, Copy, Default, PartialEq, Eq, Structural)]
pub struct Point {
    pub x: isize,
    pub y: isize,
}

impl Point {
    /// The point `(x, y)`.
    pub fn new(x: isize, y: isize) -> (r: Point)
        ensures
            r == (Point { x, y }),
    {
        Point { x, y }
    }

    /// The point at distance `val` from the origin along `dir`.
    pub open spec fn spec_offset(val: isize, dir: Dir) -> Point {
        match dir {
            Dir::Horiz => Point { x: val, y: 0 },
            Dir::Vert => Point { x: 0, y: val },
        }
    }

    /// The point at distance `val` from the origin along `dir`.
    #[verifier::when_used_as_spec(spec_offset)]
    pub fn offset(val: isize, dir: Dir) -> (r: Point)
        ensures
            r == Point::spec_offset(val, dir),
    {
        match dir {
            Dir::Horiz => Point { x: val, y: 0 },
            Dir::Vert => Point { x: 0, y: val },
        }
    }

    /// True when `self` moved by `p` is representable.
    pub open spec fn can_shift(&self, p: &Point) -> bool {
        fits_isize(p.x + self.x) && fits_isize(p.y + self.y)
    }

    /// This point moved by `p`.
    pub fn shift(&self, p: &Point) -> (r: Point)
        requires
            self.can_shift(p),
        ensures
            r.x == p.x + self.x,
            r.y == p.y + self.y,
    {
        Point { x: p.x + self.x, y: p.y + self.y }
    }

    /// This point moved by `p`, or `None` where a coordinate of the result
    /// is not representable.
    pub fn checked_shift(&self, p: &Point) -> (r: Option<Point>)
        ensures
            r is Some <==> self.can_shift(p),
            r matches Some(q) ==> q.x == p.x + self.x && q.y == p.y + self.y,
    {
        match (p.x.checked_add(self.x), p.y.checked_add(self.y)) {
            (Some(x), Some(y)) => Some(Point { x, y }),
            _ => None,
        }
    }

    /// True when `self` scaled by `x` and `y` is representable.
    pub open spec fn can_scale(&self, x: isize, y: isize) -> bool {
        fits_isize(x * self.x) && fits_isize(y * self.y)
    }

    /// This point with its coordinates multiplied by `x` and by `y`.
    pub fn scale(&self, x: isize, y: isize) -> (r: Point)
        requires
            self.can_scale(x, y),
        ensures
            r.x == x * self.x,
            r.y == y * self.y,
    {
        Point { x: x * self.x, y: y * self.y }
    }

    /// This point scaled by `x` and `y`, or `None` where a coordinate of the
    /// result is not representable.
    pub fn checked_scale(&self, x: isize, y: isize) -> (r: Option<Point>)
        ensures
            r is Some <==> self.can_scale(x, y),
            r matches Some(q) ==> q.x == x * self.x && q.y == y * self.y,
    {
        match (x.checked_mul(self.x), y.checked_mul(self.y)) {
            (Some(px), Some(py)) => Some(Point { x: px, y: py }),
            _ => None,
        }
    }

    /// The coordinate along `dir`.
    pub open spec fn spec_coord(&self, dir: Dir) -> isize {
        match dir {
            Dir::Horiz => self.x,
            Dir::Vert => self.y,
        }
    }

    /// The coordinate along `dir`.
    #[verifier::when_used_as_spec(spec_coord)]
    pub fn coord(&self, dir: Dir) -> (r: isize)
        ensures
            r == self.spec_coord(dir),
    {
        match dir {
            Dir::Horiz => self.x,
            Dir::Vert => self.y,
        }
    }
}

/// The views of the items of a sequence, in order.
pub open spec fn views<T: View>(s: Seq<T>) -> Seq<T::V> {
    s.map_values(|t: T| t@)
}

/// Appending an item appends its view.
pub proof fn lemma_views_push<T: View>(s: Seq<T>, t: T)
    ensures
        views(s.push(t)) == views(s).push(t@),
{
    assert(views(s.push(t)) =~= views(s).push(t@));
}

/// Joining two sequences joins their views.
pub proof fn lemma_views_concat<T: View>(a: Seq<T>, b: Seq<T>)
    ensures
        views(a + b) == views(a) + views(b),
{
    assert(views(a + b) =~= views(a) + views(b));
}

/// The product of `a` and `b`, or `None` where it is not representable as
/// a signed coordinate.
pub fn scaled(a: usize, b: isize) -> (r: Option<isize>)
    ensures
        r is Some <==> fits_isize(a * b),
        r matches Some(p) ==> p == a * b,
{
    assert(-0x8000_0000_0000_0000_0000_0000_0000_0000 < a * b
        < 0x8000_0000_0000_0000_0000_0000_0000_0000) by (nonlinear_arith)
        requires
            0 <= a <= 0xffff_ffff_ffff_ffff,
            -0x8000_0000_0000_0000 <= b <= 0x7fff_ffff_ffff_ffff,
    ;
    let p: i128 = (a as i128) * (b as i128);
    if p < isize::MIN as i128 || p > isize::MAX as i128 {
        None
    } else {
        Some(p as isize)
    }
}

/// The product of `a` and `b`, or `None` where it is not representable as
/// a signed coordinate.
pub fn product(a: usize, b: usize) -> (r: Option<usize>)
    ensures
        r is Some <==> a * b <= isize::MAX,
        r matches Some(p) ==> p == a * b,
{
    match a.checked_mul(b) {
        Some(p) => if p <= isize::MAX as usize {
            Some(p)
        } else {
            None
        },
        None => None,
    }
}

} // verus!
