//! Cell outlines: rectilinear staircase boundaries.

use vstd::prelude::*;
use crate::error::{LayoutError, LayoutResult};
use crate::geom::{Dir, Point};

verus! {

/// True when `x` and `y` describe a staircase: equally long, not empty, `x`
/// never increasing and `y` never decreasing.
pub open spec fn is_staircase(x: Seq<usize>, y: Seq<usize>) -> bool {
    &&& x.len() == y.len()
    &&& x.len() >= 1
    &&& forall|k: int| 1 <= k < x.len() ==> #[trigger] x[k] <= x[k - 1]
    &&& forall|k: int| 1 <= k < y.len() ==> #[trigger] y[k] >= y[k - 1]
}

/// The vertex of index `i` of the staircase `x`, `y`, counted from the
/// origin: after the origin each step adds the corner below it and the
/// corner at it; the last vertex lies on the y axis.
pub open spec fn staircase_vertex(x: Seq<usize>, y: Seq<usize>, i: int) -> (int, int) {
    if i <= 0 {
        (0, 0)
    } else if i > 2 * x.len() {
        (0, y[x.len() - 1] as int)
    } else if i % 2 == 1 {
        (x[(i - 1) / 2] as int, if i == 1 { 0 } else { y[(i - 1) / 2 - 1] as int })
    } else {
        (x[i / 2 - 1] as int, y[i / 2 - 1] as int)
    }
}

/// A closed boundary made of right-angle turns, without holes or divots,
/// given by the x and y coordinates of its steps, counted in unit pitches.
#[derive(Debug, PartialEq, Eq)]
pub struct Outline {
    x: Vec<usize>,
    y: Vec<usize>,
}

impl Clone for Outline {
    fn clone(&self) -> (r: Self)
        ensures
            r.xs() == self.xs(),
            r.ys() == self.ys(),
    {
        proof {
            use_type_invariant(self);
        }
        let x = self.x.clone();
        let y = self.y.clone();
        assert(x@ =~= self.x@);
        assert(y@ =~= self.y@);
        Outline { x, y }
    }
}

impl Outline {
    #[verifier::type_invariant]
    spec fn staircase(self) -> bool {
        is_staircase(self.x@, self.y@)
    }

    /// The x coordinates of the steps.
    pub closed spec fn xs(&self) -> Seq<usize> {
        self.x@
    }

    /// The y coordinates of the steps.
    pub closed spec fn ys(&self) -> Seq<usize> {
        self.y@
    }

    /// True of an outline whose coordinates form a staircase. Every outline
    /// that exists at run time is valid.
    pub open spec fn valid(&self) -> bool {
        is_staircase(self.xs(), self.ys())
    }

    /// The outline with steps `x`, `y`, where these form a staircase.
    pub fn new(x: Vec<usize>, y: Vec<usize>) -> (r: LayoutResult<Outline>)
        ensures
            r is Ok <==> is_staircase(x@, y@),
            r matches Ok(o) ==> o.xs() == x@ && o.ys() == y@ && o.valid(),
            r matches Err(e) ==> e == LayoutError::Tbd,
    {
        if x.len() != y.len() {
            return Err(LayoutError::Tbd);
        }
        if x.len() < 1 {
            return Err(LayoutError::Tbd);
        }
        let mut k: usize = 1;
        while k < x.len()
            invariant
                1 <= k <= x.len(),
                forall|j: int| 1 <= j < k ==> #[trigger] x@[j] <= x@[j - 1],
            decreases x.len() - k,
        {
            if x[k] > x[k - 1] {
                return Err(LayoutError::Tbd);
            }
            k += 1;
        }
        let mut k: usize = 1;
        while k < y.len()
            invariant
                1 <= k <= y.len(),
                forall|j: int| 1 <= j < k ==> #[trigger] y@[j] >= y@[j - 1],
            decreases y.len() - k,
        {
            if y[k] < y[k - 1] {
                return Err(LayoutError::Tbd);
            }
            k += 1;
        }
        Ok(Outline { x, y })
    }

    /// The rectangle `x` wide and `y` high.
    pub fn rect(x: usize, y: usize) -> (r: LayoutResult<Outline>)
        ensures
            r matches Ok(o) && o.xs() == seq![x] && o.ys() == seq![y] && o.valid(),
    {
        let mut xv: Vec<usize> = Vec::new();
        xv.push(x);
        let mut yv: Vec<usize> = Vec::new();
        yv.push(y);
        assert(xv@ =~= seq![x]);
        assert(yv@ =~= seq![y]);
        Outline::new(xv, yv)
    }

    /// The x coordinates of the steps.
    pub fn x(&self) -> (r: &Vec<usize>)
        ensures
            r@ == self.xs(),
            self.valid(),
    {
        proof {
            use_type_invariant(self);
        }
        &self.x
    }

    /// The y coordinates of the steps.
    pub fn y(&self) -> (r: &Vec<usize>)
        ensures
            r@ == self.ys(),
            self.valid(),
    {
        proof {
            use_type_invariant(self);
        }
        &self.y
    }

    /// The number of steps.
    pub fn len(&self) -> (r: usize)
        ensures
            r == self.xs().len(),
            r >= 1,
            self.valid(),
    {
        proof {
            use_type_invariant(self);
        }
        self.x.len()
    }

    /// The largest x coordinate, which is the first.
    pub open spec fn spec_xmax(&self) -> usize {
        self.xs()[0]
    }

    /// The largest x coordinate, which is the first.
    #[verifier::when_used_as_spec(spec_xmax)]
    pub fn xmax(&self) -> (r: usize)
        ensures
            r == self.spec_xmax(),
            self.valid(),
    {
        proof {
            use_type_invariant(self);
        }
        self.x[0]
    }

    /// The largest y coordinate, which is the last.
    pub open spec fn spec_ymax(&self) -> usize {
        self.ys()[self.ys().len() - 1]
    }

    /// The largest y coordinate, which is the last.
    #[verifier::when_used_as_spec(spec_ymax)]
    pub fn ymax(&self) -> (r: usize)
        ensures
            r == self.spec_ymax(),
            self.valid(),
    {
        proof {
            use_type_invariant(self);
        }
        self.y[self.y.len() - 1]
    }

    /// The largest coordinate along `dir`.
    pub open spec fn spec_max(&self, dir: Dir) -> usize {
        match dir {
            Dir::Horiz => self.spec_xmax(),
            Dir::Vert => self.spec_ymax(),
        }
    }

    /// The largest coordinate along `dir`.
    #[verifier::when_used_as_spec(spec_max)]
    pub fn max(&self, dir: Dir) -> (r: usize)
        ensures
            r == self.spec_max(dir),
            self.valid(),
    {
        match dir {
            Dir::Horiz => self.xmax(),
            Dir::Vert => self.ymax(),
        }
    }

    /// True when every coordinate of the outline is representable as a
    /// signed coordinate of a point.
    pub open spec fn points_fit(&self) -> bool {
        self.spec_xmax() <= isize::MAX && self.spec_ymax() <= isize::MAX
    }

    /// The vertices of the outline, from the origin counter-clockwise.
    pub open spec fn spec_points(&self) -> Seq<Point> {
        Seq::new(
            2 * self.xs().len() + 2,
            |i: int|
                Point {
                    x: staircase_vertex(self.xs(), self.ys(), i).0 as isize,
                    y: staircase_vertex(self.xs(), self.ys(), i).1 as isize,
                },
        )
    }

    /// The vertices of the outline as an open polygon: the origin, then for
    /// each step the corner below it and the corner at it, then the point
    /// where the top edge meets the y axis. The edge back to the origin is
    /// left to the caller.
    pub fn points(&self) -> (pts: Vec<Point>)
        requires
            self.points_fit(),
        ensures
            pts@ == self.spec_points(),
    {
        proof {
            use_type_invariant(self);
        }
        let n = self.x.len();
        let mut pts: Vec<Point> = Vec::new();
        pts.push(Point { x: 0, y: 0 });
        let mut yp: isize = 0;
        let mut i: usize = 0;
        while i < n
            invariant
                i <= n,
                n == self.x@.len(),
                is_staircase(self.x@, self.y@),
                self.xs() == self.x@,
                self.ys() == self.y@,
                self.points_fit(),
                pts@.len() == 2 * i + 1,
                yp == (if i == 0 { 0int } else { self.y@[i - 1] as int }),
                forall|j: int| 0 <= j < pts@.len() ==> pts@[j] == self.spec_points()[j],
            decreases n - i,
        {
            proof {
                lemma_staircase_bounds(self.x@, self.y@, i as int);
                lemma_staircase_vertex_bounds(self.x@, self.y@, 2 * (i as int) + 1);
                lemma_staircase_vertex_bounds(self.x@, self.y@, 2 * (i as int) + 2);
                assert((2 * i + 1) % 2 == 1 && (2 * i + 1 - 1) / 2 == i as int);
                assert((2 * i + 2) % 2 == 0 && (2 * i + 2) / 2 - 1 == i as int);
            }
            let xp: isize = self.x[i] as isize;
            pts.push(Point::new(xp, yp));
            yp = self.y[i] as isize;
            pts.push(Point::new(xp, yp));
            i += 1;
        }
        pts.push(Point::new(0, yp));
        assert(pts@ =~= self.spec_points());
        pts
    }
}

/// Coordinates are no staircase exactly when their lengths differ, when
/// they are empty, when some x coordinate exceeds the one before it, or
/// when some y coordinate falls below the one before it. [`Outline::new`]
/// fails on exactly these.
pub proof fn lemma_staircase_rejects(x: Seq<usize>, y: Seq<usize>)
    ensures
        !is_staircase(x, y) <==> (x.len() != y.len() || x.len() == 0 || (exists|k: int|
            1 <= k < x.len() && #[trigger] x[k] > x[k - 1]) || (exists|k: int|
            1 <= k < y.len() && #[trigger] y[k] < y[k - 1])),
{
}

/// In a staircase no x coordinate exceeds the first and no y coordinate
/// exceeds the last.
pub proof fn lemma_staircase_bounds(x: Seq<usize>, y: Seq<usize>, i: int)
    requires
        is_staircase(x, y),
        0 <= i < x.len(),
    ensures
        x[i] <= x[0],
        y[i] <= y[y.len() - 1],
{
    lemma_nonincreasing(x, 0, i);
    lemma_nondecreasing(y, i, y.len() - 1);
}

proof fn lemma_nonincreasing(x: Seq<usize>, i: int, j: int)
    requires
        forall|k: int| 1 <= k < x.len() ==> #[trigger] x[k] <= x[k - 1],
        0 <= i <= j < x.len(),
    ensures
        x[j] <= x[i],
    decreases j - i,
{
    if i < j {
        lemma_nonincreasing(x, i, j - 1);
    }
}

proof fn lemma_nondecreasing(y: Seq<usize>, i: int, j: int)
    requires
        forall|k: int| 1 <= k < y.len() ==> #[trigger] y[k] >= y[k - 1],
        0 <= i <= j < y.len(),
    ensures
        y[i] <= y[j],
    decreases j - i,
{
    if i < j {
        lemma_nondecreasing(y, i, j - 1);
    }
}

/// Two neighbouring vertices of a staircase share a coordinate: y after an
/// even index, x after an odd one.
proof fn lemma_staircase_edge(x: Seq<usize>, y: Seq<usize>, i: int)
    requires
        is_staircase(x, y),
        0 <= i <= 2 * x.len(),
    ensures
        i % 2 == 0 ==> staircase_vertex(x, y, i).1 == staircase_vertex(x, y, i + 1).1,
        i % 2 == 1 ==> staircase_vertex(x, y, i).0 == staircase_vertex(x, y, i + 1).0,
{
    let k = i / 2;
    if i % 2 == 0 {
        assert(i == 2 * k);
        assert((i + 1) % 2 == 1);
        assert((i + 1 - 1) / 2 == k);
    } else {
        assert(i == 2 * k + 1);
        assert((i + 1) % 2 == 0);
        assert((i + 1) / 2 - 1 == k);
        assert((i - 1) / 2 == k);
    }
}

/// Every vertex of a staircase lies within the first x and the last y.
proof fn lemma_staircase_vertex_bounds(x: Seq<usize>, y: Seq<usize>, i: int)
    requires
        is_staircase(x, y),
    ensures
        0 <= staircase_vertex(x, y, i).0 <= x[0],
        0 <= staircase_vertex(x, y, i).1 <= y[y.len() - 1],
{
    if 0 < i <= 2 * x.len() {
        let k = (i - 1) / 2;
        assert(0 <= k < x.len());
        lemma_staircase_bounds(x, y, k);
        if k > 0 {
            lemma_staircase_bounds(x, y, k - 1);
        }
        if i % 2 == 0 {
            assert(i / 2 - 1 == k);
        }
    }
}

/// In a valid outline the x coordinates never increase and the y
/// coordinates never decrease; its vertex list holds the origin and
/// `2 * len + 1` further vertices; every edge of the list, and the closing
/// edge from the last vertex back to the first, is parallel to an axis,
/// horizontal and vertical edges alternating.
pub proof fn lemma_outline_path(o: Outline)
    requires
        o.valid(),
        o.points_fit(),
    ensures
        forall|i: int, j: int| 0 <= i <= j < o.xs().len() ==> o.xs()[j] <= o.xs()[i],
        forall|i: int, j: int| 0 <= i <= j < o.ys().len() ==> o.ys()[i] <= o.ys()[j],
        o.spec_points().len() == 2 * o.xs().len() + 2,
        o.spec_points()[0] == (Point { x: 0, y: 0 }),
        forall|i: int|
            0 <= i < o.spec_points().len() - 1 && i % 2 == 0 ==> (#[trigger] o.spec_points()[i]).y
                == o.spec_points()[i + 1].y,
        forall|i: int|
            0 <= i < o.spec_points().len() - 1 && i % 2 == 1 ==> (#[trigger] o.spec_points()[i]).x
                == o.spec_points()[i + 1].x,
        o.spec_points().last().x == o.spec_points()[0].x,
{
    let x = o.xs();
    let y = o.ys();
    assert forall|i: int, j: int| 0 <= i <= j < x.len() implies x[j] <= x[i] by {
        lemma_nonincreasing(x, i, j);
    }
    assert forall|i: int, j: int| 0 <= i <= j < y.len() implies y[i] <= y[j] by {
        lemma_nondecreasing(y, i, j);
    }
    let pts = o.spec_points();
    assert forall|i: int| 0 <= i < pts.len() - 1 implies (i % 2 == 0 ==> (#[trigger] pts[i]).y
        == pts[i + 1].y) && (i % 2 == 1 ==> pts[i].x == pts[i + 1].x) by {
        lemma_staircase_edge(x, y, i);
        lemma_staircase_vertex_bounds(x, y, i);
        lemma_staircase_vertex_bounds(x, y, i + 1);
    }
    lemma_staircase_vertex_bounds(x, y, 2 * (x.len() as int) + 1);
}

} // verus!
