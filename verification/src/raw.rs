//! Raw layout: cells of plain rectangles and polygons, without tracks.

use vstd::prelude::*;
use std::collections::HashMap;
use crate::cell::Instance;
use crate::geom::{Dir, Point, Unit};

pub use crate::gds::GdsConverter;

verus! {

/// Stands for abstracts of arbitrary shape.
#[derive(Debug, Clone, Copy, Default, PartialEq, Eq, Structural)]
pub struct Abstract;

/// A collection of raw cells.
#[derive(Debug, Default)]
pub struct Library {
    /// Library name.
    pub name: String,
    /// Unit of distance.
    pub units: Unit,
    /// Libraries within this one.
    pub libs: Vec<Library>,
    /// Cells.
    pub cells: Vec<Cell>,
}

impl Library {
    /// A library without cells.
    pub fn new(name: &str, units: Unit) -> (r: Library)
        ensures
            r.name@ == name@,
            r.units == units,
            r.libs@.len() == 0,
            r.cells@.len() == 0,
    {
        Library { name: name.to_string(), units, libs: Vec::new(), cells: Vec::new() }
    }
}

/// A raw cell: instances, arrays of instances and shapes.
#[derive(Debug, Clone, Default, PartialEq, Eq)]
pub struct Cell {
    /// Cell name.
    pub name: String,
    /// Instances.
    pub insts: Vec<Instance>,
    /// Arrays of instances.
    pub arrays: Vec<InstArray>,
    /// Shapes.
    pub elems: Vec<Element>,
}

/// A raw [`Cell`] as a value.
pub struct CellView {
    pub name: Seq<char>,
    pub insts: Seq<Instance>,
    pub arrays: Seq<InstArray>,
    pub elems: Seq<ElementView>,
}

impl View for Cell {
    type V = CellView;

    open spec fn view(&self) -> CellView {
        CellView {
            name: self.name@,
            insts: self.insts@,
            arrays: self.arrays@,
            elems: crate::geom::views(self.elems@),
        }
    }
}

/// A raw [`Library`] as a value.
pub struct LibraryView {
    pub name: Seq<char>,
    pub units: Unit,
    pub libs: Seq<Library>,
    pub cells: Seq<CellView>,
}

impl View for Library {
    type V = LibraryView;

    open spec fn view(&self) -> LibraryView {
        LibraryView {
            name: self.name@,
            units: self.units,
            libs: self.libs@,
            cells: crate::geom::views(self.cells@),
        }
    }
}

/// A grid of copies of one cell.
#[derive(Debug, Clone, Default, PartialEq, Eq)]
pub struct InstArray {
    pub inst_name: String,
    pub cell_name: String,
    pub rows: usize,
    pub cols: usize,
    pub xpitch: usize,
    pub ypitch: usize,
    pub p0: Point,
    pub reflect: bool,
    /// Angle of rotation in degrees, kept as the bit pattern of a 64-bit
    /// binary fraction.
    pub angle: Option<u64>,
}

/// The two numbers that name a layer in stream formats.
#[derive(Debug, Clone, Copy, PartialEq, Eq, Structural)]
pub struct LayerSpec(pub i16, pub i16);

impl LayerSpec {
    /// The layer named by `n1` and `n2`.
    pub fn new(n1: i16, n2: i16) -> (r: LayerSpec)
        ensures
            r == LayerSpec(n1, n2),
    {
        LayerSpec(n1, n2)
    }
}

/// The datatypes used on one layer for each kind of shape.
#[derive(Debug, Default, PartialEq, Eq)]
pub struct DataTypeMap {
    /// Layer number.
    pub layernum: i16,
    /// Datatype of drawn geometry.
    pub drawing: Option<i16>,
    /// Datatype of text.
    pub text: Option<i16>,
    /// Other datatypes, by name.
    pub other: HashMap<String, i16>,
}

/// A [`DataTypeMap`] as a value.
pub struct DataTypeMapView {
    pub layernum: i16,
    pub drawing: Option<i16>,
    pub text: Option<i16>,
    pub other: Map<String, i16>,
}

impl View for DataTypeMap {
    type V = DataTypeMapView;

    open spec fn view(&self) -> DataTypeMapView {
        DataTypeMapView {
            layernum: self.layernum,
            drawing: self.drawing,
            text: self.text,
            other: self.other@,
        }
    }
}

impl Clone for DataTypeMap {
    fn clone(&self) -> (r: Self)
        ensures
            r@ == self@,
    {
        DataTypeMap {
            layernum: self.layernum,
            drawing: self.drawing,
            text: self.text,
            other: self.other.clone(),
        }
    }
}

/// The characters of a name that may be absent.
pub open spec fn opt_chars(s: Option<String>) -> Option<Seq<char>> {
    match s {
        Some(t) => Some(t@),
        None => None,
    }
}

/// Half of `v`, rounded towards zero.
pub open spec fn half(v: int) -> int {
    if v >= 0 {
        v / 2
    } else {
        -((-v) / 2)
    }
}

/// The distance between `a` and `b`.
pub open spec fn dist(a: int, b: int) -> int {
    if a <= b {
        b - a
    } else {
        a - b
    }
}

/// The centre of the rectangle with corners `p0` and `p1`, each coordinate
/// rounded towards zero.
pub open spec fn rect_center(p0: Point, p1: Point) -> Point {
    Point { x: half(p0.x + p1.x) as isize, y: half(p0.y + p1.y) as isize }
}

/// The direction in which the rectangle with corners `p0` and `p1` is
/// longer: vertical when it is higher than wide, else horizontal.
pub open spec fn rect_dir(p0: Point, p1: Point) -> Dir {
    if dist(p0.x as int, p1.x as int) < dist(p0.y as int, p1.y as int) {
        Dir::Vert
    } else {
        Dir::Horiz
    }
}

/// A shape: a rectangle by two opposite corners, or a polygon by its
/// vertices.
#[derive(Debug, PartialEq, Eq)]
pub enum Shape {
    Rect { p0: Point, p1: Point },
    Poly { pts: Vec<Point> },
}

/// A [`Shape`] as a value.
pub enum ShapeView {
    Rect { p0: Point, p1: Point },
    Poly { pts: Seq<Point> },
}

impl ShapeView {
    /// True when every coordinate of the shape moved by `pt` is
    /// representable.
    pub open spec fn can_shift(self, pt: Point) -> bool {
        match self {
            ShapeView::Rect { p0, p1 } => p0.can_shift(&pt) && p1.can_shift(&pt),
            ShapeView::Poly { pts } => forall|i: int| 0 <= i < pts.len() ==> (#[trigger] pts[i]).can_shift(&pt),
        }
    }

    /// The shape moved by `pt`.
    pub open spec fn shifted(self, pt: Point) -> ShapeView {
        match self {
            ShapeView::Rect { p0, p1 } => ShapeView::Rect {
                p0: Point { x: (p0.x + pt.x) as isize, y: (p0.y + pt.y) as isize },
                p1: Point { x: (p1.x + pt.x) as isize, y: (p1.y + pt.y) as isize },
            },
            ShapeView::Poly { pts } => ShapeView::Poly {
                pts: Seq::new(
                    pts.len(),
                    |i: int| Point { x: (pts[i].x + pt.x) as isize, y: (pts[i].y + pt.y) as isize },
                ),
            },
        }
    }
}

impl View for Shape {
    type V = ShapeView;

    open spec fn view(&self) -> ShapeView {
        match self {
            Shape::Rect { p0, p1 } => ShapeView::Rect { p0: *p0, p1: *p1 },
            Shape::Poly { pts } => ShapeView::Poly { pts: pts@ },
        }
    }
}

impl Clone for Shape {
    fn clone(&self) -> (r: Self)
        ensures
            r@ == self@,
    {
        match self {
            Shape::Rect { p0, p1 } => Shape::Rect { p0: *p0, p1: *p1 },
            Shape::Poly { pts } => {
                let copy = pts.clone();
                assert(copy@ =~= pts@);
                Shape::Poly { pts: copy }
            },
        }
    }
}

impl Shape {
    /// True of a shape that has a first point.
    pub open spec fn has_point(&self) -> bool {
        match self {
            Shape::Rect { .. } => true,
            Shape::Poly { pts } => pts@.len() > 0,
        }
    }

    /// The first point of the shape.
    pub open spec fn spec_point0(&self) -> Point {
        match self {
            Shape::Rect { p0, .. } => *p0,
            Shape::Poly { pts } => pts@[0],
        }
    }

    /// The first point of the shape: the first corner of a rectangle, the
    /// first vertex of a polygon.
    pub fn point0(&self) -> (r: &Point)
        requires
            self.has_point(),
        ensures
            *r == self.spec_point0(),
    {
        match self {
            Shape::Rect { p0, .. } => p0,
            Shape::Poly { pts } => &pts[0],
        }
    }

    /// The centre of a rectangle, each coordinate rounded towards zero.
    pub open spec fn spec_center(&self) -> Point {
        match self {
            Shape::Rect { p0, p1 } => rect_center(*p0, *p1),
            Shape::Poly { .. } => Point { x: 0, y: 0 },
        }
    }

    /// The centre of a rectangle. Polygons have none.
    pub fn center(&self) -> (r: Point)
        requires
            self is Rect,
        ensures
            r == self.spec_center(),
            self matches Shape::Rect { p0, p1 } && r.x == half(p0.x + p1.x) && r.y == half(
                p0.y + p1.y,
            ),
    {
        match self {
            Shape::Rect { p0, p1 } => Point::new(midpoint(p0.x, p1.x), midpoint(p0.y, p1.y)),
            Shape::Poly { .. } => Point::new(0, 0),
        }
    }

    /// The direction in which a rectangle is longer: vertical when it is
    /// higher than wide, else horizontal.
    pub open spec fn spec_orientation(&self) -> Dir {
        match self {
            Shape::Rect { p0, p1 } => rect_dir(*p0, *p1),
            Shape::Poly { .. } => Dir::Horiz,
        }
    }

    /// The direction in which a rectangle is longer. Polygons have none.
    pub fn orientation(&self) -> (r: Dir)
        requires
            self is Rect,
        ensures
            r == self.spec_orientation(),
    {
        match self {
            Shape::Rect { p0, p1 } => {
                if span(p0.x, p1.x) < span(p0.y, p1.y) {
                    Dir::Vert
                } else {
                    Dir::Horiz
                }
            },
            Shape::Poly { .. } => Dir::Horiz,
        }
    }

    /// Whether every point of the shape moved by `pt` is representable.
    pub fn can_shift(&self, pt: &Point) -> (r: bool)
        ensures
            r == self@.can_shift(*pt),
    {
        match self {
            Shape::Rect { p0, p1 } => p0.checked_shift(pt).is_some() && p1.checked_shift(pt).is_some(),
            Shape::Poly { pts } => {
                let n = pts.len();
                let mut i: usize = 0;
                while i < n
                    invariant
                        i <= n,
                        n == pts@.len(),
                        self@ == (ShapeView::Poly { pts: pts@ }),
                        forall|j: int| 0 <= j < i ==> (#[trigger] pts@[j]).can_shift(pt),
                    decreases n - i,
                {
                    if pts[i].checked_shift(pt).is_none() {
                        let ghost shape = self@;
                        assert(shape matches ShapeView::Poly { pts: q } && q == pts@);
                        assert(!(pts@[i as int]).can_shift(pt));
                        assert(!shape.can_shift(*pt));
                        return false;
                    }
                    i += 1;
                }
                true
            },
        }
    }

    /// Moves every point of the shape by `pt`.
    pub fn shift(&mut self, pt: &Point)
        requires
            old(self)@.can_shift(*pt),
        ensures
            final(self)@ == old(self)@.shifted(*pt),
    {
        match self {
            Shape::Rect { p0, p1 } => {
                p0.x = p0.x + pt.x;
                p0.y = p0.y + pt.y;
                p1.x = p1.x + pt.x;
                p1.y = p1.y + pt.y;
            },
            Shape::Poly { pts } => {
                let ghost before = pts@;
                let n = pts.len();
                let mut i: usize = 0;
                while i < n
                    invariant
                        i <= n,
                        n == before.len(),
                        pts@.len() == n,
                        forall|j: int| 0 <= j < before.len() ==> (#[trigger] before[j]).can_shift(pt),
                        forall|j: int| i <= j < n ==> pts@[j] == before[j],
                        forall|j: int|
                            0 <= j < i ==> pts@[j] == (Point {
                                x: (before[j].x + pt.x) as isize,
                                y: (before[j].y + pt.y) as isize,
                            }),
                    decreases n - i,
                {
                    let p = pts[i];
                    assert(before[i as int].can_shift(pt));
                    pts.set(i, Point { x: p.x + pt.x, y: p.y + pt.y });
                    i += 1;
                }
                assert(pts@ =~= Seq::new(
                    before.len(),
                    |i: int| Point { x: (before[i].x + pt.x) as isize, y: (before[i].y + pt.y) as isize },
                ));
            },
        }
    }
}

/// The mean of `a` and `b`, rounded towards zero.
fn midpoint(a: isize, b: isize) -> (r: isize)
    ensures
        r == half(a + b),
{
    let s: i128 = a as i128 + b as i128;
    if s >= 0 {
        (s / 2) as isize
    } else {
        let t: i128 = -s;
        (-(t / 2)) as isize
    }
}

/// The distance between `a` and `b`.
fn span(a: isize, b: isize) -> (r: i128)
    ensures
        r == dist(a as int, b as int),
{
    if a <= b {
        b as i128 - a as i128
    } else {
        a as i128 - b as i128
    }
}

/// A shape on a layer, with the net it belongs to.
#[derive(Debug, PartialEq, Eq)]
pub struct Element {
    /// Net name.
    pub net: Option<String>,
    /// Layer.
    pub layer: DataTypeMap,
    /// Shape.
    pub inner: Shape,
}

/// An [`Element`] as a value.
pub struct ElementView {
    pub net: Option<Seq<char>>,
    pub layer: DataTypeMapView,
    pub inner: ShapeView,
}

impl View for Element {
    type V = ElementView;

    open spec fn view(&self) -> ElementView {
        ElementView { net: opt_chars(self.net), layer: self.layer@, inner: self.inner@ }
    }
}

impl Clone for Element {
    fn clone(&self) -> (r: Self)
        ensures
            r@ == self@,
    {
        Element { net: self.net.clone(), layer: self.layer.clone(), inner: self.inner.clone() }
    }
}

} // verus!
