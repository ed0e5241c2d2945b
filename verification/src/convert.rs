//! Conversion of a library of cells into raw layout.
//!
//! Each layer of a cell is laid out row by row. A row takes one period of
//! the layer's tracks, cuts the instances that reach into it out of the
//! tracks, binds the nets assigned in it, and becomes rectangles. The
//! outline of the cell follows as a polygon.

use vstd::prelude::*;
use crate::abstrakt::Abstract;
use crate::error::{failure, outcome, ErrView, LayoutError, LayoutResult};
use crate::cell::Library;
use crate::geom::{lemma_views_concat, product, views, Dir, Point};
use crate::outline::{is_staircase, lemma_staircase_bounds, staircase_vertex, Outline};
use crate::raw::{DataTypeMapView, Element, ElementView, Shape, ShapeView};
use crate::segments::{SegView, Track, TrackSegment, TrackView};
use crate::stack::Stack;
use crate::tracks::Layer;

verus! {

/// Said of a cell whose outline is no rectangle.
pub const MSG_OUTLINE: &'static str = "Non-rectangular outline; not supported (yet)";

/// Said where an outline is to be drawn and the stack names no layer for
/// it.
pub const MSG_BOUNDARY: &'static str = "Cannot Convert Abstract to Raw without Boundary Layer";

/// Said where tracks are to be drawn and their layer names no raw layer.
pub const MSG_RAW_LAYER: &'static str = "Raw-Layout Layer Not Defined";

/// Said where no segment of the assigned track covers the place of an
/// assignment.
pub const MSG_SEGMENT: &'static str = "COULDNT FIND SEGMENT";

/// Said where a coordinate of the result is not representable.
pub const MSG_RANGE: &'static str = "Coordinate Out Of Range";

/// Said where a cell routes on more layers than the stack has.
pub const MSG_LAYER: &'static str = "Layer Not Defined";

/// Said where an assignment names a layer, or has a neighbour layer, that
/// the cell does not route on.
pub const MSG_ASSIGN: &'static str = "Assignment Layer Not Defined";

/// Said where an assignment crosses a layer that has no signal track.
pub const MSG_TRACK: &'static str = "Signal Track Not Defined";

/// The result of a conversion that yields shapes, as a value.
pub open spec fn shapes(r: LayoutResult<Vec<Element>>) -> Result<Seq<ElementView>, ErrView> {
    match r {
        Ok(v) => Ok(views(v@)),
        Err(e) => Err(e@),
    }
}

/// The first failure of two results, or their shapes one after the other.
pub open spec fn join(a: Result<Seq<ElementView>, ErrView>, b: Result<Seq<ElementView>, ErrView>) -> Result<
    Seq<ElementView>,
    ErrView,
> {
    match a {
        Err(e) => Err(e),
        Ok(x) => match b {
            Err(e) => Err(e),
            Ok(y) => Ok(x + y),
        },
    }
}

/// True when the rectangles of the segments of `t` are representable.
pub open spec fn track_fits(t: TrackView) -> bool {
    &&& t.segments.len() > 0 ==> t.start + t.width <= isize::MAX
    &&& forall|i: int|
        0 <= i < t.segments.len() ==> (#[trigger] t.segments[i]).start <= isize::MAX
            && t.segments[i].stop <= isize::MAX
}

/// The rectangle of the segment `seg` of the track `t` on the raw layer
/// `layer`: as long as the segment along the track, as wide as the track
/// across it.
pub open spec fn segment_rect(t: TrackView, layer: DataTypeMapView, seg: SegView) -> ElementView {
    ElementView {
        net: seg.net,
        layer,
        inner: match t.dir {
            Dir::Horiz => ShapeView::Rect {
                p0: Point { x: seg.start as isize, y: t.start },
                p1: Point { x: seg.stop as isize, y: (t.start + t.width) as isize },
            },
            Dir::Vert => ShapeView::Rect {
                p0: Point { x: t.start, y: seg.start as isize },
                p1: Point { x: (t.start + t.width) as isize, y: seg.stop as isize },
            },
        },
    }
}

/// The rectangles of the track `t`, one for each segment in order.
pub open spec fn track_shapes(t: TrackView) -> Result<Seq<ElementView>, ErrView> {
    match t.layer.raw {
        None => Err(failure(MSG_RAW_LAYER@)),
        Some(layer) => if !track_fits(t) {
            Err(failure(MSG_RANGE@))
        } else {
            Ok(Seq::new(t.segments.len(), |i: int| segment_rect(t, layer@, t.segments[i])))
        },
    }
}

/// True when the outline `o`, scaled by the pitches of `stack`, is
/// representable.
pub open spec fn outline_fits(stack: Stack, o: Outline) -> bool {
    o.spec_xmax() * stack.xpitch <= isize::MAX && o.spec_ymax() * stack.ypitch <= isize::MAX
}

/// The vertices of the outline `o`, scaled by the pitches of `stack`.
pub open spec fn scaled_outline(stack: Stack, o: Outline) -> Seq<Point> {
    Seq::new(
        2 * o.xs().len() + 2,
        |i: int|
            Point {
                x: (staircase_vertex(o.xs(), o.ys(), i).0 * stack.xpitch) as isize,
                y: (staircase_vertex(o.xs(), o.ys(), i).1 * stack.ypitch) as isize,
            },
    )
}

/// The polygon of the outline `o` on the boundary layer of `stack`.
pub open spec fn outline_shape(stack: Stack, o: Outline) -> Result<ElementView, ErrView> {
    match stack.boundary_layer {
        None => Err(failure(MSG_BOUNDARY@)),
        Some(layer) => if !outline_fits(stack, o) {
            Err(failure(MSG_RANGE@))
        } else {
            Ok(
                ElementView {
                    net: None,
                    layer: layer@,
                    inner: ShapeView::Poly { pts: scaled_outline(stack, o) },
                },
            )
        },
    }
}

/// The raw cell of the abstract `abs`: its name and its outline.
pub open spec fn abstract_cell(stack: Stack, abs: Abstract) -> Result<crate::raw::CellView, ErrView> {
    match outline_shape(stack, abs.outline) {
        Err(e) => Err(e),
        Ok(o) => Ok(
            crate::raw::CellView {
                name: abs.name@,
                insts: Seq::empty(),
                arrays: Seq::empty(),
                elems: seq![o],
            },
        ),
    }
}

/// The track `t` with a single segment from 0 to `stop` that carries no
/// net.
pub open spec fn unit_track(t: TrackView, stop: usize) -> TrackView {
    TrackView { segments: seq![SegView { net: None, start: 0, stop }], ..t }
}

/// The rectangles of the tracks `tracks`, each given one segment from 0 to
/// `stop`.
pub open spec fn unit_shapes(tracks: Seq<TrackView>, stop: usize) -> Result<Seq<ElementView>, ErrView>
    decreases tracks.len(),
{
    if tracks.len() == 0 {
        Ok(Seq::empty())
    } else {
        join(unit_shapes(tracks.drop_last(), stop), track_shapes(unit_track(tracks.last(), stop)))
    }
}

/// The raw cell that shows one period of `layer`, one unit pitch long.
pub open spec fn unit_cell(stack: Stack, layer: Layer) -> Result<crate::raw::CellView, ErrView> {
    if !layer.spec_in_range() {
        Err(failure(MSG_RANGE@))
    } else {
        match unit_shapes(layer.spec_tracks(), stack.spec_pitch(layer.dir)) {
            Err(e) => Err(e),
            Ok(elems) => Ok(
                crate::raw::CellView {
                    name: layer.name@ + "::unit"@,
                    insts: Seq::empty(),
                    arrays: Seq::empty(),
                    elems,
                },
            ),
        }
    }
}

/// The vertices of `outline`, scaled by `xpitch` and `ypitch`.
fn scaled_points(outline: &Outline, stack: &Stack) -> (pts: Vec<Point>)
    requires
        outline_fits(*stack, *outline),
    ensures
        pts@ == scaled_outline(*stack, *outline),
{
    let xs = outline.x();
    let ys = outline.y();
    let n = xs.len();
    let xpitch = stack.xpitch;
    let ypitch = stack.ypitch;
    let ghost goal = scaled_outline(*stack, *outline);
    let mut pts: Vec<Point> = Vec::new();
    pts.push(Point { x: 0, y: 0 });
    proof {
        assert(0 * xpitch == 0);
        assert(0 * ypitch == 0);
        assert(staircase_vertex(xs@, ys@, 0) == (0int, 0int));
        assert(staircase_vertex(xs@, ys@, 2 * n + 1) == (0int, ys@[n - 1] as int));
        assert(goal[0] == (Point { x: 0, y: 0 }));
    }
    let mut yp: isize = 0;
    let mut i: usize = 0;
    while i < n
        invariant
            i <= n,
            n == xs@.len(),
            0 * xpitch == 0,
            0 * ypitch == 0,
            xs@ == outline.xs(),
            ys@ == outline.ys(),
            is_staircase(xs@, ys@),
            outline_fits(*stack, *outline),
            xpitch == stack.xpitch,
            ypitch == stack.ypitch,
            goal == scaled_outline(*stack, *outline),
            pts@.len() == 2 * i + 1,
            yp == (if i == 0 {
                0int
            } else {
                ys@[i - 1] * ypitch
            }),
            forall|j: int| 0 <= j < pts@.len() ==> pts@[j] == goal[j],
        decreases n - i,
    {
        proof {
            lemma_staircase_bounds(xs@, ys@, i as int);
            assert((2 * i + 1) % 2 == 1 && (2 * i + 1 - 1) / 2 == i as int);
            assert((2 * i + 2) % 2 == 0 && (2 * i + 2) / 2 - 1 == i as int);
            vstd::arithmetic::mul::lemma_mul_inequality(xs@[i as int] as int, xs@[0] as int, xpitch as int);
            vstd::arithmetic::mul::lemma_mul_inequality(
                ys@[i as int] as int,
                ys@[n - 1] as int,
                ypitch as int,
            );
            assert(0 <= xs@[i as int] * xpitch) by (nonlinear_arith)
                requires
                    0 <= xs@[i as int],
                    0 <= xpitch,
            ;
            assert(0 <= ys@[i as int] * ypitch) by (nonlinear_arith)
                requires
                    0 <= ys@[i as int],
                    0 <= ypitch,
            ;
        }
        let xp: isize = (xs[i] * xpitch) as isize;
        pts.push(Point::new(xp, yp));
        proof {
            let v = staircase_vertex(xs@, ys@, 2 * i + 1);
            assert(v.0 == xs@[i as int]);
            assert(v.1 == (if i == 0 {
                0int
            } else {
                ys@[i - 1] as int
            }));
            assert(goal[2 * i + 1] == pts@[2 * i + 1]);
        }
        yp = (ys[i] * ypitch) as isize;
        pts.push(Point::new(xp, yp));
        proof {
            let v = staircase_vertex(xs@, ys@, 2 * i + 2);
            assert(v.0 == xs@[i as int]);
            assert(v.1 == ys@[i as int]);
            assert(goal[2 * i + 2] == pts@[2 * i + 2]);
        }
        i += 1;
    }
    pts.push(Point::new(0, yp));
    proof {
        let v = staircase_vertex(xs@, ys@, 2 * n + 1);
        assert(v == (0int, ys@[n - 1] as int));
        assert(goal[2 * n + 1] == pts@[2 * n + 1]);
    }
    assert(pts@ =~= goal);
    pts
}

/// Converts a library of cells into raw layout.
#[derive(Debug)]
pub struct RawConverter {
    pub lib: Library,
}

impl RawConverter {
    /// The rectangles of the segments of `track`, in order. Fails where the
    /// layer of the track names no raw layer, and where a rectangle is not
    /// representable.
    pub fn convert_track(&self, track: &Track) -> (r: LayoutResult<Vec<Element>>)
        ensures
            shapes(r) == track_shapes(track@),
    {
        let layer = match &track.layer.raw {
            Some(l) => l,
            None => {
                return Err(LayoutError::msg(MSG_RAW_LAYER));
            },
        };
        let n = track.segments.len();
        let ghost goal = Seq::new(
            track@.segments.len(),
            |i: int| segment_rect(track@, layer@, track@.segments[i]),
        );
        let mut elems: Vec<Element> = Vec::new();
        let mut i: usize = 0;
        while i < n
            invariant
                i <= n,
                n == track.segments@.len(),
                track.layer.raw == Some(*layer),
                goal == Seq::new(
                    track@.segments.len(),
                    |i: int| segment_rect(track@, layer@, track@.segments[i]),
                ),
                views(elems@) =~= goal.take(i as int),
                forall|j: int|
                    0 <= j < i ==> (#[trigger] track@.segments[j]).start <= isize::MAX
                        && track@.segments[j].stop <= isize::MAX,
                i > 0 ==> track.start + track.width <= isize::MAX,
            decreases n - i,
        {
            let seg = &track.segments[i];
            assert(track@.segments[i as int] == seg@);
            let far = match track.start.checked_add_unsigned(track.width) {
                Some(f) => f,
                None => {
                    return Err(LayoutError::msg(MSG_RANGE));
                },
            };
            if seg.start > isize::MAX as usize || seg.stop > isize::MAX as usize {
                return Err(LayoutError::msg(MSG_RANGE));
            }
            let inner = match track.dir {
                Dir::Horiz => Shape::Rect {
                    p0: Point { x: seg.start as isize, y: track.start },
                    p1: Point { x: seg.stop as isize, y: far },
                },
                Dir::Vert => Shape::Rect {
                    p0: Point { x: track.start, y: seg.start as isize },
                    p1: Point { x: far, y: seg.stop as isize },
                },
            };
            let e = Element { net: seg.net.clone(), layer: layer.clone(), inner };
            assert(e@ == segment_rect(track@, layer@, seg@));
            let ghost before = views(elems@);
            elems.push(e);
            assert(views(elems@) =~= before.push(e@));
            i += 1;
        }
        assert(goal.take(n as int) =~= goal);
        Ok(elems)
    }

    /// The outline `outline` as a polygon on the boundary layer, scaled
    /// from unit pitches to distances. Fails where the stack names no
    /// boundary layer, and where the scaled outline is not representable.
    pub fn convert_outline(&self, outline: &Outline) -> (r: LayoutResult<Element>)
        ensures
            outcome(r) == outline_shape(self.lib.stack, *outline),
    {
        let layer = match &self.lib.stack.boundary_layer {
            Some(l) => l,
            None => {
                return Err(LayoutError::msg(MSG_BOUNDARY));
            },
        };
        let fits = product(outline.xmax(), self.lib.stack.xpitch).is_some() && product(
            outline.ymax(),
            self.lib.stack.ypitch,
        ).is_some();
        if !fits {
            return Err(LayoutError::msg(MSG_RANGE));
        }
        let pts = scaled_points(outline, &self.lib.stack);
        Ok(Element { net: None, layer: layer.clone(), inner: Shape::Poly { pts } })
    }

    /// The raw cell of an abstract: its name and its outline. Ports are not
    /// drawn.
    pub fn convert_abstract(&self, abs: &Abstract) -> (r: LayoutResult<crate::raw::Cell>)
        ensures
            outcome(r) == abstract_cell(self.lib.stack, *abs),
    {
        let outline = match self.convert_outline(&abs.outline) {
            Ok(o) => o,
            Err(e) => {
                return Err(e);
            },
        };
        let mut elems: Vec<Element> = Vec::new();
        elems.push(outline);
        assert(views(elems@) =~= seq![outline@]);
        Ok(crate::raw::Cell { name: abs.name.clone(), insts: Vec::new(), arrays: Vec::new(), elems })
    }

    /// The raw cell that shows one period of `layer`: every track as one
    /// rectangle, one unit pitch long. It is named after the layer, with
    /// `::unit` behind the name. Fails where the period or a rectangle is
    /// not representable, and where the layer has tracks and names no raw
    /// layer.
    pub fn convert_layer_unit(&self, layer: &Layer) -> (r: LayoutResult<crate::raw::Cell>)
        ensures
            outcome(r) == unit_cell(self.lib.stack, *layer),
    {
        let pitch = self.lib.stack.pitch(layer.dir);
        if !layer.in_range() {
            return Err(LayoutError::msg(MSG_RANGE));
        }
        let mut tracks = layer.tracks();
        let ghost plain = views(tracks@);
        let n = tracks.len();
        let mut elems: Vec<Element> = Vec::new();
        let mut i: usize = 0;
        assert(views(elems@) =~= Seq::<ElementView>::empty());
        assert(plain.take(0).len() == 0);
        while i < n
            invariant
                i <= n,
                n == tracks@.len(),
                plain.len() == n,
                plain == layer.spec_tracks(),
                layer.spec_in_range(),
                pitch == self.lib.stack.spec_pitch(layer.dir),
                forall|j: int| i <= j < n ==> (#[trigger] tracks@[j])@ == plain[j],
                unit_shapes(plain.take(i as int), pitch) == Ok::<Seq<ElementView>, ErrView>(
                    views(elems@),
                ),
            decreases n - i,
        {
            proof {
                let next = plain.take(i + 1);
                assert(next.drop_last() =~= plain.take(i as int));
                assert(next.last() == plain[i as int]);
                assert(tracks@[i as int]@ == plain[i as int]);
            }
            let mut segments: Vec<TrackSegment> = Vec::new();
            segments.push(TrackSegment { net: None, start: 0, stop: pitch });
            tracks[i].segments = segments;
            assert(tracks@[i as int]@.segments =~= seq![SegView { net: None, start: 0, stop: pitch }]);
            assert(tracks@[i as int]@ == unit_track(plain[i as int], pitch));
            let mut more = match self.convert_track(&tracks[i]) {
                Ok(m) => m,
                Err(e) => {
                    proof {
                        lemma_unit_shapes_fail(plain, i as int, pitch);
                    }
                    return Err(e);
                },
            };
            proof {
                lemma_views_concat(elems@, more@);
            }
            elems.append(&mut more);
            i += 1;
        }
        assert(plain.take(n as int) =~= plain);
        let name = layer.name.clone().concat("::unit");
        Ok(crate::raw::Cell { name, insts: Vec::new(), arrays: Vec::new(), elems })
    }
}

/// Where the rectangles of the first `i` tracks can be had and those of the
/// next cannot, those of all tracks cannot, for the same reason.
proof fn lemma_unit_shapes_fail(tracks: Seq<TrackView>, i: int, stop: usize)
    requires
        0 <= i < tracks.len(),
        unit_shapes(tracks.take(i), stop) is Ok,
        track_shapes(unit_track(tracks[i], stop)) is Err,
    ensures
        unit_shapes(tracks, stop) == track_shapes(unit_track(tracks[i], stop)),
    decreases tracks.len(),
{
    if i == tracks.len() - 1 {
        assert(tracks.drop_last() =~= tracks.take(i));
    } else {
        assert(tracks.drop_last().take(i) =~= tracks.take(i));
        lemma_unit_shapes_fail(tracks.drop_last(), i, stop);
    }
}

} // verus!
