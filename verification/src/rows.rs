//! One row of one layer of a cell: its tracks, cut around the instances
//! that reach into the row, with the nets assigned in the row, as
//! rectangles.

use vstd::prelude::*;
use crate::cell::{Assign, RelZ, TrackIntersection};
use crate::convert::{
    shapes, track_shapes, RawConverter, MSG_RANGE, MSG_SEGMENT, MSG_TRACK,
};
use crate::error::{failure, ErrView, LayoutError, LayoutResult};
use crate::geom::{lemma_views_concat, product, views, Dir, Point};
use crate::raw::{Element, ElementView};
use crate::segments::{scan, PeriodView, Track, TrackPeriod, TrackView, MSG_CUT};
use crate::tracks::Layer;

verus! {

/// The place that an instance takes up: its corner, the size of its cell in
/// unit pitches, and the highest layer that its cell occupies.
#[derive(Debug, Clone, Copy, PartialEq, Eq, Structural)]
pub struct Footprint {
    pub p0: Point,
    pub xmax: usize,
    pub ymax: usize,
    pub top_layer: usize,
}

impl Footprint {
    /// The size along `dir`.
    pub open spec fn spec_max(&self, dir: Dir) -> usize {
        match dir {
            Dir::Horiz => self.xmax,
            Dir::Vert => self.ymax,
        }
    }

    /// The size along `dir`.
    #[verifier::when_used_as_spec(spec_max)]
    pub fn max(&self, dir: Dir) -> (r: usize)
        ensures
            r == self.spec_max(dir),
    {
        match dir {
            Dir::Horiz => self.xmax,
            Dir::Vert => self.ymax,
        }
    }

    /// True when the footprint reaches into row `rown` of a layer of index
    /// `layer_index` whose rows are counted along `across`: its cell comes
    /// up to that layer, and the row lies within its extent.
    pub open spec fn spec_reaches(&self, layer_index: usize, across: Dir, rown: int) -> bool {
        &&& self.top_layer >= layer_index
        &&& self.p0.spec_coord(across) <= rown
        &&& rown < self.p0.spec_coord(across) + self.spec_max(across)
    }

    /// Whether the footprint reaches into row `rown`.
    pub fn reaches(&self, layer_index: usize, across: Dir, rown: usize) -> (r: bool)
        ensures
            r == self.spec_reaches(layer_index, across, rown as int),
    {
        let c: i128 = self.p0.coord(across) as i128;
        let row: i128 = rown as i128;
        self.top_layer >= layer_index && c <= row && row < c + self.max(across) as i128
    }

    /// The stretch that the footprint blocks on a track along `dir`, in
    /// distances: from its corner to its far side, each times `pitch`.
    /// `None` where the corner lies before the start of the track or the
    /// stretch is not representable.
    pub open spec fn spec_blockage(&self, dir: Dir, pitch: usize) -> Option<(usize, usize)> {
        let lo = self.p0.spec_coord(dir) as int;
        let hi = lo + self.spec_max(dir);
        if lo >= 0 && hi <= usize::MAX && hi * pitch <= usize::MAX {
            Some(((lo * pitch) as usize, (hi * pitch) as usize))
        } else {
            None
        }
    }

    /// The stretch that the footprint blocks on a track along `dir`.
    pub fn blockage(&self, dir: Dir, pitch: usize) -> (r: Option<(usize, usize)>)
        ensures
            r == self.spec_blockage(dir, pitch),
    {
        let c = self.p0.coord(dir);
        if c < 0 {
            return None;
        }
        let lo = c as usize;
        let hi = match lo.checked_add(self.max(dir)) {
            Some(h) => h,
            None => {
                return None;
            },
        };
        let b = match hi.checked_mul(pitch) {
            Some(b) => b,
            None => {
                return None;
            },
        };
        proof {
            vstd::arithmetic::mul::lemma_mul_inequality(lo as int, hi as int, pitch as int);
            assert(0 <= lo * pitch) by (nonlinear_arith)
                requires
                    0 <= lo,
                    0 <= pitch,
            ;
        }
        let a = lo * pitch;
        Some((a, b))
    }
}

/// The period after the footprint `f` is cut out of row `rown`, where it
/// reaches into the row.
pub open spec fn blocked_step(
    period: PeriodView,
    f: Footprint,
    layer_index: usize,
    dir: Dir,
    rown: int,
    pitch: usize,
) -> Result<PeriodView, ErrView> {
    if !f.spec_reaches(layer_index, dir.spec_other(), rown) {
        Ok(period)
    } else {
        match f.spec_blockage(dir, pitch) {
            None => Err(failure(MSG_RANGE@)),
            Some((a, b)) => if period.can_cut(a, b) {
                Ok(period.cut(a, b))
            } else {
                Err(failure(MSG_CUT@))
            },
        }
    }
}

/// The period after the footprints `fps` from index `from` on are cut out
/// of row `rown`, one after the other.
pub open spec fn blocked_from(
    period: PeriodView,
    fps: Seq<Footprint>,
    from: int,
    layer_index: usize,
    dir: Dir,
    rown: int,
    pitch: usize,
) -> Result<PeriodView, ErrView>
    decreases fps.len() - from,
{
    if from < 0 || from >= fps.len() {
        Ok(period)
    } else {
        match blocked_step(period, fps[from], layer_index, dir, rown, pitch) {
            Err(e) => Err(e),
            Ok(p) => blocked_from(p, fps, from + 1, layer_index, dir, rown, pitch),
        }
    }
}

/// The index of the layer that an assignment crosses.
pub open spec fn neighbour(at: TrackIntersection) -> int {
    match at.relz {
        RelZ::Above => at.layer + 1,
        RelZ::Below => at.layer - 1,
    }
}

/// True when the assignment `a` lies in row `rown` of layer `layernum`,
/// where a row holds `nsig` signal tracks: track `t` lies in row
/// `t / nsig`.
pub open spec fn in_row(a: Assign, layernum: int, rown: int, nsig: int) -> bool {
    a.at.layer == layernum && nsig > 0 && a.at.track as int / nsig == rown
}

/// The period after the net of the assignment `a` is bound, where `a` lies
/// in row `rown` of layer `layernum`: the net goes to the signal track of
/// index `track % nsig`, on the segment that covers the centre of the
/// crossing track of the neighbour layer.
pub open spec fn bound_step(
    period: PeriodView,
    a: Assign,
    layers: Seq<Layer>,
    layernum: int,
    rown: int,
) -> Result<PeriodView, ErrView> {
    let nsig = period.signals.len() as int;
    if !in_row(a, layernum, rown, nsig) {
        Ok(period)
    } else {
        let other = layers[neighbour(a.at)];
        if other.spec_num_signal_tracks() == 0 {
            Err(failure(MSG_TRACK@))
        } else if !other.has_signal_track_center(a.at.at) {
            Err(failure(MSG_RANGE@))
        } else {
            let k = a.at.track as int % nsig;
            let t = period.signals[k];
            match scan(t.segments, other.spec_signal_track_center(a.at.at), 0) {
                None => Err(failure(MSG_SEGMENT@)),
                Some(i) => Ok(
                    PeriodView { signals: period.signals.update(k, t.assigned(i, a.net@)), ..period },
                ),
            }
        }
    }
}

/// The period after the nets of the assignments `assigns` from index
/// `from` on are bound, one after the other.
pub open spec fn bound_from(
    period: PeriodView,
    assigns: Seq<Assign>,
    from: int,
    layers: Seq<Layer>,
    layernum: int,
    rown: int,
) -> Result<PeriodView, ErrView>
    decreases assigns.len() - from,
{
    if from < 0 || from >= assigns.len() {
        Ok(period)
    } else {
        match bound_step(period, assigns[from], layers, layernum, rown) {
            Err(e) => Err(e),
            Ok(p) => bound_from(p, assigns, from + 1, layers, layernum, rown),
        }
    }
}

/// True when every shape of `s` moved by `pt` is representable.
pub open spec fn can_shift_all(s: Seq<ElementView>, pt: Point) -> bool {
    forall|i: int| 0 <= i < s.len() ==> (#[trigger] s[i]).inner.can_shift(pt)
}

/// The shapes `s`, each moved by `pt`.
pub open spec fn shifted_all(s: Seq<ElementView>, pt: Point) -> Seq<ElementView> {
    Seq::new(s.len(), |i: int| ElementView { inner: s[i].inner.shifted(pt), ..s[i] })
}

/// The shapes `acc` followed by the rectangles of the tracks `tracks` from
/// index `from` on, each moved by `shift`.
pub open spec fn placed_from(acc: Seq<ElementView>, tracks: Seq<TrackView>, from: int, shift: Point) -> Result<
    Seq<ElementView>,
    ErrView,
>
    decreases tracks.len() - from,
{
    if from < 0 || from >= tracks.len() {
        Ok(acc)
    } else {
        match track_shapes(tracks[from]) {
            Err(e) => Err(e),
            Ok(s) => if !can_shift_all(s, shift) {
                Err(failure(MSG_RANGE@))
            } else {
                placed_from(acc + shifted_all(s, shift), tracks, from + 1, shift)
            },
        }
    }
}

/// The rectangles of row `rown` of layer `layernum`. The row is `n` unit
/// pitches of `pitch` long and lies `rown * pitch` across the layer. Its
/// tracks are those of one period of the layer; the footprints `fps` are
/// cut out of them, the nets of `assigns` are bound to them, and the rails
/// come before the signals.
pub open spec fn row_shapes(
    layers: Seq<Layer>,
    fps: Seq<Footprint>,
    assigns: Seq<Assign>,
    layernum: int,
    rown: int,
    n: usize,
    pitch: usize,
) -> Result<Seq<ElementView>, ErrView> {
    let layer = layers[layernum];
    if n * pitch > usize::MAX || !layer.spec_in_range() || rown * pitch > isize::MAX {
        Err(failure(MSG_RANGE@))
    } else {
        let fresh = layer.spec_track_period((n * pitch) as usize);
        match blocked_from(fresh, fps, 0, layer.index, layer.dir, rown, pitch) {
            Err(e) => Err(e),
            Ok(cut) => match bound_from(cut, assigns, 0, layers, layernum, rown) {
                Err(e) => Err(e),
                Ok(bound) => {
                    let shift = Point::spec_offset((rown * pitch) as isize, layer.dir.spec_other());
                    match placed_from(Seq::empty(), bound.rails, 0, shift) {
                        Err(e) => Err(e),
                        Ok(rails) => placed_from(rails, bound.signals, 0, shift),
                    }
                },
            },
        }
    }
}

/// True when every assignment of `assigns` names a layer below `top`, and
/// crosses one.
pub open spec fn assigns_ok(assigns: Seq<Assign>, top: usize) -> bool {
    forall|i: int|
        0 <= i < assigns.len() ==> (#[trigger] assigns[i]).at.layer < top && 0 <= neighbour(
            assigns[i].at,
        ) < top
}

/// Cuts the footprints `fps` that reach into row `rown` out of `period`.
fn cut_footprints<'a>(
    period: &mut TrackPeriod<'a>,
    fps: &Vec<Footprint>,
    layer_index: usize,
    dir: Dir,
    rown: usize,
    pitch: usize,
) -> (r: LayoutResult<()>)
    ensures
        match blocked_from(old(period)@, fps@, 0, layer_index, dir, rown as int, pitch) {
            Ok(p) => r is Ok && final(period)@ == p,
            Err(e) => r matches Err(x) && x@ == e,
        },
{
    let n = fps.len();
    let ghost start = period@;
    let mut i: usize = 0;
    while i < n
        invariant
            i <= n,
            n == fps@.len(),
            start == old(period)@,
            blocked_from(period@, fps@, i as int, layer_index, dir, rown as int, pitch) == blocked_from(
                start,
                fps@,
                0,
                layer_index,
                dir,
                rown as int,
                pitch,
            ),
        decreases n - i,
    {
        let f = fps[i];
        if f.reaches(layer_index, dir.other(), rown) {
            match f.blockage(dir, pitch) {
                None => {
                    return Err(LayoutError::msg(MSG_RANGE));
                },
                Some((a, b)) => {
                    match period.cut(a, b) {
                        Ok(()) => {},
                        Err(e) => {
                            return Err(e);
                        },
                    }
                },
            }
        }
        i += 1;
    }
    Ok(())
}

/// Binds the nets of the assignments `assigns` that lie in row `rown` of
/// layer `layernum`.
fn bind_nets<'a>(
    period: &mut TrackPeriod<'a>,
    assigns: &Vec<Assign>,
    layers: &Vec<Layer>,
    layernum: usize,
    rown: usize,
    top: usize,
) -> (r: LayoutResult<()>)
    requires
        assigns_ok(assigns@, top),
        top <= layers@.len(),
        layernum < layers@.len(),
    ensures
        match bound_from(old(period)@, assigns@, 0, layers@, layernum as int, rown as int) {
            Ok(p) => r is Ok && final(period)@ == p,
            Err(e) => r matches Err(x) && x@ == e,
        },
{
    let n = assigns.len();
    let ghost start = period@;
    let mut i: usize = 0;
    while i < n
        invariant
            i <= n,
            n == assigns@.len(),
            start == old(period)@,
            assigns_ok(assigns@, top),
            top <= layers@.len(),
            layernum < layers@.len(),
            bound_from(period@, assigns@, i as int, layers@, layernum as int, rown as int) == bound_from(
                start,
                assigns@,
                0,
                layers@,
                layernum as int,
                rown as int,
            ),
        decreases n - i,
    {
        let a = &assigns[i];
        let nsig = period.signals.len();
        assert(period@.signals.len() == nsig);
        assert(assigns@[i as int] == *a);
        if a.at.layer == layernum && nsig > 0 && a.at.track / nsig == rown {
            let other = match a.at.relz {
                RelZ::Above => &layers[layernum + 1],
                RelZ::Below => &layers[layernum - 1],
            };
            assert(*other == layers@[neighbour(a.at)]);
            if other.num_signal_tracks() == 0 {
                return Err(LayoutError::msg(MSG_TRACK));
            }
            let dist = match other.checked_signal_track_center(a.at.at) {
                Some(d) => d,
                None => {
                    return Err(LayoutError::msg(MSG_RANGE));
                },
            };
            let k = a.at.track % nsig;
            let ghost before = period@;
            let ghost found = scan(before.signals[k as int].segments, dist as int, 0);
            assert(before.signals[k as int] == period.signals@[k as int]@);
            match period.signals[k].segment_at(dist) {
                None => {
                    return Err(LayoutError::msg(MSG_SEGMENT));
                },
                Some(seg) => {
                    seg.net = Some(a.net.clone());
                },
            }
            proof {
                let j = found.unwrap();
                let t = before.signals[k as int];
                assert(period.signals@[k as int]@.segments =~= t.assigned(j, a.net@).segments);
                assert(period@.signals =~= before.signals.update(k as int, t.assigned(j, a.net@)));
                assert(period@.rails =~= before.rails);
            }
        }
        i += 1;
    }
    Ok(())
}

impl RawConverter {
    /// Appends to `elems` the rectangles of the tracks `tracks`, each moved
    /// by `shift`.
    fn place_tracks(&self, elems: &mut Vec<Element>, tracks: &Vec<Track>, shift: &Point) -> (r:
        LayoutResult<()>)
        ensures
            match placed_from(views(old(elems)@), views(tracks@), 0, *shift) {
                Ok(s) => r is Ok && views(final(elems)@) == s,
                Err(e) => r matches Err(x) && x@ == e,
            },
    {
        let n = tracks.len();
        let ghost start = views(elems@);
        let mut i: usize = 0;
        while i < n
            invariant
                i <= n,
                n == tracks@.len(),
                start == views(old(elems)@),
                placed_from(views(elems@), views(tracks@), i as int, *shift) == placed_from(
                    start,
                    views(tracks@),
                    0,
                    *shift,
                ),
            decreases n - i,
        {
            assert(views(tracks@).len() == n);
            assert(views(tracks@)[i as int] == tracks@[i as int]@);
            let mut more = match self.convert_track(&tracks[i]) {
                Ok(m) => m,
                Err(e) => {
                    return Err(e);
                },
            };
            let ghost plain = views(more@);
            let m = more.len();
            let mut j: usize = 0;
            while j < m
                invariant
                    j <= m,
                    m == more@.len(),
                    start == views(old(elems)@),
                    plain.len() == m,
                    forall|q: int| j <= q < m ==> (#[trigger] more@[q])@ == plain[q],
                    forall|q: int| 0 <= q < j ==> (#[trigger] plain[q]).inner.can_shift(*shift),
                    forall|q: int|
                        0 <= q < j ==> (#[trigger] more@[q])@ == (ElementView {
                            inner: plain[q].inner.shifted(*shift),
                            ..plain[q]
                        }),
                    placed_from(views(elems@), views(tracks@), i as int, *shift) == placed_from(
                        start,
                        views(tracks@),
                        0,
                        *shift,
                    ),
                    track_shapes(views(tracks@)[i as int]) == Ok::<Seq<ElementView>, ErrView>(plain),
                    i < n,
                    n == tracks@.len(),
                decreases m - j,
            {
                assert(views(tracks@).len() == n);
                if !more[j].inner.can_shift(shift) {
                    assert(more@[j as int]@ == plain[j as int]);
                    assert(!plain[j as int].inner.can_shift(*shift));
                    assert(!can_shift_all(plain, *shift));
                    return Err(LayoutError::msg(MSG_RANGE));
                }
                more[j].inner.shift(shift);
                j += 1;
            }
            proof {
                assert(can_shift_all(plain, *shift));
                assert(views(more@) =~= shifted_all(plain, *shift));
                lemma_views_concat(elems@, more@);
            }
            elems.append(&mut more);
            i += 1;
        }
        Ok(())
    }

    /// The rectangles of row `rown` of layer `layernum`.
    pub(crate) fn convert_row(
        &self,
        fps: &Vec<Footprint>,
        assigns: &Vec<Assign>,
        layernum: usize,
        rown: usize,
        n: usize,
        pitch: usize,
        top: usize,
    ) -> (r: LayoutResult<Vec<Element>>)
        requires
            layernum < self.lib.stack.layers@.len(),
            top <= self.lib.stack.layers@.len(),
            assigns_ok(assigns@, top),
        ensures
            shapes(r) == row_shapes(
                self.lib.stack.layers@,
                fps@,
                assigns@,
                layernum as int,
                rown as int,
                n,
                pitch,
            ),
    {
        let layer = &self.lib.stack.layers[layernum];
        let stop = match n.checked_mul(pitch) {
            Some(s) => s,
            None => {
                return Err(LayoutError::msg(MSG_RANGE));
            },
        };
        if !layer.in_range() {
            return Err(LayoutError::msg(MSG_RANGE));
        }
        let across = match product(rown, pitch) {
            Some(a) => a,
            None => {
                return Err(LayoutError::msg(MSG_RANGE));
            },
        };
        let mut period = layer.to_track_period(stop);
        match cut_footprints(&mut period, fps, layer.index, layer.dir, rown, pitch) {
            Ok(()) => {},
            Err(e) => {
                return Err(e);
            },
        }
        match bind_nets(&mut period, assigns, &self.lib.stack.layers, layernum, rown, top) {
            Ok(()) => {},
            Err(e) => {
                return Err(e);
            },
        }
        let shift = Point::offset(across as isize, layer.dir.other());
        let mut elems: Vec<Element> = Vec::new();
        assert(views(elems@) =~= Seq::<ElementView>::empty());
        match self.place_tracks(&mut elems, &period.rails, &shift) {
            Ok(()) => {},
            Err(e) => {
                return Err(e);
            },
        }
        match self.place_tracks(&mut elems, &period.signals, &shift) {
            Ok(()) => {},
            Err(e) => {
                return Err(e);
            },
        }
        Ok(elems)
    }
}

} // verus!
