//! Tracks and their segments: cutting, stopping and finding.

use vstd::prelude::*;
use crate::error::{failure, LayoutError, LayoutResult};
use crate::geom::{views, Dir};
use crate::raw::opt_chars;
use crate::tracks::{Layer, TrackType};

verus! {

/// Said where a track cannot be cut.
pub const MSG_CUT: &'static str = "Error Cutting Track";

/// Said where a track cannot be stopped.
pub const MSG_STOP: &'static str = "Error Stopping Track";

/// A stretch of one track that carries one net, or none.
#[derive(Debug, PartialEq, Eq)]
pub struct TrackSegment {
    /// Net name.
    pub net: Option<String>,
    /// Where the segment starts along the track.
    pub start: usize,
    /// Where the segment stops along the track.
    pub stop: usize,
}

/// A [`TrackSegment`] as a value.
pub struct SegView {
    pub net: Option<Seq<char>>,
    pub start: usize,
    pub stop: usize,
}

impl View for TrackSegment {
    type V = SegView;

    open spec fn view(&self) -> SegView {
        SegView { net: opt_chars(self.net), start: self.start, stop: self.stop }
    }
}

impl Clone for TrackSegment {
    fn clone(&self) -> (r: Self)
        ensures
            r == *self,
    {
        TrackSegment { net: self.net.clone(), start: self.start, stop: self.stop }
    }
}

impl SegView {
    /// True when `dist` lies within the segment, both ends included.
    pub open spec fn covers(self, dist: int) -> bool {
        self.start <= dist <= self.stop
    }
}

/// What is left of `seg` when the stretch from `start` to `stop` is cut out
/// of its track: the segment itself where the cut does not reach into it,
/// nothing where the cut covers it, its head or its tail where the cut
/// takes the other end, and head and tail where the cut lies within it.
pub open spec fn cut_one(seg: SegView, start: usize, stop: usize) -> Seq<SegView> {
    if seg.stop <= start || stop <= seg.start {
        seq![seg]
    } else if start <= seg.start && stop >= seg.stop {
        Seq::empty()
    } else if start > seg.start && stop >= seg.stop {
        seq![SegView { stop: start, ..seg }]
    } else if start <= seg.start && stop < seg.stop {
        seq![SegView { start: stop, ..seg }]
    } else {
        seq![SegView { stop: start, ..seg }, SegView { start: stop, ..seg }]
    }
}

/// What is left of the segments `segs`, in order, when the stretch from
/// `start` to `stop` is cut out.
pub open spec fn cut_all(segs: Seq<SegView>, start: usize, stop: usize) -> Seq<SegView>
    decreases segs.len(),
{
    if segs.len() == 0 {
        Seq::empty()
    } else {
        cut_all(segs.drop_last(), start, stop) + cut_one(segs.last(), start, stop)
    }
}

/// True of segments that each start before they stop, lie in order and do
/// not overlap.
pub open spec fn ordered(segs: Seq<SegView>) -> bool {
    &&& forall|i: int| 0 <= i < segs.len() ==> (#[trigger] segs[i]).start < segs[i].stop
    &&& forall|i: int, j: int|
        0 <= i < j < segs.len() ==> (#[trigger] segs[i]).stop <= (#[trigger] segs[j]).start
}

/// The index of the segment that a walk from index `from` finds for `dist`:
/// the first that covers `dist`, unless a segment that starts behind `dist`
/// comes before it.
pub open spec fn scan(segs: Seq<SegView>, dist: int, from: int) -> Option<int>
    decreases segs.len() - from,
{
    if from < 0 || from >= segs.len() {
        None
    } else if segs[from].start > dist {
        None
    } else if segs[from].covers(dist) {
        Some(from)
    } else {
        scan(segs, dist, from + 1)
    }
}

/// One lane of a layer: where it lies across the layer, how wide it is, and
/// the segments it is made of along its length.
#[derive(Debug)]
pub struct Track<'a> {
    /// The layer of the track.
    pub layer: &'a Layer,
    /// Rail or signal.
    pub ttype: TrackType,
    /// Index of the track among its kind.
    pub index: usize,
    /// Direction.
    pub dir: Dir,
    /// Where the track starts across its direction.
    pub start: isize,
    /// Width.
    pub width: usize,
    /// Segments, in the order of their position.
    pub segments: Vec<TrackSegment>,
}

/// A [`Track`] as a value.
pub struct TrackView {
    pub layer: Layer,
    pub ttype: TrackType,
    pub index: usize,
    pub dir: Dir,
    pub start: isize,
    pub width: usize,
    pub segments: Seq<SegView>,
}

impl<'a> View for Track<'a> {
    type V = TrackView;

    open spec fn view(&self) -> TrackView {
        TrackView {
            layer: *self.layer,
            ttype: self.ttype,
            index: self.index,
            dir: self.dir,
            start: self.start,
            width: self.width,
            segments: views(self.segments@),
        }
    }
}

impl<'a> Clone for Track<'a> {
    fn clone(&self) -> (r: Self)
        ensures
            r@ == self@,
    {
        let segments = self.segments.clone();
        assert(views(segments@) =~= views(self.segments@));
        Track {
            layer: self.layer,
            ttype: self.ttype,
            index: self.index,
            dir: self.dir,
            start: self.start,
            width: self.width,
            segments,
        }
    }
}

impl TrackView {
    /// True of a track whose segments each start before they stop, lie in
    /// order and do not overlap.
    pub open spec fn well_formed(self) -> bool {
        ordered(self.segments)
    }

    /// True when the track can be cut from `start` to `stop`: the stretch is
    /// not empty and the track has a segment.
    pub open spec fn can_cut(self, start: usize, stop: usize) -> bool {
        self.segments.len() > 0 && start < stop
    }

    /// The track with the stretch from `start` to `stop` cut out.
    pub open spec fn cut(self, start: usize, stop: usize) -> TrackView {
        TrackView { segments: cut_all(self.segments, start, stop), ..self }
    }

    /// The track with its last segment stopping at `stop`.
    pub open spec fn stopped(self, stop: usize) -> TrackView {
        TrackView {
            segments: self.segments.update(
                self.segments.len() - 1,
                SegView { stop, ..self.segments.last() },
            ),
            ..self
        }
    }

    /// The track with the net `net` on its segment of index `i`.
    pub open spec fn assigned(self, i: int, net: Seq<char>) -> TrackView {
        TrackView {
            segments: self.segments.update(i, SegView { net: Some(net), ..self.segments[i] }),
            ..self
        }
    }
}

impl<'a> Track<'a> {
    /// The first segment whose stretch, both ends included, holds `dist`.
    /// The segments are taken to be in order: the search ends without a
    /// result at the first segment that starts behind `dist`.
    pub fn segment_at(&mut self, dist: isize) -> (r: Option<&mut TrackSegment>)
        ensures
            r is Some <==> scan(old(self)@.segments, dist as int, 0) is Some,
            r is None ==> *final(self) == *old(self),
            r matches Some(seg) ==> {
                let i = scan(old(self)@.segments, dist as int, 0).unwrap();
                &&& 0 <= i < old(self).segments@.len()
                &&& *seg == old(self).segments@[i]
                &&& final(self).segments@ == old(self).segments@.update(i, *final(seg))
                &&& final(self).layer == old(self).layer
                &&& final(self).ttype == old(self).ttype
                &&& final(self).index == old(self).index
                &&& final(self).dir == old(self).dir
                &&& final(self).start == old(self).start
                &&& final(self).width == old(self).width
            },
    {
        if dist < 0 {
            assert(scan(self@.segments, dist as int, 0) is None);
            return None;
        }
        let d: usize = dist as usize;
        let n = self.segments.len();
        let mut i: usize = 0;
        while i < n
            invariant
                i <= n,
                n == self.segments@.len(),
                *self == *old(self),
                d == dist,
                scan(self@.segments, dist as int, 0) == scan(self@.segments, dist as int, i as int),
            decreases n - i,
        {
            assert(self@.segments[i as int] == self.segments@[i as int]@);
            if self.segments[i].start > d {
                return None;
            }
            if self.segments[i].stop >= d {
                return Some(&mut self.segments[i]);
            }
            i += 1;
        }
        None
    }

    /// Cuts the stretch from `start` to `stop` out of the track: segments
    /// that it covers go, segments that it reaches into lose that end, and
    /// a segment that it lies within is split in two.
    pub fn cut(&mut self, start: usize, stop: usize) -> (r: LayoutResult<()>)
        ensures
            r is Ok <==> old(self)@.can_cut(start, stop),
            r is Ok ==> final(self)@ == old(self)@.cut(start, stop),
            r matches Err(e) ==> e@ == failure(MSG_CUT@) && *final(self) == *old(self),
            old(self)@.well_formed() ==> final(self)@.well_formed(),
    {
        proof {
            if self@.well_formed() && start < stop {
                lemma_cut_ordered(self@.segments, start, stop);
            }
        }
        if self.segments.len() == 0 || stop <= start {
            return Err(LayoutError::msg(MSG_CUT));
        }
        let n = self.segments.len();
        let mut out: Vec<TrackSegment> = Vec::new();
        let mut i: usize = 0;
        while i < n
            invariant
                i <= n,
                n == self.segments@.len(),
                *self == *old(self),
                views(out@) == cut_all(views(self.segments@).take(i as int), start, stop),
            decreases n - i,
        {
            let seg = &self.segments[i];
            let ghost before = views(out@);
            proof {
                let next = views(self.segments@).take(i + 1);
                assert(next.drop_last() =~= views(self.segments@).take(i as int));
                assert(next.last() == seg@);
            }
            if seg.stop <= start || stop <= seg.start {
                out.push(seg.clone());
                assert(views(out@) =~= before + cut_one(seg@, start, stop));
            } else if start <= seg.start && stop >= seg.stop {
                assert(views(out@) =~= before + cut_one(seg@, start, stop));
            } else if start > seg.start && stop >= seg.stop {
                let mut head = seg.clone();
                head.stop = start;
                out.push(head);
                assert(views(out@) =~= before + cut_one(seg@, start, stop));
            } else if start <= seg.start && stop < seg.stop {
                let mut tail = seg.clone();
                tail.start = stop;
                out.push(tail);
                assert(views(out@) =~= before + cut_one(seg@, start, stop));
            } else {
                let mut head = seg.clone();
                head.stop = start;
                let mut tail = seg.clone();
                tail.start = stop;
                out.push(head);
                out.push(tail);
                assert(views(out@) =~= before + cut_one(seg@, start, stop));
            }
            i += 1;
        }
        assert(views(self.segments@).take(n as int) =~= views(self.segments@));
        self.segments = out;
        Ok(())
    }

    /// Lets the last segment of the track stop at `stop`.
    pub fn stop(&mut self, stop: usize) -> (r: LayoutResult<()>)
        ensures
            r is Ok <==> old(self)@.segments.len() > 0,
            r is Ok ==> final(self)@ == old(self)@.stopped(stop),
            r matches Err(e) ==> e@ == failure(MSG_STOP@) && *final(self) == *old(self),
    {
        if self.segments.len() == 0 {
            return Err(LayoutError::msg(MSG_STOP));
        }
        let idx = self.segments.len() - 1;
        self.segments[idx].stop = stop;
        assert(self@.segments =~= old(self)@.stopped(stop).segments);
        Ok(())
    }
}

/// The tracks of one period of a layer: signals and rails apart, since nets
/// are assigned to signal tracks only.
#[derive(Debug)]
pub struct TrackPeriod<'a> {
    pub signals: Vec<Track<'a>>,
    pub rails: Vec<Track<'a>>,
}

/// A [`TrackPeriod`] as a value.
pub struct PeriodView {
    pub signals: Seq<TrackView>,
    pub rails: Seq<TrackView>,
}

impl<'a> View for TrackPeriod<'a> {
    type V = PeriodView;

    open spec fn view(&self) -> PeriodView {
        PeriodView { signals: views(self.signals@), rails: views(self.rails@) }
    }
}

impl<'a> Clone for TrackPeriod<'a> {
    fn clone(&self) -> (r: Self)
        ensures
            r@ == self@,
    {
        let signals = self.signals.clone();
        let rails = self.rails.clone();
        assert(views(signals@) =~= views(self.signals@));
        assert(views(rails@) =~= views(self.rails@));
        TrackPeriod { signals, rails }
    }
}

/// The number of tracks at the head of `tracks` that can be cut from
/// `start` to `stop`.
pub open spec fn cuttable_prefix(tracks: Seq<TrackView>, start: usize, stop: usize) -> int
    decreases tracks.len(),
{
    if tracks.len() == 0 {
        0
    } else {
        let k = cuttable_prefix(tracks.drop_last(), start, stop);
        if k == tracks.len() - 1 && tracks.last().can_cut(start, stop) {
            k + 1
        } else {
            k
        }
    }
}

/// The tracks `tracks` with the first `k` of them cut from `start` to
/// `stop`.
pub open spec fn cut_first(tracks: Seq<TrackView>, k: int, start: usize, stop: usize) -> Seq<
    TrackView,
> {
    Seq::new(
        tracks.len(),
        |i: int|
            if i < k {
                tracks[i].cut(start, stop)
            } else {
                tracks[i]
            },
    )
}

/// The number of tracks at the head of `tracks` that have a segment.
pub open spec fn stoppable_prefix(tracks: Seq<TrackView>) -> int
    decreases tracks.len(),
{
    if tracks.len() == 0 {
        0
    } else {
        let k = stoppable_prefix(tracks.drop_last());
        if k == tracks.len() - 1 && tracks.last().segments.len() > 0 {
            k + 1
        } else {
            k
        }
    }
}

/// The tracks `tracks` with the first `k` of them stopped at `stop`.
pub open spec fn stop_first(tracks: Seq<TrackView>, k: int, stop: usize) -> Seq<TrackView> {
    Seq::new(
        tracks.len(),
        |i: int|
            if i < k {
                tracks[i].stopped(stop)
            } else {
                tracks[i]
            },
    )
}

impl PeriodView {
    /// True when every track of the period can be cut from `start` to
    /// `stop`.
    pub open spec fn can_cut(self, start: usize, stop: usize) -> bool {
        cuttable_prefix(self.rails, start, stop) == self.rails.len() && cuttable_prefix(
            self.signals,
            start,
            stop,
        ) == self.signals.len()
    }

    /// The period after cutting from `start` to `stop`: the rails in order,
    /// then the signals, up to the first track that cannot be cut.
    pub open spec fn cut(self, start: usize, stop: usize) -> PeriodView {
        let kr = cuttable_prefix(self.rails, start, stop);
        let ks = if kr == self.rails.len() {
            cuttable_prefix(self.signals, start, stop)
        } else {
            0
        };
        PeriodView {
            rails: cut_first(self.rails, kr, start, stop),
            signals: cut_first(self.signals, ks, start, stop),
        }
    }

    /// True when every track of the period has a segment.
    pub open spec fn can_stop(self) -> bool {
        stoppable_prefix(self.rails) == self.rails.len() && stoppable_prefix(self.signals)
            == self.signals.len()
    }

    /// The period after stopping at `stop`: the rails in order, then the
    /// signals, up to the first track without a segment.
    pub open spec fn stopped(self, stop: usize) -> PeriodView {
        let kr = stoppable_prefix(self.rails);
        let ks = if kr == self.rails.len() {
            stoppable_prefix(self.signals)
        } else {
            0
        };
        PeriodView {
            rails: stop_first(self.rails, kr, stop),
            signals: stop_first(self.signals, ks, stop),
        }
    }
}

/// Cuts every track of `tracks` from `start` to `stop`, in order, and ends
/// at the first that cannot be cut.
fn cut_tracks<'a>(tracks: &mut Vec<Track<'a>>, start: usize, stop: usize) -> (r: LayoutResult<()>)
    ensures
        r is Ok <==> cuttable_prefix(views(old(tracks)@), start, stop) == old(tracks)@.len(),
        views(final(tracks)@) == cut_first(
            views(old(tracks)@),
            cuttable_prefix(views(old(tracks)@), start, stop),
            start,
            stop,
        ),
        r matches Err(e) ==> e@ == failure(MSG_CUT@),
{
    let n = tracks.len();
    let mut i: usize = 0;
    while i < n
        invariant
            i <= n,
            n == tracks@.len(),
            n == old(tracks)@.len(),
            cuttable_prefix(views(old(tracks)@).take(i as int), start, stop) == i,
            views(tracks@) =~= cut_first(views(old(tracks)@), i as int, start, stop),
        decreases n - i,
    {
        proof {
            let next = views(old(tracks)@).take(i + 1);
            assert(next.drop_last() =~= views(old(tracks)@).take(i as int));
            assert(next.last() == views(old(tracks)@)[i as int]);
            assert(views(tracks@)[i as int] == views(old(tracks)@)[i as int]);
        }
        let ghost before = views(tracks@);
        match tracks[i].cut(start, stop) {
            Ok(()) => {},
            Err(e) => {
                proof {
                    lemma_cuttable_stuck(views(old(tracks)@), i as int, start, stop);
                }
                return Err(e);
            },
        }
        assert(views(tracks@) =~= before.update(i as int, before[i as int].cut(start, stop)));
        i += 1;
    }
    assert(views(old(tracks)@).take(n as int) =~= views(old(tracks)@));
    Ok(())
}

/// Where the first `i` tracks can be cut and the next cannot, exactly `i`
/// tracks at the head of the whole can be cut.
proof fn lemma_cuttable_stuck(tracks: Seq<TrackView>, i: int, start: usize, stop: usize)
    requires
        0 <= i < tracks.len(),
        cuttable_prefix(tracks.take(i), start, stop) == i,
        !tracks[i].can_cut(start, stop),
    ensures
        cuttable_prefix(tracks, start, stop) == i,
    decreases tracks.len(),
{
    if i == tracks.len() - 1 {
        assert(tracks.drop_last() =~= tracks.take(i));
    } else {
        assert(tracks.drop_last().take(i) =~= tracks.take(i));
        lemma_cuttable_stuck(tracks.drop_last(), i, start, stop);
    }
}

/// Stops every track of `tracks` at `stop`, in order, and ends at the first
/// that has no segment.
fn stop_tracks<'a>(tracks: &mut Vec<Track<'a>>, stop: usize) -> (r: LayoutResult<()>)
    ensures
        r is Ok <==> stoppable_prefix(views(old(tracks)@)) == old(tracks)@.len(),
        views(final(tracks)@) == stop_first(
            views(old(tracks)@),
            stoppable_prefix(views(old(tracks)@)),
            stop,
        ),
        r matches Err(e) ==> e@ == failure(MSG_STOP@),
{
    let n = tracks.len();
    let mut i: usize = 0;
    while i < n
        invariant
            i <= n,
            n == tracks@.len(),
            n == old(tracks)@.len(),
            stoppable_prefix(views(old(tracks)@).take(i as int)) == i,
            views(tracks@) =~= stop_first(views(old(tracks)@), i as int, stop),
        decreases n - i,
    {
        proof {
            let next = views(old(tracks)@).take(i + 1);
            assert(next.drop_last() =~= views(old(tracks)@).take(i as int));
            assert(next.last() == views(old(tracks)@)[i as int]);
            assert(views(tracks@)[i as int] == views(old(tracks)@)[i as int]);
        }
        let ghost before = views(tracks@);
        match tracks[i].stop(stop) {
            Ok(()) => {},
            Err(e) => {
                proof {
                    lemma_stoppable_stuck(views(old(tracks)@), i as int);
                }
                return Err(e);
            },
        }
        assert(views(tracks@) =~= before.update(i as int, before[i as int].stopped(stop)));
        i += 1;
    }
    assert(views(old(tracks)@).take(n as int) =~= views(old(tracks)@));
    Ok(())
}

/// Where the first `i` tracks have a segment and the next has none, exactly
/// `i` tracks at the head of the whole have one.
proof fn lemma_stoppable_stuck(tracks: Seq<TrackView>, i: int)
    requires
        0 <= i < tracks.len(),
        stoppable_prefix(tracks.take(i)) == i,
        tracks[i].segments.len() == 0,
    ensures
        stoppable_prefix(tracks) == i,
    decreases tracks.len(),
{
    if i == tracks.len() - 1 {
        assert(tracks.drop_last() =~= tracks.take(i));
    } else {
        assert(tracks.drop_last().take(i) =~= tracks.take(i));
        lemma_stoppable_stuck(tracks.drop_last(), i);
    }
}

impl<'a> TrackPeriod<'a> {
    /// Lets the last segment of every track stop at `stop`: the rails in
    /// order, then the signals. Fails at the first track without a segment
    /// and leaves the tracks behind it as they were.
    pub fn stop(&mut self, stop: usize) -> (r: LayoutResult<()>)
        ensures
            r is Ok <==> old(self)@.can_stop(),
            final(self)@ == old(self)@.stopped(stop),
            r matches Err(e) ==> e@ == failure(MSG_STOP@),
    {
        match stop_tracks(&mut self.rails, stop) {
            Ok(()) => {},
            Err(e) => {
                assert(self@.signals =~= stop_first(old(self)@.signals, 0, stop));
                return Err(e);
            },
        }
        stop_tracks(&mut self.signals, stop)
    }

    /// Cuts the stretch from `start` to `stop` out of every track: the
    /// rails in order, then the signals. Fails at the first track that has
    /// no segment, or at the first track where the stretch is empty, and
    /// leaves the tracks behind it as they were.
    pub fn cut(&mut self, start: usize, stop: usize) -> (r: LayoutResult<()>)
        ensures
            r is Ok <==> old(self)@.can_cut(start, stop),
            final(self)@ == old(self)@.cut(start, stop),
            r matches Err(e) ==> e@ == failure(MSG_CUT@),
    {
        match cut_tracks(&mut self.rails, start, stop) {
            Ok(()) => {},
            Err(e) => {
                assert(self@.signals =~= cut_first(old(self)@.signals, 0, start, stop));
                return Err(e);
            },
        }
        cut_tracks(&mut self.signals, start, stop)
    }
}

/// What the walk for `dist` finds is a segment behind `from` that covers
/// `dist`.
pub proof fn lemma_scan_range(segs: Seq<SegView>, dist: int, from: int)
    requires
        0 <= from,
    ensures
        scan(segs, dist, from) matches Some(k) ==> from <= k < segs.len() && segs[k].covers(dist),
    decreases segs.len() - from,
{
    if from < segs.len() && segs[from].start <= dist && !segs[from].covers(dist) {
        lemma_scan_range(segs, dist, from + 1);
    }
}

/// In segments that are in order, the walk for `dist` finds a segment
/// exactly when some segment covers `dist`, and then it finds the first
/// such segment.
pub proof fn lemma_scan_finds(segs: Seq<SegView>, dist: int)
    requires
        ordered(segs),
    ensures
        scan(segs, dist, 0) is Some <==> exists|i: int| 0 <= i < segs.len() && (#[trigger] segs[i]).covers(dist),
        scan(segs, dist, 0) matches Some(k) ==> 0 <= k < segs.len() && segs[k].covers(dist) && forall|
            j: int,
        | 0 <= j < k ==> !(#[trigger] segs[j]).covers(dist),
{
    lemma_scan_from(segs, dist, 0);
}

proof fn lemma_scan_from(segs: Seq<SegView>, dist: int, from: int)
    requires
        ordered(segs),
        0 <= from <= segs.len(),
    ensures
        scan(segs, dist, from) is Some <==> exists|i: int| from <= i < segs.len() && (#[trigger] segs[i]).covers(dist),
        scan(segs, dist, from) matches Some(k) ==> from <= k < segs.len() && segs[k].covers(dist)
            && forall|j: int| from <= j < k ==> !(#[trigger] segs[j]).covers(dist),
    decreases segs.len() - from,
{
    if from < segs.len() {
        if segs[from].start > dist {
            assert forall|i: int| from <= i < segs.len() implies !(#[trigger] segs[i]).covers(dist) by {
                if i > from {
                    assert(segs[from].stop <= segs[i].start);
                }
            }
        } else if segs[from].covers(dist) {
        } else {
            lemma_scan_from(segs, dist, from + 1);
        }
    }
}

/// Cutting a stretch that is not empty out of segments that are in order
/// leaves segments that are in order and clear of the stretch, and at most
/// one more of them than before.
pub proof fn lemma_cut_ordered(segs: Seq<SegView>, start: usize, stop: usize)
    requires
        ordered(segs),
        start < stop,
    ensures
        ordered(cut_all(segs, start, stop)),
        cut_all(segs, start, stop).len() <= segs.len() + 1,
        forall|k: int|
            0 <= k < cut_all(segs, start, stop).len() ==> (#[trigger] cut_all(segs, start, stop)[k]).stop
                <= start || stop <= cut_all(segs, start, stop)[k].start,
{
    lemma_cut_induct(segs, start, stop);
}

/// The inductive form of [`lemma_cut_ordered`]: what is left lies in order
/// before the end of the last segment, clear of the cut, and counts one
/// more than before only where the cut stops before the last segment does.
proof fn lemma_cut_induct(segs: Seq<SegView>, start: usize, stop: usize)
    requires
        ordered(segs),
        start < stop,
    ensures
        ordered(cut_all(segs, start, stop)),
        forall|k: int|
            0 <= k < cut_all(segs, start, stop).len() ==> (#[trigger] cut_all(segs, start, stop)[k]).stop
                <= segs.last().stop,
        forall|k: int|
            0 <= k < cut_all(segs, start, stop).len() ==> (#[trigger] cut_all(segs, start, stop)[k]).stop
                <= start || stop <= cut_all(segs, start, stop)[k].start,
        cut_all(segs, start, stop).len() <= segs.len() + (if segs.len() > 0 && stop < segs.last().stop {
            1int
        } else {
            0int
        }),
    decreases segs.len(),
{
    if segs.len() > 0 {
        let init = segs.drop_last();
        let last = segs.last();
        lemma_cut_induct(init, start, stop);
        let a = cut_all(init, start, stop);
        let b = cut_one(last, start, stop);
        let c = cut_all(segs, start, stop);
        assert(c == a + b);
        assert(last == segs[segs.len() - 1]);
        if init.len() > 0 {
            assert(init.last() == segs[segs.len() - 2]);
            assert(segs[segs.len() - 2].stop <= segs[segs.len() - 1].start);
        }
        assert(last.start < last.stop);
        assert(forall|m: int| 0 <= m < b.len() ==> last.start <= (#[trigger] b[m]).start && b[m].start
            < b[m].stop && b[m].stop <= last.stop && (b[m].stop <= start || stop <= b[m].start));
        assert(b.len() == 2 ==> b[0].stop <= b[1].start);
        assert forall|i: int| 0 <= i < c.len() implies (#[trigger] c[i]).start < c[i].stop by {
            if i < a.len() {
                assert(c[i] == a[i]);
            } else {
                assert(c[i] == b[i - a.len()]);
            }
        }
        assert forall|i: int, j: int| 0 <= i < j < c.len() implies (#[trigger] c[i]).stop <= (
        #[trigger] c[j]).start by {
            if j < a.len() {
                assert(c[i] == a[i] && c[j] == a[j]);
            } else if i < a.len() {
                assert(c[i] == a[i]);
                assert(c[j] == b[j - a.len()]);
                assert(a[i].stop <= init.last().stop);
            } else {
                assert(c[i] == b[i - a.len()]);
                assert(c[j] == b[j - a.len()]);
            }
        }
        assert forall|k: int| 0 <= k < c.len() implies (#[trigger] c[k]).stop <= segs.last().stop by {
            if k < a.len() {
                assert(c[k] == a[k]);
                assert(a[k].stop <= init.last().stop);
            } else {
                assert(c[k] == b[k - a.len()]);
            }
        }
        assert forall|k: int| 0 <= k < c.len() implies (#[trigger] c[k]).stop <= start || stop
            <= c[k].start by {
            if k < a.len() {
                assert(c[k] == a[k]);
            } else {
                assert(c[k] == b[k - a.len()]);
            }
        }
        if b.len() == 2 {
            assert(last.start < start);
            if init.len() > 0 {
                assert(!(stop < init.last().stop));
            }
        }
    }
}

} // verus!
