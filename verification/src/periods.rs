//! From a layer's period to tracks: the tracks of one period, and the
//! centre of a signal track.

use vstd::prelude::*;
use crate::geom::views;
use crate::segments::{PeriodView, SegView, Track, TrackPeriod, TrackSegment, TrackView};
use crate::tracks::{count_type, lemma_width_take, total_width, Layer, TrackEntry, TrackType};

verus! {

/// The net that every rail carries until rails are bound to real power and
/// ground nets.
pub const RAIL_NET: &'static str = "POWER_OR_GROUND_HERE_BRO";

/// The net that a new track of type `tt` carries.
pub open spec fn initial_net(tt: TrackType) -> Option<Seq<char>> {
    if tt == TrackType::Rail {
        Some(RAIL_NET@)
    } else {
        None
    }
}

/// The tracks of type `tt` that the entries `flat` of `layer` give: each at
/// the sum of `layer.offset` and the widths before it, as wide as its
/// entry, numbered in order, with one segment from 0 to `stop`.
pub open spec fn period_tracks(layer: Layer, flat: Seq<TrackEntry>, stop: usize, tt: TrackType) -> Seq<
    TrackView,
>
    decreases flat.len(),
{
    if flat.len() == 0 {
        Seq::empty()
    } else {
        let rest = period_tracks(layer, flat.drop_last(), stop, tt);
        if flat.last().ttype == tt {
            rest.push(
                TrackView {
                    layer,
                    ttype: tt,
                    index: rest.len() as usize,
                    dir: layer.dir,
                    start: (layer.offset + total_width(flat.drop_last())) as isize,
                    width: flat.last().width,
                    segments: seq![SegView { net: initial_net(tt), start: 0, stop }],
                },
            )
        } else {
            rest
        }
    }
}

/// The rails and signals that the entries `flat` of `layer` give, numbered
/// together in order and without segments.
pub open spec fn bare_tracks(layer: Layer, flat: Seq<TrackEntry>) -> Seq<TrackView>
    decreases flat.len(),
{
    if flat.len() == 0 {
        Seq::empty()
    } else {
        let rest = bare_tracks(layer, flat.drop_last());
        if flat.last().ttype != TrackType::Gap {
            rest.push(
                TrackView {
                    layer,
                    ttype: flat.last().ttype,
                    index: rest.len() as usize,
                    dir: layer.dir,
                    start: (layer.offset + total_width(flat.drop_last())) as isize,
                    width: flat.last().width,
                    segments: Seq::empty(),
                },
            )
        } else {
            rest
        }
    }
}

/// The index among `flat` of its signal entry number `k`, counted from 0.
pub open spec fn nth_signal(flat: Seq<TrackEntry>, k: int) -> int
    decreases flat.len(),
{
    if flat.len() == 0 {
        -1
    } else if flat.last().ttype == TrackType::Signal && count_type(
        flat.drop_last(),
        TrackType::Signal,
    ) == k {
        flat.len() - 1
    } else {
        nth_signal(flat.drop_last(), k)
    }
}

/// No more entries of a type lie among the first `k` entries than among
/// all.
pub proof fn lemma_count_take(s: Seq<TrackEntry>, k: int, tt: TrackType)
    requires
        0 <= k <= s.len(),
    ensures
        0 <= count_type(s.take(k), tt) <= count_type(s, tt),
        count_type(s, tt) <= s.len(),
    decreases s.len(),
{
    if k == s.len() {
        assert(s.take(k) =~= s);
        if s.len() > 0 {
            lemma_count_take(s.drop_last(), k - 1, tt);
            assert(s.drop_last().take(k - 1) =~= s.drop_last());
        }
    } else {
        lemma_count_take(s.drop_last(), k, tt);
        assert(s.drop_last().take(k) =~= s.take(k));
    }
}

/// A signal entry at index `i` with `k` signals before it is signal number
/// `k`.
pub proof fn lemma_nth_signal(flat: Seq<TrackEntry>, i: int, k: int)
    requires
        0 <= i < flat.len(),
        flat[i].ttype == TrackType::Signal,
        count_type(flat.take(i), TrackType::Signal) == k,
    ensures
        nth_signal(flat, k) == i,
    decreases flat.len(),
{
    if i == flat.len() - 1 {
        assert(flat.drop_last() =~= flat.take(i));
    } else {
        let init = flat.drop_last();
        assert(init.take(i) =~= flat.take(i));
        assert(init.take(i + 1) =~= flat.take(i + 1));
        assert(flat.take(i + 1).drop_last() =~= flat.take(i));
        assert(flat.take(i + 1).last() == flat[i]);
        lemma_count_take(init, i + 1, TrackType::Signal);
        lemma_nth_signal(init, i, k);
    }
}

impl Layer {
    /// The tracks of one period, each with one segment from 0 to `stop`.
    pub open spec fn spec_track_period(&self, stop: usize) -> PeriodView {
        PeriodView {
            signals: period_tracks(*self, self.spec_flat_entries(), stop, TrackType::Signal),
            rails: period_tracks(*self, self.spec_flat_entries(), stop, TrackType::Rail),
        }
    }

    /// The rails and signals of one period, without segments.
    pub open spec fn spec_tracks(&self) -> Seq<TrackView> {
        bare_tracks(*self, self.spec_flat_entries())
    }

    /// The centre of the signal track `idx`: the middle of signal number
    /// `idx` modulo the number of signals, moved by `pitch * idx` divided by
    /// the number of signals.
    pub open spec fn spec_signal_track_center(&self, idx: usize) -> int {
        let flat = self.spec_flat_entries();
        let n = self.spec_num_signal_tracks();
        let j = nth_signal(flat, idx as int % n);
        self.offset + (self.spec_pitch() * idx) / n + total_width(flat.take(j)) + flat[j].width / 2
    }

    /// True when the centre of signal track `idx` can be computed: the layer
    /// has a signal track, and the pitch, the pitch times `idx` and the
    /// centre are representable.
    pub open spec fn has_signal_track_center(&self, idx: usize) -> bool {
        &&& self.spec_num_signal_tracks() > 0
        &&& self.spec_pitch() <= usize::MAX
        &&& self.spec_pitch() * idx <= usize::MAX
        &&& self.spec_signal_track_center(idx) <= isize::MAX
    }

    /// The tracks of one period of the layer, each with one segment from 0
    /// to `stop`. Rails carry [`RAIL_NET`]; signals carry no net.
    pub fn to_track_period(&self, stop: usize) -> (period: TrackPeriod<'_>)
        requires
            self.spec_in_range(),
        ensures
            period@ == self.spec_track_period(stop),
    {
        let flat = self.flat_entries();
        let n = flat.len();
        let mut cursor: isize = self.offset;
        let mut period = TrackPeriod { rails: Vec::new(), signals: Vec::new() };
        let mut i: usize = 0;
        while i < n
            invariant
                i <= n,
                n == flat@.len(),
                flat@ == self.spec_flat_entries(),
                self.spec_in_range(),
                cursor == self.offset + total_width(flat@.take(i as int)),
                views(period.rails@) == period_tracks(*self, flat@.take(i as int), stop, TrackType::Rail),
                views(period.signals@) == period_tracks(
                    *self,
                    flat@.take(i as int),
                    stop,
                    TrackType::Signal,
                ),
            decreases n - i,
        {
            let e = flat[i];
            let ghost rails = views(period.rails@);
            let ghost signals = views(period.signals@);
            proof {
                let next = flat@.take(i + 1);
                assert(next.drop_last() =~= flat@.take(i as int));
                assert(next.last() == e);
                lemma_width_take(flat@, i + 1);
                lemma_width_take(flat@, i as int);
            }
            match e.ttype {
                TrackType::Gap => {},
                TrackType::Rail => {
                    let mut segments: Vec<TrackSegment> = Vec::new();
                    segments.push(
                        TrackSegment { net: Some(RAIL_NET.to_string()), start: 0, stop },
                    );
                    let t = Track {
                        layer: self,
                        ttype: e.ttype,
                        index: period.rails.len(),
                        dir: self.dir,
                        start: cursor,
                        width: e.width,
                        segments,
                    };
                    assert(t@.segments =~= seq![
                        SegView { net: initial_net(TrackType::Rail), start: 0, stop },
                    ]);
                    period.rails.push(t);
                    assert(views(period.rails@) =~= rails.push(t@));
                },
                TrackType::Signal => {
                    let mut segments: Vec<TrackSegment> = Vec::new();
                    segments.push(TrackSegment { net: None, start: 0, stop });
                    let t = Track {
                        layer: self,
                        ttype: e.ttype,
                        index: period.signals.len(),
                        dir: self.dir,
                        start: cursor,
                        width: e.width,
                        segments,
                    };
                    assert(t@.segments =~= seq![
                        SegView { net: initial_net(TrackType::Signal), start: 0, stop },
                    ]);
                    period.signals.push(t);
                    assert(views(period.signals@) =~= signals.push(t@));
                },
            }
            cursor = cursor.checked_add_unsigned(e.width).unwrap();
            i += 1;
        }
        assert(flat@.take(n as int) =~= flat@);
        period
    }

    /// The rails and signals of one period of the layer, numbered together
    /// and without segments.
    pub fn tracks(&self) -> (tracks: Vec<Track<'_>>)
        requires
            self.spec_in_range(),
        ensures
            views(tracks@) == self.spec_tracks(),
    {
        let flat = self.flat_entries();
        let n = flat.len();
        let mut cursor: isize = self.offset;
        let mut tracks: Vec<Track<'_>> = Vec::new();
        let mut i: usize = 0;
        while i < n
            invariant
                i <= n,
                n == flat@.len(),
                flat@ == self.spec_flat_entries(),
                self.spec_in_range(),
                cursor == self.offset + total_width(flat@.take(i as int)),
                views(tracks@) == bare_tracks(*self, flat@.take(i as int)),
            decreases n - i,
        {
            let e = flat[i];
            let ghost before = views(tracks@);
            proof {
                let next = flat@.take(i + 1);
                assert(next.drop_last() =~= flat@.take(i as int));
                assert(next.last() == e);
                lemma_width_take(flat@, i + 1);
                lemma_width_take(flat@, i as int);
            }
            match e.ttype {
                TrackType::Gap => {},
                TrackType::Rail | TrackType::Signal => {
                    let t = Track {
                        layer: self,
                        ttype: e.ttype,
                        index: tracks.len(),
                        dir: self.dir,
                        start: cursor,
                        width: e.width,
                        segments: Vec::new(),
                    };
                    assert(t@.segments =~= Seq::<SegView>::empty());
                    tracks.push(t);
                    assert(views(tracks@) =~= before.push(t@));
                },
            }
            cursor = cursor.checked_add_unsigned(e.width).unwrap();
            i += 1;
        }
        assert(flat@.take(n as int) =~= flat@);
        tracks
    }

    /// The centre of signal track `idx`, or `None` where it cannot be
    /// computed.
    pub fn checked_signal_track_center(&self, idx: usize) -> (r: Option<isize>)
        ensures
            r is Some <==> self.has_signal_track_center(idx),
            r matches Some(c) ==> c == self.spec_signal_track_center(idx),
    {
        let flat = self.flat_entries();
        let n = flat.len();
        let nsig = self.num_signal_tracks();
        if nsig == 0 {
            return None;
        }
        let pitch = match self.checked_pitch() {
            Some(p) => p,
            None => {
                return None;
            },
        };
        let prod = match pitch.checked_mul(idx) {
            Some(p) => p,
            None => {
                return None;
            },
        };
        let target = idx % nsig;
        let ghost j = nth_signal(flat@, target as int);
        let ghost goal = self.spec_signal_track_center(idx);
        let base = self.offset.checked_add_unsigned(prod / nsig);
        proof {
            lemma_count_take(flat@, 0, TrackType::Signal);
            assert(flat@.take(0) =~= Seq::<TrackEntry>::empty());
        }
        let mut cursor: Option<isize> = base;
        let mut index: usize = 0;
        let mut i: usize = 0;
        while i < n
            invariant
                i <= n,
                n == flat@.len(),
                flat@ == self.spec_flat_entries(),
                nsig == count_type(flat@, TrackType::Signal),
                target < nsig,
                target == idx as int % (nsig as int),
                prod == self.spec_pitch() * idx,
                self.spec_pitch() <= usize::MAX,
                index == count_type(flat@.take(i as int), TrackType::Signal),
                index <= target,
                goal == self.spec_signal_track_center(idx),
                cursor is Some ==> cursor.unwrap() == self.offset + prod / nsig + total_width(
                    flat@.take(i as int),
                ),
                cursor is None ==> self.offset + prod / nsig + total_width(flat@.take(i as int))
                    > isize::MAX,
            decreases n - i,
        {
            let e = flat[i];
            proof {
                let next = flat@.take(i + 1);
                assert(next.drop_last() =~= flat@.take(i as int));
                assert(next.last() == e);
                lemma_count_take(flat@, i + 1, TrackType::Signal);
            }
            if e.ttype == TrackType::Signal && index == target {
                proof {
                    lemma_nth_signal(flat@, i as int, target as int);
                    assert(goal == self.offset + prod / nsig + total_width(flat@.take(i as int))
                        + e.width / 2);
                }
                return match cursor {
                    Some(c) => c.checked_add_unsigned(e.width / 2),
                    None => None,
                };
            }
            if e.ttype == TrackType::Signal {
                index += 1;
            }
            cursor = match cursor {
                Some(c) => c.checked_add_unsigned(e.width),
                None => None,
            };
            i += 1;
        }
        proof {
            assert(flat@.take(n as int) =~= flat@);
        }
        None
    }

    /// The centre of signal track `idx`.
    pub fn signal_track_center(&self, idx: usize) -> (r: isize)
        requires
            self.has_signal_track_center(idx),
        ensures
            r == self.spec_signal_track_center(idx),
    {
        self.checked_signal_track_center(idx).unwrap()
    }
}

} // verus!
