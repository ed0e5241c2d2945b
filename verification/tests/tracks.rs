use layout21::periods::RAIL_NET;
use layout21::{
    Dir, Layer, LayoutError, Track, TrackEntry, TrackPeriod, TrackSegment, TrackSpec, TrackType,
};

fn layer(entries: Vec<TrackSpec>) -> Layer {
    Layer {
        index: 1,
        name: "met1".into(),
        dir: Dir::Horiz,
        cutsize: 50,
        entries,
        offset: -245,
        stream_layer: None,
        raw: None,
    }
}

fn one_period() -> Layer {
    layer(vec![
        TrackSpec::rail(490),
        TrackSpec::pat(vec![TrackEntry::gap(230), TrackEntry::sig(140)], 7),
        TrackSpec::gap(230),
        TrackSpec::rail(490),
    ])
}

fn two_periods() -> Layer {
    layer(vec![
        TrackSpec::rail(490),
        TrackSpec::pat(vec![TrackEntry::gap(230), TrackEntry::sig(140)], 7),
        TrackSpec::gap(230),
        TrackSpec::rail(490),
        TrackSpec::pat(vec![TrackEntry::gap(230), TrackEntry::sig(140)], 7),
        TrackSpec::gap(230),
        TrackSpec::rail(490),
    ])
}

fn seg(start: usize, stop: usize) -> TrackSegment {
    TrackSegment { net: None, start, stop }
}

fn track(layer: &Layer, segments: Vec<TrackSegment>) -> Track<'_> {
    Track {
        layer,
        ttype: TrackType::Signal,
        index: 0,
        dir: Dir::Horiz,
        start: 0,
        width: 140,
        segments,
    }
}

#[test]
fn pattern_is_written_out_in_order() {
    let l = layer(vec![TrackSpec::pat(vec![TrackEntry::gap(230), TrackEntry::sig(140)], 7)]);
    let flat = l.flat_entries();
    assert_eq!(flat.len(), 14);
    for (i, e) in flat.iter().enumerate() {
        if i % 2 == 0 {
            assert_eq!(*e, TrackEntry::gap(230));
        } else {
            assert_eq!(*e, TrackEntry::sig(140));
        }
    }
}

#[test]
fn pattern_of_no_repetitions_is_empty() {
    let l = layer(vec![TrackSpec::pat(vec![TrackEntry::sig(140)], 0), TrackSpec::gap(7)]);
    assert_eq!(l.flat_entries(), vec![TrackEntry::gap(7)]);
    assert_eq!(l.num_signal_tracks(), 0);
    assert_eq!(l.pitch(), 7);
}

#[test]
fn period_of_one_layer() {
    let l = one_period();
    let flat = l.flat_entries();
    assert_eq!(flat.len(), 17);
    assert_eq!(flat[0], TrackEntry { width: 490, ttype: TrackType::Rail });
    assert_eq!(flat[15], TrackEntry::gap(230));
    assert_eq!(flat[16], TrackEntry { width: 490, ttype: TrackType::Rail });
    assert_eq!(l.num_signal_tracks(), 7);
    assert_eq!(l.pitch(), 3800);
    assert!(l.in_range());
}

#[test]
fn pitch_does_not_depend_on_grouping() {
    let grouped = layer(vec![TrackSpec::pat(vec![TrackEntry::gap(230), TrackEntry::sig(140)], 2)]);
    let flat = layer(vec![
        TrackSpec::gap(230),
        TrackSpec::sig(140),
        TrackSpec::gap(230),
        TrackSpec::sig(140),
    ]);
    assert_eq!(grouped.pitch(), 740);
    assert_eq!(flat.pitch(), 740);
    assert_eq!(grouped.flat_entries(), flat.flat_entries());
    assert_eq!(two_periods().pitch(), 7110);
}

#[test]
fn pitch_that_overflows_is_none() {
    let l = layer(vec![TrackSpec::gap(usize::MAX), TrackSpec::gap(1)]);
    assert_eq!(l.checked_pitch(), None);
    assert!(!l.in_range());
    assert_eq!(l.checked_signal_track_center(0), None);
}

#[test]
fn period_ending_beyond_range_is_out_of_range() {
    let mut l = layer(vec![TrackSpec::sig(10)]);
    l.offset = isize::MAX - 9;
    assert!(!l.in_range());
    l.offset = isize::MAX - 10;
    assert!(l.in_range());
}

#[test]
fn tracks_of_one_period() {
    let l = one_period();
    let period = l.to_track_period(1000);
    assert_eq!(period.rails.len(), 2);
    assert_eq!(period.signals.len(), 7);
    assert_eq!(period.rails[0].start, -245);
    assert_eq!(period.rails[1].start, 3065);
    for (k, t) in period.rails.iter().enumerate() {
        assert_eq!(t.index, k);
        assert_eq!(t.ttype, TrackType::Rail);
        assert_eq!(t.width, 490);
        assert_eq!(t.dir, Dir::Horiz);
        assert_eq!(
            t.segments,
            vec![TrackSegment { net: Some(RAIL_NET.to_string()), start: 0, stop: 1000 }]
        );
    }
    for (k, t) in period.signals.iter().enumerate() {
        assert_eq!(t.index, k);
        assert_eq!(t.ttype, TrackType::Signal);
        assert_eq!(t.start, 475 + 370 * k as isize);
        assert_eq!(t.width, 140);
        assert_eq!(t.segments, vec![seg(0, 1000)]);
    }
}

#[test]
fn bare_tracks_are_numbered_together() {
    let l = one_period();
    let tracks = l.tracks();
    assert_eq!(tracks.len(), 9);
    for (k, t) in tracks.iter().enumerate() {
        assert_eq!(t.index, k);
        assert!(t.segments.is_empty());
    }
    assert_eq!(tracks[0].ttype, TrackType::Rail);
    assert_eq!(tracks[0].start, -245);
    assert_eq!(tracks[1].ttype, TrackType::Signal);
    assert_eq!(tracks[1].start, 475);
    assert_eq!(tracks[8].ttype, TrackType::Rail);
    assert_eq!(tracks[8].start, 3065);
}

#[test]
fn signal_track_centers() {
    let l = one_period();
    assert_eq!(l.signal_track_center(0), 545);
    assert_eq!(l.signal_track_center(3), 3283);
    assert_eq!(l.signal_track_center(7), 4345);
    assert_eq!(l.checked_signal_track_center(3), Some(3283));
    let m = two_periods();
    assert_eq!(m.signal_track_center(1), 1422);
    assert_eq!(m.signal_track_center(11), 10921);
}

#[test]
fn layer_without_signals_has_no_center() {
    let l = layer(vec![TrackSpec::rail(490), TrackSpec::gap(10)]);
    assert_eq!(l.num_signal_tracks(), 0);
    assert_eq!(l.checked_signal_track_center(0), None);
}

#[test]
fn cut_trims_head_and_tail() {
    let l = one_period();
    let mut t = track(&l, vec![seg(0, 100), seg(150, 200)]);
    assert_eq!(t.cut(50, 170), Ok(()));
    assert_eq!(t.segments, vec![seg(0, 50), seg(170, 200)]);
}

#[test]
fn cut_splits_a_segment() {
    let l = one_period();
    let mut t = track(&l, vec![TrackSegment { net: Some("a".into()), start: 100, stop: 200 }]);
    assert_eq!(t.cut(120, 160), Ok(()));
    assert_eq!(
        t.segments,
        vec![
            TrackSegment { net: Some("a".into()), start: 100, stop: 120 },
            TrackSegment { net: Some("a".into()), start: 160, stop: 200 },
        ]
    );
}

#[test]
fn cut_removes_covered_segments() {
    let l = one_period();
    let mut t = track(&l, vec![seg(0, 10), seg(20, 30), seg(40, 50), seg(60, 70)]);
    assert_eq!(t.cut(20, 50), Ok(()));
    assert_eq!(t.segments, vec![seg(0, 10), seg(60, 70)]);
    assert_eq!(t.cut(0, 100), Ok(()));
    assert!(t.segments.is_empty());
}

#[test]
fn cut_leaves_segments_it_does_not_reach() {
    let l = one_period();
    let mut t = track(&l, vec![seg(0, 100), seg(200, 300)]);
    assert_eq!(t.cut(100, 200), Ok(()));
    assert_eq!(t.segments, vec![seg(0, 100), seg(200, 300)]);
    assert_eq!(t.cut(120, 150), Ok(()));
    assert_eq!(t.segments, vec![seg(0, 100), seg(200, 300)]);
    assert_eq!(t.cut(400, 500), Ok(()));
    assert_eq!(t.segments, vec![seg(0, 100), seg(200, 300)]);
}

#[test]
fn cut_fails_on_empty_stretch_or_empty_track() {
    let l = one_period();
    let failure = Err(LayoutError::Message("Error Cutting Track".into()));
    let mut t = track(&l, vec![seg(0, 100)]);
    assert_eq!(t.cut(50, 50), failure);
    assert_eq!(t.cut(60, 50), failure);
    assert_eq!(t.segments, vec![seg(0, 100)]);
    let mut empty = track(&l, vec![]);
    assert_eq!(empty.cut(0, 10), failure);
}

#[test]
fn segment_at_finds_the_covering_segment() {
    let l = one_period();
    let mut t = track(&l, vec![seg(0, 100), seg(150, 200)]);
    assert_eq!(t.segment_at(50), Some(&mut seg(0, 100)));
    assert_eq!(t.segment_at(0), Some(&mut seg(0, 100)));
    assert_eq!(t.segment_at(100), Some(&mut seg(0, 100)));
    assert_eq!(t.segment_at(150), Some(&mut seg(150, 200)));
    assert_eq!(t.segment_at(200), Some(&mut seg(150, 200)));
    assert_eq!(t.segment_at(120), None);
    assert_eq!(t.segment_at(201), None);
    assert_eq!(t.segment_at(-1), None);
    let mut empty = track(&l, vec![]);
    assert_eq!(empty.segment_at(0), None);
}

#[test]
fn segment_at_hands_out_the_segment_itself() {
    let l = one_period();
    let mut t = track(&l, vec![seg(0, 100), seg(150, 200)]);
    t.segment_at(160).unwrap().net = Some("clk".into());
    assert_eq!(
        t.segments,
        vec![seg(0, 100), TrackSegment { net: Some("clk".into()), start: 150, stop: 200 }]
    );
}

#[test]
fn stop_moves_the_end_of_the_last_segment() {
    let l = one_period();
    let mut t = track(&l, vec![seg(0, 100), seg(150, 200)]);
    assert_eq!(t.stop(180), Ok(()));
    assert_eq!(t.segments, vec![seg(0, 100), seg(150, 180)]);
    let mut empty = track(&l, vec![]);
    assert_eq!(empty.stop(5), Err(LayoutError::Message("Error Stopping Track".into())));
}

#[test]
fn period_cuts_and_stops_every_track() {
    let l = one_period();
    let mut period = l.to_track_period(1000);
    assert_eq!(period.cut(100, 200), Ok(()));
    for t in period.rails.iter().chain(period.signals.iter()) {
        assert_eq!(t.segments.len(), 2);
        assert_eq!((t.segments[0].start, t.segments[0].stop), (0, 100));
        assert_eq!((t.segments[1].start, t.segments[1].stop), (200, 1000));
    }
    assert_eq!(period.stop(900), Ok(()));
    for t in period.rails.iter().chain(period.signals.iter()) {
        assert_eq!((t.segments[1].start, t.segments[1].stop), (200, 900));
    }
}

#[test]
fn period_stops_at_the_first_track_that_fails() {
    let l = one_period();
    let mut period = l.to_track_period(1000);
    period.rails[1].segments.clear();
    assert_eq!(period.cut(100, 200), Err(LayoutError::Message("Error Cutting Track".into())));
    assert_eq!(period.rails[0].segments.len(), 2);
    assert_eq!(period.signals[0].segments.len(), 1);
    assert_eq!(period.stop(900), Err(LayoutError::Message("Error Stopping Track".into())));
    assert_eq!(period.rails[0].segments[1].stop, 900);
    assert_eq!(period.signals[0].segments[0].stop, 1000);
}

#[test]
fn period_without_tracks_takes_any_cut() {
    let mut period = TrackPeriod { signals: vec![], rails: vec![] };
    assert_eq!(period.cut(5, 5), Ok(()));
    assert_eq!(period.stop(5), Ok(()));
}

#[test]
fn entries_by_kind() {
    assert_eq!(TrackEntry::gap(3), TrackEntry { width: 3, ttype: TrackType::Gap });
    assert_eq!(TrackEntry::sig(4), TrackEntry { width: 4, ttype: TrackType::Signal });
    assert_eq!(TrackSpec::gap(3), TrackSpec::Entry(TrackEntry::gap(3)));
    assert_eq!(TrackSpec::sig(4), TrackSpec::Entry(TrackEntry::sig(4)));
    assert_eq!(
        TrackSpec::rail(5),
        TrackSpec::Entry(TrackEntry { width: 5, ttype: TrackType::Rail })
    );
    assert_eq!(
        TrackSpec::pat(vec![TrackEntry::gap(1)], 2),
        TrackSpec::Pat(layout21::Pattern { entries: vec![TrackEntry::gap(1)], nrep: 2 })
    );
}

#[test]
fn tracks_and_periods_clone() {
    let l = one_period();
    let mut period = l.to_track_period(1000);
    period.cut(100, 200).unwrap();
    let copy = period.clone();
    assert_eq!(copy.rails.len(), 2);
    assert_eq!(copy.signals.len(), 7);
    assert_eq!(copy.signals[3].segments, period.signals[3].segments);
    assert_eq!(copy.signals[3].start, period.signals[3].start);
    let t = period.rails[1].clone();
    assert_eq!(t.segments, period.rails[1].segments);
    assert_eq!((t.index, t.width, t.start), (1, 490, 3065));
}
