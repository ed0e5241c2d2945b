//! What holds of raw layout: how many cells a raw library holds, that
//! rows and layers follow one another, that tracks stay well formed, and
//! how many rectangles a cell without instances gives.

use vstd::prelude::*;
use crate::cell::{Assign, Cell, Library};
use crate::abstrakt::Abstract;
use crate::cells::{
    abstracts_from, cells_from, footprints, layers_from, name_taken, raw_cell, raw_library, row_dims,
    rows_from, units_from,
};
use crate::convert::{outline_shape, track_shapes};
use crate::error::ErrView;
use crate::geom::Point;
use crate::outline::Outline;
use crate::periods::{initial_net, period_tracks, RAIL_NET};
use crate::raw::{CellView, ElementView};
use crate::rows::{
    blocked_from, bound_from, bound_step, in_row, neighbour, placed_from, row_shapes, shifted_all,
    Footprint,
};
use crate::segments::{lemma_scan_range, PeriodView, TrackView};
use crate::stack::Stack;
use crate::tracks::{count_type, Layer, TrackEntry, TrackType};

verus! {

/// The rectangles of the rows of layer `layernum` from row `from` up to
/// row `m`, one row after the other, where every row has rectangles.
pub open spec fn rows_joined(
    layers: Seq<Layer>,
    fps: Seq<Footprint>,
    assigns: Seq<Assign>,
    layernum: int,
    from: int,
    m: usize,
    n: usize,
    pitch: usize,
) -> Seq<ElementView>
    decreases m - from,
{
    if from < 0 || from >= m {
        Seq::empty()
    } else {
        row_shapes(layers, fps, assigns, layernum, from, n, pitch)->Ok_0 + rows_joined(
            layers,
            fps,
            assigns,
            layernum,
            from + 1,
            m,
            n,
            pitch,
        )
    }
}

/// The rows of a layer have rectangles exactly when each row has, and
/// then these are the rectangles of the rows one after the other, behind
/// what came before.
pub proof fn lemma_rows_joined(
    acc: Seq<ElementView>,
    layers: Seq<Layer>,
    fps: Seq<Footprint>,
    assigns: Seq<Assign>,
    layernum: int,
    from: int,
    m: usize,
    n: usize,
    pitch: usize,
)
    requires
        0 <= from <= m,
    ensures
        rows_from(acc, layers, fps, assigns, layernum, from, m, n, pitch) is Ok <==> (forall|r: int|
            from <= r < m ==> #[trigger] row_shapes(layers, fps, assigns, layernum, r, n, pitch) is Ok),
        rows_from(acc, layers, fps, assigns, layernum, from, m, n, pitch) is Ok ==> rows_from(
            acc,
            layers,
            fps,
            assigns,
            layernum,
            from,
            m,
            n,
            pitch,
        )->Ok_0 == acc + rows_joined(layers, fps, assigns, layernum, from, m, n, pitch),
    decreases m - from,
{
    if from < m {
        let row = row_shapes(layers, fps, assigns, layernum, from, n, pitch);
        if row is Ok {
            let s = row->Ok_0;
            lemma_rows_joined(acc + s, layers, fps, assigns, layernum, from + 1, m, n, pitch);
            let rest = rows_joined(layers, fps, assigns, layernum, from + 1, m, n, pitch);
            assert((acc + s) + rest =~= acc + (s + rest));
        }
    } else {
        assert(acc + Seq::<ElementView>::empty() =~= acc);
    }
}

/// The rectangles of all rows of layer `layernum` of a cell with the
/// outline `outline`.
pub open spec fn layer_shapes(
    stack: Stack,
    outline: Outline,
    fps: Seq<Footprint>,
    assigns: Seq<Assign>,
    layernum: int,
) -> Result<Seq<ElementView>, ErrView> {
    let d = row_dims(stack, outline, stack.layers@[layernum].dir);
    rows_from(Seq::empty(), stack.layers@, fps, assigns, layernum, 0, d.0, d.1, d.2)
}

/// The rectangles of the layers from index `from` up to index `top`, one
/// layer after the other, where every layer has rectangles.
pub open spec fn layers_joined(
    stack: Stack,
    outline: Outline,
    fps: Seq<Footprint>,
    assigns: Seq<Assign>,
    from: int,
    top: usize,
) -> Seq<ElementView>
    decreases top - from,
{
    if from < 0 || from >= top {
        Seq::empty()
    } else {
        layer_shapes(stack, outline, fps, assigns, from)->Ok_0 + layers_joined(
            stack,
            outline,
            fps,
            assigns,
            from + 1,
            top,
        )
    }
}

/// The layers of a cell have rectangles exactly when each layer has, and
/// then these are the rectangles of the layers one after the other, behind
/// what came before.
pub proof fn lemma_layers_joined(
    acc: Seq<ElementView>,
    stack: Stack,
    outline: Outline,
    fps: Seq<Footprint>,
    assigns: Seq<Assign>,
    from: int,
    top: usize,
)
    requires
        0 <= from <= top,
    ensures
        layers_from(acc, stack, outline, fps, assigns, from, top) is Ok <==> (forall|l: int|
            from <= l < top ==> #[trigger] layer_shapes(stack, outline, fps, assigns, l) is Ok),
        layers_from(acc, stack, outline, fps, assigns, from, top) is Ok ==> layers_from(
            acc,
            stack,
            outline,
            fps,
            assigns,
            from,
            top,
        )->Ok_0 == acc + layers_joined(stack, outline, fps, assigns, from, top),
    decreases top - from,
{
    if from < top {
        let d = row_dims(stack, outline, stack.layers@[from].dir);
        lemma_rows_joined(acc, stack.layers@, fps, assigns, from, 0, d.0, d.1, d.2);
        lemma_rows_joined(Seq::empty(), stack.layers@, fps, assigns, from, 0, d.0, d.1, d.2);
        let own = layer_shapes(stack, outline, fps, assigns, from);
        if own is Ok {
            let rows = rows_joined(stack.layers@, fps, assigns, from, 0, d.0, d.1, d.2);
            assert(Seq::<ElementView>::empty() + rows =~= rows);
            let s = acc + rows;
            lemma_layers_joined(s, stack, outline, fps, assigns, from + 1, top);
            let rest = layers_joined(stack, outline, fps, assigns, from + 1, top);
            assert((acc + rows) + rest =~= acc + (rows + rest));
        }
    } else {
        assert(acc + Seq::<ElementView>::empty() =~= acc);
    }
}

/// The number of abstracts among `abstracts` from index `from` on whose
/// name no cell of the library has.
pub open spec fn free_names(lib: Library, abstracts: Seq<Abstract>, from: int) -> int
    decreases abstracts.len() - from,
{
    if from < 0 || from >= abstracts.len() {
        0
    } else {
        free_names(lib, abstracts, from + 1) + if name_taken(
            lib.cells.values(),
            abstracts[from].name@,
        ) {
            0int
        } else {
            1int
        }
    }
}

/// Each layer of the stack adds one raw cell.
pub proof fn lemma_units_count(acc: Seq<CellView>, stack: Stack, from: int)
    requires
        0 <= from <= stack.layers@.len(),
        units_from(acc, stack, from) is Ok,
    ensures
        units_from(acc, stack, from)->Ok_0.len() == acc.len() + stack.layers@.len() - from,
    decreases stack.layers@.len() - from,
{
    if from < stack.layers@.len() {
        let c = crate::convert::unit_cell(stack, stack.layers@[from])->Ok_0;
        lemma_units_count(acc.push(c), stack, from + 1);
    }
}

/// Each cell adds one raw cell.
pub proof fn lemma_cells_count(acc: Seq<CellView>, lib: Library, cells: Seq<Cell>, from: int)
    requires
        0 <= from <= cells.len(),
        cells_from(acc, lib, cells, from) is Ok,
    ensures
        cells_from(acc, lib, cells, from)->Ok_0.len() == acc.len() + cells.len() - from,
    decreases cells.len() - from,
{
    if from < cells.len() {
        let c = raw_cell(lib, cells[from])->Ok_0;
        lemma_cells_count(acc.push(c), lib, cells, from + 1);
    }
}

/// Each abstract whose name no cell has adds one raw cell, and the others
/// add none.
pub proof fn lemma_abstracts_count(acc: Seq<CellView>, lib: Library, abstracts: Seq<Abstract>, from: int)
    requires
        0 <= from <= abstracts.len(),
        abstracts_from(acc, lib, abstracts, from) is Ok,
    ensures
        abstracts_from(acc, lib, abstracts, from)->Ok_0.len() == acc.len() + free_names(
            lib,
            abstracts,
            from,
        ),
    decreases abstracts.len() - from,
{
    if from < abstracts.len() {
        if name_taken(lib.cells.values(), abstracts[from].name@) {
            lemma_abstracts_count(acc, lib, abstracts, from + 1);
        } else {
            let c = crate::convert::abstract_cell(lib.stack, abstracts[from])->Ok_0;
            lemma_abstracts_count(acc.push(c), lib, abstracts, from + 1);
        }
    }
}

/// A raw library holds one cell for each layer of the stack, one for each
/// cell, and one for each abstract whose name no cell has: an abstract
/// named like a cell is left out.
pub proof fn lemma_library_count(lib: Library)
    requires
        raw_library(lib) is Ok,
    ensures
        raw_library(lib)->Ok_0.cells.len() == lib.stack.layers@.len() + lib.cells.values().len()
            + free_names(lib, lib.abstracts.values(), 0),
{
    lemma_units_count(Seq::empty(), lib.stack, 0);
    let units = units_from(Seq::empty(), lib.stack, 0)->Ok_0;
    lemma_cells_count(units, lib, lib.cells.values(), 0);
    let cells = cells_from(units, lib, lib.cells.values(), 0)->Ok_0;
    lemma_abstracts_count(cells, lib, lib.abstracts.values(), 0);
}

/// True of tracks that have one segment each.
pub open spec fn single(tracks: Seq<TrackView>) -> bool {
    forall|i: int| 0 <= i < tracks.len() ==> (#[trigger] tracks[i]).segments.len() == 1
}

/// The number of rails and signals in one period of `layer`.
pub open spec fn period_size(layer: Layer) -> int {
    count_type(layer.spec_flat_entries(), TrackType::Rail) + count_type(
        layer.spec_flat_entries(),
        TrackType::Signal,
    )
}

/// The number of rails and signals in all rows of the layers from index
/// `from` up to index `top`, within the outline `outline`.
pub open spec fn tracks_from(stack: Stack, outline: Outline, from: int, top: usize) -> int
    decreases top - from,
{
    if from < 0 || from >= top {
        0
    } else {
        row_dims(stack, outline, stack.layers@[from].dir).0 * period_size(stack.layers@[from])
            + tracks_from(stack, outline, from + 1, top)
    }
}

/// The tracks of one period are as many as the period has entries of
/// their type; each has one segment, which carries the net of a new
/// track.
pub proof fn lemma_period_tracks(layer: Layer, flat: Seq<TrackEntry>, stop: usize, tt: TrackType)
    ensures
        period_tracks(layer, flat, stop, tt).len() == count_type(flat, tt),
        single(period_tracks(layer, flat, stop, tt)),
        forall|i: int|
            0 <= i < period_tracks(layer, flat, stop, tt).len() ==> (#[trigger] period_tracks(
                layer,
                flat,
                stop,
                tt,
            )[i]).segments[0].net == initial_net(tt),
    decreases flat.len(),
{
    if flat.len() > 0 {
        lemma_period_tracks(layer, flat.drop_last(), stop, tt);
    }
}

/// Binding nets leaves the rails as they are, and leaves as many signal
/// tracks with as many segments.
pub proof fn lemma_bound_single(
    period: PeriodView,
    assigns: Seq<Assign>,
    from: int,
    layers: Seq<Layer>,
    layernum: int,
    rown: int,
)
    requires
        single(period.signals),
        0 <= from <= assigns.len(),
        bound_from(period, assigns, from, layers, layernum, rown) is Ok,
    ensures
        bound_from(period, assigns, from, layers, layernum, rown)->Ok_0.rails == period.rails,
        bound_from(period, assigns, from, layers, layernum, rown)->Ok_0.signals.len()
            == period.signals.len(),
        single(bound_from(period, assigns, from, layers, layernum, rown)->Ok_0.signals),
    decreases assigns.len() - from,
{
    if from < assigns.len() {
        let next = bound_step(period, assigns[from], layers, layernum, rown)->Ok_0;
        lemma_bound_step_single(period, assigns[from], layers, layernum, rown);
        lemma_bound_single(next, assigns, from + 1, layers, layernum, rown);
    }
}

/// Binding one net leaves the rails as they are, and leaves as many
/// signal tracks with as many segments.
pub proof fn lemma_bound_step_single(
    period: PeriodView,
    a: Assign,
    layers: Seq<Layer>,
    layernum: int,
    rown: int,
)
    requires
        single(period.signals),
        bound_step(period, a, layers, layernum, rown) is Ok,
    ensures
        bound_step(period, a, layers, layernum, rown)->Ok_0.rails == period.rails,
        bound_step(period, a, layers, layernum, rown)->Ok_0.signals.len() == period.signals.len(),
        single(bound_step(period, a, layers, layernum, rown)->Ok_0.signals),
{
    let next = bound_step(period, a, layers, layernum, rown)->Ok_0;
    let nsig = period.signals.len() as int;
    if in_row(a, layernum, rown, nsig) {
        let k = a.at.track as int % nsig;
        assert(0 <= k < nsig);
        let other = layers[neighbour(a.at)];
        lemma_scan_range(
            period.signals[k].segments,
            other.spec_signal_track_center(a.at.at),
            0,
        );
        assert forall|i: int| 0 <= i < next.signals.len() implies (#[trigger] next.signals[i]).segments.len()
            == 1 by {
            if i != k {
                assert(next.signals[i] == period.signals[i]);
            }
        }
    }
}

/// Tracks with one segment each become one rectangle each.
pub proof fn lemma_placed_count(acc: Seq<ElementView>, tracks: Seq<TrackView>, from: int, shift: Point)
    requires
        single(tracks),
        0 <= from <= tracks.len(),
        placed_from(acc, tracks, from, shift) is Ok,
    ensures
        placed_from(acc, tracks, from, shift)->Ok_0.len() == acc.len() + tracks.len() - from,
    decreases tracks.len() - from,
{
    if from < tracks.len() {
        let s = track_shapes(tracks[from])->Ok_0;
        assert(s.len() == 1);
        lemma_placed_count(acc + shifted_all(s, shift), tracks, from + 1, shift);
    }
}

/// A row without instances holds one rectangle for each rail and signal
/// of the period.
pub proof fn lemma_row_count(
    layers: Seq<Layer>,
    assigns: Seq<Assign>,
    layernum: int,
    rown: int,
    n: usize,
    pitch: usize,
)
    requires
        row_shapes(layers, Seq::empty(), assigns, layernum, rown, n, pitch) is Ok,
    ensures
        row_shapes(layers, Seq::empty(), assigns, layernum, rown, n, pitch)->Ok_0.len()
            == period_size(layers[layernum]),
{
    let layer = layers[layernum];
    let stop = (n * pitch) as usize;
    let fresh = layer.spec_track_period(stop);
    lemma_period_tracks(layer, layer.spec_flat_entries(), stop, TrackType::Rail);
    lemma_period_tracks(layer, layer.spec_flat_entries(), stop, TrackType::Signal);
    let none = Seq::<Footprint>::empty();
    assert(blocked_from(fresh, none, 0, layer.index, layer.dir, rown, pitch) == Ok::<
        PeriodView,
        ErrView,
    >(fresh));
    lemma_bound_single(fresh, assigns, 0, layers, layernum, rown);
    let bound = bound_from(fresh, assigns, 0, layers, layernum, rown)->Ok_0;
    let shift = Point::spec_offset((rown * pitch) as isize, layer.dir.spec_other());
    lemma_placed_count(Seq::empty(), bound.rails, 0, shift);
    let rails = placed_from(Seq::empty(), bound.rails, 0, shift)->Ok_0;
    lemma_placed_count(rails, bound.signals, 0, shift);
}

/// The rows of a layer without instances hold one rectangle for each rail
/// and signal of each row.
pub proof fn lemma_rows_count(
    acc: Seq<ElementView>,
    layers: Seq<Layer>,
    assigns: Seq<Assign>,
    layernum: int,
    from: int,
    m: usize,
    n: usize,
    pitch: usize,
)
    requires
        0 <= from <= m,
        rows_from(acc, layers, Seq::empty(), assigns, layernum, from, m, n, pitch) is Ok,
    ensures
        rows_from(acc, layers, Seq::empty(), assigns, layernum, from, m, n, pitch)->Ok_0.len()
            == acc.len() + (m - from) * period_size(layers[layernum]),
    decreases m - from,
{
    let size = period_size(layers[layernum]);
    if from < m {
        lemma_row_count(layers, assigns, layernum, from, n, pitch);
        let s = row_shapes(layers, Seq::empty(), assigns, layernum, from, n, pitch)->Ok_0;
        lemma_rows_count(acc + s, layers, assigns, layernum, from + 1, m, n, pitch);
        assert((m - from) * size == size + (m - from - 1) * size) by (nonlinear_arith);
    } else {
        assert((m - from) * size == 0) by (nonlinear_arith)
            requires
                m - from == 0,
        ;
    }
}

/// The layers of a cell without instances hold one rectangle for each
/// rail and signal of each row.
pub proof fn lemma_layers_count(
    acc: Seq<ElementView>,
    stack: Stack,
    outline: Outline,
    assigns: Seq<Assign>,
    from: int,
    top: usize,
)
    requires
        0 <= from <= top,
        layers_from(acc, stack, outline, Seq::empty(), assigns, from, top) is Ok,
    ensures
        layers_from(acc, stack, outline, Seq::empty(), assigns, from, top)->Ok_0.len() == acc.len()
            + tracks_from(stack, outline, from, top),
    decreases top - from,
{
    if from < top {
        let d = row_dims(stack, outline, stack.layers@[from].dir);
        lemma_rows_count(acc, stack.layers@, assigns, from, 0, d.0, d.1, d.2);
        let s = rows_from(acc, stack.layers@, Seq::empty(), assigns, from, 0, d.0, d.1, d.2)->Ok_0;
        lemma_layers_count(s, stack, outline, assigns, from + 1, top);
    }
}

/// The raw cell of a cell without instances holds one rectangle for each
/// rail and signal of each row of each layer, and one polygon for the
/// outline.
pub proof fn lemma_shape_count(lib: Library, cell: Cell)
    requires
        cell.instances@.len() == 0,
        raw_cell(lib, cell) is Ok,
    ensures
        raw_cell(lib, cell)->Ok_0.elems.len() == tracks_from(
            lib.stack,
            cell.outline,
            0,
            cell.top_layer,
        ) + 1,
{
    assert(footprints(lib, cell.instances@) =~= Seq::<Footprint>::empty());
    lemma_layers_count(Seq::empty(), lib.stack, cell.outline, cell.assignments@, 0, cell.top_layer);
}

/// True of tracks that are all well formed.
pub open spec fn all_well_formed(tracks: Seq<TrackView>) -> bool {
    forall|i: int| 0 <= i < tracks.len() ==> (#[trigger] tracks[i]).well_formed()
}

/// True of a period whose tracks are all well formed.
pub open spec fn period_well_formed(period: PeriodView) -> bool {
    all_well_formed(period.rails) && all_well_formed(period.signals)
}

/// The tracks of a new period that does not stop at 0 are well formed.
pub proof fn lemma_fresh_well_formed(layer: Layer, stop: usize)
    requires
        stop > 0,
    ensures
        period_well_formed(layer.spec_track_period(stop)),
{
    lemma_period_tracks(layer, layer.spec_flat_entries(), stop, TrackType::Rail);
    lemma_period_tracks(layer, layer.spec_flat_entries(), stop, TrackType::Signal);
    lemma_fresh_tracks(layer, layer.spec_flat_entries(), stop, TrackType::Rail);
    lemma_fresh_tracks(layer, layer.spec_flat_entries(), stop, TrackType::Signal);
}

/// The one segment of each track of a new period runs from 0 to `stop`.
proof fn lemma_fresh_tracks(layer: Layer, flat: Seq<TrackEntry>, stop: usize, tt: TrackType)
    requires
        stop > 0,
    ensures
        all_well_formed(period_tracks(layer, flat, stop, tt)),
    decreases flat.len(),
{
    if flat.len() > 0 {
        lemma_fresh_tracks(layer, flat.drop_last(), stop, tt);
    }
}

/// Where a track at the head of `tracks` can be cut, the stretch is not
/// empty.
proof fn lemma_cuttable_stretch(tracks: Seq<TrackView>, start: usize, stop: usize)
    requires
        crate::segments::cuttable_prefix(tracks, start, stop) > 0,
    ensures
        start < stop,
    decreases tracks.len(),
{
    let k = crate::segments::cuttable_prefix(tracks.drop_last(), start, stop);
    if tracks.len() > 1 {
        if k > 0 {
            lemma_cuttable_stretch(tracks.drop_last(), start, stop);
        }
    } else {
        assert(tracks.drop_last().len() == 0);
        assert(k == 0);
    }
}

/// Cutting a period leaves its tracks well formed.
pub proof fn lemma_period_cut_well_formed(period: PeriodView, start: usize, stop: usize)
    requires
        period_well_formed(period),
    ensures
        period_well_formed(period.cut(start, stop)),
{
    let after = period.cut(start, stop);
    let kr = crate::segments::cuttable_prefix(period.rails, start, stop);
    let ks = crate::segments::cuttable_prefix(period.signals, start, stop);
    if kr > 0 {
        lemma_cuttable_stretch(period.rails, start, stop);
    }
    if ks > 0 {
        lemma_cuttable_stretch(period.signals, start, stop);
    }
    assert forall|i: int| 0 <= i < after.rails.len() implies (#[trigger] after.rails[i]).well_formed() by {
        assert(period.rails[i].well_formed());
        if i < kr {
            crate::segments::lemma_cut_ordered(period.rails[i].segments, start, stop);
        }
    }
    assert forall|i: int| 0 <= i < after.signals.len() implies (
    #[trigger] after.signals[i]).well_formed() by {
        assert(period.signals[i].well_formed());
        if kr == period.rails.len() && i < ks {
            crate::segments::lemma_cut_ordered(period.signals[i].segments, start, stop);
        }
    }
}

/// Cutting footprints out of a period leaves its tracks well formed.
pub proof fn lemma_blocked_well_formed(
    period: PeriodView,
    fps: Seq<Footprint>,
    from: int,
    layer_index: usize,
    dir: crate::geom::Dir,
    rown: int,
    pitch: usize,
)
    requires
        period_well_formed(period),
        0 <= from <= fps.len(),
        blocked_from(period, fps, from, layer_index, dir, rown, pitch) is Ok,
    ensures
        period_well_formed(blocked_from(period, fps, from, layer_index, dir, rown, pitch)->Ok_0),
    decreases fps.len() - from,
{
    if from < fps.len() {
        let next = crate::rows::blocked_step(period, fps[from], layer_index, dir, rown, pitch)->Ok_0;
        if fps[from].spec_reaches(layer_index, dir.spec_other(), rown) {
            let b = fps[from].spec_blockage(dir, pitch)->Some_0;
            lemma_period_cut_well_formed(period, b.0, b.1);
        }
        lemma_blocked_well_formed(next, fps, from + 1, layer_index, dir, rown, pitch);
    }
}

/// Binding nets leaves the tracks of a period well formed.
pub proof fn lemma_bound_well_formed(
    period: PeriodView,
    assigns: Seq<Assign>,
    from: int,
    layers: Seq<Layer>,
    layernum: int,
    rown: int,
)
    requires
        period_well_formed(period),
        0 <= from <= assigns.len(),
        bound_from(period, assigns, from, layers, layernum, rown) is Ok,
    ensures
        period_well_formed(bound_from(period, assigns, from, layers, layernum, rown)->Ok_0),
    decreases assigns.len() - from,
{
    if from < assigns.len() {
        let a = assigns[from];
        let next = bound_step(period, a, layers, layernum, rown)->Ok_0;
        let nsig = period.signals.len() as int;
        if in_row(a, layernum, rown, nsig) {
            let k = a.at.track as int % nsig;
            let other = layers[neighbour(a.at)];
            lemma_scan_range(period.signals[k].segments, other.spec_signal_track_center(a.at.at), 0);
            assert forall|i: int| 0 <= i < next.signals.len() implies (
            #[trigger] next.signals[i]).well_formed() by {
                assert(period.signals[i].well_formed());
            }
        }
        lemma_bound_well_formed(next, assigns, from + 1, layers, layernum, rown);
    }
}

/// True of a rectangle that carries the net `name`.
pub open spec fn carries(e: ElementView, name: Seq<char>) -> bool {
    e.net == Some(name) && e.inner is Rect
}

/// The number of rectangles among `s` that carry the net `name`.
pub open spec fn carriers(s: Seq<ElementView>, name: Seq<char>) -> int
    decreases s.len(),
{
    if s.len() == 0 {
        0
    } else {
        carriers(s.drop_last(), name) + if carries(s.last(), name) {
            1int
        } else {
            0int
        }
    }
}

/// The number of tracks among `tracks` from index `from` on whose first
/// segment carries the net `name`.
pub open spec fn named(tracks: Seq<TrackView>, from: int, name: Seq<char>) -> int
    decreases tracks.len() - from,
{
    if from < 0 || from >= tracks.len() {
        0
    } else {
        named(tracks, from + 1, name) + if tracks[from].segments[0].net == Some(name) {
            1int
        } else {
            0int
        }
    }
}

/// True when the assignment `a` lies in a row of a cell with the outline
/// `outline` that routes on `top` layers: its layer has signal tracks, and
/// its track lies in one of the layer's rows.
pub open spec fn lands(stack: Stack, outline: Outline, a: Assign, top: usize) -> bool {
    let layer = stack.layers@[a.at.layer as int];
    let nsig = layer.spec_num_signal_tracks();
    a.at.layer < top && nsig > 0 && a.at.track as int / nsig < row_dims(stack, outline, layer.dir).0
}

/// Carriers add up over concatenation.
pub proof fn lemma_carriers_concat(a: Seq<ElementView>, b: Seq<ElementView>, name: Seq<char>)
    ensures
        carriers(a + b, name) == carriers(a, name) + carriers(b, name),
    decreases b.len(),
{
    if b.len() == 0 {
        assert(a + b =~= a);
    } else {
        lemma_carriers_concat(a, b.drop_last(), name);
        assert((a + b).drop_last() =~= a + b.drop_last());
    }
}

/// Where no track carries `name`, none is counted.
pub proof fn lemma_named_none(tracks: Seq<TrackView>, from: int, name: Seq<char>)
    requires
        0 <= from,
        forall|i: int| from <= i < tracks.len() ==> (#[trigger] tracks[i]).segments[0].net != Some(name),
    ensures
        named(tracks, from, name) == 0,
    decreases tracks.len() - from,
{
    if from < tracks.len() {
        lemma_named_none(tracks, from + 1, name);
    }
}

/// Where the track of index `k` carries `name` and no other does, one is
/// counted.
pub proof fn lemma_named_one(tracks: Seq<TrackView>, from: int, k: int, name: Seq<char>)
    requires
        0 <= from <= k < tracks.len(),
        tracks[k].segments[0].net == Some(name),
        forall|i: int|
            from <= i < tracks.len() && i != k ==> (#[trigger] tracks[i]).segments[0].net != Some(name),
    ensures
        named(tracks, from, name) == 1,
    decreases tracks.len() - from,
{
    if from < k {
        lemma_named_one(tracks, from + 1, k, name);
    } else {
        lemma_named_none(tracks, from + 1, name);
    }
}

/// The rectangles of tracks with one segment each carry `name` as often
/// as the tracks do.
pub proof fn lemma_placed_carriers(
    acc: Seq<ElementView>,
    tracks: Seq<TrackView>,
    from: int,
    shift: Point,
    name: Seq<char>,
)
    requires
        single(tracks),
        0 <= from <= tracks.len(),
        placed_from(acc, tracks, from, shift) is Ok,
    ensures
        carriers(placed_from(acc, tracks, from, shift)->Ok_0, name) == carriers(acc, name) + named(
            tracks,
            from,
            name,
        ),
    decreases tracks.len() - from,
{
    if from < tracks.len() {
        let s = track_shapes(tracks[from])->Ok_0;
        let moved = shifted_all(s, shift);
        assert(moved.len() == 1);
        assert(moved.drop_last() =~= Seq::<ElementView>::empty());
        assert(carriers(moved.drop_last(), name) == 0);
        assert(moved.last() == moved[0]);
        assert(moved[0].net == tracks[from].segments[0].net);
        assert(moved[0].inner is Rect);
        lemma_carriers_concat(acc, moved, name);
        lemma_placed_carriers(acc + moved, tracks, from + 1, shift, name);
    }
}

/// In a row without instances of a cell with the one assignment `a`, one
/// rectangle carries the net of `a` where `a` lies in the row, and none
/// where it does not.
pub proof fn lemma_row_carriers(
    layers: Seq<Layer>,
    a: Assign,
    layernum: int,
    rown: int,
    n: usize,
    pitch: usize,
)
    requires
        row_shapes(layers, Seq::empty(), seq![a], layernum, rown, n, pitch) is Ok,
        a.net@ != RAIL_NET@,
    ensures
        carriers(row_shapes(layers, Seq::empty(), seq![a], layernum, rown, n, pitch)->Ok_0, a.net@) == (
        if in_row(a, layernum, rown, layers[layernum].spec_num_signal_tracks()) {
            1int
        } else {
            0int
        }),
{
    let layer = layers[layernum];
    let name = a.net@;
    let stop = (n * pitch) as usize;
    let fresh = layer.spec_track_period(stop);
    lemma_period_tracks(layer, layer.spec_flat_entries(), stop, TrackType::Rail);
    lemma_period_tracks(layer, layer.spec_flat_entries(), stop, TrackType::Signal);
    let none = Seq::<Footprint>::empty();
    assert(blocked_from(fresh, none, 0, layer.index, layer.dir, rown, pitch) == Ok::<
        PeriodView,
        ErrView,
    >(fresh));
    let assigns = seq![a];
    assert(assigns[0] == a);
    lemma_bound_step_single(fresh, a, layers, layernum, rown);
    let bound = bound_step(fresh, a, layers, layernum, rown)->Ok_0;
    assert(bound_from(bound, assigns, 1, layers, layernum, rown) == Ok::<PeriodView, ErrView>(bound));
    assert(bound_from(fresh, assigns, 0, layers, layernum, rown) == Ok::<PeriodView, ErrView>(bound));
    let shift = Point::spec_offset((rown * pitch) as isize, layer.dir.spec_other());
    let rails = placed_from(Seq::empty(), bound.rails, 0, shift)->Ok_0;
    lemma_placed_carriers(Seq::empty(), bound.rails, 0, shift, name);
    lemma_placed_carriers(rails, bound.signals, 0, shift, name);
    lemma_named_none(bound.rails, 0, name);
    let nsig = fresh.signals.len() as int;
    if in_row(a, layernum, rown, nsig) {
        let k = a.at.track as int % nsig;
        assert(0 <= k < nsig);
        let other = layers[neighbour(a.at)];
        lemma_scan_range(
            fresh.signals[k].segments,
            other.spec_signal_track_center(a.at.at),
            0,
        );
        assert forall|i: int| 0 <= i < bound.signals.len() && i != k implies (
        #[trigger] bound.signals[i]).segments[0].net != Some(name) by {
            assert(bound.signals[i] == fresh.signals[i]);
        }
        lemma_named_one(bound.signals, 0, k, name);
    } else {
        lemma_named_none(bound.signals, 0, name);
    }
}

/// In the rows from `from` up to `m` of a layer without instances, one
/// rectangle more carries the net of the one assignment `a` where `a`
/// lies in one of these rows, and none more where it does not.
pub proof fn lemma_rows_carriers(
    acc: Seq<ElementView>,
    layers: Seq<Layer>,
    a: Assign,
    layernum: int,
    from: int,
    m: usize,
    n: usize,
    pitch: usize,
)
    requires
        0 <= from <= m,
        rows_from(acc, layers, Seq::empty(), seq![a], layernum, from, m, n, pitch) is Ok,
        a.net@ != RAIL_NET@,
    ensures
        carriers(rows_from(acc, layers, Seq::empty(), seq![a], layernum, from, m, n, pitch)->Ok_0, a.net@)
            == carriers(acc, a.net@) + (if a.at.layer == layernum
            && layers[layernum].spec_num_signal_tracks() > 0 && from <= a.at.track as int
            / layers[layernum].spec_num_signal_tracks() < m {
            1int
        } else {
            0int
        }),
    decreases m - from,
{
    if from < m {
        lemma_row_carriers(layers, a, layernum, from, n, pitch);
        let s = row_shapes(layers, Seq::empty(), seq![a], layernum, from, n, pitch)->Ok_0;
        lemma_carriers_concat(acc, s, a.net@);
        lemma_rows_carriers(acc + s, layers, a, layernum, from + 1, m, n, pitch);
    }
}

/// In the layers from `from` up to `top` of a cell without instances, one
/// rectangle more carries the net of the one assignment `a` where `a`
/// lies in a row of one of these layers, and none more where it does not.
pub proof fn lemma_layers_carriers(
    acc: Seq<ElementView>,
    stack: Stack,
    outline: Outline,
    a: Assign,
    from: int,
    top: usize,
)
    requires
        0 <= from <= top,
        layers_from(acc, stack, outline, Seq::empty(), seq![a], from, top) is Ok,
        a.net@ != RAIL_NET@,
    ensures
        carriers(layers_from(acc, stack, outline, Seq::empty(), seq![a], from, top)->Ok_0, a.net@)
            == carriers(acc, a.net@) + (if from <= a.at.layer && lands(stack, outline, a, top) {
            1int
        } else {
            0int
        }),
    decreases top - from,
{
    if from < top {
        let d = row_dims(stack, outline, stack.layers@[from].dir);
        lemma_rows_carriers(acc, stack.layers@, a, from, 0, d.0, d.1, d.2);
        let s = rows_from(acc, stack.layers@, Seq::empty(), seq![a], from, 0, d.0, d.1, d.2)->Ok_0;
        lemma_layers_carriers(s, stack, outline, a, from + 1, top);
    }
}

/// In the raw cell of a cell without instances and with one assignment,
/// whose net is not the one that rails carry, exactly one rectangle
/// carries the net of the assignment where the assignment lies in a row
/// of the cell, and none where it does not.
pub proof fn lemma_single_net(lib: Library, cell: Cell)
    requires
        cell.instances@.len() == 0,
        cell.assignments@.len() == 1,
        cell.assignments@[0].net@ != RAIL_NET@,
        raw_cell(lib, cell) is Ok,
    ensures
        carriers(raw_cell(lib, cell)->Ok_0.elems, cell.assignments@[0].net@) == (if lands(
            lib.stack,
            cell.outline,
            cell.assignments@[0],
            cell.top_layer,
        ) {
            1int
        } else {
            0int
        }),
{
    let a = cell.assignments@[0];
    assert(footprints(lib, cell.instances@) =~= Seq::<Footprint>::empty());
    assert(cell.assignments@ =~= seq![a]);
    lemma_layers_carriers(Seq::empty(), lib.stack, cell.outline, a, 0, cell.top_layer);
    let tracks = layers_from(
        Seq::empty(),
        lib.stack,
        cell.outline,
        Seq::empty(),
        seq![a],
        0,
        cell.top_layer,
    )->Ok_0;
    let o = outline_shape(lib.stack, cell.outline)->Ok_0;
    assert(tracks.push(o).drop_last() =~= tracks);
    assert(tracks.push(o).last() == o);
    assert(!carries(o, a.net@));
}

} // verus!
