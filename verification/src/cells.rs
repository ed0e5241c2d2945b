//! Cells and libraries into raw layout.

use vstd::prelude::*;
use crate::abstrakt::Abstract;
use crate::cell::{Assign, Cell, CellRef, Instance, Library, RelZ};
use crate::convert::{
    abstract_cell, outline_shape, shapes, unit_cell, RawConverter, MSG_ASSIGN, MSG_LAYER,
    MSG_OUTLINE, MSG_RANGE,
};
use crate::error::{failure, outcome, ErrView, LayoutError, LayoutResult};
use crate::geom::{
    fits_isize, lemma_views_concat, lemma_views_push, scaled, views, Dir, Point,
};
use crate::outline::Outline;
use crate::raw::{CellView, Element, ElementView, LibraryView};
use crate::rows::{assigns_ok, neighbour, row_shapes, Footprint};
use crate::stack::Stack;
use crate::store::{AbstractKey, CellKey};
use crate::tracks::Layer;

verus! {

/// The footprint of the instance `inst`, where the library holds what it
/// refers to. An instance that refers to a name has none.
pub open spec fn footprint_of(lib: Library, inst: Instance) -> Option<Footprint> {
    match inst.cell {
        CellRef::Cell(k) => if lib.cells.entries().dom().contains(k) {
            let c = lib.cells.entries()[k];
            Some(
                Footprint {
                    p0: inst.p0,
                    xmax: c.outline.spec_xmax(),
                    ymax: c.outline.spec_ymax(),
                    top_layer: c.top_layer,
                },
            )
        } else {
            None
        },
        CellRef::Abstract(k) => if lib.abstracts.entries().dom().contains(k) {
            let a = lib.abstracts.entries()[k];
            Some(
                Footprint {
                    p0: inst.p0,
                    xmax: a.outline.spec_xmax(),
                    ymax: a.outline.spec_ymax(),
                    top_layer: a.top_layer,
                },
            )
        } else {
            None
        },
        CellRef::Name(_) => None,
    }
}

/// True when every instance of `insts` has a footprint.
pub open spec fn resolved(lib: Library, insts: Seq<Instance>) -> bool {
    forall|i: int| 0 <= i < insts.len() ==> footprint_of(lib, #[trigger] insts[i]) is Some
}

/// The footprints of the instances `insts`, in order.
pub open spec fn footprints(lib: Library, insts: Seq<Instance>) -> Seq<Footprint> {
    Seq::new(insts.len(), |i: int| footprint_of(lib, insts[i]).unwrap())
}

/// The number of rows of a layer along `dir` in the outline `outline`, the
/// length of a row in unit pitches, and the unit pitch along the row.
pub open spec fn row_dims(stack: Stack, outline: Outline, dir: Dir) -> (usize, usize, usize) {
    match dir {
        Dir::Horiz => (outline.ys()[0], outline.xs()[0], stack.xpitch),
        Dir::Vert => (outline.xs()[0], outline.ys()[0], stack.ypitch),
    }
}

/// The shapes `acc` followed by the rectangles of the rows of layer
/// `layernum` from row `from` up to row `m`.
pub open spec fn rows_from(
    acc: Seq<ElementView>,
    layers: Seq<Layer>,
    fps: Seq<Footprint>,
    assigns: Seq<Assign>,
    layernum: int,
    from: int,
    m: usize,
    n: usize,
    pitch: usize,
) -> Result<Seq<ElementView>, ErrView>
    decreases m - from,
{
    if from < 0 || from >= m {
        Ok(acc)
    } else {
        match row_shapes(layers, fps, assigns, layernum, from, n, pitch) {
            Err(e) => Err(e),
            Ok(s) => rows_from(acc + s, layers, fps, assigns, layernum, from + 1, m, n, pitch),
        }
    }
}

/// The shapes `acc` followed by the rectangles of the layers from index
/// `from` up to index `top`, row by row.
pub open spec fn layers_from(
    acc: Seq<ElementView>,
    stack: Stack,
    outline: Outline,
    fps: Seq<Footprint>,
    assigns: Seq<Assign>,
    from: int,
    top: usize,
) -> Result<Seq<ElementView>, ErrView>
    decreases top - from,
{
    if from < 0 || from >= top {
        Ok(acc)
    } else {
        let d = row_dims(stack, outline, stack.layers@[from].dir);
        match rows_from(acc, stack.layers@, fps, assigns, from, 0, d.0, d.1, d.2) {
            Err(e) => Err(e),
            Ok(s) => layers_from(s, stack, outline, fps, assigns, from + 1, top),
        }
    }
}

/// True when the corner of `inst`, scaled by the pitches of `stack`, is
/// representable.
pub open spec fn can_place(stack: Stack, inst: Instance) -> bool {
    fits_isize(stack.xpitch * inst.p0.x) && fits_isize(stack.ypitch * inst.p0.y)
}

/// The instance `inst` with its corner scaled from unit pitches to
/// distances.
pub open spec fn placed(stack: Stack, inst: Instance) -> Instance {
    inst.placed_at(
        Point { x: (stack.xpitch * inst.p0.x) as isize, y: (stack.ypitch * inst.p0.y) as isize },
    )
}

/// The shapes of the cell `cell`: the rectangles of its tracks, layer by
/// layer and row by row, and its outline.
pub open spec fn cell_shapes(lib: Library, cell: Cell) -> Result<Seq<ElementView>, ErrView> {
    if cell.outline.xs().len() > 1 {
        Err(failure(MSG_OUTLINE@))
    } else if !resolved(lib, cell.instances@) {
        Err(ErrView::Tbd)
    } else if !assigns_ok(cell.assignments@, cell.top_layer) {
        Err(failure(MSG_ASSIGN@))
    } else if cell.top_layer > lib.stack.layers@.len() {
        Err(failure(MSG_LAYER@))
    } else {
        match layers_from(
            Seq::empty(),
            lib.stack,
            cell.outline,
            footprints(lib, cell.instances@),
            cell.assignments@,
            0,
            cell.top_layer,
        ) {
            Err(e) => Err(e),
            Ok(tracks) => match outline_shape(lib.stack, cell.outline) {
                Err(e) => Err(e),
                Ok(o) => Ok(tracks.push(o)),
            },
        }
    }
}

/// The raw cell of the cell `cell`: its shapes, and its instances with
/// their corners scaled from unit pitches to distances.
pub open spec fn raw_cell(lib: Library, cell: Cell) -> Result<CellView, ErrView> {
    match cell_shapes(lib, cell) {
        Err(e) => Err(e),
        Ok(elems) => if !(forall|i: int|
            0 <= i < cell.instances@.len() ==> can_place(lib.stack, #[trigger] cell.instances@[i])) {
            Err(failure(MSG_RANGE@))
        } else {
            Ok(
                CellView {
                    name: cell.name@,
                    insts: Seq::new(
                        cell.instances@.len(),
                        |i: int| placed(lib.stack, cell.instances@[i]),
                    ),
                    arrays: Seq::empty(),
                    elems,
                },
            )
        },
    }
}

/// The raw cells `acc` followed by the unit cells of the layers of `stack`
/// from index `from` on.
pub open spec fn units_from(acc: Seq<CellView>, stack: Stack, from: int) -> Result<Seq<CellView>, ErrView>
    decreases stack.layers@.len() - from,
{
    if from < 0 || from >= stack.layers@.len() {
        Ok(acc)
    } else {
        match unit_cell(stack, stack.layers@[from]) {
            Err(e) => Err(e),
            Ok(c) => units_from(acc.push(c), stack, from + 1),
        }
    }
}

/// The raw cells `acc` followed by the raw cells of `cells` from index
/// `from` on.
pub open spec fn cells_from(acc: Seq<CellView>, lib: Library, cells: Seq<Cell>, from: int) -> Result<
    Seq<CellView>,
    ErrView,
>
    decreases cells.len() - from,
{
    if from < 0 || from >= cells.len() {
        Ok(acc)
    } else {
        match raw_cell(lib, cells[from]) {
            Err(e) => Err(e),
            Ok(c) => cells_from(acc.push(c), lib, cells, from + 1),
        }
    }
}

/// True when one of `cells` has the name `name`.
pub open spec fn name_taken(cells: Seq<Cell>, name: Seq<char>) -> bool {
    exists|i: int| 0 <= i < cells.len() && (#[trigger] cells[i]).name@ == name
}

/// The raw cells `acc` followed by the raw cells of `abstracts` from index
/// `from` on, without those whose name a cell of the library has.
pub open spec fn abstracts_from(acc: Seq<CellView>, lib: Library, abstracts: Seq<Abstract>, from: int) -> Result<
    Seq<CellView>,
    ErrView,
>
    decreases abstracts.len() - from,
{
    if from < 0 || from >= abstracts.len() {
        Ok(acc)
    } else if name_taken(lib.cells.values(), abstracts[from].name@) {
        abstracts_from(acc, lib, abstracts, from + 1)
    } else {
        match abstract_cell(lib.stack, abstracts[from]) {
            Err(e) => Err(e),
            Ok(c) => abstracts_from(acc.push(c), lib, abstracts, from + 1),
        }
    }
}

/// The raw library of the library `lib`: a unit cell for each layer of the
/// stack, then the cells, then the abstracts.
pub open spec fn raw_library(lib: Library) -> Result<LibraryView, ErrView> {
    match units_from(Seq::empty(), lib.stack, 0) {
        Err(e) => Err(e),
        Ok(units) => match cells_from(units, lib, lib.cells.values(), 0) {
            Err(e) => Err(e),
            Ok(cells) => match abstracts_from(cells, lib, lib.abstracts.values(), 0) {
                Err(e) => Err(e),
                Ok(all) => Ok(
                    LibraryView { name: lib.name@, units: lib.stack.units, libs: Seq::empty(), cells: all },
                ),
            },
        },
    }
}

/// A cell whose outline has more than one step is not converted: the
/// conversion fails, and says that such outlines are not supported.
pub proof fn lemma_outline_unsupported(lib: Library, cell: Cell)
    requires
        cell.outline.xs().len() > 1,
    ensures
        raw_cell(lib, cell) == Err::<CellView, ErrView>(failure(MSG_OUTLINE@)),
{
}

/// An abstract whose name a cell of the library has adds no raw cell:
/// the conversion goes on as if the abstract were not there.
pub proof fn lemma_abstract_skipped(acc: Seq<CellView>, lib: Library, abstracts: Seq<Abstract>, from: int)
    requires
        0 <= from < abstracts.len(),
        name_taken(lib.cells.values(), abstracts[from].name@),
    ensures
        abstracts_from(acc, lib, abstracts, from) == abstracts_from(acc, lib, abstracts, from + 1),
{
}

impl RawConverter {
    /// The footprint of `inst`, if the library holds what it refers to.
    fn footprint(&self, inst: &Instance) -> (r: Option<Footprint>)
        ensures
            r == footprint_of(self.lib, *inst),
    {
        match &inst.cell {
            CellRef::Cell(k) => match self.lib.cells.get(*k) {
                Some(c) => Some(
                    Footprint {
                        p0: inst.p0,
                        xmax: c.outline.xmax(),
                        ymax: c.outline.ymax(),
                        top_layer: c.top_layer,
                    },
                ),
                None => None,
            },
            CellRef::Abstract(k) => match self.lib.abstracts.get(*k) {
                Some(a) => Some(
                    Footprint {
                        p0: inst.p0,
                        xmax: a.outline.xmax(),
                        ymax: a.outline.ymax(),
                        top_layer: a.top_layer,
                    },
                ),
                None => None,
            },
            CellRef::Name(_) => None,
        }
    }

    /// The footprints of `insts`, if the library holds what each refers to.
    fn resolve(&self, insts: &Vec<Instance>) -> (r: Option<Vec<Footprint>>)
        ensures
            r is Some <==> resolved(self.lib, insts@),
            r matches Some(f) ==> f@ == footprints(self.lib, insts@),
    {
        let n = insts.len();
        let mut fps: Vec<Footprint> = Vec::new();
        let mut i: usize = 0;
        while i < n
            invariant
                i <= n,
                n == insts@.len(),
                fps@.len() == i,
                forall|j: int| 0 <= j < i ==> footprint_of(self.lib, #[trigger] insts@[j]) is Some,
                forall|j: int| 0 <= j < i ==> fps@[j] == footprint_of(self.lib, insts@[j]).unwrap(),
            decreases n - i,
        {
            match self.footprint(&insts[i]) {
                Some(f) => {
                    fps.push(f);
                },
                None => {
                    return None;
                },
            }
            i += 1;
        }
        assert(fps@ =~= footprints(self.lib, insts@));
        Some(fps)
    }

    /// Whether every assignment names a layer below `top` and crosses one.
    fn check_assigns(assigns: &Vec<Assign>, top: usize) -> (r: bool)
        ensures
            r == assigns_ok(assigns@, top),
    {
        let n = assigns.len();
        let mut i: usize = 0;
        while i < n
            invariant
                i <= n,
                n == assigns@.len(),
                forall|j: int|
                    0 <= j < i ==> (#[trigger] assigns@[j]).at.layer < top && 0 <= neighbour(
                        assigns@[j].at,
                    ) < top,
            decreases n - i,
        {
            let at = &assigns[i].at;
            let good = at.layer < top && match at.relz {
                RelZ::Above => at.layer + 1 < top,
                RelZ::Below => at.layer >= 1,
            };
            if !good {
                assert(!(assigns@[i as int].at.layer < top && 0 <= neighbour(assigns@[i as int].at) < top));
                return false;
            }
            i += 1;
        }
        true
    }

    /// The instances `insts` with their corners scaled from unit pitches to
    /// distances, if every scaled corner is representable.
    fn place_instances(&self, insts: &Vec<Instance>) -> (r: Option<Vec<Instance>>)
        ensures
            r is Some <==> (forall|i: int|
                0 <= i < insts@.len() ==> can_place(self.lib.stack, #[trigger] insts@[i])),
            r matches Some(v) ==> v@ == Seq::new(
                insts@.len(),
                |i: int| placed(self.lib.stack, insts@[i]),
            ),
    {
        let n = insts.len();
        let mut out: Vec<Instance> = Vec::new();
        let mut i: usize = 0;
        while i < n
            invariant
                i <= n,
                n == insts@.len(),
                out@.len() == i,
                forall|j: int| 0 <= j < i ==> can_place(self.lib.stack, #[trigger] insts@[j]),
                forall|j: int| 0 <= j < i ==> out@[j] == placed(self.lib.stack, insts@[j]),
            decreases n - i,
        {
            let inst = &insts[i];
            let x = scaled(self.lib.stack.xpitch, inst.p0.x);
            let y = scaled(self.lib.stack.ypitch, inst.p0.y);
            match (x, y) {
                (Some(px), Some(py)) => {
                    let mut copy = inst.clone();
                    copy.p0 = Point::new(px, py);
                    out.push(copy);
                },
                _ => {
                    assert(!can_place(self.lib.stack, insts@[i as int]));
                    return None;
                },
            }
            i += 1;
        }
        assert(out@ =~= Seq::new(insts@.len(), |i: int| placed(self.lib.stack, insts@[i])));
        Some(out)
    }

    /// Appends to `elems` the rectangles of every row of layer `layernum`.
    fn convert_rows(
        &self,
        elems: &mut Vec<Element>,
        cell: &Cell,
        fps: &Vec<Footprint>,
        layernum: usize,
    ) -> (r: LayoutResult<()>)
        requires
            layernum < cell.top_layer,
            cell.top_layer <= self.lib.stack.layers@.len(),
            assigns_ok(cell.assignments@, cell.top_layer),
            cell.outline.xs().len() == 1,
        ensures
            ({
                let d = row_dims(self.lib.stack, cell.outline, self.lib.stack.layers@[layernum as int].dir);
                match rows_from(
                    views(old(elems)@),
                    self.lib.stack.layers@,
                    fps@,
                    cell.assignments@,
                    layernum as int,
                    0,
                    d.0,
                    d.1,
                    d.2,
                ) {
                    Ok(s) => r is Ok && views(final(elems)@) == s,
                    Err(e) => r matches Err(x) && x@ == e,
                }
            }),
    {
        let layer = &self.lib.stack.layers[layernum];
        let xs = cell.outline.x();
        let ys = cell.outline.y();
        let (m, n, pitch) = match layer.dir {
            Dir::Horiz => (ys[0], xs[0], self.lib.stack.xpitch),
            Dir::Vert => (xs[0], ys[0], self.lib.stack.ypitch),
        };
        let ghost start = views(elems@);
        let mut rown: usize = 0;
        while rown < m
            invariant
                rown <= m,
                layernum < cell.top_layer,
                cell.top_layer <= self.lib.stack.layers@.len(),
                assigns_ok(cell.assignments@, cell.top_layer),
                start == views(old(elems)@),
                (m, n, pitch) == row_dims(
                    self.lib.stack,
                    cell.outline,
                    self.lib.stack.layers@[layernum as int].dir,
                ),
                rows_from(
                    views(elems@),
                    self.lib.stack.layers@,
                    fps@,
                    cell.assignments@,
                    layernum as int,
                    rown as int,
                    m,
                    n,
                    pitch,
                ) == rows_from(
                    start,
                    self.lib.stack.layers@,
                    fps@,
                    cell.assignments@,
                    layernum as int,
                    0,
                    m,
                    n,
                    pitch,
                ),
            decreases m - rown,
        {
            let mut row = match self.convert_row(
                fps,
                &cell.assignments,
                layernum,
                rown,
                n,
                pitch,
                cell.top_layer,
            ) {
                Ok(v) => v,
                Err(e) => {
                    return Err(e);
                },
            };
            proof {
                lemma_views_concat(elems@, row@);
            }
            elems.append(&mut row);
            rown += 1;
        }
        Ok(())
    }

    /// The shapes of `cell`: the rectangles of its tracks, layer by layer
    /// and row by row, and its outline.
    fn convert_shapes(&self, cell: &Cell) -> (r: LayoutResult<Vec<Element>>)
        ensures
            shapes(r) == cell_shapes(self.lib, *cell),
    {
        if cell.outline.len() > 1 {
            return Err(LayoutError::msg(MSG_OUTLINE));
        }
        let fps = match self.resolve(&cell.instances) {
            Some(f) => f,
            None => {
                return Err(LayoutError::Tbd);
            },
        };
        if !RawConverter::check_assigns(&cell.assignments, cell.top_layer) {
            return Err(LayoutError::msg(MSG_ASSIGN));
        }
        if cell.top_layer > self.lib.stack.layers.len() {
            return Err(LayoutError::msg(MSG_LAYER));
        }
        let mut elems: Vec<Element> = Vec::new();
        assert(views(elems@) =~= Seq::<ElementView>::empty());
        let ghost whole = layers_from(
            Seq::empty(),
            self.lib.stack,
            cell.outline,
            fps@,
            cell.assignments@,
            0,
            cell.top_layer,
        );
        let mut layernum: usize = 0;
        while layernum < cell.top_layer
            invariant
                layernum <= cell.top_layer,
                cell.top_layer <= self.lib.stack.layers@.len(),
                assigns_ok(cell.assignments@, cell.top_layer),
                cell.outline.xs().len() == 1,
                resolved(self.lib, cell.instances@),
                fps@ == footprints(self.lib, cell.instances@),
                whole == layers_from(
                    Seq::empty(),
                    self.lib.stack,
                    cell.outline,
                    fps@,
                    cell.assignments@,
                    0,
                    cell.top_layer,
                ),
                layers_from(
                    views(elems@),
                    self.lib.stack,
                    cell.outline,
                    fps@,
                    cell.assignments@,
                    layernum as int,
                    cell.top_layer,
                ) == whole,
            decreases cell.top_layer - layernum,
        {
            match self.convert_rows(&mut elems, cell, &fps, layernum) {
                Ok(()) => {},
                Err(e) => {
                    return Err(e);
                },
            }
            layernum += 1;
        }
        let outline = match self.convert_outline(&cell.outline) {
            Ok(o) => o,
            Err(e) => {
                return Err(e);
            },
        };
        proof {
            lemma_views_push(elems@, outline);
        }
        elems.push(outline);
        Ok(elems)
    }

    /// Whether a cell of the library has the name `name`.
    fn is_cell_name(&self, keys: &Vec<CellKey>, name: &String) -> (r: bool)
        requires
            keys@ == self.lib.cells.order(),
            forall|k: CellKey| keys@.contains(k) <==> self.lib.cells.entries().dom().contains(k),
        ensures
            r == name_taken(self.lib.cells.values(), name@),
    {
        let n = keys.len();
        let ghost cells = self.lib.cells.values();
        let mut i: usize = 0;
        while i < n
            invariant
                i <= n,
                n == keys@.len(),
                keys@ == self.lib.cells.order(),
                cells == self.lib.cells.values(),
                forall|k: CellKey| keys@.contains(k) <==> self.lib.cells.entries().dom().contains(k),
                forall|j: int| 0 <= j < i ==> (#[trigger] cells[j]).name@ != name@,
            decreases n - i,
        {
            let k = keys[i];
            assert(keys@.contains(k));
            match self.lib.cells.get(k) {
                Some(cell) => {
                    assert(*cell == cells[i as int]);
                    if cell.name == *name {
                        return true;
                    }
                },
                None => {},
            }
            i += 1;
        }
        false
    }

    /// The raw library: a unit cell for each layer of the stack, then the
    /// cells, then the abstracts whose name no cell has.
    fn convert_all(self) -> (r: LayoutResult<crate::raw::Library>)
        ensures
            outcome(r) == raw_library(self.lib),
    {
        let mut lib = crate::raw::Library::new(self.lib.name.as_str(), self.lib.stack.units);
        assert(views(lib.cells@) =~= Seq::<CellView>::empty());
        let ghost whole = raw_library(self.lib);
        let nl = self.lib.stack.layers.len();
        let mut i: usize = 0;
        while i < nl
            invariant
                i <= nl,
                nl == self.lib.stack.layers@.len(),
                lib.name@ == self.lib.name@,
                lib.units == self.lib.stack.units,
                lib.libs@.len() == 0,
                whole == raw_library(self.lib),
                units_from(views(lib.cells@), self.lib.stack, i as int) == units_from(
                    Seq::empty(),
                    self.lib.stack,
                    0,
                ),
            decreases nl - i,
        {
            let unit = match self.convert_layer_unit(&self.lib.stack.layers[i]) {
                Ok(u) => u,
                Err(e) => {
                    return Err(e);
                },
            };
            proof {
                lemma_views_push(lib.cells@, unit);
            }
            lib.cells.push(unit);
            i += 1;
        }
        let ghost units = views(lib.cells@);
        let keys = self.lib.cells.keys();
        let ghost cells = self.lib.cells.values();
        let nc = keys.len();
        let mut i: usize = 0;
        while i < nc
            invariant
                i <= nc,
                nc == keys@.len(),
                keys@ == self.lib.cells.order(),
                cells == self.lib.cells.values(),
                forall|k: CellKey| keys@.contains(k) <==> self.lib.cells.entries().dom().contains(k),
                lib.name@ == self.lib.name@,
                lib.units == self.lib.stack.units,
                lib.libs@.len() == 0,
                whole == raw_library(self.lib),
                units_from(Seq::empty(), self.lib.stack, 0) == Ok::<Seq<CellView>, ErrView>(units),
                cells_from(views(lib.cells@), self.lib, cells, i as int) == cells_from(
                    units,
                    self.lib,
                    cells,
                    0,
                ),
            decreases nc - i,
        {
            let k = keys[i];
            assert(keys@.contains(k));
            let cell = match self.lib.cells.get(k) {
                Some(c) => c,
                None => {
                    return Err(LayoutError::Tbd);
                },
            };
            assert(*cell == cells[i as int]);
            let raw = match self.convert_cell(cell) {
                Ok(c) => c,
                Err(e) => {
                    return Err(e);
                },
            };
            proof {
                lemma_views_push(lib.cells@, raw);
            }
            lib.cells.push(raw);
            i += 1;
        }
        let ghost done = views(lib.cells@);
        let akeys = self.lib.abstracts.keys();
        let ghost abstracts = self.lib.abstracts.values();
        let na = akeys.len();
        let mut i: usize = 0;
        while i < na
            invariant
                i <= na,
                na == akeys@.len(),
                akeys@ == self.lib.abstracts.order(),
                abstracts == self.lib.abstracts.values(),
                forall|k: AbstractKey|
                    akeys@.contains(k) <==> self.lib.abstracts.entries().dom().contains(k),
                keys@ == self.lib.cells.order(),
                cells == self.lib.cells.values(),
                forall|k: CellKey| keys@.contains(k) <==> self.lib.cells.entries().dom().contains(k),
                lib.name@ == self.lib.name@,
                lib.units == self.lib.stack.units,
                lib.libs@.len() == 0,
                whole == raw_library(self.lib),
                units_from(Seq::empty(), self.lib.stack, 0) == Ok::<Seq<CellView>, ErrView>(units),
                cells_from(units, self.lib, cells, 0) == Ok::<Seq<CellView>, ErrView>(done),
                abstracts_from(views(lib.cells@), self.lib, abstracts, i as int) == abstracts_from(
                    done,
                    self.lib,
                    abstracts,
                    0,
                ),
            decreases na - i,
        {
            let k = akeys[i];
            assert(akeys@.contains(k));
            let abs = match self.lib.abstracts.get(k) {
                Some(a) => a,
                None => {
                    return Err(LayoutError::Tbd);
                },
            };
            assert(*abs == abstracts[i as int]);
            if !self.is_cell_name(&keys, &abs.name) {
                let raw = match self.convert_abstract(abs) {
                    Ok(c) => c,
                    Err(e) => {
                        return Err(e);
                    },
                };
                proof {
                    lemma_views_push(lib.cells@, raw);
                }
                lib.cells.push(raw);
            }
            i += 1;
        }
        assert(lib.libs@ =~= Seq::<crate::raw::Library>::empty());
        Ok(lib)
    }

    /// Converts the library `lib` into raw layout: a unit cell for each
    /// layer of the stack, then the cells in the order of their store, then
    /// the abstracts in the order of theirs. An abstract whose name a cell
    /// has is left out. Fails with the first failure among these.
    pub fn convert(lib: Library) -> (r: LayoutResult<crate::raw::Library>)
        ensures
            outcome(r) == raw_library(lib),
    {
        let converter = RawConverter { lib };
        converter.convert_all()
    }

    /// The raw cell of `cell`: the rectangles of its tracks, cut around
    /// its instances and with its nets bound, its outline, and its
    /// instances with their corners scaled to distances. The cuts of the
    /// cell are not applied, and no vias are drawn.
    ///
    /// Fails, in this order: where the outline is no rectangle; where an
    /// instance refers to nothing that the library holds; where an
    /// assignment names or crosses a layer that the cell does not route
    /// on; where the cell routes on more layers than the stack has; at the
    /// first row that fails; where the outline cannot be drawn; where the
    /// scaled corner of an instance is not representable. A row fails
    /// where its tracks are not representable, where an instance that
    /// reaches into it cannot be cut out, where an assignment in it finds
    /// no signal track to cross or no segment to bind, and where its
    /// rectangles cannot be drawn.
    pub fn convert_cell(&self, cell: &Cell) -> (r: LayoutResult<crate::raw::Cell>)
        ensures
            outcome(r) == raw_cell(self.lib, *cell),
    {
        let elems = match self.convert_shapes(cell) {
            Ok(v) => v,
            Err(e) => {
                return Err(e);
            },
        };
        let insts = match self.place_instances(&cell.instances) {
            Some(v) => v,
            None => {
                return Err(LayoutError::msg(MSG_RANGE));
            },
        };
        Ok(crate::raw::Cell { name: cell.name.clone(), insts, arrays: Vec::new(), elems })
    }
}

impl Library {
    /// This library as raw layout.
    pub fn to_raw(self) -> (r: LayoutResult<crate::raw::Library>)
        ensures
            outcome(r) == raw_library(self),
    {
        RawConverter::convert(self)
    }
}

} // verus!
