//! Raw layout as the elements of a GDSII stream: boundaries, texts,
//! structure references and array references, with 32-bit coordinates.
//!
//! Coordinates wider than 32 bits keep their low 32 bits.

use vstd::prelude::*;
use crate::cell::Instance;
use crate::convert::MSG_RANGE;
use crate::error::{failure, outcome, ErrView, LayoutError, LayoutResult};
use crate::geom::{lemma_views_concat, lemma_views_push, views, Dir, Point, Unit};
use crate::raw::{
    rect_center, rect_dir, Cell, Element, ElementView, InstArray, Library, Shape, ShapeView,
};

verus! {

/// Said of a library that holds libraries.
pub const MSG_NESTED: &'static str = "No nested libraries to GDS (yet)";

/// Said of a shape on a layer without a datatype for drawing.
pub const MSG_DRAWING: &'static str = "Drawing Layer Not Defined";

/// Said of a shape with a net on a layer without a datatype for text.
pub const MSG_TEXT: &'static str = "Text Layer Not Defined";

/// Said of a polygon that has no vertex, or that carries a net: a net is
/// written at the centre of a rectangle only.
pub const MSG_POLYGON: &'static str = "Polygon Not Supported";

#[verifier::external_type_specification]
#[verifier::external_body]
pub struct ExGdsError(gds21::GdsError);

impl From<gds21::GdsError> for LayoutError {
    /// Every error of the stream reader and writer counts as an error
    /// without category.
    fn from(e: gds21::GdsError) -> (r: LayoutError) {
        LayoutError::Tbd
    }
}

impl vstd::std_specs::convert::FromSpecImpl<gds21::GdsError> for LayoutError {
    open spec fn obeys_from_spec() -> bool {
        true
    }

    open spec fn from_spec(e: gds21::GdsError) -> LayoutError {
        LayoutError::Tbd
    }
}

/// An element of a stream structure.
#[derive(Debug, Clone, PartialEq, Eq)]
pub enum GdsElem {
    /// A closed polygon: its vertices as x and y in turn, the first vertex
    /// once more at the end.
    Boundary { layer: i16, datatype: i16, xy: Vec<i32> },
    /// A text at a point, turned by 90 degrees where `rotated`.
    Text { string: String, layer: i16, texttype: i16, xy: Vec<i32>, rotated: bool },
    /// An instance of the structure `name` at a point.
    StructRef { name: String, xy: Vec<i32> },
    /// A grid of instances of the structure `name`, given by its origin
    /// and the two points that end its first row and its first column.
    ArrayRef { name: String, xy: Vec<i32>, rows: i16, cols: i16 },
}

/// A [`GdsElem`] as a value.
pub enum GdsElemView {
    Boundary { layer: i16, datatype: i16, xy: Seq<i32> },
    Text { string: Seq<char>, layer: i16, texttype: i16, xy: Seq<i32>, rotated: bool },
    StructRef { name: Seq<char>, xy: Seq<i32> },
    ArrayRef { name: Seq<char>, xy: Seq<i32>, rows: i16, cols: i16 },
}

impl View for GdsElem {
    type V = GdsElemView;

    open spec fn view(&self) -> GdsElemView {
        match self {
            GdsElem::Boundary { layer, datatype, xy } => GdsElemView::Boundary {
                layer: *layer,
                datatype: *datatype,
                xy: xy@,
            },
            GdsElem::Text { string, layer, texttype, xy, rotated } => GdsElemView::Text {
                string: string@,
                layer: *layer,
                texttype: *texttype,
                xy: xy@,
                rotated: *rotated,
            },
            GdsElem::StructRef { name, xy } => GdsElemView::StructRef { name: name@, xy: xy@ },
            GdsElem::ArrayRef { name, xy, rows, cols } => GdsElemView::ArrayRef {
                name: name@,
                xy: xy@,
                rows: *rows,
                cols: *cols,
            },
        }
    }
}

/// A stream structure: a named list of elements.
#[derive(Debug, Clone, PartialEq, Eq)]
pub struct GdsCell {
    pub name: String,
    pub elems: Vec<GdsElem>,
}

/// A [`GdsCell`] as a value.
pub struct GdsCellView {
    pub name: Seq<char>,
    pub elems: Seq<GdsElemView>,
}

impl View for GdsCell {
    type V = GdsCellView;

    open spec fn view(&self) -> GdsCellView {
        GdsCellView { name: self.name@, elems: views(self.elems@) }
    }
}

/// A stream library: a name, the unit of its coordinates and its
/// structures.
#[derive(Debug, Clone, PartialEq, Eq)]
pub struct GdsLib {
    pub name: String,
    pub units: Unit,
    pub structs: Vec<GdsCell>,
}

/// A [`GdsLib`] as a value.
pub struct GdsLibView {
    pub name: Seq<char>,
    pub units: Unit,
    pub structs: Seq<GdsCellView>,
}

impl View for GdsLib {
    type V = GdsLibView;

    open spec fn view(&self) -> GdsLibView {
        GdsLibView { name: self.name@, units: self.units, structs: views(self.structs@) }
    }
}

/// The low 32 bits of `v`.
pub open spec fn low32(v: int) -> i32 {
    v as i32
}

/// The low 16 bits of `v`.
pub open spec fn low16(v: int) -> i16 {
    v as i16
}

/// The coordinates of the points `pts`, x and y in turn.
pub open spec fn flat_xy(pts: Seq<Point>) -> Seq<i32> {
    Seq::new(
        2 * pts.len(),
        |i: int|
            if i % 2 == 0 {
                low32(pts[i / 2].x as int)
            } else {
                low32(pts[i / 2].y as int)
            },
    )
}

/// The vertices of `shape` as a closed polygon: the four corners of a
/// rectangle, or the vertices of a polygon, and the first of them again.
pub open spec fn shape_xy(shape: ShapeView) -> Seq<i32> {
    match shape {
        ShapeView::Rect { p0, p1 } => seq![
            low32(p0.x as int),
            low32(p0.y as int),
            low32(p1.x as int),
            low32(p0.y as int),
            low32(p1.x as int),
            low32(p1.y as int),
            low32(p0.x as int),
            low32(p1.y as int),
            low32(p0.x as int),
            low32(p0.y as int),
        ],
        ShapeView::Poly { pts } => flat_xy(pts) + seq![low32(pts[0].x as int), low32(pts[0].y as int)],
    }
}

/// The stream elements of the shape `e`: its boundary, and where it
/// carries a net, the net's name as a text at its centre, turned where the
/// shape is higher than wide.
pub open spec fn element_items(e: ElementView) -> Result<Seq<GdsElemView>, ErrView> {
    match e.layer.drawing {
        None => Err(failure(MSG_DRAWING@)),
        Some(datatype) => if e.inner matches ShapeView::Poly { pts } && pts.len() == 0 {
            Err(failure(MSG_POLYGON@))
        } else {
            let boundary = GdsElemView::Boundary {
                layer: e.layer.layernum,
                datatype,
                xy: shape_xy(e.inner),
            };
            match e.net {
                None => Ok(seq![boundary]),
                Some(name) => match e.layer.text {
                    None => Err(failure(MSG_TEXT@)),
                    Some(texttype) => match e.inner {
                        ShapeView::Poly { .. } => Err(failure(MSG_POLYGON@)),
                        ShapeView::Rect { p0, p1 } => Ok(
                            seq![
                                boundary,
                                GdsElemView::Text {
                                    string: name,
                                    layer: e.layer.layernum,
                                    texttype,
                                    xy: seq![
                                        low32(rect_center(p0, p1).x as int),
                                        low32(rect_center(p0, p1).y as int),
                                    ],
                                    rotated: rect_dir(p0, p1) == Dir::Vert,
                                },
                            ],
                        ),
                    },
                },
            }
        },
    }
}

/// The structure reference of the instance `inst`.
pub open spec fn instance_item(inst: Instance) -> GdsElemView {
    GdsElemView::StructRef {
        name: inst.cell_name@,
        xy: seq![low32(inst.p0.x as int), low32(inst.p0.y as int)],
    }
}

/// True when the extent of the array `arr` can be computed.
pub open spec fn array_fits(arr: InstArray) -> bool {
    &&& arr.xpitch * arr.cols + 1 <= usize::MAX
    &&& arr.ypitch * arr.rows + 1 <= usize::MAX
    &&& i32::MIN <= low32(arr.p0.x as int) + low32(arr.xpitch * arr.cols + 1) <= i32::MAX
    &&& i32::MIN <= low32(arr.p0.y as int) + low32(arr.ypitch * arr.rows + 1) <= i32::MAX
}

/// The array reference of the array `arr`: its origin, the point one past
/// its last column, and the point one past its last row.
pub open spec fn array_item(arr: InstArray) -> Result<GdsElemView, ErrView> {
    if !array_fits(arr) {
        Err(failure(MSG_RANGE@))
    } else {
        let x0 = low32(arr.p0.x as int);
        let y0 = low32(arr.p0.y as int);
        let x1 = (x0 + low32(arr.xpitch * arr.cols + 1)) as i32;
        let y1 = (y0 + low32(arr.ypitch * arr.rows + 1)) as i32;
        Ok(
            GdsElemView::ArrayRef {
                name: arr.cell_name@,
                xy: seq![x0, y0, x1, y0, x0, y1],
                rows: low16(arr.rows as int),
                cols: low16(arr.cols as int),
            },
        )
    }
}

/// The structure references of the instances `insts`, in order.
pub open spec fn instance_items(insts: Seq<Instance>) -> Seq<GdsElemView> {
    Seq::new(insts.len(), |i: int| instance_item(insts[i]))
}

/// The elements `acc` followed by the array references of `arrays` from
/// index `from` on.
pub open spec fn arrays_from(acc: Seq<GdsElemView>, arrays: Seq<InstArray>, from: int) -> Result<
    Seq<GdsElemView>,
    ErrView,
>
    decreases arrays.len() - from,
{
    if from < 0 || from >= arrays.len() {
        Ok(acc)
    } else {
        match array_item(arrays[from]) {
            Err(e) => Err(e),
            Ok(a) => arrays_from(acc.push(a), arrays, from + 1),
        }
    }
}

/// The elements `acc` followed by the stream elements of the shapes
/// `elems` from index `from` on.
pub open spec fn elements_from(acc: Seq<GdsElemView>, elems: Seq<ElementView>, from: int) -> Result<
    Seq<GdsElemView>,
    ErrView,
>
    decreases elems.len() - from,
{
    if from < 0 || from >= elems.len() {
        Ok(acc)
    } else {
        match element_items(elems[from]) {
            Err(e) => Err(e),
            Ok(s) => elements_from(acc + s, elems, from + 1),
        }
    }
}

/// The stream structure of the raw cell `cell`: its instances, then its
/// arrays, then its shapes.
pub open spec fn gds_cell(cell: crate::raw::CellView) -> Result<GdsCellView, ErrView> {
    match arrays_from(instance_items(cell.insts), cell.arrays, 0) {
        Err(e) => Err(e),
        Ok(refs) => match elements_from(refs, cell.elems, 0) {
            Err(e) => Err(e),
            Ok(elems) => Ok(GdsCellView { name: cell.name, elems }),
        },
    }
}

/// The structures `acc` followed by the stream structures of the raw
/// cells `cells` from index `from` on.
pub open spec fn structs_from(acc: Seq<GdsCellView>, cells: Seq<crate::raw::CellView>, from: int) -> Result<
    Seq<GdsCellView>,
    ErrView,
>
    decreases cells.len() - from,
{
    if from < 0 || from >= cells.len() {
        Ok(acc)
    } else {
        match gds_cell(cells[from]) {
            Err(e) => Err(e),
            Ok(c) => structs_from(acc.push(c), cells, from + 1),
        }
    }
}

/// The stream library of the raw library `lib`, which must hold no
/// libraries.
pub open spec fn gds_library(lib: crate::raw::LibraryView) -> Result<GdsLibView, ErrView> {
    if lib.libs.len() > 0 {
        Err(failure(MSG_NESTED@))
    } else {
        match structs_from(Seq::empty(), lib.cells, 0) {
            Err(e) => Err(e),
            Ok(structs) => Ok(GdsLibView { name: lib.name, units: lib.units, structs }),
        }
    }
}

/// The low 32 bits of `v`.
fn narrow(v: isize) -> (r: i32)
    ensures
        r == low32(v as int),
{
    #[verifier::truncate]
    (v as i32)
}

/// Converts a raw library into the elements of a GDSII stream.
#[derive(Debug)]
pub struct GdsConverter {
    pub lib: Library,
}

impl GdsConverter {
    /// The stream library of the raw library `lib`.
    pub fn convert(lib: Library) -> (r: LayoutResult<GdsLib>)
        ensures
            outcome(r) == gds_library(lib@),
    {
        let converter = GdsConverter { lib };
        converter.convert_all()
    }

    fn convert_all(&self) -> (r: LayoutResult<GdsLib>)
        ensures
            outcome(r) == gds_library(self.lib@),
    {
        if self.lib.libs.len() > 0 {
            return Err(LayoutError::msg(MSG_NESTED));
        }
        let n = self.lib.cells.len();
        let mut structs: Vec<GdsCell> = Vec::new();
        assert(views(structs@) =~= Seq::<GdsCellView>::empty());
        let mut i: usize = 0;
        while i < n
            invariant
                i <= n,
                n == self.lib.cells@.len(),
                self.lib.libs@.len() == 0,
                structs_from(views(structs@), self.lib@.cells, i as int) == structs_from(
                    Seq::empty(),
                    self.lib@.cells,
                    0,
                ),
            decreases n - i,
        {
            assert(self.lib@.cells.len() == n);
            assert(self.lib@.cells[i as int] == self.lib.cells@[i as int]@);
            let s = match self.convert_cell(&self.lib.cells[i]) {
                Ok(s) => s,
                Err(e) => {
                    return Err(e);
                },
            };
            proof {
                lemma_views_push(structs@, s);
            }
            structs.push(s);
            i += 1;
        }
        assert(self.lib@.cells.len() == n);
        Ok(GdsLib { name: self.lib.name.clone(), units: self.lib.units, structs })
    }

    /// The stream structure of the raw cell `cell`.
    pub fn convert_cell(&self, cell: &Cell) -> (r: LayoutResult<GdsCell>)
        ensures
            outcome(r) == gds_cell(cell@),
    {
        let mut elems: Vec<GdsElem> = Vec::new();
        let ni = cell.insts.len();
        let mut i: usize = 0;
        while i < ni
            invariant
                i <= ni,
                ni == cell.insts@.len(),
                views(elems@) =~= instance_items(cell.insts@).take(i as int),
            decreases ni - i,
        {
            let e = self.convert_instance(&cell.insts[i]);
            proof {
                lemma_views_push(elems@, e);
            }
            elems.push(e);
            i += 1;
        }
        assert(instance_items(cell.insts@).take(ni as int) =~= instance_items(cell.insts@));
        let ghost refs = views(elems@);
        let na = cell.arrays.len();
        let mut i: usize = 0;
        while i < na
            invariant
                i <= na,
                na == cell.arrays@.len(),
                refs == instance_items(cell.insts@),
                arrays_from(views(elems@), cell.arrays@, i as int) == arrays_from(refs, cell.arrays@, 0),
            decreases na - i,
        {
            let e = match self.convert_array(&cell.arrays[i]) {
                Ok(e) => e,
                Err(e) => {
                    return Err(e);
                },
            };
            proof {
                lemma_views_push(elems@, e);
            }
            elems.push(e);
            i += 1;
        }
        let ghost arrays = views(elems@);
        let ne = cell.elems.len();
        let mut i: usize = 0;
        while i < ne
            invariant
                i <= ne,
                ne == cell.elems@.len(),
                refs == instance_items(cell.insts@),
                arrays_from(refs, cell.arrays@, 0) == Ok::<Seq<GdsElemView>, ErrView>(arrays),
                elements_from(views(elems@), views(cell.elems@), i as int) == elements_from(
                    arrays,
                    views(cell.elems@),
                    0,
                ),
            decreases ne - i,
        {
            assert(views(cell.elems@).len() == ne);
            assert(views(cell.elems@)[i as int] == cell.elems@[i as int]@);
            let mut more = match self.convert_element(&cell.elems[i]) {
                Ok(m) => m,
                Err(e) => {
                    return Err(e);
                },
            };
            proof {
                lemma_views_concat(elems@, more@);
            }
            elems.append(&mut more);
            i += 1;
        }
        assert(views(cell.elems@).len() == ne);
        Ok(GdsCell { name: cell.name.clone(), elems })
    }

    /// The structure reference of the instance `inst`: the name of its
    /// cell and its corner.
    pub fn convert_instance(&self, inst: &Instance) -> (r: GdsElem)
        ensures
            r@ == instance_item(*inst),
    {
        let mut xy: Vec<i32> = Vec::new();
        xy.push(narrow(inst.p0.x));
        xy.push(narrow(inst.p0.y));
        assert(xy@ =~= seq![low32(inst.p0.x as int), low32(inst.p0.y as int)]);
        GdsElem::StructRef { name: inst.cell_name.clone(), xy }
    }

    /// The stream elements of the shape `elem`: its boundary, and the name
    /// of its net as a text.
    pub fn convert_element(&self, elem: &Element) -> (r: LayoutResult<Vec<GdsElem>>)
        ensures
            (match r {
                Ok(v) => Ok(views(v@)),
                Err(e) => Err(e@),
            }) == element_items(elem@),
    {
        let datatype = match elem.layer.drawing {
            Some(d) => d,
            None => {
                return Err(LayoutError::msg(MSG_DRAWING));
            },
        };
        let mut xy: Vec<i32> = Vec::new();
        match &elem.inner {
            Shape::Rect { p0, p1 } => {
                let x0 = narrow(p0.x);
                let y0 = narrow(p0.y);
                let x1 = narrow(p1.x);
                let y1 = narrow(p1.y);
                xy.push(x0);
                xy.push(y0);
                xy.push(x1);
                xy.push(y0);
                xy.push(x1);
                xy.push(y1);
                xy.push(x0);
                xy.push(y1);
                xy.push(x0);
                xy.push(y0);
                assert(xy@ =~= shape_xy(elem@.inner));
            },
            Shape::Poly { pts } => {
                let n = pts.len();
                if n == 0 {
                    return Err(LayoutError::msg(MSG_POLYGON));
                }
                let mut i: usize = 0;
                while i < n
                    invariant
                        i <= n,
                        n == pts@.len(),
                        xy@ =~= flat_xy(pts@).take(2 * i),
                    decreases n - i,
                {
                    let ghost before = xy@;
                    xy.push(narrow(pts[i].x));
                    xy.push(narrow(pts[i].y));
                    proof {
                        let goal = flat_xy(pts@);
                        assert((2 * i) % 2 == 0 && (2 * i) / 2 == i as int);
                        assert((2 * i + 1) % 2 == 1 && (2 * i + 1) / 2 == i as int);
                        assert(xy@ =~= before.push(goal[2 * i]).push(goal[2 * i + 1]));
                    }
                    i += 1;
                }
                assert(flat_xy(pts@).take(2 * n) =~= flat_xy(pts@));
                xy.push(narrow(pts[0].x));
                xy.push(narrow(pts[0].y));
                assert(xy@ =~= shape_xy(elem@.inner));
            },
        }
        let mut items: Vec<GdsElem> = Vec::new();
        let boundary = GdsElem::Boundary { layer: elem.layer.layernum, datatype, xy };
        items.push(boundary);
        if let Some(name) = &elem.net {
            let texttype = match elem.layer.text {
                Some(t) => t,
                None => {
                    return Err(LayoutError::msg(MSG_TEXT));
                },
            };
            match &elem.inner {
                Shape::Poly { .. } => {
                    return Err(LayoutError::msg(MSG_POLYGON));
                },
                Shape::Rect { p0, p1 } => {
                    let loc = elem.inner.center();
                    let rotated = match elem.inner.orientation() {
                        Dir::Horiz => false,
                        Dir::Vert => true,
                    };
                    let mut at: Vec<i32> = Vec::new();
                    at.push(narrow(loc.x));
                    at.push(narrow(loc.y));
                    assert(at@ =~= seq![
                        low32(rect_center(*p0, *p1).x as int),
                        low32(rect_center(*p0, *p1).y as int),
                    ]);
                    let text = GdsElem::Text {
                        string: name.clone(),
                        layer: elem.layer.layernum,
                        texttype,
                        xy: at,
                        rotated,
                    };
                    items.push(text);
                    assert(views(items@) =~= seq![boundary@, text@]);
                },
            }
        } else {
            assert(views(items@) =~= seq![boundary@]);
        }
        Ok(items)
    }

    /// The array reference of the array `arr`.
    pub fn convert_array(&self, arr: &InstArray) -> (r: LayoutResult<GdsElem>)
        ensures
            outcome(r) == array_item(*arr),
    {
        let x0 = narrow(arr.p0.x);
        let y0 = narrow(arr.p0.y);
        let dx = match extent(arr.xpitch, arr.cols) {
            Some(d) => d,
            None => {
                return Err(LayoutError::msg(MSG_RANGE));
            },
        };
        let dy = match extent(arr.ypitch, arr.rows) {
            Some(d) => d,
            None => {
                return Err(LayoutError::msg(MSG_RANGE));
            },
        };
        let x1 = match x0.checked_add(dx) {
            Some(x) => x,
            None => {
                return Err(LayoutError::msg(MSG_RANGE));
            },
        };
        let y1 = match y0.checked_add(dy) {
            Some(y) => y,
            None => {
                return Err(LayoutError::msg(MSG_RANGE));
            },
        };
        let mut xy: Vec<i32> = Vec::new();
        xy.push(x0);
        xy.push(y0);
        xy.push(x1);
        xy.push(y0);
        xy.push(x0);
        xy.push(y1);
        assert(xy@ =~= seq![x0, y0, x1, y0, x0, y1]);
        let rows = #[verifier::truncate]
        (arr.rows as i16);
        let cols = #[verifier::truncate]
        (arr.cols as i16);
        Ok(GdsElem::ArrayRef { name: arr.cell_name.clone(), xy, rows, cols })
    }
}

/// The low 32 bits of `pitch * count + 1`, or `None` where that number is
/// not representable.
fn extent(pitch: usize, count: usize) -> (r: Option<i32>)
    ensures
        r is Some <==> pitch * count + 1 <= usize::MAX,
        r matches Some(d) ==> d == low32(pitch * count + 1),
{
    match pitch.checked_mul(count) {
        None => None,
        Some(p) => match p.checked_add(1) {
            None => None,
            Some(q) => Some(
                #[verifier::truncate]
                (q as i32),
            ),
        },
    }
}

impl Library {
    /// This library as the elements of a GDSII stream.
    pub fn to_gds(self) -> (r: LayoutResult<GdsLib>)
        ensures
            outcome(r) == gds_library(self@),
    {
        GdsConverter::convert(self)
    }
}

} // verus!
