use std::collections::HashMap;

use layout21::gds::{GdsConverter, GdsElem};
use layout21::raw::{Cell, DataTypeMap, Element, InstArray, Library, Shape};
use layout21::{CellRef, Instance, LayoutError, Point, Unit};

fn layer(drawing: Option<i16>, text: Option<i16>) -> DataTypeMap {
    DataTypeMap { layernum: 68, drawing, text, other: HashMap::new() }
}

fn rect(x0: isize, y0: isize, x1: isize, y1: isize) -> Shape {
    Shape::Rect { p0: Point::new(x0, y0), p1: Point::new(x1, y1) }
}

fn converter() -> GdsConverter {
    GdsConverter { lib: Library::new("lib", Unit::Nano) }
}

fn message(text: &str) -> LayoutError {
    LayoutError::Message(text.into())
}

fn array() -> InstArray {
    InstArray {
        inst_name: "arr".into(),
        cell_name: "unit".into(),
        rows: 2,
        cols: 3,
        xpitch: 10,
        ypitch: 20,
        p0: Point::new(1, 2),
        reflect: false,
        angle: None,
    }
}

#[test]
fn rectangle_becomes_a_closed_boundary() {
    let e = Element { net: None, layer: layer(Some(20), None), inner: rect(0, 1, 10, 4) };
    assert_eq!(
        converter().convert_element(&e),
        Ok(vec![GdsElem::Boundary {
            layer: 68,
            datatype: 20,
            xy: vec![0, 1, 10, 1, 10, 4, 0, 4, 0, 1],
        }])
    );
}

#[test]
fn net_becomes_a_text_at_the_center() {
    let e = Element { net: Some("clk".into()), layer: layer(Some(20), Some(5)), inner: rect(0, 0, 10, 4) };
    let items = converter().convert_element(&e).unwrap();
    assert_eq!(items.len(), 2);
    assert_eq!(
        items[1],
        GdsElem::Text { string: "clk".into(), layer: 68, texttype: 5, xy: vec![5, 2], rotated: false }
    );
    let e = Element { net: Some("clk".into()), layer: layer(Some(20), Some(5)), inner: rect(0, 0, 4, 10) };
    let items = converter().convert_element(&e).unwrap();
    assert_eq!(
        items[1],
        GdsElem::Text { string: "clk".into(), layer: 68, texttype: 5, xy: vec![2, 5], rotated: true }
    );
}

#[test]
fn polygon_is_closed_with_its_first_vertex() {
    let pts = vec![Point::new(0, 0), Point::new(5, 0), Point::new(5, 11), Point::new(0, 11)];
    let e = Element { net: None, layer: layer(Some(0), None), inner: Shape::Poly { pts } };
    assert_eq!(
        converter().convert_element(&e),
        Ok(vec![GdsElem::Boundary {
            layer: 68,
            datatype: 0,
            xy: vec![0, 0, 5, 0, 5, 11, 0, 11, 0, 0],
        }])
    );
}

#[test]
fn elements_that_cannot_be_written_fail() {
    let e = Element { net: None, layer: layer(None, Some(5)), inner: rect(0, 0, 1, 1) };
    assert_eq!(converter().convert_element(&e), Err(message("Drawing Layer Not Defined")));
    let e = Element { net: Some("a".into()), layer: layer(Some(20), None), inner: rect(0, 0, 1, 1) };
    assert_eq!(converter().convert_element(&e), Err(message("Text Layer Not Defined")));
    let e = Element { net: None, layer: layer(Some(20), None), inner: Shape::Poly { pts: vec![] } };
    assert_eq!(converter().convert_element(&e), Err(message("Polygon Not Supported")));
    let e = Element {
        net: Some("a".into()),
        layer: layer(Some(20), Some(5)),
        inner: Shape::Poly { pts: vec![Point::new(0, 0)] },
    };
    assert_eq!(converter().convert_element(&e), Err(message("Polygon Not Supported")));
}

#[test]
fn coordinates_keep_their_low_bits() {
    let e = Element {
        net: None,
        layer: layer(Some(20), None),
        inner: rect(0x1_0000_0005, -1, 0x7fff_ffff, 0x8000_0000),
    };
    assert_eq!(
        converter().convert_element(&e),
        Ok(vec![GdsElem::Boundary {
            layer: 68,
            datatype: 20,
            xy: vec![5, -1, i32::MAX, -1, i32::MAX, i32::MIN, 5, i32::MIN, 5, -1],
        }])
    );
}

#[test]
fn array_spans_its_columns_and_rows() {
    assert_eq!(
        converter().convert_array(&array()),
        Ok(GdsElem::ArrayRef { name: "unit".into(), xy: vec![1, 2, 32, 2, 1, 43], rows: 2, cols: 3 })
    );
    let mut far = array();
    far.xpitch = usize::MAX;
    assert_eq!(converter().convert_array(&far), Err(message("Coordinate Out Of Range")));
    let mut edge = array();
    edge.p0 = Point::new(i32::MAX as isize, 0);
    assert_eq!(converter().convert_array(&edge), Err(message("Coordinate Out Of Range")));
}

#[test]
fn cell_lists_instances_arrays_and_shapes() {
    let inst = Instance {
        inst_name: "i0".into(),
        cell_name: "unit".into(),
        cell: CellRef::Name("unit".into()),
        p0: Point::new(6600, 13200),
        reflect: false,
        angle: None,
    };
    let cell = Cell {
        name: "top".into(),
        insts: vec![inst.clone()],
        arrays: vec![array()],
        elems: vec![
            Element { net: Some("clk".into()), layer: layer(Some(20), Some(5)), inner: rect(0, 0, 10, 4) },
            Element { net: None, layer: layer(Some(20), Some(5)), inner: rect(0, 0, 1, 1) },
        ],
    };
    assert_eq!(
        converter().convert_instance(&inst),
        GdsElem::StructRef { name: "unit".into(), xy: vec![6600, 13200] }
    );
    let s = converter().convert_cell(&cell).unwrap();
    assert_eq!(s.name, "top");
    assert_eq!(s.elems.len(), 5);
    assert_eq!(s.elems[0], GdsElem::StructRef { name: "unit".into(), xy: vec![6600, 13200] });
    assert!(matches!(s.elems[1], GdsElem::ArrayRef { .. }));
    assert!(matches!(s.elems[2], GdsElem::Boundary { .. }));
    assert!(matches!(s.elems[3], GdsElem::Text { .. }));
    assert!(matches!(s.elems[4], GdsElem::Boundary { .. }));
    let mut lib = Library::new("lib", Unit::Micro);
    lib.cells.push(cell);
    let gds = lib.to_gds().unwrap();
    assert_eq!(gds.name, "lib");
    assert_eq!(gds.units, Unit::Micro);
    assert_eq!(gds.structs, vec![s]);
}

#[test]
fn failing_cell_fails_the_library() {
    let mut lib = Library::new("lib", Unit::Nano);
    lib.cells.push(Cell {
        name: "bad".into(),
        insts: vec![],
        arrays: vec![],
        elems: vec![Element { net: None, layer: layer(None, None), inner: rect(0, 0, 1, 1) }],
    });
    assert_eq!(GdsConverter::convert(lib), Err(message("Drawing Layer Not Defined")));
}

#[test]
fn nested_libraries_are_not_written() {
    let mut lib = Library::new("outer", Unit::Nano);
    lib.libs.push(Library::new("inner", Unit::Nano));
    assert_eq!(lib.to_gds(), Err(message("No nested libraries to GDS (yet)")));
}

#[test]
fn stream_errors_have_no_category() {
    assert_eq!(LayoutError::from(gds21::GdsError::Decode), LayoutError::Tbd);
    assert_eq!(LayoutError::from(gds21::GdsError::RecordLen(3)), LayoutError::Tbd);
}
