use std::collections::HashMap;

use layout21::abstrakt::Abstract;
use layout21::convert::RawConverter;
use layout21::raw::{self, DataTypeMap, Shape};
use layout21::rows::Footprint;
use layout21::{
    Assign, Cell, CellRef, Dir, Instance, Layer, LayoutError, Library, Outline, Point, RelZ, Stack,
    TrackEntry, TrackIntersection, TrackSpec, Unit,
};

fn layer_map(layernum: i16) -> DataTypeMap {
    DataTypeMap { layernum, drawing: Some(20), text: Some(5), other: HashMap::new() }
}

fn metal(index: usize, name: &str, dir: Dir, layernum: i16) -> Layer {
    Layer {
        index,
        name: name.into(),
        entries: vec![
            TrackSpec::rail(490),
            TrackSpec::pat(vec![TrackEntry::gap(230), TrackEntry::sig(140)], 7),
            TrackSpec::gap(230),
            TrackSpec::rail(490),
            TrackSpec::pat(vec![TrackEntry::gap(230), TrackEntry::sig(140)], 7),
            TrackSpec::gap(230),
            TrackSpec::rail(490),
        ],
        dir,
        offset: -245,
        cutsize: 50,
        stream_layer: Some(raw::LayerSpec::new(layernum, 20)),
        raw: Some(layer_map(layernum)),
    }
}

fn stack() -> Stack {
    Stack {
        units: Unit::Nano,
        xpitch: 6600,
        ypitch: 6600,
        boundary_layer: Some(DataTypeMap {
            layernum: 236,
            drawing: Some(0),
            text: None,
            other: HashMap::new(),
        }),
        layers: vec![
            metal(1, "met1", Dir::Horiz, 68),
            metal(2, "met2", Dir::Vert, 69),
            metal(3, "met3", Dir::Horiz, 70),
            metal(4, "met4", Dir::Vert, 71),
        ],
        vias: vec![],
    }
}

fn assign(layer: usize, track: usize, at: usize, relz: RelZ) -> Assign {
    Assign { net: "clk".into(), at: TrackIntersection { layer, track, at, relz } }
}

fn cell(name: &str, top_layer: usize, x: usize, y: usize) -> Cell {
    Cell {
        name: name.into(),
        top_layer,
        outline: Outline::rect(x, y).unwrap(),
        instances: vec![],
        assignments: vec![],
        cuts: vec![],
    }
}

fn instance(cell: CellRef, x: isize, y: isize) -> Instance {
    Instance {
        inst_name: "inst1".into(),
        cell_name: "IsInst".into(),
        cell,
        p0: Point::new(x, y),
        reflect: false,
        angle: None,
    }
}

fn message(text: &str) -> LayoutError {
    LayoutError::Message(text.into())
}

fn rect(x0: isize, y0: isize, x1: isize, y1: isize) -> Shape {
    Shape::Rect { p0: Point::new(x0, y0), p1: Point::new(x1, y1) }
}

/// Converts a library that holds `main` alone and hands back its raw cell.
fn convert_alone(main: Cell) -> Result<raw::Cell, LayoutError> {
    let converter = RawConverter { lib: Library::new("lib", stack()) };
    converter.convert_cell(&main)
}

#[test]
fn cell_with_one_assignment() {
    let mut lib = Library::new("HereGoesLib", stack());
    let mut main = cell("HereGoes", 3, 5, 5);
    main.assignments = vec![assign(1, 0, 1, RelZ::Above)];
    lib.cells.insert(main);
    let raw = RawConverter::convert(lib).unwrap();
    assert_eq!(raw.name, "HereGoesLib");
    assert_eq!(raw.units, Unit::Nano);
    assert!(raw.libs.is_empty());
    let names: Vec<&str> = raw.cells.iter().map(|c| c.name.as_str()).collect();
    assert_eq!(names, vec!["met1::unit", "met2::unit", "met3::unit", "met4::unit", "HereGoes"]);
    let c = &raw.cells[4];
    assert!(c.insts.is_empty());
    assert!(c.arrays.is_empty());
    assert_eq!(c.elems.len(), 3 * 5 * 17 + 1);
    let named: Vec<&raw::Element> =
        c.elems.iter().filter(|e| e.net == Some("clk".to_string())).collect();
    assert_eq!(named.len(), 1);
    assert_eq!(named[0].layer, layer_map(69));
    assert_eq!(named[0].inner, rect(475, 0, 615, 33000));
    let outline = &c.elems[c.elems.len() - 1];
    assert_eq!(outline.net, None);
    assert_eq!(outline.layer.layernum, 236);
    assert_eq!(
        outline.inner,
        Shape::Poly {
            pts: vec![
                Point::new(0, 0),
                Point::new(33000, 0),
                Point::new(33000, 33000),
                Point::new(0, 33000),
            ],
        }
    );
}

#[test]
fn rows_are_laid_out_in_order() {
    let c = convert_alone(cell("Plain", 2, 2, 3)).unwrap();
    assert_eq!(c.elems.len(), 3 * 17 + 2 * 17 + 1);
    let rail = Some("POWER_OR_GROUND_HERE_BRO".to_string());
    assert_eq!(c.elems[0].net, rail);
    assert_eq!(c.elems[0].layer, layer_map(68));
    assert_eq!(c.elems[0].inner, rect(0, -245, 13200, 245));
    assert_eq!(c.elems[1].inner, rect(0, 3065, 13200, 3555));
    assert_eq!(c.elems[2].inner, rect(0, 6375, 13200, 6865));
    assert_eq!(c.elems[3].net, None);
    assert_eq!(c.elems[3].inner, rect(0, 475, 13200, 615));
    assert_eq!(c.elems[17].inner, rect(0, 6355, 13200, 6845));
    assert_eq!(c.elems[34].inner, rect(0, 12955, 13200, 13445));
    assert_eq!(c.elems[51].layer, layer_map(69));
    assert_eq!(c.elems[51].inner, rect(-245, 0, 245, 19800));
    assert_eq!(c.elems[68].inner, rect(6355, 0, 6845, 19800));
}

#[test]
fn unit_cell_shows_one_period() {
    let converter = RawConverter { lib: Library::new("lib", stack()) };
    let unit = converter.convert_layer_unit(&converter.lib.stack.layers[1]).unwrap();
    assert_eq!(unit.name, "met2::unit");
    assert_eq!(unit.elems.len(), 17);
    assert_eq!(unit.elems[0].net, None);
    assert_eq!(unit.elems[0].inner, rect(-245, 0, 245, 6600));
    assert_eq!(unit.elems[1].inner, rect(475, 0, 615, 6600));
    assert_eq!(unit.elems[8].inner, rect(3065, 0, 3555, 6600));
    assert_eq!(unit.elems[9].inner, rect(3785, 0, 3925, 6600));
    assert_eq!(unit.elems[16].inner, rect(6375, 0, 6865, 6600));
}

#[test]
fn instance_blocks_the_rows_it_reaches() {
    let mut lib = Library::new("InstLib", stack());
    let inner = lib.cells.insert(cell("IsInst", 2, 1, 1));
    let mut main = cell("HasInst", 4, 5, 11);
    main.instances = vec![instance(CellRef::Cell(inner), 1, 2)];
    main.assignments = vec![assign(1, 0, 1, RelZ::Above)];
    let converter = RawConverter { lib };
    let c = converter.convert_cell(&main).unwrap();
    assert_eq!(c.elems.len(), (10 * 17 + 34) + (4 * 17 + 34) + 11 * 17 + 5 * 17 + 1);
    assert_eq!(c.elems[33].inner, rect(0, 6005 + 6600, 33000, 6145 + 6600));
    assert_eq!(c.elems[34].inner, rect(0, 12955, 6600, 13445));
    assert_eq!(c.elems[35].inner, rect(13200, 12955, 33000, 13445));
    assert_eq!(c.elems[68].inner, rect(0, 19555, 33000, 20045));
    let second = 10 * 17 + 34;
    assert_eq!(c.elems[second].inner, rect(-245, 0, 245, 72600));
    assert_eq!(c.elems[second + 17].inner, rect(6355, 0, 6845, 13200));
    assert_eq!(c.elems[second + 18].inner, rect(6355, 19800, 6845, 72600));
    assert_eq!(c.insts.len(), 1);
    assert_eq!(c.insts[0].p0, Point::new(6600, 13200));
    assert_eq!(c.insts[0].inst_name, "inst1");
    assert_eq!(c.insts[0].cell, CellRef::Cell(inner));
}

#[test]
fn footprint_reaches_its_rows_only() {
    let f = Footprint { p0: Point::new(1, 2), xmax: 1, ymax: 1, top_layer: 2 };
    assert!(f.reaches(1, Dir::Vert, 2));
    assert!(f.reaches(2, Dir::Vert, 2));
    assert!(!f.reaches(3, Dir::Vert, 2));
    assert!(!f.reaches(1, Dir::Vert, 1));
    assert!(!f.reaches(1, Dir::Vert, 3));
    assert!(f.reaches(1, Dir::Horiz, 1));
    assert!(!f.reaches(1, Dir::Horiz, 2));
    assert_eq!(f.blockage(Dir::Horiz, 6600), Some((6600, 13200)));
    assert_eq!(f.blockage(Dir::Vert, 6600), Some((13200, 19800)));
    assert_eq!(f.max(Dir::Horiz), 1);
    let before = Footprint { p0: Point::new(-1, 0), xmax: 3, ymax: 1, top_layer: 2 };
    assert!(before.reaches(1, Dir::Horiz, 1));
    assert_eq!(before.blockage(Dir::Horiz, 6600), None);
    assert_eq!(f.blockage(Dir::Horiz, usize::MAX), None);
}

#[test]
fn abstract_instances_block_too() {
    let mut lib = Library::new("InstLib", stack());
    let a = lib.abstracts.insert(Abstract {
        name: "IsAbstrakt".into(),
        top_layer: 2,
        outline: Outline::rect(1, 1).unwrap(),
        ports: vec![],
    });
    let mut main = cell("HasAbstrakts", 3, 5, 5);
    main.instances = vec![
        instance(CellRef::Abstract(a), 0, 0),
        instance(CellRef::Abstract(a), 2, 2),
        instance(CellRef::Abstract(a), 4, 4),
    ];
    main.assignments = vec![assign(1, 11, 11, RelZ::Above)];
    lib.cells.insert(main);
    let raw = RawConverter::convert(lib).unwrap();
    let names: Vec<&str> = raw.cells.iter().map(|c| c.name.as_str()).collect();
    assert_eq!(
        names,
        vec!["met1::unit", "met2::unit", "met3::unit", "met4::unit", "HasAbstrakts", "IsAbstrakt"]
    );
    let c = &raw.cells[4];
    assert_eq!(c.elems.len(), 2 * (5 * 17 + 17) + 5 * 17 + 1);
    let named: Vec<&raw::Element> =
        c.elems.iter().filter(|e| e.net == Some("clk".to_string())).collect();
    assert_eq!(named.len(), 1);
    assert_eq!(named[0].inner, rect(5265, 6600, 5405, 33000));
    let placeholder = &raw.cells[5];
    assert!(placeholder.insts.is_empty());
    assert_eq!(placeholder.elems.len(), 1);
    assert_eq!(
        placeholder.elems[0].inner,
        Shape::Poly {
            pts: vec![
                Point::new(0, 0),
                Point::new(6600, 0),
                Point::new(6600, 6600),
                Point::new(0, 6600),
            ],
        }
    );
}

#[test]
fn abstract_named_like_a_cell_is_skipped() {
    let mut lib = Library::new("lib", stack());
    lib.cells.insert(cell("Same", 1, 1, 1));
    for name in ["Same", "Other"] {
        lib.abstracts.insert(Abstract {
            name: name.into(),
            top_layer: 1,
            outline: Outline::rect(2, 2).unwrap(),
            ports: vec![],
        });
    }
    let raw = lib.to_raw().unwrap();
    let names: Vec<&str> = raw.cells.iter().map(|c| c.name.as_str()).collect();
    assert_eq!(names, vec!["met1::unit", "met2::unit", "met3::unit", "met4::unit", "Same", "Other"]);
    assert_eq!(raw.cells[4].elems.len(), 17 + 1);
}

#[test]
fn outline_with_steps_is_not_supported() {
    let mut main = cell("Steps", 1, 1, 1);
    main.outline = Outline::new(vec![2, 1], vec![1, 2]).unwrap();
    assert_eq!(
        convert_alone(main),
        Err(message("Non-rectangular outline; not supported (yet)"))
    );
}

#[test]
fn reference_that_does_not_resolve_fails() {
    let mut main = cell("Main", 1, 2, 2);
    main.instances = vec![instance(CellRef::Name("IsInst".into()), 0, 0)];
    assert_eq!(convert_alone(main), Err(LayoutError::Tbd));
    let mut other = Library::new("other", stack());
    let key = other.cells.insert(cell("Elsewhere", 1, 1, 1));
    let mut main = cell("Main", 1, 2, 2);
    main.instances = vec![instance(CellRef::Cell(key), 0, 0)];
    assert_eq!(convert_alone(main), Err(LayoutError::Tbd));
}

#[test]
fn assignment_outside_the_layers_fails() {
    for a in [
        assign(3, 0, 0, RelZ::Below),
        assign(2, 0, 0, RelZ::Above),
        assign(0, 0, 0, RelZ::Below),
    ] {
        let mut main = cell("Main", 3, 2, 2);
        main.assignments = vec![a];
        assert_eq!(convert_alone(main), Err(message("Assignment Layer Not Defined")));
    }
    let mut main = cell("Main", 3, 2, 2);
    main.assignments = vec![assign(2, 0, 0, RelZ::Below), assign(0, 0, 0, RelZ::Above)];
    assert!(convert_alone(main).is_ok());
}

#[test]
fn assignment_beyond_the_rows_binds_nothing() {
    let mut main = cell("Main", 2, 2, 2);
    main.assignments = vec![assign(0, 2 * 14, 0, RelZ::Above)];
    let c = convert_alone(main).unwrap();
    assert!(c.elems.iter().all(|e| e.net != Some("clk".to_string())));
    let mut main = cell("Main", 2, 2, 2);
    main.assignments = vec![assign(0, 2 * 14 - 1, 0, RelZ::Above)];
    let c = convert_alone(main).unwrap();
    let named: Vec<usize> =
        (0..c.elems.len()).filter(|i| c.elems[*i].net == Some("clk".to_string())).collect();
    assert_eq!(named, vec![17 + 16]);
    assert_eq!(c.elems[33].inner, rect(0, 6600 + 6005, 13200, 6600 + 6145));
}

#[test]
fn cell_on_more_layers_than_the_stack_fails() {
    assert_eq!(convert_alone(cell("Main", 5, 2, 2)), Err(message("Layer Not Defined")));
    assert!(convert_alone(cell("Main", 4, 2, 2)).is_ok());
}

#[test]
fn assignment_under_an_instance_finds_no_segment() {
    let mut lib = Library::new("lib", stack());
    let inner = lib.cells.insert(cell("IsInst", 2, 1, 1));
    let mut main = cell("Main", 3, 5, 5);
    main.instances = vec![instance(CellRef::Cell(inner), 0, 0)];
    main.assignments = vec![assign(1, 0, 1, RelZ::Above)];
    let converter = RawConverter { lib };
    assert_eq!(converter.convert_cell(&main), Err(message("COULDNT FIND SEGMENT")));
}

#[test]
fn instance_without_length_cannot_be_cut_out() {
    let mut lib = Library::new("lib", stack());
    let inner = lib.cells.insert(cell("Flat", 1, 0, 1));
    let mut main = cell("Main", 1, 5, 5);
    main.instances = vec![instance(CellRef::Cell(inner), 1, 1)];
    let converter = RawConverter { lib };
    assert_eq!(converter.convert_cell(&main), Err(message("Error Cutting Track")));
}

#[test]
fn instance_before_the_track_is_out_of_range() {
    let mut lib = Library::new("lib", stack());
    let inner = lib.cells.insert(cell("IsInst", 1, 3, 1));
    let mut main = cell("Main", 1, 5, 5);
    main.instances = vec![instance(CellRef::Cell(inner), -1, 0)];
    let converter = RawConverter { lib };
    assert_eq!(converter.convert_cell(&main), Err(message("Coordinate Out Of Range")));
    let mut main = cell("Main", 1, 5, 5);
    main.instances = vec![instance(CellRef::Cell(inner), -1, -1)];
    let c = converter.convert_cell(&main).unwrap();
    assert_eq!(c.elems.len(), 5 * 17 + 1);
    assert_eq!(c.insts[0].p0, Point::new(-6600, -6600));
}

#[test]
fn stack_without_boundary_layer_draws_no_outline() {
    let mut s = stack();
    s.boundary_layer = None;
    let converter = RawConverter { lib: Library::new("lib", s) };
    let failure = message("Cannot Convert Abstract to Raw without Boundary Layer");
    assert_eq!(converter.convert_outline(&Outline::rect(1, 1).unwrap()), Err(failure.clone()));
    assert_eq!(converter.convert_cell(&cell("Main", 1, 1, 1)), Err(failure.clone()));
    let abs = Abstract {
        name: "A".into(),
        top_layer: 1,
        outline: Outline::rect(1, 1).unwrap(),
        ports: vec![],
    };
    assert_eq!(converter.convert_abstract(&abs), Err(failure));
}

#[test]
fn layer_without_raw_layer_draws_no_tracks() {
    let mut s = stack();
    s.layers[0].raw = None;
    let failure = message("Raw-Layout Layer Not Defined");
    let converter = RawConverter { lib: Library::new("lib", s) };
    assert_eq!(converter.convert_layer_unit(&converter.lib.stack.layers[0]), Err(failure.clone()));
    assert_eq!(converter.convert_cell(&cell("Main", 1, 1, 1)), Err(failure.clone()));
    assert!(converter.convert_cell(&cell("Main", 1, 1, 0)).is_ok());
    let track = &converter.lib.stack.layers[0].to_track_period(10).rails[0];
    assert_eq!(converter.convert_track(track), Err(failure));
}

#[test]
fn assignment_across_a_layer_without_signals_fails() {
    let mut s = stack();
    s.layers[1].entries = vec![TrackSpec::rail(490), TrackSpec::gap(10)];
    let converter = RawConverter { lib: Library::new("lib", s) };
    let mut main = cell("Main", 2, 2, 2);
    main.assignments = vec![assign(0, 0, 0, RelZ::Above)];
    assert_eq!(converter.convert_cell(&main), Err(message("Signal Track Not Defined")));
}

#[test]
fn outline_beyond_range_fails() {
    let converter = RawConverter { lib: Library::new("lib", stack()) };
    let wide = Outline::rect(usize::MAX / 2, 1).unwrap();
    assert_eq!(converter.convert_outline(&wide), Err(message("Coordinate Out Of Range")));
    assert_eq!(
        converter.convert_cell(&cell("Main", 1, usize::MAX / 2, 1)),
        Err(message("Coordinate Out Of Range"))
    );
}

#[test]
fn stepped_outline_of_an_abstract_is_scaled() {
    let converter = RawConverter { lib: Library::new("lib", stack()) };
    let abs = Abstract {
        name: "Steps".into(),
        top_layer: 1,
        outline: Outline::new(vec![2, 1], vec![1, 3]).unwrap(),
        ports: vec![],
    };
    let c = converter.convert_abstract(&abs).unwrap();
    assert_eq!(c.name, "Steps");
    assert_eq!(
        c.elems[0].inner,
        Shape::Poly {
            pts: vec![
                Point::new(0, 0),
                Point::new(13200, 0),
                Point::new(13200, 6600),
                Point::new(6600, 6600),
                Point::new(6600, 19800),
                Point::new(0, 19800),
            ],
        }
    );
}

#[test]
fn track_becomes_one_rectangle_for_each_segment() {
    let converter = RawConverter { lib: Library::new("lib", stack()) };
    let layer = &converter.lib.stack.layers[1];
    let mut period = layer.to_track_period(100);
    period.cut(20, 30).unwrap();
    let elems = converter.convert_track(&period.signals[1]).unwrap();
    assert_eq!(elems.len(), 2);
    assert_eq!(elems[0].inner, rect(845, 0, 985, 20));
    assert_eq!(elems[1].inner, rect(845, 30, 985, 100));
    assert_eq!(elems[0].layer, layer_map(69));
    assert_eq!(elems[0].clone(), elems[0]);
}
