use std::collections::HashMap;

use layout21::abstrakt;
use layout21::raw;
use layout21::{
    Assign, Cell, CellRef, Dir, Instance, Layer, LayoutError, Library, Outline, Point, RelZ, Stack,
    TrackEntry, TrackIntersection, TrackSpec, Unit, ViaLayer,
};
use layout21::convert::RawConverter;

fn metal(index: usize, name: &str, dir: Dir, layernum: i16) -> Layer {
    Layer {
        index,
        name: name.into(),
        entries: vec![
            TrackSpec::rail(490),
            TrackSpec::pat(vec![TrackEntry::gap(230), TrackEntry::sig(140)], 7),
            TrackSpec::gap(230),
            TrackSpec::rail(490),
            TrackSpec::pat(vec![TrackEntry::gap(230), TrackEntry::sig(140)], 7),
            TrackSpec::gap(230),
            TrackSpec::rail(490),
        ],
        dir,
        offset: -245,
        cutsize: 50,
        stream_layer: Some(raw::LayerSpec::new(layernum, 20)),
        raw: Some(raw::DataTypeMap {
            layernum,
            drawing: Some(20),
            text: Some(5),
            other: HashMap::new(),
        }),
    }
}

/// The stack that the library tests share.
fn stack() -> Stack {
    Stack {
        units: Unit::Nano,
        xpitch: 6600,
        ypitch: 6600,
        boundary_layer: Some(raw::DataTypeMap {
            layernum: 236,
            drawing: Some(0),
            text: None,
            other: HashMap::new(),
        }),
        layers: vec![
            metal(1, "met1", Dir::Horiz, 68),
            metal(2, "met2", Dir::Vert, 69),
            metal(3, "met3", Dir::Horiz, 70),
            metal(4, "met4", Dir::Vert, 71),
        ],
        vias: vec![
            ViaLayer {
                index: 0,
                name: "mcon".into(),
                between: (0, 1),
                size: Point::new(140, 140),
                stream_layer: Some(raw::LayerSpec::new(67, 44)),
            },
            ViaLayer {
                index: 1,
                name: "via1".into(),
                between: (1, 2),
                size: Point::new(140, 140),
                stream_layer: Some(raw::LayerSpec::new(68, 44)),
            },
            ViaLayer {
                index: 2,
                name: "via2".into(),
                between: (2, 3),
                size: Point::new(140, 140),
                stream_layer: Some(raw::LayerSpec::new(69, 44)),
            },
        ],
    }
}

/// Converts `lib` to raw layout and on to stream elements.
fn exports(lib: Library) -> Result<(), LayoutError> {
    let raw = RawConverter::convert(lib)?;
    let gds = raw.to_gds()?;
    assert_eq!(gds.name, raw_name(&gds));
    Ok(())
}

fn raw_name(gds: &layout21::gds::GdsLib) -> String {
    gds.name.clone()
}

fn clk() -> Assign {
    Assign {
        net: "clk".into(),
        at: TrackIntersection { layer: 1, track: 0, at: 1, relz: RelZ::Above },
    }
}

#[test]
fn create_cell() -> Result<(), LayoutError> {
    Cell {
        name: "HereGoes".into(),
        top_layer: 3,
        outline: Outline::rect(5, 5)?,
        instances: Vec::new(),
        assignments: vec![clk()],
        cuts: Vec::new(),
    };
    Ok(())
}

#[test]
fn create_lib() -> Result<(), LayoutError> {
    let mut lib = Library::new("HereGoesLib", stack());
    let _c = lib.cells.insert(Cell {
        name: "HereGoes".into(),
        top_layer: 3,
        outline: Outline::rect(5, 5)?,
        instances: Vec::new(),
        assignments: vec![clk()],
        cuts: Vec::new(),
    });
    exports(lib)
}

#[test]
fn create_lib2() -> Result<(), LayoutError> {
    let mut lib = Library::new("InstLib", stack());
    let c2 = lib.cells.insert(Cell {
        name: "IsInst".into(),
        top_layer: 2,
        outline: Outline::rect(1, 1)?,
        instances: vec![],
        assignments: vec![],
        cuts: Vec::new(),
    });
    let _c = lib.cells.insert(Cell {
        name: "HasInst".into(),
        top_layer: 4,
        outline: Outline::rect(5, 11)?,
        instances: vec![Instance {
            inst_name: "inst1".into(),
            cell_name: "IsInst".into(),
            cell: CellRef::Cell(c2),
            p0: Point::new(1, 2),
            reflect: false,
            angle: None,
        }],
        assignments: vec![clk()],
        cuts: Vec::new(),
    });
    exports(lib)
}

#[test]
fn create_abstract() -> Result<(), LayoutError> {
    let outline = Outline::rect(11, 11)?;
    let ports = vec![
        abstrakt::Port {
            name: "edge_bot".into(),
            kind: abstrakt::PortKind::Edge { layer: 2, track: 2, side: abstrakt::Side::Bottom },
        },
        abstrakt::Port {
            name: "edge_top".into(),
            kind: abstrakt::PortKind::Edge { layer: 2, track: 4, side: abstrakt::Side::Top },
        },
        abstrakt::Port {
            name: "edge_left".into(),
            kind: abstrakt::PortKind::Edge { layer: 1, track: 1, side: abstrakt::Side::Left },
        },
        abstrakt::Port {
            name: "edge_right".into(),
            kind: abstrakt::PortKind::Edge { layer: 1, track: 5, side: abstrakt::Side::Right },
        },
        abstrakt::Port { name: "zfull".into(), kind: abstrakt::PortKind::Zfull { track: 3 } },
    ];
    abstrakt::Abstract { name: "abstrack".into(), outline, top_layer: 3, ports };
    Ok(())
}

#[test]
fn create_lib3() -> Result<(), LayoutError> {
    let mut lib = Library::new("InstLib", stack());
    let c2 = lib.abstracts.insert(abstrakt::Abstract {
        name: "IsAbstrakt".into(),
        top_layer: 2,
        outline: Outline::rect(1, 1)?,
        ports: Vec::new(),
    });
    let place = |name: &str, x: isize, y: isize| Instance {
        inst_name: name.into(),
        cell_name: "IsAbstrakt".into(),
        cell: CellRef::Abstract(c2),
        p0: Point::new(x, y),
        reflect: false,
        angle: None,
    };
    let _c = lib.cells.insert(Cell {
        name: "HasAbstrakts".into(),
        top_layer: 3,
        outline: Outline::rect(5, 5)?,
        instances: vec![place("inst1", 0, 0), place("inst2", 2, 2), place("inst4", 4, 4)],
        assignments: vec![Assign {
            net: "clk".into(),
            at: TrackIntersection { layer: 1, track: 11, at: 11, relz: RelZ::Above },
        }],
        cuts: Vec::new(),
    });
    exports(lib)
}
