use layout21::abstrakt::Abstract;
use layout21::helper::{ErrorHelper, Unwrapper};
use layout21::store::{AbstractStore, CellStore};
use layout21::{Cell, LayoutError, Outline};

fn cell(name: &str) -> Cell {
    Cell {
        name: name.into(),
        top_layer: 1,
        outline: Outline::rect(1, 1).unwrap(),
        instances: vec![],
        assignments: vec![],
        cuts: vec![],
    }
}

fn abs(name: &str) -> Abstract {
    Abstract { name: name.into(), top_layer: 1, outline: Outline::rect(1, 1).unwrap(), ports: vec![] }
}

#[test]
fn cell_store_hands_out_keys() {
    let mut store = CellStore::new();
    assert_eq!(store.len(), 0);
    assert!(store.keys().is_empty());
    let a = store.insert(cell("a"));
    let b = store.try_insert(cell("b")).unwrap();
    assert_ne!(a, b);
    assert_eq!(store.len(), 2);
    assert_eq!(store.keys(), vec![a, b]);
    assert_eq!(store.get(a).unwrap().name, "a");
    assert_eq!(store.get(b).unwrap().name, "b");
    let mut other = CellStore::new();
    let first = other.insert(cell("c"));
    let _second = other.insert(cell("d"));
    assert_eq!(store.get(first).unwrap().name, "a");
    let mut third = CellStore::new();
    assert!(third.get(a).is_none());
    third.insert(cell("e"));
    assert!(third.get(b).is_none());
}

#[test]
fn abstract_store_hands_out_keys() {
    let mut store = AbstractStore::new();
    assert_eq!(store.len(), 0);
    assert!(store.keys().is_empty());
    let a = store.insert(abs("a"));
    let b = store.try_insert(abs("b")).unwrap();
    assert_ne!(a, b);
    assert_eq!(store.len(), 2);
    assert_eq!(store.keys(), vec![a, b]);
    assert_eq!(store.get(a).unwrap().name, "a");
    assert_eq!(store.get(b).unwrap().name, "b");
    let empty = AbstractStore::new();
    assert!(empty.get(a).is_none());
}

#[test]
fn errors_describe_themselves() {
    assert_eq!(LayoutError::msg("gone"), LayoutError::Message("gone".into()));
    assert_eq!(LayoutError::msg("gone").describe(), "gone");
    assert_eq!(LayoutError::Export.describe(), "Export");
    assert_eq!(LayoutError::Tbd.describe(), "Tbd");
}

struct Walker {
    place: String,
}

impl ErrorHelper for Walker {
    type Error = String;

    fn err(&self, msg: &str) -> String {
        format!("{}: {}", self.place, msg)
    }
}

#[test]
fn helper_turns_messages_into_errors() {
    let w = Walker { place: "cell".into() };
    assert_eq!(w.fail::<u8>("gone"), Err("cell: gone".to_string()));
    assert_eq!(w.unwrap(Some(5), "gone"), Ok(5));
    assert_eq!(w.unwrap(None::<u8>, "gone"), Err("cell: gone".to_string()));
    assert_eq!(w.check(true, "gone"), Ok(()));
    assert_eq!(w.check(false, "gone"), Err("cell: gone".to_string()));
    assert_eq!(w.ok(Ok::<u8, u8>(1), "gone"), Err("cell: gone".to_string()));
    assert_eq!(w.wrap_err::<u8, u8>(3, "gone"), Err("cell: gone".to_string()));
    assert_eq!(Some(5).or_handle(&w, "gone"), Ok(5));
    assert_eq!(None::<u8>.or_handle(&w, "gone"), Err("cell: gone".to_string()));
    assert_eq!(Ok::<u8, u8>(7).or_handle(&w, "gone"), Ok(7));
    assert_eq!(Err::<u8, u8>(7).or_handle(&w, "gone"), Err("cell: gone".to_string()));
}

#[test]
fn defaults_are_empty() {
    assert_eq!(CellStore::default().len(), 0);
    assert_eq!(AbstractStore::default().len(), 0);
    let lib = layout21::Library::default();
    assert_eq!(lib.name, "");
    assert_eq!(lib.cells.len(), 0);
    assert_eq!(lib.stack.units, layout21::Unit::Nano);
    let raw = lib.to_raw().unwrap();
    assert!(raw.cells.is_empty());
    assert_eq!(raw.units, layout21::Unit::Nano);
}
