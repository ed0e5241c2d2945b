//! Cells, their instances and net assignments, and libraries of cells.

use vstd::prelude::*;
use crate::abstrakt::Abstract;
use crate::geom::Point;
use crate::interface::Bundle;
use crate::outline::Outline;
use crate::stack::Stack;
use crate::store::{AbstractKey, AbstractStore, CellKey, CellStore};

verus! {

/// Which neighbour of a layer is meant: the one above or the one below.
#[derive(Debug, Clone, Copy, PartialEq, Eq, Structural)]
pub enum RelZ {
    Above,
    Below,
}

/// The crossing of a track with a track of a neighbouring layer.
#[derive(Debug, Clone, Copy, PartialEq, Eq, Structural)]
pub struct TrackIntersection {
    /// Layer index.
    pub layer: usize,
    /// Track index.
    pub track: usize,
    /// Index of the crossing track.
    pub at: usize,
    /// Whether the crossing track lies above or below.
    pub relz: RelZ,
}

/// A net placed on a track crossing.
#[derive(Debug, Clone)]
pub struct Assign {
    /// Net name.
    pub net: String,
    /// Where the net is placed.
    pub at: TrackIntersection,
}

/// What an instance refers to.
#[derive(Debug, PartialEq, Eq)]
pub enum CellRef {
    /// A cell of the library.
    Cell(CellKey),
    /// An abstract of the library.
    Abstract(AbstractKey),
    /// A name that is not resolved.
    Name(String),
}

/// A placed copy of a cell.
#[derive(Debug, PartialEq, Eq)]
pub struct Instance {
    /// Instance name.
    pub inst_name: String,
    /// Name or path of the cell.
    pub cell_name: String,
    /// The cell.
    pub cell: CellRef,
    /// Bottom-left corner.
    pub p0: Point,
    /// Whether the copy is mirrored.
    pub reflect: bool,
    /// Angle of rotation in degrees, kept as the bit pattern of a 64-bit
    /// binary fraction. The library hands it on and never computes with it.
    pub angle: Option<u64>,
}

impl Clone for CellRef {
    fn clone(&self) -> (r: Self)
        ensures
            r == *self,
    {
        match self {
            CellRef::Cell(k) => CellRef::Cell(*k),
            CellRef::Abstract(k) => CellRef::Abstract(*k),
            CellRef::Name(s) => CellRef::Name(s.clone()),
        }
    }
}

impl Clone for Instance {
    fn clone(&self) -> (r: Self)
        ensures
            r == *self,
    {
        Instance {
            inst_name: self.inst_name.clone(),
            cell_name: self.cell_name.clone(),
            cell: self.cell.clone(),
            p0: self.p0,
            reflect: self.reflect,
            angle: self.angle,
        }
    }
}

impl Instance {
    /// This instance with its corner moved to `p0`.
    pub open spec fn placed_at(self, p0: Point) -> Instance {
        Instance { p0, ..self }
    }
}

/// A cell: an outline, the instances placed in it and the nets assigned to
/// its tracks.
#[derive(Debug, Clone)]
pub struct Cell {
    /// Cell name.
    pub name: String,
    /// Top layer: the cell routes on the first `top_layer` layers of the
    /// stack, and as an instance it blocks every layer whose index is at
    /// most `top_layer`.
    pub top_layer: usize,
    /// Outline, counted in unit pitches.
    pub outline: Outline,
    /// Instances.
    pub instances: Vec<Instance>,
    /// Net assignments.
    pub assignments: Vec<Assign>,
    /// Track cuts.
    pub cuts: Vec<TrackIntersection>,
}

/// A collection of cells and abstracts on one stack.
#[derive(Debug, Default)]
pub struct Library {
    /// Library name.
    pub name: String,
    /// The stack of layers.
    pub stack: Stack,
    /// Cell names.
    pub cell_names: Vec<String>,
    /// Abstracts.
    pub abstracts: AbstractStore,
    /// Cells.
    pub cells: CellStore,
    /// Libraries within this one.
    pub libs: Vec<Library>,
}

impl Library {
    /// A library without cells.
    pub fn new(name: &str, stack: Stack) -> (r: Library)
        ensures
            r.name@ == name@,
            r.stack == stack,
            r.cell_names@.len() == 0,
            r.abstracts.order().len() == 0,
            forall|k: AbstractKey| !r.abstracts.entries().dom().contains(k),
            r.cells.order().len() == 0,
            forall|k: CellKey| !r.cells.entries().dom().contains(k),
            r.libs@.len() == 0,
    {
        Library {
            name: name.to_string(),
            stack,
            cell_names: Vec::new(),
            abstracts: AbstractStore::new(),
            cells: CellStore::new(),
            libs: Vec::new(),
        }
    }
}

/// The ways in which a cell is described.
#[derive(Debug)]
pub enum CellView {
    Interface(Bundle),
    Abstract(Abstract),
    Layout(Cell),
    RawLayout(crate::raw::Cell),
}

/// Stands for what is not defined yet.
#[derive(Debug, Clone, Copy, PartialEq, Eq, Structural)]
pub struct Tbd;

} // verus!
