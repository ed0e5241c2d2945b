//! The stack of layers that a library is drawn on.

use vstd::prelude::*;
use crate::geom::{Dir, Point, Unit};
use crate::raw::{DataTypeMap, LayerSpec};
use crate::tracks::Layer;

verus! {

/// A via layer between two metal layers.
#[derive(Debug, Default)]
pub struct ViaLayer {
    /// Layer index.
    pub index: usize,
    /// Layer name.
    pub name: String,
    /// Indices of the metal layers below and above.
    pub between: (usize, usize),
    /// Via size.
    pub size: Point,
    /// Layer numbers for stream export.
    pub stream_layer: Option<LayerSpec>,
}

impl Clone for ViaLayer {
    fn clone(&self) -> (r: Self)
        ensures
            r == *self,
    {
        ViaLayer {
            index: self.index,
            name: self.name.clone(),
            between: self.between,
            size: self.size,
            stream_layer: self.stream_layer,
        }
    }
}

/// The layers of a technology, bottom to top, with the pitch of the unit
/// cell in both directions.
#[derive(Debug, Clone, Default)]
pub struct Stack {
    /// Unit of distance.
    pub units: Unit,
    /// Horizontal pitch of the unit cell, in `units`.
    pub xpitch: usize,
    /// Vertical pitch of the unit cell, in `units`.
    pub ypitch: usize,
    /// Layer on which outlines are drawn.
    pub boundary_layer: Option<DataTypeMap>,
    /// Metal layers.
    pub layers: Vec<Layer>,
    /// Via layers.
    pub vias: Vec<ViaLayer>,
}

impl Stack {
    /// The pitch of the unit cell along `dir`.
    pub open spec fn spec_pitch(&self, dir: Dir) -> usize {
        match dir {
            Dir::Horiz => self.xpitch,
            Dir::Vert => self.ypitch,
        }
    }

    /// The pitch of the unit cell along `dir`.
    #[verifier::when_used_as_spec(spec_pitch)]
    pub fn pitch(&self, dir: Dir) -> (r: usize)
        ensures
            r == self.spec_pitch(dir),
    {
        match dir {
            Dir::Horiz => self.xpitch,
            Dir::Vert => self.ypitch,
        }
    }
}

} // verus!
