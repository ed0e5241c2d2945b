//! Abstract layouts: a block's outline and ports, without its insides.
//!
//! Layers below the top layer of an abstract are fully blocked: a parent cell
//! cannot route through them.

use vstd::prelude::*;
use crate::cell::RelZ;
use crate::outline::Outline;

verus! {

/// A cell known only by its outline, its top layer and its ports.
#[derive(Debug, Clone)]
pub struct Abstract {
    /// Cell name.
    pub name: String,
    /// Outline, counted in unit pitches.
    pub outline: Outline,
    /// Top layer: as an instance the abstract blocks every layer whose
    /// index is at most `top_layer`.
    pub top_layer: usize,
    /// Ports.
    pub ports: Vec<Port>,
}

/// A port of an abstract layout.
#[derive(Debug, Clone)]
pub struct Port {
    /// Port or signal name.
    pub name: String,
    /// Where the port is.
    pub kind: PortKind,
}

/// Where a port of an abstract layout is.
#[derive(Debug, Clone)]
pub enum PortKind {
    /// On an edge of the outline.
    Edge { layer: usize, track: usize, side: Side },
    /// Inside the outline, reached from above, at one or more places of a
    /// track that are connected inside the cell.
    Zlocs { locs: Vec<TopLoc> },
    /// A whole track of the top layer, from edge to edge.
    Zfull { track: usize },
}

/// A track crossing on the top layer.
#[derive(Debug, Clone)]
pub struct TopLoc {
    /// Track index.
    pub track: usize,
    /// Index of the crossing track.
    pub at: usize,
    /// Whether the crossing track lies above or below.
    pub relz: RelZ,
}

/// A side of an outline.
#[derive(Debug, Clone, Copy, PartialEq, Eq, Structural)]
pub enum Side {
    Left,
    Right,
    Top,
    Bottom,
}

} // verus!
