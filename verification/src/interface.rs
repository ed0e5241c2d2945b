//! Cells described by their ports alone.

use vstd::prelude::*;

verus! {

/// A port of an interface.
#[derive(Debug, Clone)]
pub struct Port {
    /// Port name.
    pub name: String,
    /// Port type and content.
    pub kind: PortKind,
}

/// The kinds of interface port.
#[derive(Debug, Clone)]
pub enum PortKind {
    /// A single signal, such as `clk`.
    Scalar,
    /// A bus, such as `data[31:0]`.
    Array { width: usize },
    /// An instance of a bundle.
    Bundle { bundle_name: String },
}

/// A named group of ports.
#[derive(Debug, Clone)]
pub struct Bundle {
    pub name: String,
    pub ports: Vec<Port>,
}

} // verus!
