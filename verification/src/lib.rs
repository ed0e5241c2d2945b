//! Track-based integrated-circuit layout: a stack of metal layers with
//! periodic track patterns, cells placed on it by outline, instance and net
//! assignment, and the conversion of such cells into flat rectangles and
//! polygons.
//!
//! Every function here is verified against its contract. Values are modelled
//! by views: strings as sequences of characters, vectors as sequences. What
//! is taken on trust of the slot map that keeps the cells of a library is
//! stated in [`store`].

pub mod abstrakt;
pub mod cell;
pub mod cells;
pub mod convert;
pub mod error;
pub mod gds;
pub mod geom;
pub mod helper;
pub mod interface;
pub mod laws;
pub mod outline;
pub mod periods;
pub mod raw;
pub mod rows;
pub mod segments;
pub mod stack;
pub mod store;
pub mod tracks;

pub use cell::{Assign, Cell, CellRef, CellView, Instance, Library, RelZ, Tbd, TrackIntersection};
pub use convert::RawConverter;
pub use error::{LayoutError, LayoutResult};
pub use geom::{Dir, Point, Unit};
pub use outline::Outline;
pub use segments::{Track, TrackPeriod, TrackSegment};
pub use stack::{Stack, ViaLayer};
pub use store::{AbstractKey, AbstractStore, CellKey, CellStore};
pub use tracks::{Layer, Pattern, TrackEntry, TrackSpec, TrackType};
