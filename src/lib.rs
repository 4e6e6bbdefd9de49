//! The data core of a table viewer: a loaded relation, a sort and a filter on it, and the
//! rows they leave, always recomputed from the relation as loaded.

pub mod cell;
pub mod error;
pub mod laws;
pub mod relation;
pub mod render;
pub mod table;
pub mod view;

pub use cell::{Cell, FilterType, Kind};
pub use error::TableError;
pub use relation::Relation;
pub use table::TableState;
pub use view::{FilterSpec, SortSpec};
