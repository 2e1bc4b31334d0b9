//! The traits of this crate, for a single `use`.

pub use crate::region::Region;
pub use crate::row::{MapRows, MapRowsMut};
pub use crate::{MapMut, MapRegions, TileMap};
