//! Hexagonal-grid indexing and scenario validation.
//!
//! The crate maps axial coordinates of a hexagonal map onto a dense storage
//! index and back, stores tiles in that order, and checks that the tile
//! connections of a scenario agree with the geometry of its tiles.

pub mod arithmetic;
pub mod coordinates;
pub mod hexagonal_map;
pub mod layout;
pub mod lookup;
pub mod radius;
pub mod save_file;
pub mod scenario;
