//! Building blocks of an entity component system, centred on a slot
//! allocator (the depot) that hands out stable integer handles and reuses
//! freed slots lowest index first.
pub mod link;
pub mod space;
pub mod chain;
pub mod depot;
pub mod component;
pub mod entity_bit_table;

/// The depot interface under its other name.
pub use crate::depot::Depot as ParkingLot;
