//! A small in-memory lookup table for uniquely named items: an ordered
//! sequence addressable both by name and by position, with position swaps
//! that keep the two access paths consistent.

pub mod lookup;

pub use lookup::Lookup;
pub use lookup::LookupError;
pub use lookup::Named;
