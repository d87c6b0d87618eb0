//! What the library guarantees across calls, stated over the mathematical
//! content of the store and proved from the contracts of its operations.

pub mod delivery;
pub mod publication;
