//! A fixed-size, byte-addressable store whose slots carry a presence flag,
//! optionally chained to a single backing store of the same size. A read
//! that misses locally is resolved from the backing chain and fills the
//! local slot, so the next read at that address is a local hit; writes
//! overwrite locally and never propagate down the chain.

pub mod model;
pub mod store;
pub mod laws;

pub use store::MemError;
pub use store::Memory;
pub use store::MemoryField;
