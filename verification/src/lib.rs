//! A fixed-capacity, typed slab allocator.
//!
//! Storage is handed out cell by cell from a pool of fixed-width chunks.
//! Each [`Chunk`] owns 64 cells of one element type and tracks which of them
//! are in use through a single 64-bit free mask.  A [`SlabAllocator`]
//! composes a fixed number of chunks and serves allocations from the first
//! chunk that still has room.  A successful allocation yields a [`Box`]: an
//! owning handle naming one cell, read and written through the pool, whose
//! release (consuming the handle) is the only way a cell returns to the free
//! state.

use vstd::prelude::*;

pub mod bits;
pub mod chunk;
pub mod slab;

pub use chunk::alloc_mask;
pub use chunk::free_mask;
pub use chunk::Chunk;
pub use slab::Box;
pub use slab::SlabAllocator;
