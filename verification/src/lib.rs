//! A single-region bump arena that hands out address ranges by moving a
//! cursor downward through one reserved block.
//!
//! The crate keeps the books of such a block: where it starts and ends, where
//! the cursor stands, and which address the next request receives. Reserving
//! the block and giving it back to the system is the caller's part; the
//! arena only ever sees addresses as integers.
pub mod align;
pub mod bumpalloc;
pub mod region;
