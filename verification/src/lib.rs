//! Memory primitives of a second-stage boot loader, stated over a model of
//! memory: a region is a slice of bytes together with the address of its
//! first byte, and a range is an address inside the region and a length.

pub mod entry;
pub mod laws;
pub mod mem;
pub mod model;
pub mod word;

pub use entry::rust_main;
pub use mem::{memcmp, memcpy, memmove, memset};
