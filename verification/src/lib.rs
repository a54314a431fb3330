//! Cross-boundary memory-ownership and data-marshalling protocol between a
//! sandboxed guest (a 32-bit linear-memory virtual machine) and the native
//! host that drives it.
//!
//! The guest and host share no allocator and no address space: every value
//! that crosses the boundary is a fixed-layout record of unsigned 32-bit
//! fields, and every allocation is released by the side that made it, via a
//! single exported deallocation entry point.

pub mod codec;
pub mod engine;
pub mod guest;
pub mod host;
pub mod laws;
pub mod mem;
pub mod raw;
