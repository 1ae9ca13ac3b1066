//! Allocator for small executable buffers placed near a caller-chosen
//! address.
//!
//! Inline-hook trampolines are reached through relative branch instructions
//! whose signed displacement is bounded, so the buffer that holds a
//! trampoline must lie within a fixed radius of the code being redirected.
//! This crate carries the allocator's bookkeeping and placement decisions:
//! blocks carved into fixed-size slots, a registry of blocks searched within
//! the reachability window, and the outward search for free regions of the
//! address space.  The operating system's memory-mapping primitives
//! (reserve, commit, query, release) are external collaborators: callers
//! perform those calls and feed their results back in as plain values.

pub mod block;
pub mod locator;
pub mod mapping;
pub mod params;
pub mod probe;
pub mod registry;
