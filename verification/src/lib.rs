//! A small verified entity-component storage core.
//!
//! The crate offers three pieces: an allocator that issues entity
//! identities from a monotonic counter, a generic container that stores one
//! component per entity in dense, index-aligned storage with an auxiliary
//! index map, and a type-erased capability trait through which an owner can
//! clear, measure and prune containers of unlike payload types.

pub mod container;
pub mod entity;
pub mod interface;
