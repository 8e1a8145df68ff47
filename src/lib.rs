//! Embedding core for a sandboxed guest virtual machine: import resolution
//! across modules, the per-instance store and its lock discipline, the
//! object registry, uniform array operations, bounds-checked linear-memory
//! access with typed, bulk and struct codecs, and resource limits.
pub mod codec;
pub mod config;
pub mod externref;
pub mod graph;
pub mod limits;
pub mod memory;
pub mod packed;
pub mod registry;
pub mod store;
pub mod values;
