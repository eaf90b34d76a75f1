//! Asset bookkeeping for a frame-driven display: typed asset identifiers,
//! a path resolver, a streaming texture cache with a fallback chain, an
//! animation cursor, and per-frame render counters.

pub mod assets;
pub mod render;
