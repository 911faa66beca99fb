//! Small containers of general use.

pub mod lru_cache;
