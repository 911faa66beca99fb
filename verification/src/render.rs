//! Highlighting for the earlier two-style renderer.

pub mod highlight;
