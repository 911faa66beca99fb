//! Pager behavior options, as the command line sets them.

use vstd::prelude::*;

use crate::query::Query;

verus! {

/// Pager behavior options.
#[derive(Debug, Default)]
pub struct Options {
    /// Number of lines to pin as a fixed header (0 means no header).
    pub header: usize,
    /// Sticky heading configuration, if enabled.
    pub heading: Option<HeadingOptions>,
    /// Quit automatically if the entire content fits on one screen.
    pub quit_if_one_screen: bool,
}

/// Configuration for sticky per-section headings.
#[derive(Debug)]
pub struct HeadingOptions {
    /// Pattern matching section heading lines.
    pub pattern: Query,
    /// Number of lines per heading block.
    pub num_lines: usize,
}

} // verus!
