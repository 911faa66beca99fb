//! Core of a terminal pager: ANSI-aware lines, wrapping, the page layout and the
//! frame diffing used to redraw the terminal with as little output as possible.

pub mod text;
pub mod ansi;
pub mod query;
pub mod width;
pub mod line;
pub mod document;
pub mod pager;
pub mod options;
pub mod line_editor;
pub mod search;
pub mod screen;
pub mod renderer;
pub mod render;
pub mod screen_state;
pub mod page;
pub mod header;
pub mod reader;
pub mod line_index;
pub mod scroll;
pub mod app;
pub mod cli;
pub mod minilib;
pub mod lines;

use vstd::prelude::*;

verus! {

/// An error to report to the user before exiting.
#[derive(Debug)]
pub struct AppError {
    pub message: String,
    pub exit_code: i32,
}

impl AppError {
    /// An error with `message`, exiting with status 1.
    pub fn new(message: String) -> (r: AppError)
        ensures
            r.message@ == message@,
            r.exit_code == 1,
    {
        AppError { message, exit_code: 1 }
    }
}

} // verus!
