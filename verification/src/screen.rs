//! Screen geometry and the terminal scrolls the renderer issues.

use vstd::prelude::*;

verus! {

/// Size of the terminal in cells.
#[derive(Debug, Clone, Copy, PartialEq, Eq, Structural)]
pub struct ScreenSize {
    pub width: usize,
    pub height: usize,
}

impl ScreenSize {
    pub fn new(width: u16, height: u16) -> (r: ScreenSize)
        ensures
            r.width == width,
            r.height == height,
    {
        ScreenSize { width: width as usize, height: height as usize }
    }

    pub fn width(&self) -> (r: usize)
        ensures
            r == self.width,
    {
        self.width
    }

    pub fn height(&self) -> (r: usize)
        ensures
            r == self.height,
    {
        self.height
    }
}

/// Direction of a terminal scroll.
#[derive(Debug, Clone, Copy, PartialEq, Eq, Structural)]
pub enum Direction {
    Down,
    Up,
}

/// A count that is never zero.
#[derive(Debug, Clone, Copy, PartialEq, Eq, Structural)]
pub struct NonZeroCount {
    value: usize,
}

impl NonZeroCount {
    #[verifier::type_invariant]
    closed spec fn positive(&self) -> bool {
        self.value > 0
    }

    pub closed spec fn spec_get(&self) -> usize {
        self.value
    }

    /// The count `n`, if it is not zero.
    pub fn new(n: usize) -> (r: Option<NonZeroCount>)
        ensures
            n == 0 <==> r is None,
            r matches Some(c) ==> c.spec_get() == n,
    {
        if n == 0 {
            None
        } else {
            Some(NonZeroCount { value: n })
        }
    }

    pub fn get(&self) -> (r: usize)
        ensures
            r == self.spec_get(),
            r > 0,
    {
        proof {
            use_type_invariant(self);
        }
        self.value
    }
}

/// Scroll the terminal content by some rows in some direction.
#[derive(Debug, Clone, Copy)]
pub struct Scroll {
    pub direction: Direction,
    pub num_rows: NonZeroCount,
}

impl Scroll {
    /// A scroll of `num_rows` rows, or `None` when that is zero.
    pub fn new(direction: Direction, num_rows: usize) -> (r: Option<Scroll>)
        ensures
            num_rows == 0 <==> r is None,
            r matches Some(s) ==> s.direction == direction && s.num_rows.spec_get() == num_rows,
    {
        match NonZeroCount::new(num_rows) {
            Some(n) => Some(Scroll { direction, num_rows: n }),
            None => None,
        }
    }
}

} // verus!
