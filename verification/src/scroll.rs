//! How page-sized scrolls reach their destination.

use vstd::prelude::*;

use crate::text::chars_of;

verus! {

/// How a page-sized scroll reaches its destination.
#[derive(Debug, Clone, Copy, PartialEq, Eq, Structural)]
pub enum ScrollMode {
    /// Ease over several frames.
    Smooth,
    /// Land at once.
    Instant,
}

/// The characters of the message for an unknown scroll mode.
pub open spec fn scroll_mode_error() -> Seq<char> {
    "expected 'smooth' or 'instant'"@
}

fn chars_equal(a: &Vec<char>, b: &Vec<char>) -> (r: bool)
    ensures
        r == (a@ == b@),
{
    if a.len() != b.len() {
        return false;
    }
    let mut i: usize = 0;
    while i < a.len()
        invariant
            a@.len() == b@.len(),
            i <= a@.len(),
            forall|k: int| 0 <= k < i ==> a@[k] == b@[k],
        decreases a@.len() - i,
    {
        if a[i] != b[i] {
            return false;
        }
        i += 1;
    }
    proof {
        assert(a@ =~= b@);
    }
    true
}

impl ScrollMode {
    /// The mode named `s`: `smooth` or `instant`; any other name is refused.
    pub fn from_name(s: &str) -> (r: Result<ScrollMode, String>)
        ensures
            s@ == "smooth"@ ==> r == Ok::<ScrollMode, String>(ScrollMode::Smooth),
            s@ == "instant"@ ==> r == Ok::<ScrollMode, String>(ScrollMode::Instant),
            s@ != "smooth"@ && s@ != "instant"@ ==> (r matches Err(e) && e@ == scroll_mode_error()),
    {
        proof {
            reveal_strlit("smooth");
            reveal_strlit("instant");
            assert("smooth"@.len() != "instant"@.len());
        }
        let chars = chars_of(s);
        let smooth = chars_of("smooth");
        let instant = chars_of("instant");
        if chars_equal(&chars, &smooth) {
            Ok(ScrollMode::Smooth)
        } else if chars_equal(&chars, &instant) {
            Ok(ScrollMode::Instant)
        } else {
            Err(String::from_str("expected 'smooth' or 'instant'"))
        }
    }
}

impl std::str::FromStr for ScrollMode {
    type Err = String;

    fn from_str(s: &str) -> (r: Result<ScrollMode, String>)
        ensures
            s@ == "smooth"@ ==> r == Ok::<ScrollMode, String>(ScrollMode::Smooth),
            s@ == "instant"@ ==> r == Ok::<ScrollMode, String>(ScrollMode::Instant),
            s@ != "smooth"@ && s@ != "instant"@ ==> (r matches Err(e) && e@ == scroll_mode_error()),
    {
        ScrollMode::from_name(s)
    }
}

} // verus!
