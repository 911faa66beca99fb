//! Byte offsets of the lines of a text, so any line's byte range can be
//! found without keeping the text.

use vstd::prelude::*;

verus! {

/// Offsets just past each newline of `b`, in order.
pub open spec fn newline_ends(b: Seq<u8>) -> Seq<u64>
    decreases b.len(),
{
    if b.len() == 0 {
        Seq::empty()
    } else {
        newline_ends(b.drop_last()) + if b.last() == 10u8 {
            seq![b.len() as u64]
        } else {
            Seq::empty()
        }
    }
}

/// Each offset past a newline lies within the text and past its start.
pub proof fn lemma_newline_ends_bounds(b: Seq<u8>)
    requires
        b.len() <= u64::MAX,
    ensures
        forall|k: int| 0 <= k < newline_ends(b).len() ==> 1 <= #[trigger] newline_ends(b)[k] <= b.len(),
    decreases b.len(),
{
    if b.len() > 0 {
        let p = b.drop_last();
        lemma_newline_ends_bounds(p);
        let a = newline_ends(p);
        let t: Seq<u64> = if b.last() == 10u8 {
            seq![b.len() as u64]
        } else {
            Seq::empty()
        };
        assert(newline_ends(b) == a + t);
        assert forall|k: int| 0 <= k < (a + t).len() implies 1 <= #[trigger] (a + t)[k] <= b.len() by {
            if k < a.len() {
                assert((a + t)[k] == a[k]);
            } else {
                assert((a + t)[k] == t[k - a.len()]);
            }
        }
    }
}


/// Each offset past a newline follows a newline; they increase; and every
/// newline has its offset among them.
pub proof fn lemma_newline_ends_exact(b: Seq<u8>)
    requires
        b.len() <= u64::MAX,
    ensures
        forall|k: int|
            0 <= k < newline_ends(b).len() ==> 1 <= #[trigger] newline_ends(b)[k] <= b.len() && b[newline_ends(b)[k]
                - 1] == 10u8,
        forall|k1: int, k2: int|
            0 <= k1 < k2 < newline_ends(b).len() ==> (#[trigger] newline_ends(b)[k1]) < (#[trigger] newline_ends(
                b,
            )[k2]),
        forall|p: int|
            0 <= p < b.len() && #[trigger] b[p] == 10u8 ==> exists|k: int|
                0 <= k < newline_ends(b).len() && newline_ends(b)[k] == p + 1,
    decreases b.len(),
{
    if b.len() > 0 {
        let pre = b.drop_last();
        lemma_newline_ends_exact(pre);
        let a = newline_ends(pre);
        let t: Seq<u64> = if b.last() == 10u8 {
            seq![b.len() as u64]
        } else {
            Seq::empty()
        };
        let e = newline_ends(b);
        assert(e == a + t);
        assert forall|k: int| 0 <= k < e.len() implies 1 <= #[trigger] e[k] <= b.len() && b[e[k] - 1] == 10u8 by {
            if k < a.len() {
                assert(e[k] == a[k]);
                assert(b[a[k] - 1] == pre[a[k] - 1]);
            } else {
                assert(e[k] == t[k - a.len()]);
            }
        }
        assert forall|k1: int, k2: int| 0 <= k1 < k2 < e.len() implies (#[trigger] e[k1]) < (#[trigger] e[k2]) by {
            assert(e[k1] == a[k1]);
            if k2 < a.len() {
                assert(e[k2] == a[k2]);
            } else {
                assert(e[k2] == t[k2 - a.len()]);
            }
        }
        assert forall|p: int| 0 <= p < b.len() && #[trigger] b[p] == 10u8 implies exists|k: int|
            0 <= k < e.len() && e[k] == p + 1 by {
            if p < b.len() - 1 {
                assert(pre[p] == b[p]);
                let k = choose|k: int| 0 <= k < a.len() && a[k] == p + 1;
                assert(e[k] == a[k]);
            } else {
                assert(e[a.len() as int] == t[0]);
            }
        }
    }
}

/// Start and end of line `i` as the index gives them.
pub open spec fn line_range(offsets: Seq<u64>, i: int) -> (int, int) {
    (
        offsets[i] as int,
        if i + 1 < offsets.len() - 1 {
            offsets[i + 1] - 1
        } else {
            offsets[i + 1] as int
        },
    )
}

/// The byte range of each line holds no newline and leaves out the newline
/// that ends it: every line but the last ends right before a newline, and
/// the next one starts right after it.
pub proof fn law_line_ranges_exclude_newlines(b: Seq<u8>, i: int)
    requires
        b.len() <= u64::MAX,
        0 <= i < offsets_spec(b).len() - 1,
    ensures
        ({
            let offs = offsets_spec(b);
            let (s, e) = line_range(offs, i);
            &&& 0 <= s <= e <= b.len()
            &&& forall|p: int| s <= p < e ==> #[trigger] b[p] != 10u8
            &&& i + 1 < offs.len() - 1 ==> b[e] == 10u8 && offs[i + 1] == e + 1
        }),
{
    lemma_newline_ends_exact(b);
    let ends = newline_ends(b);
    let offs = offsets_spec(b);
    assert(b.len() > 0);
    let trailing = b.last() == 10u8;
    let inner = if trailing {
        ends.drop_last()
    } else {
        ends
    };
    if trailing {
        assert(ends.len() > 0) by {
            assert(b[b.len() - 1] == 10u8);
            let k = choose|k: int| 0 <= k < ends.len() && ends[k] == b.len();
        }
        assert(ends.last() == b.len()) by {
            let k = choose|k: int| 0 <= k < ends.len() && ends[k] == b.len();
            if k < ends.len() - 1 {
                assert(ends[k] < ends[ends.len() - 1]);
            }
        }
    }
    assert(offs == seq![0u64] + inner + seq![(if trailing { b.len() - 1 } else { b.len() as int }) as u64]);
    let count = offs.len() - 1;
    assert(count == inner.len() + 1);
    let s = if i == 0 {
        0
    } else {
        inner[i - 1] as int
    };
    assert(offs[i] == s);
    let (s2, e) = line_range(offs, i);
    assert(s2 == s);
    if i + 1 < count {
        assert(offs[i + 1] == inner[i]);
        assert(inner[i] == ends[i]);
        assert(e == ends[i] - 1);
        if i > 0 {
            assert(inner[i - 1] == ends[i - 1]);
            assert(ends[i - 1] < ends[i]);
        }
        assert forall|p: int| s <= p < e implies #[trigger] b[p] != 10u8 by {
            if b[p] == 10u8 {
                let k = choose|k: int| 0 <= k < ends.len() && ends[k] == p + 1;
                if k < i {
                    if i > 0 {
                        if k < i - 1 {
                            assert(ends[k] < ends[i - 1]);
                        }
                    }
                } else if k > i {
                    assert(ends[i] < ends[k]);
                }
            }
        }
    } else {
        assert(i == inner.len());
        if i > 0 {
            assert(inner[i - 1] == ends[i - 1]);
        }
        assert forall|p: int| s <= p < e implies #[trigger] b[p] != 10u8 by {
            if b[p] == 10u8 {
                let k = choose|k: int| 0 <= k < ends.len() && ends[k] == p + 1;
                if trailing {
                    assert(ends[k] < b.len());
                    if k == ends.len() - 1 {
                    } else if k < i - 1 {
                        assert(ends[k] < ends[i - 1]);
                    }
                } else {
                    if k < i - 1 {
                        assert(ends[k] < ends[i - 1]);
                    }
                }
            }
        }
    }
}

/// Where each line of `b` starts, followed by where the last one ends. As
/// with `str::lines`, a final newline ends the last line rather than opening
/// an empty one, and empty content has no line.
pub open spec fn offsets_spec(b: Seq<u8>) -> Seq<u64> {
    let ends = newline_ends(b);
    if b.len() == 0 {
        seq![0u64]
    } else if b.last() == 10u8 {
        seq![0u64] + ends.drop_last() + seq![(b.len() - 1) as u64]
    } else {
        seq![0u64] + ends + seq![b.len() as u64]
    }
}

/// How many newlines `b` holds.
pub open spec fn newline_count(b: Seq<u8>) -> nat
    decreases b.len(),
{
    if b.len() == 0 {
        0
    } else {
        newline_count(b.drop_last()) + if b.last() == 10u8 {
            1nat
        } else {
            0nat
        }
    }
}

/// How many lines `str::lines` yields for `b`: one per newline, and one more
/// for text after the last newline; empty content has none.
pub open spec fn lines_count(b: Seq<u8>) -> int {
    if b.len() == 0 || b.last() == 10u8 {
        newline_count(b) as int
    } else {
        newline_count(b) + 1int
    }
}

/// There is one offset past a newline for each newline.
proof fn lemma_newline_ends_len(b: Seq<u8>)
    ensures
        newline_ends(b).len() == newline_count(b),
    decreases b.len(),
{
    if b.len() > 0 {
        lemma_newline_ends_len(b.drop_last());
    }
}

/// The index counts the lines as `str::lines` does: a final newline adds no
/// empty line, and empty content has no line.
pub proof fn law_line_count_matches_lines(b: Seq<u8>)
    requires
        b.len() <= u64::MAX,
    ensures
        offsets_spec(b).len() - 1 == lines_count(b),
{
    lemma_newline_ends_len(b);
}

/// Line start offsets of a text, with the end of the last line as a sentinel.
pub struct LineIndex {
    /// `offsets[i]` is where line `i` starts; the last entry is where the last line ends.
    offsets: Vec<u64>,
}

impl LineIndex {
    /// There is always the sentinel, and no line but the first starts at zero.
    #[verifier::type_invariant]
    closed spec fn offsets_ok(&self) -> bool {
        &&& self.offsets@.len() >= 1
        &&& forall|k: int| 0 < k < self.offsets@.len() - 1 ==> #[trigger] self.offsets@[k] >= 1
    }

    pub closed spec fn spec_offsets(&self) -> Seq<u64> {
        self.offsets@
    }

    /// The line count of the index.
    pub open spec fn spec_line_count(&self) -> int {
        self.spec_offsets().len() - 1
    }

    /// Index the lines of `bytes`.
    pub fn from_bytes(bytes: &[u8]) -> (r: LineIndex)
        requires
            bytes@.len() <= u64::MAX,
        ensures
            r.spec_offsets() == offsets_spec(bytes@),
    {
        let mut offsets: Vec<u64> = Vec::new();
        offsets.push(0);
        let mut pos: u64 = 0;
        let mut i: usize = 0;
        while i < bytes.len()
            invariant
                i <= bytes@.len() <= u64::MAX,
                pos == i,
                offsets@ == seq![0u64] + newline_ends(bytes@.take(i as int)),
            decreases bytes@.len() - i,
        {
            pos = pos + 1;
            proof {
                assert(bytes@.take(i + 1).drop_last() =~= bytes@.take(i as int));
                assert(bytes@.take(i + 1).last() == bytes@[i as int]);
            }
            if bytes[i] == 10u8 {
                offsets.push(pos);
            }
            i += 1;
            proof {
                assert(offsets@ =~= seq![0u64] + newline_ends(bytes@.take(i as int)));
            }
        }
        proof {
            assert(bytes@.take(i as int) =~= bytes@);
            lemma_newline_ends_bounds(bytes@);
        }
        if pos == 0 {
            proof {
                assert(offsets@ =~= offsets_spec(bytes@));
            }
            return LineIndex { offsets };
        }
        let has_trailing_newline = bytes[bytes.len() - 1] == 10u8;
        if has_trailing_newline {
            offsets.pop();
        }
        let sentinel = if has_trailing_newline {
            pos - 1
        } else {
            pos
        };
        offsets.push(sentinel);
        proof {
            let ends = newline_ends(bytes@);
            if has_trailing_newline {
                assert(ends == newline_ends(bytes@.drop_last()) + seq![bytes@.len() as u64]);
                assert((seq![0u64] + ends).drop_last() =~= seq![0u64] + ends.drop_last());
            }
            assert(offsets@ =~= offsets_spec(bytes@));
        }
        LineIndex { offsets }
    }

    /// Total number of lines.
    pub fn line_count(&self) -> (r: usize)
        ensures
            r == self.spec_line_count(),
    {
        proof {
            use_type_invariant(self);
        }
        self.offsets.len() - 1
    }

    /// Byte range `(start, end)` of line `index`, without its newline;
    /// `None` past the last line.
    pub fn line_byte_range(&self, index: usize) -> (r: Option<(u64, u64)>)
        ensures
            index >= self.spec_line_count() ==> r is None,
            index < self.spec_line_count() ==> r == Some(
                (
                    self.spec_offsets()[index as int],
                    if index + 1 < self.spec_line_count() {
                        (self.spec_offsets()[index + 1] - 1) as u64
                    } else {
                        self.spec_offsets()[index + 1]
                    },
                ),
            ),
    {
        proof {
            use_type_invariant(self);
        }
        let line_count = self.line_count();
        if index >= line_count {
            return None;
        }
        let start = self.offsets[index];
        let end = self.offsets[index + 1];
        let end = if index < line_count - 1 {
            end - 1
        } else {
            end
        };
        Some((start, end))
    }
}

} // verus!
