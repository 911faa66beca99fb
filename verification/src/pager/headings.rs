//! Where section headings start, with a memo of the starts already found.
//!
//! Composing a page asks for the nearest heading start at or above a line,
//! which is a backward scan over the document. The memo keeps the starts
//! found and the range of lines already tested, so the scan touches only the
//! lines it cannot answer. A recorded answer never goes stale: lines never
//! change and the document only grows at its end. The last lines of a
//! growing document are the exception, as the lines that decide them have
//! not arrived yet; they are tested without being recorded.

use std::ops::Range;

use vstd::prelude::*;

use crate::document::Document;
use crate::line::Line;
use crate::options::HeadingOptions;
use crate::query::regex_find_all;

verus! {

/// Whether `query` finds a match in line `i`, which must exist.
pub open spec fn line_matches(lines: Seq<Line>, query: Seq<char>, i: int) -> bool {
    0 <= i < lines.len() && regex_find_all(query, lines[i].spec_plain()).len() > 0
}

/// Whether line `i` starts a heading of `num_lines` lines: it matches, and
/// none of the lines after it within the heading does. A line that has not
/// arrived does not match.
pub open spec fn is_start_spec(lines: Seq<Line>, query: Seq<char>, num_lines: usize, i: int) -> bool {
    &&& line_matches(lines, query, i)
    &&& forall|k: int| 1 <= k < num_lines ==> !line_matches(lines, query, #[trigger] (i + k))
}

/// Whether the answer for line `i` is final: the input is complete, or all
/// lines a heading starting at `i` could span have arrived.
pub open spec fn settled(lines: Seq<Line>, complete: bool, num_lines: usize, i: int) -> bool {
    let span = if num_lines > 0 {
        num_lines - 1
    } else {
        0
    };
    complete || i + span < lines.len()
}

/// The nearest heading start in `first..=at`.
pub open spec fn nearest_start(lines: Seq<Line>, query: Seq<char>, num_lines: usize, first: int, at: int) -> Option<
    int,
>
    decreases at - first,
{
    if at < first {
        None
    } else if is_start_spec(lines, query, num_lines, at) {
        Some(at)
    } else if at == first {
        None
    } else {
        nearest_start(lines, query, num_lines, first, at - 1)
    }
}

/// The first heading start from line `i` on, among the lines that arrived.
pub open spec fn next_start_from(lines: Seq<Line>, query: Seq<char>, num_lines: usize, i: int) -> Option<int>
    decreases lines.len() - i,
{
    if i < 0 || i >= lines.len() {
        None
    } else if is_start_spec(lines, query, num_lines, i) {
        Some(i)
    } else {
        next_start_from(lines, query, num_lines, i + 1)
    }
}

/// `lines2` with `complete2` is what a document of `lines1` with `complete1`
/// can grow into: the same lines and maybe more after them, none once the
/// input was complete.
pub open spec fn grows_into(lines1: Seq<Line>, complete1: bool, lines2: Seq<Line>, complete2: bool) -> bool {
    &&& lines1.len() <= lines2.len()
    &&& lines2.take(lines1.len() as int) == lines1
    &&& complete1 ==> lines2 == lines1 && complete2
}

/// Skipping lines `x..=at` that start no heading leaves the nearest start
/// the same.
pub proof fn lemma_nearest_skip(lines: Seq<Line>, query: Seq<char>, num_lines: usize, first: int, x: int, at: int)
    requires
        first <= x <= at + 1,
        forall|i: int| x <= i <= at ==> !is_start_spec(lines, query, num_lines, i),
    ensures
        nearest_start(lines, query, num_lines, first, at) == nearest_start(lines, query, num_lines, first, x - 1),
    decreases at - x,
{
    if x <= at {
        assert(!is_start_spec(lines, query, num_lines, at));
        if x < at {
            lemma_nearest_skip(lines, query, num_lines, first, x, at - 1);
        }
    }
}

/// A heading start with no other above it up to `at` is the nearest one.
pub proof fn lemma_nearest_found(lines: Seq<Line>, query: Seq<char>, num_lines: usize, first: int, s: int, at: int)
    requires
        first <= s <= at,
        is_start_spec(lines, query, num_lines, s),
        forall|i: int| s < i <= at ==> !is_start_spec(lines, query, num_lines, i),
    ensures
        nearest_start(lines, query, num_lines, first, at) == Some(s),
{
    lemma_nearest_skip(lines, query, num_lines, first, s + 1, at);
}

/// Within the lines that decide it, a settled answer is the same in a
/// document that grew.
pub proof fn lemma_settled_answer_stays(
    lines1: Seq<Line>,
    complete1: bool,
    lines2: Seq<Line>,
    complete2: bool,
    query: Seq<char>,
    num_lines: usize,
    i: int,
)
    requires
        grows_into(lines1, complete1, lines2, complete2),
        settled(lines1, complete1, num_lines, i),
        0 <= i,
    ensures
        settled(lines2, complete2, num_lines, i),
        is_start_spec(lines2, query, num_lines, i) == is_start_spec(lines1, query, num_lines, i),
{
    if !complete1 {
        assert forall|j: int| 0 <= j < lines1.len() implies lines2[j] == lines1[j] by {
            assert(lines2.take(lines1.len() as int)[j] == lines2[j]);
        }
        assert forall|k: int| 0 <= k < num_lines implies line_matches(lines2, query, #[trigger] (i + k))
            == line_matches(lines1, query, i + k) by {
            assert(i + k < lines1.len());
        }
        if is_start_spec(lines1, query, num_lines, i) {
            assert(line_matches(lines1, query, i + 0));
        }
        if is_start_spec(lines2, query, num_lines, i) {
            assert(line_matches(lines2, query, i + 0));
        }
    }
}

/// The first index of sorted `v` whose value is at least `x`.
fn lower_bound(v: &Vec<usize>, x: usize) -> (idx: usize)
    requires
        ascending(v@),
    ensures
        idx <= v@.len(),
        forall|k: int| 0 <= k < idx ==> #[trigger] v@[k] < x,
        forall|k: int| idx <= k < v@.len() ==> #[trigger] v@[k] >= x,
{
    let mut lo: usize = 0;
    let mut hi: usize = v.len();
    while lo < hi
        invariant
            lo <= hi <= v@.len(),
            ascending(v@),
            forall|k: int| 0 <= k < lo ==> #[trigger] v@[k] < x,
            forall|k: int| hi <= k < v@.len() ==> #[trigger] v@[k] >= x,
        decreases hi - lo,
    {
        let mid = lo + (hi - lo) / 2;
        if v[mid] < x {
            proof {
                assert forall|k: int| 0 <= k < mid + 1 implies #[trigger] v@[k] < x by {
                    if k < mid {
                        assert(v@[k] < v@[mid as int]);
                    }
                }
            }
            lo = mid + 1;
        } else {
            proof {
                assert forall|k: int| mid <= k < v@.len() implies #[trigger] v@[k] >= x by {
                    if k > mid {
                        assert(v@[mid as int] < v@[k]);
                    }
                }
            }
            hi = mid;
        }
    }
    lo
}

/// Whether line `line_index` of `doc` starts a heading of `options`: it
/// matches the pattern and none of the following lines of the heading does.
pub fn is_heading_start(doc: &Document, line_index: usize, options: &HeadingOptions) -> (r: bool)
    ensures
        r == is_start_spec(doc.spec_lines(), options.pattern@, options.num_lines, line_index as int),
{
    let ghost lines = doc.spec_lines();
    let ghost q = options.pattern@;
    match doc.line(line_index) {
        Some(line) => {
            if !line.has_match(&options.pattern) {
                return false;
            }
        },
        None => {
            return false;
        },
    }
    let n = options.num_lines;
    let count = doc.line_count();
    let mut i: usize = 1;
    while i < n
        invariant
            lines == doc.spec_lines(),
            q == options.pattern@,
            n == options.num_lines,
            1 <= i,
            count == lines.len(),
            line_matches(lines, q, line_index as int),
            line_index < lines.len(),
            line_index + i <= lines.len(),
            forall|k: int| 1 <= k < i ==> !line_matches(lines, q, #[trigger] (line_index + k)),
        decreases n - i,
    {
        match doc.line(line_index + i) {
            Some(line) => {
                if line.has_match(&options.pattern) {
                    return false;
                }
            },
            None => {
                proof {
                    assert forall|k: int| 1 <= k < n implies !line_matches(lines, q, #[trigger] (line_index + k)) by {
                        if k >= i {
                            assert(line_index + k >= lines.len());
                        }
                    }
                }
                return true;
            },
        }
        i = i + 1;
    }
    true
}

/// The values of `s` ascend strictly.
pub open spec fn ascending(s: Seq<usize>) -> bool {
    forall|a: int, b: int| 0 <= a < b < s.len() ==> (#[trigger] s[a]) < (#[trigger] s[b])
}

/// `lo <= i < hi`.
pub open spec fn in_range(lo: int, hi: int, i: int) -> bool {
    lo <= i < hi
}

/// The heading pattern and the memo of where heading starts are.
#[derive(Debug)]
pub struct Headings {
    options: HeadingOptions,
    /// Confirmed heading starts, ascending.
    starts: Vec<usize>,
    /// Lines already tested, as one range. `starts` holds every heading
    /// start within it, so there the memo also answers "no start here".
    tested: Range<usize>,
}

impl Headings {
    pub closed spec fn spec_query(&self) -> Seq<char> {
        self.options.pattern@
    }

    pub closed spec fn spec_num_lines(&self) -> usize {
        self.options.num_lines
    }

    pub closed spec fn spec_starts(&self) -> Seq<usize> {
        self.starts@
    }

    pub closed spec fn spec_tested(&self) -> (usize, usize) {
        (self.tested.start, self.tested.end)
    }

    /// The memo agrees with a document of `lines`, `complete` or not: the
    /// recorded starts ascend, each is a settled heading start, and every
    /// settled heading start in the tested range is recorded.
    pub open spec fn memo_ok(&self, lines: Seq<Line>, complete: bool) -> bool {
        let q = self.spec_query();
        let n = self.spec_num_lines();
        let starts = self.spec_starts();
        let (lo, hi) = self.spec_tested();
        &&& ascending(starts)
        &&& forall|x: usize|
            #[trigger] starts.contains(x) ==> settled(lines, complete, n, x as int) && is_start_spec(
                lines,
                q,
                n,
                x as int,
            )
        &&& lo <= hi
        &&& forall|i: int|
            lo <= i < hi ==> settled(lines, complete, n, i) && (is_start_spec(lines, q, n, i) ==> starts.contains(
                i as usize,
            ))
    }

    /// Headings of `options`, with nothing found yet.
    pub fn new(options: HeadingOptions) -> (r: Headings)
        ensures
            r.spec_query() == options.pattern@,
            r.spec_num_lines() == options.num_lines,
            r.spec_starts().len() == 0,
            r.spec_tested().0 == r.spec_tested().1,
            forall|lines: Seq<Line>, complete: bool| r.memo_ok(lines, complete),
    {
        Headings { options, starts: Vec::new(), tested: 0..0 }
    }

    /// How many lines a heading spans.
    pub fn num_lines(&self) -> (r: usize)
        ensures
            r == self.spec_num_lines(),
    {
        self.options.num_lines
    }

    /// Whether line `line_index` of `doc` starts a heading: it matches the
    /// pattern and none of the following lines of the heading does. The last
    /// lines of a growing document start headings only because the lines that
    /// would follow them have not arrived yet.
    pub fn is_start(&self, doc: &Document, line_index: usize) -> (r: bool)
        ensures
            r == is_start_spec(doc.spec_lines(), self.spec_query(), self.spec_num_lines(), line_index as int),
    {
        is_heading_start(doc, line_index, &self.options)
    }

    /// The greatest recorded start in `lo..hi`.
    fn recorded_start_in(&self, lo: usize, hi: usize) -> (r: Option<usize>)
        requires
            ascending(self.spec_starts()),
        ensures
            match r {
                Some(s) => {
                    &&& self.spec_starts().contains(s)
                    &&& lo <= s < hi
                    &&& forall|k: int|
                        0 <= k < self.spec_starts().len() ==> !(s < #[trigger] self.spec_starts()[k] < hi)
                },
                None => forall|k: int|
                    0 <= k < self.spec_starts().len() ==> !(lo <= #[trigger] self.spec_starts()[k] < hi),
            },
    {
        let end = lower_bound(&self.starts, hi);
        if end == 0 {
            return None;
        }
        let start = self.starts[end - 1];
        proof {
            assert forall|k: int| 0 <= k < self.spec_starts().len() implies !(start < #[trigger] self.spec_starts()[k]
                < hi) by {
                if k < end - 1 {
                    assert(self.spec_starts()[k] < self.spec_starts()[end - 1]);
                }
            }
        }
        if start >= lo {
            Some(start)
        } else {
            None
        }
    }

    /// Record `line_index` as a heading start, keeping the starts ascending;
    /// a start already recorded stays once.
    fn record_start(&mut self, line_index: usize)
        requires
            ascending(old(self).spec_starts()),
        ensures
            final(self).spec_query() == old(self).spec_query(),
            final(self).spec_num_lines() == old(self).spec_num_lines(),
            final(self).spec_tested() == old(self).spec_tested(),
            ascending(final(self).spec_starts()),
            forall|x: usize|
                final(self).spec_starts().contains(x) <==> (old(self).spec_starts().contains(x) || x == line_index),
    {
        let ghost old_starts = self.spec_starts();
        let i = lower_bound(&self.starts, line_index);
        if i < self.starts.len() && self.starts[i] == line_index {
            proof {
                assert forall|x: usize| old_starts.contains(x) || x == line_index implies old_starts.contains(x) by {
                    if x == line_index {
                        assert(old_starts[i as int] == x);
                    }
                }
            }
            return;
        }
        proof {
            assert forall|k: int| i <= k < old_starts.len() implies #[trigger] old_starts[k] > line_index by {
                assert(old_starts[i as int] >= line_index);
                assert(old_starts[i as int] != line_index);
                if k > i {
                    assert(old_starts[i as int] < old_starts[k]);
                }
            }
        }
        self.starts.insert(i, line_index);
        proof {
            let ns = self.spec_starts();
            assert(ns == old_starts.insert(i as int, line_index));
            assert forall|a: int, b: int| 0 <= a < b < ns.len() implies (#[trigger] ns[a]) < (#[trigger] ns[b]) by {
                if b < i {
                    assert(ns[a] == old_starts[a] && ns[b] == old_starts[b]);
                } else if b == i {
                    assert(ns[a] == old_starts[a]);
                } else if a < i {
                    assert(ns[a] == old_starts[a] && ns[b] == old_starts[b - 1]);
                } else if a == i {
                    assert(ns[b] == old_starts[b - 1]);
                } else {
                    assert(ns[a] == old_starts[a - 1] && ns[b] == old_starts[b - 1]);
                }
            }
            assert forall|x: usize| ns.contains(x) <==> (old_starts.contains(x) || x == line_index) by {
                if ns.contains(x) {
                    let k = choose|k: int| 0 <= k < ns.len() && ns[k] == x;
                    if k < i {
                        assert(old_starts[k] == x);
                    } else if k > i {
                        assert(old_starts[k - 1] == x);
                    }
                }
                if old_starts.contains(x) {
                    let k = choose|k: int| 0 <= k < old_starts.len() && old_starts[k] == x;
                    if k < i {
                        assert(ns[k] == x);
                    } else {
                        assert(ns[k + 1] == x);
                    }
                }
                if x == line_index {
                    assert(ns[i as int] == x);
                }
            }
        }
    }

    /// Record that every line in `lo..hi` has been tested. The tested lines
    /// stay one range: a range that does not touch the tested one replaces
    /// it, and the lines it covered are no longer answered. An empty range
    /// records nothing.
    fn mark_tested(&mut self, lo: usize, hi: usize)
        ensures
            final(self).spec_query() == old(self).spec_query(),
            final(self).spec_num_lines() == old(self).spec_num_lines(),
            final(self).spec_starts() == old(self).spec_starts(),
            old(self).spec_tested().0 <= old(self).spec_tested().1 ==> final(self).spec_tested().0
                <= final(self).spec_tested().1,
            lo >= hi ==> final(self).spec_tested() == old(self).spec_tested(),
            lo < hi ==> {
                let (n0, n1) = final(self).spec_tested();
                let (o0, o1) = old(self).spec_tested();
                &&& forall|i: int| #[trigger] in_range(n0 as int, n1 as int, i) ==> (in_range(lo as int, hi as int, i) || in_range(o0 as int, o1 as int, i))
                &&& forall|i: int| #[trigger] in_range(lo as int, hi as int, i) ==> in_range(n0 as int, n1 as int, i)
            },
    {
        if lo >= hi {
            return;
        }
        let overlaps = lo <= self.tested.end && self.tested.start <= hi;
        if self.tested.start >= self.tested.end || !overlaps {
            self.tested = lo..hi;
        } else {
            let start = if self.tested.start < lo {
                self.tested.start
            } else {
                lo
            };
            let end = if self.tested.end > hi {
                self.tested.end
            } else {
                hi
            };
            self.tested = start..end;
        }
    }

    /// The nearest heading start in `first_candidate..=at`, asking the
    /// document only about the lines the memo cannot answer. The answer is
    /// the one a scan of every line would give.
    pub fn start_at_or_above(&mut self, doc: &Document, first_candidate: usize, at: usize) -> (r: Option<usize>)
        requires
            old(self).memo_ok(doc.spec_lines(), doc.spec_complete()),
            at < usize::MAX,
        ensures
            final(self).memo_ok(doc.spec_lines(), doc.spec_complete()),
            final(self).spec_query() == old(self).spec_query(),
            final(self).spec_num_lines() == old(self).spec_num_lines(),
            ({
                let nearest = nearest_start(
                    doc.spec_lines(),
                    old(self).spec_query(),
                    old(self).spec_num_lines(),
                    first_candidate as int,
                    at as int,
                );
                match r {
                    Some(s) => nearest == Some(s as int),
                    None => nearest is None,
                }
            }),
    {
        let ghost lines = doc.spec_lines();
        let ghost complete = doc.spec_complete();
        let ghost q = self.spec_query();
        let ghost n = self.spec_num_lines();
        if at < first_candidate {
            return None;
        }
        let settled_end = if doc.is_complete() {
            usize::MAX
        } else {
            doc.line_count().saturating_sub(self.options.num_lines.saturating_sub(1))
        };
        assert(forall|i: int| 0 <= i < settled_end ==> settled(lines, complete, n, i));
        let ghost h0_starts = self.spec_starts();
        let ghost t0 = self.spec_tested();
        let mut line: usize = at;
        let mut found: Option<usize> = None;
        loop
            invariant_except_break
                found is None,
                first_candidate <= line <= at,
                nearest_start(lines, q, n, first_candidate as int, at as int) == nearest_start(
                    lines,
                    q,
                    n,
                    first_candidate as int,
                    line as int,
                ),
                forall|i: int| line < i <= at ==> !is_start_spec(lines, q, n, i),
                self.spec_starts() == h0_starts,
            invariant
                lines == doc.spec_lines(),
                complete == doc.spec_complete(),
                q == self.spec_query(),
                n == self.spec_num_lines(),
                t0 == self.spec_tested(),
                forall|i: int| 0 <= i < settled_end ==> settled(lines, complete, n, i),
                self.memo_ok(lines, complete),
                forall|x: usize| h0_starts.contains(x) ==> self.spec_starts().contains(x),
            ensures
                first_candidate <= line <= at,
                forall|i: int| line < i <= at ==> !is_start_spec(lines, q, n, i),
                match found {
                    Some(s) => nearest_start(lines, q, n, first_candidate as int, at as int) == Some(s as int),
                    None => nearest_start(lines, q, n, first_candidate as int, at as int) is None,
                },
                (t0.0 <= line < t0.1) || (line < settled_end ==> (is_start_spec(lines, q, n, line as int)
                    ==> self.spec_starts().contains(line))),
            decreases line,
        {
            if self.tested.start <= line && line < self.tested.end {
                let from = if self.tested.start > first_candidate {
                    self.tested.start
                } else {
                    first_candidate
                };
                match self.recorded_start_in(from, line + 1) {
                    Some(s) => {
                        proof {
                            assert forall|i: int| s < i <= line implies !is_start_spec(lines, q, n, i) by {
                                if is_start_spec(lines, q, n, i) {
                                    assert(self.spec_starts().contains(i as usize));
                                    let k = choose|k: int| 0 <= k < self.spec_starts().len() && self.spec_starts()[k] == i as usize;
                                    assert(!(s < self.spec_starts()[k] < line + 1));
                                }
                            }
                            assert(is_start_spec(lines, q, n, s as int));
                            lemma_nearest_found(lines, q, n, first_candidate as int, s as int, line as int);
                        }
                        found = Some(s);
                        break;
                    },
                    None => {},
                }
                proof {
                    assert forall|i: int| from <= i <= line implies !is_start_spec(lines, q, n, i) by {
                        if is_start_spec(lines, q, n, i) {
                            assert(self.spec_starts().contains(i as usize));
                            let k = choose|k: int| 0 <= k < self.spec_starts().len() && self.spec_starts()[k] == i as usize;
                            assert(!(from <= self.spec_starts()[k] < line + 1));
                        }
                    }
                    lemma_nearest_skip(lines, q, n, first_candidate as int, from as int, line as int);
                }
                if self.tested.start <= first_candidate {
                    break;
                }
                line = self.tested.start - 1;
                continue;
            }
            if self.is_start(doc, line) {
                if line < settled_end {
                    self.record_start(line);
                }
                proof {
                    lemma_nearest_found(lines, q, n, first_candidate as int, line as int, line as int);
                }
                found = Some(line);
                break;
            }
            if line == first_candidate {
                break;
            }
            line = line - 1;
        }
        let hi = if at + 1 < settled_end {
            at + 1
        } else {
            settled_end
        };
        self.mark_tested(line, hi);
        proof {
            let (n0, n1) = self.spec_tested();
            assert forall|i: int| n0 <= i < n1 implies settled(lines, complete, n, i) && (is_start_spec(
                lines,
                q,
                n,
                i,
            ) ==> self.spec_starts().contains(i as usize)) by {
                assert(in_range(n0 as int, n1 as int, i));
                if line <= i < hi {
                    if i > line {
                        assert(!is_start_spec(lines, q, n, i));
                    }
                }
            }
        }
        found
    }

    /// The nearest heading start below `at`, never above `first_candidate`.
    pub fn start_below(&self, doc: &Document, first_candidate: usize, at: usize) -> (r: Option<usize>)
        requires
            at < usize::MAX,
        ensures
            ({
                let from = if at + 1 > first_candidate {
                    at + 1
                } else {
                    first_candidate as int
                };
                let next = next_start_from(doc.spec_lines(), self.spec_query(), self.spec_num_lines(), from);
                match r {
                    Some(s) => next == Some(s as int),
                    None => next is None,
                }
            }),
    {
        let ghost lines = doc.spec_lines();
        let mut line = if at + 1 > first_candidate {
            at + 1
        } else {
            first_candidate
        };
        let count = doc.line_count();
        while line < count
            invariant
                lines == doc.spec_lines(),
                count == lines.len(),
                next_start_from(lines, self.spec_query(), self.spec_num_lines(), line as int) == next_start_from(
                    lines,
                    self.spec_query(),
                    self.spec_num_lines(),
                    if at + 1 > first_candidate {
                        at + 1
                    } else {
                        first_candidate as int
                    },
                ),
            decreases count - line,
        {
            if self.is_start(doc, line) {
                return Some(line);
            }
            line = line + 1;
        }
        None
    }
}

/// The memo stays right as the document grows: every answer it holds was
/// settled, and settled answers do not change when lines arrive.
pub proof fn law_memo_survives_growth(h: Headings, lines1: Seq<Line>, complete1: bool, lines2: Seq<Line>, complete2: bool)
    requires
        h.memo_ok(lines1, complete1),
        grows_into(lines1, complete1, lines2, complete2),
    ensures
        h.memo_ok(lines2, complete2),
{
    let q = h.spec_query();
    let n = h.spec_num_lines();
    let starts = h.spec_starts();
    let (lo, hi) = h.spec_tested();
    assert forall|x: usize| #[trigger] starts.contains(x) implies settled(lines2, complete2, n, x as int)
        && is_start_spec(lines2, q, n, x as int) by {
        lemma_settled_answer_stays(lines1, complete1, lines2, complete2, q, n, x as int);
    }
    assert forall|i: int| lo <= i < hi implies settled(lines2, complete2, n, i) && (is_start_spec(lines2, q, n, i)
        ==> starts.contains(i as usize)) by {
        lemma_settled_answer_stays(lines1, complete1, lines2, complete2, q, n, i);
    }
}

} // verus!
