//! Searching the document for a query, forward or backward from a line, a
//! row or a match.

use vstd::prelude::*;

use crate::document::Document;
use crate::line::{leading, lemma_leading_props, positions, Line, MatchPosition, Row, SearchLineFrom};
use crate::query::{matches_well_formed, regex_find_all, Query};

verus! {

/// Direction in which a search moves through the document.
#[derive(Debug, Clone, Copy, PartialEq, Eq, Structural)]
pub enum SearchDirection {
    Forward,
    Backward,
}

impl SearchDirection {
    /// The other direction.
    pub fn opposite(self) -> (r: SearchDirection)
        ensures
            r != self,
    {
        match self {
            SearchDirection::Forward => SearchDirection::Backward,
            SearchDirection::Backward => SearchDirection::Forward,
        }
    }

    /// The prompt character of this direction.
    pub open spec fn prompt_spec(&self) -> char {
        if *self == SearchDirection::Forward {
            '/'
        } else {
            '?'
        }
    }

    /// The key that opens a search prompt in this direction, shown as the
    /// prompt itself: `/` forward and `?` backward.
    pub fn prompt(&self) -> (r: char)
        ensures
            r == self.prompt_spec(),
    {
        match self {
            SearchDirection::Forward => '/',
            SearchDirection::Backward => '?',
        }
    }
}


/// A search in progress: the query, its direction and the match last shown.
pub struct SearchState {
    pub query: Query,
    pub direction: SearchDirection,
    pub current: Option<MatchPosition>,
}

/// Where a search over the document starts.
#[derive(Debug, Clone, Copy)]
pub enum SearchFrom {
    /// From the start of the line forward, or from its end backward; the
    /// line itself included.
    Line(usize),
    /// Past the given match, which is excluded.
    NextOf(MatchPosition),
    /// From the given row on (backward: as from its line).
    Row(Row),
}

/// All matches of the lines `l..`, in reading order.
pub open spec fn hits_after(lines: Seq<Line>, pattern: Seq<char>, l: int) -> Seq<MatchPosition>
    decreases lines.len() - l,
{
    if 0 <= l < lines.len() {
        lines[l].spec_matches_from(pattern, SearchLineFrom::Start) + hits_after(lines, pattern, l + 1)
    } else {
        Seq::empty()
    }
}

/// All matches of the lines `..l`, in reading order.
pub open spec fn hits_before(lines: Seq<Line>, pattern: Seq<char>, l: int) -> Seq<MatchPosition>
    decreases l,
{
    if l <= 0 {
        Seq::empty()
    } else {
        hits_before(lines, pattern, l - 1) + if l - 1 < lines.len() {
            lines[l - 1].spec_matches_from(pattern, SearchLineFrom::Start)
        } else {
            Seq::empty()
        }
    }
}

/// The matches a forward search meets, in order: those of line `l` from
/// `from`, then all those of the following lines.
pub open spec fn forward_hits(lines: Seq<Line>, pattern: Seq<char>, l: int, from: SearchLineFrom) -> Seq<
    MatchPosition,
> {
    if 0 <= l < lines.len() {
        lines[l].spec_matches_from(pattern, from) + hits_after(lines, pattern, l + 1)
    } else {
        Seq::empty()
    }
}

/// The matches a backward search meets, in reading order (it meets them
/// from the last): all those of the lines before `l`, then those of line
/// `l` up to `from`.
pub open spec fn backward_hits(lines: Seq<Line>, pattern: Seq<char>, l: int, from: SearchLineFrom) -> Seq<
    MatchPosition,
> {
    hits_before(lines, pattern, l) + if 0 <= l < lines.len() {
        lines[l].spec_matches_from(pattern, from)
    } else {
        Seq::empty()
    }
}

/// The match a search finds: the first match met.
pub open spec fn search_spec(lines: Seq<Line>, pattern: Seq<char>, from: SearchFrom, direction: SearchDirection) -> Option<
    MatchPosition,
> {
    match direction {
        SearchDirection::Forward => {
            let hits = match from {
                SearchFrom::Line(i) => forward_hits(lines, pattern, i as int, SearchLineFrom::Start),
                SearchFrom::NextOf(m) => forward_hits(lines, pattern, m.line_index as int, SearchLineFrom::NextOf(&m)),
                SearchFrom::Row(r) => forward_hits(lines, pattern, r.line_index as int, SearchLineFrom::Row(&r)),
            };
            if hits.len() == 0 {
                None
            } else {
                Some(hits[0])
            }
        },
        SearchDirection::Backward => {
            let hits = match from {
                SearchFrom::Line(i) => backward_hits(lines, pattern, i as int, SearchLineFrom::Start),
                SearchFrom::NextOf(m) => backward_hits(lines, pattern, m.line_index as int, SearchLineFrom::PrevOf(&m)),
                SearchFrom::Row(r) => backward_hits(lines, pattern, r.line_index as int, SearchLineFrom::Start),
            };
            if hits.len() == 0 {
                None
            } else {
                Some(hits.last())
            }
        },
    }
}

/// Lines past the end add no match before them.
pub proof fn lemma_hits_before_past_end(lines: Seq<Line>, pattern: Seq<char>, l: int)
    requires
        l >= lines.len(),
    ensures
        hits_before(lines, pattern, l) == hits_before(lines, pattern, lines.len() as int),
    decreases l,
{
    if l > lines.len() {
        lemma_hits_before_past_end(lines, pattern, l - 1);
        assert(hits_before(lines, pattern, l) =~= hits_before(lines, pattern, l - 1));
    }
}

/// The matches of lines `..k` end with the last match of the last line
/// before `k` that has one, `j`; no line between `j` and `k` has a match.
/// Without any, no line before `k` has a match.
proof fn lemma_hits_before_last(lines: Seq<Line>, pattern: Seq<char>, k: int) -> (j: int)
    requires
        0 <= k <= lines.len(),
    ensures
        hits_before(lines, pattern, k).len() == 0 ==> forall|i: int|
            0 <= i < k ==> #[trigger] lines[i].spec_matches_from(pattern, SearchLineFrom::Start).len() == 0,
        hits_before(lines, pattern, k).len() > 0 ==> {
            &&& 0 <= j < k
            &&& lines[j].spec_matches_from(pattern, SearchLineFrom::Start).len() > 0
            &&& hits_before(lines, pattern, k).last() == lines[j].spec_matches_from(
                pattern,
                SearchLineFrom::Start,
            ).last()
            &&& forall|i: int|
                j < i < k ==> #[trigger] lines[i].spec_matches_from(pattern, SearchLineFrom::Start).len() == 0
        },
    decreases k,
{
    if k == 0 {
        0
    } else {
        let here = lines[k - 1].spec_matches_from(pattern, SearchLineFrom::Start);
        let before = hits_before(lines, pattern, k - 1);
        assert(hits_before(lines, pattern, k) == before + here);
        if here.len() > 0 {
            assert((before + here).last() == here.last());
            k - 1
        } else {
            assert(before + here =~= before);
            lemma_hits_before_last(lines, pattern, k - 1)
        }
    }
}

/// The matches of lines `k..` start with the first match of the first line
/// from `k` on that has one, `j`; no line between `k` and `j` has a match.
/// Without any, no line from `k` on has a match.
proof fn lemma_hits_after_first(lines: Seq<Line>, pattern: Seq<char>, k: int) -> (j: int)
    requires
        0 <= k,
    ensures
        hits_after(lines, pattern, k).len() == 0 ==> forall|i: int|
            k <= i < lines.len() ==> #[trigger] lines[i].spec_matches_from(pattern, SearchLineFrom::Start).len()
                == 0,
        hits_after(lines, pattern, k).len() > 0 ==> {
            &&& k <= j < lines.len()
            &&& lines[j].spec_matches_from(pattern, SearchLineFrom::Start).len() > 0
            &&& hits_after(lines, pattern, k)[0] == lines[j].spec_matches_from(pattern, SearchLineFrom::Start)[0]
            &&& forall|i: int|
                k <= i < j ==> #[trigger] lines[i].spec_matches_from(pattern, SearchLineFrom::Start).len() == 0
        },
    decreases lines.len() - k,
{
    if k >= lines.len() {
        k
    } else {
        let here = lines[k].spec_matches_from(pattern, SearchLineFrom::Start);
        let after = hits_after(lines, pattern, k + 1);
        assert(hits_after(lines, pattern, k) == here + after);
        if here.len() > 0 {
            assert((here + after)[0] == here[0]);
            k
        } else {
            assert(here + after =~= after);
            lemma_hits_after_first(lines, pattern, k + 1)
        }
    }
}

/// A backward search from line `l` finds the match nearest before the end
/// of that line: the last match of the last line up to `l` that has one, no
/// line between that one and `l` having a match; it finds nothing only when
/// no line up to `l` has a match.
pub proof fn law_backward_search_finds_the_nearest_match(lines: Seq<Line>, pattern: Seq<char>, l: usize)
    requires
        forall|i: int| 0 <= i < lines.len() ==> (#[trigger] lines[i]).spec_index() == i,
    ensures
        match search_spec(lines, pattern, SearchFrom::Line(l), SearchDirection::Backward) {
            None => forall|i: int|
                0 <= i <= l && i < lines.len() ==> #[trigger] lines[i].spec_matches_from(
                    pattern,
                    SearchLineFrom::Start,
                ).len() == 0,
            Some(m) => {
                let j = m.line_index as int;
                &&& j <= l && j < lines.len()
                &&& lines[j].spec_matches_from(pattern, SearchLineFrom::Start).len() > 0
                &&& m == lines[j].spec_matches_from(pattern, SearchLineFrom::Start).last()
                &&& forall|i: int|
                    j < i <= l && i < lines.len() ==> #[trigger] lines[i].spec_matches_from(
                        pattern,
                        SearchLineFrom::Start,
                    ).len() == 0
            },
        },
{
    let k: int = if l < lines.len() {
        l as int
    } else {
        lines.len() as int
    };
    if l >= lines.len() {
        lemma_hits_before_past_end(lines, pattern, l as int);
    }
    let j = lemma_hits_before_last(lines, pattern, k);
    let before = hits_before(lines, pattern, k);
    let hits = backward_hits(lines, pattern, l as int, SearchLineFrom::Start);
    if l < lines.len() {
        let here = lines[l as int].spec_matches_from(pattern, SearchLineFrom::Start);
        assert(hits == before + here);
        if here.len() > 0 {
            assert(hits.last() == here.last());
            assert(here.last().line_index == lines[l as int].spec_index());
        } else {
            assert(hits =~= before);
            if before.len() > 0 {
                let mj = lines[j].spec_matches_from(pattern, SearchLineFrom::Start);
                assert(mj.last().line_index == lines[j].spec_index());
            }
        }
    } else {
        assert(hits =~= before);
        if before.len() > 0 {
            let mj = lines[j].spec_matches_from(pattern, SearchLineFrom::Start);
            assert(mj.last().line_index == lines[j].spec_index());
        }
    }
}

/// A forward search from line `l` finds the match nearest after the start
/// of that line: the first match of the first line from `l` on that has one,
/// no line between `l` and that one having a match; it finds nothing only
/// when no line from `l` on has a match.
pub proof fn law_forward_search_finds_the_nearest_match(lines: Seq<Line>, pattern: Seq<char>, l: usize)
    requires
        forall|i: int| 0 <= i < lines.len() ==> (#[trigger] lines[i]).spec_index() == i,
    ensures
        match search_spec(lines, pattern, SearchFrom::Line(l), SearchDirection::Forward) {
            None => forall|i: int|
                l <= i < lines.len() ==> #[trigger] lines[i].spec_matches_from(pattern, SearchLineFrom::Start).len()
                    == 0,
            Some(m) => {
                let j = m.line_index as int;
                &&& l <= j < lines.len()
                &&& lines[j].spec_matches_from(pattern, SearchLineFrom::Start).len() > 0
                &&& m == lines[j].spec_matches_from(pattern, SearchLineFrom::Start)[0]
                &&& forall|i: int|
                    l <= i < j ==> #[trigger] lines[i].spec_matches_from(pattern, SearchLineFrom::Start).len()
                        == 0
            },
        },
{
    let j = lemma_hits_after_first(lines, pattern, l as int);
    let hits = forward_hits(lines, pattern, l as int, SearchLineFrom::Start);
    if l < lines.len() {
        assert(hits == hits_after(lines, pattern, l as int));
    } else {
        assert(hits =~= Seq::<MatchPosition>::empty());
    }
    if hits.len() > 0 {
        let mj = lines[j].spec_matches_from(pattern, SearchLineFrom::Start);
        assert(mj[0].line_index == lines[j].spec_index());
    }
}

/// Well formed matches come in order: each ends no later than any later one
/// starts.
proof fn lemma_matches_in_order(text: Seq<char>, ms: Seq<(usize, usize)>, i: int, j: int)
    requires
        matches_well_formed(text, ms),
        0 <= i < j < ms.len(),
    ensures
        ms[i].1 <= ms[j].0,
    decreases j - i,
{
    if i + 1 < j {
        lemma_matches_in_order(text, ms, i + 1, j);
        assert(ms[i + 1].0 <= ms[i + 1].1);
    }
}

/// Stepping backward from match `m0` finds the match nearest before it: on
/// its line, the latest match that ends where `m0` starts or before; with
/// none there, the last match of the last earlier line that has one, no line
/// between having a match. It finds nothing only when none of these exist.
#[verifier::rlimit(40)]
pub proof fn law_backward_step_finds_the_nearest_match(lines: Seq<Line>, pattern: Seq<char>, m0: MatchPosition)
    requires
        forall|i: int| 0 <= i < lines.len() ==> (#[trigger] lines[i]).spec_index() == i,
        forall|i: int|
            0 <= i < lines.len() ==> matches_well_formed(
                lines[i].spec_plain(),
                regex_find_all(pattern, #[trigger] lines[i].spec_plain()),
            ),
    ensures
        ({
            let l = m0.line_index as int;
            let before_on_line = l < lines.len() ==> forall|k: int|
                0 <= k < lines[l].spec_matches_from(pattern, SearchLineFrom::Start).len() ==> (
                #[trigger] lines[l].spec_matches_from(pattern, SearchLineFrom::Start)[k]).plain_end
                    > m0.plain_start;
            match search_spec(lines, pattern, SearchFrom::NextOf(m0), SearchDirection::Backward) {
                None => before_on_line && forall|i: int|
                    0 <= i < l && i < lines.len() ==> #[trigger] lines[i].spec_matches_from(
                        pattern,
                        SearchLineFrom::Start,
                    ).len() == 0,
                Some(r) => if r.line_index == l {
                    &&& l < lines.len()
                    &&& lines[l].spec_matches_from(pattern, SearchLineFrom::Start).contains(r)
                    &&& r.plain_end <= m0.plain_start
                    &&& forall|k: int|
                        0 <= k < lines[l].spec_matches_from(pattern, SearchLineFrom::Start).len() && (
                        #[trigger] lines[l].spec_matches_from(pattern, SearchLineFrom::Start)[k]).plain_end
                            <= m0.plain_start ==> lines[l].spec_matches_from(
                            pattern,
                            SearchLineFrom::Start,
                        )[k].plain_end <= r.plain_end
                } else {
                    let j = r.line_index as int;
                    &&& j < l && j < lines.len()
                    &&& before_on_line
                    &&& lines[j].spec_matches_from(pattern, SearchLineFrom::Start).len() > 0
                    &&& r == lines[j].spec_matches_from(pattern, SearchLineFrom::Start).last()
                    &&& forall|i: int|
                        j < i < l && i < lines.len() ==> #[trigger] lines[i].spec_matches_from(
                            pattern,
                            SearchLineFrom::Start,
                        ).len() == 0
                },
            }
        }),
{
    let l = m0.line_index as int;
    let b = m0.plain_start;
    let k0: int = if l < lines.len() {
        l
    } else {
        lines.len() as int
    };
    if l >= lines.len() {
        lemma_hits_before_past_end(lines, pattern, l);
    }
    let j = lemma_hits_before_last(lines, pattern, k0);
    let before = hits_before(lines, pattern, k0);
    let hits = backward_hits(lines, pattern, l, SearchLineFrom::PrevOf(&m0));
    assert(search_spec(lines, pattern, SearchFrom::NextOf(m0), SearchDirection::Backward) == if hits.len() == 0 {
        None
    } else {
        Some(hits.last())
    });
    if before.len() > 0 {
        assert(lines[j].spec_matches_from(pattern, SearchLineFrom::Start).last().line_index == lines[j].spec_index());
    }
    if l < lines.len() {
        let line = lines[l];
        let here = line.spec_matches_from(pattern, SearchLineFrom::PrevOf(&m0));
        lemma_matches_before_on_line(line, pattern, m0);
        assert(hits == before + here);
        if here.len() > 0 {
            assert(hits.last() == here.last());
        } else {
            assert(hits =~= before);
        }
    } else {
        assert(hits =~= before);
    }
}

/// On one line, the matches a backward step from `m0` meets are those that
/// end where `m0` starts or before; the last of them is the latest such match
/// of the line, and without any, every match of the line ends after that.
proof fn lemma_matches_before_on_line(line: Line, pattern: Seq<char>, m0: MatchPosition)
    requires
        matches_well_formed(line.spec_plain(), regex_find_all(pattern, line.spec_plain())),
    ensures
        ({
            let all = line.spec_matches_from(pattern, SearchLineFrom::Start);
            let here = line.spec_matches_from(pattern, SearchLineFrom::PrevOf(&m0));
            &&& here.len() > 0 ==> {
                &&& all.contains(here.last())
                &&& here.last().line_index == line.spec_index()
                &&& here.last().plain_end <= m0.plain_start
                &&& forall|k: int|
                    0 <= k < all.len() && (#[trigger] all[k]).plain_end <= m0.plain_start ==> all[k].plain_end
                        <= here.last().plain_end
            }
            &&& here.len() == 0 ==> forall|k: int| 0 <= k < all.len() ==> (#[trigger] all[k]).plain_end > m0.plain_start
        }),
{
    let b = m0.plain_start;
    let ms = regex_find_all(pattern, line.spec_plain());
    let p = |m: (usize, usize)| m.1 <= b;
    let lead = leading(ms, p) as int;
    lemma_leading_props(ms, p);
    let all = line.spec_matches_from(pattern, SearchLineFrom::Start);
    let here = line.spec_matches_from(pattern, SearchLineFrom::PrevOf(&m0));
    assert(here == positions(line.spec_index(), ms.take(lead)));
    assert(all == positions(line.spec_index(), ms));
    assert forall|k: int| lead <= k < ms.len() implies ms[k].1 > b by {
        if k > lead {
            lemma_matches_in_order(line.spec_plain(), ms, lead, k);
            assert(ms[lead].0 <= ms[lead].1);
            assert(ms[k].0 <= ms[k].1);
        }
    }
    if lead > 0 {
        let r = here.last();
        assert(r == all[lead - 1]);
        assert(all.contains(r));
        assert forall|k: int| 0 <= k < all.len() && (#[trigger] all[k]).plain_end <= b implies all[k].plain_end
            <= r.plain_end by {
            if k < lead - 1 {
                lemma_matches_in_order(line.spec_plain(), ms, k, lead - 1);
                assert(ms[lead - 1].0 <= ms[lead - 1].1);
            } else if k >= lead {
                assert(ms[k].1 > b);
            }
        }
    } else {
        assert forall|k: int| 0 <= k < all.len() implies (#[trigger] all[k]).plain_end > b by {
            assert(ms[k].1 > b);
        }
    }
}

/// Stepping forward from match `m0` finds the match nearest after it: on
/// its line, the earliest match that starts where `m0` ends or later; with
/// none there, the first match of the first later line that has one, no line
/// between having a match. It finds nothing only when none of these exist.
pub proof fn law_forward_step_finds_the_nearest_match(lines: Seq<Line>, pattern: Seq<char>, m0: MatchPosition)
    requires
        forall|i: int| 0 <= i < lines.len() ==> (#[trigger] lines[i]).spec_index() == i,
        forall|i: int|
            0 <= i < lines.len() ==> matches_well_formed(
                lines[i].spec_plain(),
                regex_find_all(pattern, #[trigger] lines[i].spec_plain()),
            ),
    ensures
        ({
            let l = m0.line_index as int;
            let after_on_line = l < lines.len() ==> forall|k: int|
                0 <= k < lines[l].spec_matches_from(pattern, SearchLineFrom::Start).len() ==> (
                #[trigger] lines[l].spec_matches_from(pattern, SearchLineFrom::Start)[k]).plain_start
                    < m0.plain_end;
            match search_spec(lines, pattern, SearchFrom::NextOf(m0), SearchDirection::Forward) {
                None => after_on_line && forall|i: int|
                    l < i < lines.len() ==> #[trigger] lines[i].spec_matches_from(
                        pattern,
                        SearchLineFrom::Start,
                    ).len() == 0,
                Some(r) => if r.line_index == l {
                    &&& l < lines.len()
                    &&& lines[l].spec_matches_from(pattern, SearchLineFrom::Start).contains(r)
                    &&& r.plain_start >= m0.plain_end
                    &&& forall|k: int|
                        0 <= k < lines[l].spec_matches_from(pattern, SearchLineFrom::Start).len() && (
                        #[trigger] lines[l].spec_matches_from(pattern, SearchLineFrom::Start)[k]).plain_start
                            >= m0.plain_end ==> lines[l].spec_matches_from(
                            pattern,
                            SearchLineFrom::Start,
                        )[k].plain_start >= r.plain_start
                } else {
                    let j = r.line_index as int;
                    &&& l < j < lines.len()
                    &&& after_on_line
                    &&& lines[j].spec_matches_from(pattern, SearchLineFrom::Start).len() > 0
                    &&& r == lines[j].spec_matches_from(pattern, SearchLineFrom::Start)[0]
                    &&& forall|i: int|
                        l < i < j ==> #[trigger] lines[i].spec_matches_from(pattern, SearchLineFrom::Start).len()
                            == 0
                },
            }
        }),
{
    let l = m0.line_index as int;
    let b = m0.plain_end;
    let hits = forward_hits(lines, pattern, l, SearchLineFrom::NextOf(&m0));
    if l < lines.len() {
        let j = lemma_hits_after_first(lines, pattern, l + 1);
        let after = hits_after(lines, pattern, l + 1);
        if after.len() > 0 {
            assert(lines[j].spec_matches_from(pattern, SearchLineFrom::Start)[0].line_index == lines[j].spec_index());
        }
        let line = lines[l];
        let ms = regex_find_all(pattern, line.spec_plain());
        let p = |m: (usize, usize)| m.0 < b;
        let lead = leading(ms, p) as int;
        lemma_leading_props(ms, p);
        let all = line.spec_matches_from(pattern, SearchLineFrom::Start);
        let here = line.spec_matches_from(pattern, SearchLineFrom::NextOf(&m0));
        assert(here == positions(line.spec_index(), ms.skip(lead)));
        assert(all == positions(line.spec_index(), ms));
        assert(matches_well_formed(line.spec_plain(), ms));
        assert forall|k: int| lead <= k < ms.len() implies ms[k].0 >= ms[lead].0 && ms[k].0 >= b by {
            if k > lead {
                lemma_matches_in_order(line.spec_plain(), ms, lead, k);
                assert(ms[lead].0 <= ms[lead].1);
            }
        }
        assert(hits == here + after);
        if lead < ms.len() {
            assert(hits[0] == here[0]);
            let r = here[0];
            assert(r == all[lead]);
            assert(all.contains(r));
            assert forall|k: int| 0 <= k < all.len() && (#[trigger] all[k]).plain_start >= b implies all[k].plain_start
                >= r.plain_start by {
                if k < lead {
                    assert(ms[k].0 < b);
                }
            }
        } else {
            assert(here.len() == 0);
            assert(hits =~= after);
            assert forall|k: int| 0 <= k < all.len() implies (#[trigger] all[k]).plain_start < b by {
                assert(ms[k].0 < b);
            }
        }
    } else {
        assert(hits =~= Seq::<MatchPosition>::empty());
    }
}

/// The first match met searching forward from line `l`, starting in it as `from` says.
fn search_forward(doc: &Document, query: &Query, l: usize, from: SearchLineFrom) -> (r: Option<MatchPosition>)
    requires
        doc.wf(),
    ensures
        ({
            let hits = forward_hits(doc.spec_lines(), query@, l as int, from);
            if hits.len() == 0 {
                r is None
            } else {
                r == Some(hits[0])
            }
        }),
{
    let ghost lines = doc.spec_lines();
    let n = doc.line_count();
    if l >= n {
        return None;
    }
    let line = doc.line(l).unwrap();
    match line.find_first_match_from(query, from) {
        Some(m) => {
            return Some(m);
        },
        None => {},
    }
    let mut k = l + 1;
    proof {
        assert(forward_hits(lines, query@, l as int, from) =~= hits_after(lines, query@, k as int));
    }
    while k < n
        invariant
            doc.wf(),
            lines == doc.spec_lines(),
            n == lines.len(),
            l < k <= n,
            forward_hits(lines, query@, l as int, from) == hits_after(lines, query@, k as int),
        decreases n - k,
    {
        let line = doc.line(k).unwrap();
        match line.find_first_match_from(query, SearchLineFrom::Start) {
            Some(m) => {
                return Some(m);
            },
            None => {},
        }
        proof {
            assert(hits_after(lines, query@, k as int) =~= hits_after(lines, query@, k + 1));
        }
        k += 1;
    }
    None
}

/// The last match met searching backward from line `l`, ending in it as `from` says.
fn search_backward(doc: &Document, query: &Query, l: usize, from: SearchLineFrom) -> (r: Option<MatchPosition>)
    requires
        doc.wf(),
    ensures
        ({
            let hits = backward_hits(doc.spec_lines(), query@, l as int, from);
            if hits.len() == 0 {
                r is None
            } else {
                r == Some(hits.last())
            }
        }),
{
    let ghost lines = doc.spec_lines();
    let n = doc.line_count();
    let mut k: usize;
    if l < n {
        let line = doc.line(l).unwrap();
        match line.find_last_match_from(query, from) {
            Some(m) => {
                return Some(m);
            },
            None => {},
        }
        k = l;
        proof {
            assert(backward_hits(lines, query@, l as int, from) =~= hits_before(lines, query@, k as int));
        }
    } else {
        k = n;
        proof {
            lemma_hits_before_past_end(lines, query@, l as int);
            assert(backward_hits(lines, query@, l as int, from) =~= hits_before(lines, query@, k as int));
        }
    }
    while k > 0
        invariant
            doc.wf(),
            lines == doc.spec_lines(),
            n == lines.len(),
            k <= n,
            backward_hits(lines, query@, l as int, from) == hits_before(lines, query@, k as int),
        decreases k,
    {
        let line = doc.line(k - 1).unwrap();
        match line.find_last_match_from(query, SearchLineFrom::Start) {
            Some(m) => {
                return Some(m);
            },
            None => {},
        }
        proof {
            assert(hits_before(lines, query@, k as int) =~= hits_before(lines, query@, k - 1));
        }
        k -= 1;
    }
    None
}

/// The first match of `query` met searching the document from `from` in `direction`.
pub fn search_document(doc: &Document, query: &Query, from: SearchFrom, direction: SearchDirection) -> (r:
    Option<MatchPosition>)
    requires
        doc.wf(),
    ensures
        r == search_spec(doc.spec_lines(), query@, from, direction),
{
    match direction {
        SearchDirection::Forward => match from {
            SearchFrom::Line(i) => search_forward(doc, query, i, SearchLineFrom::Start),
            SearchFrom::NextOf(m) => search_forward(doc, query, m.line_index, SearchLineFrom::NextOf(&m)),
            SearchFrom::Row(r) => search_forward(doc, query, r.line_index, SearchLineFrom::Row(&r)),
        },
        SearchDirection::Backward => match from {
            SearchFrom::Line(i) => search_backward(doc, query, i, SearchLineFrom::Start),
            SearchFrom::NextOf(m) => search_backward(doc, query, m.line_index, SearchLineFrom::PrevOf(&m)),
            SearchFrom::Row(r) => search_backward(doc, query, r.line_index, SearchLineFrom::Start),
        },
    }
}

} // verus!
