//! Spans: inclusive ranges of byte indices into the source text.
use vstd::prelude::*;

verus! {

/// An inclusive range `start..=end` of byte indices into the source.
#[derive(Debug, PartialEq, Eq, Clone, Copy, Default)]
pub struct Span {
    pub start: usize,
    pub end: usize,
}

/// The smallest start among the spans.
pub open spec fn min_start(spans: Seq<Span>) -> usize
    decreases spans.len(),
{
    if spans.len() <= 1 {
        spans[0].start
    } else {
        let m = min_start(spans.drop_last());
        if spans.last().start < m { spans.last().start } else { m }
    }
}

/// The index of the last span whose start is the largest.
pub open spec fn last_max_index(spans: Seq<Span>) -> int
    decreases spans.len(),
{
    if spans.len() <= 1 {
        0
    } else {
        let k = last_max_index(spans.drop_last());
        if spans.last().start >= spans[k].start { spans.len() - 1 } else { k }
    }
}

impl Span {
    pub fn new(start: usize, end: usize) -> (s: Span)
        ensures
            s.start == start,
            s.end == end,
    {
        Span { start, end }
    }

    /// The span from the earliest start to the end of the span that starts
    /// last (of those starting last, the one given last).
    pub fn combine(spans: Vec<Span>) -> (s: Span)
        requires
            spans@.len() > 0,
        ensures
            s.start == min_start(spans@),
            s.end == spans@[last_max_index(spans@)].end,
    {
        let mut start = spans[0].start;
        let mut k: usize = 0;
        let mut i: usize = 1;
        while i < spans.len()
            invariant
                1 <= i <= spans@.len(),
                k < i,
                start == min_start(spans@.subrange(0, i as int)),
                k == last_max_index(spans@.subrange(0, i as int)),
            decreases spans.len() - i,
        {
            let ghost pre = spans@.subrange(0, i as int);
            assert(spans@.subrange(0, i + 1).drop_last() =~= pre);
            assert(pre[k as int] == spans@[k as int]);
            if spans[i].start < start {
                start = spans[i].start;
            }
            if spans[i].start >= spans[k].start {
                k = i;
            }
            i = i + 1;
        }
        assert(spans@.subrange(0, spans@.len() as int) =~= spans@);
        Span::new(start, spans[k].end)
    }

    /// The span of two spans, as `combine` computes it for them.
    pub fn join(a: Span, b: Span) -> (s: Span)
        ensures
            s.start == if b.start < a.start { b.start } else { a.start },
            s.end == if b.start >= a.start { b.end } else { a.end },
    {
        let mut v: Vec<Span> = Vec::new();
        v.push(a);
        v.push(b);
        proof {
            assert(v@.drop_last() =~= seq![a]);
            assert(v@[0] == a && v@[1] == b);
            assert(min_start(v@.drop_last()) == a.start);
            assert(last_max_index(v@.drop_last()) == 0);
        }
        Span::combine(v)
    }

    /// How many bytes the span covers.
    pub fn length(&self) -> (n: usize)
        requires
            self.start <= self.end < usize::MAX,
        ensures
            n == self.end - self.start + 1,
    {
        (self.end - self.start) + 1
    }

    /// How far `b` starts after the end of `a` (zero when it does not).
    pub open spec fn spec_difference(a: Span, b: Span) -> int {
        if b.start >= a.end { b.start - a.end } else { 0 }
    }

    /// How far `b` starts after the end of `a` (zero when it does not).
    pub fn difference(a: &Span, b: &Span) -> (d: usize)
        ensures
            d == Span::spec_difference(*a, *b),
    {
        if b.start >= a.end { b.start - a.end } else { 0 }
    }
}

/// The start that `combine` takes is the smallest start of the spans, and
/// the span whose end it takes starts last, no span after it starting as
/// late.
pub proof fn law_combine_bounds(spans: Seq<Span>)
    requires
        spans.len() > 0,
    ensures
        forall|j: int| 0 <= j < spans.len() ==> min_start(spans) <= #[trigger] spans[j].start,
        exists|j: int| 0 <= j < spans.len() && spans[j].start == min_start(spans),
        0 <= last_max_index(spans) < spans.len(),
        forall|j: int| 0 <= j < spans.len() ==> #[trigger] spans[j].start <= spans[last_max_index(spans)].start,
        forall|j: int| last_max_index(spans) < j < spans.len() ==> #[trigger] spans[j].start < spans[last_max_index(spans)].start,
    decreases spans.len(),
{
    if spans.len() > 1 {
        let p = spans.drop_last();
        law_combine_bounds(p);
        assert(forall|j: int| 0 <= j < p.len() ==> p[j] == spans[j]);
        let w = choose|j: int| 0 <= j < p.len() && p[j].start == min_start(p);
        if spans.last().start < min_start(p) {
            assert(spans[spans.len() - 1].start == min_start(spans));
        } else {
            assert(spans[w].start == min_start(spans));
        }
        assert forall|j: int| 0 <= j < spans.len() implies min_start(spans) <= #[trigger] spans[j].start by {
            if j < p.len() {
                assert(p[j] == spans[j]);
            }
        }
        assert forall|j: int| 0 <= j < spans.len() implies #[trigger] spans[j].start <= spans[last_max_index(spans)].start by {
            if j < p.len() {
                assert(p[j] == spans[j]);
            }
        }
        assert forall|j: int| last_max_index(spans) < j < spans.len() implies #[trigger] spans[j].start < spans[last_max_index(spans)].start by {
            if j < p.len() {
                assert(p[j] == spans[j]);
            }
        }
    } else {
        assert(spans[0].start == min_start(spans));
    }
}

} // verus!
