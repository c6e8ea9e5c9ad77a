//! The source text of a program, with line lookups for diagnostics.
//!
//! Positions are byte offsets into the UTF-8 text, as the lexer produces
//! them. Lines are those that `str::lines` yields: the text is cut at each
//! `\n`, a `\r` just before a `\n` is dropped, and a final line ending does
//! not start another line.
use vstd::prelude::*;

verus! {

/// The views of a sequence of byte vectors.
pub open spec fn views(v: Seq<Vec<u8>>) -> Seq<Seq<u8>> {
    v.map_values(|x: Vec<u8>| x@)
}

/// The pieces of `s` between occurrences of `sep`.
pub open spec fn split_bytes(s: Seq<u8>, sep: u8) -> Seq<Seq<u8>>
    decreases s.len(),
{
    if s.len() == 0 {
        seq![Seq::<u8>::empty()]
    } else {
        let r = split_bytes(s.drop_last(), sep);
        if s.last() == sep {
            r.push(Seq::<u8>::empty())
        } else {
            r.update(r.len() - 1, r.last().push(s.last()))
        }
    }
}

/// A piece without the carriage return that ends it, if one does.
pub open spec fn strip_cr(p: Seq<u8>) -> Seq<u8> {
    if p.len() > 0 && p.last() == 13 {
        p.drop_last()
    } else {
        p
    }
}

/// The lines of a text, as `str::lines` yields them.
pub open spec fn text_lines(t: Seq<u8>) -> Seq<Seq<u8>> {
    let ps = split_bytes(t, 10);
    let ended = ps.drop_last().map_values(|p: Seq<u8>| strip_cr(p));
    if ps.last().len() > 0 {
        ended.push(ps.last())
    } else {
        ended
    }
}

/// The number of occurrences of the byte `b` in `s`.
pub open spec fn count_byte(s: Seq<u8>, b: u8) -> nat
    decreases s.len(),
{
    if s.len() == 0 {
        0
    } else {
        count_byte(s.drop_last(), b) + if s.last() == b { 1nat } else { 0nat }
    }
}

/// The index of the line that holds the byte at `index`: the number of line
/// feeds before it.
pub open spec fn spec_line_index(t: Seq<u8>, index: int) -> int {
    count_byte(t.take(index), 10) as int
}

/// The sum of the lengths of the first `k` lines, one more for each.
pub open spec fn spec_line_start(ls: Seq<Seq<u8>>, k: int) -> int
    decreases k,
{
    if k <= 0 {
        0
    } else {
        spec_line_start(ls, k - 1) + ls[k - 1].len() + 1
    }
}

pub proof fn lemma_split_bytes_nonempty(s: Seq<u8>, sep: u8)
    ensures
        split_bytes(s, sep).len() >= 1,
        split_bytes(s, sep).len() == 1 ==> split_bytes(s, sep)[0] == s,
    decreases s.len(),
{
    if s.len() > 0 {
        lemma_split_bytes_nonempty(s.drop_last(), sep);
        if split_bytes(s, sep).len() == 1 {
            assert(s.drop_last().push(s.last()) =~= s);
        }
    }
}

proof fn lemma_views_push(v: Seq<Vec<u8>>, x: Vec<u8>)
    ensures
        views(v.push(x)) == views(v).push(x@),
{
    assert(views(v.push(x)) =~= views(v).push(x@));
}

/// The bytes of `v` from `from` up to `to`.
pub fn copy_bytes(v: &Vec<u8>, from: usize, to: usize) -> (r: Vec<u8>)
    requires
        from <= to <= v@.len(),
    ensures
        r@ == v@.subrange(from as int, to as int),
{
    let mut r: Vec<u8> = Vec::new();
    let mut i: usize = from;
    while i < to
        invariant
            from <= i <= to <= v@.len(),
            r@ == v@.subrange(from as int, i as int),
        decreases to - i,
    {
        r.push(v[i]);
        i = i + 1;
        assert(r@ =~= v@.subrange(from as int, i as int));
    }
    r
}

/// The pieces of the first `end` bytes of `t` between occurrences of `sep`.
fn split_prefix(t: &Vec<u8>, end: usize, sep: u8) -> (r: Vec<Vec<u8>>)
    requires
        end <= t@.len(),
    ensures
        views(r@) == split_bytes(t@.take(end as int), sep),
{
    let mut out: Vec<Vec<u8>> = Vec::new();
    let mut cur: Vec<u8> = Vec::new();
    let mut i: usize = 0;
    proof {
        assert(t@.take(0) =~= Seq::<u8>::empty());
        assert(views(out@).push(cur@) =~= seq![Seq::<u8>::empty()]);
    }
    while i < end
        invariant
            i <= end <= t@.len(),
            views(out@).push(cur@) == split_bytes(t@.take(i as int), sep),
        decreases end - i,
    {
        let b = t[i];
        let ghost before = t@.take(i as int);
        proof {
            assert(t@.take(i + 1).drop_last() =~= before);
            lemma_split_bytes_nonempty(before, sep);
        }
        if b == sep {
            proof {
                lemma_views_push(out@, cur);
            }
            out.push(cur);
            cur = Vec::new();
            proof {
                assert(views(out@).push(cur@) =~= split_bytes(before, sep).push(Seq::<u8>::empty()));
            }
        } else {
            cur.push(b);
            proof {
                let r = split_bytes(before, sep);
                assert(views(out@).push(cur@) =~= r.update(r.len() - 1, r.last().push(b)));
            }
        }
        i = i + 1;
    }
    proof {
        lemma_views_push(out@, cur);
    }
    out.push(cur);
    out
}

/// A piece without the carriage return that ends it, if one does.
fn strip_cr_exec(p: &Vec<u8>) -> (r: Vec<u8>)
    ensures
        r@ == strip_cr(p@),
{
    if p.len() > 0 && p[p.len() - 1] == 13 {
        let r = copy_bytes(p, 0, p.len() - 1);
        assert(r@ =~= p@.drop_last());
        r
    } else {
        let r = copy_bytes(p, 0, p.len());
        assert(r@ =~= p@);
        r
    }
}

#[derive(Debug)]
pub struct Source {
    pub text: Vec<u8>,
}

impl Source {
    /// The source of a program text.
    pub fn new(text: String) -> (s: Source)
        ensures
            s.text@ == vstd::utf8::encode_utf8(text@),
    {
        Source { text: vstd::slice::slice_to_vec(text.as_str().as_bytes()) }
    }

    pub fn from_bytes(text: Vec<u8>) -> (s: Source)
        ensures
            s.text@ == text@,
    {
        Source { text }
    }

    /// The lines of the first `end` bytes of the text.
    pub fn lines_before(&self, end: usize) -> (ls: Vec<Vec<u8>>)
        requires
            end <= self.text@.len(),
        ensures
            views(ls@) == text_lines(self.text@.take(end as int)),
    {
        let pieces = split_prefix(&self.text, end, 10);
        let ghost ps = views(pieces@);
        proof {
            lemma_split_bytes_nonempty(self.text@.take(end as int), 10);
        }
        let n = pieces.len();
        let mut out: Vec<Vec<u8>> = Vec::new();
        let mut i: usize = 0;
        proof {
            assert(views(out@) =~= ps.drop_last().take(0).map_values(|p: Seq<u8>| strip_cr(p)));
        }
        while i + 1 < n
            invariant
                n == pieces@.len(),
                n >= 1,
                ps == views(pieces@),
                i + 1 <= n,
                views(out@) == ps.drop_last().take(i as int).map_values(|p: Seq<u8>| strip_cr(p)),
            decreases n - i,
        {
            let l = strip_cr_exec(&pieces[i]);
            proof {
                lemma_views_push(out@, l);
            }
            out.push(l);
            i = i + 1;
            proof {
                assert(views(out@) =~= ps.drop_last().take(i as int).map_values(|p: Seq<u8>| strip_cr(p)));
            }
        }
        proof {
            assert(ps.drop_last().take(i as int) =~= ps.drop_last());
        }
        let last = &pieces[n - 1];
        if last.len() > 0 {
            let l = copy_bytes(last, 0, last.len());
            proof {
                assert(l@ =~= ps.last());
                lemma_views_push(out@, l);
            }
            out.push(l);
        }
        out
    }

    /// The index of the line that holds the byte at `index`.
    pub fn line_index(&self, index: usize) -> (r: usize)
        requires
            index <= self.text@.len(),
        ensures
            r == spec_line_index(self.text@, index as int),
    {
        let mut count: usize = 0;
        let mut i: usize = 0;
        proof {
            assert(self.text@.take(0) =~= Seq::<u8>::empty());
        }
        while i < index
            invariant
                i <= index <= self.text@.len(),
                count <= i,
                count == count_byte(self.text@.take(i as int), 10),
            decreases index - i,
        {
            proof {
                assert(self.text@.take(i + 1).drop_last() =~= self.text@.take(i as int));
            }
            if self.text[i] == 10 {
                count = count + 1;
            }
            i = i + 1;
        }
        count
    }

    /// The line at `index`.
    pub fn line(&self, index: usize) -> (r: Vec<u8>)
        requires
            index < text_lines(self.text@).len(),
        ensures
            r@ == text_lines(self.text@)[index as int],
    {
        let ls = self.lines_before(self.text.len());
        proof {
            assert(self.text@.take(self.text@.len() as int) =~= self.text@);
            assert(views(ls@)[index as int] == ls@[index as int]@);
        }
        let l = &ls[index];
        copy_bytes(l, 0, l.len())
    }

    /// The byte offset at which line `index` starts, counting one byte for each
    /// line ending; past the last line, the sum over all lines.
    pub fn line_start(&self, index: usize) -> (r: usize)
        requires
            spec_line_start(text_lines(self.text@),
                if index <= text_lines(self.text@).len() { index as int } else { text_lines(self.text@).len() as int }) <= usize::MAX,
        ensures
            r == spec_line_start(text_lines(self.text@),
                if index <= text_lines(self.text@).len() { index as int } else { text_lines(self.text@).len() as int }),
    {
        let ls = self.lines_before(self.text.len());
        let ghost lv = text_lines(self.text@);
        proof {
            assert(self.text@.take(self.text@.len() as int) =~= self.text@);
        }
        let k = if index <= ls.len() { index } else { ls.len() };
        let mut sum: usize = 0;
        let mut i: usize = 0;
        proof {
            lemma_line_start_monotone(lv, k as int);
        }
        while i < k
            invariant
                i <= k <= ls@.len(),
                views(ls@) == lv,
                sum == spec_line_start(lv, i as int),
                spec_line_start(lv, k as int) <= usize::MAX,
                forall|j: int| 0 <= j <= k ==> spec_line_start(lv, j) <= spec_line_start(lv, k as int),
            decreases k - i,
        {
            proof {
                assert(views(ls@)[i as int] == ls@[i as int]@);
                assert(spec_line_start(lv, i + 1) <= spec_line_start(lv, k as int));
            }
            sum = sum + ls[i].len() + 1;
            i = i + 1;
        }
        sum
    }
}

/// Line starts are never negative.
proof fn lemma_line_start_nonneg(ls: Seq<Seq<u8>>, k: int)
    ensures
        0 <= spec_line_start(ls, k),
    decreases k,
{
    if k > 0 {
        lemma_line_start_nonneg(ls, k - 1);
    }
}

/// Line starts depend only on the lines before.
proof fn lemma_line_start_prefix(a: Seq<Seq<u8>>, b: Seq<Seq<u8>>, k: int)
    requires
        0 <= k,
        forall|j: int| 0 <= j < k ==> #[trigger] a[j].len() == b[j].len(),
    ensures
        spec_line_start(a, k) == spec_line_start(b, k),
    decreases k,
{
    if k > 0 {
        lemma_line_start_prefix(a, b, k - 1);
        assert(a[k - 1].len() == b[k - 1].len());
    }
}

/// Piece `k` of `ps` stands in `s` where the sums of the earlier pieces
/// (each one longer, for its separator) put it.
pub open spec fn piece_at(s: Seq<u8>, ps: Seq<Seq<u8>>, k: int) -> bool {
    &&& spec_line_start(ps, k) + ps[k].len() <= s.len()
    &&& s.subrange(spec_line_start(ps, k), spec_line_start(ps, k) + ps[k].len()) == ps[k]
}

/// Each piece stands in the text where the earlier ones put it, a separator
/// follows every piece but the last, and the last ends the text.
pub open spec fn pieces_placed(s: Seq<u8>, ps: Seq<Seq<u8>>, sep: u8) -> bool {
    &&& ps.len() >= 1
    &&& spec_line_start(ps, ps.len() - 1) + ps.last().len() == s.len()
    &&& forall|k: int| 0 <= k < ps.len() ==> #[trigger] piece_at(s, ps, k)
    &&& forall|k: int| 0 <= k < ps.len() - 1 ==> #[trigger] sep_after(s, ps, k, sep)
}

/// A separator follows piece `k` of `ps` in `s`.
pub open spec fn sep_after(s: Seq<u8>, ps: Seq<Seq<u8>>, k: int, sep: u8) -> bool {
    s[spec_line_start(ps, k) + ps[k].len()] == sep
}

proof fn lemma_placed_sep(s1: Seq<u8>, r: Seq<Seq<u8>>, sep: u8)
    requires
        pieces_placed(s1, r, sep),
    ensures
        pieces_placed(s1.push(sep), r.push(Seq::<u8>::empty()), sep),
{
    let s = s1.push(sep);
    let ps = r.push(Seq::<u8>::empty());
    let n = r.len() as int;
    assert forall|k: int| 0 <= k <= n implies spec_line_start(ps, k) == spec_line_start(r, k) by {
        lemma_line_start_prefix(ps, r, k);
    }
    assert forall|k: int| 0 <= k < ps.len() implies #[trigger] piece_at(s, ps, k) by {
        lemma_line_start_nonneg(r, k);
        if k < n {
            assert(piece_at(s1, r, k));
            assert(ps[k] == r[k]);
            assert(s.subrange(spec_line_start(r, k), spec_line_start(r, k) + r[k].len())
                =~= s1.subrange(spec_line_start(r, k), spec_line_start(r, k) + r[k].len()));
        } else {
            assert(spec_line_start(ps, n) == spec_line_start(ps, n - 1) + ps[n - 1].len() + 1);
            assert(s.subrange(s.len() as int, s.len() as int) =~= Seq::<u8>::empty());
        }
    }
    assert forall|k: int| 0 <= k < ps.len() - 1 implies #[trigger] sep_after(s, ps, k, sep) by {
        assert(ps[k] == r[k]);
        lemma_line_start_nonneg(r, k);
        if k < n - 1 {
            assert(sep_after(s1, r, k, sep));
            assert(piece_at(s1, r, k + 1));
            assert(spec_line_start(r, k + 1) == spec_line_start(r, k) + r[k].len() + 1);
            lemma_line_start_nonneg(r, k + 1);
        } else {
            assert(piece_at(s1, r, k));
        }
        assert(spec_line_start(ps, k) == spec_line_start(r, k));
    }
    assert(spec_line_start(ps, n) == spec_line_start(ps, n - 1) + ps[n - 1].len() + 1);
}

proof fn lemma_placed_other(s1: Seq<u8>, r: Seq<Seq<u8>>, sep: u8, x: u8)
    requires
        pieces_placed(s1, r, sep),
        x != sep,
    ensures
        pieces_placed(s1.push(x), r.update(r.len() - 1, r.last().push(x)), sep),
{
    let s = s1.push(x);
    let n = r.len() as int;
    let ps = r.update(n - 1, r.last().push(x));
    assert forall|k: int| 0 <= k <= n - 1 implies spec_line_start(ps, k) == spec_line_start(r, k) by {
        lemma_line_start_prefix(ps, r, k);
    }
    assert forall|k: int| 0 <= k < ps.len() implies #[trigger] piece_at(s, ps, k) by {
        assert(piece_at(s1, r, k));
        lemma_line_start_nonneg(r, k);
        let st = spec_line_start(r, k);
        if k < n - 1 {
            assert(ps[k] == r[k]);
            assert(s.subrange(st, st + r[k].len()) =~= s1.subrange(st, st + r[k].len()));
        } else {
            assert(s.subrange(st, st + r[n - 1].len() + 1) =~= r[n - 1].push(x));
        }
    }
    assert forall|k: int| 0 <= k < ps.len() - 1 implies #[trigger] sep_after(s, ps, k, sep) by {
        assert(ps[k] == r[k]);
        lemma_line_start_nonneg(r, k);
        assert(sep_after(s1, r, k, sep));
        assert(piece_at(s1, r, k + 1));
        assert(spec_line_start(r, k + 1) == spec_line_start(r, k) + r[k].len() + 1);
        lemma_line_start_nonneg(r, k + 1);
        assert(spec_line_start(ps, k) == spec_line_start(r, k));
    }
}

/// The pieces of a split stand in the text one after another.
proof fn lemma_split_bytes_places(s: Seq<u8>, sep: u8)
    ensures
        pieces_placed(s, split_bytes(s, sep), sep),
    decreases s.len(),
{
    if s.len() == 0 {
        let ps = split_bytes(s, sep);
        assert(piece_at(s, ps, 0)) by {
            assert(s.subrange(0, 0) =~= ps[0]);
        }
    } else {
        let s1 = s.drop_last();
        lemma_split_bytes_places(s1, sep);
        assert(s =~= s1.push(s.last()));
        if s.last() == sep {
            lemma_placed_sep(s1, split_bytes(s1, sep), sep);
        } else {
            lemma_placed_other(s1, split_bytes(s1, sep), sep, s.last());
        }
    }
}

/// Where a text has no carriage return, its lines are the pieces between
/// its line feeds, the last one dropped when it is empty.
proof fn lemma_lines_are_pieces(t: Seq<u8>)
    requires
        forall|i: int| 0 <= i < t.len() ==> t[i] != 13,
    ensures
        forall|j: int| 0 <= j < text_lines(t).len() ==> #[trigger] text_lines(t)[j] == split_bytes(t, 10)[j],
{
    let ps = split_bytes(t, 10);
    let ls = text_lines(t);
    lemma_split_bytes_places(t, 10);
    assert forall|j: int| 0 <= j < ls.len() implies #[trigger] ls[j] == ps[j] by {
        if j < ps.len() - 1 {
            assert(piece_at(t, ps, j));
            lemma_line_start_nonneg(ps, j);
            let st = spec_line_start(ps, j);
            if ps[j].len() > 0 {
                assert(ps[j].last() == t.subrange(st, st + ps[j].len())[ps[j].len() - 1]);
            }
            assert(ls[j] == strip_cr(ps[j]));
        }
    }
}

/// Where a text has no carriage return, each line stands in the text at its
/// start: the bytes from `line_start(k)` on begin with line `k`.
pub proof fn law_line_in_text(t: Seq<u8>, k: int)
    requires
        forall|i: int| 0 <= i < t.len() ==> t[i] != 13,
        0 <= k < text_lines(t).len(),
    ensures
        spec_line_start(text_lines(t), k) + text_lines(t)[k].len() <= t.len(),
        t.subrange(spec_line_start(text_lines(t), k), spec_line_start(text_lines(t), k) + text_lines(t)[k].len())
            == text_lines(t)[k],
{
    let ps = split_bytes(t, 10);
    let ls = text_lines(t);
    lemma_split_bytes_places(t, 10);
    lemma_lines_are_pieces(t);
    assert forall|j: int| 0 <= j < k implies #[trigger] ls[j].len() == ps[j].len() by {
        assert(ls[j] == ps[j]);
    }
    lemma_line_start_prefix(ls, ps, k);
    assert(ls[k] == ps[k]);
    assert(piece_at(t, ps, k));
}

/// A split has one piece more than the text has separators.
proof fn lemma_count_pieces(s: Seq<u8>, sep: u8)
    ensures
        split_bytes(s, sep).len() == count_byte(s, sep) + 1,
    decreases s.len(),
{
    if s.len() > 0 {
        lemma_count_pieces(s.drop_last(), sep);
    }
}

/// The piece that the number of separators before position `i` names starts
/// at or before `i` and ends at or after it.
proof fn lemma_piece_of_position(s: Seq<u8>, sep: u8, i: int)
    requires
        0 <= i <= s.len(),
    ensures
        count_byte(s.take(i), sep) < split_bytes(s, sep).len(),
        spec_line_start(split_bytes(s, sep), count_byte(s.take(i), sep) as int) <= i,
        i <= spec_line_start(split_bytes(s, sep), count_byte(s.take(i), sep) as int)
            + split_bytes(s, sep)[count_byte(s.take(i), sep) as int].len(),
    decreases s.len(),
{
    let ps = split_bytes(s, sep);
    if i == s.len() {
        assert(s.take(i) =~= s);
        lemma_count_pieces(s, sep);
        lemma_split_bytes_places(s, sep);
    } else {
        let s1 = s.drop_last();
        let ps1 = split_bytes(s1, sep);
        lemma_piece_of_position(s1, sep, i);
        assert(s.take(i) =~= s1.take(i));
        let k = count_byte(s.take(i), sep) as int;
        assert forall|j: int| 0 <= j < k implies #[trigger] ps[j].len() == ps1[j].len() by {}
        lemma_line_start_prefix(ps, ps1, k);
    }
}

/// Where a text has no carriage return, the byte at `i` lies on the line
/// that `line_index` names: at or after the line's start, and at most at
/// the line feed that ends it.
pub proof fn law_line_index_holds_byte(t: Seq<u8>, i: int)
    requires
        forall|j: int| 0 <= j < t.len() ==> t[j] != 13,
        0 <= i < t.len(),
    ensures
        0 <= spec_line_index(t, i) < text_lines(t).len(),
        spec_line_start(text_lines(t), spec_line_index(t, i)) <= i,
        i <= spec_line_start(text_lines(t), spec_line_index(t, i)) + text_lines(t)[spec_line_index(t, i)].len(),
{
    let ps = split_bytes(t, 10);
    let ls = text_lines(t);
    let k = spec_line_index(t, i);
    lemma_piece_of_position(t, 10, i);
    lemma_split_bytes_places(t, 10);
    lemma_lines_are_pieces(t);
    if k == ps.len() - 1 && ps.last().len() == 0 {
        assert(false);
    }
    assert(k < ls.len());
    assert forall|j: int| 0 <= j < k implies #[trigger] ls[j].len() == ps[j].len() by {
        assert(ls[j] == ps[j]);
    }
    lemma_line_start_prefix(ls, ps, k);
    assert(ls[k] == ps[k]);
}

/// The first line starts at zero, and each next one after the line before
/// and its line ending.
pub proof fn law_line_starts(ls: Seq<Seq<u8>>, k: int)
    requires
        0 <= k,
    ensures
        spec_line_start(ls, 0) == 0,
        spec_line_start(ls, k + 1) == spec_line_start(ls, k) + ls[k].len() + 1,
{
}

/// The sums only grow with more lines.
pub proof fn lemma_line_start_monotone(ls: Seq<Seq<u8>>, k: int)
    requires
        0 <= k,
    ensures
        forall|j: int| 0 <= j <= k ==> spec_line_start(ls, j) <= spec_line_start(ls, k),
    decreases k,
{
    if k > 0 {
        lemma_line_start_monotone(ls, k - 1);
    }
}

} // verus!
