//! Splitting a line into words, joining words back, and writing numbers in
//! decimal: the string handling of the assembler's preprocessor.
use vstd::prelude::*;

use crate::text::{all_digits, decimal_value, push_char, push_str, str_chars, string_of_chars};

verus! {

/// The views of a sequence of strings.
pub open spec fn strs(v: Seq<String>) -> Seq<Seq<char>> {
    v.map_values(|x: String| x@)
}

/// The pieces of `s` between occurrences of `sep`, as `str::split` yields
/// them: empty pieces included, and one piece more than there are separators.
pub open spec fn split(s: Seq<char>, sep: char) -> Seq<Seq<char>>
    decreases s.len(),
{
    if s.len() == 0 {
        seq![Seq::<char>::empty()]
    } else {
        let r = split(s.drop_last(), sep);
        if s.last() == sep {
            r.push(Seq::<char>::empty())
        } else {
            r.update(r.len() - 1, r.last().push(s.last()))
        }
    }
}

/// The pieces with `sep` between each two of them, as `join` builds it.
pub open spec fn join(parts: Seq<Seq<char>>, sep: Seq<char>) -> Seq<char>
    decreases parts.len(),
{
    if parts.len() == 0 {
        Seq::<char>::empty()
    } else if parts.len() == 1 {
        parts[0]
    } else {
        join(parts.drop_last(), sep) + sep + parts.last()
    }
}

/// The character of a decimal digit.
pub open spec fn digit_char(d: nat) -> char {
    ((48 + d) as u32) as char
}

/// `n` written in decimal, without leading zeros.
pub open spec fn decimal_text(n: nat) -> Seq<char>
    decreases n,
{
    if n < 10 {
        seq![digit_char(n)]
    } else {
        decimal_text(n / 10).push(digit_char(n % 10))
    }
}

/// A line always splits into at least one piece.
pub proof fn lemma_split_nonempty(s: Seq<char>, sep: char)
    ensures
        split(s, sep).len() >= 1,
    decreases s.len(),
{
    if s.len() > 0 {
        lemma_split_nonempty(s.drop_last(), sep);
    }
}

/// A line without the separator is one piece.
pub proof fn lemma_split_no_sep(s: Seq<char>, sep: char)
    requires
        forall|i: int| 0 <= i < s.len() ==> s[i] != sep,
    ensures
        split(s, sep) == seq![s],
    decreases s.len(),
{
    if s.len() > 0 {
        lemma_split_no_sep(s.drop_last(), sep);
        assert(s.drop_last().push(s.last()) =~= s);
        assert(split(s, sep) =~= seq![s]);
    } else {
        assert(s =~= Seq::<char>::empty());
    }
}

/// The first piece starts with the line's first character, unless that is the separator.
pub proof fn lemma_split_first(s: Seq<char>, sep: char)
    requires
        s.len() > 0,
        s[0] != sep,
    ensures
        split(s, sep)[0].len() > 0,
        split(s, sep)[0][0] == s[0],
    decreases s.len(),
{
    lemma_split_nonempty(s, sep);
    let d = s.drop_last();
    let r = split(d, sep);
    lemma_split_nonempty(d, sep);
    if s.len() == 1 {
        assert(d =~= Seq::<char>::empty());
        assert(r == seq![Seq::<char>::empty()]);
        assert(s.last() == s[0]);
    } else {
        lemma_split_first(d, sep);
        assert(d[0] == s[0]);
        if s.last() == sep {
            assert(split(s, sep)[0] == r[0]);
        } else if r.len() == 1 {
            assert(split(s, sep)[0] == r[0].push(s.last()));
        } else {
            assert(split(s, sep)[0] == r[0]);
        }
    }
}

/// Splitting at a separator between two parts splits each part on its own.
pub proof fn lemma_split_concat(a: Seq<char>, b: Seq<char>, sep: char)
    ensures
        split(a + seq![sep] + b, sep) == split(a, sep) + split(b, sep),
    decreases b.len(),
{
    let s = a + seq![sep] + b;
    lemma_split_nonempty(a, sep);
    if b.len() == 0 {
        assert(s.drop_last() =~= a);
        assert(split(s, sep) =~= split(a, sep) + split(b, sep));
    } else {
        lemma_split_concat(a, b.drop_last(), sep);
        assert(s.drop_last() =~= a + seq![sep] + b.drop_last());
        lemma_split_nonempty(b.drop_last(), sep);
        let ra = split(a, sep);
        let r = split(b.drop_last(), sep);
        if b.last() == sep {
            assert(split(s, sep) =~= ra + split(b, sep));
        } else {
            assert((ra + r).update(ra.len() + r.len() - 1, (ra + r).last().push(b.last()))
                =~= ra + r.update(r.len() - 1, r.last().push(b.last())));
        }
    }
}

pub proof fn lemma_strs_push(v: Seq<String>, x: String)
    ensures
        strs(v.push(x)) == strs(v).push(x@),
{
    assert(strs(v.push(x)) =~= strs(v).push(x@));
}

/// Splits `s` at every `sep`.
pub fn split_str(s: &str, sep: char) -> (v: Vec<String>)
    ensures
        strs(v@) == split(s@, sep),
{
    let cs = str_chars(s);
    let mut out: Vec<String> = Vec::new();
    let mut cur: Vec<char> = Vec::new();
    let mut i: usize = 0;
    proof {
        assert(cs@.take(0) =~= Seq::<char>::empty());
        assert(strs(out@).push(cur@) =~= seq![Seq::<char>::empty()]);
    }
    while i < cs.len()
        invariant
            i <= cs@.len(),
            cs@ == s@,
            strs(out@).push(cur@) == split(cs@.take(i as int), sep),
        decreases cs.len() - i,
    {
        let c = cs[i];
        let ghost before = cs@.take(i as int);
        proof {
            assert(cs@.take(i + 1).drop_last() =~= before);
            lemma_split_nonempty(before, sep);
        }
        if c == sep {
            let w = string_of_chars(&cur);
            proof {
                lemma_strs_push(out@, w);
            }
            out.push(w);
            cur = Vec::new();
            proof {
                assert(strs(out@).push(cur@) =~= split(before, sep).push(Seq::<char>::empty()));
            }
        } else {
            cur.push(c);
            proof {
                let r = split(before, sep);
                assert(strs(out@).push(cur@) =~= r.update(r.len() - 1, r.last().push(c)));
            }
        }
        i = i + 1;
    }
    proof {
        assert(cs@.take(cs@.len() as int) =~= cs@);
    }
    let w = string_of_chars(&cur);
    proof {
        lemma_strs_push(out@, w);
    }
    out.push(w);
    out
}

/// Joins `parts` with `sep` between each two of them.
pub fn join_strs(parts: &Vec<String>, sep: &str) -> (s: String)
    ensures
        s@ == join(strs(parts@), sep@),
{
    let mut s = String::new();
    let mut i: usize = 0;
    proof {
        assert(strs(parts@.take(0)) =~= Seq::<Seq<char>>::empty());
    }
    while i < parts.len()
        invariant
            i <= parts@.len(),
            s@ == join(strs(parts@.take(i as int)), sep@),
        decreases parts.len() - i,
    {
        proof {
            assert(strs(parts@.take(i + 1)).drop_last() =~= strs(parts@.take(i as int)));
            assert(strs(parts@.take(i + 1)).last() == parts@[i as int]@);
        }
        if i > 0 {
            push_str(&mut s, sep);
        } else {
            assert(s@ =~= Seq::<char>::empty());
        }
        push_str(&mut s, parts[i].as_str());
        i = i + 1;
    }
    proof {
        assert(parts@.take(parts@.len() as int) =~= parts@);
    }
    s
}

/// `n` written in decimal.
pub fn decimal_string(n: u64) -> (s: String)
    ensures
        s@ == decimal_text(n as nat),
    decreases n,
{
    if n < 10 {
        let mut s = String::new();
        let c = char_of_digit(n);
        push_char(&mut s, c);
        assert(s@ =~= seq![digit_char(n as nat)]);
        s
    } else {
        let mut s = decimal_string(n / 10);
        let c = char_of_digit(n % 10);
        push_char(&mut s, c);
        s
    }
}

/// `n + 1` written in decimal, for any `n`.
pub fn decimal_string_succ(n: u64) -> (s: String)
    ensures
        s@ == decimal_text(n as nat + 1),
    decreases n,
{
    if n < 9 {
        let mut s = String::new();
        let c = char_of_digit(n + 1);
        push_char(&mut s, c);
        assert(s@ =~= seq![digit_char((n + 1) as nat)]);
        s
    } else if n % 10 == 9 {
        let mut s = decimal_string_succ(n / 10);
        let c = char_of_digit(0);
        push_char(&mut s, c);
        assert((n as nat + 1) / 10 == (n / 10) as nat + 1);
        assert((n as nat + 1) % 10 == 0);
        s
    } else {
        let mut s = decimal_string(n / 10);
        let c = char_of_digit(n % 10 + 1);
        push_char(&mut s, c);
        assert((n as nat + 1) / 10 == (n / 10) as nat);
        assert((n as nat + 1) % 10 == n % 10 + 1);
        s
    }
}

/// The character of the decimal digit `d`.
fn char_of_digit(d: u64) -> (c: char)
    requires
        d < 10,
    ensures
        c == digit_char(d as nat),
{
    let ds: [char; 10] = ['0', '1', '2', '3', '4', '5', '6', '7', '8', '9'];
    let i = d as usize;
    assert((48 + i) as u32 as char == ds[i as int]) by {
        assert(ds@ == seq!['0', '1', '2', '3', '4', '5', '6', '7', '8', '9']);
    }
    ds[i]
}

/// The decimal text of a number is made of digits, reads back as the number,
/// and starts with a zero only when the number is zero.
pub proof fn law_decimal_reads_back(n: nat)
    ensures
        all_digits(decimal_text(n)),
        decimal_value(decimal_text(n)) == n,
        decimal_text(n).len() > 0,
        decimal_text(n)[0] == '0' ==> n == 0,
    decreases n,
{
    if n < 10 {
        assert(decimal_text(n).drop_last() =~= Seq::<char>::empty());
        assert((digit_char(n) as u32) == 48 + n);
        assert(decimal_value(Seq::<char>::empty()) == 0);
        assert(decimal_value(decimal_text(n)) == 10 * decimal_value(decimal_text(n).drop_last()) + ((decimal_text(n).last() as u32) - 48));
    } else {
        law_decimal_reads_back(n / 10);
        let t = decimal_text(n / 10);
        assert(decimal_text(n).drop_last() =~= t);
        assert((digit_char(n % 10) as u32) == 48 + n % 10);
        assert(decimal_text(n)[0] == t[0]);
        assert(decimal_text(n).last() == digit_char(n % 10));
        assert(decimal_value(decimal_text(n)) == 10 * decimal_value(t) + ((digit_char(n % 10) as u32) - 48));
        assert(10 * (n / 10) + n % 10 == n);
        assert forall|i: int| 0 <= i < decimal_text(n).len() implies 48 <= (#[trigger] decimal_text(n)[i] as u32) <= 57 by {
            if i < t.len() {
                assert(decimal_text(n)[i] == t[i]);
            }
        }
    }
}

proof fn lemma_join_extend_last(parts: Seq<Seq<char>>, sep: Seq<char>, c: char)
    requires
        parts.len() > 0,
    ensures
        join(parts.update(parts.len() - 1, parts.last().push(c)), sep) == join(parts, sep).push(c),
{
    let q = parts.update(parts.len() - 1, parts.last().push(c));
    if parts.len() > 1 {
        assert(q.drop_last() =~= parts.drop_last());
        assert(join(q, sep) == join(parts.drop_last(), sep) + sep + parts.last().push(c));
        assert(join(parts.drop_last(), sep) + sep + parts.last().push(c) =~= (join(parts.drop_last(), sep) + sep + parts.last()).push(c));
    }
}

/// Joining the pieces of a split with the separator gives back the text.
pub proof fn law_join_split(s: Seq<char>, sep: char)
    ensures
        join(split(s, sep), seq![sep]) == s,
    decreases s.len(),
{
    if s.len() > 0 {
        let d = s.drop_last();
        law_join_split(d, sep);
        lemma_split_nonempty(d, sep);
        let r = split(d, sep);
        if s.last() == sep {
            assert(r.push(Seq::<char>::empty()).drop_last() =~= r);
            assert(join(r.push(Seq::<char>::empty()), seq![sep]) == join(r, seq![sep]) + seq![sep] + Seq::<char>::empty());
            assert(d + seq![sep] + Seq::<char>::empty() =~= s);
        } else {
            lemma_join_extend_last(r, seq![sep], s.last());
            assert(d.push(s.last()) =~= s);
        }
    } else {
        assert(split(s, sep) == seq![Seq::<char>::empty()]);
        assert(s =~= Seq::<char>::empty());
    }
}

} // verus!
