//! Small helpers on characters and strings shared by the lexer, the
//! diagnostics and the pretty printers.
use vstd::prelude::*;

verus! {

/// Whether `c` is an upper-case ASCII letter.
pub open spec fn is_upper(c: char) -> bool {
    65 <= (c as u32) && (c as u32) <= 90
}

/// `w` equals the lower-case word `lit`, ignoring the ASCII case of `w`.
pub open spec fn ieq(w: Seq<char>, lit: Seq<char>) -> bool {
    &&& w.len() == lit.len()
    &&& forall|i: int|
        0 <= i < w.len() ==> (#[trigger] w[i] == lit[i] || (is_upper(w[i]) && (w[i] as u32) + 32 == (lit[i] as u32)))
}

/// The characters of a string slice, in order.
pub fn str_chars(s: &str) -> (v: Vec<char>)
    ensures
        v@ == s@,
{
    let n = s.unicode_len();
    let mut v: Vec<char> = Vec::new();
    let mut i: usize = 0;
    while i < n
        invariant
            n == s@.len(),
            i <= n,
            v@ == s@.subrange(0, i as int),
        decreases n - i,
    {
        let c = s.get_char(i);
        v.push(c);
        i = i + 1;
        assert(v@ =~= s@.subrange(0, i as int));
    }
    assert(v@ =~= s@);
    v
}

/// Whether the characters `w` spell the lower-case word `lit`, ignoring ASCII case.
pub fn eq_ignore_case(w: &Vec<char>, lit: &str) -> (r: bool)
    ensures
        r == ieq(w@, lit@),
{
    let l = str_chars(lit);
    if w.len() != l.len() {
        return false;
    }
    let mut i: usize = 0;
    while i < w.len()
        invariant
            w@.len() == l@.len(),
            l@ == lit@,
            i <= w@.len(),
            forall|j: int|
                0 <= j < i ==> (#[trigger] w@[j] == l@[j] || (is_upper(w@[j]) && (w@[j] as u32) + 32 == (l@[j] as u32))),
        decreases w.len() - i,
    {
        let c = w[i];
        let d = l[i];
        let cu = c as u32;
        if !(c == d || (65 <= cu && cu <= 90 && cu + 32 == d as u32)) {
            return false;
        }
        i = i + 1;
    }
    true
}

/// Appends a string slice to a string.
pub fn push_str(s: &mut String, t: &str)
    ensures
        final(s)@ == old(s)@ + t@,
{
    s.append(t);
}

/// Appends one character to a string, by `String::push`: the string's
/// characters afterwards are those before and then `c`.
#[verifier::external_body]
pub(crate) fn push_char(s: &mut String, c: char)
    ensures
        final(s)@ == old(s)@.push(c),
{
    s.push(c);
}

/// A string made of the given characters.
pub fn string_of_chars(cs: &Vec<char>) -> (s: String)
    ensures
        s@ == cs@,
{
    let mut s = String::new();
    let mut i: usize = 0;
    while i < cs.len()
        invariant
            i <= cs@.len(),
            s@ == cs@.subrange(0, i as int),
        decreases cs.len() - i,
    {
        push_char(&mut s, cs[i]);
        i = i + 1;
        assert(s@ =~= cs@.subrange(0, i as int));
    }
    assert(cs@.subrange(0, cs@.len() as int) =~= cs@);
    s
}

} // verus!

verus! {

/// The number that a sequence of decimal digit characters denotes.
pub open spec fn decimal_value(cs: Seq<char>) -> int
    decreases cs.len(),
{
    if cs.len() == 0 {
        0
    } else {
        10 * decimal_value(cs.drop_last()) + ((cs.last() as u32) - 48)
    }
}

/// Whether every character is a decimal digit.
pub open spec fn all_digits(cs: Seq<char>) -> bool {
    forall|i: int| 0 <= i < cs.len() ==> 48 <= (#[trigger] cs[i] as u32) <= 57
}

pub proof fn lemma_decimal_value_nonneg(cs: Seq<char>)
    requires
        all_digits(cs),
    ensures
        decimal_value(cs) >= 0,
    decreases cs.len(),
{
    if cs.len() > 0 {
        assert(all_digits(cs.drop_last()));
        lemma_decimal_value_nonneg(cs.drop_last());
        assert(48 <= (cs[cs.len() - 1] as u32));
    }
}

/// The value of a string of decimal digits, if it is one and the value is at most `limit`.
pub fn parse_decimal(s: &str, limit: u64) -> (r: Option<u64>)
    ensures
        match r {
            Some(v) => all_digits(s@) && v == decimal_value(s@) && decimal_value(s@) <= limit,
            None => !all_digits(s@) || decimal_value(s@) > limit,
        },
{
    let cs = str_chars(s);
    let mut k: usize = 0;
    while k < cs.len()
        invariant
            cs@ == s@,
            k <= cs@.len(),
            forall|j: int| 0 <= j < k ==> 48 <= (#[trigger] cs@[j] as u32) <= 57,
        decreases cs.len() - k,
    {
        let c = cs[k] as u32;
        if c < 48 || c > 57 {
            return None;
        }
        k = k + 1;
    }
    let mut v: u64 = 0;
    let mut i: usize = 0;
    while i < cs.len()
        invariant
            cs@ == s@,
            all_digits(s@),
            i <= cs@.len(),
            v == decimal_value(cs@.subrange(0, i as int)),
            v <= limit,
        decreases cs.len() - i,
    {
        let d = (cs[i] as u32 - 48) as u64;
        assert(cs@.subrange(0, i + 1).drop_last() =~= cs@.subrange(0, i as int));
        assert(decimal_value(cs@.subrange(0, i + 1)) == 10 * v + d);
        if v > limit / 10 {
            proof {
                assert(10 * v + d > limit) by (nonlinear_arith)
                    requires
                        v > limit / 10,
                        d >= 0,
                ;
                lemma_decimal_monotone(cs@, i as int + 1);
            }
            return None;
        }
        assert(10 * v <= limit) by (nonlinear_arith)
            requires
                v <= limit / 10,
        ;
        if d > limit - 10 * v {
            proof {
                lemma_decimal_monotone(cs@, i as int + 1);
            }
            return None;
        }
        v = 10 * v + d;
        i = i + 1;
    }
    assert(cs@.subrange(0, i as int) =~= cs@);
    Some(v)
}

/// Extending a string of digits never makes its value smaller.
pub proof fn lemma_decimal_monotone(cs: Seq<char>, k: int)
    requires
        all_digits(cs),
        0 <= k <= cs.len(),
    ensures
        decimal_value(cs) >= decimal_value(cs.subrange(0, k)),
    decreases cs.len() - k,
{
    if k < cs.len() {
        lemma_decimal_monotone(cs, k + 1);
        let a = cs.subrange(0, k + 1);
        assert(a.drop_last() =~= cs.subrange(0, k));
        assert(all_digits(cs.subrange(0, k)));
        lemma_decimal_value_nonneg(cs.subrange(0, k));
        assert(48 <= (a[k] as u32) <= 57);
    } else {
        assert(cs.subrange(0, k) =~= cs);
    }
}

} // verus!
