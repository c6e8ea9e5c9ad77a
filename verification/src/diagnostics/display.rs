//! Rendering of diagnostics for the user.
//!
//! A diagnostic is shown as the part of its line around its span (up to
//! `MESSAGE_PADDING` bytes on either side, the span itself in red), a row of
//! `^` under the span, a `|` and the message with the line and column.
use vstd::prelude::*;

use super::Diagnostic;
use crate::source::{copy_bytes, lemma_line_start_monotone, spec_line_index, spec_line_start, text_lines, views, Source};
use crate::words::{decimal_string_succ, decimal_text};

verus! {

pub const MESSAGE_PADDING: usize = 16;

/// The escape sequence that starts red bold text.
pub open spec fn red() -> Seq<u8> {
    seq![27u8, 91, 51, 49, 109, 27, 91, 49, 109]
}

/// The escape sequence that starts orange bold text.
pub open spec fn orange() -> Seq<u8> {
    seq![27u8, 91, 51, 51, 109, 27, 91, 49, 109]
}

/// The escape sequence that resets the text style.
pub open spec fn reset() -> Seq<u8> {
    seq![27u8, 91, 48, 109]
}

/// `n` copies of the byte `b`.
pub open spec fn repeat(b: u8, n: nat) -> Seq<u8> {
    Seq::new(n, |i: int| b)
}

pub open spec fn min(a: int, b: int) -> int {
    if a <= b { a } else { b }
}

/// The bytes of the number `n` written in decimal.
pub open spec fn decimal_bytes(n: nat) -> Seq<u8> {
    vstd::utf8::encode_utf8(decimal_text(n))
}

/// The part of the line around the span, the span in red, and a newline.
pub open spec fn excerpt(line: Seq<u8>, col: int, len: int) -> Seq<u8> {
    let ps = if col > MESSAGE_PADDING { col - MESSAGE_PADDING } else { 0 };
    let ss = min(col + len, line.len() as int);
    let se = min(ss + MESSAGE_PADDING, line.len() as int);
    line.subrange(ps, col) + red() + line.subrange(col, ss) + reset() + line.subrange(ss, se) + seq![10u8]
}

/// The row of `^` under the span and the `|` below it.
pub open spec fn markers(indent: nat, len: nat) -> Seq<u8> {
    repeat(32, indent) + repeat(94, len) + seq![10u8] + repeat(32, indent) + seq![124u8] + seq![10u8]
}

/// The message with the line and column (both counted from one).
pub open spec fn message_line(indent: nat, message: Seq<char>, line_number: nat, column_number: nat) -> Seq<u8> {
    repeat(32, indent) + seq![43u8, 45, 45, 32] + orange() + vstd::utf8::encode_utf8(message)
        + seq![32u8, 40] + reset() + decimal_bytes(line_number) + orange() + seq![58u8] + reset()
        + decimal_bytes(column_number) + orange() + seq![41u8] + reset() + seq![10u8]
}

/// The rendering of a diagnostic against the text `t`.
pub open spec fn rendered(t: Seq<u8>, d: Diagnostic) -> Seq<u8> {
    let li = spec_line_index(t, d.span.start as int);
    let ls = text_lines(t);
    let col = d.span.start - spec_line_start(ls, li);
    let len = d.span.end - d.span.start + 1;
    let indent = min(MESSAGE_PADDING as int, col) as nat;
    excerpt(ls[li], col, len) + markers(indent, len as nat) + message_line(indent, d.message@, (li + 1) as nat, (col + 1) as nat)
}

/// What rendering needs of a diagnostic: its span lies in a line of the text.
pub open spec fn renderable(t: Seq<u8>, d: Diagnostic) -> bool {
    let li = spec_line_index(t, d.span.start as int);
    let ls = text_lines(t);
    &&& d.span.start <= d.span.end < usize::MAX
    &&& d.span.start <= t.len()
    &&& li < ls.len()
    &&& spec_line_start(ls, li) <= d.span.start
    &&& d.span.start - spec_line_start(ls, li) <= ls[li].len()
}

pub struct DiagnosticsDisplay<'a> {
    pub text: &'a Source,
    pub diagnostics: &'a [Diagnostic],
}

/// Appends `src` to `out`.
fn append(out: &mut Vec<u8>, src: &Vec<u8>)
    ensures
        final(out)@ == old(out)@ + src@,
{
    let mut i: usize = 0;
    while i < src.len()
        invariant
            i <= src@.len(),
            out@ == old(out)@ + src@.take(i as int),
        decreases src.len() - i,
    {
        out.push(src[i]);
        i = i + 1;
        assert(out@ =~= old(out)@ + src@.take(i as int));
    }
    assert(src@.take(src@.len() as int) =~= src@);
}

/// Appends `n` copies of `b` to `out`.
fn append_repeat(out: &mut Vec<u8>, b: u8, n: usize)
    ensures
        final(out)@ == old(out)@ + repeat(b, n as nat),
{
    let mut i: usize = 0;
    while i < n
        invariant
            i <= n,
            out@ == old(out)@ + repeat(b, i as nat),
        decreases n - i,
    {
        out.push(b);
        i = i + 1;
        assert(out@ =~= old(out)@ + repeat(b, i as nat));
    }
}

fn red_bytes() -> (v: Vec<u8>)
    ensures
        v@ == red(),
{
    let v: Vec<u8> = vec![27u8, 91, 51, 49, 109, 27, 91, 49, 109];
    assert(v@ =~= red());
    v
}

fn orange_bytes() -> (v: Vec<u8>)
    ensures
        v@ == orange(),
{
    let v: Vec<u8> = vec![27u8, 91, 51, 51, 109, 27, 91, 49, 109];
    assert(v@ =~= orange());
    v
}

fn reset_bytes() -> (v: Vec<u8>)
    ensures
        v@ == reset(),
{
    let v: Vec<u8> = vec![27u8, 91, 48, 109];
    assert(v@ =~= reset());
    v
}

/// The bytes of `n + 1` written in decimal.
fn decimal_bytes_succ(n: u64) -> (v: Vec<u8>)
    ensures
        v@ == decimal_bytes(n as nat + 1),
{
    let s = decimal_string_succ(n);
    vstd::slice::slice_to_vec(s.as_str().as_bytes())
}

/// A string of the given bytes, by `String::from_utf8_lossy`: bytes that are
/// valid UTF-8 decode unchanged. Of other bytes (each invalid sequence becomes
/// U+FFFD) nothing is stated here.
#[verifier::external_body]
fn string_from_bytes(bytes: &Vec<u8>) -> (s: String)
    ensures
        vstd::utf8::valid_utf8(bytes@) ==> s@ == vstd::utf8::decode_utf8(bytes@),
{
    String::from_utf8_lossy(bytes.as_slice()).into_owned()
}

fn render_excerpt(line: &Vec<u8>, column: usize, len: usize) -> (out: Vec<u8>)
    requires
        column <= line@.len(),
    ensures
        out@ == excerpt(line@, column as int, len as int),
{
    let prefix_start = if column > MESSAGE_PADDING { column - MESSAGE_PADDING } else { 0 };
    let suffix_start = if line.len() - column > len { column + len } else { line.len() };
    let suffix_end = if line.len() - suffix_start > MESSAGE_PADDING { suffix_start + MESSAGE_PADDING } else { line.len() };
    let mut out: Vec<u8> = copy_bytes(line, prefix_start, column);
    append(&mut out, &red_bytes());
    append(&mut out, &copy_bytes(line, column, suffix_start));
    append(&mut out, &reset_bytes());
    append(&mut out, &copy_bytes(line, suffix_start, suffix_end));
    out.push(10);
    assert(out@ =~= excerpt(line@, column as int, len as int));
    out
}

fn render_markers(indent: usize, len: usize) -> (out: Vec<u8>)
    ensures
        out@ == markers(indent as nat, len as nat),
{
    let mut out: Vec<u8> = Vec::new();
    append_repeat(&mut out, 32, indent);
    append_repeat(&mut out, 94, len);
    out.push(10);
    append_repeat(&mut out, 32, indent);
    out.push(124);
    out.push(10);
    assert(out@ =~= markers(indent as nat, len as nat));
    out
}

fn render_message(indent: usize, message: &String, line_index: u64, column_index: u64) -> (out: Vec<u8>)
    ensures
        out@ == message_line(indent as nat, message@, line_index as nat + 1, column_index as nat + 1),
{
    let mut out: Vec<u8> = Vec::new();
    append_repeat(&mut out, 32, indent);
    append(&mut out, &vec![43u8, 45, 45, 32]);
    append(&mut out, &orange_bytes());
    append(&mut out, &vstd::slice::slice_to_vec(message.as_str().as_bytes()));
    append(&mut out, &vec![32u8, 40]);
    append(&mut out, &reset_bytes());
    append(&mut out, &decimal_bytes_succ(line_index));
    append(&mut out, &orange_bytes());
    out.push(58);
    append(&mut out, &reset_bytes());
    append(&mut out, &decimal_bytes_succ(column_index));
    append(&mut out, &orange_bytes());
    out.push(41);
    append(&mut out, &reset_bytes());
    out.push(10);
    assert(out@ =~= message_line(indent as nat, message@, line_index as nat + 1, column_index as nat + 1));
    out
}

impl<'a> DiagnosticsDisplay<'a> {
    pub fn new(text: &'a Source, diagnostics: &'a [Diagnostic]) -> (d: Self)
        ensures
            d.text == text,
            d.diagnostics@ == diagnostics@,
    {
        Self { text, diagnostics }
    }

    /// Whether a diagnostic's span lies in a line of the text, as rendering
    /// it requires.
    pub fn is_renderable(&self, d: &Diagnostic) -> (r: bool)
        ensures
            r == renderable(self.text.text@, *d),
    {
        let ghost t = self.text.text@;
        let start = d.span.start;
        if start > d.span.end || d.span.end == usize::MAX || start > self.text.text.len() {
            return false;
        }
        let li = self.text.line_index(start);
        let ls = self.text.lines_before(self.text.text.len());
        proof {
            assert(t.take(t.len() as int) =~= t);
        }
        let ghost lv = text_lines(t);
        if li >= ls.len() {
            return false;
        }
        proof {
            lemma_line_start_monotone(lv, li as int);
        }
        let mut sum: usize = 0;
        let mut k: usize = 0;
        while k < li
            invariant
                k <= li < ls@.len(),
                start == d.span.start,
                li == spec_line_index(t, start as int),
                t == self.text.text@,
                views(ls@) == lv,
                lv == text_lines(t),
                forall|j: int| 0 <= j <= li ==> spec_line_start(lv, j) <= spec_line_start(lv, li as int),
                sum == spec_line_start(lv, k as int),
            decreases li - k,
        {
            assert(views(ls@)[k as int] == ls@[k as int]@);
            let width = ls[k].len();
            let next = match sum.checked_add(width) {
                Some(x) => x.checked_add(1),
                None => None,
            };
            match next {
                Some(y) => {
                    sum = y;
                },
                None => {
                    assert(spec_line_start(lv, k + 1) > usize::MAX);
                    return false;
                },
            }
            k = k + 1;
        }
        assert(views(ls@)[li as int] == ls@[li as int]@);
        sum <= start && start - sum <= ls[li].len()
    }

    /// The bytes of a diagnostic formatted for the user.
    pub fn stringify_bytes(&self, diagnostic: &Diagnostic) -> (out: Vec<u8>)
        requires
            renderable(self.text.text@, *diagnostic),
        ensures
            out@ == rendered(self.text.text@, *diagnostic),
    {
        let start = diagnostic.span.start;
        let line_index = self.text.line_index(start);
        let line = self.text.line(line_index);
        proof {
            lemma_line_start_fits(self.text.text@, line_index as int, start as int);
        }
        let line_start = self.text.line_start(line_index);
        let column = start - line_start;
        let len = diagnostic.span.length();
        let indent = if column < MESSAGE_PADDING { column } else { MESSAGE_PADDING };
        let mut out = render_excerpt(&line, column, len);
        append(&mut out, &render_markers(indent, len));
        append(&mut out, &render_message(indent, &diagnostic.message, line_index as u64, column as u64));
        out
    }

    /// A diagnostic formatted for the user.
    pub fn stringify(&self, diagnostic: &Diagnostic) -> (s: String)
        requires
            renderable(self.text.text@, *diagnostic),
        ensures
            vstd::utf8::valid_utf8(rendered(self.text.text@, *diagnostic))
                ==> s@ == vstd::utf8::decode_utf8(rendered(self.text.text@, *diagnostic)),
    {
        let bytes = self.stringify_bytes(diagnostic);
        string_from_bytes(&bytes)
    }
}

proof fn lemma_line_start_fits(t: Seq<u8>, li: int, start: int)
    requires
        0 <= li < text_lines(t).len(),
        spec_line_start(text_lines(t), li) <= start <= usize::MAX,
    ensures
        spec_line_start(text_lines(t), if li <= text_lines(t).len() { li } else { text_lines(t).len() as int }) <= usize::MAX,
{
}

} // verus!
