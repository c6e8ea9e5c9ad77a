//! The assembler's preprocessor: resolves one source line at a time.
//!
//! A line is split at single spaces into words; what the first word starts
//! with decides what the line is:
//! - `;` a comment, kept as it is;
//! - `.name args..` a macro call: a built-in macro runs, a substitution macro
//!   has each `!n` word of its body replaced by argument `n`; either way the
//!   lines it yields are resolved in turn and joined with newlines;
//! - `:label` defines the variable `label` as the byte offset of the next
//!   instruction (two bytes per instruction) and yields nothing;
//! - anything else is an instruction: each `!name` word is replaced by the
//!   variable's value, and the instruction counter advances.
use vstd::hash_map::StringHashMap;
use vstd::prelude::*;

use crate::text::{push_str, str_chars, string_of_chars};
use crate::words::{
    decimal_string, decimal_text, join, join_strs, lemma_split_concat, lemma_split_first,
    lemma_split_no_sep, lemma_split_nonempty, lemma_strs_push, split, split_str, strs,
};

pub mod macros;

use self::macros::{defmacro, defvar, include_lines, spec_defmacro, spec_defvar, spec_include};

verus! {

/// How deeply macro expansions may nest before resolution gives up: as deep
/// as a `u32` counts, far past what the call stack of any machine holds.
pub const MACRO_DEPTH: u32 = 4294967295;

/// The built-in macros.
#[derive(Debug, Clone, Copy, PartialEq, Eq, Structural)]
pub enum MacroFunc {
    Defvar,
    Include,
    Defmacro,
}

#[derive(Debug)]
pub enum Macro {
    /// A built-in macro.
    Func(MacroFunc),
    /// A macro whose body lines are substituted with the call's arguments.
    Subst(Vec<String>),
}

pub enum MacroV {
    Func(MacroFunc),
    Subst(Seq<Seq<char>>),
}

impl View for Macro {
    type V = MacroV;

    open spec fn view(&self) -> MacroV {
        match self {
            Macro::Func(f) => MacroV::Func(*f),
            Macro::Subst(lines) => MacroV::Subst(strs(lines@)),
        }
    }
}

#[derive(Debug)]
pub enum Error {
    UnknownToken(String),
    MacroEval(String, Box<Error>),
    BadMacroFormat(String),
    Io(String),
    Unexpected(String),
    /// An included file whose lines have not been provided.
    MissingInclude(String),
}

pub enum ErrorV {
    UnknownToken(Seq<char>),
    MacroEval(Seq<char>, Box<ErrorV>),
    BadMacroFormat(Seq<char>),
    Io(Seq<char>),
    Unexpected(Seq<char>),
    MissingInclude(Seq<char>),
}

pub open spec fn error_view(e: Error) -> ErrorV
    decreases e,
{
    match e {
        Error::UnknownToken(t) => ErrorV::UnknownToken(t@),
        Error::MacroEval(n, inner) => ErrorV::MacroEval(n@, Box::new(error_view(*inner))),
        Error::BadMacroFormat(u) => ErrorV::BadMacroFormat(u@),
        Error::Io(m) => ErrorV::Io(m@),
        Error::Unexpected(m) => ErrorV::Unexpected(m@),
        Error::MissingInclude(p) => ErrorV::MissingInclude(p@),
    }
}

impl View for Error {
    type V = ErrorV;

    open spec fn view(&self) -> ErrorV {
        error_view(*self)
    }
}

/// The message of an error.
pub open spec fn error_text(e: ErrorV) -> Seq<char>
    decreases e,
{
    match e {
        ErrorV::UnknownToken(t) => "unknown token: "@ + t,
        ErrorV::MacroEval(n, inner) => "eval macro "@ + n + ": "@ + error_text(*inner),
        ErrorV::BadMacroFormat(u) => "usage: "@ + u,
        ErrorV::Io(m) => m,
        ErrorV::Unexpected(m) => m,
        ErrorV::MissingInclude(p) => "no lines provided for include: "@ + p,
    }
}

impl Error {
    /// The error's message.
    pub fn to_text(&self) -> (s: String)
        ensures
            s@ == error_text(self@),
        decreases self,
    {
        match self {
            Error::UnknownToken(t) => {
                let mut s = String::from_str("unknown token: ");
                s.append(t.as_str());
                s
            },
            Error::MacroEval(n, inner) => {
                let mut s = String::from_str("eval macro ");
                s.append(n.as_str());
                s.append(": ");
                let rest = inner.to_text();
                s.append(rest.as_str());
                s
            },
            Error::BadMacroFormat(u) => {
                let mut s = String::from_str("usage: ");
                s.append(u.as_str());
                s
            },
            Error::Io(m) => m.clone(),
            Error::Unexpected(m) => m.clone(),
            Error::MissingInclude(p) => {
                let mut s = String::from_str("no lines provided for include: ");
                s.append(p.as_str());
                s
            },
        }
    }

    /// The path of the include whose lines are missing, where this error, or
    /// the error of a macro call it reports, is one.
    pub fn missing_include(&self) -> (r: Option<String>)
        ensures
            r matches Some(p) ==> missing_in(self@) == Some(p@),
            r is None ==> missing_in(self@) is None,
        decreases self,
    {
        match self {
            Error::MissingInclude(p) => Some(p.clone()),
            Error::MacroEval(_, inner) => inner.missing_include(),
            _ => None,
        }
    }
}

/// The path of the missing include an error reports, if it reports one.
pub open spec fn missing_in(e: ErrorV) -> Option<Seq<char>>
    decreases e,
{
    match e {
        ErrorV::MissingInclude(p) => Some(p),
        ErrorV::MacroEval(_, inner) => missing_in(*inner),
        _ => None,
    }
}

/// The abstract state of the preprocessor.
pub struct PPState {
    pub vars: Map<Seq<char>, Seq<char>>,
    pub macros: Map<Seq<char>, MacroV>,
    pub count: u32,
}

pub open spec fn result_view(r: Result<String, Error>) -> Result<Seq<char>, ErrorV> {
    match r {
        Ok(s) => Ok(s@),
        Err(e) => Err(e@),
    }
}

pub open spec fn lines_view(r: Result<Vec<String>, Error>) -> Result<Seq<Seq<char>>, ErrorV> {
    match r {
        Ok(v) => Ok(strs(v@)),
        Err(e) => Err(e@),
    }
}

pub open spec fn starts_with(w: Seq<char>, c: char) -> bool {
    w.len() > 0 && w[0] == c
}

/// The words of an instruction with each `!name` replaced by the variable's
/// value; the first unknown name is reported.
pub open spec fn spec_subst_vars(words: Seq<Seq<char>>, vars: Map<Seq<char>, Seq<char>>) -> Result<Seq<Seq<char>>, ErrorV>
    decreases words.len(),
{
    if words.len() == 0 {
        Ok(Seq::empty())
    } else {
        let w = words[0];
        let first = if starts_with(w, '!') {
            if vars.contains_key(w.skip(1)) {
                Ok(vars[w.skip(1)])
            } else {
                Err(ErrorV::UnknownToken(w.skip(1)))
            }
        } else {
            Ok(w)
        };
        match first {
            Err(e) => Err(e),
            Ok(v) => match spec_subst_vars(words.skip(1), vars) {
                Ok(rest) => Ok(seq![v] + rest),
                Err(e) => Err(e),
            },
        }
    }
}

/// The number a word denotes as `u32::from_str_radix(.., 10)` reads it: an
/// optional `+` and one or more decimal digits, at most `u32::MAX`.
pub open spec fn parse_index(w: Seq<char>) -> Option<nat> {
    let d = if starts_with(w, '+') { w.skip(1) } else { w };
    if d.len() > 0 && crate::text::all_digits(d) && crate::text::decimal_value(d) <= u32::MAX {
        Some(crate::text::decimal_value(d) as nat)
    } else {
        None
    }
}

/// A word of a macro body with `!n` replaced by argument `n` (word `n + 1`
/// of the call); `None` where the call has no such argument.
pub open spec fn subst_arg(w: Seq<char>, parts: Seq<Seq<char>>) -> Option<Seq<char>> {
    if starts_with(w, '!') {
        match parse_index(w.skip(1)) {
            Some(n) => if n + 1 < parts.len() {
                Some(parts[n + 1 as int])
            } else {
                None
            },
            None => Some(w),
        }
    } else {
        Some(w)
    }
}

pub open spec fn subst_words(words: Seq<Seq<char>>, parts: Seq<Seq<char>>) -> Option<Seq<Seq<char>>>
    decreases words.len(),
{
    if words.len() == 0 {
        Some(Seq::empty())
    } else {
        match (subst_arg(words[0], parts), subst_words(words.skip(1), parts)) {
            (Some(v), Some(rest)) => Some(seq![v] + rest),
            _ => None,
        }
    }
}

/// One line of a substitution macro's body, expanded for a call.
pub open spec fn expand_line(line: Seq<char>, parts: Seq<Seq<char>>) -> Seq<char> {
    match subst_words(split(line, ' '), parts) {
        Some(ws) => join(ws, seq![' ']),
        None => "error: failed to get"@,
    }
}

/// What a built-in macro does with its arguments.
pub open spec fn spec_apply(st: PPState, inc: Map<Seq<char>, Seq<Seq<char>>>, f: MacroFunc, args: Seq<Seq<char>>) -> (PPState, Result<Seq<Seq<char>>, ErrorV>) {
    match f {
        MacroFunc::Defvar => spec_defvar(st, args),
        MacroFunc::Include => (st, spec_include(inc, args)),
        MacroFunc::Defmacro => spec_defmacro(st, args),
    }
}

/// Resolving one line: the state after it and the text it yields.
pub open spec fn spec_resolve(st: PPState, inc: Map<Seq<char>, Seq<Seq<char>>>, input: Seq<char>, fuel: nat) -> (PPState, Result<Seq<char>, ErrorV>)
    decreases fuel, 0nat, 0nat,
{
    let parts = split(input, ' ');
    let head = parts[0];
    if starts_with(head, ';') {
        (st, Ok(input))
    } else if starts_with(head, '.') {
        let name = head.skip(1);
        if !st.macros.contains_key(name) {
            (st, Err(ErrorV::UnknownToken(name)))
        } else if fuel == 0 {
            (st, Err(ErrorV::Unexpected("macro expansion nested too deeply"@)))
        } else {
            let (st1, lines) = match st.macros[name] {
                MacroV::Func(f) => {
                    let (s1, r) = spec_apply(st, inc, f, parts.skip(1));
                    (s1, match r {
                        Ok(ls) => Ok(ls),
                        Err(e) => Err(ErrorV::MacroEval(name, Box::new(e))),
                    })
                },
                MacroV::Subst(body) => (st, Ok(body.map_values(|l: Seq<char>| expand_line(l, parts)))),
            };
            match lines {
                Err(e) => (st1, Err(e)),
                Ok(ls) => {
                    let (st2, r) = spec_resolve_lines(st1, inc, ls, (fuel - 1) as nat);
                    (st2, match r {
                        Ok(outs) => Ok(join(outs, seq!['\n'])),
                        Err(e) => Err(e),
                    })
                },
            }
        }
    } else if starts_with(head, ':') {
        (PPState { vars: st.vars.insert(head.skip(1), decimal_text(2 * st.count as nat)), ..st }, Ok(Seq::empty()))
    } else {
        let count = if st.count == u32::MAX { st.count } else { (st.count + 1) as u32 };
        (PPState { count, ..st }, match spec_subst_vars(parts, st.vars) {
            Ok(ws) => Ok(join(ws, seq![' '])),
            Err(e) => Err(e),
        })
    }
}

/// Resolving lines in order, up to the first that fails.
pub open spec fn spec_resolve_lines(st: PPState, inc: Map<Seq<char>, Seq<Seq<char>>>, lines: Seq<Seq<char>>, fuel: nat) -> (PPState, Result<Seq<Seq<char>>, ErrorV>)
    decreases fuel, 1nat, lines.len(),
{
    if lines.len() == 0 {
        (st, Ok(Seq::empty()))
    } else {
        let (s1, r) = spec_resolve(st, inc, lines[0], fuel);
        match r {
            Err(e) => (s1, Err(e)),
            Ok(o) => {
                let (s2, r2) = spec_resolve_lines(s1, inc, lines.skip(1), fuel);
                (s2, match r2 {
                    Ok(os) => Ok(seq![o] + os),
                    Err(e) => Err(e),
                })
            },
        }
    }
}

/// `outs` put in front of the lines that a resolution yields.
pub open spec fn prepend(outs: Seq<Seq<char>>, res: (PPState, Result<Seq<Seq<char>>, ErrorV>)) -> (PPState, Result<Seq<Seq<char>>, ErrorV>) {
    (res.0, match res.1 {
        Ok(os) => Ok(outs + os),
        Err(e) => Err(e),
    })
}

/// Assembling a program from line `i` on: each line that is neither empty
/// nor a comment (starting with `;`) is resolved in turn, and the text of
/// each that yields any is kept, followed by a newline. The first line that
/// fails stops it, with the line's index.
pub open spec fn spec_assemble(st: PPState, inc: Map<Seq<char>, Seq<Seq<char>>>, lines: Seq<Seq<char>>, i: nat) -> (PPState, Result<Seq<char>, (nat, ErrorV)>)
    decreases lines.len() - i,
{
    if i >= lines.len() {
        (st, Ok(Seq::empty()))
    } else if lines[i as int].len() == 0 || lines[i as int][0] == ';' {
        spec_assemble(st, inc, lines, i + 1)
    } else {
        let (s1, r) = spec_resolve(st, inc, lines[i as int], MACRO_DEPTH as nat);
        match r {
            Err(e) => (s1, Err((i, e))),
            Ok(o) => {
                let text = if o.len() > 0 { o.push('\n') } else { Seq::empty() };
                let (s2, rest) = spec_assemble(s1, inc, lines, i + 1);
                (s2, match rest {
                    Ok(t) => Ok(text + t),
                    Err(e) => Err(e),
                })
            },
        }
    }
}

/// `text` put in front of what an assembly yields.
pub open spec fn prepend_text(text: Seq<char>, res: (PPState, Result<Seq<char>, (nat, ErrorV)>)) -> (PPState, Result<Seq<char>, (nat, ErrorV)>) {
    (res.0, match res.1 {
        Ok(t) => Ok(text + t),
        Err(e) => Err(e),
    })
}

/// What an assembly returns, as values.
pub open spec fn assembled_view(r: Result<String, (usize, Error)>) -> Result<Seq<char>, (nat, ErrorV)> {
    match r {
        Ok(t) => Ok(t@),
        Err((i, e)) => Err((i as nat, error_view(e))),
    }
}

pub struct PreProcessor {
    pub variables: StringHashMap<String>,
    pub macros: StringHashMap<Macro>,
    pub instruction_count: u32,
    /// The lines of the files that `.include` may name, by path.
    pub includes: StringHashMap<Vec<String>>,
}

/// A copy of a list of strings.
pub fn clone_strings(v: &Vec<String>) -> (r: Vec<String>)
    ensures
        r@ == v@,
{
    let mut r: Vec<String> = Vec::new();
    let mut i: usize = 0;
    while i < v.len()
        invariant
            i <= v@.len(),
            r@ == v@.take(i as int),
        decreases v.len() - i,
    {
        r.push(v[i].clone());
        i = i + 1;
        assert(r@ =~= v@.take(i as int));
    }
    assert(v@.take(v@.len() as int) =~= v@);
    r
}

fn clone_macro(m: &Macro) -> (r: Macro)
    ensures
        r@ == m@,
{
    match m {
        Macro::Func(f) => Macro::Func(*f),
        Macro::Subst(lines) => Macro::Subst(clone_strings(lines)),
    }
}

/// The characters of `cs` after the first.
fn chars_after_first(cs: &Vec<char>) -> (r: Vec<char>)
    requires
        cs@.len() > 0,
    ensures
        r@ == cs@.skip(1),
{
    let mut r: Vec<char> = Vec::new();
    let mut i: usize = 1;
    while i < cs.len()
        invariant
            1 <= i <= cs@.len(),
            r@ == cs@.subrange(1, i as int),
        decreases cs.len() - i,
    {
        r.push(cs[i]);
        i = i + 1;
        assert(r@ =~= cs@.subrange(1, i as int));
    }
    assert(cs@.subrange(1, cs@.len() as int) =~= cs@.skip(1));
    r
}

/// The words after the first.
fn words_after_first(parts: &Vec<String>) -> (r: Vec<String>)
    requires
        parts@.len() > 0,
    ensures
        strs(r@) == strs(parts@).skip(1),
{
    let mut r: Vec<String> = Vec::new();
    let mut i: usize = 1;
    while i < parts.len()
        invariant
            1 <= i <= parts@.len(),
            r@ == parts@.subrange(1, i as int),
        decreases parts.len() - i,
    {
        r.push(parts[i].clone());
        i = i + 1;
        assert(r@ =~= parts@.subrange(1, i as int));
    }
    assert(strs(parts@.subrange(1, parts@.len() as int)) =~= strs(parts@).skip(1));
    r
}

/// The number a word denotes as an argument index, if it denotes one.
fn parse_index_exec(w: &Vec<char>) -> (r: Option<u64>)
    ensures
        match r {
            Some(n) => parse_index(w@) == Some(n as nat) && n <= u32::MAX,
            None => parse_index(w@) is None,
        },
{
    let d = if w.len() > 0 && w[0] == '+' { chars_after_first(w) } else { clone_chars(w) };
    if d.len() == 0 {
        return None;
    }
    let s = string_of_chars(&d);
    crate::text::parse_decimal(s.as_str(), 0xffff_ffff)
}

fn clone_chars(w: &Vec<char>) -> (r: Vec<char>)
    ensures
        r@ == w@,
{
    let mut r: Vec<char> = Vec::new();
    let mut i: usize = 0;
    while i < w.len()
        invariant
            i <= w@.len(),
            r@ == w@.take(i as int),
        decreases w.len() - i,
    {
        r.push(w[i]);
        i = i + 1;
        assert(r@ =~= w@.take(i as int));
    }
    assert(w@.take(w@.len() as int) =~= w@);
    r
}

/// One line of a substitution macro's body, expanded for a call with the words `parts`.
pub fn expand_line_exec(line: &String, parts: &Vec<String>) -> (r: String)
    ensures
        r@ == expand_line(line@, strs(parts@)),
{
    let words = split_str(line.as_str(), ' ');
    let mut out: Vec<String> = Vec::new();
    let mut i: usize = 0;
    proof {
        assert(strs(words@).skip(0) =~= strs(words@));
        assert(strs(out@) =~= Seq::<Seq<char>>::empty());
        match subst_words(strs(words@), strs(parts@)) {
            Some(rest) => {
                assert(strs(out@) + rest =~= rest);
            },
            None => {},
        }
    }
    while i < words.len()
        invariant
            i <= words@.len(),
            strs(words@) == split(line@, ' '),
            subst_words(strs(words@), strs(parts@)) == match subst_words(strs(words@).skip(i as int), strs(parts@)) {
                Some(rest) => Some(strs(out@) + rest),
                None => None::<Seq<Seq<char>>>,
            },
        decreases words.len() - i,
    {
        let ghost ws = strs(words@).skip(i as int);
        proof {
            assert(ws[0] == words@[i as int]@);
            assert(ws.skip(1) =~= strs(words@).skip(i + 1));
        }
        let cs = str_chars(words[i].as_str());
        let mut replaced: Option<String> = Some(words[i].clone());
        if cs.len() > 0 && cs[0] == '!' {
            let rest = chars_after_first(&cs);
            match parse_index_exec(&rest) {
                Some(n) => {
                    if n + 1 < parts.len() as u64 {
                        replaced = Some(parts[(n + 1) as usize].clone());
                    } else {
                        replaced = None;
                    }
                },
                None => {},
            }
        }
        match replaced {
            Some(v) => {
                proof {
                    lemma_strs_push(out@, v);
                    assert(strs(out@.push(v)) + strs(words@).skip(i + 1) =~= strs(out@) + seq![v@] + strs(words@).skip(i + 1));
                    assert(strs(out@) + seq![v@] + strs(words@).skip(i + 1) =~= strs(out@) + (seq![v@] + strs(words@).skip(i + 1)));
                }
                out.push(v);
            },
            None => {
                proof {
                    assert(subst_arg(ws[0], strs(parts@)) is None);
                    assert(subst_words(ws, strs(parts@)) is None);
                    assert(subst_words(strs(words@), strs(parts@)) is None);
                    assert(strs(words@) == split(line@, ' '));
                    assert(expand_line(line@, strs(parts@)) == "error: failed to get"@);
                }
                return String::from_str("error: failed to get");
            },
        }
        i = i + 1;
    }
    proof {
        assert(strs(words@).skip(words@.len() as int) =~= Seq::<Seq<char>>::empty());
        assert(strs(out@) + Seq::<Seq<char>>::empty() =~= strs(out@));
        reveal_strlit(" ");
        assert(" "@ =~= seq![' ']);
    }
    join_strs(&out, " ")
}

/// The body of a substitution macro expanded for a call with the words `parts`.
pub fn expand_body(body: &Vec<String>, parts: &Vec<String>) -> (r: Vec<String>)
    ensures
        strs(r@) == strs(body@).map_values(|l: Seq<char>| expand_line(l, strs(parts@))),
{
    let mut r: Vec<String> = Vec::new();
    let mut i: usize = 0;
    while i < body.len()
        invariant
            i <= body@.len(),
            strs(r@) == strs(body@).take(i as int).map_values(|l: Seq<char>| expand_line(l, strs(parts@))),
        decreases body.len() - i,
    {
        let line = expand_line_exec(&body[i], parts);
        proof {
            lemma_strs_push(r@, line);
        }
        r.push(line);
        i = i + 1;
        proof {
            assert(strs(r@) =~= strs(body@).take(i as int).map_values(|l: Seq<char>| expand_line(l, strs(parts@))));
        }
    }
    proof {
        assert(strs(body@).take(body@.len() as int) =~= strs(body@));
    }
    r
}

impl PreProcessor {
    /// The abstract state: variables, macros and the instruction counter.
    pub open spec fn model(&self) -> PPState {
        PPState {
            vars: self.variables@.map_values(|v: String| v@),
            macros: self.macros@.map_values(|m: Macro| m@),
            count: self.instruction_count,
        }
    }

    /// The provided includes, by path.
    pub open spec fn included(&self) -> Map<Seq<char>, Seq<Seq<char>>> {
        self.includes@.map_values(|v: Vec<String>| strs(v@))
    }

    pub fn new() -> (pp: PreProcessor)
        ensures
            pp.model().vars == Map::<Seq<char>, Seq<char>>::empty(),
            pp.model().macros == Map::<Seq<char>, MacroV>::empty(),
            pp.model().count == 0,
            pp.included() == Map::<Seq<char>, Seq<Seq<char>>>::empty(),
    {
        let pp = PreProcessor {
            variables: StringHashMap::new(),
            macros: StringHashMap::new(),
            instruction_count: 0,
            includes: StringHashMap::new(),
        };
        proof {
            assert(pp.model().vars =~= Map::<Seq<char>, Seq<char>>::empty());
            assert(pp.model().macros =~= Map::<Seq<char>, MacroV>::empty());
            assert(pp.included() =~= Map::<Seq<char>, Seq<Seq<char>>>::empty());
        }
        pp
    }

    /// The value of a variable.
    pub fn get_variable(&self, name: &str) -> (r: Option<String>)
        ensures
            match r {
                Some(v) => self.model().vars.contains_key(name@) && v@ == self.model().vars[name@],
                None => !self.model().vars.contains_key(name@),
            },
    {
        match self.variables.get(name) {
            Some(v) => Some(v.clone()),
            None => None,
        }
    }

    /// Defines (or redefines) a variable.
    pub fn define_variable(&mut self, name: &str, value: &str)
        ensures
            final(self).model() == (PPState { vars: old(self).model().vars.insert(name@, value@), ..old(self).model() }),
            final(self).includes@ == old(self).includes@,
    {
        self.variables.insert(String::from_str(name), String::from_str(value));
        proof {
            assert(self.model().vars =~= old(self).model().vars.insert(name@, value@));
        }
    }

    /// The macro a name stands for.
    pub fn get_macro(&self, name: &str) -> (r: Option<&Macro>)
        ensures
            match r {
                Some(m) => self.model().macros.contains_key(name@) && m@ == self.model().macros[name@],
                None => !self.model().macros.contains_key(name@),
            },
    {
        self.macros.get(name)
    }

    /// Defines (or redefines) a built-in macro under a name.
    pub fn define_macro(&mut self, name: &str, value: MacroFunc)
        ensures
            final(self).model() == (PPState { macros: old(self).model().macros.insert(name@, MacroV::Func(value)), ..old(self).model() }),
            final(self).includes@ == old(self).includes@,
    {
        self.macros.insert(String::from_str(name), Macro::Func(value));
        proof {
            assert(self.model().macros =~= old(self).model().macros.insert(name@, MacroV::Func(value)));
        }
    }

    /// Defines (or redefines) a substitution macro with the given body lines.
    pub fn define_subst_macro(&mut self, name: &str, value: Vec<String>)
        ensures
            final(self).model() == (PPState { macros: old(self).model().macros.insert(name@, MacroV::Subst(strs(value@))), ..old(self).model() }),
            final(self).includes@ == old(self).includes@,
    {
        let ghost lines = strs(value@);
        self.macros.insert(String::from_str(name), Macro::Subst(value));
        proof {
            assert(self.model().macros =~= old(self).model().macros.insert(name@, MacroV::Subst(lines)));
        }
    }

    /// Provides the lines of a file that `.include` may name.
    pub fn provide_include(&mut self, path: &str, lines: Vec<String>)
        ensures
            final(self).model() == old(self).model(),
            final(self).included() == old(self).included().insert(path@, strs(lines@)),
    {
        let ghost ls = strs(lines@);
        self.includes.insert(String::from_str(path), lines);
        proof {
            assert(self.included() =~= old(self).included().insert(path@, ls));
        }
    }

    /// Resolves one line, with macro expansions nested at most `MACRO_DEPTH` deep.
    pub fn resolve(&mut self, input: &str) -> (r: Result<String, Error>)
        ensures
            (final(self).model(), result_view(r)) == spec_resolve(old(self).model(), old(self).included(), input@, MACRO_DEPTH as nat),
            final(self).includes@ == old(self).includes@,
    {
        self.resolve_within(input, MACRO_DEPTH)
    }

    /// Resolves one line, with macro expansions nested at most `fuel` deep.
    pub fn resolve_within(&mut self, input: &str, fuel: u32) -> (r: Result<String, Error>)
        ensures
            (final(self).model(), result_view(r)) == spec_resolve(old(self).model(), old(self).included(), input@, fuel as nat),
            final(self).includes@ == old(self).includes@,
        decreases fuel, 0nat,
    {
        let parts = split_str(input, ' ');
        proof {
            lemma_split_nonempty(input@, ' ');
            assert(strs(parts@)[0] == parts@[0]@);
        }
        let head = str_chars(parts[0].as_str());
        if head.len() > 0 && head[0] == ';' {
            return Ok(String::from_str(input));
        }
        if head.len() > 0 && head[0] == '.' {
            let name = string_of_chars(&chars_after_first(&head));
            let m = match self.get_macro(name.as_str()) {
                Some(m) => clone_macro(m),
                None => {
                    return Err(Error::UnknownToken(name));
                },
            };
            if fuel == 0 {
                return Err(Error::Unexpected(String::from_str("macro expansion nested too deeply")));
            }
            let lines = match m {
                Macro::Func(f) => {
                    let args = words_after_first(&parts);
                    match self.apply(f, args) {
                        Ok(ls) => ls,
                        Err(e) => {
                            return Err(Error::MacroEval(name, Box::new(e)));
                        },
                    }
                },
                Macro::Subst(body) => expand_body(&body, &parts),
            };
            let outs = match self.resolve_lines(&lines, fuel - 1) {
                Ok(outs) => outs,
                Err(e) => {
                    return Err(e);
                },
            };
            proof {
                reveal_strlit("\n");
                assert("\n"@ =~= seq!['\n']);
            }
            return Ok(join_strs(&outs, "\n"));
        }
        if head.len() > 0 && head[0] == ':' {
            let label = string_of_chars(&chars_after_first(&head));
            let offset = decimal_string(2 * (self.instruction_count as u64));
            self.define_variable(label.as_str(), offset.as_str());
            return Ok(String::new());
        }
        let st = self.subst_vars(&parts);
        self.instruction_count = self.instruction_count.saturating_add(1);
        match st {
            Ok(ws) => {
                proof {
                    reveal_strlit(" ");
                    assert(" "@ =~= seq![' ']);
                }
                Ok(join_strs(&ws, " "))
            },
            Err(e) => Err(e),
        }
    }

    /// Resolves lines in order, up to the first that fails.
    pub fn resolve_lines(&mut self, lines: &Vec<String>, fuel: u32) -> (r: Result<Vec<String>, Error>)
        ensures
            (final(self).model(), lines_view(r)) == spec_resolve_lines(old(self).model(), old(self).included(), strs(lines@), fuel as nat),
            final(self).includes@ == old(self).includes@,
        decreases fuel, 1nat,
    {
        let mut outs: Vec<String> = Vec::new();
        let mut i: usize = 0;
        proof {
            assert(strs(lines@).skip(0) =~= strs(lines@));
            assert(Seq::<Seq<char>>::empty() + strs(lines@) =~= strs(lines@));
        }
        while i < lines.len()
            invariant
                i <= lines@.len(),
                self.includes@ == old(self).includes@,
                spec_resolve_lines(old(self).model(), old(self).included(), strs(lines@), fuel as nat)
                    == prepend(strs(outs@), spec_resolve_lines(self.model(), self.included(), strs(lines@).skip(i as int), fuel as nat)),
            decreases lines.len() - i,
        {
            let ghost ls = strs(lines@).skip(i as int);
            proof {
                assert(ls[0] == lines@[i as int]@);
                assert(ls.skip(1) =~= strs(lines@).skip(i + 1));
            }
            let o = match self.resolve_within(lines[i].as_str(), fuel) {
                Ok(o) => o,
                Err(e) => {
                    return Err(e);
                },
            };
            proof {
                lemma_strs_push(outs@, o);
                let rest = spec_resolve_lines(self.model(), self.included(), strs(lines@).skip(i + 1), fuel as nat);
                match rest.1 {
                    Ok(os) => {
                        assert(strs(outs@) + (seq![o@] + os) =~= strs(outs@).push(o@) + os);
                    },
                    Err(_) => {},
                }
            }
            outs.push(o);
            i = i + 1;
        }
        proof {
            assert(strs(lines@).skip(lines@.len() as int) =~= Seq::<Seq<char>>::empty());
            assert(strs(outs@) + Seq::<Seq<char>>::empty() =~= strs(outs@));
        }
        Ok(outs)
    }

    /// Assembles a program: resolves its lines in order, skipping empty lines
    /// and comments, and gives the text of each line that yields any, each
    /// followed by a newline; or the index of the first line that fails, with
    /// its error.
    pub fn assemble(&mut self, lines: &Vec<String>) -> (r: Result<String, (usize, Error)>)
        ensures
            (final(self).model(), assembled_view(r)) == spec_assemble(old(self).model(), old(self).included(), strs(lines@), 0),
            final(self).includes@ == old(self).includes@,
    {
        let ghost ls = strs(lines@);
        let mut out = String::new();
        let mut i: usize = 0;
        proof {
            match spec_assemble(self.model(), self.included(), ls, 0).1 {
                Ok(t) => {
                    assert(Seq::<char>::empty() + t =~= t);
                },
                Err(_) => {},
            }
        }
        while i < lines.len()
            invariant
                i <= lines@.len(),
                ls == strs(lines@),
                self.includes@ == old(self).includes@,
                spec_assemble(old(self).model(), old(self).included(), ls, 0)
                    == prepend_text(out@, spec_assemble(self.model(), self.included(), ls, i as nat)),
            decreases lines.len() - i,
        {
            let line = str_chars(lines[i].as_str());
            proof {
                assert(ls[i as int] == lines@[i as int]@);
            }
            if line.len() == 0 || line[0] == ';' {
                i = i + 1;
                continue;
            }
            let ghost before = out@;
            let o = match self.resolve(lines[i].as_str()) {
                Ok(o) => o,
                Err(e) => {
                    return Err((i, e));
                },
            };
            let text = str_chars(o.as_str());
            if text.len() > 0 {
                push_str(&mut out, o.as_str());
                push_str(&mut out, "\n");
                proof {
                    reveal_strlit("\n");
                }
            }
            proof {
                let t = if o@.len() > 0 { o@.push('\n') } else { Seq::<char>::empty() };
                assert(out@ =~= before + t);
                let rest = spec_assemble(self.model(), self.included(), ls, (i + 1) as nat);
                match rest.1 {
                    Ok(x) => {
                        assert(before + (t + x) =~= out@ + x);
                    },
                    Err(_) => {},
                }
            }
            i = i + 1;
        }
        proof {
            assert(out@ + Seq::<char>::empty() =~= out@);
        }
        Ok(out)
    }

    /// Runs a built-in macro.
    fn apply(&mut self, f: MacroFunc, args: Vec<String>) -> (r: Result<Vec<String>, Error>)
        ensures
            (final(self).model(), lines_view(r)) == spec_apply(old(self).model(), old(self).included(), f, strs(args@)),
            final(self).includes@ == old(self).includes@,
    {
        match f {
            MacroFunc::Defvar => defvar(self, args),
            MacroFunc::Include => include_lines(self, args),
            MacroFunc::Defmacro => defmacro(self, args),
        }
    }

    /// The words of an instruction with each `!name` replaced by the variable's value.
    pub fn subst_vars(&self, parts: &Vec<String>) -> (r: Result<Vec<String>, Error>)
        ensures
            lines_view(r) == spec_subst_vars(strs(parts@), self.model().vars),
    {
        let mut out: Vec<String> = Vec::new();
        let mut i: usize = 0;
        proof {
            assert(strs(parts@).skip(0) =~= strs(parts@));
            assert(Seq::<Seq<char>>::empty() + strs(parts@) =~= strs(parts@));
        }
        while i < parts.len()
            invariant
                i <= parts@.len(),
                spec_subst_vars(strs(parts@), self.model().vars) == match spec_subst_vars(strs(parts@).skip(i as int), self.model().vars) {
                    Ok(rest) => Ok(strs(out@) + rest),
                    Err(e) => Err::<Seq<Seq<char>>, ErrorV>(e),
                },
            decreases parts.len() - i,
        {
            let ghost ws = strs(parts@).skip(i as int);
            proof {
                assert(ws[0] == parts@[i as int]@);
                assert(ws.skip(1) =~= strs(parts@).skip(i + 1));
            }
            let cs = str_chars(parts[i].as_str());
            let v = if cs.len() > 0 && cs[0] == '!' {
                let name = string_of_chars(&chars_after_first(&cs));
                match self.get_variable(name.as_str()) {
                    Some(v) => v,
                    None => {
                        return Err(Error::UnknownToken(name));
                    },
                }
            } else {
                parts[i].clone()
            };
            proof {
                lemma_strs_push(out@, v);
                match spec_subst_vars(strs(parts@).skip(i + 1), self.model().vars) {
                    Ok(rest) => {
                        assert(strs(out@) + (seq![v@] + rest) =~= strs(out@).push(v@) + rest);
                    },
                    Err(_) => {},
                }
            }
            out.push(v);
            i = i + 1;
        }
        proof {
            assert(strs(parts@).skip(parts@.len() as int) =~= Seq::<Seq<char>>::empty());
            assert(strs(out@) + Seq::<Seq<char>>::empty() =~= strs(out@));
        }
        Ok(out)
    }
}

/// A comment line is kept as it is and changes nothing.
pub proof fn law_comment_kept(st: PPState, inc: Map<Seq<char>, Seq<Seq<char>>>, line: Seq<char>, fuel: nat)
    requires
        line.len() > 0,
        line[0] == ';',
    ensures
        spec_resolve(st, inc, line, fuel) == (st, Ok::<Seq<char>, ErrorV>(line)),
{
    lemma_split_first(line, ' ');
}

/// An instruction that names a defined variable yields the variable's value.
pub proof fn law_variable_substituted(st: PPState, inc: Map<Seq<char>, Seq<Seq<char>>>, name: Seq<char>, fuel: nat)
    requires
        forall|i: int| 0 <= i < name.len() ==> name[i] != ' ',
        st.vars.contains_key(name),
    ensures
        spec_resolve(st, inc, seq!['!'] + name, fuel).1 == Ok::<Seq<char>, ErrorV>(st.vars[name]),
{
    let line = seq!['!'] + name;
    assert(forall|i: int| 0 <= i < line.len() ==> line[i] != ' ') by {
        assert forall|i: int| 0 <= i < line.len() implies line[i] != ' ' by {
            if i > 0 {
                assert(line[i] == name[i - 1]);
            }
        }
    }
    lemma_split_no_sep(line, ' ');
    let parts = seq![line];
    assert(line.skip(1) =~= name);
    assert(parts.skip(1) =~= Seq::<Seq<char>>::empty());
    assert(spec_subst_vars(parts.skip(1), st.vars) == Ok::<Seq<Seq<char>>, ErrorV>(Seq::empty()));
    assert(seq![st.vars[name]] + Seq::<Seq<char>>::empty() =~= seq![st.vars[name]]);
    assert(spec_subst_vars(parts, st.vars) == Ok::<Seq<Seq<char>>, ErrorV>(seq![st.vars[name]]));
}

/// A label, once defined, stands for the byte offset of the instruction that
/// follows it: two bytes for each instruction counted so far.
pub proof fn law_label_then_reference(st: PPState, inc: Map<Seq<char>, Seq<Seq<char>>>, label: Seq<char>, fuel: nat)
    requires
        forall|i: int| 0 <= i < label.len() ==> label[i] != ' ',
    ensures
        spec_resolve(st, inc, seq![':'] + label, fuel).1 == Ok::<Seq<char>, ErrorV>(Seq::empty()),
        spec_resolve(spec_resolve(st, inc, seq![':'] + label, fuel).0, inc, seq!['!'] + label, fuel).1
            == Ok::<Seq<char>, ErrorV>(decimal_text(2 * st.count as nat)),
{
    let line = seq![':'] + label;
    assert forall|i: int| 0 <= i < line.len() implies line[i] != ' ' by {
        if i > 0 {
            assert(line[i] == label[i - 1]);
        }
    }
    lemma_split_no_sep(line, ' ');
    assert(line.skip(1) =~= label);
    let st1 = spec_resolve(st, inc, line, fuel).0;
    assert(st1.vars == st.vars.insert(label, decimal_text(2 * st.count as nat)));
    law_variable_substituted(st1, inc, label, fuel);
}

/// After `.defvar name value`, an instruction that names the variable yields its value.
pub proof fn law_defvar_then_reference(st: PPState, inc: Map<Seq<char>, Seq<Seq<char>>>, name: Seq<char>, value: Seq<char>, fuel: nat)
    requires
        st.macros.contains_key("defvar"@),
        st.macros["defvar"@] == MacroV::Func(MacroFunc::Defvar),
        fuel > 0,
        forall|i: int| 0 <= i < name.len() ==> name[i] != ' ',
        forall|i: int| 0 <= i < value.len() ==> value[i] != ' ',
    ensures
        spec_resolve(st, inc, ".defvar"@ + seq![' '] + name + seq![' '] + value, fuel).1 == Ok::<Seq<char>, ErrorV>(Seq::empty()),
        spec_resolve(spec_resolve(st, inc, ".defvar"@ + seq![' '] + name + seq![' '] + value, fuel).0, inc, seq!['!'] + name, fuel).1
            == Ok::<Seq<char>, ErrorV>(value),
{
    reveal_strlit(".defvar");
    reveal_strlit("defvar");
    let head = ".defvar"@;
    let line = head + seq![' '] + name + seq![' '] + value;
    assert forall|i: int| 0 <= i < head.len() implies head[i] != ' ' by {}
    lemma_split_no_sep(head, ' ');
    lemma_split_no_sep(name, ' ');
    lemma_split_no_sep(value, ' ');
    lemma_split_concat(head, name, ' ');
    lemma_split_concat(head + seq![' '] + name, value, ' ');
    let parts = split(line, ' ');
    assert(parts =~= seq![head, name, value]);
    assert(head.skip(1) =~= "defvar"@);
    assert(parts.skip(1) =~= seq![name, value]);
    let st1 = PPState { vars: st.vars.insert(name, value), ..st };
    assert(spec_apply(st, inc, MacroFunc::Defvar, parts.skip(1)) == (st1, Ok::<Seq<Seq<char>>, ErrorV>(Seq::empty())));
    assert(spec_resolve_lines(st1, inc, Seq::empty(), (fuel - 1) as nat) == (st1, Ok::<Seq<Seq<char>>, ErrorV>(Seq::empty())));
    assert(join(Seq::<Seq<char>>::empty(), seq!['\n']) == Seq::<char>::empty());
    assert(spec_resolve(st, inc, line, fuel) == (st1, Ok::<Seq<char>, ErrorV>(Seq::empty())));
    law_variable_substituted(st1, inc, name, fuel);
}

proof fn lemma_subst_vars_plain(words: Seq<Seq<char>>, vars: Map<Seq<char>, Seq<char>>)
    requires
        forall|k: int| 0 <= k < words.len() ==> !starts_with(#[trigger] words[k], '!'),
    ensures
        spec_subst_vars(words, vars) == Ok::<Seq<Seq<char>>, ErrorV>(words),
    decreases words.len(),
{
    if words.len() > 0 {
        assert(!starts_with(words[0], '!'));
        assert forall|k: int| 0 <= k < words.skip(1).len() implies !starts_with(#[trigger] words.skip(1)[k], '!') by {
            assert(words.skip(1)[k] == words[k + 1]);
        }
        lemma_subst_vars_plain(words.skip(1), vars);
        assert(seq![words[0]] + words.skip(1) =~= words);
    } else {
        assert(words =~= Seq::<Seq<char>>::empty());
    }
}

/// An instruction line that names no variable is passed on as it is, and
/// counts one more instruction.
pub proof fn law_plain_instruction_kept(st: PPState, inc: Map<Seq<char>, Seq<Seq<char>>>, line: Seq<char>, fuel: nat)
    requires
        !starts_with(split(line, ' ')[0], ';'),
        !starts_with(split(line, ' ')[0], '.'),
        !starts_with(split(line, ' ')[0], ':'),
        forall|k: int| 0 <= k < split(line, ' ').len() ==> !starts_with(#[trigger] split(line, ' ')[k], '!'),
    ensures
        spec_resolve(st, inc, line, fuel).1 == Ok::<Seq<char>, ErrorV>(line),
        spec_resolve(st, inc, line, fuel).0.count == if st.count == u32::MAX { st.count } else { (st.count + 1) as u32 },
        spec_resolve(st, inc, line, fuel).0.vars == st.vars,
{
    lemma_subst_vars_plain(split(line, ' '), st.vars);
    crate::words::law_join_split(line, ' ');
}

/// In a macro's body, `!n` stands for argument `n` of the call (the word
/// after the macro's name counts as argument zero), and a call without that
/// argument fails; words that do not start with `!` stay as they are.
pub proof fn law_macro_argument(n: nat, w: Seq<char>, parts: Seq<Seq<char>>)
    requires
        n <= u32::MAX,
    ensures
        subst_arg(seq!['!'] + decimal_text(n), parts) == if n + 1 < parts.len() { Some(parts[n + 1 as int]) } else { None::<Seq<char>> },
        !starts_with(w, '!') ==> subst_arg(w, parts) == Some(w),
{
    let t = decimal_text(n);
    crate::words::law_decimal_reads_back(n);
    assert((seq!['!'] + t).skip(1) =~= t);
    assert(t[0] != '+') by {
        assert(48 <= (t[0] as u32) <= 57);
    }
}

} // verus!
