//! The built-in macros of the preprocessor.
use vstd::prelude::*;

use super::{clone_strings, Error, ErrorV, MacroFunc, MacroV, PPState, PreProcessor};
use crate::words::{join, join_strs, lemma_strs_push, strs};
use crate::text::str_chars;

verus! {

/// `.defvar <name> <value>` defines a variable.
pub open spec fn spec_defvar(st: PPState, args: Seq<Seq<char>>) -> (PPState, Result<Seq<Seq<char>>, ErrorV>) {
    if args.len() != 2 {
        (st, Err(ErrorV::BadMacroFormat(".defvar <name> <value>"@)))
    } else {
        (PPState { vars: st.vars.insert(args[0], args[1]), ..st }, Ok(Seq::empty()))
    }
}

/// `.include <path>` yields the lines of the file at `path`.
pub open spec fn spec_include(inc: Map<Seq<char>, Seq<Seq<char>>>, args: Seq<Seq<char>>) -> Result<Seq<Seq<char>>, ErrorV> {
    if args.len() != 1 {
        Err(ErrorV::BadMacroFormat(".include <path>"@))
    } else if inc.contains_key(args[0]) {
        Ok(inc[args[0]])
    } else {
        Err(ErrorV::MissingInclude(args[0]))
    }
}

/// The body lines of a substitution macro: the words after the name, a line
/// ending at each `/` word; a last line that has no words is left out.
pub open spec fn body_lines(tokens: Seq<Seq<char>>, current: Seq<Seq<char>>) -> Seq<Seq<char>>
    decreases tokens.len(),
{
    if tokens.len() == 0 {
        if current.len() > 0 {
            seq![join(current, seq![' '])]
        } else {
            Seq::empty()
        }
    } else if tokens[0] == seq!['/'] {
        seq![join(current, seq![' '])] + body_lines(tokens.skip(1), Seq::empty())
    } else {
        body_lines(tokens.skip(1), current.push(tokens[0]))
    }
}

/// `.defmacro <name> <body>` defines a substitution macro.
pub open spec fn spec_defmacro(st: PPState, args: Seq<Seq<char>>) -> (PPState, Result<Seq<Seq<char>>, ErrorV>) {
    if args.len() == 0 {
        (st, Err(ErrorV::BadMacroFormat(".defmacro <name> <body>"@)))
    } else {
        (PPState { macros: st.macros.insert(args[0], MacroV::Subst(body_lines(args.skip(1), Seq::empty()))), ..st }, Ok(Seq::empty()))
    }
}

/// Registers the built-in macros under their names.
pub fn setup_std_macros(pp: &mut PreProcessor)
    ensures
        final(pp).model() == (PPState {
            macros: old(pp).model().macros.insert("defvar"@, MacroV::Func(MacroFunc::Defvar)).insert(
                "include"@, MacroV::Func(MacroFunc::Include)).insert("defmacro"@, MacroV::Func(MacroFunc::Defmacro)),
            ..old(pp).model()
        }),
        final(pp).includes@ == old(pp).includes@,
{
    pp.define_macro("defvar", MacroFunc::Defvar);
    pp.define_macro("include", MacroFunc::Include);
    pp.define_macro("defmacro", MacroFunc::Defmacro);
}

pub fn defvar(pp: &mut PreProcessor, input: Vec<String>) -> (r: Result<Vec<String>, Error>)
    ensures
        (final(pp).model(), super::lines_view(r)) == spec_defvar(old(pp).model(), strs(input@)),
        final(pp).includes@ == old(pp).includes@,
{
    if input.len() != 2 {
        return Err(Error::BadMacroFormat(String::from_str(".defvar <name> <value>")));
    }
    pp.define_variable(input[0].as_str(), input[1].as_str());
    let r: Vec<String> = Vec::new();
    proof {
        assert(strs(r@) =~= Seq::<Seq<char>>::empty());
    }
    Ok(r)
}

/// Like `defvar`, with no usage text in its error.
pub fn macro_defvar(pp: &mut PreProcessor, input: Vec<String>) -> (r: Result<Vec<String>, Error>)
    ensures
        input@.len() != 2 ==> final(pp).model() == old(pp).model() && super::lines_view(r) == Err::<Seq<Seq<char>>, ErrorV>(ErrorV::BadMacroFormat(Seq::empty())),
        input@.len() == 2 ==> (final(pp).model(), super::lines_view(r)) == spec_defvar(old(pp).model(), strs(input@)),
        final(pp).includes@ == old(pp).includes@,
{
    if input.len() != 2 {
        return Err(Error::BadMacroFormat(String::new()));
    }
    defvar(pp, input)
}

pub fn include_lines(pp: &mut PreProcessor, input: Vec<String>) -> (r: Result<Vec<String>, Error>)
    ensures
        final(pp).model() == old(pp).model(),
        final(pp).includes@ == old(pp).includes@,
        super::lines_view(r) == spec_include(old(pp).included(), strs(input@)),
{
    if input.len() != 1 {
        return Err(Error::BadMacroFormat(String::from_str(".include <path>")));
    }
    match pp.includes.get(input[0].as_str()) {
        Some(lines) => Ok(clone_strings(lines)),
        None => Err(Error::MissingInclude(input[0].clone())),
    }
}

/// Whether a word is the line separator `/` of a macro body.
fn is_line_break(w: &String) -> (r: bool)
    ensures
        r == (w@ == seq!['/']),
{
    let cs = str_chars(w.as_str());
    let r = cs.len() == 1 && cs[0] == '/';
    assert(r ==> cs@ =~= seq!['/']);
    r
}

pub fn defmacro(pp: &mut PreProcessor, input: Vec<String>) -> (r: Result<Vec<String>, Error>)
    ensures
        (final(pp).model(), super::lines_view(r)) == spec_defmacro(old(pp).model(), strs(input@)),
        final(pp).includes@ == old(pp).includes@,
{
    if input.len() == 0 {
        return Err(Error::BadMacroFormat(String::from_str(".defmacro <name> <body>")));
    }
    let ghost toks = strs(input@).skip(1);
    let mut lines: Vec<String> = Vec::new();
    let mut current: Vec<String> = Vec::new();
    let mut k: usize = 1;
    proof {
        assert(toks.skip(0) =~= toks);
        assert(Seq::<Seq<char>>::empty() + toks =~= toks);
        assert(strs(current@) =~= Seq::<Seq<char>>::empty());
        assert(strs(lines@) + body_lines(toks, Seq::empty()) =~= body_lines(toks, Seq::empty()));
    }
    while k < input.len()
        invariant
            1 <= k <= input@.len(),
            toks == strs(input@).skip(1),
            body_lines(toks, Seq::empty()) == strs(lines@) + body_lines(toks.skip(k - 1), strs(current@)),
        decreases input.len() - k,
    {
        let ghost ts = toks.skip(k - 1);
        proof {
            assert(ts[0] == input@[k as int]@);
            assert(ts.skip(1) =~= toks.skip(k as int));
        }
        if !is_line_break(&input[k]) {
            let w = input[k].clone();
            proof {
                lemma_strs_push(current@, w);
            }
            current.push(w);
        } else {
            let l = join_strs(&current, " ");
            proof {
                reveal_strlit(" ");
                assert(" "@ =~= seq![' ']);
                lemma_strs_push(lines@, l);
                assert(strs(lines@) + (seq![l@] + body_lines(toks.skip(k as int), Seq::empty()))
                    =~= strs(lines@).push(l@) + body_lines(toks.skip(k as int), Seq::empty()));
            }
            lines.push(l);
            current = Vec::new();
            proof {
                assert(strs(current@) =~= Seq::<Seq<char>>::empty());
            }
        }
        k = k + 1;
    }
    proof {
        assert(toks.skip(k - 1) =~= Seq::<Seq<char>>::empty());
    }
    if current.len() > 0 {
        let l = join_strs(&current, " ");
        proof {
            reveal_strlit(" ");
            assert(" "@ =~= seq![' ']);
            lemma_strs_push(lines@, l);
            assert(strs(lines@) + seq![l@] =~= strs(lines@).push(l@));
        }
        lines.push(l);
    } else {
        proof {
            assert(strs(lines@) + Seq::<Seq<char>>::empty() =~= strs(lines@));
        }
    }
    pp.define_subst_macro(input[0].as_str(), lines);
    let r: Vec<String> = Vec::new();
    proof {
        assert(strs(r@) =~= Seq::<Seq<char>>::empty());
    }
    Ok(r)
}

} // verus!
