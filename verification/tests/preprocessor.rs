use lib::pp::macros::{defmacro, defvar, include_lines, macro_defvar, setup_std_macros};
use lib::pp::{expand_line_exec, Error, Macro, MacroFunc, PreProcessor};

fn strings(v: &[&str]) -> Vec<String> {
    v.iter().map(|s| s.to_string()).collect()
}

fn std_pp() -> PreProcessor {
    let mut pp = PreProcessor::new();
    setup_std_macros(&mut pp);
    pp
}

fn ok(pp: &mut PreProcessor, line: &str) -> String {
    match pp.resolve(line) {
        Ok(s) => s,
        Err(e) => panic!("{}", e.to_text()),
    }
}

#[test]
fn pp_comment_kept() {
    let mut pp = std_pp();
    assert_eq!(ok(&mut pp, "; a comment !x"), "; a comment !x");
    assert_eq!(pp.instruction_count, 0);
}

#[test]
fn pp_instruction_passes_through() {
    let mut pp = PreProcessor::new();
    assert_eq!(ok(&mut pp, "push 1"), "push 1");
    assert_eq!(ok(&mut pp, "add  a"), "add  a");
    assert_eq!(ok(&mut pp, ""), "");
    assert_eq!(pp.instruction_count, 3);
}

#[test]
fn pp_variable_substitution() {
    let mut pp = PreProcessor::new();
    pp.define_variable("x", "5");
    assert_eq!(ok(&mut pp, "push !x"), "push 5");
    assert_eq!(pp.get_variable("x"), Some("5".to_string()));
    assert_eq!(pp.get_variable("y"), None);
}

#[test]
fn pp_unknown_variable() {
    let mut pp = PreProcessor::new();
    match pp.resolve("push !y") {
        Err(Error::UnknownToken(t)) => assert_eq!(t, "y"),
        _ => panic!("expected an unknown token"),
    }
    // the instruction is counted even though it failed
    assert_eq!(pp.instruction_count, 1);
}

#[test]
fn pp_label_offset() {
    let mut pp = PreProcessor::new();
    assert_eq!(ok(&mut pp, "nop"), "nop");
    assert_eq!(ok(&mut pp, "nop"), "nop");
    assert_eq!(ok(&mut pp, ":loop"), "");
    assert_eq!(ok(&mut pp, "jmp !loop"), "jmp 4");
}

#[test]
fn pp_defvar_macro() {
    let mut pp = std_pp();
    assert_eq!(ok(&mut pp, ".defvar x 7"), "");
    assert_eq!(ok(&mut pp, "push !x"), "push 7");
}

#[test]
fn pp_defvar_bad_format() {
    let mut pp = std_pp();
    let e = pp.resolve(".defvar x").err().unwrap();
    match &e {
        Error::MacroEval(name, inner) => {
            assert_eq!(name, "defvar");
            assert!(matches!(&**inner, Error::BadMacroFormat(u) if u == ".defvar <name> <value>"));
        }
        _ => panic!("expected a macro error"),
    }
    assert_eq!(e.to_text(), "eval macro defvar: usage: .defvar <name> <value>");
}

#[test]
fn pp_defmacro_substitution() {
    let mut pp = std_pp();
    assert_eq!(ok(&mut pp, ".defmacro inc push !0 / add"), "");
    assert_eq!(ok(&mut pp, ".inc 5"), "push 5\nadd");
    assert_eq!(pp.instruction_count, 2);
    match pp.get_macro("inc") {
        Some(Macro::Subst(lines)) => assert_eq!(lines, &strings(&["push !0", "add"])),
        _ => panic!("expected a substitution macro"),
    }
}

#[test]
fn pp_defmacro_empty_lines() {
    let mut pp = PreProcessor::new();
    let r = defmacro(&mut pp, strings(&["m", "/", "/", "a", "b"]));
    assert!(matches!(r, Ok(ref v) if v.is_empty()));
    match pp.get_macro("m") {
        Some(Macro::Subst(lines)) => assert_eq!(lines, &strings(&["", "", "a b"])),
        _ => panic!("expected a substitution macro"),
    }
    assert!(matches!(defmacro(&mut pp, Vec::new()), Err(Error::BadMacroFormat(ref u)) if u == ".defmacro <name> <body>"));
}

#[test]
fn pp_subst_missing_argument() {
    let mut pp = std_pp();
    ok(&mut pp, ".defmacro two push !1 / pop");
    assert_eq!(ok(&mut pp, ".two a b"), "push b\npop");
    assert_eq!(ok(&mut pp, ".two a"), "error: failed to get\npop");
    assert_eq!(ok(&mut pp, ".two a +1"), "push +1\npop");
}

#[test]
fn pp_subst_index_forms() {
    let line = "!+0 !0x ! !1".to_string();
    assert_eq!(expand_line_exec(&line, &strings(&[".m", "q", "r"])), "q !0x ! r");
    let mut pp = std_pp();
    ok(&mut pp, ".defmacro m !+0 !0x");
    assert!(matches!(pp.resolve(".m q"), Err(Error::UnknownToken(ref t)) if t == "0x"));
}

#[test]
fn pp_unknown_macro() {
    let mut pp = std_pp();
    assert!(matches!(pp.resolve(".nope 1"), Err(Error::UnknownToken(ref t)) if t == "nope"));
}

#[test]
fn pp_include_lines() {
    let mut pp = std_pp();
    let e = pp.resolve(".include lib.asm").err().unwrap();
    assert_eq!(e.missing_include(), Some("lib.asm".to_string()));
    pp.provide_include("lib.asm", strings(&["push 1", "; c", ".defvar k 3"]));
    assert_eq!(ok(&mut pp, ".include lib.asm"), "push 1\n; c\n");
    assert_eq!(ok(&mut pp, "push !k"), "push 3");
    let bad = include_lines(&mut pp, strings(&["a", "b"]));
    assert!(matches!(bad, Err(Error::BadMacroFormat(ref u)) if u == ".include <path>"));
}

#[test]
fn pp_nested_too_deep() {
    let mut pp = std_pp();
    ok(&mut pp, ".defmacro again .again");
    assert!(matches!(pp.resolve_within(".again", 64), Err(Error::Unexpected(ref m)) if m == "macro expansion nested too deeply"));
    let e = pp.resolve_within(".again", 0).err().unwrap();
    assert_eq!(e.missing_include(), None);
}

#[test]
fn pp_define_macro_func() {
    let mut pp = PreProcessor::new();
    pp.define_macro("set", MacroFunc::Defvar);
    assert_eq!(ok(&mut pp, ".set v 9"), "");
    assert_eq!(ok(&mut pp, "!v"), "9");
    pp.define_subst_macro("two", strings(&["a", "b"]));
    assert_eq!(ok(&mut pp, ".two"), "a\nb");
}

#[test]
fn pp_macro_functions_direct() {
    let mut pp = PreProcessor::new();
    assert!(matches!(defvar(&mut pp, strings(&["a", "1"])), Ok(ref v) if v.is_empty()));
    assert_eq!(pp.get_variable("a"), Some("1".to_string()));
    assert!(matches!(macro_defvar(&mut pp, strings(&["a"])), Err(Error::BadMacroFormat(ref u)) if u.is_empty()));
    assert!(matches!(macro_defvar(&mut pp, strings(&["b", "2"])), Ok(_)));
    assert_eq!(pp.get_variable("b"), Some("2".to_string()));
}

#[test]
fn pp_error_texts() {
    let e = Error::MacroEval("m".to_string(), Box::new(Error::UnknownToken("t".to_string())));
    assert_eq!(e.to_text(), "eval macro m: unknown token: t");
    assert_eq!(Error::Io("disk".to_string()).to_text(), "disk");
    assert_eq!(Error::MissingInclude("p".to_string()).to_text(), "no lines provided for include: p");
}
