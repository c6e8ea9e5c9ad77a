//! The machine's registers and status flags.
use vstd::prelude::*;

use crate::text::push_str;

verus! {

#[derive(Debug, Clone, Copy, PartialEq, Eq, Structural)]
pub enum Register {
    A,
    B,
    C,
    M,
    SP,
    PC,
    BP,
    Flags,
}

/// The register with number `i`, if any.
pub open spec fn spec_register_of(i: u8) -> Option<Register> {
    if i == 0 { Some(Register::A) }
    else if i == 1 { Some(Register::B) }
    else if i == 2 { Some(Register::C) }
    else if i == 3 { Some(Register::M) }
    else if i == 4 { Some(Register::SP) }
    else if i == 5 { Some(Register::PC) }
    else if i == 6 { Some(Register::BP) }
    else if i == 7 { Some(Register::Flags) }
    else { None }
}

/// The register's number, in declaration order.
pub open spec fn spec_index(r: Register) -> u8 {
    match r {
        Register::A => 0,
        Register::B => 1,
        Register::C => 2,
        Register::M => 3,
        Register::SP => 4,
        Register::PC => 5,
        Register::BP => 6,
        Register::Flags => 7,
    }
}

/// The register's name as written in assembly.
pub open spec fn spec_register_name(r: Register) -> Seq<char> {
    match r {
        Register::A => seq!['A'],
        Register::B => seq!['B'],
        Register::C => seq!['C'],
        Register::M => seq!['M'],
        Register::SP => seq!['S', 'P'],
        Register::PC => seq!['P', 'C'],
        Register::BP => seq!['B', 'P'],
        Register::Flags => seq!['F', 'l', 'a', 'g', 's'],
    }
}

/// The register a name stands for in assembly.
pub open spec fn spec_register_named(s: Seq<char>) -> Option<Register> {
    if s == seq!['A'] { Some(Register::A) }
    else if s == seq!['B'] { Some(Register::B) }
    else if s == seq!['C'] { Some(Register::C) }
    else if s == seq!['M'] { Some(Register::M) }
    else if s == seq!['S', 'P'] { Some(Register::SP) }
    else if s == seq!['P', 'C'] { Some(Register::PC) }
    else if s == seq!['B', 'P'] { Some(Register::BP) }
    else if s == seq!['F', 'l', 'a', 'g', 's'] { Some(Register::Flags) }
    else { None }
}

/// Reading a register's name gives the register back.
pub proof fn law_name_reads_back(r: Register)
    ensures
        spec_register_named(spec_register_name(r)) == Some(r),
{
    let n = spec_register_name(r);
    let names = seq![seq!['A'], seq!['B'], seq!['C'], seq!['M'], seq!['S', 'P'], seq!['P', 'C'], seq!['B', 'P'],
        seq!['F', 'l', 'a', 'g', 's']];
    assert(names[spec_index(r) as int] == n);
    assert forall|j: int| 0 <= j < 8 && j != spec_index(r) implies names[j] != n by {
        assert(names[j].len() != n.len() || names[j][0] != n[0] || names[j][1] != n[1]);
    }
}

/// A register's number names it back, and exactly the numbers below eight
/// name registers, each the register with that number.
pub proof fn law_number_reads_back(r: Register, i: u8)
    ensures
        spec_register_of(spec_index(r)) == Some(r),
        spec_register_of(i) is Some <==> i < 8,
        spec_register_of(i) matches Some(q) ==> spec_index(q) == i,
{
}

/// Whether the characters of `w` are those of the string literal `lit`.
fn chars_are(w: &Vec<char>, lit: &str) -> (r: bool)
    ensures
        r == (w@ == lit@),
{
    let l = crate::text::str_chars(lit);
    if w.len() != l.len() {
        return false;
    }
    let mut i: usize = 0;
    while i < w.len()
        invariant
            w@.len() == l@.len(),
            l@ == lit@,
            i <= w@.len(),
            forall|j: int| 0 <= j < i ==> w@[j] == l@[j],
        decreases w.len() - i,
    {
        if w[i] != l[i] {
            return false;
        }
        i = i + 1;
    }
    assert(w@ =~= l@);
    true
}

impl Register {
    /// The register with number `value`.
    pub fn from_u8(value: u8) -> (r: Option<Register>)
        ensures
            r == spec_register_of(value),
    {
        if value == 0 { Some(Register::A) }
        else if value == 1 { Some(Register::B) }
        else if value == 2 { Some(Register::C) }
        else if value == 3 { Some(Register::M) }
        else if value == 4 { Some(Register::SP) }
        else if value == 5 { Some(Register::PC) }
        else if value == 6 { Some(Register::BP) }
        else if value == 7 { Some(Register::Flags) }
        else { None }
    }

    /// The register's number.
    pub fn index(&self) -> (i: u8)
        ensures
            i == spec_index(*self),
            i < 8,
    {
        match self {
            Register::A => 0,
            Register::B => 1,
            Register::C => 2,
            Register::M => 3,
            Register::SP => 4,
            Register::PC => 5,
            Register::BP => 6,
            Register::Flags => 7,
        }
    }

    /// The register's name as written in assembly.
    pub fn name(&self) -> (s: &'static str)
        ensures
            s@ == spec_register_name(*self),
    {
        match self {
            Register::A => { proof { reveal_strlit("A"); } "A" },
            Register::B => { proof { reveal_strlit("B"); } "B" },
            Register::C => { proof { reveal_strlit("C"); } "C" },
            Register::M => { proof { reveal_strlit("M"); } "M" },
            Register::SP => { proof { reveal_strlit("SP"); } "SP" },
            Register::PC => { proof { reveal_strlit("PC"); } "PC" },
            Register::BP => { proof { reveal_strlit("BP"); } "BP" },
            Register::Flags => { proof { reveal_strlit("Flags"); } "Flags" },
        }
    }

    /// Reads a register name; an unknown name is an error that names it.
    pub fn parse(s: &str) -> (r: Result<Register, String>)
        ensures
            match spec_register_named(s@) {
                Some(reg) => r == Ok::<Register, String>(reg),
                None => r is Err && r->Err_0@ == "unknown register: "@ + s@,
            },
    {
        proof {
            reveal_strlit("A");
            reveal_strlit("B");
            reveal_strlit("C");
            reveal_strlit("M");
            reveal_strlit("SP");
            reveal_strlit("PC");
            reveal_strlit("BP");
            reveal_strlit("Flags");
        }
        assert("SP"@ =~= seq!['S', 'P']);
        assert("PC"@ =~= seq!['P', 'C']);
        assert("BP"@ =~= seq!['B', 'P']);
        assert("Flags"@ =~= seq!['F', 'l', 'a', 'g', 's']);
        assert("A"@ =~= seq!['A']);
        assert("B"@ =~= seq!['B']);
        assert("C"@ =~= seq!['C']);
        assert("M"@ =~= seq!['M']);
        let w = crate::text::str_chars(s);
        if chars_are(&w, "A") { Ok(Register::A) }
        else if chars_are(&w, "B") { Ok(Register::B) }
        else if chars_are(&w, "C") { Ok(Register::C) }
        else if chars_are(&w, "M") { Ok(Register::M) }
        else if chars_are(&w, "SP") { Ok(Register::SP) }
        else if chars_are(&w, "PC") { Ok(Register::PC) }
        else if chars_are(&w, "BP") { Ok(Register::BP) }
        else if chars_are(&w, "Flags") { Ok(Register::Flags) }
        else {
            let mut m = String::from_str("unknown register: ");
            push_str(&mut m, s);
            Err(m)
        }
    }
}

impl core::str::FromStr for Register {
    type Err = String;

    /// Reads a register name, as `Register::parse` does.
    fn from_str(s: &str) -> (r: Result<Register, String>)
        ensures
            match spec_register_named(s@) {
                Some(reg) => r == Ok::<Register, String>(reg),
                None => r is Err && r->Err_0@ == "unknown register: "@ + s@,
            },
    {
        Register::parse(s)
    }
}

/// Status flags kept by the machine.
#[derive(Debug, Clone, Copy, PartialEq, Eq, Structural)]
pub enum Flag {
    /// The last test succeeded.
    Compare,
    /// The current instruction set the program counter.
    HasJumped,
}

/// The bit of the flags word that holds the flag.
pub open spec fn spec_flag_bit(f: Flag) -> u16 {
    match f {
        Flag::Compare => 1,
        Flag::HasJumped => 2,
    }
}

impl Flag {
    pub fn bit(&self) -> (b: u16)
        ensures
            b == spec_flag_bit(*self),
    {
        match self {
            Flag::Compare => 1,
            Flag::HasJumped => 2,
        }
    }
}

} // verus!
