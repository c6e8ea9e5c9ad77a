//! The instruction set and its 16-bit encoding.
//!
//! ```text
//! 0 0 0 0 0 0 0 0 | 0 0 0 0 0 0 0 0
//! OPERATOR        | ARG/S
//!                 | 8bit literal
//!                 | REG1  | REG2
//! ```
//! The operator is the low byte of the word, the argument the high byte.
use vstd::prelude::*;

use crate::register::{spec_index, spec_register_of, spec_register_name, Register};
use crate::text::{parse_decimal, push_str, str_chars};

verus! {

#[derive(Debug, Clone, Copy, PartialEq, Eq, Structural)]
pub enum Instruction {
    Nop,
    Push(u8),
    PopRegister(Register),
    PushRegister(Register),
    AddStack,
    AddRegister(Register, Register),
    SubStack,
    SubRegister(Register, Register),
    Signal(u8),
}

/// Why a word does not decode to an instruction.
#[derive(Debug, Clone, Copy, PartialEq, Eq, Structural)]
pub enum DecodeError {
    UnknownOpcode(u8),
    InvalidRegister(u8),
}

/// Why a line of assembly is not an instruction.
#[derive(Debug, PartialEq, Eq)]
pub enum InstructionParseError {
    NoContent,
    Fail(String),
}

impl From<String> for InstructionParseError {
    fn from(s: String) -> (e: Self) {
        Self::Fail(s)
    }
}

impl vstd::std_specs::convert::FromSpecImpl<String> for InstructionParseError {
    open spec fn obeys_from_spec() -> bool {
        true
    }

    open spec fn from_spec(s: String) -> Self {
        Self::Fail(s)
    }
}

/// The operator byte of each instruction.
pub open spec fn spec_opcode(i: Instruction) -> u8 {
    match i {
        Instruction::Nop => 0x0,
        Instruction::Push(_) => 0x1,
        Instruction::PopRegister(_) => 0x2,
        Instruction::PushRegister(_) => 0x3,
        Instruction::AddStack => 0x20,
        Instruction::AddRegister(_, _) => 0x21,
        Instruction::SubStack => 0x22,
        Instruction::SubRegister(_, _) => 0x23,
        Instruction::Signal(_) => 0xf0,
    }
}

/// The argument byte of each instruction.
pub open spec fn spec_argument(i: Instruction) -> u8 {
    match i {
        Instruction::Push(v) => v,
        Instruction::PopRegister(r) => spec_index(r),
        Instruction::PushRegister(r) => spec_index(r),
        Instruction::AddRegister(a, b) => (spec_index(a) + 16 * spec_index(b)) as u8,
        Instruction::SubRegister(a, b) => (spec_index(a) + 16 * spec_index(b)) as u8,
        Instruction::Signal(v) => v,
        _ => 0,
    }
}

/// The 16-bit encoding of an instruction.
pub open spec fn spec_encode(i: Instruction) -> u16 {
    ((spec_opcode(i) as int) + 256 * (spec_argument(i) as int)) as u16
}

/// The register pair held in an argument byte: low nibble first.
pub open spec fn spec_register_pair(arg: u8) -> Option<(Register, Register)> {
    match (spec_register_of(arg % 16), spec_register_of(arg / 16)) {
        (Some(a), Some(b)) => Some((a, b)),
        _ => None,
    }
}

/// The instruction a word encodes.
pub open spec fn spec_decode(w: u16) -> Result<Instruction, DecodeError> {
    let op = (w % 256) as u8;
    let arg = (w / 256) as u8;
    if op == 0x0 { Ok(Instruction::Nop) }
    else if op == 0x1 { Ok(Instruction::Push(arg)) }
    else if op == 0x2 || op == 0x3 {
        match spec_register_of(arg) {
            Some(r) => if op == 0x2 { Ok(Instruction::PopRegister(r)) } else { Ok(Instruction::PushRegister(r)) },
            None => Err(DecodeError::InvalidRegister(arg)),
        }
    }
    else if op == 0x20 { Ok(Instruction::AddStack) }
    else if op == 0x22 { Ok(Instruction::SubStack) }
    else if op == 0x21 || op == 0x23 {
        match spec_register_pair(arg) {
            Some((a, b)) => if op == 0x21 { Ok(Instruction::AddRegister(a, b)) } else { Ok(Instruction::SubRegister(a, b)) },
            None => Err(DecodeError::InvalidRegister(arg)),
        }
    }
    else if op == 0xf0 { Ok(Instruction::Signal(arg)) }
    else { Err(DecodeError::UnknownOpcode(op)) }
}

/// The mnemonic of each instruction.
pub open spec fn spec_mnemonic(i: Instruction) -> Seq<char> {
    match i {
        Instruction::Nop => seq!['N', 'o', 'p'],
        Instruction::Push(_) => seq!['P', 'u', 's', 'h'],
        Instruction::PopRegister(_) => seq!['P', 'o', 'p', 'R', 'e', 'g', 'i', 's', 't', 'e', 'r'],
        Instruction::PushRegister(_) => seq!['P', 'u', 's', 'h', 'R', 'e', 'g', 'i', 's', 't', 'e', 'r'],
        Instruction::AddStack => seq!['A', 'd', 'd', 'S', 't', 'a', 'c', 'k'],
        Instruction::AddRegister(_, _) => seq!['A', 'd', 'd', 'R', 'e', 'g', 'i', 's', 't', 'e', 'r'],
        Instruction::SubStack => seq!['S', 'u', 'b', 'S', 't', 'a', 'c', 'k'],
        Instruction::SubRegister(_, _) => seq!['S', 'u', 'b', 'R', 'e', 'g', 'i', 's', 't', 'e', 'r'],
        Instruction::Signal(_) => seq!['S', 'i', 'g', 'n', 'a', 'l'],
    }
}

/// The register numbers of a register pair argument, low nibble first.
proof fn lemma_pair_roundtrip(a: u8, b: u8)
    requires
        a < 8,
        b < 8,
    ensures
        ((a + 16 * b) as u8) % 16 == a,
        ((a + 16 * b) as u8) / 16 == b,
{
}

impl Instruction {
    /// The instruction's operator byte.
    pub fn opcode(&self) -> (op: u8)
        ensures
            op == spec_opcode(*self),
    {
        match self {
            Instruction::Nop => 0x0,
            Instruction::Push(_) => 0x1,
            Instruction::PopRegister(_) => 0x2,
            Instruction::PushRegister(_) => 0x3,
            Instruction::AddStack => 0x20,
            Instruction::AddRegister(_, _) => 0x21,
            Instruction::SubStack => 0x22,
            Instruction::SubRegister(_, _) => 0x23,
            Instruction::Signal(_) => 0xf0,
        }
    }

    /// The 16-bit encoding: the operator in the low byte, the argument in the high byte.
    pub fn encode_u16(&self) -> (w: u16)
        ensures
            w == spec_encode(*self),
    {
        let arg: u8 = match self {
            Instruction::Push(v) => *v,
            Instruction::PopRegister(r) => r.index(),
            Instruction::PushRegister(r) => r.index(),
            Instruction::AddRegister(a, b) => a.index() + 16 * b.index(),
            Instruction::SubRegister(a, b) => a.index() + 16 * b.index(),
            Instruction::Signal(v) => *v,
            _ => 0,
        };
        (self.opcode() as u16) + 256 * (arg as u16)
    }

    /// The instruction a 16-bit word encodes.
    pub fn decode(w: u16) -> (r: Result<Instruction, DecodeError>)
        ensures
            r == spec_decode(w),
    {
        let op = (w % 256) as u8;
        let arg = (w / 256) as u8;
        if op == 0x0 {
            Ok(Instruction::Nop)
        } else if op == 0x1 {
            Ok(Instruction::Push(arg))
        } else if op == 0x2 || op == 0x3 {
            match Register::from_u8(arg) {
                Some(r) => if op == 0x2 {
                    Ok(Instruction::PopRegister(r))
                } else {
                    Ok(Instruction::PushRegister(r))
                },
                None => Err(DecodeError::InvalidRegister(arg)),
            }
        } else if op == 0x20 {
            Ok(Instruction::AddStack)
        } else if op == 0x22 {
            Ok(Instruction::SubStack)
        } else if op == 0x21 || op == 0x23 {
            match (Register::from_u8(arg % 16), Register::from_u8(arg / 16)) {
                (Some(a), Some(b)) => if op == 0x21 {
                    Ok(Instruction::AddRegister(a, b))
                } else {
                    Ok(Instruction::SubRegister(a, b))
                },
                _ => Err(DecodeError::InvalidRegister(arg)),
            }
        } else if op == 0xf0 {
            Ok(Instruction::Signal(arg))
        } else {
            Err(DecodeError::UnknownOpcode(op))
        }
    }

    /// The instruction's mnemonic.
    pub fn mnemonic(&self) -> (s: &'static str)
        ensures
            s@ == spec_mnemonic(*self),
    {
        match self {
            Instruction::Nop => { proof { reveal_strlit("Nop"); } "Nop" },
            Instruction::Push(_) => { proof { reveal_strlit("Push"); } "Push" },
            Instruction::PopRegister(_) => { proof { reveal_strlit("PopRegister"); } "PopRegister" },
            Instruction::PushRegister(_) => { proof { reveal_strlit("PushRegister"); } "PushRegister" },
            Instruction::AddStack => { proof { reveal_strlit("AddStack"); } "AddStack" },
            Instruction::AddRegister(_, _) => { proof { reveal_strlit("AddRegister"); } "AddRegister" },
            Instruction::SubStack => { proof { reveal_strlit("SubStack"); } "SubStack" },
            Instruction::SubRegister(_, _) => { proof { reveal_strlit("SubRegister"); } "SubRegister" },
            Instruction::Signal(_) => { proof { reveal_strlit("Signal"); } "Signal" },
        }
    }
}

/// The little-endian word at byte `2 * k` of a program.
pub open spec fn word_at(bytes: Seq<u8>, k: int) -> u16 {
    (bytes[2 * k] + 256 * bytes[2 * k + 1]) as u16
}

/// Decoding the first `n` words of a program in order, up to the first that
/// fails: the instructions of the words before it, and that word's error.
pub open spec fn spec_decode_program(bytes: Seq<u8>, n: nat) -> (Seq<Instruction>, Option<DecodeError>)
    decreases n,
{
    if n == 0 {
        (Seq::empty(), None)
    } else {
        let (is, e) = spec_decode_program(bytes, (n - 1) as nat);
        if e is Some {
            (is, e)
        } else {
            match spec_decode(word_at(bytes, n - 1)) {
                Ok(i) => (is.push(i), None),
                Err(e) => (is, Some(e)),
            }
        }
    }
}

/// Decodes a program: each pair of bytes, low byte first, is one
/// instruction, and a last odd byte is ignored. Gives the instructions up to
/// the first word that does not decode, and that word's error.
pub fn decode_program(bytes: &Vec<u8>) -> (r: (Vec<Instruction>, Option<DecodeError>))
    ensures
        (r.0@, r.1) == spec_decode_program(bytes@, bytes@.len() / 2),
{
    let mut out: Vec<Instruction> = Vec::new();
    let mut k: usize = 0;
    let n = bytes.len() / 2;
    assert(2 * n <= bytes@.len()) by (nonlinear_arith)
        requires
            n == bytes@.len() / 2;
    while k < n
        invariant
            n == bytes@.len() / 2,
            2 * n <= bytes@.len() <= usize::MAX,
            k <= n,
            spec_decode_program(bytes@, k as nat) == (out@, None::<DecodeError>),
        decreases n - k,
    {
        assert(2 * k + 1 < bytes@.len());
        let lo = bytes[2 * k] as u16;
        let hi = bytes[2 * k + 1] as u16;
        let w = lo + 256 * hi;
        assert(w == word_at(bytes@, k as int));
        match Instruction::decode(w) {
            Ok(i) => out.push(i),
            Err(e) => {
                proof {
                    lemma_decode_program_err(bytes@, (k + 1) as nat, n as nat);
                }
                return (out, Some(e));
            },
        }
        k = k + 1;
    }
    (out, None)
}

/// Once decoding fails, every longer prefix gives the same.
proof fn lemma_decode_program_err(bytes: Seq<u8>, m: nat, n: nat)
    requires
        m <= n,
        spec_decode_program(bytes, m).1 is Some,
    ensures
        spec_decode_program(bytes, n) == spec_decode_program(bytes, m),
    decreases n - m,
{
    if m < n {
        lemma_decode_program_err(bytes, m, (n - 1) as nat);
    }
}

/// Decoding an encoded instruction gives back the instruction.
pub proof fn law_decode_encode(i: Instruction)
    ensures
        spec_decode(spec_encode(i)) == Ok::<Instruction, DecodeError>(i),
{
    match i {
        Instruction::AddRegister(a, b) => lemma_pair_roundtrip(spec_index(a), spec_index(b)),
        Instruction::SubRegister(a, b) => lemma_pair_roundtrip(spec_index(a), spec_index(b)),
        _ => {},
    }
}

/// Encoding a decoded word gives back the word, unless the instruction has
/// no argument and the word's argument byte was not zero.
pub proof fn law_encode_decode(w: u16)
    requires
        spec_decode(w) is Ok,
        spec_argument(spec_decode(w)->Ok_0) == (w / 256) as u8,
    ensures
        spec_encode(spec_decode(w)->Ok_0) == w,
{
}

/// The word of an instruction holds its operator in the low byte and its
/// operands in the high byte: a literal whole, one register by its number,
/// two registers with the first in the low nibble and the second in the
/// high nibble. Adding and subtracting registers differ only in the
/// operator.
pub proof fn law_operand_layout(i: Instruction)
    ensures
        spec_encode(i) % 256 == spec_opcode(i),
        match i {
            Instruction::Push(v) => spec_encode(i) / 256 == v,
            Instruction::Signal(v) => spec_encode(i) / 256 == v,
            Instruction::PopRegister(r) => spec_encode(i) / 256 == spec_index(r),
            Instruction::PushRegister(r) => spec_encode(i) / 256 == spec_index(r),
            Instruction::AddRegister(a, b) => (spec_encode(i) / 256) % 16 == spec_index(a) && spec_encode(i) / 4096 == spec_index(b),
            Instruction::SubRegister(a, b) => (spec_encode(i) / 256) % 16 == spec_index(a) && spec_encode(i) / 4096 == spec_index(b)
                && spec_encode(i) == spec_encode(Instruction::AddRegister(a, b)) + 2,
            _ => spec_encode(i) / 256 == 0,
        },
{
    let op = spec_opcode(i) as int;
    let arg = spec_argument(i) as int;
    assert(0 <= op + 256 * arg < 65536);
    assert((op + 256 * arg) % 256 == op && (op + 256 * arg) / 256 == arg) by (nonlinear_arith)
        requires 0 <= op < 256, 0 <= arg < 256;
    match i {
        Instruction::AddRegister(a, b) | Instruction::SubRegister(a, b) => {
            let x = spec_index(a) as int;
            let y = spec_index(b) as int;
            assert(x + 16 * y < 256);
            assert((x + 16 * y) % 16 == x && (x + 16 * y) / 16 == y) by (nonlinear_arith)
                requires 0 <= x < 8, 0 <= y < 8;
            assert((op + 256 * (x + 16 * y)) / 4096 == y) by (nonlinear_arith)
                requires 0 <= op < 256, 0 <= x < 8, 0 <= y < 8;
        },
        _ => {},
    }
}

/// The bytes of a program: each instruction's word, low byte first.
pub open spec fn program_bytes(is: Seq<Instruction>) -> Seq<u8>
    decreases is.len(),
{
    if is.len() == 0 {
        Seq::empty()
    } else {
        program_bytes(is.drop_last()) + seq![(spec_encode(is.last()) % 256) as u8, (spec_encode(is.last()) / 256) as u8]
    }
}

proof fn lemma_program_bytes_len(is: Seq<Instruction>)
    ensures
        program_bytes(is).len() == 2 * is.len(),
    decreases is.len(),
{
    if is.len() > 0 {
        lemma_program_bytes_len(is.drop_last());
    }
}

/// Decoding depends only on the bytes of the words it reads.
proof fn lemma_decode_program_prefix(a: Seq<u8>, b: Seq<u8>, m: nat)
    requires
        2 * m <= a.len(),
        2 * m <= b.len(),
        forall|j: int| 0 <= j < 2 * m ==> a[j] == b[j],
    ensures
        spec_decode_program(a, m) == spec_decode_program(b, m),
    decreases m,
{
    if m > 0 {
        lemma_decode_program_prefix(a, b, (m - 1) as nat);
        assert(a[2 * (m - 1)] == b[2 * (m - 1)]);
        assert(a[2 * (m - 1) + 1] == b[2 * (m - 1) + 1]);
        assert(word_at(a, m - 1) == word_at(b, m - 1));
    }
}

/// Decoding the bytes of a program gives back the program, with no error.
pub proof fn law_decode_program_encoded(is: Seq<Instruction>)
    ensures
        program_bytes(is).len() == 2 * is.len(),
        spec_decode_program(program_bytes(is), is.len()) == (is, None::<DecodeError>),
    decreases is.len(),
{
    lemma_program_bytes_len(is);
    if is.len() > 0 {
        let p = is.drop_last();
        let n = is.len();
        law_decode_program_encoded(p);
        let b = program_bytes(is);
        let bp = program_bytes(p);
        lemma_program_bytes_len(p);
        assert forall|j: int| 0 <= j < 2 * (n - 1) implies b[j] == bp[j] by {}
        lemma_decode_program_prefix(b, bp, (n - 1) as nat);
        let w = spec_encode(is.last());
        assert(b[2 * (n - 1)] == (w % 256) as u8);
        assert(b[2 * (n - 1) + 1] == (w / 256) as u8);
        assert(word_at(b, n - 1) == w);
        law_decode_encode(is.last());
        assert(p.push(is.last()) =~= is);
    } else {
        assert(is =~= Seq::<Instruction>::empty());
    }
}

} // verus!
