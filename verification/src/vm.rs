//! The virtual machine: eight 16-bit registers, a flags word and a linear
//! memory that holds both the program and the stack.
//!
//! Each step fetches the little-endian instruction word at the program
//! counter, executes it, and moves the program counter to the next word
//! unless the instruction set it. A `Signal` instruction hands control to the
//! caller, which runs the signal's handler and then calls `finish_signal`.
use vstd::prelude::*;

use crate::memory::{law_read2_after_write2, law_write2_keeps_others, spec_read2, spec_write2, Addressable, LinearMemory};
use crate::op::{spec_decode, DecodeError, Instruction};
use crate::register::{spec_flag_bit, spec_index, spec_register_of, Flag, Register};
use crate::text::push_str;
use crate::words::{decimal_string, decimal_text};

verus! {

/// Why a step failed.
#[derive(Debug, Clone, Copy, PartialEq, Eq, Structural)]
pub enum VmError {
    /// A word was read or written at an address outside memory.
    OutOfBounds(u16),
    /// The word at the program counter is not an instruction.
    Decode(DecodeError),
    /// A push would move the stack pointer past the end of the address space.
    StackOverflow,
    /// A pop or peek with fewer than two bytes below the stack pointer.
    StackUnderflow,
}

/// What the caller must do after a step.
#[derive(Debug, Clone, Copy, PartialEq, Eq, Structural)]
pub enum StepAction {
    /// Nothing: the step is complete.
    Continue,
    /// Run the handler of the signal, then call `finish_signal`.
    Signal(u8),
}

/// The machine's state as values: registers by number, flags and memory bytes.
pub struct MachineState {
    pub regs: Seq<u16>,
    pub flags: u16,
    pub mem: Seq<u8>,
}

/// `x` reduced to 16 bits, as wrapping arithmetic does.
pub open spec fn wrap16(x: int) -> u16 {
    (x % 65536) as u16
}

/// The flags word with the flag set or cleared.
pub open spec fn spec_set_flag(flags: u16, flag: Flag, state: bool) -> u16 {
    if state { flags | spec_flag_bit(flag) } else { flags & !spec_flag_bit(flag) }
}

pub open spec fn spec_test_flag(flags: u16, flag: Flag) -> bool {
    flags & spec_flag_bit(flag) != 0
}

pub open spec fn spec_get(s: MachineState, r: Register) -> u16 {
    s.regs[spec_index(r) as int]
}

/// Setting a register; setting the program counter marks a jump.
pub open spec fn spec_set(s: MachineState, r: Register, v: u16) -> MachineState {
    MachineState {
        regs: s.regs.update(spec_index(r) as int, v),
        flags: if r == Register::PC { spec_set_flag(s.flags, Flag::HasJumped, true) } else { s.flags },
        mem: s.mem,
    }
}

/// Pushing `v`: the stack pointer moves up by two, then the word is written
/// where it pointed.
pub open spec fn spec_push(s: MachineState, sp: Register, v: u16) -> (MachineState, Result<(), VmError>) {
    let top = spec_get(s, sp);
    if top >= 0xfffe {
        (s, Err(VmError::StackOverflow))
    } else {
        let s1 = spec_set(s, sp, (top + 2) as u16);
        let s2 = MachineState { mem: spec_write2(s1.mem, top as int, v), ..s1 };
        if (top as int) + 1 < s1.mem.len() { (s2, Ok(())) } else { (s2, Err(VmError::OutOfBounds(top))) }
    }
}

/// Popping: the word just below the stack pointer, which moves down by two.
pub open spec fn spec_pop(s: MachineState, sp: Register) -> (MachineState, Result<u16, VmError>) {
    let top = spec_get(s, sp);
    if top < 2 {
        (s, Err(VmError::StackUnderflow))
    } else {
        let at = (top - 2) as u16;
        match spec_read2(s.mem, at as int) {
            Some(v) => (spec_set(s, sp, at), Ok(v)),
            None => (s, Err(VmError::OutOfBounds(at))),
        }
    }
}

/// Peeking: the word just below the stack pointer, which stays.
pub open spec fn spec_peek(s: MachineState, sp: Register) -> Result<u16, VmError> {
    let top = spec_get(s, sp);
    if top < 2 {
        Err(VmError::StackUnderflow)
    } else {
        let at = (top - 2) as u16;
        match spec_read2(s.mem, at as int) {
            Some(v) => Ok(v),
            None => Err(VmError::OutOfBounds(at)),
        }
    }
}

/// Pops two words `a` (the top) and `b`, and pushes `f(a, b)`.
pub open spec fn spec_stack_op(s: MachineState, add: bool) -> (MachineState, Result<StepAction, VmError>) {
    let (s1, ra) = spec_pop(s, Register::SP);
    match ra {
        Err(e) => (s1, Err(e)),
        Ok(a) => {
            let (s2, rb) = spec_pop(s1, Register::SP);
            match rb {
                Err(e) => (s2, Err(e)),
                Ok(b) => {
                    let v = if add { wrap16(a + b) } else { wrap16(a + 65536 - b) };
                    let (s3, rc) = spec_push(s2, Register::SP, v);
                    match rc {
                        Err(e) => (s3, Err(e)),
                        Ok(_) => (s3, Ok(StepAction::Continue)),
                    }
                },
            }
        },
    }
}

/// The effect of executing one decoded instruction.
pub open spec fn spec_execute(s: MachineState, ins: Instruction) -> (MachineState, Result<StepAction, VmError>) {
    match ins {
        Instruction::Nop => (s, Ok(StepAction::Continue)),
        Instruction::Push(v) => {
            let (s1, r) = spec_push(s, Register::SP, v as u16);
            (s1, match r { Ok(_) => Ok(StepAction::Continue), Err(e) => Err(e) })
        },
        Instruction::PopRegister(reg) => {
            let (s1, r) = spec_pop(s, Register::SP);
            match r {
                Ok(v) => (spec_set(s1, reg, v), Ok(StepAction::Continue)),
                Err(e) => (s1, Err(e)),
            }
        },
        Instruction::PushRegister(reg) => {
            let (s1, r) = spec_push(s, Register::SP, spec_get(s, reg));
            (s1, match r { Ok(_) => Ok(StepAction::Continue), Err(e) => Err(e) })
        },
        Instruction::AddStack => spec_stack_op(s, true),
        Instruction::SubStack => spec_stack_op(s, false),
        Instruction::AddRegister(a, b) =>
            (spec_set(s, a, wrap16(spec_get(s, a) + spec_get(s, b))), Ok(StepAction::Continue)),
        Instruction::SubRegister(a, b) =>
            (spec_set(s, a, wrap16(spec_get(s, a) + 65536 - spec_get(s, b))), Ok(StepAction::Continue)),
        Instruction::Signal(sig) => (s, Ok(StepAction::Signal(sig))),
    }
}

/// Moves the program counter past the instruction at `pc`, unless the
/// instruction jumped.
pub open spec fn spec_advance(s: MachineState, pc: u16) -> MachineState {
    if spec_test_flag(s.flags, Flag::HasJumped) {
        s
    } else {
        let s1 = spec_set(s, Register::PC, wrap16(pc + 2));
        MachineState { flags: spec_set_flag(s1.flags, Flag::HasJumped, false), ..s1 }
    }
}

/// One step of the machine: fetch, decode, execute and advance.
pub open spec fn spec_step(s: MachineState) -> (MachineState, Result<StepAction, VmError>) {
    let pc = spec_get(s, Register::PC);
    if pc == 0xffff {
        (s, Err(VmError::OutOfBounds(pc)))
    } else {
        match spec_read2(s.mem, pc as int) {
            None => (s, Err(VmError::OutOfBounds(pc))),
            Some(word) => {
                let s0 = MachineState { flags: spec_set_flag(s.flags, Flag::HasJumped, false), ..s };
                match spec_decode(word) {
                    Err(e) => (s0, Err(VmError::Decode(e))),
                    Ok(ins) => {
                        let (s1, r) = spec_execute(s0, ins);
                        match r {
                            Ok(StepAction::Continue) => (spec_advance(s1, pc), r),
                            _ => (s1, r),
                        }
                    },
                }
            },
        }
    }
}

/// Wrapping 16-bit addition.
pub fn add16(a: u16, b: u16) -> (r: u16)
    ensures
        r == wrap16(a + b),
{
    ((a as u32 + b as u32) % 65536) as u16
}

/// Wrapping 16-bit subtraction.
pub fn sub16(a: u16, b: u16) -> (r: u16)
    ensures
        r == wrap16(a + 65536 - b),
{
    ((a as u32 + 65536 - b as u32) % 65536) as u16
}

pub struct Machine {
    pub registers: [u16; 8],
    pub flags: u16,
    pub halt: bool,
    pub memory: LinearMemory,
}

impl Default for Machine {
    /// The same machine as `Machine::new`.
    fn default() -> (m: Machine)
        ensures
            m.wf(),
            m.view().regs == Seq::new(8, |i: int| 0u16),
            m.view().flags == 0,
            m.view().mem == Seq::new(0x10000, |i: int| 0u8),
            !m.halt,
    {
        Machine::new()
    }
}

impl Machine {
    pub open spec fn wf(&self) -> bool {
        self.memory.wf()
    }

    pub open spec fn view(&self) -> MachineState {
        MachineState { regs: self.registers@, flags: self.flags, mem: self.memory.contents() }
    }

    /// A machine with all registers and flags zero and 64 KiB of zeroed memory.
    pub fn new() -> (m: Machine)
        ensures
            m.wf(),
            m.view().regs == Seq::new(8, |i: int| 0u16),
            m.view().flags == 0,
            m.view().mem == Seq::new(0x10000, |i: int| 0u8),
            !m.halt,
    {
        let m = Machine { registers: [0; 8], flags: 0, halt: false, memory: LinearMemory::new(0x10000) };
        assert(m.registers@ =~= Seq::new(8, |i: int| 0u16));
        m
    }

    /// Zeroes memory, registers and flags, and clears `halt`.
    pub fn reset(&mut self)
        requires
            old(self).wf(),
        ensures
            final(self).wf(),
            final(self).view().regs == Seq::new(8, |i: int| 0u16),
            final(self).view().flags == 0,
            final(self).view().mem == Seq::new(old(self).view().mem.len(), |i: int| 0u8),
            !final(self).halt,
    {
        self.memory.zero_all();
        self.registers = [0; 8];
        self.halt = false;
        self.flags = 0;
        assert(self.registers@ =~= Seq::new(8, |i: int| 0u16));
    }

    pub fn get_register(&self, r: Register) -> (v: u16)
        ensures
            v == spec_get(self.view(), r),
    {
        self.registers[r.index() as usize]
    }

    /// Sets a register; setting the program counter marks a jump.
    pub fn set_register(&mut self, r: Register, v: u16)
        ensures
            final(self).view() == spec_set(old(self).view(), r, v),
            final(self).memory == old(self).memory,
            final(self).halt == old(self).halt,
    {
        self.registers[r.index() as usize] = v;
        if r == Register::PC {
            self.set_flag(Flag::HasJumped, true);
        }
        assert(self.registers@ =~= old(self).registers@.update(spec_index(r) as int, v));
    }

    pub fn set_flag(&mut self, flag: Flag, state: bool)
        ensures
            final(self).flags == spec_set_flag(old(self).flags, flag, state),
            final(self).registers == old(self).registers,
            final(self).memory == old(self).memory,
            final(self).halt == old(self).halt,
    {
        if state {
            self.flags = self.flags | flag.bit();
        } else {
            self.flags = self.flags & !flag.bit();
        }
    }

    pub fn test_flag(&self, flag: Flag) -> (b: bool)
        ensures
            b == spec_test_flag(self.flags, flag),
    {
        self.flags & flag.bit() != 0
    }

    /// Pushes `v` onto the stack whose pointer is held in `stack_pointer_register`.
    pub fn push(&mut self, stack_pointer_register: Register, v: u16) -> (r: Result<(), VmError>)
        requires
            old(self).wf(),
        ensures
            final(self).wf(),
            (final(self).view(), r) == spec_push(old(self).view(), stack_pointer_register, v),
            final(self).halt == old(self).halt,
    {
        let sp = self.get_register(stack_pointer_register);
        if sp >= 0xfffe {
            return Err(VmError::StackOverflow);
        }
        self.set_register(stack_pointer_register, sp + 2);
        if self.memory.write2(sp, v) {
            Ok(())
        } else {
            Err(VmError::OutOfBounds(sp))
        }
    }

    /// Pops the word below the stack pointer held in `stack_pointer_register`.
    pub fn pop(&mut self, stack_pointer_register: Register) -> (r: Result<u16, VmError>)
        requires
            old(self).wf(),
        ensures
            final(self).wf(),
            (final(self).view(), r) == spec_pop(old(self).view(), stack_pointer_register),
            final(self).halt == old(self).halt,
    {
        let top = self.get_register(stack_pointer_register);
        if top < 2 {
            return Err(VmError::StackUnderflow);
        }
        let sp = top - 2;
        match self.memory.read2(sp) {
            Some(v) => {
                self.set_register(stack_pointer_register, sp);
                Ok(v)
            },
            None => Err(VmError::OutOfBounds(sp)),
        }
    }

    /// The word below the stack pointer held in `stack_pointer_register`.
    pub fn peek(&self, stack_pointer_register: Register) -> (r: Result<u16, VmError>)
        ensures
            r == spec_peek(self.view(), stack_pointer_register),
    {
        let top = self.get_register(stack_pointer_register);
        if top < 2 {
            return Err(VmError::StackUnderflow);
        }
        let sp = top - 2;
        match self.memory.read2(sp) {
            Some(v) => Ok(v),
            None => Err(VmError::OutOfBounds(sp)),
        }
    }

    /// Executes one decoded instruction.
    pub fn execute(&mut self, op: Instruction) -> (r: Result<StepAction, VmError>)
        requires
            old(self).wf(),
        ensures
            final(self).wf(),
            (final(self).view(), r) == spec_execute(old(self).view(), op),
            final(self).halt == old(self).halt,
    {
        match op {
            Instruction::Nop => Ok(StepAction::Continue),
            Instruction::Push(v) => {
                self.push(Register::SP, v as u16)?;
                Ok(StepAction::Continue)
            },
            Instruction::PopRegister(r) => {
                let v = self.pop(Register::SP)?;
                self.set_register(r, v);
                Ok(StepAction::Continue)
            },
            Instruction::PushRegister(r) => {
                let v = self.get_register(r);
                self.push(Register::SP, v)?;
                Ok(StepAction::Continue)
            },
            Instruction::AddStack => {
                let a = self.pop(Register::SP)?;
                let b = self.pop(Register::SP)?;
                self.push(Register::SP, add16(a, b))?;
                Ok(StepAction::Continue)
            },
            Instruction::SubStack => {
                let a = self.pop(Register::SP)?;
                let b = self.pop(Register::SP)?;
                self.push(Register::SP, sub16(a, b))?;
                Ok(StepAction::Continue)
            },
            Instruction::AddRegister(r0, r1) => {
                let v0 = self.get_register(r0);
                let v1 = self.get_register(r1);
                self.set_register(r0, add16(v0, v1));
                Ok(StepAction::Continue)
            },
            Instruction::SubRegister(r0, r1) => {
                let v0 = self.get_register(r0);
                let v1 = self.get_register(r1);
                self.set_register(r0, sub16(v0, v1));
                Ok(StepAction::Continue)
            },
            Instruction::Signal(sig) => Ok(StepAction::Signal(sig)),
        }
    }

    /// Moves the program counter past the instruction at `pc` unless it jumped.
    fn advance(&mut self, pc: u16)
        ensures
            final(self).view() == spec_advance(old(self).view(), pc),
            final(self).memory == old(self).memory,
            final(self).halt == old(self).halt,
    {
        if !self.test_flag(Flag::HasJumped) {
            self.set_register(Register::PC, add16(pc, 2));
            self.set_flag(Flag::HasJumped, false);
        }
    }

    /// Executes the instruction at the program counter.
    pub fn step(&mut self) -> (r: Result<StepAction, VmError>)
        requires
            old(self).wf(),
        ensures
            final(self).wf(),
            (final(self).view(), r) == spec_step(old(self).view()),
            final(self).halt == old(self).halt,
    {
        let pc = self.get_register(Register::PC);
        if pc == 0xffff {
            return Err(VmError::OutOfBounds(pc));
        }
        let instruction = match self.memory.read2(pc) {
            Some(w) => w,
            None => return Err(VmError::OutOfBounds(pc)),
        };
        self.set_flag(Flag::HasJumped, false);
        let op = match Instruction::decode(instruction) {
            Ok(op) => op,
            Err(e) => return Err(VmError::Decode(e)),
        };
        let action = self.execute(op)?;
        if let StepAction::Continue = action {
            self.advance(pc);
        }
        Ok(action)
    }

    /// Completes a `Signal` step once its handler has run: moves the program
    /// counter past the instruction at `pc` unless the handler jumped.
    pub fn finish_signal(&mut self, pc: u16)
        ensures
            final(self).view() == spec_advance(old(self).view(), pc),
            final(self).memory == old(self).memory,
            final(self).halt == old(self).halt,
    {
        self.advance(pc);
    }
}

/// The 16 binary digits of `v`, the most significant first.
pub open spec fn binary16(v: u16) -> Seq<char> {
    Seq::new(16, |i: int| if (v >> ((15 - i) as u16)) & 1u16 == 1u16 { '1' } else { '0' })
}

/// The registers in decimal and the flags in binary, on one line.
pub open spec fn state_text(s: MachineState) -> Seq<char> {
    "A: "@ + decimal_text(spec_get(s, Register::A) as nat)
        + " | B: "@ + decimal_text(spec_get(s, Register::B) as nat)
        + " | C: "@ + decimal_text(spec_get(s, Register::C) as nat)
        + " | M: "@ + decimal_text(spec_get(s, Register::M) as nat)
        + " | SP: "@ + decimal_text(spec_get(s, Register::SP) as nat)
        + " | PC: "@ + decimal_text(spec_get(s, Register::PC) as nat)
        + " | BP: "@ + decimal_text(spec_get(s, Register::BP) as nat)
        + " | Flags: "@ + binary16(s.flags)
}

/// The 16 binary digits of `v`.
fn binary16_string(v: u16) -> (s: String)
    ensures
        s@ == binary16(v),
{
    let mut s = String::new();
    let mut i: u16 = 0;
    while i < 16
        invariant
            i <= 16,
            s@ == binary16(v).take(i as int),
        decreases 16 - i,
    {
        let bit = (v >> (15 - i)) & 1u16;
        if bit == 1u16 {
            push_str(&mut s, "1");
        } else {
            push_str(&mut s, "0");
        }
        proof {
            reveal_strlit("1");
            reveal_strlit("0");
        }
        i = i + 1;
        assert(s@ =~= binary16(v).take(i as int));
    }
    assert(binary16(v).take(16) =~= binary16(v));
    s
}

impl Machine {
    /// The registers and flags, for display.
    pub fn state(&self) -> (s: String)
        ensures
            s@ == state_text(self.view()),
    {
        let mut s = String::new();
        push_str(&mut s, "A: ");
        push_str(&mut s, decimal_string(self.get_register(Register::A) as u64).as_str());
        push_str(&mut s, " | B: ");
        push_str(&mut s, decimal_string(self.get_register(Register::B) as u64).as_str());
        push_str(&mut s, " | C: ");
        push_str(&mut s, decimal_string(self.get_register(Register::C) as u64).as_str());
        push_str(&mut s, " | M: ");
        push_str(&mut s, decimal_string(self.get_register(Register::M) as u64).as_str());
        push_str(&mut s, " | SP: ");
        push_str(&mut s, decimal_string(self.get_register(Register::SP) as u64).as_str());
        push_str(&mut s, " | PC: ");
        push_str(&mut s, decimal_string(self.get_register(Register::PC) as u64).as_str());
        push_str(&mut s, " | BP: ");
        push_str(&mut s, decimal_string(self.get_register(Register::BP) as u64).as_str());
        push_str(&mut s, " | Flags: ");
        push_str(&mut s, binary16_string(self.flags).as_str());
        assert(s@ =~= state_text(self.view()));
        s
    }
}

/// Reading a register gives back the value last set in it, and setting one
/// register leaves the others as they were.
pub proof fn law_get_after_set(s: MachineState, r: Register, other: Register, v: u16)
    requires
        s.regs.len() == 8,
    ensures
        spec_get(spec_set(s, r, v), r) == v,
        other != r ==> spec_get(spec_set(s, r, v), other) == spec_get(s, other),
{
    assert(spec_index(r) < 8 && spec_index(other) < 8);
    assert(other != r ==> spec_index(other) != spec_index(r));
}

/// Popping right after a push gives back the pushed word and puts the stack
/// pointer back where it was, when the pushed word lies in memory.
pub proof fn law_pop_after_push(s: MachineState, v: u16)
    requires
        s.regs.len() == 8,
        spec_get(s, Register::SP) < 0xfffe,
        spec_get(s, Register::SP) + 1 < s.mem.len(),
    ensures
        spec_push(s, Register::SP, v).1 is Ok,
        spec_pop(spec_push(s, Register::SP, v).0, Register::SP).1 == Ok::<u16, VmError>(v),
        spec_get(spec_pop(spec_push(s, Register::SP, v).0, Register::SP).0, Register::SP) == spec_get(s, Register::SP),
{
    let top = spec_get(s, Register::SP);
    let s1 = spec_set(s, Register::SP, (top + 2) as u16);
    law_get_after_set(s, Register::SP, Register::SP, (top + 2) as u16);
    let pushed = spec_push(s, Register::SP, v).0;
    law_read2_after_write2(s1.mem, top as int, v);
    assert(spec_get(pushed, Register::SP) == top + 2);
    assert(spec_read2(pushed.mem, top as int) == Some(v));
    law_get_after_set(pushed, Register::SP, Register::SP, top);
}

/// Pushing a register and popping into another copies the register's value:
/// the word on top of the stack after the push is the value the register
/// held, the pop puts it in the second register, and the stack pointer ends
/// where it started.
pub proof fn law_push_register_then_pop(s: MachineState, r: Register, q: Register)
    requires
        s.regs.len() == 8,
        spec_get(s, Register::SP) < 0xfffe,
        spec_get(s, Register::SP) + 1 < s.mem.len(),
    ensures
        ({
            let (s1, r1) = spec_execute(s, Instruction::PushRegister(r));
            let (s2, r2) = spec_execute(s1, Instruction::PopRegister(q));
            &&& r1 == Ok::<StepAction, VmError>(StepAction::Continue)
            &&& spec_peek(s1, Register::SP) == Ok::<u16, VmError>(spec_get(s, r))
            &&& r2 == Ok::<StepAction, VmError>(StepAction::Continue)
            &&& spec_get(s2, q) == spec_get(s, r)
            &&& q != Register::SP ==> spec_get(s2, Register::SP) == spec_get(s, Register::SP)
        }),
{
    law_pop_after_push(s, spec_get(s, r));
    let s1 = spec_push(s, Register::SP, spec_get(s, r)).0;
    let s2 = spec_pop(s1, Register::SP).0;
    law_get_after_set(s2, q, q, spec_get(s, r));
    law_get_after_set(s2, q, Register::SP, spec_get(s, r));
}

/// Pushing a literal and popping it into a register puts the literal there.
pub proof fn law_push_then_pop(s: MachineState, v: u8, q: Register)
    requires
        s.regs.len() == 8,
        spec_get(s, Register::SP) < 0xfffe,
        spec_get(s, Register::SP) + 1 < s.mem.len(),
    ensures
        ({
            let (s1, r1) = spec_execute(s, Instruction::Push(v));
            let (s2, r2) = spec_execute(s1, Instruction::PopRegister(q));
            &&& r1 == Ok::<StepAction, VmError>(StepAction::Continue)
            &&& spec_peek(s1, Register::SP) == Ok::<u16, VmError>(v as u16)
            &&& r2 == Ok::<StepAction, VmError>(StepAction::Continue)
            &&& spec_get(s2, q) == v as u16
        }),
{
    law_pop_after_push(s, v as u16);
    let s2 = spec_pop(spec_push(s, Register::SP, v as u16).0, Register::SP).0;
    law_get_after_set(s2, q, q, v as u16);
}

/// `AddRegister(a, b)` leaves in `a` the sum of the two registers and
/// `SubRegister(a, b)` leaves in `a` the difference `a - b`, both modulo
/// 2^16; every other register keeps its value.
pub proof fn law_register_arithmetic(s: MachineState, a: Register, b: Register, other: Register)
    requires
        s.regs.len() == 8,
        other != a,
    ensures
        ({
            let (sa, ra) = spec_execute(s, Instruction::AddRegister(a, b));
            &&& ra == Ok::<StepAction, VmError>(StepAction::Continue)
            &&& spec_get(sa, a) as int == (spec_get(s, a) + spec_get(s, b)) % 65536
            &&& spec_get(sa, other) == spec_get(s, other)
        }),
        ({
            let (sd, rd) = spec_execute(s, Instruction::SubRegister(a, b));
            &&& rd == Ok::<StepAction, VmError>(StepAction::Continue)
            &&& (spec_get(sd, a) + spec_get(s, b)) % 65536 == spec_get(s, a) as int
            &&& spec_get(sd, other) == spec_get(s, other)
        }),
{
    let sum = wrap16(spec_get(s, a) + spec_get(s, b));
    let diff = wrap16(spec_get(s, a) + 65536 - spec_get(s, b));
    law_get_after_set(s, a, a, sum);
    law_get_after_set(s, a, other, sum);
    law_get_after_set(s, a, a, diff);
    law_get_after_set(s, a, other, diff);
    let x = spec_get(s, a) as int;
    let y = spec_get(s, b) as int;
    assert(((x + 65536 - y) % 65536 + y) % 65536 == x) by (nonlinear_arith)
        requires
            0 <= x < 65536,
            0 <= y < 65536,
    ;
}

/// The word `0x23 | (x | y << 4) << 8` subtracts register `y` from register
/// `x`: the first register of the pair sits in the low nibble of the
/// argument and receives the result, the second sits in the high nibble.
pub proof fn law_sub_register_word(s: MachineState, x: u8, y: u8)
    requires
        s.regs.len() == 8,
        x < 8,
        y < 8,
        x != y,
    ensures
        ({
            let w = (0x23 + 256 * (x + 16 * y)) as u16;
            &&& spec_decode(w) is Ok
            &&& ({
                let s1 = spec_execute(s, spec_decode(w)->Ok_0).0;
                &&& (s1.regs[x as int] + s.regs[y as int]) % 65536 == s.regs[x as int] as int
                &&& s1.regs[y as int] == s.regs[y as int]
            })
        }),
{
    let w = (0x23 + 256 * (x + 16 * y)) as u16;
    let arg = (x + 16 * y) as u8;
    assert(w % 256 == 0x23 && w / 256 == arg);
    assert(arg % 16 == x && arg / 16 == y);
    let a = spec_register_of(x)->Some_0;
    let b = spec_register_of(y)->Some_0;
    assert(spec_index(a) == x && spec_index(b) == y);
    assert(spec_decode(w) == Ok::<Instruction, DecodeError>(Instruction::SubRegister(a, b)));
    law_register_arithmetic(s, a, b, b);
}

/// Setting or clearing a flag is what a test of that flag reads back, and
/// leaves the other flag as it was.
pub proof fn law_flag_set_then_test(flags: u16, f: Flag, g: Flag, state: bool)
    ensures
        spec_test_flag(spec_set_flag(flags, f, state), f) == state,
        g != f ==> spec_test_flag(spec_set_flag(flags, f, state), g) == spec_test_flag(flags, g),
{
    let x = flags;
    assert((x | 1u16) & 1u16 != 0 && (x & !1u16) & 1u16 == 0) by (bit_vector);
    assert((x | 2u16) & 2u16 != 0 && (x & !2u16) & 2u16 == 0) by (bit_vector);
    assert(((x | 1u16) & 2u16 != 0) == (x & 2u16 != 0) && ((x & !1u16) & 2u16 != 0) == (x & 2u16 != 0)) by (bit_vector);
    assert(((x | 2u16) & 1u16 != 0) == (x & 1u16 != 0) && ((x & !2u16) & 1u16 != 0) == (x & 1u16 != 0)) by (bit_vector);
}

/// After pushing `x` and then `y`, `AddStack` leaves `x + y` on top of the
/// stack and `SubStack` leaves `y - x` (the top word minus the one below),
/// both modulo 2^16, one word above where the stack started.
pub proof fn law_stack_arithmetic(s: MachineState, x: u16, y: u16)
    requires
        s.regs.len() == 8,
        spec_get(s, Register::SP) + 2 < 0xfffe,
        spec_get(s, Register::SP) + 3 < s.mem.len(),
    ensures
        ({
            let s2 = spec_push(spec_push(s, Register::SP, x).0, Register::SP, y).0;
            let (sa, ra) = spec_execute(s2, Instruction::AddStack);
            let (sd, rd) = spec_execute(s2, Instruction::SubStack);
            &&& ra == Ok::<StepAction, VmError>(StepAction::Continue)
            &&& spec_peek(sa, Register::SP) == Ok::<u16, VmError>(((x + y) % 65536) as u16)
            &&& spec_get(sa, Register::SP) == spec_get(s, Register::SP) + 2
            &&& rd == Ok::<StepAction, VmError>(StepAction::Continue)
            &&& spec_peek(sd, Register::SP) matches Ok(v) && (v + x) % 65536 == y as int
            &&& spec_get(sd, Register::SP) == spec_get(s, Register::SP) + 2
        }),
{
    let top = spec_get(s, Register::SP);
    law_pop_after_push(s, x);
    let s1 = spec_push(s, Register::SP, x).0;
    law_get_after_set(s, Register::SP, Register::SP, (top + 2) as u16);
    assert(spec_get(s1, Register::SP) == top + 2);
    law_pop_after_push(s1, y);
    let s2 = spec_push(s1, Register::SP, y).0;
    let s3 = spec_pop(s2, Register::SP).0;
    assert(spec_get(s3, Register::SP) == top + 2);
    assert(s3.mem == s2.mem);
    // the word `x` below `y` is untouched by the second push
    let m1 = spec_set(s1, Register::SP, (top + 4) as u16).mem;
    assert(m1 == s1.mem);
    law_write2_keeps_others(m1, top + 2, top as int, y);
    law_write2_keeps_others(m1, top + 2, top + 1, y);
    law_read2_after_write2(spec_set(s, Register::SP, (top + 2) as u16).mem, top as int, x);
    assert(spec_read2(s1.mem, top as int) == Some(x));
    assert(spec_read2(s2.mem, top as int) == spec_read2(s1.mem, top as int));
    let s4 = spec_pop(s3, Register::SP).0;
    law_get_after_set(s3, Register::SP, Register::SP, top);
    assert(spec_get(s4, Register::SP) == top);
    let xi = x as int;
    let yi = y as int;
    assert(((yi + 65536 - xi) % 65536 + xi) % 65536 == yi) by (nonlinear_arith)
        requires
            0 <= xi < 65536,
            0 <= yi < 65536,
    ;
    assert(wrap16(yi + xi) == ((xi + yi) % 65536) as u16);
    law_pop_after_push(s4, wrap16(yi + xi));
    law_pop_after_push(s4, wrap16(yi + 65536 - xi));
    law_get_after_set(s4, Register::SP, Register::SP, (top + 2) as u16);
}

/// A step over a `Nop` only moves the program counter to the next word:
/// the other registers and memory stay as they were.
pub proof fn law_nop_steps_forward(s: MachineState, other: Register)
    requires
        s.regs.len() == 8,
        spec_get(s, Register::PC) < 0xffff,
        spec_read2(s.mem, spec_get(s, Register::PC) as int) == Some(0u16),
        other != Register::PC,
    ensures
        spec_step(s).1 == Ok::<StepAction, VmError>(StepAction::Continue),
        spec_get(spec_step(s).0, Register::PC) == (spec_get(s, Register::PC) + 2) % 65536,
        spec_get(spec_step(s).0, other) == spec_get(s, other),
        spec_step(s).0.mem == s.mem,
{
    let pc = spec_get(s, Register::PC);
    assert(spec_decode(0u16) == Ok::<Instruction, DecodeError>(Instruction::Nop));
    let s0 = MachineState { flags: spec_set_flag(s.flags, Flag::HasJumped, false), ..s };
    law_flag_set_then_test(s.flags, Flag::HasJumped, Flag::HasJumped, false);
    law_get_after_set(s0, Register::PC, Register::PC, wrap16(pc + 2));
    law_get_after_set(s0, Register::PC, other, wrap16(pc + 2));
}

/// Popping into the program counter jumps: after the step the program
/// counter holds the popped word, not the address of the next instruction.
pub proof fn law_pop_into_pc_jumps(s: MachineState)
    requires
        s.regs.len() == 8,
        spec_get(s, Register::PC) < 0xffff,
        spec_read2(s.mem, spec_get(s, Register::PC) as int) == Some(0x0502u16),
        spec_peek(s, Register::SP) is Ok,
    ensures
        spec_step(s).1 == Ok::<StepAction, VmError>(StepAction::Continue),
        Ok::<u16, VmError>(spec_get(spec_step(s).0, Register::PC)) == spec_peek(s, Register::SP),
{
    let w = 0x0502u16;
    assert(w % 256 == 2 && w / 256 == 5);
    assert(spec_decode(w) == Ok::<Instruction, DecodeError>(Instruction::PopRegister(Register::PC)));
    let s0 = MachineState { flags: spec_set_flag(s.flags, Flag::HasJumped, false), ..s };
    let (s1, r) = spec_pop(s0, Register::SP);
    let v = r->Ok_0;
    let s2 = spec_set(s1, Register::PC, v);
    law_flag_set_then_test(s1.flags, Flag::HasJumped, Flag::HasJumped, true);
    law_get_after_set(s1, Register::PC, Register::PC, v);
    assert(spec_test_flag(s2.flags, Flag::HasJumped));
}

/// A `Signal` step hands the signal's number to the caller and changes no
/// register; finishing it without a jump then moves the program counter to
/// the next word, as any other instruction would.
pub proof fn law_signal_then_finish(s: MachineState, sig: u8, other: Register)
    requires
        s.regs.len() == 8,
        spec_get(s, Register::PC) < 0xffff,
        spec_read2(s.mem, spec_get(s, Register::PC) as int) == Some((0xf0 + 256 * sig) as u16),
        other != Register::PC,
    ensures
        spec_step(s).1 == Ok::<StepAction, VmError>(StepAction::Signal(sig)),
        spec_step(s).0.regs == s.regs,
        spec_get(spec_advance(spec_step(s).0, spec_get(s, Register::PC)), Register::PC) == (spec_get(s, Register::PC) + 2) % 65536,
        spec_get(spec_advance(spec_step(s).0, spec_get(s, Register::PC)), other) == spec_get(s, other),
{
    let pc = spec_get(s, Register::PC);
    let w = (0xf0 + 256 * sig) as u16;
    assert(w % 256 == 0xf0 && w / 256 == sig);
    assert(spec_decode(w) == Ok::<Instruction, DecodeError>(Instruction::Signal(sig)));
    let s0 = MachineState { flags: spec_set_flag(s.flags, Flag::HasJumped, false), ..s };
    law_flag_set_then_test(s.flags, Flag::HasJumped, Flag::HasJumped, false);
    law_get_after_set(s0, Register::PC, Register::PC, wrap16(pc + 2));
    law_get_after_set(s0, Register::PC, other, wrap16(pc + 2));
}

} // verus!
