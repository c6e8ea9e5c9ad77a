use lib::memory::{Addressable, LinearMemory};
use lib::op::{DecodeError, Instruction};
use lib::register::{Flag, Register};
use lib::vm::{Machine, StepAction, VmError};

use Instruction::{AddRegister, AddStack, Nop, PopRegister, Push, PushRegister, Signal, SubRegister, SubStack};

#[test]
fn test_encodings() {
    assert_eq!(SubStack.encode_u16(), 0x22);
    assert_eq!(Push(0x5).encode_u16(), 0x0501);
    assert_eq!(AddRegister(Register::B, Register::BP).encode_u16(), 0x6121);
    assert_eq!(Signal(0x05).encode_u16(), 0x05f0);
    assert_eq!(Nop.encode_u16(), 0x00);
    assert_eq!(PushRegister(Register::A).encode_u16(), 0x03);
}

#[test]
fn decode_roundtrip() {
    for ins in [
        Nop,
        Push(7),
        PopRegister(Register::C),
        PushRegister(Register::Flags),
        AddStack,
        AddRegister(Register::SP, Register::M),
        SubStack,
        SubRegister(Register::PC, Register::A),
        Signal(0xf0),
    ] {
        assert_eq!(Instruction::decode(ins.encode_u16()), Ok(ins));
    }
    assert_eq!(Instruction::decode(0x00ff), Err(DecodeError::UnknownOpcode(0xff)));
    assert_eq!(Instruction::decode(0x0802), Err(DecodeError::InvalidRegister(8)));
}

#[test]
fn register_lookup() {
    assert_eq!(Register::from_u8(6), Some(Register::BP));
    assert_eq!(Register::from_u8(8), None);
    assert_eq!("SP".parse::<Register>(), Ok(Register::SP));
    assert_eq!("C".parse::<Register>(), Ok(Register::C));
    assert_eq!("M".parse::<Register>(), Ok(Register::M));
    // a register's name reads back as the register
    for r in [Register::A, Register::B, Register::C, Register::M, Register::SP, Register::PC, Register::BP, Register::Flags] {
        assert_eq!(r.name().parse::<Register>(), Ok(r));
    }
    assert_eq!("X".parse::<Register>(), Err("unknown register: X".to_string()));
    assert_eq!(Register::Flags.name(), "Flags");
}

#[test]
fn memory_read_write() {
    let mut m = LinearMemory::new(4);
    assert!(m.write2(1, 0xbeef));
    assert_eq!(m.read(1), Some(0xef));
    assert_eq!(m.read(2), Some(0xbe));
    assert_eq!(m.read2(1), Some(0xbeef));
    assert!(!m.write(4, 1));
    assert_eq!(m.read(4), None);
    assert!(!m.write2(3, 1));
    assert!(m.copy(1, 0, 2));
    assert_eq!(m.read2(0), Some(0xbeef));
    assert!(!m.copy(3, 0, 2));
}

fn load(m: &mut Machine, program: &[Instruction]) {
    for (i, ins) in program.iter().enumerate() {
        assert!(m.memory.write2((2 * i) as u16, ins.encode_u16()));
    }
}

#[test]
fn machine_runs_stack_program() {
    let mut m = Machine::new();
    m.set_register(Register::SP, 0x1000);
    load(&mut m, &[Push(5), Push(7), AddStack, PopRegister(Register::A), Push(2), Push(9), SubStack, PopRegister(Register::B), Signal(3)]);
    for _ in 0..8 {
        assert_eq!(m.step(), Ok(StepAction::Continue));
    }
    assert_eq!(m.get_register(Register::A), 12);
    assert_eq!(m.get_register(Register::B), 7);
    assert_eq!(m.get_register(Register::SP), 0x1000);
    assert_eq!(m.get_register(Register::PC), 16);
    assert_eq!(m.step(), Ok(StepAction::Signal(3)));
    m.finish_signal(16);
    assert_eq!(m.get_register(Register::PC), 18);
}

#[test]
fn machine_registers_and_errors() {
    let mut m = Machine::new();
    m.set_register(Register::A, 0xffff);
    m.set_register(Register::B, 2);
    load(&mut m, &[AddRegister(Register::A, Register::B), SubRegister(Register::B, Register::A), PopRegister(Register::C)]);
    assert_eq!(m.step(), Ok(StepAction::Continue));
    assert_eq!(m.get_register(Register::A), 1);
    assert_eq!(m.step(), Ok(StepAction::Continue));
    assert_eq!(m.get_register(Register::B), 1);
    assert_eq!(m.step(), Err(VmError::StackUnderflow));
    m.set_register(Register::PC, 0);
    assert!(m.test_flag(Flag::HasJumped));
    assert!(m.memory.write2(0, 0x00ff));
    assert_eq!(m.step(), Err(VmError::Decode(DecodeError::UnknownOpcode(0xff))));
    m.reset();
    assert_eq!(m.get_register(Register::A), 0);
    assert!(!m.test_flag(Flag::HasJumped));
}

#[test]
fn machine_pop_into_pc_jumps() {
    let mut m = Machine::new();
    m.set_register(Register::SP, 0x100);
    load(&mut m, &[Push(40), PopRegister(Register::PC)]);
    m.step().unwrap();
    m.step().unwrap();
    assert_eq!(m.get_register(Register::PC), 40);
}
