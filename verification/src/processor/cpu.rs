//! The processor with paged memory and variable-length instructions.
//!
//! Arithmetic on registers, the program counter and the stack pointer wraps
//! around, as it does in the release build the processor is meant to run as.
use std::collections::HashMap;
use vstd::prelude::*;

pub mod interrupts;
pub mod mmu;

use crate::processor::instructions::{spec_decode_opcode, Instruction};
use crate::translation::{build_translation_table, convert_to_signed, spec_convert_to_signed, translation_map};
use interrupts::{build_interrupt_table, int_writeconsole, interrupt_map, InterruptHandler};
use mmu::{
    addr_add, byte_at, mapped, pages_well_formed, store_byte, store_word, word_at, MMU,
};

verus! {

broadcast use vstd::std_specs::hash::group_hash_axioms;

/// Why an instruction could not be carried out.
#[derive(Clone, Copy, Debug, PartialEq, Eq, Structural)]
pub enum ExecError {
    /// The opcode byte names no instruction.
    IllegalInstruction(u8),
    /// An operand names a register that does not exist.
    IllicitValue(u8),
    /// The destination operand names a register that does not exist.
    IllicitDestination(u8),
    /// An access past the 32-bit address space.
    IllicitMemoryAccess,
    /// No handler is registered for this interrupt code.
    UnknownInterrupt(u32),
}

/// What a step asks of the world around the processor.
#[derive(Clone, Copy, Debug, PartialEq, Eq, Structural)]
pub enum Event {
    /// Nothing: go on with the next step.
    Continue,
    /// Write this byte to the console.
    Output(u8),
    /// Read a byte from the console and hand it to `int_readconsole`.
    Input,
    /// The program halted.
    Halt,
}

/// The state of the processor as the instructions see it.
#[verifier::ext_equal]
pub struct CpuState {
    pub r0: u32,
    pub r1: u32,
    pub r2: u32,
    pub r3: u32,
    pub pc: usize,
    pub sp: usize,
    pub fl: u8,
    pub mem: Map<usize, Seq<u8>>,
}

/// The value of register `r` (one of 0 to 3).
pub open spec fn reg(s: CpuState, r: u8) -> u32 {
    if r == 0 {
        s.r0
    } else if r == 1 {
        s.r1
    } else if r == 2 {
        s.r2
    } else {
        s.r3
    }
}

/// The state with register `r` (one of 0 to 3) set to `v`.
pub open spec fn with_reg(s: CpuState, r: u8, v: u32) -> CpuState {
    if r == 0 {
        CpuState { r0: v, ..s }
    } else if r == 1 {
        CpuState { r1: v, ..s }
    } else if r == 2 {
        CpuState { r2: v, ..s }
    } else {
        CpuState { r3: v, ..s }
    }
}

/// Reading register `r`: registers 0 to 3 exist, any other is refused.
pub open spec fn spec_get_reg(s: CpuState, r: u8) -> Result<u32, ExecError> {
    if r <= 3 {
        Ok(reg(s, r))
    } else {
        Err(ExecError::IllicitValue(r))
    }
}

/// Reading the byte at `a`: zero where nothing was ever written.
pub open spec fn rd8(s: CpuState, a: usize) -> Result<u8, ExecError> {
    Ok(byte_at(s.mem, a))
}

/// Reading the big-endian word at `a`: refused past the 32-bit space.
pub open spec fn rd32(s: CpuState, a: usize) -> Result<u32, ExecError> {
    if a > u32::MAX {
        Err(ExecError::IllicitMemoryAccess)
    } else {
        Ok(word_at(s.mem, a))
    }
}

/// The result an arithmetic or logic instruction computes from the old
/// value of its destination and its source.
pub open spec fn alu(i: Instruction, d: u32, v: u32) -> u32 {
    match i {
        Instruction::AddReg | Instruction::AddImm => vstd::wrapping::u32_specs::wrapping_add(d, v),
        Instruction::SubReg | Instruction::SubImm => vstd::wrapping::u32_specs::wrapping_sub(d, v),
        Instruction::MulReg | Instruction::MulImm => vstd::wrapping::u32_specs::wrapping_mul(d, v),
        Instruction::AndReg | Instruction::AndImm => d & v,
        Instruction::OrReg | Instruction::OrImm => d | v,
        Instruction::XorReg | Instruction::XorImm => d ^ v,
        _ => v,
    }
}

/// The high and low nibble of a register-pair operand byte.
pub open spec fn high_nibble(b: u8) -> u8 {
    (b & 0xf0) >> 4
}

pub open spec fn low_nibble(b: u8) -> u8 {
    b & 0x0f
}

/// An instruction with a register-pair operand byte (`dest << 4 | src`):
/// add, sub, mul, and, or, xor and mov. Two bytes long.
pub open spec fn spec_reg_form(s: CpuState, i: Instruction) -> (CpuState, Result<usize, ExecError>) {
    match rd8(s, addr_add(s.pc, 1)) {
        Err(e) => (s, Err(e)),
        Ok(b) => {
            let dest = high_nibble(b);
            let src = low_nibble(b);
            if src > 3 {
                (s, Err(ExecError::IllicitValue(src)))
            } else if dest > 3 {
                (s, Err(ExecError::IllicitDestination(dest)))
            } else {
                (
                    with_reg(
                        CpuState { fl: carried(s.fl, i, reg(s, dest), reg(s, src)), ..s },
                        dest,
                        alu(i, reg(s, dest), reg(s, src)),
                    ),
                    Ok(2),
                )
            }
        },
    }
}

/// An instruction with a register byte and a 32-bit immediate: add, sub,
/// mul, and, or, xor and mov. Six bytes long.
pub open spec fn spec_imm_form(s: CpuState, i: Instruction) -> (CpuState, Result<usize, ExecError>) {
    match rd8(s, addr_add(s.pc, 1)) {
        Err(e) => (s, Err(e)),
        Ok(dest) => match rd32(s, addr_add(s.pc, 2)) {
            Err(e) => (s, Err(e)),
            Ok(v) => {
                if dest > 3 {
                    (s, Err(ExecError::IllicitDestination(dest)))
                } else {
                    (
                        with_reg(
                            CpuState { fl: carried(s.fl, i, reg(s, dest), v), ..s },
                            dest,
                            alu(i, reg(s, dest), v),
                        ),
                        Ok(6),
                    )
                }
            },
        },
    }
}

/// Whether `add`, `sub` or `mul` of `d` and `v` leaves the 32-bit range:
/// above it for `add` and `mul`, below zero for `sub`.
pub open spec fn overflows(i: Instruction, d: u32, v: u32) -> bool {
    match i {
        Instruction::AddReg | Instruction::AddImm => d + v > u32::MAX,
        Instruction::SubReg | Instruction::SubImm => d < v,
        Instruction::MulReg | Instruction::MulImm => d * v > u32::MAX,
        _ => false,
    }
}

/// Whether `i` is one of the arithmetic instructions `add`, `sub`, `mul`.
pub open spec fn is_arithmetic(i: Instruction) -> bool {
    match i {
        Instruction::AddReg | Instruction::AddImm | Instruction::SubReg | Instruction::SubImm
        | Instruction::MulReg | Instruction::MulImm => true,
        _ => false,
    }
}

/// The flag register after instruction `i` on `d` and `v`: an arithmetic
/// instruction sets the CARRY bit (2) when it overflows and clears it when it
/// does not; the other instructions leave the flags as they are.
pub open spec fn carried(fl: u8, i: Instruction, d: u32, v: u32) -> u8 {
    if is_arithmetic(i) {
        if overflows(i, d, v) {
            fl | 2
        } else {
            fl & 0xfd
        }
    } else {
        fl
    }
}

/// The flag register after comparing `t` with `o`: the ZERO bit (1) says
/// whether they are equal, the GREATER bit (4) whether `t` is greater; the
/// other bits stay as they were.
pub open spec fn compared(fl: u8, t: u32, o: u32) -> u8 {
    (fl & 0xfa) | (if t == o {
        1u8
    } else {
        0u8
    }) | (if t > o {
        4u8
    } else {
        0u8
    })
}

/// `cmp`: compares two registers.
pub open spec fn spec_cmp_reg(s: CpuState) -> (CpuState, Result<usize, ExecError>) {
    match rd8(s, addr_add(s.pc, 1)) {
        Err(e) => (s, Err(e)),
        Ok(b) => {
            let test = high_nibble(b);
            let src = low_nibble(b);
            if src > 3 {
                (s, Err(ExecError::IllicitValue(src)))
            } else if test > 3 {
                (s, Err(ExecError::IllicitValue(test)))
            } else {
                (CpuState { fl: compared(s.fl, reg(s, test), reg(s, src)), ..s }, Ok(2))
            }
        },
    }
}

/// `cmpi`: compares a register with an immediate.
pub open spec fn spec_cmp_imm(s: CpuState) -> (CpuState, Result<usize, ExecError>) {
    match rd8(s, addr_add(s.pc, 1)) {
        Err(e) => (s, Err(e)),
        Ok(test) => match rd32(s, addr_add(s.pc, 2)) {
            Err(e) => (s, Err(e)),
            Ok(v) => {
                if test > 3 {
                    (s, Err(ExecError::IllicitValue(test)))
                } else {
                    (CpuState { fl: compared(s.fl, reg(s, test), v), ..s }, Ok(6))
                }
            },
        },
    }
}

/// The flag register with bit `flag` (taken modulo eight) set when `val` is
/// not zero and cleared when it is.
pub open spec fn flag_set_to(fl: u8, val: u8, flag: u8) -> u8 {
    let bit = vstd::wrapping::u8_specs::wrapping_shl(1u8, flag as u32);
    if val != 0 {
        fl | bit
    } else {
        fl & !bit
    }
}

/// `sfgi`: sets the flag numbered by an immediate to the value that follows.
pub open spec fn spec_sfg_imm(s: CpuState) -> (CpuState, Result<usize, ExecError>) {
    match rd8(s, addr_add(s.pc, 1)) {
        Err(e) => (s, Err(e)),
        Ok(flag) => match rd8(s, addr_add(s.pc, 2)) {
            Err(e) => (s, Err(e)),
            Ok(val) => (CpuState { fl: flag_set_to(s.fl, val, flag), ..s }, Ok(3)),
        },
    }
}

/// `sfgr`: sets the flag numbered by a register (its low byte) to the value
/// that follows.
pub open spec fn spec_sfg_reg(s: CpuState) -> (CpuState, Result<usize, ExecError>) {
    match rd8(s, addr_add(s.pc, 1)) {
        Err(e) => (s, Err(e)),
        Ok(r) => match rd8(s, addr_add(s.pc, 2)) {
            Err(e) => (s, Err(e)),
            Ok(val) => {
                if r > 3 {
                    (s, Err(ExecError::IllicitValue(r)))
                } else {
                    (CpuState { fl: flag_set_to(s.fl, val, (reg(s, r) % 256) as u8), ..s }, Ok(3))
                }
            },
        },
    }
}

/// `ldi` and `mova`: loads a register from the address given as immediate.
pub open spec fn spec_ld_imm(s: CpuState) -> (CpuState, Result<usize, ExecError>) {
    match rd8(s, addr_add(s.pc, 1)) {
        Err(e) => (s, Err(e)),
        Ok(dest) => match rd32(s, addr_add(s.pc, 2)) {
            Err(e) => (s, Err(e)),
            Ok(addr) => {
                if dest > 3 {
                    (s, Err(ExecError::IllicitDestination(dest)))
                } else {
                    match rd32(s, addr as usize) {
                        Err(e) => (s, Err(e)),
                        Ok(v) => (with_reg(s, dest, v), Ok(6)),
                    }
                }
            },
        },
    }
}

/// `ldr`: loads a register from the address held in another register.
pub open spec fn spec_ld_reg(s: CpuState) -> (CpuState, Result<usize, ExecError>) {
    match rd8(s, addr_add(s.pc, 1)) {
        Err(e) => (s, Err(e)),
        Ok(b) => {
            let dest = high_nibble(b);
            let src = low_nibble(b);
            if src > 3 {
                (s, Err(ExecError::IllicitValue(src)))
            } else if dest > 3 {
                (s, Err(ExecError::IllicitDestination(dest)))
            } else {
                match rd32(s, reg(s, src) as usize) {
                    Err(e) => (s, Err(e)),
                    Ok(v) => (with_reg(s, dest, v), Ok(2)),
                }
            }
        },
    }
}

/// `movr`: stores a register at the address given as immediate.
pub open spec fn spec_mov_daddr_sreg(s: CpuState) -> (CpuState, Result<usize, ExecError>) {
    match rd32(s, addr_add(s.pc, 1)) {
        Err(e) => (s, Err(e)),
        Ok(dest) => match rd8(s, addr_add(s.pc, 5)) {
            Err(e) => (s, Err(e)),
            Ok(src) => {
                if src > 3 {
                    (s, Err(ExecError::IllicitValue(src)))
                } else {
                    (CpuState { mem: store_word(s.mem, dest as usize, reg(s, src)), ..s }, Ok(6))
                }
            },
        },
    }
}

/// `swp`: exchanges two registers.
pub open spec fn spec_swp(s: CpuState) -> (CpuState, Result<usize, ExecError>) {
    match rd8(s, addr_add(s.pc, 1)) {
        Err(e) => (s, Err(e)),
        Ok(b) => {
            let r1 = high_nibble(b);
            let r2 = low_nibble(b);
            if r2 > 3 {
                (s, Err(ExecError::IllicitValue(r2)))
            } else if r1 > 3 {
                (s, Err(ExecError::IllicitValue(r1)))
            } else {
                (with_reg(with_reg(s, r2, reg(s, r1)), r1, reg(s, r2)), Ok(2))
            }
        },
    }
}

/// Pushing `val`: the stack pointer moves up four bytes and the value is
/// stored there; a stack pointer past the 32-bit space refuses the store
/// (the pointer has moved all the same).
pub open spec fn pushed(s: CpuState, val: u32, len: usize) -> (CpuState, Result<usize, ExecError>) {
    let sp = addr_add(s.sp, 4);
    if sp > u32::MAX {
        (CpuState { sp, ..s }, Err(ExecError::IllicitMemoryAccess))
    } else {
        (CpuState { sp, mem: store_word(s.mem, sp, val), ..s }, Ok(len))
    }
}

/// `pusha`: pushes an immediate.
pub open spec fn spec_push_addr(s: CpuState) -> (CpuState, Result<usize, ExecError>) {
    match rd32(s, addr_add(s.pc, 1)) {
        Err(e) => (s, Err(e)),
        Ok(val) => pushed(s, val, 5),
    }
}

/// `push`: pushes a register.
pub open spec fn spec_push_reg(s: CpuState) -> (CpuState, Result<usize, ExecError>) {
    match rd8(s, addr_add(s.pc, 1)) {
        Err(e) => (s, Err(e)),
        Ok(r) => {
            if r > 3 {
                (s, Err(ExecError::IllicitValue(r)))
            } else {
                pushed(s, reg(s, r), 2)
            }
        },
    }
}

/// `pop`: reads the word at the stack pointer into a register, and moves the
/// stack pointer down four bytes (also when the register does not exist).
pub open spec fn spec_pop(s: CpuState) -> (CpuState, Result<usize, ExecError>) {
    match rd8(s, addr_add(s.pc, 1)) {
        Err(e) => (s, Err(e)),
        Ok(dest) => match rd32(s, s.sp) {
            Err(e) => (s, Err(e)),
            Ok(o) => {
                let s2 = CpuState { sp: vstd::wrapping::usize_specs::wrapping_sub(s.sp, 4), ..s };
                if dest > 3 {
                    (s2, Err(ExecError::IllicitDestination(dest)))
                } else {
                    (with_reg(s2, dest, o), Ok(2))
                }
            },
        },
    }
}

/// The program counter moved by a signed offset.
pub open spec fn jumped(pc: usize, short: i32) -> usize {
    if short < 0 {
        vstd::wrapping::usize_specs::wrapping_sub(pc, (-short) as usize)
    } else {
        addr_add(pc, short as usize)
    }
}

/// `jmp`: jumps to an absolute address.
pub open spec fn spec_jmp_addr(s: CpuState) -> (CpuState, Result<Event, ExecError>) {
    match rd32(s, addr_add(s.pc, 1)) {
        Err(e) => (s, Err(e)),
        Ok(a) => (CpuState { pc: a as usize, ..s }, Ok(Event::Continue)),
    }
}

/// `jmpi`: jumps by a sign-magnitude offset from this instruction.
pub open spec fn spec_jmp_imm(s: CpuState) -> (CpuState, Result<Event, ExecError>) {
    match rd32(s, addr_add(s.pc, 1)) {
        Err(e) => (s, Err(e)),
        Ok(a) => (
            CpuState { pc: jumped(s.pc, spec_convert_to_signed(a)), ..s },
            Ok(Event::Continue),
        ),
    }
}

/// `jmpl`: jumps to the address held in a register.
pub open spec fn spec_jmp_reg(s: CpuState) -> (CpuState, Result<Event, ExecError>) {
    match rd8(s, addr_add(s.pc, 1)) {
        Err(e) => (s, Err(e)),
        Ok(r) => {
            if r > 3 {
                (s, Err(ExecError::IllicitValue(r)))
            } else {
                (CpuState { pc: reg(s, r) as usize, ..s }, Ok(Event::Continue))
            }
        },
    }
}

/// Whether the ZERO flag is set.
pub open spec fn zero_flag(fl: u8) -> bool {
    fl & 1 == 1
}

/// A conditional jump: with the ZERO flag set it is cleared and control goes
/// to `target`; otherwise control moves on by `len` bytes.
pub open spec fn branched(s: CpuState, target: usize, len: usize) -> CpuState {
    if zero_flag(s.fl) {
        CpuState { fl: s.fl & 0xfe, pc: target, ..s }
    } else {
        CpuState { pc: addr_add(s.pc, len), ..s }
    }
}

/// `jeqi`: jumps by a sign-magnitude offset from this instruction when the
/// ZERO flag is set.
pub open spec fn spec_jeq_imm(s: CpuState) -> (CpuState, Result<Event, ExecError>) {
    match rd32(s, addr_add(s.pc, 1)) {
        Err(e) => (s, Err(e)),
        Ok(a) => (branched(s, jumped(s.pc, spec_convert_to_signed(a)), 5), Ok(Event::Continue)),
    }
}

/// `jeq`: jumps to the address held in a register when the ZERO flag is set.
pub open spec fn spec_jeq_reg(s: CpuState) -> (CpuState, Result<Event, ExecError>) {
    match rd8(s, addr_add(s.pc, 1)) {
        Err(e) => (s, Err(e)),
        Ok(r) => {
            if r > 3 {
                (s, Err(ExecError::IllicitValue(r)))
            } else {
                (branched(s, reg(s, r) as usize, 2), Ok(Event::Continue))
            }
        },
    }
}

/// Raising interrupt `code`: 0x80 writes the byte at the address in r0 to
/// the console, 0xA0 reads one from it; no other code is known.
pub open spec fn spec_interrupt(s: CpuState, code: u32) -> Result<Event, ExecError> {
    if code == 0x80 {
        match rd8(s, s.r0 as usize) {
            Err(e) => Err(e),
            Ok(b) => Ok(Event::Output(b)),
        }
    } else if code == 0xa0 {
        Ok(Event::Input)
    } else {
        Err(ExecError::UnknownInterrupt(code))
    }
}

/// `int`: raises the interrupt given as immediate.
pub open spec fn spec_int_imm(s: CpuState) -> Result<Event, ExecError> {
    match rd32(s, addr_add(s.pc, 1)) {
        Err(e) => Err(e),
        Ok(code) => spec_interrupt(s, code),
    }
}

/// `intr`: raises the interrupt held in a register.
pub open spec fn spec_int_reg(s: CpuState) -> Result<Event, ExecError> {
    match rd8(s, addr_add(s.pc, 1)) {
        Err(e) => Err(e),
        Ok(r) => {
            if r > 3 {
                Err(ExecError::IllicitValue(r))
            } else {
                spec_interrupt(s, reg(s, r))
            }
        },
    }
}

/// A step of an instruction that falls through: on success the program
/// counter moves past it.
pub open spec fn advanced(r: (CpuState, Result<usize, ExecError>)) -> (CpuState, Result<Event, ExecError>) {
    match r.1 {
        Err(e) => (r.0, Err(e)),
        Ok(len) => (CpuState { pc: addr_add(r.0.pc, len), ..r.0 }, Ok(Event::Continue)),
    }
}

/// What executing instruction `i` (found at the program counter) does.
pub open spec fn spec_execute(s: CpuState, i: Instruction) -> (CpuState, Result<Event, ExecError>) {
    match i {
        Instruction::AddReg | Instruction::SubReg | Instruction::MulReg | Instruction::AndReg
        | Instruction::OrReg | Instruction::XorReg | Instruction::MovDregSreg => advanced(
            spec_reg_form(s, i),
        ),
        Instruction::AddImm | Instruction::SubImm | Instruction::MulImm | Instruction::AndImm
        | Instruction::OrImm | Instruction::XorImm | Instruction::MovDregSimm => advanced(
            spec_imm_form(s, i),
        ),
        Instruction::CmpReg => advanced(spec_cmp_reg(s)),
        Instruction::CmpImm => advanced(spec_cmp_imm(s)),
        Instruction::MovDregSaddr | Instruction::Ld => advanced(spec_ld_imm(s)),
        Instruction::LdReg => advanced(spec_ld_reg(s)),
        Instruction::MovDaddrSreg => advanced(spec_mov_daddr_sreg(s)),
        Instruction::SfgImm => advanced(spec_sfg_imm(s)),
        Instruction::SfgReg => advanced(spec_sfg_reg(s)),
        Instruction::Swp => advanced(spec_swp(s)),
        Instruction::PushAddr => advanced(spec_push_addr(s)),
        Instruction::PushReg => advanced(spec_push_reg(s)),
        Instruction::Pop => advanced(spec_pop(s)),
        Instruction::Nop => (CpuState { pc: addr_add(s.pc, 1), ..s }, Ok(Event::Continue)),
        Instruction::JmpAddr => spec_jmp_addr(s),
        Instruction::JmpImm => spec_jmp_imm(s),
        Instruction::JmpReg => spec_jmp_reg(s),
        Instruction::JeqImm => spec_jeq_imm(s),
        Instruction::JeqReg => spec_jeq_reg(s),
        Instruction::IntImm => (s, spec_int_imm(s)),
        Instruction::IntReg => (s, spec_int_reg(s)),
        Instruction::Hlt => (s, Ok(Event::Halt)),
    }
}

/// One step of the processor: fetch the opcode at the program counter,
/// decode it and execute it.
pub open spec fn spec_step(s: CpuState) -> (CpuState, Result<Event, ExecError>) {
    match rd8(s, s.pc) {
        Err(e) => (s, Err(e)),
        Ok(op) => match spec_decode_opcode(op) {
            None => (s, Err(ExecError::IllegalInstruction(op))),
            Some(i) => spec_execute(s, i),
        },
    }
}

/// The processor.
pub struct CPU {
    r0: u32,
    r1: u32,
    r2: u32,
    r3: u32,
    pc: usize,
    sp: usize,
    fl: u8,
    pub memory: MMU,
    interrupt_table: HashMap<u32, InterruptHandler>,
    prog: Vec<u8>,
    decode_table: HashMap<u8, Instruction>,
}

impl CPU {
    /// The registers and the memory.
    pub closed spec fn view(&self) -> CpuState {
        CpuState {
            r0: self.r0,
            r1: self.r1,
            r2: self.r2,
            r3: self.r3,
            pc: self.pc,
            sp: self.sp,
            fl: self.fl,
            mem: self.memory@,
        }
    }

    /// The program the processor was given.
    pub closed spec fn program(&self) -> Seq<u8> {
        self.prog@
    }

    /// The memory is well formed and the lookup tables are the standard ones.
    pub closed spec fn wf(&self) -> bool {
        &&& self.memory.wf()
        &&& self.decode_table@ == translation_map()
        &&& self.interrupt_table@ == interrupt_map()
    }

    /// In a well-formed processor every page of memory that exists is a
    /// whole page.
    pub proof fn lemma_memory_wf(&self)
        requires
            self.wf(),
        ensures
            pages_well_formed(self@.mem),
    {
    }

    /// A processor holding `prog`, with every register zero and an empty
    /// memory; `run` loads the program into memory.
    pub fn init(prog: Vec<u8>) -> (c: Self)
        ensures
            c.wf(),
            c.program() == prog@,
            c@ == (CpuState { r0: 0, r1: 0, r2: 0, r3: 0, pc: 0, sp: 0, fl: 0, mem: Map::empty() }),
    {
        CPU {
            r0: 0,
            r1: 0,
            r2: 0,
            r3: 0,
            pc: 0,
            sp: 0,
            fl: 0,
            memory: MMU::new(),
            prog,
            interrupt_table: build_interrupt_table(),
            decode_table: build_translation_table(),
        }
    }

    /// The value of register `r`; only registers 0 to 3 exist.
    pub fn get_reg(&self, r: u8) -> (v: Result<u32, ExecError>)
        ensures
            v == spec_get_reg(self@, r),
    {
        match r {
            0 => Ok(self.r0),
            1 => Ok(self.r1),
            2 => Ok(self.r2),
            3 => Ok(self.r3),
            _ => Err(ExecError::IllicitValue(r)),
        }
    }

    /// Sets register `r` to `v`; only registers 0 to 3 exist, and any other
    /// leaves the processor as it was.
    pub fn set_reg(&mut self, r: u8, v: u32) -> (res: Result<(), ExecError>)
        ensures
            r <= 3 ==> res is Ok && final(self)@ == with_reg(old(self)@, r, v),
            r > 3 ==> res == Err::<(), ExecError>(ExecError::IllicitValue(r)) && final(self)@ == old(
                self,
            )@,
            final(self).program() == old(self).program(),
            final(self).wf() == old(self).wf(),
    {
        match r {
            0 => self.r0 = v,
            1 => self.r1 = v,
            2 => self.r2 = v,
            3 => self.r3 = v,
            _ => return Err(ExecError::IllicitValue(r)),
        };
        Ok(())
    }

    /// Whether any of the bits of `flag` is set in the flag register.
    pub fn is_flag_set(&self, flag: u8) -> (r: bool)
        ensures
            r == (flag & self@.fl != 0),
    {
        let v = flag & self.fl;
        match v {
            0 => false,
            _ => true,
        }
    }
    /// The program counter.
    pub fn pc(&self) -> (r: usize)
        ensures
            r == self@.pc,
    {
        self.pc
    }

    /// The stack pointer.
    pub fn sp(&self) -> (r: usize)
        ensures
            r == self@.sp,
    {
        self.sp
    }

    /// The flag register.
    pub fn flags(&self) -> (r: u8)
        ensures
            r == self@.fl,
    {
        self.fl
    }

    /// The byte at address `a`.
    pub fn fetch8(&self, a: usize) -> (r: Result<u8, ExecError>)
        requires
            self.wf(),
        ensures
            r == rd8(self@, a),
    {
        Ok(self.memory.read(a))
    }

    /// The big-endian word at address `a`.
    pub fn fetch32(&self, a: usize) -> (r: Result<u32, ExecError>)
        requires
            self.wf(),
        ensures
            r == rd32(self@, a),
    {
        if a > u32::MAX as usize {
            return Err(ExecError::IllicitMemoryAccess);
        }
        match self.memory.get_u32(a) {
            Ok(v) => Ok(v),
            Err(_) => Err(ExecError::IllicitMemoryAccess),
        }
    }

    /// Writes `v` at address `a` of memory, creating its page if needed.
    pub fn write_byte(&mut self, a: usize, v: u8)
        requires
            old(self).wf(),
        ensures
            final(self).wf(),
            final(self).program() == old(self).program(),
            final(self)@ == (CpuState { mem: store_byte(old(self)@.mem, a, v), ..old(self)@ }),
    {
        self.memory.write(a, v);
    }

    /// Loads the program into memory from address 0 on.
    pub fn load_program(&mut self)
        requires
            old(self).wf(),
        ensures
            final(self).wf(),
            final(self).program() == old(self).program(),
            final(self)@ == (CpuState {
                mem: loaded(old(self)@.mem, old(self).program(), old(self).program().len()),
                ..old(self)@
            }),
    {
        let n = self.prog.len();
        let mut i: usize = 0;
        while i < n
            invariant
                self.wf(),
                n == self.prog@.len(),
                self.prog@ == old(self).program(),
                0 <= i <= n,
                self@ == (CpuState {
                    mem: loaded(old(self)@.mem, old(self).program(), i as nat),
                    ..old(self)@
                }),
            decreases n - i,
        {
            let v = self.prog[i];
            self.memory.write(i, v);
            i = i + 1;
        }
    }

    /// The result of an arithmetic or logic instruction.
    fn compute(i: Instruction, d: u32, v: u32) -> (r: u32)
        ensures
            r == alu(i, d, v),
    {
        match i {
            Instruction::AddReg | Instruction::AddImm => d.wrapping_add(v),
            Instruction::SubReg | Instruction::SubImm => d.wrapping_sub(v),
            Instruction::MulReg | Instruction::MulImm => d.wrapping_mul(v),
            Instruction::AndReg | Instruction::AndImm => d & v,
            Instruction::OrReg | Instruction::OrImm => d | v,
            Instruction::XorReg | Instruction::XorImm => d ^ v,
            _ => v,
        }
    }

    /// The flags after instruction `i` on `d` and `v`.
    pub(crate) fn carry_flags(fl: u8, i: Instruction, d: u32, v: u32) -> (r: u8)
        ensures
            r == carried(fl, i, d, v),
    {
        match i {
            Instruction::AddReg | Instruction::AddImm => if d.checked_add(v).is_none() {
                fl | 2
            } else {
                fl & 0xfd
            },
            Instruction::SubReg | Instruction::SubImm => if d < v {
                fl | 2
            } else {
                fl & 0xfd
            },
            Instruction::MulReg | Instruction::MulImm => if d.checked_mul(v).is_none() {
                fl | 2
            } else {
                fl & 0xfd
            },
            _ => fl,
        }
    }

    /// The flags with bit `flag` set to whether `val` is non-zero.
    fn set_flag(fl: u8, val: u8, flag: u8) -> (r: u8)
        ensures
            r == flag_set_to(fl, val, flag),
    {
        let bit = 1u8.wrapping_shl(flag as u32);
        if val != 0 {
            fl | bit
        } else {
            fl & !bit
        }
    }

    /// The flags after comparing `t` with `o`.
    pub(crate) fn compare_flags(fl: u8, t: u32, o: u32) -> (r: u8)
        ensures
            r == compared(fl, t, o),
    {
        let z: u8 = if t == o {
            1
        } else {
            0
        };
        let g: u8 = if t > o {
            4
        } else {
            0
        };
        (fl & 0xfa) | z | g
    }

    /// Applies arithmetic, logic or move instruction `i` with source value
    /// `v` to register `dest`, setting the CARRY flag as `carried` says.
    fn apply(&mut self, i: Instruction, dest: u8, v: u32) -> (r: Result<(), ExecError>)
        requires
            old(self).wf(),
        ensures
            final(self).wf(),
            final(self).program() == old(self).program(),
            dest > 3 ==> r == Err::<(), ExecError>(ExecError::IllicitDestination(dest)),
            dest > 3 ==> final(self)@ == old(self)@,
            dest <= 3 ==> r is Ok && final(self)@ == with_reg(
                CpuState { fl: carried(old(self)@.fl, i, reg(old(self)@, dest), v), ..old(self)@ },
                dest,
                alu(i, reg(old(self)@, dest), v),
            ),
    {
        if dest > 3 {
            return Err(ExecError::IllicitDestination(dest));
        }
        let d = match dest {
            0 => self.r0,
            1 => self.r1,
            2 => self.r2,
            _ => self.r3,
        };
        self.fl = Self::carry_flags(self.fl, i, d, v);
        let _ = self.set_reg(dest, Self::compute(i, d, v));
        Ok(())
    }

    /// Splits a register-pair operand byte into its two register numbers.
    fn nibbles(b: u8) -> (r: (u8, u8))
        ensures
            r.0 == high_nibble(b),
            r.1 == low_nibble(b),
            r.0 < 16,
            r.1 < 16,
    {
        assert((b & 0xf0) >> 4 < 16 && b & 0x0f < 16) by (bit_vector);
        ((b & 0xf0) >> 4, b & 0x0f)
    }

    /// Carries out a register-pair arithmetic, logic or move instruction.
    fn reg_form(&mut self, i: Instruction) -> (r: Result<usize, ExecError>)
        requires
            old(self).wf(),
        ensures
            final(self).wf(),
            final(self).program() == old(self).program(),
            (final(self)@, r) == spec_reg_form(old(self)@, i),
    {
        let b = self.fetch8(self.pc.wrapping_add(1))?;
        let (dest, src) = Self::nibbles(b);
        let v = self.get_reg(src)?;
        self.apply(i, dest, v)?;
        Ok(2)
    }

    /// Carries out an immediate arithmetic, logic or move instruction.
    fn imm_form(&mut self, i: Instruction) -> (r: Result<usize, ExecError>)
        requires
            old(self).wf(),
        ensures
            final(self).wf(),
            final(self).program() == old(self).program(),
            (final(self)@, r) == spec_imm_form(old(self)@, i),
    {
        let dest = self.fetch8(self.pc.wrapping_add(1))?;
        let src = self.fetch32(self.pc.wrapping_add(2))?;
        self.apply(i, dest, src)?;
        Ok(6)
    }

    /// `add`: adds the source register into the destination register.
    fn add_reg(&mut self) -> (r: Result<usize, ExecError>)
        requires
            old(self).wf(),
        ensures
            final(self).wf(),
            final(self).program() == old(self).program(),
            (final(self)@, r) == spec_reg_form(old(self)@, Instruction::AddReg),
    {
        self.reg_form(Instruction::AddReg)
    }

    /// `addi`: adds an immediate into the destination register.
    fn add_imm(&mut self) -> (r: Result<usize, ExecError>)
        requires
            old(self).wf(),
        ensures
            final(self).wf(),
            final(self).program() == old(self).program(),
            (final(self)@, r) == spec_imm_form(old(self)@, Instruction::AddImm),
    {
        self.imm_form(Instruction::AddImm)
    }

    /// `and`: bitwise AND of two registers into the destination.
    fn and_reg(&mut self) -> (r: Result<usize, ExecError>)
        requires
            old(self).wf(),
        ensures
            final(self).wf(),
            final(self).program() == old(self).program(),
            (final(self)@, r) == spec_reg_form(old(self)@, Instruction::AndReg),
    {
        self.reg_form(Instruction::AndReg)
    }

    /// `andi`: bitwise AND with an immediate into the destination.
    fn and_imm(&mut self) -> (r: Result<usize, ExecError>)
        requires
            old(self).wf(),
        ensures
            final(self).wf(),
            final(self).program() == old(self).program(),
            (final(self)@, r) == spec_imm_form(old(self)@, Instruction::AndImm),
    {
        self.imm_form(Instruction::AndImm)
    }

    /// `or`: bitwise OR of two registers into the destination.
    fn or_reg(&mut self) -> (r: Result<usize, ExecError>)
        requires
            old(self).wf(),
        ensures
            final(self).wf(),
            final(self).program() == old(self).program(),
            (final(self)@, r) == spec_reg_form(old(self)@, Instruction::OrReg),
    {
        self.reg_form(Instruction::OrReg)
    }

    /// `ori`: bitwise OR with an immediate into the destination.
    fn or_imm(&mut self) -> (r: Result<usize, ExecError>)
        requires
            old(self).wf(),
        ensures
            final(self).wf(),
            final(self).program() == old(self).program(),
            (final(self)@, r) == spec_imm_form(old(self)@, Instruction::OrImm),
    {
        self.imm_form(Instruction::OrImm)
    }

    /// `xor`: bitwise XOR of two registers into the destination.
    fn xor_reg(&mut self) -> (r: Result<usize, ExecError>)
        requires
            old(self).wf(),
        ensures
            final(self).wf(),
            final(self).program() == old(self).program(),
            (final(self)@, r) == spec_reg_form(old(self)@, Instruction::XorReg),
    {
        self.reg_form(Instruction::XorReg)
    }

    /// `xori`: bitwise XOR with an immediate into the destination.
    fn xor_imm(&mut self) -> (r: Result<usize, ExecError>)
        requires
            old(self).wf(),
        ensures
            final(self).wf(),
            final(self).program() == old(self).program(),
            (final(self)@, r) == spec_imm_form(old(self)@, Instruction::XorImm),
    {
        self.imm_form(Instruction::XorImm)
    }

    /// `mul`: multiplies the destination by the source register.
    fn mul_reg(&mut self) -> (r: Result<usize, ExecError>)
        requires
            old(self).wf(),
        ensures
            final(self).wf(),
            final(self).program() == old(self).program(),
            (final(self)@, r) == spec_reg_form(old(self)@, Instruction::MulReg),
    {
        self.reg_form(Instruction::MulReg)
    }

    /// `muli`: multiplies the destination by an immediate.
    fn mul_imm(&mut self) -> (r: Result<usize, ExecError>)
        requires
            old(self).wf(),
        ensures
            final(self).wf(),
            final(self).program() == old(self).program(),
            (final(self)@, r) == spec_imm_form(old(self)@, Instruction::MulImm),
    {
        self.imm_form(Instruction::MulImm)
    }

    /// `sub`: subtracts the source register from the destination.
    fn sub_reg(&mut self) -> (r: Result<usize, ExecError>)
        requires
            old(self).wf(),
        ensures
            final(self).wf(),
            final(self).program() == old(self).program(),
            (final(self)@, r) == spec_reg_form(old(self)@, Instruction::SubReg),
    {
        self.reg_form(Instruction::SubReg)
    }

    /// `subi`: subtracts an immediate from the destination.
    fn sub_imm(&mut self) -> (r: Result<usize, ExecError>)
        requires
            old(self).wf(),
        ensures
            final(self).wf(),
            final(self).program() == old(self).program(),
            (final(self)@, r) == spec_imm_form(old(self)@, Instruction::SubImm),
    {
        self.imm_form(Instruction::SubImm)
    }

    /// `mov`: copies the source register into the destination.
    fn mov_dreg_sreg(&mut self) -> (r: Result<usize, ExecError>)
        requires
            old(self).wf(),
        ensures
            final(self).wf(),
            final(self).program() == old(self).program(),
            (final(self)@, r) == spec_reg_form(old(self)@, Instruction::MovDregSreg),
    {
        self.reg_form(Instruction::MovDregSreg)
    }

    /// `movi`: sets the destination to an immediate.
    fn mov_dreg_simm(&mut self) -> (r: Result<usize, ExecError>)
        requires
            old(self).wf(),
        ensures
            final(self).wf(),
            final(self).program() == old(self).program(),
            (final(self)@, r) == spec_imm_form(old(self)@, Instruction::MovDregSimm),
    {
        self.imm_form(Instruction::MovDregSimm)
    }

    /// `cmp`: compares two registers, setting the ZERO flag when they are equal.
    fn cmp_reg(&mut self) -> (r: Result<usize, ExecError>)
        requires
            old(self).wf(),
        ensures
            final(self).wf(),
            final(self).program() == old(self).program(),
            (final(self)@, r) == spec_cmp_reg(old(self)@),
    {
        let b = self.fetch8(self.pc.wrapping_add(1))?;
        let (test, src) = Self::nibbles(b);
        let o = self.get_reg(src)?;
        let t = self.get_reg(test)?;
        self.fl = Self::compare_flags(self.fl, t, o);
        Ok(2)
    }

    /// `cmpi`: compares a register with an immediate.
    fn cmp_imm(&mut self) -> (r: Result<usize, ExecError>)
        requires
            old(self).wf(),
        ensures
            final(self).wf(),
            final(self).program() == old(self).program(),
            (final(self)@, r) == spec_cmp_imm(old(self)@),
    {
        let test = self.fetch8(self.pc.wrapping_add(1))?;
        let src = self.fetch32(self.pc.wrapping_add(2))?;
        let t = self.get_reg(test)?;
        self.fl = Self::compare_flags(self.fl, t, src);
        Ok(6)
    }

    /// `sfgi`: sets the flag numbered by an immediate.
    fn sfg_imm(&mut self) -> (r: Result<usize, ExecError>)
        requires
            old(self).wf(),
        ensures
            final(self).wf(),
            final(self).program() == old(self).program(),
            (final(self)@, r) == spec_sfg_imm(old(self)@),
    {
        let flag = self.fetch8(self.pc.wrapping_add(1))?;
        let val = self.fetch8(self.pc.wrapping_add(2))?;
        self.fl = Self::set_flag(self.fl, val, flag);
        Ok(3)
    }

    /// `sfgr`: sets the flag numbered by a register.
    fn sfg_reg(&mut self) -> (r: Result<usize, ExecError>)
        requires
            old(self).wf(),
        ensures
            final(self).wf(),
            final(self).program() == old(self).program(),
            (final(self)@, r) == spec_sfg_reg(old(self)@),
    {
        let r = self.fetch8(self.pc.wrapping_add(1))?;
        let val = self.fetch8(self.pc.wrapping_add(2))?;
        let rv = self.get_reg(r)?;
        let flag = rv as u8;
        assert(flag == (rv % 256) as u8) by (bit_vector)
            requires
                flag == rv as u8,
        ;
        self.fl = Self::set_flag(self.fl, val, flag);
        Ok(3)
    }

    /// Loads a register from the address at `pc + 2` (`ldi`, `mova`).
    fn ld_imm(&mut self) -> (r: Result<usize, ExecError>)
        requires
            old(self).wf(),
        ensures
            final(self).wf(),
            final(self).program() == old(self).program(),
            (final(self)@, r) == spec_ld_imm(old(self)@),
    {
        let dest = self.fetch8(self.pc.wrapping_add(1))?;
        let addr = self.fetch32(self.pc.wrapping_add(2))? as usize;
        match dest {
            0 => self.r0 = self.fetch32(addr)?,
            1 => self.r1 = self.fetch32(addr)?,
            2 => self.r2 = self.fetch32(addr)?,
            3 => self.r3 = self.fetch32(addr)?,
            _ => return Err(ExecError::IllicitDestination(dest)),
        }
        Ok(6)
    }

    /// `ldr`: loads a register from the address held in another register.
    fn ld_reg(&mut self) -> (r: Result<usize, ExecError>)
        requires
            old(self).wf(),
        ensures
            final(self).wf(),
            final(self).program() == old(self).program(),
            (final(self)@, r) == spec_ld_reg(old(self)@),
    {
        let b = self.fetch8(self.pc.wrapping_add(1))?;
        let (dest, src) = Self::nibbles(b);
        let addr = self.get_reg(src)? as usize;
        match dest {
            0 => self.r0 = self.fetch32(addr)?,
            1 => self.r1 = self.fetch32(addr)?,
            2 => self.r2 = self.fetch32(addr)?,
            3 => self.r3 = self.fetch32(addr)?,
            _ => return Err(ExecError::IllicitDestination(dest)),
        }
        Ok(2)
    }

    /// `mova`: moves the word at an immediate address into a register.
    fn mov_dreg_saddr(&mut self) -> (r: Result<usize, ExecError>)
        requires
            old(self).wf(),
        ensures
            final(self).wf(),
            final(self).program() == old(self).program(),
            (final(self)@, r) == spec_ld_imm(old(self)@),
    {
        self.ld_imm()
    }

    /// `movr`: stores a register at an immediate address.
    fn mov_daddr_sreg(&mut self) -> (r: Result<usize, ExecError>)
        requires
            old(self).wf(),
        ensures
            final(self).wf(),
            final(self).program() == old(self).program(),
            (final(self)@, r) == spec_mov_daddr_sreg(old(self)@),
    {
        let dest = self.fetch32(self.pc.wrapping_add(1))?;
        let src = self.fetch8(self.pc.wrapping_add(5))?;
        let o = self.get_reg(src)?;
        match self.memory.write_u32(dest as usize, o) {
            Ok(()) => {},
            Err(_) => return Err(ExecError::IllicitMemoryAccess),
        }
        Ok(6)
    }

    /// `swp`: exchanges two registers.
    fn swp(&mut self) -> (r: Result<usize, ExecError>)
        requires
            old(self).wf(),
        ensures
            final(self).wf(),
            final(self).program() == old(self).program(),
            (final(self)@, r) == spec_swp(old(self)@),
    {
        let b = self.fetch8(self.pc.wrapping_add(1))?;
        let (r1, r2) = Self::nibbles(b);
        let o = self.get_reg(r2)?;
        let t = self.get_reg(r1)?;
        match r2 {
            0 => self.r0 = t,
            1 => self.r1 = t,
            2 => self.r2 = t,
            3 => self.r3 = t,
            _ => return Err(ExecError::IllicitDestination(r2)),
        }
        match r1 {
            0 => self.r0 = o,
            1 => self.r1 = o,
            2 => self.r2 = o,
            3 => self.r3 = o,
            _ => return Err(ExecError::IllicitDestination(r1)),
        }
        Ok(2)
    }

    /// Moves the stack pointer up and stores `val` there.
    fn push(&mut self, val: u32, len: usize) -> (r: Result<usize, ExecError>)
        requires
            old(self).wf(),
        ensures
            final(self).wf(),
            final(self).program() == old(self).program(),
            (final(self)@, r) == pushed(old(self)@, val, len),
    {
        self.sp = self.sp.wrapping_add(4);
        match self.memory.write_u32(self.sp, val) {
            Ok(()) => Ok(len),
            Err(_) => Err(ExecError::IllicitMemoryAccess),
        }
    }

    /// `pusha`: pushes an immediate.
    fn push_addr(&mut self) -> (r: Result<usize, ExecError>)
        requires
            old(self).wf(),
        ensures
            final(self).wf(),
            final(self).program() == old(self).program(),
            (final(self)@, r) == spec_push_addr(old(self)@),
    {
        let val = self.fetch32(self.pc.wrapping_add(1))?;
        self.push(val, 5)
    }

    /// `push`: pushes a register.
    fn push_reg(&mut self) -> (r: Result<usize, ExecError>)
        requires
            old(self).wf(),
        ensures
            final(self).wf(),
            final(self).program() == old(self).program(),
            (final(self)@, r) == spec_push_reg(old(self)@),
    {
        let reg = self.fetch8(self.pc.wrapping_add(1))?;
        let val = self.get_reg(reg)?;
        self.push(val, 2)
    }

    /// `pop`: pops the word at the stack pointer into a register.
    fn pop(&mut self) -> (r: Result<usize, ExecError>)
        requires
            old(self).wf(),
        ensures
            final(self).wf(),
            final(self).program() == old(self).program(),
            (final(self)@, r) == spec_pop(old(self)@),
    {
        let dest = self.fetch8(self.pc.wrapping_add(1))?;
        let o = self.fetch32(self.sp)?;
        self.sp = self.sp.wrapping_sub(4);
        match dest {
            0 => self.r0 = o,
            1 => self.r1 = o,
            2 => self.r2 = o,
            3 => self.r3 = o,
            _ => return Err(ExecError::IllicitDestination(dest)),
        }
        Ok(2)
    }

    /// `nop`: does nothing; one byte long.
    fn nop(&mut self) -> (r: Result<usize, ExecError>)
        ensures
            *final(self) == *old(self),
            r == Ok::<usize, ExecError>(1),
    {
        Ok(1)
    }

    /// `jmp`: jumps to an absolute address.
    fn jmp_addr(&mut self) -> (r: Result<Event, ExecError>)
        requires
            old(self).wf(),
        ensures
            final(self).wf(),
            final(self).program() == old(self).program(),
            (final(self)@, r) == spec_jmp_addr(old(self)@),
    {
        let addr = self.fetch32(self.pc.wrapping_add(1))? as usize;
        self.pc = addr;
        Ok(Event::Continue)
    }

    /// `jmpi`: jumps by a signed offset.
    fn jmp_imm(&mut self) -> (r: Result<Event, ExecError>)
        requires
            old(self).wf(),
        ensures
            final(self).wf(),
            final(self).program() == old(self).program(),
            (final(self)@, r) == spec_jmp_imm(old(self)@),
    {
        let a = self.fetch32(self.pc.wrapping_add(1))?;
        let short = convert_to_signed(a);
        if short < 0 {
            self.pc = self.pc.wrapping_sub((-short) as usize);
        } else {
            self.pc = self.pc.wrapping_add(short as usize);
        }
        Ok(Event::Continue)
    }

    /// `jmpl`: jumps to the address held in a register.
    fn jmp_reg(&mut self) -> (r: Result<Event, ExecError>)
        requires
            old(self).wf(),
        ensures
            final(self).wf(),
            final(self).program() == old(self).program(),
            (final(self)@, r) == spec_jmp_reg(old(self)@),
    {
        let reg = self.fetch8(self.pc.wrapping_add(1))?;
        self.pc = self.get_reg(reg)? as usize;
        Ok(Event::Continue)
    }

    /// `jeqi`: jumps by a signed offset when the ZERO flag is set.
    fn jeq_imm(&mut self) -> (r: Result<Event, ExecError>)
        requires
            old(self).wf(),
        ensures
            final(self).wf(),
            final(self).program() == old(self).program(),
            (final(self)@, r) == spec_jeq_imm(old(self)@),
    {
        let imm = self.fetch32(self.pc.wrapping_add(1))?;
        if self.fl & 0x1 == 1 {
            let short = convert_to_signed(imm);
            self.fl &= 0xfe;
            if short < 0 {
                self.pc = self.pc.wrapping_sub((-short) as usize);
            } else {
                self.pc = self.pc.wrapping_add(short as usize);
            }
        } else {
            self.pc = self.pc.wrapping_add(5);
        }
        Ok(Event::Continue)
    }

    /// `jeq`: jumps to the address held in a register when the ZERO flag is set.
    fn jeq_reg(&mut self) -> (r: Result<Event, ExecError>)
        requires
            old(self).wf(),
        ensures
            final(self).wf(),
            final(self).program() == old(self).program(),
            (final(self)@, r) == spec_jeq_reg(old(self)@),
    {
        let reg = self.fetch8(self.pc.wrapping_add(1))?;
        let o = self.get_reg(reg)?;
        if self.fl & 0x1 == 1 {
            self.fl &= 0xfe;
            self.pc = o as usize;
        } else {
            self.pc = self.pc.wrapping_add(2);
        }
        Ok(Event::Continue)
    }

    /// `int`: raises the interrupt given as immediate.
    fn int_imm(&self) -> (r: Result<Event, ExecError>)
        requires
            self.wf(),
        ensures
            r == spec_int_imm(self@),
    {
        let code = self.fetch32(self.pc.wrapping_add(1))?;
        self.handle_interrupt(code)
    }

    /// `intr`: raises the interrupt held in a register.
    fn int_reg(&self) -> (r: Result<Event, ExecError>)
        requires
            self.wf(),
        ensures
            r == spec_int_reg(self@),
    {
        let reg = self.fetch8(self.pc.wrapping_add(1))?;
        let code = self.get_reg(reg)?;
        self.handle_interrupt(code)
    }

    /// Looks the interrupt code up and runs its handler.
    fn handle_interrupt(&self, code: u32) -> (r: Result<Event, ExecError>)
        requires
            self.wf(),
        ensures
            r == spec_interrupt(self@, code),
    {
        let int_func = match self.interrupt_table.get(&code) {
            Some(a) => *a,
            None => return Err(ExecError::UnknownInterrupt(code)),
        };
        match int_func {
            InterruptHandler::WriteConsole => match int_writeconsole(self) {
                Ok(b) => Ok(Event::Output(b)),
                Err(e) => Err(e),
            },
            InterruptHandler::ReadConsole => Ok(Event::Input),
        }
    }

    /// `hlt`: halts the program.
    fn hlt(&self) -> (r: Result<Event, ExecError>)
        ensures
            r == Ok::<Event, ExecError>(Event::Halt),
    {
        Ok(Event::Halt)
    }

    /// Fetches, decodes and executes the instruction at the program counter.
    /// Instructions that fall through move the program counter past
    /// themselves; jumps set it; an interrupt leaves it where it is and asks
    /// for console output or input.
    pub fn decode_and_execute(&mut self) -> (r: Result<Event, ExecError>)
        requires
            old(self).wf(),
        ensures
            final(self).wf(),
            final(self).program() == old(self).program(),
            (final(self)@, r) == spec_step(old(self)@),
    {
        let inst = self.fetch8(self.pc)?;
        let inst_type = match self.decode_table.get(&inst) {
            Some(a) => *a,
            None => return Err(ExecError::IllegalInstruction(inst)),
        };
        let incr = match inst_type {
            Instruction::AddReg => self.add_reg(),
            Instruction::AddImm => self.add_imm(),
            Instruction::SubReg => self.sub_reg(),
            Instruction::SubImm => self.sub_imm(),
            Instruction::MulReg => self.mul_reg(),
            Instruction::MulImm => self.mul_imm(),
            Instruction::AndReg => self.and_reg(),
            Instruction::AndImm => self.and_imm(),
            Instruction::OrReg => self.or_reg(),
            Instruction::OrImm => self.or_imm(),
            Instruction::XorReg => self.xor_reg(),
            Instruction::XorImm => self.xor_imm(),
            Instruction::CmpReg => self.cmp_reg(),
            Instruction::CmpImm => self.cmp_imm(),
            Instruction::MovDregSreg => self.mov_dreg_sreg(),
            Instruction::MovDregSimm => self.mov_dreg_simm(),
            Instruction::MovDregSaddr => self.mov_dreg_saddr(),
            Instruction::MovDaddrSreg => self.mov_daddr_sreg(),
            Instruction::JmpAddr => {
                return self.jmp_addr();
            },
            Instruction::JmpImm => {
                return self.jmp_imm();
            },
            Instruction::JmpReg => {
                return self.jmp_reg();
            },
            Instruction::JeqImm => {
                return self.jeq_imm();
            },
            Instruction::JeqReg => {
                return self.jeq_reg();
            },
            Instruction::Ld => self.ld_imm(),
            Instruction::LdReg => self.ld_reg(),
            Instruction::SfgImm => self.sfg_imm(),
            Instruction::SfgReg => self.sfg_reg(),
            Instruction::Swp => self.swp(),
            Instruction::PushAddr => self.push_addr(),
            Instruction::PushReg => self.push_reg(),
            Instruction::Pop => self.pop(),
            Instruction::IntImm => {
                return self.int_imm();
            },
            Instruction::IntReg => {
                return self.int_reg();
            },
            Instruction::Nop => self.nop(),
            Instruction::Hlt => {
                return self.hlt();
            },
        }?;
        self.pc = self.pc.wrapping_add(incr);
        Ok(Event::Continue)
    }

    /// Runs at most `fuel` steps, stopping early at the first step that asks
    /// something of the world around the processor or fails.
    pub fn resume(&mut self, fuel: u64) -> (r: Result<Event, ExecError>)
        requires
            old(self).wf(),
        ensures
            final(self).wf(),
            final(self).program() == old(self).program(),
            (final(self)@, r) == spec_run(old(self)@, fuel as nat),
    {
        let mut k: u64 = 0;
        while k < fuel
            invariant
                self.wf(),
                self.program() == old(self).program(),
                0 <= k <= fuel,
                spec_run(old(self)@, fuel as nat) == spec_run(self@, (fuel - k) as nat),
            decreases fuel - k,
        {
            let r = self.decode_and_execute();
            k = k + 1;
            match r {
                Ok(Event::Continue) => {},
                _ => {
                    return r;
                },
            }
        }
        Ok(Event::Continue)
    }

    /// Loads the program into memory and runs at most `fuel` steps of it, as
    /// `resume` does.
    pub fn run(&mut self, fuel: u64) -> (r: Result<Event, ExecError>)
        requires
            old(self).wf(),
        ensures
            final(self).wf(),
            final(self).program() == old(self).program(),
            (final(self)@, r) == spec_run(
                CpuState {
                    mem: loaded(old(self)@.mem, old(self).program(), old(self).program().len()),
                    ..old(self)@
                },
                fuel as nat,
            ),
    {
        self.load_program();
        self.resume(fuel)
    }
}

/// Running at most `n` steps from `s`: steps go on while each one only
/// continues; the first that does anything else, or fails, ends the run.
pub open spec fn spec_run(s: CpuState, n: nat) -> (CpuState, Result<Event, ExecError>)
    decreases n,
{
    if n == 0 {
        (s, Ok(Event::Continue))
    } else {
        let (t, r) = spec_step(s);
        match r {
            Ok(Event::Continue) => spec_run(t, (n - 1) as nat),
            _ => (t, r),
        }
    }
}

/// The memory `m` with the first `n` bytes of `prog` stored from address 0 on.
pub open spec fn loaded(m: Map<usize, Seq<u8>>, prog: Seq<u8>, n: nat) -> Map<usize, Seq<u8>>
    decreases n,
{
    if n == 0 {
        m
    } else {
        store_byte(loaded(m, prog, (n - 1) as nat), (n - 1) as usize, prog[n - 1])
    }
}

/// Reading a register gives what was last written to it, and writing one
/// register leaves the others as they were.
pub proof fn lemma_get_after_set(s: CpuState, r: u8, v: u32, q: u8)
    requires
        r <= 3,
    ensures
        spec_get_reg(with_reg(s, r, v), r) == Ok::<u32, ExecError>(v),
        q != r ==> spec_get_reg(with_reg(s, r, v), q) == spec_get_reg(s, q),
        with_reg(s, r, v).pc == s.pc && with_reg(s, r, v).sp == s.sp && with_reg(s, r, v).fl == s.fl
            && with_reg(s, r, v).mem == s.mem,
{
}

/// A comparison decides the ZERO flag (equal) and the GREATER flag (the
/// tested value is greater) from the two values alone, whatever they were
/// before, and leaves every other flag as it was.
pub proof fn lemma_compare_sets_zero_flag(fl: u8, t: u32, o: u32)
    ensures
        zero_flag(compared(fl, t, o)) == (t == o),
        (compared(fl, t, o) & 4 == 4) == (t > o),
        compared(fl, t, o) & 0xfa == fl & 0xfa,
{
    let z: u8 = if t == o { 1 } else { 0 };
    let g: u8 = if t > o { 4 } else { 0 };
    assert(((fl & 0xfa) | z | g) & 1 == z && ((fl & 0xfa) | z | g) & 4 == g
        && ((fl & 0xfa) | z | g) & 0xfa == fl & 0xfa) by (bit_vector)
        requires
            z == 0 || z == 1,
            g == 0 || g == 4,
    ;
}

/// An arithmetic instruction sets the CARRY flag exactly when it overflows,
/// and leaves every other flag as it was.
pub proof fn lemma_carry_flag(fl: u8, i: Instruction, d: u32, v: u32)
    requires
        is_arithmetic(i),
    ensures
        (carried(fl, i, d, v) & 2 == 2) == overflows(i, d, v),
        carried(fl, i, d, v) & 0xfd == fl & 0xfd,
{
    assert((fl | 2) & 2 == 2 && (fl & 0xfd) & 2 == 0 && (fl | 2) & 0xfd == fl & 0xfd && (fl & 0xfd)
        & 0xfd == fl & 0xfd) by (bit_vector);
}

/// Setting a flag by number sets that bit to whether the value is non-zero
/// and leaves every other bit as it was.
pub proof fn lemma_flag_set_to(fl: u8, val: u8, flag: u8, k: u8)
    requires
        flag < 8,
        k < 8,
    ensures
        (flag_set_to(fl, val, flag) >> k) & 1 == (if k == flag {
            if val != 0 {
                1u8
            } else {
                0u8
            }
        } else {
            (fl >> k) & 1
        }),
{
    let bit = vstd::wrapping::u8_specs::wrapping_shl(1u8, flag as u32);
    assert(bit == 1u8 << flag) by (bit_vector)
        requires
            bit == vstd::wrapping::u8_specs::wrapping_shl(1u8, flag as u32),
            flag < 8,
    ;
    assert(((fl | (1u8 << flag)) >> k) & 1 == (if k == flag { 1u8 } else { (fl >> k) & 1 })
        && ((fl & !(1u8 << flag)) >> k) & 1 == (if k == flag { 0u8 } else { (fl >> k) & 1 }))
        by (bit_vector)
        requires
            flag < 8,
            k < 8,
    ;
}

/// After the program is loaded, memory from address 0 on holds it byte for
/// byte (for programs that fit in the 32-bit address space).
pub proof fn lemma_loaded_reads_program(m: Map<usize, Seq<u8>>, prog: Seq<u8>, n: nat, i: int)
    requires
        pages_well_formed(m),
        n <= prog.len(),
        n <= 0x1_0000_0000,
        0 <= i < n,
    ensures
        pages_well_formed(loaded(m, prog, n)),
        mapped(loaded(m, prog, n), i as usize),
        byte_at(loaded(m, prog, n), i as usize) == prog[i],
    decreases n,
{
    let k = (n - 1) as int;
    lemma_loaded_well_formed(m, prog, (n - 1) as nat);
    mmu::lemma_store_byte_read(loaded(m, prog, (n - 1) as nat), k as usize, prog[k], i as usize);
    if i < k {
        lemma_loaded_reads_program(m, prog, (n - 1) as nat, i);
        let a = i as usize;
        let b = k as usize;
        assert(!mmu::same_place(b, a)) by (bit_vector)
            requires
                a < b,
                b < 0x1_0000_0000,
        ;
    }
}

/// Loading keeps every page whole.
proof fn lemma_loaded_well_formed(m: Map<usize, Seq<u8>>, prog: Seq<u8>, n: nat)
    requires
        pages_well_formed(m),
        n <= prog.len(),
    ensures
        pages_well_formed(loaded(m, prog, n)),
    decreases n,
{
    if n > 0 {
        lemma_loaded_well_formed(m, prog, (n - 1) as nat);
        mmu::lemma_store_byte_read(
            loaded(m, prog, (n - 1) as nat),
            (n - 1) as usize,
            prog[n - 1],
            0,
        );
    }
}

/// A step that fails leaves the processor as it was, but for the stack
/// pointer, which a failed `push` or `pop` has already moved.
#[verifier::spinoff_prover]
#[verifier::rlimit(40)]
pub proof fn lemma_failed_step_keeps_state(s: CpuState)
    ensures
        spec_step(s).1 is Err ==> spec_step(s).0 == (CpuState { sp: spec_step(s).0.sp, ..s }),
{
}

/// What a `pop` gives back of a `push`: after a push of `v` succeeds, and
/// whatever the program counter has moved on to, a `pop` into a register
/// puts `v` there and moves the stack pointer back to where it was before
/// the push.
pub proof fn lemma_pop_returns_pushed(s: CpuState, v: u32, len: usize, u: CpuState, d: u8)
    requires
        pages_well_formed(s.mem),
        pushed(s, v, len).1 is Ok,
        u == (CpuState { pc: u.pc, ..pushed(s, v, len).0 }),
        rd8(u, addr_add(u.pc, 1)) == Ok::<u8, ExecError>(d),
        d <= 3,
    ensures
        spec_pop(u) == (with_reg(CpuState { sp: s.sp, ..u }, d, v), Ok::<usize, ExecError>(2)),
{
    let top = addr_add(s.sp, 4);
    mmu::lemma_word_roundtrip(s.mem, top, v);
    assert(vstd::wrapping::usize_specs::wrapping_sub(top, 4) == s.sp);
}

/// Running in two goes is running once: when the first `a` steps end by
/// merely continuing, `b` more steps from there reach what `a + b` steps
/// reach from the start.
pub proof fn lemma_run_in_two_goes(s: CpuState, a: nat, b: nat)
    requires
        spec_run(s, a).1 == Ok::<Event, ExecError>(Event::Continue),
    ensures
        spec_run(s, a + b) == spec_run(spec_run(s, a).0, b),
    decreases a,
{
    if a > 0 {
        let t = spec_step(s).0;
        assert((a + b - 1) as nat == ((a - 1) as nat + b) as nat);
        lemma_run_in_two_goes(t, (a - 1) as nat, b);
    }
}

/// Pop undoes push, seen from whole steps: after a `push` of register `a`
/// succeeds, and whatever the program counter has moved on to, a `pop` into
/// register `d` puts the pushed value there, moves the stack pointer back to
/// where it was before the push, and changes nothing else but the program
/// counter.
pub proof fn lemma_step_pop_after_push(s: CpuState, u: CpuState, a: u8, d: u8)
    requires
        pages_well_formed(s.mem),
        rd8(s, s.pc) == Ok::<u8, ExecError>(0xd6u8),
        rd8(s, addr_add(s.pc, 1)) == Ok::<u8, ExecError>(a),
        a <= 3,
        spec_step(s).1 == Ok::<Event, ExecError>(Event::Continue),
        u == (CpuState { pc: u.pc, ..spec_step(s).0 }),
        rd8(u, u.pc) == Ok::<u8, ExecError>(0xf1u8),
        rd8(u, addr_add(u.pc, 1)) == Ok::<u8, ExecError>(d),
        d <= 3,
    ensures
        spec_step(u) == (
            CpuState {
                pc: addr_add(u.pc, 2),
                ..with_reg(CpuState { sp: s.sp, ..u }, d, reg(s, a))
            },
            Ok::<Event, ExecError>(Event::Continue),
        ),
{
    lemma_pop_returns_pushed(s, reg(s, a), 2, u, d);
}

/// Pop undoes push, at the contracts of the two instructions: after `push`
/// of register `a` succeeds from `s`, and whatever the program counter has
/// moved on to, `pop` into register `d` puts the pushed value there, moves
/// the stack pointer back to where it was before the push, and changes
/// nothing else.
pub proof fn lemma_pop_undoes_push_reg(s: CpuState, u: CpuState, a: u8, d: u8)
    requires
        pages_well_formed(s.mem),
        rd8(s, addr_add(s.pc, 1)) == Ok::<u8, ExecError>(a),
        a <= 3,
        spec_push_reg(s).1 == Ok::<usize, ExecError>(2),
        u == (CpuState { pc: u.pc, ..spec_push_reg(s).0 }),
        rd8(u, addr_add(u.pc, 1)) == Ok::<u8, ExecError>(d),
        d <= 3,
    ensures
        spec_pop(u) == (with_reg(CpuState { sp: s.sp, ..u }, d, reg(s, a)), Ok::<usize, ExecError>(2)),
{
    lemma_pop_returns_pushed(s, reg(s, a), 2, u, d);
}

/// The two-register instructions do what their names say. With operand byte
/// `b` (destination in its high four bits, source in its low four), the
/// destination register receives its old value plus, minus or times the
/// source (modulo 2^32), or their bitwise AND, OR or XOR; `mov` gives it the
/// source's value. The other registers, the stack pointer and memory stay as
/// they were, and control moves on two bytes.
#[verifier::spinoff_prover]
#[verifier::rlimit(50)]
pub proof fn lemma_register_instructions(s: CpuState, i: Instruction, b: u8)
    requires
        spec_decode_opcode(byte_at(s.mem, s.pc)) == Some(i),
        i == Instruction::AddReg || i == Instruction::SubReg || i == Instruction::MulReg || i
            == Instruction::AndReg || i == Instruction::OrReg || i == Instruction::XorReg || i
            == Instruction::MovDregSreg,
        byte_at(s.mem, addr_add(s.pc, 1)) == b,
        b / 16 <= 3,
        b % 16 <= 3,
    ensures
        ({
            let d = (b / 16) as u8;
            let x = reg(s, d);
            let y = reg(s, (b % 16) as u8);
            let t = spec_step(s).0;
            &&& spec_step(s).1 == Ok::<Event, ExecError>(Event::Continue)
            &&& t.pc == addr_add(s.pc, 2)
            &&& t.sp == s.sp
            &&& t.mem == s.mem
            &&& i == Instruction::AddReg ==> reg(t, d) == (x + y) % 0x1_0000_0000
            &&& i == Instruction::SubReg ==> reg(t, d) == (x - y) % 0x1_0000_0000
            &&& i == Instruction::MulReg ==> reg(t, d) == (x * y) % 0x1_0000_0000
            &&& i == Instruction::AndReg ==> reg(t, d) == x & y
            &&& i == Instruction::OrReg ==> reg(t, d) == x | y
            &&& i == Instruction::XorReg ==> reg(t, d) == x ^ y
            &&& i == Instruction::MovDregSreg ==> reg(t, d) == y
            &&& forall|q: u8| q <= 3 && q != d ==> reg(t, q) == reg(s, q)
        }),
{
    assert(high_nibble(b) == (b / 16) as u8 && low_nibble(b) == (b % 16) as u8) by (bit_vector);
}

/// The register-and-immediate instructions do what their names say: the
/// register named by the byte after the opcode receives its old value plus,
/// minus or times the big-endian word that follows (modulo 2^32), or their
/// bitwise AND, OR or XOR; `movi` gives it the word. The other registers,
/// the stack pointer and memory stay as they were, and control moves on six
/// bytes.
#[verifier::spinoff_prover]
#[verifier::rlimit(50)]
pub proof fn lemma_immediate_instructions(s: CpuState, i: Instruction)
    requires
        spec_decode_opcode(byte_at(s.mem, s.pc)) == Some(i),
        i == Instruction::AddImm || i == Instruction::SubImm || i == Instruction::MulImm || i
            == Instruction::AndImm || i == Instruction::OrImm || i == Instruction::XorImm || i
            == Instruction::MovDregSimm,
        byte_at(s.mem, addr_add(s.pc, 1)) <= 3,
        addr_add(s.pc, 2) <= u32::MAX,
    ensures
        ({
            let d = byte_at(s.mem, addr_add(s.pc, 1));
            let x = reg(s, d);
            let y = word_at(s.mem, addr_add(s.pc, 2));
            let t = spec_step(s).0;
            &&& spec_step(s).1 == Ok::<Event, ExecError>(Event::Continue)
            &&& t.pc == addr_add(s.pc, 6)
            &&& t.sp == s.sp
            &&& t.mem == s.mem
            &&& i == Instruction::AddImm ==> reg(t, d) == (x + y) % 0x1_0000_0000
            &&& i == Instruction::SubImm ==> reg(t, d) == (x - y) % 0x1_0000_0000
            &&& i == Instruction::MulImm ==> reg(t, d) == (x * y) % 0x1_0000_0000
            &&& i == Instruction::AndImm ==> reg(t, d) == x & y
            &&& i == Instruction::OrImm ==> reg(t, d) == x | y
            &&& i == Instruction::XorImm ==> reg(t, d) == x ^ y
            &&& i == Instruction::MovDregSimm ==> reg(t, d) == y
            &&& forall|q: u8| q <= 3 && q != d ==> reg(t, q) == reg(s, q)
        }),
{
}

/// `jmpl` (opcode 0x83) sets the program counter to the value the register
/// named by the next byte holds, whatever the program counter was; nothing
/// else changes.
#[verifier::spinoff_prover]
#[verifier::rlimit(50)]
pub proof fn lemma_jump_to_register(s: CpuState)
    requires
        byte_at(s.mem, s.pc) == 0x83,
        byte_at(s.mem, addr_add(s.pc, 1)) <= 3,
    ensures
        spec_step(s) == (
            CpuState { pc: reg(s, byte_at(s.mem, addr_add(s.pc, 1))) as usize, ..s },
            Ok::<Event, ExecError>(Event::Continue),
        ),
{
}

/// `jmp` (opcode 0x81) sets the program counter to the big-endian word that
/// follows the opcode; nothing else changes.
#[verifier::spinoff_prover]
#[verifier::rlimit(50)]
pub proof fn lemma_jump_to_address(s: CpuState)
    requires
        byte_at(s.mem, s.pc) == 0x81,
        addr_add(s.pc, 1) <= u32::MAX,
    ensures
        spec_step(s) == (
            CpuState { pc: word_at(s.mem, addr_add(s.pc, 1)) as usize, ..s },
            Ok::<Event, ExecError>(Event::Continue),
        ),
{
}

/// `swp` (opcode 0xc5) exchanges the two registers named by the high and low
/// four bits of the next byte; the other registers keep their values and
/// control moves on two bytes.
#[verifier::spinoff_prover]
#[verifier::rlimit(50)]
pub proof fn lemma_swap_instruction(s: CpuState, b: u8)
    requires
        byte_at(s.mem, s.pc) == 0xc5,
        byte_at(s.mem, addr_add(s.pc, 1)) == b,
        b / 16 <= 3,
        b % 16 <= 3,
    ensures
        ({
            let x = (b / 16) as u8;
            let y = (b % 16) as u8;
            let t = spec_step(s).0;
            &&& spec_step(s).1 == Ok::<Event, ExecError>(Event::Continue)
            &&& t.pc == addr_add(s.pc, 2)
            &&& t.sp == s.sp && t.mem == s.mem && t.fl == s.fl
            &&& reg(t, x) == reg(s, y)
            &&& reg(t, y) == reg(s, x)
            &&& forall|q: u8| q <= 3 && q != x && q != y ==> reg(t, q) == reg(s, q)
        }),
{
    assert(high_nibble(b) == (b / 16) as u8 && low_nibble(b) == (b % 16) as u8) by (bit_vector);
}

/// `pusha` (opcode 0xd5) pushes its immediate: the stack pointer moves up
/// four bytes and the word stored there is the big-endian word that stood
/// after the opcode before the step; the registers stay as they were and
/// control moves on five bytes.
#[verifier::spinoff_prover]
#[verifier::rlimit(50)]
pub proof fn lemma_push_immediate(s: CpuState)
    requires
        pages_well_formed(s.mem),
        byte_at(s.mem, s.pc) == 0xd5,
        addr_add(s.pc, 1) <= u32::MAX,
        addr_add(s.sp, 4) <= u32::MAX,
    ensures
        ({
            let t = spec_step(s).0;
            &&& spec_step(s).1 == Ok::<Event, ExecError>(Event::Continue)
            &&& t.sp == addr_add(s.sp, 4)
            &&& word_at(t.mem, t.sp) == word_at(s.mem, addr_add(s.pc, 1))
            &&& t.pc == addr_add(s.pc, 5)
            &&& t.r0 == s.r0 && t.r1 == s.r1 && t.r2 == s.r2 && t.r3 == s.r3 && t.fl == s.fl
        }),
{
    mmu::lemma_word_roundtrip(s.mem, addr_add(s.sp, 4), word_at(s.mem, addr_add(s.pc, 1)));
}

/// `push` (opcode 0xd6) pushes a register: the stack pointer moves up four
/// bytes and the word stored there is the value of the register named by the
/// next byte; the registers stay as they were and control moves on two bytes.
#[verifier::spinoff_prover]
#[verifier::rlimit(50)]
pub proof fn lemma_push_register(s: CpuState)
    requires
        pages_well_formed(s.mem),
        byte_at(s.mem, s.pc) == 0xd6,
        byte_at(s.mem, addr_add(s.pc, 1)) <= 3,
        addr_add(s.sp, 4) <= u32::MAX,
    ensures
        ({
            let t = spec_step(s).0;
            &&& spec_step(s).1 == Ok::<Event, ExecError>(Event::Continue)
            &&& t.sp == addr_add(s.sp, 4)
            &&& word_at(t.mem, t.sp) == reg(s, byte_at(s.mem, addr_add(s.pc, 1)))
            &&& t.pc == addr_add(s.pc, 2)
            &&& t.r0 == s.r0 && t.r1 == s.r1 && t.r2 == s.r2 && t.r3 == s.r3 && t.fl == s.fl
        }),
{
    mmu::lemma_word_roundtrip(s.mem, addr_add(s.sp, 4), reg(s, byte_at(s.mem, addr_add(s.pc, 1))));
}

/// `pop` (opcode 0xf1) reads the word at the stack pointer into the register
/// named by the next byte and moves the stack pointer down four bytes; the
/// other registers and memory stay as they were and control moves on two
/// bytes.
#[verifier::spinoff_prover]
#[verifier::rlimit(50)]
pub proof fn lemma_pop_instruction(s: CpuState)
    requires
        byte_at(s.mem, s.pc) == 0xf1,
        byte_at(s.mem, addr_add(s.pc, 1)) <= 3,
        s.sp <= u32::MAX,
    ensures
        ({
            let d = byte_at(s.mem, addr_add(s.pc, 1));
            let t = spec_step(s).0;
            &&& spec_step(s).1 == Ok::<Event, ExecError>(Event::Continue)
            &&& reg(t, d) == word_at(s.mem, s.sp)
            &&& t.sp == vstd::wrapping::usize_specs::wrapping_sub(s.sp, 4)
            &&& t.mem == s.mem
            &&& t.pc == addr_add(s.pc, 2)
            &&& forall|q: u8| q <= 3 && q != d ==> reg(t, q) == reg(s, q)
        }),
{
}

/// The program counter `pc` moved by the sign-magnitude offset `a`: bit 31
/// says backwards, the other 31 bits how far.
pub open spec fn offset_target(pc: usize, a: u32) -> usize {
    if a < 0x8000_0000 {
        addr_add(pc, a as usize)
    } else {
        vstd::wrapping::usize_specs::wrapping_sub(pc, (a - 0x8000_0000) as usize)
    }
}

/// `jmpi` (opcode 0x82) moves the program counter by the sign-magnitude word
/// that follows the opcode, forwards or backwards; nothing else changes.
#[verifier::spinoff_prover]
#[verifier::rlimit(50)]
pub proof fn lemma_jump_by_offset(s: CpuState)
    requires
        byte_at(s.mem, s.pc) == 0x82,
        addr_add(s.pc, 1) <= u32::MAX,
    ensures
        spec_step(s) == (
            CpuState { pc: offset_target(s.pc, word_at(s.mem, addr_add(s.pc, 1))), ..s },
            Ok::<Event, ExecError>(Event::Continue),
        ),
{
    let a = word_at(s.mem, addr_add(s.pc, 1));
    if a >= 0x8000_0000 && a != 0x8000_0000 {
        assert(-(-((a - 0x8000_0000) as int) as i32) == a - 0x8000_0000);
    }
}

/// `jeqi` (opcode 0x84) with the ZERO flag set clears it and moves the
/// program counter by the sign-magnitude word that follows; without it,
/// control moves on five bytes. Nothing else changes.
#[verifier::spinoff_prover]
#[verifier::rlimit(50)]
pub proof fn lemma_jump_if_equal_by_offset(s: CpuState)
    requires
        byte_at(s.mem, s.pc) == 0x84,
        addr_add(s.pc, 1) <= u32::MAX,
    ensures
        spec_step(s).1 == Ok::<Event, ExecError>(Event::Continue),
        s.fl & 1 == 1 ==> spec_step(s).0 == (CpuState {
            pc: offset_target(s.pc, word_at(s.mem, addr_add(s.pc, 1))),
            fl: s.fl & 0xfe,
            ..s
        }),
        s.fl & 1 != 1 ==> spec_step(s).0 == (CpuState { pc: addr_add(s.pc, 5), ..s }),
{
    let a = word_at(s.mem, addr_add(s.pc, 1));
    if a >= 0x8000_0000 && a != 0x8000_0000 {
        assert(-(-((a - 0x8000_0000) as int) as i32) == a - 0x8000_0000);
    }
}

/// `jeq` (opcode 0x85) with the ZERO flag set clears it and jumps to the
/// value of the register named by the next byte; without it, control moves
/// on two bytes. Nothing else changes.
#[verifier::spinoff_prover]
#[verifier::rlimit(50)]
pub proof fn lemma_jump_if_equal_to_register(s: CpuState)
    requires
        byte_at(s.mem, s.pc) == 0x85,
        byte_at(s.mem, addr_add(s.pc, 1)) <= 3,
    ensures
        spec_step(s).1 == Ok::<Event, ExecError>(Event::Continue),
        s.fl & 1 == 1 ==> spec_step(s).0 == (CpuState {
            pc: reg(s, byte_at(s.mem, addr_add(s.pc, 1))) as usize,
            fl: s.fl & 0xfe,
            ..s
        }),
        s.fl & 1 != 1 ==> spec_step(s).0 == (CpuState { pc: addr_add(s.pc, 2), ..s }),
{
}

/// `cmp` (opcode 0x79) compares the register in the high four bits of the
/// next byte with the one in its low four bits: afterwards the ZERO flag says
/// whether they are equal and the GREATER flag whether the first is greater;
/// the other flags, the registers and memory stay, and control moves on two
/// bytes.
#[verifier::spinoff_prover]
#[verifier::rlimit(50)]
pub proof fn lemma_compare_registers(s: CpuState, b: u8)
    requires
        byte_at(s.mem, s.pc) == 0x79,
        byte_at(s.mem, addr_add(s.pc, 1)) == b,
        b / 16 <= 3,
        b % 16 <= 3,
    ensures
        ({
            let x = reg(s, (b / 16) as u8);
            let y = reg(s, (b % 16) as u8);
            let t = spec_step(s).0;
            &&& spec_step(s).1 == Ok::<Event, ExecError>(Event::Continue)
            &&& (t.fl & 1 == 1) == (x == y)
            &&& (t.fl & 4 == 4) == (x > y)
            &&& t.fl & 0xfa == s.fl & 0xfa
            &&& t == (CpuState { fl: t.fl, pc: addr_add(s.pc, 2), ..s })
        }),
{
    assert(high_nibble(b) == (b / 16) as u8 && low_nibble(b) == (b % 16) as u8) by (bit_vector);
    lemma_compare_sets_zero_flag(s.fl, reg(s, (b / 16) as u8), reg(s, (b % 16) as u8));
}

/// `cmpi` (opcode 0x80) compares the register named by the next byte with the
/// big-endian word after it, setting ZERO and GREATER as `cmp` does; the
/// rest stays, and control moves on six bytes.
#[verifier::spinoff_prover]
#[verifier::rlimit(50)]
pub proof fn lemma_compare_immediate(s: CpuState)
    requires
        byte_at(s.mem, s.pc) == 0x80,
        byte_at(s.mem, addr_add(s.pc, 1)) <= 3,
        addr_add(s.pc, 2) <= u32::MAX,
    ensures
        ({
            let x = reg(s, byte_at(s.mem, addr_add(s.pc, 1)));
            let y = word_at(s.mem, addr_add(s.pc, 2));
            let t = spec_step(s).0;
            &&& spec_step(s).1 == Ok::<Event, ExecError>(Event::Continue)
            &&& (t.fl & 1 == 1) == (x == y)
            &&& (t.fl & 4 == 4) == (x > y)
            &&& t.fl & 0xfa == s.fl & 0xfa
            &&& t == (CpuState { fl: t.fl, pc: addr_add(s.pc, 6), ..s })
        }),
{
    lemma_compare_sets_zero_flag(
        s.fl,
        reg(s, byte_at(s.mem, addr_add(s.pc, 1))),
        word_at(s.mem, addr_add(s.pc, 2)),
    );
}

/// `ldi` and `mova` (opcodes 0xb1, 0x8e) load the register named by the next
/// byte with the big-endian word stored at the address given by the word
/// after it; the other registers and memory stay, and control moves on six
/// bytes.
#[verifier::spinoff_prover]
#[verifier::rlimit(50)]
pub proof fn lemma_load_from_address(s: CpuState)
    requires
        byte_at(s.mem, s.pc) == 0xb1 || byte_at(s.mem, s.pc) == 0x8e,
        byte_at(s.mem, addr_add(s.pc, 1)) <= 3,
        addr_add(s.pc, 2) <= u32::MAX,
    ensures
        ({
            let d = byte_at(s.mem, addr_add(s.pc, 1));
            let a = word_at(s.mem, addr_add(s.pc, 2));
            let t = spec_step(s).0;
            &&& spec_step(s).1 == Ok::<Event, ExecError>(Event::Continue)
            &&& reg(t, d) == word_at(s.mem, a as usize)
            &&& forall|q: u8| q <= 3 && q != d ==> reg(t, q) == reg(s, q)
            &&& t.mem == s.mem && t.sp == s.sp && t.fl == s.fl
            &&& t.pc == addr_add(s.pc, 6)
        }),
{
}

/// `movr` (opcode 0x8f) stores the register named by the byte five after the
/// opcode at the address given by the word after the opcode: a later read of
/// that word gives the register's value. The registers stay, and control
/// moves on six bytes.
#[verifier::spinoff_prover]
#[verifier::rlimit(50)]
pub proof fn lemma_store_to_address(s: CpuState)
    requires
        pages_well_formed(s.mem),
        byte_at(s.mem, s.pc) == 0x8f,
        addr_add(s.pc, 1) <= u32::MAX,
        byte_at(s.mem, addr_add(s.pc, 5)) <= 3,
    ensures
        ({
            let a = word_at(s.mem, addr_add(s.pc, 1));
            let t = spec_step(s).0;
            &&& spec_step(s).1 == Ok::<Event, ExecError>(Event::Continue)
            &&& word_at(t.mem, a as usize) == reg(s, byte_at(s.mem, addr_add(s.pc, 5)))
            &&& t.r0 == s.r0 && t.r1 == s.r1 && t.r2 == s.r2 && t.r3 == s.r3
            &&& t.sp == s.sp && t.fl == s.fl
            &&& t.pc == addr_add(s.pc, 6)
        }),
{
    let a = word_at(s.mem, addr_add(s.pc, 1));
    mmu::lemma_word_roundtrip(s.mem, a as usize, reg(s, byte_at(s.mem, addr_add(s.pc, 5))));
}

/// `int` (opcode 0xaa) with code 0x80 hands out the byte at the address held
/// in r0, with code 0xa0 asks for a byte from the console, and with any other
/// code fails; in every case the processor stays as it was (the program
/// counter too).
#[verifier::spinoff_prover]
#[verifier::rlimit(50)]
pub proof fn lemma_interrupt_immediate(s: CpuState)
    requires
        byte_at(s.mem, s.pc) == 0xaa,
        addr_add(s.pc, 1) <= u32::MAX,
    ensures
        spec_step(s).0 == s,
        word_at(s.mem, addr_add(s.pc, 1)) == 0x80 ==> spec_step(s).1 == Ok::<Event, ExecError>(
            Event::Output(byte_at(s.mem, s.r0 as usize)),
        ),
        word_at(s.mem, addr_add(s.pc, 1)) == 0xa0 ==> spec_step(s).1 == Ok::<Event, ExecError>(
            Event::Input,
        ),
        word_at(s.mem, addr_add(s.pc, 1)) != 0x80 && word_at(s.mem, addr_add(s.pc, 1)) != 0xa0
            ==> spec_step(s).1 == Err::<Event, ExecError>(
            ExecError::UnknownInterrupt(word_at(s.mem, addr_add(s.pc, 1))),
        ),
{
}

/// `hlt` (opcode 0x6f) halts, leaving the processor as it was; `nop` (opcode
/// 0xff) only moves control on one byte.
#[verifier::spinoff_prover]
#[verifier::rlimit(50)]
pub proof fn lemma_halt_and_nop(s: CpuState)
    ensures
        byte_at(s.mem, s.pc) == 0x6f ==> spec_step(s) == (s, Ok::<Event, ExecError>(Event::Halt)),
        byte_at(s.mem, s.pc) == 0xff ==> spec_step(s) == (
            CpuState { pc: addr_add(s.pc, 1), ..s },
            Ok::<Event, ExecError>(Event::Continue),
        ),
{
}

/// `intr` (opcode 0xab) raises the interrupt whose code the register named
/// by the next byte holds: code 0x80 hands out the byte at the address in
/// r0, code 0xa0 asks for a byte from the console, any other fails; the
/// processor stays as it was.
#[verifier::spinoff_prover]
#[verifier::rlimit(50)]
pub proof fn lemma_interrupt_register(s: CpuState)
    requires
        byte_at(s.mem, s.pc) == 0xab,
        byte_at(s.mem, addr_add(s.pc, 1)) <= 3,
    ensures
        ({
            let code = reg(s, byte_at(s.mem, addr_add(s.pc, 1)));
            &&& spec_step(s).0 == s
            &&& code == 0x80 ==> spec_step(s).1 == Ok::<Event, ExecError>(
                Event::Output(byte_at(s.mem, s.r0 as usize)),
            )
            &&& code == 0xa0 ==> spec_step(s).1 == Ok::<Event, ExecError>(Event::Input)
            &&& code != 0x80 && code != 0xa0 ==> spec_step(s).1 == Err::<Event, ExecError>(
                ExecError::UnknownInterrupt(code),
            )
        }),
{
}

} // verus!
