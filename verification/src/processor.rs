//! The processor: the instruction set, and the first processor design, which
//! runs the fixed four-byte words the assembler produces straight from the
//! program image, with a separate stack. Registers and the program counter
//! wrap around as in the release build.
use std::collections::HashMap;
use vstd::prelude::*;

pub mod cpu;
pub mod instructions;

pub use instructions::Instruction;

use crate::processor::cpu::carried;
use crate::processor::instructions::spec_decode_opcode;
use crate::translation::{build_translation_table, translation_map};

verus! {

broadcast use vstd::std_specs::hash::group_hash_axioms;

/// How a step ended normally.
#[derive(Clone, Copy, Debug, PartialEq, Eq, Structural)]
pub enum Status {
    /// The next instruction is ready to run.
    Running,
    /// The program halted.
    Halted,
}

/// How a step failed.
#[derive(Clone, Copy, Debug, PartialEq, Eq, Structural)]
pub enum Trap {
    /// The program counter left the program.
    IllicitMemory,
    /// The instruction cannot be carried out at all (an unknown opcode, a
    /// register that does not exist, an operand past the end of the program,
    /// an empty stack, or an interrupt, none of which this design handles);
    /// the processor stops at once.
    Abort,
}

/// The state of the processor as the instructions see it.
#[verifier::ext_equal]
pub struct LegacyState {
    pub r0: u32,
    pub r1: u32,
    pub r2: u32,
    pub r3: u32,
    pub pc: usize,
    pub sp: u32,
    pub fl: u8,
    pub stack: Seq<u32>,
    pub prog: Seq<u8>,
}

/// The value of register `r` (one of 0 to 3).
pub open spec fn lreg(s: LegacyState, r: u8) -> u32 {
    if r == 0 {
        s.r0
    } else if r == 1 {
        s.r1
    } else if r == 2 {
        s.r2
    } else {
        s.r3
    }
}

/// The state with register `r` (one of 0 to 3) set to `v`.
pub open spec fn lwith_reg(s: LegacyState, r: u8, v: u32) -> LegacyState {
    if r == 0 {
        LegacyState { r0: v, ..s }
    } else if r == 1 {
        LegacyState { r1: v, ..s }
    } else if r == 2 {
        LegacyState { r2: v, ..s }
    } else {
        LegacyState { r3: v, ..s }
    }
}

/// The program byte at index `i`.
pub open spec fn at(p: Seq<u8>, i: int) -> Option<u8> {
    if 0 <= i < p.len() {
        Some(p[i])
    } else {
        None
    }
}

/// The big-endian 16-bit value at index `o`.
pub open spec fn half_at(p: Seq<u8>, o: int) -> Option<u16> {
    if 0 <= o && o + 1 < p.len() {
        Some((p[o] as int * 0x100 + p[o + 1] as int) as u16)
    } else {
        None
    }
}

/// The big-endian 24-bit value at index `o`.
pub open spec fn triple_at(p: Seq<u8>, o: int) -> Option<u32> {
    if 0 <= o && o + 2 < p.len() {
        Some((p[o] as int * 0x1_0000 + p[o + 1] as int * 0x100 + p[o + 2] as int) as u32)
    } else {
        None
    }
}

/// The big-endian word at index `o`: zero when `o` lies past the last three
/// bytes; no word can be read from a program of fewer than three bytes, nor
/// at exactly three bytes from its end.
pub open spec fn quad_at(p: Seq<u8>, o: int) -> Option<u32> {
    if p.len() < 3 {
        None
    } else if o > p.len() - 3 {
        Some(0)
    } else if 0 <= o && o + 3 < p.len() {
        Some(
            (p[o] as int * 0x100_0000 + p[o + 1] as int * 0x1_0000 + p[o + 2] as int * 0x100 + p[o
                + 3] as int) as u32,
        )
    } else {
        None
    }
}

/// The program image after `v` is stored big-endian at index `o`. A store
/// past the end first extends the image with `grow` zero bytes, or as many
/// as the store needs if that is more; a store that starts inside the image
/// but runs past its end cannot be done, nor one that would have to grow the
/// image by more than `isize::MAX` bytes, which no allocation can hold.
pub open spec fn stored(p: Seq<u8>, o: int, v: u32, grow: nat) -> Option<Seq<u8>> {
    let need = o - p.len() + 4;
    let base = if o > p.len() {
        p + Seq::new(if grow >= need { grow } else { need as nat }, |i: int| 0u8)
    } else {
        p
    };
    if o > p.len() && need > isize::MAX {
        None
    } else if 0 <= o && o + 3 < base.len() {
        Some(
            base.update(o, ((v >> 24) & 0xff) as u8).update(o + 1, ((v >> 16) & 0xff) as u8).update(
                o + 2,
                ((v >> 8) & 0xff) as u8,
            ).update(o + 3, (v & 0xff) as u8),
        )
    } else {
        None
    }
}

/// The result of an arithmetic or logic instruction.
pub open spec fn lalu(i: Instruction, d: u32, v: u32) -> u32 {
    crate::processor::cpu::alu(i, d, v)
}

/// The program counter moved by a 24-bit sign-magnitude offset: bit 23 is
/// the sign, the low 23 bits the distance.
pub open spec fn rel24(pc: usize, v: u32) -> usize {
    if v & 0x80_0000 != 0 {
        vstd::wrapping::usize_specs::wrapping_sub(pc, (v & 0x7f_ffff) as usize)
    } else {
        vstd::wrapping::usize_specs::wrapping_add(pc, v as usize)
    }
}

/// A failed step: the state stays as it was.
pub open spec fn aborted(s: LegacyState) -> (LegacyState, Result<Status, Trap>) {
    (s, Err(Trap::Abort))
}

/// A step that falls through to the next word.
pub open spec fn next_word(s: LegacyState) -> (LegacyState, Result<Status, Trap>) {
    (LegacyState { pc: vstd::wrapping::usize_specs::wrapping_add(s.pc, 4), ..s }, Ok(Status::Running))
}

/// A conditional jump: with the ZERO flag set it is cleared and control goes
/// to `target`; otherwise to the next word.
pub open spec fn lbranched(s: LegacyState, target: usize) -> LegacyState {
    if s.fl & 1 == 1 {
        LegacyState { fl: s.fl & 0xfe, pc: target, ..s }
    } else {
        LegacyState { pc: vstd::wrapping::usize_specs::wrapping_add(s.pc, 4), ..s }
    }
}

/// What executing the instruction `i` at the program counter does; `grow`
/// says how far a store past the end of the image extends it.
pub open spec fn legacy_execute(s: LegacyState, i: Instruction, grow: nat) -> (LegacyState, Result<Status, Trap>) {
    let p = s.prog;
    let pc = s.pc as int;
    match i {
        Instruction::AddReg | Instruction::SubReg | Instruction::MulReg | Instruction::AndReg
        | Instruction::OrReg | Instruction::XorReg => match (at(p, pc + 1), at(p, pc + 2)) {
            (Some(dest), Some(src)) => if src > 3 || dest > 3 {
                aborted(s)
            } else {
                next_word(
                    lwith_reg(
                        LegacyState { fl: carried(s.fl, i, lreg(s, dest), lreg(s, src)), ..s },
                        dest,
                        lalu(i, lreg(s, dest), lreg(s, src)),
                    ),
                )
            },
            _ => aborted(s),
        },
        Instruction::AddImm | Instruction::SubImm | Instruction::MulImm | Instruction::AndImm
        | Instruction::OrImm | Instruction::XorImm => match (at(p, pc + 1), half_at(p, pc + 2)) {
            (Some(dest), Some(v)) => if dest > 3 {
                aborted(s)
            } else {
                next_word(
                    lwith_reg(
                        LegacyState { fl: carried(s.fl, i, lreg(s, dest), v as u32), ..s },
                        dest,
                        lalu(i, lreg(s, dest), v as u32),
                    ),
                )
            },
            _ => aborted(s),
        },
        Instruction::CmpReg => match (at(p, pc + 1), at(p, pc + 2)) {
            (Some(test), Some(src)) => if src > 3 || test > 3 {
                aborted(s)
            } else {
                next_word(
                    LegacyState {
                        fl: crate::processor::cpu::compared(s.fl, lreg(s, test), lreg(s, src)),
                        ..s
                    },
                )
            },
            _ => aborted(s),
        },
        Instruction::CmpImm => match (at(p, pc + 1), half_at(p, pc + 2)) {
            (Some(test), Some(v)) => if test > 3 {
                aborted(s)
            } else {
                next_word(
                    LegacyState {
                        fl: crate::processor::cpu::compared(s.fl, lreg(s, test), v as u32),
                        ..s
                    },
                )
            },
            _ => aborted(s),
        },
        Instruction::MovDregSreg => match (at(p, pc + 1), at(p, pc + 2)) {
            (Some(dest), Some(src)) => if src > 3 || dest > 3 {
                aborted(s)
            } else {
                next_word(lwith_reg(s, dest, lreg(s, src)))
            },
            _ => aborted(s),
        },
        Instruction::MovDregSimm => match (at(p, pc + 1), half_at(p, pc + 2)) {
            (Some(dest), Some(v)) => if dest > 3 {
                aborted(s)
            } else {
                next_word(lwith_reg(s, dest, v as u32))
            },
            _ => aborted(s),
        },
        Instruction::MovDregSaddr | Instruction::Ld => match (at(p, pc + 1), half_at(p, pc + 2)) {
            (Some(dest), Some(a)) => if dest > 3 {
                aborted(s)
            } else {
                match quad_at(p, a as int) {
                    Some(v) => next_word(lwith_reg(s, dest, v)),
                    None => aborted(s),
                }
            },
            _ => aborted(s),
        },
        Instruction::MovDaddrSreg => match (half_at(p, pc + 1), at(p, pc + 2)) {
            (Some(a), Some(src)) => if src > 3 {
                aborted(s)
            } else {
                match stored(p, a as int, lreg(s, src), grow) {
                    Some(q) => next_word(LegacyState { prog: q, ..s }),
                    None => aborted(s),
                }
            },
            _ => aborted(s),
        },
        Instruction::Swp => match (at(p, pc + 1), at(p, pc + 2)) {
            (Some(r1), Some(r2)) => if r2 > 3 || r1 > 3 {
                aborted(s)
            } else {
                next_word(lwith_reg(lwith_reg(s, r2, lreg(s, r1)), r1, lreg(s, r2)))
            },
            _ => aborted(s),
        },
        Instruction::PushAddr => match triple_at(p, pc + 1) {
            Some(v) => next_word(LegacyState { stack: s.stack.push(v), ..s }),
            None => aborted(s),
        },
        Instruction::PushReg => match at(p, pc + 1) {
            Some(r) => if r > 3 {
                aborted(s)
            } else {
                next_word(LegacyState { stack: s.stack.push(lreg(s, r)), ..s })
            },
            None => aborted(s),
        },
        Instruction::Pop => match at(p, pc + 1) {
            Some(dest) => if dest > 3 || s.stack.len() == 0 {
                aborted(s)
            } else {
                next_word(lwith_reg(LegacyState { stack: s.stack.drop_last(), ..s }, dest, s.stack.last()))
            },
            None => aborted(s),
        },
        Instruction::Nop => next_word(s),
        Instruction::Hlt => (s, Ok(Status::Halted)),
        Instruction::JmpAddr => match triple_at(p, pc + 1) {
            Some(v) => (LegacyState { pc: v as usize, ..s }, Ok(Status::Running)),
            None => aborted(s),
        },
        Instruction::JmpImm => match triple_at(p, pc + 1) {
            Some(v) => (LegacyState { pc: rel24(s.pc, v), ..s }, Ok(Status::Running)),
            None => aborted(s),
        },
        Instruction::JmpReg => match at(p, pc + 1) {
            Some(r) => if r > 3 {
                aborted(s)
            } else {
                (LegacyState { pc: lreg(s, r) as usize, ..s }, Ok(Status::Running))
            },
            None => aborted(s),
        },
        Instruction::JeqImm => match triple_at(p, pc + 1) {
            Some(v) => (lbranched(s, rel24(s.pc, v)), Ok(Status::Running)),
            None => aborted(s),
        },
        Instruction::JeqReg => match at(p, pc + 1) {
            Some(r) => if r > 3 {
                aborted(s)
            } else {
                (lbranched(s, lreg(s, r) as usize), Ok(Status::Running))
            },
            None => aborted(s),
        },
        _ => aborted(s),
    }
}

/// One step: a program counter past the program is refused; otherwise the
/// opcode there is decoded and executed.
pub open spec fn legacy_step(s: LegacyState, grow: nat) -> (LegacyState, Result<Status, Trap>) {
    if s.pc >= s.prog.len() {
        (s, Err(Trap::IllicitMemory))
    } else {
        match spec_decode_opcode(s.prog[s.pc as int]) {
            None => aborted(s),
            Some(i) => legacy_execute(s, i, grow),
        }
    }
}

/// Calls `Vec::<u8>::with_capacity(n)` and then `capacity()` on the new
/// vector: the contract claims only that the capacity is at least `n`, as
/// std documents; how much more the allocator gives is left open. Sizes
/// that std documents as a panic (over `isize::MAX` bytes) are excluded.
#[verifier::external_body]
fn reserved_capacity(n: usize) -> (c: usize)
    requires
        n <= isize::MAX,
    ensures
        c >= n,
{
    Vec::<u8>::with_capacity(n).capacity()
}

/// The processor of the first design.
pub struct CPU {
    r0: u32,
    r1: u32,
    r2: u32,
    r3: u32,
    pc: usize,
    sp: u32,
    fl: u8,
    stack: Vec<u32>,
    prog: Vec<u8>,
    decode_table: HashMap<u8, Instruction>,
}

impl CPU {
    /// The registers, the stack and the program image.
    pub closed spec fn view(&self) -> LegacyState {
        LegacyState {
            r0: self.r0,
            r1: self.r1,
            r2: self.r2,
            r3: self.r3,
            pc: self.pc,
            sp: self.sp,
            fl: self.fl,
            stack: self.stack@,
            prog: self.prog@,
        }
    }

    /// The opcode table is the standard one.
    pub closed spec fn wf(&self) -> bool {
        self.decode_table@ == translation_map()
    }

    /// A processor running `prog` from its first byte, every register zero
    /// and the stack empty.
    pub fn init(prog: Vec<u8>) -> (c: Self)
        ensures
            c.wf(),
            c@ == (LegacyState {
                r0: 0,
                r1: 0,
                r2: 0,
                r3: 0,
                pc: 0,
                sp: 0,
                fl: 0,
                stack: Seq::empty(),
                prog: prog@,
            }),
    {
        CPU {
            r0: 0,
            r1: 0,
            r2: 0,
            r3: 0,
            pc: 0,
            sp: 0,
            fl: 0,
            stack: Vec::new(),
            prog,
            decode_table: build_translation_table(),
        }
    }

    /// The value of register `r`, one of 0 to 3.
    fn get_reg(&self, r: u8) -> (v: u32)
        requires
            r <= 3,
        ensures
            v == lreg(self@, r),
    {
        match r {
            0 => self.r0,
            1 => self.r1,
            2 => self.r2,
            _ => self.r3,
        }
    }

    /// The value of register `r`, if it is one of 0 to 3.
    pub fn register(&self, r: u8) -> (v: Option<u32>)
        ensures
            r <= 3 ==> v == Some(lreg(self@, r)),
            r > 3 ==> v is None,
    {
        if r <= 3 {
            Some(self.get_reg(r))
        } else {
            None
        }
    }

    /// The program counter.
    pub fn pc(&self) -> (r: usize)
        ensures
            r == self@.pc,
    {
        self.pc
    }

    /// The stack pointer.
    pub fn sp(&self) -> (r: u32)
        ensures
            r == self@.sp,
    {
        self.sp
    }

    /// The flag register.
    pub fn flags(&self) -> (r: u8)
        ensures
            r == self@.fl,
    {
        self.fl
    }

    /// The values on the stack, bottom first.
    pub fn stack(&self) -> (r: &Vec<u32>)
        ensures
            r@ == self@.stack,
    {
        &self.stack
    }

    /// Sets register `r`, one of 0 to 3.
    fn put_reg(&mut self, r: u8, v: u32)
        requires
            r <= 3,
        ensures
            final(self)@ == lwith_reg(old(self)@, r, v),
            final(self).wf() == old(self).wf(),
    {
        match r {
            0 => self.r0 = v,
            1 => self.r1 = v,
            2 => self.r2 = v,
            _ => self.r3 = v,
        }
    }

    /// The program byte at index `i`.
    fn byte(&self, i: usize) -> (r: Option<u8>)
        ensures
            r == at(self@.prog, i as int),
    {
        if i < self.prog.len() {
            Some(self.prog[i])
        } else {
            None
        }
    }

    /// The program byte at `pc + k`.
    fn operand(&self, k: usize) -> (r: Option<u8>)
        ensures
            r == at(self@.prog, self@.pc + k),
    {
        let n = self.prog.len();
        if k > n || self.pc >= n - k {
            None
        } else {
            self.byte(self.pc + k)
        }
    }

    /// Reads the big-endian word at `offset`.
    fn get_u32(&self, offset: usize) -> (r: Option<u32>)
        ensures
            r == quad_at(self@.prog, offset as int),
    {
        if self.prog.len() < 3 {
            return None;
        }
        if offset > self.prog.len() - 3 {
            return Some(0);
        }
        if offset + 3 >= self.prog.len() {
            return None;
        }
        let mut ret: u32 = 0;
        let b0 = self.prog[offset] as u32;
        let b1 = self.prog[offset + 1] as u32;
        let b2 = self.prog[offset + 2] as u32;
        let b3 = self.prog[offset + 3] as u32;
        assert((b0 << 24) == b0 * 0x100_0000 && (b1 << 16) == b1 * 0x1_0000 && (b2 << 8) == b2
            * 0x100) by (bit_vector)
            requires
                b0 < 256 && b1 < 256 && b2 < 256,
        ;
        ret += b0 << 24;
        ret += b1 << 16;
        ret += b2 << 8;
        ret += b3;
        Some(ret)
    }

    /// Reads the big-endian 24-bit value at `offset`.
    fn get_u24(&self, offset: usize) -> (r: Option<u32>)
        ensures
            r == triple_at(self@.prog, offset as int),
    {
        if self.prog.len() < 3 || offset > self.prog.len() - 3 {
            return None;
        }
        let mut ret: u32 = 0;
        let b0 = self.prog[offset] as u32;
        let b1 = self.prog[offset + 1] as u32;
        let b2 = self.prog[offset + 2] as u32;
        assert((b0 << 16) == b0 * 0x1_0000 && (b1 << 8) == b1 * 0x100) by (bit_vector)
            requires
                b0 < 256 && b1 < 256,
        ;
        ret += b0 << 16;
        ret += b1 << 8;
        ret += b2;
        Some(ret)
    }

    /// Reads the big-endian 16-bit value at `offset`.
    fn get_u16(&self, offset: usize) -> (r: Option<u16>)
        ensures
            r == half_at(self@.prog, offset as int),
    {
        if self.prog.len() < 2 || offset > self.prog.len() - 2 {
            return None;
        }
        let mut ret: u16 = 0;
        let b0 = self.prog[offset] as u16;
        let b1 = self.prog[offset + 1] as u16;
        assert((b0 << 8) == b0 * 0x100) by (bit_vector)
            requires
                b0 < 256,
        ;
        ret += b0 << 8;
        ret += b1;
        Some(ret)
    }

    /// Stores `data` big-endian at `offset`, first extending the image with
    /// zeroes when `offset` lies past its end.
    fn write_u32(&mut self, offset: usize, data: u32) -> (r: bool)
        requires
            old(self).wf(),
        ensures
            final(self).wf(),
            final(self)@.prog.len() >= old(self)@.prog.len(),
            r == stored(
                old(self)@.prog,
                offset as int,
                data,
                (final(self)@.prog.len() - old(self)@.prog.len()) as nat,
            ) is Some,
            r ==> Some(final(self)@.prog) == stored(
                old(self)@.prog,
                offset as int,
                data,
                (final(self)@.prog.len() - old(self)@.prog.len()) as nat,
            ),
            !r ==> final(self)@ == old(self)@,
            final(self)@ == (LegacyState { prog: final(self)@.prog, ..old(self)@ }),
    {
        let len = self.prog.len();
        if offset > len {
            if offset - len > (isize::MAX as usize) - 4 {
                return false;
            }
            let cap = reserved_capacity(offset - len + 4);
            let mut k: usize = 0;
            let ghost before = self.prog@;
            while k < cap
                invariant
                    self.wf(),
                    before == old(self)@.prog,
                    self@ == (LegacyState { prog: self@.prog, ..old(self)@ }),
                    0 <= k <= cap,
                    self.prog@ == before + Seq::new(k as nat, |i: int| 0u8),
                decreases cap - k,
            {
                self.prog.push(0);
                k = k + 1;
                assert(self.prog@ =~= before + Seq::new(k as nat, |i: int| 0u8));
            }
        } else if len - offset <= 3 {
            return false;
        }
        let n = self.prog.len();
        if offset >= n || n - offset <= 3 {
            return false;
        }
        self.prog.set(offset, ((data >> 24) & 0xFF) as u8);
        self.prog.set(offset + 1, ((data >> 16) & 0xFF) as u8);
        self.prog.set(offset + 2, ((data >> 8) & 0xFF) as u8);
        self.prog.set(offset + 3, (data & 0xFF) as u8);
        true
    }

    /// `add`, `sub`, `mul`, `and`, `or`, `xor` of two registers.
    fn alu_reg(&mut self, i: Instruction, dest: u8, src: u8)
        requires
            dest <= 3,
            src <= 3,
        ensures
            final(self)@ == lwith_reg(
                LegacyState {
                    fl: carried(old(self)@.fl, i, lreg(old(self)@, dest), lreg(old(self)@, src)),
                    ..old(self)@
                },
                dest,
                lalu(i, lreg(old(self)@, dest), lreg(old(self)@, src)),
            ),
            final(self).wf() == old(self).wf(),
    {
        let v = self.get_reg(src);
        let d = self.get_reg(dest);
        self.fl = cpu::CPU::carry_flags(self.fl, i, d, v);
        let r = match i {
            Instruction::AddReg | Instruction::AddImm => d.wrapping_add(v),
            Instruction::SubReg | Instruction::SubImm => d.wrapping_sub(v),
            Instruction::MulReg | Instruction::MulImm => d.wrapping_mul(v),
            Instruction::AndReg | Instruction::AndImm => d & v,
            Instruction::OrReg | Instruction::OrImm => d | v,
            Instruction::XorReg | Instruction::XorImm => d ^ v,
            _ => v,
        };
        self.put_reg(dest, r);
    }

    /// `addi`, `subi`, `muli`, `andi`, `ori`, `xori`: a register and an immediate.
    fn alu_imm(&mut self, i: Instruction, dest: u8, src: u32)
        requires
            dest <= 3,
        ensures
            final(self)@ == lwith_reg(
                LegacyState { fl: carried(old(self)@.fl, i, lreg(old(self)@, dest), src), ..old(self)@ },
                dest,
                lalu(i, lreg(old(self)@, dest), src),
            ),
            final(self).wf() == old(self).wf(),
    {
        let d = self.get_reg(dest);
        self.fl = cpu::CPU::carry_flags(self.fl, i, d, src);
        let r = match i {
            Instruction::AddReg | Instruction::AddImm => d.wrapping_add(src),
            Instruction::SubReg | Instruction::SubImm => d.wrapping_sub(src),
            Instruction::MulReg | Instruction::MulImm => d.wrapping_mul(src),
            Instruction::AndReg | Instruction::AndImm => d & src,
            Instruction::OrReg | Instruction::OrImm => d | src,
            Instruction::XorReg | Instruction::XorImm => d ^ src,
            _ => src,
        };
        self.put_reg(dest, r);
    }

    /// `cmp`/`cmpi`: sets the ZERO and GREATER flags from comparing register
    /// `test` with `o`.
    fn compare(&mut self, test: u8, o: u32)
        requires
            test <= 3,
        ensures
            final(self)@ == (LegacyState {
                fl: crate::processor::cpu::compared(old(self)@.fl, lreg(old(self)@, test), o),
                ..old(self)@
            }),
            final(self).wf() == old(self).wf(),
    {
        let t = self.get_reg(test);
        self.fl = cpu::CPU::compare_flags(self.fl, t, o);
    }

    /// `swp`: exchanges registers `r1` and `r2`.
    fn swp(&mut self, r1: u8, r2: u8)
        requires
            r1 <= 3,
            r2 <= 3,
        ensures
            final(self)@ == lwith_reg(lwith_reg(old(self)@, r2, lreg(old(self)@, r1)), r1, lreg(old(self)@, r2)),
            final(self).wf() == old(self).wf(),
    {
        let o = self.get_reg(r2);
        let t = self.get_reg(r1);
        self.put_reg(r2, t);
        self.put_reg(r1, o);
    }

    /// `pop`: pops the top of the stack into `dest`.
    fn pop(&mut self, dest: u8)
        requires
            dest <= 3,
            old(self)@.stack.len() > 0,
        ensures
            final(self)@ == lwith_reg(
                LegacyState { stack: old(self)@.stack.drop_last(), ..old(self)@ },
                dest,
                old(self)@.stack.last(),
            ),
            final(self).wf() == old(self).wf(),
    {
        match self.stack.pop() {
            Some(v) => self.put_reg(dest, v),
            None => {},
        }
    }

    /// `pc` moved by the 24-bit sign-magnitude offset `v`.
    fn relative(pc: usize, v: u32) -> (r: usize)
        ensures
            r == rel24(pc, v),
    {
        if v & 0x80_0000 != 0 {
            pc.wrapping_sub((v & 0x7f_ffff) as usize)
        } else {
            pc.wrapping_add(v as usize)
        }
    }

    /// `jeq`/`jeqi`: jumps to `target` when the ZERO flag is set.
    fn branch(&mut self, target: usize)
        ensures
            final(self)@ == lbranched(old(self)@, target),
            final(self).wf() == old(self).wf(),
    {
        if self.fl & 0x1 == 1 {
            self.fl &= 0xfe;
            self.pc = target;
        } else {
            self.pc = self.pc.wrapping_add(4);
        }
    }

    /// Fetches, decodes and executes the word at the program counter.
    /// Instructions that fall through move the program counter four bytes
    /// on; jumps set it. A store past the end of the program image extends
    /// it with zeroes first, by at least as many as the store needs.
    pub fn decode_and_execute(&mut self) -> (r: Result<Status, Trap>)
        requires
            old(self).wf(),
        ensures
            final(self).wf(),
            final(self)@.prog.len() >= old(self)@.prog.len(),
            (final(self)@, r) == legacy_step(
                old(self)@,
                (final(self)@.prog.len() - old(self)@.prog.len()) as nat,
            ),
    {
        if self.pc >= self.prog.len() {
            return Err(Trap::IllicitMemory);
        }
        let inst = self.prog[self.pc];
        let inst_type = match self.decode_table.get(&inst) {
            Some(a) => *a,
            None => return Err(Trap::Abort),
        };
        let pc = self.pc;
        match inst_type {
            Instruction::AddReg | Instruction::SubReg | Instruction::MulReg | Instruction::AndReg
            | Instruction::OrReg | Instruction::XorReg => {
                match (self.operand(1), self.operand(2)) {
                    (Some(dest), Some(src)) => {
                        if src > 3 || dest > 3 {
                            return Err(Trap::Abort);
                        }
                        self.alu_reg(inst_type, dest, src);
                    },
                    _ => return Err(Trap::Abort),
                }
            },
            Instruction::AddImm | Instruction::SubImm | Instruction::MulImm | Instruction::AndImm
            | Instruction::OrImm | Instruction::XorImm => {
                let v = match pc.checked_add(2) {
                    Some(o) => self.get_u16(o),
                    None => None,
                };
                match (self.operand(1), v) {
                    (Some(dest), Some(v)) => {
                        if dest > 3 {
                            return Err(Trap::Abort);
                        }
                        self.alu_imm(inst_type, dest, v as u32);
                    },
                    _ => return Err(Trap::Abort),
                }
            },
            Instruction::CmpReg => {
                match (self.operand(1), self.operand(2)) {
                    (Some(test), Some(src)) => {
                        if src > 3 || test > 3 {
                            return Err(Trap::Abort);
                        }
                        let o = self.get_reg(src);
                        self.compare(test, o);
                    },
                    _ => return Err(Trap::Abort),
                }
            },
            Instruction::CmpImm => {
                let v = match pc.checked_add(2) {
                    Some(o) => self.get_u16(o),
                    None => None,
                };
                match (self.operand(1), v) {
                    (Some(test), Some(v)) => {
                        if test > 3 {
                            return Err(Trap::Abort);
                        }
                        self.compare(test, v as u32);
                    },
                    _ => return Err(Trap::Abort),
                }
            },
            Instruction::MovDregSreg => {
                match (self.operand(1), self.operand(2)) {
                    (Some(dest), Some(src)) => {
                        if src > 3 || dest > 3 {
                            return Err(Trap::Abort);
                        }
                        let o = self.get_reg(src);
                        self.put_reg(dest, o);
                    },
                    _ => return Err(Trap::Abort),
                }
            },
            Instruction::MovDregSimm => {
                let v = match pc.checked_add(2) {
                    Some(o) => self.get_u16(o),
                    None => None,
                };
                match (self.operand(1), v) {
                    (Some(dest), Some(v)) => {
                        if dest > 3 {
                            return Err(Trap::Abort);
                        }
                        self.put_reg(dest, v as u32);
                    },
                    _ => return Err(Trap::Abort),
                }
            },
            Instruction::MovDregSaddr | Instruction::Ld => {
                let a = match pc.checked_add(2) {
                    Some(o) => self.get_u16(o),
                    None => None,
                };
                match (self.operand(1), a) {
                    (Some(dest), Some(a)) => {
                        if dest > 3 {
                            return Err(Trap::Abort);
                        }
                        match self.get_u32(a as usize) {
                            Some(v) => self.put_reg(dest, v),
                            None => return Err(Trap::Abort),
                        }
                    },
                    _ => return Err(Trap::Abort),
                }
            },
            Instruction::MovDaddrSreg => {
                let a = match pc.checked_add(1) {
                    Some(o) => self.get_u16(o),
                    None => None,
                };
                match (a, self.operand(2)) {
                    (Some(a), Some(src)) => {
                        if src > 3 {
                            return Err(Trap::Abort);
                        }
                        let o = self.get_reg(src);
                        if !self.write_u32(a as usize, o) {
                            return Err(Trap::Abort);
                        }
                    },
                    _ => return Err(Trap::Abort),
                }
            },
            Instruction::Swp => {
                match (self.operand(1), self.operand(2)) {
                    (Some(r1), Some(r2)) => {
                        if r2 > 3 || r1 > 3 {
                            return Err(Trap::Abort);
                        }
                        self.swp(r1, r2);
                    },
                    _ => return Err(Trap::Abort),
                }
            },
            Instruction::PushAddr => {
                let v = match pc.checked_add(1) {
                    Some(o) => self.get_u24(o),
                    None => None,
                };
                match v {
                    Some(v) => self.stack.push(v),
                    None => return Err(Trap::Abort),
                }
            },
            Instruction::PushReg => {
                match self.operand(1) {
                    Some(r) => {
                        if r > 3 {
                            return Err(Trap::Abort);
                        }
                        let v = self.get_reg(r);
                        self.stack.push(v);
                    },
                    None => return Err(Trap::Abort),
                }
            },
            Instruction::Pop => {
                match self.operand(1) {
                    Some(dest) => {
                        if dest > 3 || self.stack.len() == 0 {
                            return Err(Trap::Abort);
                        }
                        self.pop(dest);
                    },
                    None => return Err(Trap::Abort),
                }
            },
            Instruction::Nop => {},
            Instruction::Hlt => {
                return Ok(Status::Halted);
            },
            Instruction::JmpAddr => {
                let v = match pc.checked_add(1) {
                    Some(o) => self.get_u24(o),
                    None => None,
                };
                match v {
                    Some(v) => {
                        self.pc = v as usize;
                        return Ok(Status::Running);
                    },
                    None => return Err(Trap::Abort),
                }
            },
            Instruction::JmpImm => {
                let v = match pc.checked_add(1) {
                    Some(o) => self.get_u24(o),
                    None => None,
                };
                match v {
                    Some(v) => {
                        self.pc = Self::relative(self.pc, v);
                        return Ok(Status::Running);
                    },
                    None => return Err(Trap::Abort),
                }
            },
            Instruction::JmpReg => {
                match self.operand(1) {
                    Some(r) => {
                        if r > 3 {
                            return Err(Trap::Abort);
                        }
                        self.pc = self.get_reg(r) as usize;
                        return Ok(Status::Running);
                    },
                    None => return Err(Trap::Abort),
                }
            },
            Instruction::JeqImm => {
                let v = match pc.checked_add(1) {
                    Some(o) => self.get_u24(o),
                    None => None,
                };
                match v {
                    Some(v) => {
                        let target = Self::relative(self.pc, v);
                        self.branch(target);
                        return Ok(Status::Running);
                    },
                    None => return Err(Trap::Abort),
                }
            },
            Instruction::JeqReg => {
                match self.operand(1) {
                    Some(r) => {
                        if r > 3 {
                            return Err(Trap::Abort);
                        }
                        let o = self.get_reg(r);
                        self.branch(o as usize);
                        return Ok(Status::Running);
                    },
                    None => return Err(Trap::Abort),
                }
            },
            _ => return Err(Trap::Abort),
        }
        self.pc = self.pc.wrapping_add(4);
        Ok(Status::Running)
    }

    /// Runs at most `fuel` steps: `Halted` when the program halts, `Running`
    /// when the steps ran out first, and the trap of the first step that
    /// fails. Each step extends the image as `decode_and_execute` says.
    pub fn run(&mut self, fuel: u64) -> (r: Result<Status, Trap>)
        requires
            old(self).wf(),
        ensures
            final(self).wf(),
            exists|g: Seq<nat>|
                #![trigger legacy_run(old(self)@, g)]
                {
                    &&& g.len() <= fuel
                    &&& (final(self)@, r) == legacy_run(old(self)@, g)
                    &&& r == Ok::<Status, Trap>(Status::Running) ==> g.len() == fuel
                },
    {
        let mut k: u64 = 0;
        let ghost mut g: Seq<nat> = Seq::empty();
        while k < fuel
            invariant
                self.wf(),
                0 <= k <= fuel,
                g.len() == k,
                legacy_run(old(self)@, g) == (self@, Ok::<Status, Trap>(Status::Running)),
            decreases fuel - k,
        {
            let ghost before = self@;
            let r = self.decode_and_execute();
            let ghost x: nat = (self@.prog.len() - before.prog.len()) as nat;
            proof {
                lemma_legacy_run_extends(old(self)@, g, seq![x]);
                assert(legacy_run(before, seq![x]) == legacy_step(before, x)) by {
                    reveal_with_fuel(legacy_run, 2);
                    assert(seq![x].drop_first() =~= Seq::<nat>::empty());
                    assert(seq![x][0] == x);
                }
                g = g + seq![x];
            }
            k = k + 1;
            match r {
                Ok(Status::Running) => {},
                _ => {
                    return r;
                },
            }
        }
        Ok(Status::Running)
    }
}

/// Running the steps whose image growths `g` lists, one step for each, from
/// `s`: the run ends early at the first step that halts or fails.
pub open spec fn legacy_run(s: LegacyState, g: Seq<nat>) -> (LegacyState, Result<Status, Trap>)
    decreases g.len(),
{
    if g.len() == 0 {
        (s, Ok(Status::Running))
    } else {
        let (t, r) = legacy_step(s, g[0]);
        match r {
            Ok(Status::Running) => legacy_run(t, g.drop_first()),
            _ => (t, r),
        }
    }
}

/// A run that is still going after the steps of `a` goes on from where they
/// left it.
proof fn lemma_legacy_run_extends(s: LegacyState, a: Seq<nat>, b: Seq<nat>)
    requires
        legacy_run(s, a).1 == Ok::<Status, Trap>(Status::Running),
    ensures
        legacy_run(s, a + b) == legacy_run(legacy_run(s, a).0, b),
    decreases a.len(),
{
    if a.len() > 0 {
        let t = legacy_step(s, a[0]).0;
        assert((a + b).drop_first() =~= a.drop_first() + b);
        assert((a + b)[0] == a[0]);
        lemma_legacy_run_extends(t, a.drop_first(), b);
    } else {
        assert(a + b =~= b);
    }
}

/// Whether `i` is a jump, which sets the program counter itself.
pub open spec fn is_jump(i: Instruction) -> bool {
    match i {
        Instruction::JmpAddr | Instruction::JmpImm | Instruction::JmpReg | Instruction::JeqImm
        | Instruction::JeqReg => true,
        _ => false,
    }
}

/// Every instruction of the first design but a jump takes exactly one word:
/// a step that carries out such an instruction and goes on (neither traps
/// nor halts) moves the program counter four bytes on.
pub proof fn lemma_legacy_step_advances(s: LegacyState, grow: nat)
    requires
        s.pc < s.prog.len(),
        spec_decode_opcode(s.prog[s.pc as int]) matches Some(i) && !is_jump(i),
        legacy_step(s, grow).1 == Ok::<Status, Trap>(Status::Running),
    ensures
        legacy_step(s, grow).0.pc == vstd::wrapping::usize_specs::wrapping_add(s.pc, 4),
{
}

/// `swp a, b` (opcode 0xc5, the registers in the next two bytes) exchanges
/// the two registers of the first design; the other registers, the flags,
/// the stack and the image stay as they were, and control moves on a word.
pub proof fn lemma_legacy_swap(s: LegacyState, grow: nat)
    requires
        s.pc + 2 < s.prog.len(),
        s.prog[s.pc as int] == 0xc5,
        s.prog[s.pc + 1] <= 3,
        s.prog[s.pc + 2] <= 3,
    ensures
        ({
            let a = s.prog[s.pc + 1];
            let b = s.prog[s.pc + 2];
            let t = legacy_step(s, grow).0;
            &&& legacy_step(s, grow).1 == Ok::<Status, Trap>(Status::Running)
            &&& lreg(t, a) == lreg(s, b)
            &&& lreg(t, b) == lreg(s, a)
            &&& forall|q: u8| q <= 3 && q != a && q != b ==> lreg(t, q) == lreg(s, q)
            &&& t.pc == vstd::wrapping::usize_specs::wrapping_add(s.pc, 4)
            &&& t.fl == s.fl && t.sp == s.sp && t.stack == s.stack && t.prog == s.prog
        }),
{
}

/// The two-register instructions of the first design do what their names
/// say: the destination register (the byte after the opcode) receives its
/// old value plus, minus or times the source register (the byte after that),
/// modulo 2^32, or their bitwise AND, OR or XOR; `mov` gives it the source's
/// value. The other registers, the stack and the image stay as they were,
/// and control moves on a word.
pub proof fn lemma_legacy_register_instructions(s: LegacyState, grow: nat, i: Instruction)
    requires
        s.pc + 2 < s.prog.len(),
        spec_decode_opcode(s.prog[s.pc as int]) == Some(i),
        i == Instruction::AddReg || i == Instruction::SubReg || i == Instruction::MulReg || i
            == Instruction::AndReg || i == Instruction::OrReg || i == Instruction::XorReg || i
            == Instruction::MovDregSreg,
        s.prog[s.pc + 1] <= 3,
        s.prog[s.pc + 2] <= 3,
    ensures
        ({
            let d = s.prog[s.pc + 1];
            let x = lreg(s, d);
            let y = lreg(s, s.prog[s.pc + 2]);
            let t = legacy_step(s, grow).0;
            &&& legacy_step(s, grow).1 == Ok::<Status, Trap>(Status::Running)
            &&& i == Instruction::AddReg ==> lreg(t, d) == (x + y) % 0x1_0000_0000
            &&& i == Instruction::SubReg ==> lreg(t, d) == (x - y) % 0x1_0000_0000
            &&& i == Instruction::MulReg ==> lreg(t, d) == (x * y) % 0x1_0000_0000
            &&& i == Instruction::AndReg ==> lreg(t, d) == x & y
            &&& i == Instruction::OrReg ==> lreg(t, d) == x | y
            &&& i == Instruction::XorReg ==> lreg(t, d) == x ^ y
            &&& i == Instruction::MovDregSreg ==> lreg(t, d) == y
            &&& forall|q: u8| q <= 3 && q != d ==> lreg(t, q) == lreg(s, q)
            &&& t.pc == vstd::wrapping::usize_specs::wrapping_add(s.pc, 4)
            &&& t.sp == s.sp && t.stack == s.stack && t.prog == s.prog
        }),
{
}

/// The register-and-immediate instructions of the first design do what
/// their names say, with the 16-bit big-endian value in the last two bytes of
/// the word as the second operand: plus, minus or times (modulo 2^32), AND,
/// OR or XOR into the register named by the byte after the opcode, or, for
/// `movi`, the value itself. The other registers, the stack and the image
/// stay as they were, and control moves on a word.
pub proof fn lemma_legacy_immediate_instructions(s: LegacyState, grow: nat, i: Instruction)
    requires
        s.pc + 3 < s.prog.len(),
        spec_decode_opcode(s.prog[s.pc as int]) == Some(i),
        i == Instruction::AddImm || i == Instruction::SubImm || i == Instruction::MulImm || i
            == Instruction::AndImm || i == Instruction::OrImm || i == Instruction::XorImm || i
            == Instruction::MovDregSimm,
        s.prog[s.pc + 1] <= 3,
    ensures
        ({
            let d = s.prog[s.pc + 1];
            let x = lreg(s, d);
            let y = (s.prog[s.pc + 2] * 256 + s.prog[s.pc + 3]) as u32;
            let t = legacy_step(s, grow).0;
            &&& legacy_step(s, grow).1 == Ok::<Status, Trap>(Status::Running)
            &&& i == Instruction::AddImm ==> lreg(t, d) == (x + y) % 0x1_0000_0000
            &&& i == Instruction::SubImm ==> lreg(t, d) == (x - y) % 0x1_0000_0000
            &&& i == Instruction::MulImm ==> lreg(t, d) == (x * y) % 0x1_0000_0000
            &&& i == Instruction::AndImm ==> lreg(t, d) == x & y
            &&& i == Instruction::OrImm ==> lreg(t, d) == x | y
            &&& i == Instruction::XorImm ==> lreg(t, d) == x ^ y
            &&& i == Instruction::MovDregSimm ==> lreg(t, d) == y
            &&& forall|q: u8| q <= 3 && q != d ==> lreg(t, q) == lreg(s, q)
            &&& t.pc == vstd::wrapping::usize_specs::wrapping_add(s.pc, 4)
            &&& t.sp == s.sp && t.stack == s.stack && t.prog == s.prog
        }),
{
}

/// The 24-bit big-endian value in the last three bytes of the word at `pc`.
pub open spec fn word_tail(p: Seq<u8>, pc: int) -> u32 {
    (p[pc + 1] * 0x1_0000 + p[pc + 2] * 0x100 + p[pc + 3]) as u32
}

/// The jumps of the first design, whose word holds the opcode and then
/// three bytes: `jmp` (0x81) goes to the 24-bit value in them; `jmpi` (0x82)
/// moves by it as a sign-magnitude offset (bit 23 backwards); `jmpl` (0x83)
/// goes to the value of the register named by the byte after the opcode;
/// `jeqi` (0x84) and `jeq` (0x85) do as `jmpi` and `jmpl` when the ZERO flag
/// is set, clearing it, and otherwise move on a word. Nothing else changes.
#[verifier::spinoff_prover]
#[verifier::rlimit(50)]
pub proof fn lemma_legacy_jumps(s: LegacyState, grow: nat)
    requires
        s.pc + 3 < s.prog.len(),
    ensures
        ({
            let p = s.prog;
            let pc = s.pc as int;
            let v = word_tail(p, pc);
            let back = vstd::wrapping::usize_specs::wrapping_sub(s.pc, (v - 0x80_0000) as usize);
            let fwd = vstd::wrapping::usize_specs::wrapping_add(s.pc, v as usize);
            let next = vstd::wrapping::usize_specs::wrapping_add(s.pc, 4);
            let rel = if v < 0x80_0000 { fwd } else { back };
            let z = s.fl & 1 == 1;
            &&& p[pc] == 0x81 ==> legacy_step(s, grow) == (
                LegacyState { pc: v as usize, ..s },
                Ok::<Status, Trap>(Status::Running),
            )
            &&& p[pc] == 0x82 ==> legacy_step(s, grow) == (
                LegacyState { pc: rel, ..s },
                Ok::<Status, Trap>(Status::Running),
            )
            &&& p[pc] == 0x83 && p[pc + 1] <= 3 ==> legacy_step(s, grow) == (
                LegacyState { pc: lreg(s, p[pc + 1]) as usize, ..s },
                Ok::<Status, Trap>(Status::Running),
            )
            &&& p[pc] == 0x84 ==> legacy_step(s, grow) == (
                if z {
                    LegacyState { pc: rel, fl: s.fl & 0xfe, ..s }
                } else {
                    LegacyState { pc: next, ..s }
                },
                Ok::<Status, Trap>(Status::Running),
            )
            &&& p[pc] == 0x85 && p[pc + 1] <= 3 ==> legacy_step(s, grow) == (
                if z {
                    LegacyState { pc: lreg(s, p[pc + 1]) as usize, fl: s.fl & 0xfe, ..s }
                } else {
                    LegacyState { pc: next, ..s }
                },
                Ok::<Status, Trap>(Status::Running),
            )
        }),
{
    let v = word_tail(s.prog, s.pc as int);
    assert((v & 0x80_0000 != 0) == (v >= 0x80_0000) && (v >= 0x80_0000 ==> v & 0x7f_ffff == v
        - 0x80_0000)) by (bit_vector)
        requires
            v < 0x100_0000,
    ;
}

/// The stack instructions of the first design: `push` (0xd6) puts the
/// register named by the byte after the opcode on top of the stack, `pusha`
/// (0xd5) the 24-bit value in the last three bytes of the word, and `pop`
/// (0xf1) takes the top of a non-empty stack into the register named by the
/// byte after the opcode. The other registers stay and control moves on a
/// word.
#[verifier::spinoff_prover]
#[verifier::rlimit(50)]
pub proof fn lemma_legacy_stack(s: LegacyState, grow: nat)
    requires
        s.pc + 3 < s.prog.len(),
    ensures
        ({
            let p = s.prog;
            let pc = s.pc as int;
            let r = p[pc + 1];
            let next = vstd::wrapping::usize_specs::wrapping_add(s.pc, 4);
            &&& p[pc] == 0xd6 && r <= 3 ==> legacy_step(s, grow) == (
                LegacyState { stack: s.stack.push(lreg(s, r)), pc: next, ..s },
                Ok::<Status, Trap>(Status::Running),
            )
            &&& p[pc] == 0xd5 ==> legacy_step(s, grow) == (
                LegacyState { stack: s.stack.push(word_tail(p, pc)), pc: next, ..s },
                Ok::<Status, Trap>(Status::Running),
            )
            &&& p[pc] == 0xf1 && r <= 3 && s.stack.len() > 0 ==> {
                let t = legacy_step(s, grow).0;
                &&& legacy_step(s, grow).1 == Ok::<Status, Trap>(Status::Running)
                &&& lreg(t, r) == s.stack.last()
                &&& t.stack == s.stack.drop_last()
                &&& forall|q: u8| q <= 3 && q != r ==> lreg(t, q) == lreg(s, q)
                &&& t.pc == next
            }
        }),
{
}

/// `cmp` (0x79) and `cmpi` (0x80) of the first design compare the register
/// named by the byte after the opcode with the register named by the next
/// byte, or with the 16-bit value in the last two bytes: ZERO says whether
/// they are equal, GREATER whether the register is greater, other flags and
/// all registers stay, and control moves on a word.
#[verifier::spinoff_prover]
#[verifier::rlimit(50)]
pub proof fn lemma_legacy_compare(s: LegacyState, grow: nat)
    requires
        s.pc + 3 < s.prog.len(),
        s.prog[s.pc + 1] <= 3,
        s.prog[s.pc as int] == 0x79 ==> s.prog[s.pc + 2] <= 3,
        s.prog[s.pc as int] == 0x79 || s.prog[s.pc as int] == 0x80,
    ensures
        ({
            let p = s.prog;
            let pc = s.pc as int;
            let x = lreg(s, p[pc + 1]);
            let y = if p[pc] == 0x79 {
                lreg(s, p[pc + 2])
            } else {
                (p[pc + 2] * 256 + p[pc + 3]) as u32
            };
            let t = legacy_step(s, grow).0;
            &&& legacy_step(s, grow).1 == Ok::<Status, Trap>(Status::Running)
            &&& (t.fl & 1 == 1) == (x == y)
            &&& (t.fl & 4 == 4) == (x > y)
            &&& t.fl & 0xfa == s.fl & 0xfa
            &&& t == (LegacyState {
                fl: t.fl,
                pc: vstd::wrapping::usize_specs::wrapping_add(s.pc, 4),
                ..s
            })
        }),
{
    let p = s.prog;
    let pc = s.pc as int;
    let x = lreg(s, p[pc + 1]);
    let y = if p[pc] == 0x79 {
        lreg(s, p[pc + 2])
    } else {
        (p[pc + 2] * 256 + p[pc + 3]) as u32
    };
    crate::processor::cpu::lemma_compare_sets_zero_flag(s.fl, x, y);
}

/// `ldi` and `mova` (0xb1, 0x8e) of the first design load the register named
/// by the byte after the opcode with the big-endian word of the image at the
/// 16-bit address in the last two bytes of the word (a word lying wholly in
/// the image); the other registers stay and control moves on a word.
#[verifier::spinoff_prover]
#[verifier::rlimit(50)]
pub proof fn lemma_legacy_load(s: LegacyState, grow: nat)
    requires
        s.pc + 3 < s.prog.len(),
        s.prog[s.pc as int] == 0xb1 || s.prog[s.pc as int] == 0x8e,
        s.prog[s.pc + 1] <= 3,
        s.prog[s.pc + 2] * 256 + s.prog[s.pc + 3] + 3 < s.prog.len(),
    ensures
        ({
            let p = s.prog;
            let d = p[s.pc + 1];
            let a = p[s.pc + 2] * 256 + p[s.pc + 3];
            let t = legacy_step(s, grow).0;
            &&& legacy_step(s, grow).1 == Ok::<Status, Trap>(Status::Running)
            &&& lreg(t, d) == p[a] * 0x100_0000 + p[a + 1] * 0x1_0000 + p[a + 2] * 0x100 + p[a + 3]
            &&& forall|q: u8| q <= 3 && q != d ==> lreg(t, q) == lreg(s, q)
            &&& t.pc == vstd::wrapping::usize_specs::wrapping_add(s.pc, 4)
            &&& t.stack == s.stack && t.prog == s.prog
        }),
{
}

/// `movr` (0x8f) of the first design, for an address inside the image,
/// stores the register named by the third byte of the word big-endian at the
/// 16-bit address in its second and third bytes, leaving every other byte of
/// the image and all registers as they were; control moves on a word.
#[verifier::spinoff_prover]
#[verifier::rlimit(50)]
pub proof fn lemma_legacy_store(s: LegacyState, grow: nat)
    requires
        s.pc + 3 < s.prog.len(),
        s.prog[s.pc as int] == 0x8f,
        s.prog[s.pc + 2] <= 3,
        s.prog[s.pc + 1] * 256 + s.prog[s.pc + 2] + 3 < s.prog.len(),
    ensures
        ({
            let p = s.prog;
            let a = p[s.pc + 1] * 256 + p[s.pc + 2];
            let v = lreg(s, p[s.pc + 2]);
            let t = legacy_step(s, grow).0;
            &&& legacy_step(s, grow).1 == Ok::<Status, Trap>(Status::Running)
            &&& t.prog.len() == p.len()
            &&& t.prog[a] * 0x100_0000 + t.prog[a + 1] * 0x1_0000 + t.prog[a + 2] * 0x100 + t.prog[a
                + 3] == v
            &&& forall|k: int| 0 <= k < p.len() && !(a <= k < a + 4) ==> t.prog[k] == p[k]
            &&& t == (LegacyState {
                prog: t.prog,
                pc: vstd::wrapping::usize_specs::wrapping_add(s.pc, 4),
                ..s
            })
        }),
{
    let p = s.prog;
    let v = lreg(s, p[s.pc + 2]);
    let b0 = ((v >> 24) & 0xff) as u8;
    let b1 = ((v >> 16) & 0xff) as u8;
    let b2 = ((v >> 8) & 0xff) as u8;
    let b3 = (v & 0xff) as u8;
    assert(b0 as int * 0x100_0000 + b1 as int * 0x1_0000 + b2 as int * 0x100 + b3 as int == v)
        by (bit_vector)
        requires
            b0 == ((v >> 24) & 0xff) as u8,
            b1 == ((v >> 16) & 0xff) as u8,
            b2 == ((v >> 8) & 0xff) as u8,
            b3 == (v & 0xff) as u8,
    ;
}

/// `hlt` (0x6f) of the first design halts, leaving everything as it was;
/// `nop` (0xff) only moves control on a word; the interrupts (0xaa, 0xab)
/// are not handled by this design and stop it, leaving everything as it was.
pub proof fn lemma_legacy_halt_nop_interrupt(s: LegacyState, grow: nat)
    requires
        s.pc < s.prog.len(),
    ensures
        s.prog[s.pc as int] == 0x6f ==> legacy_step(s, grow) == (s, Ok::<Status, Trap>(
            Status::Halted,
        )),
        s.prog[s.pc as int] == 0xff ==> legacy_step(s, grow) == (
            LegacyState { pc: vstd::wrapping::usize_specs::wrapping_add(s.pc, 4), ..s },
            Ok::<Status, Trap>(Status::Running),
        ),
        s.prog[s.pc as int] == 0xaa || s.prog[s.pc as int] == 0xab ==> legacy_step(s, grow) == (
            s,
            Err::<Status, Trap>(Trap::Abort),
        ),
{
}

} // verus!
