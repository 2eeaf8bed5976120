//! The instruction set: opcodes and assembler mnemonics.
use vstd::prelude::*;

verus! {

/// Every operation the processor knows.
#[derive(Clone, Copy, Debug, PartialEq, Eq, Structural, Hash)]
pub enum Instruction {
    Ld,
    Swp,
    PushAddr,
    PushReg,
    Pop,
    Nop,
    AddReg,
    AddImm,
    SubReg,
    SubImm,
    MulReg,
    MulImm,
    AndReg,
    AndImm,
    OrReg,
    OrImm,
    XorReg,
    XorImm,
    CmpReg,
    CmpImm,
    MovDregSreg,
    MovDregSimm,
    MovDregSaddr,
    MovDaddrSreg,
    Hlt,
    JmpAddr,
    JmpImm,
    JmpReg,
    JeqReg,
    JeqImm,
    IntReg,
    IntImm,
    LdReg,
    SfgImm,
    SfgReg,
}

/// Something that can be made from nothing.
pub trait Instr: Sized {
    fn init() -> Self;
}

/// The opcode byte of an instruction, where it has one.
pub open spec fn spec_opcode(i: Instruction) -> Option<u8> {
    match i {
        Instruction::AddReg => Some(0x11u8),
        Instruction::AddImm => Some(0x12u8),
        Instruction::SubReg => Some(0x02u8),
        Instruction::SubImm => Some(0x03u8),
        Instruction::MulReg => Some(0x38u8),
        Instruction::MulImm => Some(0x39u8),
        Instruction::AndReg => Some(0x41u8),
        Instruction::AndImm => Some(0x42u8),
        Instruction::OrReg => Some(0x56u8),
        Instruction::OrImm => Some(0x57u8),
        Instruction::XorReg => Some(0x6au8),
        Instruction::XorImm => Some(0x6bu8),
        Instruction::CmpReg => Some(0x79u8),
        Instruction::CmpImm => Some(0x80u8),
        Instruction::MovDregSreg => Some(0x8du8),
        Instruction::MovDregSaddr => Some(0x8eu8),
        Instruction::MovDaddrSreg => Some(0x8fu8),
        Instruction::MovDregSimm => Some(0x90u8),
        Instruction::Ld => Some(0xb1u8),
        Instruction::Swp => Some(0xc5u8),
        Instruction::PushAddr => Some(0xd5u8),
        Instruction::PushReg => Some(0xd6u8),
        Instruction::Pop => Some(0xf1u8),
        Instruction::Nop => Some(0xffu8),
        Instruction::Hlt => Some(0x6fu8),
        Instruction::JmpAddr => Some(0x81u8),
        Instruction::JmpImm => Some(0x82u8),
        Instruction::JmpReg => Some(0x83u8),
        Instruction::JeqImm => Some(0x84u8),
        Instruction::JeqReg => Some(0x85u8),
        Instruction::IntImm => Some(0xaau8),
        Instruction::IntReg => Some(0xabu8),
        Instruction::LdReg => None,
        Instruction::SfgImm => None,
        Instruction::SfgReg => None,
    }
}

/// The instruction an opcode byte stands for, where it stands for one.
pub open spec fn spec_decode_opcode(op: u8) -> Option<Instruction> {
    if op == 0x11 { Some(Instruction::AddReg) }
    else if op == 0x12 { Some(Instruction::AddImm) }
    else if op == 0x02 { Some(Instruction::SubReg) }
    else if op == 0x03 { Some(Instruction::SubImm) }
    else if op == 0x38 { Some(Instruction::MulReg) }
    else if op == 0x39 { Some(Instruction::MulImm) }
    else if op == 0x41 { Some(Instruction::AndReg) }
    else if op == 0x42 { Some(Instruction::AndImm) }
    else if op == 0x56 { Some(Instruction::OrReg) }
    else if op == 0x57 { Some(Instruction::OrImm) }
    else if op == 0x6a { Some(Instruction::XorReg) }
    else if op == 0x6b { Some(Instruction::XorImm) }
    else if op == 0x79 { Some(Instruction::CmpReg) }
    else if op == 0x80 { Some(Instruction::CmpImm) }
    else if op == 0x8d { Some(Instruction::MovDregSreg) }
    else if op == 0x8e { Some(Instruction::MovDregSaddr) }
    else if op == 0x8f { Some(Instruction::MovDaddrSreg) }
    else if op == 0x90 { Some(Instruction::MovDregSimm) }
    else if op == 0xb1 { Some(Instruction::Ld) }
    else if op == 0xc5 { Some(Instruction::Swp) }
    else if op == 0xd5 { Some(Instruction::PushAddr) }
    else if op == 0xd6 { Some(Instruction::PushReg) }
    else if op == 0xf1 { Some(Instruction::Pop) }
    else if op == 0xff { Some(Instruction::Nop) }
    else if op == 0x6f { Some(Instruction::Hlt) }
    else if op == 0x81 { Some(Instruction::JmpAddr) }
    else if op == 0x82 { Some(Instruction::JmpImm) }
    else if op == 0x83 { Some(Instruction::JmpReg) }
    else if op == 0x84 { Some(Instruction::JeqImm) }
    else if op == 0x85 { Some(Instruction::JeqReg) }
    else if op == 0xaa { Some(Instruction::IntImm) }
    else if op == 0xab { Some(Instruction::IntReg) }
    else { None }
}

/// Whether `n` spells the word `w` letter by letter.
pub open spec fn spells(n: Seq<u8>, w: Seq<char>) -> bool {
    &&& n.len() == w.len()
    &&& forall|k: int| 0 <= k < n.len() ==> n[k] as int == w[k] as int
}

/// The assembler mnemonic of an instruction, where it has one.
pub open spec fn spec_mnemonic(i: Instruction) -> Option<Seq<char>> {
    match i {
        Instruction::AddReg => Some(seq!['a', 'd', 'd']),
        Instruction::AddImm => Some(seq!['a', 'd', 'd', 'i']),
        Instruction::SubReg => Some(seq!['s', 'u', 'b']),
        Instruction::SubImm => Some(seq!['s', 'u', 'b', 'i']),
        Instruction::MulReg => Some(seq!['m', 'u', 'l']),
        Instruction::MulImm => Some(seq!['m', 'u', 'l', 'i']),
        Instruction::AndReg => Some(seq!['a', 'n', 'd']),
        Instruction::AndImm => Some(seq!['a', 'n', 'd', 'i']),
        Instruction::OrReg => Some(seq!['o', 'r']),
        Instruction::OrImm => Some(seq!['o', 'r', 'i']),
        Instruction::XorReg => Some(seq!['x', 'o', 'r']),
        Instruction::XorImm => Some(seq!['x', 'o', 'r', 'i']),
        Instruction::CmpReg => Some(seq!['c', 'm', 'p']),
        Instruction::CmpImm => Some(seq!['c', 'm', 'p', 'i']),
        Instruction::MovDregSreg => Some(seq!['m', 'o', 'v']),
        Instruction::MovDregSimm => Some(seq!['m', 'o', 'v', 'i']),
        Instruction::MovDregSaddr => Some(seq!['m', 'o', 'v', 'a']),
        Instruction::MovDaddrSreg => Some(seq!['m', 'o', 'v', 'r']),
        Instruction::Ld => Some(seq!['l', 'd', 'i']),
        Instruction::Swp => Some(seq!['s', 'w', 'p']),
        Instruction::PushAddr => Some(seq!['p', 'u', 's', 'h', 'a']),
        Instruction::PushReg => Some(seq!['p', 'u', 's', 'h']),
        Instruction::Pop => Some(seq!['p', 'o', 'p']),
        Instruction::Nop => Some(seq!['n', 'o', 'p']),
        Instruction::Hlt => Some(seq!['h', 'l', 't']),
        Instruction::JmpAddr => Some(seq!['j', 'm', 'p']),
        Instruction::JmpImm => Some(seq!['j', 'm', 'p', 'i']),
        Instruction::JmpReg => Some(seq!['j', 'm', 'p', 'l']),
        Instruction::JeqReg => Some(seq!['j', 'e', 'q']),
        Instruction::JeqImm => Some(seq!['j', 'e', 'q', 'i']),
        Instruction::IntImm => Some(seq!['i', 'n', 't']),
        Instruction::IntReg => Some(seq!['i', 'n', 't', 'r']),
        Instruction::LdReg => Some(seq!['l', 'd', 'r']),
        Instruction::SfgImm => Some(seq!['s', 'f', 'g', 'i']),
        Instruction::SfgReg => Some(seq!['s', 'f', 'g', 'r']),
    }
}

/// The instruction a mnemonic names, where it names one.
pub open spec fn spec_named(n: Seq<u8>) -> Option<Instruction> {
    if spells(n, seq!['a', 'd', 'd']) { Some(Instruction::AddReg) }
    else if spells(n, seq!['a', 'd', 'd', 'i']) { Some(Instruction::AddImm) }
    else if spells(n, seq!['s', 'u', 'b']) { Some(Instruction::SubReg) }
    else if spells(n, seq!['s', 'u', 'b', 'i']) { Some(Instruction::SubImm) }
    else if spells(n, seq!['m', 'u', 'l']) { Some(Instruction::MulReg) }
    else if spells(n, seq!['m', 'u', 'l', 'i']) { Some(Instruction::MulImm) }
    else if spells(n, seq!['a', 'n', 'd']) { Some(Instruction::AndReg) }
    else if spells(n, seq!['a', 'n', 'd', 'i']) { Some(Instruction::AndImm) }
    else if spells(n, seq!['o', 'r']) { Some(Instruction::OrReg) }
    else if spells(n, seq!['o', 'r', 'i']) { Some(Instruction::OrImm) }
    else if spells(n, seq!['x', 'o', 'r']) { Some(Instruction::XorReg) }
    else if spells(n, seq!['x', 'o', 'r', 'i']) { Some(Instruction::XorImm) }
    else if spells(n, seq!['c', 'm', 'p']) { Some(Instruction::CmpReg) }
    else if spells(n, seq!['c', 'm', 'p', 'i']) { Some(Instruction::CmpImm) }
    else if spells(n, seq!['m', 'o', 'v']) { Some(Instruction::MovDregSreg) }
    else if spells(n, seq!['m', 'o', 'v', 'i']) { Some(Instruction::MovDregSimm) }
    else if spells(n, seq!['m', 'o', 'v', 'a']) { Some(Instruction::MovDregSaddr) }
    else if spells(n, seq!['m', 'o', 'v', 'r']) { Some(Instruction::MovDaddrSreg) }
    else if spells(n, seq!['l', 'd', 'i']) { Some(Instruction::Ld) }
    else if spells(n, seq!['s', 'w', 'p']) { Some(Instruction::Swp) }
    else if spells(n, seq!['p', 'u', 's', 'h', 'a']) { Some(Instruction::PushAddr) }
    else if spells(n, seq!['p', 'u', 's', 'h']) { Some(Instruction::PushReg) }
    else if spells(n, seq!['p', 'o', 'p']) { Some(Instruction::Pop) }
    else if spells(n, seq!['n', 'o', 'p']) { Some(Instruction::Nop) }
    else if spells(n, seq!['h', 'l', 't']) { Some(Instruction::Hlt) }
    else if spells(n, seq!['j', 'm', 'p', 'l']) { Some(Instruction::JmpReg) }
    else if spells(n, seq!['j', 'm', 'p', 'i']) { Some(Instruction::JmpImm) }
    else if spells(n, seq!['j', 'm', 'p']) { Some(Instruction::JmpAddr) }
    else if spells(n, seq!['j', 'e', 'q']) { Some(Instruction::JeqReg) }
    else if spells(n, seq!['j', 'e', 'q', 'i']) { Some(Instruction::JeqImm) }
    else if spells(n, seq!['i', 'n', 't']) { Some(Instruction::IntImm) }
    else if spells(n, seq!['i', 'n', 't', 'r']) { Some(Instruction::IntReg) }
    else if spells(n, seq!['l', 'd', 'r']) { Some(Instruction::LdReg) }
    else if spells(n, seq!['s', 'f', 'g', 'r']) { Some(Instruction::SfgReg) }
    else if spells(n, seq!['s', 'f', 'g', 'i']) { Some(Instruction::SfgImm) }
    else { None }
}

/// Looking a mnemonic up gives back the instruction it was written for: the
/// bytes of an instruction's mnemonic name that instruction and no other.
pub proof fn lemma_named_inverts_mnemonic(i: Instruction, n: Seq<u8>)
    requires
        spec_mnemonic(i) matches Some(m) && spells(n, m),
    ensures
        spec_named(n) == Some(i),
{
    let m = spec_mnemonic(i)->0;
    assert(forall|k: int| 0 <= k < n.len() ==> n[k] as int == m[k] as int);
}

/// Every instruction a lookup finds is one whose mnemonic was spelled.
pub proof fn lemma_mnemonic_inverts_named(n: Seq<u8>)
    ensures
        spec_named(n) matches Some(i) ==> (spec_mnemonic(i) matches Some(m) && spells(n, m)),
{
}

/// Decoding undoes encoding: every instruction that has an opcode is the
/// instruction its opcode decodes to.
pub proof fn lemma_decode_opcode_inverts_opcode(i: Instruction)
    ensures
        spec_opcode(i) matches Some(op) ==> spec_decode_opcode(op) == Some(i),
{
}

/// Encoding undoes decoding: every opcode byte that decodes to an
/// instruction is that instruction's opcode.
pub proof fn lemma_opcode_inverts_decode_opcode(op: u8)
    ensures
        spec_decode_opcode(op) matches Some(i) ==> spec_opcode(i) == Some(op),
{
}

} // verus!
