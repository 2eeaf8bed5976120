//! The tables that connect opcodes, instructions and mnemonics, and the
//! assembler that turns a line of source into machine words.
use std::collections::HashMap;
use vstd::prelude::*;

use crate::text::{
    boundary, bytes_eq, is_boundary, lemma_first_piece_is_prefix, lemma_split_on_nonempty, remove_byte,
    slice_of, split_bytes, split_on, views, without_byte,
};
use crate::processor::instructions::{
    lemma_decode_opcode_inverts_opcode, lemma_mnemonic_inverts_named, lemma_named_inverts_mnemonic,
    lemma_opcode_inverts_decode_opcode, spec_decode_opcode, spec_mnemonic, spec_named, spec_opcode, spells, Instruction,
};
use vstd::utf8::{encode_utf8, is_ascii_chars, is_ascii_chars_encode_utf8};

verus! {

broadcast use vstd::std_specs::hash::group_hash_axioms;

/// The opcode table as a map: each opcode byte to the instruction it names.
pub open spec fn translation_map() -> Map<u8, Instruction> {
    Map::new(|op: u8| spec_decode_opcode(op) is Some, |op: u8| spec_decode_opcode(op)->0)
}

/// The table the processor decodes opcodes with.
pub fn build_translation_table() -> (map: HashMap<u8, Instruction>)
    ensures
        map@ == translation_map(),
{
    let mut map: HashMap<u8, Instruction> = HashMap::new();
    map.insert(0x11, Instruction::AddReg);
    map.insert(0x12, Instruction::AddImm);
    map.insert(0x02, Instruction::SubReg);
    map.insert(0x03, Instruction::SubImm);
    map.insert(0x38, Instruction::MulReg);
    map.insert(0x39, Instruction::MulImm);
    map.insert(0x41, Instruction::AndReg);
    map.insert(0x42, Instruction::AndImm);
    map.insert(0x56, Instruction::OrReg);
    map.insert(0x57, Instruction::OrImm);
    map.insert(0x6a, Instruction::XorReg);
    map.insert(0x6b, Instruction::XorImm);
    map.insert(0x79, Instruction::CmpReg);
    map.insert(0x80, Instruction::CmpImm);
    map.insert(0x8d, Instruction::MovDregSreg);
    map.insert(0x8e, Instruction::MovDregSaddr);
    map.insert(0x8f, Instruction::MovDaddrSreg);
    map.insert(0x90, Instruction::MovDregSimm);
    map.insert(0xb1, Instruction::Ld);
    map.insert(0xc5, Instruction::Swp);
    map.insert(0xd5, Instruction::PushAddr);
    map.insert(0xd6, Instruction::PushReg);
    map.insert(0xf1, Instruction::Pop);
    map.insert(0xff, Instruction::Nop);
    map.insert(0x6f, Instruction::Hlt);
    map.insert(0x81, Instruction::JmpAddr);
    map.insert(0x82, Instruction::JmpImm);
    map.insert(0x83, Instruction::JmpReg);
    map.insert(0x84, Instruction::JeqImm);
    map.insert(0x85, Instruction::JeqReg);
    map.insert(0xaa, Instruction::IntImm);
    map.insert(0xab, Instruction::IntReg);
    assert(map@ =~= translation_map());
    map
}

/// The signed value of a sign-magnitude word: bit 31 is the sign, the
/// other 31 bits the magnitude.
pub open spec fn spec_convert_to_signed(a: u32) -> i32 {
    if a >= 0x8000_0000 {
        -((a - 0x8000_0000) as int) as i32
    } else {
        a as i32
    }
}

/// Converts a sign-magnitude word to a signed integer.
pub fn convert_to_signed(a: u32) -> (r: i32)
    ensures
        r == spec_convert_to_signed(a),
{
    assert((a & 0x8000_0000 != 0) == (a >= 0x8000_0000)) by (bit_vector);
    assert(a & 0x7FFF_FFFF == if a >= 0x8000_0000 { (a - 0x8000_0000) as u32 } else { a })
        by (bit_vector);
    if a & 0x80000000 != 0 {
        return (a & 0x7FFFFFFF) as i32 * -1;
    } else {
        return (a & 0x7FFFFFFF) as i32;
    }
}

/// The instruction-to-opcode table, in the order the assembler lists it.
pub open spec fn compile_pairs() -> Seq<(Instruction, u8)> {
    seq![
        (Instruction::AddReg, 0x11u8),
        (Instruction::AddImm, 0x12u8),
        (Instruction::SubReg, 0x02u8),
        (Instruction::SubImm, 0x03u8),
        (Instruction::MulReg, 0x38u8),
        (Instruction::MulImm, 0x39u8),
        (Instruction::AndReg, 0x41u8),
        (Instruction::AndImm, 0x42u8),
        (Instruction::OrReg, 0x56u8),
        (Instruction::OrImm, 0x57u8),
        (Instruction::XorReg, 0x6au8),
        (Instruction::XorImm, 0x6bu8),
        (Instruction::CmpReg, 0x79u8),
        (Instruction::CmpImm, 0x80u8),
        (Instruction::MovDregSreg, 0x8du8),
        (Instruction::MovDregSaddr, 0x8eu8),
        (Instruction::MovDaddrSreg, 0x8fu8),
        (Instruction::MovDregSimm, 0x90u8),
        (Instruction::Ld, 0xb1u8),
        (Instruction::Swp, 0xc5u8),
        (Instruction::PushAddr, 0xd5u8),
        (Instruction::PushReg, 0xd6u8),
        (Instruction::Pop, 0xf1u8),
        (Instruction::Nop, 0xffu8),
        (Instruction::Hlt, 0x6fu8),
        (Instruction::JmpAddr, 0x81u8),
        (Instruction::JmpImm, 0x82u8),
        (Instruction::JmpReg, 0x83u8),
        (Instruction::JeqImm, 0x84u8),
        (Instruction::JeqReg, 0x85u8),
        (Instruction::IntImm, 0xaau8),
        (Instruction::IntReg, 0xabu8),
    ]
}

/// The table the assembler encodes instructions with: each instruction
/// paired with its opcode.
pub fn build_compile_table() -> (map: Vec<(Instruction, u8)>)
    ensures
        map@ == compile_pairs(),
{
    let mut map: Vec<(Instruction, u8)> = Vec::new();
    map.push((Instruction::AddReg, 0x11u8));
    map.push((Instruction::AddImm, 0x12u8));
    map.push((Instruction::SubReg, 0x02u8));
    map.push((Instruction::SubImm, 0x03u8));
    map.push((Instruction::MulReg, 0x38u8));
    map.push((Instruction::MulImm, 0x39u8));
    map.push((Instruction::AndReg, 0x41u8));
    map.push((Instruction::AndImm, 0x42u8));
    map.push((Instruction::OrReg, 0x56u8));
    map.push((Instruction::OrImm, 0x57u8));
    map.push((Instruction::XorReg, 0x6au8));
    map.push((Instruction::XorImm, 0x6bu8));
    map.push((Instruction::CmpReg, 0x79u8));
    map.push((Instruction::CmpImm, 0x80u8));
    map.push((Instruction::MovDregSreg, 0x8du8));
    map.push((Instruction::MovDregSaddr, 0x8eu8));
    map.push((Instruction::MovDaddrSreg, 0x8fu8));
    map.push((Instruction::MovDregSimm, 0x90u8));
    map.push((Instruction::Ld, 0xb1u8));
    map.push((Instruction::Swp, 0xc5u8));
    map.push((Instruction::PushAddr, 0xd5u8));
    map.push((Instruction::PushReg, 0xd6u8));
    map.push((Instruction::Pop, 0xf1u8));
    map.push((Instruction::Nop, 0xffu8));
    map.push((Instruction::Hlt, 0x6fu8));
    map.push((Instruction::JmpAddr, 0x81u8));
    map.push((Instruction::JmpImm, 0x82u8));
    map.push((Instruction::JmpReg, 0x83u8));
    map.push((Instruction::JeqImm, 0x84u8));
    map.push((Instruction::JeqReg, 0x85u8));
    map.push((Instruction::IntImm, 0xaau8));
    map.push((Instruction::IntReg, 0xabu8));
    assert(map@ =~= compile_pairs());
    map
}

/// The mnemonic-to-instruction table, in the order the assembler lists it.
pub open spec fn decode_pairs() -> Seq<(Seq<char>, Instruction)> {
    seq![
        ("add"@, Instruction::AddReg),
        ("addi"@, Instruction::AddImm),
        ("sub"@, Instruction::SubReg),
        ("subi"@, Instruction::SubImm),
        ("mul"@, Instruction::MulReg),
        ("muli"@, Instruction::MulImm),
        ("and"@, Instruction::AndReg),
        ("andi"@, Instruction::AndImm),
        ("or"@, Instruction::OrReg),
        ("ori"@, Instruction::OrImm),
        ("xor"@, Instruction::XorReg),
        ("xori"@, Instruction::XorImm),
        ("cmp"@, Instruction::CmpReg),
        ("cmpi"@, Instruction::CmpImm),
        ("mov"@, Instruction::MovDregSreg),
        ("movi"@, Instruction::MovDregSimm),
        ("mova"@, Instruction::MovDregSaddr),
        ("movr"@, Instruction::MovDaddrSreg),
        ("ldi"@, Instruction::Ld),
        ("swp"@, Instruction::Swp),
        ("pusha"@, Instruction::PushAddr),
        ("push"@, Instruction::PushReg),
        ("pop"@, Instruction::Pop),
        ("nop"@, Instruction::Nop),
        ("hlt"@, Instruction::Hlt),
        ("jmpl"@, Instruction::JmpReg),
        ("jmpi"@, Instruction::JmpImm),
        ("jmp"@, Instruction::JmpAddr),
        ("jeq"@, Instruction::JeqReg),
        ("jeqi"@, Instruction::JeqImm),
        ("int"@, Instruction::IntImm),
        ("intr"@, Instruction::IntReg),
        ("ldr"@, Instruction::LdReg),
        ("sfgr"@, Instruction::SfgReg),
        ("sfgi"@, Instruction::SfgImm),
    ]
}

/// The table the assembler reads mnemonics with: each mnemonic paired
/// with the instruction it names.
pub fn build_decode_table() -> (map: Vec<(&'static str, Instruction)>)
    ensures
        is_decode_table(map@),
{
    let mut map: Vec<(&'static str, Instruction)> = Vec::new();
    map.push(("add", Instruction::AddReg));
    map.push(("addi", Instruction::AddImm));
    map.push(("sub", Instruction::SubReg));
    map.push(("subi", Instruction::SubImm));
    map.push(("mul", Instruction::MulReg));
    map.push(("muli", Instruction::MulImm));
    map.push(("and", Instruction::AndReg));
    map.push(("andi", Instruction::AndImm));
    map.push(("or", Instruction::OrReg));
    map.push(("ori", Instruction::OrImm));
    map.push(("xor", Instruction::XorReg));
    map.push(("xori", Instruction::XorImm));
    map.push(("cmp", Instruction::CmpReg));
    map.push(("cmpi", Instruction::CmpImm));
    map.push(("mov", Instruction::MovDregSreg));
    map.push(("movi", Instruction::MovDregSimm));
    map.push(("mova", Instruction::MovDregSaddr));
    map.push(("movr", Instruction::MovDaddrSreg));
    map.push(("ldi", Instruction::Ld));
    map.push(("swp", Instruction::Swp));
    map.push(("pusha", Instruction::PushAddr));
    map.push(("push", Instruction::PushReg));
    map.push(("pop", Instruction::Pop));
    map.push(("nop", Instruction::Nop));
    map.push(("hlt", Instruction::Hlt));
    map.push(("jmpl", Instruction::JmpReg));
    map.push(("jmpi", Instruction::JmpImm));
    map.push(("jmp", Instruction::JmpAddr));
    map.push(("jeq", Instruction::JeqReg));
    map.push(("jeqi", Instruction::JeqImm));
    map.push(("int", Instruction::IntImm));
    map.push(("intr", Instruction::IntReg));
    map.push(("ldr", Instruction::LdReg));
    map.push(("sfgr", Instruction::SfgReg));
    map.push(("sfgi", Instruction::SfgImm));
    map
}

/// Every entry of the compile table pairs an instruction with its opcode,
/// and the table lists every instruction that has one.
pub proof fn lemma_compile_table_is_opcode_table()
    ensures
        forall|k: int|
            0 <= k < compile_pairs().len() ==> spec_opcode(#[trigger] compile_pairs()[k].0) == Some(
                compile_pairs()[k].1,
            ),
        forall|i: Instruction|
            (#[trigger] spec_opcode(i)) is Some ==> exists|k: int|
                0 <= k < compile_pairs().len() && compile_pairs()[k].0 == i,
{
    assert forall|i: Instruction| (#[trigger] spec_opcode(i)) is Some implies exists|k: int|
        0 <= k < compile_pairs().len() && compile_pairs()[k].0 == i by {
        let t = compile_pairs();
        match i {
            Instruction::AddReg => assert(t[0].0 == i),
            Instruction::AddImm => assert(t[1].0 == i),
            Instruction::SubReg => assert(t[2].0 == i),
            Instruction::SubImm => assert(t[3].0 == i),
            Instruction::MulReg => assert(t[4].0 == i),
            Instruction::MulImm => assert(t[5].0 == i),
            Instruction::AndReg => assert(t[6].0 == i),
            Instruction::AndImm => assert(t[7].0 == i),
            Instruction::OrReg => assert(t[8].0 == i),
            Instruction::OrImm => assert(t[9].0 == i),
            Instruction::XorReg => assert(t[10].0 == i),
            Instruction::XorImm => assert(t[11].0 == i),
            Instruction::CmpReg => assert(t[12].0 == i),
            Instruction::CmpImm => assert(t[13].0 == i),
            Instruction::MovDregSreg => assert(t[14].0 == i),
            Instruction::MovDregSaddr => assert(t[15].0 == i),
            Instruction::MovDaddrSreg => assert(t[16].0 == i),
            Instruction::MovDregSimm => assert(t[17].0 == i),
            Instruction::Ld => assert(t[18].0 == i),
            Instruction::Swp => assert(t[19].0 == i),
            Instruction::PushAddr => assert(t[20].0 == i),
            Instruction::PushReg => assert(t[21].0 == i),
            Instruction::Pop => assert(t[22].0 == i),
            Instruction::Nop => assert(t[23].0 == i),
            Instruction::Hlt => assert(t[24].0 == i),
            Instruction::JmpAddr => assert(t[25].0 == i),
            Instruction::JmpImm => assert(t[26].0 == i),
            Instruction::JmpReg => assert(t[27].0 == i),
            Instruction::JeqImm => assert(t[28].0 == i),
            Instruction::JeqReg => assert(t[29].0 == i),
            Instruction::IntImm => assert(t[30].0 == i),
            Instruction::IntReg => assert(t[31].0 == i),
            _ => {},
        }
    }
}

/// Where each instruction with an opcode stands in the compile table.
spec fn compile_index(i: Instruction) -> int {
    match i {
        Instruction::AddReg => 0,
        Instruction::AddImm => 1,
        Instruction::SubReg => 2,
        Instruction::SubImm => 3,
        Instruction::MulReg => 4,
        Instruction::MulImm => 5,
        Instruction::AndReg => 6,
        Instruction::AndImm => 7,
        Instruction::OrReg => 8,
        Instruction::OrImm => 9,
        Instruction::XorReg => 10,
        Instruction::XorImm => 11,
        Instruction::CmpReg => 12,
        Instruction::CmpImm => 13,
        Instruction::MovDregSreg => 14,
        Instruction::MovDregSaddr => 15,
        Instruction::MovDaddrSreg => 16,
        Instruction::MovDregSimm => 17,
        Instruction::Ld => 18,
        Instruction::Swp => 19,
        Instruction::PushAddr => 20,
        Instruction::PushReg => 21,
        Instruction::Pop => 22,
        Instruction::Nop => 23,
        Instruction::Hlt => 24,
        Instruction::JmpAddr => 25,
        Instruction::JmpImm => 26,
        Instruction::JmpReg => 27,
        Instruction::JeqImm => 28,
        Instruction::JeqReg => 29,
        Instruction::IntImm => 30,
        Instruction::IntReg => 31,
        _ => -1,
    }
}

/// No instruction is listed twice in the compile table.
proof fn lemma_compile_index()
    ensures
        forall|k: int|
            0 <= k < compile_pairs().len() ==> compile_index(#[trigger] compile_pairs()[k].0) == k,
{
    let t = compile_pairs();
    assert forall|k: int| 0 <= k < t.len() implies compile_index(#[trigger] t[k].0) == k by {
        assert(k == 0 || k == 1 || k == 2 || k == 3 || k == 4 || k == 5 || k == 6 || k == 7 || k
            == 8 || k == 9 || k == 10 || k == 11 || k == 12 || k == 13 || k == 14 || k == 15 || k
            == 16 || k == 17 || k == 18 || k == 19 || k == 20 || k == 21 || k == 22 || k == 23
            || k == 24 || k == 25 || k == 26 || k == 27 || k == 28 || k == 29 || k == 30 || k
            == 31);
    }
}

/// The compile table is exactly the opcode table read the other way: it has
/// as many entries, each of its pairs is an entry of the opcode table, and
/// each entry of the opcode table is one of its pairs.
pub proof fn lemma_compile_table_inverts_translation()
    ensures
        compile_pairs().len() == translation_map().len(),
        forall|k: int|
            0 <= k < compile_pairs().len() ==> translation_map().contains_key(
                #[trigger] compile_pairs()[k].1,
            ) && translation_map()[compile_pairs()[k].1] == compile_pairs()[k].0,
        forall|op: u8| #[trigger]
            translation_map().contains_key(op) ==> exists|k: int|
                0 <= k < compile_pairs().len() && compile_pairs()[k] == (translation_map()[op], op),
{
    let t = compile_pairs();
    lemma_compile_table_is_opcode_table();
    lemma_compile_index();
    assert forall|k: int| 0 <= k < t.len() implies translation_map().contains_key(#[trigger] t[k].1)
        && translation_map()[t[k].1] == t[k].0 by {
        lemma_decode_opcode_inverts_opcode(t[k].0);
    }
    assert forall|op: u8| #[trigger] translation_map().contains_key(op) implies exists|k: int|
        0 <= k < t.len() && t[k] == (translation_map()[op], op) by {
        let i = spec_decode_opcode(op)->0;
        lemma_opcode_inverts_decode_opcode(op);
        assert(spec_opcode(i) is Some);
        let k = choose|k: int| 0 <= k < t.len() && t[k].0 == i;
        assert(t[k] == (i, op));
    }
    let ops = t.map_values(|p: (Instruction, u8)| p.1);
    assert(ops.no_duplicates()) by {
        assert forall|a: int, b: int| 0 <= a < ops.len() && 0 <= b < ops.len() && a != b implies ops[a]
            != ops[b] by {
            if ops[a] == ops[b] {
                lemma_decode_opcode_inverts_opcode(t[a].0);
                lemma_decode_opcode_inverts_opcode(t[b].0);
                assert(t[a].0 == t[b].0);
                assert(compile_index(t[a].0) == a);
                assert(compile_index(t[b].0) == b);
            }
        }
    }
    ops.unique_seq_to_set();
    assert(translation_map().dom() =~= ops.to_set()) by {
        assert forall|op: u8| translation_map().dom().contains(op) implies ops.to_set().contains(op) by {
            assert(translation_map().contains_key(op));
            let k = choose|k: int| 0 <= k < t.len() && t[k] == (translation_map()[op], op);
            assert(ops[k] == op);
        }
        assert forall|op: u8| ops.to_set().contains(op) implies translation_map().dom().contains(op) by {
            let k = choose|k: int| 0 <= k < ops.len() && ops[k] == op;
            assert(translation_map().contains_key(t[k].1));
        }
    }
}

/// Every entry of the mnemonic table pairs an instruction with its
/// mnemonic.
pub proof fn lemma_decode_table_is_mnemonic_table()
    ensures
        forall|k: int|
            0 <= k < decode_pairs().len() ==> spec_mnemonic(#[trigger] decode_pairs()[k].1) == Some(
                decode_pairs()[k].0,
            ),
{
    reveal_strlit("add");
    reveal_strlit("addi");
    reveal_strlit("sub");
    reveal_strlit("subi");
    reveal_strlit("mul");
    reveal_strlit("muli");
    reveal_strlit("and");
    reveal_strlit("andi");
    reveal_strlit("or");
    reveal_strlit("ori");
    reveal_strlit("xor");
    reveal_strlit("xori");
    reveal_strlit("cmp");
    reveal_strlit("cmpi");
    reveal_strlit("mov");
    reveal_strlit("movi");
    reveal_strlit("mova");
    reveal_strlit("movr");
    reveal_strlit("ldi");
    reveal_strlit("ldr");
    reveal_strlit("sfgr");
    reveal_strlit("sfgi");
    reveal_strlit("swp");
    reveal_strlit("pusha");
    reveal_strlit("push");
    reveal_strlit("pop");
    reveal_strlit("nop");
    reveal_strlit("hlt");
    reveal_strlit("jmpl");
    reveal_strlit("jmpi");
    reveal_strlit("jmp");
    reveal_strlit("jeq");
    reveal_strlit("jeqi");
    reveal_strlit("int");
    reveal_strlit("intr");
    assert forall|k: int| 0 <= k < decode_pairs().len() implies spec_mnemonic(
        #[trigger] decode_pairs()[k].1,
    ) == Some(decode_pairs()[k].0) by {
        let t = decode_pairs();
        assert(t[k].0 =~= spec_mnemonic(t[k].1)->0);
    }
}

/// Whether `dt` is the mnemonic table: the pairs of `decode_pairs`, in order.
pub open spec fn is_decode_table(dt: Seq<(&'static str, Instruction)>) -> bool {
    &&& dt.len() == decode_pairs().len()
    &&& forall|k: int| 0 <= k < dt.len() ==> (#[trigger] dt[k]).0@ == decode_pairs()[k].0
        && dt[k].1 == decode_pairs()[k].1
}

/// Every instruction that has a mnemonic is listed in the mnemonic table.
proof fn lemma_decode_table_lists_every_mnemonic()
    ensures
        forall|i: Instruction|
            (#[trigger] spec_mnemonic(i)) is Some ==> exists|k: int|
                0 <= k < decode_pairs().len() && decode_pairs()[k].1 == i,
{
    assert forall|i: Instruction| (#[trigger] spec_mnemonic(i)) is Some implies exists|k: int|
        0 <= k < decode_pairs().len() && decode_pairs()[k].1 == i by {
        let t = decode_pairs();
        match i {
            Instruction::AddReg => assert(t[0].1 == i),
            Instruction::AddImm => assert(t[1].1 == i),
            Instruction::SubReg => assert(t[2].1 == i),
            Instruction::SubImm => assert(t[3].1 == i),
            Instruction::MulReg => assert(t[4].1 == i),
            Instruction::MulImm => assert(t[5].1 == i),
            Instruction::AndReg => assert(t[6].1 == i),
            Instruction::AndImm => assert(t[7].1 == i),
            Instruction::OrReg => assert(t[8].1 == i),
            Instruction::OrImm => assert(t[9].1 == i),
            Instruction::XorReg => assert(t[10].1 == i),
            Instruction::XorImm => assert(t[11].1 == i),
            Instruction::CmpReg => assert(t[12].1 == i),
            Instruction::CmpImm => assert(t[13].1 == i),
            Instruction::MovDregSreg => assert(t[14].1 == i),
            Instruction::MovDregSimm => assert(t[15].1 == i),
            Instruction::MovDregSaddr => assert(t[16].1 == i),
            Instruction::MovDaddrSreg => assert(t[17].1 == i),
            Instruction::Ld => assert(t[18].1 == i),
            Instruction::Swp => assert(t[19].1 == i),
            Instruction::PushAddr => assert(t[20].1 == i),
            Instruction::PushReg => assert(t[21].1 == i),
            Instruction::Pop => assert(t[22].1 == i),
            Instruction::Nop => assert(t[23].1 == i),
            Instruction::Hlt => assert(t[24].1 == i),
            Instruction::JmpReg => assert(t[25].1 == i),
            Instruction::JmpImm => assert(t[26].1 == i),
            Instruction::JmpAddr => assert(t[27].1 == i),
            Instruction::JeqReg => assert(t[28].1 == i),
            Instruction::JeqImm => assert(t[29].1 == i),
            Instruction::IntImm => assert(t[30].1 == i),
            Instruction::IntReg => assert(t[31].1 == i),
            Instruction::LdReg => assert(t[32].1 == i),
            Instruction::SfgReg => assert(t[33].1 == i),
            Instruction::SfgImm => assert(t[34].1 == i),
        }
    }
}

/// Every mnemonic is plain ASCII.
proof fn lemma_mnemonics_ascii(i: Instruction)
    ensures
        spec_mnemonic(i) matches Some(m) ==> is_ascii_chars(m),
{
}

/// The bytes of an ASCII word are the ones that spell it.
proof fn lemma_ascii_bytes_spell(n: Seq<u8>, w: Seq<char>)
    requires
        is_ascii_chars(w),
    ensures
        (n == encode_utf8(w)) == spells(n, w),
{
    is_ascii_chars_encode_utf8(w);
    if spells(n, w) {
        assert(n =~= encode_utf8(w)) by {
            assert forall|k: int| 0 <= k < n.len() implies n[k] == encode_utf8(w)[k] by {
                assert('\0' <= w[k] <= '\u{7f}');
            }
        }
    }
    if n == encode_utf8(w) {
        assert forall|k: int| 0 <= k < n.len() implies n[k] as int == w[k] as int by {
            assert('\0' <= w[k] <= '\u{7f}');
            assert(w[k] as u8 == n[k]);
        }
    }
}

/// The opcode the compile table pairs with `i`.
fn opcode_in(ct: &Vec<(Instruction, u8)>, i: Instruction) -> (r: Option<u8>)
    requires
        ct@ == compile_pairs(),
    ensures
        r == spec_opcode(i),
{
    proof {
        lemma_compile_table_is_opcode_table();
    }
    let mut k: usize = 0;
    while k < ct.len()
        invariant
            ct@ == compile_pairs(),
            0 <= k <= ct@.len(),
            forall|j: int| 0 <= j < k ==> ct@[j].0 != i,
        decreases ct@.len() - k,
    {
        if ct[k].0 == i {
            proof {
                lemma_compile_table_is_opcode_table();
            }
            return Some(ct[k].1);
        }
        k = k + 1;
    }
    None
}

/// The instruction the mnemonic table pairs with the mnemonic `name`.
pub(crate) fn instruction_in(dt: &Vec<(&'static str, Instruction)>, name: &[u8]) -> (r: Option<Instruction>)
    requires
        is_decode_table(dt@),
    ensures
        r == spec_named(name@),
{
    proof {
        lemma_decode_table_is_mnemonic_table();
        lemma_decode_table_lists_every_mnemonic();
    }
    let mut k: usize = 0;
    while k < dt.len()
        invariant
            is_decode_table(dt@),
            0 <= k <= dt@.len(),
            forall|j: int| 0 <= j < k ==> !spells(name@, #[trigger] decode_pairs()[j].0),
        decreases dt@.len() - k,
    {
        let entry = dt[k];
        let word = entry.0.as_bytes();
        let ghost m = decode_pairs()[k as int].0;
        proof {
            lemma_decode_table_is_mnemonic_table();
            assert(dt@[k as int] == entry);
            assert(spec_mnemonic(decode_pairs()[k as int].1) == Some(m));
            lemma_mnemonics_ascii(decode_pairs()[k as int].1);
            lemma_ascii_bytes_spell(name@, m);
        }
        if bytes_eq(word, name) {
            proof {
                lemma_named_inverts_mnemonic(entry.1, name@);
            }
            return Some(entry.1);
        }
        k = k + 1;
    }
    proof {
        lemma_mnemonic_inverts_named(name@);
        if spec_named(name@) is Some {
            let i = spec_named(name@)->0;
            let j = choose|j: int| 0 <= j < decode_pairs().len() && decode_pairs()[j].1 == i;
            assert(spec_mnemonic(decode_pairs()[j].1) == Some(decode_pairs()[j].0));
            assert(!spells(name@, decode_pairs()[j].0));
        }
    }
    None
}

/// Why a number could not be read.
#[derive(Clone, Copy, Debug, PartialEq, Eq, Structural)]
pub enum IntErrorKind {
    /// There was no text to read.
    Empty,
    /// A character is not a digit of the base.
    InvalidDigit,
    /// The number does not fit in 32 bits.
    PosOverflow,
}

/// The value of a hexadecimal digit.
pub open spec fn hex_digit_value(b: u8) -> Option<u32> {
    if 48 <= b && b <= 57 {
        Some((b - 48) as u32)
    } else if 97 <= b && b <= 102 {
        Some((b - 87) as u32)
    } else if 65 <= b && b <= 70 {
        Some((b - 55) as u32)
    } else {
        None
    }
}

/// Reading a run of hexadecimal digits left to right: the first character
/// that is no digit, or the first digit that makes the value exceed 32 bits,
/// decides the error.
pub open spec fn parse_digits(d: Seq<u8>) -> Result<u32, IntErrorKind>
    decreases d.len(),
{
    if d.len() == 0 {
        Ok(0)
    } else {
        match parse_digits(d.drop_last()) {
            Err(k) => Err(k),
            Ok(acc) => match hex_digit_value(d.last()) {
                None => Err(IntErrorKind::InvalidDigit),
                Some(x) => if acc * 16 + x > u32::MAX {
                    Err(IntErrorKind::PosOverflow)
                } else {
                    Ok((acc * 16 + x) as u32)
                },
            },
        }
    }
}

/// Reading an unsigned 32-bit number in base 16, as `u32::from_str_radix`
/// does: an optional leading `+`, then at least one digit.
pub open spec fn parse_hex(s: Seq<u8>) -> Result<u32, IntErrorKind> {
    if s.len() == 0 {
        Err(IntErrorKind::Empty)
    } else if (s[0] == 43 || s[0] == 45) && s.len() == 1 {
        Err(IntErrorKind::InvalidDigit)
    } else if s[0] == 43 {
        parse_digits(s.drop_first())
    } else {
        parse_digits(s)
    }
}

/// Once a prefix of the digits fails to read, the whole run fails the same way.
proof fn lemma_parse_digits_error_sticks(d: Seq<u8>, n: int)
    requires
        0 <= n <= d.len(),
        parse_digits(d.take(n)) is Err,
    ensures
        parse_digits(d) == parse_digits(d.take(n)),
    decreases d.len() - n,
{
    if n < d.len() {
        assert(d.take(n + 1).drop_last() =~= d.take(n));
        lemma_parse_digits_error_sticks(d, n + 1);
    } else {
        assert(d.take(n) =~= d);
    }
}

/// Reads an unsigned 32-bit number in base 16.
pub fn parse_hex_u32(s: &[u8]) -> (r: Result<u32, IntErrorKind>)
    ensures
        r == parse_hex(s@),
{
    if s.len() == 0 {
        return Err(IntErrorKind::Empty);
    }
    if (s[0] == 43 || s[0] == 45) && s.len() == 1 {
        return Err(IntErrorKind::InvalidDigit);
    }
    let start: usize = if s[0] == 43 {
        1
    } else {
        0
    };
    let ghost d = s@.subrange(start as int, s.len() as int);
    assert(start == 1 ==> d =~= s@.drop_first());
    assert(start == 0 ==> d =~= s@);
    let mut acc: u32 = 0;
    let mut i: usize = start;
    assert(d.take(0) =~= Seq::<u8>::empty());
    while i < s.len()
        invariant
            start <= i <= s.len(),
            d == s@.subrange(start as int, s.len() as int),
            parse_hex(s@) == parse_digits(d),
            parse_digits(d.take(i - start)) == Ok::<u32, IntErrorKind>(acc),
        decreases s.len() - i,
    {
        let b = s[i];
        assert(d.take(i - start + 1).drop_last() =~= d.take(i - start));
        assert(d.take(i - start + 1).last() == b);
        let x: u32 = if 48 <= b && b <= 57 {
            (b - 48) as u32
        } else if 97 <= b && b <= 102 {
            (b - 87) as u32
        } else if 65 <= b && b <= 70 {
            (b - 55) as u32
        } else {
            assert(parse_digits(d.take(i - start + 1)) == Err::<u32, IntErrorKind>(
                IntErrorKind::InvalidDigit,
            ));
            proof {
                lemma_parse_digits_error_sticks(d, i - start + 1);
            }
            return Err(IntErrorKind::InvalidDigit);
        };
        assert(hex_digit_value(b) == Some(x));
        if acc > 0x0fff_ffff || acc * 16 > u32::MAX - x {
            assert(parse_digits(d.take(i - start + 1)) == Err::<u32, IntErrorKind>(
                IntErrorKind::PosOverflow,
            ));
            proof {
                lemma_parse_digits_error_sticks(d, i - start + 1);
            }
            return Err(IntErrorKind::PosOverflow);
        }
        acc = acc * 16 + x;
        i = i + 1;
    }
    assert(d.take(s.len() - start) =~= d);
    Ok(acc)
}

/// What went wrong while assembling a line.
#[derive(Debug)]
pub enum AsmError {
    /// The first word of the line is no mnemonic (nor `bytes`).
    UnknownInstruction(Vec<u8>),
    /// An operand that should name a register does not.
    InvalidRegister(Vec<u8>),
    /// An operand, after its first two characters, is not a hexadecimal
    /// number; the text read is kept.
    BadNumber(Vec<u8>, IntErrorKind),
    /// An address operand is not a hexadecimal number.
    BadAddress(IntErrorKind),
    /// The line lacks an operand, or an operand is too short to cut where the
    /// assembler cuts it; the assembler cannot go on and stops at once.
    Malformed,
    /// An instruction came before any section was declared.
    NoSection,
    /// The line names an instruction that has no opcode, so no word can be
    /// written for it.
    NoOpcode(Instruction),
    /// The source declares no `.text` section, which every source must have.
    NoTextSection,
}

/// An assembly error with its texts as byte sequences.
pub enum AsmFault {
    UnknownInstruction(Seq<u8>),
    InvalidRegister(Seq<u8>),
    BadNumber(Seq<u8>, IntErrorKind),
    BadAddress(IntErrorKind),
    Malformed,
    NoSection,
    NoOpcode(Instruction),
    NoTextSection,
}

impl View for AsmError {
    type V = AsmFault;

    open spec fn view(&self) -> AsmFault {
        match self {
            AsmError::UnknownInstruction(t) => AsmFault::UnknownInstruction(t@),
            AsmError::InvalidRegister(t) => AsmFault::InvalidRegister(t@),
            AsmError::BadNumber(t, k) => AsmFault::BadNumber(t@, *k),
            AsmError::BadAddress(k) => AsmFault::BadAddress(*k),
            AsmError::Malformed => AsmFault::Malformed,
            AsmError::NoSection => AsmFault::NoSection,
            AsmError::NoOpcode(i) => AsmFault::NoOpcode(*i),
            AsmError::NoTextSection => AsmFault::NoTextSection,
        }
    }
}

/// Reading a register operand: `r0` to `r3` in its first two characters
/// (anything may follow); fewer than two characters cannot be read.
pub open spec fn spec_reg_to_byte(s: Seq<u8>) -> Result<u32, AsmFault> {
    if s.len() < 2 || !boundary(s, 2) {
        Err(AsmFault::Malformed)
    } else if s[0] == 114 && 48 <= s[1] && s[1] <= 51 {
        Ok((s[1] - 48) as u32)
    } else {
        Err(AsmFault::InvalidRegister(s))
    }
}

/// Reads a register operand.
pub fn reg_to_byte(register: &[u8]) -> (r: Result<u8, AsmError>)
    ensures
        match r {
            Ok(v) => spec_reg_to_byte(register@) == Ok::<u32, AsmFault>(v as u32),
            Err(e) => spec_reg_to_byte(register@) == Err::<u32, AsmFault>(e@),
        },
{
    if register.len() < 2 || !is_boundary(register, 2) {
        return Err(AsmError::Malformed);
    }
    if register[0] == 114 {
        match register[1] {
            48 => return Ok(0),
            49 => return Ok(1),
            50 => return Ok(2),
            51 => return Ok(3),
            _ => {},
        }
    }
    let text = slice_of(register, 0, register.len());
    assert(text@ =~= register@);
    Err(AsmError::InvalidRegister(text))
}


/// The labels of a program, each with the address it stands for.
pub struct LabelTable {
    names: Vec<Vec<u8>>,
    values: Vec<u32>,
    map: Ghost<Map<Seq<u8>, u32>>,
}

impl LabelTable {
    /// Each label's name mapped to its address.
    pub closed spec fn view(&self) -> Map<Seq<u8>, u32> {
        self.map@
    }

    /// The names are distinct and the ghost map lists exactly them.
    pub closed spec fn wf(&self) -> bool {
        &&& self.names@.len() == self.values@.len()
        &&& forall|i: int|
            0 <= i < self.names@.len() ==> self.map@.contains_key(#[trigger] self.names@[i]@)
                && self.map@[self.names@[i]@] == self.values@[i]
        &&& forall|k: Seq<u8>| #[trigger]
            self.map@.contains_key(k) ==> exists|i: int|
                0 <= i < self.names@.len() && self.names@[i]@ == k
        &&& forall|i: int, j: int|
            0 <= i < j < self.names@.len() ==> self.names@[i]@ != self.names@[j]@
    }

    /// A table with no labels.
    pub fn new() -> (t: Self)
        ensures
            t.wf(),
            t@ == Map::<Seq<u8>, u32>::empty(),
    {
        LabelTable { names: Vec::new(), values: Vec::new(), map: Ghost(Map::empty()) }
    }

    /// The index of the label called `name`, if there is one.
    fn position(&self, name: &[u8]) -> (r: Option<usize>)
        requires
            self.wf(),
        ensures
            r matches Some(i) ==> i < self.names@.len() && self.names@[i as int]@ == name@,
            r is None ==> !self@.contains_key(name@),
    {
        let mut i: usize = 0;
        while i < self.names.len()
            invariant
                self.wf(),
                0 <= i <= self.names@.len(),
                forall|j: int| 0 <= j < i ==> self.names@[j]@ != name@,
            decreases self.names@.len() - i,
        {
            if bytes_eq(self.names[i].as_slice(), name) {
                return Some(i);
            }
            i = i + 1;
        }
        None
    }

    /// The address of the label called `name`.
    pub fn get(&self, name: &[u8]) -> (r: Option<u32>)
        requires
            self.wf(),
        ensures
            r == (if self@.contains_key(name@) {
                Some(self@[name@])
            } else {
                None::<u32>
            }),
    {
        match self.position(name) {
            Some(i) => Some(self.values[i]),
            None => None,
        }
    }

    /// Records that the label called `name` stands for `value`, replacing
    /// what it stood for before.
    pub fn insert(&mut self, name: Vec<u8>, value: u32)
        requires
            old(self).wf(),
        ensures
            final(self).wf(),
            final(self)@ == old(self)@.insert(name@, value),
    {
        let ghost key = name@;
        match self.position(name.as_slice()) {
            Some(i) => {
                self.values.set(i, value);
                self.map = Ghost(self.map@.insert(key, value));
                assert forall|k: Seq<u8>| #[trigger] self.map@.contains_key(k) implies exists|j: int|
                    0 <= j < self.names@.len() && self.names@[j]@ == k by {
                    if k == key {
                        assert(self.names@[i as int]@ == k);
                    } else {
                        assert(old(self).map@.contains_key(k));
                        let j = choose|j: int|
                            0 <= j < old(self).names@.len() && old(self).names@[j]@ == k;
                        assert(self.names@[j]@ == k);
                    }
                }
            },
            None => {
                self.names.push(name);
                self.values.push(value);
                self.map = Ghost(self.map@.insert(key, value));
                let ghost n = self.names@.len() - 1;
                assert(self.names@[n]@ == key);
                assert forall|k: Seq<u8>| #[trigger] self.map@.contains_key(k) implies exists|j: int|
                    0 <= j < self.names@.len() && self.names@[j]@ == k by {
                    if k != key {
                        assert(old(self).map@.contains_key(k));
                        let j = choose|j: int|
                            0 <= j < old(self).names@.len() && old(self).names@[j]@ == k;
                        assert(self.names@[j] == old(self).names@[j]);
                    }
                }
                assert forall|i: int, j: int|
                    0 <= i < j < self.names@.len() implies self.names@[i]@ != self.names@[j]@ by {
                    if j == n {
                        assert(old(self).map@.contains_key(old(self).names@[i]@));
                    }
                }
            },
        }
    }
}


/// The first index from `j` on where `t` holds a double quote (34) or a line
/// break (10), if there is one.
pub open spec fn quote_or_newline(t: Seq<u8>, j: int) -> Option<int>
    decreases t.len() - j,
{
    if j < 0 || j >= t.len() {
        None
    } else if t[j] == 34 || t[j] == 10 {
        Some(j)
    } else {
        quote_or_newline(t, j + 1)
    }
}

/// What `quote_or_newline` finds lies at or after `j`, inside `t`.
pub proof fn lemma_quote_or_newline_bound(t: Seq<u8>, j: int)
    ensures
        quote_or_newline(t, j) matches Some(k) ==> j <= k < t.len(),
    decreases t.len() - j,
{
    if 0 <= j < t.len() && !(t[j] == 34 || t[j] == 10) {
        lemma_quote_or_newline_bound(t, j + 1);
    }
}

/// The contents of the double-quoted strings of `t` from index `i` on, as
/// the regular expression `"(.*?)"` captures them when any byte but a line
/// break may stand for `.`: matches are found leftmost first and do not
/// overlap; one starts at a quote and, the `*?` being lazy, ends at the next
/// quote, provided no line break comes first; otherwise the search goes on
/// from the byte after the opening quote.
pub open spec fn quoted_from(t: Seq<u8>, i: int) -> Seq<Seq<u8>>
    decreases t.len() - i,
{
    if i < 0 || i >= t.len() {
        seq![]
    } else if t[i] == 34 {
        proof {
            lemma_quote_or_newline_bound(t, i + 1);
        }
        match quote_or_newline(t, i + 1) {
            Some(j) => if t[j] == 34 {
                seq![t.subrange(i + 1, j)] + quoted_from(t, j + 1)
            } else {
                quoted_from(t, i + 1)
            },
            None => quoted_from(t, i + 1),
        }
    } else {
        quoted_from(t, i + 1)
    }
}

/// The contents of the double-quoted strings of `text`, in order.
pub open spec fn quoted_strings(text: Seq<u8>) -> Seq<Seq<u8>> {
    quoted_from(text, 0)
}

/// Whether `b` is a hexadecimal digit.
pub open spec fn is_hex_digit(b: u8) -> bool {
    (48 <= b && b <= 57) || (65 <= b && b <= 70) || (97 <= b && b <= 102)
}

/// The end of the run of hexadecimal digits of `t` that starts at `j`.
pub open spec fn hex_run_end(t: Seq<u8>, j: int) -> int
    decreases t.len() - j,
{
    if j < 0 || j >= t.len() || !is_hex_digit(t[j]) {
        j
    } else {
        hex_run_end(t, j + 1)
    }
}

/// A run of digits ends at or after its start, and inside the text.
pub proof fn lemma_hex_run_end_bound(t: Seq<u8>, j: int)
    ensures
        hex_run_end(t, j) >= j,
        j <= t.len() ==> hex_run_end(t, j) <= t.len(),
        0 <= j && hex_run_end(t, j) > j ==> is_hex_digit(t[hex_run_end(t, j) - 1]),
    decreases t.len() - j,
{
    if 0 <= j < t.len() && is_hex_digit(t[j]) {
        lemma_hex_run_end_bound(t, j + 1);
    }
}

/// The matches in `t` from index `i` on of the regular expression
/// `0[xX][0-9a-fA-F]+`: found leftmost first and without overlap, each a `0`,
/// an `x` or `X`, and the longest run of hexadecimal digits after them.
pub open spec fn hex_from(t: Seq<u8>, i: int) -> Seq<Seq<u8>>
    decreases t.len() - i,
{
    if i < 0 || i + 2 >= t.len() {
        seq![]
    } else if t[i] == 48 && (t[i + 1] == 120 || t[i + 1] == 88) && is_hex_digit(t[i + 2]) {
        proof {
            lemma_hex_run_end_bound(t, i + 3);
        }
        seq![t.subrange(i, hex_run_end(t, i + 3))] + hex_from(t, hex_run_end(t, i + 3))
    } else {
        hex_from(t, i + 1)
    }
}

/// The hexadecimal literals of `text`, in order.
pub open spec fn hex_literals(text: Seq<u8>) -> Seq<Seq<u8>> {
    hex_from(text, 0)
}

/// Calls `regex::bytes::Regex::captures_iter` with the pattern `"(.*?)"`,
/// Unicode mode off so that `.` stands for any byte but a line break (on
/// UTF-8 text, which every source line is, this finds what the pattern
/// finds on the text as characters), and keeps capture group 1 of each
/// match. The contract claims the result is `quoted_strings(text)`, as the
/// regex crate documents its leftmost-first, non-overlapping search.
#[verifier::external_body]
pub(crate) fn find_quoted_strings(text: &[u8]) -> (r: Vec<Vec<u8>>)
    ensures
        views(r@) == quoted_strings(text@),
{
    let pattern = regex::bytes::Regex::new("(?-u)\"(.*?)\"").expect("valid pattern");
    pattern.captures_iter(text).map(|c| c[1].to_vec()).collect()
}

/// Calls `regex::bytes::Regex::find_iter` with the pattern
/// `0[xX][0-9a-fA-F]+` (Unicode mode off; the pattern is ASCII) on `text`
/// and keeps the text of each match. The contract claims the result is
/// `hex_literals(text)`, as the regex crate documents its leftmost-first,
/// non-overlapping search and greedy repetition.
#[verifier::external_body]
pub(crate) fn find_hex_literals(text: &[u8]) -> (r: Vec<Vec<u8>>)
    ensures
        views(r@) == hex_literals(text@),
{
    let pattern = regex::bytes::Regex::new("(?-u)0[xX][0-9a-fA-F]+").expect("valid pattern");
    pattern.find_iter(text).map(|m| m.as_bytes().to_vec()).collect()
}

/// A data item with its first and last character cut off; an item of
/// fewer than two bytes, or one that cannot be cut there, stops the
/// assembler.
pub open spec fn trimmed(q: Seq<u8>) -> Result<Seq<u8>, AsmFault> {
    if q.len() >= 2 && boundary(q, 1) && boundary(q, q.len() - 1) {
        Ok(q.subrange(1, q.len() - 1))
    } else {
        Err(AsmFault::Malformed)
    }
}

/// The byte at `k`, or zero past the end.
pub open spec fn byte_or_zero(b: Seq<u8>, k: int) -> int {
    if k < b.len() {
        b[k] as int
    } else {
        0
    }
}

/// The first four bytes of `b` as a big-endian word, padded with zeroes.
pub open spec fn be_word(b: Seq<u8>) -> u32 {
    (byte_or_zero(b, 0) * 0x100_0000 + byte_or_zero(b, 1) * 0x1_0000 + byte_or_zero(b, 2) * 0x100
        + byte_or_zero(b, 3)) as u32
}

/// Bytes packed four to a word, big-endian, the last word padded with zeroes.
pub open spec fn pack_words(b: Seq<u8>) -> Seq<u32>
    decreases b.len(),
{
    if b.len() == 0 {
        seq![]
    } else if b.len() <= 4 {
        seq![be_word(b)]
    } else {
        seq![be_word(b)] + pack_words(b.subrange(4, b.len() as int))
    }
}

/// The words of the quoted strings of a `bytes` line.
pub open spec fn string_words(qs: Seq<Seq<u8>>) -> Result<Seq<u32>, AsmFault>
    decreases qs.len(),
{
    if qs.len() == 0 {
        Ok(seq![])
    } else {
        match string_words(qs.drop_last()) {
            Err(e) => Err(e),
            Ok(w) => match trimmed(qs.last()) {
                Err(e) => Err(e),
                Ok(raw) => Ok(w + pack_words(raw)),
            },
        }
    }
}

/// The word of a hexadecimal literal of a `bytes` line: its characters but
/// the first and last read as a number, or zero where they are none.
pub open spec fn hex_literal_word(t: Seq<u8>) -> u32 {
    match parse_hex(t) {
        Ok(v) => v,
        Err(_) => 0,
    }
}

/// The words of the hexadecimal literals of a `bytes` line.
pub open spec fn literal_words(hs: Seq<Seq<u8>>) -> Result<Seq<u32>, AsmFault>
    decreases hs.len(),
{
    if hs.len() == 0 {
        Ok(seq![])
    } else {
        match literal_words(hs.drop_last()) {
            Err(e) => Err(e),
            Ok(w) => match trimmed(hs.last()) {
                Err(e) => Err(e),
                Ok(t) => Ok(w.push(hex_literal_word(t))),
            },
        }
    }
}

/// The words of a `bytes` line whose strings and literals were found: first
/// those of the strings, then one for each literal.
pub open spec fn spec_encode_data(qs: Seq<Seq<u8>>, hs: Seq<Seq<u8>>) -> Result<Seq<u32>, AsmFault> {
    match string_words(qs) {
        Err(e) => Err(e),
        Ok(a) => match literal_words(hs) {
            Err(e) => Err(e),
            Ok(b) => Ok(a + b),
        },
    }
}

/// A result of the assembler with its texts as byte sequences.
pub open spec fn outcome<T: View>(r: Result<T, AsmError>) -> Result<T::V, AsmFault> {
    match r {
        Ok(v) => Ok(v@),
        Err(e) => Err(e@),
    }
}

/// Packs bytes four to a word onto the end of `out`.
fn push_packed(out: &mut Vec<u32>, raw: &[u8])
    ensures
        final(out)@ == old(out)@ + pack_words(raw@),
{
    let len = raw.len();
    let mut idx: usize = 0;
    assert(raw@.subrange(0, len as int) =~= raw@);
    while idx < len
        invariant
            len == raw@.len(),
            idx <= len,
            out@ + pack_words(raw@.subrange(idx as int, len as int)) == old(out)@ + pack_words(raw@),
        decreases len - idx,
    {
        let ghost rest = raw@.subrange(idx as int, len as int);
        let mut tmp: [u8; 4] = [0, 0, 0, 0];
        let mut i: usize = 0;
        while i < 4
            invariant
                idx < len == raw@.len(),
                0 <= i <= 4,
                rest == raw@.subrange(idx as int, len as int),
                forall|k: int| 0 <= k < i ==> tmp[k] as int == byte_or_zero(rest, k),
                forall|k: int| i <= k < 4 ==> tmp[k] == 0,
            decreases 4 - i,
        {
            if i < len - idx {
                tmp[i] = raw[idx + i];
            }
            i = i + 1;
        }
        let b0 = tmp[0] as u32;
        let b1 = tmp[1] as u32;
        let b2 = tmp[2] as u32;
        let b3 = tmp[3] as u32;
        assert((b0 << 24) == b0 * 0x100_0000 && (b1 << 16) == b1 * 0x1_0000 && (b2 << 8) == b2
            * 0x100) by (bit_vector)
            requires
                b0 < 256 && b1 < 256 && b2 < 256,
        ;
        out.push((b0 << 24) + (b1 << 16) + (b2 << 8) + b3);
        if len - idx <= 4 {
            assert(pack_words(raw@.subrange(len as int, len as int)) =~= Seq::<u32>::empty());
            idx = len;
        } else {
            assert(rest.subrange(4, rest.len() as int) =~= raw@.subrange(idx + 4, len as int));
            idx = idx + 4;
        }
    }
    assert(pack_words(raw@.subrange(len as int, len as int)) =~= Seq::<u32>::empty());
}

/// Cuts the first and last character off a data item.
fn trim_item(q: &[u8]) -> (r: Result<Vec<u8>, AsmError>)
    ensures
        outcome(r) == trimmed(q@),
{
    if q.len() >= 2 && is_boundary(q, 1) && is_boundary(q, q.len() - 1) {
        Ok(slice_of(q, 1, q.len() - 1))
    } else {
        Err(AsmError::Malformed)
    }
}

/// Assembles the data of a `bytes` line from the strings and literals found
/// in it: the strings' bytes (each with its first and last character cut
/// off) packed four to a big-endian word, then one word per literal.
pub fn encode_data(strings: &Vec<Vec<u8>>, literals: &Vec<Vec<u8>>) -> (r: Result<Vec<u32>, AsmError>)
    ensures
        outcome(r) == spec_encode_data(views(strings@), views(literals@)),
{
    let mut ret: Vec<u32> = Vec::new();
    let mut k: usize = 0;
    assert(views(strings@).take(0) =~= Seq::<Seq<u8>>::empty());
    while k < strings.len()
        invariant
            0 <= k <= strings@.len(),
            string_words(views(strings@).take(k as int)) == Ok::<Seq<u32>, AsmFault>(ret@),
        decreases strings@.len() - k,
    {
        assert(views(strings@).take(k + 1).drop_last() =~= views(strings@).take(k as int));
        let raw = match trim_item(strings[k].as_slice()) {
            Ok(raw) => raw,
            Err(e) => {
                proof {
                    lemma_string_words_error_sticks(views(strings@), k + 1);
                }
                return Err(e);
            },
        };
        push_packed(&mut ret, raw.as_slice());
        k = k + 1;
    }
    assert(views(strings@).take(strings@.len() as int) =~= views(strings@));
    let mut j: usize = 0;
    let ghost a = ret@;
    assert(views(literals@).take(0) =~= Seq::<Seq<u8>>::empty());
    assert(ret@.subrange(a.len() as int, ret@.len() as int) =~= Seq::<u32>::empty());
    assert(ret@.subrange(0, a.len() as int) =~= a);
    while j < literals.len()
        invariant
            0 <= j <= literals@.len(),
            string_words(views(strings@)) == Ok::<Seq<u32>, AsmFault>(a),
            ret@.len() >= a.len(),
            ret@.subrange(0, a.len() as int) == a,
            literal_words(views(literals@).take(j as int)) == Ok::<Seq<u32>, AsmFault>(
                ret@.subrange(a.len() as int, ret@.len() as int),
            ),
        decreases literals@.len() - j,
    {
        assert(views(literals@).take(j + 1).drop_last() =~= views(literals@).take(j as int));
        assert(views(literals@).take(j + 1).last() == literals@[j as int]@);
        let ghost tail = ret@.subrange(a.len() as int, ret@.len() as int);
        let t = match trim_item(literals[j].as_slice()) {
            Ok(t) => t,
            Err(e) => {
                proof {
                    lemma_literal_words_error_sticks(views(literals@), j + 1);
                }
                return Err(e);
            },
        };
        let ret_byte = match parse_hex_u32(t.as_slice()) {
            Ok(a) => a,
            Err(_e) => 0,
        };
        assert(hex_literal_word(t@) == ret_byte);
        ret.push(ret_byte);
        assert(ret@.subrange(0, a.len() as int) =~= a);
        assert(ret@.subrange(a.len() as int, ret@.len() as int) =~= tail.push(ret_byte));
        j = j + 1;
    }
    assert(views(literals@).take(literals@.len() as int) =~= views(literals@));
    assert(ret@ =~= a + ret@.subrange(a.len() as int, ret@.len() as int));
    Ok(ret)
}

/// Once a string fails to be cut, the strings after it do not matter.
proof fn lemma_string_words_error_sticks(qs: Seq<Seq<u8>>, n: int)
    requires
        0 <= n <= qs.len(),
        string_words(qs.take(n)) is Err,
    ensures
        string_words(qs) == string_words(qs.take(n)),
    decreases qs.len() - n,
{
    if n < qs.len() {
        assert(qs.take(n + 1).drop_last() =~= qs.take(n));
        lemma_string_words_error_sticks(qs, n + 1);
    } else {
        assert(qs.take(n) =~= qs);
    }
}

/// Once a literal fails to be cut, the literals after it do not matter.
proof fn lemma_literal_words_error_sticks(hs: Seq<Seq<u8>>, n: int)
    requires
        0 <= n <= hs.len(),
        literal_words(hs.take(n)) is Err,
    ensures
        literal_words(hs) == literal_words(hs.take(n)),
    decreases hs.len() - n,
{
    if n < hs.len() {
        assert(hs.take(n + 1).drop_last() =~= hs.take(n));
        lemma_literal_words_error_sticks(hs, n + 1);
    } else {
        assert(hs.take(n) =~= hs);
    }
}


/// `a + b` on 32-bit words, wrapping around as release builds do.
pub open spec fn wadd(a: u32, b: u32) -> u32 {
    vstd::wrapping::u32_specs::wrapping_add(a, b)
}

/// The `k`-th space-separated component of a line; a line with fewer
/// components stops the assembler.
pub open spec fn arg(comps: Seq<Seq<u8>>, k: int) -> Result<Seq<u8>, AsmFault> {
    if k < comps.len() {
        Ok(comps[k])
    } else {
        Err(AsmFault::Malformed)
    }
}

/// A component without its first two characters (the `0x` of a number).
pub open spec fn after_prefix(s: Seq<u8>) -> Result<Seq<u8>, AsmFault> {
    if s.len() >= 2 && boundary(s, 2) {
        Ok(s.subrange(2, s.len() as int))
    } else {
        Err(AsmFault::Malformed)
    }
}

/// A numeric operand: the address of the label it names, or else the
/// hexadecimal number after its first two characters. A number that cannot
/// be read is reported with its text (`with_text`) or without.
pub open spec fn spec_number(s: Seq<u8>, labels: Map<Seq<u8>, u32>, with_text: bool) -> Result<
    u32,
    AsmFault,
> {
    if labels.contains_key(s) {
        Ok(labels[s])
    } else {
        match after_prefix(s) {
            Err(e) => Err(e),
            Ok(t) => match parse_hex(t) {
                Ok(v) => Ok(v),
                Err(k) => Err(
                    if with_text {
                        AsmFault::BadNumber(t, k)
                    } else {
                        AsmFault::BadAddress(k)
                    },
                ),
            },
        }
    }
}

/// The address operand of `movr`: the address of the label it names, or
/// else the hexadecimal number found from its third character up to two
/// characters before its end.
pub open spec fn spec_store_address(s: Seq<u8>, labels: Map<Seq<u8>, u32>) -> Result<u32, AsmFault> {
    if labels.contains_key(s) {
        Ok(labels[s])
    } else {
        match after_prefix(s) {
            Err(e) => Err(e),
            Ok(t) => if t.len() < 2 || !boundary(s, t.len() as int) {
                Err(AsmFault::Malformed)
            } else {
                match parse_hex(s.subrange(2, t.len() as int)) {
                    Ok(v) => Ok(v),
                    Err(k) => Err(AsmFault::BadNumber(t, k)),
                }
            },
        }
    }
}

/// The opcode of `i` in the top byte of a word.
pub open spec fn opcode_word(i: Instruction) -> u32 {
    match spec_opcode(i) {
        Some(o) => (o as u32) << 24,
        None => 0,
    }
}

/// Encoding an instruction with operands `dest, src`, both registers: the
/// destination register in the second byte (commas taken out of it), the
/// source register in the third.
pub open spec fn spec_reg_reg(i: Instruction, comps: Seq<Seq<u8>>) -> Result<u32, AsmFault> {
    match arg(comps, 1) {
        Err(e) => Err(e),
        Ok(c1) => match spec_reg_to_byte(without_byte(c1, 44)) {
            Err(e) => Err(e),
            Ok(d) => match arg(comps, 2) {
                Err(e) => Err(e),
                Ok(c2) => match spec_reg_to_byte(c2) {
                    Err(e) => Err(e),
                    Ok(s) => Ok(wadd(wadd(opcode_word(i), d << 16), s << 8)),
                },
            },
        },
    }
}

/// Encoding an instruction with operands `dest, value`: the register in the
/// second byte (commas taken out of it), the value added to the word; with
/// `ldi` an unreadable value is reported without its text.
pub open spec fn spec_reg_value(i: Instruction, comps: Seq<Seq<u8>>, labels: Map<Seq<u8>, u32>) -> Result<
    u32,
    AsmFault,
> {
    match arg(comps, 1) {
        Err(e) => Err(e),
        Ok(c1) => match spec_reg_to_byte(without_byte(c1, 44)) {
            Err(e) => Err(e),
            Ok(d) => match arg(comps, 2) {
                Err(e) => Err(e),
                Ok(c2) => match spec_number(c2, labels, i != Instruction::Ld) {
                    Err(e) => Err(e),
                    Ok(v) => Ok(wadd(wadd(opcode_word(i), d << 16), v)),
                },
            },
        },
    }
}

/// Encoding an instruction with one register operand, in the second byte.
pub open spec fn spec_one_reg(i: Instruction, comps: Seq<Seq<u8>>) -> Result<u32, AsmFault> {
    match arg(comps, 1) {
        Err(e) => Err(e),
        Ok(c1) => match spec_reg_to_byte(c1) {
            Err(e) => Err(e),
            Ok(d) => Ok(wadd(opcode_word(i), d << 16)),
        },
    }
}

/// Encoding `movr addr, src`: the address shifted into the second and third
/// bytes (and, truncated, above), the register added in the low byte.
pub open spec fn spec_store(i: Instruction, comps: Seq<Seq<u8>>, labels: Map<Seq<u8>, u32>) -> Result<
    u32,
    AsmFault,
> {
    match arg(comps, 1) {
        Err(e) => Err(e),
        Ok(c1) => match spec_store_address(c1, labels) {
            Err(e) => Err(e),
            Ok(a) => match arg(comps, 2) {
                Err(e) => Err(e),
                Ok(c2) => match spec_reg_to_byte(c2) {
                    Err(e) => Err(e),
                    Ok(s) => Ok(wadd(wadd(opcode_word(i), a << 8), s)),
                },
            },
        },
    }
}

/// Encoding `movi`/`mova dest, value`: the register in the second byte, the
/// low 16 bits of the value in the low half.
pub open spec fn spec_reg_half(i: Instruction, comps: Seq<Seq<u8>>, labels: Map<Seq<u8>, u32>) -> Result<
    u32,
    AsmFault,
> {
    match arg(comps, 1) {
        Err(e) => Err(e),
        Ok(c1) => match spec_reg_to_byte(c1) {
            Err(e) => Err(e),
            Ok(d) => match arg(comps, 2) {
                Err(e) => Err(e),
                Ok(c2) => match spec_number(c2, labels, true) {
                    Err(e) => Err(e),
                    Ok(v) => Ok(wadd(wadd(opcode_word(i), d << 16), v & 0xffff)),
                },
            },
        },
    }
}

/// Encoding an instruction with one address operand, added to the word.
pub open spec fn spec_address(i: Instruction, comps: Seq<Seq<u8>>, labels: Map<Seq<u8>, u32>) -> Result<
    u32,
    AsmFault,
> {
    match arg(comps, 1) {
        Err(e) => Err(e),
        Ok(c1) => match spec_number(c1, labels, false) {
            Err(e) => Err(e),
            Ok(v) => Ok(wadd(opcode_word(i), v)),
        },
    }
}

/// Encoding `jmpi`: a label's address, or else a register, shifted into the
/// second byte (and, truncated, above).
pub open spec fn spec_short_jump(i: Instruction, comps: Seq<Seq<u8>>, labels: Map<Seq<u8>, u32>) -> Result<
    u32,
    AsmFault,
> {
    match arg(comps, 1) {
        Err(e) => Err(e),
        Ok(c1) => if labels.contains_key(c1) {
            Ok(wadd(opcode_word(i), labels[c1] << 16))
        } else {
            match spec_reg_to_byte(c1) {
                Err(e) => Err(e),
                Ok(d) => Ok(wadd(opcode_word(i), d << 16)),
            }
        },
    }
}

/// Encoding `int code`: the hexadecimal code after its first two
/// characters, shifted into the second byte (and, truncated, above).
pub open spec fn spec_interrupt_code(i: Instruction, comps: Seq<Seq<u8>>) -> Result<u32, AsmFault> {
    match arg(comps, 1) {
        Err(e) => Err(e),
        Ok(c1) => match after_prefix(c1) {
            Err(e) => Err(e),
            Ok(t) => match parse_hex(t) {
                Err(k) => Err(AsmFault::BadAddress(k)),
                Ok(v) => Ok(wadd(opcode_word(i), v << 16)),
            },
        },
    }
}

/// The machine word of instruction `i` with the components of its line.
pub open spec fn spec_operands(i: Instruction, comps: Seq<Seq<u8>>, labels: Map<Seq<u8>, u32>) -> Result<
    u32,
    AsmFault,
> {
    if spec_opcode(i) is None {
        Err(AsmFault::NoOpcode(i))
    } else {
    match i {
        Instruction::AddReg | Instruction::SubReg | Instruction::MulReg | Instruction::AndReg
        | Instruction::OrReg | Instruction::XorReg | Instruction::CmpReg | Instruction::Swp
        | Instruction::MovDregSreg => spec_reg_reg(i, comps),
        Instruction::AddImm | Instruction::SubImm | Instruction::MulImm | Instruction::AndImm
        | Instruction::OrImm | Instruction::XorImm | Instruction::CmpImm | Instruction::Ld =>
            spec_reg_value(i, comps, labels),
        Instruction::PushReg | Instruction::Pop | Instruction::JmpReg | Instruction::IntReg
        | Instruction::JeqReg => spec_one_reg(i, comps),
        Instruction::MovDaddrSreg => spec_store(i, comps, labels),
        Instruction::MovDregSaddr | Instruction::MovDregSimm => spec_reg_half(i, comps, labels),
        Instruction::PushAddr | Instruction::JmpAddr | Instruction::JeqImm => spec_address(
            i,
            comps,
            labels,
        ),
        Instruction::JmpImm => spec_short_jump(i, comps, labels),
        Instruction::IntImm => spec_interrupt_code(i, comps),
        _ => Ok(opcode_word(i)),
    }
    }
}

/// The word `bytes`.
pub open spec fn bytes_keyword() -> Seq<char> {
    seq!['b', 'y', 't', 'e', 's']
}

/// Assembling one line: its first space-separated component is a mnemonic,
/// whose instruction becomes one machine word, or `bytes`, whose strings and
/// hexadecimal literals become data words.
pub open spec fn spec_encode(line: Seq<u8>, labels: Map<Seq<u8>, u32>) -> Result<Seq<u32>, AsmFault> {
    let comps = split_on(line, 32);
    let c0 = comps[0];
    match spec_named(c0) {
        None => if spells(c0, bytes_keyword()) {
            let rest = line.subrange(5, line.len() as int);
            spec_encode_data(quoted_strings(rest), hex_literals(rest))
        } else {
            Err(AsmFault::UnknownInstruction(c0))
        },
        Some(i) => match spec_operands(i, comps, labels) {
            Err(e) => Err(e),
            Ok(w) => Ok(seq![w]),
        },
    }
}


/// A numeric result of the assembler with its texts as byte sequences.
pub open spec fn word_outcome(r: Result<u32, AsmError>) -> Result<u32, AsmFault> {
    match r {
        Ok(v) => Ok(v),
        Err(e) => Err(e@),
    }
}

/// Reads a register operand as a word.
fn register(s: &[u8]) -> (r: Result<u32, AsmError>)
    ensures
        word_outcome(r) == spec_reg_to_byte(s@),
{
    match reg_to_byte(s) {
        Ok(a) => Ok(a as u32),
        Err(e) => Err(e),
    }
}

/// Cuts the first two characters off a component.
fn strip_prefix(s: &[u8]) -> (r: Result<Vec<u8>, AsmError>)
    ensures
        outcome(r) == after_prefix(s@),
{
    if s.len() >= 2 && is_boundary(s, 2) {
        Ok(slice_of(s, 2, s.len()))
    } else {
        Err(AsmError::Malformed)
    }
}

/// Reads a numeric operand: a label, or a hexadecimal number after two
/// characters.
fn number(s: &[u8], labels: &LabelTable, with_text: bool) -> (r: Result<u32, AsmError>)
    requires
        labels.wf(),
    ensures
        word_outcome(r) == spec_number(s@, labels@, with_text),
{
    match labels.get(s) {
        Some(a) => Ok(a),
        None => {
            let t = strip_prefix(s)?;
            match parse_hex_u32(t.as_slice()) {
                Ok(a) => Ok(a),
                Err(e) => if with_text {
                    Err(AsmError::BadNumber(t, e))
                } else {
                    Err(AsmError::BadAddress(e))
                },
            }
        },
    }
}

/// Reads the address operand of `movr`.
fn store_address(s: &[u8], labels: &LabelTable) -> (r: Result<u32, AsmError>)
    requires
        labels.wf(),
    ensures
        word_outcome(r) == spec_store_address(s@, labels@),
{
    match labels.get(s) {
        Some(a) => Ok(a),
        None => {
            let t = strip_prefix(s)?;
            let end = t.len();
            if end < 2 || !is_boundary(s, end) {
                return Err(AsmError::Malformed);
            }
            let digits = slice_of(s, 2, end);
            match parse_hex_u32(digits.as_slice()) {
                Ok(a) => Ok(a),
                Err(e) => Err(AsmError::BadNumber(t, e)),
            }
        },
    }
}

/// The `k`-th component of a line.
fn component(comps: &Vec<Vec<u8>>, k: usize) -> (r: Result<&[u8], AsmError>)
    ensures
        match r {
            Ok(c) => arg(views(comps@), k as int) == Ok::<Seq<u8>, AsmFault>(c@),
            Err(e) => arg(views(comps@), k as int) == Err::<Seq<u8>, AsmFault>(e@),
        },
{
    if k < comps.len() {
        Ok(comps[k].as_slice())
    } else {
        Err(AsmError::Malformed)
    }
}

/// Encodes the operands of instruction `i` into its machine word.
fn encode_operands(
    i: Instruction,
    comps: &Vec<Vec<u8>>,
    ct: &Vec<(Instruction, u8)>,
    labels: &LabelTable,
) -> (r: Result<u32, AsmError>)
    requires
        ct@ == compile_pairs(),
        labels.wf(),
    ensures
        word_outcome(r) == spec_operands(i, views(comps@), labels@),
{
    let hi: u32 = match opcode_in(ct, i) {
        Some(o) => (o as u32) << 24,
        None => return Err(AsmError::NoOpcode(i)),
    };
    match i {
        Instruction::AddReg | Instruction::SubReg | Instruction::MulReg | Instruction::AndReg
        | Instruction::OrReg | Instruction::XorReg | Instruction::CmpReg | Instruction::Swp
        | Instruction::MovDregSreg => {
            let dest = remove_byte(component(comps, 1)?, 44);
            let dest_byte = register(dest.as_slice())?;
            let src_byte = register(component(comps, 2)?)?;
            Ok(hi.wrapping_add(dest_byte << 16).wrapping_add(src_byte << 8))
        },
        Instruction::AddImm | Instruction::SubImm | Instruction::MulImm | Instruction::AndImm
        | Instruction::OrImm | Instruction::XorImm | Instruction::CmpImm | Instruction::Ld => {
            let dest = remove_byte(component(comps, 1)?, 44);
            let dest_byte = register(dest.as_slice())?;
            let with_text = match i {
                Instruction::Ld => false,
                _ => true,
            };
            let src = number(component(comps, 2)?, labels, with_text)?;
            Ok(hi.wrapping_add(dest_byte << 16).wrapping_add(src))
        },
        Instruction::PushReg | Instruction::Pop | Instruction::JmpReg | Instruction::IntReg
        | Instruction::JeqReg => {
            let dest_byte = register(component(comps, 1)?)?;
            Ok(hi.wrapping_add(dest_byte << 16))
        },
        Instruction::MovDaddrSreg => {
            let dest = store_address(component(comps, 1)?, labels)?;
            let src = register(component(comps, 2)?)?;
            Ok(hi.wrapping_add(dest << 8).wrapping_add(src))
        },
        Instruction::MovDregSaddr | Instruction::MovDregSimm => {
            let dest = register(component(comps, 1)?)?;
            let src = number(component(comps, 2)?, labels, true)?;
            Ok(hi.wrapping_add(dest << 16).wrapping_add(src & 0xFFFF))
        },
        Instruction::PushAddr | Instruction::JmpAddr | Instruction::JeqImm => {
            let dest = number(component(comps, 1)?, labels, false)?;
            Ok(hi.wrapping_add(dest))
        },
        Instruction::JmpImm => {
            let c1 = component(comps, 1)?;
            let dest_byte = match labels.get(c1) {
                Some(a) => a,
                None => register(c1)?,
            };
            Ok(hi.wrapping_add(dest_byte << 16))
        },
        Instruction::IntImm => {
            let t = strip_prefix(component(comps, 1)?)?;
            let dest_byte = match parse_hex_u32(t.as_slice()) {
                Ok(a) => a,
                Err(e) => return Err(AsmError::BadAddress(e)),
            };
            Ok(hi.wrapping_add(dest_byte << 16))
        },
        _ => Ok(hi),
    }
}

/// Assembles one line held as its bytes.
pub fn encode_line(
    line: &[u8],
    ct: &Vec<(Instruction, u8)>,
    dt: &Vec<(&'static str, Instruction)>,
    labels: &LabelTable,
) -> (r: Result<Vec<u32>, AsmError>)
    requires
        ct@ == compile_pairs(),
        is_decode_table(dt@),
        labels.wf(),
    ensures
        outcome(r) == spec_encode(line@, labels@),
{
    let components = split_bytes(line, 32);
    proof {
        lemma_split_on_nonempty(line@, 32);
    }
    let c0 = components[0].as_slice();
    assert(c0@ == split_on(line@, 32)[0]);
    match instruction_in(dt, c0) {
        Some(decoded_inst) => {
            let rt = encode_operands(decoded_inst, &components, ct, labels)?;
            let mut ret: Vec<u32> = Vec::new();
            ret.push(rt);
            assert(ret@ =~= seq![rt]);
            Ok(ret)
        },
        None => {
            if c0.len() == 5 && c0[0] == 98 && c0[1] == 121 && c0[2] == 116 && c0[3] == 101
                && c0[4] == 115 {
                assert(spells(c0@, bytes_keyword()));
                proof {
                    lemma_first_piece_is_prefix(line@, 32);
                }
                let rest = slice_of(line, 5, line.len());
                let strings = find_quoted_strings(rest.as_slice());
                let literals = find_hex_literals(rest.as_slice());
                return encode_data(&strings, &literals);
            }
            assert(!spells(c0@, bytes_keyword()));
            let text = slice_of(c0, 0, c0.len());
            assert(text@ =~= c0@);
            Err(AsmError::UnknownInstruction(text))
        },
    }
}

/// Assembles one line of source into machine words: one word for an
/// instruction, the data words for a `bytes` line.
pub fn encode_instruction(
    line: String,
    ct: &Vec<(Instruction, u8)>,
    dt: &Vec<(&'static str, Instruction)>,
    labels: &LabelTable,
) -> (r: Result<Vec<u32>, AsmError>)
    requires
        ct@ == compile_pairs(),
        is_decode_table(dt@),
        labels.wf(),
    ensures
        outcome(r) == spec_encode(vstd::utf8::encode_utf8(line@), labels@),
{
    encode_line(line.as_str().as_bytes(), ct, dt, labels)
}

/// Whether the machine word of `i` holds only its opcode and register
/// operands (and, for `movi`/`mova`, a 16-bit value), so that no operand can
/// reach into the opcode byte.
pub open spec fn fixed_layout(i: Instruction) -> bool {
    match i {
        Instruction::AddReg | Instruction::SubReg | Instruction::MulReg | Instruction::AndReg
        | Instruction::OrReg | Instruction::XorReg | Instruction::CmpReg | Instruction::Swp
        | Instruction::MovDregSreg | Instruction::PushReg | Instruction::Pop | Instruction::JmpReg
        | Instruction::IntReg | Instruction::JeqReg | Instruction::MovDregSaddr
        | Instruction::MovDregSimm | Instruction::Nop | Instruction::Hlt => true,
        _ => false,
    }
}

/// Adding words whose sum fits does not wrap.
proof fn lemma_wadd_exact(a: u32, b: u32)
    requires
        a + b <= u32::MAX,
    ensures
        wadd(a, b) == a + b,
{
}

/// The opcode byte shifted to the top of a word, with less than a byte's
/// worth of room used below it, is what the top byte of the word reads.
proof fn lemma_top_byte(o: u8, lo: u32)
    requires
        lo < 0x100_0000,
    ensures
        ((o as u32) << 24) + lo <= u32::MAX,
        ((((o as u32) << 24) + lo) as u32 >> 24) & 0xff == o as u32,
{
    assert(((o as u32) << 24) + lo <= u32::MAX && ((((o as u32) << 24) + lo) as u32 >> 24) & 0xff
        == o as u32) by (bit_vector)
        requires
            lo < 0x100_0000,
    ;
}

/// A register operand is one of 0 to 3.
proof fn lemma_register_small(s: Seq<u8>)
    ensures
        spec_reg_to_byte(s) matches Ok(v) ==> v <= 3,
{
}

/// What the assembler writes, the processor decodes as the same instruction:
/// for an instruction whose word holds only registers besides its opcode,
/// the top byte of the word decodes to the instruction the line names.
pub proof fn lemma_encoded_word_decodes(line: Seq<u8>, labels: Map<Seq<u8>, u32>, w: u32)
    requires
        spec_named(split_on(line, 32)[0]) matches Some(i) && fixed_layout(i),
        spec_encode(line, labels) == Ok::<Seq<u32>, AsmFault>(seq![w]),
    ensures
        spec_decode_opcode(((w >> 24) & 0xff) as u8) == spec_named(split_on(line, 32)[0]),
{
    let comps = split_on(line, 32);
    let i = spec_named(comps[0])->0;
    let o = spec_opcode(i)->0;
    assert(opcode_word(i) == (o as u32) << 24);
    assert(spec_operands(i, comps, labels) == Ok::<u32, AsmFault>(w)) by {
        assert(seq![w][0] == w);
    }
    match i {
        Instruction::AddReg | Instruction::SubReg | Instruction::MulReg | Instruction::AndReg
        | Instruction::OrReg | Instruction::XorReg | Instruction::CmpReg | Instruction::Swp
        | Instruction::MovDregSreg => {
            let d = spec_reg_to_byte(without_byte(comps[1], 44))->Ok_0;
            let s = spec_reg_to_byte(comps[2])->Ok_0;
            lemma_register_small(without_byte(comps[1], 44));
            lemma_register_small(comps[2]);
            assert(d << 16 <= 0x3_0000 && s << 8 <= 0x300) by (bit_vector)
                requires
                    d <= 3 && s <= 3,
            ;
            lemma_top_byte(o, ((d << 16) + (s << 8)) as u32);
            lemma_wadd_exact(opcode_word(i), d << 16);
            lemma_wadd_exact((opcode_word(i) + (d << 16)) as u32, s << 8);
        },
        Instruction::PushReg | Instruction::Pop | Instruction::JmpReg | Instruction::IntReg
        | Instruction::JeqReg => {
            let d = spec_reg_to_byte(comps[1])->Ok_0;
            lemma_register_small(comps[1]);
            assert(d << 16 <= 0x3_0000) by (bit_vector)
                requires
                    d <= 3,
            ;
            lemma_top_byte(o, d << 16);
            lemma_wadd_exact(opcode_word(i), d << 16);
        },
        Instruction::MovDregSaddr | Instruction::MovDregSimm => {
            let d = spec_reg_to_byte(comps[1])->Ok_0;
            let v = spec_number(comps[2], labels, true)->Ok_0;
            lemma_register_small(comps[1]);
            assert(d << 16 <= 0x3_0000 && v & 0xffff <= 0xffff) by (bit_vector)
                requires
                    d <= 3,
            ;
            lemma_top_byte(o, ((d << 16) + (v & 0xffff)) as u32);
            lemma_wadd_exact(opcode_word(i), d << 16);
            lemma_wadd_exact((opcode_word(i) + (d << 16)) as u32, v & 0xffff);
        },
        _ => {
            lemma_top_byte(o, 0);
        },
    }
}

/// Whether `s` names register `r0` to `r3` by its first two characters (as
/// many more may follow).
pub open spec fn names_register(s: Seq<u8>) -> bool {
    &&& s.len() >= 2
    &&& boundary(s, 2)
    &&& s[0] == 114
    &&& 48 <= s[1] <= 51
}

/// The number of the register `s` names.
pub open spec fn register_number(s: Seq<u8>) -> int {
    s[1] - 48
}

/// How the assembler lays out the words of instructions whose operands are
/// registers: the opcode in the top byte, the first register (commas taken
/// out of it) in the second byte and, for two-register instructions, the
/// second register in the third byte; `nop` and `hlt` are the opcode alone.
#[verifier::spinoff_prover]
#[verifier::rlimit(60)]
pub proof fn lemma_encode_register_operands(line: Seq<u8>, labels: Map<Seq<u8>, u32>, i: Instruction)
    requires
        spec_named(split_on(line, 32)[0]) == Some(i),
    ensures
        ({
            let comps = split_on(line, 32);
            let op = spec_opcode(i)->0 as int;
            &&& (i == Instruction::AddReg || i == Instruction::SubReg || i == Instruction::MulReg
                || i == Instruction::AndReg || i == Instruction::OrReg || i == Instruction::XorReg
                || i == Instruction::CmpReg || i == Instruction::Swp || i
                == Instruction::MovDregSreg) && comps.len() >= 3 && names_register(
                without_byte(comps[1], 44),
            ) && names_register(comps[2]) ==> spec_encode(line, labels) == Ok::<
                Seq<u32>,
                AsmFault,
            >(
                seq![
                    (op * 0x100_0000 + register_number(without_byte(comps[1], 44)) * 0x1_0000
                        + register_number(comps[2]) * 0x100) as u32,
                ],
            )
            &&& (i == Instruction::PushReg || i == Instruction::Pop || i == Instruction::JmpReg || i
                == Instruction::IntReg || i == Instruction::JeqReg) && comps.len() >= 2
                && names_register(comps[1]) ==> spec_encode(line, labels) == Ok::<
                Seq<u32>,
                AsmFault,
            >(seq![(op * 0x100_0000 + register_number(comps[1]) * 0x1_0000) as u32])
            &&& (i == Instruction::Nop || i == Instruction::Hlt) ==> spec_encode(line, labels)
                == Ok::<Seq<u32>, AsmFault>(seq![(op * 0x100_0000) as u32])
        }),
{
    let comps = split_on(line, 32);
    lemma_split_on_nonempty(line, 32);
    lemma_decode_table_is_mnemonic_table();
    lemma_mnemonic_inverts_named(comps[0]);
    let o = spec_opcode(i);
    if o is Some {
        let op = o->0;
        let w = opcode_word(i);
        assert((op as u32) << 24 == op as u32 * 0x100_0000) by (bit_vector);
        assert(w == op as u32 * 0x100_0000);
        if comps.len() >= 2 && names_register(comps[1]) {
            let d = (comps[1][1] - 48) as u32;
            assert(spec_reg_to_byte(comps[1]) == Ok::<u32, AsmFault>(d));
            assert(d << 16 == d * 0x1_0000) by (bit_vector)
                requires
                    d <= 3,
            ;
            lemma_wadd_exact(w, d << 16);
        }
        if comps.len() >= 3 && names_register(without_byte(comps[1], 44)) && names_register(
            comps[2],
        ) {
            let d = (without_byte(comps[1], 44)[1] - 48) as u32;
            let e = (comps[2][1] - 48) as u32;
            assert(spec_reg_to_byte(without_byte(comps[1], 44)) == Ok::<u32, AsmFault>(d));
            assert(spec_reg_to_byte(comps[2]) == Ok::<u32, AsmFault>(e));
            assert(d << 16 == d * 0x1_0000 && e << 8 == e * 0x100) by (bit_vector)
                requires
                    d <= 3,
                    e <= 3,
            ;
            lemma_wadd_exact(w, d << 16);
            lemma_wadd_exact((w + (d << 16)) as u32, e << 8);
        }
    }
}

/// How the assembler lays out the words of instructions with a value operand
/// (a label's address, or else hexadecimal after two characters): for
/// `addi` and its kind and `ldi`, the opcode in the top byte plus the
/// register (commas taken out) in the second byte plus the value, modulo
/// 2^32; for `movi` and `mova`, the value's low 16 bits in place of the
/// value; for `pusha`, `jmp` and `jeqi`, the opcode in the top byte plus the
/// value, modulo 2^32.
#[verifier::spinoff_prover]
#[verifier::rlimit(60)]
pub proof fn lemma_encode_value_operands(line: Seq<u8>, labels: Map<Seq<u8>, u32>, i: Instruction)
    requires
        spec_named(split_on(line, 32)[0]) == Some(i),
    ensures
        ({
            let comps = split_on(line, 32);
            let op = spec_opcode(i)->0 as int;
            &&& (i == Instruction::AddImm || i == Instruction::SubImm || i == Instruction::MulImm
                || i == Instruction::AndImm || i == Instruction::OrImm || i == Instruction::XorImm
                || i == Instruction::CmpImm || i == Instruction::Ld) && comps.len() >= 3
                && names_register(without_byte(comps[1], 44)) && spec_number(
                comps[2],
                labels,
                i != Instruction::Ld,
            ) is Ok ==> spec_encode(line, labels) == Ok::<Seq<u32>, AsmFault>(
                seq![
                    ((op * 0x100_0000 + register_number(without_byte(comps[1], 44)) * 0x1_0000
                        + spec_number(comps[2], labels, i != Instruction::Ld)->Ok_0)
                        % 0x1_0000_0000) as u32,
                ],
            )
            &&& (i == Instruction::MovDregSimm || i == Instruction::MovDregSaddr) && comps.len()
                >= 3 && names_register(comps[1]) && spec_number(comps[2], labels, true) is Ok
                ==> spec_encode(line, labels) == Ok::<Seq<u32>, AsmFault>(
                seq![
                    (op * 0x100_0000 + register_number(comps[1]) * 0x1_0000 + spec_number(
                        comps[2],
                        labels,
                        true,
                    )->Ok_0 % 0x1_0000) as u32,
                ],
            )
            &&& (i == Instruction::PushAddr || i == Instruction::JmpAddr || i
                == Instruction::JeqImm) && comps.len() >= 2 && spec_number(comps[1], labels, false)
                is Ok ==> spec_encode(line, labels) == Ok::<Seq<u32>, AsmFault>(
                seq![
                    ((op * 0x100_0000 + spec_number(comps[1], labels, false)->Ok_0)
                        % 0x1_0000_0000) as u32,
                ],
            )
        }),
{
    let comps = split_on(line, 32);
    lemma_split_on_nonempty(line, 32);
    lemma_decode_table_is_mnemonic_table();
    lemma_mnemonic_inverts_named(comps[0]);
    let o = spec_opcode(i);
    if o is Some {
        let op = o->0;
        assert((op as u32) << 24 == op as u32 * 0x100_0000) by (bit_vector);
        assert(forall|d: u32| d <= 3 ==> #[trigger] (d << 16) == d * 0x1_0000) by (bit_vector);
        assert(forall|v: u32| #[trigger] (v & 0xffff) == v % 0x1_0000) by (bit_vector);
        assert(op as u32 * 0x100_0000 + 3 * 0x1_0000 + 0xffff <= u32::MAX);
    }
}

/// Hexadecimal digits: the characters `0`-`9`, `a`-`f` and `A`-`F` are the
/// digits, worth 0 to 15 in that order, a letter the same in either case;
/// they are the bytes the literal scanner takes for digits.
pub proof fn lemma_hex_digits(b: u8)
    ensures
        hex_digit_value(b) is Some == is_hex_digit(b),
        hex_digit_value(b) matches Some(x) ==> x < 16,
        48 <= b <= 57 ==> hex_digit_value(b) == Some((b - 48) as u32),
        65 <= b <= 70 ==> hex_digit_value(b) == Some((b - 55) as u32) && hex_digit_value(
            (b + 32) as u8,
        ) == hex_digit_value(b),
{
}

/// A leading `+` or a leading zero does not change the number read.
pub proof fn lemma_hex_sign_and_leading_zero(s: Seq<u8>)
    requires
        s.len() >= 1,
        s[0] != 43,
        s[0] != 45,
    ensures
        parse_hex(seq![43u8] + s) == parse_hex(s),
        parse_hex(seq![48u8] + s) == parse_hex(s),
{
    assert((seq![43u8] + s).drop_first() =~= s);
    lemma_leading_zero_digits(s);
}

/// A zero in front of a run of characters reads as the run does.
proof fn lemma_leading_zero_digits(s: Seq<u8>)
    ensures
        parse_digits(seq![48u8] + s) == parse_digits(s),
    decreases s.len(),
{
    if s.len() == 0 {
        reveal_with_fuel(parse_digits, 2);
        assert(s =~= Seq::<u8>::empty());
        assert((seq![48u8] + s).drop_last() =~= Seq::<u8>::empty());
        assert((seq![48u8] + s).last() == 48);
    } else {
        lemma_leading_zero_digits(s.drop_last());
        assert((seq![48u8] + s).drop_last() =~= seq![48u8] + s.drop_last());
        assert((seq![48u8] + s).last() == s.last());
    }
}

/// One more digit at the end multiplies the number read by sixteen and adds
/// the digit's value, when the result fits in 32 bits; when it does not, the
/// number overflows.
pub proof fn lemma_hex_append_digit(s: Seq<u8>, d: u8, v: u32)
    requires
        s.len() >= 1,
        s[0] != 43,
        parse_hex(s) == Ok::<u32, IntErrorKind>(v),
        is_hex_digit(d),
    ensures
        v * 16 + hex_digit_value(d)->0 <= u32::MAX ==> parse_hex(s.push(d)) == Ok::<u32, IntErrorKind>(
            (v * 16 + hex_digit_value(d)->0) as u32,
        ),
        v * 16 + hex_digit_value(d)->0 > u32::MAX ==> parse_hex(s.push(d)) == Err::<u32, IntErrorKind>(
            IntErrorKind::PosOverflow,
        ),
{
    assert(s.push(d).drop_last() =~= s);
    assert(s.push(d)[0] == s[0]);
}

/// Whether `t` is shaped as a hexadecimal literal at its ends: `0`, then `x`
/// or `X`, then a digit, and a digit last.
pub open spec fn literal_shaped(t: Seq<u8>) -> bool {
    &&& t.len() >= 3
    &&& t[0] == 48
    &&& (t[1] == 120 || t[1] == 88)
    &&& is_hex_digit(t[2])
    &&& is_hex_digit(t[t.len() - 1])
}

/// Every match the literal scanner finds is literal-shaped.
proof fn lemma_hex_from_shaped(t: Seq<u8>, i: int)
    ensures
        forall|k: int| 0 <= k < hex_from(t, i).len() ==> literal_shaped(#[trigger] hex_from(t, i)[k]),
    decreases t.len() - i,
{
    if i < 0 || i + 2 >= t.len() {
        assert(hex_from(t, i).len() == 0);
    } else if t[i] == 48 && (t[i + 1] == 120 || t[i + 1] == 88) && is_hex_digit(t[i + 2]) {
        let e = hex_run_end(t, i + 3);
        lemma_hex_run_end_bound(t, i + 3);
        lemma_hex_from_shaped(t, e);
        let m = t.subrange(i, e);
        assert(hex_from(t, i) == seq![m] + hex_from(t, e));
        assert(m[m.len() - 1] == t[e - 1]);
        if e > i + 3 {
            assert(is_hex_digit(t[e - 1]));
        } else {
            assert(e - 1 == i + 2);
        }
        assert(m[0] == t[i] && m[1] == t[i + 1] && m[2] == t[i + 2]);
        assert(literal_shaped(m));
        assert(hex_from(t, i)[0] == m);
        assert forall|k: int| 0 <= k < hex_from(t, i).len() implies literal_shaped(
            #[trigger] hex_from(t, i)[k],
        ) by {
            if k > 0 {
                assert(hex_from(t, i)[k] == hex_from(t, e)[k - 1]);
            }
        }
    } else {
        lemma_hex_from_shaped(t, i + 1);
        assert(hex_from(t, i) == hex_from(t, i + 1));
    }
}

/// A literal-shaped item, cut of its first and last characters, starts with
/// `x` or `X` and so never reads as a number: its word is zero.
proof fn lemma_literal_word_zero(h: Seq<u8>)
    requires
        literal_shaped(h),
    ensures
        trimmed(h) matches Ok(t) ==> hex_literal_word(t) == 0,
{
    if trimmed(h) is Ok {
        let t = trimmed(h)->Ok_0;
        assert(t[0] == h[1]);
        assert(t.len() >= 1);
        if t.len() >= 2 {
            assert(t[0] != 43 && t[0] != 45);
            assert(hex_digit_value(t[0]) is None);
            lemma_first_digit_fails(t);
        }
    }
}

/// A run of characters whose first is no digit does not read as a number.
proof fn lemma_first_digit_fails(t: Seq<u8>)
    requires
        t.len() >= 1,
        hex_digit_value(t[0]) is None,
    ensures
        parse_digits(t) is Err,
    decreases t.len(),
{
    if t.len() == 1 {
        reveal_with_fuel(parse_digits, 2);
        assert(t.drop_last() =~= Seq::<u8>::empty());
    } else {
        lemma_first_digit_fails(t.drop_last());
    }
}

/// The hexadecimal literals of a `bytes` line give one zero word each: the
/// assembler cuts the first and last characters off each literal, leaving
/// text that starts with `x` or `X`, which never reads as a number.
pub proof fn lemma_literals_give_zero_words(text: Seq<u8>)
    ensures
        literal_words(hex_literals(text)) == Ok::<Seq<u32>, AsmFault>(
            Seq::new(hex_literals(text).len(), |k: int| 0u32),
        ),
{
    lemma_hex_from_shaped(text, 0);
    lemma_literal_words_zero(hex_literals(text));
}

/// Literal-shaped items give one zero word each.
proof fn lemma_literal_words_zero(hs: Seq<Seq<u8>>)
    requires
        forall|k: int| 0 <= k < hs.len() ==> literal_shaped(#[trigger] hs[k]),
    ensures
        literal_words(hs) == Ok::<Seq<u32>, AsmFault>(Seq::new(hs.len(), |k: int| 0u32)),
    decreases hs.len(),
{
    if hs.len() == 0 {
        assert(Seq::new(0, |k: int| 0u32) =~= Seq::<u32>::empty());
    } else {
        let h = hs.last();
        assert(literal_shaped(hs[hs.len() - 1]));
        lemma_literal_words_zero(hs.drop_last());
        lemma_literal_word_zero(h);
        assert(h.len() >= 3 && boundary(h, 1) && boundary(h, h.len() - 1)) by {
            let b1 = h[1];
            let bl = h[h.len() - 1];
            assert(b1 & 0xc0 != 0x80) by (bit_vector)
                requires
                    b1 == 120 || b1 == 88,
            ;
            assert(bl & 0xc0 != 0x80) by (bit_vector)
                requires
                    (48 <= bl && bl <= 57) || (65 <= bl && bl <= 70) || (97 <= bl && bl <= 102),
            ;
        }
        assert(Seq::new((hs.len() - 1) as nat, |k: int| 0u32).push(0u32) =~= Seq::new(
            hs.len(),
            |k: int| 0u32,
        ));
    }
}

} // verus!
