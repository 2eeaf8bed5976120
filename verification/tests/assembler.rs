use deadbolt::compile::{assemble, get_bytes_from_line, words_to_bytes};
use deadbolt::processor::Instruction;
use deadbolt::translation::{
    build_compile_table, build_decode_table, build_translation_table, convert_to_signed,
    encode_data, encode_instruction, parse_hex_u32, reg_to_byte, AsmError, IntErrorKind,
    LabelTable,
};

fn lines(src: &[&str]) -> Vec<String> {
    src.iter().map(|l| l.to_string()).collect()
}

fn encode_with(line: &str, labels: &LabelTable) -> Result<Vec<u32>, AsmError> {
    encode_instruction(line.to_string(), &build_compile_table(), &build_decode_table(), labels)
}

fn encode(line: &str) -> Result<Vec<u32>, AsmError> {
    encode_with(line, &LabelTable::new())
}

fn named(name: &str) -> Option<Instruction> {
    build_decode_table().iter().find(|(n, _)| *n == name).map(|(_, i)| *i)
}

#[test]
fn encodes_register_pair() {
    assert_eq!(encode("add r1, r2").unwrap(), vec![0x1101_0200]);
    assert_eq!(encode("xor r3, r0").unwrap(), vec![0x6a03_0000]);
    assert_eq!(encode("swp r0, r3").unwrap(), vec![0xc500_0300]);
}

#[test]
fn encodes_register_and_immediate() {
    assert_eq!(encode("addi r0, 0x10").unwrap(), vec![0x1200_0010]);
    assert_eq!(encode("cmpi r2, 0xff").unwrap(), vec![0x8002_00ff]);
    assert_eq!(encode("ldi r1, 0x20").unwrap(), vec![0xb101_0020]);
}

#[test]
fn immediate_wraps_into_the_opcode_byte() {
    // the value is added to the word, so a wide one reaches the opcode byte
    assert_eq!(encode("addi r0, 0x1000000").unwrap(), vec![0x1300_0000]);
    assert_eq!(encode("addi r1, 0xffffffff").unwrap(), vec![0x1200_ffff]);
}

#[test]
fn encodes_single_register() {
    assert_eq!(encode("push r3").unwrap(), vec![0xd603_0000]);
    assert_eq!(encode("pop r1").unwrap(), vec![0xf101_0000]);
    assert_eq!(encode("jmpl r2").unwrap(), vec![0x8302_0000]);
    assert_eq!(encode("intr r0").unwrap(), vec![0xab00_0000]);
}

#[test]
fn encodes_sixteen_bit_values() {
    assert_eq!(encode("movi r2 0x1234").unwrap(), vec![0x9002_1234]);
    assert_eq!(encode("mova r1 0x12345").unwrap(), vec![0x8e01_2345]);
}

#[test]
fn encodes_store_address() {
    // the address is read from the third character up to two before the end
    assert_eq!(encode("movr 0x0010 r1").unwrap(), vec![0x8f00_0001]);
    assert_eq!(encode("movr 0x001234 r2").unwrap(), vec![0x8f00_1202]);
}

#[test]
fn encodes_addresses_and_interrupts() {
    assert_eq!(encode("jmp 0x10").unwrap(), vec![0x8100_0010]);
    assert_eq!(encode("pusha 0xabc").unwrap(), vec![0xd500_0abc]);
    assert_eq!(encode("jeqi 0x4").unwrap(), vec![0x8400_0004]);
    assert_eq!(encode("int 0x80").unwrap(), vec![0xaa80_0000]);
    assert_eq!(encode("jmpi r1").unwrap(), vec![0x8201_0000]);
}

#[test]
fn encodes_bare_instructions() {
    assert_eq!(encode("hlt").unwrap(), vec![0x6f00_0000]);
    assert_eq!(encode("nop").unwrap(), vec![0xff00_0000]);
}

#[test]
fn labels_stand_for_their_addresses() {
    let mut labels = LabelTable::new();
    labels.insert(b".loop".to_vec(), 0x24);
    assert_eq!(labels.get(b".loop"), Some(0x24));
    assert_eq!(labels.get(b".other"), None);
    let w = encode_with("jmp .loop", &labels).unwrap();
    assert_eq!(w, vec![0x8100_0024]);
    let w = encode_with("jmpi .loop", &labels).unwrap();
    assert_eq!(w, vec![0x8224_0000]);
    labels.insert(b".loop".to_vec(), 0x8);
    assert_eq!(labels.get(b".loop"), Some(0x8));
}

#[test]
fn unknown_mnemonic_is_reported() {
    match encode("frob r1, r2") {
        Err(AsmError::UnknownInstruction(t)) => assert_eq!(t, b"frob".to_vec()),
        other => panic!("unexpected {:?}", other),
    }
}

#[test]
fn invalid_register_is_reported() {
    match encode("add r9, r1") {
        Err(AsmError::InvalidRegister(t)) => assert_eq!(t, b"r9".to_vec()),
        other => panic!("unexpected {:?}", other),
    }
}

#[test]
fn missing_operand_is_malformed() {
    assert!(matches!(encode("add r1,"), Err(AsmError::Malformed)));
    assert!(matches!(encode("push"), Err(AsmError::Malformed)));
}

#[test]
fn bad_numbers_are_reported() {
    match encode("addi r1, 0xzz") {
        Err(AsmError::BadNumber(t, k)) => {
            assert_eq!(t, b"zz".to_vec());
            assert_eq!(k, IntErrorKind::InvalidDigit);
        },
        other => panic!("unexpected {:?}", other),
    }
    match encode("addi r1, 0x") {
        Err(AsmError::BadNumber(t, k)) => {
            assert!(t.is_empty());
            assert_eq!(k, IntErrorKind::Empty);
        },
        other => panic!("unexpected {:?}", other),
    }
    assert!(matches!(encode("jmp 0xqq"), Err(AsmError::BadAddress(IntErrorKind::InvalidDigit))));
    assert!(matches!(encode("ldi r0, 0xg"), Err(AsmError::BadAddress(IntErrorKind::InvalidDigit))));
    assert!(matches!(
        encode("int 0x123456789"),
        Err(AsmError::BadAddress(IntErrorKind::PosOverflow))
    ));
}

#[test]
fn data_strings_pack_into_words() {
    // the regular expression's capture loses its first and last character
    assert_eq!(encode("bytes \"xABCDx\"").unwrap(), vec![0x4142_4344]);
    assert_eq!(encode("bytes \"xABCDEx\"").unwrap(), vec![0x4142_4344, 0x4500_0000]);
    assert_eq!(encode("bytes \"xHIx\" \"yOKy\"").unwrap(), vec![0x4849_0000, 0x4f4b_0000]);
}

#[test]
fn data_literals_give_zero_words() {
    // a literal loses its first and last character before it is read, so
    // what is left never reads as a number
    assert_eq!(encode("bytes 0x41 0x1234").unwrap(), vec![0, 0]);
    assert_eq!(encode("bytes \"xHIx\" 0x10").unwrap(), vec![0x4849_0000, 0]);
}

#[test]
fn data_string_too_short_is_malformed() {
    assert!(matches!(encode("bytes \"\""), Err(AsmError::Malformed)));
}

#[test]
fn encode_data_from_items() {
    let strings = vec![b"'hello'".to_vec()];
    let literals = vec![b"0x5".to_vec()];
    assert_eq!(encode_data(&strings, &literals).unwrap(), vec![0x6865_6c6c, 0x6f00_0000, 0]);
}

#[test]
fn line_sizes() {
    let dt = build_decode_table();
    assert_eq!(get_bytes_from_line(b"add r1, r2", &dt), 4);
    assert_eq!(get_bytes_from_line(b"frob", &dt), 4);
    assert_eq!(get_bytes_from_line(b"bytes \"xABCDEx\"", &dt), 8);
    assert_eq!(get_bytes_from_line(b"bytes 0x1 0x2 0x3", &dt), 12);
}

#[test]
fn hex_parsing() {
    assert_eq!(parse_hex_u32(b"ff"), Ok(0xff));
    assert_eq!(parse_hex_u32(b"DeadBeef"), Ok(0xdead_beef));
    assert_eq!(parse_hex_u32(b"+10"), Ok(0x10));
    assert_eq!(parse_hex_u32(b""), Err(IntErrorKind::Empty));
    assert_eq!(parse_hex_u32(b"+"), Err(IntErrorKind::InvalidDigit));
    assert_eq!(parse_hex_u32(b"1g"), Err(IntErrorKind::InvalidDigit));
    assert_eq!(parse_hex_u32(b"100000000"), Err(IntErrorKind::PosOverflow));
}

#[test]
fn registers_by_name() {
    assert_eq!(reg_to_byte(b"r0").unwrap(), 0);
    assert_eq!(reg_to_byte(b"r3,").unwrap(), 3);
    assert!(matches!(reg_to_byte(b"r4"), Err(AsmError::InvalidRegister(_))));
    assert!(matches!(reg_to_byte(b"r"), Err(AsmError::Malformed)));
}

#[test]
fn signed_offsets() {
    assert_eq!(convert_to_signed(5), 5);
    assert_eq!(convert_to_signed(0x8000_0005), -5);
    assert_eq!(convert_to_signed(0x8000_0000), 0);
    assert_eq!(convert_to_signed(0x7fff_ffff), 0x7fff_ffff);
}

#[test]
fn tables_agree() {
    let translation = build_translation_table();
    let compile = build_compile_table();
    let decode = build_decode_table();
    assert_eq!(translation.len(), 32);
    assert_eq!(compile.len(), 32);
    assert_eq!(decode.len(), 35);
    for (inst, op) in compile.iter() {
        assert_eq!(translation.get(op), Some(inst));
    }
    for (_, inst) in decode.iter() {
        let has_opcode = compile.iter().any(|(i, _)| i == inst);
        let without = [Instruction::LdReg, Instruction::SfgReg, Instruction::SfgImm];
        assert_eq!(has_opcode, !without.contains(inst));
    }
    for (k, (n, i)) in decode.iter().enumerate() {
        for (m, j) in decode.iter().skip(k + 1) {
            assert_ne!(n, m);
            assert_ne!(i, j);
        }
    }
    assert_eq!(named("jmpl"), Some(Instruction::JmpReg));
    assert_eq!(named("jmp"), Some(Instruction::JmpAddr));
    assert_eq!(named("ldi"), Some(Instruction::Ld));
    assert_eq!(named("ldr"), Some(Instruction::LdReg));
    assert_eq!(named("sfgi"), Some(Instruction::SfgImm));
    assert_eq!(named("sfgr"), Some(Instruction::SfgReg));
    assert_eq!(named("ld"), None);
    assert_eq!(named("movi"), Some(Instruction::MovDregSimm));
    assert_eq!(named("bytes"), None);
    assert_eq!(translation.get(&0x00), None);
    assert!(!compile.iter().any(|(i, _)| *i == Instruction::LdReg));
}

#[test]
fn assembled_word_decodes_to_named_instruction() {
    let translation = build_translation_table();
    for line in ["add r1, r2", "push r0", "movi r3 0xffff", "hlt", "jeq r1", "mov r2, r1"] {
        let w = encode(line).unwrap()[0];
        let name = line.split(' ').next().unwrap();
        assert_eq!(translation.get(&((w >> 24) as u8)).copied(), named(name));
    }
}

#[test]
fn assembles_a_program() {
    let src = lines(&[
        "; a small program",
        "section .text",
        "",
        "movi r0 0x0005",
        "addi r0, 0x1",
        "jmp .end",
        "nop",
        ".end",
        "hlt",
    ]);
    let words = assemble(&src).unwrap();
    assert_eq!(words, vec![0x9000_0005, 0x1200_0001, 0x8100_0010, 0xff00_0000, 0x6f00_0000]);
}

#[test]
fn labels_count_data_words() {
    let src = lines(&[
        "section .data",
        "bytes \"xABCDEx\"",
        "section .text",
        ".start",
        "jmp .start",
    ]);
    let words = assemble(&src).unwrap();
    assert_eq!(words, vec![0x4142_4344, 0x4500_0000, 0x8100_0008]);
}

#[test]
fn sections_are_emitted_in_order() {
    let src = lines(&["section .text", "hlt", "section .data", "bytes \"xABx\"", "nop"]);
    let words = assemble(&src).unwrap();
    assert_eq!(words, vec![0x6f00_0000, 0x4142_0000, 0xff00_0000]);
}

#[test]
fn instruction_before_section_is_refused() {
    assert!(matches!(assemble(&lines(&["hlt"])), Err(AsmError::NoSection)));
    assert!(matches!(assemble(&lines(&["jmp .x", "section .text"])), Err(AsmError::NoSection)));
}

#[test]
fn first_failing_line_stops_the_assembler() {
    let src = lines(&["section .text", "hlt", "frob", "add r7, r1"]);
    match assemble(&src) {
        Err(AsmError::UnknownInstruction(t)) => assert_eq!(t, b"frob".to_vec()),
        other => panic!("unexpected {:?}", other),
    }
}

#[test]
fn source_without_text_section_is_refused() {
    assert!(matches!(assemble(&lines(&[])), Err(AsmError::NoTextSection)));
    assert!(matches!(
        assemble(&lines(&["; only a comment", "   "])),
        Err(AsmError::NoTextSection)
    ));
    assert!(matches!(
        assemble(&lines(&["section .data", "add r0, r1"])),
        Err(AsmError::NoTextSection)
    ));
    assert_eq!(assemble(&lines(&["section .text"])).unwrap(), Vec::<u32>::new());
}

#[test]
fn comment_and_blank_lines_change_nothing() {
    let plain = lines(&["section .text", ".top", "nop", "jmp .top"]);
    let commented = lines(&[
        "; header",
        "section .text",
        "",
        "   ; indented comment",
        ".top",
        "\t",
        "nop",
        ";",
        "jmp .top",
        "  ",
    ]);
    assert_eq!(assemble(&plain).unwrap(), assemble(&commented).unwrap());
    assert_eq!(assemble(&plain).unwrap(), vec![0xff00_0000, 0x8100_0000]);
}

#[test]
fn image_is_big_endian() {
    assert_eq!(words_to_bytes(&vec![0x1122_3344, 0x6f00_0000]), vec![
        0x11, 0x22, 0x33, 0x44, 0x6f, 0, 0, 0,
    ]);
    assert_eq!(words_to_bytes(&vec![]), Vec::<u8>::new());
}

#[test]
fn instruction_without_opcode_is_refused() {
    assert!(matches!(encode("ldr r1, r2"), Err(AsmError::NoOpcode(Instruction::LdReg))));
    assert!(matches!(encode("sfgi 0x1"), Err(AsmError::NoOpcode(Instruction::SfgImm))));
    assert!(matches!(encode("sfgr r0"), Err(AsmError::NoOpcode(Instruction::SfgReg))));
}

#[test]
fn quoted_string_stops_at_line_break() {
    // the first quote has a line break before its partner, so the first
    // match runs between the second and third quotes and holds one space,
    // which is too short to cut
    assert!(matches!(encode("bytes \"xA\nx\" \"yBCy\""), Err(AsmError::Malformed)));
}

#[test]
fn hex_literal_takes_the_longest_run() {
    // "0x1g" matches as "0x1", which cuts to "x" and reads as zero; "0X" alone
    // is no literal
    assert_eq!(encode("bytes 0x1g 0X 0Xff").unwrap(), vec![0, 0]);
}
