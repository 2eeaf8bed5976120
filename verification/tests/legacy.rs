use deadbolt::compile::{assemble, words_to_bytes};
use deadbolt::processor::{Status, Trap, CPU};

fn image(src: &[&str]) -> Vec<u8> {
    let lines: Vec<String> = src.iter().map(|l| l.to_string()).collect();
    words_to_bytes(&assemble(&lines).unwrap())
}

#[test]
fn fresh_legacy_processor() {
    let cpu = CPU::init(vec![1, 2, 3]);
    for r in 0..4 {
        assert_eq!(cpu.register(r), Some(0));
    }
    assert_eq!(cpu.register(4), None);
    assert_eq!(cpu.pc(), 0);
    assert_eq!(cpu.sp(), 0);
    assert_eq!(cpu.flags(), 0);
    assert!(cpu.stack().is_empty());
}

#[test]
fn assembled_program_runs() {
    let prog = image(&["section .text", "movi r0 0x0005", "addi r0, 0x1", "hlt"]);
    let mut cpu = CPU::init(prog);
    assert_eq!(cpu.run(10), Ok(Status::Halted));
    assert_eq!(cpu.register(0), Some(6));
    assert_eq!(cpu.pc(), 8);
}

#[test]
fn register_arithmetic() {
    let prog = image(&[
        "section .text",
        "movi r1 0x7",
        "movi r2 0x3",
        "mul r1, r2",
        "sub r1, r2",
        "xor r2, r2",
        "hlt",
    ]);
    let mut cpu = CPU::init(prog);
    assert_eq!(cpu.run(10), Ok(Status::Halted));
    assert_eq!(cpu.register(1), Some(18));
    assert_eq!(cpu.register(2), Some(0));
}

#[test]
fn stack_push_and_pop() {
    let prog = image(&["section .text", "movi r1 0x2a", "push r1", "pop r3", "hlt"]);
    let mut cpu = CPU::init(prog);
    assert_eq!(cpu.run(10), Ok(Status::Halted));
    assert_eq!(cpu.register(3), Some(0x2a));
    assert!(cpu.stack().is_empty());
}

#[test]
fn pusha_pushes_low_24_bits() {
    let prog = image(&["section .text", "pusha 0xabcdef", "hlt"]);
    let mut cpu = CPU::init(prog);
    assert_eq!(cpu.run(10), Ok(Status::Halted));
    assert_eq!(cpu.stack().clone(), vec![0xab_cdef]);
}

#[test]
fn conditional_jump_on_equal() {
    let prog = image(&[
        "section .text",
        "cmp r0, r1",
        "jeqi 0x8",
        "movi r2 0x1",
        "hlt",
    ]);
    let mut cpu = CPU::init(prog);
    assert_eq!(cpu.run(10), Ok(Status::Halted));
    assert_eq!(cpu.register(2), Some(0));
    assert_eq!(cpu.flags(), 0);
    assert_eq!(cpu.pc(), 12);
}

#[test]
fn endless_loop_runs_out_of_fuel() {
    let prog = image(&["section .text", ".top", "nop", "jmp .top"]);
    let mut cpu = CPU::init(prog);
    assert_eq!(cpu.run(7), Ok(Status::Running));
    assert_eq!(cpu.pc(), 4);
}

#[test]
fn store_extends_the_image() {
    // the source register is read from the third byte, where the low byte of
    // the address stands; here both are 1
    let prog = image(&["section .text", "movi r1 0x55", "movr 0x010100 r1", "ldi r2, 0x101", "hlt"]);
    let mut cpu = CPU::init(prog);
    assert_eq!(cpu.run(10), Ok(Status::Halted));
    assert_eq!(cpu.register(2), Some(0x55));
}

#[test]
fn store_reads_its_register_from_the_address_byte() {
    let prog = image(&["section .text", "movr 0x001000 r1"]);
    let mut cpu = CPU::init(prog);
    assert_eq!(cpu.run(1), Err(Trap::Abort));
}

#[test]
fn running_off_the_end_traps() {
    let prog = image(&["section .text", "nop"]);
    let mut cpu = CPU::init(prog);
    assert_eq!(cpu.run(10), Err(Trap::IllicitMemory));
    assert_eq!(cpu.pc(), 4);
    let mut cpu = CPU::init(vec![]);
    assert_eq!(cpu.run(1), Err(Trap::IllicitMemory));
}

#[test]
fn unknown_opcode_aborts() {
    let mut cpu = CPU::init(vec![0, 0, 0, 0]);
    assert_eq!(cpu.run(1), Err(Trap::Abort));
    assert_eq!(cpu.pc(), 0);
}

#[test]
fn interrupts_abort() {
    let prog = image(&["section .text", "int 0x80"]);
    let mut cpu = CPU::init(prog);
    assert_eq!(cpu.run(1), Err(Trap::Abort));
}

#[test]
fn pop_of_empty_stack_aborts() {
    let prog = image(&["section .text", "pop r0"]);
    let mut cpu = CPU::init(prog);
    assert_eq!(cpu.decode_and_execute(), Err(Trap::Abort));
}

#[test]
fn single_step() {
    let prog = image(&["section .text", "movi r3 0x9", "hlt"]);
    let mut cpu = CPU::init(prog);
    assert_eq!(cpu.decode_and_execute(), Ok(Status::Running));
    assert_eq!(cpu.register(3), Some(9));
    assert_eq!(cpu.pc(), 4);
    assert_eq!(cpu.decode_and_execute(), Ok(Status::Halted));
}

#[test]
fn mov_copies_the_source_register() {
    let prog = image(&["section .text", "movi r2 0x9", "mov r1, r2", "hlt"]);
    let mut cpu = CPU::init(prog);
    assert_eq!(cpu.run(10), Ok(Status::Halted));
    assert_eq!(cpu.register(1), Some(9));
    assert_eq!(cpu.register(0), Some(0));
}

#[test]
fn short_jump_backwards() {
    // nop ; jmpi -4 (sign bit 23 set, magnitude 4)
    let mut cpu = CPU::init(vec![0xff, 0, 0, 0, 0x82, 0x80, 0x00, 0x04]);
    assert_eq!(cpu.run(2), Ok(Status::Running));
    assert_eq!(cpu.pc(), 0);
}

#[test]
fn overflow_sets_carry() {
    let prog = image(&["section .text", "movi r1 0x2", "subi r1, 0x3", "hlt"]);
    let mut cpu = CPU::init(prog);
    assert_eq!(cpu.run(10), Ok(Status::Halted));
    assert_eq!(cpu.register(1), Some(0xffff_ffff));
    assert_eq!(cpu.flags(), 2);
}

#[test]
fn compare_sets_greater() {
    let prog = image(&["section .text", "movi r1 0x5", "cmpi r1, 0x3", "hlt"]);
    let mut cpu = CPU::init(prog);
    assert_eq!(cpu.run(10), Ok(Status::Halted));
    assert_eq!(cpu.flags(), 4);
}
