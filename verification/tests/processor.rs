use deadbolt::processor::cpu::interrupts::{build_interrupt_table, int_readconsole, int_writeconsole, InterruptHandler};
use deadbolt::processor::cpu::mmu::MMU;
use deadbolt::processor::cpu::{Event, ExecError, CPU};

fn loaded(prog: Vec<u8>) -> CPU {
    let mut cpu = CPU::init(prog);
    cpu.load_program();
    cpu
}

#[test]
fn fresh_processor_is_zeroed() {
    let cpu = CPU::init(vec![0x6f]);
    for r in 0..4 {
        assert_eq!(cpu.get_reg(r), Ok(0));
    }
    assert_eq!(cpu.pc(), 0);
    assert_eq!(cpu.sp(), 0);
    assert_eq!(cpu.flags(), 0);
    assert!(!cpu.memory.is_mapped(0));
}

#[test]
fn registers_read_back() {
    let mut cpu = CPU::init(vec![]);
    assert_eq!(cpu.set_reg(2, 7), Ok(()));
    assert_eq!(cpu.get_reg(2), Ok(7));
    assert_eq!(cpu.get_reg(1), Ok(0));
    assert_eq!(cpu.set_reg(4, 1), Err(ExecError::IllicitValue(4)));
    assert_eq!(cpu.get_reg(9), Err(ExecError::IllicitValue(9)));
}

#[test]
fn halt_stops_the_run() {
    let mut cpu = CPU::init(vec![0x6f]);
    assert_eq!(cpu.run(10), Ok(Event::Halt));
    assert_eq!(cpu.pc(), 0);
}

#[test]
fn loading_copies_the_program() {
    let prog: Vec<u8> = (0..=255u8).chain(0..10u8).collect();
    let cpu = loaded(prog.clone());
    for (i, b) in prog.iter().enumerate() {
        assert_eq!(cpu.fetch8(i), Ok(*b));
    }
    assert_eq!(cpu.fetch8(0x300), Ok(0));
}

#[test]
fn immediate_move_and_add() {
    // movi r1, 0x10 ; addi r1, 0x5 ; hlt
    let prog = vec![0x90, 0x01, 0, 0, 0, 0x10, 0x12, 0x01, 0, 0, 0, 0x05, 0x6f];
    let mut cpu = CPU::init(prog);
    assert_eq!(cpu.run(10), Ok(Event::Halt));
    assert_eq!(cpu.get_reg(1), Ok(0x15));
    assert_eq!(cpu.pc(), 12);
}

#[test]
fn register_pair_arithmetic_wraps() {
    // movi r0, 0xffffffff ; movi r1, 2 ; add r0, r1 (0x01) ; hlt
    let prog = vec![
        0x90, 0x00, 0xff, 0xff, 0xff, 0xff, 0x90, 0x01, 0, 0, 0, 2, 0x11, 0x01, 0x6f,
    ];
    let mut cpu = CPU::init(prog);
    assert_eq!(cpu.run(10), Ok(Event::Halt));
    assert_eq!(cpu.get_reg(0), Ok(1));
    assert_eq!(cpu.pc(), 14);
    assert!(cpu.is_flag_set(2));
}

#[test]
fn compare_sets_zero_flag() {
    // cmp r0, r0 ; hlt
    let mut cpu = CPU::init(vec![0x79, 0x00, 0x6f]);
    assert_eq!(cpu.run(10), Ok(Event::Halt));
    assert!(cpu.is_flag_set(1));
    assert!(!cpu.is_flag_set(2));
    assert_eq!(cpu.flags(), 1);
}

#[test]
fn compare_of_different_values_keeps_flags() {
    // movi r1, 3 ; cmp r0, r1 ; hlt
    let mut cpu = CPU::init(vec![0x90, 0x01, 0, 0, 0, 3, 0x79, 0x01, 0x6f]);
    assert_eq!(cpu.run(10), Ok(Event::Halt));
    assert_eq!(cpu.flags(), 0);
}

#[test]
fn conditional_jump_clears_zero_flag() {
    // cmp r0, r0 ; jeqi +8 (from 2 to 0x0a) ; hlt ; nop ; nop ; hlt at 0x0a
    let prog = vec![0x79, 0x00, 0x84, 0, 0, 0, 0x08, 0x6f, 0xff, 0xff, 0x6f];
    let mut cpu = CPU::init(prog);
    assert_eq!(cpu.run(10), Ok(Event::Halt));
    assert_eq!(cpu.pc(), 0x0a);
    assert_eq!(cpu.flags(), 0);
}

#[test]
fn conditional_jump_falls_through() {
    // jeqi 0x0a ; hlt
    let mut cpu = CPU::init(vec![0x84, 0, 0, 0, 0x0a, 0x6f]);
    assert_eq!(cpu.run(10), Ok(Event::Halt));
    assert_eq!(cpu.pc(), 5);
}

#[test]
fn short_jump_is_sign_magnitude() {
    // nop ; nop ; jmpi -2 -> back to 0, which is a nop, then forward again
    let prog = vec![0xff, 0xff, 0x82, 0x80, 0, 0, 2];
    let mut cpu = CPU::init(prog);
    assert_eq!(cpu.run(3), Ok(Event::Continue));
    assert_eq!(cpu.pc(), 0);
}

#[test]
fn push_and_pop_through_memory() {
    // movi r2, 0x1234 ; push r2 ; pop r3 ; hlt
    let prog = vec![0x90, 0x02, 0, 0, 0x12, 0x34, 0xd6, 0x02, 0xf1, 0x03, 0x6f];
    let mut cpu = CPU::init(prog);
    assert_eq!(cpu.run(10), Ok(Event::Halt));
    assert_eq!(cpu.get_reg(3), Ok(0x1234));
    assert_eq!(cpu.sp(), 0);
    assert_eq!(cpu.fetch32(4), Ok(0x1234));
}

#[test]
fn store_and_load_registers() {
    // movi r0, 0xabcd ; movr 0x100, r0 ; ld r1, 0x100 ; hlt
    let prog = vec![
        0x90, 0x00, 0, 0, 0xab, 0xcd, 0x8f, 0, 0, 0x01, 0, 0x00, 0xb1, 0x01, 0, 0, 0x01, 0, 0x6f,
    ];
    let mut cpu = CPU::init(prog);
    assert_eq!(cpu.run(10), Ok(Event::Halt));
    assert_eq!(cpu.get_reg(1), Ok(0xabcd));
    assert_eq!(cpu.fetch32(0x100), Ok(0xabcd));
}

#[test]
fn swap_exchanges_registers() {
    // movi r0, 1 ; movi r1, 2 ; swp r0, r1 (0x01) ; hlt
    let prog = vec![0x90, 0x00, 0, 0, 0, 1, 0x90, 0x01, 0, 0, 0, 2, 0xc5, 0x01, 0x6f];
    let mut cpu = CPU::init(prog);
    assert_eq!(cpu.run(10), Ok(Event::Halt));
    assert_eq!(cpu.get_reg(0), Ok(2));
    assert_eq!(cpu.get_reg(1), Ok(1));
}

#[test]
fn write_interrupt_hands_out_the_byte() {
    // movi r0, 12 ; int 0x80 ; hlt ; 'H'
    let prog = vec![0x90, 0x00, 0, 0, 0, 0x0c, 0xaa, 0, 0, 0, 0x80, 0x6f, b'H'];
    let mut cpu = CPU::init(prog);
    assert_eq!(cpu.run(10), Ok(Event::Output(b'H')));
    assert_eq!(int_writeconsole(&cpu), Ok(b'H'));
    // the interrupt leaves the program counter where it was
    assert_eq!(cpu.pc(), 6);
    assert_eq!(cpu.resume(10), Ok(Event::Output(b'H')));
}

#[test]
fn read_interrupt_stores_the_byte() {
    // movi r0, 0x40 ; int 0xa0
    let prog = vec![0x90, 0x00, 0, 0, 0, 0x40, 0xaa, 0, 0, 0, 0xa0];
    let mut cpu = CPU::init(prog);
    assert_eq!(cpu.run(10), Ok(Event::Input));
    let echo = int_readconsole(&mut cpu, b'x');
    assert!(!echo);
    assert_eq!(cpu.get_reg(1), Ok(b'x' as u32));
    assert_eq!(cpu.fetch8(0x40), Ok(b'x'));
}

#[test]
fn read_interrupt_overwrites_code_at_r0() {
    let mut cpu = CPU::init(vec![0xaa, 0, 0, 0, 0xa0]);
    assert_eq!(cpu.run(10), Ok(Event::Input));
    assert!(!int_readconsole(&mut cpu, 0x78));
    assert_eq!(cpu.resume(1), Err(ExecError::IllegalInstruction(0x78)));
}

#[test]
fn unknown_interrupt_is_refused() {
    let mut cpu = CPU::init(vec![0xaa, 0, 0, 0, 0x21]);
    assert_eq!(cpu.run(10), Err(ExecError::UnknownInterrupt(0x21)));
}

#[test]
fn illegal_opcode_is_refused() {
    let mut cpu = CPU::init(vec![0x00]);
    assert_eq!(cpu.run(10), Err(ExecError::IllegalInstruction(0)));
}

#[test]
fn bad_register_operands_are_refused() {
    // mov with a destination nibble of 5
    let mut cpu = CPU::init(vec![0x8d, 0x50]);
    assert_eq!(cpu.run(1), Err(ExecError::IllicitDestination(5)));
    let mut cpu = CPU::init(vec![0x8d, 0x05]);
    assert_eq!(cpu.run(1), Err(ExecError::IllicitValue(5)));
    let mut cpu = CPU::init(vec![0xd6, 0x04]);
    assert_eq!(cpu.run(1), Err(ExecError::IllicitValue(4)));
}

#[test]
fn unwritten_memory_reads_zero() {
    // jmp 0x1000: nothing was ever written there, so the opcode read is 0
    let mut cpu = CPU::init(vec![0x81, 0, 0, 0x10, 0x00]);
    assert_eq!(cpu.run(10), Err(ExecError::IllegalInstruction(0)));
    assert_eq!(cpu.pc(), 0x1000);
    assert_eq!(cpu.fetch32(0x5000), Ok(0));
}

#[test]
fn fuel_bounds_the_run() {
    // nop ; jmp 0
    let mut cpu = CPU::init(vec![0xff, 0x81, 0, 0, 0, 0]);
    assert_eq!(cpu.run(5), Ok(Event::Continue));
    assert_eq!(cpu.pc(), 1);
    assert_eq!(cpu.resume(0), Ok(Event::Continue));
    assert_eq!(cpu.pc(), 1);
}

#[test]
fn failed_step_leaves_registers() {
    let mut cpu = loaded(vec![0x90, 0x07, 0, 0, 0, 1]);
    let before = (cpu.get_reg(0), cpu.pc(), cpu.flags());
    assert_eq!(cpu.decode_and_execute(), Err(ExecError::IllicitDestination(7)));
    assert_eq!((cpu.get_reg(0), cpu.pc(), cpu.flags()), before);
}

#[test]
fn interrupt_table_lists_console() {
    let t = build_interrupt_table();
    assert_eq!(t.len(), 2);
    assert_eq!(t.get(&0x80), Some(&InterruptHandler::WriteConsole));
    assert_eq!(t.get(&0xa0), Some(&InterruptHandler::ReadConsole));
}

#[test]
fn memory_pages_appear_on_write() {
    let mut m = MMU::new();
    assert!(!m.is_mapped(0x1234));
    m.write(0x1234, 7);
    assert!(m.is_mapped(0x1200));
    assert!(m.is_mapped(0x12ff));
    assert!(!m.is_mapped(0x1300));
    assert_eq!(m.read(0x1234), 7);
    assert_eq!(m.read(0x1235), 0);
}

#[test]
fn memory_words_read_back() {
    let mut m = MMU::new();
    assert_eq!(m.write_u32(0x10, 0xdead_beef), Ok(()));
    assert_eq!(m.get_u32(0x10), Ok(0xdead_beef));
    assert_eq!(m.get_u16(0x10), Ok(0xdead));
    assert_eq!(m.get_u24(0x11), Ok(0xad_beef));
    assert_eq!(m.read(0x13), 0xef);
    // a word across a page boundary
    assert_eq!(m.write_u32(0x2fe, 0x0102_0304), Ok(()));
    assert_eq!(m.get_u32(0x2fe), Ok(0x0102_0304));
    assert_eq!(m.read(0x300), 3);
}

#[test]
fn memory_refuses_addresses_past_32_bits() {
    let mut m = MMU::new();
    let far = (u32::MAX as usize).wrapping_add(1);
    if far != 0 {
        assert_eq!(m.get_u32(far), Err("Illicit memory access".to_string()));
        assert_eq!(m.get_u24(far), Err("Illicit memory access".to_string()));
        assert_eq!(m.get_u16(far), Err("Illicit memory access".to_string()));
        assert_eq!(m.write_u32(far, 1), Err("Illicit memory access".to_string()));
        assert!(!m.is_mapped(far));
    }
}

#[test]
fn console_byte_read_is_written_back() {
    // movi r0, 0x40 ; int 0xa0
    let prog = vec![0x90, 0x00, 0, 0, 0, 0x40, 0xaa, 0, 0, 0, 0xa0];
    let mut cpu = CPU::init(prog);
    assert_eq!(cpu.run(10), Ok(Event::Input));
    int_readconsole(&mut cpu, b'q');
    assert_eq!(int_writeconsole(&cpu), Ok(b'q'));
}

#[test]
fn running_in_two_goes_matches_one() {
    // movi r1, 1 ; add r1, r1 (0x11) ; add r1, r1 ; add r1, r1 ; hlt
    let prog = vec![0x90, 0x01, 0, 0, 0, 1, 0x11, 0x11, 0x11, 0x11, 0x11, 0x11, 0x6f];
    let mut once = CPU::init(prog.clone());
    assert_eq!(once.run(3), Ok(Event::Continue));
    let mut twice = CPU::init(prog);
    assert_eq!(twice.run(1), Ok(Event::Continue));
    assert_eq!(twice.resume(2), Ok(Event::Continue));
    assert_eq!(once.get_reg(1), twice.get_reg(1));
    assert_eq!(once.get_reg(1), Ok(4));
    assert_eq!(once.pc(), twice.pc());
    assert_eq!(once.pc(), 10);
}

#[test]
fn carry_is_cleared_by_an_arithmetic_step_that_fits() {
    // movi r0, 0xffffffff ; addi r0, 1 (carry) ; addi r0, 1 (no carry) ; hlt
    let prog = vec![
        0x90, 0x00, 0xff, 0xff, 0xff, 0xff, 0x12, 0x00, 0, 0, 0, 1, 0x12, 0x00, 0, 0, 0, 1, 0x6f,
    ];
    let mut cpu = loaded(prog);
    assert_eq!(cpu.decode_and_execute(), Ok(Event::Continue));
    assert_eq!(cpu.decode_and_execute(), Ok(Event::Continue));
    assert_eq!(cpu.flags(), 2);
    assert_eq!(cpu.decode_and_execute(), Ok(Event::Continue));
    assert_eq!(cpu.flags(), 0);
    assert_eq!(cpu.get_reg(0), Ok(1));
}

#[test]
fn logic_leaves_carry() {
    // movi r1, 1 ; sub r0, r1 (borrow) ; xor r1, r1 ; hlt
    let prog = vec![0x90, 0x01, 0, 0, 0, 1, 0x02, 0x01, 0x6a, 0x11, 0x6f];
    let mut cpu = CPU::init(prog);
    assert_eq!(cpu.run(10), Ok(Event::Halt));
    assert_eq!(cpu.get_reg(0), Ok(0xffff_ffff));
    assert_eq!(cpu.get_reg(1), Ok(0));
    assert_eq!(cpu.flags(), 2);
}

#[test]
fn compare_sets_greater_and_clears_stale_zero() {
    // cmp r0, r0 (ZERO) ; movi r1, 5 ; cmp r1, r0 (GREATER, ZERO cleared) ; hlt
    let prog = vec![0x79, 0x00, 0x90, 0x01, 0, 0, 0, 5, 0x79, 0x10, 0x6f];
    let mut cpu = loaded(prog);
    assert_eq!(cpu.decode_and_execute(), Ok(Event::Continue));
    assert_eq!(cpu.flags(), 1);
    assert_eq!(cpu.resume(10), Ok(Event::Halt));
    assert_eq!(cpu.flags(), 4);
}

#[test]
fn conditional_jump_backwards() {
    // nop ; cmp r0, r0 ; jeqi -3 (back to the cmp at 1)
    let prog = vec![0xff, 0x79, 0x00, 0x84, 0x80, 0, 0, 3];
    let mut cpu = loaded(prog);
    assert_eq!(cpu.resume(3), Ok(Event::Continue));
    assert_eq!(cpu.pc(), 0);
    assert_eq!(cpu.flags(), 0);
}

#[test]
fn memory_reads_zero_where_unwritten() {
    let m = MMU::new();
    assert_eq!(m.read(0x4321), 0);
    assert_eq!(m.get_u32(0x10), Ok(0));
    assert_eq!(m.get_u24(0xffff_fffe), Ok(0));
    assert_eq!(m.get_u16(0x7), Ok(0));
}
