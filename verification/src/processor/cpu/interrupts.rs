//! The interrupts the processor answers: console output and input.
use std::collections::HashMap;
use vstd::prelude::*;

use super::mmu::{pages_well_formed, store_byte};
use super::{rd8, CpuState, ExecError, CPU};

verus! {

broadcast use vstd::std_specs::hash::group_hash_axioms;

/// A handler an interrupt code can be registered to.
#[derive(Clone, Copy, Debug, PartialEq, Eq, Structural)]
pub enum InterruptHandler {
    /// Interrupt 0x80: write the byte at the address in r0 to the console.
    WriteConsole,
    /// Interrupt 0xA0: read a byte from the console into the address in r0,
    /// keeping a copy in r1.
    ReadConsole,
}

/// An interrupt that works on the four general purpose registers.
pub trait Interrupt {
    fn run(r0: u32, r1: u32, r2: u32, r3: u32) -> Result<u32, String>;
}

/// The interrupt table: 0x80 writes to the console, 0xA0 reads from it.
pub open spec fn interrupt_map() -> Map<u32, InterruptHandler> {
    map![0x80u32 => InterruptHandler::WriteConsole, 0xa0u32 => InterruptHandler::ReadConsole]
}

/// Builds the interrupt table.
pub fn build_interrupt_table() -> (map: HashMap<u32, InterruptHandler>)
    ensures
        map@ == interrupt_map(),
{
    let mut map = HashMap::new();
    let int_writecon = InterruptHandler::WriteConsole;
    let int_readcon = InterruptHandler::ReadConsole;
    map.insert(0x80u32, int_writecon);
    map.insert(0xa0u32, int_readcon);
    assert(map@ =~= interrupt_map());
    map
}

/// Interrupt 0x80: the byte at the address in r0, for the console (zero
/// where nothing was ever written).
pub fn int_writeconsole(cpu: &CPU) -> (r: Result<u8, ExecError>)
    requires
        cpu.wf(),
    ensures
        r == rd8(cpu@, cpu@.r0 as usize),
{
    let addr = match cpu.get_reg(0) {
        Ok(a) => a as usize,
        Err(e) => return Err(e),
    };
    cpu.fetch8(addr)
}

/// Interrupt 0xA0, once the console has given byte `u`: the byte is stored
/// at the address in r0 and copied into r1. The result tells whether the
/// ECHO flag (0x10) is set, so that the byte should be echoed.
pub fn int_readconsole(cpu: &mut CPU, u: u8) -> (echo: bool)
    requires
        old(cpu).wf(),
    ensures
        final(cpu).wf(),
        final(cpu).program() == old(cpu).program(),
        echo == (0x10 & old(cpu)@.fl != 0),
        final(cpu)@ == (CpuState {
            r1: u as u32,
            mem: store_byte(old(cpu)@.mem, old(cpu)@.r0 as usize, u),
            ..old(cpu)@
        }),
{
    assert(1u8 << 4u8 == 0x10) by (bit_vector);
    let echo = cpu.is_flag_set(1 << 4);
    let addr = match cpu.get_reg(0) {
        Ok(a) => a as usize,
        Err(_) => 0,
    };
    cpu.write_byte(addr, u);
    let _ = cpu.set_reg(1, u as u32);
    echo
}

/// What the console gave to interrupt 0xA0, interrupt 0x80 hands back: once
/// `int_readconsole` has stored byte `u`, the byte at the address in r0 is
/// `u`.
pub proof fn lemma_read_then_write_console(s: CpuState, u: u8)
    requires
        pages_well_formed(s.mem),
    ensures
        rd8(
            CpuState { r1: u as u32, mem: store_byte(s.mem, s.r0 as usize, u), ..s },
            s.r0 as usize,
        ) == Ok::<u8, ExecError>(u),
{
    super::mmu::lemma_store_byte_read(s.mem, s.r0 as usize, u, s.r0 as usize);
}

} // verus!
