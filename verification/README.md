# Deadbolt

An assembler and software processor for the small Deadbolt instruction set,
written in Verus: the assembler, the instruction tables and both processor
designs are verified against specifications in `src/`.

- `src/text.rs`: splitting, trimming and searching lines of source as bytes.
- `src/translation.rs`: the opcode and mnemonic tables, hexadecimal numbers,
  labels, and the assembly of one line into machine words.
- `src/compile.rs`: the two passes over a source file and the binary image.
- `src/processor.rs`: the instruction set and the first processor design,
  which runs fixed four-byte words straight from the image.
- `src/processor/cpu.rs` with `cpu/mmu.rs` and `cpu/interrupts.rs`: the
  processor with paged memory, variable-length instructions and console
  interrupts; each step reports what it needs from the console.
- `app/`: the command line (`compile -f FILE -o OUT`, `run -i IMAGE`), file
  access, the console and logging.
- `tests/`: tests of the library on concrete programs.
