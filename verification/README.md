# sfuzz

A RISC-V to x86_64 JIT-based fuzzer, with its core written in Verus and proved against
its contracts.

## Layout

- `src/` — the verified library:
  - `riscv` decodes 32-bit RISC-V words into instructions;
  - `elfparser` and `loader` read ELF headers, map segments and collect function symbols;
  - `mmu` is the byte-permission memory with its allocator, dirty tracking and resets;
  - `registers`, `emulator`, `syscalls` and `hooks` hold the guest state, lift guest code
    into the IR of `irgraph`, and act on each exit of compiled code; `stack` lays out the
    guest's stack and arguments;
  - `ssa_builder` builds the control flow graph of a lifted function (jump, branch and
    fall-through edges) and converts it to single static assignment form: dominators,
    immediate dominators, dominance frontiers, phi placement at iterated frontiers, and
    renaming. The result is kept in tables beside the instructions, which are not rewritten:
    `phi_sites` says which block starts with a phi function for which register,
    `phi_versions` and `phi_args` give each phi function's version and arguments, and
    `def_versions` and `use_versions` give the version each instruction defines and reads.
    The definitions of each register (the zero register excepted) are numbered 1 to n in
    program order;
  - `jit` lowers IR to an x86 instruction model, and `labels` proves that every jump in the
    result lands on exactly one bound label; `shared` is the code cache the threads share;
  - `ir_display` prints IR, `trace` prints register traces, `config` checks the command
    line, `mutator` mutates inputs, `program_generator` writes random C programs for
    testing the fuzzer.
- `tests/` — tests of the library on concrete values.
- `app/` — the program around the library: command line, file I/O, threads, statistics,
  machine-code encoding and the loop that enters compiled code.
