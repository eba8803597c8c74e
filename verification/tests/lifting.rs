use std::collections::BTreeMap;

use sfuzz::emulator::{Emulator, Fault, Register};
use sfuzz::elfparser::ProgramHeader;
use sfuzz::irgraph::{Flag, IRGraph, Operation, Val};
use sfuzz::riscv::Instr;

/// An emulator with the given little-endian instruction words at `base`, readable and executable
fn emu_with_code(base: usize, words: &[u32]) -> Emulator {
    let mut emu = Emulator::new(0x40000);
    let mut data = Vec::new();
    for w in words {
        data.extend_from_slice(&w.to_le_bytes());
    }
    let seg = ProgramHeader {
        seg_type: 1,
        flags: 5,
        offset: 0,
        vaddr: base,
        paddr: base,
        filesz: data.len(),
        memsz: data.len(),
        align: 0x1000,
    };
    emu.load_segment(seg, &data).unwrap();
    emu
}

#[test]
fn lift_arithmetic_and_jumps() {
    let emu = Emulator::new(0x1000);
    let mut g = IRGraph::new();
    let mut keys = BTreeMap::new();
    keys.insert(0x1004usize, 0u8);
    let instrs = [
        Instr::Addi { rd: Register::A0, rs1: Register::A1, imm: 5 },
        Instr::Jal { rd: Register::Ra, imm: 8 },
        Instr::Bne { rs1: Register::A0, rs2: Register::Zero, imm: -8, mode: 1 },
    ];
    emu.lift(&mut g, &instrs, &mut keys, 0x1000);

    assert_eq!(g.instrs.len(), 4);
    assert_eq!(g.instrs[0].op, Operation::Add);
    assert_eq!(g.instrs[0].i_reg, vec![Val::Reg(Register::A1), Val::Imm(5)]);
    assert_eq!(g.instrs[0].o_reg, Some(Register::A0));
    assert_eq!(g.instrs[0].flags, Flag::QWord);
    assert_eq!(g.instrs[0].pc, Some(0x1000));

    // jal writes the return address, then jumps; only the first carries the pc
    assert_eq!(g.instrs[1].op, Operation::Mov);
    assert_eq!(g.instrs[1].i_reg, vec![Val::Imm64(0x1008)]);
    assert_eq!(g.instrs[1].o_reg, Some(Register::Ra));
    assert_eq!(g.instrs[1].flags, Flag::Unsigned);
    assert_eq!(g.instrs[1].pc, Some(0x1004));
    assert_eq!(g.instrs[2].op, Operation::Jmp(0x100c));
    assert_eq!(g.instrs[2].pc, None);

    assert_eq!(g.instrs[3].op, Operation::Branch(0x1000, 0x100c));
    assert_eq!(g.instrs[3].flags, Flag::NEqual | Flag::Signed);
    assert_eq!(g.instrs[3].i_reg, vec![Val::Reg(Register::A0), Val::Reg(Register::Zero)]);

    // The label marks the first IR instruction of the jal
    assert_eq!(g.labels.len(), 1);
    assert_eq!(g.labels.get(&0x1004), Some(&1));
    assert_eq!(g.cur_pc, None);
}

#[test]
fn lift_jal_to_zero_register_only_jumps() {
    let emu = Emulator::new(0x1000);
    let mut g = IRGraph::new();
    let mut keys = BTreeMap::new();
    emu.lift(&mut g, &[Instr::Jal { rd: Register::Zero, imm: -0x94 }], &mut keys, 0x2000);
    assert_eq!(g.instrs.len(), 1);
    assert_eq!(g.instrs[0].op, Operation::Jmp(0x2000 - 0x94));
    assert_eq!(g.instrs[0].pc, Some(0x2000));
}

#[test]
fn lift_auipc_lui_loads_and_stores() {
    let emu = Emulator::new(0x1000);
    let mut g = IRGraph::new();
    let mut keys = BTreeMap::new();
    let instrs = [
        Instr::Auipc { rd: Register::Gp, imm: 0x14000 },
        Instr::Lui { rd: Register::A2, imm: -0x4000 },
        Instr::Lbu { rd: Register::A1, rs1: Register::S10, imm: 3, mode: 4 },
        Instr::Sd { rs1: Register::Sp, rs2: Register::Ra, imm: 24, mode: 3 },
        Instr::Sltu { rd: Register::T0, rs1: Register::T1, rs2: Register::T2 },
        Instr::Ecall,
    ];
    emu.lift(&mut g, &instrs, &mut keys, 0x100);
    assert_eq!(g.instrs.len(), 6);
    assert_eq!(g.instrs[0].i_reg, vec![Val::Imm64(0x14100)]);
    assert_eq!(g.instrs[1].op, Operation::Mov);
    assert_eq!(g.instrs[1].i_reg, vec![Val::Imm(-0x4000)]);
    assert_eq!(g.instrs[1].flags, Flag::Signed);
    assert_eq!(g.instrs[2].op, Operation::Load);
    assert_eq!(g.instrs[2].flags, Flag::Byte | Flag::Unsigned);
    assert_eq!(g.instrs[3].op, Operation::Store);
    assert_eq!(g.instrs[3].i_reg, vec![Val::Reg(Register::Sp), Val::Reg(Register::Ra), Val::Imm(24)]);
    assert_eq!(g.instrs[3].flags, Flag::QWord);
    assert_eq!(g.instrs[4].op, Operation::Slt);
    assert_eq!(g.instrs[4].flags, Flag::Unsigned);
    assert_eq!(g.instrs[5].op, Operation::Syscall);
    assert_eq!(g.instrs[5].pc, Some(0x114));
}

#[test]
fn labels_of_jumps_and_branches() {
    let emu = Emulator::new(0x1000);
    let instrs = [
        Instr::Addi { rd: Register::A0, rs1: Register::A1, imm: 5 },
        Instr::Jal { rd: Register::Ra, imm: 0x40 },
        Instr::Beq { rs1: Register::A0, rs2: Register::A1, imm: -4, mode: 0 },
    ];
    let labels = emu.extract_labels(0x1000, &instrs);
    let keys: Vec<usize> = labels.keys().copied().collect();
    assert_eq!(keys, vec![0x1004, 0x1008 + 4, 0x1044]);
    assert!(labels.values().all(|v| *v == 0));
}

#[test]
fn lift_a_function_from_memory() {
    // addi a0, a0, 1 ; beq a0, zero, -4 ; ecall
    let mut emu = emu_with_code(0x1000, &[0x00150513, 0xfe050ee3, 0x00000073]);
    emu.functions.insert(0x1000, (12, "f".to_string()));
    let g = emu.lift_func(0x1000).unwrap();
    assert_eq!(g.instrs.len(), 3);
    assert_eq!(g.instrs[0].op, Operation::Add);
    assert_eq!(g.instrs[1].op, Operation::Branch(0x1000, 0x1008));
    assert_eq!(g.instrs[2].op, Operation::Syscall);
    // The entry and both targets of the branch are labels
    assert_eq!(g.labels.get(&0x1000), Some(&0));
    assert_eq!(g.labels.get(&0x1008), Some(&2));
    assert_eq!(g.labels.len(), 2);
    let leaders = g.get_leaders();
    assert_eq!(leaders.len(), 2);
    assert!(leaders.contains_key(&0x1000) && leaders.contains_key(&0x1008));
}

#[test]
fn lifting_an_unknown_function_faults() {
    let emu = emu_with_code(0x1000, &[0x00150513]);
    assert!(matches!(emu.lift_func(0x1000), Err(Fault::ExecFault(0x1000))));
}

#[test]
fn lifting_an_unsupported_instruction_faults() {
    // mul s4, s1, a5
    let mut emu = emu_with_code(0x1000, &[0x00150513, 0x2f48a33]);
    emu.functions.insert(0x1000, (8, "g".to_string()));
    assert!(matches!(emu.lift_func(0x1000), Err(Fault::ExecFault(0x1000))));
}

#[test]
fn lifting_unreadable_code_faults() {
    let mut emu = Emulator::new(0x4000);
    emu.functions.insert(0x1000, (4, "h".to_string()));
    assert!(matches!(emu.lift_func(0x1000), Err(Fault::ExecFault(0x1000))));
}
