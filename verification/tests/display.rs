use sfuzz::irgraph::{Flag, IRGraph, Val};
use sfuzz::registers::Register;

#[test]
fn arithmetic_instruction_text() {
    let mut g = IRGraph::new();
    g.init_instr(0x1000);
    g.addi(Register::A0, Register::A1, 5, Flag::QWord);
    let i = &g.instrs[0];
    assert!(i.is_printable());
    assert_eq!(i.to_string(), "0x001000  A0 = A1 + 5");
}

#[test]
fn shift_and_compare_text() {
    let mut g = IRGraph::new();
    g.sari(Register::T0, Register::T1, 3, Flag::DWord);
    g.slt(Register::A2, Register::A3, Register::A4, Flag::Signed);
    assert_eq!(g.instrs[0].to_string(), "0x000000  T0 = T1 >> 3 [A]");
    assert_eq!(g.instrs[1].to_string(), "0x000000  A2 = A3 < A4 ? 1 : 0");
}

#[test]
fn branch_and_jump_text() {
    let mut g = IRGraph::new();
    g.init_instr(0x10a0);
    g.branch(Register::A0, Register::A1, 0x1100, 0x10a4, Flag::Signed | Flag::Less | Flag::Equal);
    g.init_instr(0x10a4);
    g.jmp(0x2abc);
    g.jmp_offset(Register::Ra, -8);
    assert_eq!(g.instrs[0].to_string(), "0x0010A0  if A0 <= A1 (0x10A4, 0x1100)");
    assert_eq!(g.instrs[1].to_string(), "0x0010A4  Jmp 0x2abc");
    assert_eq!(g.instrs[2].to_string(), "0x000000  Jmp (Reg(Ra) + -0x8)");
}

#[test]
fn memory_instruction_text() {
    let mut g = IRGraph::new();
    g.init_instr(0x1234);
    g.load(Register::A0, Register::Sp, -16, Flag::Signed | Flag::DWord);
    g.store(Register::Sp, Register::A1, 8, Flag::QWord);
    g.syscall();
    assert_eq!(g.instrs[0].to_string(), "0x001234  A0 = [Sp+-16]");
    assert_eq!(g.instrs[1].to_string(), "0x000000  [Sp+8] = A1");
    assert_eq!(g.instrs[2].to_string(), "0x000000  Syscall");
}

#[test]
fn values_print_plainly_and_with_kind() {
    assert_eq!(Val::Reg(Register::S11).to_string(), "S11");
    assert_eq!(Val::Imm(-42).to_string(), "-42");
    assert_eq!(Val::Imm64(1 << 40).to_string(), "1099511627776");
    assert_eq!(Val::Imm(7).debug_text(), "Imm(7)");
    assert_eq!(Register::Pc.name(), "Pc");
}

#[test]
fn unfinished_branch_flags_are_not_printable() {
    let mut g = IRGraph::new();
    g.branch(Register::A0, Register::A1, 0x1100, 0x10a4, Flag::Signed);
    assert!(!g.instrs[0].is_printable());
}
