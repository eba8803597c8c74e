use std::collections::HashMap;

use sfuzz::config::CovMethod;
use sfuzz::emulator::ExitType;
use sfuzz::irgraph::{Flag, IRGraph};
use sfuzz::jit::{
    compile, compile_lib, guest_jump_code, is_compilable, reg_slot, CompileInputs, Cond, Gpr, JitOptions, LibFuncs,
    Mem, MemSize, Op1, Op2, Opnd, Width, X86Instr,
};
use sfuzz::registers::Register;

fn r64(g: Gpr) -> Opnd {
    Opnd::Reg(g, Width::W64)
}

fn plain() -> JitOptions {
    JitOptions { cov_method: CovMethod::Disabled, full_trace: false, no_perm_checks: false, compare_cov: false }
}

fn inputs(mem_size: usize, leaders: &[usize]) -> CompileInputs {
    let mut l = HashMap::new();
    for (i, p) in leaders.iter().enumerate() {
        l.insert(*p, i);
    }
    CompileInputs { mem_size, leaders: l }
}

/// addi a0, a1, 5 at 0x1000, followed by a jump to 0x2000
fn small_graph() -> IRGraph {
    let mut g = IRGraph::new();
    g.init_instr(0x1000);
    g.addi(Register::A0, Register::A1, 5, Flag::QWord);
    g.init_instr(0x1004);
    g.jmp(0x2000);
    g
}

#[test]
fn register_slots_are_eight_bytes_apart() {
    let slot = reg_slot(Register::A0);
    assert_eq!(slot, Opnd::Mem(Mem { size: MemSize::Any, base: Gpr::R14, index: None, scale: 1, disp: 80 }));
}

#[test]
fn strlen_code_counts_and_returns() {
    let code = compile_lib(LibFuncs::STRLEN);
    assert_eq!(code.len(), 14);
    assert_eq!(code[0], X86Instr::Op2(Op2::Mov, r64(Gpr::Rbx), reg_slot(Register::A0)));
    assert_eq!(code[7], X86Instr::Jcc(Cond::Nz, 0));
    assert_eq!(code[9], X86Instr::Op2(Op2::Mov, reg_slot(Register::A0), r64(Gpr::Rax)));
    assert_eq!(code[13], X86Instr::Op1(Op1::Jmp, r64(Gpr::Rbx)));
}

#[test]
fn strcmp_code_binds_its_labels() {
    let code = compile_lib(LibFuncs::STRCMP);
    for l in 0..4usize {
        let bound = code.iter().filter(|i| **i == X86Instr::Label(l)).count();
        assert_eq!(bound, 1);
    }
    assert_eq!(code.iter().filter(|i| matches!(i, X86Instr::Op1(Op1::Jmp, _))).count(), 3);
}

#[test]
fn known_target_is_a_direct_jump() {
    let code = guest_jump_code(Some(0xdead0000), 0x2000, 7);
    assert_eq!(code, vec![
        X86Instr::Op2(Op2::Mov, r64(Gpr::Rbx), Opnd::U64(0xdead0000)),
        X86Instr::Op1(Op1::Jmp, r64(Gpr::Rbx)),
    ]);
}

#[test]
fn unknown_target_goes_through_the_table() {
    let code = guest_jump_code(None, 0x2000, 7);
    assert_eq!(code.len(), 8);
    assert_eq!(code[0], X86Instr::Op2(Op2::Mov, r64(Gpr::Rbx),
        Opnd::Mem(Mem { size: MemSize::Any, base: Gpr::R15, index: None, scale: 1, disp: 0x4000 })));
    assert_eq!(code[2], X86Instr::Jcc(Cond::Z, 7));
    assert_eq!(code[4], X86Instr::Label(7));
    assert_eq!(code[5], X86Instr::Op2(Op2::Mov, r64(Gpr::Rax), Opnd::U64(1)));
    assert_eq!(code[6], X86Instr::Op2(Op2::Mov, r64(Gpr::Rcx), Opnd::U64(0x2000)));
    assert_eq!(code[7], X86Instr::Ret);
}

#[test]
fn compile_small_function() {
    let g = small_graph();
    let lib = HashMap::new();
    let mut exits = HashMap::new();
    let inp = inputs(0x10000, &[]);
    assert!(is_compilable(&g, false, &lib, &exits, inp.mem_size));
    let code = compile(&g, false, &lib, &inp, &mut exits, &plain());
    assert_eq!(code, vec![
        X86Instr::Mark(0x1000),
        X86Instr::Op2(Op2::Add, r64(Gpr::Rsi), Opnd::I32(1)),
        X86Instr::Op2(Op2::Mov, r64(Gpr::Rbx), reg_slot(Register::A1)),
        X86Instr::Op2(Op2::Add, r64(Gpr::Rbx), Opnd::I32(5)),
        X86Instr::Op2(Op2::Mov, reg_slot(Register::A0), r64(Gpr::Rbx)),
        X86Instr::Mark(0x1004),
        X86Instr::Op2(Op2::Add, r64(Gpr::Rsi), Opnd::I32(1)),
        X86Instr::GuestJump(0x2000, 20),
    ]);
}

#[test]
fn hooked_function_leaves_the_jit() {
    let g = small_graph();
    let lib = HashMap::new();
    let mut exits = HashMap::new();
    let code = compile(&g, true, &lib, &inputs(0x10000, &[]), &mut exits, &plain());
    assert_eq!(code, vec![
        X86Instr::Op2(Op2::Mov, r64(Gpr::Rax), Opnd::U64(3)),
        X86Instr::Op2(Op2::Mov, r64(Gpr::Rcx), Opnd::U64(0x1000)),
        X86Instr::Ret,
    ]);
}

#[test]
fn library_function_is_replaced() {
    let g = small_graph();
    let mut lib = HashMap::new();
    lib.insert(0x1000usize, LibFuncs::STRLEN);
    let mut exits = HashMap::new();
    let code = compile(&g, false, &lib, &inputs(0x10000, &[]), &mut exits, &plain());
    assert_eq!(code, compile_lib(LibFuncs::STRLEN));
}

#[test]
fn snapshot_is_consumed() {
    let g = small_graph();
    let lib = HashMap::new();
    let mut exits = HashMap::new();
    exits.insert(0x1004usize, ExitType::Snapshot);
    let code = compile(&g, false, &lib, &inputs(0x10000, &[]), &mut exits, &plain());
    assert!(exits.is_empty());
    assert!(code.contains(&X86Instr::Op2(Op2::Sub, r64(Gpr::Rbx), Opnd::SnapshotOffset(0x1004))));
    assert!(code.contains(&X86Instr::Call(19)));
    assert!(code.contains(&X86Instr::Label(19)));
}

#[test]
fn other_exit_conditions_are_refused() {
    let g = small_graph();
    let lib = HashMap::new();
    let mut exits = HashMap::new();
    exits.insert(0x1004usize, ExitType::Success);
    assert!(!is_compilable(&g, false, &lib, &exits, 0x10000));
}

#[test]
fn leaders_count_coverage_and_check_the_timeout() {
    let g = small_graph();
    let lib = HashMap::new();
    let mut exits = HashMap::new();
    let opts = JitOptions { cov_method: CovMethod::Block, ..plain() };
    let code = compile(&g, false, &lib, &inputs(0x10000, &[0x1000]), &mut exits, &opts);
    assert_eq!(code[1], X86Instr::Op2(Op2::Mov, r64(Gpr::Rbx), Opnd::U64(0x1000)));
    assert!(code.contains(&X86Instr::Op2(Op2::Mov, r64(Gpr::Rcx), Opnd::TimeoutAddr)));
    assert!(code.contains(&X86Instr::Op2(Op2::Mov, r64(Gpr::Rax), Opnd::U64(7))));
    assert!(code.contains(&X86Instr::Label(1)));
    assert!(code.contains(&X86Instr::Label(2)));
}

#[test]
fn loads_check_bounds_and_permissions() {
    let mut g = IRGraph::new();
    g.init_instr(0x1000);
    g.load(Register::A0, Register::Sp, 16, Flag::Unsigned | Flag::Word);
    let lib = HashMap::new();
    let mut exits = HashMap::new();
    let code = compile(&g, false, &lib, &inputs(0x10000, &[]), &mut exits, &plain());
    assert!(code.contains(&X86Instr::Op2(Op2::Cmp, r64(Gpr::Rbx), Opnd::I32(0x10000 - 8))));
    // read permission repeated in both bytes
    assert!(code.contains(&X86Instr::Op2(Op2::Mov, r64(Gpr::Rcx), Opnd::U64(0x0404))));
    assert!(code.contains(&X86Instr::Op2(Op2::Movzx, r64(Gpr::Rcx),
        Opnd::Mem(Mem { size: MemSize::Word, base: Gpr::Rbx, index: Some(Gpr::R13), scale: 1, disp: 0 }))));
    assert_eq!(*code.last().unwrap(), X86Instr::Op2(Op2::Mov, reg_slot(Register::A0), r64(Gpr::Rcx)));
}

#[test]
fn stores_mark_pages_dirty() {
    let mut g = IRGraph::new();
    g.init_instr(0x1000);
    g.store(Register::Sp, Register::A0, 8, Flag::DWord);
    let lib = HashMap::new();
    let mut exits = HashMap::new();
    let opts = JitOptions { no_perm_checks: true, ..plain() };
    let code = compile(&g, false, &lib, &inputs(0x10000, &[]), &mut exits, &opts);
    assert!(code.contains(&X86Instr::JmpLabel(4)));
    assert!(code.contains(&X86Instr::Op2(Op2::Shr, r64(Gpr::Rcx), Opnd::I32(12))));
    assert_eq!(*code.last().unwrap(), X86Instr::Op2(Op2::Mov,
        Opnd::Mem(Mem { size: MemSize::DWord, base: Gpr::R13, index: Some(Gpr::Rbx), scale: 1, disp: 0 }),
        Opnd::Reg(Gpr::Rcx, Width::W32)));
}

#[test]
fn equality_branch_with_compare_coverage_checks_each_byte() {
    let mut g = IRGraph::new();
    g.init_instr(0x1000);
    g.branch(Register::A0, Register::A1, 0x1100, 0x1004, Flag::Signed | Flag::Equal);
    let lib = HashMap::new();
    let mut exits = HashMap::new();
    let opts = JitOptions { compare_cov: true, ..plain() };
    let code = compile(&g, false, &lib, &inputs(0x10000, &[]), &mut exits, &opts);
    let checks = code.iter().filter(|i| matches!(i, X86Instr::Jcc(Cond::Ne, 4))).count();
    assert_eq!(checks, 8);
    for b in 0..8usize {
        assert!(code.contains(&X86Instr::Op2(Op2::Mov, r64(Gpr::Rdx), Opnd::CmpCovBit(0, b))));
    }
    assert!(code.contains(&X86Instr::Op2(Op2::Mov, r64(Gpr::Rbx),
        Opnd::Mem(Mem { size: MemSize::Any, base: Gpr::R15, index: None, scale: 1, disp: 0x2200 }))));
}

#[test]
fn unsupported_operations_are_refused() {
    let mut g = IRGraph::new();
    g.init_instr(0x1000);
    g.add(Register::A0, Register::A1, Register::A2, Flag::Byte);
    let lib = HashMap::new();
    let exits = HashMap::new();
    assert!(!is_compilable(&g, false, &lib, &exits, 0x10000));
}

/// Every label a piece of code jumps to is bound exactly once in it
fn labels_resolved(code: &[X86Instr]) -> bool {
    let mut bound: Vec<usize> = Vec::new();
    for i in code {
        if let X86Instr::Label(l) = i {
            if bound.contains(l) {
                return false;
            }
            bound.push(*l);
        }
    }
    code.iter().all(|i| match i {
        X86Instr::Jcc(_, l) | X86Instr::JmpLabel(l) | X86Instr::Call(l) => bound.contains(l),
        X86Instr::GuestJump(_, l) => !bound.contains(l),
        _ => true,
    })
}

#[test]
fn every_jump_target_is_bound_once() {
    let mut g = IRGraph::new();
    g.init_instr(0x1000);
    g.branch(Register::A0, Register::A1, 0x1100, 0x1004, Flag::Signed | Flag::Equal);
    g.init_instr(0x1004);
    g.load(Register::A0, Register::Sp, 16, Flag::QWord);
    g.store(Register::Sp, Register::A0, 8, Flag::Byte);
    g.init_instr(0x1008);
    g.jmp_offset(Register::Ra, 0);
    g.init_instr(0x100c);
    g.jmp(0x3000);
    let lib = HashMap::new();
    let mut exits = HashMap::new();
    exits.insert(0x1004usize, ExitType::Snapshot);
    let opts = JitOptions { cov_method: CovMethod::Edge, full_trace: true, no_perm_checks: false, compare_cov: true };
    let code = compile(&g, false, &lib, &inputs(0x10000, &[0x1000, 0x1008]), &mut exits, &opts);
    assert!(labels_resolved(&code));
    assert!(labels_resolved(&compile_lib(LibFuncs::STRCMP)));
    assert!(labels_resolved(&guest_jump_code(None, 0x3000, 60)));
}
