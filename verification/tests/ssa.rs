use sfuzz::irgraph::{Flag, IRGraph};
use sfuzz::registers::Register;
use sfuzz::ssa_builder::SSABuilder;

/// A diamond: block 0 branches to blocks 1 and 2, which both jump to block 3; both sides write A2
fn diamond() -> IRGraph {
    let mut g = IRGraph::new();
    g.init_instr(0x0);
    g.addi(Register::A0, Register::Zero, 1, Flag::QWord);
    g.init_instr(0x4);
    g.branch(Register::A0, Register::A1, 0x10, 0x8, Flag::Signed);
    g.init_instr(0x8);
    g.addi(Register::A2, Register::Zero, 1, Flag::QWord);
    g.init_instr(0xc);
    g.jmp(0x18);
    g.init_instr(0x10);
    g.addi(Register::A2, Register::Zero, 2, Flag::QWord);
    g.init_instr(0x14);
    g.jmp(0x18);
    g.init_instr(0x18);
    g.add(Register::A3, Register::A2, Register::A0, Flag::QWord);
    for (pc, i) in [(0x0, 0), (0x8, 2), (0x10, 4), (0x18, 6)] {
        g.labels.insert(pc, i);
    }
    g
}

#[test]
fn control_flow_graph_of_a_diamond() {
    let g = diamond();
    let s = SSABuilder::new(&g);
    assert_eq!(s.leader_set, vec![0, 2, 4, 6]);
    assert_eq!(s.blocks.len(), 4);
    assert_eq!((s.blocks[1].start, s.blocks[1].end, s.blocks[1].label), (2, 3, 0x8));
    assert_eq!((s.blocks[3].start, s.blocks[3].end, s.blocks[3].label), (6, 6, 0x18));
    // The false side of a branch comes first
    assert_eq!(s.edges, vec![(0, 1), (0, 2), (1, 3), (2, 3)]);
    assert_eq!(s.blocks[0].succ, vec![1, 2]);
    assert_eq!(s.blocks[3].pred, vec![1, 2]);
}

#[test]
fn dominators_frontiers_and_phis_of_a_diamond() {
    let g = diamond();
    let mut s = SSABuilder::new(&g);
    s.build_ssa(&g.instrs);
    // Block 0 dominates everything; the sides dominate only themselves
    assert!(s.dom[0].iter().all(|x| *x));
    assert_eq!(s.dom[1], vec![false, true, false, false]);
    assert_eq!(s.idom, vec![None, Some(0), Some(0), Some(0)]);
    assert_eq!(s.dominance_frontier, vec![vec![], vec![3], vec![3], vec![]]);
    let a2 = Register::A2 as usize;
    let a0 = Register::A0 as usize;
    assert_eq!(s.phi_sites[a2], vec![false, false, false, true]);
    assert_eq!(s.phi_sites[a0], vec![false, false, false, false]);
}

#[test]
fn loop_header_gets_a_phi() {
    // Block 0 falls into block 1, which writes A0 and loops back to itself or leaves to block 2
    let mut g = IRGraph::new();
    g.init_instr(0x0);
    g.addi(Register::A0, Register::Zero, 0, Flag::QWord);
    g.init_instr(0x4);
    g.jmp(0x8);
    g.init_instr(0x8);
    g.addi(Register::A0, Register::A0, 1, Flag::QWord);
    g.init_instr(0xc);
    g.branch(Register::A0, Register::A1, 0x8, 0x10, Flag::Signed);
    g.init_instr(0x10);
    g.syscall();
    for (pc, i) in [(0x0, 0), (0x8, 2), (0x10, 4)] {
        g.labels.insert(pc, i);
    }
    let mut s = SSABuilder::new(&g);
    s.build_ssa(&g.instrs);
    assert_eq!(s.idom, vec![None, Some(0), Some(1)]);
    assert_eq!(s.dominance_frontier[1], vec![1]);
    assert_eq!(s.phi_sites[Register::A0 as usize], vec![false, true, false]);
}

#[test]
fn renaming_a_diamond() {
    let g = diamond();
    let mut s = SSABuilder::new(&g);
    s.build_ssa(&g.instrs);
    // Each register's definitions are numbered 1, 2, ... in program order; the phi function of
    // A2 at block 3 defines A2's third version
    assert_eq!(s.def_versions, vec![1, 0, 1, 0, 2, 0, 1]);
    let a2 = Register::A2 as usize;
    assert_eq!(s.phi_versions[a2], vec![0, 0, 0, 3]);
    assert!(s.phi_versions[Register::A0 as usize].iter().all(|v| *v == 0));
    // The zero register and immediates read version 0
    assert_eq!(
        s.use_versions,
        vec![vec![0, 0], vec![1, 0], vec![0, 0], vec![], vec![0, 0], vec![], vec![3, 1]]
    );
    assert_eq!(s.phi_args[a2][3], vec![1, 2]);
    assert!(s.phi_args[a2][0].is_empty());
    assert!(s.phi_args[Register::A0 as usize][3].is_empty());
}

#[test]
fn loop_versions_and_phi_arguments() {
    let mut g = IRGraph::new();
    g.init_instr(0x0);
    g.addi(Register::A0, Register::Zero, 0, Flag::QWord);
    g.init_instr(0x4);
    g.jmp(0x8);
    g.init_instr(0x8);
    g.addi(Register::A0, Register::A0, 1, Flag::QWord);
    g.init_instr(0xc);
    g.branch(Register::A0, Register::A1, 0x8, 0x10, Flag::Signed);
    g.init_instr(0x10);
    g.syscall();
    for (pc, i) in [(0x0, 0), (0x8, 2), (0x10, 4)] {
        g.labels.insert(pc, i);
    }
    let mut s = SSABuilder::new(&g);
    s.build_ssa(&g.instrs);
    let a0 = Register::A0 as usize;
    // A0: 1 before the loop, 2 from the phi at the loop header, 3 inside the loop
    assert_eq!(&s.def_versions[0..3], &[1, 0, 3]);
    assert_eq!(s.phi_versions[a0], vec![0, 2, 0]);
    assert_eq!(s.use_versions[2], vec![2, 0]);
    // The header is entered from block 0 and from itself
    assert_eq!(s.blocks[1].pred, vec![0, 1]);
    assert_eq!(s.phi_args[a0][1], vec![1, 3]);
}

#[test]
fn falling_through_into_a_loop() {
    // Block 0 ends without a jump and falls into block 1, a loop that exits to block 2
    let mut g = IRGraph::new();
    g.init_instr(0x0);
    g.addi(Register::A0, Register::Zero, 0, Flag::QWord);
    g.init_instr(0x4);
    g.addi(Register::A0, Register::A0, 1, Flag::QWord);
    g.init_instr(0x8);
    g.branch(Register::A0, Register::A1, 0x4, 0xc, Flag::Signed);
    g.init_instr(0xc);
    g.syscall();
    for (pc, i) in [(0x0, 0), (0x4, 1), (0xc, 3)] {
        g.labels.insert(pc, i);
    }
    let mut s = SSABuilder::new(&g);
    assert_eq!(s.edges, vec![(0, 1), (1, 2), (1, 1)]);
    assert_eq!(s.blocks[0].succ, vec![1]);
    assert_eq!(s.blocks[1].pred, vec![0, 1]);
    s.build_ssa(&g.instrs);
    assert_eq!(s.idom, vec![None, Some(0), Some(1)]);
    assert_eq!(s.dominance_frontier[1], vec![1]);
    assert_eq!(s.phi_sites[Register::A0 as usize], vec![false, true, false]);
    assert_eq!(s.phi_versions[Register::A0 as usize], vec![0, 2, 0]);
}

#[test]
fn straight_line_blocks_are_joined() {
    let mut g = IRGraph::new();
    g.init_instr(0x0);
    g.addi(Register::A0, Register::Zero, 1, Flag::QWord);
    g.init_instr(0x4);
    g.addi(Register::A1, Register::A0, 1, Flag::QWord);
    for (pc, i) in [(0x0, 0), (0x4, 1)] {
        g.labels.insert(pc, i);
    }
    let mut s = SSABuilder::new(&g);
    assert_eq!(s.edges, vec![(0, 1)]);
    s.build_ssa(&g.instrs);
    assert_eq!(s.idom, vec![None, Some(0)]);
    assert_eq!(s.use_versions[1], vec![1, 0]);
}

#[test]
fn writes_to_the_zero_register_are_not_renamed() {
    let mut g = IRGraph::new();
    g.init_instr(0x0);
    g.addi(Register::Zero, Register::A0, 1, Flag::QWord);
    g.init_instr(0x4);
    g.add(Register::A1, Register::Zero, Register::Zero, Flag::QWord);
    g.labels.insert(0x0, 0);
    let mut s = SSABuilder::new(&g);
    s.build_ssa(&g.instrs);
    assert_eq!(s.def_versions, vec![0, 1]);
    assert_eq!(s.use_versions[1], vec![0, 0]);
    assert!(s.phi_sites[Register::Zero as usize].iter().all(|x| !*x));
}

#[test]
fn block_register_sets_hold_each_register_once() {
    let mut g = IRGraph::new();
    g.init_instr(0x0);
    g.addi(Register::A0, Register::A1, 1, Flag::QWord);
    g.addi(Register::A0, Register::A0, 2, Flag::QWord);
    g.add(Register::A2, Register::A1, Register::A0, Flag::QWord);
    let b = sfuzz::ssa_builder::Block::new(0, 2, 0);
    assert_eq!(b.regs_def(&g.instrs), vec![Register::A0, Register::A2]);
    assert_eq!(b.regs_used(&g.instrs), vec![Register::A1, Register::A0]);
    let rev = b.rev_instrs(&g.instrs);
    assert_eq!(rev[0].o_reg, Some(Register::A2));
    assert_eq!(rev[2].i_reg[0], sfuzz::irgraph::Val::Reg(Register::A1));
}
