use rand_xoshiro::rand_core::SeedableRng;
use rand_xoshiro::Xoroshiro64Star;

use sfuzz::config::{calibrated_timeout, check_cli, finish_energy, Cli, CliError, CovMethod};
use sfuzz::emulator::{Emulator, Fault, Register};
use sfuzz::hooks::{calloc_hook, free_hook, malloc_hook};
use sfuzz::irgraph::{Flag, IRGraph, Instruction, Operation, Val};
use sfuzz::mutator::{apply_mutation, Mutator};
use sfuzz::pretty_printing::{log_line, Blue, Green, LogType, Red};
use sfuzz::shared::Shared;
use sfuzz::ssa_builder::Block;

fn cli(app: &[&str]) -> Cli {
    Cli {
        input_dir: "in".to_string(),
        output_dir: "out".to_string(),
        version: false,
        help: false,
        num_threads: 1,
        no_perm_checks: false,
        extension: None,
        debug_print: false,
        snapshot: None,
        override_timeout: None,
        full_trace: false,
        cov_method: "edge".to_string(),
        fuzzed_app: app.iter().map(|s| s.to_string()).collect(),
    }
}

fn message(r: Result<sfuzz::config::Settings, CliError>) -> String {
    match r {
        Err(CliError::Message(m)) => m,
        _ => panic!("expected a message"),
    }
}

#[test]
fn command_line_settings() {
    let mut args = cli(&["./target", "-x", "@@"]);
    args.snapshot = Some("0x10400".to_string());
    args.cov_method = "block".to_string();
    let s = check_cli(&args, true, true).unwrap();
    assert_eq!(s.fuzz_arg_index, 2);
    assert_eq!(s.snapshot_addr, Some(0x10400));
    assert_eq!(s.cov_method, CovMethod::Block);

    assert_eq!(message(check_cli(&cli(&[]), true, true)), "You need to specify the target to be fuzzed");
    assert_eq!(message(check_cli(&cli(&["./t", "@@"]), false, true)), "You need to specify a valid input directory");
    assert_eq!(message(check_cli(&cli(&["./t", "@@"]), true, false)), "You need to specify a valid output directory");
    assert!(message(check_cli(&cli(&["./t"]), true, true)).starts_with("You need to specify how the fuzz-case input"));

    let mut bad = cli(&["./t", "@@"]);
    bad.snapshot = Some("zzz".to_string());
    assert!(matches!(check_cli(&bad, true, true), Err(CliError::BadSnapshot)));
    let mut bad = cli(&["./t", "@@"]);
    bad.cov_method = "path".to_string();
    assert!(message(check_cli(&bad, true, true)).starts_with("You're specified coverage method"));
    let mut bad = cli(&["./t", "@@"]);
    bad.full_trace = true;
    bad.num_threads = 4;
    assert_eq!(message(check_cli(&bad, true, true)), "Full Trace mode only works when running single-threaded");
}

#[test]
fn colored_output() {
    assert_eq!(Green("ok").to_string(), "\x1B[32mok\x1B[0m");
    assert_eq!(Blue("[-]").to_string(), "\x1B[34m[-]\x1B[0m");
    assert_eq!(Red("x").to_string(), "\x1B[31mx\x1B[0m");
    assert_eq!(log_line(LogType::Success, "hooked"), "\x1B[32m[+]\x1B[0m hooked");
    assert_eq!(log_line(LogType::Failure, "no"), "\x1B[31m[!]\x1B[0m no");
}

#[test]
fn mutations_are_few_and_small() {
    let mut m = Mutator::new(Xoroshiro64Star::seed_from_u64(7));
    for _ in 0..100 {
        let orig = vec![0xffu8; 64];
        let mut input = orig.clone();
        m.mutate(&mut input);
        assert_eq!(input.len(), 64);
        let changed = input.iter().filter(|b| **b != 0xff).count();
        assert!(changed <= 7);
    }
}

#[test]
fn code_cache_maps_addresses() {
    let mut s = Shared::new(0x100);
    assert_eq!(s.jit.1, 0);
    assert_eq!(s.lookup.len(), 0);
    s.lookup = vec![0; 16];
    let a = s.add_jitblock(&[0x90, 0xc3], 3);
    assert_eq!(a, s.base);
    let b = s.add_jitblock(&[0xcc], 5);
    assert_eq!(b, s.base + 2);
    assert_eq!(s.lookup(3), a);
    assert_eq!(s.lookup(5), b);
    assert_eq!(&s.jit.0[0..3], &[0x90, 0xc3, 0xcc]);
    assert_eq!(s.jit.1, 3);
}

#[test]
fn allocation_hooks() {
    let mut emu = Emulator::new(0x100000);
    emu.set_reg(Register::Ra, 0x4444);
    emu.set_reg(Register::A1, 0x40);
    malloc_hook(&mut emu).unwrap();
    let p = emu.get_reg(Register::A0);
    assert_eq!(emu.get_reg(Register::Pc), 0x4444);
    assert!(p > 0);
    emu.set_reg(Register::A1, 4);
    emu.set_reg(Register::A2, 8);
    calloc_hook(&mut emu).unwrap();
    let q = emu.get_reg(Register::A0);
    assert!(q > p);
    emu.set_reg(Register::A1, p);
    free_hook(&mut emu).unwrap();
    assert_eq!(free_hook(&mut emu), Err(Fault::InvalidFree(p)));
    emu.set_reg(Register::A1, 0x100000);
    assert_eq!(malloc_hook(&mut emu), Err(Fault::OOM));
}

#[test]
fn ir_builders() {
    let mut g = IRGraph::new();
    g.init_instr(0x40);
    g.set_label(0x40);
    g.addi(Register::A0, Register::A0, 3, Flag::QWord);
    g.store(Register::Sp, Register::A0, -8, Flag::DWord);
    g.init_instr(0x48);
    g.jmp(0x40);
    assert_eq!(g.instrs.len(), 3);
    assert_eq!(g.instrs[0].pc, Some(0x40));
    assert_eq!(g.instrs[1].pc, None);
    assert_eq!(g.instrs[1].i_reg, vec![Val::Reg(Register::Sp), Val::Reg(Register::A0), Val::Imm(-8)]);
    assert!(g.instrs[2].is_jump());
    assert!(!g.instrs[0].is_jump());
    assert_eq!(g.labels.get(&0x40), Some(&0));
    let leaders = g.get_leaders();
    assert_eq!(leaders.len(), 1);
    assert_eq!(leaders.get(&0x40), Some(&0));
    let d: Instruction = Instruction::default();
    assert_eq!(d.op, Operation::Undefined);
}

#[test]
fn block_views_of_the_instructions() {
    let mut g = IRGraph::new();
    g.init_instr(0x10);
    g.addi(Register::A0, Register::A1, 3, Flag::QWord);
    g.store(Register::Sp, Register::A0, -8, Flag::DWord);
    g.add(Register::A2, Register::A0, Register::A1, Flag::QWord);
    g.jmp(0x10);
    let b = Block::new(1, 2, 0);
    assert_eq!(b.index, 0);
    let body = b.instrs(&g.instrs);
    assert_eq!(body.len(), 2);
    assert_eq!(body[0].op, Operation::Store);
    assert_eq!(body[1].op, Operation::Add);
    let rev = b.rev_instrs(&g.instrs);
    assert_eq!(rev.len(), 2);
    assert_eq!(rev[0].op, Operation::Add);
    assert_eq!(rev[1].op, Operation::Store);
    // Each register once, no immediates
    assert_eq!(b.regs_used(&g.instrs), vec![Register::Sp, Register::A0, Register::A1]);
    assert_eq!(b.regs_def(&g.instrs), vec![Register::A2]);
    let empty = Block::new(2, 1, 1);
    assert!(empty.instrs(&g.instrs).is_empty());
}

#[test]
fn crash_kinds() {
    assert_eq!(Fault::ReadFault(0x10).crash_kind(), Some(("read", 0x10)));
    assert_eq!(Fault::WriteFault(0x20).crash_kind(), Some(("write", 0x20)));
    assert_eq!(Fault::ExecFault(0x30).crash_kind(), Some(("exec", 0x30)));
    assert_eq!(Fault::OutOfBounds(0x40).crash_kind(), Some(("oob", 0x40)));
    assert_eq!(Fault::Timeout.crash_kind(), None);
    assert_eq!(Fault::Exit.crash_kind(), None);
}

#[test]
fn calibrated_timeout_is_five_times_the_mean() {
    assert_eq!(calibrated_timeout(1000, 3), 1665);
    assert_eq!(calibrated_timeout(40, 4), 50);
    assert_eq!(calibrated_timeout(0, 7), 0);
}

#[test]
fn apply_mutation_writes_each_round() {
    let mut input = vec![1u8, 2, 3, 4];
    // 10 % 8 == 2 rounds: position 5 % 4 == 1 gets 300 % 255 == 45, then position 0 gets 254
    apply_mutation(&mut input, 10, &[(5, 300), (8, 254), (3, 9)]);
    assert_eq!(input, vec![254, 45, 3, 4]);
    let mut same = vec![7u8, 7];
    apply_mutation(&mut same, 16, &[]);
    assert_eq!(same, vec![7, 7]);
}

#[test]
fn energy_rises_a_tenth_per_find_and_stays_in_range() {
    // 80000 raised twice: 88000, then 96800; less 300 crashes
    assert_eq!(finish_energy(80000, 1, 1, 300), Some(96500));
    assert_eq!(finish_energy(80000, 0, 0, 0), Some(80000));
    // Held within 20000 ..= 150000
    assert_eq!(finish_energy(140000, 1, 0, 0), Some(150000));
    assert_eq!(finish_energy(-5000, 3, 0, 0), Some(20000));
    assert_eq!(finish_energy(30000, 0, 0, 25000), Some(20000));
    // Negative energy is divided rounding towards zero: -15 + -1 = -16
    assert_eq!(finish_energy(-15, 1, 0, 0), Some(20000));
    // Raising it far enough overflows
    assert_eq!(finish_energy(80000, 1000, 0, 0), None);
    assert_eq!(finish_energy(isize::MIN + 5, 0, 0, 10), Some(20000));
}
