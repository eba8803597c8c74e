use sfuzz::emulator::{Emulator, Fault, Register};
use sfuzz::mmu::Perms;
use sfuzz::stack::{ARG_SIZE, STACK_SIZE};

fn word_at(emu: &Emulator, addr: usize) -> u64 {
    let mut b = [0u8; 8];
    b.copy_from_slice(&emu.memory.memory[addr..addr + 8]);
    u64::from_le_bytes(b)
}

#[test]
fn push_writes_little_endian_below_the_stack_pointer() {
    let mut emu = Emulator::new(8 * 1024 * 1024);
    let stack = emu.memory.allocate(0x100, Perms::READ | Perms::WRITE).unwrap();
    emu.set_reg(Register::Sp, stack + 0x100);
    assert_eq!(emu.push(0x1122_3344_5566_7788), Ok(()));
    assert_eq!(emu.get_reg(Register::Sp), stack + 0xf8);
    assert_eq!(&emu.memory.memory[stack + 0xf8..stack + 0x100], &[0x88, 0x77, 0x66, 0x55, 0x44, 0x33, 0x22, 0x11]);
}

#[test]
fn push_into_unwritable_memory_faults_and_keeps_the_stack_pointer() {
    let mut emu = Emulator::new(8 * 1024 * 1024);
    emu.set_reg(Register::Sp, 0x1000);
    assert_eq!(emu.push(7), Err(Fault::WriteFault(0xff8)));
    assert_eq!(emu.get_reg(Register::Sp), 0x1000);
    assert!(emu.memory.memory[0xff8..0x1000].iter().all(|b| *b == 0));
}

#[test]
fn initial_stack_holds_argc_argv_and_empty_vectors() {
    let mut emu = Emulator::new(8 * 1024 * 1024);
    let stack = emu.memory.allocate(0x1000, Perms::READ | Perms::WRITE).unwrap();
    let top = stack + 0x1000;
    emu.set_reg(Register::Sp, top);
    assert_eq!(emu.push_initial_stack(&vec![0xaaaa, 0xbbbb]), Ok(()));
    let sp = emu.get_reg(Register::Sp);
    assert_eq!(sp, top - 8 * 6);
    let words: Vec<u64> = (0..6).map(|k| word_at(&emu, sp + 8 * k)).collect();
    assert_eq!(words, vec![2, 0xaaaa, 0xbbbb, 0, 0, 0]);
}

#[test]
fn initial_stack_reports_the_first_unwritable_byte() {
    let mut emu = Emulator::new(8 * 1024 * 1024);
    let stack = emu.memory.allocate(0x10, Perms::READ | Perms::WRITE).unwrap();
    // Only the two words below the top are writable; the third push meets the size field
    emu.set_reg(Register::Sp, stack + 0x10);
    let r = emu.push_initial_stack(&vec![]);
    assert_eq!(r, Err(Fault::WriteFault(stack - 8)));
}

#[test]
fn setup_stack_lays_out_arguments_and_pointers() {
    let mut emu = Emulator::new(8 * 1024 * 1024);
    let args = vec!["./target".to_string(), "fuzz_input".to_string()];
    let stack = emu.memory.alloc_addr + 8;
    assert_eq!(emu.setup_stack(&args), Ok(()));

    let top = stack + STACK_SIZE - 8;
    let sp = emu.get_reg(Register::Sp);
    assert_eq!(sp, top - 8 * 6);

    // Argument chunks follow the stack chunk, 80 bytes apart
    let first = stack + STACK_SIZE + 16;
    assert_eq!(word_at(&emu, sp), 2);
    assert_eq!(word_at(&emu, sp + 8), first as u64);
    assert_eq!(word_at(&emu, sp + 16), (first + 80) as u64);
    assert_eq!(word_at(&emu, sp + 24), 0);
    assert_eq!(word_at(&emu, sp + 32), 0);
    assert_eq!(word_at(&emu, sp + 40), 0);
    assert_eq!(&emu.memory.memory[first..first + 8], b"./target");
    assert_eq!(&emu.memory.memory[first + 80..first + 90], b"fuzz_input");
    assert_eq!(emu.memory.permissions[first], Perms::READ | Perms::WRITE);
    assert_eq!(emu.memory.permissions[first + ARG_SIZE - 1], Perms::READ | Perms::WRITE);
}

#[test]
fn setup_stack_without_room_is_out_of_memory() {
    // Guest memory too small for the stack chunk
    let mut emu = Emulator::new(1024 * 1024);
    let args = vec!["prog".to_string()];
    assert_eq!(emu.setup_stack(&args), Err(Fault::OOM));
}
