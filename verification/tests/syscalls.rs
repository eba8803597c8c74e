use sfuzz::elfparser::ProgramHeader;
use sfuzz::emulator::{Emulator, Fault, FileType, JitExit, Register};
use sfuzz::mmu::Perms;
use sfuzz::syscalls;

/// An emulator whose memory at 0x1000..0x1100 is readable and writable, and holds `bytes` at 0x1000
fn emu_with_data(bytes: &[u8]) -> Emulator {
    let mut emu = Emulator::new(0x10000);
    let seg = ProgramHeader {
        seg_type: 1,
        flags: 6,
        offset: 0,
        vaddr: 0x1000,
        paddr: 0x1000,
        filesz: bytes.len(),
        memsz: 0x100,
        align: 0x1000,
    };
    emu.load_segment(seg, bytes).unwrap();
    emu
}

#[test]
fn exit_ends_the_case() {
    assert_eq!(syscalls::exit(), Some(Fault::Exit));
}

#[test]
fn gettimeofday_and_brk_answers() {
    let mut emu = Emulator::new(0x1000);
    assert_eq!(syscalls::gettimeofday(&mut emu), None);
    assert_eq!(emu.get_reg(Register::A0), 20);
    emu.set_reg(Register::A0, 0);
    assert_eq!(syscalls::brk(&mut emu), None);
    assert_eq!(emu.get_reg(Register::A0), 0);
}

#[test]
fn write_reports_the_count() {
    let mut emu = Emulator::new(0x1000);
    emu.set_reg(Register::A0, 1);
    emu.set_reg(Register::A2, 17);
    syscalls::write(&mut emu);
    assert_eq!(emu.get_reg(Register::A0), 17);
    emu.set_reg(Register::A0, 9);
    syscalls::write(&mut emu);
    assert_eq!(emu.get_reg(Register::A0), usize::MAX);
}

#[test]
fn close_invalidates_the_descriptor() {
    let mut emu = Emulator::new(0x1000);
    emu.set_reg(Register::A0, 2);
    syscalls::close(&mut emu);
    assert_eq!(emu.get_reg(Register::A0), 0);
    assert_eq!(emu.fd_list[2].ftype, FileType::INVALID);
    emu.set_reg(Register::A0, 3);
    syscalls::close(&mut emu);
    assert_eq!(emu.get_reg(Register::A0), usize::MAX);
}

#[test]
fn open_read_and_seek_the_fuzz_input() {
    let mut emu = emu_with_data(b"fuzz_input\0");
    emu.fuzz_input = b"hello world".to_vec();

    // open("fuzz_input")
    emu.set_reg(Register::A0, 0x1000);
    assert!(syscalls::syscall_supported(&{
        let mut e = emu.fork();
        e.set_reg(Register::A7, 1024);
        e
    }));
    syscalls::open(&mut emu);
    let fd = emu.get_reg(Register::A0);
    assert_eq!(fd, 3);
    assert_eq!(emu.fd_list[3].ftype, FileType::FUZZINPUT);
    assert_eq!(emu.fd_list[3].cursor, Some(0));

    // read(fd, 0x1040, 5)
    emu.set_reg(Register::A0, fd);
    emu.set_reg(Register::A1, 0x1040);
    emu.set_reg(Register::A2, 5);
    syscalls::read(&mut emu);
    assert_eq!(emu.get_reg(Register::A0), 5);
    assert_eq!(&emu.memory.memory[0x1040..0x1045], b"hello");
    assert_eq!(emu.fd_list[3].cursor, Some(5));

    // lseek(fd, -2, SEEK_END)
    emu.set_reg(Register::A0, fd);
    emu.set_reg(Register::A1, (-2i64) as usize);
    emu.set_reg(Register::A2, 2);
    syscalls::lseek(&mut emu);
    assert_eq!(emu.get_reg(Register::A0), 9);

    // read the rest: only two bytes are left
    emu.set_reg(Register::A0, fd);
    emu.set_reg(Register::A1, 0x1050);
    emu.set_reg(Register::A2, 100);
    syscalls::read(&mut emu);
    assert_eq!(emu.get_reg(Register::A0), 2);
    assert_eq!(&emu.memory.memory[0x1050..0x1052], b"ld");

    // a seek before the start clamps to 0, an unknown whence answers -1
    emu.set_reg(Register::A0, fd);
    emu.set_reg(Register::A1, (-100i64) as usize);
    emu.set_reg(Register::A2, 1);
    syscalls::lseek(&mut emu);
    assert_eq!(emu.get_reg(Register::A0), 0);
    emu.set_reg(Register::A0, fd);
    emu.set_reg(Register::A2, 7);
    syscalls::lseek(&mut emu);
    assert_eq!(emu.get_reg(Register::A0), usize::MAX);
}

#[test]
fn open_other_file() {
    let mut emu = emu_with_data(b"other\0");
    emu.set_reg(Register::A0, 0x1000);
    syscalls::open(&mut emu);
    assert_eq!(emu.get_reg(Register::A0), 3);
    assert_eq!(emu.fd_list[3].ftype, FileType::OTHER);
    assert_eq!(emu.fd_list[3].backing, Some(Vec::new()));
}

#[test]
fn fstat_of_the_fuzz_input() {
    let mut emu = emu_with_data(b"");
    emu.fuzz_input = vec![7u8; 1000];
    let fd = emu.alloc_file(FileType::FUZZINPUT);
    emu.set_reg(Register::A0, fd);
    emu.set_reg(Register::A1, 0x1080);
    syscalls::fstat(&mut emu);
    assert_eq!(emu.get_reg(Register::A0), 0);
    let stat = &emu.memory.memory[0x1080..0x1100];
    assert_eq!(u64::from_le_bytes(stat[0..8].try_into().unwrap()), 0x803);
    assert_eq!(u32::from_le_bytes(stat[16..20].try_into().unwrap()), 0x81a4);
    assert_eq!(i64::from_le_bytes(stat[48..56].try_into().unwrap()), 1000);
    assert_eq!(i32::from_le_bytes(stat[56..60].try_into().unwrap()), 0x1000);
    assert_eq!(i64::from_le_bytes(stat[64..72].try_into().unwrap()), 2);
    assert_eq!(u64::from_le_bytes(stat[72..80].try_into().unwrap()), 0x5f0fe246);

    // A standard stream answers -1
    emu.set_reg(Register::A0, 1);
    syscalls::fstat(&mut emu);
    assert_eq!(emu.get_reg(Register::A0), usize::MAX);
}

#[test]
fn jit_exits() {
    let mut emu = Emulator::new(0x1000);
    assert_eq!(emu.handle_exit(1, 0x40, 0), JitExit::Reenter);
    assert_eq!(emu.handle_exit(3, 0x40, 0), JitExit::CallHook(0x40));
    assert_eq!(emu.handle_exit(7, 0x40, 0), JitExit::Stop(Fault::Timeout));
    assert_eq!(emu.handle_exit(8, 0x40, 0), JitExit::Stop(Fault::ReadFault(0x40)));
    assert_eq!(emu.handle_exit(9, 0x40, 0), JitExit::Stop(Fault::WriteFault(0x40)));
    assert_eq!(emu.handle_exit(10, 0x40, 0), JitExit::Stop(Fault::OutOfBounds(0x40)));
    assert_eq!(emu.handle_exit(5, 0x40, 0x1234), JitExit::Stop(Fault::Snapshot));
    assert_eq!(emu.snapshot_addr, 0x1234);

    emu.set_reg(Register::A7, 169);
    assert!(emu.exit_supported(2));
    assert_eq!(emu.handle_exit(2, 0x40, 0), JitExit::Reenter);
    assert_eq!(emu.get_reg(Register::A0), 20);
    emu.set_reg(Register::A7, 93);
    assert_eq!(emu.handle_exit(2, 0x40, 0), JitExit::Stop(Fault::Exit));

    emu.set_reg(Register::A7, 1);
    assert!(!emu.exit_supported(2));
    assert!(!emu.exit_supported(4));
}

#[test]
fn unaligned_pc_is_an_execution_fault() {
    let mut emu = Emulator::new(0x1000);
    emu.set_reg(Register::Pc, 0x1002);
    assert_eq!(emu.entry_fault(), Some(Fault::ExecFault(0x1002)));
    emu.set_reg(Register::Pc, 0x1004);
    assert_eq!(emu.entry_fault(), None);
}

#[test]
fn writes_need_write_permission() {
    let emu = emu_with_data(b"");
    assert!(syscalls::is_writable(&emu.memory, 0x1000, 0x100));
    assert!(!syscalls::is_writable(&emu.memory, 0x10f0, 0x20));
    assert!(!syscalls::is_writable(&emu.memory, 0x800, 4));
    assert_eq!(emu.memory.permissions[0x1000], Perms::READ | Perms::WRITE);
}

#[test]
fn read_and_lseek_on_the_descriptor_past_the_table_fail() {
    let mut emu = emu_with_data(&[0u8; 16]);
    let n = emu.fd_list.len();
    emu.set_reg(Register::A0, n);
    emu.set_reg(Register::A1, 0x1000);
    emu.set_reg(Register::A2, 4);
    assert_eq!(syscalls::read(&mut emu), None);
    assert_eq!(emu.get_reg(Register::A0), usize::MAX);
    emu.set_reg(Register::A0, n);
    emu.set_reg(Register::A1, 0);
    emu.set_reg(Register::A2, 0);
    assert_eq!(syscalls::lseek(&mut emu), None);
    assert_eq!(emu.get_reg(Register::A0), usize::MAX);
}
