use sfuzz::elfparser::{Header, ProgramHeader, SectionHeader, SymbolTable};
use sfuzz::emulator::{Emulator, Register};
use sfuzz::loader::verify_elf_hdr;
use sfuzz::{load_elf_segments, LoadError};

fn put(buf: &mut [u8], at: usize, bytes: &[u8]) {
    buf[at..at + bytes.len()].copy_from_slice(bytes);
}

/// A small RISC-V executable: one loadable segment of two instructions at 0x10000, and a symbol
/// table with `main` (8 bytes at 0x10000) and `helper` (size 0, at 0xfff0)
fn tiny_elf() -> Vec<u8> {
    let mut f = vec![0u8; 0x220];
    // ELF header
    put(&mut f, 0, &[0x7f, b'E', b'L', b'F', 2, 1, 1, 0, 0]);
    put(&mut f, 16, &2u16.to_le_bytes());
    put(&mut f, 18, &0xf3u16.to_le_bytes());
    put(&mut f, 20, &1u32.to_le_bytes());
    put(&mut f, 24, &0x10000u64.to_le_bytes());
    put(&mut f, 32, &64u64.to_le_bytes());
    put(&mut f, 40, &0x100u64.to_le_bytes());
    put(&mut f, 52, &64u16.to_le_bytes());
    put(&mut f, 54, &56u16.to_le_bytes());
    put(&mut f, 56, &1u16.to_le_bytes());
    put(&mut f, 58, &64u16.to_le_bytes());
    put(&mut f, 60, &3u16.to_le_bytes());
    put(&mut f, 62, &0u16.to_le_bytes());
    // Program header
    put(&mut f, 64, &1u32.to_le_bytes());
    put(&mut f, 68, &5u32.to_le_bytes());
    put(&mut f, 72, &0x200u64.to_le_bytes());
    put(&mut f, 80, &0x10000u64.to_le_bytes());
    put(&mut f, 88, &0x10000u64.to_le_bytes());
    put(&mut f, 96, &8u64.to_le_bytes());
    put(&mut f, 104, &8u64.to_le_bytes());
    put(&mut f, 112, &0x1000u64.to_le_bytes());
    // Section headers: a null section, the symbol table and the string table
    put(&mut f, 0x140 + 4, &2u32.to_le_bytes());
    put(&mut f, 0x140 + 24, &0x1d0u64.to_le_bytes());
    put(&mut f, 0x140 + 32, &48u64.to_le_bytes());
    put(&mut f, 0x140 + 56, &24u64.to_le_bytes());
    put(&mut f, 0x180 + 4, &3u32.to_le_bytes());
    put(&mut f, 0x180 + 24, &0x208u64.to_le_bytes());
    put(&mut f, 0x180 + 32, &14u64.to_le_bytes());
    // Symbols
    put(&mut f, 0x1d0, &1u32.to_le_bytes());
    f[0x1d0 + 4] = 0x12;
    put(&mut f, 0x1d0 + 8, &0x10000u64.to_le_bytes());
    put(&mut f, 0x1d0 + 16, &8u64.to_le_bytes());
    put(&mut f, 0x1e8, &6u32.to_le_bytes());
    f[0x1e8 + 4] = 0x2;
    put(&mut f, 0x1e8 + 8, &0xfff0u64.to_le_bytes());
    // Code: addi a0, a0, 1 ; ecall
    put(&mut f, 0x200, &0x00150513u32.to_le_bytes());
    put(&mut f, 0x204, &0x00000073u32.to_le_bytes());
    // String table
    put(&mut f, 0x208, b"\0main\0helper\0");
    f
}

#[test]
fn parse_headers() {
    let f = tiny_elf();
    let h = Header::new(&f).unwrap();
    assert_eq!(h.magic, 0x464c457f);
    assert_eq!(h.bitsize, 2);
    assert_eq!(h.machine, 0xf3);
    assert_eq!(h.entry_addr, 0x10000);
    assert_eq!(h.phnum, 1);
    assert_eq!(h.shoff, 0x100);
    let p = ProgramHeader::new(&f[64..]).unwrap();
    assert_eq!(p.vaddr, 0x10000);
    assert_eq!(p.memsz, 8);
    let s = SectionHeader::new(&f[0x140..]).unwrap();
    assert_eq!(s.s_type, 2);
    assert_eq!(s.s_entsize, 24);
    let sym = SymbolTable::new(&f[0x1d0..]).unwrap();
    assert_eq!(sym.sym_info, 0x12);
    assert_eq!(sym.sym_value, 0x10000);
    assert!(Header::new(&f[..64]).is_none());
    assert!(ProgramHeader::new(&f[..56]).is_none());
}

#[test]
fn header_checks() {
    let f = tiny_elf();
    let mut h = Header::new(&f).unwrap();
    assert!(verify_elf_hdr(h).is_ok());
    h.machine = 0x3e;
    assert_eq!(verify_elf_hdr(h).unwrap_err(), "Elf is not Riscv architecture");
    h.endian = 2;
    assert_eq!(verify_elf_hdr(h).unwrap_err(), "Endian is not Little Endian");
    h.magic = 0;
    assert_eq!(verify_elf_hdr(h).unwrap_err(), "Magic value does not match ELF");
}

#[test]
fn load_a_small_executable() {
    let f = tiny_elf();
    let mut emu = Emulator::new(0x40000);
    let syms = match load_elf_segments(&f, &mut emu) {
        Ok(s) => s,
        Err(e) => panic!("load failed: {:?}", e),
    };
    assert_eq!(syms, vec![("main".to_string(), 0x10000), ("helper".to_string(), 0xfff0)]);
    assert_eq!(emu.get_reg(Register::Pc), 0x10000);
    assert_eq!(&emu.memory.memory[0x10000..0x10004], &0x00150513u32.to_le_bytes());
    assert_eq!(emu.memory.permissions[0x10000], 5);
    assert_eq!(emu.functions.get(&0x10000), Some(&(8, "main".to_string())));
    // A function listed with size 0 reaches up to the next function
    assert_eq!(emu.functions.get(&0xfff0), Some(&(0x10, "helper".to_string())));
}

#[test]
fn refuse_other_machines_and_broken_files() {
    let mut f = tiny_elf();
    f[18] = 0x3e;
    let mut emu = Emulator::new(0x40000);
    match load_elf_segments(&f, &mut emu) {
        Err(LoadError::Unsupported(m)) => assert_eq!(m, "Elf is not Riscv architecture"),
        other => panic!("unexpected {:?}", other.is_ok()),
    }
    // A segment beyond guest memory
    let f = tiny_elf();
    let mut small = Emulator::new(0x8000);
    assert!(matches!(load_elf_segments(&f, &mut small), Err(LoadError::Malformed)));
    // A truncated file
    let mut emu = Emulator::new(0x40000);
    assert!(matches!(load_elf_segments(&f[..0x30], &mut emu), Err(LoadError::Malformed)));
}
