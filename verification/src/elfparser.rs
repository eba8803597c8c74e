use vstd::prelude::*;
use vstd::bytes::*;

use byteorder::{ByteOrder, LittleEndian};

verus! {

/// The ELF magic number, as the first four bytes of a file read in little endian
pub const ELFMAGIC: u32 = 0x464c457f;
/// Class of a 64-bit object
pub const ARCH64: u8 = 0x2;
/// Data encoding of a little-endian object
pub const LITTLEENDIAN: u8 = 0x1;
/// Object type of an executable
pub const TYPEEXEC: u16 = 0x2;
/// Program header type of a loadable segment
pub const LOADSEGMENT: u32 = 0x1;
/// Machine type of RISC-V
pub const RISCV: u16 = 0xf3;

/// Size of the header structure in memory; a buffer must be longer than this to be parsed
pub const HEADER_SIZE: usize = 64;
/// Size of the program header structure in memory; a buffer must be longer than this to be parsed
pub const PROGRAM_HEADER_SIZE: usize = 56;

/// `LittleEndian::read_u16` of byteorder: the first two bytes of `buf` as a little-endian number.
#[verifier::external_body]
fn le_u16(buf: &[u8]) -> (r: u16)
    requires
        buf@.len() >= 2,
    ensures
        r == spec_u16_from_le_bytes(buf@.subrange(0, 2)),
{
    LittleEndian::read_u16(buf)
}

/// `LittleEndian::read_u32` of byteorder: the first four bytes of `buf` as a little-endian number.
#[verifier::external_body]
fn le_u32(buf: &[u8]) -> (r: u32)
    requires
        buf@.len() >= 4,
    ensures
        r == spec_u32_from_le_bytes(buf@.subrange(0, 4)),
{
    LittleEndian::read_u32(buf)
}

/// `LittleEndian::read_u64` of byteorder: the first eight bytes of `buf` as a little-endian
/// number.
#[verifier::external_body]
fn le_u64(buf: &[u8]) -> (r: u64)
    requires
        buf@.len() >= 8,
    ensures
        r == spec_u64_from_le_bytes(buf@.subrange(0, 8)),
{
    LittleEndian::read_u64(buf)
}

/// The little-endian 16-bit number at offset `at` of `b`
pub open spec fn u16_at(b: Seq<u8>, at: int) -> u16 {
    spec_u16_from_le_bytes(b.subrange(at, at + 2))
}

/// The little-endian 32-bit number at offset `at` of `b`
pub open spec fn u32_at(b: Seq<u8>, at: int) -> u32 {
    spec_u32_from_le_bytes(b.subrange(at, at + 4))
}

/// The little-endian 64-bit number at offset `at` of `b`
pub open spec fn u64_at(b: Seq<u8>, at: int) -> u64 {
    spec_u64_from_le_bytes(b.subrange(at, at + 8))
}

/// The 16-bit number at offset `at` of `b`
fn read_u16_at(b: &[u8], at: usize) -> (r: u16)
    requires
        at + 2 <= b@.len(),
    ensures
        r == u16_at(b@, at as int),
{
    let _len = b.len();
    let s = vstd::slice::slice_subrange(b, at, at + 2);
    assert(s@.subrange(0, 2) =~= b@.subrange(at as int, at + 2));
    le_u16(s)
}

/// The 32-bit number at offset `at` of `b`
fn read_u32_at(b: &[u8], at: usize) -> (r: u32)
    requires
        at + 4 <= b@.len(),
    ensures
        r == u32_at(b@, at as int),
{
    let _len = b.len();
    let s = vstd::slice::slice_subrange(b, at, at + 4);
    assert(s@.subrange(0, 4) =~= b@.subrange(at as int, at + 4));
    le_u32(s)
}

/// The 64-bit number at offset `at` of `b`
fn read_u64_at(b: &[u8], at: usize) -> (r: u64)
    requires
        at + 8 <= b@.len(),
    ensures
        r == u64_at(b@, at as int),
{
    let _len = b.len();
    let s = vstd::slice::slice_subrange(b, at, at + 8);
    assert(s@.subrange(0, 8) =~= b@.subrange(at as int, at + 8));
    le_u64(s)
}

/// The ELF file header
#[derive(Debug, Copy, Clone)]
pub struct Header {
    pub magic: u32,
    pub bitsize: u8,
    pub endian: u8,
    pub ident_abi_version: u8,
    pub target_platform: u8,
    pub abi_version: u8,
    pub padding: [u8; 7],
    pub o_type: u16,
    pub machine: u16,
    pub version: u32,
    pub entry_addr: usize,
    /// Program Header Offset
    pub phoff: usize,
    /// Section Header Offset
    pub shoff: usize,
    pub flags: u32,
    pub ehsize: u16,
    pub phentsize: u16,
    /// Number of Program Headers
    pub phnum: u16,
    pub shentsize: u16,
    pub shnum: u16,
    pub shstrndx: u16,
}

/// The ELF header at the start of `b`
pub open spec fn header_of(b: Seq<u8>) -> Header {
    Header {
        magic: u32_at(b, 0),
        bitsize: b[4],
        endian: b[5],
        ident_abi_version: b[6],
        target_platform: b[7],
        abi_version: b[8],
        padding: [b[9], b[10], b[11], b[12], b[13], b[14], b[15]],
        o_type: u16_at(b, 16),
        machine: u16_at(b, 18),
        version: u32_at(b, 20),
        entry_addr: u64_at(b, 24) as usize,
        phoff: u64_at(b, 32) as usize,
        shoff: u64_at(b, 40) as usize,
        flags: u32_at(b, 48),
        ehsize: u16_at(b, 52),
        phentsize: u16_at(b, 54),
        phnum: u16_at(b, 56),
        shentsize: u16_at(b, 58),
        shnum: u16_at(b, 60),
        shstrndx: u16_at(b, 62),
    }
}

impl Header {
    /// Parse the ELF header at the start of `binary`, which must be longer than the header
    pub fn new(binary: &[u8]) -> (r: Option<Self>)
        ensures
            r is Some <==> binary@.len() > HEADER_SIZE,
            r matches Some(h) ==> h == header_of(binary@),
    {
        if binary.len() <= HEADER_SIZE {
            return None;
        }
        let mut padding = [0u8; 7];
        let mut i: usize = 0;
        while i < 7
            invariant
                i <= 7,
                binary@.len() > HEADER_SIZE,
                padding@.len() == 7,
                forall|k: int| 0 <= k < i ==> padding@[k] == binary@[9 + k],
            decreases 7 - i,
        {
            padding[i] = binary[9 + i];
            i = i + 1;
        }
        assert(padding == [binary@[9], binary@[10], binary@[11], binary@[12], binary@[13], binary@[14], binary@[15]]);
        Some(Header {
            magic: read_u32_at(binary, 0),
            bitsize: binary[4],
            endian: binary[5],
            ident_abi_version: binary[6],
            target_platform: binary[7],
            abi_version: binary[8],
            padding,
            o_type: read_u16_at(binary, 16),
            machine: read_u16_at(binary, 18),
            version: read_u32_at(binary, 20),
            entry_addr: read_u64_at(binary, 24) as usize,
            phoff: read_u64_at(binary, 32) as usize,
            shoff: read_u64_at(binary, 40) as usize,
            flags: read_u32_at(binary, 48),
            ehsize: read_u16_at(binary, 52),
            phentsize: read_u16_at(binary, 54),
            phnum: read_u16_at(binary, 56),
            shentsize: read_u16_at(binary, 58),
            shnum: read_u16_at(binary, 60),
            shstrndx: read_u16_at(binary, 62),
        })
    }
}

/// One entry of the ELF program header table.
#[derive(Debug, Copy, Clone)]
pub struct ProgramHeader {
    pub seg_type: u32,
    pub flags: u32,
    pub offset: usize,
    pub vaddr: usize,
    pub paddr: usize,
    pub filesz: usize,
    pub memsz: usize,
    pub align: usize,
}

/// The program header at the start of `b`
pub open spec fn program_header_of(b: Seq<u8>) -> ProgramHeader {
    ProgramHeader {
        seg_type: u32_at(b, 0),
        flags: u32_at(b, 4),
        offset: u64_at(b, 8) as usize,
        vaddr: u64_at(b, 16) as usize,
        paddr: u64_at(b, 24) as usize,
        filesz: u64_at(b, 32) as usize,
        memsz: u64_at(b, 40) as usize,
        align: u64_at(b, 48) as usize,
    }
}

impl ProgramHeader {
    /// Parse the program header at the start of `binary`, which must be longer than the header
    pub fn new(binary: &[u8]) -> (r: Option<Self>)
        ensures
            r is Some <==> binary@.len() > PROGRAM_HEADER_SIZE,
            r matches Some(p) ==> p == program_header_of(binary@),
    {
        if binary.len() <= PROGRAM_HEADER_SIZE {
            return None;
        }
        Some(ProgramHeader {
            seg_type: read_u32_at(binary, 0),
            flags: read_u32_at(binary, 4),
            offset: read_u64_at(binary, 8) as usize,
            vaddr: read_u64_at(binary, 16) as usize,
            paddr: read_u64_at(binary, 24) as usize,
            filesz: read_u64_at(binary, 32) as usize,
            memsz: read_u64_at(binary, 40) as usize,
            align: read_u64_at(binary, 48) as usize,
        })
    }
}

/// Size of the section header structure; a buffer must be longer than this to be parsed
pub const SECTION_HEADER_SIZE: usize = 64;
/// Size of the symbol table entry structure; a buffer must be longer than this to be parsed
pub const SYMBOL_SIZE: usize = 24;

/// One entry of the ELF section header table.
#[derive(Debug, Copy, Clone)]
pub struct SectionHeader {
    pub s_name: u32,
    pub s_type: u32,
    pub s_flags: u64,
    pub s_addr: usize,
    pub s_offset: usize,
    pub s_size: usize,
    pub s_link: u32,
    pub s_info: u32,
    pub s_addralign: u64,
    pub s_entsize: usize,
}

/// The section header at the start of `b`
pub open spec fn section_header_of(b: Seq<u8>) -> SectionHeader {
    SectionHeader {
        s_name: u32_at(b, 0),
        s_type: u32_at(b, 4),
        s_flags: u64_at(b, 8),
        s_addr: u64_at(b, 16) as usize,
        s_offset: u64_at(b, 24) as usize,
        s_size: u64_at(b, 32) as usize,
        s_link: u32_at(b, 40),
        s_info: u32_at(b, 44),
        s_addralign: u64_at(b, 48),
        s_entsize: u64_at(b, 56) as usize,
    }
}

impl SectionHeader {
    /// Parse the section header at the start of `binary`, which must be longer than the header
    pub fn new(binary: &[u8]) -> (r: Option<Self>)
        ensures
            r is Some <==> binary@.len() > SECTION_HEADER_SIZE,
            r matches Some(s) ==> s == section_header_of(binary@),
    {
        if binary.len() <= SECTION_HEADER_SIZE {
            return None;
        }
        Some(SectionHeader {
            s_name: read_u32_at(binary, 0),
            s_type: read_u32_at(binary, 4),
            s_flags: read_u64_at(binary, 8),
            s_addr: read_u64_at(binary, 16) as usize,
            s_offset: read_u64_at(binary, 24) as usize,
            s_size: read_u64_at(binary, 32) as usize,
            s_link: read_u32_at(binary, 40),
            s_info: read_u32_at(binary, 44),
            s_addralign: read_u64_at(binary, 48),
            s_entsize: read_u64_at(binary, 56) as usize,
        })
    }
}

/// One entry of an ELF symbol table.
#[derive(Debug, Copy, Clone)]
pub struct SymbolTable {
    pub sym_name: u32,
    pub sym_info: u8,
    pub sym_other: u8,
    pub sym_shndx: u16,
    pub sym_value: usize,
    pub sym_size: usize,
}

/// The symbol table entry at the start of `b`
pub open spec fn symbol_of(b: Seq<u8>) -> SymbolTable {
    SymbolTable {
        sym_name: u32_at(b, 0),
        sym_info: b[4],
        sym_other: b[5],
        sym_shndx: u16_at(b, 6),
        sym_value: u64_at(b, 8) as usize,
        sym_size: u64_at(b, 16) as usize,
    }
}

impl SymbolTable {
    /// Parse the symbol table entry at the start of `binary`, which must be longer than the entry
    pub fn new(binary: &[u8]) -> (r: Option<Self>)
        ensures
            r is Some <==> binary@.len() > SYMBOL_SIZE,
            r matches Some(s) ==> s == symbol_of(binary@),
    {
        if binary.len() <= SYMBOL_SIZE {
            return None;
        }
        Some(SymbolTable {
            sym_name: read_u32_at(binary, 0),
            sym_info: binary[4],
            sym_other: binary[5],
            sym_shndx: read_u16_at(binary, 6),
            sym_value: read_u64_at(binary, 8) as usize,
            sym_size: read_u64_at(binary, 16) as usize,
        })
    }
}

/// `b` holds the little-endian encoding of `v` at offset `at`
pub open spec fn holds_u16(b: Seq<u8>, at: int, v: u16) -> bool {
    b.subrange(at, at + 2) == spec_u16_to_le_bytes(v)
}

/// `b` holds the little-endian encoding of `v` at offset `at`
pub open spec fn holds_u32(b: Seq<u8>, at: int, v: u32) -> bool {
    b.subrange(at, at + 4) == spec_u32_to_le_bytes(v)
}

/// `b` holds the little-endian encoding of `v` at offset `at`
pub open spec fn holds_u64(b: Seq<u8>, at: int, v: u64) -> bool {
    b.subrange(at, at + 8) == spec_u64_to_le_bytes(v)
}

/// The ELF64 file header layout: where the bytes hold e_type at 16, e_machine at 18, e_version
/// at 20, e_entry at 24, e_phoff at 32, e_shoff at 40, e_flags at 48, e_ehsize at 52,
/// e_phentsize at 54, e_phnum at 56, e_shentsize at 58, e_shnum at 60 and e_shstrndx at 62,
/// little-endian, parsing the header gives those values back
pub proof fn lemma_header_layout(
    b: Seq<u8>,
    e_type: u16,
    machine: u16,
    version: u32,
    entry: u64,
    phoff: u64,
    shoff: u64,
    flags: u32,
    ehsize: u16,
    phentsize: u16,
    phnum: u16,
    shentsize: u16,
    shnum: u16,
    shstrndx: u16,
)
    requires
        b.len() >= 64,
        holds_u16(b, 16, e_type),
        holds_u16(b, 18, machine),
        holds_u32(b, 20, version),
        holds_u64(b, 24, entry),
        holds_u64(b, 32, phoff),
        holds_u64(b, 40, shoff),
        holds_u32(b, 48, flags),
        holds_u16(b, 52, ehsize),
        holds_u16(b, 54, phentsize),
        holds_u16(b, 56, phnum),
        holds_u16(b, 58, shentsize),
        holds_u16(b, 60, shnum),
        holds_u16(b, 62, shstrndx),
    ensures
        header_of(b).o_type == e_type,
        header_of(b).machine == machine,
        header_of(b).version == version,
        header_of(b).entry_addr == entry as usize,
        header_of(b).phoff == phoff as usize,
        header_of(b).shoff == shoff as usize,
        header_of(b).flags == flags,
        header_of(b).ehsize == ehsize,
        header_of(b).phentsize == phentsize,
        header_of(b).phnum == phnum,
        header_of(b).shentsize == shentsize,
        header_of(b).shnum == shnum,
        header_of(b).shstrndx == shstrndx,
{
    lemma_auto_spec_u16_to_from_le_bytes();
    lemma_auto_spec_u32_to_from_le_bytes();
    lemma_auto_spec_u64_to_from_le_bytes();
    assert(spec_u16_to_le_bytes(e_type).len() == 2);
    assert(spec_u16_to_le_bytes(machine).len() == 2);
    assert(spec_u16_to_le_bytes(ehsize).len() == 2);
    assert(spec_u16_to_le_bytes(phentsize).len() == 2);
    assert(spec_u16_to_le_bytes(phnum).len() == 2);
    assert(spec_u16_to_le_bytes(shentsize).len() == 2);
    assert(spec_u16_to_le_bytes(shnum).len() == 2);
    assert(spec_u16_to_le_bytes(shstrndx).len() == 2);
    assert(spec_u32_to_le_bytes(version).len() == 4);
    assert(spec_u32_to_le_bytes(flags).len() == 4);
}

/// The ELF64 program header layout: where the bytes hold p_type at 0, p_flags at 4, p_offset
/// at 8, p_vaddr at 16, p_paddr at 24, p_filesz at 32, p_memsz at 40 and p_align at 48,
/// little-endian, parsing the entry gives those values back
pub proof fn lemma_program_header_layout(
    b: Seq<u8>,
    p_type: u32,
    p_flags: u32,
    offset: u64,
    vaddr: u64,
    paddr: u64,
    filesz: u64,
    memsz: u64,
    align: u64,
)
    requires
        b.len() >= 56,
        holds_u32(b, 0, p_type),
        holds_u32(b, 4, p_flags),
        holds_u64(b, 8, offset),
        holds_u64(b, 16, vaddr),
        holds_u64(b, 24, paddr),
        holds_u64(b, 32, filesz),
        holds_u64(b, 40, memsz),
        holds_u64(b, 48, align),
    ensures
        program_header_of(b) == (ProgramHeader {
            seg_type: p_type,
            flags: p_flags,
            offset: offset as usize,
            vaddr: vaddr as usize,
            paddr: paddr as usize,
            filesz: filesz as usize,
            memsz: memsz as usize,
            align: align as usize,
        }),
{
    lemma_auto_spec_u32_to_from_le_bytes();
    lemma_auto_spec_u64_to_from_le_bytes();
    assert(spec_u32_to_le_bytes(p_type).len() == 4);
    assert(spec_u32_to_le_bytes(p_flags).len() == 4);
}

/// The ELF64 section header layout: where the bytes hold sh_name at 0, sh_type at 4, sh_flags
/// at 8, sh_addr at 16, sh_offset at 24, sh_size at 32, sh_link at 40, sh_info at 44,
/// sh_addralign at 48 and sh_entsize at 56, little-endian, parsing the entry gives those values
/// back
pub proof fn lemma_section_header_layout(
    b: Seq<u8>,
    name: u32,
    s_type: u32,
    flags: u64,
    addr: u64,
    offset: u64,
    size: u64,
    link: u32,
    info: u32,
    addralign: u64,
    entsize: u64,
)
    requires
        b.len() >= 64,
        holds_u32(b, 0, name),
        holds_u32(b, 4, s_type),
        holds_u64(b, 8, flags),
        holds_u64(b, 16, addr),
        holds_u64(b, 24, offset),
        holds_u64(b, 32, size),
        holds_u32(b, 40, link),
        holds_u32(b, 44, info),
        holds_u64(b, 48, addralign),
        holds_u64(b, 56, entsize),
    ensures
        section_header_of(b) == (SectionHeader {
            s_name: name,
            s_type,
            s_flags: flags,
            s_addr: addr as usize,
            s_offset: offset as usize,
            s_size: size as usize,
            s_link: link,
            s_info: info,
            s_addralign: addralign,
            s_entsize: entsize as usize,
        }),
{
    lemma_auto_spec_u32_to_from_le_bytes();
    lemma_auto_spec_u64_to_from_le_bytes();
    assert(spec_u32_to_le_bytes(name).len() == 4);
    assert(spec_u32_to_le_bytes(s_type).len() == 4);
    assert(spec_u32_to_le_bytes(link).len() == 4);
    assert(spec_u32_to_le_bytes(info).len() == 4);
}

/// The ELF64 symbol layout: where the bytes hold st_name at 0, st_info at 4, st_other at 5,
/// st_shndx at 6, st_value at 8 and st_size at 16, little-endian, parsing the entry gives those
/// values back
pub proof fn lemma_symbol_layout(b: Seq<u8>, name: u32, info: u8, other: u8, shndx: u16, value: u64, size: u64)
    requires
        b.len() >= 24,
        holds_u32(b, 0, name),
        b[4] == info,
        b[5] == other,
        holds_u16(b, 6, shndx),
        holds_u64(b, 8, value),
        holds_u64(b, 16, size),
    ensures
        symbol_of(b) == (SymbolTable {
            sym_name: name,
            sym_info: info,
            sym_other: other,
            sym_shndx: shndx,
            sym_value: value as usize,
            sym_size: size as usize,
        }),
{
    lemma_auto_spec_u16_to_from_le_bytes();
    lemma_auto_spec_u32_to_from_le_bytes();
    lemma_auto_spec_u64_to_from_le_bytes();
    assert(spec_u16_to_le_bytes(shndx).len() == 2);
    assert(spec_u32_to_le_bytes(name).len() == 4);
}

} // verus!
