use vstd::prelude::*;

use std::collections::HashMap;

use crate::elfparser::{
    Header, ProgramHeader, SectionHeader, SymbolTable, header_of, program_header_of, section_header_of,
    symbol_of, ARCH64, ELFMAGIC, LITTLEENDIAN, LOADSEGMENT, PROGRAM_HEADER_SIZE, RISCV,
    SECTION_HEADER_SIZE, SYMBOL_SIZE, TYPEEXEC,
};
use crate::emulator::{Emulator, Register, files_view};
use crate::mmu::{Mmu, load_post};

verus! {

broadcast use vstd::std_specs::hash::group_hash_axioms;

/// Why an ELF file could not be loaded
#[derive(Debug)]
pub enum LoadError {
    /// The header describes a file that this fuzzer cannot run; the message says why
    Unsupported(String),
    /// The file is truncated, or one of its tables points outside it or outside guest memory
    Malformed,
}

/// What is wrong with an ELF header for this fuzzer (64-bit little-endian RISC-V executables),
/// if anything
pub open spec fn header_problem(h: Header) -> Option<Seq<char>> {
    if h.magic != ELFMAGIC {
        Some("Magic value does not match ELF"@)
    } else if h.bitsize != ARCH64 {
        Some("Architecture is not 64-bit"@)
    } else if h.endian != LITTLEENDIAN {
        Some("Endian is not Little Endian"@)
    } else if h.o_type != TYPEEXEC {
        Some("Elf is not an executeable"@)
    } else if h.machine != RISCV {
        Some("Elf is not Riscv architecture"@)
    } else {
        None
    }
}

/// Used to verify that the binary is suitable for this fuzzer. (64-bit, ELF, Little Endian...)
pub fn verify_elf_hdr(elf_hdr: Header) -> (r: Result<(), String>)
    ensures
        match header_problem(elf_hdr) {
            None => r is Ok,
            Some(m) => r matches Err(e) && e@ == m,
        },
{
    if elf_hdr.magic != ELFMAGIC {
        return Err("Magic value does not match ELF".to_owned());
    }
    if elf_hdr.bitsize != ARCH64 {
        return Err("Architecture is not 64-bit".to_owned());
    }
    if elf_hdr.endian != LITTLEENDIAN {
        return Err("Endian is not Little Endian".to_owned());
    }
    if elf_hdr.o_type != TYPEEXEC {
        return Err("Elf is not an executeable".to_owned());
    }
    if elf_hdr.machine != RISCV {
        return Err("Elf is not Riscv architecture".to_owned());
    }
    Ok(())
}

// ------------------------------------------------------------------------------------------------
// Program headers and segments
// ------------------------------------------------------------------------------------------------

/// File offset of the `k`-th program header
pub open spec fn ph_offset(h: Header, k: int) -> int {
    h.phoff + k * h.phentsize
}

/// The `k`-th program header of the file `t`
pub open spec fn ph_at(t: Seq<u8>, h: Header, k: int) -> ProgramHeader {
    program_header_of(t.subrange(ph_offset(h, k), t.len() as int))
}

/// The file bytes that the loader copies for a segment: `memsz` bytes from its file offset
pub open spec fn segment_data(t: Seq<u8>, p: ProgramHeader) -> Seq<u8> {
    t.subrange(p.offset as int, p.offset + p.memsz)
}

/// The `k`-th program header lies in the file, and if it describes a loadable segment, that
/// segment's bytes lie in the file, its memory range in guest memory of `memlen` bytes, and its
/// file size within its memory size
pub open spec fn segment_ok(t: Seq<u8>, h: Header, memlen: int, k: int) -> bool {
    let off = ph_offset(h, k);
    let p = ph_at(t, h, k);
    &&& off <= t.len()
    &&& t.len() - off > PROGRAM_HEADER_SIZE
    &&& p.seg_type == LOADSEGMENT ==> {
        &&& p.offset + p.memsz <= t.len()
        &&& p.vaddr + p.memsz <= memlen
        &&& p.filesz <= p.memsz
    }
}

/// Every program header of the file can be read, and every loadable segment loaded
pub open spec fn segments_ok(t: Seq<u8>, h: Header, memlen: int) -> bool {
    &&& h.phoff >= h.phentsize
    &&& forall|k: int| 0 <= k < h.phnum ==> #[trigger] segment_ok(t, h, memlen, k)
}

/// `m` is `mid` after loading the segment of the `j`-th program header, if it is loadable
pub open spec fn segment_step(mid: Mmu, m: Mmu, t: Seq<u8>, h: Header, j: int) -> bool {
    let p = ph_at(t, h, j);
    if p.seg_type == LOADSEGMENT {
        load_post(mid, p, segment_data(t, p), Some(()), m)
    } else {
        m == mid
    }
}

/// `ms` is a run of memory states from `ms[0]`, each the one before after the segment of one
/// program header, for the first `k` program headers in order
pub open spec fn load_chain(ms: Seq<Mmu>, t: Seq<u8>, h: Header, k: int) -> bool {
    &&& ms.len() == k + 1
    &&& forall|j: int| 0 <= j < k ==> #[trigger] segment_step(ms[j], ms[j + 1], t, h, j)
}

/// `m` is `m0` after loading, in order, the loadable segments among the first `k` program headers
pub open spec fn segments_loaded(m0: Mmu, m: Mmu, t: Seq<u8>, h: Header, k: int) -> bool {
    exists|ms: Seq<Mmu>| #[trigger] load_chain(ms, t, h, k) && ms[0] == m0 && ms[k] == m
}

/// Moving to the next entry of a table moves its offset by one entry size
proof fn lemma_next_entry(base: int, k: int, size: int)
    ensures
        base + (k + 1) * size == base + k * size + size,
{
    assert((k + 1) * size == k * size + size) by (nonlinear_arith);
}

/// Load every loadable segment that the program headers of `target` describe into guest memory
fn load_segments(target: &[u8], h: Header, emu: &mut Emulator) -> (r: bool)
    requires
        old(emu).wf(),
    ensures
        final(emu).wf(),
        r == segments_ok(target@, h, old(emu).memory.memory@.len() as int),
        r ==> segments_loaded(old(emu).memory, final(emu).memory, target@, h, h.phnum as int),
        final(emu).memory.memory@.len() == old(emu).memory.memory@.len(),
        final(emu).regs == old(emu).regs,
        final(emu).fd_list == old(emu).fd_list,
        final(emu).functions == old(emu).functions,
{
    let ghost memlen = emu.memory.memory@.len() as int;
    if h.phoff < h.phentsize as usize {
        return false;
    }
    let mut offset = h.phoff - h.phentsize as usize;
    let mut k: usize = 0;
    let ghost mut ms: Seq<Mmu> = seq![emu.memory];
    while k < h.phnum as usize
        invariant
            emu.wf(),
            memlen == emu.memory.memory@.len(),
            memlen == old(emu).memory.memory@.len(),
            h.phoff >= h.phentsize,
            k <= h.phnum,
            offset + h.phentsize == ph_offset(h, k as int),
            forall|j: int| 0 <= j < k ==> #[trigger] segment_ok(target@, h, memlen, j),
            load_chain(ms, target@, h, k as int),
            ms[0] == old(emu).memory,
            ms[k as int] == emu.memory,
            emu.regs == old(emu).regs,
            emu.fd_list == old(emu).fd_list,
            emu.functions == old(emu).functions,
        decreases h.phnum - k,
    {
        let ghost before = emu.memory;
        proof {
            lemma_next_entry(h.phoff as int, k as int, h.phentsize as int);
        }
        if offset > target.len() || target.len() - offset < h.phentsize as usize {
            assert(!segment_ok(target@, h, memlen, k as int));
            return false;
        }
        offset = offset + h.phentsize as usize;
        let ghost p = ph_at(target@, h, k as int);
        let rest = vstd::slice::slice_subrange(target, offset, target.len());
        let program_hdr = match ProgramHeader::new(rest) {
            Some(p) => p,
            None => {
                assert(!segment_ok(target@, h, memlen, k as int));
                return false;
            },
        };
        assert(program_hdr == p);
        if program_hdr.seg_type == LOADSEGMENT {
            let end = match program_hdr.offset.checked_add(program_hdr.memsz) {
                Some(e) => e,
                None => {
                    assert(!segment_ok(target@, h, memlen, k as int));
                    return false;
                },
            };
            if end > target.len() {
                assert(!segment_ok(target@, h, memlen, k as int));
                return false;
            }
            match program_hdr.vaddr.checked_add(program_hdr.memsz) {
                Some(e) => {
                    if e > emu.memory.memory.len() {
                        assert(!segment_ok(target@, h, memlen, k as int));
                        return false;
                    }
                },
                None => {
                    assert(!segment_ok(target@, h, memlen, k as int));
                    return false;
                },
            }
            let data = vstd::slice::slice_subrange(target, program_hdr.offset, end);
            if emu.load_segment(program_hdr, data).is_none() {
                assert(!segment_ok(target@, h, memlen, k as int));
                return false;
            }
            assert(segment_data(target@, program_hdr) == data@);
        }
        proof {
            assert(segment_ok(target@, h, memlen, k as int));
            if p.seg_type == LOADSEGMENT {
                assert(load_post(before, p, segment_data(target@, p), Some(()), emu.memory));
            } else {
                assert(emu.memory == before);
            }
            let ms2 = ms.push(emu.memory);
            assert forall|j: int| 0 <= j < k + 1 implies #[trigger] segment_step(ms2[j], ms2[j + 1], target@, h, j) by {
                if j < k {
                    assert(segment_step(ms[j], ms[j + 1], target@, h, j));
                }
            }
            ms = ms2;
        }
        k = k + 1;
    }
    assert(load_chain(ms, target@, h, h.phnum as int));
    true
}

// ------------------------------------------------------------------------------------------------
// Section headers
// ------------------------------------------------------------------------------------------------

/// File offset of the `i`-th section header
pub open spec fn sh_offset(h: Header, i: int) -> int {
    h.shoff + i * h.shentsize
}

/// The `i`-th section header of the file `t`
pub open spec fn sh_at(t: Seq<u8>, h: Header, i: int) -> SectionHeader {
    section_header_of(t.subrange(sh_offset(h, i), t.len() as int))
}

/// Every section header of the file can be read
pub open spec fn sections_ok(t: Seq<u8>, h: Header) -> bool {
    &&& h.shoff >= h.shentsize
    &&& forall|i: int|
        0 <= i < h.shnum ==> sh_offset(h, i) <= t.len() && t.len() - #[trigger] sh_offset(h, i)
            > SECTION_HEADER_SIZE
}

/// The `i`-th section is a symbol table (`strtab == false`), or a string table other than the
/// section-name table (`strtab == true`)
pub open spec fn section_is(t: Seq<u8>, h: Header, i: int, strtab: bool) -> bool {
    if strtab {
        sh_at(t, h, i).s_type == 3 && i != h.shstrndx
    } else {
        sh_at(t, h, i).s_type == 2
    }
}

/// The last among the first `n` sections that is a symbol table (or string table)
pub open spec fn last_section(t: Seq<u8>, h: Header, n: int, strtab: bool) -> Option<int>
    decreases n,
{
    if n <= 0 {
        None
    } else if section_is(t, h, n - 1, strtab) {
        Some(n - 1)
    } else {
        last_section(t, h, n - 1, strtab)
    }
}

/// Find the symbol table and the string table among the section headers of `target`
fn find_tables(target: &[u8], h: Header) -> (r: Option<(SectionHeader, SectionHeader)>)
    ensures
        r is Some <==> sections_ok(target@, h) && last_section(target@, h, h.shnum as int, false)
            is Some && last_section(target@, h, h.shnum as int, true) is Some,
        r matches Some((sym, st)) ==> sym == sh_at(
            target@,
            h,
            last_section(target@, h, h.shnum as int, false).unwrap(),
        ) && st == sh_at(target@, h, last_section(target@, h, h.shnum as int, true).unwrap()),
{
    if h.shoff < h.shentsize as usize {
        return None;
    }
    let mut offset = h.shoff - h.shentsize as usize;
    let mut symtab_hdr: Option<SectionHeader> = None;
    let mut strtab_hdr: Option<SectionHeader> = None;
    let mut i: usize = 0;
    while i < h.shnum as usize
        invariant
            h.shoff >= h.shentsize,
            i <= h.shnum,
            offset + h.shentsize == sh_offset(h, i as int),
            forall|j: int|
                0 <= j < i ==> sh_offset(h, j) <= target@.len() && target@.len() - #[trigger] sh_offset(
                    h,
                    j,
                ) > SECTION_HEADER_SIZE,
            symtab_hdr == (match last_section(target@, h, i as int, false) {
                Some(j) => Some(sh_at(target@, h, j)),
                None => None::<SectionHeader>,
            }),
            strtab_hdr == (match last_section(target@, h, i as int, true) {
                Some(j) => Some(sh_at(target@, h, j)),
                None => None::<SectionHeader>,
            }),
        decreases h.shnum - i,
    {
        proof {
            lemma_next_entry(h.shoff as int, i as int, h.shentsize as int);
        }
        if offset > target.len() || target.len() - offset < h.shentsize as usize {
            return None;
        }
        offset = offset + h.shentsize as usize;
        let rest = vstd::slice::slice_subrange(target, offset, target.len());
        let section_hdr = match SectionHeader::new(rest) {
            Some(s) => s,
            None => return None,
        };
        if section_hdr.s_type == 0x2 {
            symtab_hdr = Some(section_hdr);
        } else if section_hdr.s_type == 0x3 && i != h.shstrndx as usize {
            strtab_hdr = Some(section_hdr);
        }
        i = i + 1;
    }
    match (symtab_hdr, strtab_hdr) {
        (Some(a), Some(b)) => Some((a, b)),
        _ => None,
    }
}

// ------------------------------------------------------------------------------------------------
// Symbols
// ------------------------------------------------------------------------------------------------

/// The text that `std::str::from_utf8` reads from `bytes`, or the empty text where they are not
/// valid UTF-8
pub uninterp spec fn utf8_text(bytes: Seq<u8>) -> Seq<char>;

/// `std::str::from_utf8` of std, with invalid UTF-8 read as the empty string. Its result depends
/// on the bytes alone; it is named `utf8_text`. Bytes below 0x80 are ASCII, which UTF-8 reads
/// as the characters with the same numbers.
#[verifier::external_body]
pub(crate) fn text_of(bytes: &[u8]) -> (r: String)
    ensures
        r@ == utf8_text(bytes@),
        (forall|i: int| 0 <= i < bytes@.len() ==> bytes@[i] < 0x80) ==> r@ == bytes@.map_values(
            |b: u8| b as char,
        ),
{
    std::str::from_utf8(bytes).unwrap_or("").to_string()
}

/// File offset of the `k`-th entry of a symbol table
pub open spec fn sym_offset(st: SectionHeader, k: int) -> int {
    st.s_offset + k * st.s_entsize
}

/// The `k`-th entry of the symbol table `st` of the file `t`
pub open spec fn sym_at(t: Seq<u8>, st: SectionHeader, k: int) -> SymbolTable {
    symbol_of(t.subrange(sym_offset(st, k), t.len() as int))
}

/// Number of entries of a symbol table
pub open spec fn n_symbols(st: SectionHeader) -> int {
    st.s_size as int / st.s_entsize as int
}

/// The first NUL at or after `start` in `t` is at `start + n`
pub open spec fn nul_at(t: Seq<u8>, start: int, n: int) -> bool {
    &&& 0 <= n
    &&& start + n < t.len()
    &&& t[start + n] == 0
    &&& forall|j: int| 0 <= j < n ==> #[trigger] t[start + j] != 0
}

/// Length of the name at `start`: up to the next NUL, or the length of the whole file where
/// there is none
pub open spec fn name_len(t: Seq<u8>, start: int) -> int {
    if exists|n: int| nul_at(t, start, n) {
        choose|n: int| nul_at(t, start, n)
    } else {
        t.len() as int
    }
}

/// The `k`-th symbol lies in the file, and so does its name in the string table at `stroff`
pub open spec fn symbol_ok(t: Seq<u8>, st: SectionHeader, stroff: usize, k: int) -> bool {
    let off = sym_offset(st, k);
    let start = stroff + sym_at(t, st, k).sym_name;
    &&& off <= t.len()
    &&& t.len() - off > SYMBOL_SIZE
    &&& start <= t.len()
    &&& start + name_len(t, start) <= t.len()
}

/// Every entry of the symbol table can be read with its name
pub open spec fn symbols_ok(t: Seq<u8>, st: SectionHeader, stroff: usize) -> bool {
    &&& st.s_offset >= st.s_entsize
    &&& st.s_entsize > 0
    &&& forall|k: int| 0 <= k < n_symbols(st) ==> #[trigger] symbol_ok(t, st, stroff, k)
}

/// The symbol names a function (global or local)
pub open spec fn is_function(s: SymbolTable) -> bool {
    s.sym_info == 0x2 || s.sym_info == 0x12
}

/// Address, size and name of the function symbols among the first `k` entries of the symbol
/// table, in table order
pub open spec fn func_syms(t: Seq<u8>, st: SectionHeader, stroff: usize, k: int) -> Seq<(usize, usize, Seq<char>)>
    decreases k,
{
    if k <= 0 {
        Seq::empty()
    } else {
        let s = sym_at(t, st, k - 1);
        let start = stroff + s.sym_name;
        func_syms(t, st, stroff, k - 1) + if is_function(s) {
            seq![(s.sym_value, s.sym_size, utf8_text(t.subrange(start, start + name_len(t, start))))]
        } else {
            Seq::empty()
        }
    }
}

/// Read the function symbols of the symbol table `st`, whose names lie in the string table at
/// `stroff`
fn read_functions(target: &[u8], st: SectionHeader, stroff: usize) -> (r: Option<Vec<(usize, usize, String)>>)
    ensures
        r is Some <==> symbols_ok(target@, st, stroff),
        r matches Some(v) ==> v@.len() == func_syms(target@, st, stroff, n_symbols(st)).len() && forall|i: int|
            0 <= i < v@.len() ==> {
                let e = func_syms(target@, st, stroff, n_symbols(st))[i];
                &&& (#[trigger] v@[i]).0 == e.0
                &&& v@[i].1 == e.1
                &&& v@[i].2@ == e.2
            },
{
    if st.s_offset < st.s_entsize || st.s_entsize == 0 {
        return None;
    }
    let mut offset = st.s_offset - st.s_entsize;
    let num_entries = st.s_size / st.s_entsize;
    let ghost n = n_symbols(st);
    let mut out: Vec<(usize, usize, String)> = Vec::new();
    let mut k: usize = 0;
    while k < num_entries
        invariant
            st.s_offset >= st.s_entsize,
            st.s_entsize > 0,
            num_entries == n,
            n == n_symbols(st),
            k <= n,
            offset + st.s_entsize == sym_offset(st, k as int),
            forall|j: int| 0 <= j < k ==> #[trigger] symbol_ok(target@, st, stroff, j),
            out@.len() == func_syms(target@, st, stroff, k as int).len(),
            forall|i: int|
                0 <= i < out@.len() ==> {
                    let e = func_syms(target@, st, stroff, k as int)[i];
                    &&& (#[trigger] out@[i]).0 == e.0
                    &&& out@[i].1 == e.1
                    &&& out@[i].2@ == e.2
                },
        decreases n - k,
    {
        proof {
            lemma_next_entry(st.s_offset as int, k as int, st.s_entsize as int);
        }
        if offset > target.len() || target.len() - offset < st.s_entsize {
            assert(!symbol_ok(target@, st, stroff, k as int));
            return None;
        }
        offset = offset + st.s_entsize;
        let rest = vstd::slice::slice_subrange(target, offset, target.len());
        let sym_entry = match SymbolTable::new(rest) {
            Some(s) => s,
            None => {
                assert(!symbol_ok(target@, st, stroff, k as int));
                return None;
            },
        };
        assert(sym_entry == sym_at(target@, st, k as int));

        // Extract the name of the entry from the string table
        let str_start = match stroff.checked_add(sym_entry.sym_name as usize) {
            Some(s) => s,
            None => {
                assert(!symbol_ok(target@, st, stroff, k as int));
                return None;
            },
        };
        if str_start > target.len() {
            assert(!symbol_ok(target@, st, stroff, k as int));
            return None;
        }
        let mut str_size: usize = 0;
        let tlen = target.len();
        while str_start + str_size < tlen && target[str_start + str_size] != 0
            invariant
                tlen == target@.len(),
                str_start <= target@.len(),
                str_start + str_size <= target@.len(),
                forall|j: int| 0 <= j < str_size ==> #[trigger] target@[str_start + j] != 0,
            decreases target@.len() - str_start - str_size,
        {
            str_size = str_size + 1;
        }
        let ghost start = str_start as int;
        if str_start + str_size == target.len() {
            // No terminating NUL: the name would reach the end of the whole file
            proof {
                assert(!exists|m: int| nul_at(target@, start, m)) by {
                    if exists|m: int| nul_at(target@, start, m) {
                        let m = choose|m: int| nul_at(target@, start, m);
                        if m < str_size {
                            assert(target@[start + m] != 0);
                        }
                    }
                }
            }
            str_size = target.len();
            if str_start > 0 {
                assert(!symbol_ok(target@, st, stroff, k as int));
                return None;
            }
        } else {
            proof {
                assert(nul_at(target@, start, str_size as int));
                let m = choose|m: int| nul_at(target@, start, m);
                if m < str_size {
                    assert(target@[start + m] != 0);
                }
                if m > str_size {
                    assert(target@[start + str_size] != 0);
                }
                assert(name_len(target@, start) == str_size);
            }
        }
        assert(symbol_ok(target@, st, stroff, k as int));
        if sym_entry.sym_info == 0x2 || sym_entry.sym_info == 0x12 {
            let bytes = vstd::slice::slice_subrange(target, str_start, str_start + str_size);
            let name = text_of(bytes);
            out.push((sym_entry.sym_value, sym_entry.sym_size, name));
        }
        proof {
            let fk = func_syms(target@, st, stroff, k as int);
            let fk1 = func_syms(target@, st, stroff, k + 1);
            assert(fk1 == fk + if is_function(sym_entry) {
                seq![(
                    sym_entry.sym_value,
                    sym_entry.sym_size,
                    utf8_text(target@.subrange(start, start + name_len(target@, start))),
                )]
            } else {
                Seq::empty()
            });
            assert forall|i: int| 0 <= i < out@.len() implies {
                let e = fk1[i];
                &&& (#[trigger] out@[i]).0 == e.0
                &&& out@[i].1 == e.1
                &&& out@[i].2@ == e.2
            } by {
                if i < fk.len() {
                    assert(fk1[i] == fk[i]);
                }
            }
        }
        k = k + 1;
    }
    Some(out)
}

// ------------------------------------------------------------------------------------------------
// The function table
// ------------------------------------------------------------------------------------------------

/// `a` is the address of one of the functions `fs`
pub open spec fn has_addr(fs: Seq<(usize, usize, Seq<char>)>, a: usize) -> bool {
    exists|i: int| 0 <= i < fs.len() && #[trigger] fs[i].0 == a
}

/// `i` is the last of the functions `fs` at its address
pub open spec fn is_last(fs: Seq<(usize, usize, Seq<char>)>, i: int) -> bool {
    &&& 0 <= i < fs.len()
    &&& forall|j: int| i < j < fs.len() ==> #[trigger] fs[j].0 != fs[i].0
}

/// Index of the last of the functions `fs` at address `a`
pub open spec fn last_at(fs: Seq<(usize, usize, Seq<char>)>, a: usize) -> int {
    choose|i: int| is_last(fs, i) && fs[i].0 == a
}

/// Some function of `fs` starts above `a`
pub open spec fn has_next(fs: Seq<(usize, usize, Seq<char>)>, a: usize) -> bool {
    exists|i: int| 0 <= i < fs.len() && #[trigger] fs[i].0 > a
}

/// The lowest function address of `fs` above `a`
pub open spec fn next_addr(fs: Seq<(usize, usize, Seq<char>)>, a: usize) -> usize {
    choose|v: usize|
        has_addr(fs, v) && v > a && forall|i: int| 0 <= i < fs.len() && fs[i].0 > a ==> v <= #[trigger] fs[i].0
}

/// The size the function table records for the function at `a`: its listed size, or, for a
/// function listed with size 0, the distance to the next function
pub open spec fn func_size(fs: Seq<(usize, usize, Seq<char>)>, a: usize) -> usize {
    let e = fs[last_at(fs, a)];
    if e.1 != 0 {
        e.1
    } else {
        (next_addr(fs, a) - a) as usize
    }
}

/// Every function listed with size 0 has a function after it
pub open spec fn sizes_ok(fs: Seq<(usize, usize, Seq<char>)>) -> bool {
    forall|i: int| #[trigger] is_last(fs, i) && fs[i].1 == 0 ==> has_next(fs, fs[i].0)
}

/// The function table `new` is `old` with an entry, address to size and name, for each function
/// of `fs`; of several functions at one address, the last one listed counts
pub open spec fn functions_added(
    old: Map<usize, (usize, String)>,
    new: Map<usize, (usize, String)>,
    fs: Seq<(usize, usize, Seq<char>)>,
) -> bool {
    &&& forall|a: usize| #[trigger] new.contains_key(a) <==> old.contains_key(a) || has_addr(fs, a)
    &&& forall|a: usize|
        has_addr(fs, a) ==> (#[trigger] new[a]).0 == func_size(fs, a) && new[a].1@ == fs[last_at(fs, a)].2
    &&& forall|a: usize| !has_addr(fs, a) && old.contains_key(a) ==> #[trigger] new[a] == old[a]
}

/// Every address of the functions has a last function at it
proof fn lemma_last_exists(fs: Seq<(usize, usize, Seq<char>)>, w: int)
    requires
        0 <= w < fs.len(),
    ensures
        exists|k: int| #[trigger] is_last(fs, k) && fs[k].0 == fs[w].0,
    decreases fs.len() - w,
{
    if !is_last(fs, w) {
        let j = choose|j: int| w < j < fs.len() && #[trigger] fs[j].0 == fs[w].0;
        lemma_last_exists(fs, j);
    }
}

/// `i` is the last of the functions at its address, found by looking at the later entries
fn last_of_addr(fs: &Vec<(usize, usize, String)>, i: usize) -> (r: bool)
    requires
        i < fs@.len(),
    ensures
        r == (forall|j: int| i < j < fs@.len() ==> #[trigger] fs@[j].0 != fs@[i as int].0),
{
    let n = fs.len();
    let mut j = i + 1;
    while j < n
        invariant
            n == fs@.len(),
            i < j <= fs@.len(),
            forall|m: int| i < m < j ==> #[trigger] fs@[m].0 != fs@[i as int].0,
        decreases fs@.len() - j,
    {
        if fs[j].0 == fs[i].0 {
            return false;
        }
        j = j + 1;
    }
    true
}

/// The lowest function address above `a`, if any
fn next_above(fs: &Vec<(usize, usize, String)>, a: usize) -> (r: Option<usize>)
    ensures
        r is Some <==> exists|i: int| 0 <= i < fs@.len() && #[trigger] fs@[i].0 > a,
        r matches Some(v) ==> (exists|i: int| 0 <= i < fs@.len() && #[trigger] fs@[i].0 == v) && v > a
            && forall|i: int| 0 <= i < fs@.len() && fs@[i].0 > a ==> v <= #[trigger] fs@[i].0,
{
    let mut best: Option<usize> = None;
    let mut j: usize = 0;
    while j < fs.len()
        invariant
            j <= fs@.len(),
            best is Some <==> exists|i: int| 0 <= i < j && #[trigger] fs@[i].0 > a,
            best matches Some(v) ==> (exists|i: int| 0 <= i < j && #[trigger] fs@[i].0 == v) && v > a
                && forall|i: int| 0 <= i < j && fs@[i].0 > a ==> v <= #[trigger] fs@[i].0,
        decreases fs@.len() - j,
    {
        let v = fs[j].0;
        if v > a {
            match best {
                Some(b) => {
                    if v < b {
                        best = Some(v);
                    }
                },
                None => {
                    best = Some(v);
                },
            }
        }
        j = j + 1;
    }
    best
}

/// The symbol table of the file
pub open spec fn symtab_of(t: Seq<u8>, h: Header) -> SectionHeader {
    sh_at(t, h, last_section(t, h, h.shnum as int, false).unwrap())
}

/// The string table of the file
pub open spec fn strtab_of(t: Seq<u8>, h: Header) -> SectionHeader {
    sh_at(t, h, last_section(t, h, h.shnum as int, true).unwrap())
}

/// The function symbols of the file, in table order
pub open spec fn elf_functions(t: Seq<u8>, h: Header) -> Seq<(usize, usize, Seq<char>)> {
    let st = symtab_of(t, h);
    func_syms(t, st, strtab_of(t, h).s_offset, n_symbols(st))
}

/// A file with an acceptable header can be loaded: its segments fit guest memory of `memlen`
/// bytes, it has a symbol table and a string table, its symbols can be read, and every function
/// listed with size 0 has a function after it
pub open spec fn elf_loadable(t: Seq<u8>, h: Header, memlen: int) -> bool {
    &&& segments_ok(t, h, memlen)
    &&& sections_ok(t, h)
    &&& last_section(t, h, h.shnum as int, false) is Some
    &&& last_section(t, h, h.shnum as int, true) is Some
    &&& symbols_ok(t, symtab_of(t, h), strtab_of(t, h).s_offset)
    &&& sizes_ok(elf_functions(t, h))
}

/// The functions of `fs` as plain values
pub open spec fn funcs_view(fs: Seq<(usize, usize, String)>) -> Seq<(usize, usize, Seq<char>)> {
    fs.map_values(|e: (usize, usize, String)| (e.0, e.1, e.2@))
}

/// Record the functions `fs` in the emulator's function table. A function listed with size 0
/// (such as `frame_dummy`) gets the distance to the next function as its size; one of those at the
/// highest address has no size to take, and the table is then left incomplete.
fn register_functions(emu: &mut Emulator, fs: &Vec<(usize, usize, String)>) -> (r: bool)
    requires
        old(emu).wf(),
    ensures
        final(emu).wf(),
        r == sizes_ok(funcs_view(fs@)),
        r ==> functions_added(old(emu).functions@, final(emu).functions@, funcs_view(fs@)),
        final(emu).memory == old(emu).memory,
        final(emu).regs == old(emu).regs,
        final(emu).fd_list == old(emu).fd_list,
{
    let ghost fv = funcs_view(fs@);
    let n = fs.len();
    let mut i: usize = 0;
    while i < n
        invariant
            emu.wf(),
            n == fs@.len(),
            fv == funcs_view(fs@),
            fv.len() == n,
            i <= n,
            forall|k: int| 0 <= k < i ==> #[trigger] is_last(fv, k) && fv[k].1 == 0 ==> has_next(fv, fv[k].0),
            forall|a: usize|
                #[trigger] emu.functions@.contains_key(a) <==> old(emu).functions@.contains_key(a) || exists|k: int|
                    0 <= k < i && is_last(fv, k) && fv[k].0 == a,
            forall|k: int|
                0 <= k < i && #[trigger] is_last(fv, k) ==> emu.functions@[fv[k].0].0 == func_size(fv, fv[k].0)
                    && emu.functions@[fv[k].0].1@ == fv[k].2,
            forall|a: usize|
                !has_addr(fv, a) && old(emu).functions@.contains_key(a) ==> #[trigger] emu.functions@[a]
                    == old(emu).functions@[a],
            emu.memory == old(emu).memory,
            emu.regs == old(emu).regs,
            emu.fd_list == old(emu).fd_list,
        decreases n - i,
    {
        let a = fs[i].0;
        assert(fv[i as int].0 == a);
        if last_of_addr(fs, i) {
            assert(is_last(fv, i as int));
            assert(last_at(fv, a) == i) by {
                let l = last_at(fv, a);
                assert(is_last(fv, l) && fv[l].0 == a);
                if l < i {
                    assert(fv[i as int].0 != fv[l].0);
                }
                if l > i {
                    assert(fv[l].0 != fv[i as int].0);
                }
            }
            let size = if fs[i].1 != 0 {
                fs[i].1
            } else {
                match next_above(fs, a) {
                    Some(v) => {
                        proof {
                            assert(has_addr(fv, v)) by {
                                let w = choose|w: int| 0 <= w < fs@.len() && #[trigger] fs@[w].0 == v;
                                assert(fv[w].0 == v);
                            }
                            assert forall|k: int| 0 <= k < fv.len() && fv[k].0 > a implies v <= #[trigger] fv[k].0 by {
                                assert(fs@[k].0 == fv[k].0);
                            }
                            assert(next_addr(fv, a) == v) by {
                                let m = next_addr(fv, a);
                                assert(has_addr(fv, v) && v > a && forall|k: int|
                                    0 <= k < fv.len() && fv[k].0 > a ==> v <= #[trigger] fv[k].0);
                                let wm = choose|w: int| 0 <= w < fv.len() && #[trigger] fv[w].0 == m;
                                let wv = choose|w: int| 0 <= w < fv.len() && #[trigger] fv[w].0 == v;
                            }
                        }
                        v - a
                    },
                    None => {
                        proof {
                            assert(!has_next(fv, a)) by {
                                if has_next(fv, a) {
                                    let w = choose|w: int| 0 <= w < fv.len() && #[trigger] fv[w].0 > a;
                                    assert(fs@[w].0 == fv[w].0);
                                }
                            }
                            assert(!sizes_ok(fv));
                        }
                        return false;
                    },
                }
            };
            let name = fs[i].2.clone();
            emu.functions.insert(a, (size, name));
            proof {
                assert(fv[i as int].2 == fs@[i as int].2@);
                assert forall|k: int| 0 <= k < i && #[trigger] is_last(fv, k) implies fv[k].0 != a by {
                    assert(fv[i as int].0 != fv[k].0);
                }
            }
        } else {
            proof {
                let j = choose|j: int| i < j < fs@.len() && #[trigger] fs@[j].0 == fs@[i as int].0;
                assert(fv[j].0 == fv[i as int].0);
                assert(!is_last(fv, i as int));
            }
        }
        i = i + 1;
    }
    proof {
        assert forall|a: usize| has_addr(fv, a) implies #[trigger] is_last(fv, last_at(fv, a)) && fv[last_at(fv, a)].0 == a by {
            let w = choose|w: int| 0 <= w < fv.len() && #[trigger] fv[w].0 == a;
            lemma_last_exists(fv, w);
        }
        assert forall|a: usize| #[trigger] emu.functions@.contains_key(a) <==> old(emu).functions@.contains_key(a) || has_addr(fv, a) by {
            if has_addr(fv, a) {
                let w = choose|w: int| 0 <= w < fv.len() && #[trigger] fv[w].0 == a;
                lemma_last_exists(fv, w);
            }
            if exists|k: int| 0 <= k < n && is_last(fv, k) && fv[k].0 == a {
                let k = choose|k: int| 0 <= k < n && is_last(fv, k) && fv[k].0 == a;
                assert(fv[k].0 == a);
            }
        }
        assert forall|a: usize| has_addr(fv, a) implies (#[trigger] emu.functions@[a]).0 == func_size(fv, a)
            && emu.functions@[a].1@ == fv[last_at(fv, a)].2 by {
            let w = choose|w: int| 0 <= w < fv.len() && #[trigger] fv[w].0 == a;
            lemma_last_exists(fv, w);
            let l = last_at(fv, a);
            assert(is_last(fv, l));
        }
    }
    true
}

/// Parse the ELF file `target`: check that its header names a 64-bit little-endian RISC-V
/// executable, load each loadable segment into the emulator's memory, record every function of
/// its symbol table in the emulator's function table, and start the emulator at the entry point.
/// The answer lists the name and address of each function symbol, in table order.
pub fn load_elf_segments(target: &[u8], emu: &mut Emulator) -> (r: Result<Vec<(String, usize)>, LoadError>)
    requires
        old(emu).wf(),
    ensures
        final(emu).wf(),
        target@.len() <= crate::elfparser::HEADER_SIZE ==> r matches Err(LoadError::Malformed),
        target@.len() > crate::elfparser::HEADER_SIZE ==> ({
            let h = header_of(target@);
            match header_problem(h) {
                Some(m) => r matches Err(LoadError::Unsupported(e)) && e@ == m,
                None => {
                    &&& (r is Ok <==> elf_loadable(target@, h, old(emu).memory.memory@.len() as int))
                    &&& r matches Ok(syms) ==> {
                        let fs = elf_functions(target@, h);
                        &&& segments_loaded(old(emu).memory, final(emu).memory, target@, h, h.phnum as int)
                        &&& functions_added(old(emu).functions@, final(emu).functions@, fs)
                        &&& final(emu).regs@ == old(emu).regs@.update(Register::Pc.id(), h.entry_addr)
                        &&& files_view(final(emu).fd_list@) == files_view(old(emu).fd_list@)
                        &&& syms@.len() == fs.len()
                        &&& forall|i: int|
                            0 <= i < fs.len() ==> (#[trigger] syms@[i]).0@ == fs[i].2 && syms@[i].1 == fs[i].0
                    }
                },
            }
        }),
{
    let elf_hdr = match Header::new(target) {
        Some(h) => h,
        None => return Err(LoadError::Malformed),
    };
    if let Err(error) = verify_elf_hdr(elf_hdr) {
        return Err(LoadError::Unsupported(error));
    }
    if !load_segments(target, elf_hdr, emu) {
        return Err(LoadError::Malformed);
    }
    let (symtab_hdr, strtab_hdr) = match find_tables(target, elf_hdr) {
        Some(t) => t,
        None => return Err(LoadError::Malformed),
    };
    let fs = match read_functions(target, symtab_hdr, strtab_hdr.s_offset) {
        Some(f) => f,
        None => return Err(LoadError::Malformed),
    };
    proof {
        assert(funcs_view(fs@) =~= elf_functions(target@, elf_hdr));
    }
    if !register_functions(emu, &fs) {
        return Err(LoadError::Malformed);
    }
    let mut syms: Vec<(String, usize)> = Vec::new();
    let mut i: usize = 0;
    while i < fs.len()
        invariant
            i <= fs@.len(),
            syms@.len() == i,
            forall|k: int| 0 <= k < i ==> (#[trigger] syms@[k]).0@ == fs@[k].2@ && syms@[k].1 == fs@[k].0,
        decreases fs@.len() - i,
    {
        syms.push((fs[i].2.clone(), fs[i].0));
        i = i + 1;
    }
    emu.set_reg(Register::Pc, elf_hdr.entry_addr);
    proof {
        let fv = elf_functions(target@, elf_hdr);
        assert forall|k: int| 0 <= k < fv.len() implies (#[trigger] syms@[k]).0@ == fv[k].2 && syms@[k].1 == fv[k].0 by {
            assert(funcs_view(fs@)[k] == fv[k]);
        }
    }
    Ok(syms)
}

} // verus!
