use vstd::prelude::*;

use crate::registers::{reg_of, Register};

verus! {

/// A decoded RV64IM instruction
#[derive(Clone, Copy, Debug, PartialEq, Eq)]
pub enum Instr {
    Nil,
    Fence,
    Ecall,
    Ebreak,
    Lui { rd: Register, imm: i32 },
    Auipc { rd: Register, imm: i32 },
    Jal { rd: Register, imm: i32 },
    Jalr { rd: Register, rs1: Register, imm: i32 },
    Beq { rs1: Register, rs2: Register, imm: i32, mode: u8 },
    Bne { rs1: Register, rs2: Register, imm: i32, mode: u8 },
    Blt { rs1: Register, rs2: Register, imm: i32, mode: u8 },
    Bge { rs1: Register, rs2: Register, imm: i32, mode: u8 },
    Bltu { rs1: Register, rs2: Register, imm: i32, mode: u8 },
    Bgeu { rs1: Register, rs2: Register, imm: i32, mode: u8 },
    Lb { rd: Register, rs1: Register, imm: i32, mode: u8 },
    Lh { rd: Register, rs1: Register, imm: i32, mode: u8 },
    Lw { rd: Register, rs1: Register, imm: i32, mode: u8 },
    Lbu { rd: Register, rs1: Register, imm: i32, mode: u8 },
    Lhu { rd: Register, rs1: Register, imm: i32, mode: u8 },
    Sb { rs1: Register, rs2: Register, imm: i32, mode: u8 },
    Sh { rs1: Register, rs2: Register, imm: i32, mode: u8 },
    Sw { rs1: Register, rs2: Register, imm: i32, mode: u8 },
    Addi { rd: Register, rs1: Register, imm: i32 },
    Slti { rd: Register, rs1: Register, imm: i32 },
    Sltiu { rd: Register, rs1: Register, imm: i32 },
    Xori { rd: Register, rs1: Register, imm: i32 },
    Ori { rd: Register, rs1: Register, imm: i32 },
    Andi { rd: Register, rs1: Register, imm: i32 },
    Add { rd: Register, rs1: Register, rs2: Register },
    Sub { rd: Register, rs1: Register, rs2: Register },
    Sll { rd: Register, rs1: Register, rs2: Register },
    Slt { rd: Register, rs1: Register, rs2: Register },
    Sltu { rd: Register, rs1: Register, rs2: Register },
    Xor { rd: Register, rs1: Register, rs2: Register },
    Srl { rd: Register, rs1: Register, rs2: Register },
    Sra { rd: Register, rs1: Register, rs2: Register },
    Or { rd: Register, rs1: Register, rs2: Register },
    And { rd: Register, rs1: Register, rs2: Register },
    Lwu { rd: Register, rs1: Register, imm: i32, mode: u8 },
    Ld { rd: Register, rs1: Register, imm: i32, mode: u8 },
    Sd { rs1: Register, rs2: Register, imm: i32, mode: u8 },
    Slli { rd: Register, rs1: Register, imm: i32 },
    Srli { rd: Register, rs1: Register, imm: i32 },
    Srai { rd: Register, rs1: Register, imm: i32 },
    Addiw { rd: Register, rs1: Register, imm: i32 },
    Slliw { rd: Register, rs1: Register, imm: i32 },
    Srliw { rd: Register, rs1: Register, imm: i32 },
    Sraiw { rd: Register, rs1: Register, imm: i32 },
    Addw { rd: Register, rs1: Register, rs2: Register },
    Subw { rd: Register, rs1: Register, rs2: Register },
    Sllw { rd: Register, rs1: Register, rs2: Register },
    Srlw { rd: Register, rs1: Register, rs2: Register },
    Sraw { rd: Register, rs1: Register, rs2: Register },
    Mul { rd: Register, rs1: Register, rs2: Register },
    Mulh { rd: Register, rs1: Register, rs2: Register },
    Mulhsu { rd: Register, rs1: Register, rs2: Register },
    Mulhu { rd: Register, rs1: Register, rs2: Register },
    Div { rd: Register, rs1: Register, rs2: Register },
    Divu { rd: Register, rs1: Register, rs2: Register },
    Rem { rd: Register, rs1: Register, rs2: Register },
    Remu { rd: Register, rs1: Register, rs2: Register },
    Mulw { rd: Register, rs1: Register, rs2: Register },
    Divw { rd: Register, rs1: Register, rs2: Register },
    Divuw { rd: Register, rs1: Register, rs2: Register },
    Remw { rd: Register, rs1: Register, rs2: Register },
    Remuw { rd: Register, rs1: Register, rs2: Register },
}

// ------------------------------------------------------------------------------------------------
// Instruction fields, as the RISC-V base ISA lays them out
// ------------------------------------------------------------------------------------------------

/// inst[6:0]
pub open spec fn opcode(i: u32) -> u32 {
    i & 0x7f
}

/// inst[11:7]
pub open spec fn rd_bits(i: u32) -> u32 {
    (i >> 7u32) & 0x1f
}

/// inst[14:12]
pub open spec fn funct3(i: u32) -> u32 {
    (i >> 12u32) & 0x7
}

/// inst[19:15]
pub open spec fn rs1_bits(i: u32) -> u32 {
    (i >> 15u32) & 0x1f
}

/// inst[24:20]
pub open spec fn rs2_bits(i: u32) -> u32 {
    (i >> 20u32) & 0x1f
}

/// inst[31:25]
pub open spec fn funct7(i: u32) -> u32 {
    i >> 25u32
}

/// inst[31:26]
pub open spec fn funct6(i: u32) -> u32 {
    i >> 26u32
}

pub open spec fn rd(i: u32) -> Register {
    reg_of(rd_bits(i))
}

pub open spec fn rs1(i: u32) -> Register {
    reg_of(rs1_bits(i))
}

pub open spec fn rs2(i: u32) -> Register {
    reg_of(rs2_bits(i))
}

/// I-type immediate: inst[31:20], sign-extended
pub open spec fn i_imm(i: u32) -> i32 {
    let v = (i >> 20u32) as i32;
    if v >= 2048 {
        (v - 4096) as i32
    } else {
        v
    }
}

/// S-type immediate: inst[31:25] ++ inst[11:7], sign-extended
pub open spec fn s_imm(i: u32) -> i32 {
    let v = (((i >> 25u32) << 5u32) | ((i >> 7u32) & 0x1f)) as i32;
    if v >= 2048 {
        (v - 4096) as i32
    } else {
        v
    }
}

/// B-type immediate: inst[31] ++ inst[7] ++ inst[30:25] ++ inst[11:8] ++ 0, sign-extended
pub open spec fn b_imm(i: u32) -> i32 {
    let v = (((i >> 31u32) << 12u32) | (((i >> 7u32) & 1) << 11u32) | (((i >> 25u32) & 0x3f) << 5u32)
        | (((i >> 8u32) & 0xf) << 1u32)) as i32;
    if v >= 4096 {
        (v - 8192) as i32
    } else {
        v
    }
}

/// U-type immediate: inst[31:12] ++ 12 zero bits
pub open spec fn u_imm(i: u32) -> i32 {
    (i & 0xfffff000) as i32
}

/// J-type immediate: inst[31] ++ inst[19:12] ++ inst[20] ++ inst[30:21] ++ 0, sign-extended
pub open spec fn j_imm(i: u32) -> i32 {
    let v = (((i >> 31u32) << 20u32) | (((i >> 12u32) & 0xff) << 12u32) | (((i >> 20u32) & 1) << 11u32)
        | (((i >> 21u32) & 0x3ff) << 1u32)) as i32;
    if v >= 0x100000 {
        (v - 0x200000) as i32
    } else {
        v
    }
}

/// 6-bit shift amount of the 64-bit immediate shifts: inst[25:20]
pub open spec fn shamt6(i: u32) -> i32 {
    ((i >> 20u32) & 0x3f) as i32
}

/// 5-bit shift amount of the 32-bit immediate shifts: inst[24:20]
pub open spec fn shamt5(i: u32) -> i32 {
    ((i >> 20u32) & 0x1f) as i32
}

/// What the decoder makes of an instruction word: `None` where the word belongs to a supported
/// major opcode but no instruction of it, `Some(Err(word))` for an unsupported major opcode, and
/// `Some(Ok(instr))` otherwise.
pub open spec fn spec_decode(i: u32) -> Option<Result<Instr, u32>> {
    let f3 = funct3(i);
    let f7 = funct7(i);
    if i == 0 {
        Some(Ok(Instr::Nil))
    } else if opcode(i) == 0x37 {
        Some(Ok(Instr::Lui { rd: rd(i), imm: u_imm(i) }))
    } else if opcode(i) == 0x17 {
        Some(Ok(Instr::Auipc { rd: rd(i), imm: u_imm(i) }))
    } else if opcode(i) == 0x6f {
        Some(Ok(Instr::Jal { rd: rd(i), imm: j_imm(i) }))
    } else if opcode(i) == 0x67 {
        Some(Ok(Instr::Jalr { rd: rd(i), rs1: rs1(i), imm: i_imm(i) }))
    } else if opcode(i) == 0x63 {
        let (a, b, imm) = (rs1(i), rs2(i), b_imm(i));
        if f3 == 0 {
            Some(Ok(Instr::Beq { rs1: a, rs2: b, imm, mode: 0 }))
        } else if f3 == 1 {
            Some(Ok(Instr::Bne { rs1: a, rs2: b, imm, mode: 1 }))
        } else if f3 == 4 {
            Some(Ok(Instr::Blt { rs1: a, rs2: b, imm, mode: 4 }))
        } else if f3 == 5 {
            Some(Ok(Instr::Bge { rs1: a, rs2: b, imm, mode: 5 }))
        } else if f3 == 6 {
            Some(Ok(Instr::Bltu { rs1: a, rs2: b, imm, mode: 6 }))
        } else if f3 == 7 {
            Some(Ok(Instr::Bgeu { rs1: a, rs2: b, imm, mode: 7 }))
        } else {
            None
        }
    } else if opcode(i) == 0x03 {
        let (d, a, imm) = (rd(i), rs1(i), i_imm(i));
        if f3 == 0 {
            Some(Ok(Instr::Lb { rd: d, rs1: a, imm, mode: 0 }))
        } else if f3 == 1 {
            Some(Ok(Instr::Lh { rd: d, rs1: a, imm, mode: 1 }))
        } else if f3 == 2 {
            Some(Ok(Instr::Lw { rd: d, rs1: a, imm, mode: 2 }))
        } else if f3 == 4 {
            Some(Ok(Instr::Lbu { rd: d, rs1: a, imm, mode: 4 }))
        } else if f3 == 5 {
            Some(Ok(Instr::Lhu { rd: d, rs1: a, imm, mode: 5 }))
        } else if f3 == 6 {
            Some(Ok(Instr::Lwu { rd: d, rs1: a, imm, mode: 6 }))
        } else if f3 == 3 {
            Some(Ok(Instr::Ld { rd: d, rs1: a, imm, mode: 3 }))
        } else {
            None
        }
    } else if opcode(i) == 0x23 {
        let (a, b, imm) = (rs1(i), rs2(i), s_imm(i));
        if f3 == 0 {
            Some(Ok(Instr::Sb { rs1: a, rs2: b, imm, mode: 0 }))
        } else if f3 == 1 {
            Some(Ok(Instr::Sh { rs1: a, rs2: b, imm, mode: 1 }))
        } else if f3 == 2 {
            Some(Ok(Instr::Sw { rs1: a, rs2: b, imm, mode: 2 }))
        } else if f3 == 3 {
            Some(Ok(Instr::Sd { rs1: a, rs2: b, imm, mode: 3 }))
        } else {
            None
        }
    } else if opcode(i) == 0x13 {
        let (d, a, imm) = (rd(i), rs1(i), i_imm(i));
        if f3 == 0 {
            Some(Ok(Instr::Addi { rd: d, rs1: a, imm }))
        } else if f3 == 2 {
            Some(Ok(Instr::Slti { rd: d, rs1: a, imm }))
        } else if f3 == 3 {
            Some(Ok(Instr::Sltiu { rd: d, rs1: a, imm }))
        } else if f3 == 4 {
            Some(Ok(Instr::Xori { rd: d, rs1: a, imm }))
        } else if f3 == 6 {
            Some(Ok(Instr::Ori { rd: d, rs1: a, imm }))
        } else if f3 == 7 {
            Some(Ok(Instr::Andi { rd: d, rs1: a, imm }))
        } else if f3 == 1 {
            Some(Ok(Instr::Slli { rd: d, rs1: a, imm: shamt6(i) }))
        } else if funct6(i) == 0 {
            Some(Ok(Instr::Srli { rd: d, rs1: a, imm: shamt6(i) }))
        } else if funct6(i) == 0x10 {
            Some(Ok(Instr::Srai { rd: d, rs1: a, imm: shamt6(i) }))
        } else {
            None
        }
    } else if opcode(i) == 0x33 {
        let (d, a, b) = (rd(i), rs1(i), rs2(i));
        if f3 == 0 && f7 == 0 {
            Some(Ok(Instr::Add { rd: d, rs1: a, rs2: b }))
        } else if f3 == 0 && f7 == 0x20 {
            Some(Ok(Instr::Sub { rd: d, rs1: a, rs2: b }))
        } else if f3 == 0 && f7 == 1 {
            Some(Ok(Instr::Mul { rd: d, rs1: a, rs2: b }))
        } else if f3 == 1 && f7 == 0 {
            Some(Ok(Instr::Sll { rd: d, rs1: a, rs2: b }))
        } else if f3 == 1 && f7 == 1 {
            Some(Ok(Instr::Mulh { rd: d, rs1: a, rs2: b }))
        } else if f3 == 2 && f7 == 0 {
            Some(Ok(Instr::Slt { rd: d, rs1: a, rs2: b }))
        } else if f3 == 2 && f7 == 1 {
            Some(Ok(Instr::Mulhsu { rd: d, rs1: a, rs2: b }))
        } else if f3 == 3 && f7 == 0 {
            Some(Ok(Instr::Sltu { rd: d, rs1: a, rs2: b }))
        } else if f3 == 3 && f7 == 1 {
            Some(Ok(Instr::Mulhu { rd: d, rs1: a, rs2: b }))
        } else if f3 == 4 && f7 == 0 {
            Some(Ok(Instr::Xor { rd: d, rs1: a, rs2: b }))
        } else if f3 == 4 && f7 == 1 {
            Some(Ok(Instr::Div { rd: d, rs1: a, rs2: b }))
        } else if f3 == 5 && f7 == 0 {
            Some(Ok(Instr::Srl { rd: d, rs1: a, rs2: b }))
        } else if f3 == 5 && f7 == 0x20 {
            Some(Ok(Instr::Sra { rd: d, rs1: a, rs2: b }))
        } else if f3 == 5 && f7 == 1 {
            Some(Ok(Instr::Divu { rd: d, rs1: a, rs2: b }))
        } else if f3 == 6 && f7 == 0 {
            Some(Ok(Instr::Or { rd: d, rs1: a, rs2: b }))
        } else if f3 == 6 && f7 == 1 {
            Some(Ok(Instr::Rem { rd: d, rs1: a, rs2: b }))
        } else if f3 == 7 && f7 == 0 {
            Some(Ok(Instr::And { rd: d, rs1: a, rs2: b }))
        } else if f3 == 7 && f7 == 1 {
            Some(Ok(Instr::Remu { rd: d, rs1: a, rs2: b }))
        } else {
            None
        }
    } else if opcode(i) == 0x0f {
        Some(Ok(Instr::Fence))
    } else if opcode(i) == 0x73 {
        if i == 0x73 {
            Some(Ok(Instr::Ecall))
        } else if i == 0x100073 {
            Some(Ok(Instr::Ebreak))
        } else {
            None
        }
    } else if opcode(i) == 0x1b {
        let (d, a) = (rd(i), rs1(i));
        if f3 == 0 {
            Some(Ok(Instr::Addiw { rd: d, rs1: a, imm: i_imm(i) }))
        } else if f3 == 1 {
            Some(Ok(Instr::Slliw { rd: d, rs1: a, imm: shamt5(i) }))
        } else if f3 == 5 && f7 == 0 {
            Some(Ok(Instr::Srliw { rd: d, rs1: a, imm: shamt5(i) }))
        } else if f3 == 5 && f7 == 0x20 {
            Some(Ok(Instr::Sraiw { rd: d, rs1: a, imm: shamt5(i) }))
        } else {
            None
        }
    } else if opcode(i) == 0x3b {
        let (d, a, b) = (rd(i), rs1(i), rs2(i));
        if f3 == 0 && f7 == 0 {
            Some(Ok(Instr::Addw { rd: d, rs1: a, rs2: b }))
        } else if f3 == 0 && f7 == 0x20 {
            Some(Ok(Instr::Subw { rd: d, rs1: a, rs2: b }))
        } else if f3 == 0 && f7 == 1 {
            Some(Ok(Instr::Mulw { rd: d, rs1: a, rs2: b }))
        } else if f3 == 1 && f7 == 0 {
            Some(Ok(Instr::Sllw { rd: d, rs1: a, rs2: b }))
        } else if f3 == 5 && f7 == 0 {
            Some(Ok(Instr::Srlw { rd: d, rs1: a, rs2: b }))
        } else if f3 == 5 && f7 == 0x20 {
            Some(Ok(Instr::Sraw { rd: d, rs1: a, rs2: b }))
        } else if f3 == 5 && f7 == 1 {
            Some(Ok(Instr::Divuw { rd: d, rs1: a, rs2: b }))
        } else if f3 == 4 && f7 == 1 {
            Some(Ok(Instr::Divw { rd: d, rs1: a, rs2: b }))
        } else if f3 == 6 && f7 == 1 {
            Some(Ok(Instr::Remw { rd: d, rs1: a, rs2: b }))
        } else if f3 == 7 && f7 == 1 {
            Some(Ok(Instr::Remuw { rd: d, rs1: a, rs2: b }))
        } else {
            None
        }
    } else {
        Some(Err(i))
    }
}

/// The register that the 5-bit field at bit `lo` of an instruction word names
pub open spec fn field_reg(w: u32, lo: u32) -> Register {
    reg_of((w >> lo) & 0x1f)
}

/// An I-type word: the 12-bit immediate in bits 31..20 over the other fields `rest`
pub open spec fn i_encode(imm: i32, rest: u32) -> u32 {
    (((imm as u32) & 0xfff) << 20u32) | (rest & 0xfffff)
}

/// An S-type word: immediate bits 11..5 in bits 31..25 and bits 4..0 in bits 11..7
pub open spec fn s_encode(imm: i32, rest: u32) -> u32 {
    ((((imm as u32) >> 5u32) & 0x7f) << 25u32) | (((imm as u32) & 0x1f) << 7u32) | (rest & 0x1fff07f)
}

/// A B-type word: immediate bit 12 in bit 31, bits 10..5 in bits 30..25, bits 4..1 in bits
/// 11..8 and bit 11 in bit 7
pub open spec fn b_encode(imm: i32, rest: u32) -> u32 {
    ((((imm as u32) >> 12u32) & 1) << 31u32) | ((((imm as u32) >> 5u32) & 0x3f) << 25u32) | ((((imm as u32)
        >> 1u32) & 0xf) << 8u32) | ((((imm as u32) >> 11u32) & 1) << 7u32) | (rest & 0x1fff07f)
}

/// A J-type word: immediate bit 20 in bit 31, bits 10..1 in bits 30..21, bit 11 in bit 20 and
/// bits 19..12 in bits 19..12
pub open spec fn j_encode(imm: i32, rest: u32) -> u32 {
    ((((imm as u32) >> 20u32) & 1) << 31u32) | ((((imm as u32) >> 1u32) & 0x3ff) << 21u32) | ((((imm as u32)
        >> 11u32) & 1) << 20u32) | ((((imm as u32) >> 12u32) & 0xff) << 12u32) | (rest & 0xfff)
}

/// The immediates come back out of the words that the ISA's layouts put them in, whatever the
/// other fields hold: 12-bit signed immediates of the I- and S-types, even 13-bit signed branch
/// offsets of the B-type and even 21-bit signed jump offsets of the J-type
pub proof fn lemma_immediates_round_trip(imm: i32, rest: u32)
    by (bit_vector)
    ensures
        -2048 <= imm < 2048 ==> i_imm(i_encode(imm, rest)) == imm,
        -2048 <= imm < 2048 ==> s_imm(s_encode(imm, rest)) == imm,
        -4096 <= imm < 4096 && imm % 2 == 0 ==> b_imm(b_encode(imm, rest)) == imm,
        -0x100000 <= imm < 0x100000 && imm % 2 == 0 ==> j_imm(j_encode(imm, rest)) == imm,
{
}

/// A word whose low seven bits are not all zero is not the zero word
proof fn lemma_opcode_nonzero()
    by (bit_vector)
    ensures
        forall|w: u32| (w & 0x7f) != 0 ==> w != 0,
{
}

/// How the ISA decodes the register-register instructions (major opcode 0x33, RV64I and M): funct7 0 selects add, sll, slt, sltu, xor, srl, or, and by funct3; funct7 0x20 selects sub and sra; funct7 1 the multiplies, divides and remainders: the destination is the register of bits 11..7 and the
/// sources those of bits 19..15 and 24..20
pub proof fn lemma_decode_op()
    ensures
        forall|w: u32| (w & 0x7f) == 0x33 && ((w >> 12u32) & 0x7) == 0 && (w >> 25u32) == 0x0 ==> #[trigger] spec_decode(w) == Some(Ok::<Instr, u32>(Instr::Add { rd: field_reg(w, 7), rs1: field_reg(w, 15), rs2: field_reg(w, 20) })),
        forall|w: u32| (w & 0x7f) == 0x33 && ((w >> 12u32) & 0x7) == 0 && (w >> 25u32) == 0x20 ==> #[trigger] spec_decode(w) == Some(Ok::<Instr, u32>(Instr::Sub { rd: field_reg(w, 7), rs1: field_reg(w, 15), rs2: field_reg(w, 20) })),
        forall|w: u32| (w & 0x7f) == 0x33 && ((w >> 12u32) & 0x7) == 0 && (w >> 25u32) == 0x1 ==> #[trigger] spec_decode(w) == Some(Ok::<Instr, u32>(Instr::Mul { rd: field_reg(w, 7), rs1: field_reg(w, 15), rs2: field_reg(w, 20) })),
        forall|w: u32| (w & 0x7f) == 0x33 && ((w >> 12u32) & 0x7) == 1 && (w >> 25u32) == 0x0 ==> #[trigger] spec_decode(w) == Some(Ok::<Instr, u32>(Instr::Sll { rd: field_reg(w, 7), rs1: field_reg(w, 15), rs2: field_reg(w, 20) })),
        forall|w: u32| (w & 0x7f) == 0x33 && ((w >> 12u32) & 0x7) == 1 && (w >> 25u32) == 0x1 ==> #[trigger] spec_decode(w) == Some(Ok::<Instr, u32>(Instr::Mulh { rd: field_reg(w, 7), rs1: field_reg(w, 15), rs2: field_reg(w, 20) })),
        forall|w: u32| (w & 0x7f) == 0x33 && ((w >> 12u32) & 0x7) == 2 && (w >> 25u32) == 0x0 ==> #[trigger] spec_decode(w) == Some(Ok::<Instr, u32>(Instr::Slt { rd: field_reg(w, 7), rs1: field_reg(w, 15), rs2: field_reg(w, 20) })),
        forall|w: u32| (w & 0x7f) == 0x33 && ((w >> 12u32) & 0x7) == 2 && (w >> 25u32) == 0x1 ==> #[trigger] spec_decode(w) == Some(Ok::<Instr, u32>(Instr::Mulhsu { rd: field_reg(w, 7), rs1: field_reg(w, 15), rs2: field_reg(w, 20) })),
        forall|w: u32| (w & 0x7f) == 0x33 && ((w >> 12u32) & 0x7) == 3 && (w >> 25u32) == 0x0 ==> #[trigger] spec_decode(w) == Some(Ok::<Instr, u32>(Instr::Sltu { rd: field_reg(w, 7), rs1: field_reg(w, 15), rs2: field_reg(w, 20) })),
        forall|w: u32| (w & 0x7f) == 0x33 && ((w >> 12u32) & 0x7) == 3 && (w >> 25u32) == 0x1 ==> #[trigger] spec_decode(w) == Some(Ok::<Instr, u32>(Instr::Mulhu { rd: field_reg(w, 7), rs1: field_reg(w, 15), rs2: field_reg(w, 20) })),
        forall|w: u32| (w & 0x7f) == 0x33 && ((w >> 12u32) & 0x7) == 4 && (w >> 25u32) == 0x0 ==> #[trigger] spec_decode(w) == Some(Ok::<Instr, u32>(Instr::Xor { rd: field_reg(w, 7), rs1: field_reg(w, 15), rs2: field_reg(w, 20) })),
        forall|w: u32| (w & 0x7f) == 0x33 && ((w >> 12u32) & 0x7) == 4 && (w >> 25u32) == 0x1 ==> #[trigger] spec_decode(w) == Some(Ok::<Instr, u32>(Instr::Div { rd: field_reg(w, 7), rs1: field_reg(w, 15), rs2: field_reg(w, 20) })),
        forall|w: u32| (w & 0x7f) == 0x33 && ((w >> 12u32) & 0x7) == 5 && (w >> 25u32) == 0x0 ==> #[trigger] spec_decode(w) == Some(Ok::<Instr, u32>(Instr::Srl { rd: field_reg(w, 7), rs1: field_reg(w, 15), rs2: field_reg(w, 20) })),
        forall|w: u32| (w & 0x7f) == 0x33 && ((w >> 12u32) & 0x7) == 5 && (w >> 25u32) == 0x20 ==> #[trigger] spec_decode(w) == Some(Ok::<Instr, u32>(Instr::Sra { rd: field_reg(w, 7), rs1: field_reg(w, 15), rs2: field_reg(w, 20) })),
        forall|w: u32| (w & 0x7f) == 0x33 && ((w >> 12u32) & 0x7) == 5 && (w >> 25u32) == 0x1 ==> #[trigger] spec_decode(w) == Some(Ok::<Instr, u32>(Instr::Divu { rd: field_reg(w, 7), rs1: field_reg(w, 15), rs2: field_reg(w, 20) })),
        forall|w: u32| (w & 0x7f) == 0x33 && ((w >> 12u32) & 0x7) == 6 && (w >> 25u32) == 0x0 ==> #[trigger] spec_decode(w) == Some(Ok::<Instr, u32>(Instr::Or { rd: field_reg(w, 7), rs1: field_reg(w, 15), rs2: field_reg(w, 20) })),
        forall|w: u32| (w & 0x7f) == 0x33 && ((w >> 12u32) & 0x7) == 6 && (w >> 25u32) == 0x1 ==> #[trigger] spec_decode(w) == Some(Ok::<Instr, u32>(Instr::Rem { rd: field_reg(w, 7), rs1: field_reg(w, 15), rs2: field_reg(w, 20) })),
        forall|w: u32| (w & 0x7f) == 0x33 && ((w >> 12u32) & 0x7) == 7 && (w >> 25u32) == 0x0 ==> #[trigger] spec_decode(w) == Some(Ok::<Instr, u32>(Instr::And { rd: field_reg(w, 7), rs1: field_reg(w, 15), rs2: field_reg(w, 20) })),
        forall|w: u32| (w & 0x7f) == 0x33 && ((w >> 12u32) & 0x7) == 7 && (w >> 25u32) == 0x1 ==> #[trigger] spec_decode(w) == Some(Ok::<Instr, u32>(Instr::Remu { rd: field_reg(w, 7), rs1: field_reg(w, 15), rs2: field_reg(w, 20) })),
{
    lemma_opcode_nonzero();
    assert forall|w: u32| (w & 0x7f) == 0x33 && ((w >> 12u32) & 0x7) == 0 && (w >> 25u32) == 0x0 implies #[trigger] spec_decode(w) == Some(Ok::<Instr, u32>(Instr::Add { rd: field_reg(w, 7), rs1: field_reg(w, 15), rs2: field_reg(w, 20) })) by {
        assert(w != 0);
    }
    assert forall|w: u32| (w & 0x7f) == 0x33 && ((w >> 12u32) & 0x7) == 0 && (w >> 25u32) == 0x20 implies #[trigger] spec_decode(w) == Some(Ok::<Instr, u32>(Instr::Sub { rd: field_reg(w, 7), rs1: field_reg(w, 15), rs2: field_reg(w, 20) })) by {
        assert(w != 0);
    }
    assert forall|w: u32| (w & 0x7f) == 0x33 && ((w >> 12u32) & 0x7) == 0 && (w >> 25u32) == 0x1 implies #[trigger] spec_decode(w) == Some(Ok::<Instr, u32>(Instr::Mul { rd: field_reg(w, 7), rs1: field_reg(w, 15), rs2: field_reg(w, 20) })) by {
        assert(w != 0);
    }
    assert forall|w: u32| (w & 0x7f) == 0x33 && ((w >> 12u32) & 0x7) == 1 && (w >> 25u32) == 0x0 implies #[trigger] spec_decode(w) == Some(Ok::<Instr, u32>(Instr::Sll { rd: field_reg(w, 7), rs1: field_reg(w, 15), rs2: field_reg(w, 20) })) by {
        assert(w != 0);
    }
    assert forall|w: u32| (w & 0x7f) == 0x33 && ((w >> 12u32) & 0x7) == 1 && (w >> 25u32) == 0x1 implies #[trigger] spec_decode(w) == Some(Ok::<Instr, u32>(Instr::Mulh { rd: field_reg(w, 7), rs1: field_reg(w, 15), rs2: field_reg(w, 20) })) by {
        assert(w != 0);
    }
    assert forall|w: u32| (w & 0x7f) == 0x33 && ((w >> 12u32) & 0x7) == 2 && (w >> 25u32) == 0x0 implies #[trigger] spec_decode(w) == Some(Ok::<Instr, u32>(Instr::Slt { rd: field_reg(w, 7), rs1: field_reg(w, 15), rs2: field_reg(w, 20) })) by {
        assert(w != 0);
    }
    assert forall|w: u32| (w & 0x7f) == 0x33 && ((w >> 12u32) & 0x7) == 2 && (w >> 25u32) == 0x1 implies #[trigger] spec_decode(w) == Some(Ok::<Instr, u32>(Instr::Mulhsu { rd: field_reg(w, 7), rs1: field_reg(w, 15), rs2: field_reg(w, 20) })) by {
        assert(w != 0);
    }
    assert forall|w: u32| (w & 0x7f) == 0x33 && ((w >> 12u32) & 0x7) == 3 && (w >> 25u32) == 0x0 implies #[trigger] spec_decode(w) == Some(Ok::<Instr, u32>(Instr::Sltu { rd: field_reg(w, 7), rs1: field_reg(w, 15), rs2: field_reg(w, 20) })) by {
        assert(w != 0);
    }
    assert forall|w: u32| (w & 0x7f) == 0x33 && ((w >> 12u32) & 0x7) == 3 && (w >> 25u32) == 0x1 implies #[trigger] spec_decode(w) == Some(Ok::<Instr, u32>(Instr::Mulhu { rd: field_reg(w, 7), rs1: field_reg(w, 15), rs2: field_reg(w, 20) })) by {
        assert(w != 0);
    }
    assert forall|w: u32| (w & 0x7f) == 0x33 && ((w >> 12u32) & 0x7) == 4 && (w >> 25u32) == 0x0 implies #[trigger] spec_decode(w) == Some(Ok::<Instr, u32>(Instr::Xor { rd: field_reg(w, 7), rs1: field_reg(w, 15), rs2: field_reg(w, 20) })) by {
        assert(w != 0);
    }
    assert forall|w: u32| (w & 0x7f) == 0x33 && ((w >> 12u32) & 0x7) == 4 && (w >> 25u32) == 0x1 implies #[trigger] spec_decode(w) == Some(Ok::<Instr, u32>(Instr::Div { rd: field_reg(w, 7), rs1: field_reg(w, 15), rs2: field_reg(w, 20) })) by {
        assert(w != 0);
    }
    assert forall|w: u32| (w & 0x7f) == 0x33 && ((w >> 12u32) & 0x7) == 5 && (w >> 25u32) == 0x0 implies #[trigger] spec_decode(w) == Some(Ok::<Instr, u32>(Instr::Srl { rd: field_reg(w, 7), rs1: field_reg(w, 15), rs2: field_reg(w, 20) })) by {
        assert(w != 0);
    }
    assert forall|w: u32| (w & 0x7f) == 0x33 && ((w >> 12u32) & 0x7) == 5 && (w >> 25u32) == 0x20 implies #[trigger] spec_decode(w) == Some(Ok::<Instr, u32>(Instr::Sra { rd: field_reg(w, 7), rs1: field_reg(w, 15), rs2: field_reg(w, 20) })) by {
        assert(w != 0);
    }
    assert forall|w: u32| (w & 0x7f) == 0x33 && ((w >> 12u32) & 0x7) == 5 && (w >> 25u32) == 0x1 implies #[trigger] spec_decode(w) == Some(Ok::<Instr, u32>(Instr::Divu { rd: field_reg(w, 7), rs1: field_reg(w, 15), rs2: field_reg(w, 20) })) by {
        assert(w != 0);
    }
    assert forall|w: u32| (w & 0x7f) == 0x33 && ((w >> 12u32) & 0x7) == 6 && (w >> 25u32) == 0x0 implies #[trigger] spec_decode(w) == Some(Ok::<Instr, u32>(Instr::Or { rd: field_reg(w, 7), rs1: field_reg(w, 15), rs2: field_reg(w, 20) })) by {
        assert(w != 0);
    }
    assert forall|w: u32| (w & 0x7f) == 0x33 && ((w >> 12u32) & 0x7) == 6 && (w >> 25u32) == 0x1 implies #[trigger] spec_decode(w) == Some(Ok::<Instr, u32>(Instr::Rem { rd: field_reg(w, 7), rs1: field_reg(w, 15), rs2: field_reg(w, 20) })) by {
        assert(w != 0);
    }
    assert forall|w: u32| (w & 0x7f) == 0x33 && ((w >> 12u32) & 0x7) == 7 && (w >> 25u32) == 0x0 implies #[trigger] spec_decode(w) == Some(Ok::<Instr, u32>(Instr::And { rd: field_reg(w, 7), rs1: field_reg(w, 15), rs2: field_reg(w, 20) })) by {
        assert(w != 0);
    }
    assert forall|w: u32| (w & 0x7f) == 0x33 && ((w >> 12u32) & 0x7) == 7 && (w >> 25u32) == 0x1 implies #[trigger] spec_decode(w) == Some(Ok::<Instr, u32>(Instr::Remu { rd: field_reg(w, 7), rs1: field_reg(w, 15), rs2: field_reg(w, 20) })) by {
        assert(w != 0);
    }
}

/// How the ISA decodes the 32-bit register-register instructions (major opcode 0x3b): the destination is the register of bits 11..7 and the
/// sources those of bits 19..15 and 24..20
pub proof fn lemma_decode_op_32()
    ensures
        forall|w: u32| (w & 0x7f) == 0x3b && ((w >> 12u32) & 0x7) == 0 && (w >> 25u32) == 0x0 ==> #[trigger] spec_decode(w) == Some(Ok::<Instr, u32>(Instr::Addw { rd: field_reg(w, 7), rs1: field_reg(w, 15), rs2: field_reg(w, 20) })),
        forall|w: u32| (w & 0x7f) == 0x3b && ((w >> 12u32) & 0x7) == 0 && (w >> 25u32) == 0x20 ==> #[trigger] spec_decode(w) == Some(Ok::<Instr, u32>(Instr::Subw { rd: field_reg(w, 7), rs1: field_reg(w, 15), rs2: field_reg(w, 20) })),
        forall|w: u32| (w & 0x7f) == 0x3b && ((w >> 12u32) & 0x7) == 0 && (w >> 25u32) == 0x1 ==> #[trigger] spec_decode(w) == Some(Ok::<Instr, u32>(Instr::Mulw { rd: field_reg(w, 7), rs1: field_reg(w, 15), rs2: field_reg(w, 20) })),
        forall|w: u32| (w & 0x7f) == 0x3b && ((w >> 12u32) & 0x7) == 1 && (w >> 25u32) == 0x0 ==> #[trigger] spec_decode(w) == Some(Ok::<Instr, u32>(Instr::Sllw { rd: field_reg(w, 7), rs1: field_reg(w, 15), rs2: field_reg(w, 20) })),
        forall|w: u32| (w & 0x7f) == 0x3b && ((w >> 12u32) & 0x7) == 5 && (w >> 25u32) == 0x0 ==> #[trigger] spec_decode(w) == Some(Ok::<Instr, u32>(Instr::Srlw { rd: field_reg(w, 7), rs1: field_reg(w, 15), rs2: field_reg(w, 20) })),
        forall|w: u32| (w & 0x7f) == 0x3b && ((w >> 12u32) & 0x7) == 5 && (w >> 25u32) == 0x20 ==> #[trigger] spec_decode(w) == Some(Ok::<Instr, u32>(Instr::Sraw { rd: field_reg(w, 7), rs1: field_reg(w, 15), rs2: field_reg(w, 20) })),
        forall|w: u32| (w & 0x7f) == 0x3b && ((w >> 12u32) & 0x7) == 4 && (w >> 25u32) == 0x1 ==> #[trigger] spec_decode(w) == Some(Ok::<Instr, u32>(Instr::Divw { rd: field_reg(w, 7), rs1: field_reg(w, 15), rs2: field_reg(w, 20) })),
        forall|w: u32| (w & 0x7f) == 0x3b && ((w >> 12u32) & 0x7) == 5 && (w >> 25u32) == 0x1 ==> #[trigger] spec_decode(w) == Some(Ok::<Instr, u32>(Instr::Divuw { rd: field_reg(w, 7), rs1: field_reg(w, 15), rs2: field_reg(w, 20) })),
        forall|w: u32| (w & 0x7f) == 0x3b && ((w >> 12u32) & 0x7) == 6 && (w >> 25u32) == 0x1 ==> #[trigger] spec_decode(w) == Some(Ok::<Instr, u32>(Instr::Remw { rd: field_reg(w, 7), rs1: field_reg(w, 15), rs2: field_reg(w, 20) })),
        forall|w: u32| (w & 0x7f) == 0x3b && ((w >> 12u32) & 0x7) == 7 && (w >> 25u32) == 0x1 ==> #[trigger] spec_decode(w) == Some(Ok::<Instr, u32>(Instr::Remuw { rd: field_reg(w, 7), rs1: field_reg(w, 15), rs2: field_reg(w, 20) })),
{
    lemma_opcode_nonzero();
    assert forall|w: u32| (w & 0x7f) == 0x3b && ((w >> 12u32) & 0x7) == 0 && (w >> 25u32) == 0x0 implies #[trigger] spec_decode(w) == Some(Ok::<Instr, u32>(Instr::Addw { rd: field_reg(w, 7), rs1: field_reg(w, 15), rs2: field_reg(w, 20) })) by {
        assert(w != 0);
    }
    assert forall|w: u32| (w & 0x7f) == 0x3b && ((w >> 12u32) & 0x7) == 0 && (w >> 25u32) == 0x20 implies #[trigger] spec_decode(w) == Some(Ok::<Instr, u32>(Instr::Subw { rd: field_reg(w, 7), rs1: field_reg(w, 15), rs2: field_reg(w, 20) })) by {
        assert(w != 0);
    }
    assert forall|w: u32| (w & 0x7f) == 0x3b && ((w >> 12u32) & 0x7) == 0 && (w >> 25u32) == 0x1 implies #[trigger] spec_decode(w) == Some(Ok::<Instr, u32>(Instr::Mulw { rd: field_reg(w, 7), rs1: field_reg(w, 15), rs2: field_reg(w, 20) })) by {
        assert(w != 0);
    }
    assert forall|w: u32| (w & 0x7f) == 0x3b && ((w >> 12u32) & 0x7) == 1 && (w >> 25u32) == 0x0 implies #[trigger] spec_decode(w) == Some(Ok::<Instr, u32>(Instr::Sllw { rd: field_reg(w, 7), rs1: field_reg(w, 15), rs2: field_reg(w, 20) })) by {
        assert(w != 0);
    }
    assert forall|w: u32| (w & 0x7f) == 0x3b && ((w >> 12u32) & 0x7) == 5 && (w >> 25u32) == 0x0 implies #[trigger] spec_decode(w) == Some(Ok::<Instr, u32>(Instr::Srlw { rd: field_reg(w, 7), rs1: field_reg(w, 15), rs2: field_reg(w, 20) })) by {
        assert(w != 0);
    }
    assert forall|w: u32| (w & 0x7f) == 0x3b && ((w >> 12u32) & 0x7) == 5 && (w >> 25u32) == 0x20 implies #[trigger] spec_decode(w) == Some(Ok::<Instr, u32>(Instr::Sraw { rd: field_reg(w, 7), rs1: field_reg(w, 15), rs2: field_reg(w, 20) })) by {
        assert(w != 0);
    }
    assert forall|w: u32| (w & 0x7f) == 0x3b && ((w >> 12u32) & 0x7) == 4 && (w >> 25u32) == 0x1 implies #[trigger] spec_decode(w) == Some(Ok::<Instr, u32>(Instr::Divw { rd: field_reg(w, 7), rs1: field_reg(w, 15), rs2: field_reg(w, 20) })) by {
        assert(w != 0);
    }
    assert forall|w: u32| (w & 0x7f) == 0x3b && ((w >> 12u32) & 0x7) == 5 && (w >> 25u32) == 0x1 implies #[trigger] spec_decode(w) == Some(Ok::<Instr, u32>(Instr::Divuw { rd: field_reg(w, 7), rs1: field_reg(w, 15), rs2: field_reg(w, 20) })) by {
        assert(w != 0);
    }
    assert forall|w: u32| (w & 0x7f) == 0x3b && ((w >> 12u32) & 0x7) == 6 && (w >> 25u32) == 0x1 implies #[trigger] spec_decode(w) == Some(Ok::<Instr, u32>(Instr::Remw { rd: field_reg(w, 7), rs1: field_reg(w, 15), rs2: field_reg(w, 20) })) by {
        assert(w != 0);
    }
    assert forall|w: u32| (w & 0x7f) == 0x3b && ((w >> 12u32) & 0x7) == 7 && (w >> 25u32) == 0x1 implies #[trigger] spec_decode(w) == Some(Ok::<Instr, u32>(Instr::Remuw { rd: field_reg(w, 7), rs1: field_reg(w, 15), rs2: field_reg(w, 20) })) by {
        assert(w != 0);
    }
}

/// How the ISA decodes the conditional branches (major opcode 0x63): funct3 0, 1, 4, 5, 6, 7 select beq, bne, blt, bge, bltu, bgeu, which carry funct3 as their mode: the destination is the register of bits 11..7 and the
/// sources those of bits 19..15 and 24..20
pub proof fn lemma_decode_branch()
    ensures
        forall|w: u32| (w & 0x7f) == 0x63 && ((w >> 12u32) & 0x7) == 0 ==> #[trigger] spec_decode(w) == Some(Ok::<Instr, u32>(Instr::Beq { rs1: field_reg(w, 15), rs2: field_reg(w, 20), imm: b_imm(w), mode: 0 })),
        forall|w: u32| (w & 0x7f) == 0x63 && ((w >> 12u32) & 0x7) == 1 ==> #[trigger] spec_decode(w) == Some(Ok::<Instr, u32>(Instr::Bne { rs1: field_reg(w, 15), rs2: field_reg(w, 20), imm: b_imm(w), mode: 1 })),
        forall|w: u32| (w & 0x7f) == 0x63 && ((w >> 12u32) & 0x7) == 4 ==> #[trigger] spec_decode(w) == Some(Ok::<Instr, u32>(Instr::Blt { rs1: field_reg(w, 15), rs2: field_reg(w, 20), imm: b_imm(w), mode: 4 })),
        forall|w: u32| (w & 0x7f) == 0x63 && ((w >> 12u32) & 0x7) == 5 ==> #[trigger] spec_decode(w) == Some(Ok::<Instr, u32>(Instr::Bge { rs1: field_reg(w, 15), rs2: field_reg(w, 20), imm: b_imm(w), mode: 5 })),
        forall|w: u32| (w & 0x7f) == 0x63 && ((w >> 12u32) & 0x7) == 6 ==> #[trigger] spec_decode(w) == Some(Ok::<Instr, u32>(Instr::Bltu { rs1: field_reg(w, 15), rs2: field_reg(w, 20), imm: b_imm(w), mode: 6 })),
        forall|w: u32| (w & 0x7f) == 0x63 && ((w >> 12u32) & 0x7) == 7 ==> #[trigger] spec_decode(w) == Some(Ok::<Instr, u32>(Instr::Bgeu { rs1: field_reg(w, 15), rs2: field_reg(w, 20), imm: b_imm(w), mode: 7 })),
{
    lemma_opcode_nonzero();
    assert forall|w: u32| (w & 0x7f) == 0x63 && ((w >> 12u32) & 0x7) == 0 implies #[trigger] spec_decode(w) == Some(Ok::<Instr, u32>(Instr::Beq { rs1: field_reg(w, 15), rs2: field_reg(w, 20), imm: b_imm(w), mode: 0 })) by {
        assert(w != 0);
    }
    assert forall|w: u32| (w & 0x7f) == 0x63 && ((w >> 12u32) & 0x7) == 1 implies #[trigger] spec_decode(w) == Some(Ok::<Instr, u32>(Instr::Bne { rs1: field_reg(w, 15), rs2: field_reg(w, 20), imm: b_imm(w), mode: 1 })) by {
        assert(w != 0);
    }
    assert forall|w: u32| (w & 0x7f) == 0x63 && ((w >> 12u32) & 0x7) == 4 implies #[trigger] spec_decode(w) == Some(Ok::<Instr, u32>(Instr::Blt { rs1: field_reg(w, 15), rs2: field_reg(w, 20), imm: b_imm(w), mode: 4 })) by {
        assert(w != 0);
    }
    assert forall|w: u32| (w & 0x7f) == 0x63 && ((w >> 12u32) & 0x7) == 5 implies #[trigger] spec_decode(w) == Some(Ok::<Instr, u32>(Instr::Bge { rs1: field_reg(w, 15), rs2: field_reg(w, 20), imm: b_imm(w), mode: 5 })) by {
        assert(w != 0);
    }
    assert forall|w: u32| (w & 0x7f) == 0x63 && ((w >> 12u32) & 0x7) == 6 implies #[trigger] spec_decode(w) == Some(Ok::<Instr, u32>(Instr::Bltu { rs1: field_reg(w, 15), rs2: field_reg(w, 20), imm: b_imm(w), mode: 6 })) by {
        assert(w != 0);
    }
    assert forall|w: u32| (w & 0x7f) == 0x63 && ((w >> 12u32) & 0x7) == 7 implies #[trigger] spec_decode(w) == Some(Ok::<Instr, u32>(Instr::Bgeu { rs1: field_reg(w, 15), rs2: field_reg(w, 20), imm: b_imm(w), mode: 7 })) by {
        assert(w != 0);
    }
}

/// How the ISA decodes the loads (major opcode 0x03) and stores (0x23), which carry funct3 as their mode: the destination is the register of bits 11..7 and the
/// sources those of bits 19..15 and 24..20
pub proof fn lemma_decode_load_store()
    ensures
        forall|w: u32| (w & 0x7f) == 0x3 && ((w >> 12u32) & 0x7) == 0 ==> #[trigger] spec_decode(w) == Some(Ok::<Instr, u32>(Instr::Lb { rd: field_reg(w, 7), rs1: field_reg(w, 15), imm: i_imm(w), mode: 0 })),
        forall|w: u32| (w & 0x7f) == 0x3 && ((w >> 12u32) & 0x7) == 1 ==> #[trigger] spec_decode(w) == Some(Ok::<Instr, u32>(Instr::Lh { rd: field_reg(w, 7), rs1: field_reg(w, 15), imm: i_imm(w), mode: 1 })),
        forall|w: u32| (w & 0x7f) == 0x3 && ((w >> 12u32) & 0x7) == 2 ==> #[trigger] spec_decode(w) == Some(Ok::<Instr, u32>(Instr::Lw { rd: field_reg(w, 7), rs1: field_reg(w, 15), imm: i_imm(w), mode: 2 })),
        forall|w: u32| (w & 0x7f) == 0x3 && ((w >> 12u32) & 0x7) == 3 ==> #[trigger] spec_decode(w) == Some(Ok::<Instr, u32>(Instr::Ld { rd: field_reg(w, 7), rs1: field_reg(w, 15), imm: i_imm(w), mode: 3 })),
        forall|w: u32| (w & 0x7f) == 0x3 && ((w >> 12u32) & 0x7) == 4 ==> #[trigger] spec_decode(w) == Some(Ok::<Instr, u32>(Instr::Lbu { rd: field_reg(w, 7), rs1: field_reg(w, 15), imm: i_imm(w), mode: 4 })),
        forall|w: u32| (w & 0x7f) == 0x3 && ((w >> 12u32) & 0x7) == 5 ==> #[trigger] spec_decode(w) == Some(Ok::<Instr, u32>(Instr::Lhu { rd: field_reg(w, 7), rs1: field_reg(w, 15), imm: i_imm(w), mode: 5 })),
        forall|w: u32| (w & 0x7f) == 0x3 && ((w >> 12u32) & 0x7) == 6 ==> #[trigger] spec_decode(w) == Some(Ok::<Instr, u32>(Instr::Lwu { rd: field_reg(w, 7), rs1: field_reg(w, 15), imm: i_imm(w), mode: 6 })),
        forall|w: u32| (w & 0x7f) == 0x23 && ((w >> 12u32) & 0x7) == 0 ==> #[trigger] spec_decode(w) == Some(Ok::<Instr, u32>(Instr::Sb { rs1: field_reg(w, 15), rs2: field_reg(w, 20), imm: s_imm(w), mode: 0 })),
        forall|w: u32| (w & 0x7f) == 0x23 && ((w >> 12u32) & 0x7) == 1 ==> #[trigger] spec_decode(w) == Some(Ok::<Instr, u32>(Instr::Sh { rs1: field_reg(w, 15), rs2: field_reg(w, 20), imm: s_imm(w), mode: 1 })),
        forall|w: u32| (w & 0x7f) == 0x23 && ((w >> 12u32) & 0x7) == 2 ==> #[trigger] spec_decode(w) == Some(Ok::<Instr, u32>(Instr::Sw { rs1: field_reg(w, 15), rs2: field_reg(w, 20), imm: s_imm(w), mode: 2 })),
        forall|w: u32| (w & 0x7f) == 0x23 && ((w >> 12u32) & 0x7) == 3 ==> #[trigger] spec_decode(w) == Some(Ok::<Instr, u32>(Instr::Sd { rs1: field_reg(w, 15), rs2: field_reg(w, 20), imm: s_imm(w), mode: 3 })),
{
    lemma_opcode_nonzero();
    assert forall|w: u32| (w & 0x7f) == 0x3 && ((w >> 12u32) & 0x7) == 0 implies #[trigger] spec_decode(w) == Some(Ok::<Instr, u32>(Instr::Lb { rd: field_reg(w, 7), rs1: field_reg(w, 15), imm: i_imm(w), mode: 0 })) by {
        assert(w != 0);
    }
    assert forall|w: u32| (w & 0x7f) == 0x3 && ((w >> 12u32) & 0x7) == 1 implies #[trigger] spec_decode(w) == Some(Ok::<Instr, u32>(Instr::Lh { rd: field_reg(w, 7), rs1: field_reg(w, 15), imm: i_imm(w), mode: 1 })) by {
        assert(w != 0);
    }
    assert forall|w: u32| (w & 0x7f) == 0x3 && ((w >> 12u32) & 0x7) == 2 implies #[trigger] spec_decode(w) == Some(Ok::<Instr, u32>(Instr::Lw { rd: field_reg(w, 7), rs1: field_reg(w, 15), imm: i_imm(w), mode: 2 })) by {
        assert(w != 0);
    }
    assert forall|w: u32| (w & 0x7f) == 0x3 && ((w >> 12u32) & 0x7) == 3 implies #[trigger] spec_decode(w) == Some(Ok::<Instr, u32>(Instr::Ld { rd: field_reg(w, 7), rs1: field_reg(w, 15), imm: i_imm(w), mode: 3 })) by {
        assert(w != 0);
    }
    assert forall|w: u32| (w & 0x7f) == 0x3 && ((w >> 12u32) & 0x7) == 4 implies #[trigger] spec_decode(w) == Some(Ok::<Instr, u32>(Instr::Lbu { rd: field_reg(w, 7), rs1: field_reg(w, 15), imm: i_imm(w), mode: 4 })) by {
        assert(w != 0);
    }
    assert forall|w: u32| (w & 0x7f) == 0x3 && ((w >> 12u32) & 0x7) == 5 implies #[trigger] spec_decode(w) == Some(Ok::<Instr, u32>(Instr::Lhu { rd: field_reg(w, 7), rs1: field_reg(w, 15), imm: i_imm(w), mode: 5 })) by {
        assert(w != 0);
    }
    assert forall|w: u32| (w & 0x7f) == 0x3 && ((w >> 12u32) & 0x7) == 6 implies #[trigger] spec_decode(w) == Some(Ok::<Instr, u32>(Instr::Lwu { rd: field_reg(w, 7), rs1: field_reg(w, 15), imm: i_imm(w), mode: 6 })) by {
        assert(w != 0);
    }
    assert forall|w: u32| (w & 0x7f) == 0x23 && ((w >> 12u32) & 0x7) == 0 implies #[trigger] spec_decode(w) == Some(Ok::<Instr, u32>(Instr::Sb { rs1: field_reg(w, 15), rs2: field_reg(w, 20), imm: s_imm(w), mode: 0 })) by {
        assert(w != 0);
    }
    assert forall|w: u32| (w & 0x7f) == 0x23 && ((w >> 12u32) & 0x7) == 1 implies #[trigger] spec_decode(w) == Some(Ok::<Instr, u32>(Instr::Sh { rs1: field_reg(w, 15), rs2: field_reg(w, 20), imm: s_imm(w), mode: 1 })) by {
        assert(w != 0);
    }
    assert forall|w: u32| (w & 0x7f) == 0x23 && ((w >> 12u32) & 0x7) == 2 implies #[trigger] spec_decode(w) == Some(Ok::<Instr, u32>(Instr::Sw { rs1: field_reg(w, 15), rs2: field_reg(w, 20), imm: s_imm(w), mode: 2 })) by {
        assert(w != 0);
    }
    assert forall|w: u32| (w & 0x7f) == 0x23 && ((w >> 12u32) & 0x7) == 3 implies #[trigger] spec_decode(w) == Some(Ok::<Instr, u32>(Instr::Sd { rs1: field_reg(w, 15), rs2: field_reg(w, 20), imm: s_imm(w), mode: 3 })) by {
        assert(w != 0);
    }
}

/// How the ISA decodes the register-immediate instructions (major opcodes 0x13 and 0x1b): funct3 selects addi, slti, sltiu, xori, ori, andi; the right shifts by an immediate are logical where the bits above the shift amount are 0 and arithmetic where they are 0x10 (0x20 for the 32-bit ones): the destination is the register of bits 11..7 and the
/// sources those of bits 19..15 and 24..20
pub proof fn lemma_decode_op_imm()
    ensures
        forall|w: u32| (w & 0x7f) == 0x13 && ((w >> 12u32) & 0x7) == 0 ==> #[trigger] spec_decode(w) == Some(Ok::<Instr, u32>(Instr::Addi { rd: field_reg(w, 7), rs1: field_reg(w, 15), imm: i_imm(w) })),
        forall|w: u32| (w & 0x7f) == 0x13 && ((w >> 12u32) & 0x7) == 2 ==> #[trigger] spec_decode(w) == Some(Ok::<Instr, u32>(Instr::Slti { rd: field_reg(w, 7), rs1: field_reg(w, 15), imm: i_imm(w) })),
        forall|w: u32| (w & 0x7f) == 0x13 && ((w >> 12u32) & 0x7) == 3 ==> #[trigger] spec_decode(w) == Some(Ok::<Instr, u32>(Instr::Sltiu { rd: field_reg(w, 7), rs1: field_reg(w, 15), imm: i_imm(w) })),
        forall|w: u32| (w & 0x7f) == 0x13 && ((w >> 12u32) & 0x7) == 4 ==> #[trigger] spec_decode(w) == Some(Ok::<Instr, u32>(Instr::Xori { rd: field_reg(w, 7), rs1: field_reg(w, 15), imm: i_imm(w) })),
        forall|w: u32| (w & 0x7f) == 0x13 && ((w >> 12u32) & 0x7) == 6 ==> #[trigger] spec_decode(w) == Some(Ok::<Instr, u32>(Instr::Ori { rd: field_reg(w, 7), rs1: field_reg(w, 15), imm: i_imm(w) })),
        forall|w: u32| (w & 0x7f) == 0x13 && ((w >> 12u32) & 0x7) == 7 ==> #[trigger] spec_decode(w) == Some(Ok::<Instr, u32>(Instr::Andi { rd: field_reg(w, 7), rs1: field_reg(w, 15), imm: i_imm(w) })),
        forall|w: u32| (w & 0x7f) == 0x13 && ((w >> 12u32) & 0x7) == 1 ==> #[trigger] spec_decode(w) == Some(Ok::<Instr, u32>(Instr::Slli { rd: field_reg(w, 7), rs1: field_reg(w, 15), imm: ((w >> 20u32) & 0x3f) as i32 })),
        forall|w: u32| (w & 0x7f) == 0x13 && ((w >> 12u32) & 0x7) == 5 && (w >> 26u32) == 0 ==> #[trigger] spec_decode(w) == Some(Ok::<Instr, u32>(Instr::Srli { rd: field_reg(w, 7), rs1: field_reg(w, 15), imm: ((w >> 20u32) & 0x3f) as i32 })),
        forall|w: u32| (w & 0x7f) == 0x13 && ((w >> 12u32) & 0x7) == 5 && (w >> 26u32) == 0x10 ==> #[trigger] spec_decode(w) == Some(Ok::<Instr, u32>(Instr::Srai { rd: field_reg(w, 7), rs1: field_reg(w, 15), imm: ((w >> 20u32) & 0x3f) as i32 })),
        forall|w: u32| (w & 0x7f) == 0x1b && ((w >> 12u32) & 0x7) == 1 ==> #[trigger] spec_decode(w) == Some(Ok::<Instr, u32>(Instr::Slliw { rd: field_reg(w, 7), rs1: field_reg(w, 15), imm: ((w >> 20u32) & 0x1f) as i32 })),
        forall|w: u32| (w & 0x7f) == 0x1b && ((w >> 12u32) & 0x7) == 5 && (w >> 25u32) == 0 ==> #[trigger] spec_decode(w) == Some(Ok::<Instr, u32>(Instr::Srliw { rd: field_reg(w, 7), rs1: field_reg(w, 15), imm: ((w >> 20u32) & 0x1f) as i32 })),
        forall|w: u32| (w & 0x7f) == 0x1b && ((w >> 12u32) & 0x7) == 5 && (w >> 25u32) == 0x20 ==> #[trigger] spec_decode(w) == Some(Ok::<Instr, u32>(Instr::Sraiw { rd: field_reg(w, 7), rs1: field_reg(w, 15), imm: ((w >> 20u32) & 0x1f) as i32 })),
{
    lemma_opcode_nonzero();
    assert forall|w: u32| (w & 0x7f) == 0x13 && ((w >> 12u32) & 0x7) == 0 implies #[trigger] spec_decode(w) == Some(Ok::<Instr, u32>(Instr::Addi { rd: field_reg(w, 7), rs1: field_reg(w, 15), imm: i_imm(w) })) by {
        assert(w != 0);
    }
    assert forall|w: u32| (w & 0x7f) == 0x13 && ((w >> 12u32) & 0x7) == 2 implies #[trigger] spec_decode(w) == Some(Ok::<Instr, u32>(Instr::Slti { rd: field_reg(w, 7), rs1: field_reg(w, 15), imm: i_imm(w) })) by {
        assert(w != 0);
    }
    assert forall|w: u32| (w & 0x7f) == 0x13 && ((w >> 12u32) & 0x7) == 3 implies #[trigger] spec_decode(w) == Some(Ok::<Instr, u32>(Instr::Sltiu { rd: field_reg(w, 7), rs1: field_reg(w, 15), imm: i_imm(w) })) by {
        assert(w != 0);
    }
    assert forall|w: u32| (w & 0x7f) == 0x13 && ((w >> 12u32) & 0x7) == 4 implies #[trigger] spec_decode(w) == Some(Ok::<Instr, u32>(Instr::Xori { rd: field_reg(w, 7), rs1: field_reg(w, 15), imm: i_imm(w) })) by {
        assert(w != 0);
    }
    assert forall|w: u32| (w & 0x7f) == 0x13 && ((w >> 12u32) & 0x7) == 6 implies #[trigger] spec_decode(w) == Some(Ok::<Instr, u32>(Instr::Ori { rd: field_reg(w, 7), rs1: field_reg(w, 15), imm: i_imm(w) })) by {
        assert(w != 0);
    }
    assert forall|w: u32| (w & 0x7f) == 0x13 && ((w >> 12u32) & 0x7) == 7 implies #[trigger] spec_decode(w) == Some(Ok::<Instr, u32>(Instr::Andi { rd: field_reg(w, 7), rs1: field_reg(w, 15), imm: i_imm(w) })) by {
        assert(w != 0);
    }
    assert forall|w: u32| (w & 0x7f) == 0x13 && ((w >> 12u32) & 0x7) == 1 implies #[trigger] spec_decode(w) == Some(Ok::<Instr, u32>(Instr::Slli { rd: field_reg(w, 7), rs1: field_reg(w, 15), imm: ((w >> 20u32) & 0x3f) as i32 })) by {
        assert(w != 0);
    }
    assert forall|w: u32| (w & 0x7f) == 0x13 && ((w >> 12u32) & 0x7) == 5 && (w >> 26u32) == 0 implies #[trigger] spec_decode(w) == Some(Ok::<Instr, u32>(Instr::Srli { rd: field_reg(w, 7), rs1: field_reg(w, 15), imm: ((w >> 20u32) & 0x3f) as i32 })) by {
        assert(w != 0);
    }
    assert forall|w: u32| (w & 0x7f) == 0x13 && ((w >> 12u32) & 0x7) == 5 && (w >> 26u32) == 0x10 implies #[trigger] spec_decode(w) == Some(Ok::<Instr, u32>(Instr::Srai { rd: field_reg(w, 7), rs1: field_reg(w, 15), imm: ((w >> 20u32) & 0x3f) as i32 })) by {
        assert(w != 0);
    }
    assert forall|w: u32| (w & 0x7f) == 0x1b && ((w >> 12u32) & 0x7) == 1 implies #[trigger] spec_decode(w) == Some(Ok::<Instr, u32>(Instr::Slliw { rd: field_reg(w, 7), rs1: field_reg(w, 15), imm: ((w >> 20u32) & 0x1f) as i32 })) by {
        assert(w != 0);
    }
    assert forall|w: u32| (w & 0x7f) == 0x1b && ((w >> 12u32) & 0x7) == 5 && (w >> 25u32) == 0 implies #[trigger] spec_decode(w) == Some(Ok::<Instr, u32>(Instr::Srliw { rd: field_reg(w, 7), rs1: field_reg(w, 15), imm: ((w >> 20u32) & 0x1f) as i32 })) by {
        assert(w != 0);
    }
    assert forall|w: u32| (w & 0x7f) == 0x1b && ((w >> 12u32) & 0x7) == 5 && (w >> 25u32) == 0x20 implies #[trigger] spec_decode(w) == Some(Ok::<Instr, u32>(Instr::Sraiw { rd: field_reg(w, 7), rs1: field_reg(w, 15), imm: ((w >> 20u32) & 0x1f) as i32 })) by {
        assert(w != 0);
    }
}

/// How the ISA decodes the upper-immediate and jump instructions: lui (major opcode 0x37) and
/// auipc (0x17) carry bits 31..12 as the upper bits of their immediate, jal (0x6f) and jalr
/// (0x67) link into the register of bits 11..7, jalr jumps from the register of bits 19..15;
/// and the words of ecall and ebreak
pub proof fn lemma_decode_upper_and_jumps()
    ensures
        forall|w: u32| (w & 0x7f) == 0x37 ==> #[trigger] spec_decode(w) == Some(Ok::<Instr, u32>(Instr::Lui { rd: field_reg(w, 7), imm: (w & 0xfffff000) as i32 })),
        forall|w: u32| (w & 0x7f) == 0x17 ==> #[trigger] spec_decode(w) == Some(Ok::<Instr, u32>(Instr::Auipc { rd: field_reg(w, 7), imm: (w & 0xfffff000) as i32 })),
        forall|w: u32| (w & 0x7f) == 0x6f ==> #[trigger] spec_decode(w) == Some(Ok::<Instr, u32>(Instr::Jal { rd: field_reg(w, 7), imm: j_imm(w) })),
        forall|w: u32| (w & 0x7f) == 0x67 ==> #[trigger] spec_decode(w) == Some(Ok::<Instr, u32>(Instr::Jalr { rd: field_reg(w, 7), rs1: field_reg(w, 15), imm: i_imm(w) })),
        spec_decode(0x00000073) == Some(Ok::<Instr, u32>(Instr::Ecall)),
        spec_decode(0x00100073) == Some(Ok::<Instr, u32>(Instr::Ebreak)),
{
    lemma_opcode_nonzero();
    assert((0x73u32 & 0x7f) == 0x73 && (0x100073u32 & 0x7f) == 0x73) by (bit_vector);
}

// ------------------------------------------------------------------------------------------------
// Field extraction
// ------------------------------------------------------------------------------------------------

/// Extraction of a run of bits, counted from the most significant bit
pub trait ExtractBits {
    /// The `length` bits that start `bit_offset` bits below the top, zero-extended
    fn get_u32(self, bit_offset: u32, length: u32) -> u32
        requires
            bit_offset < 32,
            1 <= length <= 32,
    ;

    /// The `length` bits that start `bit_offset` bits below the top, sign-extended
    fn get_i32(self, bit_offset: u32, length: u32) -> i32
        requires
            bit_offset < 32,
            1 <= length <= 32,
    ;
}

impl ExtractBits for u32 {
    fn get_u32(self, bit_offset: u32, length: u32) -> (r: u32)
        ensures
            r == (self << bit_offset) >> (32 - length) as u32,
    {
        self << bit_offset >> (32 - length)
    }

    fn get_i32(self, bit_offset: u32, length: u32) -> (r: i32)
        ensures
            r == ((self << bit_offset) as i32) >> (32 - length) as u32,
    {
        ((self << bit_offset) as i32) >> (32 - length)
    }
}

// ------------------------------------------------------------------------------------------------
// Instruction formats
// ------------------------------------------------------------------------------------------------

/// Register-Register Operations
#[derive(Debug)]
pub struct RType {
    /// Type of Operation
    pub funct7: u32,
    /// Src Operand 2
    pub rs2: Register,
    /// Src Operand 1
    pub rs1: Register,
    /// Operation to be performed
    pub funct3: u32,
    /// Destination register
    pub rd: Register,
}

impl RType {
    pub fn new(instr: u32) -> (r: Self)
        ensures
            r.funct7 == funct7(instr),
            r.rs2 == rs2(instr),
            r.rs1 == rs1(instr),
            r.funct3 == funct3(instr),
            r.rd == rd(instr),
    {
        proof {
            lemma_common_fields(instr);
        }
        RType {
            funct7: instr.get_u32(0, 7),
            rs2: Register::from(instr.get_u32(7, 5)),
            rs1: Register::from(instr.get_u32(12, 5)),
            funct3: instr.get_u32(17, 3),
            rd: Register::from(instr.get_u32(20, 5)),
        }
    }
}

/// Register-Immediate Operations (Immediate arithmetic and load)
#[derive(Debug)]
pub struct IType {
    /// Immediate constant (Integer OPS) | Offset (JALR), 2s-complement, sign extended
    pub imm: i32,
    /// Src operand (Integer OPS) | Base (JALR)
    pub rs1: Register,
    /// Operation to be performed
    pub funct3: u32,
    /// Destination register
    pub rd: Register,
}

impl IType {
    pub fn new(instr: u32) -> (r: Self)
        ensures
            r.imm == i_imm(instr),
            r.rs1 == rs1(instr),
            r.funct3 == funct3(instr),
            r.rd == rd(instr),
    {
        proof {
            lemma_common_fields(instr);
            assert(((instr << 0u32) as i32) >> 20u32 == (if (instr >> 20u32) as i32 >= 2048 {
                ((instr >> 20u32) as i32 - 4096) as i32
            } else {
                (instr >> 20u32) as i32
            })) by (bit_vector);
        }
        IType {
            imm: instr.get_i32(0, 12),
            rs1: Register::from(instr.get_u32(12, 5)),
            funct3: instr.get_u32(17, 3),
            rd: Register::from(instr.get_u32(20, 5)),
        }
    }
}

/// Store instructions
#[derive(Debug)]
pub struct SType {
    /// Offset added to base address, split so rs1 and rs2 remain in constant locations
    pub imm: i32,
    /// Source operand register
    pub rs2: Register,
    /// Base address register
    pub rs1: Register,
    /// Operation to be performed
    pub funct3: u32,
}

impl SType {
    pub fn new(instr: u32) -> (r: Self)
        ensures
            r.imm == s_imm(instr),
            r.rs2 == rs2(instr),
            r.rs1 == rs1(instr),
            r.funct3 == funct3(instr),
    {
        proof {
            lemma_common_fields(instr);
        }
        let imm11 = instr.get_u32(0, 7);
        let imm4 = instr.get_u32(20, 5);
        proof {
            assert(imm11 == instr >> 25u32 && imm4 == (instr >> 7u32) & 0x1f && imm11 < 128 && imm4 < 32) by (bit_vector)
                requires
                    imm11 == (instr << 0u32) >> 25u32,
                    imm4 == (instr << 20u32) >> 27u32,
            ;
        }
        assert(imm11 << 5u32 <= 0xfe0) by (bit_vector)
            requires
                imm11 < 128,
        ;
        let val = (imm11 << 5) + imm4;
        proof {
            assert((((val << 20u32) as i32) >> 20u32) == (if (((instr >> 25u32) << 5u32) | ((instr >> 7u32) & 0x1f)) as i32 >= 2048 {
                ((((instr >> 25u32) << 5u32) | ((instr >> 7u32) & 0x1f)) as i32 - 4096) as i32
            } else {
                (((instr >> 25u32) << 5u32) | ((instr >> 7u32) & 0x1f)) as i32
            })) by (bit_vector)
                requires
                    imm11 == instr >> 25u32,
                    imm4 == (instr >> 7u32) & 0x1f,
                    val == (imm11 << 5u32) + imm4,
            ;
        }
        SType {
            imm: ((val << 20) as i32) >> 20,
            rs2: Register::from(instr.get_u32(7, 5)),
            rs1: Register::from(instr.get_u32(12, 5)),
            funct3: instr.get_u32(17, 3),
        }
    }
}

/// Used for conditional branch Instructions, compares rs1 & rs2 to determine branch
#[derive(Debug)]
pub struct BType {
    /// Offset added to base address, split so rs1 and rs2 remain in constant locations
    pub imm: i32,
    /// Souce operand register 2
    pub rs2: Register,
    /// Souce operand register 1
    pub rs1: Register,
    /// Operation to be performed
    pub funct3: u32,
}

impl BType {
    pub fn new(instr: u32) -> (r: Self)
        ensures
            r.imm == b_imm(instr),
            r.rs2 == rs2(instr),
            r.rs1 == rs1(instr),
            r.funct3 == funct3(instr),
    {
        proof {
            lemma_common_fields(instr);
        }
        let imm12 = instr.get_u32(0, 1);
        let imm10 = instr.get_u32(1, 6);
        let imm4 = instr.get_u32(20, 4);
        let imm11 = instr.get_u32(24, 1);
        proof {
            assert(imm12 == instr >> 31u32 && imm10 == (instr >> 25u32) & 0x3f && imm4 == (instr >> 8u32) & 0xf
                && imm11 == (instr >> 7u32) & 1 && imm12 < 2 && imm10 < 64 && imm4 < 16 && imm11 < 2) by (bit_vector)
                requires
                    imm12 == (instr << 0u32) >> 31u32,
                    imm10 == (instr << 1u32) >> 26u32,
                    imm4 == (instr << 20u32) >> 28u32,
                    imm11 == (instr << 24u32) >> 31u32,
            ;
        }
        assert(imm12 << 12u32 <= 4096 && imm11 << 11u32 <= 2048 && imm10 << 5u32 <= 2016 && imm4 << 1u32 <= 30) by (bit_vector)
            requires
                imm12 < 2,
                imm10 < 64,
                imm4 < 16,
                imm11 < 2,
        ;
        let val = (imm12 << 12) + (imm11 << 11) + (imm10 << 5) + (imm4 << 1);
        proof {
            let v = (((instr >> 31u32) << 12u32) | (((instr >> 7u32) & 1) << 11u32) | (((instr >> 25u32) & 0x3f) << 5u32)
                | (((instr >> 8u32) & 0xf) << 1u32));
            assert((((val << 19u32) as i32) >> 19u32) == (if v as i32 >= 4096 {
                (v as i32 - 8192) as i32
            } else {
                v as i32
            })) by (bit_vector)
                requires
                    imm12 == instr >> 31u32,
                    imm10 == (instr >> 25u32) & 0x3f,
                    imm4 == (instr >> 8u32) & 0xf,
                    imm11 == (instr >> 7u32) & 1,
                    val == (imm12 << 12u32) + (imm11 << 11u32) + (imm10 << 5u32) + (imm4 << 1u32),
                    v == (((instr >> 31u32) << 12u32) | (((instr >> 7u32) & 1) << 11u32) | (((instr >> 25u32) & 0x3f) << 5u32)
                        | (((instr >> 8u32) & 0xf) << 1u32)),
            ;
        }
        BType {
            imm: ((val << 19) as i32) >> 19,
            rs2: Register::from(instr.get_u32(7, 5)),
            rs1: Register::from(instr.get_u32(12, 5)),
            funct3: instr.get_u32(17, 3),
        }
    }
}

/// Used to either build constants, or to construct pc-relative addresses
#[derive(Debug)]
pub struct UType {
    /// Used to build constants (LUI) or as a pc-relative address (AUIPC)
    pub imm: i32,
    /// Destination register
    pub rd: Register,
}

impl UType {
    pub fn new(instr: u32) -> (r: Self)
        ensures
            r.imm == u_imm(instr),
            r.rd == rd(instr),
    {
        proof {
            lemma_common_fields(instr);
            assert(instr & !0xfffu32 == instr & 0xfffff000u32) by (bit_vector);
        }
        UType { imm: (instr & !0xfff) as i32, rd: Register::from(instr.get_u32(20, 5)) }
    }
}

/// Only used by JAL instruction
#[derive(Debug)]
pub struct JType {
    /// Sign extended offset used for unconditional jump
    pub imm: i32,
    /// Address at pc+4 during the jump is stored in rd
    pub rd: Register,
}

impl JType {
    pub fn new(instr: u32) -> (r: Self)
        ensures
            r.imm == j_imm(instr),
            r.rd == rd(instr),
    {
        proof {
            lemma_common_fields(instr);
        }
        let imm20 = instr.get_u32(0, 1);
        let imm10 = instr.get_u32(1, 10);
        let imm11 = instr.get_u32(11, 1);
        let imm19 = instr.get_u32(12, 8);
        proof {
            assert(imm20 == instr >> 31u32 && imm10 == (instr >> 21u32) & 0x3ff && imm11 == (instr >> 20u32) & 1
                && imm19 == (instr >> 12u32) & 0xff && imm20 < 2 && imm10 < 1024 && imm11 < 2 && imm19 < 256) by (bit_vector)
                requires
                    imm20 == (instr << 0u32) >> 31u32,
                    imm10 == (instr << 1u32) >> 22u32,
                    imm11 == (instr << 11u32) >> 31u32,
                    imm19 == (instr << 12u32) >> 24u32,
            ;
        }
        assert(imm20 << 20u32 <= 0x100000 && imm19 << 12u32 <= 0xff000 && imm11 << 11u32 <= 2048 && imm10 << 1u32 <= 2046) by (bit_vector)
            requires
                imm20 < 2,
                imm10 < 1024,
                imm11 < 2,
                imm19 < 256,
        ;
        let val = (imm20 << 20) + (imm19 << 12) + (imm11 << 11) + (imm10 << 1);
        proof {
            let v = (((instr >> 31u32) << 20u32) | (((instr >> 12u32) & 0xff) << 12u32) | (((instr >> 20u32) & 1) << 11u32)
                | (((instr >> 21u32) & 0x3ff) << 1u32));
            assert((((val << 11u32) as i32) >> 11u32) == (if v as i32 >= 0x100000 {
                (v as i32 - 0x200000) as i32
            } else {
                v as i32
            })) by (bit_vector)
                requires
                    imm20 == instr >> 31u32,
                    imm10 == (instr >> 21u32) & 0x3ff,
                    imm11 == (instr >> 20u32) & 1,
                    imm19 == (instr >> 12u32) & 0xff,
                    val == (imm20 << 20u32) + (imm19 << 12u32) + (imm11 << 11u32) + (imm10 << 1u32),
                    v == (((instr >> 31u32) << 20u32) | (((instr >> 12u32) & 0xff) << 12u32) | (((instr >> 20u32) & 1) << 11u32)
                        | (((instr >> 21u32) & 0x3ff) << 1u32)),
            ;
        }
        JType { imm: ((val << 11) as i32) >> 11, rd: Register::from(instr.get_u32(20, 5)) }
    }
}

/// The shift amounts and sub-opcodes read from a sign-extended I-type immediate agree with the
/// ISA's field definitions.
proof fn lemma_imm_fields(imm: i32, instr: u32)
    requires
        imm == i_imm(instr),
    ensures
        imm & 0b111111i32 == shamt6(instr),
        imm & 0b11111i32 == shamt5(instr),
        (imm >> 6u32) & 0b111111i32 == funct6(instr) as i32,
        (imm >> 5u32) & 0b1111111i32 == funct7(instr) as i32,
{
    assert(imm & 0b111111i32 == ((instr >> 20u32) & 0x3f) as i32 && imm & 0b11111i32 == ((instr >> 20u32) & 0x1f) as i32
        && (imm >> 6u32) & 0b111111i32 == (instr >> 26u32) as i32 && (imm >> 5u32) & 0b1111111i32 == (instr >> 25u32) as i32) by (bit_vector)
        requires
            imm == (if (instr >> 20u32) as i32 >= 2048 {
                ((instr >> 20u32) as i32 - 4096) as i32
            } else {
                (instr >> 20u32) as i32
            }),
    ;
}

/// The shifted-field extractions agree with the ISA's field definitions.
proof fn lemma_common_fields(instr: u32)
    ensures
        (instr << 0u32) >> 25u32 == funct7(instr),
        (instr << 7u32) >> 27u32 == rs2_bits(instr),
        (instr << 12u32) >> 27u32 == rs1_bits(instr),
        (instr << 17u32) >> 29u32 == funct3(instr),
        (instr << 20u32) >> 27u32 == rd_bits(instr),
        rs2_bits(instr) < 32,
        rs1_bits(instr) < 32,
        rd_bits(instr) < 32,
        funct3(instr) < 8,
        funct7(instr) < 128,
{
    assert((instr << 0u32) >> 25u32 == instr >> 25u32) by (bit_vector);
    assert((instr << 7u32) >> 27u32 == (instr >> 20u32) & 0x1f) by (bit_vector);
    assert((instr << 12u32) >> 27u32 == (instr >> 15u32) & 0x1f) by (bit_vector);
    assert((instr << 17u32) >> 29u32 == (instr >> 12u32) & 0x7) by (bit_vector);
    assert((instr << 20u32) >> 27u32 == (instr >> 7u32) & 0x1f) by (bit_vector);
    assert((instr >> 20u32) & 0x1f < 32 && (instr >> 15u32) & 0x1f < 32 && (instr >> 7u32) & 0x1f < 32
        && (instr >> 12u32) & 0x7 < 8 && instr >> 25u32 < 128) by (bit_vector);
}

// ------------------------------------------------------------------------------------------------
// Decoder
// ------------------------------------------------------------------------------------------------

/// Whether `decode_instr` accepts the word: it refuses the words of a supported major opcode whose
/// function bits name no instruction.
pub fn is_decodable(instr: u32) -> (r: bool)
    ensures
        r == (spec_decode(instr) is Some),
{
    let op = instr & 0x7f;
    let f3 = (instr >> 12u32) & 0x7;
    let f7 = instr >> 25u32;
    let f6 = instr >> 26u32;
    assert(f3 <= 7) by (bit_vector)
        requires
            f3 == (instr >> 12u32) & 0x7,
    ;
    if instr == 0 {
        true
    } else if op == 0x63 {
        f3 != 2 && f3 != 3
    } else if op == 0x03 {
        f3 != 7
    } else if op == 0x23 {
        f3 <= 3
    } else if op == 0x13 {
        f3 != 5 || f6 == 0 || f6 == 0x10
    } else if op == 0x33 {
        f7 == 0 || f7 == 1 || (f7 == 0x20 && (f3 == 0 || f3 == 5))
    } else if op == 0x73 {
        instr == 0x73 || instr == 0x100073
    } else if op == 0x1b {
        f3 == 0 || f3 == 1 || (f3 == 5 && (f7 == 0 || f7 == 0x20))
    } else if op == 0x3b {
        (f7 == 0 && (f3 == 0 || f3 == 1 || f3 == 5)) || (f7 == 0x20 && (f3 == 0 || f3 == 5)) || (
        f7 == 1 && (f3 == 0 || f3 >= 4))
    } else {
        true
    }
}

/// Decode a 32-bit instruction word. Words of an unsupported major opcode are handed back as the
/// error; the all-zero word decodes to `Instr::Nil`.
pub fn decode_instr(instr: u32) -> (r: Result<Instr, u32>)
    requires
        spec_decode(instr) is Some,
    ensures
        spec_decode(instr) == Some(r),
{
    if instr == 0 {
        return Ok(Instr::Nil);
    }
    let opcode = instr & 0b1111111;
    let ghost raw_word = instr;
    proof {
        lemma_common_fields(instr);
        assert(instr >> 26u32 == (instr >> 25u32) >> 1u32) by (bit_vector);
    }

    let ret = if opcode == 0b0110111 {
        /* LUI */
        let instr = UType::new(instr);
        Instr::Lui { rd: instr.rd, imm: instr.imm }
    } else if opcode == 0b0010111 {
        /* AUIPC */
        let instr = UType::new(instr);
        Instr::Auipc { rd: instr.rd, imm: instr.imm }
    } else if opcode == 0b1101111 {
        /* JAL */
        let instr = JType::new(instr);
        Instr::Jal { rd: instr.rd, imm: instr.imm }
    } else if opcode == 0b1100111 {
        /* JALR */
        let instr = IType::new(instr);
        Instr::Jalr { rd: instr.rd, rs1: instr.rs1, imm: instr.imm }
    } else if opcode == 0b1100011 {
        let instr = BType::new(instr);
        match instr.funct3 {
            0b000 => Instr::Beq { rs1: instr.rs1, rs2: instr.rs2, imm: instr.imm, mode: 0b000 },
            0b001 => Instr::Bne { rs1: instr.rs1, rs2: instr.rs2, imm: instr.imm, mode: 0b001 },
            0b100 => Instr::Blt { rs1: instr.rs1, rs2: instr.rs2, imm: instr.imm, mode: 0b100 },
            0b101 => Instr::Bge { rs1: instr.rs1, rs2: instr.rs2, imm: instr.imm, mode: 0b101 },
            0b110 => Instr::Bltu { rs1: instr.rs1, rs2: instr.rs2, imm: instr.imm, mode: 0b110 },
            _ => Instr::Bgeu { rs1: instr.rs1, rs2: instr.rs2, imm: instr.imm, mode: 0b111 },
        }
    } else if opcode == 0b0000011 {
        let instr = IType::new(instr);
        match instr.funct3 {
            0b000 => Instr::Lb { rd: instr.rd, rs1: instr.rs1, imm: instr.imm, mode: 0b000 },
            0b001 => Instr::Lh { rd: instr.rd, rs1: instr.rs1, imm: instr.imm, mode: 0b001 },
            0b010 => Instr::Lw { rd: instr.rd, rs1: instr.rs1, imm: instr.imm, mode: 0b010 },
            0b100 => Instr::Lbu { rd: instr.rd, rs1: instr.rs1, imm: instr.imm, mode: 0b100 },
            0b101 => Instr::Lhu { rd: instr.rd, rs1: instr.rs1, imm: instr.imm, mode: 0b101 },
            0b110 => Instr::Lwu { rd: instr.rd, rs1: instr.rs1, imm: instr.imm, mode: 0b110 },
            _ => Instr::Ld { rd: instr.rd, rs1: instr.rs1, imm: instr.imm, mode: 0b011 },
        }
    } else if opcode == 0b0100011 {
        let instr = SType::new(instr);
        match instr.funct3 {
            0b000 => Instr::Sb { rs1: instr.rs1, rs2: instr.rs2, imm: instr.imm, mode: 0b000 },
            0b001 => Instr::Sh { rs1: instr.rs1, rs2: instr.rs2, imm: instr.imm, mode: 0b001 },
            0b010 => Instr::Sw { rs1: instr.rs1, rs2: instr.rs2, imm: instr.imm, mode: 0b010 },
            _ => Instr::Sd { rs1: instr.rs1, rs2: instr.rs2, imm: instr.imm, mode: 0b011 },
        }
    } else if opcode == 0b0010011 {
        let instr = IType::new(instr);
        proof {
            lemma_imm_fields(instr.imm, raw_word);
        }
        match instr.funct3 {
            0b000 => Instr::Addi { rd: instr.rd, rs1: instr.rs1, imm: instr.imm },
            0b010 => Instr::Slti { rd: instr.rd, rs1: instr.rs1, imm: instr.imm },
            0b011 => Instr::Sltiu { rd: instr.rd, rs1: instr.rs1, imm: instr.imm },
            0b100 => Instr::Xori { rd: instr.rd, rs1: instr.rs1, imm: instr.imm },
            0b110 => Instr::Ori { rd: instr.rd, rs1: instr.rs1, imm: instr.imm },
            0b111 => Instr::Andi { rd: instr.rd, rs1: instr.rs1, imm: instr.imm },
            0b001 => {
                /* SLLI */
                let shamt = instr.imm & 0b111111;
                Instr::Slli { rd: instr.rd, rs1: instr.rs1, imm: shamt }
            },
            _ => {
                if (instr.imm >> 6) & 0b111111 == 0b000000 {
                    /* SRLI */
                    let shamt = instr.imm & 0b111111;
                    Instr::Srli { rd: instr.rd, rs1: instr.rs1, imm: shamt }
                } else {
                    /* SRAI */
                    let shamt = instr.imm & 0b111111;
                    Instr::Srai { rd: instr.rd, rs1: instr.rs1, imm: shamt }
                }
            },
        }
    } else if opcode == 0b0110011 {
        let instr = RType::new(instr);
        match (instr.funct3, instr.funct7) {
            (0b000, 0b0000000) => Instr::Add { rd: instr.rd, rs1: instr.rs1, rs2: instr.rs2 },
            (0b000, 0b0100000) => Instr::Sub { rd: instr.rd, rs1: instr.rs1, rs2: instr.rs2 },
            (0b000, 0b0000001) => Instr::Mul { rd: instr.rd, rs1: instr.rs1, rs2: instr.rs2 },
            (0b001, 0b0000000) => Instr::Sll { rd: instr.rd, rs1: instr.rs1, rs2: instr.rs2 },
            (0b001, 0b0000001) => Instr::Mulh { rd: instr.rd, rs1: instr.rs1, rs2: instr.rs2 },
            (0b010, 0b0000000) => Instr::Slt { rd: instr.rd, rs1: instr.rs1, rs2: instr.rs2 },
            (0b010, 0b0000001) => Instr::Mulhsu { rd: instr.rd, rs1: instr.rs1, rs2: instr.rs2 },
            (0b011, 0b0000000) => Instr::Sltu { rd: instr.rd, rs1: instr.rs1, rs2: instr.rs2 },
            (0b011, 0b0000001) => Instr::Mulhu { rd: instr.rd, rs1: instr.rs1, rs2: instr.rs2 },
            (0b100, 0b0000000) => Instr::Xor { rd: instr.rd, rs1: instr.rs1, rs2: instr.rs2 },
            (0b100, 0b0000001) => Instr::Div { rd: instr.rd, rs1: instr.rs1, rs2: instr.rs2 },
            (0b101, 0b0000000) => Instr::Srl { rd: instr.rd, rs1: instr.rs1, rs2: instr.rs2 },
            (0b101, 0b0100000) => Instr::Sra { rd: instr.rd, rs1: instr.rs1, rs2: instr.rs2 },
            (0b101, 0b0000001) => Instr::Divu { rd: instr.rd, rs1: instr.rs1, rs2: instr.rs2 },
            (0b110, 0b0000000) => Instr::Or { rd: instr.rd, rs1: instr.rs1, rs2: instr.rs2 },
            (0b110, 0b0000001) => Instr::Rem { rd: instr.rd, rs1: instr.rs1, rs2: instr.rs2 },
            (0b111, 0b0000000) => Instr::And { rd: instr.rd, rs1: instr.rs1, rs2: instr.rs2 },
            _ => Instr::Remu { rd: instr.rd, rs1: instr.rs1, rs2: instr.rs2 },
        }
    } else if opcode == 0b0001111 {
        /* Fence, a nop here */
        Instr::Fence
    } else if opcode == 0b1110011 {
        if instr == 0b00000000000000000000000001110011 {
            /* ECALL */
            Instr::Ecall
        } else {
            /* EBREAK */
            Instr::Ebreak
        }
    } else if opcode == 0b0011011 {
        let instr = IType::new(instr);
        proof {
            lemma_imm_fields(instr.imm, raw_word);
        }
        let mode = (instr.imm >> 5) & 0b1111111;
        match (instr.funct3, mode) {
            (0b000, _) => Instr::Addiw { rd: instr.rd, rs1: instr.rs1, imm: instr.imm },
            (0b001, _) => {
                /* SLLIW */
                let shamt = instr.imm & 0b11111;
                Instr::Slliw { rd: instr.rd, rs1: instr.rs1, imm: shamt }
            },
            (0b101, 0b0000000) => {
                /* SRLIW */
                let shamt = instr.imm & 0b11111;
                Instr::Srliw { rd: instr.rd, rs1: instr.rs1, imm: shamt }
            },
            _ => {
                /* SRAIW */
                let shamt = instr.imm & 0b11111;
                Instr::Sraiw { rd: instr.rd, rs1: instr.rs1, imm: shamt }
            },
        }
    } else if opcode == 0b0111011 {
        let instr = RType::new(instr);
        match (instr.funct3, instr.funct7) {
            (0b000, 0b0000000) => Instr::Addw { rd: instr.rd, rs1: instr.rs1, rs2: instr.rs2 },
            (0b000, 0b0100000) => Instr::Subw { rd: instr.rd, rs1: instr.rs1, rs2: instr.rs2 },
            (0b000, 0b0000001) => Instr::Mulw { rd: instr.rd, rs1: instr.rs1, rs2: instr.rs2 },
            (0b001, 0b0000000) => Instr::Sllw { rd: instr.rd, rs1: instr.rs1, rs2: instr.rs2 },
            (0b101, 0b0000000) => Instr::Srlw { rd: instr.rd, rs1: instr.rs1, rs2: instr.rs2 },
            (0b101, 0b0100000) => Instr::Sraw { rd: instr.rd, rs1: instr.rs1, rs2: instr.rs2 },
            (0b101, 0b0000001) => Instr::Divuw { rd: instr.rd, rs1: instr.rs1, rs2: instr.rs2 },
            (0b100, 0b0000001) => Instr::Divw { rd: instr.rd, rs1: instr.rs1, rs2: instr.rs2 },
            (0b110, 0b0000001) => Instr::Remw { rd: instr.rd, rs1: instr.rs1, rs2: instr.rs2 },
            _ => Instr::Remuw { rd: instr.rd, rs1: instr.rs1, rs2: instr.rs2 },
        }
    } else {
        return Err(instr);
    };
    Ok(ret)
}

} // verus!
