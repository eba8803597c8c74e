use vstd::prelude::*;

verus! {

/// The 32 RISC-V integer registers and the program counter
#[derive(Clone, Copy, Debug, PartialEq, Eq, Structural, Hash, Ord, PartialOrd)]
pub enum Register {
    Zero,
    Ra,
    Sp,
    Gp,
    Tp,
    T0,
    T1,
    T2,
    S0,
    S1,
    A0,
    A1,
    A2,
    A3,
    A4,
    A5,
    A6,
    A7,
    S2,
    S3,
    S4,
    S5,
    S6,
    S7,
    S8,
    S9,
    S10,
    S11,
    T3,
    T4,
    T5,
    T6,
    Pc,
}

/// Number of registers the emulator keeps (including the program counter)
pub const NUMREGS: usize = 33;

/// The register with the given number; numbers 32 and above name the program counter.
pub open spec fn reg_of(v: u32) -> Register {
    match v {
        0 => Register::Zero,
        1 => Register::Ra,
        2 => Register::Sp,
        3 => Register::Gp,
        4 => Register::Tp,
        5 => Register::T0,
        6 => Register::T1,
        7 => Register::T2,
        8 => Register::S0,
        9 => Register::S1,
        10 => Register::A0,
        11 => Register::A1,
        12 => Register::A2,
        13 => Register::A3,
        14 => Register::A4,
        15 => Register::A5,
        16 => Register::A6,
        17 => Register::A7,
        18 => Register::S2,
        19 => Register::S3,
        20 => Register::S4,
        21 => Register::S5,
        22 => Register::S6,
        23 => Register::S7,
        24 => Register::S8,
        25 => Register::S9,
        26 => Register::S10,
        27 => Register::S11,
        28 => Register::T3,
        29 => Register::T4,
        30 => Register::T5,
        31 => Register::T6,
        _ => Register::Pc,
    }
}

impl Register {
    /// Position of the register in the register file
    pub open spec fn id(self) -> int {
        match self {
            Register::Zero => 0,
            Register::Ra => 1,
            Register::Sp => 2,
            Register::Gp => 3,
            Register::Tp => 4,
            Register::T0 => 5,
            Register::T1 => 6,
            Register::T2 => 7,
            Register::S0 => 8,
            Register::S1 => 9,
            Register::A0 => 10,
            Register::A1 => 11,
            Register::A2 => 12,
            Register::A3 => 13,
            Register::A4 => 14,
            Register::A5 => 15,
            Register::A6 => 16,
            Register::A7 => 17,
            Register::S2 => 18,
            Register::S3 => 19,
            Register::S4 => 20,
            Register::S5 => 21,
            Register::S6 => 22,
            Register::S7 => 23,
            Register::S8 => 24,
            Register::S9 => 25,
            Register::S10 => 26,
            Register::S11 => 27,
            Register::T3 => 28,
            Register::T4 => 29,
            Register::T5 => 30,
            Register::T6 => 31,
            Register::Pc => 32,
        }
    }

    /// Position of the register in the register file
    pub fn index(&self) -> (r: usize)
        ensures
            r == self.id(),
            r < NUMREGS,
    {
        match self {
            Register::Zero => 0,
            Register::Ra => 1,
            Register::Sp => 2,
            Register::Gp => 3,
            Register::Tp => 4,
            Register::T0 => 5,
            Register::T1 => 6,
            Register::T2 => 7,
            Register::S0 => 8,
            Register::S1 => 9,
            Register::A0 => 10,
            Register::A1 => 11,
            Register::A2 => 12,
            Register::A3 => 13,
            Register::A4 => 14,
            Register::A5 => 15,
            Register::A6 => 16,
            Register::A7 => 17,
            Register::S2 => 18,
            Register::S3 => 19,
            Register::S4 => 20,
            Register::S5 => 21,
            Register::S6 => 22,
            Register::S7 => 23,
            Register::S8 => 24,
            Register::S9 => 25,
            Register::S10 => 26,
            Register::S11 => 27,
            Register::T3 => 28,
            Register::T4 => 29,
            Register::T5 => 30,
            Register::T6 => 31,
            Register::Pc => 32,
        }
    }

    /// The register with the given position in the register file
    pub fn from(val: u32) -> (r: Register)
        requires
            val < 33,
        ensures
            r == reg_of(val),
            r.id() == val,
    {
        match val {
            0 => Register::Zero,
            1 => Register::Ra,
            2 => Register::Sp,
            3 => Register::Gp,
            4 => Register::Tp,
            5 => Register::T0,
            6 => Register::T1,
            7 => Register::T2,
            8 => Register::S0,
            9 => Register::S1,
            10 => Register::A0,
            11 => Register::A1,
            12 => Register::A2,
            13 => Register::A3,
            14 => Register::A4,
            15 => Register::A5,
            16 => Register::A6,
            17 => Register::A7,
            18 => Register::S2,
            19 => Register::S3,
            20 => Register::S4,
            21 => Register::S5,
            22 => Register::S6,
            23 => Register::S7,
            24 => Register::S8,
            25 => Register::S9,
            26 => Register::S10,
            27 => Register::S11,
            28 => Register::T3,
            29 => Register::T4,
            30 => Register::T5,
            31 => Register::T6,
            _ => Register::Pc,
        }
    }

    /// Registers are kept in the emulator's memory-mapped register file
    pub fn is_spilled(&self) -> (r: bool)
        ensures
            r,
    {
        true
    }

    /// Byte offset of the register in the memory-mapped register file
    pub fn get_offset(&self) -> (r: u64)
        ensures
            r == self.id() * 8,
    {
        self.index() as u64 * 8
    }
}

/// Every register is `reg_of` its own position.
pub proof fn lemma_reg_of_id(r: Register)
    ensures
        reg_of(r.id() as u32) == r,
        0 <= r.id() < 33,
{
}

} // verus!
