use sfuzz::emulator::Register;
use sfuzz::riscv::{decode_instr, Instr};

#[test]
fn nil() {
    assert_eq!(decode_instr(0x0), Ok(Instr::Nil))
}

#[test]
fn ecall() {
    assert_eq!(decode_instr(0x73), Ok(Instr::Ecall))
}

#[test]
fn ebreak() {
    assert_eq!(decode_instr(0x100073), Ok(Instr::Ebreak))
}

#[test]
fn rtype() {
    match decode_instr(0xf70733) { Ok(Instr::Add{ rd, rs1 , rs2}) => {
        assert_eq!(rd, Register::A4); assert_eq!(rs2, Register::A5);
        assert_eq!(rs1, Register::A4); }, _ => { panic!(""); } };
    match decode_instr(0x40c685b3) { Ok(Instr::Sub{ rd, rs1 , rs2}) => {
        assert_eq!(rd, Register::A1); assert_eq!(rs2, Register::A2);
        assert_eq!(rs1, Register::A3); }, _ => { panic!(""); } };
    match decode_instr(0x2f48a33) { Ok(Instr::Mul{ rd, rs1 , rs2}) => {
        assert_eq!(rd, Register::S4); assert_eq!(rs2, Register::A5);
        assert_eq!(rs1, Register::S1); }, _ => { panic!(""); } };
    match decode_instr(0x2f48a33) { Ok(Instr::Mul{ rd, rs1 , rs2}) => {
        assert_eq!(rd, Register::S4); assert_eq!(rs2, Register::A5);
        assert_eq!(rs1, Register::S1); }, _ => { panic!(""); } };
    match decode_instr(0x299f7b3) { Ok(Instr::Remu{ rd, rs1 , rs2}) => {
        assert_eq!(rd, Register::A5); assert_eq!(rs2, Register::S1);
        assert_eq!(rs1, Register::S3); }, _ => { panic!(""); } };
    match decode_instr(0x299f7b3) { Ok(Instr::Remu{ rd, rs1 , rs2}) => {
        assert_eq!(rd, Register::A5); assert_eq!(rs2, Register::S1);
        assert_eq!(rs1, Register::S3); }, _ => { panic!(""); } };
    match decode_instr(0x2b6c6bb) { Ok(Instr::Divw{ rd, rs1 , rs2}) => {
        assert_eq!(rd, Register::A3); assert_eq!(rs2, Register::A1);
        assert_eq!(rs1, Register::A3); }, _ => { panic!(""); } };
    match decode_instr(0x2c5b7b3) { Ok(Instr::Mulhu{ rd, rs1 , rs2}) => {
        assert_eq!(rd, Register::A5); assert_eq!(rs2, Register::A2);
        assert_eq!(rs1, Register::A1); }, _ => { panic!(""); } };
}

#[test]
fn itype() {
    match decode_instr(0x1259583) { Ok(Instr::Lh{ rd, rs1 , imm, mode: _}) => {
        assert_eq!(rd, Register::A1); assert_eq!(imm, 18);
        assert_eq!(rs1, Register::A1); }, _ => { panic!(""); } };
    match decode_instr(0x1099703) { Ok(Instr::Lh{ rd, rs1 , imm, mode: _}) => {
        assert_eq!(rd, Register::A4); assert_eq!(imm, 16);
        assert_eq!(rs1, Register::S3); }, _ => { panic!(""); } };
    match decode_instr(0x0ac42683) { Ok(Instr::Lw{ rd, rs1 , imm, mode: _}) => {
        assert_eq!(rd, Register::A3); assert_eq!(imm, 172);
        assert_eq!(rs1, Register::S0); }, _ => { panic!(""); } };
    match decode_instr(0x3107a883) { Ok(Instr::Lw{ rd, rs1 , imm, mode: _}) => {
        assert_eq!(rd, Register::A7); assert_eq!(imm, 784);
        assert_eq!(rs1, Register::A5); }, _ => { panic!(""); } };
    match decode_instr(0x01813083) { Ok(Instr::Ld{ rd, rs1 , imm, mode: _}) => {
        assert_eq!(rd, Register::Ra); assert_eq!(imm, 24);
        assert_eq!(rs1, Register::Sp); }, _ => { panic!(""); } };
    match decode_instr(0x6714603) { Ok(Instr::Lbu{ rd, rs1 , imm, mode: _}) => {
        assert_eq!(rd, Register::A2); assert_eq!(imm, 103);
        assert_eq!(rs1, Register::Sp); }, _ => { panic!(""); } };
    match decode_instr(0xd4583) { Ok(Instr::Lbu{ rd, rs1 , imm, mode: _}) => {
        assert_eq!(rd, Register::A1); assert_eq!(imm, 0);
        assert_eq!(rs1, Register::S10); }, _ => { panic!(""); } };
    match decode_instr(0x1015783) { Ok(Instr::Lhu{ rd, rs1 , imm, mode: _}) => {
        assert_eq!(rd, Register::A5); assert_eq!(imm, 16);
        assert_eq!(rs1, Register::Sp); }, _ => { panic!(""); } };
    match decode_instr(0x15015783) { Ok(Instr::Lhu{ rd, rs1 , imm, mode: _}) => {
        assert_eq!(rd, Register::A5); assert_eq!(imm, 336);
        assert_eq!(rs1, Register::Sp); }, _ => { panic!(""); } };
    match decode_instr(0xf98680e7) { Ok(Instr::Jalr{ rd, rs1 , imm}) => {
        assert_eq!(rd, Register::Ra); assert_eq!(imm, -104);
        assert_eq!(rs1, Register::A3); }, _ => { panic!(""); } };
    match decode_instr(0x700e7) { Ok(Instr::Jalr{ rd, rs1 , imm}) => {
        assert_eq!(rd, Register::Ra); assert_eq!(imm, 0);
        assert_eq!(rs1, Register::A4); }, _ => { panic!(""); } };
    match decode_instr(0xe7) { Ok(Instr::Jalr{ rd, rs1 , imm}) => {
        assert_eq!(rd, Register::Ra); assert_eq!(imm, 0);
        assert_eq!(rs1, Register::Zero); }, _ => { panic!(""); } };
    match decode_instr(0xc0070713) { Ok(Instr::Addi{ rd, rs1 , imm}) => {
        assert_eq!(rd, Register::A4); assert_eq!(imm, -1024);
        assert_eq!(rs1, Register::A4); }, _ => { panic!(""); } };
    match decode_instr(0xfff78693) { Ok(Instr::Addi{ rd, rs1 , imm}) => {
        assert_eq!(rd, Register::A3); assert_eq!(imm, -1);
        assert_eq!(rs1, Register::A5); }, _ => { panic!(""); } };
    match decode_instr(0x8307c793) { Ok(Instr::Xori{ rd, rs1 , imm}) => {
        assert_eq!(rd, Register::A5); assert_eq!(imm, -2000);
        assert_eq!(rs1, Register::A5); }, _ => { panic!(""); } };
    match decode_instr(0x807e793) { Ok(Instr::Ori{ rd, rs1 , imm}) => {
        assert_eq!(rd, Register::A5); assert_eq!(imm, 128);
        assert_eq!(rs1, Register::A5); }, _ => { panic!(""); } };
    match decode_instr(0x7ff7f793) { Ok(Instr::Andi{ rd, rs1 , imm}) => {
        assert_eq!(rd, Register::A5); assert_eq!(imm, 2047);
        assert_eq!(rs1, Register::A5); }, _ => { panic!(""); } };
    match decode_instr(0xfc37071b) { Ok(Instr::Addiw{ rd, rs1 , imm}) => {
        assert_eq!(rd, Register::A4); assert_eq!(imm, -61);
        assert_eq!(rs1, Register::A4); }, _ => { panic!(""); } };
    match decode_instr(0x4147d69b) { Ok(Instr::Sraiw{ rd, rs1 , imm}) => {
        assert_eq!(rd, Register::A3); assert_eq!(imm, 0x14);
        assert_eq!(rs1, Register::A5); }, _ => { panic!(""); } };
}


#[test]
fn stype() {
    match decode_instr(0xfedd8fa3) { Ok(Instr::Sb{ rs1, rs2, imm, mode: _}) => {
        assert_eq!(rs1, Register::S11); assert_eq!(imm, -1);
        assert_eq!(rs2, Register::A3); }, _ => { panic!(""); } };
    match decode_instr(0x60103a3) { Ok(Instr::Sb{ rs1, rs2, imm, mode: _}) => {
        assert_eq!(rs1, Register::Sp); assert_eq!(imm, 103);
        assert_eq!(rs2, Register::Zero); }, _ => { panic!(""); } };
    match decode_instr(0xef11023) { Ok(Instr::Sh{ rs1, rs2, imm, mode: _}) => {
        assert_eq!(rs1, Register::Sp); assert_eq!(imm, 224);
        assert_eq!(rs2, Register::A5); }, _ => { panic!(""); } };
    match decode_instr(0xf69023) { Ok(Instr::Sh{ rs1, rs2, imm, mode: _}) => {
        assert_eq!(rs1, Register::A3); assert_eq!(imm, 0);
        assert_eq!(rs2, Register::A5); }, _ => { panic!(""); } };
    match decode_instr(0x7801a823) { Ok(Instr::Sw{ rs1, rs2, imm, mode: _}) => {
        assert_eq!(rs1, Register::Gp); assert_eq!(imm, 1936);
        assert_eq!(rs2, Register::Zero); }, _ => { panic!(""); } };
    match decode_instr(0x852023) { Ok(Instr::Sw{ rs1, rs2, imm, mode: _}) => {
        assert_eq!(rs1, Register::A0); assert_eq!(imm, 0);
        assert_eq!(rs2, Register::S0); }, _ => { panic!(""); } };
}

#[test]
fn btype() {
    match decode_instr(0x78c63) { Ok(Instr::Beq{ rs1, rs2, imm, mode: _}) => {
        assert_eq!(rs1, Register::A5); assert_eq!(imm, 0x18);
        assert_eq!(rs2, Register::Zero); }, _ => { panic!(""); } };
    match decode_instr(0xf70c63) { Ok(Instr::Beq{ rs1, rs2, imm, mode: _}) => {
        assert_eq!(rs1, Register::A4); assert_eq!(imm, 0x18);
        assert_eq!(rs2, Register::A5); }, _ => { panic!(""); } };
    match decode_instr(0x1d041463) { Ok(Instr::Bne{ rs1, rs2, imm, mode: _}) => {
        assert_eq!(rs1, Register::S0); assert_eq!(imm, 0x1c8);
        assert_eq!(rs2, Register::A6); }, _ => { panic!(""); } };
    match decode_instr(0x2071463) { Ok(Instr::Bne{ rs1, rs2, imm, mode: _}) => {
        assert_eq!(rs1, Register::A4); assert_eq!(imm, 0x28);
        assert_eq!(rs2, Register::Zero); }, _ => { panic!(""); } };
    match decode_instr(0x12d8ce63) { Ok(Instr::Blt{ rs1, rs2, imm, mode: _}) => {
        assert_eq!(rs1, Register::A7); assert_eq!(imm, 0x13c);
        assert_eq!(rs2, Register::A3); }, _ => { panic!(""); } };
    match decode_instr(0xfe06c2e3) { Ok(Instr::Blt{ rs1, rs2, imm, mode: _}) => {
        assert_eq!(rs1, Register::A3); assert_eq!(imm, -0x1c);
        assert_eq!(rs2, Register::Zero); }, _ => { panic!(""); } };
    match decode_instr(0x36f6dee3) { Ok(Instr::Bge{ rs1, rs2, imm, mode: _}) => {
        assert_eq!(rs1, Register::A3); assert_eq!(imm, 0xb7c);
        assert_eq!(rs2, Register::A5); }, _ => { panic!(""); } };
    match decode_instr(0x9d463) { Ok(Instr::Bge{ rs1, rs2, imm, mode: _}) => {
        assert_eq!(rs1, Register::S3); assert_eq!(imm, 0x8);
        assert_eq!(rs2, Register::Zero); }, _ => { panic!(""); } };
    match decode_instr(0xa6eb60e3) { Ok(Instr::Bltu{ rs1, rs2, imm, mode: _}) => {
        assert_eq!(rs1, Register::S6); assert_eq!(imm, -0x5a0);
        assert_eq!(rs2, Register::A4); }, _ => { panic!(""); } };
    match decode_instr(0x2d76063) { Ok(Instr::Bltu{ rs1, rs2, imm, mode: _}) => {
        assert_eq!(rs1, Register::A4); assert_eq!(imm, 0x20);
        assert_eq!(rs2, Register::A3); }, _ => { panic!(""); } };
    match decode_instr(0xf966fae3) { Ok(Instr::Bgeu{ rs1, rs2, imm, mode: _}) => {
        assert_eq!(rs1, Register::A3); assert_eq!(imm, -0x6c);
        assert_eq!(rs2, Register::S6); }, _ => { panic!(""); } };
    match decode_instr(0x1d7f6e3) { Ok(Instr::Bgeu{ rs1, rs2, imm, mode: _}) => {
        assert_eq!(rs1, Register::A5); assert_eq!(imm, 0x80c);
        assert_eq!(rs2, Register::T4); }, _ => { panic!(""); } };
}

#[test]
fn utype() {
    match decode_instr(0x22637) { Ok(Instr::Lui{ rd, imm }) => {
            assert_eq!(rd, Register::A2); assert_eq!(imm, 0x22000); }, _ => { panic!(""); } };
    match decode_instr(0x8837) { Ok(Instr::Lui{ rd, imm }) => {
            assert_eq!(rd, Register::A6); assert_eq!(imm, 0x8000); }, _ => { panic!(""); } };
    match decode_instr(0xffffc9b7) { Ok(Instr::Lui{ rd, imm }) => {
            assert_eq!(rd, Register::S3); assert_eq!(imm, -0x4000); }, _ => { panic!(""); } };
    match decode_instr(0x14197) { Ok(Instr::Auipc{ rd, imm }) => {
            assert_eq!(rd, Register::Gp); assert_eq!(imm, 0x14000); }, _ => { panic!(""); } };
    match decode_instr(0x97) { Ok(Instr::Auipc{ rd, imm }) => {
            assert_eq!(rd, Register::Ra); assert_eq!(imm, 0x0); }, _ => { panic!(""); } };
    match decode_instr(0xe517) { Ok(Instr::Auipc{ rd, imm }) => {
            assert_eq!(rd, Register::A0); assert_eq!(imm, 0xe000); }, _ => { panic!(""); } };
}

#[test]
fn jtype() {
    match decode_instr(0x7a0000ef) { Ok(Instr::Jal{ rd, imm }) => {
            assert_eq!(rd, Register::Ra); assert_eq!(imm, 0x7a0); }, _ => { panic!(""); } };
    match decode_instr(0x428010ef) { Ok(Instr::Jal{ rd, imm }) => {
            assert_eq!(rd, Register::Ra); assert_eq!(imm, 0x1428); }, _ => { panic!(""); } };
    match decode_instr(0x358010ef) { Ok(Instr::Jal{ rd, imm }) => {
            assert_eq!(rd, Register::Ra); assert_eq!(imm, 0x1358); }, _ => { panic!(""); } };
    match decode_instr(0xf6dff06f) { Ok(Instr::Jal{ rd, imm }) => {
            assert_eq!(rd, Register::Zero); assert_eq!(imm, -0x94); }, _ => { panic!(""); } };
}
