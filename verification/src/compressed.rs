//! The compressed encodings, in tables:
//! which halfword stands for which mnemonic, and which instruction that is
//! short for. Expansion is held to these tables in both directions.

use vstd::prelude::*;

use crate::decode::{
    cimm6_of, cimm_addi16sp_of, cimm_addi4spn_of, cimm_b_of, cimm_d_of, cimm_j_of, cimm_ldsp_of,
    cimm_lui_of, cimm_lwsp_of, cimm_sdsp_of, cimm_swsp_of, cimm_w_of, cshamt_of, decoded_compressed,
    fld_word_of, fsd_word_of, AluOp, BranchOp, Instr, LoadOp, StoreOp,
};
use crate::encoding::{twos, word};

verus! {

/// A compressed instruction. Registers are named by their full numbers;
/// offsets and immediates by their values.
pub enum Compressed {
    Addi4spn { rd: u32, uimm: u32 },
    Fld { rd: u32, rs1: u32, uimm: u32 },
    Lw { rd: u32, rs1: u32, uimm: u32 },
    Ld { rd: u32, rs1: u32, uimm: u32 },
    Fsd { rs1: u32, rs2: u32, uimm: u32 },
    Sw { rs1: u32, rs2: u32, uimm: u32 },
    Sd { rs1: u32, rs2: u32, uimm: u32 },
    Addi { rd: u32, imm: i64 },
    Addiw { rd: u32, imm: i64 },
    Li { rd: u32, imm: i64 },
    Addi16sp { imm: i64 },
    Lui { rd: u32, imm: i64 },
    Srli { rd: u32, shamt: u32 },
    Srai { rd: u32, shamt: u32 },
    Andi { rd: u32, imm: i64 },
    Sub { rd: u32, rs2: u32 },
    Xor { rd: u32, rs2: u32 },
    Or { rd: u32, rs2: u32 },
    And { rd: u32, rs2: u32 },
    Subw { rd: u32, rs2: u32 },
    Addw { rd: u32, rs2: u32 },
    J { imm: i64 },
    Beqz { rs1: u32, imm: i64 },
    Bnez { rs1: u32, imm: i64 },
    Slli { rd: u32, shamt: u32 },
    Fldsp { rd: u32, uimm: u32 },
    Lwsp { rd: u32, uimm: u32 },
    Ldsp { rd: u32, uimm: u32 },
    Jr { rs1: u32 },
    Mv { rd: u32, rs2: u32 },
    Ebreak,
    Jalr { rs1: u32 },
    Add { rd: u32, rs2: u32 },
    Fsdsp { rs2: u32, uimm: u32 },
    Swsp { rs2: u32, uimm: u32 },
    Sdsp { rs2: u32, uimm: u32 },
}

/// A register that three bits can name.
pub open spec fn short(r: u32) -> bool {
    8 <= r < 16
}

/// A signed number of six bits.
pub open spec fn imm6(imm: i64) -> bool {
    -32 <= imm < 32
}

/// An unsigned offset below `span` that is a multiple of `step`.
pub open spec fn offset(uimm: u32, span: u32, step: u32) -> bool {
    uimm < span && uimm % step == 0
}

/// u[5:3|2|6] at 12:10, 6, 5.
pub open spec fn spread_w(u: u32) -> u32 {
    (((u / 8) % 8) * 0x400 + ((u / 4) % 2) * 0x40 + ((u / 0x40) % 2) * 0x20) as u32
}

/// u[5:3|7:6] at 12:10, 6:5.
pub open spec fn spread_d(u: u32) -> u32 {
    (((u / 8) % 8) * 0x400 + ((u / 0x40) % 4) * 0x20) as u32
}

/// u[5|4:0] at 12, 6:2.
pub open spec fn spread_i(u: u32) -> u32 {
    (((u / 0x20) % 2) * 0x1000 + (u % 0x20) * 4) as u32
}

/// u[11|4|9:8|10|6|7|3:1|5] at 12:2.
pub open spec fn spread_j(u: u32) -> u32 {
    (((u / 0x800) % 2) * 0x1000 + ((u / 0x10) % 2) * 0x800 + ((u / 0x100) % 4) * 0x200 + ((u
        / 0x400) % 2) * 0x100 + ((u / 0x40) % 2) * 0x80 + ((u / 0x80) % 2) * 0x40 + ((u / 2) % 8)
        * 8 + ((u / 0x20) % 2) * 4) as u32
}

/// u[8|4:3] at 12:10, u[7:6|2:1|5] at 6:2.
pub open spec fn spread_b(u: u32) -> u32 {
    (((u / 0x100) % 2) * 0x1000 + ((u / 8) % 4) * 0x400 + ((u / 0x40) % 4) * 0x20 + ((u / 2) % 4)
        * 8 + ((u / 0x20) % 2) * 4) as u32
}

/// u[5|4:2|7:6] at 12, 6:4, 3:2.
pub open spec fn spread_lwsp(u: u32) -> u32 {
    (((u / 0x20) % 2) * 0x1000 + ((u / 4) % 8) * 0x10 + ((u / 0x40) % 4) * 4) as u32
}

/// u[5|4:3|8:6] at 12, 6:5, 4:2.
pub open spec fn spread_ldsp(u: u32) -> u32 {
    (((u / 0x20) % 2) * 0x1000 + ((u / 8) % 4) * 0x20 + ((u / 0x40) % 8) * 4) as u32
}

/// u[5:2|7:6] at 12:9, 8:7.
pub open spec fn spread_swsp(u: u32) -> u32 {
    (((u / 4) % 0x10) * 0x200 + ((u / 0x40) % 4) * 0x80) as u32
}

/// u[5:3|8:6] at 12:10, 9:7.
pub open spec fn spread_sdsp(u: u32) -> u32 {
    (((u / 8) % 8) * 0x400 + ((u / 0x40) % 8) * 0x80) as u32
}

/// u[5:4|9:6|2|3] at 12:11, 10:7, 6, 5.
pub open spec fn spread_4spn(u: u32) -> u32 {
    (((u / 0x10) % 4) * 0x800 + ((u / 0x40) % 0x10) * 0x80 + ((u / 4) % 2) * 0x40 + ((u / 8) % 2)
        * 0x20) as u32
}

/// u[9|4|6|8:7|5] at 12, 6, 5, 4:3, 2.
pub open spec fn spread_16sp(u: u32) -> u32 {
    (((u / 0x200) % 2) * 0x1000 + ((u / 0x10) % 2) * 0x40 + ((u / 0x40) % 2) * 0x20 + ((u / 0x80)
        % 4) * 8 + ((u / 0x20) % 2) * 4) as u32
}

/// The two's complement of an immediate in a field of `span` numbers.
pub open spec fn field_of(imm: i64, span: int) -> u32 {
    twos(imm as int, span) as u32
}

/// A halfword: quadrant, funct3, and the bits between.
pub open spec fn half(q: int, f3: int, between: int) -> int {
    q + 0x2000 * f3 + between
}

/// The word of `fld rd, uimm(rs1)`.
pub open spec fn fld(rd: u32, rs1: u32, uimm: u32) -> u32 {
    word(0x07, rd as int, 3, rs1 as int, (uimm % 0x20) as int, (uimm / 0x20) as int) as u32
}

/// The word of `fsd rs2, uimm(rs1)`.
pub open spec fn fsd(rs1: u32, rs2: u32, uimm: u32) -> u32 {
    word(0x27, (uimm % 0x20) as int, 3, rs1 as int, rs2 as int, (uimm / 0x20) as int) as u32
}

impl Compressed {
    /// The operands that the mnemonic takes.
    pub open spec fn valid(self) -> bool {
        match self {
            Compressed::Addi4spn { rd, uimm } => short(rd) && offset(uimm, 0x400, 4) && uimm != 0,
            Compressed::Fld { rd, rs1, uimm } => short(rd) && short(rs1) && offset(uimm, 0x100, 8),
            Compressed::Lw { rd, rs1, uimm } => short(rd) && short(rs1) && offset(uimm, 0x80, 4),
            Compressed::Ld { rd, rs1, uimm } => short(rd) && short(rs1) && offset(uimm, 0x100, 8),
            Compressed::Fsd { rs1, rs2, uimm } => short(rs1) && short(rs2) && offset(uimm, 0x100, 8),
            Compressed::Sw { rs1, rs2, uimm } => short(rs1) && short(rs2) && offset(uimm, 0x80, 4),
            Compressed::Sd { rs1, rs2, uimm } => short(rs1) && short(rs2) && offset(uimm, 0x100, 8),
            Compressed::Addi { rd, imm } => rd < 32 && imm6(imm),
            Compressed::Addiw { rd, imm } => 0 < rd < 32 && imm6(imm),
            Compressed::Li { rd, imm } => rd < 32 && imm6(imm),
            Compressed::Addi16sp { imm } => -0x200 <= imm < 0x200 && imm % 0x10 == 0 && imm != 0,
            Compressed::Lui { rd, imm } => rd < 32 && rd != 2 && -0x2_0000 <= imm < 0x2_0000 && imm % 0x1000 == 0 && imm != 0,
            Compressed::Srli { rd, shamt } => short(rd) && shamt < 64,
            Compressed::Srai { rd, shamt } => short(rd) && shamt < 64,
            Compressed::Andi { rd, imm } => short(rd) && imm6(imm),
            Compressed::Sub { rd, rs2 } => short(rd) && short(rs2),
            Compressed::Xor { rd, rs2 } => short(rd) && short(rs2),
            Compressed::Or { rd, rs2 } => short(rd) && short(rs2),
            Compressed::And { rd, rs2 } => short(rd) && short(rs2),
            Compressed::Subw { rd, rs2 } => short(rd) && short(rs2),
            Compressed::Addw { rd, rs2 } => short(rd) && short(rs2),
            Compressed::J { imm } => -0x800 <= imm < 0x800 && imm % 2 == 0,
            Compressed::Beqz { rs1, imm } => short(rs1) && -0x100 <= imm < 0x100 && imm % 2 == 0,
            Compressed::Bnez { rs1, imm } => short(rs1) && -0x100 <= imm < 0x100 && imm % 2 == 0,
            Compressed::Slli { rd, shamt } => rd < 32 && shamt < 64,
            Compressed::Fldsp { rd, uimm } => rd < 32 && offset(uimm, 0x200, 8),
            Compressed::Lwsp { rd, uimm } => 0 < rd < 32 && offset(uimm, 0x100, 4),
            Compressed::Ldsp { rd, uimm } => 0 < rd < 32 && offset(uimm, 0x200, 8),
            Compressed::Jr { rs1 } => 0 < rs1 < 32,
            Compressed::Mv { rd, rs2 } => rd < 32 && 0 < rs2 < 32,
            Compressed::Ebreak => true,
            Compressed::Jalr { rs1 } => 0 < rs1 < 32,
            Compressed::Add { rd, rs2 } => rd < 32 && 0 < rs2 < 32,
            Compressed::Fsdsp { rs2, uimm } => rs2 < 32 && offset(uimm, 0x200, 8),
            Compressed::Swsp { rs2, uimm } => rs2 < 32 && offset(uimm, 0x100, 4),
            Compressed::Sdsp { rs2, uimm } => rs2 < 32 && offset(uimm, 0x200, 8),
        }
    }

    /// The halfword that encodes it.
    pub open spec fn halfword(self) -> int {
        match self {
            Compressed::Addi4spn { rd, uimm } => half(0, 0, 4 * (rd - 8) + spread_4spn(uimm)),
            Compressed::Fld { rd, rs1, uimm } => half(0, 1, 4 * (rd - 8) + 0x80 * (rs1 - 8) + spread_d(uimm)),
            Compressed::Lw { rd, rs1, uimm } => half(0, 2, 4 * (rd - 8) + 0x80 * (rs1 - 8) + spread_w(uimm)),
            Compressed::Ld { rd, rs1, uimm } => half(0, 3, 4 * (rd - 8) + 0x80 * (rs1 - 8) + spread_d(uimm)),
            Compressed::Fsd { rs1, rs2, uimm } => half(0, 5, 4 * (rs2 - 8) + 0x80 * (rs1 - 8) + spread_d(uimm)),
            Compressed::Sw { rs1, rs2, uimm } => half(0, 6, 4 * (rs2 - 8) + 0x80 * (rs1 - 8) + spread_w(uimm)),
            Compressed::Sd { rs1, rs2, uimm } => half(0, 7, 4 * (rs2 - 8) + 0x80 * (rs1 - 8) + spread_d(uimm)),
            Compressed::Addi { rd, imm } => half(1, 0, 0x80 * rd + spread_i(field_of(imm, 0x40))),
            Compressed::Addiw { rd, imm } => half(1, 1, 0x80 * rd + spread_i(field_of(imm, 0x40))),
            Compressed::Li { rd, imm } => half(1, 2, 0x80 * rd + spread_i(field_of(imm, 0x40))),
            Compressed::Addi16sp { imm } => half(1, 3, 0x100 + spread_16sp(field_of(imm, 0x400))),
            Compressed::Lui { rd, imm } => half(1, 3, 0x80 * rd + spread_i((field_of(imm, 0x4_0000) / 0x1000) as u32)),
            Compressed::Srli { rd, shamt } => half(1, 4, 0x80 * (rd - 8) + spread_i(shamt)),
            Compressed::Srai { rd, shamt } => half(1, 4, 0x400 + 0x80 * (rd - 8) + spread_i(shamt)),
            Compressed::Andi { rd, imm } => half(1, 4, 0x800 + 0x80 * (rd - 8) + spread_i(field_of(imm, 0x40))),
            Compressed::Sub { rd, rs2 } => half(1, 4, 0xc00 + 0x80 * (rd - 8) + 4 * (rs2 - 8)),
            Compressed::Xor { rd, rs2 } => half(1, 4, 0xc20 + 0x80 * (rd - 8) + 4 * (rs2 - 8)),
            Compressed::Or { rd, rs2 } => half(1, 4, 0xc40 + 0x80 * (rd - 8) + 4 * (rs2 - 8)),
            Compressed::And { rd, rs2 } => half(1, 4, 0xc60 + 0x80 * (rd - 8) + 4 * (rs2 - 8)),
            Compressed::Subw { rd, rs2 } => half(1, 4, 0x1c00 + 0x80 * (rd - 8) + 4 * (rs2 - 8)),
            Compressed::Addw { rd, rs2 } => half(1, 4, 0x1c20 + 0x80 * (rd - 8) + 4 * (rs2 - 8)),
            Compressed::J { imm } => half(1, 5, spread_j(field_of(imm, 0x1000)) as int),
            Compressed::Beqz { rs1, imm } => half(1, 6, 0x80 * (rs1 - 8) + spread_b(field_of(imm, 0x200))),
            Compressed::Bnez { rs1, imm } => half(1, 7, 0x80 * (rs1 - 8) + spread_b(field_of(imm, 0x200))),
            Compressed::Slli { rd, shamt } => half(2, 0, 0x80 * rd + spread_i(shamt)),
            Compressed::Fldsp { rd, uimm } => half(2, 1, 0x80 * rd + spread_ldsp(uimm)),
            Compressed::Lwsp { rd, uimm } => half(2, 2, 0x80 * rd + spread_lwsp(uimm)),
            Compressed::Ldsp { rd, uimm } => half(2, 3, 0x80 * rd + spread_ldsp(uimm)),
            Compressed::Jr { rs1 } => half(2, 4, 0x80 * rs1),
            Compressed::Mv { rd, rs2 } => half(2, 4, 0x80 * rd + 4 * rs2),
            Compressed::Ebreak => half(2, 4, 0x1000),
            Compressed::Jalr { rs1 } => half(2, 4, 0x1000 + 0x80 * rs1),
            Compressed::Add { rd, rs2 } => half(2, 4, 0x1000 + 0x80 * rd + 4 * rs2),
            Compressed::Fsdsp { rs2, uimm } => half(2, 5, 4 * rs2 + spread_sdsp(uimm)),
            Compressed::Swsp { rs2, uimm } => half(2, 6, 4 * rs2 + spread_swsp(uimm)),
            Compressed::Sdsp { rs2, uimm } => half(2, 7, 4 * rs2 + spread_sdsp(uimm)),
        }
    }

    /// The instruction that it is short for.
    pub open spec fn expansion(self) -> Instr {
        match self {
            Compressed::Addi4spn { rd, uimm } => Instr::OpImm { op: AluOp::Add, rd: rd as u8, rs1: 2, imm: uimm as i64 },
            Compressed::Fld { rd, rs1, uimm } => Instr::Fp { raw: fld(rd, rs1, uimm) },
            Compressed::Lw { rd, rs1, uimm } => Instr::Load { op: LoadOp::Lw, rd: rd as u8, rs1: rs1 as u8, imm: uimm as i64 },
            Compressed::Ld { rd, rs1, uimm } => Instr::Load { op: LoadOp::Ld, rd: rd as u8, rs1: rs1 as u8, imm: uimm as i64 },
            Compressed::Fsd { rs1, rs2, uimm } => Instr::Fp { raw: fsd(rs1, rs2, uimm) },
            Compressed::Sw { rs1, rs2, uimm } => Instr::Store { op: StoreOp::Sw, rs1: rs1 as u8, rs2: rs2 as u8, imm: uimm as i64 },
            Compressed::Sd { rs1, rs2, uimm } => Instr::Store { op: StoreOp::Sd, rs1: rs1 as u8, rs2: rs2 as u8, imm: uimm as i64 },
            Compressed::Addi { rd, imm } => Instr::OpImm { op: AluOp::Add, rd: rd as u8, rs1: rd as u8, imm },
            Compressed::Addiw { rd, imm } => Instr::OpImm32 { op: AluOp::Add, rd: rd as u8, rs1: rd as u8, imm },
            Compressed::Li { rd, imm } => Instr::OpImm { op: AluOp::Add, rd: rd as u8, rs1: 0, imm },
            Compressed::Addi16sp { imm } => Instr::OpImm { op: AluOp::Add, rd: 2, rs1: 2, imm },
            Compressed::Lui { rd, imm } => Instr::Lui { rd: rd as u8, imm },
            Compressed::Srli { rd, shamt } => Instr::OpImm { op: AluOp::Srl, rd: rd as u8, rs1: rd as u8, imm: shamt as i64 },
            Compressed::Srai { rd, shamt } => Instr::OpImm { op: AluOp::Sra, rd: rd as u8, rs1: rd as u8, imm: shamt as i64 },
            Compressed::Andi { rd, imm } => Instr::OpImm { op: AluOp::And, rd: rd as u8, rs1: rd as u8, imm },
            Compressed::Sub { rd, rs2 } => Instr::Op { op: AluOp::Sub, rd: rd as u8, rs1: rd as u8, rs2: rs2 as u8 },
            Compressed::Xor { rd, rs2 } => Instr::Op { op: AluOp::Xor, rd: rd as u8, rs1: rd as u8, rs2: rs2 as u8 },
            Compressed::Or { rd, rs2 } => Instr::Op { op: AluOp::Or, rd: rd as u8, rs1: rd as u8, rs2: rs2 as u8 },
            Compressed::And { rd, rs2 } => Instr::Op { op: AluOp::And, rd: rd as u8, rs1: rd as u8, rs2: rs2 as u8 },
            Compressed::Subw { rd, rs2 } => Instr::Op32 { op: AluOp::Sub, rd: rd as u8, rs1: rd as u8, rs2: rs2 as u8 },
            Compressed::Addw { rd, rs2 } => Instr::Op32 { op: AluOp::Add, rd: rd as u8, rs1: rd as u8, rs2: rs2 as u8 },
            Compressed::J { imm } => Instr::Jal { rd: 0, imm },
            Compressed::Beqz { rs1, imm } => Instr::Branch { op: BranchOp::Eq, rs1: rs1 as u8, rs2: 0, imm },
            Compressed::Bnez { rs1, imm } => Instr::Branch { op: BranchOp::Ne, rs1: rs1 as u8, rs2: 0, imm },
            Compressed::Slli { rd, shamt } => Instr::OpImm { op: AluOp::Sll, rd: rd as u8, rs1: rd as u8, imm: shamt as i64 },
            Compressed::Fldsp { rd, uimm } => Instr::Fp { raw: fld(rd, 2, uimm) },
            Compressed::Lwsp { rd, uimm } => Instr::Load { op: LoadOp::Lw, rd: rd as u8, rs1: 2, imm: uimm as i64 },
            Compressed::Ldsp { rd, uimm } => Instr::Load { op: LoadOp::Ld, rd: rd as u8, rs1: 2, imm: uimm as i64 },
            Compressed::Jr { rs1 } => Instr::Jalr { rd: 0, rs1: rs1 as u8, imm: 0 },
            Compressed::Mv { rd, rs2 } => Instr::Op { op: AluOp::Add, rd: rd as u8, rs1: 0, rs2: rs2 as u8 },
            Compressed::Ebreak => Instr::Ebreak,
            Compressed::Jalr { rs1 } => Instr::Jalr { rd: 1, rs1: rs1 as u8, imm: 0 },
            Compressed::Add { rd, rs2 } => Instr::Op { op: AluOp::Add, rd: rd as u8, rs1: rd as u8, rs2: rs2 as u8 },
            Compressed::Fsdsp { rs2, uimm } => Instr::Fp { raw: fsd(2, rs2, uimm) },
            Compressed::Swsp { rs2, uimm } => Instr::Store { op: StoreOp::Sw, rs1: 2, rs2: rs2 as u8, imm: uimm as i64 },
            Compressed::Sdsp { rs2, uimm } => Instr::Store { op: StoreOp::Sd, rs1: 2, rs2: rs2 as u8, imm: uimm as i64 },
        }
    }
}

/// The fields of a halfword that was put together from them.
proof fn lemma_composed(h: u32, q: u32, f: u32, k: u32, a: u32, b: u32, r: u32, s: u32, u: u32)
    by (bit_vector)
    requires
        q < 4,
        f < 8,
        k < 4,
        a < 8,
        b < 8,
        r < 32,
        s < 32,
    ensures
        u < 0x80 && u % 4 == 0 && h == q + 0x2000 * f + 4 * a + 0x80 * b + spread_w(u) ==> h
            < 0x1_0000 && h % 4 == q && (h / 0x2000) % 8 == f && (h / 4) % 8 == a && (h / 0x80) % 8
            == b && cimm_w_of(h) == u,
        u < 0x100 && u % 8 == 0 && h == q + 0x2000 * f + 4 * a + 0x80 * b + spread_d(u) ==> h
            < 0x1_0000 && h % 4 == q && (h / 0x2000) % 8 == f && (h / 4) % 8 == a && (h / 0x80) % 8
            == b && cimm_d_of(h) == u,
        u < 0x400 && u % 4 == 0 && h == q + 0x2000 * f + 4 * a + spread_4spn(u) ==> h < 0x1_0000
            && h % 4 == q && (h / 0x2000) % 8 == f && (h / 4) % 8 == a && cimm_addi4spn_of(h) == u,
        u < 0x40 && h == q + 0x2000 * f + 0x400 * k + 0x80 * b + spread_i(u) ==> h < 0x1_0000 && h
            % 4 == q && (h / 0x2000) % 8 == f && (h / 0x400) % 4 == k && (h / 0x80) % 8 == b
            && cshamt_of(h) == u && cimm6_of(h) == (if u < 32 {
            u as i64
        } else {
            (u - 64) as i64
        }),
        u < 0x40 && h == q + 0x2000 * f + 0x80 * r + spread_i(u) ==> h < 0x1_0000 && h % 4 == q && (
        h / 0x2000) % 8 == f && (h / 0x80) % 0x20 == r && cshamt_of(h) == u && cimm6_of(h) == (if u
            < 32 {
            u as i64
        } else {
            (u - 64) as i64
        }) && cimm_lui_of(h) == (if u < 32 {
            (u * 0x1000) as i64
        } else {
            (u * 0x1000 - 0x4_0000) as i64
        }),
        u < 0x400 && u % 0x10 == 0 && h == q + 0x2000 * f + 0x80 * r + spread_16sp(u) ==> h
            < 0x1_0000 && h % 4 == q && (h / 0x2000) % 8 == f && (h / 0x80) % 0x20 == r
            && cimm_addi16sp_of(h) == (if u < 0x200 {
            u as i64
        } else {
            (u - 0x400) as i64
        }),
        u < 0x1000 && u % 2 == 0 && h == q + 0x2000 * f + spread_j(u) ==> h < 0x1_0000 && h % 4 == q
            && (h / 0x2000) % 8 == f && cimm_j_of(h) == (if u < 0x800 {
            u as i64
        } else {
            (u - 0x1000) as i64
        }),
        u < 0x200 && u % 2 == 0 && h == q + 0x2000 * f + 0x80 * b + spread_b(u) ==> h < 0x1_0000
            && h % 4 == q && (h / 0x2000) % 8 == f && (h / 0x80) % 8 == b && cimm_b_of(h) == (if u
            < 0x100 {
            u as i64
        } else {
            (u - 0x200) as i64
        }),
        u < 0x100 && u % 4 == 0 && h == q + 0x2000 * f + 0x80 * r + spread_lwsp(u) ==> h < 0x1_0000
            && h % 4 == q && (h / 0x2000) % 8 == f && (h / 0x80) % 0x20 == r && cimm_lwsp_of(h)
            == u,
        u < 0x200 && u % 8 == 0 && h == q + 0x2000 * f + 0x80 * r + spread_ldsp(u) ==> h < 0x1_0000
            && h % 4 == q && (h / 0x2000) % 8 == f && (h / 0x80) % 0x20 == r && cimm_ldsp_of(h)
            == u,
        u < 0x100 && u % 4 == 0 && h == q + 0x2000 * f + 4 * s + spread_swsp(u) ==> h < 0x1_0000 && h
            % 4 == q && (h / 0x2000) % 8 == f && (h / 4) % 0x20 == s && cimm_swsp_of(h) == u,
        u < 0x200 && u % 8 == 0 && h == q + 0x2000 * f + 4 * s + spread_sdsp(u) ==> h < 0x1_0000 && h
            % 4 == q && (h / 0x2000) % 8 == f && (h / 4) % 0x20 == s && cimm_sdsp_of(h) == u,
        u < 2 && h == q + 0x2000 * f + 0x1000 * u + 0x80 * r + 4 * s ==> h < 0x1_0000 && h % 4 == q
            && (h / 0x2000) % 8 == f && (h / 0x1000) % 2 == u && (h / 0x80) % 0x20 == r && (h / 4)
            % 0x20 == s,
        u < 2 && h == q + 0x2000 * f + 0x1000 * u + 0xc00 + 0x80 * b + 0x20 * k + 4 * a ==> h
            < 0x1_0000 && h % 4 == q && (h / 0x2000) % 8 == f && (h / 0x1000) % 2 == u && (h
            / 0x400) % 4 == 3 && (h / 0x80) % 8 == b && (h / 0x20) % 4 == k && (h / 4) % 8 == a,
{
}

/// A halfword is put together from its fields.
proof fn lemma_decomposed(h: u32)
    by (bit_vector)
    requires
        h < 0x1_0000,
    ensures
        h == h % 4 + 0x2000 * ((h / 0x2000) % 8) + 4 * ((h / 4) % 8) + 0x80 * ((h / 0x80) % 8)
            + spread_w(cimm_w_of(h) as u32),
        0 <= cimm_w_of(h) < 0x80 && (cimm_w_of(h) as u32) % 4 == 0,
        h == h % 4 + 0x2000 * ((h / 0x2000) % 8) + 4 * ((h / 4) % 8) + 0x80 * ((h / 0x80) % 8)
            + spread_d(cimm_d_of(h) as u32),
        0 <= cimm_d_of(h) < 0x100 && (cimm_d_of(h) as u32) % 8 == 0,
        h == h % 4 + 0x2000 * ((h / 0x2000) % 8) + 4 * ((h / 4) % 8) + spread_4spn(
            cimm_addi4spn_of(h) as u32,
        ),
        0 <= cimm_addi4spn_of(h) < 0x400 && (cimm_addi4spn_of(h) as u32) % 4 == 0,
        h == h % 4 + 0x2000 * ((h / 0x2000) % 8) + 0x400 * ((h / 0x400) % 4) + 0x80 * ((h / 0x80)
            % 8) + spread_i(cshamt_of(h) as u32),
        h == h % 4 + 0x2000 * ((h / 0x2000) % 8) + 0x80 * ((h / 0x80) % 0x20) + spread_i(
            cshamt_of(h) as u32,
        ),
        0 <= cshamt_of(h) < 0x40,
        -32 <= cimm6_of(h) < 32,
        cshamt_of(h) == (if cimm6_of(h) < 0 {
            cimm6_of(h) + 64
        } else {
            cimm6_of(h) as int
        }),
        -0x2_0000 <= cimm_lui_of(h) < 0x2_0000,
        cimm_lui_of(h) == cimm6_of(h) * 0x1000,
        h == h % 4 + 0x2000 * ((h / 0x2000) % 8) + 0x80 * ((h / 0x80) % 0x20) + spread_16sp(
            (cimm_addi16sp_of(h) & 0x3ff) as u32,
        ),
        -0x200 <= cimm_addi16sp_of(h) < 0x200,
        cimm_addi16sp_of(h) & 0xf == 0,
        (cimm_addi16sp_of(h) & 0x3ff) == (if cimm_addi16sp_of(h) < 0 {
            cimm_addi16sp_of(h) + 0x400
        } else {
            cimm_addi16sp_of(h) as int
        }),
        ((cimm_addi16sp_of(h) & 0x3ff) as u32) % 0x10 == 0,
        h == h % 4 + 0x2000 * ((h / 0x2000) % 8) + spread_j((cimm_j_of(h) & 0xfff) as u32),
        -0x800 <= cimm_j_of(h) < 0x800,
        ((cimm_j_of(h) & 0xfff) as u32) % 2 == 0,
        (cimm_j_of(h) & 0xfff) == (if cimm_j_of(h) < 0 {
            cimm_j_of(h) + 0x1000
        } else {
            cimm_j_of(h) as int
        }),
        h == h % 4 + 0x2000 * ((h / 0x2000) % 8) + 0x80 * ((h / 0x80) % 8) + spread_b(
            (cimm_b_of(h) & 0x1ff) as u32,
        ),
        -0x100 <= cimm_b_of(h) < 0x100,
        ((cimm_b_of(h) & 0x1ff) as u32) % 2 == 0,
        (cimm_b_of(h) & 0x1ff) == (if cimm_b_of(h) < 0 {
            cimm_b_of(h) + 0x200
        } else {
            cimm_b_of(h) as int
        }),
        h == h % 4 + 0x2000 * ((h / 0x2000) % 8) + 0x80 * ((h / 0x80) % 0x20) + spread_lwsp(
            cimm_lwsp_of(h) as u32,
        ),
        0 <= cimm_lwsp_of(h) < 0x100 && (cimm_lwsp_of(h) as u32) % 4 == 0,
        h == h % 4 + 0x2000 * ((h / 0x2000) % 8) + 0x80 * ((h / 0x80) % 0x20) + spread_ldsp(
            cimm_ldsp_of(h) as u32,
        ),
        0 <= cimm_ldsp_of(h) < 0x200 && (cimm_ldsp_of(h) as u32) % 8 == 0,
        h == h % 4 + 0x2000 * ((h / 0x2000) % 8) + 4 * ((h / 4) % 0x20) + spread_swsp(
            cimm_swsp_of(h) as u32,
        ),
        0 <= cimm_swsp_of(h) < 0x100 && (cimm_swsp_of(h) as u32) % 4 == 0,
        h == h % 4 + 0x2000 * ((h / 0x2000) % 8) + 4 * ((h / 4) % 0x20) + spread_sdsp(
            cimm_sdsp_of(h) as u32,
        ),
        0 <= cimm_sdsp_of(h) < 0x200 && (cimm_sdsp_of(h) as u32) % 8 == 0,
        h == h % 4 + 0x2000 * ((h / 0x2000) % 8) + 0x1000 * ((h / 0x1000) % 2) + 0x80 * ((h / 0x80)
            % 0x20) + 4 * ((h / 4) % 0x20),
        h == h % 4 + 0x2000 * ((h / 0x2000) % 8) + 0x1000 * ((h / 0x1000) % 2) + 0x400 * ((h
            / 0x400) % 4) + 0x80 * ((h / 0x80) % 8) + 0x20 * ((h / 0x20) % 4) + 4 * ((h / 4) % 8),
{
}

/// The words of the floating-point accesses.
proof fn lemma_fp_words(rd: u32, rs1: u32, uimm: u32)
    requires
        rd < 32,
        rs1 < 32,
        uimm < 0x200,
    ensures
        fld_word_of(rd as u8, rs1 as u8, uimm as i64) == fld(rd, rs1, uimm),
        fsd_word_of(rs1 as u8, rd as u8, uimm as i64) == fsd(rs1, rd, uimm),
{
    assert(uimm == 0x20 * (uimm / 0x20) + uimm % 0x20);
}

proof fn lemma_expands_quadrant0(c: Compressed, h: u32)
    requires
        c.valid(),
        h == c.halfword(),
        c is Addi4spn || c is Fld || c is Lw || c is Ld || c is Fsd || c is Sw || c is Sd,
    ensures
        h < 0x1_0000,
        decoded_compressed(h as u16) == c.expansion(),
{
    reveal(decoded_compressed);
    match c {
        Compressed::Addi4spn { rd, uimm } => {
            lemma_composed(h, 0, 0, 0, (rd - 8) as u32, 0, 0, 0, uimm);
        },
        Compressed::Fld { rd, rs1, uimm } => {
            lemma_composed(h, 0, 1, 0, (rd - 8) as u32, (rs1 - 8) as u32, 0, 0, uimm);
            lemma_fp_words(rd, rs1, uimm);
        },
        Compressed::Lw { rd, rs1, uimm } => {
            lemma_composed(h, 0, 2, 0, (rd - 8) as u32, (rs1 - 8) as u32, 0, 0, uimm);
        },
        Compressed::Ld { rd, rs1, uimm } => {
            lemma_composed(h, 0, 3, 0, (rd - 8) as u32, (rs1 - 8) as u32, 0, 0, uimm);
        },
        Compressed::Fsd { rs1, rs2, uimm } => {
            lemma_composed(h, 0, 5, 0, (rs2 - 8) as u32, (rs1 - 8) as u32, 0, 0, uimm);
            lemma_fp_words(rs2, rs1, uimm);
        },
        Compressed::Sw { rs1, rs2, uimm } => {
            lemma_composed(h, 0, 6, 0, (rs2 - 8) as u32, (rs1 - 8) as u32, 0, 0, uimm);
        },
        Compressed::Sd { rs1, rs2, uimm } => {
            lemma_composed(h, 0, 7, 0, (rs2 - 8) as u32, (rs1 - 8) as u32, 0, 0, uimm);
        },
        _ => {},
    }
}

proof fn lemma_expands_immediates(c: Compressed, h: u32)
    requires
        c.valid(),
        h == c.halfword(),
        c is Addi || c is Addiw || c is Li || c is Addi16sp || c is Lui,
    ensures
        h < 0x1_0000,
        decoded_compressed(h as u16) == c.expansion(),
{
    reveal(decoded_compressed);
    match c {
        Compressed::Addi { rd, imm } => {
            lemma_composed(h, 1, 0, 0, 0, 0, rd, 0, field_of(imm, 0x40));
        },
        Compressed::Addiw { rd, imm } => {
            lemma_composed(h, 1, 1, 0, 0, 0, rd, 0, field_of(imm, 0x40));
        },
        Compressed::Li { rd, imm } => {
            lemma_composed(h, 1, 2, 0, 0, 0, rd, 0, field_of(imm, 0x40));
        },
        Compressed::Addi16sp { imm } => {
            lemma_composed(h, 1, 3, 0, 0, 0, 2, 0, field_of(imm, 0x400));
        },
        Compressed::Lui { rd, imm } => {
            lemma_composed(h, 1, 3, 0, 0, 0, rd, 0, (field_of(imm, 0x4_0000) / 0x1000) as u32);
        },
        _ => {},
    }
}

proof fn lemma_expands_operations(c: Compressed, h: u32)
    requires
        c.valid(),
        h == c.halfword(),
        c is Srli || c is Srai || c is Andi || c is Sub || c is Xor || c is Or || c is And || c is Subw || c is Addw || c is J || c is Beqz || c is Bnez,
    ensures
        h < 0x1_0000,
        decoded_compressed(h as u16) == c.expansion(),
{
    reveal(decoded_compressed);
    match c {
        Compressed::Srli { rd, shamt } => {
            lemma_composed(h, 1, 4, 0, 0, (rd - 8) as u32, 0, 0, shamt);
        },
        Compressed::Srai { rd, shamt } => {
            lemma_composed(h, 1, 4, 1, 0, (rd - 8) as u32, 0, 0, shamt);
        },
        Compressed::Andi { rd, imm } => {
            lemma_composed(h, 1, 4, 2, 0, (rd - 8) as u32, 0, 0, field_of(imm, 0x40));
        },
        Compressed::Sub { rd, rs2 } => {
            lemma_composed(h, 1, 4, 0, (rs2 - 8) as u32, (rd - 8) as u32, 0, 0, 0);
        },
        Compressed::Xor { rd, rs2 } => {
            lemma_composed(h, 1, 4, 1, (rs2 - 8) as u32, (rd - 8) as u32, 0, 0, 0);
        },
        Compressed::Or { rd, rs2 } => {
            lemma_composed(h, 1, 4, 2, (rs2 - 8) as u32, (rd - 8) as u32, 0, 0, 0);
        },
        Compressed::And { rd, rs2 } => {
            lemma_composed(h, 1, 4, 3, (rs2 - 8) as u32, (rd - 8) as u32, 0, 0, 0);
        },
        Compressed::Subw { rd, rs2 } => {
            lemma_composed(h, 1, 4, 0, (rs2 - 8) as u32, (rd - 8) as u32, 0, 0, 1);
        },
        Compressed::Addw { rd, rs2 } => {
            lemma_composed(h, 1, 4, 1, (rs2 - 8) as u32, (rd - 8) as u32, 0, 0, 1);
        },
        Compressed::J { imm } => {
            lemma_composed(h, 1, 5, 0, 0, 0, 0, 0, field_of(imm, 0x1000));
        },
        Compressed::Beqz { rs1, imm } => {
            lemma_composed(h, 1, 6, 0, 0, (rs1 - 8) as u32, 0, 0, field_of(imm, 0x200));
        },
        Compressed::Bnez { rs1, imm } => {
            lemma_composed(h, 1, 7, 0, 0, (rs1 - 8) as u32, 0, 0, field_of(imm, 0x200));
        },
        _ => {},
    }
}

proof fn lemma_expands_quadrant2(c: Compressed, h: u32)
    requires
        c.valid(),
        h == c.halfword(),
        c is Slli || c is Fldsp || c is Lwsp || c is Ldsp || c is Jr || c is Mv || c is Ebreak || c is Jalr || c is Add || c is Fsdsp || c is Swsp || c is Sdsp,
    ensures
        h < 0x1_0000,
        decoded_compressed(h as u16) == c.expansion(),
{
    reveal(decoded_compressed);
    match c {
        Compressed::Slli { rd, shamt } => {
            lemma_composed(h, 2, 0, 0, 0, 0, rd, 0, shamt);
        },
        Compressed::Fldsp { rd, uimm } => {
            lemma_composed(h, 2, 1, 0, 0, 0, rd, 0, uimm);
            lemma_fp_words(rd, 2, uimm);
        },
        Compressed::Lwsp { rd, uimm } => {
            lemma_composed(h, 2, 2, 0, 0, 0, rd, 0, uimm);
        },
        Compressed::Ldsp { rd, uimm } => {
            lemma_composed(h, 2, 3, 0, 0, 0, rd, 0, uimm);
        },
        Compressed::Jr { rs1 } => {
            lemma_composed(h, 2, 4, 0, 0, 0, rs1, 0, 0);
        },
        Compressed::Mv { rd, rs2 } => {
            lemma_composed(h, 2, 4, 0, 0, 0, rd, rs2, 0);
        },
        Compressed::Ebreak => {
            lemma_composed(h, 2, 4, 0, 0, 0, 0, 0, 1);
        },
        Compressed::Jalr { rs1 } => {
            lemma_composed(h, 2, 4, 0, 0, 0, rs1, 0, 1);
        },
        Compressed::Add { rd, rs2 } => {
            lemma_composed(h, 2, 4, 0, 0, 0, rd, rs2, 1);
        },
        Compressed::Fsdsp { rs2, uimm } => {
            lemma_composed(h, 2, 5, 0, 0, 0, 0, rs2, uimm);
            lemma_fp_words(rs2, 2, uimm);
        },
        Compressed::Swsp { rs2, uimm } => {
            lemma_composed(h, 2, 6, 0, 0, 0, 0, rs2, uimm);
        },
        Compressed::Sdsp { rs2, uimm } => {
            lemma_composed(h, 2, 7, 0, 0, 0, 0, rs2, uimm);
        },
        _ => {},
    }
}

/// Every halfword expands to the instruction that it is the short form of.
pub proof fn halfwords_expand_as_they_are_encoded(c: Compressed)
    requires
        c.valid(),
    ensures
        0 <= c.halfword() < 0x1_0000,
        decoded_compressed(c.halfword() as u16) == c.expansion(),
{
    let h = c.halfword() as u32;
    match c {
        Compressed::Addi4spn { .. } => {
            lemma_expands_quadrant0(c, h);
        },
        Compressed::Fld { .. } => {
            lemma_expands_quadrant0(c, h);
        },
        Compressed::Lw { .. } => {
            lemma_expands_quadrant0(c, h);
        },
        Compressed::Ld { .. } => {
            lemma_expands_quadrant0(c, h);
        },
        Compressed::Fsd { .. } => {
            lemma_expands_quadrant0(c, h);
        },
        Compressed::Sw { .. } => {
            lemma_expands_quadrant0(c, h);
        },
        Compressed::Sd { .. } => {
            lemma_expands_quadrant0(c, h);
        },
        Compressed::Addi { .. } => {
            lemma_expands_immediates(c, h);
        },
        Compressed::Addiw { .. } => {
            lemma_expands_immediates(c, h);
        },
        Compressed::Li { .. } => {
            lemma_expands_immediates(c, h);
        },
        Compressed::Addi16sp { .. } => {
            lemma_expands_immediates(c, h);
        },
        Compressed::Lui { .. } => {
            lemma_expands_immediates(c, h);
        },
        Compressed::Srli { .. } => {
            lemma_expands_operations(c, h);
        },
        Compressed::Srai { .. } => {
            lemma_expands_operations(c, h);
        },
        Compressed::Andi { .. } => {
            lemma_expands_operations(c, h);
        },
        Compressed::Sub { .. } => {
            lemma_expands_operations(c, h);
        },
        Compressed::Xor { .. } => {
            lemma_expands_operations(c, h);
        },
        Compressed::Or { .. } => {
            lemma_expands_operations(c, h);
        },
        Compressed::And { .. } => {
            lemma_expands_operations(c, h);
        },
        Compressed::Subw { .. } => {
            lemma_expands_operations(c, h);
        },
        Compressed::Addw { .. } => {
            lemma_expands_operations(c, h);
        },
        Compressed::J { .. } => {
            lemma_expands_operations(c, h);
        },
        Compressed::Beqz { .. } => {
            lemma_expands_operations(c, h);
        },
        Compressed::Bnez { .. } => {
            lemma_expands_operations(c, h);
        },
        Compressed::Slli { .. } => {
            lemma_expands_quadrant2(c, h);
        },
        Compressed::Fldsp { .. } => {
            lemma_expands_quadrant2(c, h);
        },
        Compressed::Lwsp { .. } => {
            lemma_expands_quadrant2(c, h);
        },
        Compressed::Ldsp { .. } => {
            lemma_expands_quadrant2(c, h);
        },
        Compressed::Jr { .. } => {
            lemma_expands_quadrant2(c, h);
        },
        Compressed::Mv { .. } => {
            lemma_expands_quadrant2(c, h);
        },
        Compressed::Ebreak => {
            lemma_expands_quadrant2(c, h);
        },
        Compressed::Jalr { .. } => {
            lemma_expands_quadrant2(c, h);
        },
        Compressed::Add { .. } => {
            lemma_expands_quadrant2(c, h);
        },
        Compressed::Fsdsp { .. } => {
            lemma_expands_quadrant2(c, h);
        },
        Compressed::Swsp { .. } => {
            lemma_expands_quadrant2(c, h);
        },
        Compressed::Sdsp { .. } => {
            lemma_expands_quadrant2(c, h);
        },
    }
}

/// Whether the halfword is the encoding of the compressed instruction.
pub open spec fn stands_for(h: u16, c: Compressed) -> bool {
    c.valid() && c.halfword() == h
}

proof fn lemma_legal0(h: u16)
    requires
        h % 4 == 0,
        decoded_compressed(h) !is Illegal,
    ensures
        exists|c: Compressed| stands_for(h, c),
{
    reveal(decoded_compressed);
    let i = h as u32;
    lemma_decomposed(i);
    let (b, a) = ((8 + (i / 0x80) % 8) as u32, (8 + (i / 4) % 8) as u32);
    let f3 = (i / 0x2000) % 8;
    let (w, d) = (cimm_w_of(i) as u32, cimm_d_of(i) as u32);
    let c = if f3 == 0 {
        Compressed::Addi4spn { rd: a, uimm: cimm_addi4spn_of(i) as u32 }
    } else if f3 == 1 {
        Compressed::Fld { rd: a, rs1: b, uimm: d }
    } else if f3 == 2 {
        Compressed::Lw { rd: a, rs1: b, uimm: w }
    } else if f3 == 3 {
        Compressed::Ld { rd: a, rs1: b, uimm: d }
    } else if f3 == 5 {
        Compressed::Fsd { rs1: b, rs2: a, uimm: d }
    } else if f3 == 6 {
        Compressed::Sw { rs1: b, rs2: a, uimm: w }
    } else {
        Compressed::Sd { rs1: b, rs2: a, uimm: d }
    };
    assert(stands_for(h, c));
}

/// The immediate of c.lui and its field.
proof fn lemma_lui(i: u32)
    requires
        i < 0x1_0000,
    ensures
        (field_of(cimm_lui_of(i), 0x4_0000) / 0x1000) as u32 == cshamt_of(i) as u32,
        cimm_lui_of(i) % 0x1000 == 0,
        -0x2_0000 <= cimm_lui_of(i) < 0x2_0000,
{
    lemma_decomposed(i);
    let (l, m) = (cimm_lui_of(i) as int, cimm6_of(i) as int);
    let u = twos(m, 0x40);
    assert(twos(l, 0x4_0000) == 0x1000 * u);
}

/// A signed immediate and its field.
proof fn lemma_field(v: i64, u: u32)
    ensures
        -0x200 <= v < 0x200 && u == twos(v as int, 0x400) && u % 0x10 == 0 ==> field_of(v, 0x400)
            == u && v % 0x10 == 0,
        -0x800 <= v < 0x800 && u == twos(v as int, 0x1000) && u % 2 == 0 ==> field_of(v, 0x1000)
            == u && v % 2 == 0,
        -0x100 <= v < 0x100 && u == twos(v as int, 0x200) && u % 2 == 0 ==> field_of(v, 0x200)
            == u && v % 2 == 0,
{
}

/// The immediates of c.addi16sp, c.j and the branches, and their fields.
proof fn lemma_fields(i: u32)
    requires
        i < 0x1_0000,
    ensures
        ({
            let (v, j, t) = (cimm_addi16sp_of(i), cimm_j_of(i), cimm_b_of(i));
            &&& field_of(v, 0x400) == (v & 0x3ff) as u32 && v % 0x10 == 0 && -0x200 <= v < 0x200
            &&& field_of(j, 0x1000) == (j & 0xfff) as u32 && j % 2 == 0 && -0x800 <= j < 0x800
            &&& field_of(t, 0x200) == (t & 0x1ff) as u32 && t % 2 == 0 && -0x100 <= t < 0x100
        }),
{
    lemma_decomposed(i);
    lemma_field(cimm_addi16sp_of(i), (cimm_addi16sp_of(i) & 0x3ff) as u32);
    lemma_field(cimm_j_of(i), (cimm_j_of(i) & 0xfff) as u32);
    lemma_field(cimm_b_of(i), (cimm_b_of(i) & 0x1ff) as u32);
}

proof fn lemma_legal1_sp(h: u16)
    requires
        h % 4 == 1,
        decoded_compressed(h) !is Illegal,
        (h / 0x2000) % 8 == 3,
    ensures
        exists|c: Compressed| stands_for(h, c),
{
    reveal(decoded_compressed);
    let i = h as u32;
    lemma_decomposed(i);
    lemma_lui(i);
    let rd = (i / 0x80) % 0x20;
    let v = cimm_addi16sp_of(i);
    lemma_fields(i);
    let c = if rd == 2 {
        Compressed::Addi16sp { imm: v }
    } else {
        Compressed::Lui { rd, imm: cimm_lui_of(i) }
    };
    assert(stands_for(h, c));
}

proof fn lemma_legal1(h: u16)
    requires
        h % 4 == 1,
        decoded_compressed(h) !is Illegal,
        (h / 0x2000) % 8 <= 2,
    ensures
        exists|c: Compressed| stands_for(h, c),
{
    reveal(decoded_compressed);
    let i = h as u32;
    lemma_decomposed(i);
    let rd = (i / 0x80) % 0x20;
    let f3 = (i / 0x2000) % 8;
    let imm = cimm6_of(i);
    assert(field_of(imm, 0x40) == cshamt_of(i));
    let c = if f3 == 0 {
        Compressed::Addi { rd, imm }
    } else if f3 == 1 {
        Compressed::Addiw { rd, imm }
    } else {
        Compressed::Li { rd, imm }
    };
    assert(stands_for(h, c));
}

proof fn lemma_legal1_branches(h: u16)
    requires
        h % 4 == 1,
        (h / 0x2000) % 8 > 4,
    ensures
        exists|c: Compressed| stands_for(h, c),
{
    let i = h as u32;
    lemma_decomposed(i);
    let b = (8 + (i / 0x80) % 8) as u32;
    let f3 = (i / 0x2000) % 8;
    let (j, t) = (cimm_j_of(i), cimm_b_of(i));
    lemma_fields(i);
    let c = if f3 == 5 {
        Compressed::J { imm: j }
    } else if f3 == 6 {
        Compressed::Beqz { rs1: b, imm: t }
    } else {
        Compressed::Bnez { rs1: b, imm: t }
    };
    assert(stands_for(h, c));
}

proof fn lemma_legal1_operations(h: u16)
    requires
        h % 4 == 1,
        decoded_compressed(h) !is Illegal,
        (h / 0x2000) % 8 == 4,
    ensures
        exists|c: Compressed| stands_for(h, c),
{
    reveal(decoded_compressed);
    let i = h as u32;
    lemma_decomposed(i);
    let (b, a) = ((8 + (i / 0x80) % 8) as u32, (8 + (i / 4) % 8) as u32);
    let f3 = (i / 0x2000) % 8;
    let k = (i / 0x400) % 4;
    let (w, sel) = ((i / 0x1000) % 2, (i / 0x20) % 4);
    let imm = cimm6_of(i);
    assert(field_of(imm, 0x40) == cshamt_of(i));
    let c = if k == 0 {
        Compressed::Srli { rd: b, shamt: cshamt_of(i) as u32 }
    } else if k == 1 {
        Compressed::Srai { rd: b, shamt: cshamt_of(i) as u32 }
    } else if k == 2 {
        Compressed::Andi { rd: b, imm }
    } else if w == 0 && sel == 0 {
        Compressed::Sub { rd: b, rs2: a }
    } else if w == 0 && sel == 1 {
        Compressed::Xor { rd: b, rs2: a }
    } else if w == 0 && sel == 2 {
        Compressed::Or { rd: b, rs2: a }
    } else if w == 0 {
        Compressed::And { rd: b, rs2: a }
    } else if sel == 0 {
        Compressed::Subw { rd: b, rs2: a }
    } else {
        Compressed::Addw { rd: b, rs2: a }
    };
    assert(stands_for(h, c));
}

proof fn lemma_legal2(h: u16)
    requires
        h % 4 == 2,
        decoded_compressed(h) !is Illegal,
    ensures
        exists|c: Compressed| stands_for(h, c),
{
    reveal(decoded_compressed);
    let i = h as u32;
    lemma_decomposed(i);
    let (rd, rs2) = ((i / 0x80) % 0x20, (i / 4) % 0x20);
    let f3 = (i / 0x2000) % 8;
    let link = (i / 0x1000) % 2;
    let c = if f3 == 0 {
        Compressed::Slli { rd, shamt: cshamt_of(i) as u32 }
    } else if f3 == 1 {
        Compressed::Fldsp { rd, uimm: cimm_ldsp_of(i) as u32 }
    } else if f3 == 2 {
        Compressed::Lwsp { rd, uimm: cimm_lwsp_of(i) as u32 }
    } else if f3 == 3 {
        Compressed::Ldsp { rd, uimm: cimm_ldsp_of(i) as u32 }
    } else if f3 == 5 {
        Compressed::Fsdsp { rs2, uimm: cimm_sdsp_of(i) as u32 }
    } else if f3 == 6 {
        Compressed::Swsp { rs2, uimm: cimm_swsp_of(i) as u32 }
    } else if f3 == 7 {
        Compressed::Sdsp { rs2, uimm: cimm_sdsp_of(i) as u32 }
    } else if link == 0 && rs2 == 0 {
        Compressed::Jr { rs1: rd }
    } else if link == 0 {
        Compressed::Mv { rd, rs2 }
    } else if rs2 != 0 {
        Compressed::Add { rd, rs2 }
    } else if rd != 0 {
        Compressed::Jalr { rs1: rd }
    } else {
        Compressed::Ebreak
    };
    assert(stands_for(h, c));
}

/// What expands is encoded so: a halfword that is the short form of nothing
/// is illegal.
pub proof fn expanded_halfwords_are_encodings(h: u16)
    ensures
        decoded_compressed(h) !is Illegal ==> exists|c: Compressed| stands_for(h, c),
{
    if decoded_compressed(h) !is Illegal {
        if h % 4 == 0 {
            lemma_legal0(h);
        } else if h % 4 == 1 {
            if (h / 0x2000) % 8 <= 2 {
                lemma_legal1(h);
            } else if (h / 0x2000) % 8 == 3 {
                lemma_legal1_sp(h);
            } else if (h / 0x2000) % 8 == 4 {
                lemma_legal1_operations(h);
            } else {
                lemma_legal1_branches(h);
            }
        } else if h % 4 == 2 {
            lemma_legal2(h);
        } else {
            reveal(decoded_compressed);
        }
    }
}

} // verus!
