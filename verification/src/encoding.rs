//! The instruction encodings, in tables:
//! which words and halfwords stand for which instruction. Decoding is held to
//! these tables in both directions.

use vstd::prelude::*;

use crate::decode::{
    decoded, funct3_of, funct5_of, funct6_of, funct7_of, imm_b_of, imm_i_of, imm_j_of, imm_s_of,
    imm_u_of, opcode_of, rd_of, rs1_of, rs2_of, AluOp, AmoOp, BranchOp, CsrOp, Instr, LoadOp,
    StoreOp,
};

verus! {

// ---------------------------------------------------------------------------
// 32-bit words.
// ---------------------------------------------------------------------------

/// A word by its six fields, from the lowest up.
pub open spec fn word(opcode: int, rd: int, funct3: int, rs1: int, rs2: int, funct7: int) -> int {
    opcode + 0x80 * rd + 0x1000 * funct3 + 0x8000 * rs1 + 0x10_0000 * rs2 + 0x200_0000 * funct7
}

/// The two's complement of `v` in a field that holds `span` numbers.
pub open spec fn twos(v: int, span: int) -> int {
    if v < 0 {
        v + span
    } else {
        v
    }
}

/// Bit `k` of a number, given as the power of two that it stands for.
pub open spec fn digit(u: int, power: int) -> int {
    (u / power) % 2
}

/// A register number.
pub open spec fn reg(r: u8) -> bool {
    r < 32
}

/// A signed number of 12 bits.
pub open spec fn imm12(imm: i64) -> bool {
    -0x800 <= imm < 0x800
}

/// An I-type word: the immediate fills the two upper fields.
pub open spec fn i_word(opcode: int, rd: int, funct3: int, rs1: int, imm: int) -> int {
    let u = twos(imm, 0x1000);
    word(opcode, rd, funct3, rs1, u % 0x20, u / 0x20)
}

/// funct3 and funct7 of a register-register operation.
pub open spec fn alu_code(op: AluOp) -> (int, int) {
    match op {
        AluOp::Add => (0, 0),
        AluOp::Sub => (0, 0x20),
        AluOp::Sll => (1, 0),
        AluOp::Slt => (2, 0),
        AluOp::Sltu => (3, 0),
        AluOp::Xor => (4, 0),
        AluOp::Srl => (5, 0),
        AluOp::Sra => (5, 0x20),
        AluOp::Or => (6, 0),
        AluOp::And => (7, 0),
        AluOp::Mul => (0, 1),
        AluOp::Mulh => (1, 1),
        AluOp::Mulhsu => (2, 1),
        AluOp::Mulhu => (3, 1),
        AluOp::Div => (4, 1),
        AluOp::Divu => (5, 1),
        AluOp::Rem => (6, 1),
        AluOp::Remu => (7, 1),
    }
}

pub open spec fn branch_code(op: BranchOp) -> int {
    match op {
        BranchOp::Eq => 0,
        BranchOp::Ne => 1,
        BranchOp::Lt => 4,
        BranchOp::Ge => 5,
        BranchOp::Ltu => 6,
        BranchOp::Geu => 7,
    }
}

pub open spec fn load_code(op: LoadOp) -> int {
    match op {
        LoadOp::Lb => 0,
        LoadOp::Lh => 1,
        LoadOp::Lw => 2,
        LoadOp::Ld => 3,
        LoadOp::Lbu => 4,
        LoadOp::Lhu => 5,
        LoadOp::Lwu => 6,
    }
}

pub open spec fn store_code(op: StoreOp) -> int {
    match op {
        StoreOp::Sb => 0,
        StoreOp::Sh => 1,
        StoreOp::Sw => 2,
        StoreOp::Sd => 3,
    }
}

pub open spec fn csr_code(op: CsrOp, imm: bool) -> int {
    (match op {
        CsrOp::Rw => 1int,
        CsrOp::Rs => 2,
        CsrOp::Rc => 3,
    }) + if imm {
        4int
    } else {
        0
    }
}

/// The five bits that select an atomic operation.
pub open spec fn amo_code(op: AmoOp) -> int {
    match op {
        AmoOp::Add => 0x00,
        AmoOp::Swap => 0x01,
        AmoOp::Lr => 0x02,
        AmoOp::Sc => 0x03,
        AmoOp::Xor => 0x04,
        AmoOp::Or => 0x08,
        AmoOp::And => 0x0c,
        AmoOp::Min => 0x10,
        AmoOp::Max => 0x14,
        AmoOp::Minu => 0x18,
        AmoOp::Maxu => 0x1c,
    }
}

pub open spec fn one_if(b: bool) -> int {
    if b {
        1
    } else {
        0
    }
}

/// Whether the word is the encoding of the instruction. Fences ignore the
/// fields that do not select them, and `sfence.vma` takes any two registers.
pub open spec fn encodes(w: u32, instr: Instr) -> bool {
    match instr {
        Instr::Lui { rd, imm } => reg(rd) && -0x8000_0000 <= imm < 0x8000_0000 && imm % 0x1000 == 0
            && w == 0x37 + 0x80 * rd + twos(imm as int, 0x1_0000_0000),
        Instr::Auipc { rd, imm } => reg(rd) && -0x8000_0000 <= imm < 0x8000_0000 && imm % 0x1000
            == 0 && w == 0x17 + 0x80 * rd + twos(imm as int, 0x1_0000_0000),
        Instr::Jal { rd, imm } => {
            let u = twos(imm as int, 0x20_0000);
            reg(rd) && -0x10_0000 <= imm < 0x10_0000 && imm % 2 == 0 && w == 0x6f + 0x80 * rd
                + 0x1000 * ((u / 0x1000) % 0x100) + 0x10_0000 * digit(u, 0x800) + 0x20_0000 * ((u
                / 2) % 0x400) + 0x8000_0000 * digit(u, 0x10_0000)
        },
        Instr::Jalr { rd, rs1, imm } => reg(rd) && reg(rs1) && imm12(imm) && w == i_word(
            0x67,
            rd as int,
            0,
            rs1 as int,
            imm as int,
        ),
        Instr::Branch { op, rs1, rs2, imm } => {
            let u = twos(imm as int, 0x2000);
            reg(rs1) && reg(rs2) && -0x1000 <= imm < 0x1000 && imm % 2 == 0 && w == word(
                0x63,
                2 * ((u / 2) % 0x10) + digit(u, 0x800),
                branch_code(op),
                rs1 as int,
                rs2 as int,
                (u / 0x20) % 0x40 + 0x40 * digit(u, 0x1000),
            )
        },
        Instr::Load { op, rd, rs1, imm } => reg(rd) && reg(rs1) && imm12(imm) && w == i_word(
            0x03,
            rd as int,
            load_code(op),
            rs1 as int,
            imm as int,
        ),
        Instr::Store { op, rs1, rs2, imm } => {
            let u = twos(imm as int, 0x1000);
            reg(rs1) && reg(rs2) && imm12(imm) && w == word(
                0x23,
                u % 0x20,
                store_code(op),
                rs1 as int,
                rs2 as int,
                u / 0x20,
            )
        },
        Instr::OpImm { op, rd, rs1, imm } => {
            let (f3, f7) = alu_code(op);
            reg(rd) && reg(rs1) && match op {
                AluOp::Sll | AluOp::Srl | AluOp::Sra => 0 <= imm < 64 && w == word(
                    0x13,
                    rd as int,
                    f3,
                    rs1 as int,
                    imm as int % 0x20,
                    f7 + imm as int / 0x20,
                ),
                AluOp::Add | AluOp::Slt | AluOp::Sltu | AluOp::Xor | AluOp::Or | AluOp::And => imm12(
                    imm,
                ) && w == i_word(0x13, rd as int, f3, rs1 as int, imm as int),
                _ => false,
            }
        },
        Instr::OpImm32 { op, rd, rs1, imm } => {
            let (f3, f7) = alu_code(op);
            reg(rd) && reg(rs1) && match op {
                AluOp::Sll | AluOp::Srl | AluOp::Sra => 0 <= imm < 32 && w == word(
                    0x1b,
                    rd as int,
                    f3,
                    rs1 as int,
                    imm as int,
                    f7,
                ),
                AluOp::Add => imm12(imm) && w == i_word(0x1b, rd as int, f3, rs1 as int, imm as int),
                _ => false,
            }
        },
        Instr::Op { op, rd, rs1, rs2 } => reg(rd) && reg(rs1) && reg(rs2) && w == word(
            0x33,
            rd as int,
            alu_code(op).0,
            rs1 as int,
            rs2 as int,
            alu_code(op).1,
        ),
        Instr::Op32 { op, rd, rs1, rs2 } => reg(rd) && reg(rs1) && reg(rs2) && match op {
            AluOp::Slt | AluOp::Sltu | AluOp::Xor | AluOp::Or | AluOp::And => false,
            AluOp::Mulh | AluOp::Mulhsu | AluOp::Mulhu => false,
            _ => w == word(
                0x3b,
                rd as int,
                alu_code(op).0,
                rs1 as int,
                rs2 as int,
                alu_code(op).1,
            ),
        },
        Instr::Fence => w % 0x80 == 0x0f && (w / 0x1000) % 8 == 0,
        Instr::FenceI => w % 0x80 == 0x0f && (w / 0x1000) % 8 == 1,
        Instr::Ecall => w == 0x0000_0073,
        Instr::Ebreak => w == 0x0010_0073,
        Instr::Csr { op, rd, rs1, csr, imm } => reg(rd) && reg(rs1) && csr < 0x1000 && w == word(
            0x73,
            rd as int,
            csr_code(op, imm),
            rs1 as int,
            csr as int % 0x20,
            csr as int / 0x20,
        ),
        Instr::Mret => w == 0x3020_0073,
        Instr::Sret => w == 0x1020_0073,
        Instr::Wfi => w == 0x1050_0073,
        Instr::SfenceVma => w / 0x200_0000 == 9 && w % 0x8000 == 0x73,
        Instr::Amo { op, rd, rs1, rs2, width, aq, rl } => {
            &&& reg(rd) && reg(rs1) && reg(rs2) && (width == 4 || width == 8)
            &&& op == AmoOp::Lr ==> rs2 == 0
            &&& w == word(
                0x2f,
                rd as int,
                if width == 4 {
                    2
                } else {
                    3
                },
                rs1 as int,
                rs2 as int,
                4 * amo_code(op) + 2 * one_if(aq) + one_if(rl),
            )
        },
        Instr::Fp { raw } => w == raw && match raw % 0x80 {
            0x07 | 0x27 | 0x43 | 0x47 | 0x4b | 0x4f | 0x53 => true,
            _ => false,
        },
        Instr::Illegal(_) => false,
    }
}

/// The fields of a word that was put together from them.
proof fn lemma_composed(op: int, rd: int, f3: int, rs1: int, rs2: int, f7: int, w: u32)
    requires
        0 <= op < 0x80,
        0 <= rd < 0x20,
        0 <= f3 < 8,
        0 <= rs1 < 0x20,
        0 <= rs2 < 0x20,
        0 <= f7 < 0x80,
        w == word(op, rd, f3, rs1, rs2, f7),
    ensures
        opcode_of(w) == op,
        rd_of(w) == rd,
        funct3_of(w) == f3,
        rs1_of(w) == rs1,
        rs2_of(w) == rs2,
        funct7_of(w) == f7,
        funct6_of(w) == f7 / 2,
        funct5_of(w) == f7 / 4,
        w / 0x10_0000 == rs2 + 0x20 * f7,
        (w / 0x400_0000) % 2 == (f7 / 2) % 2,
        (w / 0x200_0000) % 2 == f7 % 2,
{
    let w1 = rd + 0x20 * f3 + 0x100 * rs1 + 0x2000 * rs2 + 0x4_0000 * f7;
    assert(w as int / 0x80 == w1);
    let w2 = f3 + 8 * rs1 + 0x100 * rs2 + 0x2000 * f7;
    assert(w as int / 0x1000 == w2);
    let w3 = rs1 + 0x20 * rs2 + 0x400 * f7;
    assert(w as int / 0x8000 == w3);
    let w4 = rs2 + 0x20 * f7;
    assert(w as int / 0x10_0000 == w4);
    assert(w as int / 0x200_0000 == f7);
}

/// A word is put together from its fields.
proof fn lemma_decomposed(w: u32)
    ensures
        w == word(
            opcode_of(w) as int,
            rd_of(w) as int,
            funct3_of(w) as int,
            rs1_of(w) as int,
            rs2_of(w) as int,
            funct7_of(w) as int,
        ),
        funct6_of(w) == funct7_of(w) / 2,
        funct5_of(w) == funct7_of(w) / 4,
        w / 0x10_0000 == rs2_of(w) + 0x20 * funct7_of(w),
        funct7_of(w) < 0x80,
{
    let w1 = w as int / 0x80;
    let w2 = w1 / 0x20;
    let w3 = w2 / 8;
    let w4 = w3 / 0x20;
    let w5 = w4 / 0x20;
    assert(w as int / 0x1000 == w2);
    assert(w as int / 0x8000 == w3);
    assert(w as int / 0x10_0000 == w4);
    assert(w as int / 0x200_0000 == w5);
}

/// The immediate of a word whose upper fields hold it.
proof fn lemma_imm_i(w: u32, imm: int)
    requires
        -0x800 <= imm < 0x800,
        w as int / 0x10_0000 == twos(imm, 0x1000),
    ensures
        imm_i_of(w) == imm,
{
}

/// Quotient and remainder of a number that is given by them.
proof fn lemma_parts(x: int, m: int, lo: int, hi: int)
    requires
        x == lo + m * hi,
        0 <= lo < m,
    ensures
        x / m == hi,
        x % m == lo,
{
    assert(hi * m == m * hi) by (nonlinear_arith);
    vstd::arithmetic::div_mod::lemma_fundamental_div_mod_converse(x, m, hi, lo);
}

/// The parts of a jump's immediate.
proof fn lemma_j_parts(u: int, a: int, b: int, c: int, d: int)
    requires
        0 <= a < 0x100,
        0 <= b < 2,
        0 <= c < 0x400,
        0 <= d < 2,
        u == 2 * c + 0x800 * b + 0x1000 * a + 0x10_0000 * d,
    ensures
        (u / 0x1000) % 0x100 == a,
        digit(u, 0x800) == b,
        (u / 2) % 0x400 == c,
        digit(u, 0x10_0000) == d,
{
    lemma_parts(u, 0x1000, 2 * c + 0x800 * b, a + 0x100 * d);
    lemma_parts(a + 0x100 * d, 0x100, a, d);
    lemma_parts(u, 0x800, 2 * c, b + 2 * a + 0x200 * d);
    lemma_parts(b + 2 * a + 0x200 * d, 2, b, a + 0x100 * d);
    lemma_parts(u, 2, 0, c + 0x400 * b + 0x800 * a + 0x8_0000 * d);
    lemma_parts(c + 0x400 * b + 0x800 * a + 0x8_0000 * d, 0x400, c, b + 2 * a + 0x200 * d);
    lemma_parts(u, 0x10_0000, 2 * c + 0x800 * b + 0x1000 * a, d);
}

proof fn lemma_j_split(u: int)
    requires
        0 <= u < 0x20_0000,
        u % 2 == 0,
    ensures
        u == 2 * ((u / 2) % 0x400) + 0x800 * digit(u, 0x800) + 0x1000 * ((u / 0x1000) % 0x100)
            + 0x10_0000 * digit(u, 0x10_0000),
{
    let v = u / 2;
    let n = v / 0x400;
    let k = n / 2;
    let d = k / 0x100;
    lemma_j_parts(u, k % 0x100, n % 2, v % 0x400, d);
}

/// The parts of a jump's word.
proof fn lemma_j_word(w: u32, rd: int, a: int, b: int, c: int, d: int)
    requires
        0 <= rd < 0x20,
        0 <= a < 0x100,
        0 <= b < 2,
        0 <= c < 0x400,
        0 <= d < 2,
        w == 0x6f + 0x80 * rd + 0x1000 * a + 0x10_0000 * b + 0x20_0000 * c + 0x8000_0000 * d,
    ensures
        opcode_of(w) == 0x6f,
        rd_of(w) == rd,
        imm_j_of(w) == 2 * c + 0x800 * b + 0x1000 * a - 0x10_0000 * d,
{
    let n1 = a + 0x100 * b + 0x200 * c + 0x8_0000 * d;
    lemma_parts(w as int, 0x80, 0x6f, rd + 0x20 * n1);
    lemma_parts(rd + 0x20 * n1, 0x20, rd, n1);
    lemma_parts(w as int, 0x1000, 0x6f + 0x80 * rd, n1);
    lemma_parts(n1, 0x100, a, b + 2 * c + 0x800 * d);
    lemma_parts(w as int, 0x10_0000, 0x6f + 0x80 * rd + 0x1000 * a, b + 2 * c + 0x800 * d);
    lemma_parts(b + 2 * c + 0x800 * d, 2, b, c + 0x400 * d);
    lemma_parts(
        w as int,
        0x20_0000,
        0x6f + 0x80 * rd + 0x1000 * a + 0x10_0000 * b,
        c + 0x400 * d,
    );
    lemma_parts(c + 0x400 * d, 0x400, c, d);
}

proof fn lemma_imm_j(w: u32, rd: int, imm: int)
    requires
        0 <= rd < 0x20,
        -0x10_0000 <= imm < 0x10_0000,
        imm % 2 == 0,
        ({
            let u = twos(imm, 0x20_0000);
            w == 0x6f + 0x80 * rd + 0x1000 * ((u / 0x1000) % 0x100) + 0x10_0000 * digit(u, 0x800)
                + 0x20_0000 * ((u / 2) % 0x400) + 0x8000_0000 * digit(u, 0x10_0000)
        }),
    ensures
        opcode_of(w) == 0x6f,
        rd_of(w) == rd,
        imm_j_of(w) == imm,
{
    let u = twos(imm, 0x20_0000);
    lemma_j_split(u);
    lemma_j_word(
        w,
        rd,
        (u / 0x1000) % 0x100,
        digit(u, 0x800),
        (u / 2) % 0x400,
        digit(u, 0x10_0000),
    );
}

/// The parts of a branch's immediate.
proof fn lemma_b_parts(u: int, a: int, b: int, c: int, d: int)
    requires
        0 <= a < 0x10,
        0 <= b < 2,
        0 <= c < 0x40,
        0 <= d < 2,
        u == 2 * a + 0x20 * c + 0x800 * b + 0x1000 * d,
    ensures
        (u / 2) % 0x10 == a,
        digit(u, 0x800) == b,
        (u / 0x20) % 0x40 == c,
        digit(u, 0x1000) == d,
{
    lemma_parts(u, 2, 0, a + 0x10 * c + 0x400 * b + 0x800 * d);
    lemma_parts(a + 0x10 * c + 0x400 * b + 0x800 * d, 0x10, a, c + 0x40 * b + 0x80 * d);
    lemma_parts(u, 0x20, 2 * a, c + 0x40 * b + 0x80 * d);
    lemma_parts(c + 0x40 * b + 0x80 * d, 0x40, c, b + 2 * d);
    lemma_parts(u, 0x800, 2 * a + 0x20 * c, b + 2 * d);
    lemma_parts(b + 2 * d, 2, b, d);
    lemma_parts(u, 0x1000, 2 * a + 0x20 * c + 0x800 * b, d);
}

proof fn lemma_b_split(u: int)
    requires
        0 <= u < 0x2000,
        u % 2 == 0,
    ensures
        u == 2 * ((u / 2) % 0x10) + 0x20 * ((u / 0x20) % 0x40) + 0x800 * digit(u, 0x800) + 0x1000
            * digit(u, 0x1000),
{
    let v = u / 2;
    let n = v / 0x10;
    let k = n / 0x40;
    lemma_b_parts(u, v % 0x10, k % 2, n % 0x40, k / 2);
}

/// The immediate of a branch, by the parts of its word.
proof fn lemma_b_word(w: u32, f3: int, rs1: int, rs2: int, a: int, b: int, c: int, d: int)
    requires
        0 <= f3 < 8,
        0 <= rs1 < 0x20,
        0 <= rs2 < 0x20,
        0 <= a < 0x10,
        0 <= b < 2,
        0 <= c < 0x40,
        0 <= d < 2,
        w == word(0x63, 2 * a + b, f3, rs1, rs2, c + 0x40 * d),
    ensures
        imm_b_of(w) == 2 * a + 0x20 * c + 0x800 * b - 0x1000 * d,
{
    let up = f3 + 8 * rs1 + 0x100 * rs2 + 0x2000 * (c + 0x40 * d);
    lemma_parts(w as int, 0x80, 0x63, 2 * a + b + 0x20 * up);
    lemma_parts(2 * a + b + 0x20 * up, 2, b, a + 0x10 * up);
    lemma_parts(w as int, 0x100, 0x63 + 0x80 * b, a + 0x10 * up);
    lemma_parts(a + 0x10 * up, 0x10, a, up);
    let low = 0x63 + 0x80 * (2 * a + b) + 0x1000 * f3 + 0x8000 * rs1 + 0x10_0000 * rs2;
    lemma_parts(w as int, 0x200_0000, low, c + 0x40 * d);
    lemma_parts(c + 0x40 * d, 0x40, c, d);
}

proof fn lemma_imm_b(w: u32, f3: int, rs1: int, rs2: int, imm: int)
    requires
        0 <= f3 < 8,
        0 <= rs1 < 0x20,
        0 <= rs2 < 0x20,
        -0x1000 <= imm < 0x1000,
        imm % 2 == 0,
        ({
            let u = twos(imm, 0x2000);
            w == word(
                0x63,
                2 * ((u / 2) % 0x10) + digit(u, 0x800),
                f3,
                rs1,
                rs2,
                (u / 0x20) % 0x40 + 0x40 * digit(u, 0x1000),
            )
        }),
    ensures
        opcode_of(w) == 0x63,
        funct3_of(w) == f3,
        rs1_of(w) == rs1,
        rs2_of(w) == rs2,
        imm_b_of(w) == imm,
{
    let u = twos(imm, 0x2000);
    lemma_b_split(u);
    let (a, b, c, d) = (
        (u / 2) % 0x10,
        digit(u, 0x800),
        (u / 0x20) % 0x40,
        digit(u, 0x1000),
    );
    lemma_b_word(w, f3, rs1, rs2, a, b, c, d);
    lemma_composed(0x63, 2 * a + b, f3, rs1, rs2, c + 0x40 * d, w);
}

proof fn lemma_imm_u(w: u32, op: int, rd: int, imm: int)
    requires
        0 <= op < 0x80,
        0 <= rd < 0x20,
        -0x8000_0000 <= imm < 0x8000_0000,
        imm % 0x1000 == 0,
        w == op + 0x80 * rd + twos(imm, 0x1_0000_0000),
    ensures
        opcode_of(w) == op,
        rd_of(w) == rd,
        imm_u_of(w) == imm,
{
    let u = twos(imm, 0x1_0000_0000);
    let n = u / 0x1000;
    assert(u == 0x1000 * n);
    assert(w as int / 0x80 == rd + 0x20 * n);
    assert(w as int / 0x1000 == n);
}

/// The instructions with their own layouts.
proof fn lemma_decodes_upper(w: u32, instr: Instr)
    requires
        encodes(w, instr),
        instr is Lui || instr is Auipc || instr is Jal || instr is Branch,
    ensures
        decoded(w) == instr,
{
    reveal(decoded);
    match instr {
        Instr::Lui { rd, imm } => {
            lemma_imm_u(w, 0x37, rd as int, imm as int);
        },
        Instr::Auipc { rd, imm } => {
            lemma_imm_u(w, 0x17, rd as int, imm as int);
        },
        Instr::Jal { rd, imm } => {
            lemma_imm_j(w, rd as int, imm as int);
        },
        Instr::Branch { op, rs1, rs2, imm } => {
            lemma_imm_b(w, branch_code(op), rs1 as int, rs2 as int, imm as int);
        },
        _ => {},
    }
}

/// The instructions with a 12-bit immediate.
proof fn lemma_decodes_immediate(w: u32, instr: Instr)
    requires
        encodes(w, instr),
        instr is Jalr || instr is Load || instr is Store,
    ensures
        decoded(w) == instr,
{
    reveal(decoded);
    match instr {
        Instr::Jalr { rd, rs1, imm } => {
            let u = twos(imm as int, 0x1000);
            lemma_composed(0x67, rd as int, 0, rs1 as int, u % 0x20, u / 0x20, w);
            lemma_imm_i(w, imm as int);
        },
        Instr::Load { op, rd, rs1, imm } => {
            let u = twos(imm as int, 0x1000);
            lemma_composed(0x03, rd as int, load_code(op), rs1 as int, u % 0x20, u / 0x20, w);
            lemma_imm_i(w, imm as int);
        },
        Instr::Store { op, rs1, rs2, imm } => {
            let u = twos(imm as int, 0x1000);
            lemma_composed(0x23, u % 0x20, store_code(op), rs1 as int, rs2 as int, u / 0x20, w);
        },
        _ => {},
    }
}

proof fn lemma_decodes_op_imm(w: u32, instr: Instr)
    requires
        encodes(w, instr),
        instr is OpImm || instr is OpImm32,
    ensures
        decoded(w) == instr,
{
    reveal(decoded);
    match instr {
        Instr::OpImm { op, rd, rs1, imm } => {
            let (f3, f7) = alu_code(op);
            match op {
                AluOp::Sll | AluOp::Srl | AluOp::Sra => {
                    let (lo, hi) = (imm as int % 0x20, imm as int / 0x20);
                    lemma_composed(0x13, rd as int, f3, rs1 as int, lo, f7 + hi, w);
                    lemma_parts(w as int / 0x10_0000, 0x40, imm as int, f7 / 2);
                },
                _ => {
                    let u = twos(imm as int, 0x1000);
                    lemma_composed(0x13, rd as int, f3, rs1 as int, u % 0x20, u / 0x20, w);
                    lemma_imm_i(w, imm as int);
                },
            }
        },
        Instr::OpImm32 { op, rd, rs1, imm } => {
            let (f3, f7) = alu_code(op);
            match op {
                AluOp::Add => {
                    let u = twos(imm as int, 0x1000);
                    lemma_composed(0x1b, rd as int, f3, rs1 as int, u % 0x20, u / 0x20, w);
                    lemma_imm_i(w, imm as int);
                },
                _ => {
                    lemma_composed(0x1b, rd as int, f3, rs1 as int, imm as int, f7, w);
                },
            }
        },
        _ => {},
    }
}

proof fn lemma_decodes_op(w: u32, instr: Instr)
    requires
        encodes(w, instr),
        instr is Op || instr is Op32,
    ensures
        decoded(w) == instr,
{
    reveal(decoded);
    match instr {
        Instr::Op { op, rd, rs1, rs2 } => {
            let (f3, f7) = alu_code(op);
            lemma_composed(0x33, rd as int, f3, rs1 as int, rs2 as int, f7, w);
        },
        Instr::Op32 { op, rd, rs1, rs2 } => {
            let (f3, f7) = alu_code(op);
            lemma_composed(0x3b, rd as int, f3, rs1 as int, rs2 as int, f7, w);
        },
        _ => {},
    }
}

proof fn lemma_decodes_system(w: u32, instr: Instr)
    requires
        encodes(w, instr),
        instr is Csr || instr is SfenceVma || instr is Ecall || instr is Ebreak || instr is Mret
            || instr is Sret || instr is Wfi,
    ensures
        decoded(w) == instr,
{
    reveal(decoded);
    match instr {
        Instr::Csr { op, rd, rs1, csr, imm } => {
            let (lo, hi) = (csr as int % 0x20, csr as int / 0x20);
            lemma_composed(0x73, rd as int, csr_code(op, imm), rs1 as int, lo, hi, w);
        },
        Instr::SfenceVma => {
            lemma_decomposed(w);
        },
        _ => {},
    }
}

proof fn lemma_decodes_amo(w: u32, instr: Instr)
    requires
        encodes(w, instr),
        instr is Amo,
    ensures
        decoded(w) == instr,
{
    reveal(decoded);
    if let Instr::Amo { op, rd, rs1, rs2, width, aq, rl } = instr {
        let f7 = 4 * amo_code(op) + 2 * one_if(aq) + one_if(rl);
        let f3 = if width == 4 {
            2int
        } else {
            3
        };
        lemma_composed(0x2f, rd as int, f3, rs1 as int, rs2 as int, f7, w);
        lemma_parts(f7, 4, 2 * one_if(aq) + one_if(rl), amo_code(op));
        lemma_parts(f7, 2, one_if(rl), 2 * amo_code(op) + one_if(aq));
        lemma_parts(2 * amo_code(op) + one_if(aq), 2, one_if(aq), amo_code(op));
    }
}

/// Every word decodes to the instruction that it is the encoding of.
pub proof fn words_decode_as_they_are_encoded(w: u32, instr: Instr)
    requires
        encodes(w, instr),
    ensures
        decoded(w) == instr,
{
    match instr {
        Instr::Lui { .. } | Instr::Auipc { .. } | Instr::Jal { .. } => {
            lemma_decodes_upper(w, instr);
        },
        Instr::Branch { .. } => {
            lemma_decodes_upper(w, instr);
        },
        Instr::Jalr { .. } | Instr::Load { .. } | Instr::Store { .. } => {
            lemma_decodes_immediate(w, instr);
        },
        Instr::OpImm { .. } | Instr::OpImm32 { .. } => {
            lemma_decodes_op_imm(w, instr);
        },
        Instr::Op { .. } | Instr::Op32 { .. } => {
            lemma_decodes_op(w, instr);
        },
        Instr::Amo { .. } => {
            lemma_decodes_amo(w, instr);
        },
        Instr::Fence | Instr::FenceI | Instr::Fp { .. } => {
            reveal(decoded);
        },
        Instr::Illegal(_) => {},
        _ => {
            lemma_decodes_system(w, instr);
        },
    }
}

proof fn lemma_j_encoded(w: u32)
    requires
        opcode_of(w) == 0x6f,
    ensures
        encodes(w, Instr::Jal { rd: rd_of(w), imm: imm_j_of(w) }),
{
    let w1 = w as int / 0x80;
    let n = w1 / 0x20;
    let n1 = n / 0x100;
    let n2 = n1 / 2;
    let (rd, a, b, c, d) = (w1 % 0x20, n % 0x100, n1 % 2, n2 % 0x400, n2 / 0x400);
    lemma_j_word(w, rd, a, b, c, d);
    let u = 2 * c + 0x800 * b + 0x1000 * a + 0x10_0000 * d;
    lemma_j_parts(u, a, b, c, d);
    assert(twos(imm_j_of(w) as int, 0x20_0000) == u);
}

proof fn lemma_b_encoded(w: u32, op: BranchOp)
    requires
        opcode_of(w) == 0x63,
        funct3_of(w) == branch_code(op),
    ensures
        encodes(
            w,
            Instr::Branch { op, rs1: rs1_of(w), rs2: rs2_of(w), imm: imm_b_of(w) },
        ),
{
    lemma_decomposed(w);
    let f7 = funct7_of(w) as int;
    let rd = rd_of(w) as int;
    let (a, b, c, d) = (rd / 2, rd % 2, f7 % 0x40, f7 / 0x40);
    lemma_b_word(w, branch_code(op), rs1_of(w) as int, rs2_of(w) as int, a, b, c, d);
    let u = 2 * a + 0x20 * c + 0x800 * b + 0x1000 * d;
    lemma_b_parts(u, a, b, c, d);
    assert(twos(imm_b_of(w) as int, 0x2000) == u);
}

proof fn lemma_u_encoded(w: u32)
    ensures
        ({
            let imm = imm_u_of(w);
            &&& -0x8000_0000 <= imm < 0x8000_0000
            &&& imm % 0x1000 == 0
            &&& w == opcode_of(w) + 0x80 * rd_of(w) + twos(imm as int, 0x1_0000_0000)
        }),
{
    let w1 = w as int / 0x80;
    let n = w1 / 0x20;
    assert(w as int / 0x1000 == n);
    assert(w == opcode_of(w) + 0x80 * rd_of(w) + 0x1000 * n);
    assert(twos(imm_u_of(w) as int, 0x1_0000_0000) == 0x1000 * n);
}

proof fn lemma_encoded_upper(w: u32)
    requires
        opcode_of(w) == 0x37 || opcode_of(w) == 0x17 || opcode_of(w) == 0x6f,
    ensures
        decoded(w) !is Illegal ==> encodes(w, decoded(w)),
{
    reveal(decoded);
    lemma_u_encoded(w);
    if opcode_of(w) == 0x6f {
        lemma_j_encoded(w);
    }
}

proof fn lemma_encoded_branch(w: u32)
    requires
        opcode_of(w) == 0x63,
    ensures
        decoded(w) !is Illegal ==> encodes(w, decoded(w)),
{
    reveal(decoded);
    if let Instr::Branch { op, .. } = decoded(w) {
        lemma_b_encoded(w, op);
    }
}

proof fn lemma_encoded_immediate(w: u32)
    requires
        opcode_of(w) == 0x67 || opcode_of(w) == 0x03 || opcode_of(w) == 0x23,
    ensures
        decoded(w) !is Illegal ==> encodes(w, decoded(w)),
{
    reveal(decoded);
    lemma_decomposed(w);
    let (lo, hi) = (rs2_of(w) as int, funct7_of(w) as int);
    lemma_parts(lo + 0x20 * hi, 0x20, lo, hi);
    lemma_parts(rd_of(w) + 0x20 * hi, 0x20, rd_of(w) as int, hi);
    assert(twos(imm_i_of(w) as int, 0x1000) == lo + 0x20 * hi);
    assert(twos(imm_s_of(w) as int, 0x1000) == rd_of(w) + 0x20 * hi);
}

proof fn lemma_encoded_op_imm(w: u32)
    requires
        opcode_of(w) == 0x13 || opcode_of(w) == 0x1b,
    ensures
        decoded(w) !is Illegal ==> encodes(w, decoded(w)),
{
    reveal(decoded);
    lemma_decomposed(w);
    let (lo, hi) = (rs2_of(w) as int, funct7_of(w) as int);
    lemma_parts(lo + 0x20 * hi, 0x20, lo, hi);
    assert(twos(imm_i_of(w) as int, 0x1000) == lo + 0x20 * hi);
    let sh = lo + 0x20 * (hi % 2);
    lemma_parts(lo + 0x20 * hi, 0x40, sh, hi / 2);
    lemma_parts(sh, 0x20, lo, hi % 2);
}

proof fn lemma_encoded_rest(w: u32)
    requires
        opcode_of(w) == 0x33 || opcode_of(w) == 0x3b || opcode_of(w) == 0x0f || opcode_of(w)
            == 0x73,
    ensures
        decoded(w) !is Illegal ==> encodes(w, decoded(w)),
{
    reveal(decoded);
    lemma_decomposed(w);
    let (lo, hi) = (rs2_of(w) as int, funct7_of(w) as int);
    lemma_parts(lo + 0x20 * hi, 0x20, lo, hi);
}

proof fn lemma_encoded_amo(w: u32)
    requires
        opcode_of(w) == 0x2f,
    ensures
        decoded(w) !is Illegal ==> encodes(w, decoded(w)),
{
    reveal(decoded);
    lemma_decomposed(w);
    let f7 = funct7_of(w) as int;
    assert(w as int / 0x400_0000 == f7 / 2);
    assert(w as int / 0x200_0000 == f7);
    assert(f7 == 4 * (f7 / 4) + 2 * ((f7 / 2) % 2) + f7 % 2);
}

/// What decodes is encoded so: a word that is no instruction's encoding is
/// illegal.
pub proof fn decoded_words_are_encodings(w: u32)
    ensures
        decoded(w) !is Illegal ==> encodes(w, decoded(w)),
{
    let op = opcode_of(w);
    if op == 0x37 || op == 0x17 || op == 0x6f {
        lemma_encoded_upper(w);
    } else if op == 0x63 {
        lemma_encoded_branch(w);
    } else if op == 0x67 || op == 0x03 || op == 0x23 {
        lemma_encoded_immediate(w);
    } else if op == 0x13 || op == 0x1b {
        lemma_encoded_op_imm(w);
    } else if op == 0x33 || op == 0x3b || op == 0x0f || op == 0x73 {
        lemma_encoded_rest(w);
    } else if op == 0x2f {
        lemma_encoded_amo(w);
    } else {
        reveal(decoded);
    }
}

} // verus!
