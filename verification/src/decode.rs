//! Instruction decoding: RV64IMAFD words and the RV64 compressed subset.

use vstd::prelude::*;

verus! {

#[derive(Debug, Clone, Copy, PartialEq, Eq, Structural)]
pub enum BranchOp {
    Eq,
    Ne,
    Lt,
    Ge,
    Ltu,
    Geu,
}

#[derive(Debug, Clone, Copy, PartialEq, Eq, Structural)]
pub enum LoadOp {
    Lb,
    Lh,
    Lw,
    Ld,
    Lbu,
    Lhu,
    Lwu,
}

impl LoadOp {
    /// Access width in bytes.
    pub open spec fn size_of(self) -> int {
        match self {
            LoadOp::Lb | LoadOp::Lbu => 1,
            LoadOp::Lh | LoadOp::Lhu => 2,
            LoadOp::Lw | LoadOp::Lwu => 4,
            LoadOp::Ld => 8,
        }
    }

    /// Whether the loaded value is sign-extended from less than 64 bits.
    pub open spec fn is_signed(self) -> bool {
        self is Lb || self is Lh || self is Lw
    }

    pub fn size(self) -> (r: usize)
        ensures
            r == self.size_of(),
    {
        match self {
            LoadOp::Lb | LoadOp::Lbu => 1,
            LoadOp::Lh | LoadOp::Lhu => 2,
            LoadOp::Lw | LoadOp::Lwu => 4,
            LoadOp::Ld => 8,
        }
    }

    pub fn signed(self) -> (r: bool)
        ensures
            r == self.is_signed(),
    {
        matches!(self, LoadOp::Lb | LoadOp::Lh | LoadOp::Lw)
    }
}

#[derive(Debug, Clone, Copy, PartialEq, Eq, Structural)]
pub enum StoreOp {
    Sb,
    Sh,
    Sw,
    Sd,
}

impl StoreOp {
    /// Access width in bytes.
    pub open spec fn size_of(self) -> int {
        match self {
            StoreOp::Sb => 1,
            StoreOp::Sh => 2,
            StoreOp::Sw => 4,
            StoreOp::Sd => 8,
        }
    }

    pub fn size(self) -> (r: usize)
        ensures
            r == self.size_of(),
    {
        match self {
            StoreOp::Sb => 1,
            StoreOp::Sh => 2,
            StoreOp::Sw => 4,
            StoreOp::Sd => 8,
        }
    }
}

#[derive(Debug, Clone, Copy, PartialEq, Eq, Structural)]
pub enum AluOp {
    Add,
    Sub,
    Sll,
    Slt,
    Sltu,
    Xor,
    Srl,
    Sra,
    Or,
    And,
    // M extension.
    Mul,
    Mulh,
    Mulhsu,
    Mulhu,
    Div,
    Divu,
    Rem,
    Remu,
}

#[derive(Debug, Clone, Copy, PartialEq, Eq, Structural)]
pub enum CsrOp {
    Rw,
    Rs,
    Rc,
}

/// A extension: LR/SC plus the fetch-op AMOs.
#[derive(Debug, Clone, Copy, PartialEq, Eq, Structural)]
pub enum AmoOp {
    Lr,
    Sc,
    Swap,
    Add,
    Xor,
    And,
    Or,
    Min,
    Max,
    Minu,
    Maxu,
}

#[derive(Debug, Clone, Copy, PartialEq, Eq, Structural)]
#[allow(inconsistent_fields)]
pub enum Instr {
    Lui { rd: u8, imm: i64 },
    Auipc { rd: u8, imm: i64 },
    Jal { rd: u8, imm: i64 },
    Jalr { rd: u8, rs1: u8, imm: i64 },
    Branch { op: BranchOp, rs1: u8, rs2: u8, imm: i64 },
    Load { op: LoadOp, rd: u8, rs1: u8, imm: i64 },
    Store { op: StoreOp, rs1: u8, rs2: u8, imm: i64 },
    OpImm { op: AluOp, rd: u8, rs1: u8, imm: i64 },
    OpImm32 { op: AluOp, rd: u8, rs1: u8, imm: i64 },
    Op { op: AluOp, rd: u8, rs1: u8, rs2: u8 },
    Op32 { op: AluOp, rd: u8, rs1: u8, rs2: u8 },
    Fence,
    FenceI,
    Ecall,
    Ebreak,
    /// `imm` selects the zimm (immediate) form; `rs1` then holds zimm.
    Csr { op: CsrOp, rd: u8, rs1: u8, csr: u16, imm: bool },
    Mret,
    Sret,
    Wfi,
    SfenceVma,
    /// A extension. `width` is 4 (`.w`) or 8 (`.d`). `aq`/`rl` are decoded
    /// but unused: the interpreter is sequentially consistent regardless.
    Amo { op: AmoOp, rd: u8, rs1: u8, rs2: u8, width: u8, aq: bool, rl: bool },
    /// F/D extensions: the raw word is carried to the FP execute path.
    Fp { raw: u32 },
    Illegal(u32),
}

// ---------------------------------------------------------------------------
// Fields of a 32-bit instruction word, as quotients and remainders.
// ---------------------------------------------------------------------------

/// Bits 6:0.
pub open spec fn opcode_of(i: u32) -> u32 {
    i % 0x80
}

/// Bits 11:7.
pub open spec fn rd_of(i: u32) -> u8 {
    ((i / 0x80) % 0x20) as u8
}

/// Bits 14:12.
pub open spec fn funct3_of(i: u32) -> u32 {
    (i / 0x1000) % 8
}

/// Bits 19:15.
pub open spec fn rs1_of(i: u32) -> u8 {
    ((i / 0x8000) % 0x20) as u8
}

/// Bits 24:20.
pub open spec fn rs2_of(i: u32) -> u8 {
    ((i / 0x10_0000) % 0x20) as u8
}

/// Bits 31:25.
pub open spec fn funct7_of(i: u32) -> u32 {
    i / 0x200_0000
}

/// Bits 31:26: the operation selector of the 64-bit immediate shifts.
pub open spec fn funct6_of(i: u32) -> u32 {
    i / 0x400_0000
}

/// Bits 31:27: the operation selector of the A extension.
pub open spec fn funct5_of(i: u32) -> u32 {
    i / 0x800_0000
}

/// Bits 31:20 as a signed number.
pub open spec fn imm_i_of(i: u32) -> i64 {
    let v = i / 0x10_0000;
    (if v >= 0x800 { v - 0x1000 } else { v as int }) as i64
}

/// imm[11:5] at 31:25, imm[4:0] at 11:7, signed.
pub open spec fn imm_s_of(i: u32) -> i64 {
    let v = (i / 0x200_0000) * 0x20 + (i / 0x80) % 0x20;
    (if v >= 0x800 { v - 0x1000 } else { v }) as i64
}

/// imm[12|10:5] at 31:25, imm[4:1|11] at 11:7, signed.
pub open spec fn imm_b_of(i: u32) -> i64 {
    let v = ((i / 0x80) % 2) * 0x800 + ((i / 0x200_0000) % 0x40) * 0x20 + ((i / 0x100) % 0x10) * 2;
    (if i >= 0x8000_0000 { v - 0x1000 } else { v }) as i64
}

/// imm[31:12] at 31:12, signed.
pub open spec fn imm_u_of(i: u32) -> i64 {
    let v = (i / 0x1000) * 0x1000;
    (if i >= 0x8000_0000 { v - 0x1_0000_0000 } else { v }) as i64
}

/// imm[20|10:1|11|19:12] at 31:12, signed.
pub open spec fn imm_j_of(i: u32) -> i64 {
    let v = ((i / 0x1000) % 0x100) * 0x1000 + ((i / 0x10_0000) % 2) * 0x800 + ((i / 0x20_0000)
        % 0x400) * 2;
    (if i >= 0x8000_0000 { v - 0x10_0000 } else { v }) as i64
}

/// Every field extraction written with shifts and masks is the quotient and
/// remainder that names it.
proof fn lemma_word_fields(i: u32)
    by (bit_vector)
    ensures
        i & 0x7f == i % 0x80,
        (i >> 7) & 0x1f == (i / 0x80) % 0x20,
        (i >> 12) & 7 == (i / 0x1000) % 8,
        (i >> 15) & 0x1f == (i / 0x8000) % 0x20,
        (i >> 20) & 0x1f == (i / 0x10_0000) % 0x20,
        (i >> 20) & 0x3f == (i / 0x10_0000) % 0x40,
        i >> 20 == i / 0x10_0000,
        i >> 25 == i / 0x200_0000,
        i >> 26 == i / 0x400_0000,
        i >> 27 == i / 0x800_0000,
        (i & (1u32 << 26u32) != 0) == ((i / 0x400_0000) % 2 == 1),
        (i & (1u32 << 25u32) != 0) == ((i / 0x200_0000) % 2 == 1),
        ((i as i32) >> 20) as i64 == imm_i_of(i),
        ((((i as i32) >> 25) as i64) << 5) | ((i >> 7) & 0x1f) as i64 == imm_s_of(i),
        ((((i as i32) >> 31) as i64) << 12) | (((i >> 25) & 0x3f) as i64) << 5 | (((i >> 8)
            & 0xf) as i64) << 1 | (((i >> 7) & 1) as i64) << 11 == imm_b_of(i),
        (i & 0xffff_f000) as i32 as i64 == imm_u_of(i),
        ((((i as i32) >> 31) as i64) << 20) | (((i >> 21) & 0x3ff) as i64) << 1 | (((i >> 20)
            & 1) as i64) << 11 | (i & 0xf_f000) as i64 == imm_j_of(i),
{
}

#[inline]
pub(crate) fn rd(i: u32) -> (r: u8)
    ensures
        r == rd_of(i),
{
    proof {
        lemma_word_fields(i);
    }
    ((i >> 7) & 0x1f) as u8
}

#[inline]
pub(crate) fn rs1(i: u32) -> (r: u8)
    ensures
        r == rs1_of(i),
{
    proof {
        lemma_word_fields(i);
    }
    ((i >> 15) & 0x1f) as u8
}

#[inline]
pub(crate) fn rs2(i: u32) -> (r: u8)
    ensures
        r == rs2_of(i),
{
    proof {
        lemma_word_fields(i);
    }
    ((i >> 20) & 0x1f) as u8
}

#[inline]
pub(crate) fn funct3(i: u32) -> (r: u32)
    ensures
        r == funct3_of(i),
{
    proof {
        lemma_word_fields(i);
    }
    (i >> 12) & 7
}

#[inline]
pub(crate) fn opcode(i: u32) -> (r: u32)
    ensures
        r == opcode_of(i),
{
    proof {
        lemma_word_fields(i);
    }
    i & 0x7f
}

#[inline]
pub(crate) fn funct7(i: u32) -> (r: u32)
    ensures
        r == funct7_of(i),
{
    proof {
        lemma_word_fields(i);
    }
    i >> 25
}

#[inline]
fn funct6(i: u32) -> (r: u32)
    ensures
        r == funct6_of(i),
{
    proof {
        lemma_word_fields(i);
    }
    i >> 26
}

#[inline]
pub(crate) fn funct5(i: u32) -> (r: u32)
    ensures
        r == funct5_of(i),
{
    proof {
        lemma_word_fields(i);
    }
    i >> 27
}

#[inline]
pub(crate) fn imm_i(i: u32) -> (r: i64)
    ensures
        r == imm_i_of(i),
{
    proof {
        lemma_word_fields(i);
    }
    ((i as i32) >> 20) as i64
}

#[inline]
pub(crate) fn imm_s(i: u32) -> (r: i64)
    ensures
        r == imm_s_of(i),
{
    proof {
        lemma_word_fields(i);
    }
    ((((i as i32) >> 25) as i64) << 5) | ((i >> 7) & 0x1f) as i64
}

#[inline]
fn imm_b(i: u32) -> (r: i64)
    ensures
        r == imm_b_of(i),
{
    proof {
        lemma_word_fields(i);
    }
    ((((i as i32) >> 31) as i64) << 12) | (((i >> 25) & 0x3f) as i64) << 5 | (((i >> 8)
        & 0xf) as i64) << 1 | (((i >> 7) & 1) as i64) << 11
}

#[inline]
fn imm_u(i: u32) -> (r: i64)
    ensures
        r == imm_u_of(i),
{
    proof {
        lemma_word_fields(i);
    }
    (i & 0xffff_f000) as i32 as i64
}

#[inline]
fn imm_j(i: u32) -> (r: i64)
    ensures
        r == imm_j_of(i),
{
    proof {
        lemma_word_fields(i);
    }
    ((((i as i32) >> 31) as i64) << 20) | (((i >> 21) & 0x3ff) as i64) << 1 | (((i >> 20)
        & 1) as i64) << 11 | (i & 0xf_f000) as i64
}


// ---------------------------------------------------------------------------
// 32-bit instructions.
// ---------------------------------------------------------------------------

pub open spec fn branch_op_of(f3: u32) -> Option<BranchOp> {
    match f3 {
        0 => Some(BranchOp::Eq),
        1 => Some(BranchOp::Ne),
        4 => Some(BranchOp::Lt),
        5 => Some(BranchOp::Ge),
        6 => Some(BranchOp::Ltu),
        7 => Some(BranchOp::Geu),
        _ => None,
    }
}

pub open spec fn load_op_of(f3: u32) -> Option<LoadOp> {
    match f3 {
        0 => Some(LoadOp::Lb),
        1 => Some(LoadOp::Lh),
        2 => Some(LoadOp::Lw),
        3 => Some(LoadOp::Ld),
        4 => Some(LoadOp::Lbu),
        5 => Some(LoadOp::Lhu),
        6 => Some(LoadOp::Lwu),
        _ => None,
    }
}

pub open spec fn store_op_of(f3: u32) -> Option<StoreOp> {
    match f3 {
        0 => Some(StoreOp::Sb),
        1 => Some(StoreOp::Sh),
        2 => Some(StoreOp::Sw),
        3 => Some(StoreOp::Sd),
        _ => None,
    }
}

/// Register-immediate operation of OP-IMM. The RV64 shifts take a 6-bit
/// shift amount, so bits 31:26 select among them.
pub open spec fn op_imm_of(i: u32) -> Option<AluOp> {
    match funct3_of(i) {
        0 => Some(AluOp::Add),
        1 => if funct6_of(i) == 0 { Some(AluOp::Sll) } else { None },
        2 => Some(AluOp::Slt),
        3 => Some(AluOp::Sltu),
        4 => Some(AluOp::Xor),
        5 => if funct6_of(i) == 0 {
            Some(AluOp::Srl)
        } else if funct6_of(i) == 0x10 {
            Some(AluOp::Sra)
        } else {
            None
        },
        6 => Some(AluOp::Or),
        7 => Some(AluOp::And),
        _ => None,
    }
}

/// Register-immediate operation of OP-IMM-32 (5-bit shift amounts).
pub open spec fn op_imm32_of(i: u32) -> Option<AluOp> {
    match funct3_of(i) {
        0 => Some(AluOp::Add),
        1 => if funct7_of(i) == 0 { Some(AluOp::Sll) } else { None },
        5 => if funct7_of(i) == 0 {
            Some(AluOp::Srl)
        } else if funct7_of(i) == 0x20 {
            Some(AluOp::Sra)
        } else {
            None
        },
        _ => None,
    }
}

pub open spec fn is_shift(op: AluOp) -> bool {
    op is Sll || op is Srl || op is Sra
}

/// Register-register operation of OP.
pub open spec fn op_of(f7: u32, f3: u32) -> Option<AluOp> {
    if f7 == 0 {
        match f3 {
            0 => Some(AluOp::Add),
            1 => Some(AluOp::Sll),
            2 => Some(AluOp::Slt),
            3 => Some(AluOp::Sltu),
            4 => Some(AluOp::Xor),
            5 => Some(AluOp::Srl),
            6 => Some(AluOp::Or),
            7 => Some(AluOp::And),
            _ => None,
        }
    } else if f7 == 1 {
        match f3 {
            0 => Some(AluOp::Mul),
            1 => Some(AluOp::Mulh),
            2 => Some(AluOp::Mulhsu),
            3 => Some(AluOp::Mulhu),
            4 => Some(AluOp::Div),
            5 => Some(AluOp::Divu),
            6 => Some(AluOp::Rem),
            7 => Some(AluOp::Remu),
            _ => None,
        }
    } else if f7 == 0x20 {
        match f3 {
            0 => Some(AluOp::Sub),
            5 => Some(AluOp::Sra),
            _ => None,
        }
    } else {
        None
    }
}

/// The operations that have a 32-bit (W) form.
pub open spec fn has_word_form(op: AluOp) -> bool {
    match op {
        AluOp::Add | AluOp::Sub | AluOp::Sll | AluOp::Srl | AluOp::Sra => true,
        AluOp::Mul | AluOp::Div | AluOp::Divu | AluOp::Rem | AluOp::Remu => true,
        _ => false,
    }
}

/// Register-register operation of OP-32: the OP operation, where it has a W
/// form.
pub open spec fn op32_of(f7: u32, f3: u32) -> Option<AluOp> {
    match op_of(f7, f3) {
        Some(op) => if has_word_form(op) { Some(op) } else { None },
        None => None,
    }
}

/// SYSTEM with funct3 == 0: the privileged instructions.
pub open spec fn system_of(i: u32) -> Instr {
    let f7 = funct7_of(i);
    let unused = rs1_of(i) == 0 && rd_of(i) == 0;
    if f7 == 0 && rs2_of(i) == 0 && unused {
        Instr::Ecall
    } else if f7 == 0 && rs2_of(i) == 1 && unused {
        Instr::Ebreak
    } else if f7 == 0x08 && rs2_of(i) == 2 && unused {
        Instr::Sret
    } else if f7 == 0x18 && rs2_of(i) == 2 && unused {
        Instr::Mret
    } else if f7 == 0x08 && rs2_of(i) == 5 && unused {
        Instr::Wfi
    } else if f7 == 0x09 && rd_of(i) == 0 {
        Instr::SfenceVma
    } else {
        Instr::Illegal(i)
    }
}

pub open spec fn csr_op_of(f3: u32) -> CsrOp {
    if f3 % 4 == 1 {
        CsrOp::Rw
    } else if f3 % 4 == 2 {
        CsrOp::Rs
    } else {
        CsrOp::Rc
    }
}

/// A-extension operation; LR exists only with rs2 == 0.
pub open spec fn amo_op_of(i: u32) -> Option<AmoOp> {
    match funct5_of(i) {
        0x00 => Some(AmoOp::Add),
        0x01 => Some(AmoOp::Swap),
        0x02 => if rs2_of(i) == 0 { Some(AmoOp::Lr) } else { None },
        0x03 => Some(AmoOp::Sc),
        0x04 => Some(AmoOp::Xor),
        0x08 => Some(AmoOp::Or),
        0x0c => Some(AmoOp::And),
        0x10 => Some(AmoOp::Min),
        0x14 => Some(AmoOp::Max),
        0x18 => Some(AmoOp::Minu),
        0x1c => Some(AmoOp::Maxu),
        _ => None,
    }
}

/// The opcodes of the F and D extensions: loads, stores, the four fused
/// multiply-adds and OP-FP.
pub open spec fn is_fp_opcode(op: u32) -> bool {
    op == 0x07 || op == 0x27 || op == 0x43 || op == 0x47 || op == 0x4b || op == 0x4f || op == 0x53
}

/// The instruction that the word `i` encodes.
#[verifier::opaque]
pub open spec fn decoded(i: u32) -> Instr {
    let op = opcode_of(i);
    let f3 = funct3_of(i);
    if op == 0x37 {
        Instr::Lui { rd: rd_of(i), imm: imm_u_of(i) }
    } else if op == 0x17 {
        Instr::Auipc { rd: rd_of(i), imm: imm_u_of(i) }
    } else if op == 0x6f {
        Instr::Jal { rd: rd_of(i), imm: imm_j_of(i) }
    } else if op == 0x67 && f3 == 0 {
        Instr::Jalr { rd: rd_of(i), rs1: rs1_of(i), imm: imm_i_of(i) }
    } else if op == 0x63 {
        match branch_op_of(f3) {
            Some(op) => Instr::Branch { op, rs1: rs1_of(i), rs2: rs2_of(i), imm: imm_b_of(i) },
            None => Instr::Illegal(i),
        }
    } else if op == 0x03 {
        match load_op_of(f3) {
            Some(op) => Instr::Load { op, rd: rd_of(i), rs1: rs1_of(i), imm: imm_i_of(i) },
            None => Instr::Illegal(i),
        }
    } else if op == 0x23 {
        match store_op_of(f3) {
            Some(op) => Instr::Store { op, rs1: rs1_of(i), rs2: rs2_of(i), imm: imm_s_of(i) },
            None => Instr::Illegal(i),
        }
    } else if op == 0x13 {
        match op_imm_of(i) {
            Some(op) => Instr::OpImm {
                op,
                rd: rd_of(i),
                rs1: rs1_of(i),
                imm: if is_shift(op) { ((i / 0x10_0000) % 0x40) as i64 } else { imm_i_of(i) },
            },
            None => Instr::Illegal(i),
        }
    } else if op == 0x1b {
        match op_imm32_of(i) {
            Some(op) => Instr::OpImm32 {
                op,
                rd: rd_of(i),
                rs1: rs1_of(i),
                imm: if is_shift(op) { ((i / 0x10_0000) % 0x20) as i64 } else { imm_i_of(i) },
            },
            None => Instr::Illegal(i),
        }
    } else if op == 0x33 {
        match op_of(funct7_of(i), f3) {
            Some(op) => Instr::Op { op, rd: rd_of(i), rs1: rs1_of(i), rs2: rs2_of(i) },
            None => Instr::Illegal(i),
        }
    } else if op == 0x3b {
        match op32_of(funct7_of(i), f3) {
            Some(op) => Instr::Op32 { op, rd: rd_of(i), rs1: rs1_of(i), rs2: rs2_of(i) },
            None => Instr::Illegal(i),
        }
    } else if op == 0x0f && f3 == 0 {
        Instr::Fence
    } else if op == 0x0f && f3 == 1 {
        Instr::FenceI
    } else if op == 0x73 && f3 == 0 {
        system_of(i)
    } else if op == 0x73 && f3 != 4 {
        Instr::Csr {
            op: csr_op_of(f3),
            rd: rd_of(i),
            rs1: rs1_of(i),
            csr: (i / 0x10_0000) as u16,
            imm: f3 >= 5,
        }
    } else if op == 0x2f && (f3 == 2 || f3 == 3) {
        match amo_op_of(i) {
            Some(op) => Instr::Amo {
                op,
                rd: rd_of(i),
                rs1: rs1_of(i),
                rs2: rs2_of(i),
                width: if f3 == 2 { 4 } else { 8 },
                aq: (i / 0x400_0000) % 2 == 1,
                rl: (i / 0x200_0000) % 2 == 1,
            },
            None => Instr::Illegal(i),
        }
    } else if is_fp_opcode(op) {
        Instr::Fp { raw: i }
    } else {
        Instr::Illegal(i)
    }
}

#[inline]
fn branch_op(f3: u32) -> (r: Option<BranchOp>)
    ensures
        r == branch_op_of(f3),
{
    match f3 {
        0 => Some(BranchOp::Eq),
        1 => Some(BranchOp::Ne),
        4 => Some(BranchOp::Lt),
        5 => Some(BranchOp::Ge),
        6 => Some(BranchOp::Ltu),
        7 => Some(BranchOp::Geu),
        _ => None,
    }
}

#[inline]
fn load_op(f3: u32) -> (r: Option<LoadOp>)
    ensures
        r == load_op_of(f3),
{
    match f3 {
        0 => Some(LoadOp::Lb),
        1 => Some(LoadOp::Lh),
        2 => Some(LoadOp::Lw),
        3 => Some(LoadOp::Ld),
        4 => Some(LoadOp::Lbu),
        5 => Some(LoadOp::Lhu),
        6 => Some(LoadOp::Lwu),
        _ => None,
    }
}

#[inline]
fn store_op(f3: u32) -> (r: Option<StoreOp>)
    ensures
        r == store_op_of(f3),
{
    match f3 {
        0 => Some(StoreOp::Sb),
        1 => Some(StoreOp::Sh),
        2 => Some(StoreOp::Sw),
        3 => Some(StoreOp::Sd),
        _ => None,
    }
}

#[inline]
fn op_imm(i: u32) -> (r: Option<AluOp>)
    ensures
        r == op_imm_of(i),
{
    match funct3(i) {
        0 => Some(AluOp::Add),
        1 if funct6(i) == 0 => Some(AluOp::Sll),
        2 => Some(AluOp::Slt),
        3 => Some(AluOp::Sltu),
        4 => Some(AluOp::Xor),
        5 if funct6(i) == 0 => Some(AluOp::Srl),
        5 if funct6(i) == 0x10 => Some(AluOp::Sra),
        6 => Some(AluOp::Or),
        7 => Some(AluOp::And),
        _ => None,
    }
}

#[inline]
fn op_imm32(i: u32) -> (r: Option<AluOp>)
    ensures
        r == op_imm32_of(i),
{
    match funct3(i) {
        0 => Some(AluOp::Add),
        1 if funct7(i) == 0 => Some(AluOp::Sll),
        5 if funct7(i) == 0 => Some(AluOp::Srl),
        5 if funct7(i) == 0x20 => Some(AluOp::Sra),
        _ => None,
    }
}

#[inline]
fn op_reg(f7: u32, f3: u32) -> (r: Option<AluOp>)
    ensures
        r == op_of(f7, f3),
{
    match (f7, f3) {
        (0x00, 0) => Some(AluOp::Add),
        (0x00, 1) => Some(AluOp::Sll),
        (0x00, 2) => Some(AluOp::Slt),
        (0x00, 3) => Some(AluOp::Sltu),
        (0x00, 4) => Some(AluOp::Xor),
        (0x00, 5) => Some(AluOp::Srl),
        (0x00, 6) => Some(AluOp::Or),
        (0x00, 7) => Some(AluOp::And),
        (0x20, 0) => Some(AluOp::Sub),
        (0x20, 5) => Some(AluOp::Sra),
        (0x01, 0) => Some(AluOp::Mul),
        (0x01, 1) => Some(AluOp::Mulh),
        (0x01, 2) => Some(AluOp::Mulhsu),
        (0x01, 3) => Some(AluOp::Mulhu),
        (0x01, 4) => Some(AluOp::Div),
        (0x01, 5) => Some(AluOp::Divu),
        (0x01, 6) => Some(AluOp::Rem),
        (0x01, 7) => Some(AluOp::Remu),
        _ => None,
    }
}

#[inline]
fn op_reg32(f7: u32, f3: u32) -> (r: Option<AluOp>)
    ensures
        r == op32_of(f7, f3),
{
    match (f7, f3) {
        (0x00, 0) => Some(AluOp::Add),
        (0x00, 1) => Some(AluOp::Sll),
        (0x00, 5) => Some(AluOp::Srl),
        (0x20, 0) => Some(AluOp::Sub),
        (0x20, 5) => Some(AluOp::Sra),
        (0x01, 0) => Some(AluOp::Mul),
        (0x01, 4) => Some(AluOp::Div),
        (0x01, 5) => Some(AluOp::Divu),
        (0x01, 6) => Some(AluOp::Rem),
        (0x01, 7) => Some(AluOp::Remu),
        _ => None,
    }
}

#[inline]
fn amo_op(i: u32) -> (r: Option<AmoOp>)
    ensures
        r == amo_op_of(i),
{
    match funct5(i) {
        0x00 => Some(AmoOp::Add),
        0x01 => Some(AmoOp::Swap),
        0x02 if rs2(i) == 0 => Some(AmoOp::Lr),
        0x03 => Some(AmoOp::Sc),
        0x04 => Some(AmoOp::Xor),
        0x08 => Some(AmoOp::Or),
        0x0c => Some(AmoOp::And),
        0x10 => Some(AmoOp::Min),
        0x14 => Some(AmoOp::Max),
        0x18 => Some(AmoOp::Minu),
        0x1c => Some(AmoOp::Maxu),
        _ => None,
    }
}

/// SYSTEM: the privileged instructions (funct3 == 0) and the CSR accesses.
fn decode_system(i: u32) -> (r: Instr)
    requires
        opcode_of(i) == 0x73,
    ensures
        r == decoded(i),
{
    proof {
        reveal(decoded);
        lemma_word_fields(i);
    }
    let f3: u32 = funct3(i);
    match f3 {
        0 => match (funct7(i), rs2(i), rs1(i), rd(i)) {
            (0x00, 0, 0, 0) => Instr::Ecall,
            (0x00, 1, 0, 0) => Instr::Ebreak,
            (0x08, 2, 0, 0) => Instr::Sret,
            (0x18, 2, 0, 0) => Instr::Mret,
            (0x08, 5, 0, 0) => Instr::Wfi,
            (0x09, _, _, 0) => Instr::SfenceVma,
            _ => Instr::Illegal(i),
        },
        1..=3 | 5..=7 => {
            let cop = match f3 % 4 {
                1 => CsrOp::Rw,
                2 => CsrOp::Rs,
                _ => CsrOp::Rc,
            };
            Instr::Csr { op: cop, rd: rd(i), rs1: rs1(i), csr: (i >> 20) as u16, imm: f3 >= 5 }
        },
        _ => Instr::Illegal(i),
    }
}

/// AMO: the A extension.
fn decode_amo(i: u32) -> (r: Instr)
    requires
        opcode_of(i) == 0x2f,
    ensures
        r == decoded(i),
{
    proof {
        reveal(decoded);
        lemma_word_fields(i);
    }
    let width: u8 = match funct3(i) {
        2 => 4,
        3 => 8,
        _ => return Instr::Illegal(i),
    };
    match amo_op(i) {
        Some(op) => Instr::Amo {
            op,
            rd: rd(i),
            rs1: rs1(i),
            rs2: rs2(i),
            width,
            aq: i & (1u32 << 26u32) != 0,
            rl: i & (1u32 << 25u32) != 0,
        },
        None => Instr::Illegal(i),
    }
}

/// OP-IMM and OP-IMM-32.
fn decode_op_imm(i: u32) -> (r: Instr)
    requires
        opcode_of(i) == 0x13 || opcode_of(i) == 0x1b,
    ensures
        r == decoded(i),
{
    proof {
        reveal(decoded);
        lemma_word_fields(i);
    }
    if opcode(i) == 0x13 {
        match op_imm(i) {
            Some(op) => {
                let imm: i64 = match op {
                    AluOp::Sll | AluOp::Srl | AluOp::Sra => ((i >> 20) & 0x3f) as i64,
                    _ => imm_i(i),
                };
                Instr::OpImm { op, rd: rd(i), rs1: rs1(i), imm }
            },
            None => Instr::Illegal(i),
        }
    } else {
        match op_imm32(i) {
            Some(op) => {
                let imm: i64 = match op {
                    AluOp::Sll | AluOp::Srl | AluOp::Sra => ((i >> 20) & 0x1f) as i64,
                    _ => imm_i(i),
                };
                Instr::OpImm32 { op, rd: rd(i), rs1: rs1(i), imm }
            },
            None => Instr::Illegal(i),
        }
    }
}

/// Decode a 32-bit instruction.
pub fn decode(i: u32) -> (r: Instr)
    ensures
        r == decoded(i),
{
    proof {
        reveal(decoded);
    }
    match opcode(i) {
        0x37 => Instr::Lui { rd: rd(i), imm: imm_u(i) },
        0x17 => Instr::Auipc { rd: rd(i), imm: imm_u(i) },
        0x6f => Instr::Jal { rd: rd(i), imm: imm_j(i) },
        0x67 if funct3(i) == 0 => Instr::Jalr { rd: rd(i), rs1: rs1(i), imm: imm_i(i) },
        0x63 => match branch_op(funct3(i)) {
            Some(op) => Instr::Branch { op, rs1: rs1(i), rs2: rs2(i), imm: imm_b(i) },
            None => Instr::Illegal(i),
        },
        0x03 => match load_op(funct3(i)) {
            Some(op) => Instr::Load { op, rd: rd(i), rs1: rs1(i), imm: imm_i(i) },
            None => Instr::Illegal(i),
        },
        0x23 => match store_op(funct3(i)) {
            Some(op) => Instr::Store { op, rs1: rs1(i), rs2: rs2(i), imm: imm_s(i) },
            None => Instr::Illegal(i),
        },
        0x13 | 0x1b => decode_op_imm(i),
        0x33 => match op_reg(funct7(i), funct3(i)) {
            Some(op) => Instr::Op { op, rd: rd(i), rs1: rs1(i), rs2: rs2(i) },
            None => Instr::Illegal(i),
        },
        0x3b => match op_reg32(funct7(i), funct3(i)) {
            Some(op) => Instr::Op32 { op, rd: rd(i), rs1: rs1(i), rs2: rs2(i) },
            None => Instr::Illegal(i),
        },
        0x0f => match funct3(i) {
            0 => Instr::Fence,
            1 => Instr::FenceI,
            _ => Instr::Illegal(i),
        },
        0x73 => decode_system(i),
        0x2f => decode_amo(i),
        0x07 | 0x27 | 0x43 | 0x47 | 0x4b | 0x4f | 0x53 => Instr::Fp { raw: i },
        _ => Instr::Illegal(i),
    }
}

// ---------------------------------------------------------------------------
// Compressed instructions.
// ---------------------------------------------------------------------------

/// The three-bit register field at 9:7, which names x8..x15.
pub open spec fn creg97_of(i: u32) -> u8 {
    (8 + (i / 0x80) % 8) as u8
}

/// The three-bit register field at 4:2, which names x8..x15.
pub open spec fn creg42_of(i: u32) -> u8 {
    (8 + (i / 4) % 8) as u8
}

/// The full register field at 6:2.
pub open spec fn crs2_of(i: u32) -> u8 {
    ((i / 4) % 0x20) as u8
}

/// c.lw/c.sw offset: uimm[5:3] at 12:10, uimm[2] at 6, uimm[6] at 5.
pub open spec fn cimm_w_of(i: u32) -> i64 {
    (((i / 0x20) % 2) * 0x40 + ((i / 0x400) % 8) * 8 + ((i / 0x40) % 2) * 4) as i64
}

/// c.ld/c.sd/c.fld/c.fsd offset: uimm[5:3] at 12:10, uimm[7:6] at 6:5.
pub open spec fn cimm_d_of(i: u32) -> i64 {
    (((i / 0x20) % 4) * 0x40 + ((i / 0x400) % 8) * 8) as i64
}

/// Sign-extended 6-bit immediate: imm[5] at 12, imm[4:0] at 6:2.
pub open spec fn cimm6_of(i: u32) -> i64 {
    (if (i / 0x1000) % 2 == 1 { (i / 4) % 0x20 - 0x20 } else { ((i / 4) % 0x20) as int }) as i64
}

/// RV64 shift amount: shamt[5] at 12, shamt[4:0] at 6:2.
pub open spec fn cshamt_of(i: u32) -> i64 {
    (((i / 0x1000) % 2) * 0x20 + (i / 4) % 0x20) as i64
}

/// c.j target: imm[11|4|9:8|10|6|7|3:1|5] at 12:2.
pub open spec fn cimm_j_of(i: u32) -> i64 {
    let v = ((i / 0x100) % 2) * 0x400 + ((i / 0x200) % 4) * 0x100 + ((i / 0x40) % 2) * 0x80 + ((i
        / 0x80) % 2) * 0x40 + ((i / 4) % 2) * 0x20 + ((i / 0x800) % 2) * 0x10 + ((i / 8) % 8) * 2;
    (if (i / 0x1000) % 2 == 1 { v - 0x800 } else { v }) as i64
}

/// c.beqz/c.bnez target: imm[8|4:3] at 12:10, imm[7:6|2:1|5] at 6:2.
pub open spec fn cimm_b_of(i: u32) -> i64 {
    let v = ((i / 0x20) % 4) * 0x40 + ((i / 4) % 2) * 0x20 + ((i / 0x400) % 4) * 8 + ((i / 8) % 4)
        * 2;
    (if (i / 0x1000) % 2 == 1 { v - 0x100 } else { v }) as i64
}

/// c.lwsp offset: uimm[5] at 12, uimm[4:2] at 6:4, uimm[7:6] at 3:2.
pub open spec fn cimm_lwsp_of(i: u32) -> i64 {
    (((i / 4) % 4) * 0x40 + ((i / 0x1000) % 2) * 0x20 + ((i / 0x10) % 8) * 4) as i64
}

/// c.ldsp/c.fldsp offset: uimm[5] at 12, uimm[4:3] at 6:5, uimm[8:6] at 4:2.
pub open spec fn cimm_ldsp_of(i: u32) -> i64 {
    (((i / 4) % 8) * 0x40 + ((i / 0x1000) % 2) * 0x20 + ((i / 0x20) % 4) * 8) as i64
}

/// c.swsp offset: uimm[5:2] at 12:9, uimm[7:6] at 8:7.
pub open spec fn cimm_swsp_of(i: u32) -> i64 {
    (((i / 0x80) % 4) * 0x40 + ((i / 0x200) % 0x10) * 4) as i64
}

/// c.sdsp/c.fsdsp offset: uimm[5:3] at 12:10, uimm[8:6] at 9:7.
pub open spec fn cimm_sdsp_of(i: u32) -> i64 {
    (((i / 0x80) % 8) * 0x40 + ((i / 0x400) % 8) * 8) as i64
}

/// c.addi4spn immediate: nzuimm[5:4|9:6|2|3] at 12:5.
pub open spec fn cimm_addi4spn_of(i: u32) -> i64 {
    (((i / 0x80) % 0x10) * 0x40 + ((i / 0x800) % 4) * 0x10 + ((i / 0x20) % 2) * 8 + ((i / 0x40)
        % 2) * 4) as i64
}

/// c.addi16sp immediate: nzimm[9|4|6|8:7|5] at 12, 6:2, signed.
pub open spec fn cimm_addi16sp_of(i: u32) -> i64 {
    let v = ((i / 8) % 4) * 0x80 + ((i / 0x20) % 2) * 0x40 + ((i / 4) % 2) * 0x20 + ((i / 0x40)
        % 2) * 0x10;
    (if (i / 0x1000) % 2 == 1 { v - 0x200 } else { v }) as i64
}

/// c.lui immediate: nzimm[17|16:12] at 12, 6:2, signed.
pub open spec fn cimm_lui_of(i: u32) -> i64 {
    let v = ((i / 4) % 0x20) * 0x1000;
    (if (i / 0x1000) % 2 == 1 { v - 0x2_0000 } else { v }) as i64
}

/// The 32-bit word that encodes `fld frd, uimm(rs1)`.
pub open spec fn fld_word_of(frd: u8, rs1: u8, uimm: i64) -> u32 {
    (uimm * 0x10_0000 + rs1 * 0x8000 + 3 * 0x1000 + frd * 0x80 + 0x07) as u32
}

/// The 32-bit word that encodes `fsd frs2, uimm(rs1)`.
pub open spec fn fsd_word_of(rs1: u8, frs2: u8, uimm: i64) -> u32 {
    ((uimm / 0x20) * 0x200_0000 + frs2 * 0x10_0000 + rs1 * 0x8000 + 3 * 0x1000 + (uimm % 0x20)
        * 0x80 + 0x27) as u32
}

/// As for `lemma_word_fields`, for the fields of a compressed instruction.
proof fn lemma_halfword_fields(i: u32)
    by (bit_vector)
    requires
        i < 0x1_0000,
    ensures
        i & 3 == i % 4,
        (i >> 13) & 7 == (i / 0x2000) % 8,
        (i >> 12) & 1 == (i / 0x1000) % 2,
        (i >> 10) & 3 == (i / 0x400) % 4,
        (i >> 5) & 3 == (i / 0x20) % 4,
        (i >> 7) & 7 == (i / 0x80) % 8,
        (i >> 2) & 7 == (i / 4) % 8,
        (i >> 7) & 0x1f == (i / 0x80) % 0x20,
        (i >> 2) & 0x1f == (i / 4) % 0x20,
        (((i >> 10) & 7) << 3 | ((i >> 6) & 1) << 2 | ((i >> 5) & 1) << 6) as i64 == cimm_w_of(i),
        (((i >> 10) & 7) << 3 | ((i >> 5) & 3) << 6) as i64 == cimm_d_of(i),
        sext_of(((i >> 12) & 1) << 5 | ((i >> 2) & 0x1f), 6) == cimm6_of(i),
        (((i >> 12) & 1) << 5 | ((i >> 2) & 0x1f)) as i64 == cshamt_of(i),
        sext_of(
            ((i >> 12) & 1) << 11 | ((i >> 11) & 1) << 4 | ((i >> 9) & 3) << 8 | ((i >> 8) & 1)
                << 10 | ((i >> 7) & 1) << 6 | ((i >> 6) & 1) << 7 | ((i >> 3) & 7) << 1 | ((i >> 2)
                & 1) << 5,
            12,
        ) == cimm_j_of(i),
        sext_of(
            ((i >> 12) & 1) << 8 | ((i >> 10) & 3) << 3 | ((i >> 5) & 3) << 6 | ((i >> 3) & 3) << 1
                | ((i >> 2) & 1) << 5,
            9,
        ) == cimm_b_of(i),
        (((i >> 12) & 1) << 5 | ((i >> 4) & 7) << 2 | ((i >> 2) & 3) << 6) as i64 == cimm_lwsp_of(
            i,
        ),
        (((i >> 12) & 1) << 5 | ((i >> 5) & 3) << 3 | ((i >> 2) & 7) << 6) as i64 == cimm_ldsp_of(
            i,
        ),
        (((i >> 9) & 0xf) << 2 | ((i >> 7) & 3) << 6) as i64 == cimm_swsp_of(i),
        (((i >> 10) & 7) << 3 | ((i >> 7) & 7) << 6) as i64 == cimm_sdsp_of(i),
        (((i >> 11) & 3) << 4 | ((i >> 7) & 0xf) << 6 | ((i >> 6) & 1) << 2 | ((i >> 5) & 1)
            << 3) as i64 == cimm_addi4spn_of(i),
        sext_of(
            ((i >> 12) & 1) << 9 | ((i >> 6) & 1) << 4 | ((i >> 5) & 1) << 6 | ((i >> 3) & 3) << 7
                | ((i >> 2) & 1) << 5,
            10,
        ) == cimm_addi16sp_of(i),
        sext_of(((i >> 12) & 1) << 17 | ((i >> 2) & 0x1f) << 12, 18) == cimm_lui_of(i),
{
}

/// The low `bits` of `v`, sign-extended.
spec fn sext_of(v: u32, bits: u32) -> i64 {
    ((v as i64) << ((64 - bits) as u32)) >> ((64 - bits) as u32)
}

/// Sign-extend the low `bits` of `v`.
#[inline]
fn sext(v: u32, bits: u32) -> (r: i64)
    requires
        1 <= bits <= 32,
    ensures
        r == sext_of(v, bits),
{
    ((v as i64) << (64 - bits)) >> (64 - bits)
}

/// c.lw/c.sw offset: uimm[5:3] at 12:10, uimm[2] at 6, uimm[6] at 5.
#[inline]
fn cimm_w(i: u32) -> (r: i64)
    requires
        i < 0x1_0000,
    ensures
        r == cimm_w_of(i),
{
    proof {
        lemma_halfword_fields(i);
    }
    (((i >> 10) & 7) << 3 | ((i >> 6) & 1) << 2 | ((i >> 5) & 1) << 6) as i64
}

/// c.ld/c.sd/c.fld/c.fsd offset: uimm[5:3] at 12:10, uimm[7:6] at 6:5.
#[inline]
fn cimm_d(i: u32) -> (r: i64)
    requires
        i < 0x1_0000,
    ensures
        r == cimm_d_of(i),
{
    proof {
        lemma_halfword_fields(i);
    }
    (((i >> 10) & 7) << 3 | ((i >> 5) & 3) << 6) as i64
}

/// Sign-extended 6-bit immediate: imm[5] at 12, imm[4:0] at 6:2.
#[inline]
fn cimm6(i: u32) -> (r: i64)
    requires
        i < 0x1_0000,
    ensures
        r == cimm6_of(i),
{
    proof {
        lemma_halfword_fields(i);
    }
    sext(((i >> 12) & 1) << 5 | ((i >> 2) & 0x1f), 6)
}

/// RV64 shift amount: shamt[5] at 12, shamt[4:0] at 6:2.
#[inline]
fn cshamt(i: u32) -> (r: i64)
    requires
        i < 0x1_0000,
    ensures
        r == cshamt_of(i),
{
    proof {
        lemma_halfword_fields(i);
    }
    (((i >> 12) & 1) << 5 | ((i >> 2) & 0x1f)) as i64
}

/// c.j target: imm[11|4|9:8|10|6|7|3:1|5] at 12:2.
#[inline]
fn cimm_j(i: u32) -> (r: i64)
    requires
        i < 0x1_0000,
    ensures
        r == cimm_j_of(i),
{
    proof {
        lemma_halfword_fields(i);
    }
    sext(
        ((i >> 12) & 1) << 11 | ((i >> 11) & 1) << 4 | ((i >> 9) & 3) << 8 | ((i >> 8) & 1) << 10
            | ((i >> 7) & 1) << 6 | ((i >> 6) & 1) << 7 | ((i >> 3) & 7) << 1 | ((i >> 2) & 1) << 5,
        12,
    )
}

/// c.beqz/c.bnez target: imm[8|4:3] at 12:10, imm[7:6|2:1|5] at 6:2.
#[inline]
fn cimm_b(i: u32) -> (r: i64)
    requires
        i < 0x1_0000,
    ensures
        r == cimm_b_of(i),
{
    proof {
        lemma_halfword_fields(i);
    }
    sext(
        ((i >> 12) & 1) << 8 | ((i >> 10) & 3) << 3 | ((i >> 5) & 3) << 6 | ((i >> 3) & 3) << 1 | ((
        i >> 2) & 1) << 5,
        9,
    )
}

/// c.lwsp offset: uimm[5] at 12, uimm[4:2] at 6:4, uimm[7:6] at 3:2.
#[inline]
fn cimm_lwsp(i: u32) -> (r: i64)
    requires
        i < 0x1_0000,
    ensures
        r == cimm_lwsp_of(i),
{
    proof {
        lemma_halfword_fields(i);
    }
    (((i >> 12) & 1) << 5 | ((i >> 4) & 7) << 2 | ((i >> 2) & 3) << 6) as i64
}

/// c.ldsp/c.fldsp offset: uimm[5] at 12, uimm[4:3] at 6:5, uimm[8:6] at 4:2.
#[inline]
fn cimm_ldsp(i: u32) -> (r: i64)
    requires
        i < 0x1_0000,
    ensures
        r == cimm_ldsp_of(i),
{
    proof {
        lemma_halfword_fields(i);
    }
    (((i >> 12) & 1) << 5 | ((i >> 5) & 3) << 3 | ((i >> 2) & 7) << 6) as i64
}

/// c.swsp offset: uimm[5:2] at 12:9, uimm[7:6] at 8:7.
#[inline]
fn cimm_swsp(i: u32) -> (r: i64)
    requires
        i < 0x1_0000,
    ensures
        r == cimm_swsp_of(i),
{
    proof {
        lemma_halfword_fields(i);
    }
    (((i >> 9) & 0xf) << 2 | ((i >> 7) & 3) << 6) as i64
}

/// c.sdsp/c.fsdsp offset: uimm[5:3] at 12:10, uimm[8:6] at 9:7.
#[inline]
fn cimm_sdsp(i: u32) -> (r: i64)
    requires
        i < 0x1_0000,
    ensures
        r == cimm_sdsp_of(i),
{
    proof {
        lemma_halfword_fields(i);
    }
    (((i >> 10) & 7) << 3 | ((i >> 7) & 7) << 6) as i64
}

proof fn lemma_fp_words(rs1: u8, fr: u8, uimm: i64)
    by (bit_vector)
    requires
        rs1 < 32,
        fr < 32,
        0 <= uimm < 0x200,
    ensures
        ((uimm as u32) << 20) | ((rs1 as u32) << 15) | (3u32 << 12) | ((fr as u32) << 7) | 0x07
            == fld_word_of(fr, rs1, uimm),
        (((uimm as u32) >> 5) << 25) | ((fr as u32) << 20) | ((rs1 as u32) << 15) | (3u32 << 12) | (
        ((uimm as u32) & 0x1f) << 7) | 0x27 == fsd_word_of(rs1, fr, uimm),
{
}

proof fn lemma_fp_word_fields(rs1: u32, fr: u32, u: u32, l: u32, st: u32)
    by (bit_vector)
    requires
        rs1 < 32,
        fr < 32,
        u < 0x200,
        l == (u << 20) | (rs1 << 15) | (3u32 << 12) | (fr << 7) | 0x07,
        st == ((u >> 5) << 25) | (fr << 20) | (rs1 << 15) | (3u32 << 12) | ((u & 0x1f) << 7)
            | 0x27,
    ensures
        l % 0x80 == 0x07,
        (l / 0x1000) % 8 == 3,
        (l / 0x80) % 0x20 == fr,
        (l / 0x8000) % 0x20 == rs1,
        l / 0x10_0000 == u,
        st % 0x80 == 0x27,
        (st / 0x1000) % 8 == 3,
        (st / 0x10_0000) % 0x20 == fr,
        (st / 0x8000) % 0x20 == rs1,
        (st / 0x200_0000) * 0x20 + (st / 0x80) % 0x20 == u,
{
}

/// Full-width `fld` word: the expansion target for c.fld/c.fldsp.
#[inline]
fn fld_word(frd: u8, rs1: u8, uimm: i64) -> (r: u32)
    requires
        frd < 32,
        rs1 < 32,
        0 <= uimm < 0x200,
    ensures
        r == fld_word_of(frd, rs1, uimm),
{
    proof {
        lemma_fp_words(rs1, frd, uimm);
    }
    ((uimm as u32) << 20) | ((rs1 as u32) << 15) | (3u32 << 12) | ((frd as u32) << 7) | 0x07
}

/// Full-width `fsd` word: the expansion target for c.fsd/c.fsdsp.
#[inline]
fn fsd_word(rs1: u8, frs2: u8, uimm: i64) -> (r: u32)
    requires
        rs1 < 32,
        frs2 < 32,
        0 <= uimm < 0x200,
    ensures
        r == fsd_word_of(rs1, frs2, uimm),
{
    proof {
        lemma_fp_words(rs1, frs2, uimm);
    }
    let u: u32 = uimm as u32;
    ((u >> 5) << 25) | ((frs2 as u32) << 20) | ((rs1 as u32) << 15) | (3u32 << 12) | ((u & 0x1f)
        << 7) | 0x27
}

/// Quadrant 0: stack-pointer-relative add and the register-relative loads and
/// stores. An all-zero c.addi4spn immediate and funct3 == 4 are reserved.
pub open spec fn decoded_quadrant0(i: u32) -> Instr {
    let (r97, r42) = (creg97_of(i), creg42_of(i));
    match (i / 0x2000) % 8 {
        0 => if cimm_addi4spn_of(i) == 0 {
            Instr::Illegal(i)
        } else {
            Instr::OpImm { op: AluOp::Add, rd: r42, rs1: 2, imm: cimm_addi4spn_of(i) }
        },
        1 => Instr::Fp { raw: fld_word_of(r42, r97, cimm_d_of(i)) },
        2 => Instr::Load { op: LoadOp::Lw, rd: r42, rs1: r97, imm: cimm_w_of(i) },
        3 => Instr::Load { op: LoadOp::Ld, rd: r42, rs1: r97, imm: cimm_d_of(i) },
        5 => Instr::Fp { raw: fsd_word_of(r97, r42, cimm_d_of(i)) },
        6 => Instr::Store { op: StoreOp::Sw, rs1: r97, rs2: r42, imm: cimm_w_of(i) },
        7 => Instr::Store { op: StoreOp::Sd, rs1: r97, rs2: r42, imm: cimm_d_of(i) },
        _ => Instr::Illegal(i),
    }
}

/// The register-register group of quadrant 1: bit 12 selects the W forms, of
/// which only c.subw and c.addw exist.
pub open spec fn decoded_carith(i: u32) -> Instr {
    let (rd, rs1, rs2) = (creg97_of(i), creg97_of(i), creg42_of(i));
    match ((i / 0x1000) % 2, (i / 0x20) % 4) {
        (0, 0) => Instr::Op { op: AluOp::Sub, rd, rs1, rs2 },
        (0, 1) => Instr::Op { op: AluOp::Xor, rd, rs1, rs2 },
        (0, 2) => Instr::Op { op: AluOp::Or, rd, rs1, rs2 },
        (0, 3) => Instr::Op { op: AluOp::And, rd, rs1, rs2 },
        (1, 0) => Instr::Op32 { op: AluOp::Sub, rd, rs1, rs2 },
        (1, 1) => Instr::Op32 { op: AluOp::Add, rd, rs1, rs2 },
        _ => Instr::Illegal(i),
    }
}

/// Quadrant 1: immediates, arithmetic and control flow. c.addiw to x0 and the
/// zero immediates of c.addi16sp and c.lui are reserved.
pub open spec fn decoded_quadrant1(i: u32) -> Instr {
    let rd = rd_of(i);
    let r97 = creg97_of(i);
    match (i / 0x2000) % 8 {
        0 => Instr::OpImm { op: AluOp::Add, rd, rs1: rd, imm: cimm6_of(i) },
        1 => if rd == 0 {
            Instr::Illegal(i)
        } else {
            Instr::OpImm32 { op: AluOp::Add, rd, rs1: rd, imm: cimm6_of(i) }
        },
        2 => Instr::OpImm { op: AluOp::Add, rd, rs1: 0, imm: cimm6_of(i) },
        3 => if rd == 2 {
            if cimm_addi16sp_of(i) == 0 {
                Instr::Illegal(i)
            } else {
                Instr::OpImm { op: AluOp::Add, rd: 2, rs1: 2, imm: cimm_addi16sp_of(i) }
            }
        } else if cimm_lui_of(i) == 0 {
            Instr::Illegal(i)
        } else {
            Instr::Lui { rd, imm: cimm_lui_of(i) }
        },
        4 => match (i / 0x400) % 4 {
            0 => Instr::OpImm { op: AluOp::Srl, rd: r97, rs1: r97, imm: cshamt_of(i) },
            1 => Instr::OpImm { op: AluOp::Sra, rd: r97, rs1: r97, imm: cshamt_of(i) },
            2 => Instr::OpImm { op: AluOp::And, rd: r97, rs1: r97, imm: cimm6_of(i) },
            _ => decoded_carith(i),
        },
        5 => Instr::Jal { rd: 0, imm: cimm_j_of(i) },
        6 => Instr::Branch { op: BranchOp::Eq, rs1: r97, rs2: 0, imm: cimm_b_of(i) },
        _ => Instr::Branch { op: BranchOp::Ne, rs1: r97, rs2: 0, imm: cimm_b_of(i) },
    }
}

/// c.jr, c.mv, c.ebreak, c.jalr and c.add. c.jr through x0 is reserved.
pub open spec fn decoded_cjump(i: u32) -> Instr {
    let (rd, rs2) = (rd_of(i), crs2_of(i));
    let link = (i / 0x1000) % 2 == 1;
    if rs2 != 0 {
        Instr::Op { op: AluOp::Add, rd, rs1: if link { rd } else { 0 }, rs2 }
    } else if rd != 0 {
        Instr::Jalr { rd: if link { 1 } else { 0 }, rs1: rd, imm: 0 }
    } else if link {
        Instr::Ebreak
    } else {
        Instr::Illegal(i)
    }
}

/// Quadrant 2: stack-relative accesses, c.slli and the register jumps. The
/// integer stack loads to x0 are reserved.
pub open spec fn decoded_quadrant2(i: u32) -> Instr {
    let (rd, rs2) = (rd_of(i), crs2_of(i));
    match (i / 0x2000) % 8 {
        0 => Instr::OpImm { op: AluOp::Sll, rd, rs1: rd, imm: cshamt_of(i) },
        1 => Instr::Fp { raw: fld_word_of(rd, 2, cimm_ldsp_of(i)) },
        2 => if rd == 0 {
            Instr::Illegal(i)
        } else {
            Instr::Load { op: LoadOp::Lw, rd, rs1: 2, imm: cimm_lwsp_of(i) }
        },
        3 => if rd == 0 {
            Instr::Illegal(i)
        } else {
            Instr::Load { op: LoadOp::Ld, rd, rs1: 2, imm: cimm_ldsp_of(i) }
        },
        4 => decoded_cjump(i),
        5 => Instr::Fp { raw: fsd_word_of(2, rs2, cimm_sdsp_of(i)) },
        6 => Instr::Store { op: StoreOp::Sw, rs1: 2, rs2, imm: cimm_swsp_of(i) },
        _ => Instr::Store { op: StoreOp::Sd, rs1: 2, rs2, imm: cimm_sdsp_of(i) },
    }
}

/// The instruction that the compressed halfword `raw` expands to. Halfwords
/// of quadrant 3 are not compressed.
#[verifier::opaque]
pub open spec fn decoded_compressed(raw: u16) -> Instr {
    let i = raw as u32;
    match i % 4 {
        0 => decoded_quadrant0(i),
        1 => decoded_quadrant1(i),
        2 => decoded_quadrant2(i),
        _ => Instr::Illegal(i),
    }
}

fn decode_quadrant0(i: u32) -> (r: Instr)
    requires
        i < 0x1_0000,
    ensures
        r == decoded_quadrant0(i),
{
    proof {
        lemma_halfword_fields(i);
    }
    let ill = Instr::Illegal(i);
    let r97: u8 = 8 + ((i >> 7) & 7) as u8;
    let r42: u8 = 8 + ((i >> 2) & 7) as u8;
    match (i >> 13) & 7 {
        0 => {
            // c.addi4spn: nzuimm[5:4|9:6|2|3] at 12:5; nzuimm == 0 (which
            // takes in the all-zero halfword) is reserved.
            let uimm: u32 = ((i >> 11) & 3) << 4 | ((i >> 7) & 0xf) << 6 | ((i >> 6) & 1) << 2 | ((i
                >> 5) & 1) << 3;
            if uimm == 0 {
                return ill;
            }
            Instr::OpImm { op: AluOp::Add, rd: r42, rs1: 2, imm: uimm as i64 }
        },
        1 => Instr::Fp { raw: fld_word(r42, r97, cimm_d(i)) },  // c.fld
        2 => Instr::Load { op: LoadOp::Lw, rd: r42, rs1: r97, imm: cimm_w(i) },
        3 => Instr::Load { op: LoadOp::Ld, rd: r42, rs1: r97, imm: cimm_d(i) },
        5 => Instr::Fp { raw: fsd_word(r97, r42, cimm_d(i)) },  // c.fsd
        6 => Instr::Store { op: StoreOp::Sw, rs1: r97, rs2: r42, imm: cimm_w(i) },
        7 => Instr::Store { op: StoreOp::Sd, rs1: r97, rs2: r42, imm: cimm_d(i) },
        _ => ill,
    }
}

fn decode_carith(i: u32) -> (r: Instr)
    requires
        i < 0x1_0000,
    ensures
        r == decoded_carith(i),
{
    proof {
        lemma_halfword_fields(i);
    }
    let r97: u8 = 8 + ((i >> 7) & 7) as u8;
    let r42: u8 = 8 + ((i >> 2) & 7) as u8;
    let aop = match ((i >> 12) & 1, (i >> 5) & 3) {
        (0, 0) => AluOp::Sub,
        (0, 1) => AluOp::Xor,
        (0, 2) => AluOp::Or,
        (0, 3) => AluOp::And,
        (1, 0) => AluOp::Sub,  // c.subw
        (1, 1) => AluOp::Add,  // c.addw
        _ => return Instr::Illegal(i),  // reserved
    };
    if (i >> 12) & 1 == 0 {
        Instr::Op { op: aop, rd: r97, rs1: r97, rs2: r42 }
    } else {
        Instr::Op32 { op: aop, rd: r97, rs1: r97, rs2: r42 }
    }
}

fn decode_quadrant1(i: u32) -> (r: Instr)
    requires
        i < 0x1_0000,
    ensures
        r == decoded_quadrant1(i),
{
    proof {
        lemma_halfword_fields(i);
    }
    let ill = Instr::Illegal(i);
    let r97: u8 = 8 + ((i >> 7) & 7) as u8;
    let rd: u8 = ((i >> 7) & 0x1f) as u8;
    match (i >> 13) & 7 {
        // c.addi (rd = x0 is c.nop; other hints execute as plain addi).
        0 => Instr::OpImm { op: AluOp::Add, rd, rs1: rd, imm: cimm6(i) },
        // c.addiw; rd = x0 is reserved.
        1 => if rd != 0 {
            Instr::OpImm32 { op: AluOp::Add, rd, rs1: rd, imm: cimm6(i) }
        } else {
            ill
        },
        2 => Instr::OpImm { op: AluOp::Add, rd, rs1: 0, imm: cimm6(i) },  // c.li
        3 => if rd == 2 {
            // c.addi16sp: nzimm[9|4|6|8:7|5] at 12, 6:2; zero is reserved.
            let imm: i64 = sext(
                ((i >> 12) & 1) << 9 | ((i >> 6) & 1) << 4 | ((i >> 5) & 1) << 6 | ((i >> 3) & 3)
                    << 7 | ((i >> 2) & 1) << 5,
                10,
            );
            if imm == 0 {
                return ill;
            }
            Instr::OpImm { op: AluOp::Add, rd: 2, rs1: 2, imm }
        } else {
            // c.lui: nzimm[17|16:12]; zero is reserved (rd = x0 is a HINT).
            let imm: i64 = sext(((i >> 12) & 1) << 17 | ((i >> 2) & 0x1f) << 12, 18);
            if imm == 0 {
                return ill;
            }
            Instr::Lui { rd, imm }
        },
        4 => match (i >> 10) & 3 {
            0 => Instr::OpImm { op: AluOp::Srl, rd: r97, rs1: r97, imm: cshamt(i) },  // c.srli
            1 => Instr::OpImm { op: AluOp::Sra, rd: r97, rs1: r97, imm: cshamt(i) },  // c.srai
            2 => Instr::OpImm { op: AluOp::And, rd: r97, rs1: r97, imm: cimm6(i) },  // c.andi
            _ => decode_carith(i),
        },
        5 => Instr::Jal { rd: 0, imm: cimm_j(i) },  // c.j
        6 => Instr::Branch { op: BranchOp::Eq, rs1: r97, rs2: 0, imm: cimm_b(i) },  // c.beqz
        _ => Instr::Branch { op: BranchOp::Ne, rs1: r97, rs2: 0, imm: cimm_b(i) },  // c.bnez
    }
}

fn decode_quadrant2(i: u32) -> (r: Instr)
    requires
        i < 0x1_0000,
    ensures
        r == decoded_quadrant2(i),
{
    proof {
        lemma_halfword_fields(i);
    }
    let ill = Instr::Illegal(i);
    let rd: u8 = ((i >> 7) & 0x1f) as u8;
    let rs2: u8 = ((i >> 2) & 0x1f) as u8;
    match (i >> 13) & 7 {
        0 => Instr::OpImm { op: AluOp::Sll, rd, rs1: rd, imm: cshamt(i) },  // c.slli
        1 => Instr::Fp { raw: fld_word(rd, 2, cimm_ldsp(i)) },  // c.fldsp
        // c.lwsp/c.ldsp; rd = x0 is reserved.
        2 if rd != 0 => Instr::Load { op: LoadOp::Lw, rd, rs1: 2, imm: cimm_lwsp(i) },
        3 if rd != 0 => Instr::Load { op: LoadOp::Ld, rd, rs1: 2, imm: cimm_ldsp(i) },
        4 => match ((i >> 12) & 1, rs2, rd) {
            (0, 0, 0) => ill,  // reserved
            (0, 0, _) => Instr::Jalr { rd: 0, rs1: rd, imm: 0 },  // c.jr
            (0, _, _) => Instr::Op { op: AluOp::Add, rd, rs1: 0, rs2 },  // c.mv
            (1, 0, 0) => Instr::Ebreak,
            (1, 0, _) => Instr::Jalr { rd: 1, rs1: rd, imm: 0 },  // c.jalr
            _ => Instr::Op { op: AluOp::Add, rd, rs1: rd, rs2 },  // c.add
        },
        5 => Instr::Fp { raw: fsd_word(2, rs2, cimm_sdsp(i)) },  // c.fsdsp
        6 => Instr::Store { op: StoreOp::Sw, rs1: 2, rs2, imm: cimm_swsp(i) },  // c.swsp
        7 => Instr::Store { op: StoreOp::Sd, rs1: 2, rs2, imm: cimm_sdsp(i) },  // c.sdsp
        _ => ill,
    }
}

/// Expand a compressed (C extension) instruction: the RV64 subset of RVC,
/// quadrants 0-2. Reserved encodings decode to `Illegal` carrying the
/// 16-bit bits zero-extended (the xtval contract for illegal compressed
/// instructions). The c.fld/c.fsd family expands to full fld/fsd words
/// inside `Instr::Fp`.
pub fn decode_compressed(raw: u16) -> (r: Instr)
    ensures
        r == decoded_compressed(raw),
{
    let i: u32 = raw as u32;
    proof {
        reveal(decoded_compressed);
        lemma_halfword_fields(i);
    }
    match i & 3 {
        0 => decode_quadrant0(i),
        1 => decode_quadrant1(i),
        2 => decode_quadrant2(i),
        // Quadrant 3 is not compressed.
        _ => Instr::Illegal(i),
    }
}

// ---------------------------------------------------------------------------
// What every decoded instruction satisfies.
// ---------------------------------------------------------------------------

impl Instr {
    /// The guarantees that execution relies on: register numbers are below
    /// 32, W operations exist in a W form, shift amounts fit their operand,
    /// CSR numbers have 12 bits and AMO widths are 4 or 8.
    pub open spec fn valid(self) -> bool {
        match self {
            Instr::Lui { rd, .. } | Instr::Auipc { rd, .. } | Instr::Jal { rd, .. } => rd < 32,
            Instr::Jalr { rd, rs1, .. } | Instr::Load { rd, rs1, .. } => rd < 32 && rs1 < 32,
            Instr::Branch { rs1, rs2, .. } | Instr::Store { rs1, rs2, .. } => rs1 < 32 && rs2 < 32,
            Instr::OpImm { op, rd, rs1, imm } => rd < 32 && rs1 < 32 && (is_shift(op) ==> 0 <= imm
                < 64),
            Instr::OpImm32 { op, rd, rs1, imm } => rd < 32 && rs1 < 32 && has_word_form(op) && (
            is_shift(op) ==> 0 <= imm < 32),
            Instr::Op { rd, rs1, rs2, .. } => rd < 32 && rs1 < 32 && rs2 < 32,
            Instr::Op32 { op, rd, rs1, rs2 } => rd < 32 && rs1 < 32 && rs2 < 32 && has_word_form(
                op,
            ),
            Instr::Csr { rd, rs1, csr, .. } => rd < 32 && rs1 < 32 && csr < 0x1000,
            Instr::Amo { rd, rs1, rs2, width, .. } => rd < 32 && rs1 < 32 && rs2 < 32 && (width == 4
                || width == 8),
            Instr::Fp { raw } => is_fp_opcode(opcode_of(raw)),
            _ => true,
        }
    }
}

/// Every word decodes to a valid instruction, or to `Illegal` carrying it.
pub proof fn decoded_is_valid(i: u32)
    ensures
        decoded(i).valid(),
        decoded(i) matches Instr::Illegal(w) ==> w == i,
{
    reveal(decoded);
}

/// The words that c.fld/c.fldsp and c.fsd/c.fsdsp expand to are encodings of
/// `fld` and `fsd` with the given registers and offset.
pub proof fn fp_words_encode_fld_and_fsd(fr: u8, rs1: u8, uimm: i64)
    requires
        fr < 32,
        rs1 < 32,
        0 <= uimm < 0x200,
    ensures
        ({
            let w = fld_word_of(fr, rs1, uimm);
            opcode_of(w) == 0x07 && funct3_of(w) == 3 && rd_of(w) == fr && rs1_of(w) == rs1
                && imm_i_of(w) == uimm
        }),
        ({
            let w = fsd_word_of(rs1, fr, uimm);
            opcode_of(w) == 0x27 && funct3_of(w) == 3 && rs2_of(w) == fr && rs1_of(w) == rs1
                && imm_s_of(w) == uimm
        }),
{
    lemma_fp_words(rs1, fr, uimm);
    lemma_fp_word_fields(
        rs1 as u32,
        fr as u32,
        uimm as u32,
        fld_word_of(fr, rs1, uimm),
        fsd_word_of(rs1, fr, uimm),
    );
}

proof fn lemma_quadrant0_valid(i: u32)
    requires
        i < 0x1_0000,
    ensures
        decoded_quadrant0(i).valid(),
        decoded_quadrant0(i) matches Instr::Illegal(w) ==> w == i,
{
    fp_words_encode_fld_and_fsd(creg42_of(i), creg97_of(i), cimm_d_of(i));
}

proof fn lemma_quadrant1_valid(i: u32)
    requires
        i < 0x1_0000,
    ensures
        decoded_quadrant1(i).valid(),
        decoded_quadrant1(i) matches Instr::Illegal(w) ==> w == i,
{
}

proof fn lemma_quadrant2_valid(i: u32)
    requires
        i < 0x1_0000,
    ensures
        decoded_quadrant2(i).valid(),
        decoded_quadrant2(i) matches Instr::Illegal(w) ==> w == i,
{
    fp_words_encode_fld_and_fsd(rd_of(i), 2, cimm_ldsp_of(i));
    fp_words_encode_fld_and_fsd(crs2_of(i), 2, cimm_sdsp_of(i));
}

/// Every halfword expands to a valid instruction, or to `Illegal` carrying
/// it zero-extended.
pub proof fn decoded_compressed_is_valid(raw: u16)
    ensures
        decoded_compressed(raw).valid(),
        decoded_compressed(raw) matches Instr::Illegal(w) ==> w == raw,
{
    reveal(decoded_compressed);
    lemma_quadrant0_valid(raw as u32);
    lemma_quadrant1_valid(raw as u32);
    lemma_quadrant2_valid(raw as u32);
}

} // verus!
