use krun::decode::{
    decode, decode_compressed, AluOp, AmoOp, BranchOp, CsrOp, Instr, LoadOp, StoreOp,
};

// Golden encodings cross-checked against riscv64-unknown-elf-as.
#[test]
fn golden_rv64i() {
    // addi x1, x2, -5
    assert_eq!(
        decode(0xffb1_0093),
        Instr::OpImm {
            op: AluOp::Add,
            rd: 1,
            rs1: 2,
            imm: -5
        }
    );
    // lui x5, 0x10000
    assert_eq!(
        decode(0x1000_02b7),
        Instr::Lui {
            rd: 5,
            imm: 0x1000_0000
        }
    );
    // auipc x3, 0xfffff
    assert_eq!(decode(0xffff_f197), Instr::Auipc { rd: 3, imm: -4096 });
    // jal x1, +16
    assert_eq!(decode(0x0100_00ef), Instr::Jal { rd: 1, imm: 16 });
    // jal x0, -8
    assert_eq!(decode(0xff9f_f06f), Instr::Jal { rd: 0, imm: -8 });
    // jalr x0, 0(x1)
    assert_eq!(
        decode(0x0000_8067),
        Instr::Jalr {
            rd: 0,
            rs1: 1,
            imm: 0
        }
    );
    // beq x1, x2, -4
    assert_eq!(
        decode(0xfe20_8ee3),
        Instr::Branch {
            op: BranchOp::Eq,
            rs1: 1,
            rs2: 2,
            imm: -4
        }
    );
    // bltu x10, x11, +8
    assert_eq!(
        decode(0x00b5_6463),
        Instr::Branch {
            op: BranchOp::Ltu,
            rs1: 10,
            rs2: 11,
            imm: 8
        }
    );
    // lw x6, 0(x5)
    assert_eq!(
        decode(0x0002_a303),
        Instr::Load {
            op: LoadOp::Lw,
            rd: 6,
            rs1: 5,
            imm: 0
        }
    );
    // lbu x7, -1(x8)
    assert_eq!(
        decode(0xfff4_4383),
        Instr::Load {
            op: LoadOp::Lbu,
            rd: 7,
            rs1: 8,
            imm: -1
        }
    );
    // sd x6, 8(x5)
    assert_eq!(
        decode(0x0062_b423),
        Instr::Store {
            op: StoreOp::Sd,
            rs1: 5,
            rs2: 6,
            imm: 8
        }
    );
    // slli x1, x1, 63
    assert_eq!(
        decode(0x03f0_9093),
        Instr::OpImm {
            op: AluOp::Sll,
            rd: 1,
            rs1: 1,
            imm: 63
        }
    );
    // srai x2, x2, 1
    assert_eq!(
        decode(0x4011_5113),
        Instr::OpImm {
            op: AluOp::Sra,
            rd: 2,
            rs1: 2,
            imm: 1
        }
    );
    // sraiw x2, x3, 31
    assert_eq!(
        decode(0x41f1_d11b),
        Instr::OpImm32 {
            op: AluOp::Sra,
            rd: 2,
            rs1: 3,
            imm: 31
        }
    );
    // sub x4, x5, x6
    assert_eq!(
        decode(0x4062_8233),
        Instr::Op {
            op: AluOp::Sub,
            rd: 4,
            rs1: 5,
            rs2: 6
        }
    );
    // addw x4, x5, x6
    assert_eq!(
        decode(0x0062_823b),
        Instr::Op32 {
            op: AluOp::Add,
            rd: 4,
            rs1: 5,
            rs2: 6
        }
    );
    // mul x4, x5, x6 (M: decoded, not yet executed)
    assert_eq!(
        decode(0x0262_8233),
        Instr::Op {
            op: AluOp::Mul,
            rd: 4,
            rs1: 5,
            rs2: 6
        }
    );
}

#[test]
fn golden_system() {
    assert_eq!(decode(0x0000_0073), Instr::Ecall);
    assert_eq!(decode(0x0010_0073), Instr::Ebreak);
    assert_eq!(decode(0x3020_0073), Instr::Mret);
    assert_eq!(decode(0x1020_0073), Instr::Sret);
    assert_eq!(decode(0x1050_0073), Instr::Wfi);
    assert_eq!(decode(0x1200_0073), Instr::SfenceVma);
    assert_eq!(decode(0x0000_100f), Instr::FenceI);
    assert_eq!(decode(0x0ff0_000f), Instr::Fence);
    // csrrwi x0, mscratch, 5
    assert_eq!(
        decode(0x3402_d073),
        Instr::Csr {
            op: CsrOp::Rw,
            rd: 0,
            rs1: 5,
            csr: 0x340,
            imm: true
        }
    );
    // csrrs x7, mscratch, x0
    assert_eq!(
        decode(0x3400_23f3),
        Instr::Csr {
            op: CsrOp::Rs,
            rd: 7,
            rs1: 0,
            csr: 0x340,
            imm: false
        }
    );
}

#[test]
fn illegal_and_stubs() {
    assert_eq!(decode(0x0000_0000), Instr::Illegal(0));
    // slli with bit 26 garbage is illegal
    assert_eq!(decode(0x0800_9093), Instr::Illegal(0x0800_9093));
    // fld decodes to the FP stub
    assert!(matches!(decode(0x0001_3007), Instr::Fp { .. }));
}

#[test]
fn golden_amo() {
    // amoswap.w x4, x6, (x5)
    assert_eq!(
        decode(0x0862_a22f),
        Instr::Amo {
            op: AmoOp::Swap,
            rd: 4,
            rs1: 5,
            rs2: 6,
            width: 4,
            aq: false,
            rl: false
        }
    );
    // lr.d x6, (x5) with aq
    assert_eq!(
        decode(0x1402_b32f),
        Instr::Amo {
            op: AmoOp::Lr,
            rd: 6,
            rs1: 5,
            rs2: 0,
            width: 8,
            aq: true,
            rl: false
        }
    );
    // sc.w x7, x6, (x5) with rl
    assert_eq!(
        decode(0x1a62_a3af),
        Instr::Amo {
            op: AmoOp::Sc,
            rd: 7,
            rs1: 5,
            rs2: 6,
            width: 4,
            aq: false,
            rl: true
        }
    );
    // amomaxu.d x8, x6, (x5)
    assert_eq!(
        decode(0xe062_b42f),
        Instr::Amo {
            op: AmoOp::Maxu,
            rd: 8,
            rs1: 5,
            rs2: 6,
            width: 8,
            aq: false,
            rl: false
        }
    );
    // lr with rs2 != 0 is illegal
    assert_eq!(decode(0x1012_a32f), Instr::Illegal(0x1012_a32f));
    // amo with a byte funct3 is illegal
    assert_eq!(decode(0x0862_822f), Instr::Illegal(0x0862_822f));
}

// Compressed golden cases cross-checked against the objdump disassembly
// of riscv-tests rv64uc-p-rvc (rv64uc-p-rvc.dump).
#[test]
fn golden_rvc() {
    // 1fe8: addi a0,sp,1020 (c.addi4spn)
    assert_eq!(
        decode_compressed(0x1fe8),
        Instr::OpImm {
            op: AluOp::Add,
            rd: 10,
            rs1: 2,
            imm: 1020
        }
    );
    // 1541: addi a0,a0,-16 (c.addi)
    assert_eq!(
        decode_compressed(0x1541),
        Instr::OpImm {
            op: AluOp::Add,
            rd: 10,
            rs1: 10,
            imm: -16
        }
    );
    // 7101: addi sp,sp,-512 and 617d: addi sp,sp,496 (c.addi16sp)
    assert_eq!(
        decode_compressed(0x7101),
        Instr::OpImm {
            op: AluOp::Add,
            rd: 2,
            rs1: 2,
            imm: -512
        }
    );
    assert_eq!(
        decode_compressed(0x617d),
        Instr::OpImm {
            op: AluOp::Add,
            rd: 2,
            rs1: 2,
            imm: 496
        }
    );
    // 357d: addiw a0,a0,-1 (c.addiw)
    assert_eq!(
        decode_compressed(0x357d),
        Instr::OpImm32 {
            op: AluOp::Add,
            rd: 10,
            rs1: 10,
            imm: -1
        }
    );
    // 557d: li a0,-1 (c.li)
    assert_eq!(
        decode_compressed(0x557d),
        Instr::OpImm {
            op: AluOp::Add,
            rd: 10,
            rs1: 0,
            imm: -1
        }
    );
    // 6405: lui s0,0x1 and 7405: lui s0,0xfffe1 (c.lui)
    assert_eq!(decode_compressed(0x6405), Instr::Lui { rd: 8, imm: 0x1000 });
    assert_eq!(
        decode_compressed(0x7405),
        Instr::Lui {
            rd: 8,
            imm: -0x1f000
        }
    );
    // 8031: srli s0,s0,0xc / 8431: srai / 983d: andi s0,s0,-17 / 0412: slli
    assert_eq!(
        decode_compressed(0x8031),
        Instr::OpImm {
            op: AluOp::Srl,
            rd: 8,
            rs1: 8,
            imm: 12
        }
    );
    assert_eq!(
        decode_compressed(0x8431),
        Instr::OpImm {
            op: AluOp::Sra,
            rd: 8,
            rs1: 8,
            imm: 12
        }
    );
    assert_eq!(
        decode_compressed(0x983d),
        Instr::OpImm {
            op: AluOp::And,
            rd: 8,
            rs1: 8,
            imm: -17
        }
    );
    assert_eq!(
        decode_compressed(0x0412),
        Instr::OpImm {
            op: AluOp::Sll,
            rd: 8,
            rs1: 8,
            imm: 4
        }
    );
    // 8c89/8ca9/8cc9/8ce9: sub/xor/or/and s1,s1,a0; 9c89/9ca9: subw/addw
    for (bits, aop) in [
        (0x8c89, AluOp::Sub),
        (0x8ca9, AluOp::Xor),
        (0x8cc9, AluOp::Or),
        (0x8ce9, AluOp::And),
    ] {
        assert_eq!(
            decode_compressed(bits),
            Instr::Op {
                op: aop,
                rd: 9,
                rs1: 9,
                rs2: 10
            }
        );
    }
    for (bits, aop) in [(0x9c89, AluOp::Sub), (0x9ca9, AluOp::Add)] {
        assert_eq!(
            decode_compressed(bits),
            Instr::Op32 {
                op: aop,
                rd: 9,
                rs1: 9,
                rs2: 10
            }
        );
    }
    // a011: j +4 (c.j); c111/e111: beqz/bnez a0,+4
    assert_eq!(decode_compressed(0xa011), Instr::Jal { rd: 0, imm: 4 });
    assert_eq!(
        decode_compressed(0xc111),
        Instr::Branch {
            op: BranchOp::Eq,
            rs1: 10,
            rs2: 0,
            imm: 4
        }
    );
    assert_eq!(
        decode_compressed(0xe111),
        Instr::Branch {
            op: BranchOp::Ne,
            rs1: 10,
            rs2: 0,
            imm: 4
        }
    );
    // 8282: jr t0; 9282: jalr t0; 82aa: mv t0,a0; 92aa: add t0,t0,a0
    assert_eq!(
        decode_compressed(0x8282),
        Instr::Jalr {
            rd: 0,
            rs1: 5,
            imm: 0
        }
    );
    assert_eq!(
        decode_compressed(0x9282),
        Instr::Jalr {
            rd: 1,
            rs1: 5,
            imm: 0
        }
    );
    assert_eq!(
        decode_compressed(0x82aa),
        Instr::Op {
            op: AluOp::Add,
            rd: 5,
            rs1: 0,
            rs2: 10
        }
    );
    assert_eq!(
        decode_compressed(0x92aa),
        Instr::Op {
            op: AluOp::Add,
            rd: 5,
            rs1: 5,
            rs2: 10
        }
    );
    // 41c8: lw a0,4(a1); 6188: ld a0,0(a1); c1c8: sw; e188: sd
    assert_eq!(
        decode_compressed(0x41c8),
        Instr::Load {
            op: LoadOp::Lw,
            rd: 10,
            rs1: 11,
            imm: 4
        }
    );
    assert_eq!(
        decode_compressed(0x6188),
        Instr::Load {
            op: LoadOp::Ld,
            rd: 10,
            rs1: 11,
            imm: 0
        }
    );
    assert_eq!(
        decode_compressed(0xc1c8),
        Instr::Store {
            op: StoreOp::Sw,
            rs1: 11,
            rs2: 10,
            imm: 4
        }
    );
    assert_eq!(
        decode_compressed(0xe188),
        Instr::Store {
            op: StoreOp::Sd,
            rs1: 11,
            rs2: 10,
            imm: 0
        }
    );
    // 4532: lw a0,12(sp); 6522: ld a0,8(sp); c62a: sw a0,12(sp);
    // e42a: sd a0,8(sp)
    assert_eq!(
        decode_compressed(0x4532),
        Instr::Load {
            op: LoadOp::Lw,
            rd: 10,
            rs1: 2,
            imm: 12
        }
    );
    assert_eq!(
        decode_compressed(0x6522),
        Instr::Load {
            op: LoadOp::Ld,
            rd: 10,
            rs1: 2,
            imm: 8
        }
    );
    assert_eq!(
        decode_compressed(0xc62a),
        Instr::Store {
            op: StoreOp::Sw,
            rs1: 2,
            rs2: 10,
            imm: 12
        }
    );
    assert_eq!(
        decode_compressed(0xe42a),
        Instr::Store {
            op: StoreOp::Sd,
            rs1: 2,
            rs2: 10,
            imm: 8
        }
    );
    // 0001: c.nop; 9002: c.ebreak
    assert_eq!(
        decode_compressed(0x0001),
        Instr::OpImm {
            op: AluOp::Add,
            rd: 0,
            rs1: 0,
            imm: 0
        }
    );
    assert_eq!(decode_compressed(0x9002), Instr::Ebreak);
    // 2188: c.fld fa0,0(a1) and a022: c.fsdsp fs0,0(sp) expand to the
    // full fld/fsd words.
    assert_eq!(decode_compressed(0x2188), Instr::Fp { raw: 0x0005_b507 });
    assert_eq!(decode_compressed(0xa022), Instr::Fp { raw: 0x0081_3027 });
}

#[test]
fn rvc_reserved_encodings() {
    for bits in [
        0x0000u16, // all-zero halfword (c.addi4spn with nzuimm = 0)
        0x8000,    // quadrant 0 funct3 = 100
        0x2001,    // c.addiw with rd = x0
        0x6001,    // c.lui with nzimm = 0
        0x6101,    // c.addi16sp with nzimm = 0
        0x9c41,    // quadrant 1 op group, bit 12 = 1, sel = 2
        0x4002,    // c.lwsp with rd = x0
        0x6002,    // c.ldsp with rd = x0
        0x8002,    // c.jr with rs1 = x0
    ] {
        assert_eq!(decode_compressed(bits), Instr::Illegal(bits as u32));
    }
}
