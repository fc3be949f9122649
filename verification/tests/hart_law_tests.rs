use krun::csr::{MSTATUS_MIE, MSTATUS_SIE};
use krun::decode::{decode, decode_compressed, AluOp, Instr};
use krun::exec::alu;
use krun::fpu::{
    box32, f32_fma, f32_op2, f32_sqrt, f32_to_f64, f64_fma, f64_minmax, f64_op2, f64_sqrt,
    fclass32, fclass64, fcvt_i64_to_f32, fcvt_i64_to_f64, fcvt_u64_to_f32, fcvt_u64_to_f64,
    is_snan32, is_snan64, unbox32, Op2, Rm,
};
use krun::mmu::{Access, PTE_A, PTE_D, PTE_R, PTE_V, PTE_W, PTE_X};
use krun::{Clock, Cpu, Exception, GuestRam, IrqLine, PrivMode, VmExit};

const LOOP: u32 = 0x0000_006f;
const MRET: u32 = 0x3020_0073;
const SRET: u32 = 0x1020_0073;
const ECALL: u32 = 0x0000_0073;
const RWXAD: u64 = PTE_V | PTE_R | PTE_W | PTE_X | PTE_A | PTE_D;

fn hart(words: &[u32]) -> Cpu {
    let mut ram = GuestRam::new_owned(0, 64 * 1024);
    for (i, w) in words.iter().enumerate() {
        ram.store(i as u64 * 4, 4, *w as u64).unwrap();
    }
    Cpu::new(0, ram, Clock::Deterministic { shift: 0 })
}

// addi rd, rs1, imm
fn addi(rd: u32, rs1: u32, imm: u32) -> u32 {
    (imm << 20) | (rs1 << 15) | (rd << 7) | 0x13
}

// csrrw rd, csr, rs1
fn csrrw(rd: u32, csr: u32, rs1: u32) -> u32 {
    (csr << 20) | (rs1 << 15) | (1 << 12) | (rd << 7) | 0x73
}

// csrrs rd, csr, x0
fn csrr(rd: u32, csr: u32) -> u32 {
    (csr << 20) | (2 << 12) | (rd << 7) | 0x73
}

// Root at 0x1000; virtual 0x8000 and 0x9000 map to 0x4000 and 0x5000.
fn map_two_pages(cpu: &mut Cpu, second: u64) {
    let pte = |ppn: u64, flags: u64| (ppn << 10) | flags;
    cpu.ram.store(0x1000, 8, pte(2, PTE_V)).unwrap();
    cpu.ram.store(0x2000, 8, pte(3, PTE_V)).unwrap();
    cpu.ram.store(0x3000 + 8 * 8, 8, pte(4, RWXAD)).unwrap();
    cpu.ram.store(0x3000 + 9 * 8, 8, pte(5, second)).unwrap();
    cpu.write_csr(0x180, (8 << 60) | 1).unwrap();
    cpu.priv_mode = PrivMode::S;
}

#[test]
fn quotient_and_remainder_add_up() {
    for (a, b) in [(42u64, 0u64), (u64::MAX, 7), (1 << 63, u64::MAX), (7, u64::MAX - 2)] {
        let q = alu(AluOp::Div, a, b);
        let r = alu(AluOp::Rem, a, b);
        assert_eq!(q.wrapping_mul(b).wrapping_add(r), a);
        let q = alu(AluOp::Divu, a, b);
        let r = alu(AluOp::Remu, a, b);
        assert_eq!(q.wrapping_mul(b).wrapping_add(r), a);
    }
}

#[test]
fn registers_hold_what_is_legal() {
    let mut cpu = hart(&[]);
    let misa = cpu.read_csr(0x301).unwrap();
    cpu.write_csr(0x301, 0).unwrap();
    assert_eq!(cpu.read_csr(0x301).unwrap(), misa);

    cpu.write_csr(0x305, 0x1001).unwrap();
    assert_eq!(cpu.read_csr(0x305).unwrap(), 0x1001);
    cpu.write_csr(0x305, 0x2003).unwrap();
    assert_eq!(cpu.read_csr(0x305).unwrap() & 3, 1);

    cpu.write_csr(0x180, (8 << 60) | (0xffff << 44) | 5).unwrap();
    assert_eq!(cpu.read_csr(0x180).unwrap(), (8 << 60) | 5);
    cpu.write_csr(0x180, (3 << 60) | 9).unwrap();
    assert_eq!(cpu.read_csr(0x180).unwrap(), (8 << 60) | 5);

    // A previous privilege of 2 is no mode.
    cpu.write_csr(0x300, 3 << 11).unwrap();
    cpu.write_csr(0x300, 2 << 11).unwrap();
    assert_eq!((cpu.read_csr(0x300).unwrap() >> 11) & 3, 3);

    // Environment calls from M-mode are not delegated.
    cpu.write_csr(0x302, u64::MAX).unwrap();
    assert_eq!(cpu.read_csr(0x302).unwrap(), 0xb3ff);
    assert_eq!(cpu.read_csr(0x302).unwrap() & (1 << 11), 0);
}

#[test]
fn a_written_counter_reads_back() {
    let mut cpu = hart(&[addi(1, 0, 100), csrrw(0, 0xb02, 1), csrr(2, 0xb02), LOOP]);
    cpu.run(3);
    assert_eq!(cpu.xregs[2], 100);
}

#[test]
fn a_return_undoes_a_trap() {
    // U-mode calls the machine, which returns.
    let mut cpu = hart(&[ECALL, LOOP]);
    cpu.ram.store(0x100, 4, MRET as u64).unwrap();
    cpu.write_csr(0x305, 0x100).unwrap();
    cpu.write_csr(0x300, MSTATUS_MIE).unwrap();
    cpu.priv_mode = PrivMode::U;
    cpu.run(1);
    assert_eq!(cpu.priv_mode, PrivMode::M);
    assert_eq!(cpu.pc, 0x100);
    assert_eq!(cpu.read_csr(0x341).unwrap(), 0);
    assert_eq!(cpu.read_csr(0x342).unwrap(), 8);
    assert_eq!(cpu.read_csr(0x300).unwrap() & MSTATUS_MIE, 0);
    cpu.run(1);
    assert_eq!(cpu.priv_mode, PrivMode::U);
    assert_eq!(cpu.pc, 0);
    assert_ne!(cpu.csrs.mstatus & MSTATUS_MIE, 0);

    // The same call, delegated to the supervisor.
    let mut cpu = hart(&[ECALL, LOOP]);
    cpu.ram.store(0x100, 4, SRET as u64).unwrap();
    cpu.write_csr(0x105, 0x100).unwrap();
    cpu.write_csr(0x302, 1 << 8).unwrap();
    cpu.write_csr(0x300, MSTATUS_SIE).unwrap();
    cpu.priv_mode = PrivMode::U;
    cpu.run(1);
    assert_eq!(cpu.priv_mode, PrivMode::S);
    assert_eq!(cpu.csrs.sepc, 0);
    assert_eq!(cpu.csrs.scause, 8);
    assert_eq!(cpu.csrs.mstatus & MSTATUS_SIE, 0);
    cpu.run(1);
    assert_eq!(cpu.priv_mode, PrivMode::U);
    assert_ne!(cpu.csrs.mstatus & MSTATUS_SIE, 0);
}

#[test]
fn interrupts_are_taken_when_due() {
    let mut cpu = hart(&[LOOP]);
    cpu.write_csr(0x305, 0x100).unwrap();
    cpu.ram.store(0x100, 4, LOOP as u64).unwrap();
    cpu.set_irq(IrqLine::MTimer, true);
    cpu.run(4);
    // Not enabled.
    assert_eq!(cpu.pc, 0);
    cpu.write_csr(0x304, 1 << 7).unwrap();
    cpu.run(4);
    // M-mode does not allow it yet.
    assert_eq!(cpu.pc, 0);
    cpu.write_csr(0x300, MSTATUS_MIE).unwrap();
    cpu.run(4);
    assert_eq!(cpu.pc, 0x100);
    assert_eq!(cpu.read_csr(0x342).unwrap(), (1 << 63) | 7);
}

#[test]
fn a_store_over_two_pages_writes_all_or_nothing() {
    let mut cpu = hart(&[]);
    map_two_pages(&mut cpu, PTE_V | PTE_R | PTE_A);
    cpu.ram.store(0x4ff8, 8, 0x1111_1111_1111_1111).unwrap();
    assert_eq!(
        cpu.store_vaddr(0x8ffc, 8, u64::MAX).err(),
        Some(Exception::StorePageFault(0x9000))
    );
    assert_eq!(cpu.ram.load(0x4ff8, 8), Some(0x1111_1111_1111_1111));

    let mut cpu = hart(&[]);
    map_two_pages(&mut cpu, RWXAD);
    assert!(cpu.store_vaddr(0x8ffc, 8, 0x8877_6655_4433_2211).is_ok());
    assert_eq!(cpu.ram.load(0x4ffc, 4), Some(0x4433_2211));
    assert_eq!(cpu.ram.load(0x5000, 4), Some(0x8877_6655));
}

#[test]
fn a_flush_forgets_the_page() {
    let mut cpu = hart(&[]);
    map_two_pages(&mut cpu, RWXAD);
    assert_eq!(cpu.translate(0x9123, Access::Read, PrivMode::S, 1), Ok(0x5123));
    // The table changes; what is cached stays until a flush.
    cpu.ram.store(0x3000 + 9 * 8, 8, (6 << 10) | RWXAD).unwrap();
    assert_eq!(cpu.translate(0x9123, Access::Read, PrivMode::S, 1), Ok(0x5123));
    cpu.flush_tlb();
    assert_eq!(cpu.translate(0x9123, Access::Read, PrivMode::S, 1), Ok(0x6123));
    assert_eq!(cpu.fast_load_off(0x9123, 1), None);
}

#[test]
fn primed_pages_lead_where_translation_does() {
    let mut cpu = hart(&[]);
    map_two_pages(&mut cpu, RWXAD);
    cpu.ram.store(0x5008, 8, 77).unwrap();
    assert!(cpu.load_vaddr(0x9008, 8).is_ok());
    assert_eq!(cpu.fast_load_off(0x9010, 8), Some(0x5010));
    assert_eq!(cpu.fast_store_off(0x9010, 8), None);
    assert_eq!(cpu.translate(0x9010, Access::Read, PrivMode::S, 8), Ok(0x5010));
}

#[test]
fn a_device_load_waits() {
    // lui x5, 0x100; lb x6, 3(x5)
    let mut cpu = hart(&[0x0010_02b7, 0x0032_8303, LOOP]);
    let exit = VmExit::MmioRead {
        addr: 0x10_0003,
        size: 1,
    };
    assert_eq!(cpu.run(10), exit);
    assert_eq!((cpu.pc, cpu.instret()), (4, 1));
    cpu.complete_mmio_read(0x80);
    assert_eq!(cpu.xregs[6], 0xffff_ffff_ffff_ff80);
    assert_eq!((cpu.pc, cpu.instret()), (8, 2));
}

#[test]
fn locked_pmp_entries_stay() {
    let mut cpu = hart(&[]);
    cpu.write_csr(0x3b0, 0x400).unwrap();
    cpu.write_csr(0x3a0, 0x99).unwrap();
    cpu.write_csr(0x3b0, 0x800).unwrap();
    cpu.write_csr(0x3a0, 0).unwrap();
    assert_eq!(cpu.read_csr(0x3b0).unwrap(), 0x400);
    assert_eq!(cpu.read_csr(0x3a0).unwrap(), 0x99);
}

#[test]
fn the_hart_stays_sound() {
    // jalr to an odd address clears the lowest bit; x0 stays zero.
    let mut cpu = hart(&[addi(1, 0, 0x21), 0x0000_8067, LOOP]);
    cpu.ram.store(0x20, 4, addi(0, 0, 5) as u64).unwrap();
    cpu.run(2);
    assert_eq!(cpu.pc, 0x20);
    cpu.run(1);
    assert_eq!(cpu.xregs[0], 0);
    assert_eq!(cpu.pc & 1, 0);
}

#[test]
fn illegal_words_decode_to_nothing() {
    // All zeros and all ones are illegal, in both widths.
    assert_eq!(decode(0), Instr::Illegal(0));
    assert_eq!(decode(u32::MAX), Instr::Illegal(u32::MAX));
    assert_eq!(decode_compressed(0), Instr::Illegal(0));
}

#[test]
fn sums_round_once() {
    let bits = |v: f32| v.to_bits();
    // 0.1 + 0.2 is inexact.
    assert_eq!(
        f32_op2(bits(0.1), bits(0.2), Op2::Add, Rm::Rne),
        (bits(0.1 + 0.2), 1)
    );
    assert_eq!(f32_op2(bits(1.5), bits(2.5), Op2::Mul, Rm::Rne), (bits(3.75), 0));
    assert_eq!(
        f64_op2(1f64.to_bits(), 3f64.to_bits(), Op2::Div, Rm::Rne),
        ((1f64 / 3.0).to_bits(), 1)
    );
    assert_eq!(f32_sqrt(bits(2.0)), (bits(2f32.sqrt()), 1));
    assert_eq!(f64_sqrt(4f64.to_bits()), (2f64.to_bits(), 0));
    // One rounding: (1 + e)^2 - 1 keeps the e^2.
    let e = 1.0 + f32::EPSILON;
    assert_eq!(
        f32_fma(bits(e), bits(e), bits(-1.0), false, false).0,
        bits(e.mul_add(e, -1.0))
    );
    // Widening is exact.
    assert_eq!(f32_to_f64(bits(0.1)), ((0.1f32 as f64).to_bits(), 0));
    assert_eq!(unbox32(box32(bits(0.1))), bits(0.1));
    assert_eq!(unbox32(bits(0.1) as u64), 0x7fc0_0000);
    assert_eq!(fclass32(bits(-0.0)), 1 << 3);
}

#[test]
fn embedders_reach_the_hart() {
    let mut cpu = hart(&[LOOP]);
    cpu.set_pc(0x40);
    assert_eq!(cpu.pc, 0x40);
    let misa = cpu.read_csr(0x301).unwrap();
    cpu.mask_misa(1 << 3);
    assert_eq!(cpu.read_csr(0x301).unwrap(), misa & !(1 << 3));
    cpu.set_soft_ip(true);
    assert_ne!(cpu.effective_mip_snapshot() & (1 << 1), 0);
    cpu.set_soft_ip(false);
    assert_eq!(cpu.effective_mip_snapshot() & (1 << 1), 0);
    cpu.set_reg(5, 7);
    assert_eq!(cpu.read_reg(5), 7);
    cpu.set_reg(0, 7);
    assert_eq!(cpu.read_reg(0), 0);
}

#[test]
fn memory_is_read_in_all_widths() {
    let mut ram = GuestRam::new_owned(0x1000, 64);
    let wide = 0x0f0e_0d0c_0b0a_0908_0706_0504_0302_0100u128;
    assert_eq!(ram.store_u128(0x1000, wide), Some(()));
    assert_eq!(ram.load_u128(0x1000), Some(wide));
    assert_eq!(ram.load_u128(0x1038), None);
    let mut out = [0u8; 4];
    assert_eq!(ram.read_slice(0x1002, &mut out), Some(()));
    assert_eq!(out, [2, 3, 4, 5]);
    assert_eq!(ram.read_slice(0x103e, &mut out), None);
    assert_eq!(ram.fill_zero(0x1000, 2), Some(()));
    assert_eq!(ram.load(0x1000, 4), Some(0x0302_0000));
    // What is stored is loaded.
    assert_eq!(ram.store(0x1010, 2, 0xabcd_1234), Some(()));
    assert_eq!(ram.load(0x1010, 2), Some(0x1234));
}

#[test]
fn doubles_are_told_apart() {
    let bits = |v: f64| v.to_bits();
    assert!(is_snan32(0x7f80_0001) && !is_snan32(0x7fc0_0000));
    assert!(is_snan64(0x7ff0_0000_0000_0001) && !is_snan64(bits(f64::NAN)));
    assert_eq!(fclass64(bits(f64::NEG_INFINITY)), 1);
    assert_eq!(fclass64(bits(5e-324)), 1 << 5);
    assert_eq!(fclass64(bits(f64::NAN)), 1 << 9);
    assert_eq!(f64_minmax(bits(-0.0), bits(0.0), true), (0, 0));
    assert_eq!(f64_minmax(bits(1.0), bits(f64::NAN), false), (bits(1.0), 0));
    let e = 1.0 + f64::EPSILON;
    assert_eq!(
        f64_fma(bits(e), bits(e), bits(-1.0), false, false).0,
        bits(e.mul_add(e, -1.0))
    );
    assert_eq!(f64_fma(bits(2.0), bits(3.0), bits(1.0), true, true), (bits(-7.0), 0));
    // Overflow to infinity, or to the greatest finite value.
    let max = f32::MAX.to_bits();
    assert_eq!(f32_op2(max, max, Op2::Add, Rm::Rne), (f32::INFINITY.to_bits(), 5));
    assert_eq!(f32_op2(max, max, Op2::Add, Rm::Rtz), (max, 1));
    // Underflow.
    assert_eq!(f32_op2(1, 0x3f00_0000, Op2::Mul, Rm::Rne), (0, 3));
    assert_eq!(f32_op2(1, 0x3f00_0000, Op2::Mul, Rm::Rup), (1, 3));
}

// An atomic operation on the doubleword at x5.
fn amo_d(funct5: u32, rd: u32, rs2: u32) -> u32 {
    (funct5 << 27) | (rs2 << 20) | (5 << 15) | (3 << 12) | (rd << 7) | 0x2f
}

fn reporting(words: &[u32]) -> Cpu {
    let mut cpu = hart(words);
    cpu.set_tohost(Some(0x200));
    cpu.csrs.mstatus = 0x2000;
    cpu.xregs[5] = 0x200;
    cpu.xregs[6] = 3;
    cpu.fregs[1] = 1;
    cpu
}

#[test]
fn every_store_to_tohost_is_reported() {
    // fsd f1, 0(x5)
    let mut cpu = reporting(&[]);
    assert_eq!(
        cpu.exec_fp(0x0012_b027, 4),
        Ok((Some(VmExit::Shutdown { code: 1 }), false))
    );
    let mut cpu = reporting(&[0x0012_b027]);
    assert_eq!(cpu.run(10), VmExit::Shutdown { code: 1 });
    assert_eq!(cpu.pc, 4);
    // fsw f1, 0(x5) beside what is there already.
    let mut cpu = reporting(&[0x0012_a027]);
    cpu.ram.store(0x204, 4, 7).unwrap();
    assert_eq!(cpu.run(10), VmExit::Shutdown { code: (7 << 32) | 1 });
    // amoswap.d and amoadd.d.
    let mut cpu = reporting(&[amo_d(1, 7, 6)]);
    assert_eq!(cpu.run(10), VmExit::Shutdown { code: 3 });
    assert_eq!(cpu.instret(), 1);
    let mut cpu = reporting(&[amo_d(0, 7, 6)]);
    cpu.ram.store(0x200, 8, 4).unwrap();
    assert_eq!(cpu.run(10), VmExit::Shutdown { code: 7 });
    assert_eq!(cpu.xregs[7], 4);
    // lr.d reads and sc.d writes; without a reservation it does not.
    let mut cpu = reporting(&[amo_d(2, 7, 0), amo_d(3, 8, 6), amo_d(3, 8, 6), LOOP]);
    assert_eq!(cpu.run(10), VmExit::Shutdown { code: 3 });
    assert_eq!(cpu.pc, 8);
    assert_eq!(cpu.run(2), VmExit::InstrLimit);
    assert_eq!(cpu.xregs[8], 1);
    // A store beside the address is none to it.
    let mut cpu = reporting(&[0x0012_b027, LOOP]);
    cpu.xregs[5] = 0x208;
    assert_eq!(cpu.run(3), VmExit::InstrLimit);
}

#[test]
fn conversions_honor_all_rounding_modes() {
    let tie = (1i64 << 53) + 1;
    assert_eq!(fcvt_i64_to_f64(tie, Rm::Rmm), (0x4340_0000_0000_0001, 1));
    assert_eq!(fcvt_i64_to_f64(-tie, Rm::Rmm), (0xc340_0000_0000_0001, 1));
    assert_eq!(fcvt_i64_to_f64(tie, Rm::Rne), (0x4340_0000_0000_0000, 1));
    assert_eq!(fcvt_i64_to_f64(tie, Rm::Rup), (0x4340_0000_0000_0001, 1));
    assert_eq!(fcvt_i64_to_f64(-tie, Rm::Rdn), (0xc340_0000_0000_0001, 1));
    assert_eq!(fcvt_i64_to_f64(tie, Rm::Rtz), (0x4340_0000_0000_0000, 1));
    assert_eq!(fcvt_i64_to_f64(i64::MIN, Rm::Rtz), ((i64::MIN as f64).to_bits(), 0));
    assert_eq!(fcvt_u64_to_f64(u64::MAX, Rm::Rmm), (18446744073709551616f64.to_bits(), 1));
    assert_eq!(fcvt_u64_to_f64(tie as u64, Rm::Rmm), (0x4340_0000_0000_0001, 1));
    assert_eq!(fcvt_i64_to_f32((1 << 24) + 1, Rm::Rmm), (0x4b80_0001, 1));
    assert_eq!(fcvt_i64_to_f32(-(1 << 24) - 1, Rm::Rne), (0xcb80_0000, 1));
    assert_eq!(fcvt_u64_to_f32((1 << 24) + 1, Rm::Rup), (0x4b80_0001, 1));
}

#[test]
fn a_fused_addend_of_infinity_is_the_result() {
    let bits = |v: f64| v.to_bits();
    let big = bits(f64::MAX);
    assert_eq!(
        f64_fma(big, big, bits(f64::NEG_INFINITY), false, false),
        (bits(f64::NEG_INFINITY), 0)
    );
    // Of two infinities the difference is invalid.
    let inf = bits(f64::INFINITY);
    assert_eq!(f64_fma(inf, bits(2.0), inf, false, true), (bits(f64::NAN), 16));
    assert_eq!(f64_fma(big, big, bits(1.0), false, false), (inf, 5));
}

#[test]
fn an_interval_goes_by_its_poll() {
    let mut cpu = hart(&[addi(1, 1, 1), LOOP]);
    assert_eq!(cpu.run_interval(true, 0, 0), VmExit::InstrLimit);
    assert_eq!(cpu.run_interval(true, 0, 5), VmExit::Interrupted);
    assert_eq!((cpu.xregs[1], cpu.instret()), (0, 0));
    assert_eq!(cpu.run_interval(false, 0, 256), VmExit::InstrLimit);
    assert_eq!((cpu.xregs[1], cpu.instret()), (1, 256));
    // The lines that the poll found interrupt the hart.
    cpu.write_csr(0x305, 0x100).unwrap();
    cpu.write_csr(0x304, 1 << 7).unwrap();
    cpu.write_csr(0x300, MSTATUS_MIE).unwrap();
    cpu.ram.store(0x100, 4, LOOP as u64).unwrap();
    assert_eq!(cpu.run_interval(false, 1 << 7, 1), VmExit::InstrLimit);
    assert_eq!(cpu.pc, 0x100);
    assert_eq!(cpu.read_csr(0x342).unwrap(), (1 << 63) | 7);
}

#[test]
fn a_handle_drives_its_hart() {
    let mut cpu = hart(&[addi(1, 1, 1), LOOP]);
    let intc = cpu.intc();
    intc.kick();
    assert_eq!(cpu.run(10), VmExit::Interrupted);
    assert_eq!(cpu.run(600), VmExit::InstrLimit);
    assert_eq!(cpu.instret(), 600);
    intc.set_irq(IrqLine::SExt, true);
    assert_eq!(cpu.read_csr(0x344).unwrap(), 1 << 9);
    intc.set_irq(IrqLine::SExt, false);
    assert_eq!(cpu.read_csr(0x344).unwrap(), 0);
    intc.kick();
    assert_eq!(cpu.run(1), VmExit::Interrupted);
}

#[test]
fn device_data_goes_where_the_load_says() {
    // lh x6, 0(x5)
    let mut cpu = hart(&[addi(1, 0, 1), 0x0002_9303, LOOP]);
    cpu.xregs[5] = 0x1000_0000;
    assert_eq!(cpu.run(10), VmExit::MmioRead { addr: 0x1000_0000, size: 2 });
    assert_eq!((cpu.pc, cpu.instret(), cpu.xregs[6]), (4, 1, 0));
    cpu.complete_mmio_read(0x1_8001);
    assert_eq!((cpu.pc, cpu.instret(), cpu.xregs[6]), (8, 2, 0xffff_ffff_ffff_8001));
    assert_eq!(cpu.xregs[1], 1);
    assert_eq!(cpu.run(3), VmExit::InstrLimit);
}

#[test]
fn primed_pages_serve_no_large_accesses() {
    let mut cpu = hart(&[]);
    cpu.load_vaddr(0x4000, 8).unwrap();
    assert_eq!(cpu.fast_load_off(0x4000, 0x1000), Some(0x4000));
    assert_eq!(cpu.fast_load_off(0x4001, 0x1000), None);
    assert_eq!(cpu.fast_load_off(0x4000, usize::MAX), None);
    assert_eq!(cpu.fast_store_off(0x4000, usize::MAX), None);
    cpu.flush_tlb();
    for size in [0, 1, 8, 9, 0x1000, 0x1001] {
        assert_eq!(cpu.fast_load_off(0x4000, size), None);
    }
}

#[test]
fn protection_keeps_its_reserved_bits() {
    let mut cpu = hart(&[]);
    cpu.write_csr(0x3a0, u64::MAX >> 8).unwrap();
    assert_eq!(cpu.read_csr(0x3a0).unwrap(), 0x009f_9f9f_9f9f_9f9f);
    cpu.write_csr(0x3a0, 0).unwrap();
    cpu.write_csr(0x3a0, u64::MAX).unwrap();
    assert_eq!(cpu.read_csr(0x3a0).unwrap(), 0x9f9f_9f9f_9f9f_9f9f);
    cpu.write_csr(0x3ef, u64::MAX).unwrap();
    assert_eq!(cpu.read_csr(0x3ef).unwrap(), (1 << 54) - 1);
}

#[test]
fn counters_are_set_and_cleared_by_bits() {
    // csrrs x3, minstret, x1; csrrc x4, minstret, x2; csrr x5, minstret
    let set = (0xb02 << 20) | (1 << 15) | (2 << 12) | (3 << 7) | 0x73;
    let clear = (0xb02 << 20) | (2 << 15) | (3 << 12) | (4 << 7) | 0x73;
    let mut cpu = hart(&[set, clear, csrr(5, 0xb02), LOOP]);
    cpu.xregs[1] = 0xf0;
    cpu.xregs[2] = 0x30;
    cpu.run(3);
    assert_eq!((cpu.xregs[3], cpu.xregs[4], cpu.xregs[5]), (0, 0xf0, 0xc0));
}

#[test]
fn remainders_are_small_and_signed_as_the_dividend() {
    let rem = |a: i64, b: i64| alu(AluOp::Rem, a as u64, b as u64) as i64;
    assert_eq!((rem(7, 3), rem(-7, 3), rem(7, -3), rem(-7, -3)), (1, -1, 1, -1));
    assert_eq!((rem(6, -3), rem(i64::MIN, -1), rem(i64::MIN, i64::MAX)), (0, 0, -1));
    assert_eq!(alu(AluOp::Remu, u64::MAX, 10), 5);
}

#[test]
fn a_line_drives_its_bit_alone() {
    let mut cpu = hart(&[]);
    cpu.write_csr(0x344, 0x222).unwrap();
    let written = cpu.read_csr(0x344).unwrap();
    let handle = cpu.intc();
    let other = handle.clone();
    for (line, bit) in [
        (IrqLine::SSoft, 1),
        (IrqLine::MSoft, 3),
        (IrqLine::STimer, 5),
        (IrqLine::MTimer, 7),
        (IrqLine::SExt, 9),
        (IrqLine::MExt, 11),
    ] {
        handle.set_irq(line, true);
        assert_eq!(cpu.read_csr(0x344).unwrap(), written | (1 << bit));
        assert_eq!(cpu.csrs.mip, written);
        other.set_irq(line, false);
        assert_eq!(cpu.read_csr(0x344).unwrap(), written);
    }
    cpu.set_irq(IrqLine::MExt, true);
    assert_eq!(cpu.read_csr(0x344).unwrap(), written | (1 << 11));
}

#[test]
fn a_run_without_a_budget_leaves_the_kick() {
    let mut cpu = hart(&[LOOP]);
    cpu.kick();
    assert_eq!(cpu.run(0), VmExit::InstrLimit);
    assert_eq!(cpu.run(5), VmExit::Interrupted);
    assert_eq!((cpu.pc, cpu.instret()), (0, 0));
    assert_eq!(cpu.run(5), VmExit::InstrLimit);
}
