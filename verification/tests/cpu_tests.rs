use krun::{Clock, Cpu, GuestRam, IrqLine, PrivMode, VmExit};

fn cpu_with_prog(words: &[u32]) -> Cpu {
    let mut ram = GuestRam::new_owned(0, 64 * 1024);
    for (i, w) in words.iter().enumerate() {
        ram.store(i as u64 * 4, 4, *w as u64).unwrap();
    }
    Cpu::new(0, ram, Clock::Deterministic { shift: 0 })
}

#[test]
fn arith_and_instr_limit() {
    // addi x1, x0, 5; add x2, x1, x1; jal x0, 0
    let mut cpu = cpu_with_prog(&[0x0050_0093, 0x0010_8133, 0x0000_006f]);
    assert_eq!(cpu.run(10), VmExit::InstrLimit);
    assert_eq!(cpu.xregs[1], 5);
    assert_eq!(cpu.xregs[2], 10);
    assert_eq!(cpu.instret(), 10);
    assert_eq!(cpu.pc, 8);
}

#[test]
fn load_sign_extension() {
    // lb x3, 0x100(x0); lbu x4, 0x100(x0); jal x0, 0
    let mut cpu = cpu_with_prog(&[0x1000_0183, 0x1000_4203, 0x0000_006f]);
    cpu.ram.store(0x100, 1, 0x80).unwrap();
    cpu.run(2);
    assert_eq!(cpu.xregs[3], 0x80u64 as i8 as u64);
    assert_eq!(cpu.xregs[4], 0x80);
}

#[test]
fn mmio_read_protocol() {
    // lui x5, 0x100; lw x6, 0(x5)
    let mut cpu = cpu_with_prog(&[0x0010_02b7, 0x0002_a303]);
    assert_eq!(
        cpu.run(10),
        VmExit::MmioRead {
            addr: 0x10_0000,
            size: 4
        }
    );
    // pc must sit on the unretired load.
    assert_eq!(cpu.pc, 4);
    assert_eq!(cpu.instret(), 1);
    cpu.complete_mmio_read(0xdead_beef);
    assert_eq!(cpu.xregs[6], 0xffff_ffff_dead_beef);
    assert_eq!(cpu.pc, 8);
    assert_eq!(cpu.instret(), 2);
}

#[test]
fn mmio_write_exit() {
    // lui x5, 0x100; sw x5, 4(x5)
    let mut cpu = cpu_with_prog(&[0x0010_02b7, 0x0052_a223]);
    assert_eq!(
        cpu.run(10),
        VmExit::MmioWrite {
            addr: 0x10_0004,
            size: 4,
            data: 0x10_0000
        }
    );
    assert_eq!(cpu.pc, 8);
}

#[test]
fn csr_roundtrip() {
    // csrrwi x0, mscratch, 5; csrrs x7, mscratch, x0; jal x0, 0
    let mut cpu = cpu_with_prog(&[0x3402_d073, 0x3400_23f3, 0x0000_006f]);
    cpu.run(2);
    assert_eq!(cpu.xregs[7], 5);
    // misa: writes ignored, reads back RV64 + extensions.
    let misa = cpu.read_csr(0x301).unwrap();
    cpu.write_csr(0x301, 0).unwrap();
    assert_eq!(cpu.read_csr(0x301).unwrap(), misa);
    assert_eq!(misa >> 62, 2);
    assert_ne!(misa & (1 << 8), 0); // I
    assert_ne!(misa & (1 << 20), 0); // U
}

#[test]
fn ecall_traps_to_mtvec() {
    // lui x1, 0x1; csrrw x0, mtvec, x1; ecall
    // handler at 0x1000: csrrs x7, mcause, x0; jal x0, 0
    let mut cpu = cpu_with_prog(&[0x0000_10b7, 0x3050_9073, 0x0000_0073]);
    cpu.ram.store(0x1000, 4, 0x3420_23f3).unwrap();
    cpu.ram.store(0x1004, 4, 0x0000_006f).unwrap();
    cpu.run(4);
    assert_eq!(cpu.xregs[7], 11); // ecall from M
    assert_eq!(cpu.read_csr(0x341).unwrap(), 8); // mepc
    assert_eq!(cpu.pc, 0x1004);
}

#[test]
fn illegal_instruction_sets_mtval() {
    let mut cpu = cpu_with_prog(&[0xffff_ffff]);
    cpu.write_csr(0x305, 0x1000).unwrap();
    cpu.run(1);
    assert_eq!(cpu.pc, 0x1000);
    assert_eq!(cpu.read_csr(0x342).unwrap(), 2); // mcause
    assert_eq!(cpu.read_csr(0x343).unwrap(), 0xffff_ffff); // mtval
}

#[test]
fn mret_restores_mode() {
    let mut cpu = cpu_with_prog(&[0x3020_0073]); // mret
    cpu.write_csr(0x341, 0x100).unwrap(); // mepc
    cpu.run(1);
    assert_eq!(cpu.pc, 0x100);
    assert_eq!(cpu.priv_mode, PrivMode::U); // MPP was 0
}

#[test]
fn wfi_and_interrupt() {
    let mut cpu = cpu_with_prog(&[0x1050_0073, 0x0000_006f]); // wfi; loop
    assert_eq!(cpu.run(10), VmExit::Wfi);
    assert_eq!(cpu.pc, 4);

    // Pending-and-enabled MTIP turns wfi into a nop.
    cpu.set_irq(IrqLine::MTimer, true);
    cpu.write_csr(0x304, 0x80).unwrap(); // mie.MTIE
    cpu.pc = 0;
    assert_eq!(cpu.run(2), VmExit::InstrLimit);

    // With mstatus.MIE the interrupt is actually taken.
    cpu.write_csr(0x305, 0x2000).unwrap(); // mtvec
    cpu.ram.store(0x2000, 4, 0x0000_006f).unwrap();
    cpu.write_csr(0x300, 0x8).unwrap(); // mstatus.MIE
    cpu.pc = 0;
    cpu.run(1);
    assert_eq!(cpu.pc, 0x2000);
    assert_eq!(cpu.read_csr(0x342).unwrap(), (1 << 63) | 7);
}

/// The decode cache is validated against the raw word re-read from
/// memory, so code rewritten in place is picked up with no fence.i.
#[test]
fn self_modifying_code_is_not_cached() {
    // addi x1, x0, 5; jal x0, 0
    let mut cpu = cpu_with_prog(&[0x0050_0093, 0x0000_006f]);
    cpu.run(4);
    assert_eq!(cpu.xregs[1], 5);
    // Rewrite as addi x1, x0, 9 and re-enter at the same pc.
    cpu.ram.store(0, 4, 0x0090_0093).unwrap();
    cpu.pc = 0;
    cpu.run(4);
    assert_eq!(cpu.xregs[1], 9);
}

#[test]
fn kick_interrupts_run() {
    let mut cpu = cpu_with_prog(&[0x0000_006f]);
    cpu.kick();
    assert_eq!(cpu.run(1000), VmExit::Interrupted);
    assert_eq!(cpu.run(1), VmExit::InstrLimit);
}

#[test]
fn tohost_store_exits_shutdown() {
    // addi x1, x0, 1; sw x1, 0x200(x0)
    let mut cpu = cpu_with_prog(&[0x0010_0093, 0x2010_2023]);
    cpu.set_tohost(Some(0x200));
    assert_eq!(cpu.run(10), VmExit::Shutdown { code: 1 });
    assert_eq!(cpu.pc, 8);
}

/// AMO/LR/SC encoder: funct5, rs2, rs1, funct3 (2 = .w, 3 = .d), rd.
fn amo(f5: u32, rs2: u32, rs1: u32, f3: u32, rd: u32) -> u32 {
    (f5 << 27) | (rs2 << 20) | (rs1 << 15) | (f3 << 12) | (rd << 7) | 0x2f
}

#[test]
fn lr_sc_roundtrip() {
    let mut cpu = cpu_with_prog(&[
        0x1000_0293,            // addi x5, x0, 0x100
        amo(0x02, 0, 5, 2, 6),  // lr.w x6, (x5)
        0x0013_0313,            // addi x6, x6, 1
        amo(0x03, 6, 5, 2, 7),  // sc.w x7, x6, (x5) -> succeeds
        amo(0x03, 6, 5, 2, 28), // sc.w x28, x6, (x5) -> no reservation
        0x0000_006f,            // loop
    ]);
    cpu.ram.store(0x100, 4, 41).unwrap();
    cpu.run(5);
    assert_eq!(cpu.xregs[6], 42);
    assert_eq!(cpu.xregs[7], 0);
    assert_eq!(cpu.ram.load(0x100, 4), Some(42));
    assert_eq!(cpu.xregs[28], 1);
}

#[test]
fn store_clears_reservation() {
    let mut cpu = cpu_with_prog(&[
        0x1000_0293,           // addi x5, x0, 0x100
        amo(0x02, 0, 5, 2, 6), // lr.w x6, (x5)
        0x0062_a423,           // sw x6, 8(x5)
        amo(0x03, 6, 5, 2, 7), // sc.w x7, x6, (x5) -> fails
        0x0000_006f,
    ]);
    cpu.ram.store(0x100, 4, 9).unwrap();
    cpu.run(4);
    assert_eq!(cpu.xregs[7], 1);
    assert_eq!(cpu.ram.load(0x100, 4), Some(9));
}

#[test]
fn sc_wrong_address_or_width_fails() {
    let mut cpu = cpu_with_prog(&[
        0x1000_0293,            // addi x5, x0, 0x100
        amo(0x02, 0, 5, 3, 6),  // lr.d x6, (x5)
        amo(0x03, 6, 5, 2, 7),  // sc.w to the same addr, wrong width
        amo(0x02, 0, 5, 2, 6),  // lr.w x6, (x5)
        0x0082_8293,            // addi x5, x5, 8
        amo(0x03, 6, 5, 2, 28), // sc.w to a different addr
        0x0000_006f,
    ]);
    cpu.run(6);
    assert_eq!(cpu.xregs[7], 1);
    assert_eq!(cpu.xregs[28], 1);
}

#[test]
fn amo_ops_and_sign_extension() {
    let mut cpu = cpu_with_prog(&[
        0x1000_0293,            // addi x5, x0, 0x100
        0x0070_0313,            // addi x6, x0, 7
        amo(0x00, 6, 5, 2, 7),  // amoadd.w x7, x6, (x5)
        amo(0x14, 6, 5, 2, 28), // amomax.w x28, x6, (x5)
        0x0000_006f,
    ]);
    cpu.ram.store(0x100, 4, (-5i32) as u32 as u64).unwrap();
    cpu.run(4);
    // Old value -5 sign-extends into rd; memory holds -5 + 7 = 2.
    assert_eq!(cpu.xregs[7], (-5i64) as u64);
    // amomax.w: old 2 into rd; max(2, 7) = 7 stored.
    assert_eq!(cpu.xregs[28], 2);
    assert_eq!(cpu.ram.load(0x100, 4), Some(7));
}

#[test]
fn amo_misaligned_and_mmio_fault() {
    // Misaligned AMO -> store/AMO address-misaligned (mcause 6).
    let mut cpu = cpu_with_prog(&[
        0x1020_0293,           // addi x5, x0, 0x102
        amo(0x00, 6, 5, 2, 7), // amoadd.w
    ]);
    cpu.write_csr(0x305, 0x1000).unwrap();
    cpu.run(2);
    assert_eq!(cpu.pc, 0x1000);
    assert_eq!(cpu.read_csr(0x342).unwrap(), 6);
    assert_eq!(cpu.read_csr(0x343).unwrap(), 0x102);

    // Aligned AMO outside RAM -> store/AMO access fault (mcause 7),
    // never an MMIO exit.
    let mut cpu = cpu_with_prog(&[
        0x0010_02b7,           // lui x5, 0x100
        amo(0x00, 6, 5, 2, 7), // amoadd.w
    ]);
    cpu.write_csr(0x305, 0x1000).unwrap();
    assert_eq!(cpu.run(2), VmExit::InstrLimit);
    assert_eq!(cpu.pc, 0x1000);
    assert_eq!(cpu.read_csr(0x342).unwrap(), 7);
    assert_eq!(cpu.read_csr(0x343).unwrap(), 0x10_0000);
}

#[test]
fn compressed_pc_stepping() {
    // c.li a0, 5; c.addi a0, 1; c.j 0 (self-loop)
    let mut cpu = cpu_with_prog(&[0x0505_4515, 0x0000_a001]);
    assert_eq!(cpu.run(3), VmExit::InstrLimit);
    assert_eq!(cpu.xregs[10], 6);
    assert_eq!(cpu.pc, 4);
    assert_eq!(cpu.instret(), 3);
}

#[test]
fn mixed_width_fetch() {
    // c.li a0, 3; addi x11, x10, 100 (32-bit at offset 2); c.j 0
    let mut cpu = cpu_with_prog(&[0x0593_450d, 0xa001_0645]);
    cpu.run(3);
    assert_eq!(cpu.xregs[10], 3);
    assert_eq!(cpu.xregs[11], 103);
    assert_eq!(cpu.pc, 6);
}

#[test]
fn illegal_compressed_sets_mtval() {
    // 0x8000 is a reserved RVC encoding; mtval gets the 16-bit bits
    // zero-extended.
    let mut cpu = cpu_with_prog(&[0x0000_8000]);
    cpu.write_csr(0x305, 0x1000).unwrap();
    cpu.run(1);
    assert_eq!(cpu.pc, 0x1000);
    assert_eq!(cpu.read_csr(0x342).unwrap(), 2);
    assert_eq!(cpu.read_csr(0x343).unwrap(), 0x8000);
}

#[test]
fn deterministic_time_csr() {
    // csrrs x7, time, x0 twice around some nops
    let mut cpu = cpu_with_prog(&[
        0x0000_0013, // nop
        0x0000_0013,
        0x0000_0013,
        0x0000_0013,
        0xc010_23f3, // csrrs x7, time, x0
        0x0000_006f,
    ]);
    cpu.run(5);
    assert_eq!(cpu.xregs[7], 4); // instret was 4 at the read, shift 0
}
