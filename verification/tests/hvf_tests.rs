use krun::hvf::HvfVcpuState;
use krun::hvf_vcpu::{
    captured_state, gic_distributor_regs, gic_num_irqs, gic_restore_distributor,
    vcpu_adjust_vtimer_offset, vcpu_restore_state, vcpu_save_state, Action, Event, HvfError,
    HvfVcpu, InitStep, SysReg, VcpuExit, VcpuFault, VcpuRead, VcpuReg, VcpuWrite,
};

fn state() -> HvfVcpuState {
    let mut gp = [0u64; 31];
    for (i, r) in gp.iter_mut().enumerate() {
        *r = i as u64 + 1;
    }
    let mut simd = [0u128; 32];
    simd[31] = u128::MAX;
    HvfVcpuState {
        gp,
        pc: 0x8000,
        cpsr: 0x3c5,
        fpcr: 1,
        fpsr: 2,
        simd,
        sys: vec![(0xc080, 7), (0xc081, u64::MAX)],
        gic_redist: vec![(0x80, 1)],
        gic_icc: vec![],
        vtimer_offset: 99,
    }
}

fn vcpu() -> HvfVcpu {
    HvfVcpu::new(3, 24_000_000, 0x3f_fc1e, false)
}

fn class(ec: u64) -> u64 {
    ec << 26
}

fn exited(syndrome: u64, physical_address: u64) -> Event {
    Event::Exited {
        reason: 1,
        syndrome,
        physical_address,
    }
}

fn enter(vcpu: &mut HvfVcpu) {
    assert_eq!(vcpu.run(Event::Start { pending_irq: false }), Action::Run);
}

// Enters after an exit that left an instruction behind.
fn enter_past(vcpu: &mut HvfVcpu, pc: u64) {
    assert_eq!(
        vcpu.run(Event::Start { pending_irq: false }),
        Action::ReadReg(VcpuReg::Pc)
    );
    assert_eq!(
        vcpu.run(Event::Value(pc)),
        Action::WriteReg(VcpuReg::Pc, pc.wrapping_add(4))
    );
    assert_eq!(vcpu.run(Event::Done), Action::Run);
}

#[test]
fn a_vcpu_state_round_trips() {
    let s = state();
    let bytes = s.serialize();
    // 35 words, 32 quads, two pairs of ten bytes and one of twelve, three
    // counts, the offset.
    assert_eq!(bytes.len(), 35 * 8 + 32 * 16 + (4 + 2 * 10) + (4 + 12) + 4 + 8);
    assert_eq!(bytes[0..8], 1u64.to_le_bytes());
    let back = HvfVcpuState::deserialize(&bytes).unwrap();
    assert_eq!(back.gp, s.gp);
    assert_eq!(back.pc, s.pc);
    assert_eq!(back.cpsr, s.cpsr);
    assert_eq!(back.fpcr, s.fpcr);
    assert_eq!(back.fpsr, s.fpsr);
    assert_eq!(back.simd, s.simd);
    assert_eq!(back.sys, s.sys);
    assert_eq!(back.gic_redist, s.gic_redist);
    assert_eq!(back.gic_icc, s.gic_icc);
    assert_eq!(back.vtimer_offset, s.vtimer_offset);
}

#[test]
fn every_cut_vcpu_state_is_refused() {
    let bytes = state().serialize();
    // The offset came last: without it there is none.
    let older = bytes.len() - 8;
    let back = HvfVcpuState::deserialize(&bytes[..older]).unwrap();
    assert_eq!(back.pc, 0x8000);
    assert_eq!(back.vtimer_offset, 0);
    for n in (0..older).chain(older + 1..bytes.len()) {
        assert_eq!(
            HvfVcpuState::deserialize(&bytes[..n]).err().unwrap(),
            "HvfVcpuState blob truncated"
        );
    }
}

#[test]
fn a_restore_writes_what_a_capture_read() {
    let sys = [0xc080u16, 0xc082];
    let plan = vcpu_save_state(&sys);
    assert_eq!(plan.len(), 91);
    assert_eq!(plan[0], VcpuRead::Reg(VcpuReg::X(0)));
    assert_eq!(plan[31], VcpuRead::Reg(VcpuReg::Pc));
    assert_eq!(plan[35], VcpuRead::Simd(0));
    assert_eq!(plan[67], VcpuRead::Sys(0xc080));
    assert_eq!(plan[90], VcpuRead::VtimerOffset);
    let values: Vec<u128> = (0..91).map(|i| 1000 + i).collect();
    let state = captured_state(&sys, &values);
    assert_eq!(state.gp[30], 1030);
    assert_eq!(state.pc, 1031);
    assert_eq!(state.sys, vec![(0xc080, 1067), (0xc082, 1068)]);
    assert_eq!(state.vtimer_offset, 1090);

    let writes = vcpu_restore_state(&state);
    assert_eq!(writes.len(), plan.len());
    // System registers go first.
    assert_eq!(writes[0], VcpuWrite::Sys(0xc080, 1067));
    for (read, value) in plan.iter().zip(&values) {
        let expected = match *read {
            VcpuRead::Reg(r) => VcpuWrite::Reg(r, *value as u64),
            VcpuRead::Simd(q) => VcpuWrite::Simd(q, *value),
            VcpuRead::Sys(id) => VcpuWrite::Sys(id, *value as u64),
            VcpuRead::Redist(off) => VcpuWrite::Redist(off, *value as u64),
            VcpuRead::Icc(id) => VcpuWrite::Icc(id, *value as u64),
            VcpuRead::VtimerOffset => VcpuWrite::VtimerOffset(*value as u64),
        };
        assert!(writes.contains(&expected));
    }
}

#[test]
fn failed_accesses_name_their_error() {
    assert!(matches!(VcpuRead::Simd(0).error(), HvfError::VcpuReadRegister));
    assert!(matches!(VcpuRead::Sys(0).error(), HvfError::VcpuReadSystemRegister));
    assert!(matches!(VcpuRead::VtimerOffset.error(), HvfError::VcpuGetVtimerOffset));
    assert!(matches!(
        VcpuWrite::Reg(VcpuReg::Pc, 0).error(),
        HvfError::VcpuSetRegister
    ));
    assert_eq!(
        VcpuWrite::Sys(0xc080, 0x1f).error().message(),
        "Error setting HVF vCPU system register 0x0xc080 to 0x0x1f"
    );
    assert_eq!(
        HvfError::FindSymbol("x".to_string()).message(),
        "Couldn't find symbol in HVF library: x"
    );
    assert_eq!(HvfError::VcpuRun.message(), "Error running HVF vCPU");
}

#[test]
fn the_distributor_is_enabled_last() {
    assert_eq!(gic_num_irqs(0), 32);
    assert_eq!(gic_num_irqs(0x7a_0003), 128);
    assert_eq!(gic_num_irqs(0x1f), 1024);
    let regs = gic_distributor_regs(64);
    assert_eq!(regs.len(), 1 + 2 + 16 + 4 + 32 + 2);
    assert_eq!(regs[0], 0);
    assert_eq!(regs[1..3], [0x80, 0x84]);
    assert_eq!(regs[3], 0x400);
    assert_eq!(regs[19], 0xc00);
    assert_eq!(regs[23], 0x6100);
    assert_eq!(regs[55..57], [0x100, 0x104]);
    assert_eq!(
        gic_restore_distributor(&[(0, 0x37), (0x80, 1), (0x100, 2)]),
        vec![(0x80, 1), (0x100, 2), (0, 0x37)]
    );
    assert_eq!(gic_restore_distributor(&[(0x80, 1)]), vec![(0x80, 1)]);
}

#[test]
fn a_pause_moves_the_timer_offset() {
    assert_eq!(vcpu_adjust_vtimer_offset(10, 1_000_000_000, 24_000_000), 24_000_010);
    assert_eq!(vcpu_adjust_vtimer_offset(10, 41, 24_000_000), 10);
    assert_eq!(vcpu_adjust_vtimer_offset(10, 42, 24_000_000), 11);
    assert_eq!(vcpu_adjust_vtimer_offset(u64::MAX, 1_000_000_000, 1), u64::MAX);
    assert_eq!(vcpu_adjust_vtimer_offset(0, u64::MAX, u64::MAX), u64::MAX);
}

#[test]
fn a_vcpu_enters_at_el1_or_el2() {
    assert_eq!(
        vcpu().set_initial_state(0x8000_0000, 0x4000),
        vec![
            InitStep::Reg(VcpuReg::Cpsr, 0x3c5),
            InitStep::Reg(VcpuReg::Pc, 0x8000_0000),
            InitStep::Reg(VcpuReg::X(0), 0x4000),
        ]
    );
    let nested = HvfVcpu::new(0, 1, 0, true).set_initial_state(1, 2);
    assert_eq!(nested.len(), 7);
    assert_eq!(nested[0], InitStep::Reg(VcpuReg::Cpsr, 0x3c9));
    assert_eq!(nested[1], InitStep::Sys(SysReg::HcrEl2, 0x8_807c_663f));
    assert_eq!(nested[3].value(1), 0x100_0101);
    assert_eq!(nested[4].value(u64::MAX), !0x300_0000);
}

#[test]
fn a_read_is_answered_before_the_next_entry() {
    let mut v = vcpu();
    assert_eq!(v.id(), 3);
    enter(&mut v);
    // A four-byte load into X5.
    let syndrome = class(0x24) | (2 << 22) | (5 << 16);
    assert_eq!(
        v.run(exited(syndrome, 0x900)),
        Action::Exit(VcpuExit::MmioRead(0x900, 4))
    );
    v.set_mmio_data(&[0x78, 0x56, 0x34, 0x12]);
    assert_eq!(
        v.run(Event::Start { pending_irq: true }),
        Action::WriteReg(VcpuReg::X(5), 0x1234_5678)
    );
    assert_eq!(v.run(Event::Done), Action::ReadReg(VcpuReg::Pc));
    assert_eq!(v.run(Event::Value(0x40)), Action::WriteReg(VcpuReg::Pc, 0x44));
    assert_eq!(v.run(Event::Done), Action::SetPendingIrq);
    assert_eq!(v.run(Event::Done), Action::Run);
}

#[test]
fn the_zero_register_discards_a_read() {
    let mut v = vcpu();
    enter(&mut v);
    let syndrome = class(0x24) | (2 << 22) | (31 << 16);
    assert_eq!(
        v.run(exited(syndrome, 0x900)),
        Action::Exit(VcpuExit::MmioRead(0x900, 4))
    );
    v.set_mmio_data(&[1, 2, 3, 4]);
    assert_eq!(
        v.run(Event::Start { pending_irq: false }),
        Action::ReadReg(VcpuReg::Pc)
    );
    assert_eq!(v.run(Event::Value(0x40)), Action::WriteReg(VcpuReg::Pc, 0x44));
    assert_eq!(v.run(Event::Done), Action::Run);
}

#[test]
fn a_write_leaves_its_bytes() {
    let mut v = vcpu();
    enter(&mut v);
    let store = class(0x24) | (1 << 6);
    assert_eq!(
        v.run(exited(store | (3 << 22) | (2 << 16), 0x910)),
        Action::ReadReg(VcpuReg::X(2))
    );
    assert_eq!(
        v.run(Event::Value(0x0102_0304_0506_0708)),
        Action::Exit(VcpuExit::MmioWrite(0x910, 8))
    );
    assert_eq!(v.mmio_data(8), vec![8, 7, 6, 5, 4, 3, 2, 1]);

    // The zero register is not read; only the bytes of the access change.
    enter_past(&mut v, 0x100);
    assert_eq!(
        v.run(exited(store | (31 << 16), 0x911)),
        Action::Exit(VcpuExit::MmioWrite(0x911, 1))
    );
    assert_eq!(v.mmio_data(8), vec![0, 7, 6, 5, 4, 3, 2, 1]);

    // Stores of two bytes are not served.
    enter_past(&mut v, 0x104);
    assert_eq!(
        v.run(exited(store | (1 << 22) | (31 << 16), 0x912)),
        Action::Fail(VcpuFault::MmioLen(2))
    );
}

#[test]
fn system_registers_go_to_the_embedder() {
    let mut v = vcpu();
    enter(&mut v);
    let trap = class(0x18);
    let read = trap | (4 << 5) | 1;
    assert_eq!(
        v.run(exited(read | 0x3e_0000, 0)),
        Action::HandleSysRegRead { reg: 0x3e_0000 }
    );
    assert_eq!(
        v.run(Event::Handled(Some(77))),
        Action::WriteReg(VcpuReg::X(4), 77)
    );
    assert_eq!(v.run(Event::Done), Action::Exit(VcpuExit::SystemRegister));

    enter_past(&mut v, 0);
    assert_eq!(
        v.run(exited(read | 0x3e_0000, 0)),
        Action::HandleSysRegRead { reg: 0x3e_0000 }
    );
    assert_eq!(
        v.run(Event::Handled(None)),
        Action::Fail(VcpuFault::SysRegRead { rt: 4, reg: 0x3e_0000 })
    );

    enter_past(&mut v, 0);
    assert_eq!(v.run(exited(trap | (4 << 5), 0)), Action::ReadReg(VcpuReg::X(4)));
    assert_eq!(
        v.run(Event::Value(9)),
        Action::HandleSysRegWrite { reg: 0, val: 9 }
    );
    assert_eq!(v.run(Event::Accepted(true)), Action::Exit(VcpuExit::SystemRegister));

    enter_past(&mut v, 0);
    assert_eq!(
        v.run(exited(trap | (31 << 5), 0)),
        Action::HandleSysRegWrite { reg: 0, val: 0 }
    );
    assert_eq!(
        v.run(Event::Accepted(false)),
        Action::Fail(VcpuFault::SysRegWrite { reg: 0 })
    );
}

#[test]
fn a_wait_lasts_until_the_timer() {
    let mut v = vcpu();
    enter(&mut v);
    assert_eq!(
        v.run(exited(class(1), 0)),
        Action::ReadSysReg(SysReg::CntvCtlEl0)
    );
    assert_eq!(v.run(Event::Value(3)), Action::Exit(VcpuExit::WaitForEvent));

    let wait = |v: &mut HvfVcpu, cval: u64, now: u64| {
        enter_past(v, 0);
        assert_eq!(
            v.run(exited(class(1), 0)),
            Action::ReadSysReg(SysReg::CntvCtlEl0)
        );
        assert_eq!(v.run(Event::Value(1)), Action::ReadSysReg(SysReg::CntvCvalEl0));
        assert_eq!(v.run(Event::Value(cval)), Action::ReadClock);
        v.run(Event::Value(now))
    };
    assert_eq!(
        wait(&mut v, 1000, 400),
        // 41 ns a tick.
        Action::Exit(VcpuExit::WaitForEventTimeout(600 * 41))
    );
    assert_eq!(wait(&mut v, 1000, 1001), Action::Exit(VcpuExit::WaitForEventExpired));
    assert_eq!(wait(&mut v, u64::MAX, 0), Action::Fail(VcpuFault::Timeout));
}

#[test]
fn psci_calls_are_served() {
    let mut v = vcpu();
    let call = |v: &mut HvfVcpu, function: u64| {
        enter(v);
        assert_eq!(v.run(exited(class(0x16), 0)), Action::ReadReg(VcpuReg::X(0)));
        v.run(Event::Value(function))
    };
    assert_eq!(call(&mut v, 0x8400_0000), Action::WriteReg(VcpuReg::X(0), 2));
    assert_eq!(v.run(Event::Done), Action::Exit(VcpuExit::PsciHandled));
    assert_eq!(call(&mut v, 0x8400_0006), Action::WriteReg(VcpuReg::X(0), 2));
    assert_eq!(v.run(Event::Done), Action::Exit(VcpuExit::PsciHandled));
    assert_eq!(call(&mut v, 0x8400_0008), Action::Exit(VcpuExit::Shutdown));
    assert_eq!(call(&mut v, 0x8400_0009), Action::Exit(VcpuExit::Shutdown));
    assert_eq!(call(&mut v, 1), Action::Fail(VcpuFault::PsciFunction(1)));

    assert_eq!(call(&mut v, 0xc400_0003), Action::ReadReg(VcpuReg::X(1)));
    assert_eq!(v.run(Event::Value(1)), Action::ReadReg(VcpuReg::X(2)));
    assert_eq!(v.run(Event::Value(0x8000)), Action::ReadReg(VcpuReg::X(3)));
    assert_eq!(v.run(Event::Value(5)), Action::WriteReg(VcpuReg::X(0), 0));
    assert_eq!(
        v.run(Event::Done),
        Action::Exit(VcpuExit::CpuOn(1, 0x8000, 5))
    );
}

#[test]
fn the_timer_is_unmasked_once_its_line_is_low() {
    let mut v = vcpu();
    enter(&mut v);
    assert_eq!(
        v.run(Event::Exited {
            reason: 2,
            syndrome: 0,
            physical_address: 0
        }),
        Action::Exit(VcpuExit::VtimerActivated)
    );
    enter(&mut v);
    assert_eq!(
        v.run(exited(class(0x3c), 0)),
        Action::ReadSysReg(SysReg::CntvCtlEl0)
    );
    assert_eq!(v.run(Event::Value(5)), Action::SyncVtimer { unmask: false });
    assert_eq!(v.run(Event::Done), Action::Exit(VcpuExit::Breakpoint));
    enter(&mut v);
    assert_eq!(
        v.run(exited(class(0x3c), 0)),
        Action::ReadSysReg(SysReg::CntvCtlEl0)
    );
    assert_eq!(v.run(Event::Value(1)), Action::SyncVtimer { unmask: true });
    assert_eq!(v.run(Event::Done), Action::Exit(VcpuExit::Breakpoint));
    enter(&mut v);
    assert_eq!(
        v.run(exited(class(0x3c), 0)),
        Action::Exit(VcpuExit::Breakpoint)
    );
}

#[test]
fn other_exits_are_told_apart() {
    let mut v = vcpu();
    enter(&mut v);
    assert_eq!(
        v.run(Event::Exited {
            reason: 0,
            syndrome: 0,
            physical_address: 0
        }),
        Action::Exit(VcpuExit::Canceled)
    );
    enter(&mut v);
    assert_eq!(
        v.run(Event::Exited {
            reason: 3,
            syndrome: 0,
            physical_address: 0
        }),
        Action::ReadReg(VcpuReg::Pc)
    );
    assert_eq!(
        v.run(Event::Value(0x77)),
        Action::Fail(VcpuFault::ExitReason { reason: 3, pc: 0x77 })
    );
    enter(&mut v);
    assert_eq!(
        v.run(exited(class(0x20), 0)),
        Action::Fail(VcpuFault::Exception(0x20))
    );
    // A secure monitor call is stepped over, a hypervisor call is not.
    enter(&mut v);
    assert_eq!(v.run(exited(class(0x17), 0)), Action::ReadReg(VcpuReg::X(0)));
    assert_eq!(v.run(Event::Value(0x8400_0008)), Action::Exit(VcpuExit::Shutdown));
    enter_past(&mut v, 0x10);
    v.abandon();
    enter(&mut v);
}
