use krun::sbi::{
    dispatch, hart_mask_targets, set_return, SbiAction, SbiHost, SbiRequest, SbiRet, EID_BASE,
    EID_DBCN, EID_HSM, EID_IPI, EID_LEGACY_GETCHAR, EID_LEGACY_PUTCHAR, EID_RFENCE, EID_SRST,
    EID_TIME, HSM_HART_START, HSM_STATE_STARTED, HSM_STATE_STOPPED, IMPL_ID, REG_A0, REG_A1,
    REG_A6, REG_A7, SBI_ERR_ALREADY_AVAILABLE, SBI_ERR_INVALID_ADDRESS, SBI_ERR_INVALID_PARAM,
    SBI_ERR_NOT_SUPPORTED, SBI_SUCCESS,
};
use krun::{Clock, Cpu, GuestRam};

fn cpu() -> Cpu {
    Cpu::new(
        0,
        GuestRam::new_owned(0, 4096),
        Clock::Deterministic { shift: 0 },
    )
}

#[test]
fn request_marshalling() {
    let mut cpu = cpu();
    cpu.set_reg(REG_A7, EID_HSM);
    cpu.set_reg(REG_A6, HSM_HART_START);
    for (i, r) in [REG_A0, REG_A1, 12, 13, 14, 15].into_iter().enumerate() {
        cpu.set_reg(r, 0x100 + i as u64);
    }
    let req = SbiRequest::from_cpu(&cpu);
    assert_eq!(req.eid, EID_HSM);
    assert_eq!(req.fid, HSM_HART_START);
    assert_eq!(req.args, [0x100, 0x101, 0x102, 0x103, 0x104, 0x105]);

    // The return pair lands in a0/a1, error sign-extended.
    set_return(&mut cpu, SBI_ERR_INVALID_PARAM, 42);
    assert_eq!(cpu.read_reg(REG_A0), SBI_ERR_INVALID_PARAM as u64);
    assert_eq!(cpu.read_reg(REG_A1), 42);
    set_return(&mut cpu, SBI_SUCCESS, 0);
    assert_eq!(cpu.read_reg(REG_A0), 0);
    assert_eq!(cpu.read_reg(REG_A1), 0);
}

#[test]
fn hart_mask_decoding() {
    // base = -1: all harts, mask ignored.
    assert_eq!(hart_mask_targets(0, u64::MAX, 4).unwrap(), vec![0, 1, 2, 3]);
    // bit i selects base + i.
    assert_eq!(hart_mask_targets(0b101, 1, 4).unwrap(), vec![1, 3]);
    assert_eq!(hart_mask_targets(0b1, 0, 4).unwrap(), vec![0]);
    // empty mask selects nothing.
    assert_eq!(hart_mask_targets(0, 0, 4).unwrap(), Vec::<u32>::new());
    // out-of-range hart.
    assert_eq!(
        hart_mask_targets(0b1, 4, 4).unwrap_err(),
        SBI_ERR_INVALID_PARAM
    );
    // base + bit overflow.
    assert_eq!(
        hart_mask_targets(1 << 63, u64::MAX - 1, 4).unwrap_err(),
        SBI_ERR_INVALID_PARAM
    );
}

/// Records every effect so the dispatch tree can be tested without a
/// machine behind it.
#[derive(Default)]
struct MockHost {
    nharts: u32,
    legacy: bool,
    timer: Option<u64>,
    ipis: Vec<u32>,
    fences: Vec<Vec<u32>>,
    started: Vec<(u32, u64, u64)>,
    console: Vec<u8>,
    guest_mem: Vec<u8>, // guest memory at gpa 0x1000
}

impl SbiHost for MockHost {
    fn nharts(&self) -> u32 {
        self.nharts
    }
    fn set_timer(&mut self, deadline: u64) {
        self.timer = Some(deadline);
    }
    fn send_ipi(&mut self, hart: u32) {
        self.ipis.push(hart);
    }
    fn remote_fence(&mut self, targets: &[u32]) {
        self.fences.push(targets.to_vec());
    }
    fn hart_start(&mut self, hart: u32, pc: u64, opaque: u64) -> Result<(), i64> {
        if self.started.iter().any(|&(h, _, _)| h == hart) {
            return Err(SBI_ERR_ALREADY_AVAILABLE);
        }
        self.started.push((hart, pc, opaque));
        Ok(())
    }
    fn hart_status(&self, hart: u32) -> u64 {
        if self.started.iter().any(|&(h, _, _)| h == hart) {
            HSM_STATE_STARTED
        } else {
            HSM_STATE_STOPPED
        }
    }
    fn console_write(&mut self, bytes: &[u8]) {
        self.console.extend_from_slice(bytes);
    }
    fn guest_read(&self, gpa: u64, buf: &mut [u8]) -> bool {
        let Some(off) = gpa.checked_sub(0x1000) else {
            return false;
        };
        let off = off as usize;
        if off + buf.len() > self.guest_mem.len() {
            return false;
        }
        buf.copy_from_slice(&self.guest_mem[off..off + buf.len()]);
        true
    }
    fn legacy_console(&self) -> bool {
        self.legacy
    }
}

fn call(eid: u64, fid: u64, args: [u64; 6]) -> SbiRequest {
    SbiRequest { eid, fid, args }
}

fn host() -> MockHost {
    MockHost {
        nharts: 4,
        ..Default::default()
    }
}

#[test]
fn base_extension() {
    let mut h = host();
    assert_eq!(
        dispatch(&mut h, &call(EID_BASE, 0, [0; 6])),
        SbiAction::Return(SbiRet::ok(2 << 24))
    );
    assert_eq!(
        dispatch(&mut h, &call(EID_BASE, 1, [0; 6])),
        SbiAction::Return(SbiRet::ok(IMPL_ID))
    );
    // probe: supported extensions answer 1, others 0.
    for eid in [EID_TIME, EID_IPI, EID_RFENCE, EID_HSM, EID_SRST, EID_DBCN] {
        assert_eq!(
            dispatch(&mut h, &call(EID_BASE, 3, [eid, 0, 0, 0, 0, 0])),
            SbiAction::Return(SbiRet::ok(1))
        );
    }
    assert_eq!(
        dispatch(&mut h, &call(EID_BASE, 3, [0xdead, 0, 0, 0, 0, 0])),
        SbiAction::Return(SbiRet::ok(0))
    );
    // mvendorid/marchid/mimpid are 0.
    for fid in 4..=6 {
        assert_eq!(
            dispatch(&mut h, &call(EID_BASE, fid, [0; 6])),
            SbiAction::Return(SbiRet::ok(0))
        );
    }
}

#[test]
fn unknown_extension_and_fid() {
    let mut h = host();
    assert_eq!(
        dispatch(&mut h, &call(0x0abcdef0, 0, [0; 6])),
        SbiAction::Return(SbiRet::err(SBI_ERR_NOT_SUPPORTED))
    );
    assert_eq!(
        dispatch(&mut h, &call(EID_TIME, 7, [0; 6])),
        SbiAction::Return(SbiRet::err(SBI_ERR_NOT_SUPPORTED))
    );
}

#[test]
fn time_set_timer() {
    let mut h = host();
    assert_eq!(
        dispatch(&mut h, &call(EID_TIME, 0, [12345, 0, 0, 0, 0, 0])),
        SbiAction::Return(SbiRet::ok(0))
    );
    assert_eq!(h.timer, Some(12345));
    // u64::MAX (cancel) is passed through to the host.
    dispatch(&mut h, &call(EID_TIME, 0, [u64::MAX, 0, 0, 0, 0, 0]));
    assert_eq!(h.timer, Some(u64::MAX));
}

#[test]
fn ipi_send() {
    let mut h = host();
    assert_eq!(
        dispatch(&mut h, &call(EID_IPI, 0, [0b110, 0, 0, 0, 0, 0])),
        SbiAction::Return(SbiRet::ok(0))
    );
    assert_eq!(h.ipis, vec![1, 2]);
    // all-harts shorthand
    h.ipis.clear();
    dispatch(&mut h, &call(EID_IPI, 0, [0, u64::MAX, 0, 0, 0, 0]));
    assert_eq!(h.ipis, vec![0, 1, 2, 3]);
    // invalid mask
    assert_eq!(
        dispatch(&mut h, &call(EID_IPI, 0, [0b1, 9, 0, 0, 0, 0])),
        SbiAction::Return(SbiRet::err(SBI_ERR_INVALID_PARAM))
    );
}

#[test]
fn rfence_variants() {
    let mut h = host();
    for fid in 0..=2 {
        assert_eq!(
            dispatch(&mut h, &call(EID_RFENCE, fid, [0b11, 0, 0, 0x1000, 0, 0])),
            SbiAction::Return(SbiRet::ok(0))
        );
    }
    assert_eq!(h.fences, vec![vec![0, 1]; 3]);
    // hfence variants unsupported
    assert_eq!(
        dispatch(&mut h, &call(EID_RFENCE, 3, [0b1, 0, 0, 0, 0, 0])),
        SbiAction::Return(SbiRet::err(SBI_ERR_NOT_SUPPORTED))
    );
}

#[test]
fn hsm_lifecycle() {
    let mut h = host();
    assert_eq!(
        dispatch(&mut h, &call(EID_HSM, 0, [2, 0x8020_0000, 0xfd7, 0, 0, 0])),
        SbiAction::Return(SbiRet::ok(0))
    );
    assert_eq!(h.started, vec![(2, 0x8020_0000, 0xfd7)]);
    // double-start reports ALREADY_AVAILABLE
    assert_eq!(
        dispatch(&mut h, &call(EID_HSM, 0, [2, 0x8020_0000, 0, 0, 0, 0])),
        SbiAction::Return(SbiRet::err(SBI_ERR_ALREADY_AVAILABLE))
    );
    // invalid hartid
    assert_eq!(
        dispatch(&mut h, &call(EID_HSM, 0, [4, 0, 0, 0, 0, 0])),
        SbiAction::Return(SbiRet::err(SBI_ERR_INVALID_PARAM))
    );
    // status
    assert_eq!(
        dispatch(&mut h, &call(EID_HSM, 2, [2, 0, 0, 0, 0, 0])),
        SbiAction::Return(SbiRet::ok(HSM_STATE_STARTED))
    );
    assert_eq!(
        dispatch(&mut h, &call(EID_HSM, 2, [1, 0, 0, 0, 0, 0])),
        SbiAction::Return(SbiRet::ok(HSM_STATE_STOPPED))
    );
    assert_eq!(
        dispatch(&mut h, &call(EID_HSM, 2, [4, 0, 0, 0, 0, 0])),
        SbiAction::Return(SbiRet::err(SBI_ERR_INVALID_PARAM))
    );
    // stop parks the calling hart
    assert_eq!(
        dispatch(&mut h, &call(EID_HSM, 1, [0; 6])),
        SbiAction::StopHart
    );
    // suspend unsupported
    assert_eq!(
        dispatch(&mut h, &call(EID_HSM, 3, [0; 6])),
        SbiAction::Return(SbiRet::err(SBI_ERR_NOT_SUPPORTED))
    );
}

#[test]
fn srst_shutdown() {
    let mut h = host();
    for ty in 0..=2 {
        assert_eq!(
            dispatch(&mut h, &call(EID_SRST, 0, [ty, 0, 0, 0, 0, 0])),
            SbiAction::Shutdown
        );
    }
    assert_eq!(
        dispatch(&mut h, &call(EID_SRST, 0, [3, 0, 0, 0, 0, 0])),
        SbiAction::Return(SbiRet::err(SBI_ERR_NOT_SUPPORTED))
    );
}

#[test]
fn dbcn_console() {
    let mut h = host();
    h.guest_mem = b"hello, sbi".to_vec();
    // write 5 bytes from gpa 0x1000
    assert_eq!(
        dispatch(&mut h, &call(EID_DBCN, 0, [5, 0x1000, 0, 0, 0, 0])),
        SbiAction::Return(SbiRet::ok(5))
    );
    assert_eq!(h.console, b"hello");
    // non-zero hi half is invalid on RV64
    assert_eq!(
        dispatch(&mut h, &call(EID_DBCN, 0, [1, 0x1000, 1, 0, 0, 0])),
        SbiAction::Return(SbiRet::err(SBI_ERR_INVALID_PARAM))
    );
    // out-of-bounds address
    assert_eq!(
        dispatch(&mut h, &call(EID_DBCN, 0, [4, 0x10_0000, 0, 0, 0, 0])),
        SbiAction::Return(SbiRet::err(SBI_ERR_INVALID_ADDRESS))
    );
    // write_byte
    h.console.clear();
    assert_eq!(
        dispatch(&mut h, &call(EID_DBCN, 2, [u64::from(b'X'), 0, 0, 0, 0, 0])),
        SbiAction::Return(SbiRet::ok(0))
    );
    assert_eq!(h.console, b"X");
    // console_read: zero bytes available
    assert_eq!(
        dispatch(&mut h, &call(EID_DBCN, 1, [4, 0x1000, 0, 0, 0, 0])),
        SbiAction::Return(SbiRet::ok(0))
    );
}

/// The v0.1 console is opt-in: a host that does not want it must neither
/// serve it nor advertise it, or the guest will pick it up from the probe.
#[test]
fn legacy_console_is_opt_in() {
    let mut h = host();
    for eid in [EID_LEGACY_PUTCHAR, EID_LEGACY_GETCHAR] {
        assert_eq!(
            dispatch(&mut h, &call(EID_BASE, 3, [eid, 0, 0, 0, 0, 0])),
            SbiAction::Return(SbiRet::ok(0))
        );
        assert_eq!(
            dispatch(&mut h, &call(eid, 0, [u64::from(b'Z'), 0, 0, 0, 0, 0])),
            SbiAction::Return(SbiRet::err(SBI_ERR_NOT_SUPPORTED))
        );
    }
    assert!(h.console.is_empty());

    h.legacy = true;
    for eid in [EID_LEGACY_PUTCHAR, EID_LEGACY_GETCHAR] {
        assert_eq!(
            dispatch(&mut h, &call(EID_BASE, 3, [eid, 0, 0, 0, 0, 0])),
            SbiAction::Return(SbiRet::ok(1))
        );
    }
    assert_eq!(
        dispatch(&mut h, &call(EID_LEGACY_PUTCHAR, 0, [u64::from(b'Z'); 6])),
        SbiAction::Return(SbiRet::ok(0))
    );
    assert_eq!(h.console, b"Z");
    // getchar has no input source: -1 in a0 means "none".
    assert_eq!(
        dispatch(&mut h, &call(EID_LEGACY_GETCHAR, 0, [0; 6])),
        SbiAction::Return(SbiRet {
            error: -1,
            value: 0
        })
    );
}
