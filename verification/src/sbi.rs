//! The SBI (Supervisor Binary Interface) firmware layer, shared by every
//! embedder of the emulated CPU.
//!
//! With this backend the embedder plays the role of SBI firmware, exactly like
//! KVM-riscv: the guest kernel runs in S-mode and its `ecall`s surface as
//! `VmExit::Ecall { from: PrivMode::S }`.
//!
//! Calling convention (SBI v2.0, binary encoding): extension id in `a7`,
//! function id in `a6`, arguments in `a0..a5`; returns error code in `a0` and
//! value in `a1`.
//!
//! Everything that SBI pins down lives here: constants, request marshalling,
//! hart-mask decoding and the [`dispatch`] tree. What an embedder supplies is
//! the [`SbiHost`] impl: timers, IPIs, remote fences, HSM hart lifecycle,
//! console, shutdown.

use vstd::prelude::*;

use crate::cpu::with_x;
use crate::Cpu;

verus! {

/// riscv64 integer register indices used by the SBI calling convention.
pub const REG_A0: usize = 10;

pub const REG_A1: usize = 11;

pub const REG_A6: usize = 16;

pub const REG_A7: usize = 17;

/// SBI standard error codes (returned in `a0`).
pub const SBI_SUCCESS: i64 = 0;

pub const SBI_ERR_NOT_SUPPORTED: i64 = -2;

pub const SBI_ERR_INVALID_PARAM: i64 = -3;

pub const SBI_ERR_INVALID_ADDRESS: i64 = -5;

pub const SBI_ERR_ALREADY_AVAILABLE: i64 = -6;

/// Extension ids.
pub const EID_BASE: u64 = 0x10;

/// "TIME"
pub const EID_TIME: u64 = 0x5449_4D45;

/// "sPI"
pub const EID_IPI: u64 = 0x0073_5049;

/// "RFNC"
pub const EID_RFENCE: u64 = 0x5246_4E43;

/// "HSM"
pub const EID_HSM: u64 = 0x0048_534D;

/// "SRST"
pub const EID_SRST: u64 = 0x5352_5354;

/// "DBCN"
pub const EID_DBCN: u64 = 0x4442_434E;

/// SBI v0.1 legacy console calls. Only served when the host opts in via
/// [`SbiHost::legacy_console`].
pub const EID_LEGACY_PUTCHAR: u64 = 0x01;

pub const EID_LEGACY_GETCHAR: u64 = 0x02;

/// What legacy getchar leaves in `a0` where there is no character.
pub const LEGACY_NO_CHAR: i64 = -1;

/// Base extension function ids.
pub const BASE_GET_SPEC_VERSION: u64 = 0;

pub const BASE_GET_IMPL_ID: u64 = 1;

pub const BASE_GET_IMPL_VERSION: u64 = 2;

pub const BASE_PROBE_EXTENSION: u64 = 3;

pub const BASE_GET_MVENDORID: u64 = 4;

pub const BASE_GET_MARCHID: u64 = 5;

pub const BASE_GET_MIMPID: u64 = 6;

/// TIME extension function ids.
pub const TIME_SET_TIMER: u64 = 0;

/// IPI extension function ids.
pub const IPI_SEND_IPI: u64 = 0;

/// RFENCE extension function ids. The three supervisor fences differ only in
/// the range/asid arguments a full local flush ignores.
pub const RFENCE_FENCE_I: u64 = 0;

pub const RFENCE_SFENCE_VMA: u64 = 1;

pub const RFENCE_SFENCE_VMA_ASID: u64 = 2;

/// HSM extension function ids.
pub const HSM_HART_START: u64 = 0;

pub const HSM_HART_STOP: u64 = 1;

pub const HSM_HART_GET_STATUS: u64 = 2;

/// SRST extension function ids, and the reset types of `system_reset`.
pub const SRST_SYSTEM_RESET: u64 = 0;

pub const SRST_TYPE_SHUTDOWN: u64 = 0;

pub const SRST_TYPE_COLD_REBOOT: u64 = 1;

pub const SRST_TYPE_WARM_REBOOT: u64 = 2;

/// DBCN extension function ids.
pub const DBCN_CONSOLE_WRITE: u64 = 0;

pub const DBCN_CONSOLE_READ: u64 = 1;

pub const DBCN_CONSOLE_WRITE_BYTE: u64 = 2;

/// SBI version implemented: v2.0, encoded as `minor | (major << 24)`.
pub const SPEC_VERSION: u64 = 0x200_0000;

/// Implementation id: 3 = "KVM". The guest-visible behavior intentionally
/// mirrors the KVM-riscv SBI model (guest enters S-mode directly, the
/// hypervisor is the firmware).
pub const IMPL_ID: u64 = 3;

pub const IMPL_VERSION: u64 = 0;

/// HSM hart states (`hart_get_status` return values).
pub const HSM_STATE_STARTED: u64 = 0;

pub const HSM_STATE_STOPPED: u64 = 1;

pub const HSM_STATE_START_PENDING: u64 = 2;

pub const HSM_STATE_STOP_PENDING: u64 = 3;

/// Per-call cap on DBCN console writes; a partial write is allowed, with the
/// number of bytes actually written returned in `a1`.
pub const DBCN_WRITE_CAP: usize = 4096;

/// A decoded SBI call: `a7`/`a6`/`a0..a5` at the `ecall`.
#[derive(Debug, Clone, Copy)]
pub struct SbiRequest {
    pub eid: u64,
    pub fid: u64,
    pub args: [u64; 6],
}

impl SbiRequest {
    /// Read the calling convention out of a hart's registers.
    pub fn from_cpu(cpu: &Cpu) -> (r: Self)
        ensures
            r.eid == cpu@.x[17],
            r.fid == cpu@.x[16],
            forall|i: int| 0 <= i < 6 ==> #[trigger] r.args@[i] == cpu@.x[10 + i],
    {
        SbiRequest {
            eid: cpu.read_reg(REG_A7),
            fid: cpu.read_reg(REG_A6),
            args: [
                cpu.read_reg(REG_A0),
                cpu.read_reg(REG_A1),
                cpu.read_reg(12),
                cpu.read_reg(13),
                cpu.read_reg(14),
                cpu.read_reg(15),
            ],
        }
    }
}

/// Write the standard SBI return pair back into the calling hart: error code
/// in `a0`, value in `a1`.
pub fn set_return(cpu: &mut Cpu, error: i64, value: u64)
    requires
        old(cpu).wf(),
    ensures
        final(cpu).wf(),
        final(cpu)@ == with_x(with_x(old(cpu)@, 10, error as u64), 11, value),
{
    cpu.set_reg(REG_A0, error as u64);
    cpu.set_reg(REG_A1, value);
}

/// Whether bit `bit` of a hart mask is set.
pub open spec fn selects(mask: u64, bit: int) -> bool {
    mask & (1u64 << (bit as u64)) != 0
}

/// The harts that the low `bits` bits of a mask select, in ascending order.
pub open spec fn harts_below(mask: u64, base: u64, bits: nat) -> Seq<u32>
    decreases bits,
{
    if bits == 0 {
        seq![]
    } else {
        let rest = harts_below(mask, base, (bits - 1) as nat);
        if selects(mask, bits - 1) {
            rest.push((base + bits - 1) as u32)
        } else {
            rest
        }
    }
}

/// The target harts of a mask and its base. A base of -1 selects all harts;
/// otherwise bit `i` selects hart `base + i`, which must exist.
pub open spec fn targets_of(mask: u64, base: u64, nharts: u32) -> Result<Seq<u32>, i64> {
    if base == u64::MAX {
        Ok(Seq::new(nharts as nat, |i: int| i as u32))
    } else if exists|bit: int|
        0 <= bit < 64 && #[trigger] selects(mask, bit) && base + bit >= nharts {
        Err(SBI_ERR_INVALID_PARAM)
    } else {
        Ok(harts_below(mask, base, 64))
    }
}

/// Decode an SBI `hart_mask`/`hart_mask_base` pair into target hart ids.
///
/// `hart_mask_base == -1` selects all harts (and `hart_mask` is ignored);
/// otherwise bit `i` of `hart_mask` selects hart `hart_mask_base + i`.
/// Selecting a hart outside the machine is an `SBI_ERR_INVALID_PARAM`.
pub fn hart_mask_targets(hart_mask: u64, hart_mask_base: u64, nharts: u32) -> (r: Result<
    Vec<u32>,
    i64,
>)
    ensures
        match r {
            Ok(v) => targets_of(hart_mask, hart_mask_base, nharts) == Ok::<Seq<u32>, i64>(v@),
            Err(e) => targets_of(hart_mask, hart_mask_base, nharts) == Err::<Seq<u32>, i64>(e),
        },
{
    let mut targets: Vec<u32> = Vec::new();
    if hart_mask_base == u64::MAX {
        let mut hart: u32 = 0;
        while hart < nharts
            invariant
                hart <= nharts,
                targets@ =~= Seq::new(hart as nat, |i: int| i as u32),
            decreases nharts - hart,
        {
            targets.push(hart);
            hart += 1;
        }
        return Ok(targets);
    }
    let mut bit: u64 = 0;
    while bit < 64
        invariant
            bit <= 64,
            hart_mask_base != u64::MAX,
            targets@ == harts_below(hart_mask, hart_mask_base, bit as nat),
            forall|b: int|
                0 <= b < bit && #[trigger] selects(hart_mask, b) ==> hart_mask_base + b < nharts,
        decreases 64 - bit,
    {
        if hart_mask & (1u64 << bit) != 0 {
            assert(selects(hart_mask, bit as int));
            let hart: u64 = match hart_mask_base.checked_add(bit) {
                Some(hart) => hart,
                None => return Err(SBI_ERR_INVALID_PARAM),
            };
            if hart >= nharts as u64 {
                return Err(SBI_ERR_INVALID_PARAM);
            }
            targets.push(hart as u32);
        }
        bit += 1;
    }
    Ok(targets)
}

/// Every target is a hart of the machine.
pub proof fn targets_exist(mask: u64, base: u64, nharts: u32, i: int)
    requires
        targets_of(mask, base, nharts) is Ok,
        0 <= i < targets_of(mask, base, nharts)->Ok_0.len(),
    ensures
        targets_of(mask, base, nharts)->Ok_0[i] < nharts,
{
    if base != u64::MAX {
        lemma_harts_below(mask, base, nharts, 64, i);
    }
}

proof fn lemma_harts_below(mask: u64, base: u64, nharts: u32, bits: nat, i: int)
    requires
        bits <= 64,
        forall|b: int| 0 <= b < 64 && #[trigger] selects(mask, b) ==> base + b < nharts,
        0 <= i < harts_below(mask, base, bits).len(),
    ensures
        harts_below(mask, base, bits)[i] < nharts,
    decreases bits,
{
    let rest = harts_below(mask, base, (bits - 1) as nat);
    if i < rest.len() {
        lemma_harts_below(mask, base, nharts, (bits - 1) as nat, i);
    }
}

/// The standard SBI return pair: error in `a0`, value in `a1`.
#[derive(Debug, Clone, Copy, PartialEq, Eq, Structural)]
pub struct SbiRet {
    pub error: i64,
    pub value: u64,
}

/// Success with a value.
pub open spec fn ret_ok(value: u64) -> SbiRet {
    SbiRet { error: SBI_SUCCESS, value }
}

/// An error.
pub open spec fn ret_err(error: i64) -> SbiRet {
    SbiRet { error, value: 0 }
}

impl SbiRet {
    pub fn ok(value: u64) -> (r: Self)
        ensures
            r == ret_ok(value),
    {
        SbiRet { error: SBI_SUCCESS, value }
    }

    pub fn err(error: i64) -> (r: Self)
        ensures
            r == ret_err(error),
    {
        SbiRet { error, value: 0 }
    }
}

/// What the caller must do after a dispatched call.
#[derive(Debug, Clone, Copy, PartialEq, Eq, Structural)]
pub enum SbiAction {
    /// Write `a0`/`a1` from the [`SbiRet`] (see [`set_return`]) and continue.
    Return(SbiRet),
    /// SRST system_reset: funnel into the shutdown path. This call does not
    /// return to the guest.
    Shutdown,
    /// HSM hart_stop: park the calling hart. Does not return on success.
    StopHart,
}

/// An effect that a host was asked for.
pub enum SbiEffect {
    SetTimer(u64),
    SendIpi(u32),
    RemoteFence(Seq<u32>),
    /// With the host's answer.
    HartStart { hart: u32, pc: u64, opaque: u64, answer: Result<(), i64> },
    ConsoleWrite(Seq<u8>),
}

/// Host-side effects [`dispatch`] needs. Everything that SBI pins down is
/// handled by the dispatcher; an implementation of this trait supplies only
/// the parts that touch embedder-owned state.
///
/// The contracts below only name things: `effects` is the history of what the
/// host was asked for, `harts` and `serves_legacy` are its configuration, and
/// `reported` and `held` what it answered about a hart and about guest memory.
/// A host that is itself verified says what they are; nothing follows from the
/// bodies given here.
pub trait SbiHost: Sized {
    /// The history of requests for effects.
    open spec fn effects(&self) -> Seq<SbiEffect> {
        Seq::empty()
    }

    /// The number of harts.
    open spec fn harts(&self) -> u32 {
        0
    }

    /// Whether the legacy console is served.
    open spec fn serves_legacy(&self) -> bool {
        false
    }

    /// `status` is an answer to a status request for the hart.
    open spec fn reported(&self, hart: u32, status: u64) -> bool {
        true
    }

    /// `bytes` is an answer to a read of guest memory; None is a refusal.
    open spec fn held(&self, gpa: u64, bytes: Option<Seq<u8>>) -> bool {
        true
    }

    /// Number of harts in the machine.
    fn nharts(&self) -> (r: u32)
        ensures
            r == self.harts(),
    ;

    /// TIME set_timer: program the calling hart's next timer event at
    /// absolute guest time `deadline` (ticks); `u64::MAX` cancels. The
    /// implementation must clear any pending STimer interrupt.
    fn set_timer(&mut self, deadline: u64)
        ensures
            final(self).effects() == old(self).effects().push(SbiEffect::SetTimer(deadline)),
    ;

    /// IPI: make SSIP pending on the target hart.
    fn send_ipi(&mut self, hart: u32)
        ensures
            final(self).effects() == old(self).effects().push(SbiEffect::SendIpi(hart)),
    ;

    /// RFENCE: execute a remote fence on every target hart and do not return
    /// until each has completed it (correctness-over-speed: any of fence.i /
    /// sfence.vma / sfence.vma+asid is served as a full local flush).
    fn remote_fence(&mut self, targets: &[u32])
        ensures
            final(self).effects() == old(self).effects().push(SbiEffect::RemoteFence(targets@)),
    ;

    /// HSM hart_start: release `hart` at `pc` with `a1 = opaque`. `hart` is
    /// already known to be in range. Errors with an SBI error code (already
    /// started / invalid address).
    fn hart_start(&mut self, hart: u32, pc: u64, opaque: u64) -> (r: Result<(), i64>)
        requires
            hart < old(self).harts(),
        ensures
            final(self).effects() == old(self).effects().push(
                (SbiEffect::HartStart { hart, pc, opaque, answer: r }),
            ),
    ;

    /// HSM hart_get_status for `hart` (one of the `HSM_STATE_*` values).
    /// `hart` is already known to be in range.
    fn hart_status(&self, hart: u32) -> (r: u64)
        requires
            hart < self.harts(),
        ensures
            self.reported(hart, r),
    ;

    /// DBCN (and legacy putchar): sink console bytes.
    fn console_write(&mut self, bytes: &[u8])
        ensures
            final(self).effects() == old(self).effects().push(SbiEffect::ConsoleWrite(bytes@)),
    ;

    /// Copy guest-physical memory into `buf`; false if out of bounds.
    fn guest_read(&self, gpa: u64, buf: &mut [u8]) -> (r: bool)
        ensures
            final(buf)@.len() == old(buf)@.len(),
            r ==> self.held(gpa, Some(final(buf)@)),
            !r ==> self.held(gpa, None),
    ;

    /// Whether to serve the SBI v0.1 legacy console calls. Off by default:
    /// probing them is how a guest decides to use them, so an embedder with a
    /// real console should not advertise them.
    fn legacy_console(&self) -> (r: bool)
        ensures
            r == self.serves_legacy(),
    ;
}

/// The IPIs to the targets, in order.
pub open spec fn ipis(targets: Seq<u32>) -> Seq<SbiEffect> {
    Seq::new(targets.len(), |i: int| SbiEffect::SendIpi(targets[i]))
}

/// The extensions that a probe finds.
pub open spec fn provides(eid: u64, legacy: bool) -> bool {
    ||| eid == EID_BASE
    ||| eid == EID_TIME
    ||| eid == EID_IPI
    ||| eid == EID_RFENCE
    ||| eid == EID_HSM
    ||| eid == EID_SRST
    ||| eid == EID_DBCN
    ||| legacy && (eid == EID_LEGACY_PUTCHAR || eid == EID_LEGACY_GETCHAR)
}

/// The base extension.
pub open spec fn base_of(fid: u64, arg: u64, legacy: bool) -> SbiRet {
    if fid == BASE_GET_SPEC_VERSION {
        ret_ok(SPEC_VERSION)
    } else if fid == BASE_GET_IMPL_ID {
        ret_ok(IMPL_ID)
    } else if fid == BASE_GET_IMPL_VERSION {
        ret_ok(IMPL_VERSION)
    } else if fid == BASE_PROBE_EXTENSION {
        ret_ok(
            if provides(arg, legacy) {
                1
            } else {
                0
            },
        )
    } else if fid == BASE_GET_MVENDORID || fid == BASE_GET_MARCHID || fid == BASE_GET_MIMPID {
        // No M-mode below the guest: mvendorid/marchid/mimpid all read 0.
        ret_ok(0)
    } else {
        ret_err(SBI_ERR_NOT_SUPPORTED)
    }
}

/// `action` answers the call and `more` is what the host was asked for
/// meanwhile, in order.
pub open spec fn serves<H: SbiHost>(
    host: H,
    call: SbiRequest,
    action: SbiAction,
    more: Seq<SbiEffect>,
) -> bool {
    let a = call.args@;
    let (eid, fid) = (call.eid, call.fid);
    let unsupported = SbiAction::Return(ret_err(SBI_ERR_NOT_SUPPORTED));
    let invalid = SbiAction::Return(ret_err(SBI_ERR_INVALID_PARAM));
    let done = SbiAction::Return(ret_ok(0));
    let nothing = Seq::<SbiEffect>::empty();
    if eid == EID_BASE {
        action == SbiAction::Return(base_of(fid, a[0], host.serves_legacy())) && more == nothing
    } else if eid == EID_TIME && fid == TIME_SET_TIMER {
        action == done && more == seq![SbiEffect::SetTimer(a[0])]
    } else if eid == EID_IPI && fid == IPI_SEND_IPI {
        match targets_of(a[0], a[1], host.harts()) {
            Ok(targets) => action == done && more == ipis(targets),
            Err(e) => action == SbiAction::Return(ret_err(e)) && more == nothing,
        }
    } else if eid == EID_RFENCE && fid <= RFENCE_SFENCE_VMA_ASID {
        // All served as full remote flushes; the range/asid arguments are
        // accepted and ignored.
        match targets_of(a[0], a[1], host.harts()) {
            Ok(targets) => action == done && more == seq![SbiEffect::RemoteFence(targets)],
            Err(e) => action == SbiAction::Return(ret_err(e)) && more == nothing,
        }
    } else if eid == EID_HSM && fid == HSM_HART_START {
        if a[0] < host.harts() {
            exists|answer: Result<(), i64>|
                #![trigger answer is Ok]
                {
                    &&& more == seq![
                        SbiEffect::HartStart { hart: a[0] as u32, pc: a[1], opaque: a[2], answer },
                    ]
                    &&& action == (match answer {
                        Ok(_) => done,
                        Err(e) => SbiAction::Return(ret_err(e)),
                    })
                }
        } else {
            action == invalid && more == nothing
        }
    } else if eid == EID_HSM && fid == HSM_HART_STOP {
        action == SbiAction::StopHart && more == nothing
    } else if eid == EID_HSM && fid == HSM_HART_GET_STATUS {
        &&& more == nothing
        &&& if a[0] < host.harts() {
            exists|status: u64| #[trigger]
                host.reported(a[0] as u32, status) && action == SbiAction::Return(ret_ok(status))
        } else {
            action == invalid
        }
    } else if eid == EID_SRST && fid == SRST_SYSTEM_RESET && a[0] <= SRST_TYPE_WARM_REBOOT {
        // Shutdown, cold and warm reboot all funnel into the same shutdown.
        action == SbiAction::Shutdown && more == nothing
    } else if eid == EID_DBCN && fid == DBCN_CONSOLE_WRITE {
        if a[2] != 0 {
            // RV64: the physical address is entirely in the lo half.
            action == invalid && more == nothing
        } else {
            written_from_guest(host, a[0], a[1], action, more)
        }
    } else if eid == EID_DBCN && fid == DBCN_CONSOLE_READ {
        // No input source; report zero bytes read.
        action == done && more == nothing
    } else if (eid == EID_DBCN && fid == DBCN_CONSOLE_WRITE_BYTE) || (eid == EID_LEGACY_PUTCHAR
        && host.serves_legacy()) {
        action == done && more == seq![SbiEffect::ConsoleWrite(seq![a[0] as u8])]
    } else if eid == EID_LEGACY_GETCHAR && host.serves_legacy() {
        // Legacy getchar returns the character in a0; -1 means "none".
        action == SbiAction::Return(SbiRet { error: LEGACY_NO_CHAR, value: 0 }) && more == nothing
    } else {
        action == unsupported && more == nothing
    }
}

/// A console write: the bytes that the host read, at most a capful of them.
pub open spec fn written_from_guest<H: SbiHost>(
    host: H,
    num: u64,
    gpa: u64,
    action: SbiAction,
    more: Seq<SbiEffect>,
) -> bool {
    let len = if num < DBCN_WRITE_CAP {
        num
    } else {
        DBCN_WRITE_CAP as u64
    };
    exists|answer: Option<Seq<u8>>| #[trigger]
        host.held(gpa, answer) && match answer {
            Some(bytes) => bytes.len() == len && action == SbiAction::Return(ret_ok(len)) && more
                == seq![SbiEffect::ConsoleWrite(bytes)],
            None => action == SbiAction::Return(ret_err(SBI_ERR_INVALID_ADDRESS)) && more
                == Seq::<SbiEffect>::empty(),
        }
}

/// Dispatch one SBI call against `host`, which is left as it was where nothing
/// is asked of it.
pub fn dispatch<H: SbiHost>(host: &mut H, call: &SbiRequest) -> (r: SbiAction)
    ensures
        exists|more: Seq<SbiEffect>| #[trigger]
            serves(*old(host), *call, r, more) && final(host).effects() == old(host).effects()
                + more && (more.len() == 0 ==> *final(host) == *old(host)),
{
    let ghost before = *host;
    let ghost nothing = Seq::<SbiEffect>::empty();
    assert(before.effects() + nothing =~= before.effects());
    assert(forall|e: SbiEffect| before.effects() + seq![e] =~= before.effects().push(e));
    let unsupported = SbiAction::Return(SbiRet::err(SBI_ERR_NOT_SUPPORTED));
    let done = SbiAction::Return(SbiRet::ok(0));
    let a: [u64; 6] = call.args;
    let eid: u64 = call.eid;
    let fid: u64 = call.fid;
    if eid == EID_BASE {
        let r = SbiAction::Return(base(host, call));
        assert(serves(before, *call, r, nothing));
        r
    } else if eid == EID_TIME && fid == TIME_SET_TIMER {
        host.set_timer(a[0]);
        assert(serves(before, *call, done, seq![SbiEffect::SetTimer(a[0])]));
        done
    } else if eid == EID_IPI && fid == IPI_SEND_IPI {
        dispatch_ipi(host, call)
    } else if eid == EID_RFENCE && fid <= RFENCE_SFENCE_VMA_ASID {
        match hart_mask_targets(a[0], a[1], host.nharts()) {
            Ok(targets) => {
                host.remote_fence(targets.as_slice());
                assert(serves(before, *call, done, seq![SbiEffect::RemoteFence(targets@)]));
                done
            },
            Err(e) => {
                let r = SbiAction::Return(SbiRet::err(e));
                assert(serves(before, *call, r, nothing));
                r
            },
        }
    } else if eid == EID_HSM {
        dispatch_hsm(host, call)
    } else if eid == EID_SRST && fid == SRST_SYSTEM_RESET && a[0] <= SRST_TYPE_WARM_REBOOT {
        assert(serves(before, *call, SbiAction::Shutdown, nothing));
        SbiAction::Shutdown
    } else if eid == EID_DBCN {
        dispatch_dbcn(host, call)
    } else if eid == EID_LEGACY_PUTCHAR && host.legacy_console() {
        put_byte(host, call);
        assert(serves(before, *call, done, seq![SbiEffect::ConsoleWrite(seq![a[0] as u8])]));
        done
    } else if eid == EID_LEGACY_GETCHAR && host.legacy_console() {
        let r = SbiAction::Return(SbiRet { error: LEGACY_NO_CHAR, value: 0 });
        assert(serves(before, *call, r, nothing));
        r
    } else {
        assert(serves(before, *call, unsupported, nothing));
        unsupported
    }
}

/// One console byte.
fn put_byte<H: SbiHost>(host: &mut H, call: &SbiRequest)
    ensures
        final(host).effects() == old(host).effects() + seq![
            SbiEffect::ConsoleWrite(seq![call.args@[0] as u8]),
        ],
{
    let bytes: [u8; 1] = [call.args[0] as u8];
    host.console_write(bytes.as_slice());
    assert(bytes@ =~= seq![call.args@[0] as u8]);
    assert(host.effects() =~= old(host).effects() + seq![SbiEffect::ConsoleWrite(bytes@)]);
}

fn dispatch_ipi<H: SbiHost>(host: &mut H, call: &SbiRequest) -> (r: SbiAction)
    requires
        call.eid == EID_IPI,
        call.fid == IPI_SEND_IPI,
    ensures
        exists|more: Seq<SbiEffect>| #[trigger]
            serves(*old(host), *call, r, more) && final(host).effects() == old(host).effects()
                + more && (more.len() == 0 ==> *final(host) == *old(host)),
{
    let ghost before = *host;
    match hart_mask_targets(call.args[0], call.args[1], host.nharts()) {
        Ok(targets) => {
            let ghost all = ipis(targets@);
            let mut i: usize = 0;
            assert(before.effects() + all.take(0) =~= before.effects());
            while i < targets.len()
                invariant
                    i <= targets@.len(),
                    all == ipis(targets@),
                    host.effects() == before.effects() + all.take(i as int),
                    i == 0 ==> *host == before,
                decreases targets@.len() - i,
            {
                host.send_ipi(targets[i]);
                assert(all.take(i as int + 1) =~= all.take(i as int).push(all[i as int]));
                assert(before.effects() + all.take(i as int + 1) =~= (before.effects()
                    + all.take(i as int)).push(all[i as int]));
                i += 1;
            }
            assert(all.take(targets@.len() as int) =~= all);
            let r = SbiAction::Return(SbiRet::ok(0));
            assert(serves(before, *call, r, all));
            r
        },
        Err(e) => {
            let r = SbiAction::Return(SbiRet::err(e));
            assert(before.effects() + Seq::<SbiEffect>::empty() =~= before.effects());
            assert(serves(before, *call, r, Seq::<SbiEffect>::empty()));
            r
        },
    }
}

fn dispatch_hsm<H: SbiHost>(host: &mut H, call: &SbiRequest) -> (r: SbiAction)
    requires
        call.eid == EID_HSM,
    ensures
        exists|more: Seq<SbiEffect>| #[trigger]
            serves(*old(host), *call, r, more) && final(host).effects() == old(host).effects()
                + more && (more.len() == 0 ==> *final(host) == *old(host)),
{
    let ghost before = *host;
    let ghost nothing = Seq::<SbiEffect>::empty();
    assert(before.effects() + nothing =~= before.effects());
    let a: [u64; 6] = call.args;
    if call.fid == HSM_HART_START {
        match in_range(host, a[0]) {
            Some(hart) => {
                let answer = host.hart_start(hart, a[1], a[2]);
                let ghost more = seq![
                    SbiEffect::HartStart { hart, pc: a[1], opaque: a[2], answer },
                ];
                assert(host.effects() =~= before.effects() + more);
                let r = match answer {
                    Ok(_) => SbiAction::Return(SbiRet::ok(0)),
                    Err(e) => SbiAction::Return(SbiRet::err(e)),
                };
                proof {
                    let witness = answer is Ok;
                }
                assert(serves(before, *call, r, more));
                r
            },
            None => {
                let r = SbiAction::Return(SbiRet::err(SBI_ERR_INVALID_PARAM));
                assert(serves(before, *call, r, nothing));
                r
            },
        }
    } else if call.fid == HSM_HART_STOP {
        // Does not return on success.
        assert(serves(before, *call, SbiAction::StopHart, nothing));
        SbiAction::StopHart
    } else if call.fid == HSM_HART_GET_STATUS {
        let r = match in_range(host, a[0]) {
            Some(hart) => SbiAction::Return(SbiRet::ok(host.hart_status(hart))),
            None => SbiAction::Return(SbiRet::err(SBI_ERR_INVALID_PARAM)),
        };
        assert(serves(before, *call, r, nothing));
        r
    } else {
        // hart_suspend and friends: not supported (the guest falls back to
        // plain WFI idling).
        let r = SbiAction::Return(SbiRet::err(SBI_ERR_NOT_SUPPORTED));
        assert(serves(before, *call, r, nothing));
        r
    }
}

fn dispatch_dbcn<H: SbiHost>(host: &mut H, call: &SbiRequest) -> (r: SbiAction)
    requires
        call.eid == EID_DBCN,
    ensures
        exists|more: Seq<SbiEffect>| #[trigger]
            serves(*old(host), *call, r, more) && final(host).effects() == old(host).effects()
                + more && (more.len() == 0 ==> *final(host) == *old(host)),
{
    let ghost before = *host;
    let ghost nothing = Seq::<SbiEffect>::empty();
    assert(before.effects() + nothing =~= before.effects());
    let a: [u64; 6] = call.args;
    if call.fid == DBCN_CONSOLE_WRITE {
        // console_write(num_bytes, base_addr_lo, base_addr_hi). The address is
        // guest-physical (Linux passes `__pa(buf)`).
        if a[2] != 0 {
            let r = SbiAction::Return(SbiRet::err(SBI_ERR_INVALID_PARAM));
            assert(serves(before, *call, r, nothing));
            return r;
        }
        let len: usize = if a[0] < DBCN_WRITE_CAP as u64 {
            a[0] as usize
        } else {
            DBCN_WRITE_CAP
        };
        let mut buf: Vec<u8> = vec![0u8; len];
        if host.guest_read(a[1], buf.as_mut_slice()) {
            host.console_write(buf.as_slice());
            let r = SbiAction::Return(SbiRet::ok(len as u64));
            let ghost more = seq![SbiEffect::ConsoleWrite(buf@)];
            assert(host.effects() =~= before.effects() + more);
            assert(before.held(a[1], Some(buf@)));
            assert(serves(before, *call, r, more));
            r
        } else {
            let r = SbiAction::Return(SbiRet::err(SBI_ERR_INVALID_ADDRESS));
            assert(before.held(a[1], None));
            assert(serves(before, *call, r, nothing));
            r
        }
    } else if call.fid == DBCN_CONSOLE_READ {
        let r = SbiAction::Return(SbiRet::ok(0));
        assert(serves(before, *call, r, nothing));
        r
    } else if call.fid == DBCN_CONSOLE_WRITE_BYTE {
        put_byte(host, call);
        let r = SbiAction::Return(SbiRet::ok(0));
        assert(serves(before, *call, r, seq![SbiEffect::ConsoleWrite(seq![a[0] as u8])]));
        r
    } else {
        let r = SbiAction::Return(SbiRet::err(SBI_ERR_NOT_SUPPORTED));
        assert(serves(before, *call, r, nothing));
        r
    }
}

/// `hart` as a valid hart id for `host`, or `None` if out of range.
fn in_range<H: SbiHost>(host: &H, hart: u64) -> (r: Option<u32>)
    ensures
        r == (if hart < host.harts() {
            Some(hart as u32)
        } else {
            None
        }),
{
    if hart < host.nharts() as u64 {
        Some(hart as u32)
    } else {
        None
    }
}

fn base<H: SbiHost>(host: &H, call: &SbiRequest) -> (r: SbiRet)
    ensures
        r == base_of(call.fid, call.args@[0], host.serves_legacy()),
{
    let fid: u64 = call.fid;
    let arg: u64 = call.args[0];
    if fid == BASE_GET_SPEC_VERSION {
        SbiRet::ok(SPEC_VERSION)
    } else if fid == BASE_GET_IMPL_ID {
        SbiRet::ok(IMPL_ID)
    } else if fid == BASE_GET_IMPL_VERSION {
        SbiRet::ok(IMPL_VERSION)
    } else if fid == BASE_PROBE_EXTENSION {
        let known: bool = if arg == EID_LEGACY_PUTCHAR || arg == EID_LEGACY_GETCHAR {
            host.legacy_console()
        } else {
            arg == EID_BASE || arg == EID_TIME || arg == EID_IPI || arg == EID_RFENCE || arg
                == EID_HSM || arg == EID_SRST || arg == EID_DBCN
        };
        SbiRet::ok(
            if known {
                1
            } else {
                0
            },
        )
    } else if fid == BASE_GET_MVENDORID || fid == BASE_GET_MARCHID || fid == BASE_GET_MIMPID {
        // No M-mode below the guest: mvendorid/marchid/mimpid all read 0.
        SbiRet::ok(0)
    } else {
        SbiRet::err(SBI_ERR_NOT_SUPPORTED)
    }
}

/// The v0.1 console is opt-in: a host that does not want it neither serves it
/// nor advertises it.
pub proof fn legacy_console_is_opt_in<H: SbiHost>(
    host: H,
    call: SbiRequest,
    action: SbiAction,
    more: Seq<SbiEffect>,
)
    requires
        !host.serves_legacy(),
        serves(host, call, action, more),
    ensures
        call.eid == EID_LEGACY_PUTCHAR || call.eid == EID_LEGACY_GETCHAR ==> action
            == SbiAction::Return(ret_err(SBI_ERR_NOT_SUPPORTED)) && more.len() == 0,
        !provides(EID_LEGACY_PUTCHAR, host.serves_legacy()),
        !provides(EID_LEGACY_GETCHAR, host.serves_legacy()),
{
}

/// A hart that does not exist is never named to the host.
pub proof fn effects_name_existing_harts<H: SbiHost>(
    host: H,
    call: SbiRequest,
    action: SbiAction,
    more: Seq<SbiEffect>,
    i: int,
)
    requires
        serves(host, call, action, more),
        0 <= i < more.len(),
    ensures
        match more[i] {
            SbiEffect::SendIpi(hart) => hart < host.harts(),
            SbiEffect::HartStart { hart, .. } => hart < host.harts(),
            SbiEffect::RemoteFence(targets) => forall|k: int|
                0 <= k < targets.len() ==> #[trigger] targets[k] < host.harts(),
            _ => true,
        },
{
    let a = call.args@;
    if (call.eid == EID_IPI || call.eid == EID_RFENCE) && targets_of(a[0], a[1], host.harts())
        is Ok {
        let t = targets_of(a[0], a[1], host.harts())->Ok_0;
        assert forall|k: int| 0 <= k < t.len() implies #[trigger] t[k] < host.harts() by {
            targets_exist(a[0], a[1], host.harts(), k);
        }
    }
}

} // verus!
