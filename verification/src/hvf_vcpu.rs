//! The run loop of an aarch64 vCPU under the macOS hypervisor, as a state
//! machine: the embedder performs each [`Action`] and hands back the [`Event`]
//! that answers it, until the machine exits.

use vstd::prelude::*;

use crate::hvf::HvfVcpuState;
use crate::mem::{le_bytes, le_value};
use crate::text::{hex, hex_of, join2, join3};

verus! {

pub const HV_EXIT_REASON_CANCELED: u32 = 0;

pub const HV_EXIT_REASON_EXCEPTION: u32 = 1;

pub const HV_EXIT_REASON_VTIMER_ACTIVATED: u32 = 2;

/// Processor state at entry: EL1h, or EL2h with nested virtualization, with
/// debug, SError, IRQ and FIQ masked.
pub const PSTATE_EL1_FAULT_BITS_64: u64 = 0x3c5;

pub const PSTATE_EL2_FAULT_BITS_64: u64 = 0x3c9;

/// The bits of HCR_EL2 that KVM uses in vcpu reset: TSC, TSW, TWE, TWI, VM,
/// BSU_IS, FB, TACR, AMO, SWIO, TIDCP, RW, TLOR, FMO, IMO, PTW and TID3.
pub const HCR_EL2_BITS: u64 = 0x8_807c_663f;

/// Trap accesses to both virtual and physical counter registers.
pub const CNTHCTL_EL2_BITS: u64 = 0x3;

/// EL2 and GICv3 in ID_AA64PFR0_EL1.
pub const AA64PFR0_BITS: u64 = 0x100_0100;

/// SME in ID_AA64PFR1_EL1. If it is enabled in the VM, the guest will break
/// after enabling the MMU.
pub const AA64PFR1_EL1_SMEMASK: u64 = 0x300_0000;

pub const EC_WFX_TRAP: u64 = 0x1;

pub const EC_AA64_HVC: u64 = 0x16;

pub const EC_AA64_SMC: u64 = 0x17;

pub const EC_SYSTEMREGISTERTRAP: u64 = 0x18;

pub const EC_DATAABORT: u64 = 0x24;

pub const EC_AA64_BKPT: u64 = 0x3c;

pub const PSCI_VERSION: u64 = 0x8400_0000;

pub const PSCI_MIGRATE_INFO_TYPE: u64 = 0x8400_0006;

pub const PSCI_SYSTEM_OFF: u64 = 0x8400_0008;

pub const PSCI_SYSTEM_RESET: u64 = 0x8400_0009;

pub const PSCI_CPU_ON: u64 = 0xc400_0003;

/// What can go wrong with the hypervisor.
#[derive(Debug, Clone)]
pub enum HvfError {
    EnableEL2,
    FindSymbol(String),
    MemoryMap,
    MemoryUnmap,
    NestedCheck,
    VcpuCreate,
    VcpuInitialRegisters,
    VcpuReadRegister,
    VcpuReadSystemRegister,
    VcpuRequestExit,
    VcpuRun,
    VcpuSetPendingIrq,
    VcpuSetRegister,
    VcpuSetSystemRegister(u16, u64),
    VcpuSetVtimerMask,
    VcpuGetVtimerOffset,
    VcpuSetVtimerOffset,
    VmCreate,
}

impl HvfError {
    pub open spec fn text(self) -> Seq<char> {
        match self {
            HvfError::EnableEL2 => "Error enabling EL2 mode in HVF"@,
            HvfError::FindSymbol(err) => "Couldn't find symbol in HVF library: "@ + err@,
            HvfError::MemoryMap => "Error registering memory region in HVF"@,
            HvfError::MemoryUnmap => "Error unregistering memory region in HVF"@,
            HvfError::NestedCheck =>
                "Nested virtualization was requested but it's not support in this system"@,
            HvfError::VcpuCreate => "Error creating HVF vCPU instance"@,
            HvfError::VcpuInitialRegisters => "Error setting up initial HVF vCPU registers"@,
            HvfError::VcpuReadRegister => "Error reading HVF vCPU register"@,
            HvfError::VcpuReadSystemRegister => "Error reading HVF vCPU system register"@,
            HvfError::VcpuRequestExit => "Error requesting HVF vCPU exit"@,
            HvfError::VcpuRun => "Error running HVF vCPU"@,
            HvfError::VcpuSetPendingIrq => "Error setting HVF vCPU pending irq"@,
            HvfError::VcpuSetRegister => "Error setting HVF vCPU register"@,
            HvfError::VcpuSetSystemRegister(reg, val) =>
                "Error setting HVF vCPU system register 0x0x"@ + hex_of(reg as nat) + (" to 0x0x"@
                    + hex_of(val as nat)),
            HvfError::VcpuSetVtimerMask => "Error setting HVF vCPU vtimer mask"@,
            HvfError::VcpuGetVtimerOffset => "Error getting HVF vCPU vtimer offset"@,
            HvfError::VcpuSetVtimerOffset => "Error setting HVF vCPU vtimer offset"@,
            HvfError::VmCreate => "Error creating HVF VM instance"@,
        }
    }

    /// The description of the error.
    pub fn message(&self) -> (r: String)
        ensures
            r@ == self.text(),
    {
        match self {
            HvfError::EnableEL2 => "Error enabling EL2 mode in HVF".to_string(),
            HvfError::FindSymbol(err) => join2(
                "Couldn't find symbol in HVF library: ",
                err.as_str(),
            ),
            HvfError::MemoryMap => "Error registering memory region in HVF".to_string(),
            HvfError::MemoryUnmap => "Error unregistering memory region in HVF".to_string(),
            HvfError::NestedCheck =>
                "Nested virtualization was requested but it's not support in this system".to_string(),
            HvfError::VcpuCreate => "Error creating HVF vCPU instance".to_string(),
            HvfError::VcpuInitialRegisters =>
                "Error setting up initial HVF vCPU registers".to_string(),
            HvfError::VcpuReadRegister => "Error reading HVF vCPU register".to_string(),
            HvfError::VcpuReadSystemRegister =>
                "Error reading HVF vCPU system register".to_string(),
            HvfError::VcpuRequestExit => "Error requesting HVF vCPU exit".to_string(),
            HvfError::VcpuRun => "Error running HVF vCPU".to_string(),
            HvfError::VcpuSetPendingIrq => "Error setting HVF vCPU pending irq".to_string(),
            HvfError::VcpuSetRegister => "Error setting HVF vCPU register".to_string(),
            HvfError::VcpuSetSystemRegister(reg, val) => {
                let to = join2(" to 0x0x", hex(*val).as_str());
                join3(
                    "Error setting HVF vCPU system register 0x0x",
                    hex(*reg as u64).as_str(),
                    to.as_str(),
                )
            },
            HvfError::VcpuSetVtimerMask => "Error setting HVF vCPU vtimer mask".to_string(),
            HvfError::VcpuGetVtimerOffset => "Error getting HVF vCPU vtimer offset".to_string(),
            HvfError::VcpuSetVtimerOffset => "Error setting HVF vCPU vtimer offset".to_string(),
            HvfError::VmCreate => "Error creating HVF VM instance".to_string(),
        }
    }
}

#[derive(Debug, Clone, Copy, PartialEq, Eq, Structural)]
pub enum InterruptType {
    Irq,
    Fiq,
}

/// A register of a vCPU.
#[derive(Debug, Clone, Copy, PartialEq, Eq, Structural)]
pub enum VcpuReg {
    /// X0..X30.
    X(u32),
    Pc,
    Cpsr,
    Fpcr,
    Fpsr,
}

/// The system registers that the run loop and the initial state use.
#[derive(Debug, Clone, Copy, PartialEq, Eq, Structural)]
pub enum SysReg {
    CntvCtlEl0,
    CntvCvalEl0,
    HcrEl2,
    CnthctlEl2,
    IdAa64pfr0El1,
    IdAa64pfr1El1,
}

/// Why a vCPU stopped running. The bytes of an MMIO access are the front of
/// the vCPU's MMIO buffer.
#[derive(Debug, Clone, Copy, PartialEq, Eq, Structural)]
pub enum VcpuExit {
    Breakpoint,
    Canceled,
    CpuOn(u64, u64, u64),
    HypervisorCall,
    MmioRead(u64, usize),
    MmioWrite(u64, usize),
    PsciHandled,
    SecureMonitorCall,
    Shutdown,
    SystemRegister,
    VtimerActivated,
    WaitForEvent,
    WaitForEventExpired,
    /// With the time to wait, in nanoseconds.
    WaitForEventTimeout(u64),
}

/// What the run loop cannot go on from.
#[derive(Debug, Clone, Copy, PartialEq, Eq, Structural)]
pub enum VcpuFault {
    ExitReason { reason: u32, pc: u64 },
    MmioLen(usize),
    SysRegRead { rt: u32, reg: u32 },
    SysRegWrite { reg: u32 },
    PsciFunction(u64),
    Exception(u64),
    /// The time to wait does not fit its type.
    Timeout,
    /// The event does not answer the last action.
    Event,
}

/// What the embedder is to do next.
#[derive(Debug, Clone, Copy, PartialEq, Eq, Structural)]
pub enum Action {
    /// Answered by `Value`.
    ReadReg(VcpuReg),
    /// Answered by `Done`.
    WriteReg(VcpuReg, u64),
    /// Answered by `Value`.
    ReadSysReg(SysReg),
    /// Make an IRQ pending. Answered by `Done`.
    SetPendingIrq,
    /// Run the vCPU. Answered by `Exited`.
    Run,
    /// Set the vtimer IRQ, then unmask the vtimer if told so. Answered by
    /// `Done`.
    SyncVtimer { unmask: bool },
    /// Emulate a system register read. Answered by `Handled`.
    HandleSysRegRead { reg: u32 },
    /// Emulate a system register write. Answered by `Accepted`.
    HandleSysRegWrite { reg: u32, val: u64 },
    /// Read the host's counter. Answered by `Value`.
    ReadClock,
    /// The loop is done.
    Exit(VcpuExit),
    /// The loop cannot go on.
    Fail(VcpuFault),
}

/// What the embedder hands back.
#[derive(Debug, Clone, Copy, PartialEq, Eq, Structural)]
pub enum Event {
    /// Enter the loop.
    Start { pending_irq: bool },
    Done,
    Value(u64),
    Exited { reason: u32, syndrome: u64, physical_address: u64 },
    Handled(Option<u64>),
    Accepted(bool),
}

/// Where the loop is, by the action it waits for.
#[derive(Debug, Clone, Copy, PartialEq, Eq, Structural)]
pub enum Phase {
    Idle,
    MmioDone { irq: bool },
    AdvanceRead { irq: bool },
    AdvanceWrite { irq: bool },
    IrqSet,
    Running,
    BadExit { reason: u32 },
    SyncRead { syndrome: u64, pa: u64 },
    SyncSet { syndrome: u64, pa: u64, unmask: bool },
    StoreValue { pa: u64, len: usize },
    SysRead { rt: u32, reg: u32 },
    SysReadDone,
    SysWriteValue { reg: u32 },
    SysWriteDone { reg: u32 },
    WaitCtl,
    WaitCval,
    WaitNow { cval: u64 },
    Psci,
    PsciDone,
    CpuOnMpidr,
    CpuOnEntry { mpidr: u64 },
    CpuOnContext { mpidr: u64, entry: u64 },
    CpuOnDone { mpidr: u64, entry: u64, context: u64 },
}

impl Phase {
    /// The event answers the action that the phase waits for.
    pub open spec fn takes(self, e: Event) -> bool {
        match self {
            Phase::Idle => e is Start,
            Phase::Running => e is Exited,
            Phase::SysRead { .. } => e is Handled,
            Phase::SysWriteDone { .. } => e is Accepted,
            Phase::MmioDone { .. }
            | Phase::AdvanceWrite { .. }
            | Phase::IrqSet
            | Phase::SyncSet { .. }
            | Phase::SysReadDone
            | Phase::PsciDone
            | Phase::CpuOnDone { .. } => e is Done,
            _ => e is Value,
        }
    }
}

/// A load from a device that waits for its data.
#[derive(Debug, Clone, Copy, PartialEq, Eq, Structural)]
pub struct MmioRead {
    pub addr: u64,
    pub len: usize,
    pub srt: u32,
}

/// A vCPU and where its run loop is.
pub struct HvfVcpu {
    vcpuid: u64,
    cntfrq: u64,
    /// Selects the register in the syndrome of a system register trap.
    sysreg_mask: u32,
    mmio_buf: [u8; 8],
    pending_mmio_read: Option<MmioRead>,
    pending_advance_pc: bool,
    vtimer_masked: bool,
    nested_enabled: bool,
    phase: Phase,
}

/// What a vCPU holds.
pub struct VcpuRun {
    pub vcpuid: u64,
    pub cntfrq: u64,
    pub sysreg_mask: u32,
    pub buf: Seq<u8>,
    pub pending: Option<MmioRead>,
    pub advance: bool,
    pub masked: bool,
    pub nested: bool,
    pub phase: Phase,
}

impl View for HvfVcpu {
    type V = VcpuRun;

    closed spec fn view(&self) -> VcpuRun {
        VcpuRun {
            vcpuid: self.vcpuid,
            cntfrq: self.cntfrq,
            sysreg_mask: self.sysreg_mask,
            buf: self.mmio_buf@,
            pending: self.pending_mmio_read,
            advance: self.pending_advance_pc,
            masked: self.vtimer_masked,
            nested: self.nested_enabled,
            phase: self.phase,
        }
    }
}

/// Bits 31:26 of a syndrome: the exception class.
pub open spec fn class_of(syndrome: u64) -> u64 {
    (syndrome / 0x400_0000) % 0x40
}

/// The size of a data abort's access, in bytes.
pub open spec fn access_len(syndrome: u64) -> usize {
    let sas = (syndrome / 0x40_0000) % 4;
    if sas == 0 {
        1
    } else if sas == 1 {
        2
    } else if sas == 2 {
        4
    } else {
        8
    }
}

/// The register that a data abort transfers.
pub open spec fn access_reg(syndrome: u64) -> u32 {
    ((syndrome / 0x1_0000) % 0x20) as u32
}

/// A data abort is a store.
pub open spec fn access_is_store(syndrome: u64) -> bool {
    (syndrome / 0x40) % 2 == 1
}

/// The general register of a system register trap.
pub open spec fn trap_reg(syndrome: u64) -> u32 {
    ((syndrome / 0x20) % 0x20) as u32
}

impl VcpuRun {
    /// The buffer has eight bytes, and a pending load takes 1, 2, 4 or 8.
    pub open spec fn wf(self) -> bool {
        &&& self.buf.len() == 8
        &&& self.pending matches Some(p) ==> p.len == 1 || p.len == 2 || p.len == 4 || p.len == 8
        &&& self.phase matches Phase::StoreValue { len, .. } ==> len == 1 || len == 2 || len == 4
            || len == 8
    }

    pub open spec fn at(self, phase: Phase) -> VcpuRun {
        VcpuRun { phase, ..self }
    }

    pub open spec fn left(self, exit: VcpuExit) -> (VcpuRun, Action) {
        (self.at(Phase::Idle), Action::Exit(exit))
    }

    pub open spec fn failed(self, fault: VcpuFault) -> (VcpuRun, Action) {
        (self.at(Phase::Idle), Action::Fail(fault))
    }

    /// Entry: a load that waited gets its data first. The zero register
    /// discards it.
    pub open spec fn started(self, irq: bool) -> (VcpuRun, Action) {
        let v = VcpuRun { pending: None, ..self };
        match self.pending {
            Some(p) => if p.srt < 31 {
                (
                    v.at(Phase::MmioDone { irq }),
                    Action::WriteReg(
                        VcpuReg::X(p.srt),
                        le_value(self.buf.subrange(0, p.len as int)) as u64,
                    ),
                )
            } else {
                v.advancing(irq)
            },
            None => v.advancing(irq),
        }
    }

    /// Then the pc moves past an instruction that was emulated.
    pub open spec fn advancing(self, irq: bool) -> (VcpuRun, Action) {
        if self.advance {
            (self.at(Phase::AdvanceRead { irq }), Action::ReadReg(VcpuReg::Pc))
        } else {
            self.entering(irq)
        }
    }

    /// Then a pending IRQ is injected, and the guest runs.
    pub open spec fn entering(self, irq: bool) -> (VcpuRun, Action) {
        if irq {
            (self.at(Phase::IrqSet), Action::SetPendingIrq)
        } else {
            (self.at(Phase::Running), Action::Run)
        }
    }

    /// The guest stopped.
    pub open spec fn exited(self, reason: u32, syndrome: u64, pa: u64) -> (VcpuRun, Action) {
        if reason == HV_EXIT_REASON_EXCEPTION {
            if self.masked {
                (
                    self.at(Phase::SyncRead { syndrome, pa }),
                    Action::ReadSysReg(SysReg::CntvCtlEl0),
                )
            } else {
                self.trapped(syndrome, pa)
            }
        } else if reason == HV_EXIT_REASON_VTIMER_ACTIVATED {
            (VcpuRun { masked: true, ..self }).left(VcpuExit::VtimerActivated)
        } else if reason == HV_EXIT_REASON_CANCELED {
            self.left(VcpuExit::Canceled)
        } else {
            (self.at(Phase::BadExit { reason }), Action::ReadReg(VcpuReg::Pc))
        }
    }

    /// The guest took an exception.
    pub open spec fn trapped(self, syndrome: u64, pa: u64) -> (VcpuRun, Action) {
        let ec = class_of(syndrome);
        let moving = VcpuRun { advance: true, ..self };
        if ec == EC_AA64_BKPT {
            self.left(VcpuExit::Breakpoint)
        } else if ec == EC_DATAABORT {
            let (len, srt) = (access_len(syndrome), access_reg(syndrome));
            if !access_is_store(syndrome) {
                (VcpuRun { pending: Some(MmioRead { addr: pa, len, srt }), ..moving }).left(
                    VcpuExit::MmioRead(pa, len),
                )
            } else if srt < 31 {
                (moving.at(Phase::StoreValue { pa, len }), Action::ReadReg(VcpuReg::X(srt)))
            } else {
                moving.storing(pa, len, 0)
            }
        } else if ec == EC_SYSTEMREGISTERTRAP {
            let (rt, reg) = (trap_reg(syndrome), (syndrome as u32) & self.sysreg_mask);
            if syndrome % 2 == 1 {
                if rt == 31 {
                    moving.left(VcpuExit::SystemRegister)
                } else {
                    (moving.at(Phase::SysRead { rt, reg }), Action::HandleSysRegRead { reg })
                }
            } else if rt == 31 {
                (
                    moving.at(Phase::SysWriteDone { reg }),
                    Action::HandleSysRegWrite { reg, val: 0 },
                )
            } else {
                (moving.at(Phase::SysWriteValue { reg }), Action::ReadReg(VcpuReg::X(rt)))
            }
        } else if ec == EC_WFX_TRAP {
            (self.at(Phase::WaitCtl), Action::ReadSysReg(SysReg::CntvCtlEl0))
        } else if ec == EC_AA64_HVC {
            (self.at(Phase::Psci), Action::ReadReg(VcpuReg::X(0)))
        } else if ec == EC_AA64_SMC {
            (moving.at(Phase::Psci), Action::ReadReg(VcpuReg::X(0)))
        } else {
            self.failed(VcpuFault::Exception(ec))
        }
    }

    /// A store's data goes to the front of the buffer.
    pub open spec fn storing(self, pa: u64, len: usize, val: u64) -> (VcpuRun, Action) {
        if len == 2 {
            self.failed(VcpuFault::MmioLen(len))
        } else {
            (VcpuRun {
                buf: crate::mem::splice(self.buf, 0, le_bytes(val as nat, len as nat)),
                ..self
            }).left(VcpuExit::MmioWrite(pa, len))
        }
    }

    /// How long to wait for the timer.
    pub open spec fn waiting(self, cval: u64, now: u64) -> (VcpuRun, Action) {
        if now > cval {
            self.left(VcpuExit::WaitForEventExpired)
        } else if self.cntfrq == 0 {
            self.failed(VcpuFault::Timeout)
        } else {
            let nanos = (cval - now) * (1_000_000_000u64 / self.cntfrq);
            if nanos > u64::MAX {
                self.failed(VcpuFault::Timeout)
            } else {
                self.left(VcpuExit::WaitForEventTimeout(nanos as u64))
            }
        }
    }

    /// A PSCI request, by the function in X0.
    pub open spec fn requested(self, function: u64) -> (VcpuRun, Action) {
        if function == PSCI_VERSION || function == PSCI_MIGRATE_INFO_TYPE {
            (self.at(Phase::PsciDone), Action::WriteReg(VcpuReg::X(0), 2))
        } else if function == PSCI_SYSTEM_OFF || function == PSCI_SYSTEM_RESET {
            self.left(VcpuExit::Shutdown)
        } else if function == PSCI_CPU_ON {
            (self.at(Phase::CpuOnMpidr), Action::ReadReg(VcpuReg::X(1)))
        } else {
            self.failed(VcpuFault::PsciFunction(function))
        }
    }

    /// One step of the loop.
    pub open spec fn stepped(self, e: Event) -> (VcpuRun, Action) {
        match (self.phase, e) {
            (Phase::Idle, Event::Start { pending_irq }) => self.started(pending_irq),
            (Phase::MmioDone { irq }, _) => self.advancing(irq),
            (Phase::AdvanceRead { irq }, Event::Value(pc)) => (
                self.at(Phase::AdvanceWrite { irq }),
                Action::WriteReg(VcpuReg::Pc, pc.wrapping_add(4)),
            ),
            (Phase::AdvanceWrite { irq }, _) => (VcpuRun { advance: false, ..self }).entering(irq),
            (Phase::IrqSet, _) => (self.at(Phase::Running), Action::Run),
            (Phase::Running, Event::Exited { reason, syndrome, physical_address }) => self.exited(
                reason,
                syndrome,
                physical_address,
            ),
            (Phase::BadExit { reason }, Event::Value(pc)) => self.failed(
                VcpuFault::ExitReason { reason, pc },
            ),
            (Phase::SyncRead { syndrome, pa }, Event::Value(ctl)) => {
                // Enabled, not masked, and the condition met: the line is high.
                let unmask = ctl % 8 != 5;
                (self.at(Phase::SyncSet { syndrome, pa, unmask }), Action::SyncVtimer { unmask })
            },
            (Phase::SyncSet { syndrome, pa, unmask }, _) => (VcpuRun {
                masked: self.masked && !unmask,
                ..self
            }).trapped(syndrome, pa),
            (Phase::StoreValue { pa, len }, Event::Value(val)) => self.storing(pa, len, val),
            (Phase::SysRead { rt, reg }, Event::Handled(answer)) => match answer {
                Some(val) => (
                    self.at(Phase::SysReadDone),
                    Action::WriteReg(VcpuReg::X(rt), val),
                ),
                None => self.failed(VcpuFault::SysRegRead { rt, reg }),
            },
            (Phase::SysReadDone, _) => self.left(VcpuExit::SystemRegister),
            (Phase::SysWriteValue { reg }, Event::Value(val)) => (
                self.at(Phase::SysWriteDone { reg }),
                Action::HandleSysRegWrite { reg, val },
            ),
            (Phase::SysWriteDone { reg }, Event::Accepted(ok)) => if ok {
                self.left(VcpuExit::SystemRegister)
            } else {
                self.failed(VcpuFault::SysRegWrite { reg })
            },
            (Phase::WaitCtl, Event::Value(ctl)) => {
                let moving = VcpuRun { advance: true, ..self };
                if ctl % 4 != 1 {
                    // Disabled or masked.
                    moving.left(VcpuExit::WaitForEvent)
                } else {
                    (moving.at(Phase::WaitCval), Action::ReadSysReg(SysReg::CntvCvalEl0))
                }
            },
            (Phase::WaitCval, Event::Value(cval)) => (
                self.at(Phase::WaitNow { cval }),
                Action::ReadClock,
            ),
            (Phase::WaitNow { cval }, Event::Value(now)) => self.waiting(cval, now),
            (Phase::Psci, Event::Value(function)) => self.requested(function),
            (Phase::PsciDone, _) => self.left(VcpuExit::PsciHandled),
            (Phase::CpuOnMpidr, Event::Value(mpidr)) => (
                self.at(Phase::CpuOnEntry { mpidr }),
                Action::ReadReg(VcpuReg::X(2)),
            ),
            (Phase::CpuOnEntry { mpidr }, Event::Value(entry)) => (
                self.at(Phase::CpuOnContext { mpidr, entry }),
                Action::ReadReg(VcpuReg::X(3)),
            ),
            (Phase::CpuOnContext { mpidr, entry }, Event::Value(context)) => (
                self.at(Phase::CpuOnDone { mpidr, entry, context }),
                Action::WriteReg(VcpuReg::X(0), 0),
            ),
            (Phase::CpuOnDone { mpidr, entry, context }, _) => self.left(
                VcpuExit::CpuOn(mpidr, entry, context),
            ),
            _ => self.failed(VcpuFault::Event),
        }
    }
}

proof fn lemma_syndrome(s: u64)
    by (bit_vector)
    ensures
        (s >> 26) & 0x3f == (s / 0x400_0000) % 0x40,
        (s >> 22) & 3 == (s / 0x40_0000) % 4,
        (s >> 16) & 0x1f == (s / 0x1_0000) % 0x20,
        (s >> 6) & 1 == (s / 0x40) % 2,
        (s >> 5) & 0x1f == (s / 0x20) % 0x20,
        s & 1 == s % 2,
        s & 7 == s % 8,
        s & 3 == s % 4,
{
}

impl HvfVcpu {
    /// A vCPU that has not run yet. `sysreg_mask` selects the register in the
    /// syndrome of a system register trap.
    pub fn new(vcpuid: u64, cntfrq: u64, sysreg_mask: u32, nested_enabled: bool) -> (r: Self)
        ensures
            r@.wf(),
            r@.vcpuid == vcpuid,
            r@.cntfrq == cntfrq,
            r@.sysreg_mask == sysreg_mask,
            r@.nested == nested_enabled,
            r@.pending is None,
            !r@.advance,
            !r@.masked,
            r@.phase == Phase::Idle,
            r@.buf =~= Seq::new(8, |i: int| 0u8),
    {
        HvfVcpu {
            vcpuid,
            cntfrq,
            sysreg_mask,
            mmio_buf: [0u8; 8],
            pending_mmio_read: None,
            pending_advance_pc: false,
            vtimer_masked: false,
            nested_enabled,
            phase: Phase::Idle,
        }
    }

    pub fn id(&self) -> (r: u64)
        ensures
            r == self@.vcpuid,
    {
        self.vcpuid
    }

    /// The front of the MMIO buffer: the data of a store.
    pub fn mmio_data(&self, len: usize) -> (r: Vec<u8>)
        requires
            self@.wf(),
            len <= 8,
        ensures
            r@ == self@.buf.subrange(0, len as int),
    {
        let mut out: Vec<u8> = Vec::new();
        let mut k: usize = 0;
        while k < len
            invariant
                k <= len <= 8,
                out@ =~= self@.buf.subrange(0, k as int),
                self@.buf.len() == 8,
            decreases len - k,
        {
            out.push(self.mmio_buf[k]);
            k += 1;
        }
        out
    }

    /// Supply the data of a load, which the next entry delivers.
    pub fn set_mmio_data(&mut self, data: &[u8])
        requires
            old(self)@.wf(),
            data@.len() <= 8,
        ensures
            final(self)@.wf(),
            final(self)@ == (VcpuRun {
                buf: crate::mem::splice(old(self)@.buf, 0, data@),
                ..old(self)@
            }),
    {
        let ghost before = self@;
        let mut k: usize = 0;
        while k < data.len()
            invariant
                k <= data@.len() <= 8,
                before.wf(),
                self@ == (VcpuRun { buf: self@.buf, ..before }),
                self@.buf.len() == 8,
                forall|i: int|
                    0 <= i < 8 ==> #[trigger] self@.buf[i] == (if i < k {
                        data@[i]
                    } else {
                        before.buf[i]
                    }),
            decreases data@.len() - k,
        {
            self.mmio_buf[k] = data[k];
            k += 1;
        }
        assert(self@.buf =~= crate::mem::splice(before.buf, 0, data@));
    }

    fn set_phase(&mut self, phase: Phase, action: Action) -> (r: Action)
        ensures
            r == action,
            final(self)@ == old(self)@.at(phase),
    {
        self.phase = phase;
        action
    }

    fn leave(&mut self, exit: VcpuExit) -> (r: Action)
        ensures
            (final(self)@, r) == old(self)@.left(exit),
    {
        self.phase = Phase::Idle;
        Action::Exit(exit)
    }

    fn fail(&mut self, fault: VcpuFault) -> (r: Action)
        ensures
            (final(self)@, r) == old(self)@.failed(fault),
    {
        self.phase = Phase::Idle;
        Action::Fail(fault)
    }

    fn start(&mut self, irq: bool) -> (r: Action)
        requires
            old(self)@.wf(),
        ensures
            final(self)@.wf(),
            (final(self)@, r) == old(self)@.started(irq),
    {
        let pending = self.pending_mmio_read;
        self.pending_mmio_read = None;
        if let Some(p) = pending {
            if p.srt < 31 {
                let data: Vec<u8> = self.mmio_data(p.len);
                let val: u64 = crate::mem::le_u64(data.as_slice());
                return self.set_phase(
                    Phase::MmioDone { irq },
                    Action::WriteReg(VcpuReg::X(p.srt), val),
                );
            }
        }
        self.advance_pc(irq)
    }

    fn advance_pc(&mut self, irq: bool) -> (r: Action)
        requires
            old(self)@.wf(),
        ensures
            final(self)@.wf(),
            (final(self)@, r) == old(self)@.advancing(irq),
    {
        if self.pending_advance_pc {
            self.set_phase(Phase::AdvanceRead { irq }, Action::ReadReg(VcpuReg::Pc))
        } else {
            self.enter(irq)
        }
    }

    fn enter(&mut self, irq: bool) -> (r: Action)
        requires
            old(self)@.wf(),
        ensures
            final(self)@.wf(),
            (final(self)@, r) == old(self)@.entering(irq),
    {
        if irq {
            self.set_phase(Phase::IrqSet, Action::SetPendingIrq)
        } else {
            self.set_phase(Phase::Running, Action::Run)
        }
    }

    fn handle_exit(&mut self, reason: u32, syndrome: u64, pa: u64) -> (r: Action)
        requires
            old(self)@.wf(),
        ensures
            final(self)@.wf(),
            (final(self)@, r) == old(self)@.exited(reason, syndrome, pa),
    {
        if reason == HV_EXIT_REASON_EXCEPTION {
            if self.vtimer_masked {
                self.set_phase(
                    Phase::SyncRead { syndrome, pa },
                    Action::ReadSysReg(SysReg::CntvCtlEl0),
                )
            } else {
                self.handle_trap(syndrome, pa)
            }
        } else if reason == HV_EXIT_REASON_VTIMER_ACTIVATED {
            self.vtimer_masked = true;
            self.leave(VcpuExit::VtimerActivated)
        } else if reason == HV_EXIT_REASON_CANCELED {
            self.leave(VcpuExit::Canceled)
        } else {
            self.set_phase(Phase::BadExit { reason }, Action::ReadReg(VcpuReg::Pc))
        }
    }

    fn handle_trap(&mut self, syndrome: u64, pa: u64) -> (r: Action)
        requires
            old(self)@.wf(),
        ensures
            final(self)@.wf(),
            (final(self)@, r) == old(self)@.trapped(syndrome, pa),
    {
        proof {
            lemma_syndrome(syndrome);
        }
        let ec: u64 = (syndrome >> 26) & 0x3f;
        if ec == EC_AA64_BKPT {
            self.leave(VcpuExit::Breakpoint)
        } else if ec == EC_DATAABORT {
            let iswrite: bool = (syndrome >> 6) & 1 != 0;
            let sas: u64 = (syndrome >> 22) & 3;
            let len: usize = if sas == 0 {
                1
            } else if sas == 1 {
                2
            } else if sas == 2 {
                4
            } else {
                8
            };
            let srt: u32 = ((syndrome >> 16) & 0x1f) as u32;
            self.pending_advance_pc = true;
            if !iswrite {
                self.pending_mmio_read = Some(MmioRead { addr: pa, len, srt });
                self.leave(VcpuExit::MmioRead(pa, len))
            } else if srt < 31 {
                self.set_phase(
                    Phase::StoreValue { pa, len },
                    Action::ReadReg(VcpuReg::X(srt)),
                )
            } else {
                self.store(pa, len, 0)
            }
        } else if ec == EC_SYSTEMREGISTERTRAP {
            let isread: bool = syndrome & 1 != 0;
            let rt: u32 = ((syndrome >> 5) & 0x1f) as u32;
            let reg: u32 = syndrome as u32 & self.sysreg_mask;
            self.pending_advance_pc = true;
            if isread {
                if rt == 31 {
                    self.leave(VcpuExit::SystemRegister)
                } else {
                    self.set_phase(Phase::SysRead { rt, reg }, Action::HandleSysRegRead { reg })
                }
            } else if rt == 31 {
                self.set_phase(
                    Phase::SysWriteDone { reg },
                    Action::HandleSysRegWrite { reg, val: 0 },
                )
            } else {
                self.set_phase(Phase::SysWriteValue { reg }, Action::ReadReg(VcpuReg::X(rt)))
            }
        } else if ec == EC_WFX_TRAP {
            self.set_phase(Phase::WaitCtl, Action::ReadSysReg(SysReg::CntvCtlEl0))
        } else if ec == EC_AA64_HVC {
            self.set_phase(Phase::Psci, Action::ReadReg(VcpuReg::X(0)))
        } else if ec == EC_AA64_SMC {
            self.pending_advance_pc = true;
            self.set_phase(Phase::Psci, Action::ReadReg(VcpuReg::X(0)))
        } else {
            self.fail(VcpuFault::Exception(ec))
        }
    }

    fn store(&mut self, pa: u64, len: usize, val: u64) -> (r: Action)
        requires
            old(self)@.wf(),
            len == 1 || len == 2 || len == 4 || len == 8,
        ensures
            final(self)@.wf(),
            (final(self)@, r) == old(self)@.storing(pa, len, val),
    {
        if len == 2 {
            return self.fail(VcpuFault::MmioLen(len));
        }
        let mut data: Vec<u8> = Vec::new();
        crate::bytes::push_le(&mut data, val as u128, len);
        assert(data@ =~= le_bytes(val as nat, len as nat));
        proof {
            crate::mem::le_bytes_len(val as nat, len as nat);
        }
        self.set_mmio_data(data.as_slice());
        self.leave(VcpuExit::MmioWrite(pa, len))
    }

    fn wait(&mut self, cval: u64, now: u64) -> (r: Action)
        requires
            old(self)@.wf(),
        ensures
            final(self)@.wf(),
            (final(self)@, r) == old(self)@.waiting(cval, now),
    {
        if now > cval {
            return self.leave(VcpuExit::WaitForEventExpired);
        }
        if self.cntfrq == 0 {
            return self.fail(VcpuFault::Timeout);
        }
        let ratio: u64 = 1_000_000_000 / self.cntfrq;
        match (cval - now).checked_mul(ratio) {
            Some(nanos) => self.leave(VcpuExit::WaitForEventTimeout(nanos)),
            None => self.fail(VcpuFault::Timeout),
        }
    }

    fn handle_psci_request(&mut self, function: u64) -> (r: Action)
        requires
            old(self)@.wf(),
        ensures
            final(self)@.wf(),
            (final(self)@, r) == old(self)@.requested(function),
    {
        if function == PSCI_VERSION || function == PSCI_MIGRATE_INFO_TYPE {
            self.set_phase(Phase::PsciDone, Action::WriteReg(VcpuReg::X(0), 2))
        } else if function == PSCI_SYSTEM_OFF || function == PSCI_SYSTEM_RESET {
            self.leave(VcpuExit::Shutdown)
        } else if function == PSCI_CPU_ON {
            self.set_phase(Phase::CpuOnMpidr, Action::ReadReg(VcpuReg::X(1)))
        } else {
            self.fail(VcpuFault::PsciFunction(function))
        }
    }

    /// Take one step of the run loop.
    pub fn run(&mut self, event: Event) -> (r: Action)
        requires
            old(self)@.wf(),
            old(self)@.phase.takes(event),
        ensures
            final(self)@.wf(),
            (final(self)@, r) == old(self)@.stepped(event),
    {
        match (self.phase, event) {
            (Phase::Idle, Event::Start { pending_irq }) => self.start(pending_irq),
            (Phase::MmioDone { irq }, _) => self.advance_pc(irq),
            (Phase::AdvanceRead { irq }, Event::Value(pc)) => self.set_phase(
                Phase::AdvanceWrite { irq },
                Action::WriteReg(VcpuReg::Pc, pc.wrapping_add(4)),
            ),
            (Phase::AdvanceWrite { irq }, _) => {
                self.pending_advance_pc = false;
                self.enter(irq)
            },
            (Phase::IrqSet, _) => self.set_phase(Phase::Running, Action::Run),
            (Phase::Running, Event::Exited { reason, syndrome, physical_address }) =>
                self.handle_exit(reason, syndrome, physical_address),
            (Phase::BadExit { reason }, Event::Value(pc)) => self.fail(
                VcpuFault::ExitReason { reason, pc },
            ),
            (Phase::SyncRead { syndrome, pa }, Event::Value(ctl)) => {
                proof {
                    lemma_syndrome(ctl);
                }
                let unmask: bool = ctl & 7 != 5;
                self.set_phase(
                    Phase::SyncSet { syndrome, pa, unmask },
                    Action::SyncVtimer { unmask },
                )
            },
            (Phase::SyncSet { syndrome, pa, unmask }, _) => {
                self.vtimer_masked = self.vtimer_masked && !unmask;
                self.handle_trap(syndrome, pa)
            },
            (Phase::StoreValue { pa, len }, Event::Value(val)) => self.store(pa, len, val),
            (Phase::SysRead { rt, reg }, Event::Handled(answer)) => match answer {
                Some(val) => self.set_phase(
                    Phase::SysReadDone,
                    Action::WriteReg(VcpuReg::X(rt), val),
                ),
                None => self.fail(VcpuFault::SysRegRead { rt, reg }),
            },
            (Phase::SysReadDone, _) => self.leave(VcpuExit::SystemRegister),
            (Phase::SysWriteValue { reg }, Event::Value(val)) => self.set_phase(
                Phase::SysWriteDone { reg },
                Action::HandleSysRegWrite { reg, val },
            ),
            (Phase::SysWriteDone { reg }, Event::Accepted(ok)) => if ok {
                self.leave(VcpuExit::SystemRegister)
            } else {
                self.fail(VcpuFault::SysRegWrite { reg })
            },
            (Phase::WaitCtl, Event::Value(ctl)) => {
                proof {
                    lemma_syndrome(ctl);
                }
                self.pending_advance_pc = true;
                if ctl & 3 != 1 {
                    self.leave(VcpuExit::WaitForEvent)
                } else {
                    self.set_phase(Phase::WaitCval, Action::ReadSysReg(SysReg::CntvCvalEl0))
                }
            },
            (Phase::WaitCval, Event::Value(cval)) => self.set_phase(
                Phase::WaitNow { cval },
                Action::ReadClock,
            ),
            (Phase::WaitNow { cval }, Event::Value(now)) => self.wait(cval, now),
            (Phase::Psci, Event::Value(function)) => self.handle_psci_request(function),
            (Phase::PsciDone, _) => self.leave(VcpuExit::PsciHandled),
            (Phase::CpuOnMpidr, Event::Value(mpidr)) => self.set_phase(
                Phase::CpuOnEntry { mpidr },
                Action::ReadReg(VcpuReg::X(2)),
            ),
            (Phase::CpuOnEntry { mpidr }, Event::Value(entry)) => self.set_phase(
                Phase::CpuOnContext { mpidr, entry },
                Action::ReadReg(VcpuReg::X(3)),
            ),
            (Phase::CpuOnContext { mpidr, entry }, Event::Value(context)) => self.set_phase(
                Phase::CpuOnDone { mpidr, entry, context },
                Action::WriteReg(VcpuReg::X(0), 0),
            ),
            (Phase::CpuOnDone { mpidr, entry, context }, _) => self.leave(
                VcpuExit::CpuOn(mpidr, entry, context),
            ),
            _ => self.fail(VcpuFault::Event),
        }
    }

    /// The loop was given up in the middle, because an action failed.
    pub fn abandon(&mut self)
        requires
            old(self)@.wf(),
        ensures
            final(self)@.wf(),
            final(self)@ == old(self)@.at(Phase::Idle),
    {
        self.phase = Phase::Idle;
    }
}

/// An MMIO load ends with its data in the register, little-endian, or nowhere
/// where that is the zero register; and with the pc behind the instruction.
/// Then the interrupt that is pending, if any, is injected, and the guest runs
/// on.
pub proof fn a_load_delivers_its_data(v: VcpuRun, p: MmioRead, pc: u64, irq: bool)
    requires
        v.wf(),
        v.phase == Phase::Idle,
        v.pending == Some(p),
        v.advance,
    ensures
        ({
            let (v1, a1) = v.stepped(Event::Start { pending_irq: irq });
            let (v2, a2) = if p.srt < 31 {
                v1.stepped(Event::Done)
            } else {
                (v1, a1)
            };
            let (v3, a3) = v2.stepped(Event::Value(pc));
            let (v4, a4) = v3.stepped(Event::Done);
            let (v5, a5) = if irq {
                v4.stepped(Event::Done)
            } else {
                (v4, a4)
            };
            &&& p.srt < 31 ==> a1 == Action::WriteReg(
                VcpuReg::X(p.srt),
                le_value(v.buf.subrange(0, p.len as int)) as u64,
            )
            &&& a2 == Action::ReadReg(VcpuReg::Pc)
            &&& a3 == Action::WriteReg(VcpuReg::Pc, pc.wrapping_add(4))
            &&& irq ==> a4 == Action::SetPendingIrq
            &&& a5 == Action::Run
            &&& v5 == (VcpuRun {
                pending: None,
                advance: false,
                phase: Phase::Running,
                ..v
            })
        }),
{
}

/// A store hands out the low bytes of its register, little-endian.
pub proof fn a_store_hands_out_its_data(v: VcpuRun, pa: u64, len: usize, val: u64)
    requires
        v.wf(),
        len == 1 || len == 4 || len == 8,
    ensures
        v.storing(pa, len, val).1 == Action::Exit(VcpuExit::MmioWrite(pa, len)),
        v.storing(pa, len, val).0.buf.subrange(0, len as int) == le_bytes(val as nat, len as nat),
{
    crate::mem::le_bytes_len(val as nat, len as nat);
    assert(v.storing(pa, len, val).0.buf.subrange(0, len as int) =~= le_bytes(
        val as nat,
        len as nat,
    ));
}

/// Once the virtual timer fired it stays masked until its line is found low.
pub proof fn the_timer_stays_masked_while_its_line_is_high(v: VcpuRun, syndrome: u64, pa: u64, ctl: u64)
    requires
        v.wf(),
        v.masked,
        v.phase == (Phase::SyncRead { syndrome, pa }),
    ensures
        ({
            let (v1, a1) = v.stepped(Event::Value(ctl));
            let v2 = v1.stepped(Event::Done).0;
            &&& a1 == (Action::SyncVtimer { unmask: ctl % 8 != 5 })
            &&& v2.masked == (ctl % 8 == 5)
        }),
{
}

// ---------------------------------------------------------------------------
// Initial state, capture and restore.
// ---------------------------------------------------------------------------

/// A step of setting up a vCPU.
#[derive(Debug, Clone, Copy, PartialEq, Eq, Structural)]
pub enum InitStep {
    Reg(VcpuReg, u64),
    Sys(SysReg, u64),
    /// Read the register and set the bits.
    SetBits(SysReg, u64),
    /// Read the register and clear the bits.
    ClearBits(SysReg, u64),
}

/// The constants of the initial state are made of these bits.
pub proof fn initial_bits_are_their_parts()
    by (bit_vector)
    ensures
        // Mode, FIQ, IRQ, SError and debug masks.
        PSTATE_EL1_FAULT_BITS_64 == 0x5u64 | 0x40 | 0x80 | 0x100 | 0x200,
        PSTATE_EL2_FAULT_BITS_64 == 0x9u64 | 0x40 | 0x80 | 0x100 | 0x200,
        // TSC, TSW, TWE, TWI, VM, BSU_IS, FB, TACR, AMO, SWIO, TIDCP, RW,
        // TLOR, FMO, IMO, PTW, TID3.
        HCR_EL2_BITS == (1u64 << 19) | (1u64 << 22) | (1u64 << 14) | (1u64 << 13) | 1u64 | (1u64
            << 10) | (1u64 << 9) | (1u64 << 21) | (1u64 << 5) | (1u64 << 1) | (1u64 << 20) | (1u64
            << 31) | (1u64 << 35) | (1u64 << 3) | (1u64 << 4) | (1u64 << 2) | (1u64 << 18),
        AA64PFR0_BITS == (1u64 << 8) | (1u64 << 24),
        AA64PFR1_EL1_SMEMASK == 3u64 << 24,
{
}

/// The steps that give a vCPU its initial state.
pub open spec fn initial_steps(nested: bool, entry: u64, fdt: u64) -> Seq<InitStep> {
    let mode = if nested {
        seq![
            InitStep::Reg(VcpuReg::Cpsr, PSTATE_EL2_FAULT_BITS_64),
            InitStep::Sys(SysReg::HcrEl2, HCR_EL2_BITS),
            InitStep::Sys(SysReg::CnthctlEl2, CNTHCTL_EL2_BITS),
            InitStep::SetBits(SysReg::IdAa64pfr0El1, AA64PFR0_BITS),
            InitStep::ClearBits(SysReg::IdAa64pfr1El1, AA64PFR1_EL1_SMEMASK),
        ]
    } else {
        seq![InitStep::Reg(VcpuReg::Cpsr, PSTATE_EL1_FAULT_BITS_64)]
    };
    mode + seq![InitStep::Reg(VcpuReg::Pc, entry), InitStep::Reg(VcpuReg::X(0), fdt)]
}

impl HvfVcpu {
    /// The steps that give the vCPU its initial state: it enters at
    /// `entry_addr` with the FDT's address in X0.
    pub fn set_initial_state(&self, entry_addr: u64, fdt_addr: u64) -> (r: Vec<InitStep>)
        ensures
            r@ == initial_steps(self@.nested, entry_addr, fdt_addr),
    {
        let mut steps: Vec<InitStep> = Vec::new();
        if self.nested_enabled {
            steps.push(InitStep::Reg(VcpuReg::Cpsr, PSTATE_EL2_FAULT_BITS_64));
            steps.push(InitStep::Sys(SysReg::HcrEl2, HCR_EL2_BITS));
            steps.push(InitStep::Sys(SysReg::CnthctlEl2, CNTHCTL_EL2_BITS));
            // Enable EL2 and GICv3 in ID_AA64PFR0_EL1
            steps.push(InitStep::SetBits(SysReg::IdAa64pfr0El1, AA64PFR0_BITS));
            // If SME is enabled in ID_AA64PFR1_EL1 in the VM, the guest will
            // break after enabling the MMU. Mask it out.
            steps.push(InitStep::ClearBits(SysReg::IdAa64pfr1El1, AA64PFR1_EL1_SMEMASK));
        } else {
            steps.push(InitStep::Reg(VcpuReg::Cpsr, PSTATE_EL1_FAULT_BITS_64));
        }
        steps.push(InitStep::Reg(VcpuReg::Pc, entry_addr));
        steps.push(InitStep::Reg(VcpuReg::X(0), fdt_addr));
        assert(steps@ =~= initial_steps(self@.nested, entry_addr, fdt_addr));
        steps
    }
}

impl InitStep {
    /// What the step writes, where the register holds `current`.
    pub open spec fn written_over(self, current: u64) -> u64 {
        match self {
            InitStep::Reg(_, v) => v,
            InitStep::Sys(_, v) => v,
            InitStep::SetBits(_, bits) => current | bits,
            InitStep::ClearBits(_, bits) => current & !bits,
        }
    }

    pub fn value(&self, current: u64) -> (r: u64)
        ensures
            r == self.written_over(current),
    {
        match self {
            InitStep::Reg(_, v) => *v,
            InitStep::Sys(_, v) => *v,
            InitStep::SetBits(_, bits) => current | *bits,
            InitStep::ClearBits(_, bits) => current & !*bits,
        }
    }
}

/// Something of a vCPU to capture.
#[derive(Debug, Clone, Copy, PartialEq, Eq, Structural)]
pub enum VcpuRead {
    Reg(VcpuReg),
    Simd(u32),
    Sys(u16),
    Redist(u32),
    Icc(u32),
    VtimerOffset,
}

/// Something of a vCPU to restore.
#[derive(Debug, Clone, Copy, PartialEq, Eq, Structural)]
pub enum VcpuWrite {
    Reg(VcpuReg, u64),
    Simd(u32, u128),
    Sys(u16, u64),
    Redist(u32, u64),
    Icc(u32, u64),
    VtimerOffset(u64),
}

/// GIC redistributor registers captured per-vCPU: GICR_IGROUPR0,
/// GICR_IPRIORITYR0..7, GICR_ICFGR0..1, and GICR_ISENABLER0. Config
/// (group/priority/cfg) is restored before the set-enable register.
pub open spec fn gic_redist_regs() -> Seq<u32> {
    seq![
        65664,
        66560,
        66564,
        66568,
        66572,
        66576,
        66580,
        66584,
        66588,
        68608,
        68612,
        65792,
    ]
}

/// GIC CPU-interface registers captured per-vCPU: ICC_SRE_EL1, PMR, BPR0,
/// BPR1, AP0R0, AP1R0, CTLR, IGRPEN0 and IGRPEN1. SRE first (enables sysreg
/// access), group-enables last.
pub open spec fn gic_icc_regs() -> Seq<u32> {
    seq![50789, 49712, 50755, 50787, 50756, 50760, 50788, 50790, 50791]
}

fn redist_regs() -> (r: Vec<u32>)
    ensures
        r@ == gic_redist_regs(),
{
    let v: Vec<u32> = vec![
        65664,
        66560,
        66564,
        66568,
        66572,
        66576,
        66580,
        66584,
        66588,
        68608,
        68612,
        65792,
    ];
    assert(v@ =~= gic_redist_regs());
    v
}

fn icc_regs() -> (r: Vec<u32>)
    ensures
        r@ == gic_icc_regs(),
{
    let v: Vec<u32> = vec![50789, 49712, 50755, 50787, 50756, 50760, 50788, 50790, 50791];
    assert(v@ =~= gic_icc_regs());
    v
}

/// Register `i` of X0..X30, pc, cpsr, fpcr and fpsr.
pub open spec fn word_reg(i: int) -> VcpuReg {
    if i < 31 {
        VcpuReg::X(i as u32)
    } else if i == 31 {
        VcpuReg::Pc
    } else if i == 32 {
        VcpuReg::Cpsr
    } else if i == 33 {
        VcpuReg::Fpcr
    } else {
        VcpuReg::Fpsr
    }
}

fn word_register(i: usize) -> (r: VcpuReg)
    requires
        i < 35,
    ensures
        r == word_reg(i as int),
{
    if i < 31 {
        VcpuReg::X(i as u32)
    } else if i == 31 {
        VcpuReg::Pc
    } else if i == 32 {
        VcpuReg::Cpsr
    } else if i == 33 {
        VcpuReg::Fpcr
    } else {
        VcpuReg::Fpsr
    }
}

/// What a capture reads, in order: the general registers, pc, cpsr, fpcr and
/// fpsr, the SIMD registers, the given system registers, the GIC registers of
/// the vCPU, and the virtual-timer offset.
pub open spec fn capture_read(sys: Seq<u16>, i: int) -> VcpuRead {
    let n = sys.len();
    if i < 35 {
        VcpuRead::Reg(word_reg(i))
    } else if i < 67 {
        VcpuRead::Simd((i - 35) as u32)
    } else if i < 67 + n {
        VcpuRead::Sys(sys[i - 67])
    } else if i < 79 + n {
        VcpuRead::Redist(gic_redist_regs()[i - 67 - n])
    } else if i < 88 + n {
        VcpuRead::Icc(gic_icc_regs()[i - 79 - n])
    } else {
        VcpuRead::VtimerOffset
    }
}

/// All that a capture reads.
pub open spec fn capture_plan(sys: Seq<u16>) -> Seq<VcpuRead> {
    Seq::new(89 + sys.len(), |i: int| capture_read(sys, i))
}

/// What a vCPU is read for, in order, to capture its state. `sys_regs` are the
/// ids of the writable EL1 system registers.
pub fn vcpu_save_state(sys_regs: &[u16]) -> (r: Vec<VcpuRead>)
    ensures
        r@ == capture_plan(sys_regs@),
{
    let redist: Vec<u32> = redist_regs();
    let icc: Vec<u32> = icc_regs();
    let ghost all = capture_plan(sys_regs@);
    let mut plan: Vec<VcpuRead> = Vec::new();
    let mut i: usize = 0;
    while i < 35
        invariant
            i <= 35,
            all == capture_plan(sys_regs@),
            plan@ =~= all.subrange(0, i as int),
        decreases 35 - i,
    {
        plan.push(VcpuRead::Reg(word_register(i)));
        i += 1;
    }
    let mut q: u32 = 0;
    while q < 32
        invariant
            q <= 32,
            all == capture_plan(sys_regs@),
            plan@ =~= all.subrange(0, 35 + q),
        decreases 32 - q,
    {
        plan.push(VcpuRead::Simd(q));
        q += 1;
    }
    let mut k: usize = 0;
    while k < sys_regs.len()
        invariant
            k <= sys_regs@.len(),
            all == capture_plan(sys_regs@),
            plan@ =~= all.subrange(0, 67 + k),
        decreases sys_regs@.len() - k,
    {
        plan.push(VcpuRead::Sys(sys_regs[k]));
        k += 1;
    }
    let ghost n = sys_regs@.len();
    let mut k: usize = 0;
    while k < 12
        invariant
            k <= 12,
            n == sys_regs@.len(),
            redist@ == gic_redist_regs(),
            all == capture_plan(sys_regs@),
            plan@ =~= all.subrange(0, 67 + n + k),
        decreases 12 - k,
    {
        plan.push(VcpuRead::Redist(redist[k]));
        k += 1;
    }
    let mut k: usize = 0;
    while k < 9
        invariant
            k <= 9,
            n == sys_regs@.len(),
            icc@ == gic_icc_regs(),
            all == capture_plan(sys_regs@),
            plan@ =~= all.subrange(0, 79 + n + k),
        decreases 9 - k,
    {
        plan.push(VcpuRead::Icc(icc[k]));
        k += 1;
    }
    plan.push(VcpuRead::VtimerOffset);
    assert(plan@ =~= all);
    plan
}

impl VcpuRead {
    /// The error of a read that failed.
    pub fn error(&self) -> (r: HvfError)
        ensures
            r == (match *self {
                VcpuRead::Reg(_) | VcpuRead::Simd(_) => HvfError::VcpuReadRegister,
                VcpuRead::Sys(_) | VcpuRead::Redist(_) | VcpuRead::Icc(_) =>
                    HvfError::VcpuReadSystemRegister,
                VcpuRead::VtimerOffset => HvfError::VcpuGetVtimerOffset,
            }),
    {
        match self {
            VcpuRead::Reg(_) | VcpuRead::Simd(_) => HvfError::VcpuReadRegister,
            VcpuRead::Sys(_) | VcpuRead::Redist(_) | VcpuRead::Icc(_) =>
                HvfError::VcpuReadSystemRegister,
            VcpuRead::VtimerOffset => HvfError::VcpuGetVtimerOffset,
        }
    }

    /// The write that restores what the read found.
    pub open spec fn write_back(self, v: u128) -> VcpuWrite {
        match self {
            VcpuRead::Reg(r) => VcpuWrite::Reg(r, v as u64),
            VcpuRead::Simd(q) => VcpuWrite::Simd(q, v),
            VcpuRead::Sys(id) => VcpuWrite::Sys(id, v as u64),
            VcpuRead::Redist(off) => VcpuWrite::Redist(off, v as u64),
            VcpuRead::Icc(id) => VcpuWrite::Icc(id, v as u64),
            VcpuRead::VtimerOffset => VcpuWrite::VtimerOffset(v as u64),
        }
    }
}

impl VcpuWrite {
    /// The error of a write that failed.
    pub fn error(&self) -> (r: HvfError)
        ensures
            r == (match *self {
                VcpuWrite::Reg(_, _) | VcpuWrite::Simd(_, _) => HvfError::VcpuSetRegister,
                VcpuWrite::Sys(id, v) => HvfError::VcpuSetSystemRegister(id, v),
                VcpuWrite::Redist(_, v) | VcpuWrite::Icc(_, v) =>
                    HvfError::VcpuSetSystemRegister(0, v),
                VcpuWrite::VtimerOffset(_) => HvfError::VcpuSetVtimerOffset,
            }),
    {
        match self {
            VcpuWrite::Reg(_, _) | VcpuWrite::Simd(_, _) => HvfError::VcpuSetRegister,
            VcpuWrite::Sys(id, v) => HvfError::VcpuSetSystemRegister(*id, *v),
            VcpuWrite::Redist(_, v) => HvfError::VcpuSetSystemRegister(0, *v),
            VcpuWrite::Icc(_, v) => HvfError::VcpuSetSystemRegister(0, *v),
            VcpuWrite::VtimerOffset(_) => HvfError::VcpuSetVtimerOffset,
        }
    }
}

/// The state holds what a capture read.
pub open spec fn captured(sys: Seq<u16>, values: Seq<u128>, s: HvfVcpuState) -> bool {
    let n = sys.len() as int;
    &&& forall|i: int| 0 <= i < 31 ==> #[trigger] s.gp@[i] == values[i] as u64
    &&& s.pc == values[31] as u64
    &&& s.cpsr == values[32] as u64
    &&& s.fpcr == values[33] as u64
    &&& s.fpsr == values[34] as u64
    &&& forall|i: int| 0 <= i < 32 ==> #[trigger] s.simd@[i] == values[35 + i]
    &&& s.sys@.len() == n
    &&& forall|i: int|
        0 <= i < n ==> #[trigger] s.sys@[i] == (sys[i], values[67 + i] as u64)
    &&& s.gic_redist@.len() == 12
    &&& forall|i: int|
        0 <= i < 12 ==> #[trigger] s.gic_redist@[i] == (
            gic_redist_regs()[i],
            values[67 + n + i] as u64,
        )
    &&& s.gic_icc@.len() == 9
    &&& forall|i: int|
        0 <= i < 9 ==> #[trigger] s.gic_icc@[i] == (gic_icc_regs()[i], values[79 + n + i] as u64)
    &&& s.vtimer_offset == values[88 + n] as u64
}

/// The state of a vCPU from the values that were read for it.
pub fn captured_state(sys_regs: &[u16], values: &[u128]) -> (r: HvfVcpuState)
    requires
        values@.len() == 89 + sys_regs@.len(),
    ensures
        captured(sys_regs@, values@, r),
{
    let n: usize = sys_regs.len();
    let mut gp: [u64; 31] = [0u64; 31];
    let mut i: usize = 0;
    while i < 31
        invariant
            i <= 31,
            values@.len() >= 89,
            forall|k: int| 0 <= k < i ==> #[trigger] gp@[k] == values@[k] as u64,
        decreases 31 - i,
    {
        gp[i] = values[i] as u64;
        i += 1;
    }
    let mut simd: [u128; 32] = [0u128; 32];
    let mut i: usize = 0;
    while i < 32
        invariant
            i <= 32,
            values@.len() >= 89,
            forall|k: int| 0 <= k < i ==> #[trigger] simd@[k] == values@[35 + k],
        decreases 32 - i,
    {
        simd[i] = values[35 + i];
        i += 1;
    }
    let mut sys: Vec<(u16, u64)> = Vec::new();
    let mut i: usize = 0;
    while i < n
        invariant
            i <= n == sys_regs@.len(),
            values@.len() == 89 + n,
            sys@.len() == i,
            forall|k: int|
                0 <= k < i ==> #[trigger] sys@[k] == (sys_regs@[k], values@[67 + k] as u64),
        decreases n - i,
    {
        assert(67 + i < values.len());
        sys.push((sys_regs[i], values[67 + i] as u64));
        i += 1;
    }
    let redist: Vec<u32> = redist_regs();
    let icc: Vec<u32> = icc_regs();
    let base: usize = values.len() - 22;
    let mut gic_redist: Vec<(u32, u64)> = Vec::new();
    let mut i: usize = 0;
    while i < 12
        invariant
            i <= 12,
            base == 67 + n,
            values@.len() == base + 22,
            redist@ == gic_redist_regs(),
            gic_redist@.len() == i,
            forall|k: int|
                0 <= k < i ==> #[trigger] gic_redist@[k] == (
                    gic_redist_regs()[k],
                    values@[67 + n + k] as u64,
                ),
        decreases 12 - i,
    {
        assert(base + i < values.len());
        gic_redist.push((redist[i], values[base + i] as u64));
        i += 1;
    }
    let base2: usize = values.len() - 10;
    let mut gic_icc: Vec<(u32, u64)> = Vec::new();
    let mut i: usize = 0;
    while i < 9
        invariant
            i <= 9,
            base2 == 79 + n,
            values@.len() == base2 + 10,
            icc@ == gic_icc_regs(),
            gic_icc@.len() == i,
            forall|k: int|
                0 <= k < i ==> #[trigger] gic_icc@[k] == (
                    gic_icc_regs()[k],
                    values@[79 + n + k] as u64,
                ),
        decreases 9 - i,
    {
        assert(base2 + i < values.len());
        gic_icc.push((icc[i], values[base2 + i] as u64));
        i += 1;
    }
    HvfVcpuState {
        gp,
        pc: values[31] as u64,
        cpsr: values[32] as u64,
        fpcr: values[33] as u64,
        fpsr: values[34] as u64,
        simd,
        sys,
        gic_redist,
        gic_icc,
        vtimer_offset: values[values.len() - 1] as u64,
    }
}

/// Write number `i` of a restore. System registers come first (MMU/exception
/// config), then the general registers, pc, cpsr, fpcr and fpsr, the SIMD
/// registers, and the GIC registers in the order of capture, which has config
/// before enable; the timer offset is last.
pub open spec fn restore_write(s: HvfVcpuState, i: int) -> VcpuWrite {
    let n = s.sys@.len() as int;
    let m = s.gic_redist@.len() as int;
    let k = s.gic_icc@.len() as int;
    if i < n {
        VcpuWrite::Sys(s.sys@[i].0, s.sys@[i].1)
    } else if i < n + 35 {
        VcpuWrite::Reg(word_reg(i - n), s@.words[i - n] as u64)
    } else if i < n + 67 {
        VcpuWrite::Simd((i - n - 35) as u32, s.simd@[i - n - 35])
    } else if i < n + 67 + m {
        let p = s.gic_redist@[i - n - 67];
        VcpuWrite::Redist(p.0, p.1)
    } else if i < n + 67 + m + k {
        let p = s.gic_icc@[i - n - 67 - m];
        VcpuWrite::Icc(p.0, p.1)
    } else {
        VcpuWrite::VtimerOffset(s.vtimer_offset)
    }
}

/// All that a restore writes.
pub open spec fn restore_plan(s: HvfVcpuState) -> Seq<VcpuWrite> {
    Seq::new(
        68 + s.sys@.len() + s.gic_redist@.len() + s.gic_icc@.len(),
        |i: int| restore_write(s, i),
    )
}

/// What is written to a vCPU, in order, to restore its state.
pub fn vcpu_restore_state(state: &HvfVcpuState) -> (r: Vec<VcpuWrite>)
    ensures
        r@ == restore_plan(*state),
{
    let ghost all = restore_plan(*state);
    let ghost n = state.sys@.len() as int;
    let ghost m = state.gic_redist@.len() as int;
    let mut plan: Vec<VcpuWrite> = Vec::new();
    let mut i: usize = 0;
    while i < state.sys.len()
        invariant
            i <= n == state.sys@.len(),
            all == restore_plan(*state),
            plan@ =~= all.subrange(0, i as int),
        decreases n - i,
    {
        plan.push(VcpuWrite::Sys(state.sys[i].0, state.sys[i].1));
        i += 1;
    }
    let mut i: usize = 0;
    while i < 31
        invariant
            i <= 31,
            n == state.sys@.len(),
            all == restore_plan(*state),
            plan@ =~= all.subrange(0, n + i),
        decreases 31 - i,
    {
        plan.push(VcpuWrite::Reg(VcpuReg::X(i as u32), state.gp[i]));
        i += 1;
    }
    plan.push(VcpuWrite::Reg(VcpuReg::Pc, state.pc));
    plan.push(VcpuWrite::Reg(VcpuReg::Cpsr, state.cpsr));
    plan.push(VcpuWrite::Reg(VcpuReg::Fpcr, state.fpcr));
    plan.push(VcpuWrite::Reg(VcpuReg::Fpsr, state.fpsr));
    let mut q: u32 = 0;
    while q < 32
        invariant
            q <= 32,
            n == state.sys@.len(),
            all == restore_plan(*state),
            plan@ =~= all.subrange(0, n + 35 + q),
        decreases 32 - q,
    {
        plan.push(VcpuWrite::Simd(q, state.simd[q as usize]));
        q += 1;
    }
    let mut i: usize = 0;
    while i < state.gic_redist.len()
        invariant
            i <= m == state.gic_redist@.len(),
            n == state.sys@.len(),
            all == restore_plan(*state),
            plan@ =~= all.subrange(0, n + 67 + i),
        decreases m - i,
    {
        plan.push(VcpuWrite::Redist(state.gic_redist[i].0, state.gic_redist[i].1));
        i += 1;
    }
    let mut i: usize = 0;
    while i < state.gic_icc.len()
        invariant
            i <= state.gic_icc@.len(),
            m == state.gic_redist@.len(),
            n == state.sys@.len(),
            all == restore_plan(*state),
            plan@ =~= all.subrange(0, n + 67 + m + i),
        decreases state.gic_icc@.len() - i,
    {
        plan.push(VcpuWrite::Icc(state.gic_icc[i].0, state.gic_icc[i].1));
        i += 1;
    }
    plan.push(VcpuWrite::VtimerOffset(state.vtimer_offset));
    assert(plan@ =~= all);
    plan
}

/// A restore writes back everything that the capture read: read `i` comes
/// back as write `j`.
pub proof fn a_restore_writes_back_the_capture(
    sys: Seq<u16>,
    values: Seq<u128>,
    s: HvfVcpuState,
    i: int,
)
    requires
        values.len() == 89 + sys.len(),
        captured(sys, values, s),
        0 <= i < 89 + sys.len(),
    ensures
        ({
            let n = sys.len() as int;
            let j = if i < 67 {
                i + n
            } else if i < 67 + n {
                i - 67
            } else {
                i
            };
            &&& 0 <= j < restore_plan(s).len()
            &&& restore_plan(s)[j] == capture_plan(sys)[i].write_back(values[i])
        }),
{
}

// ---------------------------------------------------------------------------
// The GIC distributor and the virtual timer.
// ---------------------------------------------------------------------------

/// ITLinesNumber (bits 4:0 of GICD_TYPER) gives the number of interrupts.
pub open spec fn irqs_of(typer: u64) -> u32 {
    (32 * (typer % 0x20 + 1)) as u32
}

/// How many interrupt lines the GIC implements, by its GICD_TYPER.
pub fn gic_num_irqs(typer: u64) -> (r: u32)
    ensures
        r == irqs_of(typer),
        32 <= r <= 1024,
{
    32 * ((typer % 0x20) as u32 + 1)
}

/// `n` offsets from `base`, `stride` apart.
pub open spec fn offsets(base: int, stride: int, from: int, to: int) -> Seq<u32> {
    Seq::new(
        (if to >= from {
            to - from
        } else {
            0
        }) as nat,
        |i: int| (base + (from + i) * stride) as u32,
    )
}

/// GIC distributor register offsets to snapshot, bounded to the interrupts the
/// GIC implements: GICD_CTLR, IGROUPR, IPRIORITYR, ICFGR, IROUTER (64-bit SPI
/// routing, SPIs 32+), ISENABLER.
pub open spec fn distributor_regs(num_irqs: u32) -> Seq<u32> {
    let n = num_irqs as int;
    seq![0u32] + offsets(0x80, 4, 0, n / 32) + offsets(0x400, 4, 0, n / 4) + offsets(
        0xc00,
        4,
        0,
        n / 16,
    ) + offsets(0x6000, 8, 32, n) + offsets(0x100, 4, 0, n / 32)
}

fn push_offsets(regs: &mut Vec<u32>, base: u32, stride: u32, from: u32, to: u32)
    requires
        base <= 0x6000,
        stride <= 8,
        to <= 1024,
    ensures
        final(regs)@ == old(regs)@ + offsets(base as int, stride as int, from as int, to as int),
{
    let ghost start = regs@;
    let ghost all = offsets(base as int, stride as int, from as int, to as int);
    let mut i: u32 = from;
    assert(start + all.subrange(0, 0) =~= start);
    while i < to
        invariant
            from <= i,
            from <= to ==> i <= to,
            from > to ==> i == from,
            to <= 1024,
            base <= 0x6000,
            stride <= 8,
            all == offsets(base as int, stride as int, from as int, to as int),
            regs@ =~= start + all.subrange(0, i - from),
        decreases to - i,
    {
        assert(i * stride <= 1024 * 8) by (nonlinear_arith)
            requires
                i <= 1024,
                stride <= 8,
        ;
        regs.push(base + i * stride);
        i += 1;
    }
    assert(all.subrange(0, i - from) =~= all);
}

/// The distributor registers to capture, for a GIC with `num_irqs` lines.
pub fn gic_distributor_regs(num_irqs: u32) -> (r: Vec<u32>)
    requires
        num_irqs <= 1024,
    ensures
        r@ == distributor_regs(num_irqs),
{
    let mut regs: Vec<u32> = Vec::new();
    regs.push(0);
    assert(regs@ =~= seq![0u32]);
    push_offsets(&mut regs, 0x80, 4, 0, num_irqs / 32);
    push_offsets(&mut regs, 0x400, 4, 0, num_irqs / 4);
    push_offsets(&mut regs, 0xc00, 4, 0, num_irqs / 16);
    push_offsets(&mut regs, 0x6000, 8, 32, num_irqs);
    push_offsets(&mut regs, 0x100, 4, 0, num_irqs / 32);
    regs
}

/// The registers other than GICD_CTLR, in order.
pub open spec fn config_regs(regs: Seq<(u32, u64)>) -> Seq<(u32, u64)>
    decreases regs.len(),
{
    if regs.len() == 0 {
        Seq::empty()
    } else if regs.last().0 != 0 {
        config_regs(regs.drop_last()).push(regs.last())
    } else {
        config_regs(regs.drop_last())
    }
}

/// The first GICD_CTLR.
pub open spec fn control_reg(regs: Seq<(u32, u64)>) -> Seq<(u32, u64)>
    decreases regs.len(),
{
    if regs.len() == 0 {
        Seq::empty()
    } else if regs[0].0 == 0 {
        seq![regs[0]]
    } else {
        control_reg(regs.drop_first())
    }
}

/// Restore order of captured distributor registers: all
/// config/routing/enable registers first, then `GICD_CTLR` (offset 0) last so
/// the distributor is only enabled once its configuration is in place.
pub fn gic_restore_distributor(regs: &[(u32, u64)]) -> (r: Vec<(u32, u64)>)
    ensures
        r@ == config_regs(regs@) + control_reg(regs@),
{
    let mut out: Vec<(u32, u64)> = Vec::new();
    let mut i: usize = 0;
    while i < regs.len()
        invariant
            i <= regs@.len(),
            out@ == config_regs(regs@.subrange(0, i as int)),
        decreases regs@.len() - i,
    {
        assert(regs@.subrange(0, i + 1).drop_last() =~= regs@.subrange(0, i as int));
        if regs[i].0 != 0 {
            out.push(regs[i]);
        }
        i += 1;
    }
    assert(regs@.subrange(0, i as int) =~= regs@);
    let mut i: usize = 0;
    assert(regs@.skip(0) =~= regs@);
    while i < regs.len()
        invariant
            i <= regs@.len(),
            out@ == config_regs(regs@),
            control_reg(regs@) == control_reg(regs@.skip(i as int)),
        decreases regs@.len() - i,
    {
        if regs[i].0 == 0 {
            out.push(regs[i]);
            assert(out@ =~= config_regs(regs@) + control_reg(regs@));
            return out;
        }
        assert(regs@.skip(i as int).drop_first() =~= regs@.skip(i + 1));
        i += 1;
    }
    assert(out@ =~= config_regs(regs@) + control_reg(regs@));
    out
}

/// Whatever enables the distributor comes after all of its configuration.
pub proof fn the_distributor_is_enabled_last(regs: Seq<(u32, u64)>, i: int)
    requires
        0 <= i < config_regs(regs).len(),
    ensures
        config_regs(regs)[i].0 != 0,
        control_reg(regs).len() <= 1,
{
    lemma_config(regs, i);
    lemma_control(regs);
}

proof fn lemma_config(regs: Seq<(u32, u64)>, i: int)
    requires
        0 <= i < config_regs(regs).len(),
    ensures
        config_regs(regs)[i].0 != 0,
    decreases regs.len(),
{
    let rest = config_regs(regs.drop_last());
    if i < rest.len() {
        lemma_config(regs.drop_last(), i);
    }
}

proof fn lemma_control(regs: Seq<(u32, u64)>)
    ensures
        control_reg(regs).len() <= 1,
    decreases regs.len(),
{
    if regs.len() > 0 {
        lemma_control(regs.drop_first());
    }
}

/// The virtual-timer offset that freezes the guest's counter for `delta_ns`
/// nanoseconds. It saturates.
pub open spec fn frozen_offset(offset: u64, delta_ns: u64, cntfrq: u64) -> u64 {
    let ticks = (delta_ns as int * cntfrq as int) / 1_000_000_000;
    if offset + ticks > u64::MAX {
        u64::MAX
    } else {
        (offset + ticks) as u64
    }
}

/// The adjusted virtual-timer offset. The offset is in raw counter ticks;
/// virtual_counter = physical_counter - offset, so adding the ticks of a pause
/// compensates for the physical counter advancing meanwhile.
pub fn vcpu_adjust_vtimer_offset(offset: u64, delta_ns: u64, cntfrq: u64) -> (r: u64)
    ensures
        r == frozen_offset(offset, delta_ns, cntfrq),
{
    assert(0 <= delta_ns * cntfrq <= 0xffff_ffff_ffff_ffff * 0xffff_ffff_ffff_ffff)
        by (nonlinear_arith)
        requires
            delta_ns <= 0xffff_ffff_ffff_ffff,
            cntfrq <= 0xffff_ffff_ffff_ffff,
    ;
    let ticks: u128 = (delta_ns as u128) * (cntfrq as u128) / 1_000_000_000;
    if ticks > u64::MAX as u128 {
        u64::MAX
    } else {
        offset.saturating_add(ticks as u64)
    }
}

/// A pause of no length changes nothing.
pub proof fn no_pause_no_adjustment(offset: u64, cntfrq: u64)
    ensures
        frozen_offset(offset, 0, cntfrq) == offset,
{
    assert(0 * (cntfrq as int) == 0);
}

} // verus!
