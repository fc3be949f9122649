//! A riscv64 CPU core and the bookkeeping of a microVM monitor.

use std::sync::atomic::{AtomicU64, Ordering};
use std::sync::Arc;

use vstd::prelude::*;

pub mod accesses;
pub mod bytes;
pub mod compressed;
pub mod config;
pub mod contexts;
pub mod control;
pub mod conversions;
pub mod courses;
pub mod cpu;
pub mod csr;
pub mod decode;
pub mod egress;
pub mod elf;
pub mod encoding;
pub mod errno;
pub mod exec;
pub mod exits;
pub mod formats;
pub mod fpu;
pub mod guest;
pub mod hvf;
pub mod hvf_vcpu;
pub mod images;
pub mod interfaces;
pub mod jobs;
pub mod laws;
pub mod logging;
pub mod machine;
pub mod manifest;
pub mod mem;
pub mod mmu;
pub mod net;
pub mod nitro;
pub mod overlay;
pub mod paging;
pub mod peripherals;
pub mod platform;
pub mod plic;
pub mod prepared_saves;
pub mod privileged;
pub mod protection;
pub mod restore;
pub mod numeric;
pub mod rounding;
pub mod saving;
pub mod sbi;
pub mod semantics;
pub mod settings;
pub mod snapshot;
pub mod sockets;
pub mod softfloat;
pub mod soundness;
pub mod start;
pub mod starting;
pub mod storage;
pub mod text;
pub mod texts;
pub mod trap;
pub mod waiting;

pub use cpu::Cpu;
pub use mem::GuestRam;
pub use plic::Plic;
pub use trap::Exception;

verus! {

/// Privilege modes of the privileged architecture.
#[derive(Debug, Clone, Copy, PartialEq, Eq, Structural, PartialOrd, Ord)]
pub enum PrivMode {
    U,
    S,
    M,
}

impl PrivMode {
    /// The mode's number, as the privileged architecture encodes it.
    pub open spec fn number(self) -> u64 {
        match self {
            PrivMode::U => 0,
            PrivMode::S => 1,
            PrivMode::M => 3,
        }
    }

    pub fn bits(self) -> (r: u64)
        ensures
            r == self.number(),
    {
        match self {
            PrivMode::U => 0,
            PrivMode::S => 1,
            PrivMode::M => 3,
        }
    }
}

/// Reasons `Cpu::run()` returns to the caller.
#[derive(Debug, Clone, Copy, PartialEq, Eq, Structural)]
pub enum VmExit {
    /// Load outside guest RAM. The cpu holds the target register and size;
    /// pc does not advance until `Cpu::complete_mmio_read()` supplies the data.
    MmioRead { addr: u64, size: u8 },
    /// Store outside guest RAM. pc has already advanced; the caller performs
    /// the bus write and calls `run()` again.
    MmioWrite { addr: u64, size: u8, data: u64 },
    /// `ecall` reported to the caller (SBI): only from S-mode with
    /// `sbi_mode` enabled. pc has advanced past the ecall.
    Ecall { from: PrivMode },
    /// `wfi` with no pending-and-enabled interrupt. pc has advanced.
    Wfi,
    /// A kick was observed.
    Interrupted,
    /// The instruction budget was exhausted.
    InstrLimit,
    /// A store hit the registered `tohost` address; `code` is the 64-bit
    /// value now in that RAM word (HTIF encoding).
    Shutdown { code: u64 },
}

/// Interrupt lines, each with its mip/mie bit position.
#[derive(Debug, Clone, Copy, PartialEq, Eq, Structural)]
pub enum IrqLine {
    SSoft,
    MSoft,
    STimer,
    MTimer,
    SExt,
    MExt,
}

impl IrqLine {
    /// The line's bit position in mip and mie.
    pub open spec fn position(self) -> u32 {
        match self {
            IrqLine::SSoft => 1,
            IrqLine::MSoft => 3,
            IrqLine::STimer => 5,
            IrqLine::MTimer => 7,
            IrqLine::SExt => 9,
            IrqLine::MExt => 11,
        }
    }

    pub fn bit(self) -> (r: u32)
        ensures
            r == self.position(),
    {
        match self {
            IrqLine::SSoft => 1,
            IrqLine::MSoft => 3,
            IrqLine::STimer => 5,
            IrqLine::MTimer => 7,
            IrqLine::SExt => 9,
            IrqLine::MExt => 11,
        }
    }
}

/// Source for the `time` CSR.
#[derive(Debug, Clone)]
pub enum Clock {
    /// time = instret >> shift. Fully reproducible; used by tests.
    Deterministic { shift: u32 },
    /// time is maintained by the VMM (shared guest timebase).
    External(Arc<AtomicU64>),
}

impl Clock {
    /// A deterministic clock shifts by less than the width of the counter.
    pub open spec fn wf(self) -> bool {
        self matches Clock::Deterministic { shift } ==> shift < 64
    }

    /// The time, where `observed` is what the shared timebase held.
    pub open spec fn reading(self, instret: u64, observed: u64) -> u64 {
        match self {
            Clock::Deterministic { shift } => instret >> shift,
            Clock::External(_) => observed,
        }
    }

    /// The current time. What a shared timebase holds is up to its owner.
    pub fn now(&self, instret: u64) -> (r: u64)
        requires
            self.wf(),
        ensures
            exists|observed: u64| r == #[trigger] self.reading(instret, observed),
    {
        let r: u64 = match self {
            Clock::Deterministic { shift } => instret >> *shift,
            Clock::External(t) => t.load(Ordering::Acquire),
        };
        assert(r == self.reading(instret, r));
        r
    }
}

} // verus!
