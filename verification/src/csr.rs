//! Control and status registers.

use vstd::prelude::*;

use crate::cpu::{Cpu, Hart, Observed};
use crate::mmu::{flushed, pmp_reconfigured, pmpaddr_locked_of};
use crate::trap::Exception;
use crate::PrivMode;

verus! {

pub const MSTATUS_SIE: u64 = 0x2;

pub const MSTATUS_MIE: u64 = 0x8;

pub const MSTATUS_SPIE: u64 = 0x20;

pub const MSTATUS_MPIE: u64 = 0x80;

pub const MSTATUS_SPP: u64 = 0x100;

pub const MSTATUS_MPP_MASK: u64 = 0x1800;

pub const MSTATUS_FS_MASK: u64 = 0x6000;

pub const MSTATUS_MPRV: u64 = 0x2_0000;

pub const MSTATUS_SUM: u64 = 0x4_0000;

pub const MSTATUS_MXR: u64 = 0x8_0000;

pub const MSTATUS_TVM: u64 = 0x10_0000;

pub const MSTATUS_TW: u64 = 0x20_0000;

pub const MSTATUS_TSR: u64 = 0x40_0000;

/// UXL and SXL are read-only 64-bit.
pub const MSTATUS_XL: u64 = 0xa_0000_0000;

pub const MSTATUS_SD: u64 = 0x8000_0000_0000_0000;

/// The writable bits of mstatus: SIE, MIE, SPIE, MPIE, SPP, MPP, FS, MPRV,
/// SUM, MXR, TVM, TW and TSR.
pub const MSTATUS_WMASK: u64 = 0x7e_79aa;

/// The bits of mstatus writable through sstatus: SIE, SPIE, SPP, FS, SUM and
/// MXR.
pub const SSTATUS_WMASK: u64 = 0xc_6122;

/// sstatus UXL is read-only 2 (RV64); SXL must not leak into sstatus reads.
pub const SSTATUS_UXL: u64 = 0x3_0000_0000;

/// RV64, IMAFDC + S + U.
pub const MISA: u64 = 0x8000_0000_0014_112d;

/// Delegatable exceptions: everything defined except ecall-from-M.
pub const MEDELEG_MASK: u64 = 0xb3ff;

/// Delegatable interrupts: SSI, STI, SEI.
pub const MIDELEG_MASK: u64 = 0x222;

pub const MIE_MASK: u64 = 0xaaa;

/// mip bits writable through the CSR interface (SSIP, STIP, SEIP).
pub const MIP_WMASK: u64 = 0x222;

/// mip.SSIP: the supervisor software-interrupt pending bit.
pub const MIP_SSIP: u64 = 0x2;

/// The satp bits kept by a write: mode and root page number. The ASID field
/// is hard-wired to zero.
pub const SATP_WMASK: u64 = 0xf000_0fff_ffff_ffff;

/// pmpaddr holds 54 address bits.
pub const PMPADDR_MASK: u64 = 0x3f_ffff_ffff_ffff;

/// The composed masks are what their parts make them.
pub proof fn masks_are_their_parts()
    by (bit_vector)
    ensures
        MSTATUS_WMASK == MSTATUS_SIE | MSTATUS_MIE | MSTATUS_SPIE | MSTATUS_MPIE | MSTATUS_SPP
            | MSTATUS_MPP_MASK | MSTATUS_FS_MASK | MSTATUS_MPRV | MSTATUS_SUM | MSTATUS_MXR
            | MSTATUS_TVM | MSTATUS_TW | MSTATUS_TSR,
        SSTATUS_WMASK == MSTATUS_SIE | MSTATUS_SPIE | MSTATUS_SPP | MSTATUS_FS_MASK | MSTATUS_SUM
            | MSTATUS_MXR,
        MSTATUS_XL == (2u64 << 32u64) | (2u64 << 34u64),
        SSTATUS_UXL == 3u64 << 32u64,
        MISA == (2u64 << 62u64) | (1u64 << 0u64) | (1u64 << 2u64) | (1u64 << 3u64) | (1u64 << 5u64)
            | (1u64 << 8u64) | (1u64 << 12u64) | (1u64 << 18u64) | (1u64 << 20u64),
        SATP_WMASK == !(0xffffu64 << 44u64),
        PMPADDR_MASK == (1u64 << 54u64) - 1,
{
}

/// CSR storage. Interrupt lines live in `Cpu` as atomics and are OR-ed into
/// mip on read.
#[derive(Debug)]
pub struct CsrFile {
    pub mstatus: u64,
    /// Reset value is the full RV64 IMAFDC+S+U set; `Cpu::mask_misa` can
    /// clear bits (e.g. F/D while no FPU is wired up). Guest writes are
    /// ignored.
    pub misa: u64,
    pub medeleg: u64,
    pub mideleg: u64,
    pub mie: u64,
    pub mtvec: u64,
    pub mcounteren: u64,
    pub mcountinhibit: u64,
    pub menvcfg: u64,
    pub mscratch: u64,
    pub mepc: u64,
    pub mcause: u64,
    pub mtval: u64,
    pub mip: u64,
    pub mhartid: u64,
    pub stvec: u64,
    pub scounteren: u64,
    pub senvcfg: u64,
    pub sscratch: u64,
    pub sepc: u64,
    pub scause: u64,
    pub stval: u64,
    pub satp: u64,
    pub fcsr: u64,
    pub pmpcfg: [u64; 16],
    pub pmpaddr: [u64; 64],
}

/// What a `CsrFile` holds.
pub struct Csrs {
    pub mstatus: u64,
    pub misa: u64,
    pub medeleg: u64,
    pub mideleg: u64,
    pub mie: u64,
    pub mtvec: u64,
    pub mcounteren: u64,
    pub mcountinhibit: u64,
    pub menvcfg: u64,
    pub mscratch: u64,
    pub mepc: u64,
    pub mcause: u64,
    pub mtval: u64,
    pub mip: u64,
    pub mhartid: u64,
    pub stvec: u64,
    pub scounteren: u64,
    pub senvcfg: u64,
    pub sscratch: u64,
    pub sepc: u64,
    pub scause: u64,
    pub stval: u64,
    pub satp: u64,
    pub fcsr: u64,
    pub pmpcfg: Seq<u64>,
    pub pmpaddr: Seq<u64>,
}

impl View for CsrFile {
    type V = Csrs;

    open spec fn view(&self) -> Csrs {
        Csrs {
            mstatus: self.mstatus,
            misa: self.misa,
            medeleg: self.medeleg,
            mideleg: self.mideleg,
            mie: self.mie,
            mtvec: self.mtvec,
            mcounteren: self.mcounteren,
            mcountinhibit: self.mcountinhibit,
            menvcfg: self.menvcfg,
            mscratch: self.mscratch,
            mepc: self.mepc,
            mcause: self.mcause,
            mtval: self.mtval,
            mip: self.mip,
            mhartid: self.mhartid,
            stvec: self.stvec,
            scounteren: self.scounteren,
            senvcfg: self.senvcfg,
            sscratch: self.sscratch,
            sepc: self.sepc,
            scause: self.scause,
            stval: self.stval,
            satp: self.satp,
            fcsr: self.fcsr,
            pmpcfg: self.pmpcfg@,
            pmpaddr: self.pmpaddr@,
        }
    }
}

impl Csrs {
    /// All registers zero but misa and mhartid.
    pub open spec fn reset(hart_id: u64) -> Csrs {
        Csrs {
            mstatus: 0,
            misa: MISA,
            medeleg: 0,
            mideleg: 0,
            mie: 0,
            mtvec: 0,
            mcounteren: 0,
            mcountinhibit: 0,
            menvcfg: 0,
            mscratch: 0,
            mepc: 0,
            mcause: 0,
            mtval: 0,
            mip: 0,
            mhartid: hart_id,
            stvec: 0,
            scounteren: 0,
            senvcfg: 0,
            sscratch: 0,
            sepc: 0,
            scause: 0,
            stval: 0,
            satp: 0,
            fcsr: 0,
            pmpcfg: Seq::new(16, |i: int| 0u64),
            pmpaddr: Seq::new(64, |i: int| 0u64),
        }
    }

    /// mstatus as read: the fixed XL fields, and SD where FS is dirty.
    pub open spec fn mstatus_value(self) -> u64 {
        let v = self.mstatus | MSTATUS_XL;
        if self.mstatus & MSTATUS_FS_MASK == MSTATUS_FS_MASK {
            v | MSTATUS_SD
        } else {
            v
        }
    }
}

impl CsrFile {
    pub fn new(hart_id: u64) -> (r: Self)
        ensures
            r@ == Csrs::reset(hart_id),
    {
        let r = CsrFile {
            mstatus: 0,
            misa: MISA,
            medeleg: 0,
            mideleg: 0,
            mie: 0,
            mtvec: 0,
            mcounteren: 0,
            mcountinhibit: 0,
            menvcfg: 0,
            mscratch: 0,
            mepc: 0,
            mcause: 0,
            mtval: 0,
            mip: 0,
            mhartid: hart_id,
            stvec: 0,
            scounteren: 0,
            senvcfg: 0,
            sscratch: 0,
            sepc: 0,
            scause: 0,
            stval: 0,
            satp: 0,
            fcsr: 0,
            pmpcfg: [0u64; 16],
            pmpaddr: [0u64; 64],
        };
        assert(r@.pmpcfg =~= Csrs::reset(hart_id).pmpcfg);
        assert(r@.pmpaddr =~= Csrs::reset(hart_id).pmpaddr);
        r
    }

    pub fn mstatus_read(&self) -> (r: u64)
        ensures
            r == self@.mstatus_value(),
    {
        let v: u64 = self.mstatus | MSTATUS_XL;
        if self.mstatus & MSTATUS_FS_MASK == MSTATUS_FS_MASK {
            v | MSTATUS_SD
        } else {
            v
        }
    }
}

/// FS = Off makes the FP unit and its CSRs inaccessible.
pub open spec fn fs_on(h: Hart) -> bool {
    h.csrs.mstatus & MSTATUS_FS_MASK != 0
}

/// The hart with FS set to dirty.
pub open spec fn fs_dirtied(h: Hart) -> Hart {
    Hart { csrs: Csrs { mstatus: h.csrs.mstatus | MSTATUS_FS_MASK, ..h.csrs }, ..h }
}

/// cycle/time/instret/hpmcounterN access from S and U is gated by mcounteren
/// (and scounteren for U).
pub open spec fn counter_enabled(h: Hart, bit: u32) -> bool {
    match h.prv {
        PrivMode::M => true,
        PrivMode::S => h.csrs.mcounteren & (1u64 << bit) != 0,
        PrivMode::U => h.csrs.mcounteren & h.csrs.scounteren & (1u64 << bit) != 0,
    }
}

/// Bits 9:8 of a CSR number give the least privilege that may access it.
pub open spec fn csr_priv_ok(h: Hart, addr: u16) -> bool {
    h.prv.number() >= (addr >> 8) & 3
}

/// S-mode access to satp is trapped by mstatus.TVM.
pub open spec fn satp_trapped(h: Hart) -> bool {
    h.prv == PrivMode::S && h.csrs.mstatus & MSTATUS_TVM != 0
}

/// The value of CSR `addr`, where it exists and may be read. `o` is what the
/// interrupt lines and the shared timebase held.
#[verifier::opaque]
pub open spec fn csr_value(h: Hart, addr: u16, o: Observed) -> Option<u64> {
    let c = h.csrs;
    if !csr_priv_ok(h, addr) {
        None
    } else if 0x001 <= addr <= 0x003 {
        if !fs_on(h) {
            None
        } else if addr == 0x001 {
            Some(c.fcsr & 0x1f)
        } else if addr == 0x002 {
            Some((c.fcsr >> 5) & 7)
        } else {
            Some(c.fcsr & 0xff)
        }
    } else if addr == 0x100 {
        Some(c.mstatus_value() & (SSTATUS_WMASK | SSTATUS_UXL | MSTATUS_SD))
    } else if addr == 0x104 {
        Some(c.mie & c.mideleg)
    } else if addr == 0x105 {
        Some(c.stvec)
    } else if addr == 0x106 {
        Some(c.scounteren)
    } else if addr == 0x10a {
        Some(c.senvcfg)
    } else if addr == 0x140 {
        Some(c.sscratch)
    } else if addr == 0x141 {
        Some(c.sepc)
    } else if addr == 0x142 {
        Some(c.scause)
    } else if addr == 0x143 {
        Some(c.stval)
    } else if addr == 0x144 {
        Some((c.mip | o.lines) & c.mideleg)
    } else if addr == 0x180 {
        if satp_trapped(h) {
            None
        } else {
            Some(c.satp)
        }
    } else if addr == 0x300 {
        Some(c.mstatus_value())
    } else if addr == 0x301 {
        Some(c.misa)
    } else if addr == 0x302 {
        Some(c.medeleg)
    } else if addr == 0x303 {
        Some(c.mideleg)
    } else if addr == 0x304 {
        Some(c.mie)
    } else if addr == 0x305 {
        Some(c.mtvec)
    } else if addr == 0x306 {
        Some(c.mcounteren)
    } else if addr == 0x30a {
        Some(c.menvcfg)
    } else if addr == 0x320 {
        Some(c.mcountinhibit)
    } else if 0x323 <= addr <= 0x33f {
        Some(0)
    } else if addr == 0x340 {
        Some(c.mscratch)
    } else if addr == 0x341 {
        Some(c.mepc)
    } else if addr == 0x342 {
        Some(c.mcause)
    } else if addr == 0x343 {
        Some(c.mtval)
    } else if addr == 0x344 {
        Some(c.mip | o.lines)
    } else if 0x3a0 <= addr <= 0x3af && addr % 2 == 0 {
        // RV64: only the even-numbered pmpcfg registers exist.
        Some(c.pmpcfg[addr - 0x3a0])
    } else if 0x3b0 <= addr <= 0x3ef {
        Some(c.pmpaddr[addr - 0x3b0])
    } else if addr == 0x7a0 {
        // No triggers: tselect reads back a value that can never be written.
        Some(u64::MAX)
    } else if addr == 0xb00 || addr == 0xb02 {
        Some(h.instret)
    } else if 0xb03 <= addr <= 0xb1f {
        Some(0)
    } else if 0xc00 <= addr <= 0xc1f {
        if !counter_enabled(h, (addr - 0xc00) as u32) {
            None
        } else if addr == 0xc01 {
            Some(h.clock.reading(h.instret, o.time))
        } else if addr <= 0xc02 {
            Some(h.instret)
        } else {
            Some(0)
        }
    } else if addr == 0xf14 {
        Some(c.mhartid)
    } else if 0xf11 <= addr <= 0xf15 {
        Some(0)
    } else {
        None
    }
}

/// tvec is WARL: only direct (0) and vectored (1) modes exist; another mode
/// leaves the mode field as it was.
pub open spec fn tvec_written(old_tvec: u64, val: u64) -> u64 {
    if val & 3 <= 1 {
        val
    } else {
        (val & !3) | (old_tvec & 3)
    }
}

/// mstatus after a write: MPP is WARL, 2 is not a mode and keeps the old one.
pub open spec fn mstatus_written(before: u64, val: u64) -> u64 {
    let new = (before & !MSTATUS_WMASK) | (val & MSTATUS_WMASK);
    if new & MSTATUS_MPP_MASK == 0x1000 {
        (new & !MSTATUS_MPP_MASK) | (before & MSTATUS_MPP_MASK)
    } else {
        new
    }
}

/// Byte `j` of a pmpcfg register after a write: a locked entry is read-only,
/// bits 6:5 are reserved (WARL zero).
pub open spec fn pmpcfg_byte_written(before: u64, val: u64, j: u64) -> u64 {
    if (before >> (8 * j)) & 0x80 != 0 {
        (before >> (8 * j)) & 0xff
    } else {
        (val >> (8 * j)) & 0x9f
    }
}

/// The first `n` bytes of a pmpcfg register after a write.
pub open spec fn pmpcfg_bytes_written(before: u64, val: u64, n: nat) -> u64
    decreases n,
{
    if n == 0 {
        0
    } else {
        let j = (n - 1) as u64;
        pmpcfg_bytes_written(before, val, j as nat) | (pmpcfg_byte_written(before, val, j) << ((8
            * j) as u64))
    }
}

/// A pmpcfg register after a write.
pub open spec fn pmpcfg_written(before: u64, val: u64) -> u64 {
    pmpcfg_bytes_written(before, val, 8)
}

/// The hart after writing `val` to CSR `addr`; `None` where the CSR does not
/// exist, is read-only or may not be accessed.
#[verifier::opaque]
pub open spec fn csr_written(h: Hart, addr: u16, val: u64) -> Option<Hart> {
    let c = h.csrs;
    if !csr_priv_ok(h, addr) || addr >= 0xc00 {
        None
    } else if 0x001 <= addr <= 0x003 {
        if !fs_on(h) {
            None
        } else if addr == 0x001 {
            Some(
                fs_dirtied(
                    Hart { csrs: Csrs { fcsr: (c.fcsr & !0x1f) | (val & 0x1f), ..c }, ..h },
                ),
            )
        } else if addr == 0x002 {
            Some(
                fs_dirtied(
                    Hart { csrs: Csrs { fcsr: (c.fcsr & !0xe0) | ((val & 7) << 5), ..c }, ..h },
                ),
            )
        } else {
            Some(fs_dirtied(Hart { csrs: Csrs { fcsr: val & 0xff, ..c }, ..h }))
        }
    } else if addr == 0x100 {
        Some(
            Hart {
                csrs: Csrs {
                    mstatus: (c.mstatus & !SSTATUS_WMASK) | (val & SSTATUS_WMASK),
                    ..c
                },
                ..h
            },
        )
    } else if addr == 0x104 {
        let mask = c.mideleg & MIE_MASK;
        Some(Hart { csrs: Csrs { mie: (c.mie & !mask) | (val & mask), ..c }, ..h })
    } else if addr == 0x105 {
        Some(Hart { csrs: Csrs { stvec: tvec_written(c.stvec, val), ..c }, ..h })
    } else if addr == 0x106 {
        Some(Hart { csrs: Csrs { scounteren: val & 0xffff_ffff, ..c }, ..h })
    } else if addr == 0x10a {
        Some(Hart { csrs: Csrs { senvcfg: val, ..c }, ..h })
    } else if addr == 0x140 {
        Some(Hart { csrs: Csrs { sscratch: val, ..c }, ..h })
    } else if addr == 0x141 {
        Some(Hart { csrs: Csrs { sepc: val & !1, ..c }, ..h })
    } else if addr == 0x142 {
        Some(Hart { csrs: Csrs { scause: val, ..c }, ..h })
    } else if addr == 0x143 {
        Some(Hart { csrs: Csrs { stval: val, ..c }, ..h })
    } else if addr == 0x144 {
        // Only SSIP is software-writable from the S view.
        let mask = 0x2 & c.mideleg;
        Some(Hart { csrs: Csrs { mip: (c.mip & !mask) | (val & mask), ..c }, ..h })
    } else if addr == 0x180 {
        if satp_trapped(h) {
            None
        } else if val >> 60 == 0 || val >> 60 == 8 || val >> 60 == 9 {
            Some(flushed(Hart { csrs: Csrs { satp: val & SATP_WMASK, ..c }, ..h }))
        } else {
            Some(h)
        }
    } else if addr == 0x300 {
        Some(Hart { csrs: Csrs { mstatus: mstatus_written(c.mstatus, val), ..c }, ..h })
    } else if addr == 0x302 {
        Some(Hart { csrs: Csrs { medeleg: val & MEDELEG_MASK, ..c }, ..h })
    } else if addr == 0x303 {
        Some(Hart { csrs: Csrs { mideleg: val & MIDELEG_MASK, ..c }, ..h })
    } else if addr == 0x304 {
        Some(Hart { csrs: Csrs { mie: val & MIE_MASK, ..c }, ..h })
    } else if addr == 0x305 {
        Some(Hart { csrs: Csrs { mtvec: tvec_written(c.mtvec, val), ..c }, ..h })
    } else if addr == 0x306 {
        Some(Hart { csrs: Csrs { mcounteren: val & 0xffff_ffff, ..c }, ..h })
    } else if addr == 0x30a {
        Some(Hart { csrs: Csrs { menvcfg: val, ..c }, ..h })
    } else if addr == 0x320 {
        Some(Hart { csrs: Csrs { mcountinhibit: val & 0xffff_ffff, ..c }, ..h })
    } else if addr == 0x340 {
        Some(Hart { csrs: Csrs { mscratch: val, ..c }, ..h })
    } else if addr == 0x341 {
        Some(Hart { csrs: Csrs { mepc: val & !1, ..c }, ..h })
    } else if addr == 0x342 {
        Some(Hart { csrs: Csrs { mcause: val, ..c }, ..h })
    } else if addr == 0x343 {
        Some(Hart { csrs: Csrs { mtval: val, ..c }, ..h })
    } else if addr == 0x344 {
        Some(Hart { csrs: Csrs { mip: val & MIP_WMASK, ..c }, ..h })
    } else if 0x3a0 <= addr <= 0x3af && addr % 2 == 0 {
        let i = addr - 0x3a0;
        Some(
            pmp_reconfigured(
                Hart {
                    csrs: Csrs {
                        pmpcfg: c.pmpcfg.update(i, pmpcfg_written(c.pmpcfg[i], val)),
                        ..c
                    },
                    ..h
                },
            ),
        )
    } else if 0x3b0 <= addr <= 0x3ef {
        let i = addr - 0x3b0;
        if pmpaddr_locked_of(c, i) {
            Some(h)
        } else {
            Some(
                Hart { csrs: Csrs { pmpaddr: c.pmpaddr.update(i, val & PMPADDR_MASK), ..c }, ..h },
            )
        }
    } else if addr == 0xb00 || addr == 0xb02 {
        // mcycle/minstret (cycle mirrors instret). A write suppresses the
        // writing instruction's own increment, so the next instruction reads
        // exactly the written value.
        Some(Hart { instret: val.wrapping_sub(1), ..h })
    } else if addr == 0x301 || 0x323 <= addr <= 0x33f || addr == 0x7a0 || 0xb03 <= addr <= 0xb1f {
        // misa, mhpmevent, tselect and mhpmcounter ignore writes.
        Some(h)
    } else {
        None
    }
}

/// The illegal-instruction exception of a refused CSR access. Its tval is
/// filled in with the instruction bits by whoever executes the access.
pub open spec fn csr_refused<T>() -> Result<T, Exception> {
    Err(Exception::IllegalInstruction(0))
}

impl Cpu {
    pub fn check_fs_on(&self) -> (r: Result<(), Exception>)
        ensures
            r == (if fs_on(self@) {
                Ok(())
            } else {
                csr_refused()
            }),
    {
        if self.csrs.mstatus & MSTATUS_FS_MASK == 0 {
            // FS = Off: fp CSR accesses are illegal. tval filled by caller.
            Err(Exception::IllegalInstruction(0))
        } else {
            Ok(())
        }
    }

    pub fn mark_fs_dirty(&mut self)
        requires
            old(self).wf(),
        ensures
            final(self).wf(),
            final(self)@ == fs_dirtied(old(self)@),
    {
        self.csrs.mstatus = self.csrs.mstatus | MSTATUS_FS_MASK;
    }

    fn check_counter(&self, bit: u32) -> (r: bool)
        requires
            bit < 64,
        ensures
            r == counter_enabled(self@, bit),
    {
        match self.priv_mode {
            PrivMode::M => true,
            PrivMode::S => self.csrs.mcounteren & (1u64 << bit) != 0,
            PrivMode::U => self.csrs.mcounteren & self.csrs.scounteren & (1u64 << bit) != 0,
        }
    }

    fn check_csr_priv(&self, addr: u16) -> (r: bool)
        ensures
            r == csr_priv_ok(self@, addr),
    {
        self.priv_mode.bits() >= ((addr >> 8) & 3) as u64
    }

    /// Host-side CSR read (no privilege checks beyond current mode). What the
    /// interrupt lines and a shared timebase hold is up to their owners.
    pub fn csr_read(&mut self, addr: u16) -> (r: Result<u64, Exception>)
        requires
            old(self).wf(),
        ensures
            final(self).wf(),
            final(self)@ == old(self)@,
            exists|o: Observed|
                r == (match #[trigger] csr_value(old(self)@, addr, o) {
                    Some(v) => Ok(v),
                    None => csr_refused(),
                }),
    {
        let o = self.observe(addr);
        self.csr_read_observed(addr, o)
    }

    /// The value of a CSR, given what the interrupt lines and the shared
    /// timebase held.
    pub fn csr_read_observed(&self, addr: u16, o: Observed) -> (r: Result<u64, Exception>)
        requires
            self.wf(),
        ensures
            r == (match csr_value(self@, addr, o) {
                Some(v) => Ok(v),
                None => csr_refused(),
            }),
    {
        proof {
            reveal(csr_value);
        }
        if !self.check_csr_priv(addr) {
            return Err(Exception::IllegalInstruction(0));
        }
        let c = &self.csrs;
        let v: u64 = match addr {
            0x001 => {
                if self.check_fs_on().is_err() {
                    return Err(Exception::IllegalInstruction(0));
                }
                c.fcsr & 0x1f
            },
            0x002 => {
                if self.check_fs_on().is_err() {
                    return Err(Exception::IllegalInstruction(0));
                }
                (c.fcsr >> 5) & 7
            },
            0x003 => {
                if self.check_fs_on().is_err() {
                    return Err(Exception::IllegalInstruction(0));
                }
                c.fcsr & 0xff
            },
            0x100 => c.mstatus_read() & (SSTATUS_WMASK | SSTATUS_UXL | MSTATUS_SD),
            0x104 => c.mie & c.mideleg,
            0x105 => c.stvec,
            0x106 => c.scounteren,
            0x10a => c.senvcfg,
            0x140 => c.sscratch,
            0x141 => c.sepc,
            0x142 => c.scause,
            0x143 => c.stval,
            0x144 => (c.mip | o.lines) & c.mideleg,
            0x180 => {
                if self.priv_mode == PrivMode::S && c.mstatus & MSTATUS_TVM != 0 {
                    return Err(Exception::IllegalInstruction(0));
                }
                c.satp
            },
            0x300 => c.mstatus_read(),
            0x301 => c.misa,
            0x302 => c.medeleg,
            0x303 => c.mideleg,
            0x304 => c.mie,
            0x305 => c.mtvec,
            0x306 => c.mcounteren,
            0x30a => c.menvcfg,
            0x320 => c.mcountinhibit,
            0x323..=0x33f => 0,  // mhpmevent3..31
            0x340 => c.mscratch,
            0x341 => c.mepc,
            0x342 => c.mcause,
            0x343 => c.mtval,
            0x344 => c.mip | o.lines,
            0x3a0..=0x3af if addr % 2 == 0 => c.pmpcfg[(addr - 0x3a0) as usize],
            0x3b0..=0x3ef => c.pmpaddr[(addr - 0x3b0) as usize],
            0x7a0 => u64::MAX,
            0xb00 | 0xb02 => self.instret,
            0xb03..=0xb1f => 0,  // mhpmcounter3..31
            0xc00..=0xc1f => {
                if !self.check_counter((addr - 0xc00) as u32) {
                    return Err(Exception::IllegalInstruction(0));
                }
                match addr {
                    0xc00 | 0xc02 => self.instret,
                    0xc01 => match &self.clock {
                        crate::Clock::Deterministic { shift } => self.instret >> *shift,
                        crate::Clock::External(_) => o.time,
                    },
                    _ => 0,
                }
            },
            0xf11 | 0xf12 | 0xf13 | 0xf15 => 0,  // mvendorid/marchid/mimpid/mconfigptr
            0xf14 => c.mhartid,
            _ => return Err(Exception::IllegalInstruction(0)),
        };
        Ok(v)
    }

    pub fn csr_write(&mut self, addr: u16, val: u64) -> (r: Result<(), Exception>)
        requires
            old(self).wf(),
        ensures
            final(self).wf(),
            match csr_written(old(self)@, addr, val) {
                Some(h) => r == Ok::<(), Exception>(()) && final(self)@ == h,
                None => r == csr_refused::<()>() && final(self)@ == old(self)@,
            },
    {
        proof {
            reveal(csr_written);
        }
        // Bits 11:10 == 11 marks the read-only address space.
        if !self.check_csr_priv(addr) || addr >= 0xc00 {
            return Err(Exception::IllegalInstruction(0));
        }
        match addr {
            0x001..=0x003 => {
                if self.check_fs_on().is_err() {
                    return Err(Exception::IllegalInstruction(0));
                }
                self.csrs.fcsr = match addr {
                    0x001 => (self.csrs.fcsr & !0x1f) | (val & 0x1f),
                    0x002 => (self.csrs.fcsr & !0xe0) | ((val & 7) << 5),
                    _ => val & 0xff,
                };
                self.mark_fs_dirty();
            },
            0x100 => {
                self.csrs.mstatus = (self.csrs.mstatus & !SSTATUS_WMASK) | (val & SSTATUS_WMASK);
            },
            0x104 => {
                let mask: u64 = self.csrs.mideleg & MIE_MASK;
                self.csrs.mie = (self.csrs.mie & !mask) | (val & mask);
            },
            0x105 => {
                self.csrs.stvec = warl_tvec(self.csrs.stvec, val);
            },
            0x106 => {
                self.csrs.scounteren = val & 0xffff_ffff;
            },
            0x10a => {
                self.csrs.senvcfg = val;
            },
            0x140 => {
                self.csrs.sscratch = val;
            },
            0x141 => {
                self.csrs.sepc = val & !1;
            },
            0x142 => {
                self.csrs.scause = val;
            },
            0x143 => {
                self.csrs.stval = val;
            },
            0x144 => {
                // Only SSIP is software-writable from the S view.
                let mask: u64 = 0x2 & self.csrs.mideleg;
                self.csrs.mip = (self.csrs.mip & !mask) | (val & mask);
            },
            0x180 => {
                if self.priv_mode == PrivMode::S && self.csrs.mstatus & MSTATUS_TVM != 0 {
                    return Err(Exception::IllegalInstruction(0));
                }
                // WARL: only Bare/Sv39/Sv48 are accepted; writes with other
                // modes leave satp unchanged (Linux probes modes this way).
                // ASID is hard-wired to 0: every accepted write flushes the
                // TLB, so translations can never outlive their satp.
                let mode: u64 = val >> 60;
                if mode == 0 || mode == 8 || mode == 9 {
                    self.csrs.satp = val & SATP_WMASK;
                    self.flush_tlb();
                }
            },
            0x300 => {
                let old: u64 = self.csrs.mstatus;
                let mut new: u64 = (old & !MSTATUS_WMASK) | (val & MSTATUS_WMASK);
                // MPP is WARL: 2 is not a mode; keep the old value.
                if new & MSTATUS_MPP_MASK == 0x1000 {
                    new = (new & !MSTATUS_MPP_MASK) | (old & MSTATUS_MPP_MASK);
                }
                self.csrs.mstatus = new;
            },
            0x301 => {},  // misa writes ignored
            0x302 => {
                self.csrs.medeleg = val & MEDELEG_MASK;
            },
            0x303 => {
                self.csrs.mideleg = val & MIDELEG_MASK;
            },
            0x304 => {
                self.csrs.mie = val & MIE_MASK;
            },
            0x305 => {
                self.csrs.mtvec = warl_tvec(self.csrs.mtvec, val);
            },
            0x306 => {
                self.csrs.mcounteren = val & 0xffff_ffff;
            },
            0x30a => {
                self.csrs.menvcfg = val;
            },
            0x320 => {
                self.csrs.mcountinhibit = val & 0xffff_ffff;
            },
            0x323..=0x33f => {},  // mhpmevent writes ignored
            0x340 => {
                self.csrs.mscratch = val;
            },
            0x341 => {
                self.csrs.mepc = val & !1;
            },
            0x342 => {
                self.csrs.mcause = val;
            },
            0x343 => {
                self.csrs.mtval = val;
            },
            0x344 => {
                self.csrs.mip = val & MIP_WMASK;
            },
            0x3a0..=0x3af if addr % 2 == 0 => {
                let idx: usize = (addr - 0x3a0) as usize;
                self.csrs.pmpcfg[idx] = warl_pmpcfg(self.csrs.pmpcfg[idx], val);
                self.update_pmp_active();
            },
            0x3b0..=0x3ef => {
                let i: usize = (addr - 0x3b0) as usize;
                if !self.pmpaddr_locked(i) {
                    // Address bits are 54-bit WARL (grain G = 0).
                    proof {
                        lemma_pmpaddr_masked(val);
                    }
                    self.csrs.pmpaddr[i] = val & PMPADDR_MASK;
                }
            },
            0x7a0 => {},  // tselect: no triggers, writes ignored
            0xb00 | 0xb02 => {
                self.instret = val.wrapping_sub(1);
            },
            0xb03..=0xb1f => {},  // mhpmcounter writes ignored
            _ => return Err(Exception::IllegalInstruction(0)),
        }
        Ok(())
    }
}

proof fn lemma_pmpaddr_masked(val: u64)
    by (bit_vector)
    ensures
        val & PMPADDR_MASK < 0x40_0000_0000_0000,
{
}

/// tvec is WARL: only direct (0) and vectored (1) modes exist.
fn warl_tvec(old_tvec: u64, val: u64) -> (r: u64)
    ensures
        r == tvec_written(old_tvec, val),
{
    if val & 3 <= 1 {
        val
    } else {
        (val & !3) | (old_tvec & 3)
    }
}

/// Locked pmpcfg entries are read-only; bits 6:5 of each byte are reserved
/// (WARL zero).
fn warl_pmpcfg(before: u64, val: u64) -> (r: u64)
    ensures
        r == pmpcfg_written(before, val),
{
    let mut new: u64 = 0;
    let mut j: u64 = 0;
    while j < 8
        invariant
            j <= 8,
            new == pmpcfg_bytes_written(before, val, j as nat),
        decreases 8 - j,
    {
        let ob: u64 = before >> (8 * j);
        let nb: u64 = if ob & 0x80 != 0 {
            ob & 0xff
        } else {
            (val >> (8 * j)) & 0x9f
        };
        new = new | (nb << (8 * j));
        j = j + 1;
    }
    new
}

} // verus!
