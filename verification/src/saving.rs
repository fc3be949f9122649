//! What is saved of a virtual processor and written back: which registers, in
//! which order, and which value goes to which of them; and what is kept of the
//! calls that name strings, ports and a display.

use vstd::prelude::*;

use crate::config::{Host, Settings, VsockConfig};
use crate::contexts::{array_of, utf8_texts, Ctxs};
use crate::errno::Errno;
use crate::hvf::HvfVcpuState;
use crate::hvf_vcpu::{
    capture_plan, config_regs, control_reg, restore_plan, VcpuRead, VcpuReg, VcpuWrite,
};
use crate::machine::smbios_oem_strings_set;
use crate::peripherals::display_backend_set;
use crate::settings::{took, turned_down};
use crate::sockets::{port_map_set, ports_of};

verus! {

/// The number of the system register with operands 3 and 0 and the given
/// coprocessor registers and last operand.
pub open spec fn interface_register(crn: int, crm: int, op2: int) -> int {
    3 * 0x4000 + crn * 0x80 + crm * 8 + op2
}

/// Every general, vector and system register is read, with the processor's
/// part of the interrupt controller and the offset of its timer.
#[verifier::rlimit(50)]
pub proof fn every_register_is_saved(sys: Seq<u16>, i: int)
    ensures
        ({
            let p = capture_plan(sys);
            &&& 0 <= i < 31 ==> p.contains(VcpuRead::Reg(VcpuReg::X(i as u32)))
            &&& p.contains(VcpuRead::Reg(VcpuReg::Pc))
            &&& p.contains(VcpuRead::Reg(VcpuReg::Cpsr))
            &&& p.contains(VcpuRead::Reg(VcpuReg::Fpcr))
            &&& p.contains(VcpuRead::Reg(VcpuReg::Fpsr))
            &&& 0 <= i < 32 ==> p.contains(VcpuRead::Simd(i as u32))
            &&& 0 <= i < sys.len() ==> p.contains(VcpuRead::Sys(sys[i]))
            &&& p.contains(VcpuRead::VtimerOffset)
        }),
{
    let p = capture_plan(sys);
    if 0 <= i < 31 {
        assert(p[i] == VcpuRead::Reg(VcpuReg::X(i as u32)));
    }
    assert(p[31] == VcpuRead::Reg(VcpuReg::Pc));
    assert(p[32] == VcpuRead::Reg(VcpuReg::Cpsr));
    assert(p[33] == VcpuRead::Reg(VcpuReg::Fpcr));
    assert(p[34] == VcpuRead::Reg(VcpuReg::Fpsr));
    if 0 <= i < 32 {
        assert(p[35 + i] == VcpuRead::Simd(i as u32));
    }
    if 0 <= i < sys.len() {
        assert(p[67 + i] == VcpuRead::Sys(sys[i]));
    }
    assert(p[88 + sys.len() as int] == VcpuRead::VtimerOffset);
}

/// Of the interrupt controller, the groups, enables, priorities and triggers
/// of the processor's own interrupts are read, and the registers of its
/// interface, the one that opens the interface before all others of it.
#[verifier::rlimit(50)]
pub proof fn the_interrupt_controller_is_saved(sys: Seq<u16>, i: int)
    ensures
        ({
            let p = capture_plan(sys);
            let n = sys.len() as int;
            &&& p.contains(VcpuRead::Redist(0x1_0080))
            &&& p.contains(VcpuRead::Redist(0x1_0100))
            &&& 0 <= i < 8 ==> p.contains(VcpuRead::Redist((0x1_0400 + 4 * i) as u32))
            &&& p.contains(VcpuRead::Redist(0x1_0c00))
            &&& p.contains(VcpuRead::Redist(0x1_0c04))
            &&& p[79 + n] == VcpuRead::Icc(interface_register(12, 12, 5) as u32)
            &&& 0 <= i < 79 + n ==> p[i] !is Icc
            &&& p.contains(VcpuRead::Icc(interface_register(4, 6, 0) as u32))
            &&& p.contains(VcpuRead::Icc(interface_register(12, 8, 3) as u32))
            &&& p.contains(VcpuRead::Icc(interface_register(12, 12, 3) as u32))
            &&& p.contains(VcpuRead::Icc(interface_register(12, 8, 4) as u32))
            &&& p.contains(VcpuRead::Icc(interface_register(12, 9, 0) as u32))
            &&& p.contains(VcpuRead::Icc(interface_register(12, 12, 4) as u32))
            &&& p.contains(VcpuRead::Icc(interface_register(12, 12, 6) as u32))
            &&& p.contains(VcpuRead::Icc(interface_register(12, 12, 7) as u32))
        }),
{
    let p = capture_plan(sys);
    let n = sys.len() as int;
    assert(p[67 + n] == VcpuRead::Redist(0x1_0080));
    assert(p[78 + n] == VcpuRead::Redist(0x1_0100));
    if 0 <= i < 8 {
        assert(p[68 + n + i] == VcpuRead::Redist((0x1_0400 + 4 * i) as u32));
    }
    assert(p[76 + n] == VcpuRead::Redist(0x1_0c00));
    assert(p[77 + n] == VcpuRead::Redist(0x1_0c04));
    assert(p[79 + n] == VcpuRead::Icc(interface_register(12, 12, 5) as u32));
    assert(p[80 + n] == VcpuRead::Icc(interface_register(4, 6, 0) as u32));
    assert(p[81 + n] == VcpuRead::Icc(interface_register(12, 8, 3) as u32));
    assert(p[82 + n] == VcpuRead::Icc(interface_register(12, 12, 3) as u32));
    assert(p[83 + n] == VcpuRead::Icc(interface_register(12, 8, 4) as u32));
    assert(p[84 + n] == VcpuRead::Icc(interface_register(12, 9, 0) as u32));
    assert(p[85 + n] == VcpuRead::Icc(interface_register(12, 12, 4) as u32));
    assert(p[86 + n] == VcpuRead::Icc(interface_register(12, 12, 6) as u32));
    assert(p[87 + n] == VcpuRead::Icc(interface_register(12, 12, 7) as u32));
}

/// Each saved value is written to the register that it was saved of, the
/// system registers before all others and the timer's offset after them.
#[verifier::rlimit(50)]
pub proof fn every_register_is_written_back(s: HvfVcpuState, i: int)
    ensures
        ({
            let p = restore_plan(s);
            let n = s.sys@.len() as int;
            &&& 0 <= i < n ==> p[i] == VcpuWrite::Sys(s.sys@[i].0, s.sys@[i].1)
            &&& 0 <= i < 31 ==> p.contains(VcpuWrite::Reg(VcpuReg::X(i as u32), s.gp@[i]))
            &&& p.contains(VcpuWrite::Reg(VcpuReg::Pc, s.pc))
            &&& p.contains(VcpuWrite::Reg(VcpuReg::Cpsr, s.cpsr))
            &&& p.contains(VcpuWrite::Reg(VcpuReg::Fpcr, s.fpcr))
            &&& p.contains(VcpuWrite::Reg(VcpuReg::Fpsr, s.fpsr))
            &&& 0 <= i < 32 ==> p.contains(VcpuWrite::Simd(i as u32, s.simd@[i]))
            &&& 0 <= i < s.gic_redist@.len() ==> p.contains(
                VcpuWrite::Redist(s.gic_redist@[i].0, s.gic_redist@[i].1),
            )
            &&& 0 <= i < s.gic_icc@.len() ==> p.contains(
                VcpuWrite::Icc(s.gic_icc@[i].0, s.gic_icc@[i].1),
            )
            &&& p.last() == VcpuWrite::VtimerOffset(s.vtimer_offset)
            &&& p.len() == n + 31 + 4 + 32 + s.gic_redist@.len() + s.gic_icc@.len() + 1
        }),
{
    let p = restore_plan(s);
    let n = s.sys@.len() as int;
    let m = s.gic_redist@.len() as int;
    if 0 <= i < 31 {
        assert(p[n + i] == VcpuWrite::Reg(VcpuReg::X(i as u32), s.gp@[i]));
    }
    assert(p[n + 31] == VcpuWrite::Reg(VcpuReg::Pc, s.pc));
    assert(p[n + 32] == VcpuWrite::Reg(VcpuReg::Cpsr, s.cpsr));
    assert(p[n + 33] == VcpuWrite::Reg(VcpuReg::Fpcr, s.fpcr));
    assert(p[n + 34] == VcpuWrite::Reg(VcpuReg::Fpsr, s.fpsr));
    if 0 <= i < 32 {
        assert(p[n + 35 + i] == VcpuWrite::Simd(i as u32, s.simd@[i]));
    }
    if 0 <= i < m {
        assert(p[n + 67 + i] == VcpuWrite::Redist(s.gic_redist@[i].0, s.gic_redist@[i].1));
    }
    if 0 <= i < s.gic_icc@.len() {
        assert(p[n + 67 + m + i] == VcpuWrite::Icc(s.gic_icc@[i].0, s.gic_icc@[i].1));
    }
}

/// All that was saved of the distributor is written back in its order but for
/// its first register.
pub proof fn the_distributor_is_written_back(regs: Seq<(u32, u64)>)
    ensures
        config_regs(regs) == regs.filter(|p: (u32, u64)| p.0 != 0),
    decreases regs.len(),
{
    reveal(Seq::filter);
    if regs.len() > 0 {
        the_distributor_is_written_back(regs.drop_last());
    }
    assert(config_regs(regs) =~= regs.filter(|p: (u32, u64)| p.0 != 0));
}

/// That register is written once, with the first value saved of it.
pub proof fn the_distributor_is_enabled_as_it_was(regs: Seq<(u32, u64)>, i: int)
    requires
        0 <= i <= regs.len(),
        forall|j: int| 0 <= j < i ==> (#[trigger] regs[j]).0 != 0,
        i < regs.len() ==> regs[i].0 == 0,
    ensures
        i < regs.len() ==> control_reg(regs) == seq![regs[i]],
        i == regs.len() ==> control_reg(regs) == Seq::<(u32, u64)>::empty(),
    decreases regs.len(),
{
    if i > 0 {
        assert(regs[0].0 != 0);
        let rest = regs.drop_first();
        assert forall|j: int| 0 <= j < i - 1 implies (#[trigger] rest[j]).0 != 0 by {
            assert(rest[j] == regs[j + 1]);
        }
        the_distributor_is_enabled_as_it_was(rest, i - 1);
    }
}

/// The strings for the firmware's tables are kept where all of them are text;
/// an empty list unsets them.
pub proof fn firmware_strings_are_kept(c: Ctxs, id: u32, strings: Seq<Vec<u8>>)
    requires
        c.settings.contains_key(id),
    ensures
        ({
            let r = smbios_oem_strings_set(c, id, Some(strings));
            &&& turned_down(smbios_oem_strings_set(c, id, None), c, Errno::Inval)
            &&& match utf8_texts(array_of(strings)) {
                None => turned_down(r, c, Errno::Inval),
                Some(texts) => took(
                    r,
                    c,
                    id,
                    Settings {
                        smbios_oem_strings: if strings.len() == 0 {
                            None
                        } else {
                            Some(texts)
                        },
                        ..c.settings[id]
                    },
                ),
            }
        }),
{
}

/// Ports are mapped where the guest has sockets and no network interface of
/// its own.
pub proof fn ports_are_mapped_without_interfaces(c: Ctxs, id: u32, map: Seq<Vec<u8>>)
    requires
        c.settings.contains_key(id),
        utf8_texts(array_of(map)) is Some,
        ports_of(utf8_texts(array_of(map))->0) is Some,
    ensures
        ({
            let s = c.settings[id];
            let r = port_map_set(c, id, map);
            &&& s.vsock_config == VsockConfig::Disabled ==> turned_down(r, c, Errno::NoDev)
            &&& s.vsock_config != VsockConfig::Disabled && s.net_index != 0 ==> turned_down(
                r,
                c,
                Errno::Inval,
            )
            &&& s.vsock_config != VsockConfig::Disabled && s.net_index == 0 ==> took(
                r,
                c,
                id,
                Settings { tsi_port_map: ports_of(utf8_texts(array_of(map))->0), ..s },
            )
        }),
{
}

/// What draws the displays is kept where there are graphics, its table is long
/// enough and it is sound.
pub proof fn what_draws_is_kept(
    c: Ctxs,
    host: Host,
    id: u32,
    size: usize,
    least: usize,
    valid: bool,
    backend: u64,
)
    requires
        c.settings.contains_key(id),
    ensures
        ({
            let r = display_backend_set(c, host, id, size, least, valid, backend);
            &&& !host.features.gpu ==> turned_down(r, c, Errno::NotSup)
            &&& host.features.gpu && !(least <= size && valid) ==> turned_down(r, c, Errno::Inval)
            &&& host.features.gpu && least <= size && valid ==> took(
                r,
                c,
                id,
                Settings { display_backend: Some(backend), ..c.settings[id] },
            )
        }),
{
}

} // verus!
