use krun::csr::{MSTATUS_MPRV, MSTATUS_MXR, MSTATUS_SUM};
use krun::mmu::{
    Access, LoadResult, StoreResult, PTE_A, PTE_D, PTE_R, PTE_U, PTE_V, PTE_W, PTE_X,
};
use krun::{Clock, Cpu, Exception, GuestRam, PrivMode};

const SUM: u64 = MSTATUS_SUM;
const MXR: u64 = MSTATUS_MXR;

fn cpu() -> Cpu {
    // RAM at physical 0 keeps the page-table arithmetic readable.
    let ram = GuestRam::new_owned(0, 1 << 20);
    Cpu::new(0, ram, Clock::Deterministic { shift: 0 })
}

fn pte(ppn: u64, flags: u64) -> u64 {
    (ppn << 10) | flags
}

const RWXAD: u64 = PTE_V | PTE_R | PTE_W | PTE_X | PTE_A | PTE_D;

/// Root at 0x1000, next level at 0x2000, leaf table at 0x3000; VA 0x8000
/// maps to PA 0x4000 with `flags`.
fn map_sv39(cpu: &mut Cpu, flags: u64) {
    cpu.ram.store(0x1000, 8, pte(0x2, PTE_V)).unwrap();
    cpu.ram.store(0x2000, 8, pte(0x3, PTE_V)).unwrap();
    cpu.ram.store(0x3000 + 8 * 8, 8, pte(0x4, flags)).unwrap();
    cpu.write_csr(0x180, (8 << 60) | 1).unwrap();
    cpu.priv_mode = PrivMode::S;
}

#[test]
fn sv39_walk_and_perms() {
    let mut cpu = cpu();
    map_sv39(&mut cpu, RWXAD);
    cpu.ram.store(0x4010, 8, 0x1234).unwrap();
    assert_eq!(
        cpu.translate(0x8010, Access::Read, PrivMode::S, 8),
        Ok(0x4010)
    );
    assert_eq!(
        cpu.translate(0x8010, Access::Write, PrivMode::S, 8),
        Ok(0x4010)
    );
    assert_eq!(
        cpu.translate(0x8010, Access::Fetch, PrivMode::S, 2),
        Ok(0x4010)
    );
    // Unmapped VA and non-canonical VA page-fault.
    assert_eq!(
        cpu.translate(0x10000, Access::Read, PrivMode::S, 8),
        Err(Exception::LoadPageFault(0x10000))
    );
    assert_eq!(
        cpu.translate(1 << 40, Access::Write, PrivMode::S, 8),
        Err(Exception::StorePageFault(1 << 40))
    );
}

#[test]
fn svade_a_and_d_faults() {
    let mut cpu = cpu();
    map_sv39(&mut cpu, PTE_V | PTE_R | PTE_W | PTE_D);
    // A clear: every access faults; hardware never sets A.
    assert_eq!(
        cpu.translate(0x8000, Access::Read, PrivMode::S, 8),
        Err(Exception::LoadPageFault(0x8000))
    );
    assert_eq!(cpu.ram.load(0x3000 + 8 * 8, 8).unwrap() & PTE_A, 0);
    // A set, D clear: loads work, stores fault, D stays clear.
    map_sv39(&mut cpu, PTE_V | PTE_R | PTE_W | PTE_A);
    cpu.flush_tlb();
    assert!(cpu.translate(0x8000, Access::Read, PrivMode::S, 8).is_ok());
    assert_eq!(
        cpu.translate(0x8000, Access::Write, PrivMode::S, 8),
        Err(Exception::StorePageFault(0x8000))
    );
    assert_eq!(cpu.ram.load(0x3000 + 8 * 8, 8).unwrap() & PTE_D, 0);
}

#[test]
fn user_pages_sum_and_mxr() {
    let mut cpu = cpu();
    map_sv39(&mut cpu, RWXAD | PTE_U);
    // U-mode: full access to its own page.
    assert!(cpu.translate(0x8000, Access::Read, PrivMode::U, 8).is_ok());
    assert!(cpu.translate(0x8000, Access::Fetch, PrivMode::U, 2).is_ok());
    // S-mode: data denied without SUM, fetch denied always.
    assert!(cpu.translate(0x8000, Access::Read, PrivMode::S, 8).is_err());
    cpu.csrs.mstatus |= SUM;
    assert!(cpu.translate(0x8000, Access::Read, PrivMode::S, 8).is_ok());
    assert!(cpu.translate(0x8000, Access::Write, PrivMode::S, 8).is_ok());
    assert!(
        cpu.translate(0x8000, Access::Fetch, PrivMode::S, 2)
            .is_err()
    );

    // Non-U page: U-mode denied.
    map_sv39(&mut cpu, RWXAD);
    cpu.flush_tlb();
    assert!(cpu.translate(0x8000, Access::Read, PrivMode::U, 8).is_err());

    // X-only page: fetch ok, read only with MXR.
    map_sv39(&mut cpu, PTE_V | PTE_X | PTE_A);
    cpu.flush_tlb();
    assert!(cpu.translate(0x8000, Access::Fetch, PrivMode::S, 2).is_ok());
    assert!(cpu.translate(0x8000, Access::Read, PrivMode::S, 8).is_err());
    cpu.csrs.mstatus |= MXR;
    assert!(cpu.translate(0x8000, Access::Read, PrivMode::S, 8).is_ok());
}

#[test]
fn superpage_alignment() {
    let mut cpu = cpu();
    // Root[1] is a misaligned 1 GiB leaf (ppn low bits set).
    cpu.ram.store(0x1008, 8, pte(0x3, RWXAD)).unwrap();
    // Root[0] -> level-1 table at 0x2000 with an aligned 2 MiB leaf.
    cpu.ram.store(0x1000, 8, pte(0x2, PTE_V)).unwrap();
    cpu.ram.store(0x2000, 8, pte(0, RWXAD)).unwrap();
    cpu.write_csr(0x180, (8 << 60) | 1).unwrap();
    cpu.priv_mode = PrivMode::S;
    assert_eq!(
        cpu.translate(1 << 30, Access::Read, PrivMode::S, 8),
        Err(Exception::LoadPageFault(1 << 30))
    );
    // The 2 MiB megapage at VA 0 maps PA 0 with the VA's low VPN mixed in.
    assert_eq!(
        cpu.translate(0x5678, Access::Read, PrivMode::S, 8),
        Ok(0x5678)
    );
    assert_eq!(
        cpu.translate(0x1f_f123, Access::Read, PrivMode::S, 1),
        Ok(0x1f_f123)
    );
}

#[test]
fn nonleaf_rwx_and_reserved_bits() {
    let mut cpu = cpu();
    // W-without-R leaf.
    cpu.ram.store(0x1000, 8, pte(0x2, PTE_V)).unwrap();
    cpu.ram.store(0x2000, 8, pte(0x3, PTE_V)).unwrap();
    cpu.ram
        .store(0x3000, 8, pte(0x4, PTE_V | PTE_W | PTE_A | PTE_D))
        .unwrap();
    cpu.write_csr(0x180, (8 << 60) | 1).unwrap();
    cpu.priv_mode = PrivMode::S;
    assert!(cpu.translate(0, Access::Read, PrivMode::S, 8).is_err());
    // Pointer PTE at the last level.
    cpu.ram.store(0x3000, 8, pte(0x4, PTE_V)).unwrap();
    assert!(cpu.translate(0, Access::Read, PrivMode::S, 8).is_err());
    // Reserved high bits set on an otherwise valid leaf.
    cpu.ram
        .store(0x3000, 8, pte(0x4, RWXAD) | (1 << 60))
        .unwrap();
    assert!(cpu.translate(0, Access::Read, PrivMode::S, 8).is_err());
}

#[test]
fn sv48_walk() {
    let mut cpu = cpu();
    // Four levels: 0x1000 -> 0x2000 -> 0x3000 -> 0x5000 -> PA 0x4000.
    cpu.ram.store(0x1000, 8, pte(0x2, PTE_V)).unwrap();
    cpu.ram.store(0x2000, 8, pte(0x3, PTE_V)).unwrap();
    cpu.ram.store(0x3000, 8, pte(0x5, PTE_V)).unwrap();
    cpu.ram.store(0x5000 + 8 * 8, 8, pte(0x4, RWXAD)).unwrap();
    cpu.write_csr(0x180, (9 << 60) | 1).unwrap();
    cpu.priv_mode = PrivMode::S;
    assert_eq!(
        cpu.translate(0x8123, Access::Read, PrivMode::S, 1),
        Ok(0x4123)
    );
    // A VA canonical for Sv48 but not Sv39 walks fine (and misses).
    assert_eq!(
        cpu.translate(1 << 40, Access::Read, PrivMode::S, 8),
        Err(Exception::LoadPageFault(1 << 40))
    );
    // Non-canonical for Sv48.
    assert_eq!(
        cpu.translate(1 << 50, Access::Read, PrivMode::S, 8),
        Err(Exception::LoadPageFault(1 << 50))
    );
}

#[test]
fn satp_warl_and_tlb_invalidation() {
    let mut cpu = cpu();
    map_sv39(&mut cpu, RWXAD);
    let satp = cpu.read_csr(0x180).unwrap();
    assert_eq!(satp, (8 << 60) | 1);
    // Unsupported modes leave satp unchanged; ASID is hard-wired to 0.
    cpu.write_csr(0x180, 10 << 60).unwrap();
    assert_eq!(cpu.read_csr(0x180).unwrap(), satp);
    cpu.write_csr(0x180, (8 << 60) | (0xbeef << 44) | 1)
        .unwrap();
    assert_eq!(cpu.read_csr(0x180).unwrap(), satp);

    // Prime the TLB, change the PTE: the stale entry still serves.
    assert_eq!(
        cpu.translate(0x8000, Access::Read, PrivMode::S, 8),
        Ok(0x4000)
    );
    cpu.ram.store(0x3000 + 8 * 8, 8, pte(0x5, RWXAD)).unwrap();
    assert_eq!(
        cpu.translate(0x8000, Access::Read, PrivMode::S, 8),
        Ok(0x4000)
    );
    // sfence.vma (flush_tlb) makes the new mapping visible.
    cpu.flush_tlb();
    assert_eq!(
        cpu.translate(0x8000, Access::Read, PrivMode::S, 8),
        Ok(0x5000)
    );
    // A satp rewrite also flushes.
    cpu.ram.store(0x3000 + 8 * 8, 8, pte(0x6, RWXAD)).unwrap();
    cpu.write_csr(0x180, (8 << 60) | 1).unwrap();
    assert_eq!(
        cpu.translate(0x8000, Access::Read, PrivMode::S, 8),
        Ok(0x6000)
    );
}

/// A primed data page is only reused under the exact permission context
/// it was primed in, is never shared between loads and stores, and does
/// not survive a TLB flush.
#[test]
fn data_fast_path_context_and_flush() {
    let mut cpu = cpu();
    map_sv39(&mut cpu, RWXAD | PTE_U);
    cpu.csrs.mstatus |= SUM;
    cpu.ram.store(0x4000, 8, 0x1111).unwrap();
    assert!(matches!(
        cpu.load_vaddr(0x8000, 8),
        Ok(LoadResult::Ram(0x1111))
    ));
    assert_eq!(cpu.fast_load_off(0x8000, 8), Some(0x4000));
    // A load-primed page never answers a store.
    assert_eq!(cpu.fast_store_off(0x8000, 8), None);
    // Clearing SUM would deny the access, so the entry must miss.
    cpu.csrs.mstatus &= !SUM;
    assert_eq!(cpu.fast_load_off(0x8000, 8), None);
    cpu.csrs.mstatus |= SUM;
    assert_eq!(cpu.fast_load_off(0x8000, 8), Some(0x4000));
    // An access that would leave the page falls back.
    assert_eq!(cpu.fast_load_off(0x8ffc, 8), None);
    cpu.flush_tlb();
    assert_eq!(cpu.fast_load_off(0x8000, 8), None);
}

/// The fetch fast path is tagged by privilege mode, so dropping to U
/// without any flush cannot execute a page primed for S.
#[test]
fn fetch_fast_path_is_privilege_tagged() {
    let mut cpu = cpu();
    cpu.write_csr(0x305, 0x1000).unwrap(); // mtvec
    map_sv39(&mut cpu, RWXAD);
    cpu.ram.store(0x4000, 4, 0x0000_0013).unwrap(); // nop
    cpu.ram.store(0x4004, 4, 0x0000_006f).unwrap(); // jal x0, 0
    cpu.pc = 0x8000;
    cpu.run(3);
    assert_eq!(cpu.pc, 0x8004);

    cpu.priv_mode = PrivMode::U;
    cpu.pc = 0x8000;
    cpu.run(1);
    assert_eq!(cpu.pc, 0x1000);
    assert_eq!(cpu.csrs.mcause, 12); // instruction page fault
    assert_eq!(cpu.csrs.mtval, 0x8000);
}

#[test]
fn mprv_uses_mpp_for_data() {
    let mut cpu = cpu();
    map_sv39(&mut cpu, RWXAD);
    cpu.priv_mode = PrivMode::M;
    // Plain M-mode: bare.
    assert!(matches!(cpu.load_vaddr(0x8000, 8), Ok(LoadResult::Ram(_))));
    cpu.ram.store(0x4000, 8, 77).unwrap();
    // MPRV with MPP=S: loads translate.
    cpu.csrs.mstatus |= MSTATUS_MPRV | (1 << 11);
    match cpu.load_vaddr(0x8000, 8) {
        Ok(LoadResult::Ram(v)) => assert_eq!(v, 77),
        _ => panic!("expected translated RAM load"),
    }
}

#[test]
fn misaligned_page_crossing_load_store() {
    let mut cpu = cpu();
    // Map VA 0x8000 -> PA 0x4000 and VA 0x9000 -> PA 0x6000 (not
    // physically contiguous).
    map_sv39(&mut cpu, RWXAD);
    cpu.ram.store(0x3000 + 9 * 8, 8, pte(0x6, RWXAD)).unwrap();
    cpu.ram.store(0x4ffc, 8, 0).unwrap();
    cpu.ram.store(0x4fff, 1, 0xaa).unwrap();
    cpu.ram.store(0x6000, 1, 0xbb).unwrap();
    match cpu.load_vaddr(0x8fff, 2) {
        Ok(LoadResult::Ram(v)) => assert_eq!(v, 0xbbaa),
        _ => panic!("expected split load"),
    }
    match cpu.store_vaddr(0x8fff, 2, 0x1122) {
        Ok(StoreResult::Ram(pa)) => assert_eq!(pa, 0x4fff),
        _ => panic!("expected split store"),
    }
    assert_eq!(cpu.ram.load(0x4fff, 1), Some(0x22));
    assert_eq!(cpu.ram.load(0x6000, 1), Some(0x11));
    // Second page unmapped: store faults before writing anything.
    cpu.ram.store(0x3000 + 9 * 8, 8, 0).unwrap();
    cpu.flush_tlb();
    assert!(matches!(
        cpu.store_vaddr(0x8fff, 2, 0x3344),
        Err(Exception::StorePageFault(0x9000))
    ));
    assert_eq!(cpu.ram.load(0x4fff, 1), Some(0x22));
}

#[test]
fn pmp_napot_tor_na4() {
    let mut cpu = cpu();
    // Entry 0: NAPOT 8 bytes at 0x100, R only. addr = (0x100 >> 2) | 0.
    cpu.write_csr(0x3b0, 0x40).unwrap();
    cpu.write_csr(0x3a0, 0x19).unwrap(); // NAPOT | R
    assert!(cpu.pmp_ok(0x100, 8, Access::Read, PrivMode::S));
    assert!(!cpu.pmp_ok(0x100, 8, Access::Write, PrivMode::S));
    // Partial overlap fails even for M.
    assert!(!cpu.pmp_ok(0xfc, 8, Access::Read, PrivMode::M));
    // Unmatched: M ok, S denied.
    assert!(cpu.pmp_ok(0x200, 4, Access::Read, PrivMode::M));
    assert!(!cpu.pmp_ok(0x200, 4, Access::Read, PrivMode::S));
    // M-mode matching an unlocked entry ignores its permissions.
    assert!(cpu.pmp_ok(0x100, 8, Access::Write, PrivMode::M));

    // Entry 1: TOR [0x100+8, 0x1000) RW. Lower bound comes from
    // pmpaddr0.
    cpu.write_csr(0x3b1, 0x1000 >> 2).unwrap();
    let cfg = cpu.read_csr(0x3a0).unwrap();
    cpu.write_csr(0x3a0, cfg | (0x0b << 8)).unwrap(); // TOR | R | W
    assert!(cpu.pmp_ok(0x800, 8, Access::Write, PrivMode::S));
    assert!(!cpu.pmp_ok(0x800, 8, Access::Fetch, PrivMode::S));

    // Entry 2: NA4 at 0x2000, X only.
    cpu.write_csr(0x3b2, 0x2000 >> 2).unwrap();
    let cfg = cpu.read_csr(0x3a0).unwrap();
    cpu.write_csr(0x3a0, cfg | (0x14 << 16)).unwrap(); // NA4 | X
    assert!(cpu.pmp_ok(0x2000, 4, Access::Fetch, PrivMode::S));
    assert!(!cpu.pmp_ok(0x2000, 4, Access::Read, PrivMode::S));
    assert!(!cpu.pmp_ok(0x2004, 4, Access::Fetch, PrivMode::S));
}

#[test]
fn pmp_locking_and_warl() {
    let mut cpu = cpu();
    // Locked NAPOT entry 0 without W: even M-mode stores fail.
    cpu.write_csr(0x3b0, 0x40).unwrap();
    cpu.write_csr(0x3a0, 0x99).unwrap(); // L | NAPOT | R
    assert!(cpu.pmp_ok(0x100, 8, Access::Read, PrivMode::M));
    assert!(!cpu.pmp_ok(0x100, 8, Access::Write, PrivMode::M));
    // Locked cfg byte and its pmpaddr are read-only now.
    cpu.write_csr(0x3a0, 0).unwrap();
    assert_eq!(cpu.read_csr(0x3a0).unwrap(), 0x99);
    cpu.write_csr(0x3b0, 0).unwrap();
    assert_eq!(cpu.read_csr(0x3b0).unwrap(), 0x40);
    // A locked TOR entry also locks the previous pmpaddr.
    cpu.write_csr(0x3b2, 0x123).unwrap();
    cpu.write_csr(0x3a0, 0x89 << 24).unwrap(); // entry 3: L | TOR | R
    cpu.write_csr(0x3b2, 0).unwrap();
    assert_eq!(cpu.read_csr(0x3b2).unwrap(), 0x123);
    // pmpaddr is 54 bits WARL.
    cpu.write_csr(0x3b4, u64::MAX).unwrap();
    assert_eq!(cpu.read_csr(0x3b4).unwrap(), (1u64 << 54) - 1);
    // Odd pmpcfg registers do not exist on RV64.
    assert!(cpu.read_csr(0x3a1).is_err());
    assert!(cpu.write_csr(0x3a1, 0).is_err());
}
