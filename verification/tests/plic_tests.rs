use krun::plic::{
    CONTEXT_BASE, CONTEXT_CLAIM, CONTEXT_END, CONTEXT_STRIDE, CONTEXT_THRESHOLD, ENABLE_BASE,
    ENABLE_STRIDE, PENDING_BASE, PRIORITY_BASE,
};
use krun::Plic;

fn plic(vcpu_count: usize) -> Plic {
    Plic::new(vcpu_count, Plic::DEFAULT_NUM_SOURCES)
}

fn claim_offset(ctx: u64) -> u64 {
    CONTEXT_BASE + ctx * CONTEXT_STRIDE + CONTEXT_CLAIM
}

fn threshold_offset(ctx: u64) -> u64 {
    CONTEXT_BASE + ctx * CONTEXT_STRIDE + CONTEXT_THRESHOLD
}

fn enable_offset(ctx: u64, word: u64) -> u64 {
    ENABLE_BASE + ctx * ENABLE_STRIDE + 4 * word
}

fn claim(plic: &mut Plic, ctx: u64) -> u32 {
    plic.read(claim_offset(ctx))
}

fn complete(plic: &mut Plic, ctx: u64, id: u32) {
    plic.write(claim_offset(ctx), id);
}

/// Enable `src` for `ctx` (read-modify-write of the enable word).
fn enable_source(plic: &mut Plic, ctx: u64, src: u32) {
    let offset = enable_offset(ctx, u64::from(src) / 32);
    let word = plic.read(offset);
    plic.write(offset, word | 1 << (src % 32));
}

fn set_priority(plic: &mut Plic, src: u32, prio: u32) {
    plic.write(PRIORITY_BASE + 4 * u64::from(src), prio);
}

fn pending_bit(plic: &mut Plic, src: u32) -> bool {
    plic.read(PENDING_BASE + 4 * (u64::from(src) / 32)) & (1 << (src % 32)) != 0
}

#[test]
fn priority_ordering_and_threshold() {
    let mut plic = plic(1);
    for src in [10u32, 11, 12] {
        enable_source(&mut plic, 0, src);
    }
    set_priority(&mut plic, 10, 3);
    set_priority(&mut plic, 11, 5);
    set_priority(&mut plic, 12, 5);
    assert!(!plic.hart_ext_pending(0));

    plic.set_source(10, true);
    plic.set_source(11, true);
    plic.set_source(12, true);
    assert!(plic.hart_ext_pending(0));

    // Highest priority first; lowest ID wins the 11-vs-12 tie.
    assert_eq!(claim(&mut plic, 0), 11);
    assert_eq!(claim(&mut plic, 0), 12);
    assert!(plic.hart_ext_pending(0));
    assert_eq!(claim(&mut plic, 0), 10);
    // All pending consumed: EIP dropped with the last claim.
    assert!(!plic.hart_ext_pending(0));
    assert_eq!(claim(&mut plic, 0), 0);

    // Threshold masks EIP but does not gate the claim itself.
    plic.set_source(10, false);
    plic.set_source(11, false);
    plic.set_source(12, false);
    for src in [10u32, 11, 12] {
        complete(&mut plic, 0, src);
    }
    plic.write(threshold_offset(0), 5);
    plic.set_source(11, true); // priority 5 == threshold: masked
    assert!(!plic.hart_ext_pending(0));
    assert!(pending_bit(&mut plic, 11));
    assert_eq!(claim(&mut plic, 0), 11);

    // Lowering the threshold with a claimable source pending raises EIP.
    plic.set_source(10, true);
    assert!(!plic.hart_ext_pending(0));
    plic.write(threshold_offset(0), 2);
    assert!(plic.hart_ext_pending(0));
}

#[test]
fn enable_masking() {
    let mut plic = plic(1);
    set_priority(&mut plic, 5, 1);
    plic.set_source(5, true);

    // Pending but not enabled: visible in the pending register, no EIP,
    // not claimable.
    assert!(pending_bit(&mut plic, 5));
    assert!(!plic.hart_ext_pending(0));
    assert_eq!(claim(&mut plic, 0), 0);

    // Enabling an already-pending source raises EIP and makes it claimable.
    enable_source(&mut plic, 0, 5);
    assert!(plic.hart_ext_pending(0));
    assert_eq!(claim(&mut plic, 0), 5);
    assert!(!plic.hart_ext_pending(0));
}

#[test]
fn two_harts() {
    let mut plic = plic(2);
    set_priority(&mut plic, 7, 4);
    set_priority(&mut plic, 8, 4);
    enable_source(&mut plic, 0, 7);
    enable_source(&mut plic, 1, 7);
    enable_source(&mut plic, 1, 8);

    // Source 8 is enabled only for hart 1.
    plic.set_source(8, true);
    assert!(!plic.hart_ext_pending(0));
    assert!(plic.hart_ext_pending(1));
    assert_eq!(claim(&mut plic, 0), 0);

    // Source 7 targets both harts.
    plic.set_source(7, true);
    assert!(plic.hart_ext_pending(0));

    // Hart 0 claims 7 (its only candidate); hart 1 still sees 8.
    assert_eq!(claim(&mut plic, 0), 7);
    assert!(!plic.hart_ext_pending(0));
    assert!(plic.hart_ext_pending(1));
    assert_eq!(claim(&mut plic, 1), 8);
    assert!(!plic.hart_ext_pending(1));

    // Per-context thresholds are independent.
    plic.set_source(7, false);
    complete(&mut plic, 0, 7);
    plic.set_source(8, false);
    complete(&mut plic, 1, 8);
    plic.write(threshold_offset(1), 7);
    plic.set_source(7, true);
    // Hart 0 (threshold 0) is interrupted, hart 1 (threshold 7) is not.
    assert!(plic.hart_ext_pending(0));
    assert!(!plic.hart_ext_pending(1));
    // A hart with no context never has an output.
    assert!(!plic.hart_ext_pending(2));
}

#[test]
fn level_reassert_on_complete() {
    let mut plic = plic(1);
    set_priority(&mut plic, 3, 1);
    enable_source(&mut plic, 0, 3);

    // True level source held high across claim+complete: re-pends.
    plic.set_source(3, true);
    assert!(plic.hart_ext_pending(0));
    assert_eq!(claim(&mut plic, 0), 3);
    assert!(!pending_bit(&mut plic, 3));
    assert!(!plic.hart_ext_pending(0));

    // While in flight, the gateway holds new requests: the line staying
    // (or going back) high must not re-pend before completion.
    plic.set_source(3, true);
    assert!(!pending_bit(&mut plic, 3));
    assert!(!plic.hart_ext_pending(0));

    complete(&mut plic, 0, 3);
    assert!(pending_bit(&mut plic, 3));
    assert!(plic.hart_ext_pending(0));

    // Line dropped before completion: no re-pend.
    assert_eq!(claim(&mut plic, 0), 3);
    plic.set_source(3, false);
    complete(&mut plic, 0, 3);
    assert!(!pending_bit(&mut plic, 3));
    assert!(!plic.hart_ext_pending(0));
    assert_eq!(claim(&mut plic, 0), 0);
}

#[test]
fn signal_source_auto_deasserts_on_claim() {
    let mut plic = plic(1);
    set_priority(&mut plic, 2, 1);
    enable_source(&mut plic, 0, 2);

    // Virtio-style assertion: claim acknowledges it, completion with no
    // re-signal in between must not re-pend.
    plic.signal_source(2);
    assert!(plic.hart_ext_pending(0));
    assert_eq!(claim(&mut plic, 0), 2);
    assert!(!plic.hart_ext_pending(0));
    complete(&mut plic, 0, 2);
    assert!(!pending_bit(&mut plic, 2));

    // A re-signal between claim and completion re-pends at completion.
    plic.signal_source(2);
    assert_eq!(claim(&mut plic, 0), 2);
    plic.signal_source(2);
    assert!(!pending_bit(&mut plic, 2)); // held until completion
    complete(&mut plic, 0, 2);
    assert!(pending_bit(&mut plic, 2));
    assert_eq!(claim(&mut plic, 0), 2);
    complete(&mut plic, 0, 2);
    assert_eq!(claim(&mut plic, 0), 0);
}

#[test]
fn completion_of_disabled_source_is_ignored() {
    let mut plic = plic(1);
    set_priority(&mut plic, 4, 1);
    enable_source(&mut plic, 0, 4);
    plic.set_source(4, true);
    assert_eq!(claim(&mut plic, 0), 4);

    // Disable the source, then complete: ignored, still in flight.
    plic.write(enable_offset(0, 0), 0);
    complete(&mut plic, 0, 4);
    assert!(!pending_bit(&mut plic, 4));

    // Re-enable and complete: the still-high level re-pends.
    enable_source(&mut plic, 0, 4);
    complete(&mut plic, 0, 4);
    assert!(pending_bit(&mut plic, 4));

    // Completing a source that was never claimed is a no-op.
    complete(&mut plic, 0, 9);
    // Bogus IDs are ignored.
    complete(&mut plic, 0, 0);
    complete(&mut plic, 0, Plic::DEFAULT_NUM_SOURCES + 1);
    assert_eq!(claim(&mut plic, 0), 4);
}

#[test]
fn register_access_edge_cases() {
    let mut plic = plic(1);

    // Priority writes are masked to 0..=7; source 0's slot is reserved.
    set_priority(&mut plic, 1, 0xffff_ffff);
    assert_eq!(plic.read(PRIORITY_BASE + 4), 7);
    plic.write(PRIORITY_BASE, 5);
    assert_eq!(plic.read(PRIORITY_BASE), 0);

    // Threshold writes are masked; Linux's 0x7fffffff "park" still masks
    // every priority.
    plic.write(threshold_offset(0), 0x7fff_ffff);
    assert_eq!(plic.read(threshold_offset(0)), 7);
    plic.write(threshold_offset(0), 0);

    // Enable writes: bit 0 of word 0 (source 0) and bits beyond
    // num_sources in the last word cannot be set.
    plic.write(enable_offset(0, 0), 0xffff_ffff);
    assert_eq!(plic.read(enable_offset(0, 0)), 0xffff_fffe);
    let last_word = plic.pending_words() - 1;
    plic.write(enable_offset(0, last_word as u64), 0xffff_ffff);
    assert_eq!(
        plic.read(enable_offset(0, last_word as u64)),
        plic.valid_sources_mask(last_word)
    );

    // Pending is read-only.
    set_priority(&mut plic, 1, 1);
    plic.write(PENDING_BASE, 0xffff_ffff);
    assert_eq!(plic.read(PENDING_BASE), 0);

    // Reserved/out-of-range offsets: reads return 0, writes are ignored.
    let past_pending = PENDING_BASE + 4 * plic.pending_words() as u64;
    assert_eq!(plic.read(past_pending), 0);
    assert_eq!(plic.read(CONTEXT_BASE + 8), 0);
    plic.write(CONTEXT_BASE + 8, 0xdead);
    assert_eq!(plic.read(CONTEXT_END), 0);
    plic.write(CONTEXT_END, 0xdead);
    // Accesses to contexts beyond vcpu_count are safely ignored.
    assert_eq!(plic.read(threshold_offset(1)), 0);
    assert_eq!(claim(&mut plic, 1), 0);
    plic.write(threshold_offset(1), 3);
    plic.write(enable_offset(1, 0), 0xffff_ffff);

    assert!(!plic.hart_ext_pending(0));
}

#[test]
fn source_count_is_configurable() {
    let mut plic = Plic::new(1, 8);
    // Only 1..=8 exist: the enable mask, the priority array and the
    // gateway all stop there.
    plic.write(enable_offset(0, 0), 0xffff_ffff);
    assert_eq!(plic.read(enable_offset(0, 0)), 0x1fe);
    set_priority(&mut plic, 9, 7);
    assert_eq!(plic.read(PRIORITY_BASE + 4 * 9), 0);
    plic.set_source(9, true);
    assert!(!plic.hart_ext_pending(0));

    set_priority(&mut plic, 8, 1);
    plic.set_source(8, true);
    assert!(plic.hart_ext_pending(0));
    assert_eq!(claim(&mut plic, 0), 8);
}
