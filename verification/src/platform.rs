//! The platform's interface to the guest, by its numbers: where the interrupt
//! controller's registers are and what they hold, and what each firmware call
//! does.

use vstd::prelude::*;

use crate::plic::{mask_holds_the_sources, mask_of, words_for, PlicState};
use crate::sbi::{
    harts_below, selects, serves, targets_of, SbiAction, SbiEffect, SbiHost, SbiRequest,
};

verus! {

proof fn lemma_small(v: u32, m: u32, i: u32)
    by (bit_vector)
    requires
        i < 32,
    ensures
        v & 7 == v % 8,
        ((v & m) & (1u32 << i) != 0) == (v & (1u32 << i) != 0 && m & (1u32 << i) != 0),
{
}

/// Priorities are registers of four bytes each from the start on, one per
/// source, three bits wide.
pub proof fn priorities_read_back(p: PlicState, src: int, v: u32, other: u64)
    requires
        p.wf(),
        1 <= src <= p.num_sources,
    ensures
        ({
            let at = (4 * src) as u64;
            let q = p.written(at, v);
            &&& q.register(at) == v % 8
            &&& q.priority[src] == v % 8
            &&& other / 4 != src ==> q.register(other) == p.register(other)
            &&& q == (PlicState { priority: p.priority.update(src, (v % 8) as u32), ..p })
        }),
{
    lemma_small(v, 0, 0);
}

/// Which sources reach a context is set from 0x2000 on, a bit per source, 0x80
/// bytes per context; the bits of no source stay clear.
#[verifier::rlimit(50)]
pub proof fn enables_read_back(p: PlicState, ctx: int, word: int, v: u32, c: int, src: int)
    requires
        p.wf(),
        0 <= ctx < p.targets.len(),
        0 <= word < words_for(p.num_sources),
        0 <= c < p.targets.len(),
        1 <= src <= p.num_sources,
    ensures
        ({
            let at = (0x2000 + 0x80 * ctx + 4 * word) as u64;
            let q = p.written(at, v);
            &&& c == ctx && src / 32 == word ==> (q.enabled(c, src) <==> v & (1u32 << ((src % 32) as
                u32)) != 0)
            &&& c != ctx || src / 32 != word ==> q.enabled(c, src) == p.enabled(c, src)
            &&& q.register(at) == q.targets[ctx].enable[word]
            &&& q == (PlicState { targets: q.targets, ..p })
            &&& q.targets[c].threshold == p.targets[c].threshold
        }),
{
    let b = (src % 32) as u32;
    assert(words_for(p.num_sources) <= 32);
    mask_holds_the_sources(p.num_sources, word, 32, b);
    lemma_small(v, mask_of(p.num_sources, word), b);
    let at = 0x2000 + 0x80 * ctx + 4 * word;
    assert((at - 0x2000) / 0x80 == ctx);
    assert((at - 0x2000) % 0x80 == 4 * word);
    assert(p.targets[ctx].enable.len() == words_for(p.num_sources));
    assert(p.targets[c].enable.len() == words_for(p.num_sources));
}

/// A context's threshold stands at 0x200000, with 0x1000 bytes per context, is
/// three bits wide, and masks what is not above it; what is claimed is read,
/// and completed, four bytes further on.
pub proof fn thresholds_read_back(p: PlicState, ctx: int, v: u32)
    requires
        p.wf(),
        0 <= ctx < p.targets.len(),
    ensures
        ({
            let at = (0x20_0000 + 0x1000 * ctx) as u64;
            let q = p.written(at, v);
            &&& q.register(at) == v % 8
            &&& q.targets[ctx].threshold == v % 8
            &&& q.targets[ctx].enable == p.targets[ctx].enable
            &&& forall|c: int|
                0 <= c < p.targets.len() && c != ctx ==> #[trigger] q.targets[c] == p.targets[c]
            &&& q == (PlicState { targets: q.targets, ..p })
            &&& p.claim_context(at) is None
            &&& p.claim_context((at + 4) as u64) == Some(ctx)
            &&& p.written((at + 4) as u64, v) == p.after_complete(ctx, v as int)
        }),
{
    lemma_small(v, 0, 0);
    let at = 0x20_0000 + 0x1000 * ctx;
    assert((at - 0x20_0000) / 0x1000 == ctx);
    assert((at + 4 - 0x20_0000) / 0x1000 == ctx);
    assert((at + 4 - 0x20_0000) % 0x1000 == 4);
}

/// Pending sources are read from 0x1000 on, a bit per source, and cannot be
/// written.
pub proof fn pending_bits_are_read_only(p: PlicState, word: int, v: u32)
    requires
        p.wf(),
        0 <= word < words_for(p.num_sources),
    ensures
        p.register((0x1000 + 4 * word) as u64) == p.pending[word],
        p.written((0x1000 + 4 * word) as u64, v) == p,
{
}

/// What is claimed is pending, enabled and of some priority, and nothing that
/// is has a higher priority, or the same and a lower number; zero is claimed
/// where nothing is. The claim takes that source alone out of the pending ones
/// and in flight.
pub proof fn the_most_urgent_source_is_claimed(p: PlicState, ctx: int, best: int, s: int)
    requires
        p.wf(),
        0 <= ctx < p.targets.len(),
        p.is_best(ctx, best),
        1 <= s <= p.num_sources,
    ensures
        ({
            let up = |i: int| p.is_pending(i) && p.enabled(ctx, i) && p.priority[i] != 0;
            let q = p.after_claim(best);
            &&& best == 0 ==> !up(s) && q == p
            &&& best != 0 ==> {
                &&& 1 <= best <= p.num_sources && up(best)
                &&& up(s) && s != best ==> p.priority[s] < p.priority[best] || (p.priority[s]
                    == p.priority[best] && s > best)
                &&& q.is_pending(s) == (p.is_pending(s) && s != best)
                &&& q.claimed[s] == (p.claimed[s] || s == best)
                &&& q.level[s] == (p.level[s] && !(s == best && p.auto_deassert[s]))
            }
        }),
{
    if best == 0 {
        assert(!p.claimable(ctx, s));
    } else {
        assert(p.claimable(ctx, best));
        assert(p.claimable(ctx, s) == (p.is_pending(s) && p.enabled(ctx, s) && p.priority[s] > 0));
        crate::plic::with_bit_changes_one_bit(p.pending, best, false, s);
    }
}

/// A context's interrupt is raised by a pending source that reaches it and
/// whose priority is above its threshold, and only by one.
pub proof fn an_interrupt_is_raised_above_the_threshold(p: PlicState, hart: int, s: int)
    requires
        p.wf(),
        1 <= s <= p.num_sources,
    ensures
        0 <= hart < p.targets.len() && p.is_pending(s) && p.enabled(hart, s) && p.priority[s]
            > p.targets[hart].threshold ==> p.ext_pending(hart),
        p.ext_pending(hart) ==> 0 <= hart < p.targets.len() && exists|i: int|
            1 <= i <= p.num_sources && #[trigger] p.is_pending(i) && p.enabled(hart, i)
                && p.priority[i] > p.targets[hart].threshold,
{
    if p.is_pending(s) {
        assert(p.valid(s));
    }
}

/// Which harts a mask names: one per bit, counted from a base, or with the
/// highest base all. A mask that names a hart which is not there is invalid.
pub proof fn masks_name_harts(mask: u64, base: u64, nharts: u32, k: u32)
    ensures
        base == u64::MAX ==> (targets_of(mask, base, nharts) matches Ok(t) && t.len() == nharts
            && forall|i: int| 0 <= i < nharts ==> #[trigger] t[i] == i),
        base != u64::MAX && (exists|b: int|
            0 <= b < 64 && mask & (1u64 << (b as u64)) != 0 && #[trigger] (base + b) >= nharts)
            ==> targets_of(mask, base, nharts) == Err::<Seq<u32>, i64>(-3i64),
        base != u64::MAX ==> (targets_of(mask, base, nharts) matches Ok(t) ==> (t.contains(k)
            <==> base <= k < base + 64 && mask & (1u64 << ((k - base) as u64)) != 0)),
{
    if base != u64::MAX {
        if exists|b: int|
            0 <= b < 64 && mask & (1u64 << (b as u64)) != 0 && #[trigger] (base + b) >= nharts {
            let b = choose|b: int|
                0 <= b < 64 && mask & (1u64 << (b as u64)) != 0 && #[trigger] (base + b) >= nharts;
            assert(selects(mask, b));
        }
        if targets_of(mask, base, nharts) is Ok {
            lemma_named(mask, base, nharts, 64, k);
        }
    }
}

proof fn lemma_named(mask: u64, base: u64, nharts: u32, bits: nat, k: u32)
    requires
        bits <= 64,
        forall|b: int| 0 <= b < 64 && #[trigger] selects(mask, b) ==> base + b < nharts,
    ensures
        harts_below(mask, base, bits).contains(k) <==> base <= k < base + bits && selects(
            mask,
            k - base,
        ),
    decreases bits,
{
    if bits > 0 {
        let b = bits - 1;
        let rest = harts_below(mask, base, b as nat);
        lemma_named(mask, base, nharts, b as nat, k);
        if selects(mask, b) {
            let last = (base + b) as u32;
            let all = rest.push(last);
            assert(all[rest.len() as int] == last);
            if rest.contains(k) {
                let i = choose|i: int| 0 <= i < rest.len() && rest[i] == k;
                assert(all[i] == k);
            }
            if all.contains(k) && k != last {
                let i = choose|i: int| 0 <= i < all.len() && all[i] == k;
                assert(rest[i] == k);
            }
        }
    }
}

/// What a firmware call returns.
pub open spec fn answers(a: SbiAction, error: int, value: u64) -> bool {
    a matches SbiAction::Return(r) && r.error == error && r.value == value
}

/// Firmware calls, by the numbers of their extensions and functions: the timer,
/// interrupts between harts, remote fences, hart state, reset and the console.
/// An extension or a function that is not there is not supported.
#[verifier::rlimit(50)]
pub proof fn firmware_calls_have_their_numbers<H: SbiHost>(
    host: H,
    call: SbiRequest,
    action: SbiAction,
    more: Seq<SbiEffect>,
)
    requires
        serves(host, call, action, more),
    ensures
        ({
            let a = call.args@;
            let (e, f) = (call.eid, call.fid);
            let plain = more.len() == 0;
            // Base.
            &&& e == 0x10 && f == 0 ==> answers(action, 0, 0x200_0000) && plain
            &&& e == 0x10 && f == 1 ==> answers(action, 0, 3) && plain
            &&& e == 0x10 && (f == 2 || 4 <= f <= 6) ==> answers(action, 0, 0) && plain
            &&& e == 0x10 && f == 3 ==> plain && {
                let there = a[0] == 0x10 || a[0] == 0x5449_4d45 || a[0] == 0x73_5049 || a[0]
                    == 0x5246_4e43 || a[0] == 0x48_534d || a[0] == 0x5352_5354 || a[0]
                    == 0x4442_434e || (host.serves_legacy() && (a[0] == 1 || a[0] == 2));
                answers(
                    action,
                    0,
                    if there {
                        1
                    } else {
                        0
                    },
                )
            }
            // Timer.
            &&& e == 0x5449_4d45 && f == 0 ==> answers(action, 0, 0) && more == seq![
                SbiEffect::SetTimer(a[0]),
            ]
            // Interrupts between harts.
            &&& e == 0x73_5049 && f == 0 ==> match targets_of(a[0], a[1], host.harts()) {
                Ok(t) => answers(action, 0, 0) && more.len() == t.len() && forall|i: int|
                    0 <= i < t.len() ==> #[trigger] more[i] == SbiEffect::SendIpi(t[i]),
                Err(x) => answers(action, x as int, 0) && plain,
            }
            // Remote fences.
            &&& e == 0x5246_4e43 && f <= 2 ==> match targets_of(a[0], a[1], host.harts()) {
                Ok(t) => answers(action, 0, 0) && more == seq![SbiEffect::RemoteFence(t)],
                Err(x) => answers(action, x as int, 0) && plain,
            }
            // Hart state.
            &&& e == 0x48_534d && f == 0 && a[0] >= host.harts() ==> answers(action, -3, 0) && plain
            &&& e == 0x48_534d && f == 0 && a[0] < host.harts() ==> more.len() == 1 && (more[0]
                matches SbiEffect::HartStart { hart, pc, opaque, answer } && hart == a[0] && pc
                == a[1] && opaque == a[2] && match answer {
                Ok(_) => answers(action, 0, 0),
                Err(x) => answers(action, x as int, 0),
            })
            &&& e == 0x48_534d && f == 1 ==> action == SbiAction::StopHart && plain
            &&& e == 0x48_534d && f == 2 && a[0] >= host.harts() ==> answers(action, -3, 0) && plain
            // Reset.
            &&& e == 0x5352_5354 && f == 0 && a[0] <= 2 ==> action == SbiAction::Shutdown && plain
            &&& e == 0x5352_5354 && f == 0 && a[0] > 2 ==> answers(action, -2, 0) && plain
            // Console.
            &&& e == 0x4442_434e && f == 0 && a[2] != 0 ==> answers(action, -3, 0) && plain
            &&& e == 0x4442_434e && f == 0 && a[2] == 0 ==> {
                ||| answers(action, -5, 0) && plain
                ||| more.len() == 1 && (more[0] matches SbiEffect::ConsoleWrite(text) && answers(
                    action,
                    0,
                    text.len() as u64,
                ) && text.len() == (if a[0] < 4096 {
                    a[0]
                } else {
                    4096
                }))
            }
            &&& e == 0x4442_434e && f == 1 ==> answers(action, 0, 0) && plain
            &&& e == 0x4442_434e && f == 2 ==> answers(action, 0, 0) && more == seq![
                SbiEffect::ConsoleWrite(seq![a[0] as u8]),
            ]
            &&& e == 1 && host.serves_legacy() ==> answers(action, 0, 0) && more == seq![
                SbiEffect::ConsoleWrite(seq![a[0] as u8]),
            ]
            &&& e == 2 && host.serves_legacy() ==> answers(action, -1, 0) && plain
            // Nothing else.
            &&& (e == 1 || e == 2) && !host.serves_legacy() ==> answers(action, -2, 0) && plain
            &&& (e == 0x10 && f > 6) || (e == 0x5449_4d45 && f > 0) || (e == 0x73_5049 && f > 0)
                || (e == 0x5246_4e43 && f > 2) || (e == 0x48_534d && f > 2) || (e == 0x5352_5354
                && f > 0) || (e == 0x4442_434e && f > 2) ==> answers(action, -2, 0) && plain
            &&& e != 1 && e != 2 && e != 0x10 && e != 0x5449_4d45 && e != 0x73_5049 && e
                != 0x5246_4e43 && e != 0x48_534d && e != 0x5352_5354 && e != 0x4442_434e
                ==> answers(action, -2, 0) && plain
        }),
{
    reveal(serves);
}

} // verus!
