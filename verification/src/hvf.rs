//! Captured vCPU state of the macOS hypervisor, and the decisions of its run
//! loop.

use vstd::prelude::*;

use crate::bytes::{push_le, take_le, take_le_of_le_bytes, Cursor};
use crate::mem::{le_bytes, lemma_pow256_values, pow256};

verus! {

// ---------------------------------------------------------------------------
// The state blob.
// ---------------------------------------------------------------------------

/// Captured aarch64 vCPU register state for checkpoint/restore. Holds the
/// general-purpose registers, program state, NEON/FP registers, and the
/// writable EL1 system registers that define guest execution + MMU state.
/// Read-only ID registers, EL2 (VMM-managed) state, and debug breakpoints are
/// intentionally excluded. The virtual-timer *offset* (`CNTVOFF`) is captured:
/// a cross-process fork builds a fresh vCPU with an unrelated default offset,
/// so the absolute offset must be restored or the guest clock jumps on resume.
#[derive(Debug, Clone)]
pub struct HvfVcpuState {
    /// X0..X30.
    pub gp: [u64; 31],
    /// Program counter.
    pub pc: u64,
    /// Processor state (CPSR/PSTATE).
    pub cpsr: u64,
    /// FP control register.
    pub fpcr: u64,
    /// FP status register.
    pub fpsr: u64,
    /// NEON/FP registers Q0..Q31 (128-bit each).
    pub simd: [u128; 32],
    /// Writable EL1 system registers as (id, value) pairs.
    pub sys: Vec<(u16, u64)>,
    /// This vCPU's GIC redistributor registers (SGI/PPI group/enable/priority/
    /// config) as (offset, value) pairs.
    pub gic_redist: Vec<(u32, u64)>,
    /// This vCPU's GIC CPU-interface (ICC) registers as (id, value) pairs.
    /// Without these the restored vCPU's interrupt interface is in reset state
    /// and the guest is never woken from WFI by a device IRQ.
    pub gic_icc: Vec<(u32, u64)>,
    /// Virtual-timer offset (`CNTVOFF`, raw counter ticks): `virtual_counter =
    /// physical_counter - offset`.
    pub vtimer_offset: u64,
}

/// The numbers that a state consists of.
pub struct VcpuNumbers {
    /// X0..X30, then pc, cpsr, fpcr and fpsr.
    pub words: Seq<nat>,
    pub simd: Seq<nat>,
    pub sys: Seq<(nat, nat)>,
    pub gic_redist: Seq<(nat, nat)>,
    pub gic_icc: Seq<(nat, nat)>,
    pub vtimer_offset: nat,
}

impl View for HvfVcpuState {
    type V = VcpuNumbers;

    open spec fn view(&self) -> VcpuNumbers {
        VcpuNumbers {
            words: Seq::new(
                35,
                |i: int|
                    if i < 31 {
                        self.gp@[i] as nat
                    } else if i == 31 {
                        self.pc as nat
                    } else if i == 32 {
                        self.cpsr as nat
                    } else if i == 33 {
                        self.fpcr as nat
                    } else {
                        self.fpsr as nat
                    },
            ),
            simd: Seq::new(32, |i: int| self.simd@[i] as nat),
            sys: Seq::new(
                self.sys@.len(),
                |i: int| (self.sys@[i].0 as nat, self.sys@[i].1 as nat),
            ),
            gic_redist: Seq::new(
                self.gic_redist@.len(),
                |i: int| (self.gic_redist@[i].0 as nat, self.gic_redist@[i].1 as nat),
            ),
            gic_icc: Seq::new(
                self.gic_icc@.len(),
                |i: int| (self.gic_icc@[i].0 as nat, self.gic_icc@[i].1 as nat),
            ),
            vtimer_offset: self.vtimer_offset as nat,
        }
    }
}

/// Every number fits in `w` bytes.
pub open spec fn fit(s: Seq<nat>, w: nat) -> bool {
    forall|i: int| 0 <= i < s.len() ==> #[trigger] s[i] < pow256(w)
}

/// Every key fits in `k` bytes and every value in eight; the count in four.
pub open spec fn pairs_fit(s: Seq<(nat, nat)>, k: nat) -> bool {
    &&& s.len() < pow256(4)
    &&& forall|i: int|
        0 <= i < s.len() ==> (#[trigger] s[i]).0 < pow256(k) && s[i].1 < pow256(8)
}

impl VcpuNumbers {
    /// The numbers of a state, with at most 2^32 - 1 pairs in each list.
    pub open spec fn wf(self) -> bool {
        &&& self.words.len() == 35
        &&& fit(self.words, 8)
        &&& self.simd.len() == 32
        &&& fit(self.simd, 16)
        &&& pairs_fit(self.sys, 2)
        &&& pairs_fit(self.gic_redist, 4)
        &&& pairs_fit(self.gic_icc, 4)
        &&& self.vtimer_offset < pow256(8)
    }
}

/// Numbers of `w` bytes each, one after the other.
pub open spec fn numbers_encoded(s: Seq<nat>, w: nat) -> Seq<u8>
    decreases s.len(),
{
    if s.len() == 0 {
        Seq::empty()
    } else {
        le_bytes(s[0], w) + numbers_encoded(s.drop_first(), w)
    }
}

/// Pairs of a `k`-byte key and an eight-byte value.
pub open spec fn pairs_encoded(s: Seq<(nat, nat)>, k: nat) -> Seq<u8>
    decreases s.len(),
{
    if s.len() == 0 {
        Seq::empty()
    } else {
        le_bytes(s[0].0, k) + le_bytes(s[0].1, 8) + pairs_encoded(s.drop_first(), k)
    }
}

/// A four-byte count and the pairs.
pub open spec fn list_encoded(s: Seq<(nat, nat)>, k: nat) -> Seq<u8> {
    le_bytes(s.len(), 4) + pairs_encoded(s, k)
}

/// The blob of a state.
pub open spec fn state_encoded(m: VcpuNumbers) -> Seq<u8> {
    numbers_encoded(m.words, 8) + (numbers_encoded(m.simd, 16) + (list_encoded(m.sys, 2) + (
    list_encoded(m.gic_redist, 4) + (list_encoded(m.gic_icc, 4) + le_bytes(
        m.vtimer_offset,
        8,
    )))))
}

/// The next `n` numbers of `w` bytes, appended to `acc`, and what follows.
pub open spec fn numbers_from(b: Seq<u8>, n: nat, w: nat, acc: Seq<nat>) -> Option<
    (Seq<nat>, Seq<u8>),
>
    decreases n,
{
    if n == 0 {
        Some((acc, b))
    } else {
        match take_le(b, w) {
            None => None,
            Some((v, rest)) => numbers_from(rest, (n - 1) as nat, w, acc.push(v)),
        }
    }
}

/// The next `n` pairs, appended to `acc`, and what follows.
pub open spec fn pairs_from(b: Seq<u8>, n: nat, k: nat, acc: Seq<(nat, nat)>) -> Option<
    (Seq<(nat, nat)>, Seq<u8>),
>
    decreases n,
{
    if n == 0 {
        Some((acc, b))
    } else {
        match take_le(b, k) {
            None => None,
            Some((key, rest)) => match take_le(rest, 8) {
                None => None,
                Some((val, rest2)) => pairs_from(rest2, (n - 1) as nat, k, acc.push((key, val))),
            },
        }
    }
}

/// A counted list of pairs, and what follows.
pub open spec fn list_from(b: Seq<u8>, k: nat) -> Option<(Seq<(nat, nat)>, Seq<u8>)> {
    match take_le(b, 4) {
        None => None,
        Some((n, rest)) => pairs_from(rest, n, k, Seq::empty()),
    }
}

/// The trailing timer offset. Blobs that predate the field end before it: no
/// offset.
pub open spec fn offset_from(b: Seq<u8>) -> Option<nat> {
    if b.len() == 0 {
        Some(0)
    } else {
        match take_le(b, 8) {
            None => None,
            Some((v, _)) => Some(v),
        }
    }
}

/// The state in a blob; None where it is cut short.
pub open spec fn state_decoded(b: Seq<u8>) -> Option<VcpuNumbers> {
    match numbers_from(b, 35, 8, Seq::empty()) {
        None => None,
        Some((words, b1)) => match numbers_from(b1, 32, 16, Seq::empty()) {
            None => None,
            Some((simd, b2)) => match list_from(b2, 2) {
                None => None,
                Some((sys, b3)) => match list_from(b3, 4) {
                    None => None,
                    Some((gic_redist, b4)) => match list_from(b4, 4) {
                        None => None,
                        Some((gic_icc, b5)) => match offset_from(b5) {
                            None => None,
                            Some(vtimer_offset) => Some(
                                VcpuNumbers { words, simd, sys, gic_redist, gic_icc, vtimer_offset },
                            ),
                        },
                    },
                },
            },
        },
    }
}

proof fn lemma_numbers_round_trip(s: Seq<nat>, w: nat, acc: Seq<nat>, rest: Seq<u8>)
    requires
        fit(s, w),
    ensures
        numbers_from(numbers_encoded(s, w) + rest, s.len(), w, acc) == Some((acc + s, rest)),
    decreases s.len(),
{
    if s.len() == 0 {
        assert(acc + s =~= acc);
        assert(numbers_encoded(s, w) + rest =~= rest);
    } else {
        let tail = numbers_encoded(s.drop_first(), w) + rest;
        assert(numbers_encoded(s, w) + rest =~= le_bytes(s[0], w) + tail);
        take_le_of_le_bytes(s[0], w, tail);
        assert forall|i: int| 0 <= i < s.drop_first().len() implies #[trigger] s.drop_first()[i]
            < pow256(w) by {
            assert(s[i + 1] < pow256(w));
        }
        lemma_numbers_round_trip(s.drop_first(), w, acc.push(s[0]), rest);
        assert(acc.push(s[0]) + s.drop_first() =~= acc + s);
    }
}

proof fn lemma_pairs_round_trip(
    s: Seq<(nat, nat)>,
    k: nat,
    acc: Seq<(nat, nat)>,
    rest: Seq<u8>,
)
    requires
        forall|i: int|
            0 <= i < s.len() ==> (#[trigger] s[i]).0 < pow256(k) && s[i].1 < pow256(8),
    ensures
        pairs_from(pairs_encoded(s, k) + rest, s.len(), k, acc) == Some((acc + s, rest)),
    decreases s.len(),
{
    if s.len() == 0 {
        assert(acc + s =~= acc);
        assert(pairs_encoded(s, k) + rest =~= rest);
    } else {
        let tail = pairs_encoded(s.drop_first(), k) + rest;
        assert(pairs_encoded(s, k) + rest =~= le_bytes(s[0].0, k) + (le_bytes(s[0].1, 8) + tail));
        take_le_of_le_bytes(s[0].0, k, le_bytes(s[0].1, 8) + tail);
        take_le_of_le_bytes(s[0].1, 8, tail);
        assert forall|i: int| 0 <= i < s.drop_first().len() implies (
        #[trigger] s.drop_first()[i]).0 < pow256(k) && s.drop_first()[i].1 < pow256(8) by {
            assert(s[i + 1].0 < pow256(k));
        }
        lemma_pairs_round_trip(s.drop_first(), k, acc.push(s[0]), rest);
        assert(acc.push(s[0]) + s.drop_first() =~= acc + s);
    }
}

proof fn lemma_list_round_trip(s: Seq<(nat, nat)>, k: nat, rest: Seq<u8>)
    requires
        pairs_fit(s, k),
    ensures
        list_from(list_encoded(s, k) + rest, k) == Some((s, rest)),
{
    assert(list_encoded(s, k) + rest =~= le_bytes(s.len(), 4) + (pairs_encoded(s, k) + rest));
    take_le_of_le_bytes(s.len(), 4, pairs_encoded(s, k) + rest);
    lemma_pairs_round_trip(s, k, Seq::empty(), rest);
    assert(Seq::<(nat, nat)>::empty() + s =~= s);
}

/// A blob gives back the state that it was made from.
pub proof fn state_round_trips(m: VcpuNumbers)
    requires
        m.wf(),
    ensures
        state_decoded(state_encoded(m)) == Some(m),
{
    let t5 = le_bytes(m.vtimer_offset, 8);
    let t4 = list_encoded(m.gic_icc, 4) + t5;
    let t3 = list_encoded(m.gic_redist, 4) + t4;
    let t2 = list_encoded(m.sys, 2) + t3;
    let t1 = numbers_encoded(m.simd, 16) + t2;
    lemma_numbers_round_trip(m.words, 8, Seq::empty(), t1);
    assert(Seq::<nat>::empty() + m.words =~= m.words);
    lemma_numbers_round_trip(m.simd, 16, Seq::empty(), t2);
    assert(Seq::<nat>::empty() + m.simd =~= m.simd);
    lemma_list_round_trip(m.sys, 2, t3);
    lemma_list_round_trip(m.gic_redist, 4, t4);
    lemma_list_round_trip(m.gic_icc, 4, t5);
    take_le_of_le_bytes(m.vtimer_offset, 8, Seq::empty());
    assert(t5 + Seq::<u8>::empty() =~= t5);
    crate::mem::le_bytes_len(m.vtimer_offset, 8);
}

/// A blob that predates the timer offset gives back the rest of the state,
/// and no offset.
pub proof fn old_blobs_have_no_offset(m: VcpuNumbers)
    requires
        m.wf(),
    ensures
        state_decoded(
            numbers_encoded(m.words, 8) + (numbers_encoded(m.simd, 16) + (list_encoded(m.sys, 2) + (
            list_encoded(m.gic_redist, 4) + list_encoded(m.gic_icc, 4)))),
        ) == Some(VcpuNumbers { vtimer_offset: 0, ..m }),
{
    let t4 = list_encoded(m.gic_icc, 4);
    let t3 = list_encoded(m.gic_redist, 4) + t4;
    let t2 = list_encoded(m.sys, 2) + t3;
    let t1 = numbers_encoded(m.simd, 16) + t2;
    lemma_numbers_round_trip(m.words, 8, Seq::empty(), t1);
    assert(Seq::<nat>::empty() + m.words =~= m.words);
    lemma_numbers_round_trip(m.simd, 16, Seq::empty(), t2);
    assert(Seq::<nat>::empty() + m.simd =~= m.simd);
    lemma_list_round_trip(m.sys, 2, t3);
    lemma_list_round_trip(m.gic_redist, 4, t4);
    assert(t4 + Seq::<u8>::empty() =~= t4);
    lemma_list_round_trip(m.gic_icc, 4, Seq::empty());
}

proof fn lemma_numbers_go_on(b: Seq<u8>, n: nat, w: nat, acc: Seq<nat>, more: Seq<u8>)
    ensures
        numbers_from(b, n, w, acc) matches Some((s, rest)) ==> numbers_from(b + more, n, w, acc)
            == Some((s, rest + more)),
    decreases n,
{
    if n > 0 && b.len() >= w {
        let (v, rest) = take_le(b, w)->0;
        assert((b + more).subrange(0, w as int) =~= b.subrange(0, w as int));
        assert((b + more).skip(w as int) =~= rest + more);
        lemma_numbers_go_on(rest, (n - 1) as nat, w, acc.push(v), more);
    }
}

proof fn lemma_pairs_go_on(b: Seq<u8>, n: nat, k: nat, acc: Seq<(nat, nat)>, more: Seq<u8>)
    ensures
        pairs_from(b, n, k, acc) matches Some((s, rest)) ==> pairs_from(b + more, n, k, acc)
            == Some((s, rest + more)),
    decreases n,
{
    if n > 0 && b.len() >= k {
        let (key, rest) = take_le(b, k)->0;
        assert((b + more).subrange(0, k as int) =~= b.subrange(0, k as int));
        assert((b + more).skip(k as int) =~= rest + more);
        if rest.len() >= 8 {
            let (val, rest2) = take_le(rest, 8)->0;
            assert((rest + more).subrange(0, 8) =~= rest.subrange(0, 8));
            assert((rest + more).skip(8) =~= rest2 + more);
            lemma_pairs_go_on(rest2, (n - 1) as nat, k, acc.push((key, val)), more);
        }
    }
}

proof fn lemma_list_goes_on(b: Seq<u8>, k: nat, more: Seq<u8>)
    ensures
        list_from(b, k) matches Some((s, rest)) ==> list_from(b + more, k) == Some(
            (s, rest + more),
        ),
{
    if b.len() >= 4 {
        let (n, rest) = take_le(b, 4)->0;
        assert((b + more).subrange(0, 4) =~= b.subrange(0, 4));
        assert((b + more).skip(4) =~= rest + more);
        lemma_pairs_go_on(rest, n, k, Seq::empty(), more);
    }
}

/// A blob that is cut short is refused, wherever it is cut but before the
/// timer offset: there it is one that predates the field, and has none.
pub proof fn cut_blobs_are_refused(m: VcpuNumbers, n: int)
    requires
        m.wf(),
        0 <= n < state_encoded(m).len(),
    ensures
        state_encoded(m).len() >= 8,
        state_decoded(state_encoded(m).take(n)) == if n == state_encoded(m).len() - 8 {
            Some(VcpuNumbers { vtimer_offset: 0, ..m })
        } else {
            None
        },
{
    let t5 = le_bytes(m.vtimer_offset, 8);
    let t4 = list_encoded(m.gic_icc, 4) + t5;
    let t3 = list_encoded(m.gic_redist, 4) + t4;
    let t2 = list_encoded(m.sys, 2) + t3;
    let t1 = numbers_encoded(m.simd, 16) + t2;
    let b = state_encoded(m);
    crate::mem::le_bytes_len(m.vtimer_offset, 8);
    if n == b.len() - 8 {
        old_blobs_have_no_offset(m);
        assert(b.take(n) =~= numbers_encoded(m.words, 8) + (numbers_encoded(m.simd, 16) + (
        list_encoded(m.sys, 2) + (list_encoded(m.gic_redist, 4) + list_encoded(m.gic_icc, 4)))));
    } else if state_decoded(b.take(n)) is Some {
        // What is read of the part is read of the whole, and followed by more.
        let cut = b.take(n);
        let more = b.skip(n);
        assert(cut + more =~= b);
        let (words, b1) = numbers_from(cut, 35, 8, Seq::empty())->0;
        lemma_numbers_go_on(cut, 35, 8, Seq::empty(), more);
        lemma_numbers_round_trip(m.words, 8, Seq::empty(), t1);
        let (simd, b2) = numbers_from(b1, 32, 16, Seq::empty())->0;
        lemma_numbers_go_on(b1, 32, 16, Seq::empty(), more);
        lemma_numbers_round_trip(m.simd, 16, Seq::empty(), t2);
        let (sys, b3) = list_from(b2, 2)->0;
        lemma_list_goes_on(b2, 2, more);
        lemma_list_round_trip(m.sys, 2, t3);
        let (gic_redist, b4) = list_from(b3, 4)->0;
        lemma_list_goes_on(b3, 4, more);
        lemma_list_round_trip(m.gic_redist, 4, t4);
        let (gic_icc, b5) = list_from(b4, 4)->0;
        lemma_list_goes_on(b4, 4, more);
        lemma_list_round_trip(m.gic_icc, 4, t5);
        assert(b5 + more == t5);
        assert(b5.len() + more.len() == 8);
    }
}

/// The numbers of a state fit, as long as its lists can be counted.
pub proof fn state_numbers_fit(s: HvfVcpuState)
    requires
        s.sys@.len() < 0x1_0000_0000,
        s.gic_redist@.len() < 0x1_0000_0000,
        s.gic_icc@.len() < 0x1_0000_0000,
    ensures
        s@.wf(),
{
    lemma_pow256_values();
}

impl HvfVcpuState {
    /// Serialize to a self-describing little-endian byte blob for cross-process
    /// fork / on-disk checkpoint. No cross-version compatibility promised.
    pub fn serialize(&self) -> (r: Vec<u8>)
        ensures
            r@ == state_encoded(self@),
    {
        let mut out: Vec<u8> = Vec::new();
        self.push_words(&mut out);
        self.push_simd(&mut out);
        push_sys(&mut out, &self.sys);
        push_list(&mut out, &self.gic_redist);
        push_list(&mut out, &self.gic_icc);
        push_le(&mut out, self.vtimer_offset as u128, 8);
        assert(out@ =~= state_encoded(self@));
        out
    }

    fn push_words(&self, out: &mut Vec<u8>)
        ensures
            final(out)@ == old(out)@ + numbers_encoded(self@.words, 8),
    {
        let ghost words = self@.words;
        let ghost all = out@ + numbers_encoded(words, 8);
        assert(words.skip(0) =~= words);
        let mut i: usize = 0;
        while i < 31
            invariant
                i <= 31,
                words == self@.words,
                all == out@ + numbers_encoded(words.skip(i as int), 8),
            decreases 31 - i,
        {
            let ghost before = out@;
            push_le(out, self.gp[i] as u128, 8);
            assert(words.skip(i as int).drop_first() =~= words.skip(i + 1));
            assert(all =~= out@ + numbers_encoded(words.skip(i + 1), 8));
            i += 1;
        }
        let ghost b1 = out@;
        push_le(out, self.pc as u128, 8);
        assert(words.skip(31).drop_first() =~= words.skip(32));
        assert(all =~= out@ + numbers_encoded(words.skip(32), 8));
        push_le(out, self.cpsr as u128, 8);
        assert(words.skip(32).drop_first() =~= words.skip(33));
        assert(all =~= out@ + numbers_encoded(words.skip(33), 8));
        push_le(out, self.fpcr as u128, 8);
        assert(words.skip(33).drop_first() =~= words.skip(34));
        assert(all =~= out@ + numbers_encoded(words.skip(34), 8));
        push_le(out, self.fpsr as u128, 8);
        assert(words.skip(34).drop_first() =~= words.skip(35));
        assert(all =~= out@ + numbers_encoded(words.skip(35), 8));
        assert(out@ + numbers_encoded(words.skip(35), 8) =~= out@);
    }

    fn push_simd(&self, out: &mut Vec<u8>)
        ensures
            final(out)@ == old(out)@ + numbers_encoded(self@.simd, 16),
    {
        let ghost simd = self@.simd;
        let ghost all = out@ + numbers_encoded(simd, 16);
        assert(simd.skip(0) =~= simd);
        let mut i: usize = 0;
        while i < 32
            invariant
                i <= 32,
                simd == self@.simd,
                all == out@ + numbers_encoded(simd.skip(i as int), 16),
            decreases 32 - i,
        {
            push_le(out, self.simd[i], 16);
            assert(simd.skip(i as int).drop_first() =~= simd.skip(i + 1));
            assert(all =~= out@ + numbers_encoded(simd.skip(i + 1), 16));
            i += 1;
        }
        assert(out@ + numbers_encoded(simd.skip(32), 16) =~= out@);
    }

    /// Reconstruct from a blob produced by [`Self::serialize`].
    pub fn deserialize(bytes: &[u8]) -> (r: Result<HvfVcpuState, String>)
        ensures
            match r {
                Ok(s) => state_decoded(bytes@) == Some(s@),
                Err(e) => state_decoded(bytes@) is None && e@ == "HvfVcpuState blob truncated"@,
            },
    {
        match decode_state(bytes) {
            Some(s) => Ok(s),
            None => Err("HvfVcpuState blob truncated".to_string()),
        }
    }
}

/// The pairs of a list of 16-bit keys.
pub open spec fn sys_pairs(v: Seq<(u16, u64)>) -> Seq<(nat, nat)> {
    Seq::new(v.len(), |i: int| (v[i].0 as nat, v[i].1 as nat))
}

/// The pairs of a list of 32-bit keys.
pub open spec fn reg_pairs(v: Seq<(u32, u64)>) -> Seq<(nat, nat)> {
    Seq::new(v.len(), |i: int| (v[i].0 as nat, v[i].1 as nat))
}

fn push_sys(out: &mut Vec<u8>, v: &Vec<(u16, u64)>)
    ensures
        final(out)@ == old(out)@ + list_encoded(sys_pairs(v@), 2),
{
    let ghost s = sys_pairs(v@);
    let ghost start = out@;
    push_le(out, v.len() as u128, 4);
    let ghost all = out@ + pairs_encoded(s, 2);
    assert(start + list_encoded(s, 2) =~= all);
    assert(s.skip(0) =~= s);
    let mut i: usize = 0;
    while i < v.len()
        invariant
            i <= v@.len(),
            s == sys_pairs(v@),
            all == out@ + pairs_encoded(s.skip(i as int), 2),
        decreases v@.len() - i,
    {
        push_le(out, v[i].0 as u128, 2);
        push_le(out, v[i].1 as u128, 8);
        assert(s.skip(i as int).drop_first() =~= s.skip(i + 1));
        assert(all =~= out@ + pairs_encoded(s.skip(i + 1), 2));
        i += 1;
    }
    assert(out@ + pairs_encoded(s.skip(i as int), 2) =~= out@);
}

fn push_list(out: &mut Vec<u8>, v: &Vec<(u32, u64)>)
    ensures
        final(out)@ == old(out)@ + list_encoded(reg_pairs(v@), 4),
{
    let ghost s = reg_pairs(v@);
    let ghost start = out@;
    push_le(out, v.len() as u128, 4);
    let ghost all = out@ + pairs_encoded(s, 4);
    assert(start + list_encoded(s, 4) =~= all);
    assert(s.skip(0) =~= s);
    let mut i: usize = 0;
    while i < v.len()
        invariant
            i <= v@.len(),
            s == reg_pairs(v@),
            all == out@ + pairs_encoded(s.skip(i as int), 4),
        decreases v@.len() - i,
    {
        push_le(out, v[i].0 as u128, 4);
        push_le(out, v[i].1 as u128, 8);
        assert(s.skip(i as int).drop_first() =~= s.skip(i + 1));
        assert(all =~= out@ + pairs_encoded(s.skip(i + 1), 4));
        i += 1;
    }
    assert(out@ + pairs_encoded(s.skip(i as int), 4) =~= out@);
}

fn read_words(c: &mut Cursor) -> (r: Option<Vec<u64>>)
    requires
        old(c).wf(),
    ensures
        final(c).wf(),
        match numbers_from(old(c)@, 35, 8, Seq::empty()) {
            Some((words, rest)) => r is Some && r->0@.len() == 35 && final(c)@ == rest && words
                =~= Seq::new(35, |i: int| r->0@[i] as nat),
            None => r is None,
        },
{
    let mut v: Vec<u64> = Vec::new();
    let ghost whole = numbers_from(c@, 35, 8, Seq::empty());
    assert(Seq::new(0, |i: int| v@[i] as nat) =~= Seq::<nat>::empty());
    while v.len() < 35
        invariant
            v@.len() <= 35,
            c.wf(),
            whole == numbers_from(old(c)@, 35, 8, Seq::empty()),
            whole == numbers_from(
                c@,
                (35 - v@.len()) as nat,
                8,
                Seq::new(v@.len(), |i: int| v@[i] as nat),
            ),
        decreases 35 - v@.len(),
    {
        let ghost acc = Seq::new(v@.len(), |i: int| v@[i] as nat);
        proof {
            lemma_pow256_values();
        }
        match c.number(8) {
            Some(n) => {
                v.push(n as u64);
                assert(acc.push(n as nat) =~= Seq::new(v@.len(), |i: int| v@[i] as nat));
            },
            None => return None,
        }
    }
    Some(v)
}

fn read_simd(c: &mut Cursor) -> (r: Option<[u128; 32]>)
    requires
        old(c).wf(),
    ensures
        final(c).wf(),
        match numbers_from(old(c)@, 32, 16, Seq::empty()) {
            Some((simd, rest)) => r is Some && final(c)@ == rest && simd =~= Seq::new(
                32,
                |i: int| r->0@[i] as nat,
            ),
            None => r is None,
        },
{
    let mut v: [u128; 32] = [0u128; 32];
    let ghost whole = numbers_from(c@, 32, 16, Seq::empty());
    let mut k: usize = 0;
    assert(Seq::new(0, |i: int| v@[i] as nat) =~= Seq::<nat>::empty());
    while k < 32
        invariant
            k <= 32,
            c.wf(),
            whole == numbers_from(old(c)@, 32, 16, Seq::empty()),
            whole == numbers_from(
                c@,
                (32 - k) as nat,
                16,
                Seq::new(k as nat, |i: int| v@[i] as nat),
            ),
        decreases 32 - k,
    {
        let ghost acc = Seq::new(k as nat, |i: int| v@[i] as nat);
        match c.number(16) {
            Some(n) => {
                v[k] = n;
                assert(acc.push(n as nat) =~= Seq::new((k + 1) as nat, |i: int| v@[i] as nat));
            },
            None => return None,
        }
        k += 1;
    }
    Some(v)
}

fn read_sys(c: &mut Cursor) -> (r: Option<Vec<(u16, u64)>>)
    requires
        old(c).wf(),
    ensures
        final(c).wf(),
        match list_from(old(c)@, 2) {
            Some((s, rest)) => r is Some && final(c)@ == rest && s == sys_pairs(r->0@),
            None => r is None,
        },
{
    proof {
        lemma_pow256_values();
    }
    let n: u64 = match c.number(4) {
        Some(n) => n as u64,
        None => return None,
    };
    let mut v: Vec<(u16, u64)> = Vec::new();
    let mut k: u64 = 0;
    let ghost whole = pairs_from(c@, n as nat, 2, Seq::empty());
    assert(sys_pairs(v@) =~= Seq::<(nat, nat)>::empty());
    while k < n
        invariant
            k <= n,
            c.wf(),
            whole == list_from(old(c)@, 2),
            whole == pairs_from(c@, (n - k) as nat, 2, sys_pairs(v@)),
        decreases n - k,
    {
        let ghost acc = sys_pairs(v@);
        proof {
            lemma_pow256_values();
        }
        let key: u16 = match c.number(2) {
            Some(x) => x as u16,
            None => return None,
        };
        let val: u64 = match c.number(8) {
            Some(x) => x as u64,
            None => return None,
        };
        v.push((key, val));
        assert(acc.push((key as nat, val as nat)) =~= sys_pairs(v@));
        k += 1;
    }
    Some(v)
}

fn read_list(c: &mut Cursor) -> (r: Option<Vec<(u32, u64)>>)
    requires
        old(c).wf(),
    ensures
        final(c).wf(),
        match list_from(old(c)@, 4) {
            Some((s, rest)) => r is Some && final(c)@ == rest && s == reg_pairs(r->0@),
            None => r is None,
        },
{
    proof {
        lemma_pow256_values();
    }
    let n: u64 = match c.number(4) {
        Some(n) => n as u64,
        None => return None,
    };
    let mut v: Vec<(u32, u64)> = Vec::new();
    let mut k: u64 = 0;
    let ghost whole = pairs_from(c@, n as nat, 4, Seq::empty());
    assert(reg_pairs(v@) =~= Seq::<(nat, nat)>::empty());
    while k < n
        invariant
            k <= n,
            c.wf(),
            whole == list_from(old(c)@, 4),
            whole == pairs_from(c@, (n - k) as nat, 4, reg_pairs(v@)),
        decreases n - k,
    {
        let ghost acc = reg_pairs(v@);
        proof {
            lemma_pow256_values();
        }
        let key: u32 = match c.number(4) {
            Some(x) => x as u32,
            None => return None,
        };
        let val: u64 = match c.number(8) {
            Some(x) => x as u64,
            None => return None,
        };
        v.push((key, val));
        assert(acc.push((key as nat, val as nat)) =~= reg_pairs(v@));
        k += 1;
    }
    Some(v)
}

fn decode_state(bytes: &[u8]) -> (r: Option<HvfVcpuState>)
    ensures
        match r {
            Some(s) => state_decoded(bytes@) == Some(s@),
            None => state_decoded(bytes@) is None,
        },
{
    let mut c = Cursor::new(bytes);
    let words: Vec<u64> = match read_words(&mut c) {
        Some(w) => w,
        None => return None,
    };
    let simd: [u128; 32] = match read_simd(&mut c) {
        Some(w) => w,
        None => return None,
    };
    let sys: Vec<(u16, u64)> = match read_sys(&mut c) {
        Some(w) => w,
        None => return None,
    };
    let gic_redist: Vec<(u32, u64)> = match read_list(&mut c) {
        Some(w) => w,
        None => return None,
    };
    let gic_icc: Vec<(u32, u64)> = match read_list(&mut c) {
        Some(w) => w,
        None => return None,
    };
    // Trailing field; tolerate older blobs that predate it (default 0: no
    // offset).
    let vtimer_offset: u64 = if c.remaining() > 0 {
        proof {
            lemma_pow256_values();
        }
        match c.number(8) {
            Some(x) => x as u64,
            None => return None,
        }
    } else {
        0
    };
    let mut gp: [u64; 31] = [0u64; 31];
    let mut k: usize = 0;
    while k < 31
        invariant
            k <= 31,
            words@.len() == 35,
            forall|i: int| 0 <= i < k ==> #[trigger] gp@[i] == words@[i],
        decreases 31 - k,
    {
        gp[k] = words[k];
        k += 1;
    }
    let s = HvfVcpuState {
        gp,
        pc: words[31],
        cpsr: words[32],
        fpcr: words[33],
        fpsr: words[34],
        simd,
        sys,
        gic_redist,
        gic_icc,
        vtimer_offset,
    };
    proof {
        let m = state_decoded(bytes@)->0;
        assert(s@.words =~= m.words);
        assert(s@.simd =~= m.simd);
        assert(s@.sys =~= m.sys);
        assert(s@.gic_redist =~= m.gic_redist);
        assert(s@.gic_icc =~= m.gic_icc);
    }
    Some(s)
}

} // verus!
