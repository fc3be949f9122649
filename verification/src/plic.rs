//! SiFive PLIC state machine, shared by every embedder of the emulated CPU.
//!
//! Models the interrupt controller Linux's `irq-sifive-plic` driver expects
//! (compatible `"sifive,plic-1.0.0"` / `"riscv,plic0"`), with one context per
//! hart wired to that hart's S-mode external interrupt (SEIP). Register map,
//! offsets from the PLIC base (32-bit accesses only):
//!
//! | Offset                    | Register                                   |
//! |---------------------------|--------------------------------------------|
//! | `0x00_0000 + 4*src`       | priority of source `src` (1..=n, 0..=7)    |
//! | `0x00_1000 + 4*word`      | pending bits (bit index == source ID, RO)  |
//! | `0x00_2000 + 0x80*ctx+4*w`| per-context enable bits                    |
//! | `0x20_0000 + 0x1000*ctx`  | per-context priority threshold             |
//! | `0x20_0000 + 0x1000*ctx+4`| claim (read) / complete (write)            |
//!
//! Sources are level-triggered. A pending bit is only ever cleared by a
//! claim, the gateway forwards no new request for a source while one is in
//! flight (claimed but not completed), and a completion re-pends the source
//! if its level is still asserted. A claim is not gated by the threshold (the
//! threshold only masks the EIP notification), and a completion whose ID is
//! not enabled for the completing context is ignored.
//!
//! Two ways to assert a source exist:
//!
//! - [`Plic::set_source`]`(src, level)`: a true level line. The level stays
//!   asserted until the caller drops it; completion re-pends while it is high.
//! - [`Plic::signal_source`]`(src)`: assert, then auto-deassert on claim. A
//!   re-signal between claim and completion re-asserts the level, so the
//!   completion re-pends it and no interrupt is lost.
//!
//! Interrupt delivery is the embedder's job: after any operation that can
//! change a context's output, read [`Plic::hart_ext_pending`] and drive that
//! hart's SEIP line.

use vstd::prelude::*;

verus! {

/// Priorities span 0..=7 (0 = "never interrupt").
pub const MAX_PRIORITY: u32 = 7;

/// Contexts the 4 MiB aperture has room for.
pub const MAX_CONTEXTS: usize = 512;

/// Sources the register map has room for.
pub const MAX_SOURCES: u32 = 1023;

// Register map (offsets from the PLIC base).
pub const PRIORITY_BASE: u64 = 0x0;

pub const PENDING_BASE: u64 = 0x1000;

pub const ENABLE_BASE: u64 = 0x2000;

pub const ENABLE_STRIDE: u64 = 0x80;

pub const CONTEXT_BASE: u64 = 0x20_0000;

pub const CONTEXT_STRIDE: u64 = 0x1000;

pub const CONTEXT_END: u64 = 0x40_0000;

pub const CONTEXT_THRESHOLD: u64 = 0x0;

pub const CONTEXT_CLAIM: u64 = 0x4;

/// One context per hart: context i = hart i, S-mode external interrupt.
struct Context {
    enable: Vec<u32>,
    threshold: u32,
}

pub struct Plic {
    /// Valid source IDs are `1..=num_sources`; source 0 is reserved.
    num_sources: u32,
    /// Per-source priority (index 0 unused).
    priority: Vec<u32>,
    /// Externally driven level of each source line.
    level: Vec<bool>,
    /// Source was last asserted through [`Plic::signal_source`]: its level is
    /// dropped when the source is claimed.
    auto_deassert: Vec<bool>,
    /// In-flight sources (claimed, not yet completed): the gateway forwards
    /// no new request for these until completion.
    claimed: Vec<bool>,
    /// Pending bits, bit index == source ID.
    pending: Vec<u32>,
    contexts: Vec<Context>,
}

/// The enable bits and threshold of a context.
pub struct Target {
    pub enable: Seq<u32>,
    pub threshold: u32,
}

/// What a PLIC holds.
pub struct PlicState {
    pub num_sources: u32,
    pub priority: Seq<u32>,
    pub level: Seq<bool>,
    pub auto_deassert: Seq<bool>,
    pub claimed: Seq<bool>,
    pub pending: Seq<u32>,
    pub targets: Seq<Target>,
}

/// Whether bit `src` is set in an array of 32-bit words.
pub open spec fn bit_in(words: Seq<u32>, src: int) -> bool {
    words[src / 32] & (1u32 << ((src % 32) as u32)) != 0
}

/// The words with bit `src` set or cleared.
pub open spec fn with_bit(words: Seq<u32>, src: int, val: bool) -> Seq<u32> {
    let w = words[src / 32];
    let m = 1u32 << ((src % 32) as u32);
    words.update(
        src / 32,
        if val {
            w | m
        } else {
            w & !m
        },
    )
}

/// The words needed for the bits of `n` sources and the reserved one.
pub open spec fn words_for(n: u32) -> int {
    (n + 1 + 31) / 32
}

/// The low `bits` bits of an enable or pending word that stand for sources.
pub open spec fn mask_below(n: u32, word: int, bits: nat) -> u32
    decreases bits,
{
    if bits == 0 {
        0
    } else {
        let b = (bits - 1) as nat;
        if 1 <= word * 32 + b <= n {
            mask_below(n, word, b) | (1u32 << (b as u32))
        } else {
            mask_below(n, word, b)
        }
    }
}

/// The bits of an enable or pending word that stand for sources.
pub open spec fn mask_of(n: u32, word: int) -> u32 {
    mask_below(n, word, 32)
}

impl PlicState {
    pub open spec fn valid(self, src: int) -> bool {
        1 <= src <= self.num_sources
    }

    pub open spec fn is_pending(self, src: int) -> bool {
        bit_in(self.pending, src)
    }

    pub open spec fn enabled(self, ctx: int, src: int) -> bool {
        bit_in(self.targets[ctx].enable, src)
    }

    /// Lengths fit the number of sources, priorities and thresholds are in
    /// range, and no request is pending while one is in flight.
    pub open spec fn wf(self) -> bool {
        &&& self.num_sources <= MAX_SOURCES
        &&& self.priority.len() == self.num_sources + 1
        &&& self.level.len() == self.num_sources + 1
        &&& self.auto_deassert.len() == self.num_sources + 1
        &&& self.claimed.len() == self.num_sources + 1
        &&& self.pending.len() == words_for(self.num_sources)
        &&& self.targets.len() <= MAX_CONTEXTS
        &&& forall|c: int|
            0 <= c < self.targets.len() ==> (#[trigger] self.targets[c]).enable.len() == words_for(
                self.num_sources,
            ) && self.targets[c].threshold <= MAX_PRIORITY
        &&& forall|s: int| 0 <= s <= self.num_sources ==> #[trigger] self.priority[s] <= MAX_PRIORITY
        &&& forall|s: int|
            0 <= s <= self.num_sources && #[trigger] self.claimed[s] ==> !self.is_pending(s)
    }

    /// A PLIC out of reset.
    pub open spec fn reset(contexts: nat, n: u32) -> PlicState {
        PlicState {
            num_sources: n,
            priority: Seq::new((n + 1) as nat, |i: int| 0u32),
            level: Seq::new((n + 1) as nat, |i: int| false),
            auto_deassert: Seq::new((n + 1) as nat, |i: int| false),
            claimed: Seq::new((n + 1) as nat, |i: int| false),
            pending: Seq::new(words_for(n) as nat, |i: int| 0u32),
            targets: Seq::new(
                contexts,
                |c: int|
                    Target { enable: Seq::new(words_for(n) as nat, |i: int| 0u32), threshold: 0 },
            ),
        }
    }

    /// The level-triggered gateway: a high level forwards a request unless one
    /// is already in flight. A dropped level leaves a pending bit set.
    pub open spec fn after_level(self, src: int, level: bool, auto: bool) -> PlicState {
        if !self.valid(src) {
            self
        } else {
            PlicState {
                level: self.level.update(src, level),
                auto_deassert: self.auto_deassert.update(src, auto),
                pending: if level && !self.claimed[src] {
                    with_bit(self.pending, src, true)
                } else {
                    self.pending
                },
                ..self
            }
        }
    }

    /// A source that a claim for the context may return.
    pub open spec fn claimable(self, ctx: int, src: int) -> bool {
        self.valid(src) && self.is_pending(src) && self.enabled(ctx, src) && self.priority[src] > 0
    }

    /// `best` is what a claim returns: the claimable source with the highest
    /// priority (lowest ID on ties), or 0. The threshold has no say.
    pub open spec fn is_best(self, ctx: int, best: int) -> bool {
        if best == 0 {
            forall|s: int| !#[trigger] self.claimable(ctx, s)
        } else {
            &&& self.claimable(ctx, best)
            &&& forall|s: int| #[trigger]
                self.claimable(ctx, s) ==> self.priority[s] < self.priority[best] || (
                self.priority[s] == self.priority[best] && best <= s)
        }
    }

    /// After a claim of `best`.
    pub open spec fn after_claim(self, best: int) -> PlicState {
        if best == 0 {
            self
        } else {
            PlicState {
                pending: with_bit(self.pending, best, false),
                claimed: self.claimed.update(best, true),
                level: if self.auto_deassert[best] {
                    self.level.update(best, false)
                } else {
                    self.level
                },
                ..self
            }
        }
    }

    /// After a completion of `src` by the context. Ignored unless it is a
    /// claimed source that is enabled for the context.
    pub open spec fn after_complete(self, ctx: int, src: int) -> PlicState {
        if !self.valid(src) || !self.enabled(ctx, src) || !self.claimed[src] {
            self
        } else {
            PlicState {
                claimed: self.claimed.update(src, false),
                pending: if self.level[src] {
                    with_bit(self.pending, src, true)
                } else {
                    self.pending
                },
                ..self
            }
        }
    }

    /// The hart's S-mode external interrupt output: any pending and enabled
    /// source above its context's threshold.
    pub open spec fn ext_pending(self, hart: int) -> bool {
        0 <= hart < self.targets.len() && exists|s: int|
            self.valid(s) && #[trigger] self.is_pending(s) && self.enabled(hart, s)
                && self.priority[s] > self.targets[hart].threshold
    }

    /// The context whose claim register is at the offset.
    pub open spec fn claim_context(self, offset: u64) -> Option<int> {
        let ctx = (offset - CONTEXT_BASE) / CONTEXT_STRIDE as int;
        if CONTEXT_BASE <= offset < CONTEXT_END && ctx < self.targets.len() && (offset
            - CONTEXT_BASE) % CONTEXT_STRIDE as int == CONTEXT_CLAIM {
            Some(ctx)
        } else {
            None
        }
    }

    /// What a register other than a claim one reads as.
    pub open spec fn register(self, offset: u64) -> u32 {
        if offset < PENDING_BASE {
            let src = (offset / 4) as int;
            if self.valid(src) {
                self.priority[src]
            } else {
                0
            }
        } else if offset < ENABLE_BASE {
            let word = (offset - PENDING_BASE) / 4;
            if word < self.pending.len() {
                self.pending[word]
            } else {
                0
            }
        } else if offset < CONTEXT_BASE {
            let ctx = (offset - ENABLE_BASE) / ENABLE_STRIDE as int;
            let word = ((offset - ENABLE_BASE) % ENABLE_STRIDE as int) / 4;
            if ctx < self.targets.len() && word < self.targets[ctx].enable.len() {
                self.targets[ctx].enable[word]
            } else {
                0
            }
        } else if offset < CONTEXT_END {
            let ctx = (offset - CONTEXT_BASE) / CONTEXT_STRIDE as int;
            if ctx < self.targets.len() && (offset - CONTEXT_BASE) % CONTEXT_STRIDE as int
                == CONTEXT_THRESHOLD {
                self.targets[ctx].threshold
            } else {
                0
            }
        } else {
            0
        }
    }

    /// After a write of a register.
    pub open spec fn written(self, offset: u64, value: u32) -> PlicState {
        if offset < PENDING_BASE {
            let src = (offset / 4) as int;
            if self.valid(src) {
                PlicState { priority: self.priority.update(src, value & MAX_PRIORITY), ..self }
            } else {
                self
            }
        } else if offset < ENABLE_BASE {
            // Pending bits are read-only; set by the gateway, cleared by claim.
            self
        } else if offset < CONTEXT_BASE {
            let ctx = (offset - ENABLE_BASE) / ENABLE_STRIDE as int;
            let word = ((offset - ENABLE_BASE) % ENABLE_STRIDE as int) / 4;
            if ctx < self.targets.len() && word < self.targets[ctx].enable.len() {
                let t = self.targets[ctx];
                let enable = t.enable.update(word, value & mask_of(self.num_sources, word));
                PlicState { targets: self.targets.update(ctx, Target { enable, ..t }), ..self }
            } else {
                self
            }
        } else if offset < CONTEXT_END {
            let ctx = (offset - CONTEXT_BASE) / CONTEXT_STRIDE as int;
            let reg = (offset - CONTEXT_BASE) % CONTEXT_STRIDE as int;
            if ctx >= self.targets.len() {
                self
            } else if reg == CONTEXT_THRESHOLD {
                let t = self.targets[ctx];
                PlicState {
                    targets: self.targets.update(
                        ctx,
                        Target { threshold: value & MAX_PRIORITY, ..t },
                    ),
                    ..self
                }
            } else if reg == CONTEXT_CLAIM {
                self.after_complete(ctx, value as int)
            } else {
                self
            }
        } else {
            self
        }
    }
}

proof fn lemma_bits(w: u32, i: u32, j: u32)
    by (bit_vector)
    requires
        i < 32,
        j < 32,
    ensures
        ((w | (1u32 << i)) & (1u32 << j) != 0) == (i == j || w & (1u32 << j) != 0),
        ((w & !(1u32 << i)) & (1u32 << j) != 0) == (i != j && w & (1u32 << j) != 0),
        0u32 & (1u32 << j) == 0,
        w & 7 <= 7,
{
}

/// Setting or clearing a bit shows in that bit and in no other.
pub proof fn with_bit_changes_one_bit(words: Seq<u32>, src: int, val: bool, other: int)
    requires
        0 <= src < words.len() * 32,
        0 <= other < words.len() * 32,
    ensures
        bit_in(with_bit(words, src, val), other) == (if src == other {
            val
        } else {
            bit_in(words, other)
        }),
{
    lemma_bits(words[src / 32], (src % 32) as u32, (other % 32) as u32);
    if src / 32 == other / 32 && src % 32 == other % 32 {
        assert(src == other);
    }
}

/// A bit of the mask is set exactly where a source of that number exists.
pub proof fn mask_holds_the_sources(n: u32, word: int, bits: nat, b: u32)
    requires
        bits <= 32,
        b < 32,
    ensures
        (mask_below(n, word, bits) & (1u32 << b) != 0) == (b < bits && 1 <= word * 32 + b <= n),
    decreases bits,
{
    if bits == 0 {
        lemma_bits(0, 0, b);
    } else {
        let k = (bits - 1) as nat;
        mask_holds_the_sources(n, word, k, b);
        lemma_bits(mask_below(n, word, k), k as u32, b);
    }
}

impl View for Context {
    type V = Target;

    closed spec fn view(&self) -> Target {
        Target { enable: self.enable@, threshold: self.threshold }
    }
}

impl View for Plic {
    type V = PlicState;

    closed spec fn view(&self) -> PlicState {
        PlicState {
            num_sources: self.num_sources,
            priority: self.priority@,
            level: self.level@,
            auto_deassert: self.auto_deassert@,
            claimed: self.claimed@,
            pending: self.pending@,
            targets: Seq::new(self.contexts@.len(), |i: int| self.contexts@[i]@),
        }
    }
}

impl Plic {
    /// Size of the MMIO aperture (matches the `reg` property of the FDT node).
    pub const MMIO_SIZE: u64 = 0x40_0000;

    /// Source count the riscv64 FDT advertises as `riscv,ndev`.
    pub const DEFAULT_NUM_SOURCES: u32 = 96;

    pub fn new(vcpu_count: usize, num_sources: u32) -> (r: Self)
        requires
            vcpu_count <= MAX_CONTEXTS,
            num_sources <= MAX_SOURCES,
        ensures
            r@.wf(),
            r@ == PlicState::reset(vcpu_count as nat, num_sources),
    {
        let n: usize = num_sources as usize + 1;
        let num_words: usize = (n + 31) / 32;
        let mut contexts: Vec<Context> = Vec::new();
        let mut i: usize = 0;
        while i < vcpu_count
            invariant
                i <= vcpu_count,
                contexts.len() == i,
                num_words == words_for(num_sources),
                forall|c: int|
                    0 <= c < i ==> (#[trigger] contexts@[c])@ == (Target {
                        enable: Seq::new(num_words as nat, |k: int| 0u32),
                        threshold: 0,
                    }),
            decreases vcpu_count - i,
        {
            let c = Context { enable: vec![0; num_words], threshold: 0 };
            assert(c.enable@ =~= Seq::new(num_words as nat, |k: int| 0u32));
            contexts.push(c);
            i += 1;
        }
        let r = Plic {
            num_sources,
            priority: vec![0; n],
            level: vec![false; n],
            auto_deassert: vec![false; n],
            claimed: vec![false; n],
            pending: vec![0; num_words],
            contexts,
        };
        proof {
            let s = PlicState::reset(vcpu_count as nat, num_sources);
            assert(r@.priority =~= s.priority);
            assert(r@.level =~= s.level);
            assert(r@.auto_deassert =~= s.auto_deassert);
            assert(r@.claimed =~= s.claimed);
            assert(r@.pending =~= s.pending);
            assert(r@.targets =~= s.targets);
        }
        r
    }

    /// Words of pending bits, and of enable bits of each context.
    pub fn pending_words(&self) -> (r: usize)
        ensures
            r == self@.pending.len(),
    {
        self.pending.len()
    }

    /// Read a 32-bit register. A claim read has side effects.
    pub fn read(&mut self, offset: u64) -> (r: u32)
        requires
            old(self)@.wf(),
        ensures
            final(self)@.wf(),
            match old(self)@.claim_context(offset) {
                Some(ctx) => old(self)@.is_best(ctx, r as int) && final(self)@
                    == old(self)@.after_claim(r as int),
                None => r == old(self)@.register(offset) && final(self)@ == old(self)@,
            },
    {
        if offset < PENDING_BASE {
            let src: usize = (offset / 4) as usize;
            if self.valid_source(src) {
                self.priority[src]
            } else {
                0
            }
        } else if offset < ENABLE_BASE {
            let word: usize = ((offset - PENDING_BASE) / 4) as usize;
            if word < self.pending.len() {
                self.pending[word]
            } else {
                0
            }
        } else if offset < CONTEXT_BASE {
            let ctx: usize = ((offset - ENABLE_BASE) / ENABLE_STRIDE) as usize;
            let word: usize = (((offset - ENABLE_BASE) % ENABLE_STRIDE) / 4) as usize;
            if ctx < self.contexts.len() && word < self.contexts[ctx].enable.len() {
                assert(self.contexts@[ctx as int]@ == self@.targets[ctx as int]);
                self.contexts[ctx].enable[word]
            } else {
                0
            }
        } else if offset < CONTEXT_END {
            let ctx: usize = ((offset - CONTEXT_BASE) / CONTEXT_STRIDE) as usize;
            if ctx >= self.contexts.len() {
                return 0;
            }
            let reg: u64 = (offset - CONTEXT_BASE) % CONTEXT_STRIDE;
            if reg == CONTEXT_THRESHOLD {
                assert(self.contexts@[ctx as int]@ == self@.targets[ctx as int]);
                self.contexts[ctx].threshold
            } else if reg == CONTEXT_CLAIM {
                self.claim(ctx)
            } else {
                0
            }
        } else {
            0
        }
    }

    /// Write a 32-bit register.
    pub fn write(&mut self, offset: u64, value: u32)
        requires
            old(self)@.wf(),
        ensures
            final(self)@.wf(),
            final(self)@ == old(self)@.written(offset, value),
    {
        let ghost before = self@;
        proof {
            lemma_bits(value, 0, 0);
        }
        if offset < PENDING_BASE {
            let src: usize = (offset / 4) as usize;
            if self.valid_source(src) {
                self.priority[src] = value & MAX_PRIORITY;
            }
        } else if offset < ENABLE_BASE {
            // Pending bits are read-only; set by the gateway, cleared by claim.
        } else if offset < CONTEXT_BASE {
            let ctx: usize = ((offset - ENABLE_BASE) / ENABLE_STRIDE) as usize;
            let word: usize = (((offset - ENABLE_BASE) % ENABLE_STRIDE) / 4) as usize;
            let mask: u32 = self.valid_sources_mask(word);
            if ctx < self.contexts.len() && word < self.contexts[ctx].enable.len() {
                let ghost old_ctx = self.contexts@;
                assert(old_ctx[ctx as int]@ == before.targets[ctx as int]);
                self.contexts[ctx].enable[word] = value & mask;
                assert(self@.targets =~= before.written(offset, value).targets);
            }
        } else if offset < CONTEXT_END {
            let ctx: usize = ((offset - CONTEXT_BASE) / CONTEXT_STRIDE) as usize;
            if ctx >= self.contexts.len() {
                return;
            }
            let reg: u64 = (offset - CONTEXT_BASE) % CONTEXT_STRIDE;
            if reg == CONTEXT_THRESHOLD {
                // Linux writes 0x7fffffff to park a context; masking to the
                // priority range keeps that meaning (7 masks everything).
                let ghost old_ctx = self.contexts@;
                assert(old_ctx[ctx as int]@ == before.targets[ctx as int]);
                self.contexts[ctx].threshold = value & MAX_PRIORITY;
                assert(self@.targets =~= before.written(offset, value).targets);
            } else if reg == CONTEXT_CLAIM {
                self.complete(ctx, value);
            }
        }
    }

    /// Drive `source`'s line as a true level. Out-of-range sources are
    /// ignored.
    pub fn set_source(&mut self, source: u32, level: bool)
        requires
            old(self)@.wf(),
        ensures
            final(self)@.wf(),
            final(self)@ == old(self)@.after_level(source as int, level, false),
    {
        self.set_level(source, level, false);
    }

    /// Assert `source` with auto-deassert-on-claim semantics.
    pub fn signal_source(&mut self, source: u32)
        requires
            old(self)@.wf(),
        ensures
            final(self)@.wf(),
            final(self)@ == old(self)@.after_level(source as int, true, true),
    {
        self.set_level(source, true, true);
    }

    /// `hart`'s S-mode external interrupt output: any pending+enabled source
    /// above its context threshold.
    pub fn hart_ext_pending(&self, hart: usize) -> (r: bool)
        requires
            self@.wf(),
        ensures
            r == self@.ext_pending(hart as int),
    {
        if hart >= self.contexts.len() {
            return false;
        }
        let n: usize = self.num_sources as usize;
        let mut src: usize = 1;
        assert(self.contexts@[hart as int]@ == self@.targets[hart as int]);
        while src <= n
            invariant
                1 <= src <= n + 1,
                n == self.num_sources,
                self@.wf(),
                hart < self.contexts.len(),
                self.contexts@[hart as int]@ == self@.targets[hart as int],
                forall|s: int|
                    1 <= s < src && #[trigger] self@.is_pending(s) && self@.enabled(hart as int, s)
                        ==> self@.priority[s] <= self@.targets[hart as int].threshold,
            decreases n + 1 - src,
        {
            if self.pending_bit(src) && self.enabled(hart, src) && self.priority[src]
                > self.contexts[hart].threshold {
                assert(self@.is_pending(src as int));
                return true;
            }
            src += 1;
        }
        false
    }

    fn valid_source(&self, src: usize) -> (r: bool)
        ensures
            r == self@.valid(src as int),
    {
        1 <= src && src <= self.num_sources as usize
    }

    /// Mask of bits in enable/pending `word` that correspond to valid source
    /// IDs.
    pub fn valid_sources_mask(&self, word: usize) -> (r: u32)
        requires
            word <= 0x1000,
        ensures
            r == mask_of(self@.num_sources, word as int),
    {
        let mut mask: u32 = 0;
        let mut bit: u32 = 0;
        while bit < 32
            invariant
                bit <= 32,
                word <= 0x1000,
                mask == mask_below(self@.num_sources, word as int, bit as nat),
            decreases 32 - bit,
        {
            let src: usize = word * 32 + bit as usize;
            if self.valid_source(src) {
                mask = mask | (1u32 << bit);
            }
            bit += 1;
        }
        mask
    }

    fn pending_bit(&self, src: usize) -> (r: bool)
        requires
            self@.wf(),
            src <= self@.num_sources,
        ensures
            r == self@.is_pending(src as int),
    {
        self.pending[src / 32] & (1u32 << ((src % 32) as u32)) != 0
    }

    fn set_pending_bit(&mut self, src: usize, val: bool)
        requires
            src / 32 < old(self)@.pending.len(),
        ensures
            final(self)@ == (PlicState {
                pending: with_bit(old(self)@.pending, src as int, val),
                ..old(self)@
            }),
    {
        let w: u32 = self.pending[src / 32];
        let m: u32 = 1u32 << ((src % 32) as u32);
        self.pending[src / 32] = if val {
            w | m
        } else {
            w & !m
        };
    }

    fn enabled(&self, ctx: usize, src: usize) -> (r: bool)
        requires
            self@.wf(),
            ctx < self@.targets.len(),
            src <= self@.num_sources,
        ensures
            r == self@.enabled(ctx as int, src as int),
    {
        assert(self.contexts@[ctx as int]@ == self@.targets[ctx as int]);
        self.contexts[ctx].enable[src / 32] & (1u32 << ((src % 32) as u32)) != 0
    }

    /// Level-triggered gateway: a high level forwards a request unless one is
    /// already in flight; pending is only ever cleared by a claim (a dropped
    /// level leaves it set).
    fn set_level(&mut self, source: u32, level: bool, auto: bool)
        requires
            old(self)@.wf(),
        ensures
            final(self)@.wf(),
            final(self)@ == old(self)@.after_level(source as int, level, auto),
    {
        let src: usize = source as usize;
        if !self.valid_source(src) {
            return;
        }
        let ghost before = self@;
        self.level[src] = level;
        self.auto_deassert[src] = auto;
        if level && !self.claimed[src] {
            self.set_pending_bit(src, true);
        }
        proof {
            lemma_level_keeps_wf(before, src as int, level, auto);
        }
    }

    /// Claim for `ctx`: the pending+enabled source with the highest nonzero
    /// priority (lowest ID on ties), or 0. Not gated by the threshold.
    fn claim(&mut self, ctx: usize) -> (r: u32)
        requires
            old(self)@.wf(),
            ctx < old(self)@.targets.len(),
        ensures
            final(self)@.wf(),
            old(self)@.is_best(ctx as int, r as int),
            final(self)@ == old(self)@.after_claim(r as int),
    {
        let n: usize = self.num_sources as usize;
        let mut best: usize = 0;
        let mut best_prio: u32 = 0;
        let mut src: usize = 1;
        while src <= n
            invariant
                1 <= src <= n + 1,
                n == self.num_sources,
                self@.wf(),
                ctx < self@.targets.len(),
                best < src,
                best == 0 ==> best_prio == 0,
                best != 0 ==> self@.claimable(ctx as int, best as int) && best_prio
                    == self@.priority[best as int],
                forall|s: int|
                    s < src && #[trigger] self@.claimable(ctx as int, s) ==> self@.priority[s]
                        < best_prio || (self@.priority[s] == best_prio && best <= s),
            decreases n + 1 - src,
        {
            if self.pending_bit(src) && self.enabled(ctx, src) && self.priority[src] > best_prio {
                best = src;
                best_prio = self.priority[src];
            }
            src += 1;
        }
        let ghost before = self@;
        if best != 0 {
            self.set_pending_bit(best, false);
            self.claimed[best] = true;
            if self.auto_deassert[best] {
                self.level[best] = false;
            }
        }
        proof {
            lemma_claim_keeps_wf(before, best as int);
        }
        best as u32
    }

    /// Complete `id` for `ctx`. Ignored unless `id` is a claimed source that
    /// is enabled for this context. Re-pends the source if its level is still
    /// asserted.
    fn complete(&mut self, ctx: usize, id: u32)
        requires
            old(self)@.wf(),
            ctx < old(self)@.targets.len(),
        ensures
            final(self)@.wf(),
            final(self)@ == old(self)@.after_complete(ctx as int, id as int),
    {
        let src: usize = id as usize;
        if !self.valid_source(src) || !self.enabled(ctx, src) || !self.claimed[src] {
            return;
        }
        let ghost before = self@;
        self.claimed[src] = false;
        if self.level[src] {
            self.set_pending_bit(src, true);
        }
        proof {
            lemma_complete_keeps_wf(before, ctx as int, src as int);
        }
    }
}

proof fn lemma_level_keeps_wf(s: PlicState, src: int, level: bool, auto: bool)
    requires
        s.wf(),
    ensures
        s.after_level(src, level, auto).wf(),
{
    let t = s.after_level(src, level, auto);
    assert forall|k: int| 0 <= k <= t.num_sources && #[trigger] t.claimed[k] implies !t.is_pending(
        k,
    ) by {
        assert(s.claimed[k]);
        if s.valid(src) {
            with_bit_changes_one_bit(s.pending, src, true, k);
        }
    }
}

proof fn lemma_claim_keeps_wf(s: PlicState, best: int)
    requires
        s.wf(),
        0 <= best <= s.num_sources,
    ensures
        s.after_claim(best).wf(),
{
    let t = s.after_claim(best);
    assert forall|k: int| 0 <= k <= t.num_sources && #[trigger] t.claimed[k] implies !t.is_pending(
        k,
    ) by {
        with_bit_changes_one_bit(s.pending, best, false, k);
        if k != best {
            assert(s.claimed[k]);
        }
    }
}

proof fn lemma_complete_keeps_wf(s: PlicState, ctx: int, src: int)
    requires
        s.wf(),
    ensures
        s.after_complete(ctx, src).wf(),
{
    let t = s.after_complete(ctx, src);
    assert forall|k: int| 0 <= k <= t.num_sources && #[trigger] t.claimed[k] implies !t.is_pending(
        k,
    ) by {
        assert(s.claimed[k]);
        if s.valid(src) {
            with_bit_changes_one_bit(s.pending, src, true, k);
        }
    }
}

/// A dropped level leaves what is pending: only a claim clears a pending bit,
/// and it clears only its own.
pub proof fn only_a_claim_clears_pending(s: PlicState, src: int, level: bool, auto: bool, k: int)
    requires
        s.wf(),
        s.valid(k),
    ensures
        s.is_pending(k) ==> s.after_level(src, level, auto).is_pending(k),
        forall|ctx: int, id: int|
            s.is_pending(k) ==> #[trigger] s.after_complete(ctx, id).is_pending(k),
        forall|best: int|
            0 <= best <= s.num_sources && s.is_pending(k) && best != k
                ==> #[trigger] s.after_claim(best).is_pending(k),
{
    if s.valid(src) {
        with_bit_changes_one_bit(s.pending, src, true, k);
    }
    assert forall|ctx: int, id: int| s.is_pending(k) implies #[trigger] s.after_complete(
        ctx,
        id,
    ).is_pending(k) by {
        if s.valid(id) {
            with_bit_changes_one_bit(s.pending, id, true, k);
        }
    }
    assert forall|best: int|
        0 <= best <= s.num_sources && s.is_pending(k) && best
            != k implies #[trigger] s.after_claim(best).is_pending(k) by {
        if best != 0 {
            with_bit_changes_one_bit(s.pending, best, false, k);
        }
    }
}

/// While a request is in flight the gateway forwards no new one.
pub proof fn in_flight_holds_requests(s: PlicState, src: int, level: bool, auto: bool)
    requires
        s.wf(),
        s.valid(src),
        s.claimed[src],
    ensures
        !s.after_level(src, level, auto).is_pending(src),
{
}

/// A completion re-pends the source exactly where its level is still high.
pub proof fn completion_repends_a_high_level(s: PlicState, ctx: int, src: int)
    requires
        s.wf(),
        s.valid(src),
        s.enabled(ctx, src),
        s.claimed[src],
    ensures
        s.after_complete(ctx, src).is_pending(src) == s.level[src],
        !s.after_complete(ctx, src).claimed[src],
{
    with_bit_changes_one_bit(s.pending, src, true, src);
}

/// A completion by a context that does not have the source enabled, or of a
/// source that is not in flight, changes nothing.
pub proof fn stray_completions_are_ignored(s: PlicState, ctx: int, src: int)
    requires
        s.wf(),
        !s.valid(src) || !s.enabled(ctx, src) || !s.claimed[src],
    ensures
        s.after_complete(ctx, src) == s,
{
}

/// A signalled source is acknowledged by its claim: a completion re-pends it
/// if and only if it was signalled again in between.
pub proof fn claim_acknowledges_a_signal(s: PlicState, ctx: int, src: int)
    requires
        s.wf(),
        s.valid(src),
        s.enabled(ctx, src),
        !s.claimed[src],
    ensures
        ({
            let claimed = s.after_level(src, true, true).after_claim(src);
            &&& s.after_level(src, true, true).is_pending(src)
            &&& !claimed.is_pending(src)
            &&& !claimed.after_complete(ctx, src).is_pending(src)
            &&& !claimed.after_level(src, true, true).is_pending(src)
            &&& claimed.after_level(src, true, true).after_complete(ctx, src).is_pending(src)
        }),
{
    let s1 = s.after_level(src, true, true);
    let s2 = s1.after_claim(src);
    let s3 = s2.after_level(src, true, true);
    with_bit_changes_one_bit(s.pending, src, true, src);
    with_bit_changes_one_bit(s1.pending, src, false, src);
    with_bit_changes_one_bit(s2.pending, src, true, src);
    assert(s3.pending == s2.pending);
    assert(s3.claimed[src]);
}

/// The threshold masks the notification only: a claim does not look at it.
pub proof fn claims_ignore_the_threshold(s: PlicState, ctx: int, best: int, threshold: u32)
    requires
        s.wf(),
        0 <= ctx < s.targets.len(),
        s.is_best(ctx, best),
    ensures
        ({
            let t = Target { threshold, ..s.targets[ctx] };
            (PlicState { targets: s.targets.update(ctx, t), ..s }).is_best(ctx, best)
        }),
{
    let s2 = PlicState {
        targets: s.targets.update(ctx, Target { threshold, ..s.targets[ctx] }),
        ..s
    };
    assert(forall|k: int| #[trigger] s2.claimable(ctx, k) == s.claimable(ctx, k));
}

/// A threshold of 7 masks everything.
pub proof fn the_top_threshold_masks_everything(s: PlicState, hart: int)
    requires
        s.wf(),
        0 <= hart < s.targets.len(),
        s.targets[hart].threshold == MAX_PRIORITY,
    ensures
        !s.ext_pending(hart),
{
}

/// A raised output has a source to claim.
pub proof fn an_output_has_a_source(s: PlicState, hart: int, best: int)
    requires
        s.wf(),
        s.ext_pending(hart),
        s.is_best(hart, best),
    ensures
        best != 0,
        s.priority[best] > s.targets[hart].threshold,
{
    let k = choose|k: int|
        s.valid(k) && #[trigger] s.is_pending(k) && s.enabled(hart, k) && s.priority[k]
            > s.targets[hart].threshold;
    assert(s.claimable(hart, k));
}

} // verus!
