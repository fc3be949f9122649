//! Snapshot manifests: the layout of a durable memory image, the RAM of a
//! forked VM, and the RAM that a guardian process keeps.

use vstd::prelude::*;
use vstd::utf8::{decode_utf8, encode_utf8, valid_utf8};

use crate::bytes::{
    le_bytes_of_take_le, push_bytes, push_le, take_bytes, take_bytes_of_concat, take_le,
    take_le_of_le_bytes, Cursor,
};
use crate::mem::{le_bytes, lemma_pow256_values};
use crate::text::text_from_utf8;

verus! {

/// The broad kind of an input error.
#[derive(Debug, Clone, Copy, PartialEq, Eq, Structural)]
pub enum ErrorKind {
    InvalidData,
    InvalidInput,
    UnexpectedEof,
}

/// A region of guest RAM.
#[derive(Debug, Clone, Copy, PartialEq, Eq, Structural)]
pub struct MemoryRegionDesc {
    pub gpa: u64,
    pub len: u64,
}

impl MemoryRegionDesc {
    pub open spec fn end(self) -> int {
        self.gpa + self.len
    }
}

/// The regions, one after the other.
pub open spec fn regions_encoded(s: Seq<MemoryRegionDesc>) -> Seq<u8>
    decreases s.len(),
{
    if s.len() == 0 {
        Seq::empty()
    } else {
        le_bytes(s[0].gpa as nat, 8) + le_bytes(s[0].len as nat, 8) + regions_encoded(
            s.drop_first(),
        )
    }
}

/// The bytes of all regions together.
pub open spec fn total_len(s: Seq<MemoryRegionDesc>) -> nat
    decreases s.len(),
{
    if s.len() == 0 {
        0
    } else {
        total_len(s.drop_last()) + s.last().len as nat
    }
}

fn push_regions(out: &mut Vec<u8>, descs: &[MemoryRegionDesc])
    ensures
        final(out)@ == old(out)@ + regions_encoded(descs@),
{
    let ghost all = out@ + regions_encoded(descs@);
    assert(descs@.skip(0) =~= descs@);
    let mut i: usize = 0;
    while i < descs.len()
        invariant
            i <= descs@.len(),
            all == out@ + regions_encoded(descs@.skip(i as int)),
        decreases descs@.len() - i,
    {
        push_le(out, descs[i].gpa as u128, 8);
        push_le(out, descs[i].len as u128, 8);
        assert(descs@.skip(i as int).drop_first() =~= descs@.skip(i + 1));
        assert(all =~= out@ + regions_encoded(descs@.skip(i + 1)));
        i += 1;
    }
    assert(out@ + regions_encoded(descs@.skip(i as int)) =~= out@);
}

// ---------------------------------------------------------------------------
// The portable manifest.
// ---------------------------------------------------------------------------

/// Magic for a self-contained durable snapshot manifest ("SMOLPORT").
pub const PORTABLE_MANIFEST_MAGIC: u64 = 0x534d4f4c504f5254;

/// Durable snapshot manifest version.
pub const PORTABLE_MANIFEST_VERSION: u32 = 1;

/// The most regions that a portable manifest lists.
pub const PORTABLE_MAX_REGIONS: u64 = 4096;

/// What is wrong with a portable manifest.
#[derive(Debug, Clone, Copy, PartialEq, Eq, Structural)]
pub enum PortableFault {
    Truncated,
    Magic,
    Version,
    RegionCount,
    ZeroLength,
    AddressOverflow,
    Overlap,
    ImageOverflow,
    Trailing,
}

impl PortableFault {
    pub open spec fn text(self) -> Seq<char> {
        match self {
            PortableFault::Truncated => "portable manifest truncated"@,
            PortableFault::Magic => "bad portable manifest magic"@,
            PortableFault::Version => "unsupported portable manifest version"@,
            PortableFault::RegionCount => "invalid portable manifest region count"@,
            PortableFault::ZeroLength => "zero-length portable memory region"@,
            PortableFault::AddressOverflow => "portable memory region address overflow"@,
            PortableFault::Overlap => "overlapping or unsorted portable memory regions"@,
            PortableFault::ImageOverflow => "portable memory image length overflow"@,
            PortableFault::Trailing => "portable manifest has trailing bytes"@,
        }
    }

    pub fn kind(&self) -> (r: ErrorKind)
        ensures
            r == ErrorKind::InvalidData,
    {
        ErrorKind::InvalidData
    }

    pub fn message(&self) -> (r: String)
        ensures
            r@ == self.text(),
    {
        let s = match self {
            PortableFault::Truncated => "portable manifest truncated",
            PortableFault::Magic => "bad portable manifest magic",
            PortableFault::Version => "unsupported portable manifest version",
            PortableFault::RegionCount => "invalid portable manifest region count",
            PortableFault::ZeroLength => "zero-length portable memory region",
            PortableFault::AddressOverflow => "portable memory region address overflow",
            PortableFault::Overlap => "overlapping or unsorted portable memory regions",
            PortableFault::ImageOverflow => "portable memory image length overflow",
            PortableFault::Trailing => "portable manifest has trailing bytes",
        };
        s.to_string()
    }
}

/// The layout of an eager guest-memory image, as a manifest holds it.
pub open spec fn portable_encoded(descs: Seq<MemoryRegionDesc>) -> Seq<u8> {
    le_bytes(PORTABLE_MANIFEST_MAGIC as nat, 8) + (le_bytes(PORTABLE_MANIFEST_VERSION as nat, 4) + (
    le_bytes(descs.len(), 4) + regions_encoded(descs)))
}

/// What keeps a region from following those before it.
pub open spec fn portable_region_fault(acc: Seq<MemoryRegionDesc>, gpa: nat, len: nat) -> Option<
    PortableFault,
> {
    if len == 0 {
        Some(PortableFault::ZeroLength)
    } else if gpa + len > u64::MAX {
        Some(PortableFault::AddressOverflow)
    } else if acc.len() > 0 && gpa < acc.last().end() {
        Some(PortableFault::Overlap)
    } else if total_len(acc) + len > u64::MAX {
        Some(PortableFault::ImageOverflow)
    } else {
        None
    }
}

/// The next `n` regions, appended to `acc`, and what follows.
pub open spec fn portable_regions_from(b: Seq<u8>, n: nat, acc: Seq<MemoryRegionDesc>) -> Result<
    (Seq<MemoryRegionDesc>, Seq<u8>),
    PortableFault,
>
    decreases n,
{
    if n == 0 {
        Ok((acc, b))
    } else {
        match take_le(b, 8) {
            None => Err(PortableFault::Truncated),
            Some((gpa, b1)) => match take_le(b1, 8) {
                None => Err(PortableFault::Truncated),
                Some((len, b2)) => match portable_region_fault(acc, gpa, len) {
                    Some(fault) => Err(fault),
                    None => portable_regions_from(
                        b2,
                        (n - 1) as nat,
                        acc.push(MemoryRegionDesc { gpa: gpa as u64, len: len as u64 }),
                    ),
                },
            },
        }
    }
}

/// The layout that a manifest holds.
pub open spec fn portable_decoded(b: Seq<u8>) -> Result<Seq<MemoryRegionDesc>, PortableFault> {
    match take_le(b, 8) {
        None => Err(PortableFault::Truncated),
        Some((magic, b1)) => if magic != PORTABLE_MANIFEST_MAGIC {
            Err(PortableFault::Magic)
        } else {
            match take_le(b1, 4) {
                None => Err(PortableFault::Truncated),
                Some((version, b2)) => if version != PORTABLE_MANIFEST_VERSION {
                    Err(PortableFault::Version)
                } else {
                    match take_le(b2, 4) {
                        None => Err(PortableFault::Truncated),
                        Some((count, b3)) => if count == 0 || count > PORTABLE_MAX_REGIONS {
                            Err(PortableFault::RegionCount)
                        } else {
                            match portable_regions_from(b3, count, Seq::empty()) {
                                Err(fault) => Err(fault),
                                Ok((descs, rest)) => if rest.len() != 0 {
                                    Err(PortableFault::Trailing)
                                } else {
                                    Ok(descs)
                                },
                            }
                        },
                    }
                },
            }
        },
    }
}

/// Serialize the layout of the eager guest-memory image. The VM/vCPU/device
/// checkpoint is stored separately; the image contains region bytes in this
/// descriptor order.
pub fn encode_portable_manifest(descs: &[MemoryRegionDesc]) -> (r: Vec<u8>)
    ensures
        r@ == portable_encoded(descs@),
{
    let mut buf: Vec<u8> = Vec::new();
    push_le(&mut buf, PORTABLE_MANIFEST_MAGIC as u128, 8);
    push_le(&mut buf, PORTABLE_MANIFEST_VERSION as u128, 4);
    push_le(&mut buf, descs.len() as u128, 4);
    push_regions(&mut buf, descs);
    assert(buf@ =~= portable_encoded(descs@));
    buf
}

fn read_portable_regions(c: &mut Cursor, n: u64) -> (r: Result<
    Vec<MemoryRegionDesc>,
    PortableFault,
>)
    requires
        old(c).wf(),
    ensures
        final(c).wf(),
        match portable_regions_from(old(c)@, n as nat, Seq::empty()) {
            Ok((descs, rest)) => r is Ok && r->Ok_0@ == descs && final(c)@ == rest,
            Err(fault) => r == Err::<Vec<MemoryRegionDesc>, PortableFault>(fault),
        },
{
    let ghost whole = portable_regions_from(c@, n as nat, Seq::empty());
    let mut descs: Vec<MemoryRegionDesc> = Vec::new();
    let mut total: u64 = 0;
    let mut previous_end: u64 = 0;
    let mut i: u64 = 0;
    while i < n
        invariant
            i <= n,
            c.wf(),
            whole == portable_regions_from(old(c)@, n as nat, Seq::empty()),
            whole == portable_regions_from(c@, (n - i) as nat, descs@),
            total == total_len(descs@),
            descs@.len() > 0 ==> previous_end == descs@.last().end(),
        decreases n - i,
    {
        proof {
            lemma_pow256_values();
        }
        let gpa: u64 = match c.number(8) {
            Some(v) => v as u64,
            None => return Err(PortableFault::Truncated),
        };
        let len: u64 = match c.number(8) {
            Some(v) => v as u64,
            None => return Err(PortableFault::Truncated),
        };
        if len == 0 {
            return Err(PortableFault::ZeroLength);
        }
        let end: u64 = match gpa.checked_add(len) {
            Some(end) => end,
            None => return Err(PortableFault::AddressOverflow),
        };
        if descs.len() > 0 && gpa < previous_end {
            return Err(PortableFault::Overlap);
        }
        total = match total.checked_add(len) {
            Some(t) => t,
            None => return Err(PortableFault::ImageOverflow),
        };
        previous_end = end;
        let ghost before = descs@;
        descs.push(MemoryRegionDesc { gpa, len });
        assert(descs@.drop_last() =~= before);
        i += 1;
    }
    Ok(descs)
}

/// The layout in a manifest made by [`encode_portable_manifest`].
pub fn decode_portable_manifest(bytes: &[u8]) -> (r: Result<Vec<MemoryRegionDesc>, PortableFault>)
    ensures
        match portable_decoded(bytes@) {
            Ok(descs) => r is Ok && r->Ok_0@ == descs,
            Err(fault) => r == Err::<Vec<MemoryRegionDesc>, PortableFault>(fault),
        },
{
    proof {
        lemma_pow256_values();
    }
    let mut c = Cursor::new(bytes);
    let magic: u64 = match c.number(8) {
        Some(v) => v as u64,
        None => return Err(PortableFault::Truncated),
    };
    if magic != PORTABLE_MANIFEST_MAGIC {
        return Err(PortableFault::Magic);
    }
    let version: u32 = match c.number(4) {
        Some(v) => v as u32,
        None => return Err(PortableFault::Truncated),
    };
    if version != PORTABLE_MANIFEST_VERSION {
        return Err(PortableFault::Version);
    }
    let region_count: u64 = match c.number(4) {
        Some(v) => v as u64,
        None => return Err(PortableFault::Truncated),
    };
    if region_count == 0 || region_count > PORTABLE_MAX_REGIONS {
        return Err(PortableFault::RegionCount);
    }
    let descs: Vec<MemoryRegionDesc> = match read_portable_regions(&mut c, region_count) {
        Ok(descs) => descs,
        Err(fault) => return Err(fault),
    };
    if c.remaining() != 0 {
        return Err(PortableFault::Trailing);
    }
    Ok(descs)
}

/// The length of the memory image that the regions make up.
pub fn memory_image_len(descs: &[MemoryRegionDesc]) -> (r: u64)
    requires
        total_len(descs@) <= u64::MAX,
    ensures
        r == total_len(descs@),
{
    let mut total: u64 = 0;
    let mut i: usize = 0;
    assert(descs@.subrange(0, 0) =~= Seq::<MemoryRegionDesc>::empty());
    while i < descs.len()
        invariant
            i <= descs@.len(),
            total == total_len(descs@.subrange(0, i as int)),
            total_len(descs@) <= u64::MAX,
        decreases descs@.len() - i,
    {
        proof {
            assert(descs@.subrange(0, i + 1).drop_last() =~= descs@.subrange(0, i as int));
            lemma_total_prefix(descs@, i + 1);
        }
        total = total + descs[i].len;
        i += 1;
    }
    assert(descs@.subrange(0, i as int) =~= descs@);
    total
}

proof fn lemma_total_prefix(s: Seq<MemoryRegionDesc>, i: int)
    requires
        0 <= i <= s.len(),
    ensures
        total_len(s.subrange(0, i)) <= total_len(s),
    decreases s.len(),
{
    if i < s.len() {
        assert(s.drop_last().subrange(0, i) =~= s.subrange(0, i));
        lemma_total_prefix(s.drop_last(), i);
    } else {
        assert(s.subrange(0, i) =~= s);
    }
}

/// Region `i` may follow the ones before it.
pub open spec fn portable_region_ok(descs: Seq<MemoryRegionDesc>, i: int) -> bool {
    portable_region_fault(
        descs.subrange(0, i),
        descs[i].gpa as nat,
        descs[i].len as nat,
    ) is None
}

/// A layout that a manifest can hold: 1 to 4096 regions, none empty, in
/// ascending order without overlaps, whose addresses and whose total length
/// fit in 64 bits.
pub open spec fn portable_layout(descs: Seq<MemoryRegionDesc>) -> bool {
    &&& 0 < descs.len() <= PORTABLE_MAX_REGIONS
    &&& forall|i: int| 0 <= i < descs.len() ==> #[trigger] portable_region_ok(descs, i)
}

/// Regions written after those of `acc` are read back.
proof fn lemma_portable_regions(all: Seq<MemoryRegionDesc>, k: int)
    requires
        0 <= k <= all.len(),
        forall|i: int| 0 <= i < all.len() ==> #[trigger] portable_region_ok(all, i),
    ensures
        portable_regions_from(
            regions_encoded(all.skip(k)),
            (all.len() - k) as nat,
            all.subrange(0, k),
        ) == Ok::<(Seq<MemoryRegionDesc>, Seq<u8>), PortableFault>((all, Seq::<u8>::empty())),
    decreases all.len() - k,
{
    let s = all.skip(k);
    if k == all.len() {
        assert(all.subrange(0, k) =~= all);
    } else {
        lemma_pow256_values();
        let tail = regions_encoded(s.drop_first());
        let d = s[0];
        assert(regions_encoded(s) =~= le_bytes(d.gpa as nat, 8) + (le_bytes(d.len as nat, 8)
            + tail));
        take_le_of_le_bytes(d.gpa as nat, 8, le_bytes(d.len as nat, 8) + tail);
        take_le_of_le_bytes(d.len as nat, 8, tail);
        assert(portable_region_ok(all, k));
        assert(s.drop_first() =~= all.skip(k + 1));
        assert(all.subrange(0, k).push(d) =~= all.subrange(0, k + 1));
        lemma_portable_regions(all, k + 1);
    }
}

/// A manifest gives back the layout that it was made from.
pub proof fn portable_manifest_round_trips(descs: Seq<MemoryRegionDesc>)
    requires
        portable_layout(descs),
    ensures
        portable_decoded(portable_encoded(descs)) == Ok::<Seq<MemoryRegionDesc>, PortableFault>(
            descs,
        ),
{
    lemma_pow256_values();
    let r = regions_encoded(descs);
    let t2 = le_bytes(descs.len(), 4) + r;
    let t1 = le_bytes(PORTABLE_MANIFEST_VERSION as nat, 4) + t2;
    take_le_of_le_bytes(PORTABLE_MANIFEST_MAGIC as nat, 8, t1);
    take_le_of_le_bytes(PORTABLE_MANIFEST_VERSION as nat, 4, t2);
    take_le_of_le_bytes(descs.len(), 4, r);
    lemma_portable_regions(descs, 0);
    assert(descs.skip(0) =~= descs);
    assert(descs.subrange(0, 0) =~= Seq::<MemoryRegionDesc>::empty());
}

/// Regions that were read are the ones that are written.
proof fn lemma_portable_accepted(b: Seq<u8>, n: nat, acc: Seq<MemoryRegionDesc>)
    requires
        portable_regions_from(b, n, acc) is Ok,
        forall|i: int| 0 <= i < acc.len() ==> #[trigger] portable_region_ok(acc, i),
    ensures
        ({
            let (all, rest) = portable_regions_from(b, n, acc)->Ok_0;
            &&& all.len() == acc.len() + n
            &&& all.subrange(0, acc.len() as int) == acc
            &&& forall|i: int| 0 <= i < all.len() ==> #[trigger] portable_region_ok(all, i)
            &&& b == regions_encoded(all.skip(acc.len() as int)) + rest
        }),
    decreases n,
{
    let (all, rest) = portable_regions_from(b, n, acc)->Ok_0;
    if n == 0 {
        assert(all.subrange(0, acc.len() as int) =~= acc);
        assert(regions_encoded(all.skip(acc.len() as int)) + rest =~= b);
    } else {
        lemma_pow256_values();
        le_bytes_of_take_le(b, 8);
        let (gpa, b1) = take_le(b, 8)->0;
        le_bytes_of_take_le(b1, 8);
        let (len, b2) = take_le(b1, 8)->0;
        let d = MemoryRegionDesc { gpa: gpa as u64, len: len as u64 };
        let acc2 = acc.push(d);
        assert forall|i: int| 0 <= i < acc2.len() implies #[trigger] portable_region_ok(
            acc2,
            i,
        ) by {
            if i < acc.len() {
                assert(portable_region_ok(acc, i));
                assert(acc2.subrange(0, i) =~= acc.subrange(0, i));
            } else {
                assert(acc2.subrange(0, i) =~= acc);
            }
        }
        lemma_portable_accepted(b2, (n - 1) as nat, acc2);
        let k = acc.len() as int;
        assert(all.subrange(0, k) =~= all.subrange(0, k + 1).subrange(0, k));
        assert(acc2.subrange(0, k) =~= acc);
        assert(all.skip(k)[0] == all.subrange(0, k + 1)[k]);
        assert(all.skip(k)[0] == d);
        assert(all.skip(k).drop_first() =~= all.skip(k + 1));
        let tail = regions_encoded(all.skip(k + 1));
        assert(regions_encoded(all.skip(k)) + rest =~= le_bytes(gpa, 8) + (le_bytes(len, 8) + (tail
            + rest)));
    }
}

/// A manifest that is accepted is exactly the one of its layout: any other
/// byte would have been refused.
pub proof fn accepted_portable_manifests_are_canonical(b: Seq<u8>)
    requires
        portable_decoded(b) is Ok,
    ensures
        portable_layout(portable_decoded(b)->Ok_0),
        b == portable_encoded(portable_decoded(b)->Ok_0),
{
    lemma_pow256_values();
    le_bytes_of_take_le(b, 8);
    let (magic, b1) = take_le(b, 8)->0;
    le_bytes_of_take_le(b1, 4);
    let (version, b2) = take_le(b1, 4)->0;
    le_bytes_of_take_le(b2, 4);
    let (count, b3) = take_le(b2, 4)->0;
    lemma_portable_accepted(b3, count, Seq::empty());
    let (all, rest) = portable_regions_from(b3, count, Seq::empty())->Ok_0;
    assert(rest =~= Seq::<u8>::empty());
    assert(all.skip(0) =~= all);
    assert(regions_encoded(all) + rest =~= regions_encoded(all));
}

// ---------------------------------------------------------------------------
// The fork manifest.
// ---------------------------------------------------------------------------

/// Magic for the fork manifest ("SMOLFORK").
pub const FORK_MANIFEST_MAGIC: u64 = 0x534d4f4c464f524b;

/// A guest-RAM region of a fork base: its memfd and offset there, and the path
/// of its backing file.
#[derive(Debug, Clone)]
pub struct MemfdRegionDesc {
    pub gpa: u64,
    pub len: u64,
    pub fd: i32,
    pub offset: u64,
    pub path: String,
}

/// What a region description holds.
pub struct ForkRegion {
    pub gpa: u64,
    pub len: u64,
    pub fd: i32,
    pub offset: u64,
    pub path: Seq<char>,
}

impl View for MemfdRegionDesc {
    type V = ForkRegion;

    open spec fn view(&self) -> ForkRegion {
        ForkRegion {
            gpa: self.gpa,
            len: self.len,
            fd: self.fd,
            offset: self.offset,
            path: self.path@,
        }
    }
}

/// What the descriptions hold.
pub open spec fn fork_regions(s: Seq<MemfdRegionDesc>) -> Seq<ForkRegion> {
    Seq::new(s.len(), |i: int| s[i]@)
}

/// What is wrong with a fork manifest.
#[derive(Debug, Clone, Copy, PartialEq, Eq, Structural)]
pub enum ForkFault {
    Truncated,
    Magic,
    PathEncoding,
}

impl ForkFault {
    pub open spec fn text(self) -> Seq<char> {
        match self {
            ForkFault::Truncated => "fork manifest truncated"@,
            ForkFault::Magic => "bad fork manifest magic"@,
            ForkFault::PathEncoding => "fork manifest: non-UTF8 region path"@,
        }
    }

    pub fn kind(&self) -> (r: ErrorKind)
        ensures
            r == (if *self == ForkFault::Truncated {
                ErrorKind::UnexpectedEof
            } else {
                ErrorKind::InvalidData
            }),
    {
        match self {
            ForkFault::Truncated => ErrorKind::UnexpectedEof,
            _ => ErrorKind::InvalidData,
        }
    }

    pub fn message(&self) -> (r: String)
        ensures
            r@ == self.text(),
    {
        let s = match self {
            ForkFault::Truncated => "fork manifest truncated",
            ForkFault::Magic => "bad fork manifest magic",
            ForkFault::PathEncoding => "fork manifest: non-UTF8 region path",
        };
        s.to_string()
    }
}

/// A signed word as the unsigned one with the same bits.
pub open spec fn word_of(v: i32) -> nat {
    (if v < 0 {
        v + 0x1_0000_0000
    } else {
        v as int
    }) as nat
}

/// The signed word with the given bits.
pub open spec fn signed_word(v: nat) -> i32 {
    (if v < 0x8000_0000 {
        v as int
    } else {
        v - 0x1_0000_0000
    }) as i32
}

fn word_bits(v: i32) -> (r: u128)
    ensures
        r == word_of(v),
{
    if v < 0 {
        (v as i64 + 0x1_0000_0000) as u128
    } else {
        v as u128
    }
}

fn word_from(v: u32) -> (r: i32)
    ensures
        r == signed_word(v as nat),
{
    if v < 0x8000_0000 {
        v as i32
    } else {
        (v as i64 - 0x1_0000_0000) as i32
    }
}

/// One region: address, length, descriptor, offset, and the path behind its
/// length.
#[verifier::opaque]
pub open spec fn fork_region_encoded(d: ForkRegion) -> Seq<u8> {
    let path = encode_utf8(d.path);
    le_bytes(d.gpa as nat, 8) + (le_bytes(d.len as nat, 8) + (le_bytes(word_of(d.fd), 4) + (
    le_bytes(d.offset as nat, 8) + (le_bytes(path.len(), 4) + path))))
}

/// The regions, one after the other.
pub open spec fn fork_regions_encoded(s: Seq<ForkRegion>) -> Seq<u8>
    decreases s.len(),
{
    if s.len() == 0 {
        Seq::empty()
    } else {
        fork_region_encoded(s[0]) + fork_regions_encoded(s.drop_first())
    }
}

/// The owner pid and the guest-RAM regions, as a fork manifest holds them.
pub open spec fn fork_encoded(owner_pid: i32, s: Seq<ForkRegion>) -> Seq<u8> {
    le_bytes(FORK_MANIFEST_MAGIC as nat, 8) + (le_bytes(word_of(owner_pid), 4) + (le_bytes(
        s.len(),
        4,
    ) + fork_regions_encoded(s)))
}

/// The next region, and what follows.
#[verifier::opaque]
pub open spec fn fork_region_from(b: Seq<u8>) -> Result<(ForkRegion, Seq<u8>), ForkFault> {
    match take_le(b, 8) {
        None => Err(ForkFault::Truncated),
        Some((gpa, b1)) => match take_le(b1, 8) {
            None => Err(ForkFault::Truncated),
            Some((len, b2)) => match take_le(b2, 4) {
                None => Err(ForkFault::Truncated),
                Some((fd, b3)) => match take_le(b3, 8) {
                    None => Err(ForkFault::Truncated),
                    Some((offset, b4)) => match take_le(b4, 4) {
                        None => Err(ForkFault::Truncated),
                        Some((plen, b5)) => match take_bytes(b5, plen) {
                            None => Err(ForkFault::Truncated),
                            Some((path, b6)) => if !valid_utf8(path) {
                                Err(ForkFault::PathEncoding)
                            } else {
                                Ok(
                                    (
                                        ForkRegion {
                                            gpa: gpa as u64,
                                            len: len as u64,
                                            fd: signed_word(fd),
                                            offset: offset as u64,
                                            path: decode_utf8(path),
                                        },
                                        b6,
                                    ),
                                )
                            },
                        },
                    },
                },
            },
        },
    }
}

/// The next `n` regions, appended to `acc`. Whatever follows is not looked at.
pub open spec fn fork_regions_from(b: Seq<u8>, n: nat, acc: Seq<ForkRegion>) -> Result<
    Seq<ForkRegion>,
    ForkFault,
>
    decreases n,
{
    if n == 0 {
        Ok(acc)
    } else {
        match fork_region_from(b) {
            Err(fault) => Err(fault),
            Ok((d, rest)) => fork_regions_from(rest, (n - 1) as nat, acc.push(d)),
        }
    }
}

/// The owner pid and the regions that a fork manifest holds.
pub open spec fn fork_decoded(b: Seq<u8>) -> Result<(i32, Seq<ForkRegion>), ForkFault> {
    match take_le(b, 8) {
        None => Err(ForkFault::Truncated),
        Some((magic, b1)) => if magic != FORK_MANIFEST_MAGIC {
            Err(ForkFault::Magic)
        } else {
            match take_le(b1, 4) {
                None => Err(ForkFault::Truncated),
                Some((pid, b2)) => match take_le(b2, 4) {
                    None => Err(ForkFault::Truncated),
                    Some((n, b3)) => match fork_regions_from(b3, n, Seq::empty()) {
                        Err(fault) => Err(fault),
                        Ok(regions) => Ok((signed_word(pid), regions)),
                    },
                },
            }
        },
    }
}

fn push_fork_region(out: &mut Vec<u8>, d: &MemfdRegionDesc)
    ensures
        final(out)@ == old(out)@ + fork_region_encoded(d@),
{
    proof {
        reveal(fork_region_encoded);
    }
    let ghost start = out@;
    push_le(out, d.gpa as u128, 8);
    push_le(out, d.len as u128, 8);
    push_le(out, word_bits(d.fd), 4);
    push_le(out, d.offset as u128, 8);
    let path = d.path.as_str().as_bytes();
    push_le(out, path.len() as u128, 4);
    push_bytes(out, path);
    assert(path@ =~= encode_utf8(d.path@));
    assert(out@ =~= start + fork_region_encoded(d@));
}

/// Serialize the fork manifest: owner pid + guest-RAM region descriptors
/// (gpa/len/memfd-fd/offset + backing-file path) so a clone can reach the
/// backing RAM.
pub fn encode_fork_manifest(owner_pid: i32, descs: &[MemfdRegionDesc]) -> (r: Vec<u8>)
    ensures
        r@ == fork_encoded(owner_pid, fork_regions(descs@)),
{
    let mut buf: Vec<u8> = Vec::new();
    let ghost s = fork_regions(descs@);
    push_le(&mut buf, FORK_MANIFEST_MAGIC as u128, 8);
    push_le(&mut buf, word_bits(owner_pid), 4);
    push_le(&mut buf, descs.len() as u128, 4);
    let ghost all = buf@ + fork_regions_encoded(s);
    assert(all =~= fork_encoded(owner_pid, s));
    assert(s.skip(0) =~= s);
    let mut i: usize = 0;
    while i < descs.len()
        invariant
            i <= descs@.len(),
            s == fork_regions(descs@),
            all == buf@ + fork_regions_encoded(s.skip(i as int)),
        decreases descs@.len() - i,
    {
        push_fork_region(&mut buf, &descs[i]);
        assert(s.skip(i as int).drop_first() =~= s.skip(i + 1));
        assert(all =~= buf@ + fork_regions_encoded(s.skip(i + 1)));
        i += 1;
    }
    assert(buf@ + fork_regions_encoded(s.skip(i as int)) =~= buf@);
    buf
}

fn read_fork_region(c: &mut Cursor) -> (r: Result<MemfdRegionDesc, ForkFault>)
    requires
        old(c).wf(),
    ensures
        final(c).wf(),
        match fork_region_from(old(c)@) {
            Ok((d, rest)) => r is Ok && r->Ok_0@ == d && final(c)@ == rest,
            Err(fault) => r == Err::<MemfdRegionDesc, ForkFault>(fault),
        },
{
    proof {
        lemma_pow256_values();
        reveal(fork_region_from);
    }
    let gpa: u64 = match c.number(8) {
        Some(v) => v as u64,
        None => return Err(ForkFault::Truncated),
    };
    let len: u64 = match c.number(8) {
        Some(v) => v as u64,
        None => return Err(ForkFault::Truncated),
    };
    let fd: u32 = match c.number(4) {
        Some(v) => v as u32,
        None => return Err(ForkFault::Truncated),
    };
    let offset: u64 = match c.number(8) {
        Some(v) => v as u64,
        None => return Err(ForkFault::Truncated),
    };
    let plen: u32 = match c.number(4) {
        Some(v) => v as u32,
        None => return Err(ForkFault::Truncated),
    };
    let bytes: Vec<u8> = match c.take(plen as usize) {
        Some(v) => v,
        None => return Err(ForkFault::Truncated),
    };
    match text_from_utf8(bytes) {
        Some(path) => Ok(MemfdRegionDesc { gpa, len, fd: word_from(fd), offset, path }),
        None => Err(ForkFault::PathEncoding),
    }
}

/// The owner pid and regions in a manifest made by [`encode_fork_manifest`].
pub fn decode_fork_manifest(bytes: &[u8]) -> (r: Result<(i32, Vec<MemfdRegionDesc>), ForkFault>)
    ensures
        match fork_decoded(bytes@) {
            Ok((pid, regions)) => r is Ok && r->Ok_0.0 == pid && fork_regions(r->Ok_0.1@)
                =~= regions,
            Err(fault) => r is Err && r->Err_0 == fault,
        },
{
    proof {
        lemma_pow256_values();
    }
    let mut c = Cursor::new(bytes);
    let magic: u64 = match c.number(8) {
        Some(v) => v as u64,
        None => return Err(ForkFault::Truncated),
    };
    if magic != FORK_MANIFEST_MAGIC {
        return Err(ForkFault::Magic);
    }
    let pid: u32 = match c.number(4) {
        Some(v) => v as u32,
        None => return Err(ForkFault::Truncated),
    };
    let n: u32 = match c.number(4) {
        Some(v) => v as u32,
        None => return Err(ForkFault::Truncated),
    };
    let ghost whole = fork_regions_from(c@, n as nat, Seq::empty());
    let mut descs: Vec<MemfdRegionDesc> = Vec::new();
    let mut i: u32 = 0;
    assert(fork_regions(descs@) =~= Seq::<ForkRegion>::empty());
    while i < n
        invariant
            i <= n,
            c.wf(),
            fork_decoded(bytes@) == (match whole {
                Ok(regions) => Ok::<(i32, Seq<ForkRegion>), ForkFault>(
                    (signed_word(pid as nat), regions),
                ),
                Err(fault) => Err(fault),
            }),
            whole == fork_regions_from(c@, (n - i) as nat, fork_regions(descs@)),
        decreases n - i,
    {
        let ghost acc = fork_regions(descs@);
        match read_fork_region(&mut c) {
            Ok(d) => {
                let ghost view = d@;
                descs.push(d);
                assert(fork_regions(descs@) =~= acc.push(view));
            },
            Err(fault) => return Err(fault),
        }
        i += 1;
    }
    Ok((word_from(pid), descs))
}

/// Whether the region of a fork base can be mapped again: it has a memfd or a
/// backing file.
pub fn fork_backed(desc: &MemfdRegionDesc) -> (r: bool)
    ensures
        r == (desc.fd >= 0 || desc@.path.len() > 0),
{
    desc.fd >= 0 || crate::text::char_count(desc.path.as_str()) > 0
}

#[verifier::spinoff_prover]
#[verifier::rlimit(40)]
proof fn lemma_fork_region(d: ForkRegion, rest: Seq<u8>)
    requires
        encode_utf8(d.path).len() < 0x1_0000_0000,
    ensures
        fork_region_from(fork_region_encoded(d) + rest) == Ok::<(ForkRegion, Seq<u8>), ForkFault>(
            (d, rest),
        ),
{
    reveal(fork_region_encoded);
    reveal(fork_region_from);
    lemma_pow256_values();
    vstd::utf8::encode_utf8_valid_utf8(d.path);
    vstd::utf8::encode_utf8_decode_utf8(d.path);
    let path = encode_utf8(d.path);
    let t5 = path + rest;
    let t4 = le_bytes(path.len(), 4) + t5;
    let t3 = le_bytes(d.offset as nat, 8) + t4;
    let t2 = le_bytes(word_of(d.fd), 4) + t3;
    let t1 = le_bytes(d.len as nat, 8) + t2;
    let e4 = le_bytes(path.len(), 4) + path;
    let e3 = le_bytes(d.offset as nat, 8) + e4;
    let e2 = le_bytes(word_of(d.fd), 4) + e3;
    let e1 = le_bytes(d.len as nat, 8) + e2;
    assert(e4 + rest =~= t4);
    assert(e3 + rest =~= t3);
    assert(e2 + rest =~= t2);
    assert(e1 + rest =~= t1);
    assert(fork_region_encoded(d) + rest =~= le_bytes(d.gpa as nat, 8) + t1);
    take_le_of_le_bytes(d.gpa as nat, 8, t1);
    take_le_of_le_bytes(d.len as nat, 8, t2);
    take_le_of_le_bytes(word_of(d.fd), 4, t3);
    take_le_of_le_bytes(d.offset as nat, 8, t4);
    take_le_of_le_bytes(path.len(), 4, t5);
    take_bytes_of_concat(path, rest);
}

proof fn lemma_fork_regions(s: Seq<ForkRegion>, acc: Seq<ForkRegion>, rest: Seq<u8>)
    requires
        forall|i: int|
            0 <= i < s.len() ==> encode_utf8((#[trigger] s[i]).path).len() < 0x1_0000_0000,
    ensures
        fork_regions_from(fork_regions_encoded(s) + rest, s.len(), acc) == Ok::<
            Seq<ForkRegion>,
            ForkFault,
        >(acc + s),
    decreases s.len(),
{
    if s.len() == 0 {
        assert(acc + s =~= acc);
    } else {
        let tail = fork_regions_encoded(s.drop_first()) + rest;
        assert(fork_regions_encoded(s) + rest =~= fork_region_encoded(s[0]) + tail);
        lemma_fork_region(s[0], tail);
        lemma_fork_regions(s.drop_first(), acc.push(s[0]), rest);
        assert(acc.push(s[0]) + s.drop_first() =~= acc + s);
    }
}

/// A fork manifest gives back the pid and the regions that it was made from,
/// whatever follows it.
pub proof fn fork_manifest_round_trips(owner_pid: i32, s: Seq<ForkRegion>, rest: Seq<u8>)
    requires
        s.len() < 0x1_0000_0000,
        forall|i: int|
            0 <= i < s.len() ==> encode_utf8((#[trigger] s[i]).path).len() < 0x1_0000_0000,
    ensures
        fork_decoded(fork_encoded(owner_pid, s) + rest) == Ok::<(i32, Seq<ForkRegion>), ForkFault>(
            (owner_pid, s),
        ),
{
    lemma_pow256_values();
    let t3 = fork_regions_encoded(s) + rest;
    let t2 = le_bytes(s.len(), 4) + t3;
    let t1 = le_bytes(word_of(owner_pid), 4) + t2;
    assert(fork_encoded(owner_pid, s) + rest =~= le_bytes(FORK_MANIFEST_MAGIC as nat, 8) + t1);
    take_le_of_le_bytes(FORK_MANIFEST_MAGIC as nat, 8, t1);
    take_le_of_le_bytes(word_of(owner_pid), 4, t2);
    take_le_of_le_bytes(s.len(), 4, t3);
    lemma_fork_regions(s, Seq::empty(), rest);
    assert(Seq::<ForkRegion>::empty() + s =~= s);
}

// ---------------------------------------------------------------------------
// The guardian manifest.
// ---------------------------------------------------------------------------

/// Magic for a guardian-backed fork manifest ("SMOLGRDN").
pub const GUARDIAN_MANIFEST_MAGIC: u64 = 0x534d4f4c4752444e;

pub const GUARDIAN_MANIFEST_VERSION: u32 = 1;

pub const GUARDIAN_MAX_SOCKET: u32 = 100;

pub const GUARDIAN_MAX_REGIONS: u32 = 256;

/// A guardian process and the RAM that it keeps.
#[derive(Debug, Clone)]
pub struct GuardianGenerationDesc {
    pub guardian_pid: i32,
    pub guardian_start_time: u64,
    /// The bytes of the socket's path.
    pub socket_path: Vec<u8>,
    pub token: [u8; 32],
    pub regions: Vec<MemoryRegionDesc>,
}

/// What a guardian description holds.
pub struct Guardian {
    pub pid: i32,
    pub start_time: u64,
    pub socket: Seq<u8>,
    pub token: Seq<u8>,
    pub regions: Seq<MemoryRegionDesc>,
}

impl View for GuardianGenerationDesc {
    type V = Guardian;

    open spec fn view(&self) -> Guardian {
        Guardian {
            pid: self.guardian_pid,
            start_time: self.guardian_start_time,
            socket: self.socket_path@,
            token: self.token@,
            regions: self.regions@,
        }
    }
}

/// What is wrong with a guardian manifest.
#[derive(Debug, Clone, Copy, PartialEq, Eq, Structural)]
pub enum GuardianFault {
    Truncated,
    Magic,
    Version,
    Flags,
    Process,
    StartTime,
    Dimensions,
    Token,
    RelativePath,
    AddressOverflow,
    Regions,
    Trailing,
    SocketTooLong,
    TooManyRegions,
}

impl GuardianFault {
    pub open spec fn text(self) -> Seq<char> {
        match self {
            GuardianFault::Truncated => "guardian manifest is truncated"@,
            GuardianFault::Magic => "bad guardian manifest magic"@,
            GuardianFault::Version => "unsupported guardian manifest version"@,
            GuardianFault::Flags => "guardian manifest has unsupported flags"@,
            GuardianFault::Process => "guardian manifest has invalid process metadata"@,
            GuardianFault::StartTime => "guardian manifest has zero process start time"@,
            GuardianFault::Dimensions => "guardian manifest has invalid dimensions"@,
            GuardianFault::Token => "guardian manifest has an empty token"@,
            GuardianFault::RelativePath => "guardian socket path must be absolute"@,
            GuardianFault::AddressOverflow => "guardian RAM region address overflow"@,
            GuardianFault::Regions => "guardian RAM regions are invalid or overlapping"@,
            GuardianFault::Trailing => "guardian manifest has trailing bytes"@,
            GuardianFault::SocketTooLong => "guardian socket path is too long"@,
            GuardianFault::TooManyRegions => "too many RAM regions"@,
        }
    }

    pub fn kind(&self) -> (r: ErrorKind)
        ensures
            r == (if *self == GuardianFault::SocketTooLong || *self
                == GuardianFault::TooManyRegions {
                ErrorKind::InvalidInput
            } else {
                ErrorKind::InvalidData
            }),
    {
        match self {
            GuardianFault::SocketTooLong | GuardianFault::TooManyRegions => ErrorKind::InvalidInput,
            _ => ErrorKind::InvalidData,
        }
    }

    pub fn message(&self) -> (r: String)
        ensures
            r@ == self.text(),
    {
        let s = match self {
            GuardianFault::Truncated => "guardian manifest is truncated",
            GuardianFault::Magic => "bad guardian manifest magic",
            GuardianFault::Version => "unsupported guardian manifest version",
            GuardianFault::Flags => "guardian manifest has unsupported flags",
            GuardianFault::Process => "guardian manifest has invalid process metadata",
            GuardianFault::StartTime => "guardian manifest has zero process start time",
            GuardianFault::Dimensions => "guardian manifest has invalid dimensions",
            GuardianFault::Token => "guardian manifest has an empty token",
            GuardianFault::RelativePath => "guardian socket path must be absolute",
            GuardianFault::AddressOverflow => "guardian RAM region address overflow",
            GuardianFault::Regions => "guardian RAM regions are invalid or overlapping",
            GuardianFault::Trailing => "guardian manifest has trailing bytes",
            GuardianFault::SocketTooLong => "guardian socket path is too long",
            GuardianFault::TooManyRegions => "too many RAM regions",
        };
        s.to_string()
    }
}

/// The guardian, as a manifest holds it.
pub open spec fn guardian_encoded(g: Guardian) -> Seq<u8> {
    le_bytes(GUARDIAN_MANIFEST_MAGIC as nat, 8) + (le_bytes(GUARDIAN_MANIFEST_VERSION as nat, 4) + (
    le_bytes(0, 4) + (le_bytes(word_of(g.pid), 4) + (le_bytes(0, 4) + (le_bytes(
        g.start_time as nat,
        8,
    ) + (le_bytes(g.socket.len(), 4) + (le_bytes(g.regions.len(), 4) + (g.token + (g.socket
        + regions_encoded(g.regions))))))))))
}

/// What keeps a region from following those before it.
pub open spec fn guardian_region_fault(acc: Seq<MemoryRegionDesc>, gpa: nat, len: nat) -> Option<
    GuardianFault,
> {
    if gpa + len > u64::MAX {
        Some(GuardianFault::AddressOverflow)
    } else if len == 0 || len % 4096 != 0 || (acc.len() > 0 && gpa < acc.last().end()) {
        Some(GuardianFault::Regions)
    } else {
        None
    }
}

/// The next `n` regions, appended to `acc`, and what follows.
pub open spec fn guardian_regions_from(b: Seq<u8>, n: nat, acc: Seq<MemoryRegionDesc>) -> Result<
    (Seq<MemoryRegionDesc>, Seq<u8>),
    GuardianFault,
>
    decreases n,
{
    if n == 0 {
        Ok((acc, b))
    } else {
        match take_le(b, 8) {
            None => Err(GuardianFault::Truncated),
            Some((gpa, b1)) => match take_le(b1, 8) {
                None => Err(GuardianFault::Truncated),
                Some((len, b2)) => match guardian_region_fault(acc, gpa, len) {
                    Some(fault) => Err(fault),
                    None => guardian_regions_from(
                        b2,
                        (n - 1) as nat,
                        acc.push(MemoryRegionDesc { gpa: gpa as u64, len: len as u64 }),
                    ),
                },
            },
        }
    }
}

/// Whether every byte is zero.
pub open spec fn all_zero(s: Seq<u8>) -> bool {
    forall|i: int| 0 <= i < s.len() ==> #[trigger] s[i] == 0
}

/// Token, socket path and regions, behind the fixed fields.
pub open spec fn guardian_tail_from(
    b: Seq<u8>,
    pid: i32,
    start_time: u64,
    socket_len: nat,
    region_count: nat,
) -> Result<Guardian, GuardianFault> {
    match take_bytes(b, 32) {
        None => Err(GuardianFault::Truncated),
        Some((token, b1)) => if all_zero(token) {
            Err(GuardianFault::Token)
        } else {
            match take_bytes(b1, socket_len) {
                None => Err(GuardianFault::Truncated),
                Some((socket, b2)) => if socket[0] != 0x2f {
                    Err(GuardianFault::RelativePath)
                } else {
                    match guardian_regions_from(b2, region_count, Seq::empty()) {
                        Err(fault) => Err(fault),
                        Ok((regions, rest)) => if rest.len() != 0 {
                            Err(GuardianFault::Trailing)
                        } else {
                            Ok(Guardian { pid, start_time, socket, token, regions })
                        },
                    }
                },
            }
        },
    }
}

/// The fields from the start time on.
pub open spec fn guardian_dimensions_from(b: Seq<u8>, pid: i32) -> Result<Guardian, GuardianFault> {
    match take_le(b, 8) {
        None => Err(GuardianFault::Truncated),
        Some((start_time, b1)) => if start_time == 0 {
            Err(GuardianFault::StartTime)
        } else {
            match take_le(b1, 4) {
                None => Err(GuardianFault::Truncated),
                Some((socket_len, b2)) => match take_le(b2, 4) {
                    None => Err(GuardianFault::Truncated),
                    Some((region_count, b3)) => if socket_len == 0 || socket_len
                        > GUARDIAN_MAX_SOCKET || region_count == 0 || region_count
                        > GUARDIAN_MAX_REGIONS {
                        Err(GuardianFault::Dimensions)
                    } else {
                        guardian_tail_from(b3, pid, start_time as u64, socket_len, region_count)
                    },
                },
            }
        },
    }
}

/// The fields from the flags on.
pub open spec fn guardian_process_from(b: Seq<u8>) -> Result<Guardian, GuardianFault> {
    match take_le(b, 4) {
        None => Err(GuardianFault::Truncated),
        Some((flags, b1)) => if flags != 0 {
            Err(GuardianFault::Flags)
        } else {
            match take_le(b1, 4) {
                None => Err(GuardianFault::Truncated),
                Some((pid, b2)) => match take_le(b2, 4) {
                    None => Err(GuardianFault::Truncated),
                    Some((reserved, b3)) => if signed_word(pid) <= 0 || reserved != 0 {
                        Err(GuardianFault::Process)
                    } else {
                        guardian_dimensions_from(b3, signed_word(pid))
                    },
                },
            }
        },
    }
}

/// The guardian that a manifest holds.
pub open spec fn guardian_decoded(b: Seq<u8>) -> Result<Guardian, GuardianFault> {
    match take_le(b, 8) {
        None => Err(GuardianFault::Truncated),
        Some((magic, b1)) => if magic != GUARDIAN_MANIFEST_MAGIC {
            Err(GuardianFault::Magic)
        } else {
            match take_le(b1, 4) {
                None => Err(GuardianFault::Truncated),
                Some((version, b2)) => if version != GUARDIAN_MANIFEST_VERSION {
                    Err(GuardianFault::Version)
                } else {
                    guardian_process_from(b2)
                },
            }
        },
    }
}

/// Serialize a guardian's description.
pub fn encode_guardian_manifest(desc: &GuardianGenerationDesc) -> (r: Result<
    Vec<u8>,
    GuardianFault,
>)
    ensures
        match r {
            Ok(bytes) => desc@.socket.len() <= u32::MAX && desc@.regions.len() <= u32::MAX
                && bytes@ == guardian_encoded(desc@),
            Err(fault) => fault == (if desc@.socket.len() > u32::MAX {
                GuardianFault::SocketTooLong
            } else {
                GuardianFault::TooManyRegions
            }) && (desc@.socket.len() > u32::MAX || desc@.regions.len() > u32::MAX),
        },
{
    if desc.socket_path.len() as u128 > u32::MAX as u128 {
        return Err(GuardianFault::SocketTooLong);
    }
    if desc.regions.len() as u128 > u32::MAX as u128 {
        return Err(GuardianFault::TooManyRegions);
    }
    let mut bytes: Vec<u8> = Vec::new();
    push_le(&mut bytes, GUARDIAN_MANIFEST_MAGIC as u128, 8);
    push_le(&mut bytes, GUARDIAN_MANIFEST_VERSION as u128, 4);
    push_le(&mut bytes, 0, 4);
    push_le(&mut bytes, word_bits(desc.guardian_pid), 4);
    push_le(&mut bytes, 0, 4);
    push_le(&mut bytes, desc.guardian_start_time as u128, 8);
    push_le(&mut bytes, desc.socket_path.len() as u128, 4);
    push_le(&mut bytes, desc.regions.len() as u128, 4);
    push_bytes(&mut bytes, desc.token.as_slice());
    push_bytes(&mut bytes, desc.socket_path.as_slice());
    push_regions(&mut bytes, desc.regions.as_slice());
    assert(bytes@ =~= guardian_encoded(desc@));
    Ok(bytes)
}

fn read_guardian_regions(c: &mut Cursor, n: u32) -> (r: Result<
    Vec<MemoryRegionDesc>,
    GuardianFault,
>)
    requires
        old(c).wf(),
    ensures
        final(c).wf(),
        match guardian_regions_from(old(c)@, n as nat, Seq::empty()) {
            Ok((regions, rest)) => r is Ok && r->Ok_0@ == regions && final(c)@ == rest,
            Err(fault) => r == Err::<Vec<MemoryRegionDesc>, GuardianFault>(fault),
        },
{
    let ghost whole = guardian_regions_from(c@, n as nat, Seq::empty());
    let mut regions: Vec<MemoryRegionDesc> = Vec::new();
    let mut previous_end: u64 = 0;
    let mut i: u32 = 0;
    while i < n
        invariant
            i <= n,
            c.wf(),
            regions@.len() == i,
            whole == guardian_regions_from(old(c)@, n as nat, Seq::empty()),
            whole == guardian_regions_from(c@, (n - i) as nat, regions@),
            regions@.len() > 0 ==> previous_end == regions@.last().end(),
        decreases n - i,
    {
        proof {
            lemma_pow256_values();
        }
        let gpa: u64 = match c.number(8) {
            Some(v) => v as u64,
            None => return Err(GuardianFault::Truncated),
        };
        let len: u64 = match c.number(8) {
            Some(v) => v as u64,
            None => return Err(GuardianFault::Truncated),
        };
        let end: u64 = match gpa.checked_add(len) {
            Some(end) => end,
            None => return Err(GuardianFault::AddressOverflow),
        };
        if len == 0 || len % 4096 != 0 || (i > 0 && gpa < previous_end) {
            return Err(GuardianFault::Regions);
        }
        regions.push(MemoryRegionDesc { gpa, len });
        previous_end = end;
        i += 1;
    }
    Ok(regions)
}

fn is_all_zero(s: &[u8]) -> (r: bool)
    ensures
        r == all_zero(s@),
{
    let mut i: usize = 0;
    while i < s.len()
        invariant
            i <= s@.len(),
            forall|k: int| 0 <= k < i ==> #[trigger] s@[k] == 0,
        decreases s@.len() - i,
    {
        if s[i] != 0 {
            return false;
        }
        i += 1;
    }
    true
}

fn read_guardian_tail(
    c: &mut Cursor,
    guardian_pid: i32,
    guardian_start_time: u64,
    socket_len: u32,
    region_count: u32,
) -> (r: Result<GuardianGenerationDesc, GuardianFault>)
    requires
        old(c).wf(),
        socket_len > 0,
    ensures
        match guardian_tail_from(
            old(c)@,
            guardian_pid,
            guardian_start_time,
            socket_len as nat,
            region_count as nat,
        ) {
            Ok(g) => r is Ok && r->Ok_0@ == g,
            Err(fault) => r is Err && r->Err_0 == fault,
        },
{
    let token_bytes: Vec<u8> = match c.take(32) {
        Some(v) => v,
        None => return Err(GuardianFault::Truncated),
    };
    if is_all_zero(token_bytes.as_slice()) {
        return Err(GuardianFault::Token);
    }
    let mut token: [u8; 32] = [0u8; 32];
    let mut i: usize = 0;
    while i < 32
        invariant
            i <= 32,
            token_bytes@.len() == 32,
            forall|k: int| 0 <= k < i ==> #[trigger] token@[k] == token_bytes@[k],
        decreases 32 - i,
    {
        token[i] = token_bytes[i];
        i += 1;
    }
    assert(token@ =~= token_bytes@);
    let socket_path: Vec<u8> = match c.take(socket_len as usize) {
        Some(v) => v,
        None => return Err(GuardianFault::Truncated),
    };
    if socket_path[0] != 0x2f {
        return Err(GuardianFault::RelativePath);
    }
    let regions: Vec<MemoryRegionDesc> = match read_guardian_regions(c, region_count) {
        Ok(regions) => regions,
        Err(fault) => return Err(fault),
    };
    if c.remaining() != 0 {
        return Err(GuardianFault::Trailing);
    }
    Ok(GuardianGenerationDesc { guardian_pid, guardian_start_time, socket_path, token, regions })
}

/// The guardian in a manifest made by [`encode_guardian_manifest`].
pub fn decode_guardian_manifest(bytes: &[u8]) -> (r: Result<GuardianGenerationDesc, GuardianFault>)
    ensures
        match guardian_decoded(bytes@) {
            Ok(g) => r is Ok && r->Ok_0@ == g,
            Err(fault) => r is Err && r->Err_0 == fault,
        },
{
    proof {
        lemma_pow256_values();
    }
    let mut c = Cursor::new(bytes);
    let magic: u64 = match c.number(8) {
        Some(v) => v as u64,
        None => return Err(GuardianFault::Truncated),
    };
    if magic != GUARDIAN_MANIFEST_MAGIC {
        return Err(GuardianFault::Magic);
    }
    let version: u32 = match c.number(4) {
        Some(v) => v as u32,
        None => return Err(GuardianFault::Truncated),
    };
    if version != GUARDIAN_MANIFEST_VERSION {
        return Err(GuardianFault::Version);
    }
    let flags: u32 = match c.number(4) {
        Some(v) => v as u32,
        None => return Err(GuardianFault::Truncated),
    };
    if flags != 0 {
        return Err(GuardianFault::Flags);
    }
    let pid: u32 = match c.number(4) {
        Some(v) => v as u32,
        None => return Err(GuardianFault::Truncated),
    };
    let guardian_pid: i32 = word_from(pid);
    let reserved: u32 = match c.number(4) {
        Some(v) => v as u32,
        None => return Err(GuardianFault::Truncated),
    };
    if guardian_pid <= 0 || reserved != 0 {
        return Err(GuardianFault::Process);
    }
    let guardian_start_time: u64 = match c.number(8) {
        Some(v) => v as u64,
        None => return Err(GuardianFault::Truncated),
    };
    if guardian_start_time == 0 {
        return Err(GuardianFault::StartTime);
    }
    let socket_len: u32 = match c.number(4) {
        Some(v) => v as u32,
        None => return Err(GuardianFault::Truncated),
    };
    let region_count: u32 = match c.number(4) {
        Some(v) => v as u32,
        None => return Err(GuardianFault::Truncated),
    };
    if socket_len == 0 || socket_len > GUARDIAN_MAX_SOCKET || region_count == 0 || region_count
        > GUARDIAN_MAX_REGIONS {
        return Err(GuardianFault::Dimensions);
    }
    read_guardian_tail(&mut c, guardian_pid, guardian_start_time, socket_len, region_count)
}

/// Region `i` may follow the ones before it.
pub open spec fn guardian_region_ok(regions: Seq<MemoryRegionDesc>, i: int) -> bool {
    guardian_region_fault(
        regions.subrange(0, i),
        regions[i].gpa as nat,
        regions[i].len as nat,
    ) is None
}

/// A guardian that a manifest can hold: a live process, an absolute socket
/// path of at most 100 bytes, a token, and 1 to 256 page-multiple regions in
/// ascending order without overlaps.
pub open spec fn guardian_valid(g: Guardian) -> bool {
    &&& g.pid > 0
    &&& g.start_time != 0
    &&& 0 < g.socket.len() <= GUARDIAN_MAX_SOCKET
    &&& g.socket[0] == 0x2f
    &&& g.token.len() == 32
    &&& !all_zero(g.token)
    &&& 0 < g.regions.len() <= GUARDIAN_MAX_REGIONS
    &&& forall|i: int| 0 <= i < g.regions.len() ==> #[trigger] guardian_region_ok(g.regions, i)
}

proof fn lemma_guardian_regions(all: Seq<MemoryRegionDesc>, k: int)
    requires
        0 <= k <= all.len(),
        forall|i: int| 0 <= i < all.len() ==> #[trigger] guardian_region_ok(all, i),
    ensures
        guardian_regions_from(
            regions_encoded(all.skip(k)),
            (all.len() - k) as nat,
            all.subrange(0, k),
        ) == Ok::<(Seq<MemoryRegionDesc>, Seq<u8>), GuardianFault>((all, Seq::<u8>::empty())),
    decreases all.len() - k,
{
    let s = all.skip(k);
    if k == all.len() {
        assert(all.subrange(0, k) =~= all);
    } else {
        lemma_pow256_values();
        let tail = regions_encoded(s.drop_first());
        let d = s[0];
        assert(regions_encoded(s) =~= le_bytes(d.gpa as nat, 8) + (le_bytes(d.len as nat, 8)
            + tail));
        take_le_of_le_bytes(d.gpa as nat, 8, le_bytes(d.len as nat, 8) + tail);
        take_le_of_le_bytes(d.len as nat, 8, tail);
        assert(guardian_region_ok(all, k));
        assert(s.drop_first() =~= all.skip(k + 1));
        assert(all.subrange(0, k).push(d) =~= all.subrange(0, k + 1));
        lemma_guardian_regions(all, k + 1);
    }
}

/// A manifest gives back the guardian that it was made from.
pub proof fn guardian_manifest_round_trips(g: Guardian)
    requires
        guardian_valid(g),
    ensures
        guardian_decoded(guardian_encoded(g)) == Ok::<Guardian, GuardianFault>(g),
{
    lemma_pow256_values();
    let r = regions_encoded(g.regions);
    let t9 = g.socket + r;
    let t8 = g.token + t9;
    let t7 = le_bytes(g.regions.len(), 4) + t8;
    let t6 = le_bytes(g.socket.len(), 4) + t7;
    let t5 = le_bytes(g.start_time as nat, 8) + t6;
    let t4 = le_bytes(0, 4) + t5;
    let t3 = le_bytes(word_of(g.pid), 4) + t4;
    let t2 = le_bytes(0, 4) + t3;
    let t1 = le_bytes(GUARDIAN_MANIFEST_VERSION as nat, 4) + t2;
    take_le_of_le_bytes(GUARDIAN_MANIFEST_MAGIC as nat, 8, t1);
    take_le_of_le_bytes(GUARDIAN_MANIFEST_VERSION as nat, 4, t2);
    take_le_of_le_bytes(0, 4, t3);
    take_le_of_le_bytes(word_of(g.pid), 4, t4);
    take_le_of_le_bytes(0, 4, t5);
    take_le_of_le_bytes(g.start_time as nat, 8, t6);
    take_le_of_le_bytes(g.socket.len(), 4, t7);
    take_le_of_le_bytes(g.regions.len(), 4, t8);
    take_bytes_of_concat(g.token, t9);
    take_bytes_of_concat(g.socket, r);
    lemma_guardian_regions(g.regions, 0);
    assert(g.regions.skip(0) =~= g.regions);
    assert(g.regions.subrange(0, 0) =~= Seq::<MemoryRegionDesc>::empty());
}

proof fn lemma_guardian_accepted(b: Seq<u8>, n: nat, acc: Seq<MemoryRegionDesc>)
    requires
        guardian_regions_from(b, n, acc) is Ok,
        forall|i: int| 0 <= i < acc.len() ==> #[trigger] guardian_region_ok(acc, i),
    ensures
        ({
            let (all, rest) = guardian_regions_from(b, n, acc)->Ok_0;
            &&& all.len() == acc.len() + n
            &&& forall|i: int| 0 <= i < all.len() ==> #[trigger] guardian_region_ok(all, i)
        }),
    decreases n,
{
    if n > 0 {
        lemma_pow256_values();
        le_bytes_of_take_le(b, 8);
        let (gpa, b1) = take_le(b, 8)->0;
        le_bytes_of_take_le(b1, 8);
        let (len, b2) = take_le(b1, 8)->0;
        let acc2 = acc.push(MemoryRegionDesc { gpa: gpa as u64, len: len as u64 });
        assert forall|i: int| 0 <= i < acc2.len() implies #[trigger] guardian_region_ok(
            acc2,
            i,
        ) by {
            if i < acc.len() {
                assert(guardian_region_ok(acc, i));
                assert(acc2.subrange(0, i) =~= acc.subrange(0, i));
            } else {
                assert(acc2.subrange(0, i) =~= acc);
            }
        }
        lemma_guardian_accepted(b2, (n - 1) as nat, acc2);
    }
}

/// Whatever a guardian manifest is accepted for is valid.
pub proof fn accepted_guardians_are_valid(b: Seq<u8>)
    requires
        guardian_decoded(b) is Ok,
    ensures
        guardian_valid(guardian_decoded(b)->Ok_0),
{
    lemma_pow256_values();
    le_bytes_of_take_le(b, 8);
    let (_, b1) = take_le(b, 8)->0;
    let (_, b2) = take_le(b1, 4)->0;
    let (_, b3) = take_le(b2, 4)->0;
    let (_, b4) = take_le(b3, 4)->0;
    let (_, b5) = take_le(b4, 4)->0;
    le_bytes_of_take_le(b5, 8);
    let (_, b6) = take_le(b5, 8)->0;
    le_bytes_of_take_le(b6, 4);
    let (socket_len, b7) = take_le(b6, 4)->0;
    let (region_count, b8) = take_le(b7, 4)->0;
    let (_, b9) = take_bytes(b8, 32)->0;
    let (_, b10) = take_bytes(b9, socket_len)->0;
    lemma_guardian_accepted(b10, region_count, Seq::empty());
}

// ---------------------------------------------------------------------------
// Restoring.
// ---------------------------------------------------------------------------

/// What a snapshot directory restores from, by its manifest.
#[derive(Debug, Clone)]
pub enum RestorePlan {
    /// An eager memory image of the given length.
    Portable { regions: Vec<MemoryRegionDesc>, image_len: u64 },
    /// RAM that a guardian process hands out on demand.
    Guardian(GuardianGenerationDesc),
    /// RAM of the process that was forked.
    Fork { owner_pid: i32, memfds: Vec<MemfdRegionDesc> },
}

/// Why a manifest cannot be restored from.
#[derive(Debug, Clone, Copy, PartialEq, Eq, Structural)]
pub enum RestoreFault {
    Truncated,
    Portable(PortableFault),
    Guardian(GuardianFault),
    Fork(ForkFault),
    Unrecognized,
}

impl RestoreFault {
    pub open spec fn text(self) -> Seq<char> {
        match self {
            RestoreFault::Truncated => "manifest: truncated"@,
            RestoreFault::Portable(fault) => "manifest: "@ + fault.text(),
            RestoreFault::Guardian(fault) => "guardian manifest: "@ + fault.text(),
            RestoreFault::Fork(fault) => "manifest: "@ + fault.text(),
            RestoreFault::Unrecognized => "manifest: unrecognized snapshot format"@,
        }
    }

    pub fn message(&self) -> (r: String)
        ensures
            r@ == self.text(),
    {
        match self {
            RestoreFault::Truncated => "manifest: truncated".to_string(),
            RestoreFault::Portable(fault) => crate::text::join2(
                "manifest: ",
                fault.message().as_str(),
            ),
            RestoreFault::Guardian(fault) => crate::text::join2(
                "guardian manifest: ",
                fault.message().as_str(),
            ),
            RestoreFault::Fork(fault) => crate::text::join2(
                "manifest: ",
                fault.message().as_str(),
            ),
            RestoreFault::Unrecognized => "manifest: unrecognized snapshot format".to_string(),
        }
    }
}

/// The plan restores what the manifest describes.
pub open spec fn plan_matches(manifest: Seq<u8>, guardians: bool, r: Result<RestorePlan, RestoreFault>) -> bool {
    match take_le(manifest, 8) {
        None => r is Err && r->Err_0 == RestoreFault::Truncated,
        Some((magic, _)) => if magic == PORTABLE_MANIFEST_MAGIC {
            match portable_decoded(manifest) {
                Ok(descs) => r matches Ok(RestorePlan::Portable { regions, image_len })
                    && regions@ == descs && image_len == total_len(descs),
                Err(fault) => r is Err && r->Err_0 == RestoreFault::Portable(fault),
            }
        } else if magic == GUARDIAN_MANIFEST_MAGIC && guardians {
            match guardian_decoded(manifest) {
                Ok(g) => r matches Ok(RestorePlan::Guardian(desc)) && desc@ == g,
                Err(fault) => r is Err && r->Err_0 == RestoreFault::Guardian(fault),
            }
        } else if magic == FORK_MANIFEST_MAGIC {
            match fork_decoded(manifest) {
                Ok((pid, descs)) => r matches Ok(RestorePlan::Fork { owner_pid, memfds })
                    && owner_pid == pid && fork_regions(memfds@) =~= descs,
                Err(fault) => r is Err && r->Err_0 == RestoreFault::Fork(fault),
            }
        } else {
            r is Err && r->Err_0 == RestoreFault::Unrecognized
        },
    }
}

/// What to restore from, by the manifest of a snapshot directory. Only some
/// platforms have guardians.
pub fn plan_restore(manifest: &[u8], guardians: bool) -> (r: Result<RestorePlan, RestoreFault>)
    ensures
        plan_matches(manifest@, guardians, r),
{
    proof {
        lemma_pow256_values();
    }
    let mut c = Cursor::new(manifest);
    let magic: u64 = match c.number(8) {
        Some(v) => v as u64,
        None => return Err(RestoreFault::Truncated),
    };
    if magic == PORTABLE_MANIFEST_MAGIC {
        match decode_portable_manifest(manifest) {
            Ok(regions) => {
                proof {
                    accepted_portable_manifests_are_canonical(manifest@);
                    let n = regions@.len() as int;
                    assert(portable_region_ok(regions@, n - 1));
                    assert(regions@.subrange(0, n - 1) =~= regions@.drop_last());
                }
                let image_len: u64 = memory_image_len(regions.as_slice());
                Ok(RestorePlan::Portable { regions, image_len })
            },
            Err(fault) => Err(RestoreFault::Portable(fault)),
        }
    } else if magic == GUARDIAN_MANIFEST_MAGIC && guardians {
        match decode_guardian_manifest(manifest) {
            Ok(desc) => Ok(RestorePlan::Guardian(desc)),
            Err(fault) => Err(RestoreFault::Guardian(fault)),
        }
    } else if magic == FORK_MANIFEST_MAGIC {
        match decode_fork_manifest(manifest) {
            Ok((owner_pid, memfds)) => Ok(RestorePlan::Fork { owner_pid, memfds }),
            Err(fault) => Err(RestoreFault::Fork(fault)),
        }
    } else {
        Err(RestoreFault::Unrecognized)
    }
}

impl RestorePlan {
    /// Which regions can back a further fork: all of an image and of a
    /// guardian's RAM, and those of a fork base that have a backing.
    pub open spec fn fork_backing(self) -> Seq<bool> {
        match self {
            RestorePlan::Portable { regions, .. } => Seq::new(regions@.len(), |i: int| true),
            RestorePlan::Guardian(desc) => Seq::new(desc.regions@.len(), |i: int| true),
            RestorePlan::Fork { memfds, .. } => Seq::new(
                memfds@.len(),
                |i: int| memfds@[i].fd >= 0 || memfds@[i].path@.len() > 0,
            ),
        }
    }

    pub fn fork_backed_regions(&self) -> (r: Vec<bool>)
        ensures
            r@ == self.fork_backing(),
    {
        let mut out: Vec<bool> = Vec::new();
        match self {
            RestorePlan::Portable { regions, .. } => {
                out = vec![true; regions.len()];
                assert(out@ =~= self.fork_backing());
            },
            RestorePlan::Guardian(desc) => {
                out = vec![true; desc.regions.len()];
                assert(out@ =~= self.fork_backing());
            },
            RestorePlan::Fork { memfds, .. } => {
                let mut i: usize = 0;
                while i < memfds.len()
                    invariant
                        i <= memfds@.len(),
                        out@.len() == i,
                        forall|k: int|
                            0 <= k < i ==> #[trigger] out@[k] == (memfds@[k].fd >= 0
                                || memfds@[k].path@.len() > 0),
                    decreases memfds@.len() - i,
                {
                    out.push(fork_backed(&memfds[i]));
                    i += 1;
                }
                assert(out@ =~= self.fork_backing());
            },
        }
        out
    }

    /// Whether the guest's clock is rebuilt from the checkpoint alone.
    pub fn portable_clock(&self) -> (r: bool)
        ensures
            r == (self is Portable),
    {
        match self {
            RestorePlan::Portable { .. } => true,
            _ => false,
        }
    }
}

} // verus!
