//! Guest DRAM: one contiguous, bounds-checked, little-endian byte region.

use vstd::prelude::*;

verus! {

/// The number whose little-endian bytes are `s`.
pub open spec fn le_value(s: Seq<u8>) -> nat
    decreases s.len(),
{
    if s.len() == 0 {
        0
    } else {
        s[0] as nat + 256 * le_value(s.drop_first())
    }
}

/// The `n` low little-endian bytes of `v`.
pub open spec fn le_bytes(v: nat, n: nat) -> Seq<u8>
    decreases n,
{
    if n == 0 {
        Seq::empty()
    } else {
        seq![(v % 256) as u8] + le_bytes(v / 256, (n - 1) as nat)
    }
}

/// `s` with the bytes from `off` on replaced by `d`.
pub open spec fn splice(s: Seq<u8>, off: int, d: Seq<u8>) -> Seq<u8> {
    Seq::new(
        s.len(),
        |i: int|
            if off <= i < off + d.len() {
                d[i - off]
            } else {
                s[i]
            },
    )
}

/// 256 to the power `n`.
pub open spec fn pow256(n: nat) -> nat
    decreases n,
{
    if n == 0 {
        1
    } else {
        256 * pow256((n - 1) as nat)
    }
}

/// `n` bytes hold the numbers below 256 to the `n`.
pub proof fn le_value_bound(s: Seq<u8>)
    ensures
        le_value(s) < pow256(s.len()),
    decreases s.len(),
{
    if s.len() > 0 {
        le_value_bound(s.drop_first());
    }
}

pub proof fn le_bytes_len(v: nat, n: nat)
    ensures
        le_bytes(v, n).len() == n,
    decreases n,
{
    if n > 0 {
        le_bytes_len(v / 256, (n - 1) as nat);
    }
}

/// Encoding a number and decoding it gives the number back, when it fits.
pub proof fn le_value_of_le_bytes(v: nat, n: nat)
    requires
        v < pow256(n),
    ensures
        le_value(le_bytes(v, n)) == v,
        le_bytes(v, n).len() == n,
    decreases n,
{
    if n > 0 {
        le_value_of_le_bytes(v / 256, (n - 1) as nat);
        assert(le_bytes(v, n).drop_first() =~= le_bytes(v / 256, (n - 1) as nat));
    }
}

/// Decoding bytes and encoding the number gives the bytes back.
pub proof fn le_bytes_of_le_value(s: Seq<u8>)
    ensures
        le_bytes(le_value(s), s.len()) =~= s,
    decreases s.len(),
{
    if s.len() > 0 {
        le_bytes_of_le_value(s.drop_first());
        assert(le_value(s) / 256 == le_value(s.drop_first()));
        assert(le_value(s) % 256 == s[0]);
        assert(s =~= seq![s[0]] + s.drop_first());
    }
}

pub proof fn lemma_pow256_values()
    ensures
        pow256(0) == 1,
        pow256(1) == 0x100,
        pow256(2) == 0x1_0000,
        pow256(4) == 0x1_0000_0000,
        pow256(8) == 0x1_0000_0000_0000_0000,
        pow256(16) == 0x1_0000_0000_0000_0000_0000_0000_0000_0000,
{
    reveal_with_fuel(pow256, 17);
}

pub proof fn lemma_pow256_mono(a: nat, b: nat)
    requires
        a <= b,
    ensures
        0 < pow256(a) <= pow256(b),
    decreases b,
{
    if a < b {
        lemma_pow256_mono(a, (b - 1) as nat);
    } else if a > 0 {
        lemma_pow256_mono((a - 1) as nat, (b - 1) as nat);
    }
}

/// Where the access `gpa..gpa+size` falls in a region of `len` bytes at
/// `base`, if it lies wholly inside.
pub open spec fn ram_offset(base: u64, len: nat, gpa: u64, size: int) -> Option<int> {
    if base <= gpa && gpa - base + size <= len {
        Some(gpa - base)
    } else {
        None
    }
}

/// The `size`-byte number at `gpa`, if the access lies inside the region.
pub open spec fn ram_load(base: u64, bytes: Seq<u8>, gpa: u64, size: int) -> Option<u64> {
    match ram_offset(base, bytes.len(), gpa, size) {
        Some(off) => Some(le_value(bytes.subrange(off, off + size)) as u64),
        None => None,
    }
}

/// The region after a `size`-byte store of `val` at `gpa`: unchanged where
/// the access does not lie inside.
pub open spec fn ram_store(base: u64, bytes: Seq<u8>, gpa: u64, size: int, val: nat) -> Seq<u8> {
    match ram_offset(base, bytes.len(), gpa, size) {
        Some(off) => splice(bytes, off, le_bytes(val, size as nat)),
        None => bytes,
    }
}

/// The number whose little-endian bytes are given.
pub fn le_u64(bytes: &[u8]) -> (r: u64)
    requires
        bytes@.len() <= 8,
    ensures
        r == le_value(bytes@),
{
    let mut i: usize = bytes.len();
    let mut val: u64 = 0;
    let ghost n = bytes@.len() as int;
    assert(bytes@.subrange(n, n) =~= Seq::<u8>::empty());
    while i > 0
        invariant
            i <= n <= 8,
            n == bytes@.len(),
            val == le_value(bytes@.subrange(i as int, n)),
        decreases i,
    {
        let ghost rest = bytes@.subrange(i as int, n);
        proof {
            assert(bytes@.subrange(i - 1, n).drop_first() =~= rest);
            le_value_bound(rest);
            lemma_pow256_mono(rest.len(), 7);
            reveal_with_fuel(pow256, 8);
        }
        i = i - 1;
        val = val * 256 + bytes[i] as u64;
    }
    assert(bytes@.subrange(0, n) =~= bytes@);
    val
}

/// A number loaded from `size` bytes fits in them.
pub proof fn load_is_narrow(base: u64, bytes: Seq<u8>, gpa: u64, size: int)
    requires
        size == 1 || size == 2 || size == 4 || size == 8,
    ensures
        ram_load(base, bytes, gpa, size) matches Some(v) ==> v < pow256(size as nat),
        size == 4 ==> (ram_load(base, bytes, gpa, size) matches Some(v) ==> v < 0x1_0000_0000),
{
    lemma_pow256_values();
    if let Some(off) = ram_offset(base, bytes.len(), gpa, size) {
        le_value_bound(bytes.subrange(off, off + size));
        lemma_pow256_mono(size as nat, 8);
    }
}

/// A single contiguous guest DRAM region mapped at `gpa_base`.
pub struct GuestRam {
    bytes: Vec<u8>,
    gpa_base: u64,
}

impl View for GuestRam {
    type V = Seq<u8>;

    closed spec fn view(&self) -> Seq<u8> {
        self.bytes@
    }
}

impl GuestRam {
    pub closed spec fn base(&self) -> u64 {
        self.gpa_base
    }

    /// A region is no larger than the address space of the host.
    pub proof fn fits(&self)
        ensures
            self@.len() <= usize::MAX,
    {
        assert(self@.len() == self.bytes.len());
    }

    /// Allocate a zero-filled region.
    pub fn new_owned(gpa_base: u64, len: usize) -> (r: Self)
        requires
            len <= isize::MAX - 15,
        ensures
            r@ == Seq::new(len as nat, |i: int| 0u8),
            r.base() == gpa_base,
    {
        let bytes: Vec<u8> = vec![0u8; len];
        assert(bytes@ =~= Seq::new(len as nat, |i: int| 0u8));
        GuestRam { bytes, gpa_base }
    }

    pub fn gpa_base(&self) -> (r: u64)
        ensures
            r == self.base(),
    {
        self.gpa_base
    }

    pub fn len(&self) -> (r: u64)
        ensures
            r == self@.len(),
    {
        self.bytes.len() as u64
    }

    pub fn is_empty(&self) -> (r: bool)
        ensures
            r == (self@.len() == 0),
    {
        self.bytes.len() == 0
    }

    /// Byte offset into the region if `gpa..gpa+size` lies entirely inside.
    #[inline]
    fn offset(&self, gpa: u64, size: u64) -> (r: Option<usize>)
        ensures
            match ram_offset(self.base(), self@.len(), gpa, size as int) {
                Some(off) => r == Some(off as usize) && off + size <= self@.len() <= usize::MAX,
                None => r is None,
            },
    {
        assert(self@.len() == self.bytes.len());
        let off: u64 = match gpa.checked_sub(self.gpa_base) {
            Some(off) => off,
            None => return None,
        };
        match off.checked_add(size) {
            Some(end) if end <= self.bytes.len() as u64 => Some(off as usize),
            _ => None,
        }
    }

    #[inline]
    pub fn contains(&self, gpa: u64, size: u64) -> (r: bool)
        ensures
            r == (ram_offset(self.base(), self@.len(), gpa, size as int) is Some),
    {
        self.offset(gpa, size).is_some()
    }

    /// Byte offset of the 4 KiB page holding `gpa`, if that whole page lies
    /// inside the region. Callers cache it and then read anywhere inside the
    /// page without re-checking bounds.
    #[inline]
    pub fn page_offset(&self, gpa: u64) -> (r: Option<usize>)
        ensures
            match ram_offset(self.base(), self@.len(), gpa & !0xfff, 0x1000) {
                Some(off) => r == Some(off as usize) && off + 0x1000 <= self@.len() <= usize::MAX,
                None => r is None,
            },
    {
        self.offset(gpa & !0xfff, 0x1000)
    }

    /// Little-endian read of 4 bytes at a byte offset that lies inside.
    #[inline]
    pub fn read_u32_at(&self, off: usize) -> (r: u32)
        requires
            off + 4 <= self@.len(),
        ensures
            r == le_value(self@.subrange(off as int, off + 4)),
    {
        proof {
            le_value_bound(self@.subrange(off as int, off + 4));
            lemma_pow256_values();
        }
        self.load_at(off, 4) as u32
    }

    /// Little-endian load of up to 8 bytes at an offset that lies inside.
    #[inline]
    pub fn load_at(&self, off: usize, size: usize) -> (r: u64)
        requires
            size <= 8,
            off + size <= self@.len(),
        ensures
            r == le_value(self@.subrange(off as int, off + size)),
    {
        let mut i: usize = size;
        let mut val: u64 = 0;
        proof {
            lemma_pow256_values();
            assert(self@.subrange(off + size, off + size) =~= Seq::<u8>::empty());
            assert(self@.len() == self.bytes.len());
        }
        while i > 0
            invariant
                i <= size <= 8,
                off + size <= self@.len() <= usize::MAX,
                val == le_value(self@.subrange(off + i, off + size)),
            decreases i,
        {
            let ghost rest = self@.subrange(off + i, off + size);
            let ghost more = self@.subrange(off + i - 1, off + size);
            proof {
                assert(more.drop_first() =~= rest);
                le_value_bound(rest);
                lemma_pow256_mono(rest.len(), 7);
                reveal_with_fuel(pow256, 8);
            }
            i = i - 1;
            val = val * 256 + self.bytes[off + i] as u64;
        }
        val
    }

    /// Little-endian store of up to 8 bytes at an offset that lies inside.
    #[inline]
    pub fn store_at(&mut self, off: usize, size: usize, val: u64)
        requires
            size <= 8,
            off + size <= old(self)@.len(),
        ensures
            final(self).base() == old(self).base(),
            final(self)@ == splice(old(self)@, off as int, le_bytes(val as nat, size as nat)),
    {
        self.write_le(off, size, val as u128)
    }

    /// Little-endian store of up to 16 bytes at an offset that lies inside.
    fn write_le(&mut self, off: usize, size: usize, val: u128)
        requires
            size <= 16,
            off + size <= old(self)@.len(),
        ensures
            final(self).base() == old(self).base(),
            final(self)@ == splice(old(self)@, off as int, le_bytes(val as nat, size as nat)),
    {
        let ghost before = self@;
        let ghost d = le_bytes(val as nat, size as nat);
        let mut v: u128 = val;
        let mut k: usize = 0;
        proof {
            le_bytes_len(val as nat, size as nat);
            assert(d.subrange(0, size as int) =~= d);
            assert(self@.len() == self.bytes.len());
        }
        while k < size
            invariant
                k <= size <= 16,
                off + size <= before.len() <= usize::MAX,
                self.base() == old(self).base(),
                self@.len() == before.len(),
                d.len() == size,
                d.subrange(k as int, size as int) == le_bytes(v as nat, (size - k) as nat),
                forall|i: int|
                    0 <= i < before.len() ==> #[trigger] self@[i] == (if off <= i < off + k {
                        d[i - off]
                    } else {
                        before[i]
                    }),
            decreases size - k,
        {
            let ghost rest = d.subrange(k as int, size as int);
            proof {
                assert(rest[0] == (v as nat % 256) as u8);
                assert(d.subrange(k + 1, size as int) =~= rest.drop_first());
                assert(rest.drop_first() =~= le_bytes(v as nat / 256, (size - k - 1) as nat));
            }
            self.bytes[off + k] = (v % 256) as u8;
            v = v / 256;
            k = k + 1;
        }
        assert(self@ =~= splice(before, off as int, d));
    }

    /// Little-endian load of 1/2/4/8 bytes, any alignment (byte-composed).
    #[inline]
    pub fn load(&self, gpa: u64, size: usize) -> (r: Option<u64>)
        requires
            size == 1 || size == 2 || size == 4 || size == 8,
        ensures
            r == ram_load(self.base(), self@, gpa, size as int),
    {
        match self.offset(gpa, size as u64) {
            Some(off) => Some(self.load_at(off, size)),
            None => None,
        }
    }

    /// Little-endian store of 1/2/4/8 bytes, any alignment.
    #[inline]
    pub fn store(&mut self, gpa: u64, size: usize, val: u64) -> (r: Option<()>)
        requires
            size == 1 || size == 2 || size == 4 || size == 8,
        ensures
            (r is Some) == (ram_offset(old(self).base(), old(self)@.len(), gpa, size as int)
                is Some),
            final(self).base() == old(self).base(),
            final(self)@ == ram_store(old(self).base(), old(self)@, gpa, size as int, val as nat),
    {
        match self.offset(gpa, size as u64) {
            Some(off) => {
                self.store_at(off, size, val);
                Some(())
            },
            None => None,
        }
    }

    /// 16-byte little-endian load.
    pub fn load_u128(&self, gpa: u64) -> (r: Option<u128>)
        ensures
            r == (match ram_offset(self.base(), self@.len(), gpa, 16) {
                Some(off) => Some(le_value(self@.subrange(off, off + 16)) as u128),
                None => None,
            }),
    {
        let off: usize = match self.offset(gpa, 16) {
            Some(off) => off,
            None => return None,
        };
        let lo: u64 = self.load_at(off, 8);
        let hi: u64 = self.load_at(off + 8, 8);
        proof {
            lemma_le_value_split(self@.subrange(off as int, off + 16), 8);
            lemma_pow256_values();
            assert(self@.subrange(off as int, off + 16).subrange(0, 8) =~= self@.subrange(
                off as int,
                off + 8,
            ));
            assert(self@.subrange(off as int, off + 16).subrange(8, 16) =~= self@.subrange(
                off + 8,
                off + 16,
            ));
        }
        assert(0x1_0000_0000_0000_0000u128 * (hi as u128) + lo as u128 <= u128::MAX)
            by (nonlinear_arith)
            requires
                lo <= 0xffff_ffff_ffff_ffff,
                hi <= 0xffff_ffff_ffff_ffff,
        ;
        Some(0x1_0000_0000_0000_0000u128 * (hi as u128) + lo as u128)
    }

    pub fn store_u128(&mut self, gpa: u64, val: u128) -> (r: Option<()>)
        ensures
            (r is Some) == (ram_offset(old(self).base(), old(self)@.len(), gpa, 16) is Some),
            final(self).base() == old(self).base(),
            final(self)@ == ram_store(old(self).base(), old(self)@, gpa, 16, val as nat),
    {
        match self.offset(gpa, 16) {
            Some(off) => {
                self.write_le(off, 16, val);
                Some(())
            },
            None => None,
        }
    }

    /// Byte offset of the aligned 4-byte word at `gpa`, for the A extension.
    pub fn atomic_u32(&self, gpa: u64) -> (r: Option<usize>)
        ensures
            match ram_offset(self.base(), self@.len(), gpa, 4) {
                Some(off) if gpa % 4 == 0 => r == Some(off as usize) && off + 4 <= self@.len()
                    <= usize::MAX,
                _ => r is None,
            },
    {
        if gpa % 4 != 0 {
            return None;
        }
        self.offset(gpa, 4)
    }

    /// Byte offset of the aligned 8-byte word at `gpa`, for the A extension.
    pub fn atomic_u64(&self, gpa: u64) -> (r: Option<usize>)
        ensures
            match ram_offset(self.base(), self@.len(), gpa, 8) {
                Some(off) if gpa % 8 == 0 => r == Some(off as usize) && off + 8 <= self@.len()
                    <= usize::MAX,
                _ => r is None,
            },
    {
        if gpa % 8 != 0 {
            return None;
        }
        self.offset(gpa, 8)
    }

    /// Bulk copy into RAM (ELF loading).
    pub fn write_slice(&mut self, gpa: u64, data: &[u8]) -> (r: Option<()>)
        ensures
            final(self).base() == old(self).base(),
            match ram_offset(old(self).base(), old(self)@.len(), gpa, data@.len() as int) {
                Some(off) => r is Some && final(self)@ == splice(old(self)@, off, data@),
                None => r is None && final(self)@ == old(self)@,
            },
    {
        let off: usize = match self.offset(gpa, data.len() as u64) {
            Some(off) => off,
            None => return None,
        };
        let ghost before = self@;
        let mut k: usize = 0;
        while k < data.len()
            invariant
                k <= data@.len(),
                off + data@.len() <= before.len() <= usize::MAX,
                self.base() == old(self).base(),
                self@.len() == before.len(),
                forall|i: int|
                    0 <= i < before.len() ==> #[trigger] self@[i] == (if off <= i < off + k {
                        data@[i - off]
                    } else {
                        before[i]
                    }),
            decreases data@.len() - k,
        {
            self.bytes[off + k] = data[k];
            k = k + 1;
        }
        assert(self@ =~= splice(before, off as int, data@));
        Some(())
    }

    /// Bulk copy out of RAM.
    pub fn read_slice(&self, gpa: u64, out: &mut [u8]) -> (r: Option<()>)
        ensures
            match ram_offset(self.base(), self@.len(), gpa, old(out)@.len() as int) {
                Some(off) => r is Some && final(out)@ == self@.subrange(
                    off,
                    off + old(out)@.len(),
                ),
                None => r is None && final(out)@ == old(out)@,
            },
    {
        let n: usize = out.len();
        let off: usize = match self.offset(gpa, n as u64) {
            Some(off) => off,
            None => return None,
        };
        let mut k: usize = 0;
        while k < n
            invariant
                k <= n,
                n == out@.len(),
                off + n <= self@.len() <= usize::MAX,
                forall|i: int| 0 <= i < k ==> #[trigger] out@[i] == self@[off + i],
            decreases n - k,
        {
            out[k] = self.bytes[off + k];
            k = k + 1;
        }
        assert(out@ =~= self@.subrange(off as int, off + n));
        Some(())
    }

    pub fn fill_zero(&mut self, gpa: u64, len: u64) -> (r: Option<()>)
        ensures
            final(self).base() == old(self).base(),
            match ram_offset(old(self).base(), old(self)@.len(), gpa, len as int) {
                Some(off) => r is Some && final(self)@ == splice(
                    old(self)@,
                    off,
                    Seq::new(len as nat, |i: int| 0u8),
                ),
                None => r is None && final(self)@ == old(self)@,
            },
    {
        let off: usize = match self.offset(gpa, len) {
            Some(off) => off,
            None => return None,
        };
        let ghost before = self@;
        let mut k: usize = 0;
        while k < len as usize
            invariant
                k <= len,
                len as usize == len,
                off + len <= before.len() <= usize::MAX,
                self.base() == old(self).base(),
                self@.len() == before.len(),
                forall|i: int|
                    0 <= i < before.len() ==> #[trigger] self@[i] == (if off <= i < off + k {
                        0u8
                    } else {
                        before[i]
                    }),
            decreases len - k,
        {
            self.bytes[off + k] = 0;
            k = k + 1;
        }
        assert(self@ =~= splice(before, off as int, Seq::new(len as nat, |i: int| 0u8)));
        Some(())
    }
}

/// Splitting a byte string splits its number.
pub proof fn lemma_le_value_split(s: Seq<u8>, n: int)
    requires
        0 <= n <= s.len(),
    ensures
        le_value(s) == le_value(s.subrange(0, n)) + pow256(n as nat) * le_value(
            s.subrange(n, s.len() as int),
        ),
    decreases n,
{
    let hi = le_value(s.subrange(n, s.len() as int));
    if n == 0 {
        assert(s.subrange(0, s.len() as int) =~= s);
        assert(pow256(0) * hi == hi) by (nonlinear_arith)
            requires
                pow256(0) == 1,
        ;
    } else {
        lemma_le_value_split(s.drop_first(), n - 1);
        assert(s.drop_first().subrange(0, n - 1) =~= s.subrange(0, n).drop_first());
        assert(s.drop_first().subrange(n - 1, s.len() - 1) =~= s.subrange(n, s.len() as int));
        let p = pow256((n - 1) as nat);
        assert(256 * (p * hi) == (256 * p) * hi) by (nonlinear_arith);
        assert(le_value(s) == s[0] + 256 * le_value(s.drop_first()));
        assert(le_value(s.subrange(0, n)) == s[0] + 256 * le_value(s.subrange(0, n).drop_first()));
        assert(pow256(n as nat) == 256 * p);
    }
}

/// A load from where a store of the same width went gives the stored number
/// back, cut to that width; a load that does not overlap it is unaffected.
pub proof fn load_after_store(base: u64, bytes: Seq<u8>, gpa: u64, n: int, val: nat, at: u64, m: int)
    requires
        0 <= n,
        0 <= m,
        ram_offset(base, bytes.len(), gpa, n) is Some,
    ensures
        at == gpa && m == n && val < pow256(n as nat) ==> ram_load(
            base,
            ram_store(base, bytes, gpa, n, val),
            at,
            m,
        ) == Some(val as u64),
        at + m <= gpa || gpa + n <= at ==> ram_load(
            base,
            ram_store(base, bytes, gpa, n, val),
            at,
            m,
        ) == ram_load(base, bytes, at, m),
        ram_store(base, bytes, gpa, n, val).len() == bytes.len(),
{
    let off = gpa - base;
    let d = le_bytes(val, n as nat);
    le_bytes_len(val, n as nat);
    let after = ram_store(base, bytes, gpa, n, val);
    if at == gpa && m == n && val < pow256(n as nat) {
        assert(after.subrange(off, off + n) =~= d);
        le_value_of_le_bytes(val, n as nat);
    }
    if (at + m <= gpa || gpa + n <= at) && ram_offset(base, bytes.len(), at, m) is Some {
        let o = at - base;
        assert(after.subrange(o, o + m) =~= bytes.subrange(o, o + m));
    }
}

} // verus!
